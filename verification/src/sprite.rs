//! Sprites and the sprite map: which rectangle of the sheet each sprite id
//! names.

use vstd::prelude::*;
use vstd::hash_map::StringHashMap;
use crate::error::{OozeError, OozeResult};
use crate::metadata::{
    document,
    element,
    integer,
    keys,
    member,
    parse_document,
    table,
    table_keys,
    value_element,
    value_integer,
    value_member,
    value_table,
};

verus! {

/// A sprite that can be drawn to the window: the rectangle of its image,
/// in pixels, that it is made of.
#[derive(Clone, Copy, Debug, PartialEq, Eq, Structural)]
pub struct Sprite {
    pub x: u32,
    pub y: u32,
    pub width: u32,
    pub height: u32,
}

impl Sprite {
    /// A sprite made of a whole image of the given size.
    pub fn new(width: u32, height: u32) -> (sprite: Sprite)
        ensures
            sprite == (Sprite { x: 0, y: 0, width, height }),
    {
        Sprite { x: 0, y: 0, width, height }
    }

    /// A sprite made of a rectangle of a spritesheet.
    pub fn from_sheet(x: u32, y: u32, width: u32, height: u32) -> (sprite: Sprite)
        ensures
            sprite == (Sprite { x, y, width, height }),
    {
        Sprite { x, y, width, height }
    }
}

/// One sprite of a sheet as its metadata names it: by the column and the
/// row in which it lies, counted in sprites.
pub struct SheetCell {
    pub id: String,
    pub column: i64,
    pub row: i64,
}

/// The metadata of a sheet: the width and the height of every sprite on
/// it, in pixels, and its sprites.
pub struct SheetMetadata {
    pub sprite_width: i64,
    pub sprite_height: i64,
    pub cells: Vec<SheetCell>,
}

/// The metadata of a sheet as a value: each sprite is its id, its column
/// and its row.
pub struct SheetModel {
    pub sprite_width: i64,
    pub sprite_height: i64,
    pub cells: Seq<(Seq<char>, i64, i64)>,
}

impl View for SheetMetadata {
    type V = SheetModel;

    open spec fn view(&self) -> SheetModel {
        SheetModel {
            sprite_width: self.sprite_width,
            sprite_height: self.sprite_height,
            cells: Seq::new(
                self.cells@.len(),
                |i: int| (self.cells@[i].id@, self.cells@[i].column, self.cells@[i].row),
            ),
        }
    }
}

/// The integer under a key of a table.
pub open spec fn integer_under(value: toml::Value, key: Seq<char>) -> Option<i64> {
    match member(value, key) {
        Some(found) => integer(found),
        None => None,
    }
}

/// The integer at an index of an array.
pub open spec fn integer_at(value: toml::Value, index: int) -> Option<i64> {
    match element(value, index) {
        Some(found) => integer(found),
        None => None,
    }
}

/// The sprite that the table of sprites holds under a name: an array that
/// starts with two integers, the column and the row.
pub open spec fn cell_named(sprites: toml::Value, name: Seq<char>) -> Option<(Seq<char>, i64, i64)> {
    match member(sprites, name) {
        Some(entry) => match (integer_at(entry, 0), integer_at(entry, 1)) {
            (Some(column), Some(row)) => Some((name, column, row)),
            _ => None,
        },
        None => None,
    }
}

/// What a document says of a sheet: `sprite_width` and `sprite_height`,
/// two integers of the table `dimensions`, and the table `sprites`, with
/// one entry for each sprite. `None` where one of them is missing or is
/// of another type.
pub open spec fn sheet_model(doc: toml::Value) -> Option<SheetModel> {
    match (member(doc, "dimensions"@), member(doc, "sprites"@)) {
        (Some(dimensions), Some(sprites)) => match (
            integer_under(dimensions, "sprite_width"@),
            integer_under(dimensions, "sprite_height"@),
            table(sprites),
        ) {
            (Some(sprite_width), Some(sprite_height), Some(names)) => {
                if forall|i: int|
                    0 <= i < keys(names).len() ==> cell_named(sprites, #[trigger] keys(names)[i])
                        is Some {
                    Some(
                        SheetModel {
                            sprite_width,
                            sprite_height,
                            cells: Seq::new(
                                keys(names).len(),
                                |i: int| cell_named(sprites, keys(names)[i])->0,
                            ),
                        },
                    )
                } else {
                    None
                }
            },
            _ => None,
        },
        _ => None,
    }
}

/// Whether a number of the metadata is a count of pixels or of sprites
/// that 32 bits hold.
pub open spec fn fits(value: i64) -> bool {
    0 <= value <= u32::MAX
}

impl SheetModel {
    /// Whether sprite `i` lies on the sheet at a place that 32 bits hold:
    /// its column and row do, and so do the pixels at which it starts.
    pub open spec fn cell_fits(self, i: int) -> bool {
        &&& fits(self.cells[i].1)
        &&& fits(self.cells[i].2)
        &&& self.cells[i].1 * self.sprite_width <= u32::MAX
        &&& self.cells[i].2 * self.sprite_height <= u32::MAX
    }

    /// Whether the sheet can be laid out: the size of a sprite and the
    /// place of each sprite are held by 32 bits.
    pub open spec fn well_sized(self) -> bool {
        &&& fits(self.sprite_width)
        &&& fits(self.sprite_height)
        &&& forall|i: int| 0 <= i < self.cells.len() ==> #[trigger] self.cell_fits(i)
    }

    /// The rectangle of sprite `i`: it starts at its column times the
    /// width of a sprite and its row times the height, and has the size
    /// of a sprite.
    pub open spec fn sprite(self, i: int) -> Sprite {
        Sprite {
            x: (self.cells[i].1 * self.sprite_width) as u32,
            y: (self.cells[i].2 * self.sprite_height) as u32,
            width: self.sprite_width as u32,
            height: self.sprite_height as u32,
        }
    }

    /// The map of the first `n` sprites. Of two sprites with one id the
    /// later stays.
    pub open spec fn sprites(self, n: int) -> Map<Seq<char>, Sprite>
        decreases n,
    {
        if n <= 0 {
            Map::empty()
        } else {
            self.sprites(n - 1).insert(self.cells[n - 1].0, self.sprite(n - 1))
        }
    }

    /// What laying out the sheet gives: the map of all its sprites, where
    /// the sheet is well sized.
    pub open spec fn layout(self) -> Option<Map<Seq<char>, Sprite>> {
        if self.well_sized() {
            Some(self.sprites(self.cells.len() as int))
        } else {
            None
        }
    }
}

/// Reads from a document what it says of a sheet.
#[verifier::loop_isolation(false)]
pub fn read_metadata(doc: &toml::Value) -> (result: Option<SheetMetadata>)
    ensures
        result is Some <==> sheet_model(*doc) is Some,
        result matches Some(metadata) ==> Some(metadata@) == sheet_model(*doc),
{
    let dimensions = match value_member(doc, "dimensions") {
        Some(found) => found,
        None => {
            return None;
        },
    };
    let sprites = match value_member(doc, "sprites") {
        Some(found) => found,
        None => {
            return None;
        },
    };
    let sprite_width: i64 = match read_integer_under(dimensions, "sprite_width") {
        Some(found) => found,
        None => {
            return None;
        },
    };
    let sprite_height: i64 = match read_integer_under(dimensions, "sprite_height") {
        Some(found) => found,
        None => {
            return None;
        },
    };
    let names = match value_table(sprites) {
        Some(found) => table_keys(found),
        None => {
            return None;
        },
    };
    let ghost wanted = keys(table(*sprites)->0);
    let mut cells: Vec<SheetCell> = Vec::new();
    let mut i: usize = 0;
    while i < names.len()
        invariant
            i <= names@.len(),
            names@.len() == wanted.len(),
            forall|k: int| 0 <= k < names@.len() ==> (#[trigger] names@[k])@ == wanted[k],
            cells@.len() == i,
            forall|k: int|
                0 <= k < i ==> cell_named(*sprites, wanted[k]) == Some(
                    ((#[trigger] cells@[k]).id@, cells@[k].column, cells@[k].row),
                ),
        decreases names@.len() - i,
    {
        let name = names[i].clone();
        let entry = match value_member(sprites, name.as_str()) {
            Some(found) => found,
            None => {
                assert(name@ == wanted[i as int]);
                assert(cell_named(*sprites, wanted[i as int]) is None);
                return None;
            },
        };
        let column = read_integer_at(entry, 0);
        let row = read_integer_at(entry, 1);
        match (column, row) {
            (Some(column), Some(row)) => {
                assert(name@ == wanted[i as int]);
                cells.push(SheetCell { id: name, column, row });
            },
            _ => {
                assert(name@ == wanted[i as int]);
                assert(cell_named(*sprites, wanted[i as int]) is None);
                return None;
            },
        }
        i = i + 1;
    }
    let metadata = SheetMetadata { sprite_width, sprite_height, cells };
    proof {
        assert forall|k: int| 0 <= k < wanted.len() implies cell_named(
            *sprites,
            #[trigger] wanted[k],
        ) is Some by {
            assert(cell_named(*sprites, wanted[k]) == Some(
                (cells@[k].id@, cells@[k].column, cells@[k].row),
            ));
        }
        let model = sheet_model(*doc)->0;
        assert(metadata@.cells =~= model.cells);
    }
    Some(metadata)
}

/// Reads the integer under a key of a table.
fn read_integer_under(value: &toml::Value, key: &str) -> (result: Option<i64>)
    ensures
        result == integer_under(*value, key@),
{
    match value_member(value, key) {
        Some(found) => value_integer(found),
        None => None,
    }
}

/// Reads the integer at an index of an array.
fn read_integer_at(value: &toml::Value, index: usize) -> (result: Option<i64>)
    ensures
        result == integer_at(*value, index as int),
{
    match value_element(value, index) {
        Some(found) => value_integer(found),
        None => None,
    }
}

/// Picks one of the indices below `len` with `IteratorRandom::choose`
/// and the generator of the thread. The choice is random: all that holds
/// of it is that there is none among no indices, and else one below
/// `len`.
#[verifier::external_body]
fn choose_index(len: usize) -> (chosen: Option<usize>)
    ensures
        len == 0 ==> chosen is None,
        len > 0 ==> chosen is Some,
        chosen matches Some(index) ==> index < len,
{
    rand::seq::IteratorRandom::choose(0..len, &mut rand::thread_rng())
}

/// The text of each string.
pub open spec fn texts(strings: Seq<String>) -> Seq<Seq<char>> {
    strings.map_values(|string: String| string@)
}

/// Maps strings to a Sprite.
pub struct SpriteMap {
    ids: Vec<String>,
    sprite_map: StringHashMap<Sprite>,
}

impl View for SpriteMap {
    type V = Map<Seq<char>, Sprite>;

    closed spec fn view(&self) -> Map<Seq<char>, Sprite> {
        self.sprite_map@
    }
}

impl SpriteMap {
    /// The ids are those of the map; each is listed, and listed once.
    #[verifier::type_invariant]
    spec fn listed(&self) -> bool {
        &&& texts(self.ids@).no_duplicates()
        &&& forall|i: int|
            0 <= i < self.ids@.len() ==> self.sprite_map@.contains_key((#[trigger] self.ids@[i])@)
        &&& forall|id: Seq<char>| #[trigger]
            self.sprite_map@.contains_key(id) ==> exists|i: int|
                0 <= i < self.ids@.len() && (#[trigger] self.ids@[i])@ == id
    }

    /// Makes a map of ids and sprites that belong together.
    fn assemble(ids: Vec<String>, sprite_map: StringHashMap<Sprite>) -> (map: SpriteMap)
        requires
            texts(ids@).no_duplicates(),
            forall|i: int| 0 <= i < ids@.len() ==> sprite_map@.contains_key((#[trigger] ids@[i])@),
            forall|id: Seq<char>| #[trigger]
                sprite_map@.contains_key(id) ==> exists|i: int|
                    0 <= i < ids@.len() && (#[trigger] ids@[i])@ == id,
        ensures
            map@ == sprite_map@,
    {
        proof {
            SpriteMap::lemma_listed(ids, sprite_map);
        }
        SpriteMap { ids, sprite_map }
    }

    /// Ids and sprites that belong together make a map.
    proof fn lemma_listed(ids: Vec<String>, sprite_map: StringHashMap<Sprite>)
        requires
            texts(ids@).no_duplicates(),
            forall|i: int| 0 <= i < ids@.len() ==> sprite_map@.contains_key((#[trigger] ids@[i])@),
            forall|id: Seq<char>| #[trigger]
                sprite_map@.contains_key(id) ==> exists|i: int|
                    0 <= i < ids@.len() && (#[trigger] ids@[i])@ == id,
        ensures
            (SpriteMap { ids, sprite_map }).listed(),
    {
        let candidate = SpriteMap { ids, sprite_map };
        assert(candidate.ids == ids);
        assert(candidate.sprite_map == sprite_map);
        assert(forall|id: Seq<char>| #[trigger]
            candidate.sprite_map@.contains_key(id) ==> exists|i: int|
                0 <= i < candidate.ids@.len() && (#[trigger] candidate.ids@[i])@ == id);
    }

    /// A map without sprites.
    pub fn new() -> (map: SpriteMap)
        ensures
            map@ == Map::<Seq<char>, Sprite>::empty(),
    {
        SpriteMap { ids: Vec::new(), sprite_map: StringHashMap::new() }
    }

    /// Puts a sprite under an id, in place of the one that was there.
    pub fn insert(&mut self, id: String, sprite: Sprite)
        ensures
            final(self)@ == old(self)@.insert(id@, sprite),
    {
        proof {
            use_type_invariant(&*self);
        }
        let mut held = SpriteMap::new();
        std::mem::swap(&mut held, self);
        proof {
            use_type_invariant(&held);
        }
        let SpriteMap { mut ids, mut sprite_map } = held;
        let known = sprite_map.contains_key(id.as_str());
        let ghost before = ids@;
        if !known {
            ids.push(id.clone());
        }
        sprite_map.insert(id, sprite);
        proof {
            assert forall|i: int, j: int|
                0 <= i < ids@.len() && 0 <= j < ids@.len() && i != j implies texts(ids@)[i] != texts(
                ids@,
            )[j] by {
                if i < before.len() {
                    assert(texts(before)[i] == texts(ids@)[i]);
                }
                if j < before.len() {
                    assert(texts(before)[j] == texts(ids@)[j]);
                }
            }
            assert forall|i: int| 0 <= i < ids@.len() implies sprite_map@.contains_key(
                (#[trigger] ids@[i])@,
            ) by {
                if i < before.len() {
                    assert(ids@[i] == before[i]);
                }
            }
            assert forall|key: Seq<char>| #[trigger] sprite_map@.contains_key(key) implies exists|
                i: int,
            |
                0 <= i < ids@.len() && (#[trigger] ids@[i])@ == key by {
                if key == id@ {
                    if known {
                        let i = choose|i: int| 0 <= i < before.len() && (#[trigger] before[i])@ == key;
                        assert(ids@[i]@ == key);
                    } else {
                        assert(ids@[ids@.len() - 1]@ == key);
                    }
                } else {
                    let i = choose|i: int| 0 <= i < before.len() && (#[trigger] before[i])@ == key;
                    assert(ids@[i]@ == key);
                }
            }
        }
        *self = SpriteMap::assemble(ids, sprite_map);
    }

    /// Get the sprite with the given id from this SpriteMap. An id that
    /// the map does not hold is an error.
    pub fn get(&self, id: &str) -> (result: OozeResult<&Sprite>)
        ensures
            result is Ok <==> self@.contains_key(id@),
            result matches Ok(sprite) ==> *sprite == self@[id@],
            result matches Err(err) ==> err is GenericError,
    {
        match self.sprite_map.get(id) {
            Some(sprite) => Ok(sprite),
            None => Err(OozeError::GenericError),
        }
    }

    /// Get a random sprite from this SpriteMap: one of those that it
    /// holds. A map without sprites has none to give.
    pub fn get_random(&self) -> (result: OozeResult<&Sprite>)
        ensures
            result is Err <==> self@.dom() =~= Set::<Seq<char>>::empty(),
            result matches Ok(sprite) ==> exists|id: Seq<char>|
                self@.contains_key(id) && self@[id] == *sprite,
            result matches Err(err) ==> err is GenericError,
    {
        proof {
            use_type_invariant(self);
        }
        match choose_index(self.ids.len()) {
            Some(index) => {
                assert(self.sprite_map@.contains_key(self.ids@[index as int]@));
                self.get(self.ids[index].as_str())
            },
            None => Err(OozeError::GenericError),
        }
    }

    /// The ids of the sprites, each once.
    pub fn ids(&self) -> (ids: &Vec<String>)
        ensures
            texts(ids@).no_duplicates(),
            forall|i: int| 0 <= i < ids@.len() ==> self@.contains_key((#[trigger] ids@[i])@),
            forall|id: Seq<char>| #[trigger]
                self@.contains_key(id) ==> exists|i: int|
                    0 <= i < ids@.len() && (#[trigger] ids@[i])@ == id,
    {
        proof {
            use_type_invariant(self);
        }
        &self.ids
    }

    /// Lay out the sprites of a sheet from its metadata: each sprite is
    /// the rectangle of the size of a sprite at its column and row. No map
    /// is made of metadata with a number that 32 bits do not hold.
    pub fn from_metadata(metadata: &SheetMetadata) -> (result: OozeResult<SpriteMap>)
        ensures
            result is Ok <==> metadata@.layout() is Some,
            result matches Ok(map) ==> Some(map@) == metadata@.layout(),
            result matches Err(err) ==> err is GenericError,
    {
        let limit: i64 = 0xFFFF_FFFF;
        if metadata.sprite_width < 0 || metadata.sprite_width > limit || metadata.sprite_height < 0
            || metadata.sprite_height > limit {
            return Err(OozeError::GenericError);
        }
        let mut map = SpriteMap::new();
        let ghost sheet = metadata@;
        let mut i: usize = 0;
        while i < metadata.cells.len()
            invariant
                i <= metadata.cells@.len(),
                sheet == metadata@,
                limit == u32::MAX,
                fits(sheet.sprite_width),
                fits(sheet.sprite_height),
                forall|k: int| 0 <= k < i ==> #[trigger] sheet.cell_fits(k),
                map@ == sheet.sprites(i as int),
            decreases metadata.cells@.len() - i,
        {
            let cell = &metadata.cells[i];
            if cell.column < 0 || cell.column > limit || cell.row < 0 || cell.row > limit {
                assert(!sheet.cell_fits(i as int));
                return Err(OozeError::GenericError);
            }
            let column: u64 = cell.column as u64;
            let row: u64 = cell.row as u64;
            let width: u64 = metadata.sprite_width as u64;
            let height: u64 = metadata.sprite_height as u64;
            assert(0 <= column * width <= 0xFFFF_FFFE_0000_0001) by (nonlinear_arith)
                requires
                    0 <= column <= 0xFFFF_FFFF,
                    0 <= width <= 0xFFFF_FFFF,
            ;
            assert(0 <= row * height <= 0xFFFF_FFFE_0000_0001) by (nonlinear_arith)
                requires
                    0 <= row <= 0xFFFF_FFFF,
                    0 <= height <= 0xFFFF_FFFF,
            ;
            let x: u64 = column * width;
            let y: u64 = row * height;
            if x > 0xFFFF_FFFF || y > 0xFFFF_FFFF {
                assert(!sheet.cell_fits(i as int));
                return Err(OozeError::GenericError);
            }
            let sprite = Sprite::from_sheet(
                x as u32,
                y as u32,
                width as u32,
                height as u32,
            );
            assert(sheet.cell_fits(i as int));
            assert(sprite == sheet.sprite(i as int));
            map.insert(cell.id.clone(), sprite);
            i = i + 1;
        }
        Ok(map)
    }

    /// Make the sprite map of a sheet from the text of its metadata, a
    /// TOML document.
    pub fn from_sheet(text: &str) -> (result: OozeResult<SpriteMap>)
        ensures
            match document(text@) {
                None => result matches Err(err) && err is TomlDeserializeError,
                Some(doc) => match sheet_model(doc) {
                    None => result matches Err(err) && err is GenericError,
                    Some(sheet) => {
                        &&& result is Ok <==> sheet.layout() is Some
                        &&& result matches Ok(map) ==> Some(map@) == sheet.layout()
                        &&& result matches Err(err) ==> err is GenericError
                    },
                },
            },
    {
        let doc = match parse_document(text) {
            Ok(doc) => doc,
            Err(err) => {
                return Err(OozeError::TomlDeserializeError(err));
            },
        };
        match read_metadata(&doc) {
            Some(metadata) => SpriteMap::from_metadata(&metadata),
            None => Err(OozeError::GenericError),
        }
    }
}

} // verus!
