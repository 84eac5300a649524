//! The layered terminal: a grid of cells with a fixed number of layers,
//! which draws only the cells that changed since the frame before last.
//!
//! The display swaps two buffers, so a cell that changed has to be drawn in
//! two frames running: in the frame after the change, and once more in
//! the next, for the buffer that was hidden then.

use vstd::prelude::*;
use crate::color::{Color, ONE, ZERO};
use crate::layers::{arrange, in_layer_order};

verus! {

/// Something that the renderer can draw: it names its texture and the
/// program that draws it, each by the handle that the renderer knows it
/// by.
pub trait Renderable {
    /// The handle of the texture.
    fn texture(&self) -> usize;

    /// The handle of the program.
    fn program(&self) -> usize;
}

/// A glyph of the layered terminal: a texture, the program that draws it
/// and two colours.
#[derive(Debug, Clone, Copy, PartialEq, Eq, Structural)]
pub struct Glyph {
    pub texture: usize,
    pub program: usize,
    pub fg_color: Color,
    pub bg_color: Color,
}

impl Glyph {
    /// A white glyph on a background that is fully transparent.
    pub fn new(texture: usize, program: usize) -> (glyph: Glyph)
        ensures
            glyph == (Glyph {
                texture,
                program,
                fg_color: Color::spec_from_bits([ONE, ONE, ONE, ONE]),
                bg_color: Color::spec_from_bits([ZERO, ZERO, ZERO, ZERO]),
            }),
    {
        Glyph { texture, program, fg_color: Color::white(), bg_color: Color::clear() }
    }

    /// A glyph in the given colours.
    pub fn new_ex(texture: usize, program: usize, fg_color: Color, bg_color: Color) -> (glyph: Glyph)
        ensures
            glyph == (Glyph { texture, program, fg_color, bg_color }),
    {
        Glyph { texture, program, fg_color, bg_color }
    }
}

impl Renderable for Glyph {
    fn texture(&self) -> (texture: usize)
        ensures
            texture == self.texture,
    {
        self.texture
    }

    fn program(&self) -> (program: usize)
        ensures
            program == self.program,
    {
        self.program
    }
}

/// A cell of the grid: its column and its row.
pub type Cell = (usize, usize);

/// One item of a frame: what is drawn, in which cell, on which layer.
pub type Item = (Glyph, Cell, usize);

/// The cells, with `cell` at the end unless it is among them.
pub open spec fn marked(cells: Seq<Cell>, cell: Cell) -> Seq<Cell> {
    if cells.contains(cell) {
        cells
    } else {
        cells.push(cell)
    }
}

/// The cells, with each of `more` marked in turn.
pub open spec fn marked_all(cells: Seq<Cell>, more: Seq<Cell>) -> Seq<Cell>
    decreases more.len(),
{
    if more.len() == 0 {
        cells
    } else {
        marked(marked_all(cells, more.drop_last()), more.last())
    }
}

/// The cells of a grid of the given width and height: column by column,
/// each column bottom to top.
pub open spec fn grid_cells(width: usize, height: usize) -> Seq<Cell> {
    Seq::new(width as nat, |x: int| column_cells(x, height)).flatten()
}

/// The cells of column `x` of a grid of the given height, bottom to top.
pub open spec fn column_cells(x: int, height: usize) -> Seq<Cell> {
    Seq::new(height as nat, |y: int| (x as usize, y as usize))
}

/// The cells of a grid that stand before the cell `(x, y)`.
pub open spec fn cells_before(x: int, y: int, height: usize) -> Seq<Cell> {
    Seq::new(x as nat, |i: int| column_cells(i, height)).flatten() + column_cells(x, height).take(y)
}

/// Whether a cell lies on the border of a grid of the given width and
/// height.
pub open spec fn on_border(width: usize, height: usize, cell: Cell) -> bool {
    cell.0 == 0 || cell.0 == width - 1 || cell.1 == 0 || cell.1 == height - 1
}

/// The layered terminal as a value.
pub struct TerminalModel {
    /// Width, height, layers.
    pub size: (usize, usize, usize),
    /// What the cell `(x, y)` holds on layer `l` is `contents[x][y][l]`.
    pub contents: Seq<Seq<Seq<Option<Glyph>>>>,
    /// The cells that changed since the last frame, each once, in the
    /// order in which they first did.
    pub dirties: Seq<Cell>,
    /// The cells that changed in the frame before.
    pub old_dirties: Seq<Cell>,
}

impl TerminalModel {
    /// Whether the place lies in the grid.
    pub open spec fn holds(self, x: usize, y: usize, layer: usize) -> bool {
        x < self.size.0 && y < self.size.1 && layer < self.size.2
    }

    /// Whether each of the cells lies in the grid, and none is there
    /// twice.
    pub open spec fn kept_once(self, cells: Seq<Cell>) -> bool {
        &&& cells.no_duplicates()
        &&& forall|k: int| 0 <= k < cells.len() ==> (#[trigger] cells[k]).0 < self.size.0 && cells[k].1
            < self.size.1
    }

    /// The grid is dense and of the size named, and the cells that
    /// changed are cells of it.
    pub open spec fn well_formed(self) -> bool {
        &&& self.contents.len() == self.size.0
        &&& forall|x: int|
            0 <= x < self.size.0 ==> (#[trigger] self.contents[x]).len() == self.size.1
        &&& forall|x: int, y: int|
            0 <= x < self.size.0 && 0 <= y < self.size.1 ==> (#[trigger] self.contents[x][y]).len()
                == self.size.2
        &&& self.kept_once(self.dirties)
        &&& self.kept_once(self.old_dirties)
    }

    /// The grid with `value` at a place, which has thereby changed.
    pub open spec fn with(self, x: usize, y: usize, layer: usize, value: Option<Glyph>) -> TerminalModel {
        TerminalModel {
            contents: self.contents.update(
                x as int,
                self.contents[x as int].update(
                    y as int,
                    self.contents[x as int][y as int].update(layer as int, value),
                ),
            ),
            dirties: marked(self.dirties, (x, y)),
            ..self
        }
    }

    /// Whether a bulk operation touches the cell: each cell, or each cell
    /// of the border.
    pub open spec fn chosen(self, border_only: bool, cell: Cell) -> bool {
        !border_only || on_border(self.size.0, self.size.1, cell)
    }

    /// Those of the cells that a bulk operation touches.
    pub open spec fn chosen_of(self, border_only: bool, cells: Seq<Cell>) -> Seq<Cell> {
        if border_only {
            cells.filter(|cell: Cell| on_border(self.size.0, self.size.1, cell))
        } else {
            cells
        }
    }

    /// The contents while a bulk operation is under way: `value` on the
    /// layers from `from` up to `to` of each chosen cell before the cell
    /// `(x_done, y_done)`, in the order of `grid_cells`, and on the layers
    /// from `from` up to `l_done` of that cell; everything else as it
    /// was.
    pub open spec fn painted_contents(
        self,
        x_done: int,
        y_done: int,
        l_done: int,
        border_only: bool,
        from: int,
        to: int,
        value: Option<Glyph>,
    ) -> Seq<Seq<Seq<Option<Glyph>>>> {
        Seq::new(
            self.contents.len(),
            |x: int|
                Seq::new(
                    self.contents[x].len(),
                    |y: int|
                        Seq::new(
                            self.contents[x][y].len(),
                            |l: int|
                                if self.chosen(border_only, (x as usize, y as usize)) && from <= l && (
                                ((x < x_done || (x == x_done && y < y_done)) && l < to) || (x
                                    == x_done && y == y_done && l < l_done)) {
                                    value
                                } else {
                                    self.contents[x][y][l]
                                },
                        ),
                ),
        )
    }

    /// The terminal after a bulk operation: `value` on the layers from
    /// `from` up to `to` of every cell, or of every cell of the border,
    /// and each of those cells marked as changed.
    pub open spec fn painted(self, border_only: bool, from: int, to: int, value: Option<Glyph>) -> TerminalModel {
        TerminalModel {
            contents: self.painted_contents(self.size.0 as int, 0, 0, border_only, from, to, value),
            dirties: marked_all(
                self.dirties,
                self.chosen_of(border_only, grid_cells(self.size.0, self.size.1)),
            ),
            ..self
        }
    }

    /// The cells to draw in the next frame: those that changed since the
    /// last frame, then those that changed in the frame before and not
    /// since. Each is there once.
    pub open spec fn pending(self) -> Seq<Cell> {
        self.dirties + self.old_dirties.filter(not_among(self.dirties))
    }

    /// What the grid holds, place after place: cell after cell in the
    /// order of `grid_cells`, and the layers of a cell from the lowest.
    pub open spec fn all(self) -> Seq<Option<Glyph>> {
        flattened(self.contents)
    }

    /// What the first `layers` layers of a cell give to a frame: each
    /// glyph that the cell holds, lowest layer first.
    pub open spec fn stack(self, cell: Cell, layers: int) -> Seq<Item>
        decreases layers,
    {
        if layers <= 0 {
            Seq::empty()
        } else {
            self.stack(cell, layers - 1) + match self.contents[cell.0 as int][cell.1 as int][layers
                - 1] {
                Some(glyph) => seq![(glyph, cell, (layers - 1) as usize)],
                None => Seq::empty(),
            }
        }
    }

    /// What the cells give to a frame, cell after cell.
    pub open spec fn collected(self, cells: Seq<Cell>) -> Seq<Item> {
        cells.map_values(|cell: Cell| self.stack(cell, self.size.2 as int)).flatten()
    }

    /// The next frame: what the pending cells give, in drawing order.
    pub open spec fn draw_list(self) -> Seq<Item> {
        in_layer_order(self.collected(self.pending()), item_layers(self.collected(self.pending())))
    }

    /// The terminal after a frame: what changed before the frame is what
    /// changed in the frame before, and nothing has changed since.
    pub open spec fn rotated(self) -> TerminalModel {
        TerminalModel { dirties: Seq::empty(), old_dirties: self.dirties, ..self }
    }
}

/// The cells that are not among `cells`.
pub open spec fn not_among(cells: Seq<Cell>) -> spec_fn(Cell) -> bool {
    |cell: Cell| !cells.contains(cell)
}

/// A grid of stacks laid end to end: column after column, in a column
/// stack after stack.
pub open spec fn flattened<A>(grid: Seq<Seq<Seq<A>>>) -> Seq<A> {
    grid.map_values(|column: Seq<Seq<A>>| column.flatten()).flatten()
}

/// The places of a grid of the given size: for each cell in the order of
/// `grid_cells`, its layers from the lowest.
pub open spec fn grid_places(size: (usize, usize, usize)) -> Seq<(usize, usize, usize)> {
    flattened(
        Seq::new(
            size.0 as nat,
            |x: int|
                Seq::new(
                    size.1 as nat,
                    |y: int| Seq::new(size.2 as nat, |l: int| (x as usize, y as usize, l as usize)),
                ),
        ),
    )
}

/// What the references point to, one for one.
pub open spec fn pointed<A>(references: Seq<&A>) -> Seq<A> {
    references.map_values(|reference: &A| *reference)
}

/// A renderer: a grid of cells with layers, which holds what is to be
/// drawn and gives the frames.
pub trait Renderer<R: Renderable> {
    /// Whether the renderer is fit for use.
    spec fn ready(&self) -> bool;

    /// Whether the place lies in the grid.
    spec fn has(&self, x: usize, y: usize, layer: usize) -> bool;

    /// width, height, layers
    fn size(&self) -> (usize, usize, usize);

    /// Puts something to draw at a place of the grid.
    fn set(&mut self, x: usize, y: usize, layer: usize, renderable: R)
        requires
            old(self).ready(),
            old(self).has(x, y, layer),
        ensures
            final(self).ready(),
    ;

    /// What the grid holds at a place.
    fn get(&self, x: usize, y: usize, layer: usize) -> &Option<R>
        requires
            self.ready(),
            self.has(x, y, layer),
    ;

    /// What the grid holds at every place, in the order of `get_points`.
    fn get_all(&self) -> Vec<&Option<R>>
        requires
            self.ready(),
    ;

    /// The places of the grid: column, row and layer of each.
    fn get_points(&self) -> Vec<(usize, usize, usize)>;

    /// Empties the grid.
    fn clear(&mut self)
        requires
            old(self).ready(),
        ensures
            final(self).ready(),
    ;

    /// The next frame, in drawing order: for each item what is drawn, in
    /// which cell and on which layer.
    fn render(&mut self) -> (frame: Vec<(R, (usize, usize), usize)>)
        requires
            old(self).ready(),
        ensures
            final(self).ready(),
    ;
}

/// The layer of each item.
pub open spec fn item_layers(items: Seq<Item>) -> Seq<usize> {
    items.map_values(|item: Item| item.2)
}

/// The layered terminal. The cells that changed are kept twice: in the
/// order in which they changed, and as a mark on each cell, by which a cell
/// is found among them in one step.
pub struct Terminal {
    size: (usize, usize, usize),
    contents: Vec<Vec<Vec<Option<Glyph>>>>,
    dirties: Vec<Cell>,
    old_dirties: Vec<Cell>,
    fresh: Vec<Vec<bool>>,
    stale: Vec<Vec<bool>>,
}

/// Whether `marks` is a grid of the given size that marks the cells of
/// `cells` and no others.
pub open spec fn marks_cells(marks: Seq<Vec<bool>>, size: (usize, usize, usize), cells: Seq<Cell>) -> bool {
    &&& marks.len() == size.0
    &&& forall|x: int| 0 <= x < size.0 ==> (#[trigger] marks[x])@.len() == size.1
    &&& forall|x: int, y: int|
        0 <= x < size.0 && 0 <= y < size.1 ==> (#[trigger] marks[x]@[y]) == cells.contains(
            (x as usize, y as usize),
        )
}

impl View for Terminal {
    type V = TerminalModel;

    closed spec fn view(&self) -> TerminalModel {
        TerminalModel {
            size: self.size,
            contents: Seq::new(
                self.contents@.len(),
                |x: int| Seq::new(self.contents@[x]@.len(), |y: int| self.contents@[x]@[y]@),
            ),
            dirties: self.dirties@,
            old_dirties: self.old_dirties@,
        }
    }
}

impl Terminal {
    /// The grid is dense and of the size named, and the cells that
    /// changed are those that are marked.
    pub closed spec fn wf(&self) -> bool {
        &&& self@.well_formed()
        &&& marks_cells(self.fresh@, self.size, self.dirties@)
        &&& marks_cells(self.stale@, self.size, self.old_dirties@)
    }

    /// What the model says of the fields that are open.
    proof fn lemma_view(&self)
        ensures
            self@.size == self.size,
            self@.contents.len() == self.contents@.len(),
            forall|x: int|
                0 <= x < self.contents@.len() ==> #[trigger] self@.contents[x]
                    == self.contents@[x]@.map_values(|stack: Vec<Option<Glyph>>| stack@),
            self.wf() ==> self@.well_formed(),
    {
        assert forall|x: int| 0 <= x < self.contents@.len() implies #[trigger] self@.contents[x]
            == self.contents@[x]@.map_values(|stack: Vec<Option<Glyph>>| stack@) by {
            assert(self@.contents[x] =~= self.contents@[x]@.map_values(
                |stack: Vec<Option<Glyph>>| stack@,
            ));
        }
    }

    /// A terminal of the given size with nothing in it. No cell has
    /// changed.
    pub fn new(width: usize, height: usize, layers: usize) -> (terminal: Terminal)
        ensures
            terminal.wf(),
            terminal@ == (TerminalModel {
                size: (width, height, layers),
                contents: Seq::new(
                    width as nat,
                    |x: int|
                        Seq::new(
                            height as nat,
                            |y: int| Seq::new(layers as nat, |l: int| None::<Glyph>),
                        ),
                ),
                dirties: Seq::empty(),
                old_dirties: Seq::empty(),
            }),
    {
        let mut contents: Vec<Vec<Vec<Option<Glyph>>>> = Vec::new();
        let mut fresh: Vec<Vec<bool>> = Vec::new();
        let mut stale: Vec<Vec<bool>> = Vec::new();
        let mut x: usize = 0;
        while x < width
            invariant
                x <= width,
                contents@.len() == x,
                fresh@.len() == x,
                stale@.len() == x,
                forall|i: int| 0 <= i < x ==> (#[trigger] contents@[i])@.len() == height,
                forall|i: int, j: int|
                    0 <= i < x && 0 <= j < height ==> (#[trigger] contents@[i]@[j])@ =~= Seq::new(
                        layers as nat,
                        |l: int| None::<Glyph>,
                    ),
                forall|i: int| 0 <= i < x ==> (#[trigger] fresh@[i])@.len() == height,
                forall|i: int, j: int| 0 <= i < x && 0 <= j < height ==> !(#[trigger] fresh@[i]@[j]),
                forall|i: int| 0 <= i < x ==> (#[trigger] stale@[i])@.len() == height,
                forall|i: int, j: int| 0 <= i < x && 0 <= j < height ==> !(#[trigger] stale@[i]@[j]),
            decreases width - x,
        {
            let mut column: Vec<Vec<Option<Glyph>>> = Vec::new();
            let mut fresh_column: Vec<bool> = Vec::new();
            let mut stale_column: Vec<bool> = Vec::new();
            let mut y: usize = 0;
            while y < height
                invariant
                    y <= height,
                    column@.len() == y,
                    fresh_column@.len() == y,
                    stale_column@.len() == y,
                    forall|j: int|
                        0 <= j < y ==> (#[trigger] column@[j])@ =~= Seq::new(
                            layers as nat,
                            |l: int| None::<Glyph>,
                        ),
                    forall|j: int| 0 <= j < y ==> !(#[trigger] fresh_column@[j]),
                    forall|j: int| 0 <= j < y ==> !(#[trigger] stale_column@[j]),
                decreases height - y,
            {
                let mut stack: Vec<Option<Glyph>> = Vec::new();
                let mut l: usize = 0;
                while l < layers
                    invariant
                        l <= layers,
                        stack@.len() == l,
                        forall|k: int| 0 <= k < l ==> (#[trigger] stack@[k]) is None,
                    decreases layers - l,
                {
                    stack.push(None);
                    l = l + 1;
                }
                column.push(stack);
                fresh_column.push(false);
                stale_column.push(false);
                y = y + 1;
            }
            contents.push(column);
            fresh.push(fresh_column);
            stale.push(stale_column);
            x = x + 1;
        }
        let terminal = Terminal {
            size: (width, height, layers),
            contents,
            dirties: Vec::new(),
            old_dirties: Vec::new(),
            fresh,
            stale,
        };
        proof {
            let wanted = Seq::new(
                width as nat,
                |x: int|
                    Seq::new(height as nat, |y: int| Seq::new(layers as nat, |l: int| None::<Glyph>)),
            );
            assert forall|x: int| 0 <= x < width implies terminal@.contents[x] =~= wanted[x] by {
                assert forall|y: int| 0 <= y < height implies terminal@.contents[x][y]
                    =~= wanted[x][y] by {
                    assert(terminal.contents@[x]@[y]@ =~= Seq::new(
                        layers as nat,
                        |l: int| None::<Glyph>,
                    ));
                }
            }
            assert(terminal@.contents =~= wanted);
        }
        terminal
    }

    /// Marks a cell as changed.
    fn mark(&mut self, x: usize, y: usize)
        requires
            old(self).wf(),
            x < old(self).size.0,
            y < old(self).size.1,
        ensures
            final(self).wf(),
            final(self)@ == (TerminalModel {
                dirties: marked(old(self)@.dirties, (x, y)),
                ..old(self)@
            }),
            final(self).contents == old(self).contents,
            final(self).size == old(self).size,
    {
        if !self.fresh[x][y] {
            let ghost before = self.dirties@;
            self.fresh[x][y] = true;
            self.dirties.push((x, y));
            proof {
                assert(!before.contains((x, y)));
                assert forall|i: int, j: int|
                    0 <= i < self.size.0 && 0 <= j < self.size.1 implies (
                #[trigger] self.fresh@[i]@[j]) == self.dirties@.contains((i as usize, j as usize)) by {
                    let cell = (i as usize, j as usize);
                    if before.contains(cell) {
                        let k = choose|k: int| 0 <= k < before.len() && before[k] == cell;
                        assert(self.dirties@[k] == cell);
                    }
                    if cell == (x, y) {
                        assert(self.dirties@[before.len() as int] == cell);
                    }
                }
                assert(self@.contents =~= old(self)@.contents);
            }
        } else {
            proof {
                assert(self@.contents =~= old(self)@.contents);
            }
        }
    }

    /// Empties a place of the grid. The cell has changed.
    pub fn set_empty(&mut self, x: usize, y: usize, layer: usize)
        requires
            old(self).wf(),
            old(self)@.holds(x, y, layer),
        ensures
            final(self).wf(),
            final(self)@ == old(self)@.with(x, y, layer, None),
    {
        self.put(x, y, layer, None);
    }

    /// Puts a value at a place of the grid and marks the cell.
    fn put(&mut self, x: usize, y: usize, layer: usize, value: Option<Glyph>)
        requires
            old(self).wf(),
            old(self)@.holds(x, y, layer),
        ensures
            final(self).wf(),
            final(self)@ == old(self)@.with(x, y, layer, value),
    {
        proof {
            self.lemma_view();
            assert(self@.contents[x as int].len() == self.size.1);
            assert(self@.contents[x as int][y as int].len() == self.size.2);
        }
        self.contents[x][y][layer] = value;
        proof {
            let before = old(self)@;
            let wanted = before.contents.update(
                x as int,
                before.contents[x as int].update(
                    y as int,
                    before.contents[x as int][y as int].update(layer as int, value),
                ),
            );
            assert forall|i: int| 0 <= i < wanted.len() implies self@.contents[i] =~= wanted[i] by {
                assert(before.contents[i].len() == self.size.1);
                assert forall|j: int| 0 <= j < wanted[i].len() implies self@.contents[i][j]
                    =~= wanted[i][j] by {
                    assert(before.contents[i][j].len() == self.size.2);
                }
            }
            assert(self@.contents =~= wanted);
        }
        self.mark(x, y);
    }

    /// Puts `value` on the layers from `from` up to `to` of every cell, or
    /// of every cell of the border, and marks each of those cells.
    fn paint(&mut self, border_only: bool, from: usize, to: usize, value: Option<Glyph>)
        requires
            old(self).wf(),
            from <= to <= old(self).size.2,
        ensures
            final(self).wf(),
            final(self)@ == old(self)@.painted(border_only, from as int, to as int, value),
    {
        let width: usize = self.size.0;
        let height: usize = self.size.1;
        let ghost start = self@;
        let mut x: usize = 0;
        proof {
            self.lemma_view();
            assert(cells_before(0, 0, height) =~= Seq::<Cell>::empty());
            reveal(Seq::filter);
            assert(start.chosen_of(border_only, cells_before(0, 0, height)) =~= Seq::<Cell>::empty());
            assert forall|i: int| 0 <= i < start.contents.len() implies start.contents[i]
                =~= start.painted_contents(0, 0, 0, border_only, from as int, to as int, value)[i] by {
                assert forall|j: int| 0 <= j < start.contents[i].len() implies start.contents[i][j]
                    =~= start.painted_contents(
                    0,
                    0,
                    0,
                    border_only,
                    from as int,
                    to as int,
                    value,
                )[i][j] by {}
            }
            assert(start.contents =~= start.painted_contents(
                0,
                0,
                0,
                border_only,
                from as int,
                to as int,
                value,
            ));
        }
        while x < width
            invariant
                self.wf(),
                start.well_formed(),
                self.size == start.size,
                width == start.size.0,
                height == start.size.1,
                from <= to <= start.size.2,
                x <= width,
                self@.old_dirties == start.old_dirties,
                self@.contents == start.painted_contents(
                    x as int,
                    0,
                    0,
                    border_only,
                    from as int,
                    to as int,
                    value,
                ),
                self@.dirties == marked_all(
                    start.dirties,
                    start.chosen_of(border_only, cells_before(x as int, 0, height)),
                ),
            decreases width - x,
        {
            let mut y: usize = 0;
            while y < height
                invariant
                    self.wf(),
                    start.well_formed(),
                    self.size == start.size,
                    width == start.size.0,
                    height == start.size.1,
                    from <= to <= start.size.2,
                    x < width,
                    y <= height,
                    self@.old_dirties == start.old_dirties,
                    self@.contents == start.painted_contents(
                        x as int,
                        y as int,
                        0,
                        border_only,
                        from as int,
                        to as int,
                        value,
                    ),
                    self@.dirties == marked_all(
                        start.dirties,
                        start.chosen_of(border_only, cells_before(x as int, y as int, height)),
                    ),
                decreases height - y,
            {
                let ghost cells = cells_before(x as int, y as int, height);
                let ghost next = cells_before(x as int, y + 1, height);
                proof {
                    assert(next =~= cells.push((x, y)));
                    assert(next.drop_last() =~= cells);
                    reveal(Seq::filter);
                }
                if !border_only || x == 0 || x == width - 1 || y == 0 || y == height - 1 {
                    let mut l: usize = from;
                    proof {
                        self.lemma_view();
                        let wanted = start.painted_contents(
                            x as int,
                            y as int,
                            from as int,
                            border_only,
                            from as int,
                            to as int,
                            value,
                        );
                        assert forall|i: int| 0 <= i < wanted.len() implies self@.contents[i]
                            =~= wanted[i] by {
                            assert(start.contents[i].len() == self.size.1);
                            assert forall|j: int| 0 <= j < wanted[i].len() implies self@.contents[i][j]
                                =~= wanted[i][j] by {
                                assert(start.contents[i][j].len() == self.size.2);
                            }
                        }
                        assert(self@.contents =~= wanted);
                    }
                    while l < to
                        invariant
                            self.wf(),
                            start.well_formed(),
                            self.size == start.size,
                            width == start.size.0,
                            height == start.size.1,
                            from <= l <= to <= start.size.2,
                            x < width,
                            y < height,
                            start.chosen(border_only, (x, y)),
                            self@.old_dirties == start.old_dirties,
                            self@.dirties == marked_all(
                                start.dirties,
                                start.chosen_of(border_only, cells),
                            ),
                            self@.contents == start.painted_contents(
                                x as int,
                                y as int,
                                l as int,
                                border_only,
                                from as int,
                                to as int,
                                value,
                            ),
                        decreases to - l,
                    {
                        let ghost before = self@;
                        proof {
                            self.lemma_view();
                            assert(self@.contents[x as int].len() == self.size.1);
                            assert(self@.contents[x as int][y as int].len() == self.size.2);
                        }
                        self.contents[x][y][l] = value;
                        proof {
                            let wanted = start.painted_contents(
                                x as int,
                                y as int,
                                l + 1,
                                border_only,
                                from as int,
                                to as int,
                                value,
                            );
                            assert forall|i: int| 0 <= i < wanted.len() implies self@.contents[i]
                                =~= wanted[i] by {
                                assert(before.contents[i].len() == self.size.1);
                                assert(start.contents[i].len() == self.size.1);
                                assert forall|j: int| 0 <= j < wanted[i].len() implies self@.contents[i][j]
                                    =~= wanted[i][j] by {
                                    assert(before.contents[i][j].len() == self.size.2);
                                    assert(start.contents[i][j].len() == self.size.2);
                                    assert(self@.contents[i][j].len() == self.size.2);
                                    assert forall|k: int|
                                        0 <= k < self.size.2 implies self@.contents[i][j][k]
                                        == wanted[i][j][k] by {
                                        if i == x && j == y && k == l {
                                        } else {
                                            assert(self@.contents[i][j][k] == before.contents[i][j][k]);
                                        }
                                    }
                                }
                            }
                            assert(self@.contents =~= wanted);
                        }
                        l = l + 1;
                    }
                    self.mark(x, y);
                    proof {
                        assert(start.chosen(border_only, (x, y)));
                        assert(start.chosen_of(border_only, next) =~= start.chosen_of(
                            border_only,
                            cells,
                        ).push((x, y)));
                        assert(start.chosen_of(border_only, next).drop_last() =~= start.chosen_of(
                            border_only,
                            cells,
                        ));
                    }
                } else {
                    proof {
                        assert(!start.chosen(border_only, (x, y)));
                        assert(start.chosen_of(border_only, next) =~= start.chosen_of(
                            border_only,
                            cells,
                        ));
                    }
                }
                proof {
                    let wanted = start.painted_contents(
                        x as int,
                        y + 1,
                        0,
                        border_only,
                        from as int,
                        to as int,
                        value,
                    );
                    assert forall|i: int| 0 <= i < wanted.len() implies self@.contents[i]
                        =~= wanted[i] by {
                        assert(start.contents[i].len() == self.size.1);
                        assert forall|j: int| 0 <= j < wanted[i].len() implies self@.contents[i][j]
                            =~= wanted[i][j] by {
                            assert(start.contents[i][j].len() == self.size.2);
                        }
                    }
                    assert(self@.contents =~= wanted);
                }
                y = y + 1;
            }
            proof {
                let columns = Seq::new(x as nat, |i: int| column_cells(i, height));
                let more = Seq::new((x + 1) as nat, |i: int| column_cells(i, height));
                assert(more =~= columns.push(column_cells(x as int, height)));
                columns.lemma_flatten_push(column_cells(x as int, height));
                assert(column_cells(x as int, height).take(y as int) =~= column_cells(
                    x as int,
                    height,
                ));
                assert(column_cells(x + 1, height).take(0) =~= Seq::<Cell>::empty());
                assert(cells_before(x + 1, 0, height) =~= cells_before(x as int, y as int, height));
                let wanted = start.painted_contents(
                    x + 1,
                    0,
                    0,
                    border_only,
                    from as int,
                    to as int,
                    value,
                );
                assert forall|i: int| 0 <= i < wanted.len() implies self@.contents[i]
                    =~= wanted[i] by {
                    assert(start.contents[i].len() == self.size.1);
                    assert forall|j: int| 0 <= j < wanted[i].len() implies self@.contents[i][j]
                        =~= wanted[i][j] by {
                        assert(start.contents[i][j].len() == self.size.2);
                    }
                }
                assert(self@.contents =~= wanted);
            }
            x = x + 1;
        }
        proof {
            assert(column_cells(width as int, height).take(0) =~= Seq::<Cell>::empty());
            assert(cells_before(width as int, 0, height) =~= grid_cells(width, height));
        }
    }

    /// Fills a layer with a glyph. Every cell has changed.
    pub fn fill_with(&mut self, layer: usize, glyph: Glyph)
        requires
            old(self).wf(),
            layer < old(self)@.size.2,
        ensures
            final(self).wf(),
            final(self)@ == old(self)@.painted(false, layer as int, layer + 1, Some(glyph)),
    {
        proof {
            self.lemma_view();
        }
        self.paint(false, layer, layer + 1, Some(glyph));
    }

    /// Puts a glyph in every cell of the border of a layer: in the first
    /// and last column and in the first and last row. Those cells have
    /// changed.
    pub fn make_border(&mut self, layer: usize, glyph: Glyph)
        requires
            old(self).wf(),
            layer < old(self)@.size.2,
        ensures
            final(self).wf(),
            final(self)@ == old(self)@.painted(true, layer as int, layer + 1, Some(glyph)),
    {
        proof {
            self.lemma_view();
        }
        self.paint(true, layer, layer + 1, Some(glyph));
    }

    /// Empties a layer. Every cell has changed.
    pub fn clear_layer(&mut self, layer: usize)
        requires
            old(self).wf(),
            layer < old(self)@.size.2,
        ensures
            final(self).wf(),
            final(self)@ == old(self)@.painted(false, layer as int, layer + 1, None),
    {
        proof {
            self.lemma_view();
        }
        self.paint(false, layer, layer + 1, None);
    }

    /// The cells of the grid, column by column.
    fn get_points_2d(&self) -> (cells: Vec<Cell>)
        requires
            self.wf(),
        ensures
            cells@ == grid_cells(self@.size.0, self@.size.1),
    {
        let width: usize = self.size.0;
        let height: usize = self.size.1;
        let mut cells: Vec<Cell> = Vec::new();
        let mut x: usize = 0;
        assert(Seq::new(0, |i: int| column_cells(i, height)).flatten() =~= Seq::<Cell>::empty());
        while x < width
            invariant
                x <= width,
                cells@ == Seq::new(x as nat, |i: int| column_cells(i, height)).flatten(),
            decreases width - x,
        {
            let ghost done = cells@;
            let mut y: usize = 0;
            assert(column_cells(x as int, height).take(0) =~= Seq::<Cell>::empty());
            while y < height
                invariant
                    x < width,
                    y <= height,
                    cells@ == done + column_cells(x as int, height).take(y as int),
                decreases height - y,
            {
                cells.push((x, y));
                assert(column_cells(x as int, height).take(y + 1) =~= column_cells(
                    x as int,
                    height,
                ).take(y as int).push((x, y)));
                y = y + 1;
            }
            proof {
                let columns = Seq::new(x as nat, |i: int| column_cells(i, height));
                let more = Seq::new((x + 1) as nat, |i: int| column_cells(i, height));
                assert(more =~= columns.push(column_cells(x as int, height)));
                columns.lemma_flatten_push(column_cells(x as int, height));
                assert(column_cells(x as int, height).take(y as int) =~= column_cells(
                    x as int,
                    height,
                ));
            }
            x = x + 1;
        }
        cells
    }

    /// Ends a frame: the cells that changed before it are those of the
    /// frame before, and none has changed since.
    pub fn clear_dirties(&mut self)
        requires
            old(self).wf(),
        ensures
            final(self).wf(),
            final(self)@ == old(self)@.rotated(),
    {
        let ghost size = self.size;
        let ghost was_old = self.old_dirties@;
        let ghost was_new = self.dirties@;
        let mut k: usize = 0;
        proof {
            assert(was_old.skip(0) =~= was_old);
        }
        while k < self.old_dirties.len()
            invariant
                k <= was_old.len(),
                self.size == size,
                size == old(self).size,
                self.contents == old(self).contents,
                self.dirties == old(self).dirties,
                self.fresh == old(self).fresh,
                self.old_dirties@ == was_old,
                old(self).wf(),
                was_old == old(self).old_dirties@,
                self.stale@.len() == size.0,
                forall|x: int| 0 <= x < size.0 ==> (#[trigger] self.stale@[x])@.len() == size.1,
                forall|x: int, y: int|
                    0 <= x < size.0 && 0 <= y < size.1 ==> (#[trigger] self.stale@[x]@[y])
                        == was_old.skip(k as int).contains((x as usize, y as usize)),
            decreases was_old.len() - k,
        {
            let cell: Cell = self.old_dirties[k];
            proof {
                assert(was_old[k as int] == cell);
                assert(cell.0 < size.0 && cell.1 < size.1);
            }
            self.stale[cell.0][cell.1] = false;
            proof {
                assert forall|x: int, y: int| 0 <= x < size.0 && 0 <= y < size.1 implies (
                #[trigger] self.stale@[x]@[y]) == was_old.skip(k + 1).contains(
                    (x as usize, y as usize),
                ) by {
                    let at = (x as usize, y as usize);
                    let rest = was_old.skip(k + 1);
                    let here = was_old.skip(k as int);
                    if rest.contains(at) {
                        let j = choose|j: int| 0 <= j < rest.len() && rest[j] == at;
                        assert(was_old.skip(k as int)[j + 1] == at);
                        assert(was_old[k + 1 + j] == at);
                        assert(at != cell);
                    }
                    if at != cell && here.contains(at) {
                        let j = choose|j: int| 0 <= j < here.len() && here[j] == at;
                        assert(j != 0);
                        assert(was_old.skip(k + 1)[j - 1] == at);
                    }
                }
            }
            k = k + 1;
        }
        let mut k: usize = 0;
        proof {
            assert(was_new.skip(0) =~= was_new);
            assert(was_old.skip(was_old.len() as int) =~= Seq::<Cell>::empty());
            assert(was_new.take(0) =~= Seq::<Cell>::empty());
        }
        while k < self.dirties.len()
            invariant
                k <= was_new.len(),
                self.size == size,
                size == old(self).size,
                self.contents == old(self).contents,
                self.dirties@ == was_new,
                self.old_dirties@ == was_old,
                old(self).wf(),
                was_new == old(self).dirties@,
                self.stale@.len() == size.0,
                forall|x: int| 0 <= x < size.0 ==> (#[trigger] self.stale@[x])@.len() == size.1,
                self.fresh@.len() == size.0,
                forall|x: int| 0 <= x < size.0 ==> (#[trigger] self.fresh@[x])@.len() == size.1,
                forall|x: int, y: int|
                    0 <= x < size.0 && 0 <= y < size.1 ==> (#[trigger] self.stale@[x]@[y])
                        == was_new.take(k as int).contains((x as usize, y as usize)),
                forall|x: int, y: int|
                    0 <= x < size.0 && 0 <= y < size.1 ==> (#[trigger] self.fresh@[x]@[y])
                        == was_new.skip(k as int).contains((x as usize, y as usize)),
            decreases was_new.len() - k,
        {
            let cell: Cell = self.dirties[k];
            proof {
                assert(was_new[k as int] == cell);
                assert(cell.0 < size.0 && cell.1 < size.1);
            }
            self.fresh[cell.0][cell.1] = false;
            self.stale[cell.0][cell.1] = true;
            proof {
                assert forall|x: int, y: int| 0 <= x < size.0 && 0 <= y < size.1 implies (
                #[trigger] self.fresh@[x]@[y]) == was_new.skip(k + 1).contains(
                    (x as usize, y as usize),
                ) by {
                    let at = (x as usize, y as usize);
                    let rest = was_new.skip(k + 1);
                    let here = was_new.skip(k as int);
                    if rest.contains(at) {
                        let j = choose|j: int| 0 <= j < rest.len() && rest[j] == at;
                        assert(was_new.skip(k as int)[j + 1] == at);
                        assert(was_new[k + 1 + j] == at);
                        assert(at != cell);
                    }
                    if at != cell && here.contains(at) {
                        let j = choose|j: int| 0 <= j < here.len() && here[j] == at;
                        assert(j != 0);
                        assert(was_new.skip(k + 1)[j - 1] == at);
                    }
                }
                assert forall|x: int, y: int| 0 <= x < size.0 && 0 <= y < size.1 implies (
                #[trigger] self.stale@[x]@[y]) == was_new.take(k + 1).contains(
                    (x as usize, y as usize),
                ) by {
                    let at = (x as usize, y as usize);
                    if at == cell {
                        assert(was_new.take(k + 1)[k as int] == at);
                    }
                    let more = was_new.take(k + 1);
                    let less = was_new.take(k as int);
                    if more.contains(at) {
                        let j = choose|j: int| 0 <= j < more.len() && more[j] == at;
                        if j < k {
                            assert(was_new.take(k as int)[j] == at);
                        }
                    }
                    if less.contains(at) {
                        let j = choose|j: int| 0 <= j < less.len() && less[j] == at;
                        assert(was_new.take(k + 1)[j] == at);
                    }
                }
            }
            k = k + 1;
        }
        let mut moved: Vec<Cell> = Vec::new();
        std::mem::swap(&mut moved, &mut self.dirties);
        self.old_dirties = moved;
        proof {
            assert(was_new.take(was_new.len() as int) =~= was_new);
            assert(was_new.skip(was_new.len() as int) =~= Seq::<Cell>::empty());
            assert(self@.contents =~= old(self)@.contents);
        }
    }

    /// Adds to `found` what one cell gives to a frame.
    fn collect_cell(&self, cell: Cell, found: &mut Vec<Item>, layers: &mut Vec<usize>)
        requires
            self.wf(),
            cell.0 < self@.size.0,
            cell.1 < self@.size.1,
            old(layers)@ == item_layers(old(found)@),
        ensures
            final(found)@ == old(found)@ + self@.stack(cell, self@.size.2 as int),
            final(layers)@ == item_layers(final(found)@),
    {
        proof {
            self.lemma_view();
            assert(self@.contents[cell.0 as int].len() == self.size.1);
            assert(self@.contents[cell.0 as int][cell.1 as int].len() == self.size.2);
        }
        let stack = &self.contents[cell.0][cell.1];
        let mut l: usize = 0;
        assert(found@ =~= old(found)@ + self@.stack(cell, 0));
        while l < self.size.2
            invariant
                l <= self.size.2,
                self.size.2 == stack@.len(),
                stack@ == self@.contents[cell.0 as int][cell.1 as int],
                found@ == old(found)@ + self@.stack(cell, l as int),
                layers@ == item_layers(found@),
            decreases self.size.2 - l,
        {
            let ghost so_far = found@;
            match stack[l] {
                Some(glyph) => {
                    found.push((glyph, cell, l));
                    layers.push(l);
                    proof {
                        assert(found@ =~= old(found)@ + self@.stack(cell, l + 1));
                        assert(layers@ =~= item_layers(found@));
                    }
                },
                None => {
                    proof {
                        assert(found@ =~= old(found)@ + self@.stack(cell, l + 1));
                    }
                },
            }
            l = l + 1;
        }
    }
}

impl Renderer<Glyph> for Terminal {
    open spec fn ready(&self) -> bool {
        self.wf()
    }

    open spec fn has(&self, x: usize, y: usize, layer: usize) -> bool {
        self@.holds(x, y, layer)
    }

    /// width, height, layers
    fn size(&self) -> (size: (usize, usize, usize))
        ensures
            size == self@.size,
    {
        self.size
    }

    /// Puts a glyph at a place of the grid. The cell has changed.
    fn set(&mut self, x: usize, y: usize, layer: usize, renderable: Glyph)
        ensures
            final(self)@ == old(self)@.with(x, y, layer, Some(renderable)),
    {
        self.put(x, y, layer, Some(renderable));
    }

    /// What the grid holds at a place.
    fn get(&self, x: usize, y: usize, layer: usize) -> (held: &Option<Glyph>)
        ensures
            *held == self@.contents[x as int][y as int][layer as int],
    {
        proof {
            self.lemma_view();
            assert(self@.contents[x as int].len() == self.size.1);
            assert(self@.contents[x as int][y as int].len() == self.size.2);
        }
        &self.contents[x][y][layer]
    }

    /// What the grid holds at every place, in the order of `get_points`.
    fn get_all(&self) -> (held: Vec<&Option<Glyph>>)
        ensures
            pointed(held@) == self@.all(),
    {
        let mut held: Vec<&Option<Glyph>> = Vec::new();
        let ghost grid = self@.contents;
        let ghost columns = grid.map_values(|column: Seq<Seq<Option<Glyph>>>| column.flatten());
        proof {
            self.lemma_view();
            assert(columns.take(0).flatten() =~= Seq::<Option<Glyph>>::empty());
            assert(pointed(held@) =~= Seq::<Option<Glyph>>::empty());
        }
        let mut x: usize = 0;
        while x < self.size.0
            invariant
                self.wf(),
                grid == self@.contents,
                columns == grid.map_values(|column: Seq<Seq<Option<Glyph>>>| column.flatten()),
                x <= self.size.0,
                pointed(held@) == columns.take(x as int).flatten(),
            decreases self.size.0 - x,
        {
            let ghost before = held@;
            let mut y: usize = 0;
            proof {
                self.lemma_view();
                assert(grid[x as int].take(0).flatten() =~= Seq::<Option<Glyph>>::empty());
                assert(pointed(held@) =~= pointed(before) + grid[x as int].take(0).flatten());
            }
            while y < self.size.1
                invariant
                    self.wf(),
                    grid == self@.contents,
                    x < self.size.0,
                    y <= self.size.1,
                    pointed(held@) == pointed(before) + grid[x as int].take(y as int).flatten(),
                decreases self.size.1 - y,
            {
                let ghost stacks = held@;
                let mut l: usize = 0;
                proof {
                    self.lemma_view();
                    assert(self@.contents[x as int].len() == self.size.1);
                    assert(self@.contents[x as int][y as int].len() == self.size.2);
                    assert(pointed(held@) =~= pointed(stacks) + grid[x as int][y as int].take(0));
                }
                while l < self.size.2
                    invariant
                        self.wf(),
                        grid == self@.contents,
                        x < self.size.0,
                        y < self.size.1,
                        l <= self.size.2,
                        grid[x as int][y as int].len() == self.size.2,
                        self.contents@.len() == self.size.0,
                        self.contents@[x as int]@.len() == self.size.1,
                        self.contents@[x as int]@[y as int]@ == grid[x as int][y as int],
                        pointed(held@) == pointed(stacks) + grid[x as int][y as int].take(l as int),
                    decreases self.size.2 - l,
                {
                    let ghost so_far = held@;
                    held.push(&self.contents[x][y][l]);
                    proof {
                        assert(pointed(held@) =~= pointed(so_far).push(
                            grid[x as int][y as int][l as int],
                        ));
                        assert(grid[x as int][y as int].take(l + 1) =~= grid[x as int][y as int].take(
                            l as int,
                        ).push(grid[x as int][y as int][l as int]));
                        assert(pointed(held@) =~= pointed(stacks) + grid[x as int][y as int].take(
                            l + 1,
                        ));
                    }
                    l = l + 1;
                }
                proof {
                    assert(grid[x as int][y as int].take(l as int) =~= grid[x as int][y as int]);
                    assert(grid[x as int].take(y + 1) =~= grid[x as int].take(y as int).push(
                        grid[x as int][y as int],
                    ));
                    grid[x as int].take(y as int).lemma_flatten_push(grid[x as int][y as int]);
                }
                y = y + 1;
            }
            proof {
                assert(grid[x as int].take(y as int) =~= grid[x as int]);
                assert(columns.take(x + 1) =~= columns.take(x as int).push(columns[x as int]));
                columns.take(x as int).lemma_flatten_push(columns[x as int]);
            }
            x = x + 1;
        }
        proof {
            assert(columns.take(x as int) =~= columns);
        }
        held
    }

    /// The places of the grid: cell after cell, column by column, and the
    /// layers of a cell from the lowest.
    fn get_points(&self) -> (places: Vec<(usize, usize, usize)>)
        ensures
            places@ == grid_places(self@.size),
    {
        let size = self.size;
        let mut places: Vec<(usize, usize, usize)> = Vec::new();
        let ghost grid = Seq::new(
            size.0 as nat,
            |x: int|
                Seq::new(
                    size.1 as nat,
                    |y: int| Seq::new(size.2 as nat, |l: int| (x as usize, y as usize, l as usize)),
                ),
        );
        let ghost columns = grid.map_values(
            |column: Seq<Seq<(usize, usize, usize)>>| column.flatten(),
        );
        proof {
            assert(columns.take(0).flatten() =~= Seq::<(usize, usize, usize)>::empty());
        }
        let mut x: usize = 0;
        while x < size.0
            invariant
                x <= size.0,
                grid == Seq::new(
                    size.0 as nat,
                    |x: int|
                        Seq::new(
                            size.1 as nat,
                            |y: int|
                                Seq::new(size.2 as nat, |l: int| (x as usize, y as usize, l as usize)),
                        ),
                ),
                columns == grid.map_values(
                    |column: Seq<Seq<(usize, usize, usize)>>| column.flatten(),
                ),
                places@ == columns.take(x as int).flatten(),
            decreases size.0 - x,
        {
            let ghost before = places@;
            let mut y: usize = 0;
            proof {
                assert(grid[x as int].take(0).flatten() =~= Seq::<(usize, usize, usize)>::empty());
            }
            while y < size.1
                invariant
                    x < size.0,
                    y <= size.1,
                    grid.len() == size.0,
                    grid[x as int] == Seq::new(
                        size.1 as nat,
                        |y: int|
                            Seq::new(size.2 as nat, |l: int| (x as usize, y as usize, l as usize)),
                    ),
                    places@ == before + grid[x as int].take(y as int).flatten(),
                decreases size.1 - y,
            {
                let ghost stacks = places@;
                let mut l: usize = 0;
                proof {
                    assert(places@ =~= stacks + grid[x as int][y as int].take(0));
                }
                while l < size.2
                    invariant
                        x < size.0,
                        y < size.1,
                        l <= size.2,
                        grid[x as int][y as int] == Seq::new(
                            size.2 as nat,
                            |l: int| (x as usize, y as usize, l as usize),
                        ),
                        places@ == stacks + grid[x as int][y as int].take(l as int),
                    decreases size.2 - l,
                {
                    places.push((x, y, l));
                    proof {
                        assert(grid[x as int][y as int].take(l + 1) =~= grid[x as int][y as int].take(
                            l as int,
                        ).push((x, y, l)));
                    }
                    l = l + 1;
                }
                proof {
                    assert(grid[x as int][y as int].take(l as int) =~= grid[x as int][y as int]);
                    assert(grid[x as int].take(y + 1) =~= grid[x as int].take(y as int).push(
                        grid[x as int][y as int],
                    ));
                    grid[x as int].take(y as int).lemma_flatten_push(grid[x as int][y as int]);
                }
                y = y + 1;
            }
            proof {
                assert(grid[x as int].take(y as int) =~= grid[x as int]);
                assert(columns.take(x + 1) =~= columns.take(x as int).push(columns[x as int]));
                columns.take(x as int).lemma_flatten_push(columns[x as int]);
            }
            x = x + 1;
        }
        proof {
            assert(columns.take(x as int) =~= columns);
            self.lemma_view();
        }
        places
    }

    /// Empties every layer. Every cell has changed.
    fn clear(&mut self)
        ensures
            final(self)@ == old(self)@.painted(false, 0, old(self)@.size.2 as int, None),
    {
        proof {
            self.lemma_view();
        }
        let layers: usize = self.size.2;
        self.paint(false, 0, layers, None);
    }

    /// The next frame, and the end of it: what is drawn is what the
    /// pending cells hold, in drawing order; after it the cells that had
    /// changed are those of the frame before.
    fn render(&mut self) -> (frame: Vec<Item>)
        ensures
            frame@ == old(self)@.draw_list(),
            final(self)@ == old(self)@.rotated(),
    {
        let mut found: Vec<Item> = Vec::new();
        let mut layers: Vec<usize> = Vec::new();
        let ghost model = self@;
        let ghost parts = |cell: Cell| model.stack(cell, model.size.2 as int);
        let mut k: usize = 0;
        proof {
            self.lemma_view();
            assert(model.dirties.take(0).map_values(parts).flatten() =~= Seq::<Item>::empty());
            assert(model.collected(model.dirties.take(0)) =~= Seq::<Item>::empty());
            assert(layers@ =~= item_layers(found@));
        }
        while k < self.dirties.len()
            invariant
                self.wf(),
                model == self@,
                model.well_formed(),
                k <= model.dirties.len(),
                self.dirties@ == model.dirties,
                found@ == model.collected(model.dirties.take(k as int)),
                layers@ == item_layers(found@),
            decreases model.dirties.len() - k,
        {
            let cell: Cell = self.dirties[k];
            proof {
                assert(model.dirties[k as int] == cell);
                lemma_collected_push(model, model.dirties.take(k as int), cell);
                assert(model.dirties.take(k + 1) =~= model.dirties.take(k as int).push(cell));
            }
            self.collect_cell(cell, &mut found, &mut layers);
            k = k + 1;
        }
        let mut k: usize = 0;
        proof {
            reveal(Seq::filter);
            assert(model.dirties.take(model.dirties.len() as int) =~= model.dirties);
            assert(model.old_dirties.take(0).filter(not_among(model.dirties)) =~= Seq::<
                Cell,
            >::empty());
            assert(model.dirties + model.old_dirties.take(0).filter(not_among(model.dirties))
                =~= model.dirties);
        }
        while k < self.old_dirties.len()
            invariant
                self.wf(),
                model == self@,
                model.well_formed(),
                k <= model.old_dirties.len(),
                self.dirties@ == model.dirties,
                self.old_dirties@ == model.old_dirties,
                found@ == model.collected(
                    model.dirties + model.old_dirties.take(k as int).filter(
                        not_among(model.dirties),
                    ),
                ),
                layers@ == item_layers(found@),
            decreases model.old_dirties.len() - k,
        {
            let cell: Cell = self.old_dirties[k];
            let ghost so_far = model.old_dirties.take(k as int).filter(not_among(model.dirties));
            proof {
                reveal(Seq::filter);
                assert(model.old_dirties[k as int] == cell);
                assert(model.old_dirties.take(k + 1).drop_last() =~= model.old_dirties.take(
                    k as int,
                ));
                assert(model.old_dirties.take(k + 1).last() == cell);
                assert(cell.0 < self.size.0 && cell.1 < self.size.1);
            }
            if !self.fresh[cell.0][cell.1] {
                proof {
                    assert(not_among(model.dirties)(cell));
                    lemma_collected_push(model, model.dirties + so_far, cell);
                    assert(model.dirties + so_far.push(cell) =~= (model.dirties + so_far).push(cell));
                }
                self.collect_cell(cell, &mut found, &mut layers);
            } else {
                proof {
                    assert(!not_among(model.dirties)(cell));
                }
            }
            k = k + 1;
        }
        proof {
            assert(model.old_dirties.take(k as int) =~= model.old_dirties);
        }
        let frame = arrange(&found, &layers);
        self.clear_dirties();
        frame
    }
}

/// What the cells give with one cell more is what they gave and what the
/// cell gives.
pub proof fn lemma_collected_push(terminal: TerminalModel, cells: Seq<Cell>, cell: Cell)
    ensures
        terminal.collected(cells.push(cell)) == terminal.collected(cells) + terminal.stack(
            cell,
            terminal.size.2 as int,
        ),
{
    let parts = |cell: Cell| terminal.stack(cell, terminal.size.2 as int);
    assert(cells.push(cell).map_values(parts) =~= cells.map_values(parts).push(parts(cell)));
    cells.map_values(parts).lemma_flatten_push(parts(cell));
}

/// To mark a cell adds it unless it is there: the cells are then those
/// that were, and the one marked, and none is there twice that was not.
pub proof fn lemma_marked(cells: Seq<Cell>, cell: Cell, other: Cell)
    ensures
        marked(cells, cell).contains(other) <==> cells.contains(other) || other == cell,
        cells.no_duplicates() ==> marked(cells, cell).no_duplicates(),
        marked(marked(cells, cell), cell) == marked(cells, cell),
{
    let after = marked(cells, cell);
    if !cells.contains(cell) {
        assert(after[cells.len() as int] == cell);
        if cells.contains(other) {
            let k = choose|k: int| 0 <= k < cells.len() && cells[k] == other;
            assert(after[k] == other);
        }
        if after.contains(other) {
            let k = choose|k: int| 0 <= k < after.len() && after[k] == other;
            if k < cells.len() {
                assert(cells[k] == other);
            }
        }
        if cells.no_duplicates() {
            assert forall|i: int, j: int|
                0 <= i < after.len() && 0 <= j < after.len() && i != j implies after[i]
                != after[j] by {
                if i < cells.len() {
                    assert(cells[i] == after[i]);
                }
                if j < cells.len() {
                    assert(cells[j] == after[j]);
                }
            }
        }
    }
}

/// To mark cells in turn gives the cells that were and those marked, and
/// none twice that was not there twice.
pub proof fn lemma_marked_all(cells: Seq<Cell>, more: Seq<Cell>, other: Cell)
    ensures
        marked_all(cells, more).contains(other) <==> cells.contains(other) || more.contains(other),
        cells.no_duplicates() ==> marked_all(cells, more).no_duplicates(),
    decreases more.len(),
{
    if more.len() > 0 {
        let front = more.drop_last();
        lemma_marked_all(cells, front, other);
        lemma_marked(marked_all(cells, front), more.last(), other);
        if front.contains(other) {
            let k = choose|k: int| 0 <= k < front.len() && front[k] == other;
            assert(more[k] == other);
        }
        if more.contains(other) {
            let k = choose|k: int| 0 <= k < more.len() && more[k] == other;
            if k < front.len() {
                assert(front[k] == other);
            }
        }
    }
}

/// What one cell gives to a frame are the glyphs that it holds, each on
/// its layer.
pub proof fn lemma_stack(terminal: TerminalModel, cell: Cell, layers: int, item: Item)
    requires
        0 <= layers <= usize::MAX,
    ensures
        terminal.stack(cell, layers).contains(item) <==> item.1 == cell && item.2 < layers
            && terminal.contents[cell.0 as int][cell.1 as int][item.2 as int] == Some(item.0),
    decreases layers,
{
    if layers > 0 {
        lemma_stack(terminal, cell, layers - 1, item);
        let below = terminal.stack(cell, layers - 1);
        let whole = terminal.stack(cell, layers);
        let top = terminal.contents[cell.0 as int][cell.1 as int][layers - 1];
        if whole.contains(item) {
            let k = choose|k: int| 0 <= k < whole.len() && whole[k] == item;
            if k < below.len() {
                assert(below[k] == item);
                assert(below.contains(item));
            } else {
                assert(top is Some);
                assert(whole[k] == (top->0, cell, (layers - 1) as usize));
            }
        }
        if below.contains(item) {
            let k = choose|k: int| 0 <= k < below.len() && below[k] == item;
            assert(whole[k] == item);
        }
        if top is Some && item == (top->0, cell, (layers - 1) as usize) {
            assert(whole[below.len() as int] == item);
        }
    } else {
        assert(terminal.stack(cell, layers) =~= Seq::<Item>::empty());
    }
}

/// What cells give to a frame are the glyphs that they hold.
pub proof fn lemma_collected(terminal: TerminalModel, cells: Seq<Cell>, item: Item)
    ensures
        terminal.collected(cells).contains(item) <==> cells.contains(item.1) && item.2
            < terminal.size.2 && terminal.contents[item.1.0 as int][item.1.1 as int][item.2 as int]
            == Some(item.0),
    decreases cells.len(),
{
    if cells.len() == 0 {
        assert(terminal.collected(cells) =~= Seq::<Item>::empty());
    } else {
        let front = cells.drop_last();
        let last = cells.last();
        assert(cells =~= front.push(last));
        lemma_collected_push(terminal, front, last);
        lemma_collected(terminal, front, item);
        lemma_stack(terminal, last, terminal.size.2 as int, item);
        let before = terminal.collected(front);
        let whole = terminal.collected(cells);
        let top = terminal.stack(last, terminal.size.2 as int);
        if whole.contains(item) {
            let k = choose|k: int| 0 <= k < whole.len() && whole[k] == item;
            if k < before.len() {
                assert(before[k] == item);
            } else {
                assert(top[k - before.len()] == item);
            }
        }
        if before.contains(item) {
            let k = choose|k: int| 0 <= k < before.len() && before[k] == item;
            assert(whole[k] == item);
        }
        if top.contains(item) {
            let k = choose|k: int| 0 <= k < top.len() && top[k] == item;
            assert(whole[before.len() + k] == item);
        }
        if front.contains(item.1) {
            let k = choose|k: int| 0 <= k < front.len() && front[k] == item.1;
            assert(cells[k] == item.1);
        }
        if cells.contains(item.1) {
            let k = choose|k: int| 0 <= k < cells.len() && cells[k] == item.1;
            if k < front.len() {
                assert(front[k] == item.1);
            }
        }
    }
}

/// What is kept of cells that are each there once is each there once.
pub proof fn lemma_filter_no_duplicates(cells: Seq<Cell>, keep: spec_fn(Cell) -> bool)
    requires
        cells.no_duplicates(),
    ensures
        cells.filter(keep).no_duplicates(),
    decreases cells.len(),
{
    reveal(Seq::filter);
    if cells.len() > 0 {
        let front = cells.drop_last();
        let last = cells.last();
        lemma_filter_no_duplicates(front, keep);
        if keep(last) {
            let kept = front.filter(keep);
            assert forall|i: int, j: int|
                0 <= i < kept.len() + 1 && 0 <= j < kept.len() + 1 && i != j implies kept.push(
                last,
            )[i] != kept.push(last)[j] by {
                if i < kept.len() && j == kept.len() {
                    assert(kept.contains(kept[i]));
                    front.lemma_filter_contains_rev(keep, kept[i]);
                    let k = choose|k: int| 0 <= k < front.len() && front[k] == kept[i];
                    assert(cells[k] == kept[i]);
                }
                if j < kept.len() && i == kept.len() {
                    assert(kept.contains(kept[j]));
                    front.lemma_filter_contains_rev(keep, kept[j]);
                    let k = choose|k: int| 0 <= k < front.len() && front[k] == kept[j];
                    assert(cells[k] == kept[j]);
                }
            }
        }
    }
}

/// The pending cells are the cells that changed since the last frame and
/// those that changed in the frame before: each of them, and each once.
pub proof fn lemma_pending(terminal: TerminalModel, cell: Cell)
    requires
        terminal.well_formed(),
    ensures
        terminal.pending().contains(cell) <==> terminal.dirties.contains(cell)
            || terminal.old_dirties.contains(cell),
        terminal.pending().no_duplicates(),
{
    let new = terminal.dirties;
    let old = terminal.old_dirties;
    let kept = old.filter(not_among(new));
    let all = terminal.pending();
    if kept.contains(cell) {
        old.lemma_filter_contains_rev(not_among(new), cell);
        let k = choose|k: int| 0 <= k < kept.len() && kept[k] == cell;
        assert(all[new.len() + k] == cell);
    }
    if new.contains(cell) {
        let k = choose|k: int| 0 <= k < new.len() && new[k] == cell;
        assert(all[k] == cell);
    }
    if old.contains(cell) && !new.contains(cell) {
        let k = choose|k: int| 0 <= k < old.len() && old[k] == cell;
        old.lemma_filter_contains(not_among(new), k);
        let j = choose|j: int| 0 <= j < kept.len() && kept[j] == cell;
        assert(all[new.len() + j] == cell);
    }
    if all.contains(cell) {
        let k = choose|k: int| 0 <= k < all.len() && all[k] == cell;
        if k < new.len() {
            assert(new[k] == cell);
        } else {
            assert(kept[k - new.len()] == cell);
            assert(kept.contains(cell));
        }
    }
    lemma_filter_no_duplicates(old, not_among(new));
    assert forall|i: int, j: int| 0 <= i < new.len() && 0 <= j < kept.len() implies new[i]
        != kept[j] by {
        old.lemma_filter_pred(not_among(new), j);
        assert(new.contains(new[i]));
    }
    vstd::seq_lib::lemma_no_dup_in_concat(new, kept);
}

/// A frame holds, once for each layer, what each pending cell holds, and
/// nothing else; along it the layers never fall. A cell that changed is
/// pending for two frames: for the next, and for the one after it.
pub proof fn lemma_frame(terminal: TerminalModel, item: Item, cell: Cell)
    requires
        terminal.well_formed(),
    ensures
        terminal.draw_list().contains(item) <==> terminal.pending().contains(item.1) && item.2
            < terminal.size.2 && terminal.contents[item.1.0 as int][item.1.1 as int][item.2 as int]
            == Some(item.0),
        forall|a: int, b: int|
            0 <= a <= b < terminal.draw_list().len() ==> (#[trigger] terminal.draw_list()[a]).2
                <= (#[trigger] terminal.draw_list()[b]).2,
        terminal.dirties.contains(cell) ==> terminal.pending().contains(cell)
            && terminal.rotated().pending().contains(cell),
        terminal.rotated().well_formed(),
{
    let collected = terminal.collected(terminal.pending());
    let layers = item_layers(collected);
    crate::layers::lemma_in_layer_order(collected, layers);
    lemma_collected(terminal, terminal.pending(), item);
    assert forall|a: int, b: int| 0 <= a <= b < terminal.draw_list().len() implies (
    #[trigger] terminal.draw_list()[a]).2 <= (#[trigger] terminal.draw_list()[b]).2 by {
        assert(layers[crate::layers::origin(layers, a)] <= layers[crate::layers::origin(layers, b)]);
    }
    lemma_pending(terminal, cell);
    assert(terminal.rotated().well_formed());
    lemma_pending(terminal.rotated(), cell);
}

} // verus!
