use ooze::error::OozeError;
use ooze::sprite::{SheetCell, SheetMetadata, Sprite, SpriteMap};

const SHEET: &str = r#"
[dimensions]
sprite_width = 16
sprite_height = 8

[sprites]
ooze = [2, 1]
floor = [0, 0]
wall = [1, 3]
"#;

#[test]
fn sprite_map_from_sheet_lays_out_each_sprite() {
    let map = SpriteMap::from_sheet(SHEET).unwrap();
    assert_eq!(map.get("ooze").unwrap(), &Sprite::from_sheet(32, 8, 16, 8));
    assert_eq!(map.get("floor").unwrap(), &Sprite::from_sheet(0, 0, 16, 8));
    assert_eq!(map.get("wall").unwrap(), &Sprite::from_sheet(16, 24, 16, 8));
    let mut ids: Vec<String> = map.ids().clone();
    ids.sort();
    assert_eq!(ids, vec!["floor", "ooze", "wall"]);
}

#[test]
fn sprite_map_get_fails_on_an_id_that_is_not_there() {
    let map = SpriteMap::from_sheet(SHEET).unwrap();
    assert!(matches!(map.get("door"), Err(OozeError::GenericError)));
    assert!(matches!(map.get(""), Err(OozeError::GenericError)));
    assert!(matches!(map.get("sprite_width"), Err(OozeError::GenericError)));
}

#[test]
fn sheet_that_is_no_toml_fails_to_parse() {
    match SpriteMap::from_sheet("[dimensions\nsprite_width = ") {
        Err(OozeError::TomlDeserializeError(err)) => {
            let text = OozeError::TomlDeserializeError(err).message();
            assert!(!text.is_empty());
        }
        _ => panic!("a broken document was read"),
    }
    assert!(matches!(SpriteMap::from_sheet("a = = 1"), Err(OozeError::TomlDeserializeError(_))));
}

#[test]
fn toml_error_keeps_its_message() {
    let broken = "x = [1, 2";
    let expected = broken.parse::<toml::Value>().unwrap_err().to_string();
    match SpriteMap::from_sheet(broken) {
        Err(err) => {
            assert_eq!(err.message(), expected);
            assert_eq!(err.description(), "A badly formatted document");
        }
        Ok(_) => panic!("a broken document was read"),
    }
}

#[test]
fn sheet_without_a_field_fails_whole() {
    let no_dimensions = "[sprites]\nooze = [0, 0]\n";
    let no_width = "[dimensions]\nsprite_height = 8\n[sprites]\nooze = [0, 0]\n";
    let no_height = "[dimensions]\nsprite_width = 8\n[sprites]\nooze = [0, 0]\n";
    let no_sprites = "[dimensions]\nsprite_width = 8\nsprite_height = 8\n";
    let empty = "";
    for text in [no_dimensions, no_width, no_height, no_sprites, empty] {
        assert!(matches!(SpriteMap::from_sheet(text), Err(OozeError::GenericError)));
    }
}

#[test]
fn sheet_with_a_field_of_another_type_fails_whole() {
    let width_is_text = "[dimensions]\nsprite_width = \"8\"\nsprite_height = 8\n[sprites]\nooze = [0, 0]\n";
    let width_is_float = "[dimensions]\nsprite_width = 8.0\nsprite_height = 8\n[sprites]\nooze = [0, 0]\n";
    let dimensions_is_number = "dimensions = 3\n[sprites]\nooze = [0, 0]\n";
    let sprites_is_array = "sprites = [1, 2]\n[dimensions]\nsprite_width = 8\nsprite_height = 8\n";
    let entry_is_number = "[dimensions]\nsprite_width = 8\nsprite_height = 8\n[sprites]\nfloor = [0, 0]\nooze = 4\n";
    let entry_is_short = "[dimensions]\nsprite_width = 8\nsprite_height = 8\n[sprites]\nfloor = [0, 0]\nooze = [4]\n";
    let entry_is_empty = "[dimensions]\nsprite_width = 8\nsprite_height = 8\n[sprites]\nooze = []\n";
    let entry_of_text = "[dimensions]\nsprite_width = 8\nsprite_height = 8\n[sprites]\nooze = [\"a\", \"b\"]\n";
    for text in [
        width_is_text,
        width_is_float,
        dimensions_is_number,
        sprites_is_array,
        entry_is_number,
        entry_is_short,
        entry_is_empty,
        entry_of_text,
    ] {
        assert!(matches!(SpriteMap::from_sheet(text), Err(OozeError::GenericError)));
    }
}

#[test]
fn sheet_with_numbers_that_do_not_fit_fails_whole() {
    let negative_width = "[dimensions]\nsprite_width = -8\nsprite_height = 8\n[sprites]\nooze = [0, 0]\n";
    let negative_column = "[dimensions]\nsprite_width = 8\nsprite_height = 8\n[sprites]\nooze = [-1, 0]\n";
    let huge_height = "[dimensions]\nsprite_width = 8\nsprite_height = 4294967296\n[sprites]\nooze = [0, 0]\n";
    let huge_row = "[dimensions]\nsprite_width = 8\nsprite_height = 8\n[sprites]\nooze = [0, 4294967296]\n";
    let product = "[dimensions]\nsprite_width = 65536\nsprite_height = 8\n[sprites]\nooze = [65536, 0]\n";
    for text in [negative_width, negative_column, huge_height, huge_row, product] {
        assert!(matches!(SpriteMap::from_sheet(text), Err(OozeError::GenericError)));
    }
    let largest = "[dimensions]\nsprite_width = 65535\nsprite_height = 4294967295\n[sprites]\nooze = [65537, 1]\n";
    let map = SpriteMap::from_sheet(largest).unwrap();
    assert_eq!(map.get("ooze").unwrap(), &Sprite::from_sheet(4294967295, 4294967295, 65535, 4294967295));
}

#[test]
fn sheet_with_more_in_an_entry_reads_the_first_two() {
    let text = "[dimensions]\nsprite_width = 4\nsprite_height = 4\nextra = true\n[sprites]\nooze = [3, 2, 9]\n[other]\nx = 1\n";
    let map = SpriteMap::from_sheet(text).unwrap();
    assert_eq!(map.get("ooze").unwrap(), &Sprite::from_sheet(12, 8, 4, 4));
    assert_eq!(map.ids().len(), 1);
}

#[test]
fn sheet_without_sprites_gives_an_empty_map() {
    let text = "[dimensions]\nsprite_width = 4\nsprite_height = 4\n[sprites]\n";
    let map = SpriteMap::from_sheet(text).unwrap();
    assert!(map.ids().is_empty());
    assert!(matches!(map.get_random(), Err(OozeError::GenericError)));
}

#[test]
fn read_metadata_reads_what_the_document_says() {
    let doc = SHEET.parse::<toml::Value>().unwrap();
    let metadata = ooze::sprite::read_metadata(&doc).unwrap();
    assert_eq!(metadata.sprite_width, 16);
    assert_eq!(metadata.sprite_height, 8);
    let mut cells: Vec<(String, i64, i64)> =
        metadata.cells.iter().map(|cell| (cell.id.clone(), cell.column, cell.row)).collect();
    cells.sort();
    assert_eq!(
        cells,
        vec![("floor".to_string(), 0, 0), ("ooze".to_string(), 2, 1), ("wall".to_string(), 1, 3)]
    );
    let other = "x = 1".parse::<toml::Value>().unwrap();
    assert!(ooze::sprite::read_metadata(&other).is_none());
}

#[test]
fn from_metadata_multiplies_columns_and_rows() {
    let metadata = SheetMetadata {
        sprite_width: 10,
        sprite_height: 20,
        cells: vec![
            SheetCell { id: "a".to_string(), column: 0, row: 0 },
            SheetCell { id: "b".to_string(), column: 3, row: 5 },
            SheetCell { id: "a".to_string(), column: 7, row: 7 },
        ],
    };
    let map = SpriteMap::from_metadata(&metadata).unwrap();
    assert_eq!(map.get("a").unwrap(), &Sprite::from_sheet(70, 140, 10, 20));
    assert_eq!(map.get("b").unwrap(), &Sprite::from_sheet(30, 100, 10, 20));
    assert_eq!(map.ids(), &vec!["a".to_string(), "b".to_string()]);
    let bad = SheetMetadata {
        sprite_width: 10,
        sprite_height: 20,
        cells: vec![
            SheetCell { id: "a".to_string(), column: 0, row: 0 },
            SheetCell { id: "b".to_string(), column: 3, row: -5 },
        ],
    };
    assert!(matches!(SpriteMap::from_metadata(&bad), Err(OozeError::GenericError)));
}

#[test]
fn insert_replaces_the_sprite_of_an_id() {
    let mut map = SpriteMap::new();
    assert!(matches!(map.get("a"), Err(OozeError::GenericError)));
    map.insert("a".to_string(), Sprite::new(8, 8));
    map.insert("b".to_string(), Sprite::new(9, 9));
    map.insert("a".to_string(), Sprite::new(10, 10));
    assert_eq!(map.get("a").unwrap(), &Sprite { x: 0, y: 0, width: 10, height: 10 });
    assert_eq!(map.get("b").unwrap(), &Sprite { x: 0, y: 0, width: 9, height: 9 });
    assert_eq!(map.ids().len(), 2);
}

#[test]
fn get_random_gives_a_sprite_of_the_map() {
    let map = SpriteMap::from_sheet(SHEET).unwrap();
    let all = [
        Sprite::from_sheet(32, 8, 16, 8),
        Sprite::from_sheet(0, 0, 16, 8),
        Sprite::from_sheet(16, 24, 16, 8),
    ];
    let mut seen = [false, false, false];
    for _ in 0..200 {
        let sprite = map.get_random().unwrap();
        let index = all.iter().position(|known| known == sprite).unwrap();
        seen[index] = true;
    }
    assert_eq!(seen, [true, true, true]);
    assert!(matches!(SpriteMap::new().get_random(), Err(OozeError::GenericError)));
}
