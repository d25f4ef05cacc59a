use falling_sand::materials::{
    BoardSettings, CatalogError, ColorError, IndexShift, Material, MaterialColor, MaterialId,
    Materials, Movement, MovementRule,
};

fn settings() -> BoardSettings {
    BoardSettings {
        background: MaterialColor { r: 1, g: 2, b: 3 },
        view_width_px: 640,
        view_height_px: 480,
        grid_rows: 48,
        grid_columns: 64,
        brush_radius: 2,
    }
}

fn material(id: u8, name: &str, key: &str, hex: u32, rules: Vec<MovementRule>) -> Material {
    Material {
        id: MaterialId(id),
        name: String::from(name),
        rules,
        color: MaterialColor::new(hex),
        key: String::from(key),
    }
}

fn move_if_empty(row: i64, column: i64) -> MovementRule {
    let shift = IndexShift { row, column };
    MovementRule { movement: Movement::Move(shift), if_empty: vec![shift], if_occupied: vec![] }
}

#[test]
fn color_splits_a_number_into_channels() {
    assert_eq!(MaterialColor::new(0xC2B280), MaterialColor { r: 0xC2, g: 0xB2, b: 0x80 });
    assert_eq!(MaterialColor::new(0x000000), MaterialColor { r: 0, g: 0, b: 0 });
    assert_eq!(MaterialColor::new(0xFFFFFF), MaterialColor { r: 255, g: 255, b: 255 });
    assert_eq!(MaterialColor::new(0x0000FF), MaterialColor { r: 0, g: 0, b: 255 });
    assert_eq!(MaterialColor::new(0x00FF00), MaterialColor { r: 0, g: 255, b: 0 });
    assert_eq!(MaterialColor::new(0xFF0000), MaterialColor { r: 255, g: 0, b: 0 });
}

#[test]
fn color_ignores_bits_above_the_low_24() {
    assert_eq!(MaterialColor::new(0x12345678), MaterialColor { r: 0x34, g: 0x56, b: 0x78 });
    assert_eq!(MaterialColor::new(u32::MAX), MaterialColor { r: 255, g: 255, b: 255 });
    assert_eq!(MaterialColor::new(0xFF000000), MaterialColor { r: 0, g: 0, b: 0 });
}

#[test]
fn color_is_read_from_hexadecimal_digits() {
    let sand = MaterialColor { r: 0xC2, g: 0xB2, b: 0x80 };
    assert_eq!(MaterialColor::from_hex(b"C2B280"), Ok(sand));
    assert_eq!(MaterialColor::from_hex(b"c2b280"), Ok(sand));
    assert_eq!(MaterialColor::from_hex(b"c2B280"), Ok(sand));
    assert_eq!(MaterialColor::from_hex(b"000000"), Ok(MaterialColor { r: 0, g: 0, b: 0 }));
    assert_eq!(MaterialColor::from_hex(b"FFFFFF"), Ok(MaterialColor { r: 255, g: 255, b: 255 }));
    assert_eq!(MaterialColor::from_hex(b"09AF9a"), Ok(MaterialColor { r: 0x09, g: 0xAF, b: 0x9A }));
    assert_eq!(MaterialColor::from_hex(b"0190fF"), Ok(MaterialColor { r: 0x01, g: 0x90, b: 0xFF }));
}

#[test]
fn color_is_read_from_any_number_of_digits_that_fits() {
    assert_eq!(MaterialColor::from_hex(b"0"), Ok(MaterialColor { r: 0, g: 0, b: 0 }));
    assert_eq!(MaterialColor::from_hex(b"7"), Ok(MaterialColor { r: 0, g: 0, b: 7 }));
    assert_eq!(MaterialColor::from_hex(b"FFF"), Ok(MaterialColor { r: 0, g: 0x0F, b: 0xFF }));
    assert_eq!(MaterialColor::from_hex(b"+FF"), Ok(MaterialColor { r: 0, g: 0, b: 0xFF }));
    assert_eq!(MaterialColor::from_hex(b"12345678"), Ok(MaterialColor { r: 0x34, g: 0x56, b: 0x78 }));
    assert_eq!(MaterialColor::from_hex(b"FFFFFFFF"), Ok(MaterialColor { r: 255, g: 255, b: 255 }));
    assert_eq!(
        MaterialColor::from_hex(b"00000000000000000000AB00CD"),
        Ok(MaterialColor { r: 0xAB, g: 0x00, b: 0xCD })
    );
}

#[test]
fn color_text_without_content_is_rejected() {
    assert_eq!(MaterialColor::from_hex(b""), Err(ColorError::Empty));
    assert_eq!(MaterialColor::from_hex(b"+"), Err(ColorError::InvalidDigit));
}

#[test]
fn color_text_with_a_wrong_byte_is_rejected() {
    assert_eq!(MaterialColor::from_hex(b"C2B28G"), Err(ColorError::InvalidDigit));
    assert_eq!(MaterialColor::from_hex(b"G"), Err(ColorError::InvalidDigit));
    assert_eq!(MaterialColor::from_hex(b"#C2B280"), Err(ColorError::InvalidDigit));
    assert_eq!(MaterialColor::from_hex(b"0xC2B280"), Err(ColorError::InvalidDigit));
    assert_eq!(MaterialColor::from_hex(b" C2B280"), Err(ColorError::InvalidDigit));
    assert_eq!(MaterialColor::from_hex(b"C2B280 "), Err(ColorError::InvalidDigit));
    assert_eq!(MaterialColor::from_hex(b"C2_B280"), Err(ColorError::InvalidDigit));
    assert_eq!(MaterialColor::from_hex(b"-1"), Err(ColorError::InvalidDigit));
    assert_eq!(MaterialColor::from_hex(b"++1"), Err(ColorError::InvalidDigit));
    assert_eq!(MaterialColor::from_hex(b"1+"), Err(ColorError::InvalidDigit));
    assert_eq!(MaterialColor::from_hex(b"/"), Err(ColorError::InvalidDigit));
    assert_eq!(MaterialColor::from_hex(b":"), Err(ColorError::InvalidDigit));
    assert_eq!(MaterialColor::from_hex(b"@"), Err(ColorError::InvalidDigit));
    assert_eq!(MaterialColor::from_hex(b"`"), Err(ColorError::InvalidDigit));
    assert_eq!(MaterialColor::from_hex(b"g"), Err(ColorError::InvalidDigit));
    assert_eq!(MaterialColor::from_hex("C2B28\u{e9}".as_bytes()), Err(ColorError::InvalidDigit));
    assert_eq!(MaterialColor::from_hex(&[0xFF, 0x00]), Err(ColorError::InvalidDigit));
}

#[test]
fn color_text_of_a_number_beyond_32_bits_is_rejected() {
    assert_eq!(MaterialColor::from_hex(b"100000000"), Err(ColorError::TooLarge));
    assert_eq!(MaterialColor::from_hex(b"FFFFFFFFF"), Err(ColorError::TooLarge));
    assert_eq!(MaterialColor::from_hex(b"+123456789"), Err(ColorError::TooLarge));
    assert_eq!(MaterialColor::from_hex(b"0100000000"), Err(ColorError::TooLarge));
}

#[test]
fn color_text_fails_at_the_first_byte_that_cannot_be_read() {
    assert_eq!(MaterialColor::from_hex(b"FFFFFFFFFZ"), Err(ColorError::TooLarge));
    assert_eq!(MaterialColor::from_hex(b"ZFFFFFFFFF"), Err(ColorError::InvalidDigit));
    assert_eq!(MaterialColor::from_hex(b"FFFFFFFFZF"), Err(ColorError::InvalidDigit));
}

#[test]
fn color_text_is_read_as_the_number_parser_of_std_reads_it() {
    let samples = [
        "", "+", "-", "0", "+0", "-0", "C2B280", "c2b280", "FFFFFFFF", "100000000", "FFFFFFFFFZ",
        "12 ", " 12", "0x12", "+-1", "++1", "00000000000001", "G", "fF", "7fffffff", "80000000",
    ];
    for text in samples {
        let expected = match u32::from_str_radix(text, 16) {
            Ok(number) => Ok(MaterialColor::new(number)),
            Err(error) => Err(match error.kind() {
                std::num::IntErrorKind::Empty => ColorError::Empty,
                std::num::IntErrorKind::InvalidDigit => ColorError::InvalidDigit,
                _ => ColorError::TooLarge,
            }),
        };
        assert_eq!(MaterialColor::from_hex(text.as_bytes()), expected, "{:?}", text);
    }
}

#[test]
fn color_is_written_as_six_digits_in_upper_case() {
    assert_eq!(MaterialColor { r: 0xC2, g: 0xB2, b: 0x80 }.to_hex(), b"C2B280".to_vec());
    assert_eq!(MaterialColor { r: 0, g: 0, b: 0 }.to_hex(), b"000000".to_vec());
    assert_eq!(MaterialColor { r: 255, g: 255, b: 255 }.to_hex(), b"FFFFFF".to_vec());
    assert_eq!(MaterialColor { r: 0, g: 0x0F, b: 0xFF }.to_hex(), b"000FFF".to_vec());
    assert_eq!(MaterialColor { r: 0x01, g: 0x9A, b: 0x0B }.to_hex(), b"019A0B".to_vec());
    assert_eq!(MaterialColor { r: 0xAB, g: 0xCD, b: 0xEF }.to_hex(), b"ABCDEF".to_vec());
    assert_eq!(MaterialColor { r: 0x10, g: 0x09, b: 0x90 }.to_hex(), b"100990".to_vec());
}

#[test]
fn color_reads_back_from_what_was_written() {
    let channels = [0u8, 1, 9, 10, 15, 16, 0x7F, 0x80, 0x99, 0x9A, 0xA0, 0xF0, 0xFE, 0xFF];
    for r in channels {
        for g in channels {
            for b in channels {
                let color = MaterialColor { r, g, b };
                let text = color.to_hex();
                assert_eq!(text.len(), 6);
                assert_eq!(MaterialColor::from_hex(&text), Ok(color));
            }
        }
    }
}

#[test]
fn catalog_rejects_an_empty_list() {
    let made = Materials::new(Vec::new(), settings());
    assert_eq!(made.unwrap_err(), CatalogError::Empty);
}

#[test]
fn catalog_rejects_a_repeated_id() {
    let list = vec![
        material(4, "Sand", "S", 0xC2B280, vec![]),
        material(4, "Water", "W", 0x0000FF, vec![]),
    ];
    let made = Materials::new(list, settings());
    assert_eq!(made.unwrap_err(), CatalogError::DuplicateId(MaterialId(4)));
}

#[test]
fn catalog_reports_the_first_entry_that_repeats() {
    let list = vec![
        material(3, "A", "A", 0, vec![]),
        material(5, "B", "B", 0, vec![]),
        material(9, "C", "C", 0, vec![]),
        material(5, "D", "D", 0, vec![]),
        material(3, "E", "E", 0, vec![]),
    ];
    let made = Materials::new(list, settings());
    assert_eq!(made.unwrap_err(), CatalogError::DuplicateId(MaterialId(5)));
}

#[test]
fn catalog_accepts_unique_ids_and_keeps_order_and_settings() {
    let list = vec![
        material(7, "Sand", "S", 0xC2B280, vec![move_if_empty(1, 0)]),
        material(2, "Water", "W", 0x0000FF, vec![]),
        material(255, "Stone", "T", 0x808080, vec![]),
    ];
    let catalog = Materials::new(list, settings()).unwrap();
    assert_eq!(catalog.settings(), settings());
    assert_eq!(catalog.settings().background, MaterialColor { r: 1, g: 2, b: 3 });
    assert_eq!(catalog.settings().grid_rows, 48);
    assert_eq!(catalog.settings().grid_columns, 64);
    assert_eq!(catalog.settings().brush_radius, 2);
    let ids: Vec<MaterialId> = catalog.list().iter().map(|m| m.id).collect();
    assert_eq!(ids, vec![MaterialId(7), MaterialId(2), MaterialId(255)]);
    assert_eq!(catalog.list()[0].name, "Sand");
}

#[test]
fn catalog_of_one_material_is_accepted() {
    let catalog = Materials::new(vec![material(0, "Sand", "S", 0, vec![])], settings());
    assert!(catalog.is_ok());
}

#[test]
fn contains_id_tells_known_from_unknown() {
    let list = vec![material(7, "Sand", "S", 0, vec![]), material(2, "Water", "W", 0, vec![])];
    let catalog = Materials::new(list, settings()).unwrap();
    assert!(catalog.contains_id(MaterialId(7)));
    assert!(catalog.contains_id(MaterialId(2)));
    assert!(!catalog.contains_id(MaterialId(0)));
    assert!(!catalog.contains_id(MaterialId(1)));
    assert!(!catalog.contains_id(MaterialId(255)));
}

#[test]
fn get_color_gives_the_material_color_or_the_background() {
    let list = vec![
        material(0, "Sand", "S", 0xC2B280, vec![]),
        material(1, "Water", "W", 0x0000FF, vec![]),
    ];
    let catalog = Materials::new(list, settings()).unwrap();
    assert_eq!(catalog.get_color(Some(MaterialId(0))), MaterialColor { r: 0xC2, g: 0xB2, b: 0x80 });
    assert_eq!(catalog.get_color(Some(MaterialId(1))), MaterialColor { r: 0, g: 0, b: 255 });
    assert_eq!(catalog.get_color(None), MaterialColor { r: 1, g: 2, b: 3 });
}

#[test]
fn get_name_gives_the_material_name_or_eraser() {
    let list = vec![
        material(0, "Sand", "S", 0xC2B280, vec![]),
        material(1, "Water", "W", 0x0000FF, vec![]),
    ];
    let catalog = Materials::new(list, settings()).unwrap();
    assert_eq!(catalog.get_name(Some(MaterialId(0))), "Sand");
    assert_eq!(catalog.get_name(Some(MaterialId(1))), "Water");
    assert_eq!(catalog.get_name(None), "Eraser");
}

#[test]
fn get_rules_gives_the_rules_in_order() {
    let rules = vec![move_if_empty(1, 0), move_if_empty(1, -1), move_if_empty(1, 1)];
    let list = vec![material(0, "Sand", "S", 0, rules), material(1, "Stone", "T", 0, vec![])];
    let catalog = Materials::new(list, settings()).unwrap();
    let sand = catalog.get_rules(MaterialId(0));
    assert_eq!(sand.len(), 3);
    assert_eq!(sand[0].movement, Movement::Move(IndexShift { row: 1, column: 0 }));
    assert_eq!(sand[1].movement, Movement::Move(IndexShift { row: 1, column: -1 }));
    assert_eq!(sand[2].movement, Movement::Move(IndexShift { row: 1, column: 1 }));
    assert_eq!(sand[1].if_empty, vec![IndexShift { row: 1, column: -1 }]);
    assert!(sand[1].if_occupied.is_empty());
    assert!(catalog.get_rules(MaterialId(1)).is_empty());
}

#[test]
fn lookup_finds_ids_that_differ_from_their_position() {
    let list = vec![
        material(5, "Five", "5", 0x050505, vec![]),
        material(0, "Zero", "0", 0x000001, vec![]),
        material(1, "One", "1", 0x010101, vec![move_if_empty(1, 0)]),
    ];
    let catalog = Materials::new(list, settings()).unwrap();
    assert_eq!(catalog.get_name(Some(MaterialId(5))), "Five");
    assert_eq!(catalog.get_name(Some(MaterialId(0))), "Zero");
    assert_eq!(catalog.get_name(Some(MaterialId(1))), "One");
    assert_eq!(catalog.get_color(Some(MaterialId(0))), MaterialColor { r: 0, g: 0, b: 1 });
    assert_eq!(catalog.get_rules(MaterialId(1)).len(), 1);
    assert_eq!(catalog.get_rules(MaterialId(5)).len(), 0);
}

#[test]
fn get_id_by_key_finds_the_bound_material() {
    let list = vec![
        material(3, "Sand", "S", 0, vec![]),
        material(8, "Water", "W", 0, vec![]),
        material(1, "Stone", "Key1", 0, vec![]),
    ];
    let catalog = Materials::new(list, settings()).unwrap();
    assert_eq!(catalog.get_id_by_key("S"), Some(MaterialId(3)));
    assert_eq!(catalog.get_id_by_key("W"), Some(MaterialId(8)));
    assert_eq!(catalog.get_id_by_key("Key1"), Some(MaterialId(1)));
}

#[test]
fn get_id_by_key_gives_nothing_for_an_unbound_key() {
    let list = vec![material(3, "Sand", "S", 0, vec![]), material(8, "Water", "W", 0, vec![])];
    let catalog = Materials::new(list, settings()).unwrap();
    assert_eq!(catalog.get_id_by_key("X"), None);
    assert_eq!(catalog.get_id_by_key(""), None);
    assert_eq!(catalog.get_id_by_key("s"), None);
    assert_eq!(catalog.get_id_by_key("SW"), None);
}

#[test]
fn get_id_by_key_prefers_the_first_of_two_bindings() {
    let list = vec![
        material(3, "Sand", "S", 0, vec![]),
        material(8, "Salt", "S", 0, vec![]),
    ];
    let catalog = Materials::new(list, settings()).unwrap();
    assert_eq!(catalog.get_id_by_key("S"), Some(MaterialId(3)));
}
