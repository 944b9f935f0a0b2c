use asset_parser::catalogs::{arms_asset_type_ids, units};

#[test]
fn units_are_collected_from_comma_groups() {
    let text = "-- temperature units\n\u{b0}C,\u{b0}F,K\n\nm,ft\n";
    let catalog = units(text);
    assert!(catalog.contains_symbol(&"\u{b0}C".to_string()));
    assert!(catalog.contains_symbol(&"\u{b0}F".to_string()));
    assert!(catalog.contains_symbol(&"K".to_string()));
    assert!(catalog.contains_symbol(&"m".to_string()));
    assert!(catalog.contains_symbol(&"ft".to_string()));
    assert!(!catalog.contains_symbol(&"mi".to_string()));
}

#[test]
fn comment_and_blank_lines_contribute_no_units() {
    let text = "-- kW,kWh\n   \n";
    let catalog = units(text);
    assert!(!catalog.contains_symbol(&"kW".to_string()));
    assert!(!catalog.contains_symbol(&"kWh".to_string()));
    assert!(!catalog.contains_symbol(&"".to_string()));
}

#[test]
fn unit_lines_are_trimmed_but_symbols_are_not() {
    let text = "  L/s,gal/min  \n";
    let catalog = units(text);
    assert!(catalog.contains_symbol(&"L/s".to_string()));
    assert!(catalog.contains_symbol(&"gal/min".to_string()));
}

#[test]
fn empty_units_text_yields_no_units() {
    let catalog = units("");
    assert!(!catalog.contains_symbol(&"m".to_string()));
}

#[test]
fn asset_type_ids_parse_one_integer_per_line() {
    let result = arms_asset_type_ids("5\n12\n999\n");
    let catalog = result.expect("all lines should parse");
    assert!(catalog.contains_id(5));
    assert!(catalog.contains_id(12));
    assert!(catalog.contains_id(999));
    assert!(!catalog.contains_id(1000));
}

#[test]
fn a_plus_sign_is_accepted() {
    let catalog = arms_asset_type_ids("+7\n").expect("plus-signed integers parse");
    assert!(catalog.contains_id(7));
}

#[test]
fn the_largest_id_fits() {
    let catalog = arms_asset_type_ids("4294967295\n").expect("u32::MAX parses");
    assert!(catalog.contains_id(4294967295));
}

#[test]
fn an_out_of_range_id_is_rejected() {
    assert!(arms_asset_type_ids("4294967296\n").is_none());
}

#[test]
fn a_non_numeric_line_is_rejected() {
    assert!(arms_asset_type_ids("5\nabc\n7\n").is_none());
}

#[test]
fn an_id_with_stray_whitespace_is_rejected() {
    assert!(arms_asset_type_ids("12 \n").is_none());
}

#[test]
fn a_blank_middle_line_is_rejected() {
    assert!(arms_asset_type_ids("1\n\n2\n").is_none());
}

#[test]
fn a_negative_id_is_rejected() {
    assert!(arms_asset_type_ids("-3\n").is_none());
}

#[test]
fn empty_id_text_yields_an_empty_catalog() {
    let catalog = arms_asset_type_ids("").expect("no lines, nothing to fail");
    assert!(!catalog.contains_id(0));
}
