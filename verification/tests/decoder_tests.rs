use xlsxgrid::error::Error;
use xlsxgrid::grid::Spreadsheet;
use xlsxgrid::shared_strings::load_shared_strings;
use xlsxgrid::sheet::decode_worksheet;
use xlsxgrid::styles::{load_styles, Styles};
use xlsxgrid::cell::Type;
use xlsxgrid::xml::tokenize;

fn events(xml: &str) -> Vec<xlsxgrid::xml::XmlEvent> {
    tokenize(xml.as_bytes().to_vec()).unwrap()
}

#[test]
fn shared_strings_capture_literal_text_in_order() {
    let xml = r#"<?xml version="1.0"?>
<sst><si><t>hello</t></si><si><t>wor</t><t>ld</t></si><si><t></t></si></sst>"#;
    let strings = load_shared_strings(&events(xml));
    assert_eq!(strings.len(), 3);
    assert_eq!(strings[0], "hello");
    assert_eq!(strings[1], "world");
    assert_eq!(strings[2], "");
}

#[test]
fn shared_strings_resolve_entities() {
    let xml = "<sst><si><t>a &amp; b &#x41;</t></si></sst>";
    let strings = load_shared_strings(&events(xml));
    assert_eq!(strings.len(), 1);
    assert_eq!(strings[0], "a & b A");
}

#[test]
fn shared_strings_exclude_phonetic_hints() {
    let xml = "<sst><si><t>base</t><rPh><t>hint</t></rPh><t>!</t></si></sst>";
    let strings = load_shared_strings(&events(xml));
    assert_eq!(strings.len(), 1);
    assert_eq!(strings[0], "base!");
}

#[test]
fn tokenize_rejects_malformed_xml() {
    assert_eq!(tokenize(b"<a><b att=".to_vec()).unwrap_err(), Error::MalformedXml);
}

const STYLES_XML: &str = r#"<styleSheet>
<fonts count="2">
<font><sz val="17"/><color rgb="FF11806A"/><name val="Arial"/></font>
<font><sz val="10"/><color indexed="1"/><name val="Mono"/></font>
</fonts>
<cellXfs count="2">
<xf numFmtId="164" fontId="0" fillId="0" borderId="0" xfId="0" applyFont="false"/>
<xf numFmtId="0" fontId="1" applyFont="1" applyBorder="true"/>
</cellXfs>
<colors><indexedColors>
<rgbColor rgb="FF000001"/>
<rgbColor rgb="FFEDEDED"/>
</indexedColors></colors>
</styleSheet>"#;

#[test]
fn styles_load_fonts_formats_and_palette() {
    let styles = load_styles(&events(STYLES_XML)).unwrap();
    let f0 = styles.font(0);
    assert_eq!(f0.name(), "Arial");
    assert_eq!(f0.size_text(), "17");
    assert_eq!(f0.argb(), "FF11806A");
    assert_eq!(f0.rgb(), "11806A");
    let f1 = styles.font(1);
    assert_eq!(f1.name(), "Mono");
    assert_eq!(f1.size_text(), "10");
    // An indexed color is looked up in the palette.
    assert_eq!(f1.argb(), "FFEDEDED");
}

#[test]
fn style_index_out_of_range_resolves_to_the_default_font() {
    let styles = load_styles(&events(STYLES_XML)).unwrap();
    let fallback = styles.font(99);
    assert_eq!(fallback.name(), "Arial");
    assert_eq!(fallback.size_text(), "12");
    assert_eq!(fallback.argb(), "FF000000");

    let empty = Styles::new();
    let fallback = empty.font(0);
    assert_eq!(fallback.name(), "Arial");
    assert_eq!(fallback.size_text(), "12");
    assert_eq!(fallback.argb(), "FF000000");
}

#[test]
fn style_count_mismatch_is_a_structural_error() {
    let xml = r#"<styleSheet><fonts count="3"><font><name val="A"/></font></fonts></styleSheet>"#;
    assert_eq!(load_styles(&events(xml)).unwrap_err(), Error::CountMismatch);
}

#[test]
fn style_theme_color_resolves_to_the_default_color() {
    let xml = r#"<styleSheet>
<fonts count="1"><font><color theme="1" tint="-0.25"/><name val="T"/></font></fonts>
<cellXfs count="1"><xf fontId="0"/></cellXfs>
</styleSheet>"#;
    let styles = load_styles(&events(xml)).unwrap();
    assert_eq!(styles.font(0).argb(), "FF000000");
    assert_eq!(styles.font(0).name(), "T");
}

#[test]
fn style_indexed_color_out_of_range_defaults_to_black() {
    let xml = r#"<styleSheet>
<fonts count="1"><font><color indexed="9"/><name val="I"/></font></fonts>
<cellXfs count="1"><xf fontId="0"/></cellXfs>
</styleSheet>"#;
    let styles = load_styles(&events(xml)).unwrap();
    assert_eq!(styles.font(0).argb(), "FF000000");
}

fn decode(xml: &str, shared: &[&str], styles: &Styles) -> Spreadsheet {
    let mut grid = Spreadsheet::new();
    let shared: Vec<String> = shared.iter().map(|s| s.to_string()).collect();
    decode_worksheet(&events(xml), &shared, styles, &mut grid);
    grid
}

#[test]
fn worksheet_decodes_numbers_and_shared_strings() {
    let xml = r#"<worksheet><sheetData>
<row><c r="A1"><v>3.5</v></c><c r="B1" t="s"><v>1</v></c></row>
<row><c r="A2" t="n"><v>7</v></c></row>
</sheetData></worksheet>"#;
    let grid = decode(xml, &["zero", "one"], &Styles::new());
    assert_eq!(grid.size(), (2, 2));
    let a1 = grid.column(0, 0).unwrap();
    assert_eq!(a1.value(), Some("3.5"));
    assert_eq!(a1.cell_type(), Some(Type::Number));
    let b1 = grid.column(1, 0).unwrap();
    assert_eq!(b1.value(), Some("one"));
    assert_eq!(b1.cell_type(), Some(Type::String));
    let a2 = grid.column(0, 1).unwrap();
    assert_eq!(a2.value(), Some("7"));
}

#[test]
fn worksheet_dimension_sizes_the_grid_up_front() {
    let xml = r#"<worksheet><dimension ref="A1:C2"/><sheetData>
<c r="B2"><v>5</v></c>
</sheetData></worksheet>"#;
    let grid = decode(xml, &[], &Styles::new());
    assert_eq!(grid.size(), (3, 2));
    assert_eq!(grid.column(1, 1).unwrap().value(), Some("5"));
    assert_eq!(grid.column(2, 0).unwrap().value(), None);
}

#[test]
fn shared_string_cell_without_value_element_has_no_value() {
    let xml = r#"<worksheet><sheetData><c r="A1" t="s"></c></sheetData></worksheet>"#;
    let grid = decode(xml, &["hello"], &Styles::new());
    let a1 = grid.column(0, 0).unwrap();
    assert_eq!(a1.value(), None);
    assert_eq!(a1.cell_type(), Some(Type::String));
}

#[test]
fn shared_string_index_out_of_range_leaves_no_value() {
    let xml = r#"<worksheet><sheetData><c r="A1" t="s"><v>7</v></c></sheetData></worksheet>"#;
    let grid = decode(xml, &["only"], &Styles::new());
    assert_eq!(grid.column(0, 0).unwrap().value(), None);
}

#[test]
fn unknown_cell_type_code_degrades_to_an_untyped_empty_cell() {
    let xml = r#"<worksheet><sheetData><c r="A1" t="q"><v>5</v></c></sheetData></worksheet>"#;
    let grid = decode(xml, &[], &Styles::new());
    let a1 = grid.column(0, 0).unwrap();
    assert_eq!(a1.value(), None);
    assert_eq!(a1.cell_type(), None);
}

#[test]
fn formula_cell_value_is_not_computed() {
    let xml = r#"<worksheet><sheetData><c r="A1" t="f"><v>42</v></c></sheetData></worksheet>"#;
    let grid = decode(xml, &[], &Styles::new());
    let a1 = grid.column(0, 0).unwrap();
    assert_eq!(a1.value(), None);
    assert_eq!(a1.cell_type(), Some(Type::Formula));
}

#[test]
fn unparsable_cell_reference_skips_the_cell() {
    let xml = r#"<worksheet><sheetData><c r="!!"><v>5</v></c><c r="A1"><v>1</v></c></sheetData></worksheet>"#;
    let grid = decode(xml, &[], &Styles::new());
    assert_eq!(grid.size(), (1, 1));
    assert_eq!(grid.column(0, 0).unwrap().value(), Some("1"));
}

#[test]
fn worksheet_cell_style_is_resolved_into_the_cell() {
    let styles = load_styles(&events(STYLES_XML)).unwrap();
    let xml = r#"<worksheet><sheetData><c r="A1" s="0"><v>1</v></c></sheetData></worksheet>"#;
    let grid = decode(xml, &[], &styles);
    let font = grid.column(0, 0).unwrap().font();
    assert_eq!(font.name(), "Arial");
    assert_eq!(font.size_text(), "17");
    assert_eq!(font.argb(), "FF11806A");
}

#[test]
fn decoding_stops_at_the_end_of_the_sheet_body() {
    let xml = r#"<worksheet><sheetData><c r="A1"><v>1</v></c></sheetData>
<extra><c r="C9"><v>9</v></c></extra></worksheet>"#;
    let grid = decode(xml, &[], &Styles::new());
    assert_eq!(grid.size(), (1, 1));
}
