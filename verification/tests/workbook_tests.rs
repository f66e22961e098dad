use std::io::Write;

use xlsxgrid::cell::{Cell, Font, Type};
use xlsxgrid::error::Error;
use xlsxgrid::workbook::Xlsx;

fn build_package(parts: &[(&str, &str)]) -> Vec<u8> {
    let cursor = std::io::Cursor::new(Vec::new());
    let mut writer = zip::ZipWriter::new(cursor);
    let options = zip::write::SimpleFileOptions::default();
    for (name, content) in parts {
        writer.start_file(*name, options).unwrap();
        writer.write_all(content.as_bytes()).unwrap();
    }
    writer.finish().unwrap().into_inner()
}

const WORKBOOK_XML: &str = r#"<?xml version="1.0" encoding="UTF-8" standalone="yes"?>
<workbook><sheets>
<sheet name="Sheet1" sheetId="1" state="visible"/>
</sheets></workbook>"#;

const SHARED_XML: &str = r#"<sst count="1" uniqueCount="1"><si><t>hello</t></si></sst>"#;

const STYLES_XML: &str = r#"<styleSheet>
<fonts count="1"><font><sz val="11"/><name val="Calibri"/></font></fonts>
<cellXfs count="1"><xf numFmtId="0" fontId="0" fillId="0" borderId="0" xfId="0"/></cellXfs>
</styleSheet>"#;

const SHEET1_XML: &str = r#"<worksheet><sheetData>
<c r="B2" s="0" t="s"><v>0</v></c>
</sheetData></worksheet>"#;

fn minimal_package() -> Vec<u8> {
    build_package(&[
        ("xl/workbook.xml", WORKBOOK_XML),
        ("xl/styles.xml", STYLES_XML),
        ("xl/sharedStrings.xml", SHARED_XML),
        ("xl/worksheets/sheet1.xml", SHEET1_XML),
    ])
}

#[test]
fn end_to_end_minimal_package_decodes_one_cell() {
    let mut workbook = Xlsx::open(minimal_package()).unwrap();
    let names = workbook.sheet_names();
    assert_eq!(names.len(), 1);
    assert_eq!(names[0], "Sheet1");

    let sheet = workbook.worksheet("Sheet1").unwrap().unwrap();
    assert_eq!(sheet.name(), "Sheet1");
    assert_eq!(sheet.size(), (2, 2));

    let cell = sheet.column(1, 1).unwrap();
    assert_eq!(cell.value(), Some("hello"));
    assert_eq!(cell.cell_type(), Some(Type::String));
    // The cell carried style index 0, which resolves through the format
    // record to the declared font.
    assert_eq!(cell.font().name(), "Calibri");
    assert_eq!(cell.font().size_text(), "11");
    assert_eq!(cell.font().argb(), "FF000000");

    // All other cells of the 2x2 logical range are present but empty.
    for (c, r) in [(0u32, 0u32), (1, 0), (0, 1)] {
        let empty = sheet.column(c, r).unwrap();
        assert_eq!(empty.value(), None);
        assert_eq!(empty.cell_type(), None);
    }
    assert_eq!(sheet.cells().len(), 4);
}

#[test]
fn repeated_lookup_returns_the_decoded_sheet_again() {
    let mut workbook = Xlsx::open(minimal_package()).unwrap();
    {
        let sheet = workbook.worksheet("Sheet1").unwrap().unwrap();
        assert_eq!(sheet.size(), (2, 2));
    }
    let again = workbook.worksheet("Sheet1").unwrap().unwrap();
    assert!(again.is_decoded());
    assert_eq!(again.size(), (2, 2));
    assert_eq!(again.column(1, 1).unwrap().value(), Some("hello"));
}

#[test]
fn unknown_sheet_name_is_reported_absent() {
    let mut workbook = Xlsx::open(minimal_package()).unwrap();
    assert!(workbook.worksheet("Other").unwrap().is_none());
    // Name matching is exact, case included.
    assert!(workbook.worksheet("sheet1").unwrap().is_none());
}

#[test]
fn sheet_part_absent_from_package_is_reported_absent() {
    let bytes = build_package(&[("xl/workbook.xml", WORKBOOK_XML)]);
    let mut workbook = Xlsx::open(bytes).unwrap();
    assert!(workbook.worksheet("Sheet1").unwrap().is_none());
}

#[test]
fn missing_optional_parts_degrade_to_empty_tables() {
    let bytes = build_package(&[
        ("xl/workbook.xml", WORKBOOK_XML),
        ("xl/worksheets/sheet1.xml", SHEET1_XML),
    ]);
    let mut workbook = Xlsx::open(bytes).unwrap();
    let sheet = workbook.worksheet("Sheet1").unwrap().unwrap();
    // Without a shared-string table the index is unresolvable: the cell
    // reports no value rather than failing the decode.
    let cell = sheet.column(1, 1).unwrap();
    assert_eq!(cell.value(), None);
    assert_eq!(cell.cell_type(), Some(Type::String));
    // Without styles, the cell resolves to the default font.
    assert_eq!(cell.font().name(), "Arial");
    assert_eq!(cell.font().size_text(), "12");
}

fn open_error(bytes: Vec<u8>) -> Error {
    match Xlsx::open(bytes) {
        Err(e) => e,
        Ok(_) => panic!("expected opening to fail"),
    }
}

#[test]
fn not_a_zip_container_is_a_container_error() {
    assert_eq!(open_error(b"this is not a zip".to_vec()), Error::Container);
}

#[test]
fn missing_workbook_manifest_is_a_missing_part() {
    let bytes = build_package(&[("xl/worksheets/sheet1.xml", SHEET1_XML)]);
    assert_eq!(open_error(bytes), Error::MissingPart);
}

#[test]
fn malformed_manifest_xml_is_reported() {
    let bytes = build_package(&[("xl/workbook.xml", "<workbook><sheets incomplete")]);
    assert_eq!(open_error(bytes), Error::MalformedXml);
}

#[test]
fn error_messages_name_the_failure() {
    assert_eq!(Error::Container.message(), "not a valid spreadsheet container");
    assert_eq!(Error::MissingPart.message(), "a required part is missing");
    assert_eq!(Error::MalformedXml.message(), "malformed xml in a part");
    assert_eq!(Error::CountMismatch.message(), "a declared record count does not match");
}

#[test]
fn worksheet_rows_cursor_covers_the_sheet() {
    let mut workbook = Xlsx::open(minimal_package()).unwrap();
    let sheet = workbook.worksheet("Sheet1").unwrap().unwrap();
    let mut rows = sheet.rows();
    let mut seen = 0;
    while let Some(row) = rows.next() {
        assert_eq!(row.cells().len(), 2);
        seen += 1;
    }
    assert_eq!(seen, 2);
}

#[test]
fn worksheet_bulk_insertions_behave_like_single_ones() {
    let mut sheet = xlsxgrid::workbook::Worksheet::new_entry(1, "Fresh".to_owned());
    assert_eq!(sheet.name(), "Fresh");
    assert!(!sheet.is_decoded());
    let cells = vec![
        Cell::from_parts(0, 0, Some("1".to_owned()), Some(Type::Number), Font::fallback()),
        Cell::from_parts(2, 1, Some("2".to_owned()), Some(Type::Number), Font::fallback()),
    ];
    sheet.insert_cells(cells);
    assert_eq!(sheet.size(), (3, 2));
    assert_eq!(sheet.column(2, 1).unwrap().value(), Some("2"));
    let more = vec![
        Cell::from_parts(1, 0, Some("3".to_owned()), Some(Type::Number), Font::fallback()),
    ];
    sheet.insert_cells_exact(more);
    assert_eq!(sheet.size(), (3, 2));
    assert_eq!(sheet.column(1, 0).unwrap().value(), Some("3"));
}
