use xlsxgrid::{coordinates_to_reference, reference_to_coordinates};

#[test]
fn should_convert_excel_letter_number_format_to_tuple() {
    let result = reference_to_coordinates(b"A1");
    assert_eq!(Some((0, 0)), result);

    let result = reference_to_coordinates(b"A2");
    assert_eq!(Some((0, 1)), result);

    let result = reference_to_coordinates(b"B1");
    assert_eq!(Some((1, 0)), result);
}

#[test]
fn reference_examples_decode() {
    assert_eq!(reference_to_coordinates(b"A1"), Some((0, 0)));
    assert_eq!(reference_to_coordinates(b"B1"), Some((1, 0)));
    assert_eq!(reference_to_coordinates(b"A2"), Some((0, 1)));
    assert_eq!(reference_to_coordinates(b"Z1"), Some((25, 0)));
    assert_eq!(reference_to_coordinates(b"AA1"), Some((26, 0)));
    assert_eq!(reference_to_coordinates(b"XFD1"), Some((16383, 0)));
    assert_eq!(reference_to_coordinates(b"D20"), Some((3, 19)));
}

#[test]
fn reference_rejects_malformed_input() {
    assert_eq!(reference_to_coordinates(b""), None);
    assert_eq!(reference_to_coordinates(b"A"), None);
    assert_eq!(reference_to_coordinates(b"1"), None);
    assert_eq!(reference_to_coordinates(b"1A"), None);
    assert_eq!(reference_to_coordinates(b"A0"), None);
    assert_eq!(reference_to_coordinates(b"a1"), None);
    assert_eq!(reference_to_coordinates(b"A1B"), None);
    assert_eq!(reference_to_coordinates(b"A 1"), None);
    // 1-based row value does not fit a u32.
    assert_eq!(reference_to_coordinates(b"A4294967296"), None);
    // 1-based column value does not fit a u32.
    assert_eq!(reference_to_coordinates(b"AAAAAAAA1"), None);
}

#[test]
fn coordinates_encode_examples() {
    assert_eq!(coordinates_to_reference(0, 0), b"A1".to_vec());
    assert_eq!(coordinates_to_reference(1, 0), b"B1".to_vec());
    assert_eq!(coordinates_to_reference(0, 1), b"A2".to_vec());
    assert_eq!(coordinates_to_reference(25, 0), b"Z1".to_vec());
    assert_eq!(coordinates_to_reference(26, 0), b"AA1".to_vec());
    assert_eq!(coordinates_to_reference(16383, 0), b"XFD1".to_vec());
    assert_eq!(coordinates_to_reference(3, 19), b"D20".to_vec());
}

#[test]
fn reference_round_trips_over_all_column_letter_lengths() {
    // Every column of letter length 1 to 3 (A..=XFD and beyond to ZZZ),
    // with a few rows each.
    let rows: [u32; 4] = [0, 1, 41, 1048575];
    let mut column: u32 = 0;
    while column < 26 + 26 * 26 + 26 * 26 * 26 {
        for &row in rows.iter() {
            let text = coordinates_to_reference(column, row);
            assert_eq!(reference_to_coordinates(&text), Some((column, row)));
        }
        column += 7;
    }
}
