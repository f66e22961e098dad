use xlsxgrid::cell::{Cell, Font, Type};
use xlsxgrid::grid::Spreadsheet;

fn numbered_cell(column: u32, row: u32, text: &str) -> Cell {
    Cell::from_parts(column, row, Some(text.to_owned()), Some(Type::Number), Font::fallback())
}

#[test]
fn size_after_single_insert_is_exactly_one_past_the_cell() {
    let mut grid = Spreadsheet::new();
    assert_eq!(grid.size(), (0, 0));
    let mut ok = grid.try_insert(numbered_cell(2, 3, "7"));
    assert!(ok);
    assert_eq!(grid.size(), (3, 4));

    let mut grid = Spreadsheet::new();
    ok = grid.try_insert(numbered_cell(0, 0, "7"));
    assert!(ok);
    assert_eq!(grid.size(), (1, 1));
}

#[test]
fn empty_grid_reports_row_zero_as_absent() {
    let grid = Spreadsheet::new();
    assert!(grid.row(0).is_none());
    assert!(grid.column(0, 0).is_none());
    assert_eq!(grid.size(), (0, 0));
}

#[test]
fn insertion_order_does_not_change_what_is_read_back() {
    let points: [(u32, u32); 5] = [(0, 0), (3, 1), (1, 4), (2, 2), (0, 3)];

    // Row-major order.
    let mut sorted = points;
    sorted.sort_by(|a, b| (a.1, a.0).cmp(&(b.1, b.0)));
    let mut row_major = Spreadsheet::new();
    for &(c, r) in sorted.iter() {
        assert!(row_major.try_insert(numbered_cell(c, r, &format!("{}-{}", c, r))));
    }

    // A scrambled order.
    let mut scrambled = Spreadsheet::new();
    for &(c, r) in points.iter().rev() {
        assert!(scrambled.try_insert(numbered_cell(c, r, &format!("{}-{}", c, r))));
    }

    assert_eq!(row_major.size(), scrambled.size());
    let (cols, rows) = row_major.size();
    for r in 0..rows {
        for c in 0..cols {
            let a = row_major.column(c, r).unwrap();
            let b = scrambled.column(c, r).unwrap();
            assert_eq!(a.value(), b.value());
            assert_eq!(a.column(), b.column());
            assert_eq!(a.row(), b.row());
        }
    }
    for r in 0..rows {
        let ra = row_major.row(r).unwrap();
        let rb = scrambled.row(r).unwrap();
        assert_eq!(ra.len(), rb.len());
        for c in 0..ra.len() {
            assert_eq!(ra[c].value(), rb[c].value());
        }
    }
}

#[test]
fn row_growth_keeps_earlier_cells() {
    // Top-to-bottom scan in one column: the speculative row growth path.
    let mut grid = Spreadsheet::new();
    for r in 0..10u32 {
        assert!(grid.try_insert(numbered_cell(0, r, &format!("{}", r))));
    }
    assert_eq!(grid.size(), (1, 10));
    for r in 0..10u32 {
        assert_eq!(grid.column(0, r).unwrap().value(), Some(format!("{}", r).as_str()));
    }
}

#[test]
fn column_growth_reallocates_and_keeps_cells() {
    let mut grid = Spreadsheet::new();
    assert!(grid.try_insert(numbered_cell(0, 2, "a")));
    assert!(grid.try_insert(numbered_cell(5, 0, "b")));
    assert!(grid.try_insert(numbered_cell(2, 1, "c")));
    assert_eq!(grid.size(), (6, 3));
    assert_eq!(grid.column(0, 2).unwrap().value(), Some("a"));
    assert_eq!(grid.column(5, 0).unwrap().value(), Some("b"));
    assert_eq!(grid.column(2, 1).unwrap().value(), Some("c"));
    // Never-written positions inside the logical rectangle are present
    // but empty.
    let placeholder = grid.column(4, 2).unwrap();
    assert_eq!(placeholder.value(), None);
    assert_eq!(placeholder.cell_type(), None);
    assert_eq!(placeholder.column(), 4);
    assert_eq!(placeholder.row(), 2);
}

#[test]
fn buffer_always_covers_the_logical_size() {
    let mut grid = Spreadsheet::new();
    for r in 0..5u32 {
        for c in 0..3u32 {
            assert!(grid.try_insert(numbered_cell(c, r, "x")));
        }
    }
    let (cols, rows) = grid.size();
    let (bcols, brows) = grid.buffer_size();
    assert!(cols <= bcols);
    assert!(rows <= brows);
}

#[test]
fn with_size_pre_stamps_every_position() {
    let grid = Spreadsheet::with_size(2, 3);
    assert_eq!(grid.size(), (2, 3));
    for r in 0..3u32 {
        for c in 0..2u32 {
            let cell = grid.column(c, r).unwrap();
            assert_eq!(cell.value(), None);
            assert_eq!(cell.column(), c);
            assert_eq!(cell.row(), r);
        }
    }
    assert!(grid.column(2, 0).is_none());
    assert!(grid.column(0, 3).is_none());
}

#[test]
fn resize_discards_and_restamps() {
    let mut grid = Spreadsheet::new();
    assert!(grid.try_insert(numbered_cell(0, 0, "old")));
    grid.resize((0, 0), (3, 19));
    assert_eq!(grid.size(), (4, 20));
    assert_eq!(grid.column(0, 0).unwrap().value(), None);
    grid.insert_exact(numbered_cell(3, 19, "new"));
    assert_eq!(grid.column(3, 19).unwrap().value(), Some("new"));
    assert_eq!(grid.size(), (4, 20));
}

#[test]
fn rows_cursor_walks_each_logical_row_once() {
    let mut grid = Spreadsheet::new();
    assert!(grid.try_insert(numbered_cell(1, 1, "x")));
    let mut rows = xlsxgrid::grid::Rows::over(&grid);
    let first = rows.next().unwrap();
    assert_eq!(first.cells().len(), 2);
    assert_eq!(first.column(0).unwrap().value(), None);
    assert!(first.column(2).is_none());
    let second = rows.next().unwrap();
    assert_eq!(second.column(1).unwrap().value(), Some("x"));
    assert!(rows.next().is_none());
}

#[test]
fn column_cursor_walks_down_and_stops() {
    let mut grid = Spreadsheet::new();
    assert!(grid.try_insert(numbered_cell(0, 0, "a")));
    assert!(grid.try_insert(numbered_cell(0, 2, "b")));
    let mut walker = xlsxgrid::grid::Column::over(&grid, 0, 0);
    assert_eq!(walker.next().unwrap().value(), Some("a"));
    assert_eq!(walker.next().unwrap().value(), None);
    assert_eq!(walker.next().unwrap().value(), Some("b"));
    assert!(walker.next().is_none());
}

#[test]
fn cells_lists_the_logical_rectangle_in_row_major_order() {
    let mut grid = Spreadsheet::new();
    assert!(grid.try_insert(numbered_cell(1, 0, "b")));
    assert!(grid.try_insert(numbered_cell(0, 1, "c")));
    let all = grid.cells();
    assert_eq!(all.len(), 4);
    assert_eq!(all[0].value(), None);
    assert_eq!(all[1].value(), Some("b"));
    assert_eq!(all[2].value(), Some("c"));
    assert_eq!(all[3].value(), None);
}

#[test]
fn insert_value_sets_text_and_type() {
    let mut cell = Cell::new(0, 0);
    assert_eq!(cell.value(), None);
    cell.insert_value(42u32);
    assert_eq!(cell.value(), Some("42"));
    assert_eq!(cell.cell_type(), Some(Type::Number));
    cell.insert_value(-7i32);
    assert_eq!(cell.value(), Some("-7"));
    assert_eq!(cell.cell_type(), Some(Type::Number));
    cell.insert_value("hello");
    assert_eq!(cell.value(), Some("hello"));
    assert_eq!(cell.cell_type(), Some(Type::String));
    cell.insert_value(0u64);
    assert_eq!(cell.value(), Some("0"));
}

#[test]
fn font_color_accessors_trim_the_alpha_channel() {
    let font = Font::from_parts("Arial".to_owned(), "12".to_owned(), "FF11806A".to_owned());
    assert_eq!(font.argb(), "FF11806A");
    assert_eq!(font.rgb(), "11806A");
    assert_eq!(font.name(), "Arial");
    assert_eq!(font.size_text(), "12");
    let short = Font::from_parts(String::new(), String::new(), "A".to_owned());
    assert_eq!(short.rgb(), "A");
}

#[test]
fn buffer_extents_always_multiply_to_the_buffer_length() {
    let mut grid = Spreadsheet::new();
    let points: [(u32, u32); 6] = [(0, 0), (0, 5), (4, 1), (2, 9), (7, 0), (3, 20)];
    for &(c, r) in points.iter() {
        assert!(grid.try_insert(numbered_cell(c, r, "x")));
        let (bcols, brows) = grid.buffer_size();
        assert_eq!(grid.buffer_len(), (bcols as usize) * (brows as usize));
    }
}
