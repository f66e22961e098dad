//! The worksheet decoder.
//!
//! A single forward walk over one worksheet part's events: an early
//! `<dimension>` element sizes the grid exactly and later cells are
//! written straight into it; without one the grid grows on demand.  Each
//! `<c>` element's attributes give the cell's position, its style index
//! (resolved to a font at once) and its type — an absent type attribute
//! means a numeric cell.  A `<v>` sub-element's text is interpreted by
//! that type; a shared-string cell stores the table entry its index names.
//!
//! Per-cell anomalies degrade instead of aborting: an unparsable
//! reference skips that cell, an unparsable style index falls back to the
//! default font, an unrecognized type code leaves the cell untyped and
//! ignores its value, and an out-of-range shared-string index leaves the
//! cell without a value.

use vstd::prelude::*;

use crate::cell::{Cell, CellV, Font, FontV, Type};
use crate::codec::parsed_reference;
use crate::grid::{spec_can_insert, spec_insert, stamped_grid, GridV, Spreadsheet};
use crate::styles::{resolve_spec, Styles, StylesV};
use crate::text::{is_tag, parsed_u32, parsed_u32_chars};
use crate::xml::{attr_named, AttrV, EventV, XmlAttr, XmlEvent};

verus! {

/// Writing one cell into a grid whose buffer already fits it: the cell
/// replaces whatever its position held, everything else stays.
pub open spec fn grid_write(g: GridV, c: CellV) -> GridV {
    GridV { at: g.at.insert((c.column, c.row), c), ..g }
}

/// How a decoded cell reaches the grid: straight into a pre-sized grid
/// when the declared dimensions cover it, through the growth-aware
/// insertion otherwise; a cell beyond machine limits is dropped.
pub open spec fn sheet_insert(g: GridV, dims_known: bool, c: CellV) -> GridV {
    if dims_known && c.column < g.cols && c.row < g.rows {
        grid_write(g, c)
    } else if spec_can_insert(g, c) {
        spec_insert(g, c)
    } else {
        g
    }
}

/// Index of the first `:` byte, or `-1`.
pub open spec fn first_colon(s: Seq<u8>) -> int
    decreases s.len(),
{
    if s.len() == 0 {
        -1
    } else if s[0] == 58 {
        0
    } else {
        let rest = first_colon(s.drop_first());
        if rest < 0 {
            -1
        } else {
            1 + rest
        }
    }
}

/// The bottom-right corner of a declared `ref="A1:D20"` range, when both
/// endpoints are well-formed references.
pub open spec fn dim_target(attrs: Seq<AttrV>) -> Option<(u32, u32)> {
    match attr_named(attrs, "ref"@) {
        Some(v) => {
            let i = first_colon(v);
            if i < 0 {
                None
            } else {
                match (parsed_reference(v.take(i)), parsed_reference(v.skip(i + 1))) {
                    (Some(tl), Some(br)) => Some(br),
                    _ => None,
                }
            }
        },
        None => None,
    }
}

/// Whether a declared extent is within machine limits for an exact
/// allocation.
pub open spec fn dim_fits(br: (u32, u32)) -> bool {
    &&& br.0 < u32::MAX
    &&& br.1 < u32::MAX
    &&& (br.0 + 1) * (br.1 + 1) <= usize::MAX
}

/// What a `<c>` element's attributes open: position (an absent reference
/// means the origin, an unparsable one skips the cell), decoded type (an
/// absent attribute means `Number`, an unknown code leaves the cell
/// untyped), and the font its style index resolves to (absent or
/// unparsable indices fall back to the default font).
pub open spec fn cell_open(attrs: Seq<AttrV>, styles: StylesV) -> Option<
    (u32, u32, Option<Type>, FontV),
> {
    let pos = match attr_named(attrs, "r"@) {
        Some(v) => parsed_reference(v),
        None => Some((0u32, 0u32)),
    };
    match pos {
        Some(p) => {
            let font = match attr_named(attrs, "s"@) {
                Some(v) => match parsed_u32(v) {
                    Some(x) => resolve_spec(styles, x as int),
                    None => crate::cell::spec_default_font(),
                },
                None => crate::cell::spec_default_font(),
            };
            let t = match attr_named(attrs, "t"@) {
                Some(v) => if is_tag(v, "s"@) || is_tag(v, "is"@) {
                    Some(Type::String)
                } else if is_tag(v, "f"@) {
                    Some(Type::Formula)
                } else if is_tag(v, "n"@) {
                    Some(Type::Number)
                } else {
                    None
                },
                None => Some(Type::Number),
            };
            Some((p.0, p.1, t, font))
        },
        None => None,
    }
}

/// What a captured value means under a cell's type: numeric text is kept
/// verbatim, a shared-string index is substituted from the table (out of
/// range: no value), a formula value is not computed, and an untyped cell
/// keeps no value.  An absent value element always means no value.
pub open spec fn interpret_value(
    value: Option<Seq<char>>,
    t: Option<Type>,
    strings: Seq<Seq<char>>,
) -> Option<Seq<char>> {
    match value {
        None => None,
        Some(text) => match t {
            Some(Type::Number) => Some(text),
            Some(Type::String) => match parsed_u32_chars(text) {
                Some(i) => if i < strings.len() {
                    Some(strings[i as int])
                } else {
                    None
                },
                None => None,
            },
            Some(Type::Formula) => None,
            None => None,
        },
    }
}

/// A cell whose value element is absent has no value at all — in
/// particular a shared-string-typed cell yields "no value", not an empty
/// string.
pub proof fn lemma_absent_value(t: Option<Type>, strings: Seq<Seq<char>>)
    ensures
        interpret_value(None, t, strings) is None,
{
}

/// Where the worksheet walk currently stands.
pub enum CellMode {
    Outside,
    InCell {
        column: u32,
        row: u32,
        cell_type: Option<Type>,
        font: FontV,
        in_v: bool,
        value: Option<Seq<char>>,
    },
}

/// The interpreter state of the worksheet walk.
pub struct SheetState {
    pub grid: GridV,
    pub dims_known: bool,
    pub mode: CellMode,
    pub done: bool,
}

pub open spec fn sheet_init(g: GridV) -> SheetState {
    SheetState { grid: g, dims_known: false, mode: CellMode::Outside, done: false }
}

/// The finished cell a closing `<c>` commits.
pub open spec fn finished_cell(
    column: u32,
    row: u32,
    cell_type: Option<Type>,
    font: FontV,
    value: Option<Seq<char>>,
    strings: Seq<Seq<char>>,
) -> CellV {
    CellV {
        value: interpret_value(value, cell_type, strings),
        cell_type,
        column: column as int,
        row: row as int,
        font,
    }
}

/// What one event does to the worksheet state.
pub open spec fn sheet_step(
    st: SheetState,
    ev: EventV,
    strings: Seq<Seq<char>>,
    styles: StylesV,
) -> SheetState {
    if st.done {
        st
    } else {
        match st.mode {
            CellMode::Outside => match ev {
                EventV::SelfClosed { name, attrs } => {
                    if is_tag(name, "dimension"@) {
                        match dim_target(attrs) {
                            Some(br) => if dim_fits(br) {
                                SheetState {
                                    grid: stamped_grid(br.0 + 1, br.1 + 1),
                                    dims_known: true,
                                    ..st
                                }
                            } else {
                                st
                            },
                            None => st,
                        }
                    } else if is_tag(name, "c"@) {
                        match cell_open(attrs, styles) {
                            Some((column, row, t, font)) => SheetState {
                                grid: sheet_insert(
                                    st.grid,
                                    st.dims_known,
                                    finished_cell(column, row, t, font, None, strings),
                                ),
                                ..st
                            },
                            None => st,
                        }
                    } else {
                        st
                    }
                },
                EventV::Open { name, attrs } => {
                    if is_tag(name, "c"@) {
                        match cell_open(attrs, styles) {
                            Some((column, row, t, font)) => SheetState {
                                mode: CellMode::InCell {
                                    column,
                                    row,
                                    cell_type: t,
                                    font,
                                    in_v: false,
                                    value: None,
                                },
                                ..st
                            },
                            None => st,
                        }
                    } else {
                        st
                    }
                },
                EventV::Close { name } => {
                    if is_tag(name, "sheetData"@) {
                        SheetState { done: true, ..st }
                    } else {
                        st
                    }
                },
                _ => st,
            },
            CellMode::InCell { column, row, cell_type, font, in_v, value } => match ev {
                EventV::Open { name, attrs } => {
                    if is_tag(name, "v"@) {
                        SheetState {
                            mode: CellMode::InCell {
                                column,
                                row,
                                cell_type,
                                font,
                                in_v: true,
                                value: Some(
                                    match value {
                                        Some(x) => x,
                                        None => Seq::empty(),
                                    },
                                ),
                            },
                            ..st
                        }
                    } else {
                        st
                    }
                },
                EventV::SelfClosed { name, attrs } => {
                    if is_tag(name, "v"@) {
                        SheetState {
                            mode: CellMode::InCell {
                                column,
                                row,
                                cell_type,
                                font,
                                in_v,
                                value: Some(
                                    match value {
                                        Some(x) => x,
                                        None => Seq::empty(),
                                    },
                                ),
                            },
                            ..st
                        }
                    } else {
                        st
                    }
                },
                EventV::Text { text } => {
                    if in_v {
                        SheetState {
                            mode: CellMode::InCell {
                                column,
                                row,
                                cell_type,
                                font,
                                in_v,
                                value: Some(
                                    match value {
                                        Some(x) => x + text,
                                        None => text,
                                    },
                                ),
                            },
                            ..st
                        }
                    } else {
                        st
                    }
                },
                EventV::Close { name } => {
                    if is_tag(name, "v"@) {
                        SheetState {
                            mode: CellMode::InCell {
                                column,
                                row,
                                cell_type,
                                font,
                                in_v: false,
                                value,
                            },
                            ..st
                        }
                    } else if is_tag(name, "c"@) {
                        SheetState {
                            grid: sheet_insert(
                                st.grid,
                                st.dims_known,
                                finished_cell(column, row, cell_type, font, value, strings),
                            ),
                            mode: CellMode::Outside,
                            ..st
                        }
                    } else {
                        st
                    }
                },
                _ => st,
            },
        }
    }
}

/// The state after interpreting the first `i` events.
pub open spec fn sheet_run(
    events: Seq<EventV>,
    strings: Seq<Seq<char>>,
    styles: StylesV,
    g0: GridV,
    i: int,
) -> SheetState
    decreases i,
{
    if i <= 0 {
        sheet_init(g0)
    } else {
        sheet_step(sheet_run(events, strings, styles, g0, i - 1), events[i - 1], strings, styles)
    }
}

/// Finds the first `:` byte.
fn colon_index(v: &[u8]) -> (result: Option<usize>)
    ensures
        match result {
            Some(i) => first_colon(v@) == i as int && i < v@.len(),
            None => first_colon(v@) == -1,
        },
{
    let n = v.len();
    let mut i: usize = 0;
    while i < n && v[i] != 58
        invariant
            n == v@.len(),
            0 <= i <= n,
            forall|j: int| 0 <= j < i ==> v@[j] != 58,
        decreases n - i,
    {
        i = i + 1;
    }
    proof {
        lemma_first_colon(v@, i as int);
    }
    if i < n {
        Some(i)
    } else {
        None
    }
}

/// `first_colon` is exactly the first index holding a `:`.
proof fn lemma_first_colon(s: Seq<u8>, i: int)
    requires
        0 <= i <= s.len(),
        forall|j: int| 0 <= j < i ==> s[j] != 58,
        i < s.len() ==> s[i] == 58,
    ensures
        first_colon(s) == if i < s.len() {
            i
        } else {
            -1
        },
    decreases s.len(),
{
    if i == 0 {
        if s.len() > 0 && s[0] != 58 {
            lemma_first_colon(s.drop_first(), 0);
        }
    } else {
        assert(s[0] != 58);
        lemma_first_colon(s.drop_first(), i - 1);
    }
}

/// Reads the bottom-right corner of a declared dimension range.
fn dimension_target(attrs: &Vec<XmlAttr>) -> (result: Option<(u32, u32)>)
    ensures
        result == dim_target(attrs.deep_view()),
{
    match crate::xml::find_attr(attrs, "ref") {
        Some(v) => {
            match colon_index(v.as_slice()) {
                Some(i) => {
                    let n = v.len();
                    let head = vstd::slice::slice_subrange(v.as_slice(), 0, i);
                    let tail = vstd::slice::slice_subrange(v.as_slice(), i + 1, n);
                    proof {
                        assert(head@ =~= v@.take(i as int));
                        assert(tail@ =~= v@.skip(i + 1));
                    }
                    let first = crate::codec::reference_to_coordinates(head);
                    let second = crate::codec::reference_to_coordinates(tail);
                    match (first, second) {
                        (Some(_), Some(br)) => Some(br),
                        _ => None,
                    }
                },
                None => None,
            }
        },
        None => None,
    }
}

/// Opens a `<c>` element: position, type and resolved font from its
/// attributes, as [`cell_open`] says.
fn open_cell(attrs: &Vec<XmlAttr>, styles: &Styles) -> (result: Option<(u32, u32, Option<Type>, Font)>)
    ensures
        match result {
            Some(p) => cell_open(attrs.deep_view(), styles@) == Some((p.0, p.1, p.2, p.3@)),
            None => cell_open(attrs.deep_view(), styles@) is None,
        },
{
    let pos: (u32, u32) = match crate::xml::find_attr(attrs, "r") {
        Some(v) => match crate::codec::reference_to_coordinates(v.as_slice()) {
            Some(p) => p,
            None => {
                return None;
            },
        },
        None => (0, 0),
    };
    let font: Font = match crate::xml::find_attr(attrs, "s") {
        Some(v) => match crate::text::parse_u32_bytes(v.as_slice()) {
            Some(x) => styles.font(x as usize),
            None => Font::fallback(),
        },
        None => Font::fallback(),
    };
    let t: Option<Type> = match crate::xml::find_attr(attrs, "t") {
        Some(v) => {
            if crate::text::tag_matches(v.as_slice(), "s") || crate::text::tag_matches(
                v.as_slice(),
                "is",
            ) {
                Some(Type::String)
            } else if crate::text::tag_matches(v.as_slice(), "f") {
                Some(Type::Formula)
            } else if crate::text::tag_matches(v.as_slice(), "n") {
                Some(Type::Number)
            } else {
                None
            }
        },
        None => Some(Type::Number),
    };
    Some((pos.0, pos.1, t, font))
}

/// Interprets a captured value under the cell's type, as
/// [`interpret_value`] says.
fn value_of(value: Option<String>, t: Option<Type>, shared: &Vec<String>) -> (result: Option<
    String,
>)
    ensures
        match result {
            Some(s) => interpret_value(
                match value {
                    Some(v) => Some(v@),
                    None => None,
                },
                t,
                shared.deep_view(),
            ) == Some(s@),
            None => interpret_value(
                match value {
                    Some(v) => Some(v@),
                    None => None,
                },
                t,
                shared.deep_view(),
            ) is None,
        },
{
    match (value, t) {
        (Some(text), Some(Type::Number)) => Some(text),
        (Some(text), Some(Type::String)) => match crate::text::parse_u32_chars(text.as_str()) {
            Some(i) => {
                if (i as usize) < shared.len() {
                    proof {
                        assert(shared.deep_view()[i as int] == shared@[i as int]@);
                    }
                    Some(shared[i as usize].clone())
                } else {
                    None
                }
            },
            None => None,
        },
        (Some(_), Some(Type::Formula)) => None,
        (Some(_), None) => None,
        (None, _) => None,
    }
}

/// Inserts one decoded cell as [`sheet_insert`] says.
fn put_cell(grid: &mut Spreadsheet, dims_known: bool, cell: Cell)
    requires
        old(grid).wf(),
    ensures
        final(grid).wf(),
        final(grid)@ == sheet_insert(old(grid)@, dims_known, cell@),
{
    let (cols, rows) = grid.size();
    let column = cell.column();
    let row = cell.row();
    if dims_known && column < cols && row < rows {
        let ghost g0 = grid@;
        let ghost cv = cell@;
        grid.insert_exact(cell);
        proof {
            assert(grid@ =~= grid_write(g0, cv));
        }
    } else {
        let _ = grid.try_insert(cell);
    }
}

/// Streams one worksheet part's events into the grid, exactly as
/// [`sheet_run`] interprets them with the given shared strings and style
/// tables.
pub fn decode_worksheet(
    events: &Vec<XmlEvent>,
    shared: &Vec<String>,
    styles: &Styles,
    grid: &mut Spreadsheet,
)
    requires
        old(grid).wf(),
    ensures
        final(grid).wf(),
        final(grid)@ == sheet_run(
            events.deep_view(),
            shared.deep_view(),
            styles@,
            old(grid)@,
            events@.len() as int,
        ).grid,
{
    let ghost evs = events.deep_view();
    let ghost strs = shared.deep_view();
    let ghost stv = styles@;
    let ghost g0 = old(grid)@;
    let mut dims_known: bool = false;
    let mut done: bool = false;
    let mut in_cell: bool = false;
    let mut cur_column: u32 = 0;
    let mut cur_row: u32 = 0;
    let mut cur_type: Option<Type> = None;
    let mut cur_font: Font = Font::fallback();
    let mut in_v: bool = false;
    let mut cur_value: Option<String> = None;
    let n = events.len();
    let mut i: usize = 0;
    while i < n
        invariant
            n == events@.len(),
            evs == events.deep_view(),
            strs == shared.deep_view(),
            stv == styles@,
            0 <= i <= n,
            grid.wf(),
            ({
                let st = sheet_run(evs, strs, stv, g0, i as int);
                &&& st.grid == grid@
                &&& st.dims_known == dims_known
                &&& st.done == done
                &&& match st.mode {
                    CellMode::Outside => !in_cell,
                    CellMode::InCell { column, row, cell_type, font, in_v: sv, value } => {
                        &&& in_cell
                        &&& column == cur_column
                        &&& row == cur_row
                        &&& cell_type == cur_type
                        &&& font == cur_font@
                        &&& sv == in_v
                        &&& value == match cur_value {
                            Some(s) => Some(s@),
                            None => None,
                        }
                    },
                }
            }),
        decreases n - i,
    {
        proof {
            assert(evs[i as int] == events@[i as int].deep_view());
        }
        let ghost pre = sheet_run(evs, strs, stv, g0, i as int);
        if done {
        } else if !in_cell {
            match &events[i] {
                XmlEvent::SelfClosed { name, attrs } => {
                    if crate::text::tag_matches(name.as_slice(), "dimension") {
                        match dimension_target(attrs) {
                            Some(br) => {
                                if br.0 < u32::MAX && br.1 < u32::MAX {
                                    let c1: u64 = br.0 as u64 + 1;
                                    let r1: u64 = br.1 as u64 + 1;
                                    proof {
                                        assert((c1 as int) * (r1 as int) < 18446744073709551616)
                                            by (nonlinear_arith)
                                            requires
                                                0 <= c1 as int <= 4294967295,
                                                0 <= r1 as int <= 4294967295,
                                        ;
                                    }
                                    if c1 * r1 <= usize::MAX as u64 {
                                        proof {
                                            assert(dim_fits(br));
                                        }
                                        grid.resize((0, 0), br);
                                        dims_known = true;
                                    } else {
                                        proof {
                                            assert(!dim_fits(br));
                                        }
                                    }
                                } else {
                                    proof {
                                        assert(!dim_fits(br));
                                    }
                                }
                            },
                            None => {},
                        }
                    } else if crate::text::tag_matches(name.as_slice(), "c") {
                        match open_cell(attrs, styles) {
                            Some(opened) => {
                                let cell = Cell::from_parts(
                                    opened.0,
                                    opened.1,
                                    None,
                                    opened.2,
                                    opened.3,
                                );
                                put_cell(grid, dims_known, cell);
                            },
                            None => {},
                        }
                    }
                },
                XmlEvent::Open { name, attrs } => {
                    if crate::text::tag_matches(name.as_slice(), "c") {
                        match open_cell(attrs, styles) {
                            Some(opened) => {
                                in_cell = true;
                                cur_column = opened.0;
                                cur_row = opened.1;
                                cur_type = opened.2;
                                cur_font = opened.3;
                                in_v = false;
                                cur_value = None;
                            },
                            None => {},
                        }
                    }
                },
                XmlEvent::Close { name } => {
                    if crate::text::tag_matches(name.as_slice(), "sheetData") {
                        done = true;
                    }
                },
                _ => {},
            }
        } else {
            match &events[i] {
                XmlEvent::Open { name, .. } => {
                    if crate::text::tag_matches(name.as_slice(), "v") {
                        in_v = true;
                        cur_value = match cur_value {
                            Some(s) => Some(s),
                            None => Some(String::new()),
                        };
                    }
                },
                XmlEvent::SelfClosed { name, .. } => {
                    if crate::text::tag_matches(name.as_slice(), "v") {
                        cur_value = match cur_value {
                            Some(s) => Some(s),
                            None => Some(String::new()),
                        };
                    }
                },
                XmlEvent::Text { text } => {
                    if in_v {
                        cur_value = match cur_value {
                            Some(mut s) => {
                                s.append(text.as_str());
                                Some(s)
                            },
                            None => Some(text.clone()),
                        };
                    }
                },
                XmlEvent::Close { name } => {
                    if crate::text::tag_matches(name.as_slice(), "v") {
                        in_v = false;
                    } else if crate::text::tag_matches(name.as_slice(), "c") {
                        let value = value_of(cur_value, cur_type, shared);
                        let cell = Cell::from_parts(cur_column, cur_row, value, cur_type, cur_font);
                        put_cell(grid, dims_known, cell);
                        in_cell = false;
                        in_v = false;
                        cur_value = None;
                        cur_font = Font::fallback();
                        cur_type = None;
                    }
                },
                _ => {},
            }
        }
        i = i + 1;
        proof {
            assert(sheet_run(evs, strs, stv, g0, i as int) == sheet_step(
                pre,
                evs[i - 1],
                strs,
                stv,
            ));
        }
    }
}

} // verus!
