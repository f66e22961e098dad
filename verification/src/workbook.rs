//! The workbook: the opened package, the eagerly loaded shared-string and
//! style tables, and the worksheet descriptors enumerated from the
//! workbook manifest.  A worksheet's grid is decoded on first lookup by
//! name and kept; later lookups return it without re-reading the part.
//!
//! Worksheet names match exactly, case included.  Cells own copies of
//! their text, so a worksheet stays valid however the workbook is used
//! afterwards.

use vstd::prelude::*;

use crate::cell::Cell;
use crate::error::Error;
use crate::grid::{
    empty_grid, spec_can_insert, spec_insert, GridV, Spreadsheet,
};
use crate::package::{archive_readable, open_package, part_read, read_part, Package, PartError};
use crate::sheet::{grid_write, sheet_run};
use crate::shared_strings::{load_shared_strings, sst_run};
use crate::styles::{empty_styles, load_styles, spec_load_styles, Styles, StylesV};
use crate::text::{chars_of, dec_text, decoded_of, is_tag, parsed_u32};
use crate::xml::{attr_named, tokenize, tokens_of, AttrV, EventV, XmlEvent};

verus! {

/// Mathematical view of a [`Worksheet`].
pub struct WorksheetV {
    pub id: u32,
    pub name: Seq<char>,
    pub grid: GridV,
    pub decoded: bool,
}

/// One worksheet: its manifest identity and its cell grid, populated on
/// first lookup.
#[derive(Debug)]
pub struct Worksheet {
    id: u32,
    name: String,
    spreadsheet: Spreadsheet,
    decoded: bool,
}

impl View for Worksheet {
    type V = WorksheetV;

    closed spec fn view(&self) -> WorksheetV {
        WorksheetV {
            id: self.id,
            name: self.name@,
            grid: self.spreadsheet@,
            decoded: self.decoded,
        }
    }
}

impl DeepView for Worksheet {
    type V = WorksheetV;

    open spec fn deep_view(&self) -> WorksheetV {
        self.view()
    }
}

impl Worksheet {
    /// The grid inside is well formed.
    pub closed spec fn wf(self) -> bool {
        self.spreadsheet.wf()
    }

    /// A fresh, not yet decoded worksheet descriptor.
    pub fn new_entry(id: u32, name: String) -> (result: Worksheet)
        ensures
            result.wf(),
            result@ == (WorksheetV { id, name: name@, grid: empty_grid(), decoded: false }),
    {
        Worksheet { id, name, spreadsheet: Spreadsheet::new(), decoded: false }
    }

    /// The worksheet's name from the manifest.
    pub fn name(&self) -> (result: &str)
        ensures
            result@ == self@.name,
    {
        self.name.as_str()
    }

    /// The logical `(columns, rows)` extents of the grid.
    pub fn size(&self) -> (result: (u32, u32))
        ensures
            result.0 == self@.grid.cols,
            result.1 == self@.grid.rows,
    {
        self.spreadsheet.size()
    }

    /// All cells of the logical rectangle, in row-major order.
    pub fn cells(&self) -> (result: Vec<&Cell>)
        requires
            self.wf(),
        ensures
            result@.len() == self@.grid.cols * self@.grid.rows,
            forall|k: int|
                0 <= k < result@.len() ==> (#[trigger] result@[k])@ == self@.grid.at[
                    (k % self@.grid.cols, k / self@.grid.cols)
                ],
    {
        self.spreadsheet.cells()
    }

    /// The run of cells of one logical row, absent outside the extents.
    pub fn row(&self, row: u32) -> (result: Option<&[Cell]>)
        requires
            self.wf(),
        ensures
            result is Some <==> (self@.grid.cols > 0 && row < self@.grid.rows),
            result matches Some(s) ==> {
                &&& s@.len() == self@.grid.cols
                &&& forall|i: int|
                    0 <= i < s@.len() ==> (#[trigger] s@[i])@ == self@.grid.at[(i, row as int)]
            },
    {
        self.spreadsheet.row(row)
    }

    /// A cursor over the logical rows of the decoded grid.
    pub fn rows(&self) -> (result: crate::grid::Rows<'_>)
        requires
            self.wf(),
        ensures
            result.wf(),
            result.grid() == self@.grid,
            result.at_row() == 0,
    {
        crate::grid::Rows::over(&self.spreadsheet)
    }

    /// Point lookup by coordinate pair.
    pub fn column(&self, column: u32, row: u32) -> (result: Option<&Cell>)
        requires
            self.wf(),
        ensures
            result is Some <==> (column < self@.grid.cols && row < self@.grid.rows),
            result matches Some(c) ==> c@ == self@.grid.at[(column as int, row as int)],
    {
        self.spreadsheet.column(column, row)
    }

    /// Growth-aware insertion of one cell.
    pub fn insert_cell(&mut self, cell: Cell)
        requires
            old(self).wf(),
            spec_can_insert(old(self)@.grid, cell@),
        ensures
            final(self).wf(),
            final(self)@.grid == spec_insert(old(self)@.grid, cell@),
            final(self)@.id == old(self)@.id,
            final(self)@.name == old(self)@.name,
            final(self)@.decoded == old(self)@.decoded,
    {
        self.spreadsheet.insert(cell);
    }

    /// Direct write of one cell into a grid already sized to fit.
    pub fn insert_cell_exact(&mut self, cell: Cell)
        requires
            old(self).wf(),
            cell@.column < old(self)@.grid.cols,
            cell@.row < old(self)@.grid.rows,
        ensures
            final(self).wf(),
            final(self)@.grid == grid_write(old(self)@.grid, cell@),
            final(self)@.id == old(self)@.id,
            final(self)@.name == old(self)@.name,
            final(self)@.decoded == old(self)@.decoded,
    {
        let ghost g0 = self.spreadsheet@;
        let ghost cv = cell@;
        self.spreadsheet.insert_exact(cell);
        proof {
            assert(self.spreadsheet@ =~= grid_write(g0, cv));
        }
    }

    /// Growth-aware insertion of many cells, in order; a cell beyond
    /// machine limits is dropped.
    pub fn insert_cells(&mut self, cells: Vec<Cell>)
        requires
            old(self).wf(),
        ensures
            final(self).wf(),
            final(self)@.grid == grid_after_try(old(self)@.grid, cells.deep_view()),
            final(self)@.id == old(self)@.id,
            final(self)@.name == old(self)@.name,
            final(self)@.decoded == old(self)@.decoded,
    {
        let ghost g0 = self.spreadsheet@;
        let ghost cvs = cells.deep_view();
        let n = cells.len();
        let mut cells = cells;
        let mut i: usize = 0;
        proof {
            assert(cvs.take(0) =~= Seq::<crate::cell::CellV>::empty());
        }
        while i < n
            invariant
                n == cells@.len(),
                cvs == cells.deep_view(),
                0 <= i <= n,
                self.wf(),
                self@.grid == grid_after_try(g0, cvs.take(i as int)),
                self@.id == old(self)@.id,
                self@.name == old(self)@.name,
                self@.decoded == old(self)@.decoded,
            decreases n - i,
        {
            let cell = cells[i].clone();
            proof {
                assert(cvs.take(i + 1).drop_last() =~= cvs.take(i as int));
                assert(cvs.take(i + 1).last() == cvs[i as int]);
                assert(cvs[i as int] == cells@[i as int]@);
            }
            let _ = self.spreadsheet.try_insert(cell);
            i = i + 1;
        }
        proof {
            assert(cvs.take(n as int) =~= cvs);
        }
    }

    /// Direct writes of many cells, in order, into a grid already sized
    /// to fit them all.
    pub fn insert_cells_exact(&mut self, cells: Vec<Cell>)
        requires
            old(self).wf(),
            forall|k: int|
                0 <= k < cells.deep_view().len() ==> {
                    &&& (#[trigger] cells.deep_view()[k]).column < old(self)@.grid.cols
                    &&& cells.deep_view()[k].row < old(self)@.grid.rows
                },
        ensures
            final(self).wf(),
            final(self)@.grid == grid_after_exact(old(self)@.grid, cells.deep_view()),
            final(self)@.id == old(self)@.id,
            final(self)@.name == old(self)@.name,
            final(self)@.decoded == old(self)@.decoded,
    {
        let ghost g0 = self.spreadsheet@;
        let ghost cvs = cells.deep_view();
        let n = cells.len();
        let mut cells = cells;
        let mut i: usize = 0;
        proof {
            assert(cvs.take(0) =~= Seq::<crate::cell::CellV>::empty());
        }
        while i < n
            invariant
                n == cells@.len(),
                cvs == cells.deep_view(),
                0 <= i <= n,
                self.wf(),
                forall|k: int|
                    0 <= k < cvs.len() ==> {
                        &&& (#[trigger] cvs[k]).column < g0.cols
                        &&& cvs[k].row < g0.rows
                    },
                self@.grid == grid_after_exact(g0, cvs.take(i as int)),
                self@.id == old(self)@.id,
                self@.name == old(self)@.name,
                self@.decoded == old(self)@.decoded,
            decreases n - i,
        {
            let cell = cells[i].clone();
            proof {
                assert(cvs.take(i + 1).drop_last() =~= cvs.take(i as int));
                assert(cvs.take(i + 1).last() == cvs[i as int]);
                assert(cvs[i as int] == cells@[i as int]@);
                lemma_grid_after_exact_extents(g0, cvs.take(i as int));
            }
            let ghost gpre = self.spreadsheet@;
            let ghost cv = cell@;
            self.spreadsheet.insert_exact(cell);
            proof {
                assert(self.spreadsheet@ =~= grid_write(gpre, cv));
            }
            i = i + 1;
        }
        proof {
            assert(cvs.take(n as int) =~= cvs);
        }
    }
}

/// The grid after checked insertions of a cell sequence, in order.
pub open spec fn grid_after_try(g: GridV, s: Seq<crate::cell::CellV>) -> GridV
    decreases s.len(),
{
    if s.len() == 0 {
        g
    } else {
        let prev = grid_after_try(g, s.drop_last());
        if spec_can_insert(prev, s.last()) {
            spec_insert(prev, s.last())
        } else {
            prev
        }
    }
}

/// The grid after direct writes of a cell sequence, in order.
pub open spec fn grid_after_exact(g: GridV, s: Seq<crate::cell::CellV>) -> GridV
    decreases s.len(),
{
    if s.len() == 0 {
        g
    } else {
        grid_write(grid_after_exact(g, s.drop_last()), s.last())
    }
}

/// Direct writes leave every extent as it was.
proof fn lemma_grid_after_exact_extents(g: GridV, s: Seq<crate::cell::CellV>)
    ensures
        grid_after_exact(g, s).cols == g.cols,
        grid_after_exact(g, s).rows == g.rows,
        grid_after_exact(g, s).bcols == g.bcols,
        grid_after_exact(g, s).brows == g.brows,
    decreases s.len(),
{
    if s.len() > 0 {
        lemma_grid_after_exact_extents(g, s.drop_last());
    }
}

/// The interpreter state of the workbook-manifest walk: the `(id, name)`
/// pairs of the `<sheet>` entries, in order.
pub struct WbState {
    pub sheets: Seq<(u32, Seq<char>)>,
    pub done: bool,
}

pub open spec fn wb_init() -> WbState {
    WbState { sheets: Seq::empty(), done: false }
}

/// The `(id, name)` pair a `<sheet>` element declares, when it carries a
/// name and a parseable `sheetId`; an entry missing either is skipped.
pub open spec fn sheet_entry(attrs: Seq<AttrV>) -> Option<(u32, Seq<char>)> {
    match (attr_named(attrs, "name"@), attr_named(attrs, "sheetId"@)) {
        (Some(nm), Some(idv)) => match parsed_u32(idv) {
            Some(id) => Some((id, decoded_of(nm))),
            None => None,
        },
        _ => None,
    }
}

/// What one event does to the manifest state.
pub open spec fn wb_step(st: WbState, ev: EventV) -> WbState {
    if st.done {
        st
    } else {
        match ev {
            EventV::SelfClosed { name, attrs } => {
                if is_tag(name, "sheet"@) {
                    match sheet_entry(attrs) {
                        Some(e) => WbState { sheets: st.sheets.push(e), ..st },
                        None => st,
                    }
                } else {
                    st
                }
            },
            EventV::Open { name, attrs } => {
                if is_tag(name, "sheet"@) {
                    match sheet_entry(attrs) {
                        Some(e) => WbState { sheets: st.sheets.push(e), ..st },
                        None => st,
                    }
                } else {
                    st
                }
            },
            EventV::Close { name } => {
                if is_tag(name, "sheets"@) {
                    WbState { done: true, ..st }
                } else {
                    st
                }
            },
            _ => st,
        }
    }
}

/// The state after interpreting the first `i` events.
pub open spec fn wb_run(events: Seq<EventV>, i: int) -> WbState
    decreases i,
{
    if i <= 0 {
        wb_init()
    } else {
        wb_step(wb_run(events, i - 1), events[i - 1])
    }
}

/// Enumerates the worksheet descriptors the manifest declares, each with
/// an empty, not yet decoded grid.
pub fn load_workbook(events: &Vec<XmlEvent>) -> (result: Vec<Worksheet>)
    ensures
        ({
            let sheets = wb_run(events.deep_view(), events@.len() as int).sheets;
            &&& result.deep_view().len() == sheets.len()
            &&& forall|k: int|
                0 <= k < sheets.len() ==> (#[trigger] result.deep_view()[k]) == (WorksheetV {
                    id: sheets[k].0,
                    name: sheets[k].1,
                    grid: empty_grid(),
                    decoded: false,
                })
            &&& forall|k: int| 0 <= k < result@.len() ==> (#[trigger] result@[k]).wf()
        }),
{
    let ghost evs = events.deep_view();
    let mut out: Vec<Worksheet> = Vec::new();
    let mut done: bool = false;
    let n = events.len();
    let mut i: usize = 0;
    while i < n
        invariant
            n == events@.len(),
            evs == events.deep_view(),
            0 <= i <= n,
            ({
                let st = wb_run(evs, i as int);
                &&& st.done == done
                &&& st.sheets.len() == out.deep_view().len()
                &&& forall|k: int|
                    0 <= k < st.sheets.len() ==> (#[trigger] out.deep_view()[k]) == (WorksheetV {
                        id: st.sheets[k].0,
                        name: st.sheets[k].1,
                        grid: empty_grid(),
                        decoded: false,
                    })
            }),
            forall|k: int| 0 <= k < out@.len() ==> (#[trigger] out@[k]).wf(),
        decreases n - i,
    {
        proof {
            assert(evs[i as int] == events@[i as int].deep_view());
        }
        let ghost pre = wb_run(evs, i as int);
        if !done {
            match &events[i] {
                XmlEvent::SelfClosed { name, attrs } => {
                    if crate::text::tag_matches(name.as_slice(), "sheet") {
                        match (crate::xml::find_attr(attrs, "name"), crate::xml::find_attr(
                            attrs,
                            "sheetId",
                        )) {
                            (Some(nm), Some(idv)) => {
                                match crate::text::parse_u32_bytes(idv.as_slice()) {
                                    Some(id) => {
                                        let name_s = crate::text::bytes_to_string(nm.as_slice());
                                        let ghost odv = out.deep_view();
                                        let entry = Worksheet::new_entry(id, name_s);
                                        let ghost ev_entry = entry@;
                                        out.push(entry);
                                        proof {
                                            assert(out.deep_view() =~= odv.push(ev_entry));
                                        }
                                    },
                                    None => {},
                                }
                            },
                            _ => {},
                        }
                    }
                },
                XmlEvent::Open { name, attrs } => {
                    if crate::text::tag_matches(name.as_slice(), "sheet") {
                        match (crate::xml::find_attr(attrs, "name"), crate::xml::find_attr(
                            attrs,
                            "sheetId",
                        )) {
                            (Some(nm), Some(idv)) => {
                                match crate::text::parse_u32_bytes(idv.as_slice()) {
                                    Some(id) => {
                                        let name_s = crate::text::bytes_to_string(nm.as_slice());
                                        let ghost odv = out.deep_view();
                                        let entry = Worksheet::new_entry(id, name_s);
                                        let ghost ev_entry = entry@;
                                        out.push(entry);
                                        proof {
                                            assert(out.deep_view() =~= odv.push(ev_entry));
                                        }
                                    },
                                    None => {},
                                }
                            },
                            _ => {},
                        }
                    }
                },
                XmlEvent::Close { name } => {
                    if crate::text::tag_matches(name.as_slice(), "sheets") {
                        done = true;
                    }
                },
                _ => {},
            }
        }
        i = i + 1;
        proof {
            assert(wb_run(evs, i as int) == wb_step(pre, evs[i - 1]));
        }
    }
    out
}

/// The name of the worksheet part a manifest id points at.
pub open spec fn sheet_part_chars(id: u32) -> Seq<char> {
    "xl/worksheets/sheet"@ + chars_of(dec_text(id as int)) + ".xml"@
}

/// Builds the name of a worksheet part from its manifest id.
fn sheet_part_name(id: u32) -> (result: String)
    ensures
        result@ == sheet_part_chars(id),
{
    proof {
        reveal_strlit("xl/worksheets/sheet");
        reveal_strlit(".xml");
        crate::text::lemma_dec_text_ascii(id as int);
    }
    let digits = crate::text::decimal_bytes(id as u64);
    let digits_s = crate::text::bytes_to_string(digits.as_slice());
    let mut part: String = "xl/worksheets/sheet".to_owned();
    part.append(digits_s.as_str());
    part.append(".xml");
    part
}

/// What opening a package's bytes names: the manifest's worksheet
/// descriptors and the two eagerly loaded tables.
pub struct WorkbookV {
    pub sheets: Seq<(u32, Seq<char>)>,
    pub strings: Seq<Seq<char>>,
    pub styles: StylesV,
}

/// What loading the optional styles part of a container yields: empty
/// tables when the part is absent, its loaded tables when it tokenizes
/// and its counts match, and the structural error otherwise.
pub open spec fn spec_styles_part(bytes: Seq<u8>) -> Result<StylesV, Error> {
    match part_read(bytes, "xl/styles.xml"@) {
        Ok(b) => match tokens_of(b) {
            Some(evs) => spec_load_styles(evs),
            None => Err(Error::MalformedXml),
        },
        Err(PartError::NotFound) => Ok(empty_styles()),
        Err(PartError::Unreadable) => Err(Error::Container),
    }
}

/// What loading the optional shared-strings part of a container yields:
/// an empty list when the part is absent.
pub open spec fn spec_shared_part(bytes: Seq<u8>) -> Result<Seq<Seq<char>>, Error> {
    match part_read(bytes, "xl/sharedStrings.xml"@) {
        Ok(b) => match tokens_of(b) {
            Some(evs) => Ok(sst_run(evs, evs.len() as int).strings),
            None => Err(Error::MalformedXml),
        },
        Err(PartError::NotFound) => Ok(Seq::empty()),
        Err(PartError::Unreadable) => Err(Error::Container),
    }
}

/// What opening a package's bytes yields: an unreadable container fails,
/// the workbook manifest is required (absent: a missing part; unreadable
/// or untokenizable: the corresponding structural error), its `<sheet>`
/// entries become the descriptors, and the two optional tables load as
/// [`spec_styles_part`] and [`spec_shared_part`] say.
pub open spec fn spec_open(bytes: Seq<u8>) -> Result<WorkbookV, Error> {
    if !archive_readable(bytes) {
        Err(Error::Container)
    } else {
        match part_read(bytes, "xl/workbook.xml"@) {
            Err(PartError::NotFound) => Err(Error::MissingPart),
            Err(PartError::Unreadable) => Err(Error::Container),
            Ok(b) => match tokens_of(b) {
                None => Err(Error::MalformedXml),
                Some(evs) => {
                    let sheets = wb_run(evs, evs.len() as int).sheets;
                    match spec_styles_part(bytes) {
                        Err(e) => Err(e),
                        Ok(styles) => match spec_shared_part(bytes) {
                            Err(e) => Err(e),
                            Ok(strings) => Ok(WorkbookV { sheets, strings, styles }),
                        },
                    }
                },
            },
        }
    }
}

/// Index of the first descriptor whose name matches exactly, or `-1`.
pub open spec fn first_match(sheets: Seq<WorksheetV>, name: Seq<char>) -> int
    decreases sheets.len(),
{
    if sheets.len() == 0 {
        -1
    } else if sheets[0].name == name {
        0
    } else {
        let rest = first_match(sheets.drop_first(), name);
        if rest < 0 {
            -1
        } else {
            1 + rest
        }
    }
}

/// `first_match` is exactly the first index whose name matches.
proof fn lemma_first_match(sheets: Seq<WorksheetV>, name: Seq<char>, i: int)
    requires
        0 <= i <= sheets.len(),
        forall|j: int| 0 <= j < i ==> (#[trigger] sheets[j]).name != name,
        i < sheets.len() ==> sheets[i].name == name,
    ensures
        first_match(sheets, name) == if i < sheets.len() {
            i
        } else {
            -1
        },
    decreases sheets.len(),
{
    if i == 0 {
        if sheets.len() > 0 && sheets[0].name != name {
            lemma_first_match(sheets.drop_first(), name, 0);
        }
    } else {
        assert(sheets[0].name != name);
        lemma_first_match(sheets.drop_first(), name, i - 1);
    }
}

/// An opened spreadsheet document.
pub struct Xlsx {
    package: Package,
    worksheets: Vec<Worksheet>,
    shared_strings: Vec<String>,
    styles: Styles,
}

impl Xlsx {
    /// Every worksheet descriptor is well formed.
    pub closed spec fn wf(self) -> bool {
        forall|k: int| 0 <= k < self.worksheets@.len() ==> (#[trigger] self.worksheets@[k]).wf()
    }

    /// The manifest `(id, name)` pairs, in order.
    pub closed spec fn spec_sheets(self) -> Seq<(u32, Seq<char>)> {
        Seq::new(
            self.worksheets@.len(),
            |k: int| (self.worksheets@[k]@.id, self.worksheets@[k]@.name),
        )
    }

    /// The container bytes this document was opened over.
    pub closed spec fn source(self) -> Seq<u8> {
        self.package.source()
    }

    /// The loaded shared-string table.
    pub closed spec fn spec_strings(self) -> Seq<Seq<char>> {
        self.shared_strings.deep_view()
    }

    /// The loaded style tables.
    pub closed spec fn spec_styles(self) -> StylesV {
        self.styles@
    }

    /// The worksheet descriptors, in manifest order.
    pub closed spec fn spec_worksheets(self) -> Seq<WorksheetV> {
        Seq::new(self.worksheets@.len(), |k: int| self.worksheets@[k]@)
    }

    /// Opens a document from the bytes of its package, exactly as
    /// [`spec_open`] says: the workbook manifest (required) gives the
    /// worksheet descriptors, all still undecoded with empty grids, and
    /// the style and shared-string tables load eagerly (each optional;
    /// absence degrades to empty tables).  Worksheet bodies are not
    /// decoded yet.
    pub fn open(bytes: Vec<u8>) -> (result: Result<Xlsx, Error>)
        ensures
            result matches Ok(wb) ==> ({
                &&& wb.wf()
                &&& wb.source() == bytes@
                &&& spec_open(bytes@) matches Ok(m) && wb.spec_sheets() == m.sheets
                    && wb.spec_strings() == m.strings && wb.spec_styles() == m.styles
                &&& wb.spec_worksheets().len() == wb.spec_sheets().len()
                &&& forall|k: int|
                    0 <= k < wb.spec_worksheets().len() ==> (#[trigger] wb.spec_worksheets()[k])
                        == (WorksheetV {
                        id: wb.spec_sheets()[k].0,
                        name: wb.spec_sheets()[k].1,
                        grid: empty_grid(),
                        decoded: false,
                    })
            }),
            result matches Err(e) ==> spec_open(bytes@) == Result::<WorkbookV, Error>::Err(e),
    {
        let ghost src = bytes@;
        let mut package = match open_package(bytes) {
            Ok(p) => p,
            Err(e) => {
                return Err(e);
            },
        };
        let wb_bytes = match read_part(&mut package, "xl/workbook.xml") {
            Ok(b) => b,
            Err(PartError::NotFound) => {
                return Err(Error::MissingPart);
            },
            Err(PartError::Unreadable) => {
                return Err(Error::Container);
            },
        };
        let ghost wb_part = wb_bytes@;
        let wb_events = match tokenize(wb_bytes) {
            Ok(evs) => evs,
            Err(e) => {
                return Err(e);
            },
        };
        let worksheets = load_workbook(&wb_events);
        let styles = match read_part(&mut package, "xl/styles.xml") {
            Ok(b) => match tokenize(b) {
                Ok(evs) => match load_styles(&evs) {
                    Ok(st) => {
                        proof {
                            assert(spec_styles_part(src) == Result::<StylesV, Error>::Ok(st@));
                        }
                        st
                    },
                    Err(e) => {
                        proof {
                            assert(spec_styles_part(src) == Result::<StylesV, Error>::Err(e));
                        }
                        return Err(e);
                    },
                },
                Err(e) => {
                    proof {
                        assert(spec_styles_part(src) == Result::<StylesV, Error>::Err(e));
                    }
                    return Err(e);
                },
            },
            Err(PartError::NotFound) => {
                let st = Styles::new();
                proof {
                    assert(spec_styles_part(src) == Result::<StylesV, Error>::Ok(st@));
                }
                st
            },
            Err(PartError::Unreadable) => {
                return Err(Error::Container);
            },
        };
        let shared_strings = match read_part(&mut package, "xl/sharedStrings.xml") {
            Ok(b) => match tokenize(b) {
                Ok(evs) => {
                    let strings = load_shared_strings(&evs);
                    proof {
                        assert(spec_shared_part(src) == Result::<Seq<Seq<char>>, Error>::Ok(
                            strings.deep_view(),
                        ));
                    }
                    strings
                },
                Err(e) => {
                    proof {
                        assert(spec_shared_part(src) == Result::<Seq<Seq<char>>, Error>::Err(e));
                    }
                    return Err(e);
                },
            },
            Err(PartError::NotFound) => {
                let strings: Vec<String> = Vec::new();
                proof {
                    assert(strings.deep_view() =~= Seq::<Seq<char>>::empty());
                    assert(spec_shared_part(src) == Result::<Seq<Seq<char>>, Error>::Ok(
                        Seq::empty(),
                    ));
                }
                strings
            },
            Err(PartError::Unreadable) => {
                return Err(Error::Container);
            },
        };
        let wb = Xlsx { package, worksheets, shared_strings, styles };
        proof {
            let evs = tokens_of(wb_part)->Some_0;
            assert(evs == wb_events.deep_view());
            assert(evs.len() == wb_events@.len());
            let run_sheets = wb_run(evs, evs.len() as int).sheets;
            assert(wb.worksheets@ == worksheets@);
            assert(wb.spec_worksheets().len() == run_sheets.len()) by {
                assert(worksheets.deep_view().len() == wb.worksheets@.len());
            }
            assert forall|k: int| 0 <= k < run_sheets.len() implies {
                &&& (#[trigger] wb.spec_worksheets()[k]) == (WorksheetV {
                    id: run_sheets[k].0,
                    name: run_sheets[k].1,
                    grid: empty_grid(),
                    decoded: false,
                })
                &&& wb.spec_sheets()[k] == run_sheets[k]
            } by {
                assert(worksheets.deep_view()[k] == (WorksheetV {
                    id: run_sheets[k].0,
                    name: run_sheets[k].1,
                    grid: empty_grid(),
                    decoded: false,
                }));
                assert(worksheets.deep_view()[k] == worksheets@[k].deep_view());
                assert(wb.spec_worksheets()[k] == wb.worksheets@[k]@);
            }
            assert forall|k: int|
                0 <= k < run_sheets.len() implies (#[trigger] wb.spec_sheets()[k])
                == run_sheets[k] by {
                assert(wb.spec_worksheets()[k] == (WorksheetV {
                    id: run_sheets[k].0,
                    name: run_sheets[k].1,
                    grid: empty_grid(),
                    decoded: false,
                }));
                assert(wb.spec_worksheets()[k] == wb.worksheets@[k]@);
            }
            assert(wb.spec_sheets() =~= run_sheets);
            let m = WorkbookV {
                sheets: run_sheets,
                strings: wb.spec_strings(),
                styles: wb.spec_styles(),
            };
            assert(spec_open(src) == Result::<WorkbookV, Error>::Ok(m));
            assert(wb.wf()) by {
                assert forall|k: int|
                    0 <= k < wb.worksheets@.len() implies (#[trigger] wb.worksheets@[k]).wf() by {
                    assert(worksheets@[k].wf());
                }
            }
        }
        Ok(wb)
    }

    /// The manifest `(id, name)` pairs, in order.
    pub fn sheet_names(&self) -> (result: Vec<String>)
        ensures
            result.deep_view().len() == self.spec_sheets().len(),
            forall|k: int|
                0 <= k < result.deep_view().len() ==> (#[trigger] result.deep_view()[k])
                    == self.spec_sheets()[k].1,
    {
        let mut out: Vec<String> = Vec::new();
        let n = self.worksheets.len();
        let mut i: usize = 0;
        while i < n
            invariant
                n == self.worksheets@.len(),
                0 <= i <= n,
                out.deep_view().len() == i,
                forall|k: int|
                    0 <= k < i ==> (#[trigger] out.deep_view()[k]) == self.spec_sheets()[k].1,
            decreases n - i,
        {
            let name = self.worksheets[i].name();
            let ghost odv = out.deep_view();
            let owned = name.to_owned();
            let ghost ov = owned@;
            out.push(owned);
            proof {
                assert(out.deep_view() =~= odv.push(ov));
                assert(out.deep_view()[i as int] == self.spec_sheets()[i as int].1);
            }
            i = i + 1;
        }
        out
    }

    /// Fetches a worksheet by exact name, decoding its part on first
    /// access.  A name no manifest entry has, or one whose part is absent
    /// from the package, is reported as absent; structural failures while
    /// reading or tokenizing the part surface as errors.
    /// Fetches a worksheet by exact name (case included), decoding its
    /// part on first access.  A name no manifest entry has, or one whose
    /// part is legitimately absent from the package, is reported as
    /// absent; structural failures while reading or tokenizing the part
    /// surface as errors.  On first access the matched descriptor's grid
    /// becomes the decode of its part's tokens; a repeated call returns
    /// the already-populated grid untouched, without re-reading the part.
    /// No other descriptor changes.
    pub fn worksheet(&mut self, name: &str) -> (result: Result<Option<&Worksheet>, Error>)
        requires
            old(self).wf(),
        ensures
            final(self).wf(),
            final(self).source() == old(self).source(),
            final(self).spec_strings() == old(self).spec_strings(),
            final(self).spec_styles() == old(self).spec_styles(),
            final(self).spec_sheets() == old(self).spec_sheets(),
            final(self).spec_worksheets().len() == old(self).spec_worksheets().len(),
            forall|k: int|
                0 <= k < old(self).spec_worksheets().len() && k != first_match(
                    old(self).spec_worksheets(),
                    name@,
                ) ==> final(self).spec_worksheets()[k] == #[trigger] old(self).spec_worksheets()[k],
            result matches Ok(Some(w)) ==> w@.name == name@ && w.wf() && w@.decoded,
            ({
                let sheets = old(self).spec_worksheets();
                let idx = first_match(sheets, name@);
                if idx < 0 {
                    result matches Ok(r) && r is None
                } else {
                    let ws = sheets[idx];
                    if ws.decoded {
                        &&& result matches Ok(Some(w)) && w@ == ws
                        &&& final(self).spec_worksheets()[idx] == ws
                    } else {
                        match part_read(old(self).source(), sheet_part_chars(ws.id)) {
                            Ok(b) => match tokens_of(b) {
                                Some(evs) => {
                                    &&& result matches Ok(Some(w)) && w@ == final(self).spec_worksheets()[idx]
                                    &&& final(self).spec_worksheets()[idx] == (WorksheetV {
                                        id: ws.id,
                                        name: ws.name,
                                        grid: sheet_run(
                                            evs,
                                            old(self).spec_strings(),
                                            old(self).spec_styles(),
                                            ws.grid,
                                            evs.len() as int,
                                        ).grid,
                                        decoded: true,
                                    })
                                },
                                None => result matches Err(e) && e == Error::MalformedXml
                                    && final(self).spec_worksheets()[idx] == ws,
                            },
                            Err(PartError::NotFound) => result matches Ok(r) && r is None
                                && final(self).spec_worksheets()[idx] == ws,
                            Err(PartError::Unreadable) => result matches Err(e) && e
                                == Error::Container && final(self).spec_worksheets()[idx] == ws,
                        }
                    }
                }
            }),
    {
        let ghost sheets0 = old(self).spec_worksheets();
        let n = self.worksheets.len();
        let mut i: usize = 0;
        while i < n
            invariant
                *self == *old(self),
                old(self).wf(),
                sheets0 == old(self).spec_worksheets(),
                n == self.worksheets@.len(),
                0 <= i <= n,
                forall|k: int| 0 <= k < i ==> (#[trigger] sheets0[k]).name != name@,
            decreases n - i,
        {
            proof {
                assert(sheets0[i as int] == self.worksheets@[i as int]@);
            }
            if crate::text::str_eq(self.worksheets[i].name(), name) {
                proof {
                    lemma_first_match(sheets0, name@, i as int);
                    assert(first_match(sheets0, name@) == i as int);
                    assert(old(self).spec_sheets()[i as int].1 == name@);
                }
                if self.worksheets[i].is_decoded() {
                    return Ok(Some(&self.worksheets[i]));
                }
                let part_name = sheet_part_name(self.worksheets[i].id());
                proof {
                    assert(part_name@ == sheet_part_chars(sheets0[i as int].id));
                }
                let part = match read_part(&mut self.package, part_name.as_str()) {
                    Ok(b) => b,
                    Err(PartError::NotFound) => {
                        return Ok(None);
                    },
                    Err(PartError::Unreadable) => {
                        return Err(Error::Container);
                    },
                };
                let events = match tokenize(part) {
                    Ok(evs) => evs,
                    Err(e) => {
                        return Err(e);
                    },
                };
                let ghost pre_sheets = self.worksheets@;
                self.worksheets[i].decode(&events, &self.shared_strings, &self.styles);
                proof {
                    assert forall|k: int|
                        0 <= k < self.worksheets@.len() implies (
                    #[trigger] self.worksheets@[k]).wf() by {
                        if k != i as int {
                            assert(self.worksheets@[k] == pre_sheets[k]);
                        }
                    }
                    assert forall|k: int|
                        0 <= k < self.worksheets@.len() implies self.spec_sheets()[k] == old(
                        self,
                    ).spec_sheets()[k] by {
                        if k != i as int {
                            assert(self.worksheets@[k] == pre_sheets[k]);
                        }
                    }
                    assert(self.spec_sheets() =~= old(self).spec_sheets());
                    assert forall|k: int|
                        0 <= k < sheets0.len() && k != i as int implies self.spec_worksheets()[k]
                        == #[trigger] sheets0[k] by {
                        assert(self.worksheets@[k] == pre_sheets[k]);
                    }
                    assert(self.spec_worksheets()[i as int] == self.worksheets@[i as int]@);
                }
                return Ok(Some(&self.worksheets[i]));
            }
            i = i + 1;
        }
        proof {
            lemma_first_match(sheets0, name@, n as int);
        }
        Ok(None)
    }
}

impl Worksheet {
    /// Whether the worksheet's part has been decoded into its grid.
    pub fn is_decoded(&self) -> (result: bool)
        ensures
            result == self@.decoded,
    {
        self.decoded
    }

    /// The worksheet's manifest id.
    pub fn id(&self) -> (result: u32)
        ensures
            result == self@.id,
    {
        self.id
    }

    /// Decodes one part's events into this worksheet's grid and marks it
    /// decoded.
    pub fn decode(&mut self, events: &Vec<XmlEvent>, shared: &Vec<String>, styles: &Styles)
        requires
            old(self).wf(),
        ensures
            final(self).wf(),
            final(self)@.id == old(self)@.id,
            final(self)@.name == old(self)@.name,
            final(self)@.decoded,
            final(self)@.grid == sheet_run(
                events.deep_view(),
                shared.deep_view(),
                styles@,
                old(self)@.grid,
                events@.len() as int,
            ).grid,
    {
        crate::sheet::decode_worksheet(events, shared, styles, &mut self.spreadsheet);
        self.decoded = true;
    }
}

} // verus!
