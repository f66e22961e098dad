//! The style tables and their resolver.
//!
//! The styles part holds three related, append-only tables: the fonts, the
//! cell-format ("xf") records, and the indexed-color palette.  A cell's
//! style index points into the cell-format table, whose record points at a
//! font, whose color is one of three encodings.  Resolution misses at any
//! stage fall back to the default font rather than failing the decode.
//!
//! Numeric attributes that do not parse are treated like absent ones (the
//! record keeps its default field), so one corrupt record cannot abort the
//! decode; a declared record count that does not match what was parsed is
//! a structural error.

use vstd::prelude::*;

use crate::cell::{spec_default_font, Font, FontV};
use crate::error::Error;
use crate::text::{decoded_of, is_tag, parsed_u32};
use crate::xml::{attr_named, AttrV, EventV, XmlAttr, XmlEvent};

verus! {

/// A font color, in one of the three source encodings.  Theme colors are
/// recognized but always resolve to the default color.
#[derive(Debug)]
pub enum Color {
    /// A literal ARGB hex string.
    Argb(String),
    /// An index into the indexed-color palette.
    Indexed(u32),
    /// A reference into the document theme, with an optional tint kept as
    /// its source text.
    Theme { theme: u32, tint: Option<String> },
}

/// Mathematical view of a [`Color`].
pub enum ColorV {
    Argb(Seq<char>),
    Indexed(u32),
    Theme { theme: u32, tint: Option<Seq<char>> },
}

impl View for Color {
    type V = ColorV;

    open spec fn view(&self) -> ColorV {
        match self {
            Color::Argb(s) => ColorV::Argb(s@),
            Color::Indexed(i) => ColorV::Indexed(*i),
            Color::Theme { theme, tint } => ColorV::Theme {
                theme: *theme,
                tint: match tint {
                    Some(t) => Some(t@),
                    None => None,
                },
            },
        }
    }
}

/// One font record: size and name as their source text, and an optional
/// color.
#[derive(Debug)]
pub struct FontRec {
    pub size: String,
    pub name: String,
    pub color: Option<Color>,
}

/// Mathematical view of a [`FontRec`].
pub struct FontRecV {
    pub size: Seq<char>,
    pub name: Seq<char>,
    pub color: Option<ColorV>,
}

impl View for FontRec {
    type V = FontRecV;

    open spec fn view(&self) -> FontRecV {
        FontRecV {
            size: self.size@,
            name: self.name@,
            color: match &self.color {
                Some(c) => Some(c@),
                None => None,
            },
        }
    }
}

impl DeepView for FontRec {
    type V = FontRecV;

    open spec fn deep_view(&self) -> FontRecV {
        self.view()
    }
}

/// A fresh font record, before any of its sub-elements is read.
pub open spec fn empty_font_rec() -> FontRecV {
    FontRecV { size: Seq::empty(), name: Seq::empty(), color: None }
}

impl FontRec {
    /// A fresh font record.
    pub fn empty() -> (result: FontRec)
        ensures
            result@ == empty_font_rec(),
    {
        FontRec { size: String::new(), name: String::new(), color: None }
    }
}

/// One cell-format record, ids and apply flags as the source serializes
/// them.
#[derive(Clone, Copy, Debug, PartialEq, Eq, Structural)]
pub struct Xf {
    pub num_fmt_id: u32,
    pub font_id: u32,
    pub fill_id: u32,
    pub border_id: u32,
    pub xf_id: u32,
    pub apply_font: bool,
    pub apply_border: bool,
    pub apply_alignment: bool,
    pub apply_protection: bool,
}

/// Mathematical view of [`Styles`].
pub struct StylesV {
    pub fonts: Seq<FontRecV>,
    pub xfs: Seq<Xf>,
    pub colors: Seq<Seq<char>>,
}

/// The three style tables of one document.
#[derive(Debug)]
pub struct Styles {
    fonts: Vec<FontRec>,
    cell_xfs: Vec<Xf>,
    indexed_colors: Vec<String>,
}

impl View for Styles {
    type V = StylesV;

    closed spec fn view(&self) -> StylesV {
        StylesV {
            fonts: self.fonts.deep_view(),
            xfs: self.cell_xfs@,
            colors: self.indexed_colors.deep_view(),
        }
    }
}

/// The color string a font's color resolves to: a literal ARGB value is
/// used directly, an indexed color is looked up in the palette (default
/// black on a miss), and a theme reference always resolves to the default
/// color — theme resolution is a documented limitation, not an error.
pub open spec fn spec_color(st: StylesV, color: Option<ColorV>) -> Seq<char> {
    match color {
        None => "FF000000"@,
        Some(ColorV::Argb(s)) => s,
        Some(ColorV::Indexed(i)) => if i < st.colors.len() {
            st.colors[i as int]
        } else {
            "FF000000"@
        },
        Some(ColorV::Theme { theme, tint }) => "FF000000"@,
    }
}

/// The font a cell's style index resolves to: style index into the
/// cell-format table, its font id into the font table, and the font's
/// color through [`spec_color`]; a miss at either indirection yields the
/// default font.
pub open spec fn resolve_spec(st: StylesV, index: int) -> FontV {
    if 0 <= index < st.xfs.len() {
        let xf = st.xfs[index];
        if xf.font_id < st.fonts.len() {
            let f = st.fonts[xf.font_id as int];
            FontV { name: f.name, size: f.size, color: spec_color(st, f.color) }
        } else {
            spec_default_font()
        }
    } else {
        spec_default_font()
    }
}

/// A style index out of range for the cell-format table resolves to the
/// default font — never an error.
pub proof fn lemma_resolve_out_of_range(st: StylesV, index: int)
    requires
        !(0 <= index < st.xfs.len()),
    ensures
        resolve_spec(st, index) == spec_default_font(),
{
}

/// The tables of a document without a styles part.
pub open spec fn empty_styles() -> StylesV {
    StylesV { fonts: Seq::empty(), xfs: Seq::empty(), colors: Seq::empty() }
}

impl Styles {
    /// Empty tables, as a document without a styles part has.
    pub fn new() -> (result: Styles)
        ensures
            result@ == empty_styles(),
    {
        let s = Styles { fonts: Vec::new(), cell_xfs: Vec::new(), indexed_colors: Vec::new() };
        proof {
            assert(s@.fonts =~= empty_styles().fonts);
            assert(s@.xfs =~= empty_styles().xfs);
            assert(s@.colors =~= empty_styles().colors);
        }
        s
    }

    /// Builds the tables directly from their records.
    pub fn from_parts(
        fonts: Vec<FontRec>,
        cell_xfs: Vec<Xf>,
        indexed_colors: Vec<String>,
    ) -> (result: Styles)
        ensures
            result@ == (StylesV {
                fonts: fonts.deep_view(),
                xfs: cell_xfs@,
                colors: indexed_colors.deep_view(),
            }),
    {
        Styles { fonts, cell_xfs, indexed_colors }
    }

    /// Resolves a cell's style index to a concrete font, exactly as
    /// [`resolve_spec`] says: an index that misses any table yields the
    /// default font, never an error.
    pub fn font(&self, index: usize) -> (result: Font)
        ensures
            result@ == resolve_spec(self@, index as int),
    {
        if index < self.cell_xfs.len() {
            let xf = self.cell_xfs[index];
            if (xf.font_id as usize) < self.fonts.len() {
                let f = &self.fonts[xf.font_id as usize];
                let color: String = match &f.color {
                    Option::None => "FF000000".to_owned(),
                    Option::Some(Color::Argb(s)) => s.clone(),
                    Option::Some(Color::Indexed(i)) => {
                        if (*i as usize) < self.indexed_colors.len() {
                            self.indexed_colors[*i as usize].clone()
                        } else {
                            "FF000000".to_owned()
                        }
                    },
                    Option::Some(Color::Theme { .. }) => "FF000000".to_owned(),
                };
                Font::from_parts(f.name.clone(), f.size.clone(), color)
            } else {
                Font::fallback()
            }
        } else {
            Font::fallback()
        }
    }
}

/// The declared record count of a collection element, when its `count`
/// attribute is present and parses.
pub open spec fn count_of(attrs: Seq<AttrV>) -> Option<u32> {
    match attr_named(attrs, "count"@) {
        Some(v) => parsed_u32(v),
        None => None,
    }
}

/// An apply flag is serialized either as a single digit or as a word.
pub open spec fn parsed_flag(v: Seq<u8>) -> Option<bool> {
    if is_tag(v, "1"@) || is_tag(v, "true"@) {
        Some(true)
    } else if is_tag(v, "0"@) || is_tag(v, "false"@) {
        Some(false)
    } else {
        None
    }
}

/// A numeric attribute, with absent or unparsable values falling back to
/// the record default.
pub open spec fn u32_attr_or(attrs: Seq<AttrV>, name: Seq<char>, default: u32) -> u32 {
    match attr_named(attrs, name) {
        Some(v) => match parsed_u32(v) {
            Some(x) => x,
            None => default,
        },
        None => default,
    }
}

/// An apply-flag attribute, with absent or unrecognized values read as
/// `false`.
pub open spec fn flag_attr(attrs: Seq<AttrV>, name: Seq<char>) -> bool {
    match attr_named(attrs, name) {
        Some(v) => match parsed_flag(v) {
            Some(b) => b,
            None => false,
        },
        None => false,
    }
}

/// The cell-format record an `xf` element's attributes describe.
pub open spec fn xf_of_attrs(attrs: Seq<AttrV>) -> Xf {
    Xf {
        num_fmt_id: u32_attr_or(attrs, "numFmtId"@, 0),
        font_id: u32_attr_or(attrs, "fontId"@, 0),
        fill_id: u32_attr_or(attrs, "fillId"@, 0),
        border_id: u32_attr_or(attrs, "borderId"@, 0),
        xf_id: u32_attr_or(attrs, "xfId"@, 0),
        apply_font: flag_attr(attrs, "applyFont"@),
        apply_border: flag_attr(attrs, "applyBorder"@),
        apply_alignment: flag_attr(attrs, "applyAlignment"@),
        apply_protection: flag_attr(attrs, "applyProtection"@),
    }
}

/// The tint attribute of a color element, kept as text.
pub open spec fn tint_of(attrs: Seq<AttrV>) -> Option<Seq<char>> {
    match attr_named(attrs, "tint"@) {
        Some(v) => Some(decoded_of(v)),
        None => None,
    }
}

/// The color a `color` element's attributes encode: the first attribute
/// named `rgb`, `theme` or `indexed` decides the encoding; an unparsable
/// number leaves the color unrecognized.
pub open spec fn color_of_attrs(attrs: Seq<AttrV>, all: Seq<AttrV>) -> Option<ColorV>
    decreases attrs.len(),
{
    if attrs.len() == 0 {
        None
    } else if is_tag(attrs[0].name, "rgb"@) {
        Some(ColorV::Argb(decoded_of(attrs[0].value)))
    } else if is_tag(attrs[0].name, "theme"@) {
        match parsed_u32(attrs[0].value) {
            Some(t) => Some(ColorV::Theme { theme: t, tint: tint_of(all) }),
            None => None,
        }
    } else if is_tag(attrs[0].name, "indexed"@) {
        match parsed_u32(attrs[0].value) {
            Some(i) => Some(ColorV::Indexed(i)),
            None => None,
        }
    } else {
        color_of_attrs(attrs.drop_first(), all)
    }
}

/// Where the styles walk currently stands.
#[derive(Clone, Copy, Debug, PartialEq, Eq, Structural)]
pub enum StylesMode {
    Top,
    InFonts,
    InFont,
    InXfs,
    InColors,
}

/// The interpreter state of the styles walk.
pub struct StylesState {
    pub mode: StylesMode,
    pub fonts: Seq<FontRecV>,
    pub xfs: Seq<Xf>,
    pub colors: Seq<Seq<char>>,
    pub cur_font: FontRecV,
    pub fonts_count: Option<u32>,
    pub xfs_count: Option<u32>,
}

pub open spec fn styles_init() -> StylesState {
    StylesState {
        mode: StylesMode::Top,
        fonts: Seq::empty(),
        xfs: Seq::empty(),
        colors: Seq::empty(),
        cur_font: empty_font_rec(),
        fonts_count: None,
        xfs_count: None,
    }
}

/// What one event does to the styles state.
pub open spec fn styles_step(st: StylesState, ev: EventV) -> StylesState {
    match st.mode {
        StylesMode::Top => match ev {
            EventV::Open { name, attrs } => {
                if is_tag(name, "fonts"@) {
                    StylesState { mode: StylesMode::InFonts, fonts_count: count_of(attrs), ..st }
                } else if is_tag(name, "cellXfs"@) {
                    StylesState { mode: StylesMode::InXfs, xfs_count: count_of(attrs), ..st }
                } else if is_tag(name, "indexedColors"@) {
                    StylesState { mode: StylesMode::InColors, ..st }
                } else {
                    st
                }
            },
            _ => st,
        },
        StylesMode::InFonts => match ev {
            EventV::Open { name, attrs } => {
                if is_tag(name, "font"@) {
                    StylesState { mode: StylesMode::InFont, cur_font: empty_font_rec(), ..st }
                } else {
                    st
                }
            },
            EventV::SelfClosed { name, attrs } => {
                if is_tag(name, "font"@) {
                    StylesState { fonts: st.fonts.push(empty_font_rec()), ..st }
                } else {
                    st
                }
            },
            EventV::Close { name } => {
                if is_tag(name, "fonts"@) {
                    StylesState { mode: StylesMode::Top, ..st }
                } else {
                    st
                }
            },
            _ => st,
        },
        StylesMode::InFont => match ev {
            EventV::SelfClosed { name, attrs } => {
                if is_tag(name, "sz"@) {
                    match attr_named(attrs, "val"@) {
                        Some(v) => StylesState {
                            cur_font: FontRecV { size: decoded_of(v), ..st.cur_font },
                            ..st
                        },
                        None => st,
                    }
                } else if is_tag(name, "name"@) {
                    match attr_named(attrs, "val"@) {
                        Some(v) => StylesState {
                            cur_font: FontRecV { name: decoded_of(v), ..st.cur_font },
                            ..st
                        },
                        None => st,
                    }
                } else if is_tag(name, "color"@) {
                    match color_of_attrs(attrs, attrs) {
                        Some(c) => StylesState {
                            cur_font: FontRecV { color: Some(c), ..st.cur_font },
                            ..st
                        },
                        None => st,
                    }
                } else {
                    st
                }
            },
            EventV::Close { name } => {
                if is_tag(name, "font"@) {
                    StylesState {
                        mode: StylesMode::InFonts,
                        fonts: st.fonts.push(st.cur_font),
                        cur_font: empty_font_rec(),
                        ..st
                    }
                } else {
                    st
                }
            },
            _ => st,
        },
        StylesMode::InXfs => match ev {
            EventV::Open { name, attrs } => {
                if is_tag(name, "xf"@) {
                    StylesState { xfs: st.xfs.push(xf_of_attrs(attrs)), ..st }
                } else {
                    st
                }
            },
            EventV::SelfClosed { name, attrs } => {
                if is_tag(name, "xf"@) {
                    StylesState { xfs: st.xfs.push(xf_of_attrs(attrs)), ..st }
                } else {
                    st
                }
            },
            EventV::Close { name } => {
                if is_tag(name, "cellXfs"@) {
                    StylesState { mode: StylesMode::Top, ..st }
                } else {
                    st
                }
            },
            _ => st,
        },
        StylesMode::InColors => match ev {
            EventV::SelfClosed { name, attrs } => {
                if is_tag(name, "rgbColor"@) {
                    match attr_named(attrs, "rgb"@) {
                        Some(v) => StylesState { colors: st.colors.push(decoded_of(v)), ..st },
                        None => st,
                    }
                } else {
                    st
                }
            },
            EventV::Close { name } => {
                if is_tag(name, "indexedColors"@) {
                    StylesState { mode: StylesMode::Top, ..st }
                } else {
                    st
                }
            },
            _ => st,
        },
    }
}

/// The state after interpreting the first `i` events.
pub open spec fn styles_run(events: Seq<EventV>, i: int) -> StylesState
    decreases i,
{
    if i <= 0 {
        styles_init()
    } else {
        styles_step(styles_run(events, i - 1), events[i - 1])
    }
}

/// Parses an apply flag's raw bytes.
fn parse_flag(v: &[u8]) -> (result: Option<bool>)
    ensures
        result == parsed_flag(v@),
{
    if crate::text::tag_matches(v, "1") || crate::text::tag_matches(v, "true") {
        Some(true)
    } else if crate::text::tag_matches(v, "0") || crate::text::tag_matches(v, "false") {
        Some(false)
    } else {
        None
    }
}

/// Reads a numeric attribute with a default.
fn u32_attr(attrs: &Vec<XmlAttr>, name: &str, default: u32) -> (result: u32)
    ensures
        result == u32_attr_or(attrs.deep_view(), name@, default),
{
    match crate::xml::find_attr(attrs, name) {
        Some(v) => match crate::text::parse_u32_bytes(v.as_slice()) {
            Some(x) => x,
            None => default,
        },
        None => default,
    }
}

/// Reads an apply-flag attribute.
fn bool_attr(attrs: &Vec<XmlAttr>, name: &str) -> (result: bool)
    ensures
        result == flag_attr(attrs.deep_view(), name@),
{
    match crate::xml::find_attr(attrs, name) {
        Some(v) => match parse_flag(v.as_slice()) {
            Some(b) => b,
            None => false,
        },
        None => false,
    }
}

/// Builds the cell-format record an `xf` element's attributes describe.
fn xf_from_attrs(attrs: &Vec<XmlAttr>) -> (result: Xf)
    ensures
        result == xf_of_attrs(attrs.deep_view()),
{
    Xf {
        num_fmt_id: u32_attr(attrs, "numFmtId", 0),
        font_id: u32_attr(attrs, "fontId", 0),
        fill_id: u32_attr(attrs, "fillId", 0),
        border_id: u32_attr(attrs, "borderId", 0),
        xf_id: u32_attr(attrs, "xfId", 0),
        apply_font: bool_attr(attrs, "applyFont"),
        apply_border: bool_attr(attrs, "applyBorder"),
        apply_alignment: bool_attr(attrs, "applyAlignment"),
        apply_protection: bool_attr(attrs, "applyProtection"),
    }
}

/// Reads the color a `color` element's attributes encode.
fn color_from_attrs(attrs: &Vec<XmlAttr>) -> (result: Option<Color>)
    ensures
        match result {
            Some(c) => color_of_attrs(attrs.deep_view(), attrs.deep_view()) == Some(c@),
            None => color_of_attrs(attrs.deep_view(), attrs.deep_view()) is None,
        },
{
    let ghost all = attrs.deep_view();
    let n = attrs.len();
    proof {
        assert(attrs.deep_view().skip(0) =~= attrs.deep_view());
    }
    let mut i: usize = 0;
    while i < n
        invariant
            n == attrs@.len(),
            0 <= i <= n,
            all == attrs.deep_view(),
            color_of_attrs(all, all) == color_of_attrs(all.skip(i as int), all),
        decreases n - i,
    {
        let a = &attrs[i];
        proof {
            assert(all.skip(i as int).drop_first() =~= all.skip(i + 1));
            assert(all.skip(i as int)[0] == attrs@[i as int].deep_view());
        }
        if crate::text::tag_matches(a.name.as_slice(), "rgb") {
            return Some(Color::Argb(crate::text::bytes_to_string(a.value.as_slice())));
        } else if crate::text::tag_matches(a.name.as_slice(), "theme") {
            match crate::text::parse_u32_bytes(a.value.as_slice()) {
                Some(t) => {
                    let tint: Option<String> = match crate::xml::find_attr(attrs, "tint") {
                        Some(v) => Some(crate::text::bytes_to_string(v.as_slice())),
                        None => None,
                    };
                    return Some(Color::Theme { theme: t, tint });
                },
                None => {
                    return None;
                },
            }
        } else if crate::text::tag_matches(a.name.as_slice(), "indexed") {
            match crate::text::parse_u32_bytes(a.value.as_slice()) {
                Some(x) => {
                    return Some(Color::Indexed(x));
                },
                None => {
                    return None;
                },
            }
        }
        i = i + 1;
    }
    proof {
        assert(all.skip(n as int) =~= Seq::<AttrV>::empty());
    }
    None
}

/// What loading a styles part's events yields: the three tables of
/// [`styles_run`]'s final state, or [`Error::CountMismatch`] when a
/// declared font or cell-format count does not match the records parsed.
pub open spec fn spec_load_styles(events: Seq<EventV>) -> Result<StylesV, Error> {
    let st = styles_run(events, events.len() as int);
    let fonts_ok = match st.fonts_count {
        Some(c) => c as int == st.fonts.len(),
        None => true,
    };
    let xfs_ok = match st.xfs_count {
        Some(c) => c as int == st.xfs.len(),
        None => true,
    };
    if fonts_ok && xfs_ok {
        Ok(StylesV { fonts: st.fonts, xfs: st.xfs, colors: st.colors })
    } else {
        Err(Error::CountMismatch)
    }
}

/// Streams the styles part's events into the three tables, exactly as
/// [`spec_load_styles`] says.
pub fn load_styles(events: &Vec<XmlEvent>) -> (result: Result<Styles, Error>)
    ensures
        match result {
            Ok(styles) => spec_load_styles(events.deep_view()) == Result::<StylesV, Error>::Ok(
                styles@,
            ),
            Err(e) => spec_load_styles(events.deep_view()) == Result::<StylesV, Error>::Err(e),
        },
{
    let ghost evs = events.deep_view();
    let mut mode: StylesMode = StylesMode::Top;
    let mut fonts: Vec<FontRec> = Vec::new();
    let mut xfs: Vec<Xf> = Vec::new();
    let mut colors: Vec<String> = Vec::new();
    let mut cur_font: FontRec = FontRec::empty();
    let mut fonts_count: Option<u32> = None;
    let mut xfs_count: Option<u32> = None;
    let n = events.len();
    let mut i: usize = 0;
    while i < n
        invariant
            n == events@.len(),
            evs == events.deep_view(),
            0 <= i <= n,
            ({
                let st = styles_run(evs, i as int);
                &&& st.mode == mode
                &&& st.fonts == fonts.deep_view()
                &&& st.xfs == xfs@
                &&& st.colors == colors.deep_view()
                &&& st.cur_font == cur_font@
                &&& st.fonts_count == fonts_count
                &&& st.xfs_count == xfs_count
            }),
        decreases n - i,
    {
        proof {
            assert(evs[i as int] == events@[i as int].deep_view());
        }
        let ghost pre = styles_run(evs, i as int);
        match mode {
            StylesMode::Top => {
                match &events[i] {
                    XmlEvent::Open { name, attrs } => {
                        if crate::text::tag_matches(name.as_slice(), "fonts") {
                            mode = StylesMode::InFonts;
                            fonts_count = match crate::xml::find_attr(attrs, "count") {
                                Some(v) => crate::text::parse_u32_bytes(v.as_slice()),
                                None => None,
                            };
                        } else if crate::text::tag_matches(name.as_slice(), "cellXfs") {
                            mode = StylesMode::InXfs;
                            xfs_count = match crate::xml::find_attr(attrs, "count") {
                                Some(v) => crate::text::parse_u32_bytes(v.as_slice()),
                                None => None,
                            };
                        } else if crate::text::tag_matches(name.as_slice(), "indexedColors") {
                            mode = StylesMode::InColors;
                        }
                    },
                    _ => {},
                }
            },
            StylesMode::InFonts => {
                match &events[i] {
                    XmlEvent::Open { name, .. } => {
                        if crate::text::tag_matches(name.as_slice(), "font") {
                            mode = StylesMode::InFont;
                            cur_font = FontRec::empty();
                        }
                    },
                    XmlEvent::SelfClosed { name, .. } => {
                        if crate::text::tag_matches(name.as_slice(), "font") {
                            fonts.push(FontRec::empty());
                            proof {
                                assert(fonts.deep_view() =~= pre.fonts.push(empty_font_rec()));
                            }
                        }
                    },
                    XmlEvent::Close { name } => {
                        if crate::text::tag_matches(name.as_slice(), "fonts") {
                            mode = StylesMode::Top;
                        }
                    },
                    _ => {},
                }
            },
            StylesMode::InFont => {
                match &events[i] {
                    XmlEvent::SelfClosed { name, attrs } => {
                        if crate::text::tag_matches(name.as_slice(), "sz") {
                            match crate::xml::find_attr(attrs, "val") {
                                Some(v) => {
                                    cur_font.size = crate::text::bytes_to_string(v.as_slice());
                                },
                                None => {},
                            }
                        } else if crate::text::tag_matches(name.as_slice(), "name") {
                            match crate::xml::find_attr(attrs, "val") {
                                Some(v) => {
                                    cur_font.name = crate::text::bytes_to_string(v.as_slice());
                                },
                                None => {},
                            }
                        } else if crate::text::tag_matches(name.as_slice(), "color") {
                            match color_from_attrs(attrs) {
                                Some(c) => {
                                    cur_font.color = Some(c);
                                },
                                None => {},
                            }
                        }
                    },
                    XmlEvent::Close { name } => {
                        if crate::text::tag_matches(name.as_slice(), "font") {
                            fonts.push(cur_font);
                            cur_font = FontRec::empty();
                            mode = StylesMode::InFonts;
                            proof {
                                assert(fonts.deep_view() =~= pre.fonts.push(pre.cur_font));
                            }
                        }
                    },
                    _ => {},
                }
            },
            StylesMode::InXfs => {
                match &events[i] {
                    XmlEvent::Open { name, attrs } => {
                        if crate::text::tag_matches(name.as_slice(), "xf") {
                            xfs.push(xf_from_attrs(attrs));
                        }
                    },
                    XmlEvent::SelfClosed { name, attrs } => {
                        if crate::text::tag_matches(name.as_slice(), "xf") {
                            xfs.push(xf_from_attrs(attrs));
                        }
                    },
                    XmlEvent::Close { name } => {
                        if crate::text::tag_matches(name.as_slice(), "cellXfs") {
                            mode = StylesMode::Top;
                        }
                    },
                    _ => {},
                }
            },
            StylesMode::InColors => {
                match &events[i] {
                    XmlEvent::SelfClosed { name, attrs } => {
                        if crate::text::tag_matches(name.as_slice(), "rgbColor") {
                            match crate::xml::find_attr(attrs, "rgb") {
                                Some(v) => {
                                    colors.push(crate::text::bytes_to_string(v.as_slice()));
                                    proof {
                                        assert(colors.deep_view() =~= pre.colors.push(
                                            decoded_of(v@),
                                        ));
                                    }
                                },
                                None => {},
                            }
                        }
                    },
                    XmlEvent::Close { name } => {
                        if crate::text::tag_matches(name.as_slice(), "indexedColors") {
                            mode = StylesMode::Top;
                        }
                    },
                    _ => {},
                }
            },
        }
        i = i + 1;
        proof {
            assert(styles_run(evs, i as int) == styles_step(pre, evs[i - 1]));
        }
    }
    let fonts_ok = match fonts_count {
        Some(c) => (c as usize) == fonts.len(),
        None => true,
    };
    let xfs_ok = match xfs_count {
        Some(c) => (c as usize) == xfs.len(),
        None => true,
    };
    if fonts_ok && xfs_ok {
        Ok(Styles { fonts, cell_xfs: xfs, indexed_colors: colors })
    } else {
        Err(Error::CountMismatch)
    }
}

} // verus!
