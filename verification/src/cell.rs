//! Cells and resolved fonts.
//!
//! A cell owns a copy of its text: once decoded it stays valid however long
//! the shared string table or the style tables live.  A font's size is kept
//! as the decimal text found in the document, since the core never computes
//! with it.

use vstd::prelude::*;

verus! {

/// The decoded type of a cell value.  Untyped cells default to `Number`.
#[derive(Clone, Copy, Debug, PartialEq, Eq, Structural)]
pub enum Type {
    Number,
    String,
    Formula,
}

/// Mathematical view of a [`Font`].
pub struct FontV {
    pub name: Seq<char>,
    pub size: Seq<char>,
    pub color: Seq<char>,
}

/// A resolved display font: name, size (as its source text) and an ARGB
/// color string.
#[derive(Debug)]
pub struct Font {
    name: String,
    size: String,
    color: String,
}

impl View for Font {
    type V = FontV;

    closed spec fn view(&self) -> FontV {
        FontV { name: self.name@, size: self.size@, color: self.color@ }
    }
}

/// The hard-coded fallback font: Arial, size 12, opaque black.
pub open spec fn spec_default_font() -> FontV {
    FontV { name: "Arial"@, size: "12"@, color: "FF000000"@ }
}

impl Font {
    /// Builds a font from its parts.
    pub fn from_parts(name: String, size: String, color: String) -> (result: Font)
        ensures
            result@ == (FontV { name: name@, size: size@, color: color@ }),
    {
        Font { name, size, color }
    }

    /// The fallback font used wherever style resolution misses.
    pub fn fallback() -> (result: Font)
        ensures
            result@ == spec_default_font(),
    {
        Font { name: "Arial".to_owned(), size: "12".to_owned(), color: "FF000000".to_owned() }
    }

    /// The font name.
    pub fn name(&self) -> (result: &str)
        ensures
            result@ == self@.name,
    {
        self.name.as_str()
    }

    /// The font size, as the decimal text it had in the document.
    pub fn size_text(&self) -> (result: &str)
        ensures
            result@ == self@.size,
    {
        self.size.as_str()
    }

    /// The full color string, alpha channel included.
    pub fn argb(&self) -> (result: &str)
        ensures
            result@ == self@.color,
    {
        self.color.as_str()
    }

    /// The color string without its two leading alpha characters, or the
    /// whole string when it is shorter than that.
    pub fn rgb(&self) -> (result: &str)
        ensures
            self@.color.len() >= 2 ==> result@ == self@.color.skip(2),
            self@.color.len() < 2 ==> result@ == self@.color,
    {
        let s = self.color.as_str();
        let n = s.unicode_len();
        if n >= 2 {
            let r = s.substring_char(2, n);
            proof {
                assert(r@ =~= self@.color.skip(2));
            }
            r
        } else {
            s
        }
    }
}

impl Clone for Font {
    fn clone(&self) -> (result: Self)
        ensures
            result == *self,
    {
        Font { name: self.name.clone(), size: self.size.clone(), color: self.color.clone() }
    }
}

/// Mathematical view of a [`Cell`].
pub struct CellV {
    pub value: Option<Seq<char>>,
    pub cell_type: Option<Type>,
    pub column: int,
    pub row: int,
    pub font: FontV,
}

/// An empty cell stamped with its position, as grid growth creates it.
pub open spec fn spec_empty_cell(column: int, row: int) -> CellV {
    CellV { value: None, cell_type: None, column, row, font: spec_default_font() }
}

/// One spreadsheet cell: a zero-based position, an optional text value with
/// its decoded type, and the resolved font.
#[derive(Debug)]
pub struct Cell {
    value: Option<String>,
    cell_type: Option<Type>,
    column: u32,
    row: u32,
    font: Font,
}

impl DeepView for Cell {
    type V = CellV;

    open spec fn deep_view(&self) -> CellV {
        self.view()
    }
}

impl View for Cell {
    type V = CellV;

    closed spec fn view(&self) -> CellV {
        CellV {
            value: match self.value {
                Some(s) => Some(s@),
                None => None,
            },
            cell_type: self.cell_type,
            column: self.column as int,
            row: self.row as int,
            font: self.font@,
        }
    }
}

impl CellV {
    /// A value is never present without its type.
    pub open spec fn wf(self) -> bool {
        self.value is Some ==> self.cell_type is Some
    }
}

impl Cell {
    /// Creates an empty cell at the given position, with the fallback font.
    pub fn new(column: u32, row: u32) -> (result: Cell)
        ensures
            result@ == spec_empty_cell(column as int, row as int),
    {
        Cell { value: None, cell_type: None, column, row, font: Font::fallback() }
    }

    /// Builds a decoded cell from its parts.
    pub fn from_parts(
        column: u32,
        row: u32,
        value: Option<String>,
        cell_type: Option<Type>,
        font: Font,
    ) -> (result: Cell)
        requires
            value is Some ==> cell_type is Some,
        ensures
            result@ == (CellV {
                value: match value {
                    Some(s) => Some(s@),
                    None => None,
                },
                cell_type: cell_type,
                column: column as int,
                row: row as int,
                font: font@,
            }),
            result@.wf(),
    {
        Cell { value, cell_type, column, row, font }
    }

    /// The cell's text, if its source element carried a value.
    pub fn value(&self) -> (result: Option<&str>)
        ensures
            match result {
                Some(s) => self@.value matches Some(v) && s@ == v,
                None => self@.value is None,
            },
    {
        match &self.value {
            Some(v) => Some(v.as_str()),
            None => None,
        }
    }

    /// The cell's decoded type, if any.
    pub fn cell_type(&self) -> (result: Option<Type>)
        ensures
            result == self@.cell_type,
    {
        self.cell_type
    }

    /// The zero-based column.
    pub fn column(&self) -> (result: u32)
        ensures
            result == self@.column,
    {
        self.column
    }

    /// The zero-based row.
    pub fn row(&self) -> (result: u32)
        ensures
            result == self@.row,
    {
        self.row
    }

    /// The cell's resolved font.
    pub fn font(&self) -> (result: &Font)
        ensures
            result@ == self@.font,
    {
        &self.font
    }
}

impl Clone for Cell {
    fn clone(&self) -> (result: Self)
        ensures
            result == *self,
    {
        Cell {
            value: match &self.value {
                Some(s) => Some(s.clone()),
                None => None,
            },
            cell_type: self.cell_type,
            column: self.column,
            row: self.row,
            font: self.font.clone(),
        }
    }
}


/// A plain value that can become a cell's text with its decoded type.
/// Numeric kinds format as decimal text and carry `Type::Number`; text
/// kinds are kept as they are and carry `Type::String`.
pub trait IntoCellValue: Sized {
    /// The text the value becomes.
    spec fn spec_text(self) -> Seq<char>;

    /// The type the value carries.
    spec fn spec_type(self) -> Type;

    /// Turns the value into the cell's text and type.
    fn into_cell_value(self) -> (result: (String, Type))
        ensures
            result.0@ == self.spec_text(),
            result.1 == self.spec_type(),
    ;
}

impl IntoCellValue for u32 {
    open spec fn spec_text(self) -> Seq<char> {
        crate::text::chars_of(crate::text::dec_text_signed(self as int))
    }

    open spec fn spec_type(self) -> Type {
        Type::Number
    }

    fn into_cell_value(self) -> (result: (String, Type))
        ensures
            result.0@ == self.spec_text(),
            result.1 == self.spec_type(),
    {
        proof {
            crate::text::lemma_dec_text_signed_ascii(self as int);
        }
        let digits = crate::text::decimal_bytes(self as u64);
        (crate::text::bytes_to_string(digits.as_slice()), Type::Number)
    }
}

impl IntoCellValue for u64 {
    open spec fn spec_text(self) -> Seq<char> {
        crate::text::chars_of(crate::text::dec_text_signed(self as int))
    }

    open spec fn spec_type(self) -> Type {
        Type::Number
    }

    fn into_cell_value(self) -> (result: (String, Type))
        ensures
            result.0@ == self.spec_text(),
            result.1 == self.spec_type(),
    {
        proof {
            crate::text::lemma_dec_text_signed_ascii(self as int);
        }
        let digits = crate::text::decimal_bytes(self);
        (crate::text::bytes_to_string(digits.as_slice()), Type::Number)
    }
}

impl IntoCellValue for usize {
    open spec fn spec_text(self) -> Seq<char> {
        crate::text::chars_of(crate::text::dec_text_signed(self as int))
    }

    open spec fn spec_type(self) -> Type {
        Type::Number
    }

    fn into_cell_value(self) -> (result: (String, Type))
        ensures
            result.0@ == self.spec_text(),
            result.1 == self.spec_type(),
    {
        proof {
            crate::text::lemma_dec_text_signed_ascii(self as int);
        }
        let digits = crate::text::decimal_bytes(self as u64);
        (crate::text::bytes_to_string(digits.as_slice()), Type::Number)
    }
}

impl IntoCellValue for i32 {
    open spec fn spec_text(self) -> Seq<char> {
        crate::text::chars_of(crate::text::dec_text_signed(self as int))
    }

    open spec fn spec_type(self) -> Type {
        Type::Number
    }

    fn into_cell_value(self) -> (result: (String, Type))
        ensures
            result.0@ == self.spec_text(),
            result.1 == self.spec_type(),
    {
        proof {
            crate::text::lemma_dec_text_signed_ascii(self as int);
        }
        let digits = crate::text::decimal_bytes_signed(self as i64);
        (crate::text::bytes_to_string(digits.as_slice()), Type::Number)
    }
}

impl IntoCellValue for i64 {
    open spec fn spec_text(self) -> Seq<char> {
        crate::text::chars_of(crate::text::dec_text_signed(self as int))
    }

    open spec fn spec_type(self) -> Type {
        Type::Number
    }

    fn into_cell_value(self) -> (result: (String, Type))
        ensures
            result.0@ == self.spec_text(),
            result.1 == self.spec_type(),
    {
        proof {
            crate::text::lemma_dec_text_signed_ascii(self as int);
        }
        let digits = crate::text::decimal_bytes_signed(self);
        (crate::text::bytes_to_string(digits.as_slice()), Type::Number)
    }
}

impl IntoCellValue for isize {
    open spec fn spec_text(self) -> Seq<char> {
        crate::text::chars_of(crate::text::dec_text_signed(self as int))
    }

    open spec fn spec_type(self) -> Type {
        Type::Number
    }

    fn into_cell_value(self) -> (result: (String, Type))
        ensures
            result.0@ == self.spec_text(),
            result.1 == self.spec_type(),
    {
        proof {
            crate::text::lemma_dec_text_signed_ascii(self as int);
        }
        let digits = crate::text::decimal_bytes_signed(self as i64);
        (crate::text::bytes_to_string(digits.as_slice()), Type::Number)
    }
}

impl IntoCellValue for &str {
    open spec fn spec_text(self) -> Seq<char> {
        self@
    }

    open spec fn spec_type(self) -> Type {
        Type::String
    }

    fn into_cell_value(self) -> (result: (String, Type))
        ensures
            result.0@ == self.spec_text(),
            result.1 == self.spec_type(),
    {
        (self.to_owned(), Type::String)
    }
}

impl IntoCellValue for String {
    open spec fn spec_text(self) -> Seq<char> {
        self@
    }

    open spec fn spec_type(self) -> Type {
        Type::String
    }

    fn into_cell_value(self) -> (result: (String, Type))
        ensures
            result.0@ == self.spec_text(),
            result.1 == self.spec_type(),
    {
        (self, Type::String)
    }
}

impl Cell {
    /// Replaces the cell's value and type with what a plain value
    /// carries.
    pub fn insert_value<V: IntoCellValue>(&mut self, value: V)
        ensures
            final(self)@ == (CellV {
                value: Some(value.spec_text()),
                cell_type: Some(value.spec_type()),
                ..old(self)@
            }),
    {
        let (text, t) = value.into_cell_value();
        self.cell_type = Some(t);
        self.value = Some(text);
    }
}

} // verus!
