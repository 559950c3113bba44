//! The variable model: the tagged union of overlay kinds with their
//! shared geometry, and the alignment choices.
//!
//! Geometry is in milli-points, measured top-down from the page's top
//! edge; every consumer applies the bottom-up flip exactly once.

use vstd::prelude::*;

use crate::color::Color;

verus! {

/// Horizontal alignment of each wrapped line inside its box.
#[derive(Debug, Clone, Copy, PartialEq, Eq, Structural)]
pub enum TextAlignment {
    Left,
    Center,
    Right,
}

/// Vertical alignment of the wrapped block inside its box.
#[derive(Debug, Clone, Copy, PartialEq, Eq, Structural)]
pub enum VerticalAlign {
    Top,
    Middle,
    Bottom,
}

/// The geometry and identity every variable carries: a box in
/// milli-points, a 0-indexed target page, a field identifier and the raw
/// value.
pub struct VariableOptions {
    pub x: i64,
    pub y: i64,
    pub w: i64,
    pub h: i64,
    pub page: usize,
    pub field: String,
    pub value: String,
}

/// A text or signature variable with its layout choices.
pub struct TextVariable {
    pub variable: VariableOptions,
    pub font_size: Option<i64>,
    pub align_h: Option<TextAlignment>,
    pub align_v: Option<VerticalAlign>,
    pub color: Option<Color>,
    pub wrap: Option<bool>,
}

/// An image variable; its value names the payload the caller fetched.
pub struct ImageVariable {
    pub variable: VariableOptions,
}

/// The tagged union of overlay kinds.
pub enum PdfVariable {
    Text(TextVariable),
    Signature(TextVariable),
    Image(ImageVariable),
}

/// An ordered list of variables.
pub struct PdfVariableList(pub Vec<PdfVariable>);

/// A raw user-supplied value: text to draw or the name of an image.
#[derive(Debug, Clone)]
pub enum UserVariableValue {
    Text(String),
    Image(String),
}

/// The summary a finished generation reports.
#[derive(Debug, Clone)]
pub struct GeneratePdfResponse {
    pub template_name: String,
    pub template_hash: String,
    pub form_schema_hash: String,
    pub download_link: String,
    pub error: Option<String>,
}

impl PdfVariable {
    /// The 0-indexed page this variable targets.
    pub fn page_index(&self) -> (r: usize)
        ensures
            r == self.spec_page_index(),
    {
        match self {
            PdfVariable::Text(v) => v.variable.page,
            PdfVariable::Signature(v) => v.variable.page,
            PdfVariable::Image(v) => v.variable.page,
        }
    }

    /// The 0-indexed page this variable targets.
    pub open spec fn spec_page_index(self) -> usize {
        match self {
            PdfVariable::Text(v) => v.variable.page,
            PdfVariable::Signature(v) => v.variable.page,
            PdfVariable::Image(v) => v.variable.page,
        }
    }
}

} // verus!
