//! Error taxonomy for the document-generation core.
//!
//! The first failure aborts the whole generation; errors carry no partial
//! output with them.

use vstd::prelude::*;

verus! {

/// Classified failures of the generation core.
#[derive(Debug, Clone, Copy, PartialEq, Eq, Structural)]
pub enum PdfError {
    /// The template could not be loaded into a document model.
    TemplateLoad,
    /// A variable's 0-indexed target page does not exist in the template.
    PageNotFound,
    /// The object graph did not have the expected shape.
    ResourceAccess,
    /// No font size in the allowed range fits the text into its box.
    FontFit,
    /// An image payload could not be decoded.
    ImageDecode,
    /// A fetch at the boundary failed (mapped in by the caller).
    Network,
}

impl PdfError {
    /// A human-readable description of the failure.
    pub fn message(&self) -> (r: String)
        ensures
            r@.len() > 0,
    {
        let s: &str = match self {
            PdfError::TemplateLoad => "Unable to load template",
            PdfError::PageNotFound => "Page not found",
            PdfError::ResourceAccess => "Unexpected object graph shape",
            PdfError::FontFit => "Unable to fit text",
            PdfError::ImageDecode => "Unable to decode image",
            PdfError::Network => "Network failure",
        };
        proof {
            reveal_strlit("Unable to load template");
            reveal_strlit("Page not found");
            reveal_strlit("Unexpected object graph shape");
            reveal_strlit("Unable to fit text");
            reveal_strlit("Unable to decode image");
            reveal_strlit("Network failure");
        }
        s.to_owned()
    }
}

/// A failure described only by a message.
#[derive(Debug)]
pub struct GenericError(pub String);

impl GenericError {
    /// The message this error carries.
    pub fn message(&self) -> (r: String)
        ensures
            r@ == self.0@,
    {
        self.0.clone()
    }
}

/// Top-level error for a whole generation request.
#[derive(Debug)]
pub struct AppError(pub String);

impl AppError {
    /// Wraps a classified core failure.
    pub fn from_pdf(e: PdfError) -> (r: AppError)
        ensures
            r.0@.len() > 0,
    {
        AppError(e.message())
    }

    /// Wraps a message-only failure.
    pub fn from_generic(e: GenericError) -> (r: AppError)
        ensures
            r.0@ == e.0@,
    {
        AppError(e.message())
    }
}

} // verus!
