//! The error taxonomy and its messages.

use pdfsnap::error::{AppError, GenericError, PdfError};
use pdfsnap::vars::{GeneratePdfResponse, PdfVariableList, UserVariableValue};

#[test]
fn every_failure_has_a_message() {
    let all = [
        PdfError::TemplateLoad,
        PdfError::PageNotFound,
        PdfError::ResourceAccess,
        PdfError::FontFit,
        PdfError::ImageDecode,
        PdfError::Network,
    ];
    for e in all {
        assert!(!e.message().is_empty());
    }
    assert_eq!(PdfError::PageNotFound.message(), "Page not found");
}

#[test]
fn wrapped_errors_keep_their_message() {
    let g = GenericError("the shape was wrong".to_string());
    assert_eq!(g.message(), "the shape was wrong");
    let a = AppError::from_generic(g);
    assert_eq!(a.0, "the shape was wrong");
    let a = AppError::from_pdf(PdfError::FontFit);
    assert_eq!(a.0, "Unable to fit text");
}

#[test]
fn value_kinds_carry_their_text() {
    let vals = PdfVariableList(vec![]);
    assert_eq!(vals.0.len(), 0);
    match UserVariableValue::Text("hi".to_string()) {
        UserVariableValue::Text(t) => assert_eq!(t, "hi"),
        UserVariableValue::Image(_) => panic!("a text value must stay text"),
    }
    let r = GeneratePdfResponse {
        template_name: "t.pdf".to_string(),
        template_hash: "0".to_string(),
        form_schema_hash: "0".to_string(),
        download_link: "file://x".to_string(),
        error: None,
    };
    assert!(r.error.is_none());
}
