//! End-to-end pipeline behavior over hand-built documents and faces.

use pdfsnap::document::Document;
use pdfsnap::error::PdfError;
use pdfsnap::fonts::{FontFace, FontRegistry};
use pdfsnap::object::{ContentOp, ObjectId, PdfDict, PdfObject, PdfStream, StreamData};
use pdfsnap::pipeline::{generate_document, ImagePayload};
use pdfsnap::util::{get_file_url, verification_code};
use pdfsnap::vars::{PdfVariable, TextVariable, VariableOptions};

fn word16(v: &mut Vec<u8>, x: u16) {
    v.push((x >> 8) as u8);
    v.push((x & 0xff) as u8);
}

fn word32(v: &mut Vec<u8>, x: u32) {
    v.push((x >> 24) as u8);
    v.push(((x >> 16) & 0xff) as u8);
    v.push(((x >> 8) & 0xff) as u8);
    v.push((x & 0xff) as u8);
}

/// The same minimal face the layout checks use: a single glyph at 1000
/// units per em, which shaping advances one full em per character.
fn simple_font() -> Vec<u8> {
    let mut head = Vec::new();
    word32(&mut head, 0x00010000);
    word32(&mut head, 0);
    word32(&mut head, 0);
    word32(&mut head, 0x5f0f3cf5);
    word16(&mut head, 0);
    word16(&mut head, 1000);
    for _ in 0..16 {
        head.push(0);
    }
    for x in [0u16, 0, 500, 700, 0, 8, 2, 0, 0] {
        word16(&mut head, x);
    }
    let mut hhea = Vec::new();
    word32(&mut hhea, 0x00010000);
    word16(&mut hhea, 700);
    word16(&mut hhea, (-200i16) as u16);
    word16(&mut hhea, 0);
    word16(&mut hhea, 500);
    for _ in 0..11 {
        word16(&mut hhea, 0);
    }
    word16(&mut hhea, 0);
    word16(&mut hhea, 1);
    let mut maxp = Vec::new();
    word32(&mut maxp, 0x00005000);
    word16(&mut maxp, 1);
    let mut hmtx = Vec::new();
    word16(&mut hmtx, 500);
    word16(&mut hmtx, 0);

    let tables: Vec<([u8; 4], Vec<u8>)> =
        vec![(*b"head", head), (*b"hhea", hhea), (*b"hmtx", hmtx), (*b"maxp", maxp)];
    let mut font = Vec::new();
    word32(&mut font, 0x00010000);
    word16(&mut font, tables.len() as u16);
    word16(&mut font, 64);
    word16(&mut font, 2);
    word16(&mut font, 0);
    let mut offset = 12 + 16 * tables.len() as u32;
    let mut records = Vec::new();
    let mut body = Vec::new();
    for (tag, data) in &tables {
        records.extend_from_slice(tag);
        word32(&mut records, 0);
        word32(&mut records, offset);
        word32(&mut records, data.len() as u32);
        offset += data.len() as u32;
        while offset % 4 != 0 {
            offset += 1;
        }
        body.extend_from_slice(data);
        while body.len() % 4 != 0 {
            body.push(0);
        }
    }
    font.extend_from_slice(&records);
    font.extend_from_slice(&body);
    font
}

fn simple_registry() -> FontRegistry {
    let mut faces = Vec::new();
    for _ in 0..17 {
        faces.push(FontFace::parse(simple_font()).expect("the face must parse"));
    }
    FontRegistry::new(faces).expect("seventeen faces build a registry")
}

fn letter_page(num: u32) -> (ObjectId, PdfObject) {
    let id = ObjectId { num, gen: 0 };
    let d = PdfDict {
        entries: vec![(
            "MediaBox".to_string(),
            PdfObject::Array(vec![
                PdfObject::Int(0),
                PdfObject::Int(0),
                PdfObject::Int(612),
                PdfObject::Int(792),
            ]),
        )],
    };
    (id, PdfObject::Dict(d))
}

fn doc_with_pages(n: u32) -> Document {
    let mut objects = Vec::new();
    let mut pages = Vec::new();
    for k in 1..=n {
        let (id, obj) = letter_page(k);
        objects.push((id, obj));
        pages.push(id);
    }
    let catalog_id = ObjectId { num: n + 1, gen: 0 };
    objects.push((
        catalog_id,
        PdfObject::Dict(PdfDict {
            entries: vec![("Type".to_string(), PdfObject::Name("Catalog".to_string()))],
        }),
    ));
    Document {
        objects,
        trailer: PdfDict { entries: vec![("Root".to_string(), PdfObject::Ref(catalog_id))] },
        pages,
        max_id: n + 1,
        embedded_fonts: vec![],
    }
}

fn text_variable(page: usize, value: &str, wrap: bool) -> PdfVariable {
    PdfVariable::Text(TextVariable {
        variable: VariableOptions {
            x: 100000,
            y: 100000,
            w: 200000,
            h: 50000,
            page,
            field: "field".to_string(),
            value: value.to_string(),
        },
        font_size: Some(12000),
        align_h: None,
        align_v: None,
        color: None,
        wrap: Some(wrap),
    })
}

#[test]
fn out_of_range_page_fails_before_any_content() {
    let doc = doc_with_pages(2);
    let objects_before = doc.objects.len();
    let registry = simple_registry();
    let vars = vec![text_variable(5, "Hello World", true)];
    let r = generate_document(
        doc,
        &registry,
        &simple_font(),
        &vars,
        &vec![],
        false,
        0,
        &vec![],
        &vec![],
    );
    match r {
        Err(e) => assert_eq!(e, PdfError::PageNotFound),
        Ok(_) => panic!("a page past the last must be refused"),
    }
    // The input was consumed; rebuild one to show what it looked like.
    assert_eq!(doc_with_pages(2).objects.len(), objects_before);
}

/// The shown operators of every content stream of a document, in object
/// order.
fn content_ops(doc: &Document) -> Vec<ContentOp> {
    let mut out = Vec::new();
    for (_, obj) in &doc.objects {
        if let PdfObject::Stream(PdfStream { data: StreamData::Ops(ops), .. }) = obj {
            for op in ops {
                out.push(ContentOp {
                    operator: op.operator.clone(),
                    operands: Vec::new(),
                });
            }
        }
    }
    out
}

#[test]
fn wrapped_text_emits_one_show_per_line() {
    let doc = doc_with_pages(1);
    let registry = simple_registry();
    let vars = vec![text_variable(0, "Hello World", true)];
    let r = generate_document(
        doc,
        &registry,
        &simple_font(),
        &vars,
        &vec![],
        false,
        0,
        &vec![],
        &vec![],
    );
    let out = r.expect("an in-range text variable must draw");
    let ops = content_ops(&out);
    let tf = ops.iter().filter(|o| o.operator == "Tf").count();
    let tm = ops.iter().filter(|o| o.operator == "Tm").count();
    let tj = ops.iter().filter(|o| o.operator == "Tj").count();
    assert!(tf >= 1, "a font-select operator must be present");
    assert!(tm >= 1, "a text-matrix operator must be present");
    // "Hello World" is 11 characters of one em each at 12pt: 132pt wide,
    // within the 200pt box, so exactly one line is shown.
    assert_eq!(tj, 1);
}

#[test]
fn footer_adds_a_link_and_a_caption_to_every_page() {
    let doc = doc_with_pages(2);
    let registry = simple_registry();
    let r = generate_document(
        doc,
        &registry,
        &simple_font(),
        &vec![],
        &vec![],
        true,
        5,
        &b"123456789".to_vec(),
        &b"123456789".to_vec(),
    );
    let out = r.expect("the footer pass must succeed");
    let mut annots = 0;
    for (_, obj) in &out.objects {
        if let PdfObject::Dict(d) = obj {
            if let Some(PdfObject::Array(a)) = d.get("Annots") {
                annots += a.len();
            }
        }
    }
    assert_eq!(annots, 2);
    let ops = content_ops(&out);
    assert_eq!(ops.iter().filter(|o| o.operator == "Tj").count(), 2);
}

#[test]
fn verification_code_uses_the_known_crc() {
    // The CRC-32 of "123456789" is the classic check value 0xcbf43926.
    let code = verification_code(5, &b"123456789".to_vec(), &b"123456789".to_vec());
    assert_eq!(code, "5-cbf43926-cbf43926");
    let code = verification_code(1700000000, &b"123456789".to_vec(), &vec![]);
    assert!(code.starts_with("1700000000-cbf43926-"));
}

#[test]
fn file_url_expands_each_marker_once() {
    assert_eq!(get_file_url("https://cdn/%b/%f?raw=%%20", "doc.pdf", "files"),
        "https://cdn/files/doc.pdf?raw=%20");
    assert_eq!(get_file_url("%f%f", "a", "b"), "aa");
    assert_eq!(get_file_url("no markers", "a", "b"), "no markers");
}

#[test]
fn signature_embeds_the_cursive_face_once() {
    let doc = doc_with_pages(1);
    let registry = simple_registry();
    let sig = |value: &str| {
        PdfVariable::Signature(TextVariable {
            variable: VariableOptions {
                x: 100000,
                y: 100000,
                w: 300000,
                h: 60000,
                page: 0,
                field: "sig".to_string(),
                value: value.to_string(),
            },
            font_size: Some(12000),
            align_h: None,
            align_v: None,
            color: None,
            wrap: None,
        })
    };
    let vars = vec![sig("Jane"), sig("Joe")];
    let r = generate_document(
        doc,
        &registry,
        &simple_font(),
        &vars,
        &vec![],
        false,
        0,
        &vec![],
        &vec![],
    );
    let out = r.expect("signatures must draw");
    assert_eq!(out.embedded_fonts.len(), 1);
    assert_eq!(out.embedded_fonts[0], "pdf-Cursive");
}

#[test]
fn unfittable_text_reports_the_font_fit_failure() {
    let doc = doc_with_pages(1);
    let registry = simple_registry();
    // wrap: false selects the fitting policy; a 1x1 milli box admits no
    // size at the floor.
    let mut var = text_variable(0, "Hello World", false);
    if let PdfVariable::Text(t) = &mut var {
        t.variable.w = 1;
        t.variable.h = 1;
    }
    let r = generate_document(
        doc,
        &registry,
        &simple_font(),
        &vec![var],
        &vec![],
        false,
        0,
        &vec![],
        &vec![],
    );
    match r {
        Err(e) => assert_eq!(e, PdfError::FontFit),
        Ok(_) => panic!("a degenerate box must refuse to fit"),
    }
}

#[test]
fn omitted_font_size_falls_back_to_the_template_default() {
    let mut doc = doc_with_pages(1);
    // A content stream showing text at 14pt makes that the dominant size.
    let sid = ObjectId { num: 3, gen: 0 };
    doc.objects.push((
        sid,
        PdfObject::Stream(PdfStream {
            dict: PdfDict { entries: vec![] },
            data: StreamData::Ops(vec![
                ContentOp {
                    operator: "Tf".to_string(),
                    operands: vec![PdfObject::Name("F1".to_string()), PdfObject::Real(14000)],
                },
                ContentOp {
                    operator: "Tj".to_string(),
                    operands: vec![PdfObject::Str(b"body text".to_vec())],
                },
            ]),
        }),
    ));
    doc.max_id = 3;
    let page_id = doc.pages[0];
    if let Some((_, PdfObject::Dict(d))) = doc.objects.iter_mut().find(|(id, _)| *id == page_id) {
        d.entries.push(("Contents".to_string(), PdfObject::Ref(sid)));
    }
    let registry = simple_registry();
    let mut var = text_variable(0, "Hi", true);
    if let PdfVariable::Text(t) = &mut var {
        t.font_size = None;
    }
    let r = generate_document(
        doc,
        &registry,
        &simple_font(),
        &vec![var],
        &vec![],
        false,
        0,
        &vec![],
        &vec![],
    );
    let out = r.expect("the default size must draw");
    // The drawn run selects the template's dominant 14pt size.
    let mut found = false;
    for (_, obj) in &out.objects {
        if let PdfObject::Stream(PdfStream { data: StreamData::Ops(ops), .. }) = obj {
            for op in ops {
                if op.operator == "Tf" && op.operands.len() == 2 {
                    if let PdfObject::Real(s) = op.operands[1] {
                        if s == 14000 {
                            found = true;
                        }
                    }
                }
            }
        }
    }
    assert!(found, "a run at the dominant size must be drawn");
}
