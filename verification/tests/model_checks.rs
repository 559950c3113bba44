//! Object-graph behavior: stripping, embedding, links, images, and the
//! most-used-size heuristic, over documents built by hand.

use pdfsnap::acroform::remove_acroforms;
use pdfsnap::document::{get_page_media_box, Document};
use pdfsnap::error::PdfError;
use pdfsnap::font_embed::embed_ttf_font;
use pdfsnap::fontsize::get_most_used_font_size;
use pdfsnap::image::{draw_image, DrawImageOptions, ImageKind};
use pdfsnap::link::{add_link, DrawLinkOptions};
use pdfsnap::object::{ContentOp, ObjectId, PdfDict, PdfObject, PdfStream, StreamData};
use std::io::Read;

fn dict(entries: Vec<(&str, PdfObject)>) -> PdfDict {
    PdfDict { entries: entries.into_iter().map(|(k, v)| (k.to_string(), v)).collect() }
}

fn page_id() -> ObjectId {
    ObjectId { num: 1, gen: 0 }
}

fn catalog_id() -> ObjectId {
    ObjectId { num: 2, gen: 0 }
}

/// A one-page document with a letter-sized media box.
fn one_page_doc() -> Document {
    let page = dict(vec![
        (
            "MediaBox",
            PdfObject::Array(vec![
                PdfObject::Int(0),
                PdfObject::Int(0),
                PdfObject::Int(612),
                PdfObject::Int(792),
            ]),
        ),
    ]);
    let catalog = dict(vec![("Type", PdfObject::Name("Catalog".to_string()))]);
    Document {
        objects: vec![
            (page_id(), PdfObject::Dict(page)),
            (catalog_id(), PdfObject::Dict(catalog)),
        ],
        trailer: dict(vec![("Root", PdfObject::Ref(catalog_id()))]),
        pages: vec![page_id()],
        max_id: 2,
        embedded_fonts: vec![],
    }
}

fn page_dict_of(doc: &Document) -> &PdfDict {
    match doc.get_object(page_id()).expect("the page must resolve") {
        PdfObject::Dict(d) => d,
        _ => panic!("the page must be a dictionary"),
    }
}

#[test]
fn media_box_reads_integer_entries_as_milli() {
    let doc = one_page_doc();
    let mb = get_page_media_box(&doc, page_id()).expect("the media box must parse");
    assert_eq!(mb, (0, 0, 612000, 792000));
}

#[test]
fn media_box_rejects_a_short_array() {
    let mut doc = one_page_doc();
    let page = dict(vec![(
        "MediaBox",
        PdfObject::Array(vec![PdfObject::Int(0), PdfObject::Int(0), PdfObject::Int(612)]),
    )]);
    doc.set_object(page_id(), PdfObject::Dict(page));
    assert_eq!(get_page_media_box(&doc, page_id()), Err(PdfError::ResourceAccess));
}

#[test]
fn stripping_removes_acroform_and_annots_and_is_a_no_op_again() {
    let mut doc = one_page_doc();
    let catalog = dict(vec![
        ("Type", PdfObject::Name("Catalog".to_string())),
        ("AcroForm", PdfObject::Ref(ObjectId { num: 9, gen: 0 })),
    ]);
    doc.set_object(catalog_id(), PdfObject::Dict(catalog));
    let page = dict(vec![
        (
            "MediaBox",
            PdfObject::Array(vec![
                PdfObject::Int(0),
                PdfObject::Int(0),
                PdfObject::Int(612),
                PdfObject::Int(792),
            ]),
        ),
        ("Annots", PdfObject::Array(vec![PdfObject::Ref(ObjectId { num: 8, gen: 0 })])),
    ]);
    doc.set_object(page_id(), PdfObject::Dict(page));

    remove_acroforms(&mut doc);
    assert!(page_dict_of(&doc).get("Annots").is_none());
    match doc.get_object(catalog_id()).expect("the catalog must resolve") {
        PdfObject::Dict(d) => assert!(d.get("AcroForm").is_none()),
        _ => panic!("the catalog must be a dictionary"),
    }
    let count_after_one = doc.objects.len();
    let page_entries_after_one = page_dict_of(&doc).entries.len();

    remove_acroforms(&mut doc);
    assert_eq!(doc.objects.len(), count_after_one);
    assert_eq!(page_dict_of(&doc).entries.len(), page_entries_after_one);
    assert!(page_dict_of(&doc).get("Annots").is_none());
}

#[test]
fn embedding_twice_registers_the_tag_once() {
    let mut doc = one_page_doc();
    let data: Vec<u8> = vec![0, 1, 0, 0];
    embed_ttf_font(&mut doc, "Flowing", "pdf-Cursive", &data).expect("the first embed succeeds");
    assert_eq!(doc.embedded_fonts.len(), 1);
    let objects_after_one = doc.objects.len();

    embed_ttf_font(&mut doc, "Flowing", "pdf-Cursive", &data).expect("the second embed succeeds");
    assert_eq!(doc.embedded_fonts.len(), 1);
    assert_eq!(doc.objects.len(), objects_after_one);
}

#[test]
fn link_appends_to_missing_and_existing_annots() {
    let mut doc = one_page_doc();
    add_link(
        &mut doc,
        page_id(),
        DrawLinkOptions { link: "https://example.com/a", x: 1000, y: 2000, w: 3000, h: 4000 },
    )
    .expect("the first link succeeds");
    let annots_len = match page_dict_of(&doc).get("Annots") {
        Some(PdfObject::Array(a)) => a.len(),
        _ => panic!("Annots must be a direct array"),
    };
    assert_eq!(annots_len, 1);

    add_link(
        &mut doc,
        page_id(),
        DrawLinkOptions { link: "https://example.com/b", x: 1000, y: 2000, w: 3000, h: 4000 },
    )
    .expect("the second link succeeds");
    let annots_len = match page_dict_of(&doc).get("Annots") {
        Some(PdfObject::Array(a)) => a.len(),
        _ => panic!("Annots must still be a direct array"),
    };
    assert_eq!(annots_len, 2);
}

/// A 1x1 24-bit BMP with one blue-ish pixel.
fn tiny_bmp() -> Vec<u8> {
    let mut v = Vec::new();
    v.extend_from_slice(b"BM");
    let row = 4u32; // one padded row
    let size = 54 + row;
    v.extend_from_slice(&size.to_le_bytes());
    v.extend_from_slice(&0u32.to_le_bytes()); // reserved
    v.extend_from_slice(&54u32.to_le_bytes()); // pixel data offset
    v.extend_from_slice(&40u32.to_le_bytes()); // info header size
    v.extend_from_slice(&1i32.to_le_bytes()); // width
    v.extend_from_slice(&1i32.to_le_bytes()); // height
    v.extend_from_slice(&1u16.to_le_bytes()); // planes
    v.extend_from_slice(&24u16.to_le_bytes()); // bits per pixel
    v.extend_from_slice(&0u32.to_le_bytes()); // compression
    v.extend_from_slice(&row.to_le_bytes()); // image size
    v.extend_from_slice(&2835u32.to_le_bytes()); // x pixels per meter
    v.extend_from_slice(&2835u32.to_le_bytes()); // y pixels per meter
    v.extend_from_slice(&0u32.to_le_bytes()); // colors used
    v.extend_from_slice(&0u32.to_le_bytes()); // important colors
    v.extend_from_slice(&[0xd0, 0x40, 0x10, 0x00]); // BGR pixel + padding
    v
}

#[test]
fn image_is_reencoded_as_deflated_rgb() {
    let mut doc = one_page_doc();
    let data = tiny_bmp();
    draw_image(
        &mut doc,
        page_id(),
        DrawImageOptions {
            image_data: &data,
            image_type: ImageKind::Bmp,
            x: 10000,
            y: 20000,
            w: 30000,
            h: 40000,
        },
    )
    .expect("the image draw succeeds");
    // The XObject stream holds the deflated raw RGB of the one pixel.
    let mut found = false;
    for (_, obj) in &doc.objects {
        if let PdfObject::Stream(s) = obj {
            if let StreamData::Raw(payload) = &s.data {
                if matches!(s.dict.get("Subtype"), Some(PdfObject::Name(n)) if n == "Image") {
                    let mut dec = flate2::read::ZlibDecoder::new(payload.as_slice());
                    let mut pixels = Vec::new();
                    dec.read_to_end(&mut pixels).expect("the payload must inflate");
                    assert_eq!(pixels, vec![0x10, 0x40, 0xd0]);
                    found = true;
                }
            }
        }
    }
    assert!(found, "an image XObject stream must exist");
    // The freshly generated resource name is 32 hexadecimal characters.
    let mut named = false;
    for (_, obj) in &doc.objects {
        if let PdfObject::Dict(d) = obj {
            if let Some(PdfObject::Dict(xobjs)) = d.get("XObject") {
                for (name, _) in &xobjs.entries {
                    assert_eq!(name.chars().count(), 32);
                    named = true;
                }
            }
        }
    }
    assert!(named, "the image must be registered under a fresh name");
}

#[test]
fn image_decode_failure_is_reported() {
    let mut doc = one_page_doc();
    let data: Vec<u8> = vec![1, 2, 3];
    let r = draw_image(
        &mut doc,
        page_id(),
        DrawImageOptions {
            image_data: &data,
            image_type: ImageKind::Png,
            x: 0,
            y: 0,
            w: 1000,
            h: 1000,
        },
    );
    assert_eq!(r, Err(PdfError::ImageDecode));
}

#[test]
fn most_used_size_tallies_shown_characters() {
    let mut doc = one_page_doc();
    let ops = vec![
        ContentOp {
            operator: "Tf".to_string(),
            operands: vec![PdfObject::Name("F1".to_string()), PdfObject::Real(14000)],
        },
        ContentOp {
            operator: "Tj".to_string(),
            operands: vec![PdfObject::Str(b"long enough run".to_vec())],
        },
        ContentOp {
            operator: "Tf".to_string(),
            operands: vec![PdfObject::Name("F1".to_string()), PdfObject::Real(9000)],
        },
        ContentOp { operator: "Tj".to_string(), operands: vec![PdfObject::Str(b"hi".to_vec())] },
    ];
    let sid = ObjectId { num: 3, gen: 0 };
    doc.objects.push((
        sid,
        PdfObject::Stream(PdfStream { dict: PdfDict { entries: vec![] }, data: StreamData::Ops(ops) }),
    ));
    doc.max_id = 3;
    let page = dict(vec![
        (
            "MediaBox",
            PdfObject::Array(vec![
                PdfObject::Int(0),
                PdfObject::Int(0),
                PdfObject::Int(612),
                PdfObject::Int(792),
            ]),
        ),
        ("Contents", PdfObject::Ref(sid)),
    ]);
    doc.set_object(page_id(), PdfObject::Dict(page));
    assert_eq!(get_most_used_font_size(&doc), 14000);
}

#[test]
fn most_used_size_defaults_to_eleven_points() {
    let doc = one_page_doc();
    assert_eq!(get_most_used_font_size(&doc), 11000);
}

#[test]
fn most_used_size_scales_by_the_text_matrix() {
    let mut doc = one_page_doc();
    let ops = vec![
        ContentOp {
            operator: "Tf".to_string(),
            operands: vec![PdfObject::Name("F1".to_string()), PdfObject::Real(10000)],
        },
        ContentOp {
            operator: "Tm".to_string(),
            operands: vec![
                PdfObject::Int(1),
                PdfObject::Int(0),
                PdfObject::Int(0),
                PdfObject::Int(2),
                PdfObject::Int(0),
                PdfObject::Int(0),
            ],
        },
        ContentOp {
            operator: "Tj".to_string(),
            operands: vec![PdfObject::Str(b"scaled".to_vec())],
        },
    ];
    let sid = ObjectId { num: 3, gen: 0 };
    doc.objects.push((
        sid,
        PdfObject::Stream(PdfStream { dict: PdfDict { entries: vec![] }, data: StreamData::Ops(ops) }),
    ));
    doc.max_id = 3;
    let page = dict(vec![
        (
            "MediaBox",
            PdfObject::Array(vec![
                PdfObject::Int(0),
                PdfObject::Int(0),
                PdfObject::Int(612),
                PdfObject::Int(792),
            ]),
        ),
        ("Contents", PdfObject::Ref(sid)),
    ]);
    doc.set_object(page_id(), PdfObject::Dict(page));
    // The 10pt Tf size under a 2x vertical scale tallies at 20pt.
    assert_eq!(get_most_used_font_size(&doc), 20000);
}
