//! Image drawing: decoding to raw pixels, re-encoding, and the XObject
//! placement block.
//!
//! JPEG payloads pass through behind a DCT filter; any other format is
//! re-encoded as deflate-compressed raw RGB behind a Flate filter. The
//! XObject is registered under a freshly generated name, so the final
//! document is pinned down up to that name alone.

use std::io::Write;
use vstd::prelude::*;

use crate::document::{
    append_content_spec, media_box_of, get_page_media_box, resources_of, DocV, Document,
};
use crate::error::PdfError;
use crate::fontsize::clamp_i64;
use crate::object::{
    dict_get, dict_set, lemma_entries_view, lemma_objs_view, objs_view, ops_view, ContentOp,
    DataV, ObjV, ObjectId, OpV, PdfDict, PdfObject, PdfStream, StreamData,
};

verus! {

/// The image formats the decoder is handed, mapped from the payload's
/// declared MIME type by the caller.
#[derive(Debug, Clone, Copy, PartialEq, Eq, Structural)]
pub enum ImageKind {
    Jpeg,
    Png,
    Gif,
    WebP,
    Bmp,
    Tiff,
    Ico,
}

/// What an image payload decodes to: its pixel dimensions and its raw
/// 8-bit RGB bytes, three per pixel.
pub uninterp spec fn decoded_rgb_of(data: Seq<u8>, kind: ImageKind) -> Option<
    (u32, u32, Seq<u8>),
>;

/// What deflate-compressing a buffer yields.
pub uninterp spec fn deflate_of(data: Seq<u8>) -> Seq<u8>;

/// Relies on image::load_from_memory_with_format and DynamicImage::to_rgb8:
/// decoding depends on the bytes and the declared format alone, and the
/// RGB8 buffer holds three bytes per pixel of the decoded dimensions.
#[verifier::external_body]
fn decode_image_rgb(data: &[u8], kind: ImageKind) -> (r: Option<(u32, u32, Vec<u8>)>)
    ensures
        r is Some <==> decoded_rgb_of(data@, kind) is Some,
        r is Some ==> ({
            let d = decoded_rgb_of(data@, kind)->0;
            let t = r->0;
            t.0 == d.0 && t.1 == d.1 && t.2@ == d.2 && d.2.len() == 3 * d.0 * d.1
        }),
{
    let format = match kind {
        ImageKind::Jpeg => image::ImageFormat::Jpeg,
        ImageKind::Png => image::ImageFormat::Png,
        ImageKind::Gif => image::ImageFormat::Gif,
        ImageKind::WebP => image::ImageFormat::WebP,
        ImageKind::Bmp => image::ImageFormat::Bmp,
        ImageKind::Tiff => image::ImageFormat::Tiff,
        ImageKind::Ico => image::ImageFormat::Ico,
    };
    let img = image::load_from_memory_with_format(data, format).ok()?;
    Some((img.width(), img.height(), img.to_rgb8().into_raw()))
}

/// Relies on flate2's ZlibEncoder at best compression: the output depends
/// on the input bytes alone, and writing into a Vec cannot fail.
#[verifier::external_body]
fn deflate_bytes(data: &[u8]) -> (r: Vec<u8>)
    ensures
        r@ == deflate_of(data@),
{
    let mut encoder = flate2::write::ZlibEncoder::new(Vec::new(), flate2::Compression::best());
    encoder.write_all(data).unwrap();
    encoder.finish().unwrap()
}

/// Relies on uuid::Uuid::now_v7 and its hyphenated lowercase form: with
/// the hyphens removed, exactly 32 characters remain.
#[verifier::external_body]
fn fresh_image_name() -> (r: String)
    ensures
        r@.len() == 32,
{
    uuid::Uuid::now_v7().to_string().replace('-', "")
}

/// Where an image goes: the fetched payload, its declared format, and the
/// box in milli-points with y measured top-down.
pub struct DrawImageOptions<'a> {
    pub image_data: &'a Vec<u8>,
    pub image_type: ImageKind,
    pub x: i64,
    pub y: i64,
    pub w: i64,
    pub h: i64,
}

/// The entries of an image XObject stream dictionary.
pub open spec fn image_stream_dict(kind: ImageKind, iw: int, ih: int) -> Seq<(Seq<char>, ObjV)> {
    seq![
        ("Type"@, ObjV::Name("XObject"@)),
        ("Subtype"@, ObjV::Name("Image"@)),
        ("Width"@, ObjV::Int(iw)),
        ("Height"@, ObjV::Int(ih)),
        ("ColorSpace"@, ObjV::Name("DeviceRGB"@)),
        ("BitsPerComponent"@, ObjV::Int(8)),
        (
            "Filter"@,
            ObjV::Name(
                if kind is Jpeg {
                    "DCTDecode"@
                } else {
                    "FlateDecode"@
                },
            ),
        ),
    ]
}

/// The stream payload an image carries: JPEG bytes as they came, anything
/// else deflate-compressed raw RGB.
pub open spec fn image_payload(data: Seq<u8>, kind: ImageKind) -> Seq<u8> {
    if kind is Jpeg {
        data
    } else {
        let dec = decoded_rgb_of(data, kind)->0;
        deflate_of(dec.2)
    }
}

/// The save-scale-paint-restore block that places an image.
pub open spec fn image_ops(nm: Seq<char>, ph: int, x: int, y: int, w: int, h: int) -> Seq<OpV> {
    seq![
        OpV { op: "q"@, args: Seq::empty() },
        OpV {
            op: "cm"@,
            args: seq![
                ObjV::Real(w),
                ObjV::Int(0),
                ObjV::Int(0),
                ObjV::Real(h),
                ObjV::Real(x),
                ObjV::Real(clamp_i64(ph - y - h)),
            ],
        },
        OpV { op: "Do"@, args: seq![ObjV::Name(nm)] },
        OpV { op: "Q"@, args: Seq::empty() },
    ]
}

/// The failures the image path can hit before any name is drawn: a page
/// without a media box or resources, a payload that does not decode, an
/// XObject entry that is not a dictionary, or a spent id counter.
pub open spec fn draw_image_checks(d: DocV, page: ObjectId, data: Seq<u8>, kind: ImageKind)
    -> Result<(), PdfError> {
    if media_box_of(d, page) is None {
        Err(PdfError::ResourceAccess)
    } else if resources_of(d, page) is None {
        Err(PdfError::ResourceAccess)
    } else if decoded_rgb_of(data, kind) is None {
        Err(PdfError::ImageDecode)
    } else if !(match dict_get(resources_of(d, page)->0, "XObject"@) {
        None => true,
        Some(ObjV::Dict(_)) => true,
        Some(_) => false,
    }) {
        Err(PdfError::ResourceAccess)
    } else if d.max_id >= 0xffff_fff0 {
        Err(PdfError::ResourceAccess)
    } else {
        Ok(())
    }
}

/// What drawing an image under a chosen resource name does: the XObject
/// stream is added, the page's resources are replaced by a fresh indirect
/// dictionary whose XObject table maps the name to it, and the placement
/// block is appended to the page's content.
pub open spec fn draw_image_with_name(
    d: DocV,
    page: ObjectId,
    data: Seq<u8>,
    kind: ImageKind,
    nm: Seq<char>,
    x: int,
    y: int,
    w: int,
    h: int,
) -> Result<DocV, PdfError> {
    let mb = media_box_of(d, page)->0;
    let res = resources_of(d, page)->0;
    let dec = decoded_rgb_of(data, kind)->0;
    let sid = d.next_id();
    let d1 = d.with_added(
        ObjV::Stream(
            image_stream_dict(kind, dec.0 as int, dec.1 as int),
            DataV::Raw(image_payload(data, kind)),
        ),
    );
    let xobjs = match dict_get(res, "XObject"@) {
        Some(ObjV::Dict(f)) => f,
        _ => Seq::<(Seq<char>, ObjV)>::empty(),
    };
    let res2 = dict_set(res, "XObject"@, ObjV::Dict(dict_set(xobjs, nm, ObjV::Ref(sid))));
    let rid = d1.next_id();
    let d2 = d1.with_added(ObjV::Dict(res2));
    match d2.get_obj(page) {
        Some(ObjV::Dict(es)) => {
            let d3 = d2.with_obj(page, ObjV::Dict(dict_set(es, "Resources"@, ObjV::Ref(rid))));
            append_content_spec(d3, page, image_ops(nm, mb.3, x, y, w, h))
        },
        _ => Err(PdfError::ResourceAccess),
    }
}

/// Draws an image into a box of the page: decoded to raw pixels, wrapped
/// as an XObject stream, registered under a freshly generated name, and
/// painted with the flipped placement block. The final document is
/// `draw_image_with_name` at some 32-character name. Should the fresh
/// name already appear in the page's XObject table — possible only if the
/// template itself used such a tag — the entry under it is replaced, as
/// `dict_set` states.
pub fn draw_image(
    document: &mut Document,
    page: ObjectId,
    options: DrawImageOptions<'_>,
) -> (r: Result<(), PdfError>)
    ensures
        ({
            let checks = draw_image_checks(
                old(document)@,
                page,
                options.image_data@,
                options.image_type,
            );
            &&& (checks is Err ==> r == Err::<(), PdfError>(checks->Err_0))
            &&& (checks is Ok ==> r is Ok)
            &&& (r is Err ==> final(document)@ == old(document)@)
            &&& (r is Ok ==> checks is Ok)
            &&& (r is Ok ==> exists|nm: Seq<char>|
                nm.len() == 32 && #[trigger] draw_image_with_name(
                    old(document)@,
                    page,
                    options.image_data@,
                    options.image_type,
                    nm,
                    options.x as int,
                    options.y as int,
                    options.w as int,
                    options.h as int,
                ) == Ok::<DocV, PdfError>(final(document)@))
        }),
{
    let ghost d0 = document@;
    let mb = match get_page_media_box(document, page) {
        Ok(b) => b,
        Err(e) => {
            return Err(e);
        },
    };
    let res = match document.fetch_resources(page) {
        Ok(d) => d,
        Err(e) => {
            return Err(e);
        },
    };
    let dec = match decode_image_rgb(options.image_data.as_slice(), options.image_type) {
        Some(t) => t,
        None => {
            return Err(PdfError::ImageDecode);
        },
    };
    let xobjs: PdfDict = match res.get("XObject") {
        None => PdfDict::new(),
        Some(PdfObject::Dict(f)) => crate::object::clone_dict(f),
        Some(_) => {
            return Err(PdfError::ResourceAccess);
        },
    };
    if !(document.max_id < 0xffff_fff0) {
        return Err(PdfError::ResourceAccess);
    }
    let is_jpeg = match options.image_type {
        ImageKind::Jpeg => true,
        _ => false,
    };
    let payload: Vec<u8> = if is_jpeg {
        crate::object::clone_bytes(options.image_data)
    } else {
        deflate_bytes(dec.2.as_slice())
    };
    let mut sentries: Vec<(String, PdfObject)> = Vec::new();
    sentries.push(("Type".to_owned(), PdfObject::Name("XObject".to_owned())));
    sentries.push(("Subtype".to_owned(), PdfObject::Name("Image".to_owned())));
    sentries.push(("Width".to_owned(), PdfObject::Int(dec.0 as i64)));
    sentries.push(("Height".to_owned(), PdfObject::Int(dec.1 as i64)));
    sentries.push(("ColorSpace".to_owned(), PdfObject::Name("DeviceRGB".to_owned())));
    sentries.push(("BitsPerComponent".to_owned(), PdfObject::Int(8)));
    sentries.push(
        (
            "Filter".to_owned(),
            PdfObject::Name(
                if is_jpeg {
                    "DCTDecode".to_owned()
                } else {
                    "FlateDecode".to_owned()
                },
            ),
        ),
    );
    let ghost sev = sentries@;
    let sdict = PdfDict { entries: sentries };
    proof {
        lemma_entries_view(sev);
        assert(sdict@ =~= image_stream_dict(options.image_type, dec.0 as int, dec.1 as int));
    }
    let stream_obj = PdfObject::Stream(PdfStream { dict: sdict, data: StreamData::Raw(payload) });
    let ghost sv = stream_obj@;
    let sid = document.add_object(stream_obj);
    let ghost dmid1 = document@;
    let nm = fresh_image_name();
    let mut xobjs = xobjs;
    xobjs.set(nm.as_str(), PdfObject::Ref(sid));
    let mut res2 = res;
    res2.set("XObject", PdfObject::Dict(xobjs));
    let res_obj = PdfObject::Dict(res2);
    let ghost rv = res_obj@;
    let rid = document.add_object(res_obj);
    proof {
        // The page resolved to a dictionary before the two fresh objects
        // were pushed, and pushing cannot change what an existing handle
        // resolves to.
        assert(draw_image_checks(d0, page, options.image_data@, options.image_type) is Ok);
        assert(d0.get_obj(page) matches Some(ObjV::Dict(_)));
        assert(dmid1 == d0.with_added(sv));
        assert(document@ == dmid1.with_added(rv));
        crate::document::lemma_arena_get_push(d0.objects, page, d0.next_id(), sv);
        crate::document::lemma_arena_get_push(dmid1.objects, page, dmid1.next_id(), rv);
        assert(dmid1.get_obj(page) == d0.get_obj(page));
        assert(document@.get_obj(page) == d0.get_obj(page));
    }
    match document.set_page_entry(page, "Resources", PdfObject::Ref(rid)) {
        Ok(()) => {},
        Err(e) => {
            proof {
                assert(false);
            }
            return Err(e);
        },
    }
    let y1 = crate::text::sub3_c(mb.3, options.y, options.h);
    let mut cmv: Vec<PdfObject> = Vec::new();
    cmv.push(PdfObject::Real(options.w));
    cmv.push(PdfObject::Int(0));
    cmv.push(PdfObject::Int(0));
    cmv.push(PdfObject::Real(options.h));
    cmv.push(PdfObject::Real(options.x));
    cmv.push(PdfObject::Real(y1));
    proof {
        lemma_objs_view(cmv@);
    }
    let mut dov: Vec<PdfObject> = Vec::new();
    dov.push(PdfObject::Name(nm.clone()));
    proof {
        lemma_objs_view(dov@);
    }
    let mut ops: Vec<ContentOp> = Vec::new();
    ops.push(ContentOp { operator: "q".to_owned(), operands: Vec::new() });
    ops.push(ContentOp { operator: "cm".to_owned(), operands: cmv });
    ops.push(ContentOp { operator: "Do".to_owned(), operands: dov });
    ops.push(ContentOp { operator: "Q".to_owned(), operands: Vec::new() });
    proof {
        crate::object::lemma_ops_view(ops@);
        lemma_objs_view(Seq::<PdfObject>::empty());
        assert(crate::object::objs_view(Seq::<PdfObject>::empty()) =~= Seq::<ObjV>::empty());
        let ov = ops_view(ops@);
        assert(ov.len() == 4);
        assert(ov[0].op == "q"@);
        assert(ov[0].args =~= Seq::<ObjV>::empty());
        assert(ov[1].op == "cm"@);
        assert(ov[1].args =~= seq![
            ObjV::Real(options.w as int),
            ObjV::Int(0),
            ObjV::Int(0),
            ObjV::Real(options.h as int),
            ObjV::Real(options.x as int),
            ObjV::Real(
                clamp_i64(mb.3 as int - options.y as int - options.h as int),
            ),
        ]);
        assert(ov[2].op == "Do"@);
        assert(ov[2].args =~= seq![ObjV::Name(nm@)]);
        assert(ov[3].op == "Q"@);
        assert(ov[3].args =~= Seq::<ObjV>::empty());
        assert(ops_view(ops@) =~~= image_ops(
            nm@,
            mb.3 as int,
            options.x as int,
            options.y as int,
            options.w as int,
            options.h as int,
        ));
    }
    proof {
        crate::document::lemma_arena_set_get(
            dmid1.with_added(rv).objects,
            page,
            page,
            ObjV::Dict(
                crate::object::dict_set(
                    match d0.get_obj(page) {
                        Some(ObjV::Dict(es)) => es,
                        _ => Seq::empty(),
                    },
                    "Resources"@,
                    ObjV::Ref(rid),
                ),
            ),
        );
        assert(document@.get_obj(page) matches Some(ObjV::Dict(_)));
        assert(document@.max_id < 0xffff_ffff);
    }
    match document.add_page_contents(page, ops) {
        Ok(()) => {
            proof {
                let wname = draw_image_with_name(
                    d0,
                    page,
                    options.image_data@,
                    options.image_type,
                    nm@,
                    options.x as int,
                    options.y as int,
                    options.w as int,
                    options.h as int,
                );
                assert(wname == Ok::<DocV, PdfError>(document@));
            }
            Ok(())
        },
        Err(e) => {
            proof {
                assert(false);
            }
            Err(e)
        },
    }
}


/// Drawing an image changes neither the page list, the trailer, nor the
/// embedded-tag memo.
pub proof fn lemma_draw_image_keeps(
    d: DocV,
    page: ObjectId,
    data: Seq<u8>,
    kind: ImageKind,
    nm: Seq<char>,
    x: int,
    y: int,
    w: int,
    h: int,
)
    ensures
        ({
            let s = draw_image_with_name(d, page, data, kind, nm, x, y, w, h);
            s is Ok ==> s->Ok_0.pages == d.pages && s->Ok_0.trailer == d.trailer
                && s->Ok_0.embedded == d.embedded
        }),
{
}

} // verus!
