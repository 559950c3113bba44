//! Borderless URI-action link annotations.

use vstd::prelude::*;

use crate::document::{media_box_of, get_page_media_box, DocV, Document};
use crate::error::PdfError;
use crate::fontsize::clamp_i64;
use crate::object::{
    dict_get, dict_set, lemma_entries_view, lemma_objs_view, objs_view, ObjV, ObjectId, PdfDict,
    PdfObject,
};
use vstd::string::StringSliceAdditionalSpecFns;

verus! {

/// Where a link goes and the box it covers, in milli-points with y
/// measured top-down.
pub struct DrawLinkOptions<'a> {
    pub link: &'a str,
    pub x: i64,
    pub y: i64,
    pub w: i64,
    pub h: i64,
}

/// The flipped rectangle of a link annotation.
pub open spec fn link_rect(ph: int, x: int, y: int, w: int, h: int) -> Seq<ObjV> {
    seq![
        ObjV::Real(x),
        ObjV::Real(clamp_i64(ph - y - h)),
        ObjV::Real(clamp_i64(x + w)),
        ObjV::Real(clamp_i64(ph - y)),
    ]
}

/// The entries of a borderless URI-action link annotation.
pub open spec fn link_annotation(link: Seq<u8>, ph: int, x: int, y: int, w: int, h: int) -> Seq<
    (Seq<char>, ObjV),
> {
    seq![
        ("Type"@, ObjV::Name("Annot"@)),
        ("Subtype"@, ObjV::Name("Link"@)),
        ("Rect"@, ObjV::Array(link_rect(ph, x, y, w, h))),
        ("Border"@, ObjV::Array(seq![ObjV::Int(0), ObjV::Int(0), ObjV::Int(0)])),
        (
            "A"@,
            ObjV::Dict(seq![("S"@, ObjV::Name("URI"@)), ("URI"@, ObjV::Str(link))]),
        ),
    ]
}

/// What adding a link does: the annotation is added as a new object and a
/// reference to it joins the page's Annots — appended when Annots is a
/// direct array, appended behind an indirect reference to an array, and
/// otherwise written as a fresh one-element array.
pub open spec fn add_link_spec(d: DocV, page: ObjectId, link: Seq<u8>, x: int, y: int, w: int,
    h: int) -> Result<DocV, PdfError> {
    match media_box_of(d, page) {
        Some(mb) => if d.max_id < 0xffff_ffff {
            let aid = d.next_id();
            let d1 = d.with_added(ObjV::Dict(link_annotation(link, mb.3, x, y, w, h)));
            match d1.get_obj(page) {
                Some(ObjV::Dict(es)) => match dict_get(es, "Annots"@) {
                    Some(ObjV::Ref(rid)) => match d1.get_obj(rid) {
                        Some(ObjV::Array(a)) => Ok(d1.with_obj(rid, ObjV::Array(a.push(ObjV::Ref(aid))))),
                        _ => Err(PdfError::ResourceAccess),
                    },
                    Some(ObjV::Array(a)) => Ok(
                        d1.with_obj(
                            page,
                            ObjV::Dict(
                                dict_set(es, "Annots"@, ObjV::Array(a.push(ObjV::Ref(aid)))),
                            ),
                        ),
                    ),
                    _ => Ok(
                        d1.with_obj(
                            page,
                            ObjV::Dict(
                                dict_set(es, "Annots"@, ObjV::Array(seq![ObjV::Ref(aid)])),
                            ),
                        ),
                    ),
                },
                _ => Err(PdfError::ResourceAccess),
            }
        } else {
            Err(PdfError::ResourceAccess)
        },
        None => Err(PdfError::ResourceAccess),
    }
}

/// Builds the annotation dictionary.
fn build_annotation(link: &str, ph: i64, x: i64, y: i64, w: i64, h: i64) -> (r: PdfDict)
    ensures
        r@ == link_annotation(
            link.spec_bytes(),
            ph as int,
            x as int,
            y as int,
            w as int,
            h as int,
        ),
{
    let y1 = crate::text::sub3_c(ph, y, h);
    let x2 = crate::text::add_c(x, w);
    let y2 = crate::text::sub_c(ph, y);
    let mut rect: Vec<PdfObject> = Vec::new();
    rect.push(PdfObject::Real(x));
    rect.push(PdfObject::Real(y1));
    rect.push(PdfObject::Real(x2));
    rect.push(PdfObject::Real(y2));
    proof {
        lemma_objs_view(rect@);
        assert(objs_view(rect@) =~= link_rect(ph as int, x as int, y as int, w as int, h as int));
    }
    let mut border: Vec<PdfObject> = Vec::new();
    border.push(PdfObject::Int(0));
    border.push(PdfObject::Int(0));
    border.push(PdfObject::Int(0));
    proof {
        lemma_objs_view(border@);
        assert(objs_view(border@) =~= seq![ObjV::Int(0), ObjV::Int(0), ObjV::Int(0)]);
    }
    let mut action: Vec<(String, PdfObject)> = Vec::new();
    action.push(("S".to_owned(), PdfObject::Name("URI".to_owned())));
    action.push(
        ("URI".to_owned(), PdfObject::Str(crate::object::clone_bytes_slice(link.as_bytes()))),
    );
    let ghost av = action@;
    let adict = PdfDict { entries: action };
    proof {
        lemma_entries_view(av);
        assert(adict@ =~= seq![
            ("S"@, ObjV::Name("URI"@)),
            ("URI"@, ObjV::Str(link.spec_bytes())),
        ]);
    }
    let mut entries: Vec<(String, PdfObject)> = Vec::new();
    entries.push(("Type".to_owned(), PdfObject::Name("Annot".to_owned())));
    entries.push(("Subtype".to_owned(), PdfObject::Name("Link".to_owned())));
    entries.push(("Rect".to_owned(), PdfObject::Array(rect)));
    entries.push(("Border".to_owned(), PdfObject::Array(border)));
    entries.push(("A".to_owned(), PdfObject::Dict(adict)));
    let ghost ev = entries@;
    let r = PdfDict { entries };
    proof {
        lemma_entries_view(ev);
        assert(r@ =~~= link_annotation(
            link.spec_bytes(),
            ph as int,
            x as int,
            y as int,
            w as int,
            h as int,
        ));
    }
    r
}

/// Adds a borderless link annotation over a box of the page, as
/// `add_link_spec` describes.
pub fn add_link(document: &mut Document, page: ObjectId, options: DrawLinkOptions<'_>) -> (r:
    Result<(), PdfError>)
    ensures
        ({
            let s = add_link_spec(
                old(document)@,
                page,
                options.link.spec_bytes(),
                options.x as int,
                options.y as int,
                options.w as int,
                options.h as int,
            );
            match s {
                Ok(d2) => r is Ok && final(document)@ == d2,
                Err(e) => r == Err::<(), PdfError>(e) && final(document)@ == old(document)@,
            }
        }),
{
    let mb = match get_page_media_box(document, page) {
        Ok(b) => b,
        Err(e) => {
            return Err(e);
        },
    };
    if !(document.max_id < 0xffff_ffff) {
        return Err(PdfError::ResourceAccess);
    }
    // Every failure is decided before the arena is touched, so an error
    // leaves the document as it was.
    let page_dict = match document.get_object(page) {
        Ok(PdfObject::Dict(d)) => crate::object::clone_dict(d),
        Ok(_) => {
            return Err(PdfError::ResourceAccess);
        },
        Err(e) => {
            return Err(e);
        },
    };
    let annotation = build_annotation(
        options.link,
        mb.3,
        options.x,
        options.y,
        options.w,
        options.h,
    );
    let ghost d0 = document@;
    let ghost av = ObjV::Dict(
        link_annotation(
            options.link.spec_bytes(),
            mb.3 as int,
            options.x as int,
            options.y as int,
            options.w as int,
            options.h as int,
        ),
    );
    proof {
        crate::document::lemma_arena_get_push(d0.objects, page, d0.next_id(), av);
    }
    match page_dict.get("Annots") {
        Some(PdfObject::Ref(rid)) => {
            let rid = *rid;
            proof {
                crate::document::lemma_arena_get_push(d0.objects, rid, d0.next_id(), av);
            }
            let arr = match document.get_object(rid) {
                Ok(PdfObject::Array(a)) => crate::object::clone_objs(a),
                _ => {
                    return Err(PdfError::ResourceAccess);
                },
            };
            let aid = document.add_object(PdfObject::Dict(annotation));
            let ghost preview = objs_view(arr@);
            let mut arr = arr;
            let ghost prevec = arr@;
            arr.push(PdfObject::Ref(aid));
            proof {
                lemma_objs_view(prevec);
                lemma_objs_view(arr@);
                assert(objs_view(arr@) =~= preview.push(ObjV::Ref(aid)));
            }
            document.set_object(rid, PdfObject::Array(arr));
            Ok(())
        },
        Some(PdfObject::Array(a)) => {
            let ghost preview = objs_view(a@);
            let mut arr = crate::object::clone_objs(a);
            let aid = document.add_object(PdfObject::Dict(annotation));
            let ghost prevec = arr@;
            arr.push(PdfObject::Ref(aid));
            proof {
                lemma_objs_view(prevec);
                lemma_objs_view(arr@);
                assert(objs_view(arr@) =~= preview.push(ObjV::Ref(aid)));
            }
            let mut d2 = page_dict;
            d2.set("Annots", PdfObject::Array(arr));
            document.set_object(page, PdfObject::Dict(d2));
            Ok(())
        },
        _ => {
            let aid = document.add_object(PdfObject::Dict(annotation));
            let mut arr: Vec<PdfObject> = Vec::new();
            arr.push(PdfObject::Ref(aid));
            proof {
                lemma_objs_view(arr@);
                assert(objs_view(arr@) =~= seq![ObjV::Ref(aid)]);
            }
            let mut d2 = page_dict;
            d2.set("Annots", PdfObject::Array(arr));
            document.set_object(page, PdfObject::Dict(d2));
            Ok(())
        },
    }
}


/// Adding a link changes neither the page list, the trailer, nor the
/// embedded-tag memo.
pub proof fn lemma_add_link_keeps(d: DocV, page: ObjectId, link: Seq<u8>, x: int, y: int, w: int,
    h: int)
    ensures
        ({
            let s = add_link_spec(d, page, link, x, y, w, h);
            s is Ok ==> s->Ok_0.pages == d.pages && s->Ok_0.trailer == d.trailer
                && s->Ok_0.embedded == d.embedded
        }),
{
}

} // verus!
