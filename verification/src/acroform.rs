//! Stripping interactive-form artifacts from a loaded template.
//!
//! The catalog's AcroForm entry and every page's Annots entry are removed
//! before any drawing; pruning of the objects that become unreferenced is
//! left to the engine that serializes the finished document.

use vstd::prelude::*;

use crate::object::{
    clone_dict, dict_get, dict_remove, lemma_dict_remove_absent, lemma_dict_remove_get, ObjV,
    ObjectId, PdfObject,
};
use crate::document::{lemma_arena_set_get, lemma_arena_set_same, DocV, Document};

verus! {

/// What removing the catalog's AcroForm entry does: the trailer's Root
/// reference is followed, and if it resolves to a dictionary that
/// dictionary loses its AcroForm entry; any other shape is left alone.
pub open spec fn strip_catalog_spec(d: DocV) -> DocV {
    match dict_get(d.trailer, "Root"@) {
        Some(ObjV::Ref(rid)) => match d.get_obj(rid) {
            Some(ObjV::Dict(es)) => d.with_obj(rid, ObjV::Dict(dict_remove(es, "AcroForm"@))),
            _ => d,
        },
        _ => d,
    }
}

/// What removing one page's Annots entry does: a page handle that
/// resolves to a dictionary loses its Annots entry; any other shape is
/// left alone.
pub open spec fn strip_page_spec(d: DocV, page: ObjectId) -> DocV {
    match d.get_obj(page) {
        Some(ObjV::Dict(es)) => d.with_obj(page, ObjV::Dict(dict_remove(es, "Annots"@))),
        _ => d,
    }
}

/// Removing Annots from a list of pages, front to back.
pub open spec fn strip_pages_spec(d: DocV, pages: Seq<ObjectId>) -> DocV
    decreases pages.len(),
{
    if pages.len() == 0 {
        d
    } else {
        strip_pages_spec(strip_page_spec(d, pages[0]), pages.skip(1))
    }
}

/// What stripping does to the whole document.
pub open spec fn strip_spec(d: DocV) -> DocV {
    strip_pages_spec(strip_catalog_spec(d), d.pages)
}

/// The object under a handle either is no dictionary or lacks the key.
pub open spec fn obj_key_clean(d: DocV, id: ObjectId, k: Seq<char>) -> bool {
    match d.get_obj(id) {
        Some(ObjV::Dict(es)) => dict_get(es, k) is None,
        _ => true,
    }
}

/// A document with no interactive-form artifacts left: a catalog the Root
/// reference resolves to has no AcroForm entry, and no page dictionary
/// has an Annots entry.
pub open spec fn stripped(d: DocV) -> bool {
    &&& match dict_get(d.trailer, "Root"@) {
        Some(ObjV::Ref(rid)) => obj_key_clean(d, rid, "AcroForm"@),
        _ => true,
    }
    &&& forall|i: int| 0 <= i < d.pages.len() ==> obj_key_clean(d, #[trigger] d.pages[i], "Annots"@)
}

/// Stripping one page touches nothing but that page's dictionary, keeps
/// clean keys clean everywhere, and leaves the page without Annots.
proof fn lemma_strip_page(d: DocV, page: ObjectId)
    ensures
        ({
            let d2 = strip_page_spec(d, page);
            &&& d2.trailer == d.trailer
            &&& d2.pages == d.pages
            &&& d2.max_id == d.max_id
            &&& d2.embedded == d.embedded
            &&& forall|id: ObjectId, k: Seq<char>|
                obj_key_clean(d, id, k) ==> #[trigger] obj_key_clean(d2, id, k)
            &&& obj_key_clean(d2, page, "Annots"@)
        }),
{
    let d2 = strip_page_spec(d, page);
    match d.get_obj(page) {
        Some(ObjV::Dict(es)) => {
            let nv = ObjV::Dict(dict_remove(es, "Annots"@));
            assert forall|id: ObjectId, k: Seq<char>| obj_key_clean(d, id, k) implies #[trigger] obj_key_clean(
                d2,
                id,
                k,
            ) by {
                lemma_arena_set_get(d.objects, id, page, nv);
                if id == page {
                    lemma_dict_remove_get(es, k, "Annots"@);
                }
            }
            lemma_arena_set_get(d.objects, page, page, nv);
            lemma_dict_remove_get(es, "Annots"@, "Annots"@);
        },
        _ => {},
    }
}

/// Stripping a page list touches no other part of the document, keeps
/// clean keys clean, and leaves every listed page without Annots.
proof fn lemma_strip_pages(d: DocV, pages: Seq<ObjectId>)
    ensures
        ({
            let d2 = strip_pages_spec(d, pages);
            &&& d2.trailer == d.trailer
            &&& d2.pages == d.pages
            &&& d2.max_id == d.max_id
            &&& d2.embedded == d.embedded
            &&& forall|id: ObjectId, k: Seq<char>|
                obj_key_clean(d, id, k) ==> #[trigger] obj_key_clean(d2, id, k)
            &&& forall|i: int|
                0 <= i < pages.len() ==> obj_key_clean(d2, #[trigger] pages[i], "Annots"@)
        }),
    decreases pages.len(),
{
    if pages.len() > 0 {
        let d1 = strip_page_spec(d, pages[0]);
        lemma_strip_page(d, pages[0]);
        lemma_strip_pages(d1, pages.skip(1));
        let d2 = strip_pages_spec(d, pages);
        assert(d2 == strip_pages_spec(d1, pages.skip(1)));
        assert forall|i: int| 0 <= i < pages.len() implies obj_key_clean(
            d2,
            #[trigger] pages[i],
            "Annots"@,
        ) by {
            if i == 0 {
                assert(obj_key_clean(d1, pages[0], "Annots"@));
                assert(obj_key_clean(d2, pages[0], "Annots"@));
            } else {
                assert(pages.skip(1)[i - 1] == pages[i]);
            }
        }
    }
}

/// If the document is already stripped, stripping a page list is the
/// identity.
proof fn lemma_strip_pages_identity(d: DocV, pages: Seq<ObjectId>)
    requires
        forall|i: int| 0 <= i < pages.len() ==> obj_key_clean(d, #[trigger] pages[i], "Annots"@),
    ensures
        strip_pages_spec(d, pages) == d,
    decreases pages.len(),
{
    if pages.len() > 0 {
        assert(obj_key_clean(d, pages[0], "Annots"@));
        match d.get_obj(pages[0]) {
            Some(ObjV::Dict(es)) => {
                lemma_dict_remove_absent(es, "Annots"@);
                lemma_arena_set_same(d.objects, pages[0], ObjV::Dict(es));
                assert(strip_page_spec(d, pages[0]) == d);
            },
            _ => {
                assert(strip_page_spec(d, pages[0]) == d);
            },
        }
        assert forall|i: int| 0 <= i < pages.skip(1).len() implies obj_key_clean(
            d,
            #[trigger] pages.skip(1)[i],
            "Annots"@,
        ) by {
            assert(pages.skip(1)[i] == pages[i + 1]);
        }
        lemma_strip_pages_identity(d, pages.skip(1));
    }
}

/// Stripping changes neither the page list, the trailer, the id counter,
/// nor the embedded-tag memo.
pub proof fn lemma_strip_keeps(d: DocV)
    ensures
        strip_spec(d).pages == d.pages,
        strip_spec(d).trailer == d.trailer,
        strip_spec(d).max_id == d.max_id,
        strip_spec(d).embedded == d.embedded,
{
    let d1 = strip_catalog_spec(d);
    lemma_strip_pages(d1, d.pages);
}

/// Law: after stripping, the catalog has no AcroForm entry and no page
/// has an Annots entry.
pub proof fn lemma_strip_strips(d: DocV)
    ensures
        stripped(strip_spec(d)),
{
    let d1 = strip_catalog_spec(d);
    let d2 = strip_spec(d);
    match dict_get(d.trailer, "Root"@) {
        Some(ObjV::Ref(rid)) => {
            match d.get_obj(rid) {
                Some(ObjV::Dict(es)) => {
                    let nv = ObjV::Dict(dict_remove(es, "AcroForm"@));
                    lemma_arena_set_get(d.objects, rid, rid, nv);
                    lemma_dict_remove_get(es, "AcroForm"@, "AcroForm"@);
                    assert(obj_key_clean(d1, rid, "AcroForm"@));
                },
                _ => {},
            }
        },
        _ => {},
    }
    lemma_strip_pages(d1, d.pages);
    assert(d1.trailer == d.trailer);
    assert(d2.trailer == d.trailer);
    assert(d2.pages == d.pages);
}

/// Law: stripping an already-stripped document changes nothing, so
/// stripping twice equals stripping once.
pub proof fn lemma_strip_idempotent(d: DocV)
    ensures
        stripped(d) ==> strip_spec(d) == d,
        strip_spec(strip_spec(d)) == strip_spec(d),
{
    if stripped(d) {
        match dict_get(d.trailer, "Root"@) {
            Some(ObjV::Ref(rid)) => {
                match d.get_obj(rid) {
                    Some(ObjV::Dict(es)) => {
                        lemma_dict_remove_absent(es, "AcroForm"@);
                        lemma_arena_set_same(d.objects, rid, ObjV::Dict(es));
                        assert(strip_catalog_spec(d) == d);
                    },
                    _ => {
                        assert(strip_catalog_spec(d) == d);
                    },
                }
            },
            _ => {
                assert(strip_catalog_spec(d) == d);
            },
        }
        lemma_strip_pages_identity(d, d.pages);
        assert(strip_spec(d) == d);
    }
    lemma_strip_strips(d);
    let s = strip_spec(d);
    if stripped(s) {
        match dict_get(s.trailer, "Root"@) {
            Some(ObjV::Ref(rid)) => {
                match s.get_obj(rid) {
                    Some(ObjV::Dict(es)) => {
                        lemma_dict_remove_absent(es, "AcroForm"@);
                        lemma_arena_set_same(s.objects, rid, ObjV::Dict(es));
                        assert(strip_catalog_spec(s) == s);
                    },
                    _ => {
                        assert(strip_catalog_spec(s) == s);
                    },
                }
            },
            _ => {
                assert(strip_catalog_spec(s) == s);
            },
        }
        lemma_strip_pages_identity(s, s.pages);
    }
}

/// Removes the catalog's AcroForm entry and every page's Annots entry, as
/// `strip_spec` describes; running it again on its own output changes
/// nothing. Objects the removals leave unreferenced stay in the arena:
/// pruning them is delegated to the engine that serializes the finished
/// document.
pub fn remove_acroforms(document: &mut Document)
    ensures
        final(document)@ == strip_spec(old(document)@),
{
    let ghost orig = document@;
    let root = match document.trailer.get("Root") {
        Some(PdfObject::Ref(rid)) => Some(*rid),
        _ => None,
    };
    match root {
        Some(rid) => {
            let cat = match document.get_object(rid) {
                Ok(PdfObject::Dict(es)) => Some(clone_dict(es)),
                _ => None,
            };
            match cat {
                Some(mut es) => {
                    es.remove("AcroForm");
                    document.set_object(rid, PdfObject::Dict(es));
                },
                None => {},
            }
        },
        None => {},
    }
    proof {
        assert(document@ == strip_catalog_spec(orig));
    }
    let ghost d1 = document@;
    let n = document.pages.len();
    let mut i: usize = 0;
    proof {
        assert(d1.pages.skip(0) =~= d1.pages);
    }
    while i < n
        invariant
            0 <= i <= n,
            n == document@.pages.len(),
            document@.pages == d1.pages,
            strip_pages_spec(d1, d1.pages) == strip_pages_spec(
                document@,
                document@.pages.skip(i as int),
            ),
        decreases n - i,
    {
        let ghost dcur = document@;
        let page = document.pages[i];
        let pd = match document.get_object(page) {
            Ok(PdfObject::Dict(es)) => Some(clone_dict(es)),
            _ => None,
        };
        match pd {
            Some(mut es) => {
                es.remove("Annots");
                document.set_object(page, PdfObject::Dict(es));
            },
            None => {},
        }
        proof {
            assert(dcur.pages.skip(i as int)[0] == dcur.pages[i as int]);
            assert(document@ == strip_page_spec(dcur, dcur.pages[i as int]));
            lemma_strip_page(dcur, dcur.pages[i as int]);
            assert(document@.pages == dcur.pages);
            assert(dcur.pages.skip(i as int).skip(1) =~= dcur.pages.skip(i as int + 1));
        }
        i = i + 1;
    }
    proof {
        assert(document@.pages.skip(n as int) =~= Seq::<ObjectId>::empty());
        assert(strip_pages_spec(document@, document@.pages.skip(n as int)) == document@);
        assert(orig.pages == d1.pages);
    }
}

} // verus!
