//! Registering the base fonts and embedding the bundled TrueType face.
//!
//! The base-font path adds three Type1 font objects and registers them in
//! every page's resources under fixed tags. The embedded path synthesizes
//! a font descriptor with fixed approximate metrics and a width table for
//! codes 32..=126 — numerically valid only for the one bundled cursive
//! face — wraps the raw bytes as a FontFile2 stream, and registers the
//! composite font under a caller-chosen tag in every page, at most once
//! per document.

use vstd::prelude::*;

use crate::error::PdfError;
use crate::object::{
    dict_get, dict_set, entries_view, lemma_entries_view, lemma_objs_view, objs_view, ObjV,
    ObjectId, PdfDict, PdfObject, PdfStream, StreamData,
};
use crate::document::{resources_of, DocV, Document, lemma_tags_view, tags_view};
use crate::object::DataV;
use crate::strutil::str_eq;

verus! {

/// The width table for character codes 32..=126 used by the embedded
/// cursive face.
pub open spec fn cursive_widths() -> Seq<int> {
    seq![
        169int, 295, 168, 579, 313, 632, 608, 106, 268, 507, 507, 326, 129, 249, 149, 377, 368,
        243, 331, 314, 403, 331, 336, 310, 351, 336, 154, 154, 293, 344, 293, 434, 707, 768, 562,
        527, 626, 478, 582, 576, 770, 365, 203, 560, 547, 830, 721, 594, 541, 599, 602, 451, 432,
        611, 538, 892, 542, 452, 453, 362, 498, 397, 313, 846, 223, 294, 269, 238, 294, 249, 182,
        265, 294, 192, 135, 324, 214, 470, 330, 265, 255, 279, 272, 232, 198, 393, 294, 500, 299,
        344, 234, 354, 364, 411, 277,
    ]
}

/// The entries of a Type1 base-font dictionary.
pub open spec fn base_font_dict(name: Seq<char>) -> Seq<(Seq<char>, ObjV)> {
    seq![
        ("Type"@, ObjV::Name("Font"@)),
        ("Subtype"@, ObjV::Name("Type1"@)),
        ("BaseFont"@, ObjV::Name(name)),
    ]
}

/// The entries of the embedded face's FontFile2 stream dictionary.
pub open spec fn font_stream_dict(len: int) -> Seq<(Seq<char>, ObjV)> {
    seq![("Length"@, ObjV::Int(len)), ("Length1"@, ObjV::Int(len))]
}

/// The entries of the synthesized font descriptor: fixed approximate
/// metrics for the bundled cursive face.
pub open spec fn descriptor_dict(name: Seq<char>, file_id: ObjectId) -> Seq<(Seq<char>, ObjV)> {
    seq![
        ("Type"@, ObjV::Name("FontDescriptor"@)),
        ("FontName"@, ObjV::Name(name)),
        ("Flags"@, ObjV::Int(32)),
        ("Ascent"@, ObjV::Int(800)),
        ("Descent"@, ObjV::Int(-450)),
        ("CapHeight"@, ObjV::Int(800)),
        ("ItalicAngle"@, ObjV::Int(0)),
        ("AvgWidth"@, ObjV::Int(419)),
        ("MaxWidth"@, ObjV::Int(1728)),
        ("FontWeight"@, ObjV::Int(400)),
        ("StemV"@, ObjV::Int(41)),
        ("XHeight"@, ObjV::Int(250)),
        (
            "FontBBox"@,
            ObjV::Array(
                seq![ObjV::Int(-464), ObjV::Int(-450), ObjV::Int(1264), ObjV::Int(800)],
            ),
        ),
        ("FontFile2"@, ObjV::Ref(file_id)),
    ]
}

/// The entries of the embedded TrueType font dictionary.
pub open spec fn ttf_font_dict(name: Seq<char>, tag: Seq<char>, desc_id: ObjectId) -> Seq<
    (Seq<char>, ObjV),
> {
    seq![
        ("Type"@, ObjV::Name("Font"@)),
        ("Subtype"@, ObjV::Name("TrueType"@)),
        ("Name"@, ObjV::Name(tag)),
        ("BaseFont"@, ObjV::Name(name)),
        ("FontDescriptor"@, ObjV::Ref(desc_id)),
        ("Encoding"@, ObjV::Name("WinAnsiEncoding"@)),
        ("FirstChar"@, ObjV::Int(32)),
        ("LastChar"@, ObjV::Int(126)),
        ("Widths"@, ObjV::Array(cursive_widths().map_values(|w: int| ObjV::Int(w)))),
    ]
}

/// What registering a font tag on one page does: the page's resources are
/// materialized as a local copy whose Font dictionary maps the tag to the
/// font object, and written back onto the page; a Font entry that is not
/// a dictionary is an object-graph shape error.
pub open spec fn register_page_spec(d: DocV, page: ObjectId, tag: Seq<char>, fid: ObjectId)
    -> Result<DocV, PdfError> {
    match resources_of(d, page) {
        Some(res) => {
            let fonts = match dict_get(res, "Font"@) {
                None => Some(Seq::<(Seq<char>, ObjV)>::empty()),
                Some(ObjV::Dict(f)) => Some(f),
                Some(_) => None::<Seq<(Seq<char>, ObjV)>>,
            };
            match fonts {
                Some(f) => {
                    let f2 = dict_set(f, tag, ObjV::Ref(fid));
                    let res2 = dict_set(res, "Font"@, ObjV::Dict(f2));
                    match d.get_obj(page) {
                        Some(ObjV::Dict(es)) => Ok(
                            d.with_obj(
                                page,
                                ObjV::Dict(dict_set(es, "Resources"@, ObjV::Dict(res2))),
                            ),
                        ),
                        _ => Err(PdfError::ResourceAccess),
                    }
                },
                None => Err(PdfError::ResourceAccess),
            }
        },
        None => Err(PdfError::ResourceAccess),
    }
}

/// Registering a tag on a list of pages, front to back, aborting on the
/// first failure.
pub open spec fn register_pages_spec(
    d: DocV,
    pages: Seq<ObjectId>,
    tag: Seq<char>,
    fid: ObjectId,
) -> Result<DocV, PdfError>
    decreases pages.len(),
{
    if pages.len() == 0 {
        Ok(d)
    } else {
        match register_page_spec(d, pages[0], tag, fid) {
            Ok(d1) => register_pages_spec(d1, pages.skip(1), tag, fid),
            Err(e) => Err(e),
        }
    }
}

/// Registers a font tag in every page's resources.
fn register_font_on_pages(document: &mut Document, tag: &str, fid: ObjectId) -> (r: Result<
    (),
    PdfError,
>)
    ensures
        match register_pages_spec(old(document)@, old(document)@.pages, tag@, fid) {
            Ok(d2) => r is Ok && final(document)@ == d2,
            Err(e) => r == Err::<(), PdfError>(e),
        },
        r is Err ==> final(document)@.pages == old(document)@.pages && final(document)@.trailer
            == old(document)@.trailer && final(document)@.embedded == old(document)@.embedded,
{
    let ghost orig = document@;
    let n = document.pages.len();
    let mut i: usize = 0;
    proof {
        assert(orig.pages.skip(0) =~= orig.pages);
    }
    while i < n
        invariant
            0 <= i <= n,
            orig == old(document)@,
            n == document@.pages.len(),
            document@.pages == orig.pages,
            document@.trailer == orig.trailer,
            document@.embedded == orig.embedded,
            register_pages_spec(orig, orig.pages, tag@, fid) == register_pages_spec(
                document@,
                document@.pages.skip(i as int),
                tag@,
                fid,
            ),
        decreases n - i,
    {
        let ghost dcur = document@;
        let page = document.pages[i];
        proof {
            assert(dcur.pages.skip(i as int)[0] == dcur.pages[i as int]);
            assert(dcur.pages.skip(i as int).skip(1) =~= dcur.pages.skip(i as int + 1));
        }
        let mut res = match document.fetch_resources(page) {
            Ok(d) => d,
            Err(e) => {
                return Err(e);
            },
        };
        let fonts: PdfDict = match res.get("Font") {
            None => PdfDict::new(),
            Some(PdfObject::Dict(f)) => crate::object::clone_dict(f),
            Some(_) => {
                return Err(PdfError::ResourceAccess);
            },
        };
        let mut fonts = fonts;
        fonts.set(tag, PdfObject::Ref(fid));
        res.set("Font", PdfObject::Dict(fonts));
        match document.set_page_entry(page, "Resources", PdfObject::Dict(res)) {
            Ok(()) => {},
            Err(e) => {
                return Err(e);
            },
        }
        proof {
            assert(document@ == register_page_spec(dcur, page, tag@, fid)->Ok_0);
        }
        i = i + 1;
    }
    proof {
        assert(document@.pages.skip(n as int) =~= Seq::<ObjectId>::empty());
    }
    Ok(())
}

/// Builds a dictionary from a fresh entry list.
fn dict_of(entries: Vec<(String, PdfObject)>) -> (r: PdfDict)
    ensures
        r@ == entries_view(entries@),
{
    PdfDict { entries }
}

/// Creates one Type1 base-font object and hands back its handle.
fn create_font(document: &mut Document, font_name: &str) -> (r: ObjectId)
    requires
        old(document).max_id < 0xffff_ffff,
    ensures
        r == old(document)@.next_id(),
        final(document)@ == old(document)@.with_added(ObjV::Dict(base_font_dict(font_name@))),
{
    let mut entries: Vec<(String, PdfObject)> = Vec::new();
    entries.push(("Type".to_owned(), PdfObject::Name("Font".to_owned())));
    entries.push(("Subtype".to_owned(), PdfObject::Name("Type1".to_owned())));
    entries.push(("BaseFont".to_owned(), PdfObject::Name(font_name.to_owned())));
    let ghost ev = entries@;
    let d = dict_of(entries);
    proof {
        lemma_entries_view(ev);
        assert(d@ =~= base_font_dict(font_name@));
    }
    document.add_object(PdfObject::Dict(d))
}

/// What registering the three base fonts does: a Helvetica, a Courier and
/// a Times New Roman font object are added, and every page's resources
/// map the fixed serif, sans-serif and mono tags to them.
pub open spec fn base_fonts_spec(d: DocV) -> Result<DocV, PdfError> {
    let helv = d.next_id();
    let d1 = d.with_added(ObjV::Dict(base_font_dict("Helvetica"@)));
    let cour = d1.next_id();
    let d2 = d1.with_added(ObjV::Dict(base_font_dict("Courier"@)));
    let times = d2.next_id();
    let d3 = d2.with_added(ObjV::Dict(base_font_dict("Times New Roman"@)));
    match register_pages_spec(d3, d3.pages, "pdf-Serif"@, times) {
        Ok(d4) => match register_pages_spec(d4, d4.pages, "pdf-SansSerif"@, helv) {
            Ok(d5) => register_pages_spec(d5, d5.pages, "pdf-Mono"@, cour),
            Err(e) => Err(e),
        },
        Err(e) => Err(e),
    }
}

/// Registers Times, Helvetica and Courier once under the fixed symbolic
/// tags in every page's resource dictionary; no glyph data is embedded.
pub fn reference_base_fonts(document: &mut Document) -> (r: Result<(), PdfError>)
    requires
        old(document).max_id < 0xffff_fff0,
    ensures
        match base_fonts_spec(old(document)@) {
            Ok(d2) => r is Ok && final(document)@ == d2,
            Err(e) => r == Err::<(), PdfError>(e),
        },
        r is Err ==> final(document)@.pages == old(document)@.pages && final(document)@.trailer
            == old(document)@.trailer && final(document)@.embedded == old(document)@.embedded,
{
    let helvetica_font_id = create_font(document, "Helvetica");
    let courier_font_id = create_font(document, "Courier");
    let times_font_id = create_font(document, "Times New Roman");
    proof {
        assert(document@.pages == old(document)@.pages && document@.trailer == old(
            document,
        )@.trailer && document@.embedded == old(document)@.embedded);
    }
    let ghost before_serif = document@;
    match register_font_on_pages(document, "pdf-Serif", times_font_id) {
        Ok(()) => {
            proof {
                lemma_register_pages_keeps(
                    before_serif,
                    before_serif.pages,
                    "pdf-Serif"@,
                    times_font_id,
                );
            }
        },
        Err(e) => {
            return Err(e);
        },
    }
    let ghost before_sans = document@;
    match register_font_on_pages(document, "pdf-SansSerif", helvetica_font_id) {
        Ok(()) => {
            proof {
                lemma_register_pages_keeps(
                    before_sans,
                    before_sans.pages,
                    "pdf-SansSerif"@,
                    helvetica_font_id,
                );
            }
        },
        Err(e) => {
            return Err(e);
        },
    }
    register_font_on_pages(document, "pdf-Mono", courier_font_id)
}

/// What embedding the TrueType face does: nothing when the tag is already
/// memoized; otherwise the font file stream, the descriptor and the font
/// dictionary are added, the tag is registered in every page's resources,
/// and the tag is memoized.
pub open spec fn embed_spec(d: DocV, name: Seq<char>, tag: Seq<char>, data: Seq<u8>) -> Result<
    DocV,
    PdfError,
> {
    if d.embedded.contains(tag) {
        Ok(d)
    } else {
        let file_id = d.next_id();
        let d1 = d.with_added(
            ObjV::Stream(font_stream_dict(data.len() as int), DataV::Raw(data)),
        );
        let desc_id = d1.next_id();
        let d2 = d1.with_added(ObjV::Dict(descriptor_dict(name, file_id)));
        let font_id = d2.next_id();
        let d3 = d2.with_added(ObjV::Dict(ttf_font_dict(name, tag, desc_id)));
        match register_pages_spec(d3, d3.pages, tag, font_id) {
            Ok(d4) => Ok(DocV { embedded: d4.embedded.push(tag), ..d4 }),
            Err(e) => Err(e),
        }
    }
}

/// Law: embedding is memoized — a second embedding of the same tag is a
/// no-op, so no second FontFile2 stream is ever added.
pub proof fn lemma_embed_memoized(d: DocV, name: Seq<char>, tag: Seq<char>, data: Seq<u8>)
    ensures
        embed_spec(d, name, tag, data) matches Ok(d2) ==> embed_spec(d2, name, tag, data) == Ok::<
            DocV,
            PdfError,
        >(d2),
{
    let r = embed_spec(d, name, tag, data);
    if r is Ok {
        let d2 = r->Ok_0;
        if d.embedded.contains(tag) {
            assert(d2 == d);
        } else {
            let file_id = d.next_id();
            let d1 = d.with_added(
                ObjV::Stream(font_stream_dict(data.len() as int), DataV::Raw(data)),
            );
            let desc_id = d1.next_id();
            let d2x = d1.with_added(ObjV::Dict(descriptor_dict(name, file_id)));
            let font_id = d2x.next_id();
            let d3 = d2x.with_added(ObjV::Dict(ttf_font_dict(name, tag, desc_id)));
            match register_pages_spec(d3, d3.pages, tag, font_id) {
                Ok(d4) => {
                    assert(d2.embedded == d4.embedded.push(tag));
                    assert(d2.embedded[d4.embedded.len() as int] == tag);
                    assert(d2.embedded.contains(tag));
                },
                Err(_) => {},
            }
        }
    }
}

/// Whether the memo already holds a tag.
fn has_embedded(document: &Document, tag: &str) -> (r: bool)
    ensures
        r == document@.embedded.contains(tag@),
{
    let ghost tags = document@.embedded;
    proof {
        lemma_tags_view(document.embedded_fonts@);
    }
    let mut i: usize = 0;
    while i < document.embedded_fonts.len()
        invariant
            0 <= i <= document.embedded_fonts@.len(),
            tags == document@.embedded,
            tags.len() == document.embedded_fonts@.len(),
            tags == tags_view(document.embedded_fonts@),
            forall|j: int| 0 <= j < i ==> !(#[trigger] tags[j] == tag@),
        decreases document.embedded_fonts@.len() - i,
    {
        proof {
            lemma_tags_view(document.embedded_fonts@);
        }
        if str_eq(document.embedded_fonts[i].as_str(), tag) {
            proof {
                assert(tags[i as int] == tag@);
            }
            return true;
        }
        i = i + 1;
    }
    proof {
        if tags.contains(tag@) {
            let j = choose|j: int| 0 <= j < tags.len() && tags[j] == tag@;
            assert(!(tags[j] == tag@));
        }
    }
    false
}

/// Embeds the bundled TrueType face under a caller-chosen tag, as
/// `embed_spec` describes: memoized per document, so a repeated call with
/// the same tag changes nothing.
pub fn embed_ttf_font(
    document: &mut Document,
    font_name: &str,
    font_reference_id: &str,
    font_data: &Vec<u8>,
) -> (r: Result<(), PdfError>)
    requires
        old(document).max_id < 0xffff_fff0,
        font_data@.len() <= 0x7fff_ffff,
    ensures
        match embed_spec(old(document)@, font_name@, font_reference_id@, font_data@) {
            Ok(d2) => r is Ok && final(document)@ == d2,
            Err(e) => r == Err::<(), PdfError>(e),
        },
        r is Err ==> final(document)@.pages == old(document)@.pages && final(document)@.trailer
            == old(document)@.trailer && final(document)@.embedded == old(document)@.embedded,
{
    if has_embedded(document, font_reference_id) {
        return Ok(());
    }
    let data = crate::object::clone_bytes(font_data);
    let len = data.len() as i64;
    let mut sentries: Vec<(String, PdfObject)> = Vec::new();
    sentries.push(("Length".to_owned(), PdfObject::Int(len)));
    sentries.push(("Length1".to_owned(), PdfObject::Int(len)));
    let ghost sev = sentries@;
    let sdict = dict_of(sentries);
    proof {
        lemma_entries_view(sev);
        assert(sdict@ =~= font_stream_dict(font_data@.len() as int));
    }
    let file_id = document.add_object(
        PdfObject::Stream(PdfStream { dict: sdict, data: StreamData::Raw(data) }),
    );

    let mut bbox: Vec<PdfObject> = Vec::new();
    bbox.push(PdfObject::Int(-464));
    bbox.push(PdfObject::Int(-450));
    bbox.push(PdfObject::Int(1264));
    bbox.push(PdfObject::Int(800));
    proof {
        lemma_objs_view(bbox@);
        assert(objs_view(bbox@) =~= seq![
            ObjV::Int(-464), ObjV::Int(-450), ObjV::Int(1264), ObjV::Int(800),
        ]);
    }
    let mut dentries: Vec<(String, PdfObject)> = Vec::new();
    dentries.push(("Type".to_owned(), PdfObject::Name("FontDescriptor".to_owned())));
    dentries.push(("FontName".to_owned(), PdfObject::Name(font_name.to_owned())));
    dentries.push(("Flags".to_owned(), PdfObject::Int(32)));
    dentries.push(("Ascent".to_owned(), PdfObject::Int(800)));
    dentries.push(("Descent".to_owned(), PdfObject::Int(-450)));
    dentries.push(("CapHeight".to_owned(), PdfObject::Int(800)));
    dentries.push(("ItalicAngle".to_owned(), PdfObject::Int(0)));
    dentries.push(("AvgWidth".to_owned(), PdfObject::Int(419)));
    dentries.push(("MaxWidth".to_owned(), PdfObject::Int(1728)));
    dentries.push(("FontWeight".to_owned(), PdfObject::Int(400)));
    dentries.push(("StemV".to_owned(), PdfObject::Int(41)));
    dentries.push(("XHeight".to_owned(), PdfObject::Int(250)));
    dentries.push(("FontBBox".to_owned(), PdfObject::Array(bbox)));
    dentries.push(("FontFile2".to_owned(), PdfObject::Ref(file_id)));
    let ghost dev = dentries@;
    let ddict = dict_of(dentries);
    proof {
        lemma_entries_view(dev);
        assert(ddict@ =~= descriptor_dict(font_name@, file_id));
    }
    let desc_id = document.add_object(PdfObject::Dict(ddict));

    let widths = cursive_widths_exec();
    let mut fentries: Vec<(String, PdfObject)> = Vec::new();
    fentries.push(("Type".to_owned(), PdfObject::Name("Font".to_owned())));
    fentries.push(("Subtype".to_owned(), PdfObject::Name("TrueType".to_owned())));
    fentries.push(("Name".to_owned(), PdfObject::Name(font_reference_id.to_owned())));
    fentries.push(("BaseFont".to_owned(), PdfObject::Name(font_name.to_owned())));
    fentries.push(("FontDescriptor".to_owned(), PdfObject::Ref(desc_id)));
    fentries.push(("Encoding".to_owned(), PdfObject::Name("WinAnsiEncoding".to_owned())));
    fentries.push(("FirstChar".to_owned(), PdfObject::Int(32)));
    fentries.push(("LastChar".to_owned(), PdfObject::Int(126)));
    fentries.push(("Widths".to_owned(), PdfObject::Array(widths)));
    let ghost fev = fentries@;
    let fdict = dict_of(fentries);
    proof {
        lemma_entries_view(fev);
        assert(fdict@ =~= ttf_font_dict(font_name@, font_reference_id@, desc_id));
    }
    let font_id = document.add_object(PdfObject::Dict(fdict));

    proof {
        assert(document@.pages == old(document)@.pages && document@.trailer == old(
            document,
        )@.trailer && document@.embedded == old(document)@.embedded);
    }
    match register_font_on_pages(document, font_reference_id, font_id) {
        Ok(()) => {},
        Err(e) => {
            return Err(e);
        },
    }
    let ghost before = document@;
    let ghost prevec = document.embedded_fonts@;
    document.embedded_fonts.push(font_reference_id.to_owned());
    proof {
        assert(document.embedded_fonts@.drop_last() =~= prevec);
        assert(document.embedded_fonts@.last()@ == font_reference_id@);
        lemma_tags_push(prevec, document.embedded_fonts@, font_reference_id@);
        assert(before.embedded == tags_view(prevec));
        assert(document@.embedded == before.embedded.push(font_reference_id@));
        assert(document@.objects == before.objects);
        assert(document@.trailer == before.trailer);
        assert(document@.pages == before.pages);
        assert(document@.max_id == before.max_id);
        assert(document@ == (DocV {
            embedded: before.embedded.push(font_reference_id@),
            ..before
        }));
    }
    Ok(())
}

/// Pushing a tag onto the memo appends its view.
proof fn lemma_tags_push(olds: Seq<String>, news: Seq<String>, tag: Seq<char>)
    requires
        news.len() == olds.len() + 1,
        news.drop_last() == olds,
        news.last()@ == tag,
    ensures
        tags_view(news) == tags_view(olds).push(tag),
    decreases olds.len(),
{
    lemma_tags_view(olds);
    lemma_tags_view(news);
    assert forall|i: int| 0 <= i < news.len() implies tags_view(news)[i] == tags_view(
        olds,
    ).push(tag)[i] by {
        if i < olds.len() {
            assert(news[i] == news.drop_last()[i]);
        }
    }
    assert(tags_view(news) =~= tags_view(olds).push(tag));
}

/// The width table as objects.
fn cursive_widths_exec() -> (r: Vec<PdfObject>)
    ensures
        objs_view(r@) == cursive_widths().map_values(|w: int| ObjV::Int(w)),
{
    let table: Vec<i64> = vec![
        169, 295, 168, 579, 313, 632, 608, 106, 268, 507, 507, 326, 129, 249, 149, 377, 368, 243,
        331, 314, 403, 331, 336, 310, 351, 336, 154, 154, 293, 344, 293, 434, 707, 768, 562, 527,
        626, 478, 582, 576, 770, 365, 203, 560, 547, 830, 721, 594, 541, 599, 602, 451, 432, 611,
        538, 892, 542, 452, 453, 362, 498, 397, 313, 846, 223, 294, 269, 238, 294, 249, 182, 265,
        294, 192, 135, 324, 214, 470, 330, 265, 255, 279, 272, 232, 198, 393, 294, 500, 299, 344,
        234, 354, 364, 411, 277,
    ];
    let mut out: Vec<PdfObject> = Vec::new();
    let mut i: usize = 0;
    while i < table.len()
        invariant
            0 <= i <= table@.len(),
            table@ =~= cursive_widths().map_values(|w: int| w as i64),
            out@.len() == i,
            forall|j: int|
                0 <= j < i ==> crate::object::obj_view(#[trigger] out@[j]) == ObjV::Int(
                    cursive_widths()[j],
                ),
        decreases table@.len() - i,
    {
        out.push(PdfObject::Int(table[i]));
        i = i + 1;
    }
    proof {
        lemma_objs_view(out@);
        assert(objs_view(out@) =~= cursive_widths().map_values(|w: int| ObjV::Int(w)));
    }
    out
}


/// Registering a tag on one page changes neither the page list, the
/// trailer, nor the embedded-tag memo.
proof fn lemma_register_page_keeps(d: DocV, page: ObjectId, tag: Seq<char>, fid: ObjectId)
    ensures
        ({
            let s = register_page_spec(d, page, tag, fid);
            s is Ok ==> s->Ok_0.pages == d.pages && s->Ok_0.trailer == d.trailer
                && s->Ok_0.embedded == d.embedded && s->Ok_0.max_id == d.max_id
        }),
{
}

/// Registering a tag on a page list changes neither the page list, the
/// trailer, nor the embedded-tag memo.
pub proof fn lemma_register_pages_keeps(
    d: DocV,
    pages: Seq<ObjectId>,
    tag: Seq<char>,
    fid: ObjectId,
)
    ensures
        ({
            let s = register_pages_spec(d, pages, tag, fid);
            s is Ok ==> s->Ok_0.pages == d.pages && s->Ok_0.trailer == d.trailer
                && s->Ok_0.embedded == d.embedded && s->Ok_0.max_id == d.max_id
        }),
    decreases pages.len(),
{
    if pages.len() > 0 {
        match register_page_spec(d, pages[0], tag, fid) {
            Ok(d1) => {
                lemma_register_page_keeps(d, pages[0], tag, fid);
                lemma_register_pages_keeps(d1, pages.skip(1), tag, fid);
            },
            Err(_) => {},
        }
    }
}

/// Registering the base fonts changes neither the page list nor the
/// trailer nor the embedded-tag memo.
pub proof fn lemma_base_fonts_keeps(d: DocV)
    ensures
        ({
            let s = base_fonts_spec(d);
            s is Ok ==> s->Ok_0.pages == d.pages && s->Ok_0.trailer == d.trailer
                && s->Ok_0.embedded == d.embedded
        }),
{
    let d3 = d.with_added(ObjV::Dict(base_font_dict("Helvetica"@))).with_added(
        ObjV::Dict(base_font_dict("Courier"@)),
    ).with_added(ObjV::Dict(base_font_dict("Times New Roman"@)));
    let helv = d.next_id();
    let cour = d.with_added(ObjV::Dict(base_font_dict("Helvetica"@))).next_id();
    let times = d.with_added(ObjV::Dict(base_font_dict("Helvetica"@))).with_added(
        ObjV::Dict(base_font_dict("Courier"@)),
    ).next_id();
    lemma_register_pages_keeps(d3, d3.pages, "pdf-Serif"@, times);
    match register_pages_spec(d3, d3.pages, "pdf-Serif"@, times) {
        Ok(d4) => {
            lemma_register_pages_keeps(d4, d4.pages, "pdf-SansSerif"@, helv);
            match register_pages_spec(d4, d4.pages, "pdf-SansSerif"@, helv) {
                Ok(d5) => {
                    lemma_register_pages_keeps(d5, d5.pages, "pdf-Mono"@, cour);
                },
                Err(_) => {},
            }
        },
        Err(_) => {},
    }
}

/// Embedding changes neither the page list nor the trailer, and grows the
/// embedded-tag memo by at most the one tag.
pub proof fn lemma_embed_keeps(d: DocV, name: Seq<char>, tag: Seq<char>, data: Seq<u8>)
    ensures
        ({
            let s = embed_spec(d, name, tag, data);
            s is Ok ==> s->Ok_0.pages == d.pages && s->Ok_0.trailer == d.trailer && (
            s->Ok_0.embedded == d.embedded || s->Ok_0.embedded == d.embedded.push(tag))
        }),
{
    if !d.embedded.contains(tag) {
        let file_id = d.next_id();
        let d1 = d.with_added(
            ObjV::Stream(font_stream_dict(data.len() as int), DataV::Raw(data)),
        );
        let desc_id = d1.next_id();
        let d2 = d1.with_added(ObjV::Dict(descriptor_dict(name, file_id)));
        let font_id = d2.next_id();
        let d3 = d2.with_added(ObjV::Dict(ttf_font_dict(name, tag, desc_id)));
        lemma_register_pages_keeps(d3, d3.pages, tag, font_id);
    }
}

} // verus!
