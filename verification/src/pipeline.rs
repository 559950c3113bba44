//! The sequential overlay pipeline: strip forms, register base fonts,
//! draw each variable on its page, add the optional verification footer.
//!
//! Any failure aborts the whole document — the caller gets the error and
//! no output. Every variable's 0-indexed page must resolve before any
//! content is emitted. The output is pinned down as the fold of the
//! component contracts: `strip_spec`, `base_fonts_spec`, one drawing step
//! per variable, and one footer step per page, with the image resource
//! names as the only free choices.

use vstd::prelude::*;

use crate::acroform::{lemma_strip_keeps, remove_acroforms, strip_spec};
use crate::charwrap::hard_wrap_chars;
use crate::color::Color;
use crate::document::{media_box_of, DocV, Document};
use crate::error::PdfError;
use crate::font_embed::{
    base_fonts_spec, embed_spec, embed_ttf_font, lemma_base_fonts_keeps, reference_base_fonts,
};
use crate::fonts::{face_index, pdf_font_name, FontRegistry, FontType, FontWeight, MAX_SIZE_MILLI};
use crate::fontsize::{clamp_i64, get_most_used_font_size, most_used_size_spec};
use crate::image::{
    draw_image, draw_image_checks, draw_image_with_name, DrawImageOptions, ImageKind,
};
use crate::link::{add_link, add_link_spec, DrawLinkOptions};
use crate::object::ObjectId;
use crate::text::{
    draw_text, draw_text_fit, draw_text_fit_at, draw_text_spec, draw_text_wrap,
    draw_text_wrap_spec, opt_av, opt_color, DrawTextOptions,
};
use crate::util::{code_chars, crc32_of, verification_code};
use crate::vars::{ImageVariable, PdfVariable, TextAlignment, TextVariable, VerticalAlign};
use crate::wrap::fit_size_spec;
use vstd::string::StringExecFns;

verus! {

/// One fetched image: its bytes and the format its MIME type mapped to.
pub struct ImagePayload {
    pub data: Vec<u8>,
    pub kind: ImageKind,
}

/// The mathematical form of the fetched payloads.
pub open spec fn payloads_view(s: Seq<ImagePayload>) -> Seq<(Seq<u8>, ImageKind)>
    decreases s.len(),
{
    if s.len() == 0 {
        Seq::empty()
    } else {
        seq![(s[0].data@, s[0].kind)] + payloads_view(s.subrange(1, s.len() as int))
    }
}

/// The payload list's form has one entry per payload, in order.
pub proof fn lemma_payloads_view(s: Seq<ImagePayload>)
    ensures
        payloads_view(s).len() == s.len(),
        forall|i: int|
            #![trigger payloads_view(s)[i]]
            #![trigger s[i]]
            0 <= i < s.len() ==> payloads_view(s)[i] == (s[i].data@, s[i].kind),
    decreases s.len(),
{
    if s.len() > 0 {
        lemma_payloads_view(s.subrange(1, s.len() as int));
        assert forall|i: int| 0 <= i < s.len() implies #[trigger] payloads_view(s)[i] == (
        s[i].data@, s[i].kind) by {
            if i > 0 {
                assert(payloads_view(s)[i] == payloads_view(s.subrange(1, s.len() as int))[i - 1]);
                assert(s.subrange(1, s.len() as int)[i - 1] == s[i]);
            }
        }
    }
}

/// How many image variables a list holds.
pub open spec fn image_count(vars: Seq<PdfVariable>) -> int
    decreases vars.len(),
{
    if vars.len() == 0 {
        0
    } else {
        (match vars[0] {
            PdfVariable::Image(_) => 1int,
            _ => 0int,
        }) + image_count(vars.skip(1))
    }
}

/// A list never holds negatively many images.
pub proof fn lemma_image_count_nonneg(vars: Seq<PdfVariable>)
    ensures
        image_count(vars) >= 0,
    decreases vars.len(),
{
    if vars.len() > 0 {
        lemma_image_count_nonneg(vars.skip(1));
    }
}

/// Every variable's target page exists among the first `n` pages.
pub open spec fn pages_ok(vars: Seq<PdfVariable>, n: int) -> bool {
    forall|i: int|
        0 <= i < vars.len() ==> ((#[trigger] vars[i]).spec_page_index() as int) < n
}

/// The size and box limits the drawing layer needs of each text-bearing
/// variable.
pub open spec fn var_sizes_ok(vars: Seq<PdfVariable>) -> bool {
    forall|i: int|
        0 <= i < vars.len() ==> match #[trigger] vars[i] {
            PdfVariable::Text(v) => (match v.font_size {
                Some(s) => 0 <= s <= MAX_SIZE_MILLI,
                None => true,
            }) && 0 <= v.variable.h <= MAX_SIZE_MILLI,
            PdfVariable::Signature(v) => (match v.font_size {
                Some(s) => 0 <= s <= MAX_SIZE_MILLI,
                None => true,
            }) && 0 <= v.variable.h <= MAX_SIZE_MILLI,
            PdfVariable::Image(_) => true,
        }
}

/// The fallback font size of a stripped template: its most-used effective
/// size, clamped into the size cap.
pub open spec fn clamped_default_size(d: DocV) -> int {
    let m = most_used_size_spec(d);
    if m < 0 {
        0int
    } else if m > MAX_SIZE_MILLI {
        MAX_SIZE_MILLI as int
    } else {
        m
    }
}

/// What drawing one text variable does: the sans-serif face, the caller's
/// size or the template default, and the wrap policy unless the variable
/// turned wrapping off — then the fit policy at the searched size.
pub open spec fn text_step_spec(d: DocV, reg: FontRegistry, mu: int, v: TextVariable) -> Result<
    DocV,
    PdfError,
> {
    let size = match v.font_size {
        Some(s) => s as int,
        None => mu,
    };
    let ft = FontType::SansSerif;
    let font = reg.face_bytes(face_index(ft, FontWeight::Regular, false));
    let page = d.pages[v.variable.page as int];
    let wrap_it = match v.wrap {
        Some(b) => b,
        None => true,
    };
    if wrap_it {
        draw_text_wrap_spec(
            d,
            page,
            font,
            pdf_font_name(ft),
            ft,
            v.variable.value@,
            size,
            opt_color(v.color),
            v.align_h,
            opt_av(v.align_v),
            v.variable.x as int,
            v.variable.y as int,
            v.variable.w as int,
            v.variable.h as int,
        )
    } else {
        let pre = hard_wrap_chars(v.variable.value@, 25, 0);
        let sized = fit_size_spec(font, pre, v.variable.w as int, v.variable.h as int);
        if sized is None {
            Err(PdfError::FontFit)
        } else {
            draw_text_fit_at(
                d,
                page,
                font,
                pdf_font_name(ft),
                ft,
                pre,
                sized->0,
                opt_color(v.color),
                v.align_h,
                opt_av(v.align_v),
                v.variable.x as int,
                v.variable.y as int,
                v.variable.w as int,
                v.variable.h as int,
            )
        }
    }
}

/// What drawing one signature does: the cursive face is embedded first —
/// memoized, and refused when the id counter is nearly spent — then the
/// fit policy draws the value with Center/Bottom alignment defaults.
pub open spec fn signature_step_spec(
    d: DocV,
    reg: FontRegistry,
    mu: int,
    cursive: Seq<u8>,
    v: TextVariable,
) -> Result<DocV, PdfError> {
    let page = d.pages[v.variable.page as int];
    if d.max_id >= 0xffff_fff0 {
        Err(PdfError::ResourceAccess)
    } else {
        match embed_spec(d, "ABCDEE+ItalianoRegular"@, "pdf-Cursive"@, cursive) {
            Ok(d1) => {
                let size = match v.font_size {
                    Some(s) => s as int,
                    None => mu,
                };
                let ft = FontType::Cursive;
                let font = reg.face_bytes(face_index(ft, FontWeight::Regular, false));
                let al = match v.align_h {
                    Some(a) => Some(a),
                    None => Some(TextAlignment::Center),
                };
                let av = match v.align_v {
                    Some(a) => a,
                    None => VerticalAlign::Bottom,
                };
                let pre = hard_wrap_chars(v.variable.value@, 25, 0);
                let sized = fit_size_spec(font, pre, v.variable.w as int, v.variable.h as int);
                if sized is None {
                    Err(PdfError::FontFit)
                } else {
                    draw_text_fit_at(
                        d1,
                        page,
                        font,
                        pdf_font_name(ft),
                        ft,
                        pre,
                        sized->0,
                        opt_color(v.color),
                        al,
                        av,
                        v.variable.x as int,
                        v.variable.y as int,
                        v.variable.w as int,
                        v.variable.h as int,
                    )
                }
            },
            Err(e) => Err(e),
        }
    }
}

/// A text step keeps the page list.
proof fn lemma_text_step_keeps(d: DocV, reg: FontRegistry, mu: int, v: TextVariable)
    ensures
        ({
            let s = text_step_spec(d, reg, mu, v);
            s is Ok ==> s->Ok_0.pages == d.pages
        }),
{
    let ft = FontType::SansSerif;
    let font = reg.face_bytes(face_index(ft, FontWeight::Regular, false));
    let page = d.pages[v.variable.page as int];
    let size = match v.font_size {
        Some(s) => s as int,
        None => mu,
    };
    let wrap_it = match v.wrap {
        Some(b) => b,
        None => true,
    };
    if wrap_it {
        crate::text::lemma_draw_text_wrap_keeps(
            d,
            page,
            font,
            pdf_font_name(ft),
            ft,
            v.variable.value@,
            size,
            opt_color(v.color),
            v.align_h,
            opt_av(v.align_v),
            v.variable.x as int,
            v.variable.y as int,
            v.variable.w as int,
            v.variable.h as int,
        );
    } else {
        let pre = hard_wrap_chars(v.variable.value@, 25, 0);
        let sized = fit_size_spec(font, pre, v.variable.w as int, v.variable.h as int);
        if sized is Some {
            crate::text::lemma_draw_text_fit_at_keeps(
                d,
                page,
                font,
                pdf_font_name(ft),
                ft,
                pre,
                sized->0,
                opt_color(v.color),
                v.align_h,
                opt_av(v.align_v),
                v.variable.x as int,
                v.variable.y as int,
                v.variable.w as int,
                v.variable.h as int,
            );
        }
    }
}

/// A signature step keeps the page list.
proof fn lemma_signature_step_keeps(
    d: DocV,
    reg: FontRegistry,
    mu: int,
    cursive: Seq<u8>,
    v: TextVariable,
)
    ensures
        ({
            let s = signature_step_spec(d, reg, mu, cursive, v);
            s is Ok ==> s->Ok_0.pages == d.pages
        }),
{
    let page = d.pages[v.variable.page as int];
    if d.max_id < 0xffff_fff0 {
        crate::font_embed::lemma_embed_keeps(
            d,
            "ABCDEE+ItalianoRegular"@,
            "pdf-Cursive"@,
            cursive,
        );
        match embed_spec(d, "ABCDEE+ItalianoRegular"@, "pdf-Cursive"@, cursive) {
            Ok(d1) => {
                let size = match v.font_size {
                    Some(s) => s as int,
                    None => mu,
                };
                let ft = FontType::Cursive;
                let font = reg.face_bytes(face_index(ft, FontWeight::Regular, false));
                let al = match v.align_h {
                    Some(a) => Some(a),
                    None => Some(TextAlignment::Center),
                };
                let av = match v.align_v {
                    Some(a) => a,
                    None => VerticalAlign::Bottom,
                };
                let pre = hard_wrap_chars(v.variable.value@, 25, 0);
                let sized = fit_size_spec(font, pre, v.variable.w as int, v.variable.h as int);
                if sized is Some {
                    crate::text::lemma_draw_text_fit_at_keeps(
                        d1,
                        page,
                        font,
                        pdf_font_name(ft),
                        ft,
                        pre,
                        sized->0,
                        opt_color(v.color),
                        al,
                        av,
                        v.variable.x as int,
                        v.variable.y as int,
                        v.variable.w as int,
                        v.variable.h as int,
                    );
                }
            },
            Err(_) => {},
        }
    }
}

/// What drawing one image under some fresh 32-character name does.
pub open spec fn image_step_ok(
    d: DocV,
    d2: DocV,
    v: ImageVariable,
    data: Seq<u8>,
    kind: ImageKind,
) -> bool {
    exists|nm: Seq<char>|
        nm.len() == 32 && #[trigger] draw_image_with_name(
            d,
            d.pages[v.variable.page as int],
            data,
            kind,
            nm,
            v.variable.x as int,
            v.variable.y as int,
            v.variable.w as int,
            v.variable.h as int,
        ) == Ok::<DocV, PdfError>(d2)
}

/// The checks that decide an image step's failure, independent of the
/// chosen name.
pub open spec fn image_step_checks(d: DocV, v: ImageVariable, data: Seq<u8>, kind: ImageKind)
    -> Result<(), PdfError> {
    draw_image_checks(d, d.pages[v.variable.page as int], data, kind)
}

/// A successful run of the variable loop: each variable in turn rewrites
/// the document by its step, the image payloads are consumed in order,
/// and the run ends at `d2`.
pub open spec fn draw_vars_ok(
    d: DocV,
    d2: DocV,
    vars: Seq<PdfVariable>,
    imgs: Seq<(Seq<u8>, ImageKind)>,
    reg: FontRegistry,
    mu: int,
    cursive: Seq<u8>,
) -> bool
    decreases vars.len(),
{
    if vars.len() == 0 {
        d2 == d && imgs.len() == 0
    } else {
        match vars[0] {
            PdfVariable::Text(v) => (match text_step_spec(d, reg, mu, v) {
                Ok(dm) => draw_vars_ok(dm, d2, vars.skip(1), imgs, reg, mu, cursive),
                Err(_) => false,
            }),
            PdfVariable::Signature(v) => (match signature_step_spec(d, reg, mu, cursive, v) {
                Ok(dm) => draw_vars_ok(dm, d2, vars.skip(1), imgs, reg, mu, cursive),
                Err(_) => false,
            }),
            PdfVariable::Image(v) => imgs.len() >= 1 && exists|dm: DocV|
                #[trigger] image_step_ok(d, dm, v, imgs[0].0, imgs[0].1) && draw_vars_ok(
                    dm,
                    d2,
                    vars.skip(1),
                    imgs.skip(1),
                    reg,
                    mu,
                    cursive,
                ),
        }
    }
}

/// A failing run of the variable loop: some prefix of steps succeeds and
/// the next step fails with exactly the reported error.
pub open spec fn draw_vars_err(
    d: DocV,
    e: PdfError,
    vars: Seq<PdfVariable>,
    imgs: Seq<(Seq<u8>, ImageKind)>,
    reg: FontRegistry,
    mu: int,
    cursive: Seq<u8>,
) -> bool
    decreases vars.len(),
{
    vars.len() > 0 && (match vars[0] {
        PdfVariable::Text(v) => (match text_step_spec(d, reg, mu, v) {
            Ok(dm) => draw_vars_err(dm, e, vars.skip(1), imgs, reg, mu, cursive),
            Err(e2) => e == e2,
        }),
        PdfVariable::Signature(v) => (match signature_step_spec(d, reg, mu, cursive, v) {
            Ok(dm) => draw_vars_err(dm, e, vars.skip(1), imgs, reg, mu, cursive),
            Err(e2) => e == e2,
        }),
        PdfVariable::Image(v) => imgs.len() >= 1 && (match image_step_checks(
            d,
            v,
            imgs[0].0,
            imgs[0].1,
        ) {
            Err(e2) => e == e2,
            Ok(_u) => exists|dm: DocV|
                #[trigger] image_step_ok(d, dm, v, imgs[0].0, imgs[0].1) && draw_vars_err(
                    dm,
                    e,
                    vars.skip(1),
                    imgs.skip(1),
                    reg,
                    mu,
                    cursive,
                ),
        }),
    })
}

/// The verification link's URI.
pub open spec fn footer_url_chars(code: Seq<char>) -> Seq<char> {
    "https://docs.betterinternship.com?verification-code="@ + code
}

/// The verification caption.
pub open spec fn footer_caption_chars(code: Seq<char>) -> Seq<char> {
    "BetterInternship E-Sign Verification Code: "@ + code
}

/// What one footer step does: near the page's top-right corner, a
/// borderless link to the verification URI over a 220x12pt box, then the
/// gray 9pt sans-serif caption in the same box.
pub open spec fn footer_step_spec(d: DocV, page: ObjectId, code: Seq<char>, reg: FontRegistry)
    -> Result<DocV, PdfError> {
    match media_box_of(d, page) {
        Some(mb) => {
            let fx = clamp_i64(mb.2 - 350000);
            let fy = clamp_i64(mb.3 - 20000);
            match add_link_spec(
                d,
                page,
                vstd::utf8::encode_utf8(footer_url_chars(code)),
                fx,
                fy,
                220000,
                12000,
            ) {
                Ok(d1) => draw_text_spec(
                    d1,
                    page,
                    reg.face_bytes(face_index(FontType::SansSerif, FontWeight::Regular, false)),
                    pdf_font_name(FontType::SansSerif),
                    FontType::SansSerif,
                    footer_caption_chars(code),
                    9000,
                    Color(0x80, 0x80, 0x80),
                    fx,
                    fy,
                ),
                Err(e) => Err(e),
            }
        },
        None => Err(PdfError::ResourceAccess),
    }
}

/// The footer pass over pages `i..n`, reading each page handle from the
/// document as it then stands.
pub open spec fn footer_fold(d: DocV, i: int, n: int, code: Seq<char>, reg: FontRegistry)
    -> Result<DocV, PdfError>
    decreases n - i,
{
    if i < 0 || i >= n {
        Ok(d)
    } else if i >= d.pages.len() {
        Err(PdfError::PageNotFound)
    } else {
        match footer_step_spec(d, d.pages[i], code, reg) {
            Ok(d1) => footer_fold(d1, i + 1, n, code, reg),
            Err(e) => Err(e),
        }
    }
}

/// A successful run of the whole pipeline: strip, register the base
/// fonts, draw every variable, and — under the flag — run the footer pass
/// over every page.
pub open spec fn generate_ok_rel(
    d0: DocV,
    dn: DocV,
    vars: Seq<PdfVariable>,
    imgs: Seq<(Seq<u8>, ImageKind)>,
    with_footer: bool,
    ts: u64,
    template: Seq<u8>,
    schema: Seq<u8>,
    reg: FontRegistry,
    cursive: Seq<u8>,
) -> bool {
    let d1 = strip_spec(d0);
    let mu = clamped_default_size(d1);
    let code = code_chars(ts as int, crc32_of(template), crc32_of(schema));
    &&& d1.max_id < 0xffff_fff0
    &&& match base_fonts_spec(d1) {
        Ok(d2) => exists|d3: DocV|
            #[trigger] draw_vars_ok(d2, d3, vars, imgs, reg, mu, cursive) && (if with_footer {
                footer_fold(d3, 0, d3.pages.len() as int, code, reg) == Ok::<DocV, PdfError>(dn)
            } else {
                dn == d3
            }),
        Err(_) => false,
    }
}

/// A failing run of the whole pipeline: the stage that failed reported
/// exactly this error.
pub open spec fn generate_err_rel(
    d0: DocV,
    e: PdfError,
    vars: Seq<PdfVariable>,
    imgs: Seq<(Seq<u8>, ImageKind)>,
    with_footer: bool,
    ts: u64,
    template: Seq<u8>,
    schema: Seq<u8>,
    reg: FontRegistry,
    cursive: Seq<u8>,
) -> bool {
    let d1 = strip_spec(d0);
    let mu = clamped_default_size(d1);
    let code = code_chars(ts as int, crc32_of(template), crc32_of(schema));
    ||| (e == PdfError::ResourceAccess && d1.max_id >= 0xffff_fff0)
    ||| (d1.max_id < 0xffff_fff0 && (match base_fonts_spec(d1) {
        Err(e2) => e == e2,
        Ok(d2) => draw_vars_err(d2, e, vars, imgs, reg, mu, cursive) || (with_footer
            && exists|d3: DocV|
            #[trigger] draw_vars_ok(d2, d3, vars, imgs, reg, mu, cursive) && footer_fold(
                d3,
                0,
                d3.pages.len() as int,
                code,
                reg,
            ) == Err::<DocV, PdfError>(e)),
    }))
}

/// Runs the whole overlay pipeline over a loaded template: strips
/// interactive forms, registers the base fonts, draws each variable in
/// order on its 0-indexed page — a page that does not resolve fails the
/// whole run before any content is emitted — then adds the verification
/// footer to every page when asked to. On any failure nothing is handed
/// back, and the error is the failing stage's own.
#[verifier::rlimit(80)]
pub fn generate_document(
    document: Document,
    registry: &FontRegistry,
    cursive_data: &Vec<u8>,
    variables: &Vec<PdfVariable>,
    images: &Vec<ImagePayload>,
    include_verification: bool,
    timestamp: u64,
    template_bytes: &Vec<u8>,
    schema_bytes: &Vec<u8>,
) -> (r: Result<Document, PdfError>)
    requires
        var_sizes_ok(variables@),
        images@.len() == image_count(variables@),
        cursive_data@.len() <= 0x7fff_ffff,
    ensures
        (exists|i: int|
            0 <= i < variables@.len() && ((#[trigger] variables@[i]).spec_page_index() as int)
                >= document@.pages.len()) ==> r == Err::<Document, PdfError>(
            PdfError::PageNotFound,
        ),
        r is Ok ==> pages_ok(variables@, document@.pages.len() as int),
        r is Ok ==> generate_ok_rel(
            document@,
            r->Ok_0@,
            variables@,
            payloads_view(images@),
            include_verification,
            timestamp,
            template_bytes@,
            schema_bytes@,
            *registry,
            cursive_data@,
        ),
        pages_ok(variables@, document@.pages.len() as int) && r is Err
            ==> generate_err_rel(
            document@,
            r->Err_0,
            variables@,
            payloads_view(images@),
            include_verification,
            timestamp,
            template_bytes@,
            schema_bytes@,
            *registry,
            cursive_data@,
        ),
{
    let ghost n0 = document@.pages.len() as int;
    let ghost pv = payloads_view(images@);
    let page_count = document.page_count();
    let mut i: usize = 0;
    while i < variables.len()
        invariant
            0 <= i <= variables@.len(),
            n0 == document@.pages.len(),
            page_count == n0,
            forall|j: int|
                0 <= j < i ==> ((#[trigger] variables@[j]).spec_page_index() as int) < n0,
        decreases variables@.len() - i,
    {
        if variables[i].page_index() >= page_count {
            return Err(PdfError::PageNotFound);
        }
        i = i + 1;
    }
    proof {
        assert(pages_ok(variables@, n0));
        if exists|k: int|
            0 <= k < variables@.len() && ((#[trigger] variables@[k]).spec_page_index() as int)
                >= n0 {
            let k = choose|k: int|
                0 <= k < variables@.len() && ((#[trigger] variables@[k]).spec_page_index() as int)
                    >= n0;
            assert(false);
        }
        lemma_payloads_view(images@);
    }

    let mut doc = document;
    remove_acroforms(&mut doc);
    let ghost d1v = doc@;
    let mu = get_most_used_font_size(&doc);
    let mu: i64 = if mu < 0 {
        0
    } else if mu > MAX_SIZE_MILLI {
        MAX_SIZE_MILLI
    } else {
        mu
    };
    proof {
        assert(d1v == strip_spec(document@));
        assert(mu as int == clamped_default_size(d1v));
        lemma_strip_keeps(document@);
    }
    if !(doc.max_id < 0xffff_fff0) {
        return Err(PdfError::ResourceAccess);
    }
    match reference_base_fonts(&mut doc) {
        Ok(()) => {},
        Err(e) => {
            return Err(e);
        },
    }
    let ghost d2v = doc@;
    proof {
        assert(base_fonts_spec(d1v) == Ok::<DocV, PdfError>(d2v));
        lemma_base_fonts_keeps(d1v);
        assert(d2v.pages == document@.pages);
    }

    let ghost mus = mu as int;
    let ghost cur = cursive_data@;
    let mut img_idx: usize = 0;
    let mut i: usize = 0;
    proof {
        assert(variables@.skip(0) =~= variables@);
        assert(pv.skip(0) =~= pv);
    }
    while i < variables.len()
        invariant
            0 <= i <= variables@.len(),
            var_sizes_ok(variables@),
            n0 == document@.pages.len(),
            pages_ok(variables@, n0),
            0 <= mu <= MAX_SIZE_MILLI,
            mus == mu as int,
            cur == cursive_data@,
            cursive_data@.len() <= 0x7fff_ffff,
            pv == payloads_view(images@),
            pv.len() == images@.len(),
            d1v == strip_spec(document@),
            d1v.max_id < 0xffff_fff0,
            mus == clamped_default_size(d1v),
            base_fonts_spec(d1v) == Ok::<DocV, PdfError>(d2v),
            doc@.pages == document@.pages,
            img_idx + image_count(variables@.skip(i as int)) == images@.len(),
            0 <= img_idx <= images@.len(),
            forall|dn: DocV|
                #[trigger] draw_vars_ok(
                    doc@,
                    dn,
                    variables@.skip(i as int),
                    pv.skip(img_idx as int),
                    *registry,
                    mus,
                    cur,
                ) ==> draw_vars_ok(d2v, dn, variables@, pv, *registry, mus, cur),
            forall|e: PdfError|
                #[trigger] draw_vars_err(
                    doc@,
                    e,
                    variables@.skip(i as int),
                    pv.skip(img_idx as int),
                    *registry,
                    mus,
                    cur,
                ) ==> draw_vars_err(d2v, e, variables@, pv, *registry, mus, cur),
        decreases variables@.len() - i,
    {
        let ghost dpre = doc@;
        let ghost vrest = variables@.skip(i as int);
        let ghost irest = pv.skip(img_idx as int);
        proof {
            assert(vrest[0] == variables@[i as int]);
            assert(vrest.skip(1) =~= variables@.skip(i as int + 1));
            lemma_image_count_nonneg(variables@.skip(i as int + 1));
            assert(match variables@[i as int] {
                PdfVariable::Text(tv) => (match tv.font_size {
                    Some(s) => 0 <= s <= MAX_SIZE_MILLI,
                    None => true,
                }) && 0 <= tv.variable.h <= MAX_SIZE_MILLI,
                PdfVariable::Signature(tv) => (match tv.font_size {
                    Some(s) => 0 <= s <= MAX_SIZE_MILLI,
                    None => true,
                }) && 0 <= tv.variable.h <= MAX_SIZE_MILLI,
                PdfVariable::Image(_) => true,
            });
        }
        let idx = variables[i].page_index();
        let pid = match doc.page_id(idx) {
            Ok(p) => p,
            Err(e) => {
                proof {
                    assert(false);
                }
                return Err(e);
            },
        };
        match &variables[i] {
            PdfVariable::Text(v) => {
                proof {
                    assert(variables@[i as int] == PdfVariable::Text(*v));
                }
                let size = match v.font_size {
                    Some(s) => s,
                    None => mu,
                };
                let opts = DrawTextOptions {
                    text: v.variable.value.as_str(),
                    font_size: size,
                    font_weight: None,
                    font_type: Some(FontType::SansSerif),
                    text_alignment: v.align_h,
                    align_v: v.align_v,
                    color: v.color,
                    x: v.variable.x,
                    y: v.variable.y,
                    w: v.variable.w,
                    h: v.variable.h,
                };
                let wrap_it = match v.wrap {
                    Some(b) => b,
                    None => true,
                };
                let step = if wrap_it {
                    draw_text_wrap(&mut doc, registry, pid, opts)
                } else {
                    draw_text_fit(&mut doc, registry, pid, opts)
                };
                match step {
                    Ok(()) => {
                        proof {
                            assert(text_step_spec(dpre, *registry, mus, *v) == Ok::<
                                DocV,
                                PdfError,
                            >(doc@));
                            lemma_text_step_keeps(dpre, *registry, mus, *v);
                            assert forall|dn: DocV|
                                #[trigger] draw_vars_ok(
                                    doc@,
                                    dn,
                                    variables@.skip(i as int + 1),
                                    pv.skip(img_idx as int),
                                    *registry,
                                    mus,
                                    cur,
                                ) implies draw_vars_ok(
                                d2v,
                                dn,
                                variables@,
                                pv,
                                *registry,
                                mus,
                                cur,
                            ) by {
                                assert(draw_vars_ok(dpre, dn, vrest, irest, *registry, mus, cur));
                            }
                            assert forall|e: PdfError|
                                #[trigger] draw_vars_err(
                                    doc@,
                                    e,
                                    variables@.skip(i as int + 1),
                                    pv.skip(img_idx as int),
                                    *registry,
                                    mus,
                                    cur,
                                ) implies draw_vars_err(
                                d2v,
                                e,
                                variables@,
                                pv,
                                *registry,
                                mus,
                                cur,
                            ) by {
                                assert(draw_vars_err(dpre, e, vrest, irest, *registry, mus, cur));
                            }
                        }
                    },
                    Err(e) => {
                        proof {
                            assert(text_step_spec(dpre, *registry, mus, *v) == Err::<
                                DocV,
                                PdfError,
                            >(e));
                            assert(draw_vars_err(dpre, e, vrest, irest, *registry, mus, cur));
                        }
                        return Err(e);
                    },
                }
            },
            PdfVariable::Signature(v) => {
                proof {
                    assert(variables@[i as int] == PdfVariable::Signature(*v));
                }
                if !(doc.max_id < 0xffff_fff0) {
                    proof {
                        assert(signature_step_spec(dpre, *registry, mus, cur, *v) == Err::<
                            DocV,
                            PdfError,
                        >(PdfError::ResourceAccess));
                        assert(draw_vars_err(
                            dpre,
                            PdfError::ResourceAccess,
                            vrest,
                            irest,
                            *registry,
                            mus,
                            cur,
                        ));
                    }
                    return Err(PdfError::ResourceAccess);
                }
                match embed_ttf_font(
                    &mut doc,
                    "ABCDEE+ItalianoRegular",
                    "pdf-Cursive",
                    cursive_data,
                ) {
                    Ok(()) => {},
                    Err(e) => {
                        proof {
                            assert(signature_step_spec(dpre, *registry, mus, cur, *v) == Err::<
                                DocV,
                                PdfError,
                            >(e));
                            assert(draw_vars_err(dpre, e, vrest, irest, *registry, mus, cur));
                        }
                        return Err(e);
                    },
                }
                proof {
                    crate::font_embed::lemma_embed_keeps(
                        dpre,
                        "ABCDEE+ItalianoRegular"@,
                        "pdf-Cursive"@,
                        cur,
                    );
                }
                let size = match v.font_size {
                    Some(s) => s,
                    None => mu,
                };
                let al = match v.align_h {
                    Some(a) => Some(a),
                    None => Some(TextAlignment::Center),
                };
                let av = match v.align_v {
                    Some(a) => Some(a),
                    None => Some(VerticalAlign::Bottom),
                };
                let opts = DrawTextOptions {
                    text: v.variable.value.as_str(),
                    font_size: size,
                    font_weight: Some(FontWeight::Regular),
                    font_type: Some(FontType::Cursive),
                    text_alignment: al,
                    align_v: av,
                    color: v.color,
                    x: v.variable.x,
                    y: v.variable.y,
                    w: v.variable.w,
                    h: v.variable.h,
                };
                match draw_text_fit(&mut doc, registry, pid, opts) {
                    Ok(()) => {
                        proof {
                            assert(signature_step_spec(dpre, *registry, mus, cur, *v) == Ok::<
                                DocV,
                                PdfError,
                            >(doc@));
                            lemma_signature_step_keeps(dpre, *registry, mus, cur, *v);
                            assert forall|dn: DocV|
                                #[trigger] draw_vars_ok(
                                    doc@,
                                    dn,
                                    variables@.skip(i as int + 1),
                                    pv.skip(img_idx as int),
                                    *registry,
                                    mus,
                                    cur,
                                ) implies draw_vars_ok(
                                d2v,
                                dn,
                                variables@,
                                pv,
                                *registry,
                                mus,
                                cur,
                            ) by {
                                assert(draw_vars_ok(dpre, dn, vrest, irest, *registry, mus, cur));
                            }
                            assert forall|e: PdfError|
                                #[trigger] draw_vars_err(
                                    doc@,
                                    e,
                                    variables@.skip(i as int + 1),
                                    pv.skip(img_idx as int),
                                    *registry,
                                    mus,
                                    cur,
                                ) implies draw_vars_err(
                                d2v,
                                e,
                                variables@,
                                pv,
                                *registry,
                                mus,
                                cur,
                            ) by {
                                assert(draw_vars_err(dpre, e, vrest, irest, *registry, mus, cur));
                            }
                        }
                    },
                    Err(e) => {
                        proof {
                            assert(signature_step_spec(dpre, *registry, mus, cur, *v) == Err::<
                                DocV,
                                PdfError,
                            >(e));
                            assert(draw_vars_err(dpre, e, vrest, irest, *registry, mus, cur));
                        }
                        return Err(e);
                    },
                }
            },
            PdfVariable::Image(v) => {
                proof {
                    lemma_payloads_view(images@);
                    assert(variables@[i as int] == PdfVariable::Image(*v));
                    assert(image_count(variables@.skip(i as int)) == 1 + image_count(
                        variables@.skip(i as int + 1),
                    ));
                    assert(image_count(variables@.skip(i as int)) >= 1);
                    assert(img_idx < images@.len());
                    assert(irest[0] == pv[img_idx as int]);
                    assert(irest.skip(1) =~= pv.skip(img_idx as int + 1));
                    assert(pv[img_idx as int] == (
                        images@[img_idx as int].data@,
                        images@[img_idx as int].kind,
                    ));
                }
                let n_imgs = images.len();
                proof {
                    assert(img_idx < n_imgs);
                }
                let payload = &images[img_idx];
                let step = draw_image(
                    &mut doc,
                    pid,
                    DrawImageOptions {
                        image_data: &payload.data,
                        image_type: payload.kind,
                        x: v.variable.x,
                        y: v.variable.y,
                        w: v.variable.w,
                        h: v.variable.h,
                    },
                );
                match step {
                    Ok(()) => {
                        proof {
                            assert(image_step_ok(dpre, doc@, *v, irest[0].0, irest[0].1));
                            let nm = choose|nm: Seq<char>|
                                nm.len() == 32 && #[trigger] draw_image_with_name(
                                    dpre,
                                    dpre.pages[v.variable.page as int],
                                    irest[0].0,
                                    irest[0].1,
                                    nm,
                                    v.variable.x as int,
                                    v.variable.y as int,
                                    v.variable.w as int,
                                    v.variable.h as int,
                                ) == Ok::<DocV, PdfError>(doc@);
                            crate::image::lemma_draw_image_keeps(
                                dpre,
                                dpre.pages[v.variable.page as int],
                                irest[0].0,
                                irest[0].1,
                                nm,
                                v.variable.x as int,
                                v.variable.y as int,
                                v.variable.w as int,
                                v.variable.h as int,
                            );
                            assert forall|dn: DocV|
                                #[trigger] draw_vars_ok(
                                    doc@,
                                    dn,
                                    variables@.skip(i as int + 1),
                                    pv.skip(img_idx as int + 1),
                                    *registry,
                                    mus,
                                    cur,
                                ) implies draw_vars_ok(
                                d2v,
                                dn,
                                variables@,
                                pv,
                                *registry,
                                mus,
                                cur,
                            ) by {
                                assert(draw_vars_ok(dpre, dn, vrest, irest, *registry, mus, cur));
                            }
                            assert forall|e: PdfError|
                                #[trigger] draw_vars_err(
                                    doc@,
                                    e,
                                    variables@.skip(i as int + 1),
                                    pv.skip(img_idx as int + 1),
                                    *registry,
                                    mus,
                                    cur,
                                ) implies draw_vars_err(
                                d2v,
                                e,
                                variables@,
                                pv,
                                *registry,
                                mus,
                                cur,
                            ) by {
                                assert(image_step_checks(dpre, *v, irest[0].0, irest[0].1)
                                    is Ok);
                                assert(draw_vars_err(dpre, e, vrest, irest, *registry, mus, cur));
                            }
                        }
                    },
                    Err(e) => {
                        proof {
                            assert(image_step_checks(dpre, *v, irest[0].0, irest[0].1) == Err::<
                                (),
                                PdfError,
                            >(e));
                            assert(draw_vars_err(dpre, e, vrest, irest, *registry, mus, cur));
                        }
                        return Err(e);
                    },
                }
                img_idx = img_idx + 1;
            },
        }
        i = i + 1;
    }
    proof {
        assert(variables@.skip(variables@.len() as int) =~= Seq::<PdfVariable>::empty());
        assert(image_count(Seq::<PdfVariable>::empty()) == 0);
        assert(img_idx == images@.len());
        assert(pv.skip(img_idx as int).len() == 0);
        assert(draw_vars_ok(
            doc@,
            doc@,
            variables@.skip(variables@.len() as int),
            pv.skip(img_idx as int),
            *registry,
            mus,
            cur,
        ));
        assert(draw_vars_ok(d2v, doc@, variables@, pv, *registry, mus, cur));
    }
    let ghost d3v = doc@;

    if include_verification {
        let code = verification_code(timestamp, template_bytes, schema_bytes);
        let ghost codev = code_chars(
            timestamp as int,
            crc32_of(template_bytes@),
            crc32_of(schema_bytes@),
        );
        let n = doc.page_count();
        let mut p: usize = 0;
        proof {
            assert(n == d3v.pages.len());
        }
        while p < n
            invariant
                include_verification,
                0 <= p <= n,
                n0 == document@.pages.len(),
                pages_ok(variables@, n0),
                code@ == codev,
                codev == code_chars(
                    timestamp as int,
                    crc32_of(template_bytes@),
                    crc32_of(schema_bytes@),
                ),
                n == d3v.pages.len(),
                d1v == strip_spec(document@),
                d1v.max_id < 0xffff_fff0,
                base_fonts_spec(d1v) == Ok::<DocV, PdfError>(d2v),
                draw_vars_ok(d2v, d3v, variables@, pv, *registry, mus, cur),
                pv == payloads_view(images@),
                mus == clamped_default_size(d1v),
                cur == cursive_data@,
                footer_fold(d3v, 0, n as int, codev, *registry) == footer_fold(
                    doc@,
                    p as int,
                    n as int,
                    codev,
                    *registry,
                ),
            decreases n - p,
        {
            let ghost dpre = doc@;
            let pid = match doc.page_id(p) {
                Ok(id) => id,
                Err(e) => {
                    proof {
                        assert(footer_fold(dpre, p as int, n as int, codev, *registry) == Err::<
                            DocV,
                            PdfError,
                        >(PdfError::PageNotFound));
                        assert(footer_fold(d3v, 0, n as int, codev, *registry) == Err::<
                            DocV,
                            PdfError,
                        >(e));
                        assert(draw_vars_ok(d2v, d3v, variables@, pv, *registry, mus, cur));
                    }
                    return Err(e);
                },
            };
            let mb = match crate::document::get_page_media_box(&doc, pid) {
                Ok(b) => b,
                Err(e) => {
                    proof {
                        assert(footer_step_spec(dpre, pid, codev, *registry) == Err::<
                            DocV,
                            PdfError,
                        >(PdfError::ResourceAccess));
                        assert(footer_fold(d3v, 0, n as int, codev, *registry) == Err::<
                            DocV,
                            PdfError,
                        >(e));
                        assert(draw_vars_ok(d2v, d3v, variables@, pv, *registry, mus, cur));
                    }
                    return Err(e);
                },
            };
            let fx = crate::text::sub_c(mb.2, 350000);
            let fy = crate::text::sub_c(mb.3, 20000);
            let mut url = "https://docs.betterinternship.com?verification-code=".to_owned();
            url.append(code.as_str());
            proof {
                assert(url@ == footer_url_chars(codev));
            }
            match add_link(
                &mut doc,
                pid,
                DrawLinkOptions { link: url.as_str(), x: fx, y: fy, w: 220000, h: 12000 },
            ) {
                Ok(()) => {},
                Err(e) => {
                    proof {
                        assert(footer_step_spec(dpre, pid, codev, *registry) == Err::<
                            DocV,
                            PdfError,
                        >(e));
                        assert(footer_fold(d3v, 0, n as int, codev, *registry) == Err::<
                            DocV,
                            PdfError,
                        >(e));
                        assert(draw_vars_ok(d2v, d3v, variables@, pv, *registry, mus, cur));
                    }
                    return Err(e);
                },
            }
            let mut caption = "BetterInternship E-Sign Verification Code: ".to_owned();
            caption.append(code.as_str());
            proof {
                assert(caption@ == footer_caption_chars(codev));
            }
            let step = draw_text(
                &mut doc,
                registry,
                pid,
                DrawTextOptions {
                    text: caption.as_str(),
                    font_size: 9000,
                    font_weight: Some(FontWeight::Regular),
                    font_type: Some(FontType::SansSerif),
                    text_alignment: None,
                    align_v: None,
                    color: Some(Color::from_rgb(0x80, 0x80, 0x80)),
                    x: fx,
                    y: fy,
                    w: 220000,
                    h: 12000,
                },
            );
            match step {
                Ok(()) => {
                    proof {
                        assert(footer_step_spec(dpre, pid, codev, *registry) == Ok::<
                            DocV,
                            PdfError,
                        >(doc@));
                    }
                },
                Err(e) => {
                    proof {
                        assert(footer_step_spec(dpre, pid, codev, *registry) == Err::<
                            DocV,
                            PdfError,
                        >(e));
                        assert(footer_fold(d3v, 0, n as int, codev, *registry) == Err::<
                            DocV,
                            PdfError,
                        >(e));
                        assert(draw_vars_ok(d2v, d3v, variables@, pv, *registry, mus, cur));
                    }
                    return Err(e);
                },
            }
            p = p + 1;
        }
        proof {
            assert(footer_fold(doc@, n as int, n as int, codev, *registry) == Ok::<
                DocV,
                PdfError,
            >(doc@));
        }
    }
    proof {
        assert(draw_vars_ok(d2v, d3v, variables@, pv, *registry, mus, cur));
    }
    Ok(doc)
}

} // verus!
