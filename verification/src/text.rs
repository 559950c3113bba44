//! Text and signature drawing: operator synthesis for one run of text,
//! and the wrap and fit layout policies around it.
//!
//! Every emitted operator list is pinned down exactly: set fill color,
//! begin text, select font and size, set the text matrix to the flipped
//! position, show the text — the cursive face one glyph at a time with
//! explicit relative advances — and end text.

use vstd::prelude::*;

use crate::charwrap::{hard_wrap_by_chars, hard_wrap_chars};
use crate::color::Color;
use crate::document::{append_content_spec, media_box_of, get_page_media_box, DocV, Document};
use crate::error::PdfError;
use crate::fonts::{
    face_index, face_upem_of, get_font_pdf_name, pdf_font_name, shaped_advances,
    shaped_advances_of, text_width_chars, text_width_of, FontFace, FontRegistry, FontType,
    FontWeight, MAX_SIZE_MILLI,
};
use crate::fontsize::clamp_i64;
use crate::object::{ops_view, ContentOp, ObjV, ObjectId, OpV, PdfObject};
use crate::strutil::{chars_to_string, str_chars};
use crate::vars::{TextAlignment, VerticalAlign};
use crate::wrap::{
    fit_size_spec, fit_text_font_size, fits_box, line_texts, max_line_width, max_width_from,
    wrap_lines_of,
    wrap_text_lines,
};

verus! {

/// What to draw and where: the text, its typography, and the box in
/// milli-points with y measured top-down.
pub struct DrawTextOptions<'a> {
    pub text: &'a str,
    pub font_size: i64,
    pub font_weight: Option<FontWeight>,
    pub font_type: Option<FontType>,
    pub text_alignment: Option<TextAlignment>,
    pub align_v: Option<VerticalAlign>,
    pub color: Option<Color>,
    pub x: i64,
    pub y: i64,
    pub w: i64,
    pub h: i64,
}

/// Division rounded toward zero; positive divisors only.
pub open spec fn trunc_div(n: int, d: int) -> int {
    if d <= 0 {
        0
    } else if n >= 0 {
        n / d
    } else {
        -((-n) / d)
    }
}

/// The font type a request resolves to.
pub open spec fn opt_ft(o: Option<FontType>) -> FontType {
    match o {
        Some(t) => t,
        None => FontType::Serif,
    }
}

/// The font weight a request resolves to.
pub open spec fn opt_fw(o: Option<FontWeight>) -> FontWeight {
    match o {
        Some(w) => w,
        None => FontWeight::Regular,
    }
}

/// The fill color a request resolves to.
pub open spec fn opt_color(o: Option<Color>) -> Color {
    match o {
        Some(c) => c,
        None => Color(0, 0, 0),
    }
}

/// The vertical alignment a request resolves to.
pub open spec fn opt_av(o: Option<VerticalAlign>) -> VerticalAlign {
    match o {
        Some(a) => a,
        None => VerticalAlign::Top,
    }
}

/// The explicit relative advance after one cursive glyph, in milli-points.
pub open spec fn cursive_adv(xa: int, size: int, upem: int) -> int {
    clamp_i64(trunc_div(xa * size, upem) - (3 * size * size) / (4000 * upem))
}

/// The per-glyph operators of the cursive face, from glyph `i` on: each
/// glyph is shown on its own, paired with its character (a space when the
/// glyphs outnumber the characters), followed by its relative advance
/// whenever the raw advance is nonzero.
pub open spec fn cursive_ops(
    advs: Seq<i32>,
    text: Seq<char>,
    size: int,
    upem: int,
    i: int,
) -> Seq<OpV>
    decreases advs.len() - i,
{
    if i < 0 || i >= advs.len() {
        Seq::empty()
    } else {
        let c = if i < text.len() {
            text[i]
        } else {
            ' '
        };
        let show = OpV {
            op: "Tj"@,
            args: seq![ObjV::Str(vstd::utf8::encode_utf8(seq![c]))],
        };
        let rest = cursive_ops(advs, text, size, upem, i + 1);
        if advs[i] != 0 {
            seq![
                show,
                OpV {
                    op: "Td"@,
                    args: seq![ObjV::Real(cursive_adv(advs[i] as int, size, upem)), ObjV::Int(0)],
                },
            ] + rest
        } else {
            seq![show] + rest
        }
    }
}

/// The operator list one run of text emits: fill color, begin text, font
/// select, text matrix at the flipped position, the show operators, end
/// text.
pub open spec fn text_ops_spec(
    font: Seq<u8>,
    name: Seq<char>,
    ft: FontType,
    text: Seq<char>,
    size: int,
    color: Color,
    x: int,
    baseline: int,
) -> Seq<OpV> {
    let head = seq![
        OpV {
            op: "rg"@,
            args: seq![
                ObjV::Real(color.0 as int * 1000 / 255),
                ObjV::Real(color.1 as int * 1000 / 255),
                ObjV::Real(color.2 as int * 1000 / 255),
            ],
        },
        OpV { op: "BT"@, args: Seq::empty() },
        OpV { op: "Tf"@, args: seq![ObjV::Name(name), ObjV::Real(size)] },
        OpV {
            op: "Tm"@,
            args: seq![
                ObjV::Int(1),
                ObjV::Int(0),
                ObjV::Int(0),
                ObjV::Int(1),
                ObjV::Real(x),
                ObjV::Real(baseline),
            ],
        },
    ];
    let body = if ft is Cursive {
        cursive_ops(shaped_advances_of(font, text), text, size, face_upem_of(font), 0)
    } else {
        seq![OpV { op: "Tj"@, args: seq![ObjV::Str(vstd::utf8::encode_utf8(text))] }]
    };
    head + body + seq![OpV { op: "ET"@, args: Seq::empty() }]
}

/// What drawing one run of text does: the page's media box supplies the
/// height for the top-down flip, and the operator list is appended to the
/// page's content.
pub open spec fn draw_text_spec(
    d: DocV,
    page: ObjectId,
    font: Seq<u8>,
    name: Seq<char>,
    ft: FontType,
    text: Seq<char>,
    size: int,
    color: Color,
    x: int,
    y: int,
) -> Result<DocV, PdfError> {
    match media_box_of(d, page) {
        Some(mb) => {
            let baseline = clamp_i64(mb.3 - y - size / 5);
            append_content_spec(
                d,
                page,
                text_ops_spec(font, name, ft, text, size, color, x, baseline),
            )
        },
        None => Err(PdfError::ResourceAccess),
    }
}

/// The flipped baseline of a run of text: the page height minus the
/// top-down y minus a fifth of the font size, clamped into i64.
fn baseline_c(ph: i64, y: i64, size: i64) -> (r: i64)
    requires
        size >= 0,
    ensures
        r as int == clamp_i64(ph as int - y as int - size as int / 5),
{
    let s: i128 = ph as i128 - y as i128 - (size / 5) as i128;
    if s > 0x7fff_ffff_ffff_ffff {
        i64::MAX
    } else if s < -0x8000_0000_0000_0000 {
        i64::MIN
    } else {
        s as i64
    }
}

/// Adds with clamping into i64.
pub(crate) fn add_c(a: i64, b: i64) -> (r: i64)
    ensures
        r as int == clamp_i64(a as int + b as int),
{
    let s: i128 = a as i128 + b as i128;
    if s > 0x7fff_ffff_ffff_ffff {
        i64::MAX
    } else if s < -0x8000_0000_0000_0000 {
        i64::MIN
    } else {
        s as i64
    }
}

/// Subtracts with clamping into i64.
pub(crate) fn sub_c(a: i64, b: i64) -> (r: i64)
    ensures
        r as int == clamp_i64(a as int - b as int),
{
    let s: i128 = a as i128 - b as i128;
    if s > 0x7fff_ffff_ffff_ffff {
        i64::MAX
    } else if s < -0x8000_0000_0000_0000 {
        i64::MIN
    } else {
        s as i64
    }
}

/// Subtracts two values from one with a single clamp into i64.
pub(crate) fn sub3_c(a: i64, b: i64, c: i64) -> (r: i64)
    ensures
        r as int == clamp_i64(a as int - b as int - c as int),
{
    let s: i128 = a as i128 - b as i128 - c as i128;
    if s > 0x7fff_ffff_ffff_ffff {
        i64::MAX
    } else if s < -0x8000_0000_0000_0000 {
        i64::MIN
    } else {
        s as i64
    }
}

/// Division rounded toward zero.
fn trunc_div_exec(n: i64, d: i64) -> (r: i64)
    requires
        d > 0,
    ensures
        r as int == trunc_div(n as int, d as int),
{
    if n >= 0 {
        n / d
    } else {
        let m: i128 = -(n as i128);
        let q: i128 = m / (d as i128);
        proof {
            assert(0 <= q <= m) by (nonlinear_arith)
                requires
                    m >= 0,
                    d > 0,
                    q == m / (d as i128),
            ;
        }
        (-q) as i64
    }
}

/// One cursive glyph's relative advance.
fn cursive_adv_exec(xa: i32, size: i64, upem: i32) -> (r: i64)
    requires
        0 <= size <= MAX_SIZE_MILLI,
        16 <= upem <= 16384,
    ensures
        r as int == cursive_adv(xa as int, size as int, upem as int),
{
    proof {
        assert(-0x80000000i128 * (MAX_SIZE_MILLI as int) <= (xa as int) * (size as int)
            <= 0x80000000i128 * (MAX_SIZE_MILLI as int)) by (nonlinear_arith)
            requires
                -0x80000000 <= xa as int <= 0x80000000,
                0 <= size as int <= MAX_SIZE_MILLI as int,
        ;
    }
    let p: i128 = (xa as i128) * (size as i128);
    let t1: i128 = if p >= 0 {
        p / (upem as i128)
    } else {
        -((-p) / (upem as i128))
    };
    proof {
        assert(0 <= (size as int) * (size as int) <= (MAX_SIZE_MILLI as int) * (
        MAX_SIZE_MILLI as int)) by (nonlinear_arith)
            requires
                0 <= size as int <= MAX_SIZE_MILLI as int,
        ;
    }
    let sq: i128 = (size as i128) * (size as i128);
    proof {
        assert(3 * ((size as int) * (size as int)) == 3 * (size as int) * (size as int))
            by (nonlinear_arith);
    }
    let t2: i128 = 3 * sq / (4000 * (upem as i128));
    let v: i128 = t1 - t2;
    proof {
        assert(t1 == trunc_div((xa as int) * (size as int), upem as int));
        assert(t2 == (3 * (size as int) * (size as int)) / (4000 * (upem as int)));
    }
    if v > 0x7fff_ffff_ffff_ffff {
        i64::MAX
    } else if v < -0x8000_0000_0000_0000 {
        i64::MIN
    } else {
        v as i64
    }
}

/// Builds one operator.
fn op_of(name: &str, operands: Vec<PdfObject>) -> (r: ContentOp)
    ensures
        r@ == (OpV { op: name@, args: crate::object::objs_view(operands@) }),
{
    ContentOp { operator: name.to_owned(), operands }
}

/// Draws one run of text on a page, as `draw_text_spec` describes.
pub fn draw_text(
    document: &mut Document,
    registry: &FontRegistry,
    page: ObjectId,
    options: DrawTextOptions<'_>,
) -> (r: Result<(), PdfError>)
    requires
        0 <= options.font_size <= MAX_SIZE_MILLI,
    ensures
        ({
            let ft = opt_ft(options.font_type);
            let fw = opt_fw(options.font_weight);
            let s = draw_text_spec(
                old(document)@,
                page,
                registry.face_bytes(face_index(ft, fw, false)),
                pdf_font_name(ft),
                ft,
                options.text@,
                options.font_size as int,
                opt_color(options.color),
                options.x as int,
                options.y as int,
            );
            match s {
                Ok(d2) => r is Ok && final(document)@ == d2,
                Err(e) => r == Err::<(), PdfError>(e) && final(document)@ == old(document)@,
            }
        }),
{
    let mb = match get_page_media_box(document, page) {
        Ok(b) => b,
        Err(e) => {
            return Err(e);
        },
    };
    let page_h = mb.3;
    let color = match options.color {
        Some(c) => c,
        None => Color::from_rgb(0, 0, 0),
    };
    let font_weight = match options.font_weight {
        Some(w) => w,
        None => FontWeight::Regular,
    };
    let font_type = match options.font_type {
        Some(t) => t,
        None => FontType::Serif,
    };
    let font_face = registry.get_font(&font_type, &font_weight, false);
    let font_name = get_font_pdf_name(&font_type, &font_weight, false);
    let baseline = baseline_c(page_h, options.y, options.font_size);

    let mut ops: Vec<ContentOp> = Vec::new();
    let mut rgv: Vec<PdfObject> = Vec::new();
    rgv.push(PdfObject::Real(color.r()));
    rgv.push(PdfObject::Real(color.g()));
    rgv.push(PdfObject::Real(color.b()));
    proof {
        crate::object::lemma_objs_view(rgv@);
    }
    ops.push(op_of("rg", rgv));
    ops.push(op_of("BT", Vec::new()));
    let mut tfv: Vec<PdfObject> = Vec::new();
    tfv.push(PdfObject::Name(font_name.to_owned()));
    tfv.push(PdfObject::Real(options.font_size));
    proof {
        crate::object::lemma_objs_view(tfv@);
    }
    ops.push(op_of("Tf", tfv));
    let mut tmv: Vec<PdfObject> = Vec::new();
    tmv.push(PdfObject::Int(1));
    tmv.push(PdfObject::Int(0));
    tmv.push(PdfObject::Int(0));
    tmv.push(PdfObject::Int(1));
    tmv.push(PdfObject::Real(options.x));
    tmv.push(PdfObject::Real(baseline));
    proof {
        crate::object::lemma_objs_view(tmv@);
    }
    ops.push(op_of("Tm", tmv));
    let ghost font = font_face.bytes();
    let ghost head = ops_view(ops@);
    proof {
        crate::object::lemma_ops_view(ops@);
        let col = opt_color(options.color);
        assert(head.len() == 4);
        assert(head[0].op == "rg"@);
        assert(head[0].args =~= seq![
            ObjV::Real(col.0 as int * 1000 / 255),
            ObjV::Real(col.1 as int * 1000 / 255),
            ObjV::Real(col.2 as int * 1000 / 255),
        ]);
        assert(head[1].op == "BT"@);
        assert(head[1].args =~= Seq::<ObjV>::empty());
        assert(head[2].op == "Tf"@);
        assert(head[2].args =~= seq![
            ObjV::Name(pdf_font_name(opt_ft(options.font_type))),
            ObjV::Real(options.font_size as int),
        ]);
        assert(head[3].op == "Tm"@);
        assert(head[3].args =~= seq![
            ObjV::Int(1),
            ObjV::Int(0),
            ObjV::Int(0),
            ObjV::Int(1),
            ObjV::Real(options.x as int),
            ObjV::Real(
                clamp_i64(mb.3 as int - options.y as int - options.font_size as int / 5),
            ),
        ]);
        assert(head =~~= seq![
            OpV {
                op: "rg"@,
                args: seq![
                    ObjV::Real(col.0 as int * 1000 / 255),
                    ObjV::Real(col.1 as int * 1000 / 255),
                    ObjV::Real(col.2 as int * 1000 / 255),
                ],
            },
            OpV { op: "BT"@, args: Seq::empty() },
            OpV {
                op: "Tf"@,
                args: seq![
                    ObjV::Name(pdf_font_name(opt_ft(options.font_type))),
                    ObjV::Real(options.font_size as int),
                ],
            },
            OpV {
                op: "Tm"@,
                args: seq![
                    ObjV::Int(1),
                    ObjV::Int(0),
                    ObjV::Int(0),
                    ObjV::Int(1),
                    ObjV::Real(options.x as int),
                    ObjV::Real(
                        clamp_i64(mb.3 as int - options.y as int - options.font_size as int / 5),
                    ),
                ],
            },
        ]);
    }

    let cs = str_chars(options.text);
    let is_cursive = match font_type {
        FontType::Cursive => true,
        _ => false,
    };
    if is_cursive {
        let advs = shaped_advances(font_face, &cs);
        let upem = font_face.upem();
        let mut i: usize = 0;
        while i < advs.len()
            invariant
                0 <= i <= advs@.len(),
                cs@ == options.text@,
                advs@ == shaped_advances_of(font, cs@),
                upem == face_upem_of(font),
                16 <= upem <= 16384,
                0 <= options.font_size <= MAX_SIZE_MILLI,
                ops_view(ops@) + cursive_ops(
                    advs@,
                    cs@,
                    options.font_size as int,
                    upem as int,
                    i as int,
                ) == head + cursive_ops(
                    advs@,
                    cs@,
                    options.font_size as int,
                    upem as int,
                    0,
                ),
            decreases advs@.len() - i,
        {
            let c: char = if i < cs.len() {
                cs[i]
            } else {
                ' '
            };
            let mut one: Vec<char> = Vec::new();
            one.push(c);
            let cstr = chars_to_string(&one);
            let bytes = crate::object::clone_bytes_slice(cstr.as_str().as_bytes());
            proof {
                assert(one@ =~= seq![c]);
                assert(bytes@ == vstd::utf8::encode_utf8(seq![c]));
            }
            let mut tjv: Vec<PdfObject> = Vec::new();
            tjv.push(PdfObject::Str(bytes));
            proof {
                crate::object::lemma_objs_view(tjv@);
            }
            let ghost before = ops_view(ops@);
            let ghost prevvec = ops@;
            ops.push(op_of("Tj", tjv));
            proof {
                crate::object::lemma_ops_view(prevvec);
                crate::object::lemma_ops_view(ops@);
                assert(ops_view(ops@) =~= before.push(
                    OpV {
                        op: "Tj"@,
                        args: seq![ObjV::Str(vstd::utf8::encode_utf8(seq![c]))],
                    },
                ));
            }
            if advs[i] != 0 {
                let adv = cursive_adv_exec(advs[i], options.font_size, upem);
                let mut tdv: Vec<PdfObject> = Vec::new();
                tdv.push(PdfObject::Real(adv));
                tdv.push(PdfObject::Int(0));
                proof {
                    crate::object::lemma_objs_view(tdv@);
                    assert(crate::object::objs_view(tdv@) =~= seq![
                        ObjV::Real(adv as int), ObjV::Int(0),
                    ]);
                }
                let td_op = op_of("Td", tdv);
                let ghost tdview = td_op@;
                proof {
                    assert(tdview == (OpV {
                        op: "Td"@,
                        args: seq![
                            ObjV::Real(
                                cursive_adv(
                                    advs@[i as int] as int,
                                    options.font_size as int,
                                    upem as int,
                                ),
                            ),
                            ObjV::Int(0),
                        ],
                    }));
                }
                let ghost before2 = ops_view(ops@);
                let ghost prevvec2 = ops@;
                ops.push(td_op);
                proof {
                    crate::object::lemma_ops_view(prevvec2);
                    crate::object::lemma_ops_view(ops@);
                    assert(ops_view(ops@) =~= before2.push(tdview));
                }
            }
            proof {
                let sz = options.font_size as int;
                let up = upem as int;
                assert(before + cursive_ops(advs@, cs@, sz, up, i as int) == head + cursive_ops(
                    advs@,
                    cs@,
                    sz,
                    up,
                    0,
                ));
                if advs@[i as int] != 0 {
                    assert(ops_view(ops@) =~= before + seq![
                        OpV {
                            op: "Tj"@,
                            args: seq![
                                ObjV::Str(
                                    vstd::utf8::encode_utf8(
                                        seq![
                                            if i < cs@.len() {
                                                cs@[i as int]
                                            } else {
                                                ' '
                                            },
                                        ],
                                    ),
                                ),
                            ],
                        },
                        OpV {
                            op: "Td"@,
                            args: seq![
                                ObjV::Real(cursive_adv(advs@[i as int] as int, sz, up)),
                                ObjV::Int(0),
                            ],
                        },
                    ]);
                } else {
                    assert(ops_view(ops@) =~= before + seq![
                        OpV {
                            op: "Tj"@,
                            args: seq![
                                ObjV::Str(
                                    vstd::utf8::encode_utf8(
                                        seq![
                                            if i < cs@.len() {
                                                cs@[i as int]
                                            } else {
                                                ' '
                                            },
                                        ],
                                    ),
                                ),
                            ],
                        },
                    ]);
                }
                assert(cursive_ops(advs@, cs@, sz, up, i as int) == (
                if advs@[i as int] != 0 {
                    seq![
                        OpV {
                            op: "Tj"@,
                            args: seq![
                                ObjV::Str(
                                    vstd::utf8::encode_utf8(
                                        seq![
                                            if i < cs@.len() {
                                                cs@[i as int]
                                            } else {
                                                ' '
                                            },
                                        ],
                                    ),
                                ),
                            ],
                        },
                        OpV {
                            op: "Td"@,
                            args: seq![
                                ObjV::Real(cursive_adv(advs@[i as int] as int, sz, up)),
                                ObjV::Int(0),
                            ],
                        },
                    ] + cursive_ops(advs@, cs@, sz, up, i as int + 1)
                } else {
                    seq![
                        OpV {
                            op: "Tj"@,
                            args: seq![
                                ObjV::Str(
                                    vstd::utf8::encode_utf8(
                                        seq![
                                            if i < cs@.len() {
                                                cs@[i as int]
                                            } else {
                                                ' '
                                            },
                                        ],
                                    ),
                                ),
                            ],
                        },
                    ] + cursive_ops(advs@, cs@, sz, up, i as int + 1)
                }));
            }
            i = i + 1;
        }
        proof {
            assert(cursive_ops(
                advs@,
                cs@,
                options.font_size as int,
                upem as int,
                advs@.len() as int,
            ) == Seq::<OpV>::empty());
            assert(ops_view(ops@) + Seq::<OpV>::empty() =~= ops_view(ops@));
        }
    } else {
        let bytes = crate::object::clone_bytes_slice(options.text.as_bytes());
        let mut tjv: Vec<PdfObject> = Vec::new();
        tjv.push(PdfObject::Str(bytes));
        proof {
            crate::object::lemma_objs_view(tjv@);
            assert(crate::object::objs_view(tjv@) =~= seq![
                ObjV::Str(vstd::utf8::encode_utf8(options.text@)),
            ]);
        }
        let ghost prevvec3 = ops@;
        ops.push(op_of("Tj", tjv));
        proof {
            crate::object::lemma_ops_view(prevvec3);
            crate::object::lemma_ops_view(ops@);
            assert(ops_view(ops@) =~= head.push(
                OpV {
                    op: "Tj"@,
                    args: seq![ObjV::Str(vstd::utf8::encode_utf8(options.text@))],
                },
            ));
        }
    }
    let ghost bodydone = ops_view(ops@);
    let ghost prevvec4 = ops@;
    ops.push(op_of("ET", Vec::new()));
    proof {
        crate::object::lemma_objs_view(Seq::<PdfObject>::empty());
        crate::object::lemma_ops_view(prevvec4);
        crate::object::lemma_ops_view(ops@);
        assert(crate::object::objs_view(Seq::<PdfObject>::empty()) =~= Seq::<ObjV>::empty());
        assert(ops_view(ops@) =~= bodydone.push(OpV { op: "ET"@, args: Seq::empty() }));
        let ft = opt_ft(options.font_type);
        assert(ops_view(ops@) =~~= text_ops_spec(
            font,
            pdf_font_name(ft),
            ft,
            options.text@,
            options.font_size as int,
            opt_color(options.color),
            options.x as int,
            clamp_i64(mb.3 as int - options.y as int - options.font_size as int / 5),
        ));
    }
    match document.add_page_contents(page, ops) {
        Ok(()) => Ok(()),
        Err(e) => Err(e),
    }
}


/// Clamps into the i64 range after a computation done exactly.
fn clamp_exec(s: i128) -> (r: i64)
    ensures
        r as int == clamp_i64(s as int),
{
    if s > 0x7fff_ffff_ffff_ffff {
        i64::MAX
    } else if s < -0x8000_0000_0000_0000 {
        i64::MIN
    } else {
        s as i64
    }
}

/// Division of an i128 value by two, rounded toward zero.
fn half_trunc(d: i128) -> (r: i128)
    requires
        -0x40000000000000000000000000000000 < d < 0x40000000000000000000000000000000,
    ensures
        r as int == trunc_div(d as int, 2),
{
    if d >= 0 {
        d / 2
    } else {
        -((-d) / 2)
    }
}

/// The character-count heuristic the wrap policy pre-breaks at: the box
/// width over the font size, scaled by 1.2 and clamped into 5..=120.
pub open spec fn est_chars(w: int, size: int) -> int {
    let smax = if size < 1000 {
        1000int
    } else {
        size
    };
    let q = trunc_div(w * 6, 5 * smax);
    if q < 5 {
        5int
    } else if q > 120 {
        120int
    } else {
        q
    }
}

/// The heuristic character count, as a usize.
fn est_chars_exec(w: i64, size: i64) -> (r: usize)
    requires
        0 <= size <= MAX_SIZE_MILLI,
    ensures
        r as int == est_chars(w as int, size as int),
{
    let smax: i64 = if size < 1000 {
        1000
    } else {
        size
    };
    let n: i128 = (w as i128) * 6;
    let d: i128 = 5 * (smax as i128);
    let q: i128 = if n >= 0 {
        n / d
    } else {
        -((-n) / d)
    };
    if q < 5 {
        5
    } else if q > 120 {
        120
    } else {
        q as usize
    }
}

/// The total height of a wrapped block.
pub open spec fn total_height(count: int, lh: int) -> int {
    clamp_i64(count * lh)
}

/// The total height, computed exactly then clamped.
fn total_height_exec(count: usize, lh: i64) -> (r: i64)
    requires
        0 <= lh,
    ensures
        r as int == total_height(count as int, lh as int),
{
    proof {
        assert(0 <= (count as int) * (lh as int) <= 0xffffffffffffffff * (lh as int))
            by (nonlinear_arith)
            requires
                0 <= count <= 0xffffffffffffffff,
                0 <= lh,
        ;
    }
    clamp_exec((count as i128) * (lh as i128))
}

/// The wrap policy's vertical offset inside the box.
pub open spec fn wrap_y_off(av: VerticalAlign, h: int, total: int) -> int {
    match av {
        VerticalAlign::Top => 0int,
        VerticalAlign::Middle => trunc_div(clamp_i64(h - total), 2),
        VerticalAlign::Bottom => clamp_i64(h - total),
    }
}

/// The wrap policy's vertical offset.
fn wrap_y_off_exec(av: VerticalAlign, h: i64, total: i64) -> (r: i64)
    ensures
        r as int == wrap_y_off(av, h as int, total as int),
{
    match av {
        VerticalAlign::Top => 0,
        VerticalAlign::Middle => {
            let d = sub_c(h, total);
            let q = half_trunc(d as i128);
            proof {
                assert(-0x8000_0000_0000_0000 <= q <= 0x7fff_ffff_ffff_ffff);
            }
            q as i64
        },
        VerticalAlign::Bottom => sub_c(h, total),
    }
}

/// The x position of one line under a horizontal alignment.
pub open spec fn line_x(al: Option<TextAlignment>, x: int, w: int, lw: int) -> int {
    match al {
        Some(TextAlignment::Center) => clamp_i64(x + trunc_div(w - lw, 2)),
        Some(TextAlignment::Right) => clamp_i64(x + (w - lw)),
        _ => x,
    }
}

/// The x position of one line.
fn line_x_exec(al: Option<TextAlignment>, x: i64, w: i64, lw: i64) -> (r: i64)
    ensures
        r as int == line_x(al, x as int, w as int, lw as int),
{
    match al {
        Some(TextAlignment::Center) => {
            let d: i128 = w as i128 - lw as i128;
            let q = half_trunc(d);
            clamp_exec(x as i128 + q)
        },
        Some(TextAlignment::Right) => clamp_exec(x as i128 + (w as i128 - lw as i128)),
        _ => x,
    }
}

/// The y position of line `i`.
pub open spec fn line_y(y: int, yoff: int, i: int, lh: int) -> int {
    clamp_i64(y + yoff + i * lh)
}

/// The y position of line `i`.
fn line_y_exec(y: i64, yoff: i64, i: usize, lh: i64) -> (r: i64)
    requires
        0 <= lh,
    ensures
        r as int == line_y(y as int, yoff as int, i as int, lh as int),
{
    proof {
        assert(0 <= (i as int) * (lh as int) <= 0xffffffffffffffff * (lh as int))
            by (nonlinear_arith)
            requires
                0 <= i <= 0xffffffffffffffff,
                0 <= lh,
        ;
    }
    clamp_exec(y as i128 + yoff as i128 + (i as i128) * (lh as i128))
}

/// Drawing each wrapped line in turn, from line `i` on: each line is
/// measured, aligned inside the box, placed a line height further down,
/// and drawn as one run of text.
pub open spec fn draw_lines_spec(
    d: DocV,
    page: ObjectId,
    font: Seq<u8>,
    name: Seq<char>,
    ft: FontType,
    lines: Seq<Seq<char>>,
    i: int,
    size: int,
    color: Color,
    al: Option<TextAlignment>,
    x: int,
    w: int,
    y: int,
    yoff: int,
    lh: int,
) -> Result<DocV, PdfError>
    decreases lines.len() - i,
{
    if i < 0 || i >= lines.len() {
        Ok(d)
    } else {
        let lw = text_width_of(font, lines[i], size);
        let lx = line_x(al, x, w, lw);
        let ly = line_y(y, yoff, i, lh);
        match draw_text_spec(d, page, font, name, ft, lines[i], size, color, lx, ly) {
            Ok(d1) => draw_lines_spec(
                d1,
                page,
                font,
                name,
                ft,
                lines,
                i + 1,
                size,
                color,
                al,
                x,
                w,
                y,
                yoff,
                lh,
            ),
            Err(e) => Err(e),
        }
    }
}

/// What the wrap policy does: the text is pre-broken by the character
/// heuristic, word-wrapped at the caller's font size, offset vertically by
/// the alignment at the fixed 1.2 line height, and drawn line by line.
pub open spec fn draw_text_wrap_spec(
    d: DocV,
    page: ObjectId,
    font: Seq<u8>,
    name: Seq<char>,
    ft: FontType,
    text: Seq<char>,
    size: int,
    color: Color,
    al: Option<TextAlignment>,
    av: VerticalAlign,
    x: int,
    y: int,
    w: int,
    h: int,
) -> Result<DocV, PdfError> {
    let pre = hard_wrap_chars(text, est_chars(w, size), 0);
    let lines = line_texts(wrap_lines_of(font, pre, size, w));
    let lh = size * 12 / 10;
    let total = total_height(lines.len() as int, lh);
    let yoff = wrap_y_off(av, h, total);
    draw_lines_spec(d, page, font, name, ft, lines, 0, size, color, al, x, w, y, yoff, lh)
}

/// Draws the wrapped lines from index `i` on.
fn draw_lines_exec(
    document: &mut Document,
    registry: &FontRegistry,
    page: ObjectId,
    lines: &Vec<Vec<char>>,
    options: &DrawTextOptions<'_>,
    size: i64,
    y_base: i64,
    yoff: i64,
    lh: i64,
) -> (r: Result<(), PdfError>)
    requires
        0 <= size <= MAX_SIZE_MILLI,
        0 <= lh,
    ensures
        ({
            let ft = opt_ft(options.font_type);
            let s = draw_lines_spec(
                old(document)@,
                page,
                registry.face_bytes(face_index(ft, opt_fw(options.font_weight), false)),
                pdf_font_name(ft),
                ft,
                lines@.map_values(|l: Vec<char>| l@),
                0,
                size as int,
                opt_color(options.color),
                options.text_alignment,
                options.x as int,
                options.w as int,
                y_base as int,
                yoff as int,
                lh as int,
            );
            match s {
                Ok(d2) => r is Ok && final(document)@ == d2,
                Err(e) => r == Err::<(), PdfError>(e),
            }
        }),
{
    let ghost d0 = document@;
    let ghost ft = opt_ft(options.font_type);
    let ghost font = registry.face_bytes(face_index(ft, opt_fw(options.font_weight), false));
    let ghost name = pdf_font_name(ft);
    let ghost ls = lines@.map_values(|l: Vec<char>| l@);
    let face = registry.get_font(
        &(match options.font_type {
            Some(t) => t,
            None => FontType::Serif,
        }),
        &(match options.font_weight {
            Some(wt) => wt,
            None => FontWeight::Regular,
        }),
        false,
    );
    let n = lines.len();
    let mut i: usize = 0;
    while i < n
        invariant
            0 <= i <= n,
            n == ls.len(),
            n == lines@.len(),
            ls == lines@.map_values(|l: Vec<char>| l@),
            0 <= size <= MAX_SIZE_MILLI,
            0 <= lh,
            d0 == old(document)@,
            ft == opt_ft(options.font_type),
            font == registry.face_bytes(face_index(ft, opt_fw(options.font_weight), false)),
            name == pdf_font_name(ft),
            face.bytes() == font,
            draw_lines_spec(
                d0,
                page,
                font,
                name,
                ft,
                ls,
                0,
                size as int,
                opt_color(options.color),
                options.text_alignment,
                options.x as int,
                options.w as int,
                y_base as int,
                yoff as int,
                lh as int,
            ) == draw_lines_spec(
                document@,
                page,
                font,
                name,
                ft,
                ls,
                i as int,
                size as int,
                opt_color(options.color),
                options.text_alignment,
                options.x as int,
                options.w as int,
                y_base as int,
                yoff as int,
                lh as int,
            ),
        decreases n - i,
    {
        proof {
            assert(ls[i as int] == lines@[i as int]@);
        }
        let lw = text_width_chars(face, &lines[i], size);
        let lx = line_x_exec(options.text_alignment, options.x, options.w, lw);
        let ly = line_y_exec(y_base, yoff, i, lh);
        let line_str = chars_to_string(&lines[i]);
        let ghost dcur = document@;
        let step = draw_text(
            document,
            registry,
            page,
            DrawTextOptions {
                text: line_str.as_str(),
                font_size: size,
                font_weight: options.font_weight,
                font_type: options.font_type,
                text_alignment: None,
                align_v: None,
                color: options.color,
                x: lx,
                y: ly,
                w: options.w,
                h: lh,
            },
        );
        match step {
            Ok(()) => {
                proof {
                    assert(line_str@ == ls[i as int]);
                    assert(registry.face_bytes(
                        face_index(opt_ft(options.font_type), opt_fw(options.font_weight), false),
                    ) == font);
                    assert(pdf_font_name(opt_ft(options.font_type)) == name);
                    let snext = draw_text_spec(
                        dcur,
                        page,
                        font,
                        name,
                        ft,
                        ls[i as int],
                        size as int,
                        opt_color(options.color),
                        lx as int,
                        ly as int,
                    );
                    assert(snext is Ok && document@ == snext->Ok_0);
                }
            },
            Err(e) => {
                proof {
                    let snext = draw_text_spec(
                        dcur,
                        page,
                        font,
                        name,
                        ft,
                        ls[i as int],
                        size as int,
                        opt_color(options.color),
                        lx as int,
                        ly as int,
                    );
                    assert(snext == Err::<DocV, PdfError>(e));
                }
                return Err(e);
            },
        }
        i = i + 1;
    }
    Ok(())
}

/// Draws a text with the wrap policy, as `draw_text_wrap_spec` describes:
/// pre-broken by the character heuristic, word-wrapped at the caller's
/// size, and drawn line by line at the fixed 1.2 line height.
pub fn draw_text_wrap(
    document: &mut Document,
    registry: &FontRegistry,
    page: ObjectId,
    options: DrawTextOptions<'_>,
) -> (r: Result<(), PdfError>)
    requires
        0 <= options.font_size <= MAX_SIZE_MILLI,
    ensures
        ({
            let ft = opt_ft(options.font_type);
            let s = draw_text_wrap_spec(
                old(document)@,
                page,
                registry.face_bytes(face_index(ft, opt_fw(options.font_weight), false)),
                pdf_font_name(ft),
                ft,
                options.text@,
                options.font_size as int,
                opt_color(options.color),
                options.text_alignment,
                opt_av(options.align_v),
                options.x as int,
                options.y as int,
                options.w as int,
                options.h as int,
            );
            match s {
                Ok(d2) => r is Ok && final(document)@ == d2,
                Err(e) => r == Err::<(), PdfError>(e),
            }
        }),
{
    let face = registry.get_font(
        &(match options.font_type {
            Some(t) => t,
            None => FontType::Serif,
        }),
        &(match options.font_weight {
            Some(wt) => wt,
            None => FontWeight::Regular,
        }),
        false,
    );
    let est = est_chars_exec(options.w, options.font_size);
    let pre = hard_wrap_by_chars(options.text, est);
    let lines = wrap_text_lines(face, pre.as_str(), options.font_size, options.w);
    let lh = options.font_size * 12 / 10;
    let total = total_height_exec(lines.len(), lh);
    let av = match options.align_v {
        Some(a) => a,
        None => VerticalAlign::Top,
    };
    let yoff = wrap_y_off_exec(av, options.h, total);
    draw_lines_exec(
        document,
        registry,
        page,
        &lines,
        &options,
        options.font_size,
        options.y,
        yoff,
        lh,
    )
}


/// A drawing step can only fail as an object-graph shape error.
pub proof fn lemma_draw_lines_err(
    d: DocV,
    page: ObjectId,
    font: Seq<u8>,
    name: Seq<char>,
    ft: FontType,
    lines: Seq<Seq<char>>,
    i: int,
    size: int,
    color: Color,
    al: Option<TextAlignment>,
    x: int,
    w: int,
    y: int,
    yoff: int,
    lh: int,
)
    ensures
        ({
            let s = draw_lines_spec(
                d, page, font, name, ft, lines, i, size, color, al, x, w, y, yoff, lh,
            );
            s is Err ==> s == Err::<DocV, PdfError>(PdfError::ResourceAccess)
        }),
    decreases lines.len() - i,
{
    if 0 <= i < lines.len() {
        let lw = text_width_of(font, lines[i], size);
        let lx = line_x(al, x, w, lw);
        let ly = line_y(y, yoff, i, lh);
        match draw_text_spec(d, page, font, name, ft, lines[i], size, color, lx, ly) {
            Ok(d1) => {
                lemma_draw_lines_err(
                    d1, page, font, name, ft, lines, i + 1, size, color, al, x, w, y, yoff, lh,
                );
            },
            Err(_e) => {},
        }
    }
}

/// The fit policy's vertical offset: the alignment offset plus the fixed
/// baseline correction for the fitted size.
pub open spec fn fit_y_off(av: VerticalAlign, h: int, total: int, size: int) -> int {
    match av {
        VerticalAlign::Top => size / 4,
        VerticalAlign::Middle => clamp_i64(trunc_div(h - total, 2) + size * 6 / 10),
        VerticalAlign::Bottom => clamp_i64(h - total + size),
    }
}

/// The fit policy's vertical offset.
fn fit_y_off_exec(av: VerticalAlign, h: i64, total: i64, size: i64) -> (r: i64)
    requires
        0 <= size <= MAX_SIZE_MILLI,
    ensures
        r as int == fit_y_off(av, h as int, total as int, size as int),
{
    match av {
        VerticalAlign::Top => size / 4,
        VerticalAlign::Middle => {
            let q = half_trunc(h as i128 - total as i128);
            clamp_exec(q + (size * 6 / 10) as i128)
        },
        VerticalAlign::Bottom => clamp_exec(h as i128 - total as i128 + size as i128),
    }
}

/// What the fit policy does at a chosen size: the pre-broken text is
/// wrapped at that size, offset by the alignment with its baseline
/// correction, and drawn line by line at the fixed 1.2 line height.
pub open spec fn draw_text_fit_at(
    d: DocV,
    page: ObjectId,
    font: Seq<u8>,
    name: Seq<char>,
    ft: FontType,
    pre: Seq<char>,
    s: int,
    color: Color,
    al: Option<TextAlignment>,
    av: VerticalAlign,
    x: int,
    y: int,
    w: int,
    h: int,
) -> Result<DocV, PdfError> {
    let lines = line_texts(wrap_lines_of(font, pre, s, w));
    let lh = s * 12 / 10;
    let total = total_height(lines.len() as int, lh);
    let yoff = fit_y_off(av, h, total, s);
    draw_lines_spec(d, page, font, name, ft, lines, 0, s, color, al, x, w, y, yoff, lh)
}

/// Draws a text with the fit policy: the text is pre-broken at 25
/// characters, the largest fitting size is searched at 0.1pt resolution,
/// and the lines are drawn at that size. A box that admits no size at all
/// is the font-fit failure, and a box admitting the floor size is never
/// refused on fitting grounds.
pub fn draw_text_fit(
    document: &mut Document,
    registry: &FontRegistry,
    page: ObjectId,
    options: DrawTextOptions<'_>,
) -> (r: Result<(), PdfError>)
    requires
        0 <= options.h <= MAX_SIZE_MILLI,
    ensures
        ({
            let ft = opt_ft(options.font_type);
            let font = registry.face_bytes(face_index(ft, opt_fw(options.font_weight), false));
            let pre = hard_wrap_chars(options.text@, 25, 0);
            let sized = fit_size_spec(font, pre, options.w as int, options.h as int);
            &&& (r == Err::<(), PdfError>(PdfError::FontFit) <==> sized is None)
            &&& (sized is None ==> final(document)@ == old(document)@)
            &&& (sized is Some ==> ({
                let s = draw_text_fit_at(
                    old(document)@,
                    page,
                    font,
                    pdf_font_name(ft),
                    ft,
                    pre,
                    sized->0,
                    opt_color(options.color),
                    options.text_alignment,
                    opt_av(options.align_v),
                    options.x as int,
                    options.y as int,
                    options.w as int,
                    options.h as int,
                );
                &&& 1000 <= sized->0 <= options.h
                &&& fits_box(font, pre, sized->0, options.w as int, options.h as int)
                &&& match s {
                    Ok(d2) => r is Ok && final(document)@ == d2,
                    Err(e) => r == Err::<(), PdfError>(e),
                }
            }))
            &&& ((options.h >= 1000 && fits_box(
                font,
                pre,
                1000,
                options.w as int,
                options.h as int,
            )) ==> sized is Some)
        }),
{
    let ghost d0 = document@;
    let face = registry.get_font(
        &(match options.font_type {
            Some(t) => t,
            None => FontType::Serif,
        }),
        &(match options.font_weight {
            Some(wt) => wt,
            None => FontWeight::Regular,
        }),
        false,
    );
    let pre = hard_wrap_by_chars(options.text, 25);
    let fitr = fit_text_font_size(face, pre.as_str(), options.w, options.h);
    match fitr {
        None => Err(PdfError::FontFit),
        Some(pair) => {
            let s = pair.1;
            let lines = wrap_text_lines(face, pre.as_str(), s, options.w);
            let lh = s * 12 / 10;
            let total = total_height_exec(lines.len(), lh);
            let av = match options.align_v {
                Some(a) => a,
                None => VerticalAlign::Top,
            };
            let yoff = fit_y_off_exec(av, options.h, total, s);
            let res = draw_lines_exec(
                document,
                registry,
                page,
                &lines,
                &options,
                s,
                options.y,
                yoff,
                lh,
            );
            proof {
                let ft = opt_ft(options.font_type);
                let font = registry.face_bytes(
                    face_index(ft, opt_fw(options.font_weight), false),
                );
                let lsv = lines@.map_values(|l: Vec<char>| l@);
                lemma_draw_lines_err(
                    d0,
                    page,
                    font,
                    pdf_font_name(ft),
                    ft,
                    lsv,
                    0,
                    s as int,
                    opt_color(options.color),
                    options.text_alignment,
                    options.x as int,
                    options.w as int,
                    options.y as int,
                    yoff as int,
                    lh as int,
                );
                let fit_at = draw_text_fit_at(
                    d0,
                    page,
                    font,
                    pdf_font_name(ft),
                    ft,
                    hard_wrap_chars(options.text@, 25, 0),
                    s as int,
                    opt_color(options.color),
                    options.text_alignment,
                    opt_av(options.align_v),
                    options.x as int,
                    options.y as int,
                    options.w as int,
                    options.h as int,
                );
                assert(lsv == line_texts(
                    wrap_lines_of(font, hard_wrap_chars(options.text@, 25, 0), s as int,
                    options.w as int),
                ));
                if res is Ok {
                    assert(fit_at == Ok::<DocV, PdfError>(document@));
                } else {
                    assert(fit_at == Err::<DocV, PdfError>(res->Err_0));
                    assert(!(res->Err_0 == PdfError::FontFit));
                }
            }
            res
        },
    }
}

/// One shrink round: the words are wrapped at the current size and the
/// block is kept when every line fits the width and the total height fits
/// the box; otherwise the size shrinks by half a point, flooring at one
/// point — the lines then kept are the ones measured before the final
/// shrink.
pub open spec fn shrink_rec(font: Seq<u8>, text: Seq<char>, w: int, h: int, size: int) -> (
    int,
    Seq<Seq<char>>,
)
    decreases size,
{
    let lines = line_texts(wrap_lines_of(font, text, size, w));
    let total = total_height(lines.len() as int, size);
    if max_line_width(font, size, lines) <= w && total <= h {
        (size, lines)
    } else {
        let ns = if size >= 500 {
            size - 500
        } else {
            0int
        };
        if ns <= 1000 {
            (ns, lines)
        } else {
            shrink_rec(font, text, w, h, ns)
        }
    }
}

/// The dynamic-shrink starting y for the first line.
pub open spec fn wrap_fit_start_y(av: VerticalAlign, y: int, h: int, total: int, fsize: int)
    -> int {
    match av {
        VerticalAlign::Top => clamp_i64(y + fsize * 9 / 10),
        VerticalAlign::Middle => clamp_i64(y + trunc_div(h - total, 2) + fsize * 3 / 4),
        VerticalAlign::Bottom => clamp_i64(y + h - total + fsize * 3 / 4),
    }
}

/// The dynamic-shrink starting y.
fn wrap_fit_start_y_exec(av: VerticalAlign, y: i64, h: i64, total: i64, fsize: i64) -> (r: i64)
    requires
        0 <= fsize <= MAX_SIZE_MILLI,
    ensures
        r as int == wrap_fit_start_y(av, y as int, h as int, total as int, fsize as int),
{
    match av {
        VerticalAlign::Top => clamp_exec(y as i128 + (fsize * 9 / 10) as i128),
        VerticalAlign::Middle => {
            let q = half_trunc(h as i128 - total as i128);
            clamp_exec(y as i128 + q + (fsize * 3 / 4) as i128)
        },
        VerticalAlign::Bottom => clamp_exec(
            y as i128 + h as i128 - total as i128 + (fsize * 3 / 4) as i128,
        ),
    }
}

/// Shrinks the size until the block fits, as `shrink_rec` describes.
fn shrink_exec(face: &FontFace, text: &str, w: i64, h: i64, size0: i64) -> (r: (i64, Vec<
    Vec<char>,
>))
    requires
        0 <= size0 <= MAX_SIZE_MILLI,
    ensures
        ({
            let p = shrink_rec(face.bytes(), text@, w as int, h as int, size0 as int);
            &&& r.0 as int == p.0
            &&& r.1@.map_values(|l: Vec<char>| l@) == p.1
            &&& 0 <= r.0 <= MAX_SIZE_MILLI
        }),
{
    let ghost font = face.bytes();
    let ghost target = shrink_rec(font, text@, w as int, h as int, size0 as int);
    let mut fs = size0;
    let mut result: Option<(i64, Vec<Vec<char>>)> = None;
    while result.is_none()
        invariant
            0 <= fs <= MAX_SIZE_MILLI,
            font == face.bytes(),
            target == shrink_rec(font, text@, w as int, h as int, size0 as int),
            match result {
                None => target == shrink_rec(font, text@, w as int, h as int, fs as int),
                Some(p) => target == (p.0 as int, p.1@.map_values(|l: Vec<char>| l@)) && 0 <= p.0
                    <= MAX_SIZE_MILLI,
            },
        decreases (if result is Some {
            0int
        } else {
            fs + 1
        }),
    {
        let lines = wrap_text_lines(face, text, fs, w);
        let maxw = max_width_from(face, &lines, fs, 0);
        let total = total_height_exec(lines.len(), fs);
        proof {
            let lsv = lines@.map_values(|l: Vec<char>| l@);
            assert(lsv.skip(0) =~= lsv);
        }
        if maxw <= w && total <= h {
            result = Some((fs, lines));
        } else {
            let ns: i64 = if fs >= 500 {
                fs - 500
            } else {
                0
            };
            if ns <= 1000 {
                result = Some((ns, lines));
            } else {
                fs = ns;
            }
        }
    }
    match result {
        Some(p) => p,
        None => vstd::pervasive::unreached(),
    }
}

/// What the dynamic-shrink policy does: the size shrinks half a point at
/// a time until the wrapped block fits the box, and the lines are drawn
/// from the alignment's starting y with the size itself as line height.
pub open spec fn draw_text_wrap_fit_spec(
    d: DocV,
    page: ObjectId,
    font: Seq<u8>,
    name: Seq<char>,
    ft: FontType,
    text: Seq<char>,
    size0: int,
    color: Color,
    al: Option<TextAlignment>,
    av: VerticalAlign,
    x: int,
    y: int,
    w: int,
    h: int,
) -> Result<DocV, PdfError> {
    let p = shrink_rec(font, text, w, h, size0);
    let fsize = p.0;
    let lines = p.1;
    let total = total_height(lines.len() as int, fsize);
    let sy = wrap_fit_start_y(av, y, h, total, fsize);
    draw_lines_spec(d, page, font, name, ft, lines, 0, fsize, color, al, x, w, sy, 0, fsize)
}

/// Draws a text with the dynamic-shrink policy, as
/// `draw_text_wrap_fit_spec` describes.
pub fn draw_text_wrap_fit(
    document: &mut Document,
    registry: &FontRegistry,
    page: ObjectId,
    opts: DrawTextOptions<'_>,
) -> (r: Result<(), PdfError>)
    requires
        0 <= opts.font_size <= MAX_SIZE_MILLI,
    ensures
        ({
            let ft = opt_ft(opts.font_type);
            let s = draw_text_wrap_fit_spec(
                old(document)@,
                page,
                registry.face_bytes(face_index(ft, opt_fw(opts.font_weight), false)),
                pdf_font_name(ft),
                ft,
                opts.text@,
                opts.font_size as int,
                opt_color(opts.color),
                opts.text_alignment,
                opt_av(opts.align_v),
                opts.x as int,
                opts.y as int,
                opts.w as int,
                opts.h as int,
            );
            match s {
                Ok(d2) => r is Ok && final(document)@ == d2,
                Err(e) => r == Err::<(), PdfError>(e),
            }
        }),
{
    let face = registry.get_font(
        &(match opts.font_type {
            Some(t) => t,
            None => FontType::Serif,
        }),
        &(match opts.font_weight {
            Some(wt) => wt,
            None => FontWeight::Regular,
        }),
        false,
    );
    let p = shrink_exec(face, opts.text, opts.w, opts.h, opts.font_size);
    let fsize = p.0;
    let lines = p.1;
    let total = total_height_exec(lines.len(), fsize);
    let av = match opts.align_v {
        Some(a) => a,
        None => VerticalAlign::Top,
    };
    let sy = wrap_fit_start_y_exec(av, opts.y, opts.h, total, fsize);
    draw_lines_exec(document, registry, page, &lines, &opts, fsize, sy, 0, fsize)
}


/// Drawing one run of text changes neither the page list, the trailer,
/// nor the embedded-tag memo.
pub proof fn lemma_draw_text_keeps(
    d: DocV,
    page: ObjectId,
    font: Seq<u8>,
    name: Seq<char>,
    ft: FontType,
    text: Seq<char>,
    size: int,
    color: Color,
    x: int,
    y: int,
)
    ensures
        ({
            let s = draw_text_spec(d, page, font, name, ft, text, size, color, x, y);
            s is Ok ==> s->Ok_0.pages == d.pages && s->Ok_0.trailer == d.trailer
                && s->Ok_0.embedded == d.embedded
        }),
{
    match media_box_of(d, page) {
        Some(mb) => {
            let baseline = clamp_i64(mb.3 - y - size / 5);
            crate::document::lemma_append_content_keeps(
                d,
                page,
                text_ops_spec(font, name, ft, text, size, color, x, baseline),
            );
        },
        None => {},
    }
}

/// Drawing a block of lines changes neither the page list, the trailer,
/// nor the embedded-tag memo.
pub proof fn lemma_draw_lines_keeps(
    d: DocV,
    page: ObjectId,
    font: Seq<u8>,
    name: Seq<char>,
    ft: FontType,
    lines: Seq<Seq<char>>,
    i: int,
    size: int,
    color: Color,
    al: Option<TextAlignment>,
    x: int,
    w: int,
    y: int,
    yoff: int,
    lh: int,
)
    ensures
        ({
            let s = draw_lines_spec(
                d, page, font, name, ft, lines, i, size, color, al, x, w, y, yoff, lh,
            );
            s is Ok ==> s->Ok_0.pages == d.pages && s->Ok_0.trailer == d.trailer
                && s->Ok_0.embedded == d.embedded
        }),
    decreases lines.len() - i,
{
    if 0 <= i < lines.len() {
        let lw = text_width_of(font, lines[i], size);
        let lx = line_x(al, x, w, lw);
        let ly = line_y(y, yoff, i, lh);
        match draw_text_spec(d, page, font, name, ft, lines[i], size, color, lx, ly) {
            Ok(d1) => {
                lemma_draw_text_keeps(d, page, font, name, ft, lines[i], size, color, lx, ly);
                lemma_draw_lines_keeps(
                    d1, page, font, name, ft, lines, i + 1, size, color, al, x, w, y, yoff, lh,
                );
            },
            Err(_) => {},
        }
    }
}

/// The wrap policy changes neither the page list, the trailer, nor the
/// embedded-tag memo.
pub proof fn lemma_draw_text_wrap_keeps(
    d: DocV,
    page: ObjectId,
    font: Seq<u8>,
    name: Seq<char>,
    ft: FontType,
    text: Seq<char>,
    size: int,
    color: Color,
    al: Option<TextAlignment>,
    av: VerticalAlign,
    x: int,
    y: int,
    w: int,
    h: int,
)
    ensures
        ({
            let s = draw_text_wrap_spec(d, page, font, name, ft, text, size, color, al, av, x, y, w, h);
            s is Ok ==> s->Ok_0.pages == d.pages && s->Ok_0.trailer == d.trailer
                && s->Ok_0.embedded == d.embedded
        }),
{
    let pre = hard_wrap_chars(text, est_chars(w, size), 0);
    let lines = line_texts(wrap_lines_of(font, pre, size, w));
    let lh = size * 12 / 10;
    let total = total_height(lines.len() as int, lh);
    let yoff = wrap_y_off(av, h, total);
    lemma_draw_lines_keeps(d, page, font, name, ft, lines, 0, size, color, al, x, w, y, yoff, lh);
}

/// The fit policy at a chosen size changes neither the page list, the
/// trailer, nor the embedded-tag memo.
pub proof fn lemma_draw_text_fit_at_keeps(
    d: DocV,
    page: ObjectId,
    font: Seq<u8>,
    name: Seq<char>,
    ft: FontType,
    pre: Seq<char>,
    s: int,
    color: Color,
    al: Option<TextAlignment>,
    av: VerticalAlign,
    x: int,
    y: int,
    w: int,
    h: int,
)
    ensures
        ({
            let r = draw_text_fit_at(d, page, font, name, ft, pre, s, color, al, av, x, y, w, h);
            r is Ok ==> r->Ok_0.pages == d.pages && r->Ok_0.trailer == d.trailer
                && r->Ok_0.embedded == d.embedded
        }),
{
    let lines = line_texts(wrap_lines_of(font, pre, s, w));
    let lh = s * 12 / 10;
    let total = total_height(lines.len() as int, lh);
    let yoff = fit_y_off(av, h, total, s);
    lemma_draw_lines_keeps(d, page, font, name, ft, lines, 0, s, color, al, x, w, y, yoff, lh);
}

} // verus!
