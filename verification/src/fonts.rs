//! Bundled font faces, the face registry, and text measurement.
//!
//! A face is carried as its raw TrueType bytes together with its validated
//! units-per-em; shaping is delegated to rustybuzz and its outcome is
//! named as a function of the face bytes and the text alone.

use vstd::prelude::*;

use crate::strutil::str_chars;

verus! {

/// The font families the engine can select.
#[derive(Debug, Clone, Copy, PartialEq, Eq, Structural)]
pub enum FontType {
    Serif,
    SansSerif,
    Mono,
    Cursive,
}

/// The font weights the engine can select.
#[derive(Debug, Clone, Copy, PartialEq, Eq, Structural)]
pub enum FontWeight {
    Light,
    Regular,
    Bold,
}

/// Whether rustybuzz accepts these bytes as a TrueType face.
pub uninterp spec fn face_ok(data: Seq<u8>) -> bool;

/// The units-per-em a parsed face reports for these bytes.
pub uninterp spec fn face_upem_of(data: Seq<u8>) -> int;

/// The per-glyph x-advances, in font units, that shaping this text with this
/// face produces.
pub uninterp spec fn shaped_advances_of(data: Seq<u8>, text: Seq<char>) -> Seq<i32>;

/// Relies on rustybuzz::Face::from_slice and Face::units_per_em: parsing
/// depends on the bytes alone, and a parsed face's units-per-em comes from
/// the head table, which ttf-parser only accepts in 16..=16384.
#[verifier::external_body]
fn face_units_per_em(data: &[u8]) -> (r: Option<i32>)
    ensures
        r is Some <==> face_ok(data@),
        r is Some ==> r->0 == face_upem_of(data@) && 16 <= r->0 <= 16384,
{
    rustybuzz::Face::from_slice(data, 0).map(|f| f.units_per_em())
}

/// Relies on rustybuzz::shape: shaping depends on the face bytes and the
/// text alone, and yields one x-advance per output glyph, in font units.
#[verifier::external_body]
fn shape_advances(data: &[u8], text: &Vec<char>) -> (r: Option<Vec<i32>>)
    ensures
        r is Some <==> face_ok(data@),
        r is Some ==> r->0@ == shaped_advances_of(data@, text@),
{
    let face = rustybuzz::Face::from_slice(data, 0)?;
    let s: String = text.iter().collect();
    let mut buf = rustybuzz::UnicodeBuffer::new();
    buf.push_str(&s);
    let out = rustybuzz::shape(&face, &[], buf);
    Some(out.glyph_positions().iter().map(|p| p.x_advance).collect())
}

/// An immutable parsed TrueType face: the raw bytes plus the validated
/// units-per-em, parsed once and read-only thereafter.
pub struct FontFace {
    data: Vec<u8>,
    upem: i32,
}

impl FontFace {
    /// The raw bytes this face was parsed from.
    pub closed spec fn bytes(self) -> Seq<u8> {
        self.data@
    }

    #[verifier::type_invariant]
    spec fn inv(self) -> bool {
        face_ok(self.data@) && self.upem == face_upem_of(self.data@) && 16 <= self.upem <= 16384
    }

    /// Parses font bytes into a face; fails exactly when rustybuzz rejects
    /// the bytes.
    pub fn parse(data: Vec<u8>) -> (r: Option<FontFace>)
        ensures
            r is Some <==> face_ok(data@),
            r is Some ==> r->0.bytes() == data@,
    {
        match face_units_per_em(data.as_slice()) {
            Some(u) => Some(FontFace { data, upem: u }),
            None => None,
        }
    }

    /// The face's units-per-em.
    pub fn upem(&self) -> (r: i32)
        ensures
            r == face_upem_of(self.bytes()),
            16 <= r <= 16384,
    {
        proof {
            use_type_invariant(self);
        }
        self.upem
    }
}

/// Upper bound on any measured width, in milli-points.
pub const WIDTH_CAP_MILLI: i64 = 1000000000000000;

/// Upper bound on a font size, in milli-points.
pub const MAX_SIZE_MILLI: i64 = 1000000000000;

/// The sum of a sequence of glyph advances.
pub open spec fn advance_sum(s: Seq<i32>) -> int
    decreases s.len(),
{
    if s.len() == 0 {
        0
    } else {
        s[0] + advance_sum(s.skip(1))
    }
}

/// Scales a font-unit width to milli-points at a font size, clamping the
/// unit total into [0, cap] and the result to the cap.
pub open spec fn scaled_width(units: int, size: int, upem: int) -> int {
    let u = if units < 0 {
        0
    } else if units > WIDTH_CAP_MILLI as int {
        WIDTH_CAP_MILLI as int
    } else {
        units
    };
    let w = u * size / upem;
    if w > WIDTH_CAP_MILLI as int {
        WIDTH_CAP_MILLI as int
    } else {
        w
    }
}

/// The measured width of a text at a font size, in milli-points: shaped
/// advances summed and scaled by size over units-per-em.
pub open spec fn text_width_of(font: Seq<u8>, text: Seq<char>, size: int) -> int {
    scaled_width(advance_sum(shaped_advances_of(font, text)), size, face_upem_of(font))
}

/// Sums shaped advances without overflow.
fn sum_advances(advs: &Vec<i32>) -> (r: i128)
    ensures
        r == advance_sum(advs@),
{
    let mut acc: i128 = 0;
    let mut i: usize = 0;
    proof {
        assert(advs@.skip(0) =~= advs@);
    }
    while i < advs.len()
        invariant
            0 <= i <= advs.len(),
            -(i as int) * 0x80000000 <= acc <= (i as int) * 0x80000000,
            advance_sum(advs@) == acc + advance_sum(advs@.skip(i as int)),
        decreases advs.len() - i,
    {
        proof {
            assert(advs@.skip(i as int)[0] == advs@[i as int]);
            assert(advs@.skip(i as int).skip(1) =~= advs@.skip(i as int + 1));
        }
        acc = acc + advs[i] as i128;
        i = i + 1;
    }
    proof {
        assert(advs@.skip(advs@.len() as int) =~= Seq::<i32>::empty());
    }
    acc
}

/// Measures a text at a font size with full shaping, in milli-points.
pub fn text_width(face: &FontFace, text: &str, font_size: i64) -> (r: i64)
    requires
        0 <= font_size <= MAX_SIZE_MILLI,
    ensures
        r == text_width_of(face.bytes(), text@, font_size as int),
        0 <= r <= WIDTH_CAP_MILLI,
{
    let cs = str_chars(text);
    text_width_chars(face, &cs, font_size)
}

/// Measures a character sequence at a font size, in milli-points.
pub fn text_width_chars(face: &FontFace, cs: &Vec<char>, font_size: i64) -> (r: i64)
    requires
        0 <= font_size <= MAX_SIZE_MILLI,
    ensures
        r == text_width_of(face.bytes(), cs@, font_size as int),
        0 <= r <= WIDTH_CAP_MILLI,
{
    proof {
        use_type_invariant(face);
    }
    let advs = match shape_advances(face.data.as_slice(), cs) {
        Some(a) => a,
        None => {
            return vstd::pervasive::unreached();
        },
    };
    let total = sum_advances(&advs);
    let units: i128 = if total < 0 {
        0
    } else if total > WIDTH_CAP_MILLI as i128 {
        WIDTH_CAP_MILLI as i128
    } else {
        total
    };
    proof {
        assert(units * (font_size as i128) <= WIDTH_CAP_MILLI as int * MAX_SIZE_MILLI as int && 0
            <= units * (font_size as i128)) by (nonlinear_arith)
            requires
                0 <= units <= WIDTH_CAP_MILLI as int,
                0 <= font_size <= MAX_SIZE_MILLI as int,
        ;
    }
    let w: i128 = units * (font_size as i128) / (self_upem(face) as i128);
    if w > WIDTH_CAP_MILLI as i128 {
        WIDTH_CAP_MILLI
    } else {
        w as i64
    }
}

/// Reads the face's units-per-em for scaling.
fn self_upem(face: &FontFace) -> (r: i32)
    ensures
        r == face_upem_of(face.bytes()),
        16 <= r <= 16384,
{
    face.upem()
}

/// The bundled faces in registry order: the three sans-serif weights with
/// their italics, the serif pair, the mono set, then the cursive face.
pub open spec fn face_index(ft: FontType, fw: FontWeight, italics: bool) -> int {
    match ft {
        FontType::SansSerif => match fw {
            FontWeight::Regular => if italics {
                1int
            } else {
                0int
            },
            FontWeight::Bold => if italics {
                3int
            } else {
                2int
            },
            FontWeight::Light => if italics {
                5int
            } else {
                4int
            },
        },
        FontType::Serif => match fw {
            FontWeight::Regular | FontWeight::Light => if italics {
                7int
            } else {
                6int
            },
            FontWeight::Bold => if italics {
                9int
            } else {
                8int
            },
        },
        FontType::Mono => match fw {
            FontWeight::Regular => if italics {
                11int
            } else {
                10int
            },
            FontWeight::Light => if italics {
                15int
            } else {
                14int
            },
            // The bold mono pair is crossed on purpose: the upright
            // request selects the italic slot and the italic request the
            // upright one.
            FontWeight::Bold => if italics {
                12int
            } else {
                13int
            },
        },
        FontType::Cursive => 16int,
    }
}

/// The process-wide read-only table of the 17 bundled faces, built once at
/// startup and passed into every request.
pub struct FontRegistry {
    faces: Vec<FontFace>,
}

impl FontRegistry {
    #[verifier::type_invariant]
    spec fn inv(self) -> bool {
        self.faces@.len() == 17
    }

    /// The bytes of the face at a registry slot.
    pub closed spec fn face_bytes(self, idx: int) -> Seq<u8> {
        self.faces@[idx].bytes()
    }

    /// Builds the registry from the 17 bundled faces, in registry order.
    pub fn new(faces: Vec<FontFace>) -> (r: Option<FontRegistry>)
        ensures
            r is Some <==> faces@.len() == 17,
            r is Some ==> forall|i: int|
                0 <= i < 17 ==> r->0.face_bytes(i) == faces@[i].bytes(),
    {
        if faces.len() == 17 {
            Some(FontRegistry { faces })
        } else {
            None
        }
    }

    /// Selects the face for a family, weight and italics request.
    pub fn get_font(&self, font_type: &FontType, font_weight: &FontWeight, italics: bool) -> (r:
        &FontFace)
        ensures
            r.bytes() == self.face_bytes(face_index(*font_type, *font_weight, italics)),
    {
        proof {
            use_type_invariant(self);
        }
        let idx: usize = match font_type {
            FontType::SansSerif => match font_weight {
                FontWeight::Regular => if italics {
                    1
                } else {
                    0
                },
                FontWeight::Bold => if italics {
                    3
                } else {
                    2
                },
                FontWeight::Light => if italics {
                    5
                } else {
                    4
                },
            },
            FontType::Serif => match font_weight {
                FontWeight::Regular | FontWeight::Light => if italics {
                    7
                } else {
                    6
                },
                FontWeight::Bold => if italics {
                    9
                } else {
                    8
                },
            },
            FontType::Mono => match font_weight {
                FontWeight::Regular => if italics {
                    11
                } else {
                    10
                },
                FontWeight::Light => if italics {
                    15
                } else {
                    14
                },
                FontWeight::Bold => if italics {
                    12
                } else {
                    13
                },
            },
            FontType::Cursive => 16,
        };
        &self.faces[idx]
    }
}

/// The symbolic resource tag each family is registered under.
pub open spec fn pdf_font_name(ft: FontType) -> Seq<char> {
    match ft {
        FontType::Serif => "pdf-Serif"@,
        FontType::SansSerif => "pdf-SansSerif"@,
        FontType::Mono => "pdf-Mono"@,
        FontType::Cursive => "pdf-Cursive"@,
    }
}

/// The resource-dictionary tag for a family; the weight and italics do not
/// change it.
pub fn get_font_pdf_name(font_type: &FontType, font_weight: &FontWeight, italics: bool) -> (r:
    &'static str)
    ensures
        r@ == pdf_font_name(*font_type),
{
    let _ = font_weight;
    let _ = italics;
    match font_type {
        FontType::Serif => "pdf-Serif",
        FontType::SansSerif => "pdf-SansSerif",
        FontType::Mono => "pdf-Mono",
        FontType::Cursive => "pdf-Cursive",
    }
}


/// The shaped per-glyph advances of a character sequence, in font units.
pub fn shaped_advances(face: &FontFace, cs: &Vec<char>) -> (r: Vec<i32>)
    ensures
        r@ == shaped_advances_of(face.bytes(), cs@),
{
    proof {
        use_type_invariant(face);
    }
    match shape_advances(face.data.as_slice(), cs) {
        Some(a) => a,
        None => vstd::pervasive::unreached(),
    }
}

} // verus!
