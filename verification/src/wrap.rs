//! Greedy word-wrap and binary-search font-size fitting.
//!
//! A wrapped paragraph is modeled as a sequence of lines, each line a
//! sequence of words; its text form joins words with single spaces and
//! lines with newlines.

use vstd::prelude::*;

use crate::fonts::{
    FontFace, MAX_SIZE_MILLI, WIDTH_CAP_MILLI, text_width_chars, text_width_of,
};
use crate::strutil::{chars_to_string, is_space, is_space_char, str_chars};

verus! {

/// The length of the leading run of non-whitespace characters.
pub open spec fn word_len(s: Seq<char>) -> int
    decreases s.len(),
{
    if s.len() == 0 || is_space_char(s[0]) {
        0
    } else {
        1 + word_len(s.skip(1))
    }
}

/// The leading word run is within bounds and free of whitespace.
pub proof fn lemma_word_len(s: Seq<char>)
    ensures
        0 <= word_len(s) <= s.len(),
        s.len() > 0 && !is_space_char(s[0]) ==> word_len(s) >= 1,
        forall|i: int| 0 <= i < word_len(s) ==> !is_space_char(#[trigger] s[i]),
    decreases s.len(),
{
    if s.len() > 0 && !is_space_char(s[0]) {
        lemma_word_len(s.skip(1));
        assert forall|i: int| 0 <= i < word_len(s) implies !is_space_char(#[trigger] s[i]) by {
            if i > 0 {
                assert(s[i] == s.skip(1)[i - 1]);
            }
        }
    }
}

/// If the first `k` characters are non-whitespace and the next one (if any)
/// is whitespace, the leading word run has length exactly `k`.
pub proof fn lemma_word_len_split(s: Seq<char>, k: int)
    requires
        0 <= k <= s.len(),
        forall|j: int| 0 <= j < k ==> !is_space_char(#[trigger] s[j]),
        k == s.len() || is_space_char(s[k]),
    ensures
        word_len(s) == k,
    decreases k,
{
    if k == 0 {
    } else {
        assert(!is_space_char(s[0]));
        assert forall|j: int| 0 <= j < k - 1 implies !is_space_char(#[trigger] s.skip(1)[j]) by {
            assert(s.skip(1)[j] == s[j + 1]);
        }
        if k < s.len() {
            assert(s.skip(1)[k - 1] == s[k]);
        }
        lemma_word_len_split(s.skip(1), k - 1);
    }
}

/// The whitespace-separated words of a text, in order, empties dropped.
pub open spec fn words_of(s: Seq<char>) -> Seq<Seq<char>>
    decreases s.len(),
    via words_of_decreases
{
    if s.len() == 0 {
        Seq::empty()
    } else if is_space_char(s[0]) {
        words_of(s.skip(1))
    } else {
        seq![s.take(word_len(s))] + words_of(s.skip(word_len(s)))
    }
}

#[via_fn]
proof fn words_of_decreases(s: Seq<char>) {
    if s.len() > 0 && !is_space_char(s[0]) {
        lemma_word_len(s);
    }
}

/// A word is well formed when it is nonempty and free of whitespace.
pub open spec fn word_wf(w: Seq<char>) -> bool {
    w.len() >= 1 && forall|i: int| 0 <= i < w.len() ==> !is_space_char(#[trigger] w[i])
}

/// Every word the splitter yields is well formed.
pub proof fn lemma_words_wf(s: Seq<char>)
    ensures
        forall|k: int| 0 <= k < words_of(s).len() ==> word_wf(#[trigger] words_of(s)[k]),
    decreases s.len(),
{
    if s.len() == 0 {
    } else if is_space_char(s[0]) {
        lemma_words_wf(s.skip(1));
        assert forall|k: int| 0 <= k < words_of(s).len() implies word_wf(
            #[trigger] words_of(s)[k],
        ) by {
            assert(words_of(s)[k] == words_of(s.skip(1))[k]);
        }
    } else {
        lemma_word_len(s);
        lemma_words_wf(s.skip(word_len(s)));
        let w = s.take(word_len(s));
        assert forall|i: int| 0 <= i < w.len() implies !is_space_char(#[trigger] w[i]) by {
            assert(w[i] == s[i]);
        }
        assert(word_wf(w));
        assert forall|k: int| 0 <= k < words_of(s).len() implies word_wf(
            #[trigger] words_of(s)[k],
        ) by {
            if k == 0 {
                assert(words_of(s)[0] == w);
            } else {
                assert(words_of(s)[k] == words_of(s.skip(word_len(s)))[k - 1]);
            }
        }
    }
}

/// The text of one line: its words joined by single spaces.
pub open spec fn line_text(ws: Seq<Seq<char>>) -> Seq<char>
    decreases ws.len(),
{
    if ws.len() == 0 {
        Seq::empty()
    } else if ws.len() == 1 {
        ws[0]
    } else {
        ws[0] + seq![' '] + line_text(ws.skip(1))
    }
}

/// Appending a word to a line appends a space and the word to its text.
pub proof fn lemma_line_text_push(ws: Seq<Seq<char>>, w: Seq<char>)
    ensures
        ws.len() == 0 ==> line_text(ws.push(w)) == w,
        ws.len() > 0 ==> line_text(ws.push(w)) =~= line_text(ws) + seq![' '] + w,
    decreases ws.len(),
{
    if ws.len() == 0 {
        assert(ws.push(w)[0] == w);
    } else if ws.len() == 1 {
        assert(ws.push(w)[0] == ws[0]);
        assert(ws.push(w).skip(1) =~= seq![w]);
        assert(line_text(seq![w]) == w);
        assert(line_text(ws.push(w)) =~= ws[0] + seq![' '] + w);
        assert(line_text(ws) == ws[0]);
    } else {
        lemma_line_text_push(ws.skip(1), w);
        assert(ws.push(w).skip(1) =~= ws.skip(1).push(w));
        assert(ws.push(w)[0] == ws[0]);
    }
}

/// One step of the greedy wrap: extend the open line while the candidate
/// still measures within the limit, else close it and open a new line with
/// the word that overflowed.
pub open spec fn wrap_rec(
    font: Seq<u8>,
    size: int,
    maxw: int,
    ws: Seq<Seq<char>>,
    cur: Seq<Seq<char>>,
) -> Seq<Seq<Seq<char>>>
    decreases ws.len(),
{
    if ws.len() == 0 {
        if cur.len() == 0 {
            Seq::empty()
        } else {
            seq![cur]
        }
    } else {
        let cand = cur.push(ws[0]);
        if text_width_of(font, line_text(cand), size) <= maxw {
            wrap_rec(font, size, maxw, ws.skip(1), cand)
        } else if cur.len() == 0 {
            wrap_rec(font, size, maxw, ws.skip(1), seq![ws[0]])
        } else {
            seq![cur] + wrap_rec(font, size, maxw, ws.skip(1), seq![ws[0]])
        }
    }
}

/// The wrapped lines of a text at a font size and width limit.
pub open spec fn wrap_lines_of(font: Seq<u8>, text: Seq<char>, size: int, maxw: int) -> Seq<
    Seq<Seq<char>>,
> {
    wrap_rec(font, size, maxw, words_of(text), Seq::empty())
}

/// The text of each line.
pub open spec fn line_texts(lines: Seq<Seq<Seq<char>>>) -> Seq<Seq<char>> {
    lines.map_values(|l: Seq<Seq<char>>| line_text(l))
}

/// Lines joined by newlines.
pub open spec fn join_texts(ls: Seq<Seq<char>>) -> Seq<char>
    decreases ls.len(),
{
    if ls.len() == 0 {
        Seq::empty()
    } else if ls.len() == 1 {
        ls[0]
    } else {
        ls[0] + seq!['\n'] + join_texts(ls.skip(1))
    }
}

/// The text form of a wrapped paragraph.
pub open spec fn join_lines(lines: Seq<Seq<Seq<char>>>) -> Seq<char> {
    join_texts(line_texts(lines))
}

/// The widest measured line of a wrapped paragraph.
pub open spec fn max_line_width(font: Seq<u8>, size: int, ls: Seq<Seq<char>>) -> int
    decreases ls.len(),
{
    if ls.len() == 0 {
        0
    } else {
        let w0 = text_width_of(font, ls[0], size);
        let rest = max_line_width(font, size, ls.skip(1));
        if w0 > rest {
            w0
        } else {
            rest
        }
    }
}

/// Copies a character vector.
pub(crate) fn copy_chars(v: &Vec<char>) -> (r: Vec<char>)
    ensures
        r@ == v@,
{
    let mut out: Vec<char> = Vec::new();
    let mut i: usize = 0;
    while i < v.len()
        invariant
            0 <= i <= v.len(),
            out@ == v@.take(i as int),
        decreases v.len() - i,
    {
        out.push(v[i]);
        proof {
            assert(out@ =~= v@.take(i as int + 1));
        }
        i = i + 1;
    }
    proof {
        assert(v@.take(v@.len() as int) =~= v@);
    }
    out
}

/// Splits a character sequence into its whitespace-separated words.
fn split_words(cs: &Vec<char>) -> (r: Vec<Vec<char>>)
    ensures
        r@.map_values(|w: Vec<char>| w@) == words_of(cs@),
        forall|k: int| 0 <= k < r@.len() ==> word_wf(#[trigger] r@[k]@),
{
    let mut out: Vec<Vec<char>> = Vec::new();
    let mut i: usize = 0;
    proof {
        assert(cs@.skip(0) =~= cs@);
    }
    while i < cs.len()
        invariant
            0 <= i <= cs.len(),
            words_of(cs@) == out@.map_values(|w: Vec<char>| w@) + words_of(cs@.skip(i as int)),
            forall|k: int| 0 <= k < out@.len() ==> word_wf(#[trigger] out@[k]@),
        decreases cs.len() - i,
    {
        let ghost rest = cs@.skip(i as int);
        if is_space(cs[i]) {
            proof {
                assert(rest[0] == cs@[i as int]);
                assert(rest.skip(1) =~= cs@.skip(i as int + 1));
            }
            i = i + 1;
        } else {
            let start: usize = i;
            let mut w: Vec<char> = Vec::new();
            while i < cs.len() && !is_space(cs[i])
                invariant
                    start <= i <= cs.len(),
                    w@ =~= cs@.subrange(start as int, i as int),
                    forall|j: int|
                        start <= j < i ==> !is_space_char(#[trigger] cs@[j]),
                decreases cs.len() - i,
            {
                w.push(cs[i]);
                proof {
                    assert(w@ =~= cs@.subrange(start as int, i as int + 1));
                }
                i = i + 1;
            }
            proof {
                let k = i - start;
                assert forall|j: int| 0 <= j < k implies !is_space_char(
                    #[trigger] rest[j],
                ) by {
                    assert(rest[j] == cs@[start + j]);
                }
                if i < cs.len() {
                    assert(rest[k as int] == cs@[i as int]);
                }
                lemma_word_len_split(rest, k as int);
                assert(rest.take(k as int) =~= cs@.subrange(start as int, i as int));
                assert(rest.skip(k as int) =~= cs@.skip(i as int));
                assert(words_of(rest) == seq![w@] + words_of(cs@.skip(i as int)));
                assert(word_wf(w@));
            }
            out.push(w);
            proof {
                let prev = out@.drop_last();
                assert(out@.drop_last() =~= prev);
                assert(out@.map_values(|x: Vec<char>| x@) =~= prev.map_values(
                    |x: Vec<char>| x@,
                ).push(w@));
            }
        }
    }
    proof {
        assert(cs@.skip(cs@.len() as int) =~= Seq::<char>::empty());
        assert(out@.map_values(|w: Vec<char>| w@) =~= words_of(cs@));
    }
    out
}

/// Wraps a list of words greedily at a width limit, returning the lines as
/// text.
fn wrap_words_exec(face: &FontFace, words: &Vec<Vec<char>>, font_size: i64, max_width: i64) -> (r:
    Vec<Vec<char>>)
    requires
        0 <= font_size <= MAX_SIZE_MILLI,
        forall|k: int| 0 <= k < words@.len() ==> word_wf(#[trigger] words@[k]@),
    ensures
        r@.map_values(|l: Vec<char>| l@) == line_texts(
            wrap_rec(
                face.bytes(),
                font_size as int,
                max_width as int,
                words@.map_values(|w: Vec<char>| w@),
                Seq::empty(),
            ),
        ),
{
    let ghost font = face.bytes();
    let ghost all: Seq<Seq<char>> = words@.map_values(|w: Vec<char>| w@);
    let mut out: Vec<Vec<char>> = Vec::new();
    let mut cur: Vec<char> = Vec::new();
    let ghost mut curw: Seq<Seq<char>> = Seq::empty();
    let mut i: usize = 0;
    proof {
        assert(all.skip(0) =~= all);
    }
    while i < words.len()
        invariant
            0 <= i <= words.len(),
            0 <= font_size <= MAX_SIZE_MILLI,
            forall|k: int| 0 <= k < words@.len() ==> word_wf(#[trigger] words@[k]@),
            all == words@.map_values(|w: Vec<char>| w@),
            font == face.bytes(),
            cur@ == line_text(curw),
            curw.len() == 0 <==> cur@.len() == 0,
            line_texts(wrap_rec(font, font_size as int, max_width as int, all, Seq::empty()))
                == out@.map_values(|l: Vec<char>| l@) + line_texts(
                wrap_rec(font, font_size as int, max_width as int, all.skip(i as int), curw),
            ),
        decreases words.len() - i,
    {
        let ghost rest = all.skip(i as int);
        proof {
            assert(rest[0] == all[i as int]);
            assert(all[i as int] == words@[i as int]@);
            assert(rest.skip(1) =~= all.skip(i as int + 1));
        }
        let word = &words[i];
        proof {
            assert(word_wf(word@));
        }
        let mut cand: Vec<char>;
        if cur.len() == 0 {
            cand = copy_chars(word);
        } else {
            cand = copy_chars(&cur);
            cand.push(' ');
            let mut j: usize = 0;
            while j < word.len()
                invariant
                    0 <= j <= word.len(),
                    cand@ =~= cur@ + seq![' '] + word@.take(j as int),
                decreases word.len() - j,
            {
                cand.push(word[j]);
                proof {
                    assert(word@.take(j as int).push(word@[j as int]) =~= word@.take(
                        j as int + 1,
                    ));
                    assert(cand@ =~= cur@ + seq![' '] + word@.take(j as int + 1));
                }
                j = j + 1;
            }
            proof {
                assert(word@.take(word@.len() as int) =~= word@);
            }
        }
        proof {
            lemma_line_text_push(curw, word@);
            assert(cand@ == line_text(curw.push(word@)));
        }
        let cw = text_width_chars(face, &cand, font_size);
        if cw <= max_width {
            cur = cand;
            proof {
                curw = curw.push(word@);
            }
        } else {
            if cur.len() > 0 {
                out.push(cur);
                proof {
                    assert(out@.map_values(|l: Vec<char>| l@) =~= out@.drop_last().map_values(
                        |l: Vec<char>| l@,
                    ).push(line_text(curw)));
                    assert(line_texts(seq![curw] + wrap_rec(
                        font, font_size as int, max_width as int, rest.skip(1), seq![word@],
                    )) =~= seq![line_text(curw)] + line_texts(wrap_rec(
                        font, font_size as int, max_width as int, rest.skip(1), seq![word@],
                    )));
                }
            }
            cur = copy_chars(word);
            proof {
                curw = seq![word@];
                assert(line_text(curw) == word@);
            }
        }
        i = i + 1;
    }
    proof {
        assert(all.skip(all.len() as int) =~= Seq::<Seq<char>>::empty());
    }
    if cur.len() > 0 {
        out.push(cur);
        proof {
            assert(line_texts(seq![curw]) =~= seq![line_text(curw)]);
            assert(out@.map_values(|l: Vec<char>| l@) =~= out@.drop_last().map_values(
                |l: Vec<char>| l@,
            ).push(line_text(curw)));
        }
    } else {
        proof {
            assert(line_texts(Seq::<Seq<Seq<char>>>::empty()) =~= Seq::<Seq<char>>::empty());
        }
    }
    proof {
        assert(out@.map_values(|l: Vec<char>| l@) =~= line_texts(
            wrap_rec(font, font_size as int, max_width as int, all, Seq::empty()),
        ));
    }
    out
}

/// Joins wrapped lines with newlines, from a starting index.
fn join_from(lines: &Vec<Vec<char>>, i: usize) -> (r: Vec<char>)
    requires
        i <= lines.len(),
    ensures
        r@ == join_texts(lines@.map_values(|l: Vec<char>| l@).skip(i as int)),
    decreases lines.len() - i,
{
    let ghost ls = lines@.map_values(|l: Vec<char>| l@);
    if i >= lines.len() {
        proof {
            assert(ls.skip(i as int) =~= Seq::<Seq<char>>::empty());
        }
        Vec::new()
    } else if i == lines.len() - 1 {
        proof {
            assert(ls.skip(i as int).len() == 1);
            assert(ls.skip(i as int)[0] == ls[i as int]);
        }
        copy_chars(&lines[i])
    } else {
        let mut out = copy_chars(&lines[i]);
        out.push('\n');
        let mut tail = join_from(lines, i + 1);
        let mut j: usize = 0;
        while j < tail.len()
            invariant
                0 <= j <= tail.len(),
                out@ =~= ls[i as int] + seq!['\n'] + tail@.take(j as int),
            decreases tail.len() - j,
        {
            out.push(tail[j]);
            proof {
                assert(out@ =~= ls[i as int] + seq!['\n'] + tail@.take(j as int + 1));
            }
            j = j + 1;
        }
        proof {
            assert(tail@.take(tail@.len() as int) =~= tail@);
            assert(ls.skip(i as int)[0] == ls[i as int]);
            assert(ls.skip(i as int).skip(1) =~= ls.skip(i as int + 1));
            assert(ls.skip(i as int).len() > 1);
        }
        out
    }
}

/// The widest measured line, from a starting index.
pub(crate) fn max_width_from(face: &FontFace, lines: &Vec<Vec<char>>, font_size: i64, i: usize) -> (r: i64)
    requires
        i <= lines.len(),
        0 <= font_size <= MAX_SIZE_MILLI,
    ensures
        r == max_line_width(
            face.bytes(),
            font_size as int,
            lines@.map_values(|l: Vec<char>| l@).skip(i as int),
        ),
        0 <= r <= WIDTH_CAP_MILLI,
    decreases lines.len() - i,
{
    let ghost ls = lines@.map_values(|l: Vec<char>| l@);
    if i >= lines.len() {
        proof {
            assert(ls.skip(i as int) =~= Seq::<Seq<char>>::empty());
        }
        0
    } else {
        let w0 = text_width_chars(face, &lines[i], font_size);
        let rest = max_width_from(face, lines, font_size, i + 1);
        proof {
            assert(ls.skip(i as int)[0] == ls[i as int]);
            assert(ls.skip(i as int).skip(1) =~= ls.skip(i as int + 1));
        }
        if w0 > rest {
            w0
        } else {
            rest
        }
    }
}

/// Wraps a text greedily at a width limit: whitespace-delimited words are
/// accumulated while the measured candidate stays within the limit; on
/// overflow the line is closed and the offending word opens the next one.
/// Returns the wrapped text, its line count, and the widest line.
pub fn wrap_text(face: &FontFace, text: &str, font_size: i64, max_width: i64) -> (r: (
    String,
    usize,
    i64,
))
    requires
        0 <= font_size <= MAX_SIZE_MILLI,
    ensures
        ({
            let lines = wrap_lines_of(face.bytes(), text@, font_size as int, max_width as int);
            &&& r.0@ == join_lines(lines)
            &&& r.1 == lines.len()
            &&& r.2 == max_line_width(face.bytes(), font_size as int, line_texts(lines))
            &&& 0 <= r.2 <= WIDTH_CAP_MILLI
        }),
{
    let cs = str_chars(text);
    let words = split_words(&cs);
    let lines = wrap_words_exec(face, &words, font_size, max_width);
    let joined = join_from(&lines, 0);
    let out = chars_to_string(&joined);
    let high = max_width_from(face, &lines, font_size, 0);
    proof {
        let ls = lines@.map_values(|l: Vec<char>| l@);
        assert(ls.skip(0) =~= ls);
    }
    (out, lines.len(), high)
}

/// Whether a text, wrapped at a size, stays inside a box: the widest line
/// within the width, and the line count times the size times the fixed 1.2
/// line height within the height.
pub open spec fn fits_box(font: Seq<u8>, text: Seq<char>, size: int, maxw: int, maxh: int) -> bool {
    let lines = wrap_lines_of(font, text, size, maxw);
    max_line_width(font, size, line_texts(lines)) <= maxw && lines.len() * size * 12 <= maxh * 10
}

/// Measures one candidate size against the box.
fn check_fits(face: &FontFace, text: &str, size: i64, maxw: i64, maxh: i64) -> (r: bool)
    requires
        0 <= size <= MAX_SIZE_MILLI,
    ensures
        r == fits_box(face.bytes(), text@, size as int, maxw as int, maxh as int),
{
    let (_t, count, high) = wrap_text(face, text, size, maxw);
    proof {
        assert(0 <= (count as int) * (size as int) <= 0xffffffffffffffff * (
        MAX_SIZE_MILLI as int)) by (nonlinear_arith)
            requires
                0 <= count <= 0xffffffffffffffff,
                0 <= size <= MAX_SIZE_MILLI,
        ;
    }
    let h_total: i128 = (count as i128) * (size as i128) * 12;
    high <= maxw && h_total <= (maxh as i128) * 10
}

/// One bisection round of the size search: while the bracket is wider
/// than 0.1pt, the midpoint is measured; a midpoint that fits becomes the
/// new floor and the best size so far, one that does not becomes the new
/// ceiling.
pub open spec fn fit_bisect(
    font: Seq<u8>,
    text: Seq<char>,
    w: int,
    h: int,
    lo: int,
    hi: int,
    best: Option<int>,
) -> Option<int>
    decreases hi - lo,
{
    if hi - lo <= 100 {
        best
    } else {
        let mid = lo + (hi - lo) / 2;
        if fits_box(font, text, mid, w, h) {
            fit_bisect(font, text, w, h, mid, hi, Some(mid))
        } else {
            fit_bisect(font, text, w, h, lo, mid, best)
        }
    }
}

/// The size the search settles on: nothing below a one-point box, else
/// the bisection over [1pt, h] seeded with the floor size where the floor
/// fits.
pub open spec fn fit_size_spec(font: Seq<u8>, text: Seq<char>, w: int, h: int) -> Option<int> {
    if h < 1000 {
        None
    } else {
        fit_bisect(
            font,
            text,
            w,
            h,
            1000,
            h,
            if fits_box(font, text, 1000, w, h) {
                Some(1000int)
            } else {
                None
            },
        )
    }
}

/// Law: when the fit predicate is monotone in the size, the bisection's
/// answer is maximal at the 0.1pt resolution — every candidate more than
/// one step above it fails to fit. The bracket invariants: the best size
/// is the fitting floor of the bracket, and the ceiling either is the box
/// height or fails to fit.
proof fn lemma_fit_bisect_bracket(
    font: Seq<u8>,
    text: Seq<char>,
    w: int,
    h: int,
    lo: int,
    hi: int,
    best: Option<int>,
    s2: int,
)
    requires
        forall|a: int, b: int|
            #![trigger fits_box(font, text, a, w, h), fits_box(font, text, b, w, h)]
            1000 <= a <= b <= h && fits_box(font, text, b, w, h) ==> fits_box(font, text, a, w, h),
        1000 <= lo <= hi <= h,
        best is Some ==> best->0 == lo && fits_box(font, text, lo, w, h),
        hi == h || !fits_box(font, text, hi, w, h),
        fit_bisect(font, text, w, h, lo, hi, best) is Some,
        fit_bisect(font, text, w, h, lo, hi, best)->0 + 100 < s2 <= h,
    ensures
        !fits_box(font, text, s2, w, h),
    decreases hi - lo,
{
    if hi - lo <= 100 {
        let s = best->0;
        assert(s == lo);
        assert(s2 > lo + 100 >= hi);
        if hi == h {
            assert(s2 <= h < s2);
        } else {
            if fits_box(font, text, s2, w, h) {
                assert(1000 <= hi <= s2 <= h);
                assert(fits_box(font, text, hi, w, h));
            }
        }
    } else {
        let mid = lo + (hi - lo) / 2;
        if fits_box(font, text, mid, w, h) {
            lemma_fit_bisect_bracket(font, text, w, h, mid, hi, Some(mid), s2);
        } else {
            lemma_fit_bisect_bracket(font, text, w, h, lo, mid, best, s2);
        }
    }
}

/// Law: when the fit predicate is monotone in the size, the fitted size
/// is maximal at the 0.1pt resolution.
pub proof fn lemma_fit_size_maximal(font: Seq<u8>, text: Seq<char>, w: int, h: int, s2: int)
    requires
        forall|a: int, b: int|
            #![trigger fits_box(font, text, a, w, h), fits_box(font, text, b, w, h)]
            1000 <= a <= b <= h && fits_box(font, text, b, w, h) ==> fits_box(font, text, a, w, h),
        fit_size_spec(font, text, w, h) is Some,
        fit_size_spec(font, text, w, h)->0 + 100 < s2 <= h,
    ensures
        !fits_box(font, text, s2, w, h),
{
    lemma_fit_bisect_bracket(
        font,
        text,
        w,
        h,
        1000,
        h,
        if fits_box(font, text, 1000, w, h) {
            Some(1000int)
        } else {
            None
        },
        s2,
    );
}

/// Searches for the largest font size, at 0.1pt resolution, at which the
/// text wraps into the box. The chosen size is exactly `fit_size_spec`,
/// so equal inputs always settle on the same size; the floor size is
/// tried outright, so a box that admits the floor is never refused.
pub fn fit_text_font_size(face: &FontFace, text: &str, width: i64, height: i64) -> (r: Option<
    (String, i64),
>)
    requires
        0 <= height <= MAX_SIZE_MILLI,
    ensures
        ({
            let sized = fit_size_spec(face.bytes(), text@, width as int, height as int);
            &&& (r is Some <==> sized is Some)
            &&& r is Some ==> ({
                let pair = r->0;
                let s = pair.1 as int;
                &&& s == sized->0
                &&& 1000 <= s <= height
                &&& fits_box(face.bytes(), text@, s, width as int, height as int)
                &&& pair.0@ == join_lines(wrap_lines_of(face.bytes(), text@, s, width as int))
            })
        }),
        height >= 1000 && fits_box(face.bytes(), text@, 1000, width as int, height as int)
            ==> r is Some,
        r is None ==> height < 1000 || !fits_box(
            face.bytes(),
            text@,
            1000,
            width as int,
            height as int,
        ),
{
    let ghost sized = fit_size_spec(face.bytes(), text@, width as int, height as int);
    if height < 1000 {
        return None;
    }
    let mut best: Option<i64> = None;
    if check_fits(face, text, 1000, width, height) {
        best = Some(1000);
    }
    let mut lo: i64 = 1000;
    let mut hi: i64 = height;
    while hi - lo > 100
        invariant
            1000 <= lo <= hi <= height,
            height <= MAX_SIZE_MILLI,
            sized == fit_size_spec(face.bytes(), text@, width as int, height as int),
            sized == fit_bisect(
                face.bytes(),
                text@,
                width as int,
                height as int,
                lo as int,
                hi as int,
                match best {
                    Some(b) => Some(b as int),
                    None => None,
                },
            ),
            best is Some ==> 1000 <= best->0 <= height && fits_box(
                face.bytes(),
                text@,
                best->0 as int,
                width as int,
                height as int,
            ),
            fits_box(face.bytes(), text@, 1000, width as int, height as int) ==> best is Some,
        decreases hi - lo,
    {
        let mid = lo + (hi - lo) / 2;
        if check_fits(face, text, mid, width, height) {
            best = Some(mid);
            lo = mid;
        } else {
            hi = mid;
        }
    }
    match best {
        Some(s) => {
            let (t, _c, _h) = wrap_text(face, text, s, width);
            Some((t, s))
        },
        None => None,
    }
}

/// Every word of a line is well formed.
pub open spec fn line_wf(l: Seq<Seq<char>>) -> bool {
    forall|j: int| 0 <= j < l.len() ==> word_wf(#[trigger] l[j])
}

/// Every word of every line is well formed.
pub open spec fn lines_wf(ls: Seq<Seq<Seq<char>>>) -> bool {
    forall|i: int| 0 <= i < ls.len() ==> line_wf(#[trigger] ls[i])
}

/// The lines of a wrapped paragraph flattened back to one word list.
pub open spec fn flatten_lines(lines: Seq<Seq<Seq<char>>>) -> Seq<Seq<char>>
    decreases lines.len(),
{
    if lines.len() == 0 {
        Seq::empty()
    } else {
        lines[0] + flatten_lines(lines.skip(1))
    }
}

/// Wrapping partitions the words: flattening the lines gives back the open
/// line's words followed by the remaining words, in order.
pub proof fn lemma_wrap_flatten(
    font: Seq<u8>,
    size: int,
    maxw: int,
    ws: Seq<Seq<char>>,
    cur: Seq<Seq<char>>,
)
    ensures
        flatten_lines(wrap_rec(font, size, maxw, ws, cur)) =~= cur + ws,
    decreases ws.len(),
{
    if ws.len() == 0 {
        if cur.len() == 0 {
        } else {
            assert(seq![cur].skip(1) =~= Seq::<Seq<Seq<char>>>::empty());
            assert(seq![cur][0] == cur);
            assert(flatten_lines(Seq::<Seq<Seq<char>>>::empty()) == Seq::<Seq<char>>::empty());
            assert(flatten_lines(seq![cur]) == cur + Seq::<Seq<char>>::empty());
            assert(cur + Seq::<Seq<char>>::empty() =~= cur);
        }
    } else {
        let cand = cur.push(ws[0]);
        if text_width_of(font, line_text(cand), size) <= maxw {
            lemma_wrap_flatten(font, size, maxw, ws.skip(1), cand);
            assert(cand + ws.skip(1) =~= cur + ws);
        } else if cur.len() == 0 {
            lemma_wrap_flatten(font, size, maxw, ws.skip(1), seq![ws[0]]);
            assert(seq![ws[0]] + ws.skip(1) =~= cur + ws);
        } else {
            lemma_wrap_flatten(font, size, maxw, ws.skip(1), seq![ws[0]]);
            let rest = wrap_rec(font, size, maxw, ws.skip(1), seq![ws[0]]);
            assert((seq![cur] + rest)[0] == cur);
            assert((seq![cur] + rest).skip(1) =~= rest);
            assert(flatten_lines(seq![cur] + rest) =~= cur + flatten_lines(rest));
            assert(cur + (seq![ws[0]] + ws.skip(1)) =~= cur + ws);
        }
    }
}

/// Wrapping well-formed words yields lines of well-formed words.
pub proof fn lemma_wrap_lines_wf(
    font: Seq<u8>,
    size: int,
    maxw: int,
    ws: Seq<Seq<char>>,
    cur: Seq<Seq<char>>,
)
    requires
        forall|k: int| 0 <= k < ws.len() ==> word_wf(#[trigger] ws[k]),
        line_wf(cur),
    ensures
        lines_wf(wrap_rec(font, size, maxw, ws, cur)),
    decreases ws.len(),
{
    if ws.len() == 0 {
        if cur.len() == 0 {
        } else {
            assert forall|i: int| 0 <= i < seq![cur].len() implies line_wf(
                #[trigger] seq![cur][i],
            ) by {
                assert(seq![cur][0] == cur);
            }
        }
    } else {
        let cand = cur.push(ws[0]);
        assert forall|k: int| 0 <= k < ws.skip(1).len() implies word_wf(
            #[trigger] ws.skip(1)[k],
        ) by {
            assert(ws.skip(1)[k] == ws[k + 1]);
        }
        assert(line_wf(seq![ws[0]])) by {
            assert(seq![ws[0]][0] == ws[0]);
        }
        if text_width_of(font, line_text(cand), size) <= maxw {
            assert(line_wf(cand)) by {
                assert(forall|j: int|
                    0 <= j < cur.len() ==> #[trigger] cand[j] == cur[j]);
                assert(cand[cur.len() as int] == ws[0]);
            }
            lemma_wrap_lines_wf(font, size, maxw, ws.skip(1), cand);
        } else if cur.len() == 0 {
            lemma_wrap_lines_wf(font, size, maxw, ws.skip(1), seq![ws[0]]);
        } else {
            lemma_wrap_lines_wf(font, size, maxw, ws.skip(1), seq![ws[0]]);
            let rest = wrap_rec(font, size, maxw, ws.skip(1), seq![ws[0]]);
            assert forall|i: int| 0 <= i < (seq![cur] + rest).len() implies line_wf(
                #[trigger] (seq![cur] + rest)[i],
            ) by {
                if i == 0 {
                    assert((seq![cur] + rest)[0] == cur);
                } else {
                    assert((seq![cur] + rest)[i] == rest[i - 1]);
                }
            }
        }
    }
}

/// Splitting the space-joined words back apart, with any whitespace-led
/// tail appended, recovers the words followed by the tail's words.
pub proof fn lemma_words_of_line(ws: Seq<Seq<char>>, tail: Seq<char>)
    requires
        line_wf(ws),
        tail.len() == 0 || is_space_char(tail[0]),
    ensures
        words_of(line_text(ws) + tail) =~= ws + words_of(tail),
    decreases ws.len(),
{
    if ws.len() == 0 {
        assert(line_text(ws) + tail =~= tail);
    } else if ws.len() == 1 {
        let w = ws[0];
        let s = line_text(ws) + tail;
        assert(s =~= w + tail);
        assert(word_wf(w));
        assert forall|j: int| 0 <= j < w.len() implies !is_space_char(#[trigger] s[j]) by {
            assert(s[j] == w[j]);
        }
        if tail.len() > 0 {
            assert(s[w.len() as int] == tail[0]);
        }
        lemma_word_len_split(s, w.len() as int);
        assert(s.take(w.len() as int) =~= w);
        assert(s.skip(w.len() as int) =~= tail);
        assert(words_of(s) =~= seq![w] + words_of(tail));
        assert(seq![w] + words_of(tail) =~= ws + words_of(tail));
    } else {
        let w = ws[0];
        let mid = seq![' '] + line_text(ws.skip(1)) + tail;
        let s = line_text(ws) + tail;
        assert(s =~= w + mid);
        assert(word_wf(w));
        assert forall|j: int| 0 <= j < w.len() implies !is_space_char(#[trigger] s[j]) by {
            assert(s[j] == w[j]);
        }
        assert(s[w.len() as int] == mid[0]);
        assert(is_space_char(mid[0]));
        lemma_word_len_split(s, w.len() as int);
        assert(s.take(w.len() as int) =~= w);
        assert(s.skip(w.len() as int) =~= mid);
        assert(mid.skip(1) =~= line_text(ws.skip(1)) + tail);
        assert(words_of(mid) == words_of(line_text(ws.skip(1)) + tail));
        assert forall|j: int| 0 <= j < ws.skip(1).len() implies word_wf(
            #[trigger] ws.skip(1)[j],
        ) by {
            assert(ws.skip(1)[j] == ws[j + 1]);
        }
        lemma_words_of_line(ws.skip(1), tail);
        assert(words_of(s) =~= seq![w] + (ws.skip(1) + words_of(tail)));
        assert(seq![w] + (ws.skip(1) + words_of(tail)) =~= ws + words_of(tail));
    }
}

/// Splitting the newline-joined text of well-formed lines recovers exactly
/// the flattened word list.
pub proof fn lemma_words_of_join(lines: Seq<Seq<Seq<char>>>)
    requires
        lines_wf(lines),
    ensures
        words_of(join_lines(lines)) =~= flatten_lines(lines),
    decreases lines.len(),
{
    let lts = line_texts(lines);
    if lines.len() == 0 {
        assert(lts.len() == 0);
    } else if lines.len() == 1 {
        assert(lts.len() == 1);
        assert(lts[0] == line_text(lines[0]));
        assert(join_lines(lines) == line_text(lines[0]));
        assert(line_wf(lines[0]));
        lemma_words_of_line(lines[0], Seq::empty());
        assert(line_text(lines[0]) + Seq::<char>::empty() =~= line_text(lines[0]));
        assert(words_of(Seq::<char>::empty()) =~= Seq::<Seq<char>>::empty());
        assert(flatten_lines(lines) =~= lines[0]) by {
            assert(lines.skip(1) =~= Seq::<Seq<Seq<char>>>::empty());
            assert(flatten_lines(Seq::<Seq<Seq<char>>>::empty()) == Seq::<Seq<char>>::empty());
            assert(flatten_lines(lines) == lines[0] + Seq::<Seq<char>>::empty());
            assert(lines[0] + Seq::<Seq<char>>::empty() =~= lines[0]);
        }
        assert(lines[0] + Seq::<Seq<char>>::empty() =~= lines[0]);
    } else {
        assert(lts.len() == lines.len());
        assert(lts[0] == line_text(lines[0]));
        let tail = seq!['\n'] + join_texts(lts.skip(1));
        assert(join_texts(lts) =~= lts[0] + tail);
        assert(is_space_char(tail[0]));
        assert(line_wf(lines[0]));
        lemma_words_of_line(lines[0], tail);
        assert(tail.skip(1) =~= join_texts(lts.skip(1)));
        assert(words_of(tail) == words_of(join_texts(lts.skip(1))));
        assert(lts.skip(1) =~= line_texts(lines.skip(1))) by {
            assert forall|i: int| 0 <= i < lts.skip(1).len() implies lts.skip(1)[i]
                == line_texts(lines.skip(1))[i] by {
                assert(lts.skip(1)[i] == lts[i + 1]);
                assert(lines.skip(1)[i] == lines[i + 1]);
            }
        }
        assert forall|i: int| 0 <= i < lines.skip(1).len() implies line_wf(
            #[trigger] lines.skip(1)[i],
        ) by {
            assert(lines.skip(1)[i] == lines[i + 1]);
        }
        lemma_words_of_join(lines.skip(1));
        assert(words_of(join_lines(lines)) =~= lines[0] + flatten_lines(lines.skip(1)));
    }
}

/// Law: greedy wrapping is idempotent — wrapping the text form of a wrapped
/// paragraph at the same font size and width limit reproduces exactly the
/// same line breaks, and with them the same text, line count and widest
/// line.
pub proof fn lemma_wrap_idempotent(font: Seq<u8>, text: Seq<char>, size: int, maxw: int)
    ensures
        ({
            let once = wrap_lines_of(font, text, size, maxw);
            let again = wrap_lines_of(font, join_lines(once), size, maxw);
            &&& again == once
            &&& join_lines(again) == join_lines(once)
            &&& again.len() == once.len()
            &&& max_line_width(font, size, line_texts(again)) == max_line_width(
                font,
                size,
                line_texts(once),
            )
        }),
{
    let ws = words_of(text);
    lemma_words_wf(text);
    let lines = wrap_rec(font, size, maxw, ws, Seq::empty());
    lemma_wrap_lines_wf(font, size, maxw, ws, Seq::empty());
    lemma_words_of_join(lines);
    lemma_wrap_flatten(font, size, maxw, ws, Seq::empty());
    assert(Seq::<Seq<char>>::empty() + ws =~= ws);
    assert(words_of(join_lines(lines)) =~= ws);
    assert(words_of(join_lines(lines)) == ws);
}


/// Wraps a text and hands the lines back, each as its characters.
pub fn wrap_text_lines(face: &FontFace, text: &str, font_size: i64, max_width: i64) -> (r: Vec<
    Vec<char>,
>)
    requires
        0 <= font_size <= MAX_SIZE_MILLI,
    ensures
        r@.map_values(|l: Vec<char>| l@) == line_texts(
            wrap_lines_of(face.bytes(), text@, font_size as int, max_width as int),
        ),
{
    let cs = str_chars(text);
    let words = split_words(&cs);
    wrap_words_exec(face, &words, font_size, max_width)
}

} // verus!
