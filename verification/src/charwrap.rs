//! Hard wrapping by character count, used to pre-break text before
//! width-based wrapping.

use vstd::prelude::*;

use crate::strutil::{chars_to_string, str_chars};

verus! {

/// The result of hard-wrapping: a newline resets the count, a character on a
/// full line is preceded by an inserted newline, and every character of the
/// input is kept in order.
pub open spec fn hard_wrap_chars(s: Seq<char>, max: int, count: int) -> Seq<char>
    decreases s.len(),
{
    if s.len() == 0 {
        Seq::empty()
    } else if s[0] == '\n' {
        seq!['\n'] + hard_wrap_chars(s.skip(1), max, 0)
    } else if count >= max {
        seq!['\n', s[0]] + hard_wrap_chars(s.skip(1), max, 1)
    } else {
        seq![s[0]] + hard_wrap_chars(s.skip(1), max, count + 1)
    }
}

/// Walks the characters inserting line breaks whenever a line reaches
/// `max_chars` characters, counting afresh after each newline.
fn hard_wrap_loop(cs: &Vec<char>, max_chars: usize) -> (r: Vec<char>)
    ensures
        r@ == hard_wrap_chars(cs@, max_chars as int, 0),
{
    let mut out: Vec<char> = Vec::new();
    let mut count: usize = 0;
    let mut i: usize = 0;
    proof {
        assert(cs@.skip(0) =~= cs@);
    }
    while i < cs.len()
        invariant
            0 <= i <= cs.len(),
            count <= i,
            hard_wrap_chars(cs@, max_chars as int, 0) == out@ + hard_wrap_chars(
                cs@.skip(i as int),
                max_chars as int,
                count as int,
            ),
        decreases cs.len() - i,
    {
        let ghost rest = cs@.skip(i as int);
        proof {
            assert(rest[0] == cs@[i as int]);
            assert(rest.skip(1) =~= cs@.skip(i as int + 1));
        }
        let c = cs[i];
        if c == '\n' {
            out.push('\n');
            count = 0;
        } else if count >= max_chars {
            out.push('\n');
            out.push(c);
            count = 1;
        } else {
            out.push(c);
            count = count + 1;
        }
        i = i + 1;
    }
    proof {
        assert(cs@.skip(cs@.len() as int) =~= Seq::<char>::empty());
        assert(out@ =~= hard_wrap_chars(cs@, max_chars as int, 0));
    }
    out
}

/// Hard-wraps a string by character count; a `max_chars` of zero puts every
/// character on its own line, as `hard_wrap_chars` describes.
pub fn hard_wrap_by_chars(text: &str, max_chars: usize) -> (r: String)
    ensures
        r@ == hard_wrap_chars(text@, max_chars as int, 0),
{
    let cs = str_chars(text);
    let out = hard_wrap_loop(&cs, max_chars);
    chars_to_string(&out)
}

/// Hard-wraps a string by character count, passing text through unchanged
/// when the limit is zero.
pub fn wrap_text_at_char_limit(text: &str, max_chars: usize) -> (r: String)
    ensures
        max_chars == 0 ==> r@ == text@,
        max_chars > 0 ==> r@ == hard_wrap_chars(text@, max_chars as int, 0),
{
    if max_chars == 0 {
        return text.to_owned();
    }
    let cs = str_chars(text);
    let out = hard_wrap_loop(&cs, max_chars);
    chars_to_string(&out)
}

} // verus!
