//! The verification code and the public-URL template.

use vstd::prelude::*;

use crate::color::{hex_char_exec, hex_char_of};
use crate::strutil::{chars_to_string, str_chars};

verus! {

/// What crc32fast's CRC-32 of a byte sequence is.
pub uninterp spec fn crc32_of(data: Seq<u8>) -> u32;

/// Relies on crc32fast::hash: the IEEE CRC-32 checksum of the bytes, a
/// function of the input alone.
#[verifier::external_body]
fn crc32_hash(data: &[u8]) -> (r: u32)
    ensures
        r == crc32_of(data@),
{
    crc32fast::hash(data)
}

/// The decimal digits of a nonnegative number, most significant first.
pub open spec fn dec_chars(n: int) -> Seq<char>
    decreases n,
{
    if n < 10 {
        seq![hex_char_of(if n < 0 {
            0int
        } else {
            n
        })]
    } else {
        dec_chars(n / 10) + seq![hex_char_of(n % 10)]
    }
}

/// The lowercase hexadecimal digits of a nonnegative number, most
/// significant first, with no leading zeros.
pub open spec fn hexu_chars(n: int) -> Seq<char>
    decreases n,
{
    if n < 16 {
        seq![hex_char_of(if n < 0 {
            0int
        } else {
            n
        })]
    } else {
        hexu_chars(n / 16) + seq![hex_char_of(n % 16)]
    }
}

/// Writes a number in decimal.
fn dec_chars_exec(n: u64) -> (r: Vec<char>)
    ensures
        r@ == dec_chars(n as int),
    decreases n,
{
    if n < 10 {
        let mut out: Vec<char> = Vec::new();
        out.push(hex_char_exec(n as u8));
        proof {
            assert(out@ =~= dec_chars(n as int));
        }
        out
    } else {
        let mut out = dec_chars_exec(n / 10);
        out.push(hex_char_exec((n % 10) as u8));
        proof {
            assert(out@ =~= dec_chars(n as int));
        }
        out
    }
}

/// Writes a number in lowercase hexadecimal.
fn hexu_chars_exec(n: u32) -> (r: Vec<char>)
    ensures
        r@ == hexu_chars(n as int),
    decreases n,
{
    if n < 16 {
        let mut out: Vec<char> = Vec::new();
        out.push(hex_char_exec(n as u8));
        proof {
            assert(out@ =~= hexu_chars(n as int));
        }
        out
    } else {
        let mut out = hexu_chars_exec(n / 16);
        out.push(hex_char_exec((n % 16) as u8));
        proof {
            assert(out@ =~= hexu_chars(n as int));
        }
        out
    }
}

/// The verification code: the timestamp in decimal, then the template's
/// CRC-32 and the schema's CRC-32 in hexadecimal, dash-separated.
pub open spec fn code_chars(ts: int, th: u32, sh: u32) -> Seq<char> {
    dec_chars(ts) + seq!['-'] + hexu_chars(th as int) + seq!['-'] + hexu_chars(sh as int)
}

/// Builds the verification code of a generation: the timestamp and the
/// CRC-32 checksums of the template bytes and of the serialized schema.
pub fn verification_code(timestamp: u64, template: &Vec<u8>, schema: &Vec<u8>) -> (r: String)
    ensures
        r@ == code_chars(
            timestamp as int,
            crc32_of(template@),
            crc32_of(schema@),
        ),
{
    let th = crc32_hash(template.as_slice());
    let sh = crc32_hash(schema.as_slice());
    let mut cs = dec_chars_exec(timestamp);
    cs.push('-');
    let hexa = hexu_chars_exec(th);
    let mut i: usize = 0;
    while i < hexa.len()
        invariant
            0 <= i <= hexa@.len(),
            cs@ =~= dec_chars(timestamp as int) + seq!['-'] + hexa@.take(i as int),
        decreases hexa@.len() - i,
    {
        cs.push(hexa[i]);
        proof {
            assert(cs@ =~= dec_chars(timestamp as int) + seq!['-'] + hexa@.take(i as int + 1));
        }
        i = i + 1;
    }
    proof {
        assert(hexa@.take(hexa@.len() as int) =~= hexa@);
    }
    cs.push('-');
    let hexb = hexu_chars_exec(sh);
    let ghost mid = cs@;
    let mut j: usize = 0;
    while j < hexb.len()
        invariant
            0 <= j <= hexb@.len(),
            cs@ =~= mid + hexb@.take(j as int),
        decreases hexb@.len() - j,
    {
        cs.push(hexb[j]);
        proof {
            assert(cs@ =~= mid + hexb@.take(j as int + 1));
        }
        j = j + 1;
    }
    proof {
        assert(hexb@.take(hexb@.len() as int) =~= hexb@);
        assert(cs@ =~= code_chars(timestamp as int, crc32_of(template@), crc32_of(schema@)));
    }
    chars_to_string(&cs)
}

/// Replacing a pattern left to right, without overlap: wherever the
/// pattern starts, the replacement is written and the scan resumes past
/// the match.
pub open spec fn replace_seq(s: Seq<char>, pat: Seq<char>, rep: Seq<char>) -> Seq<char>
    decreases s.len(),
{
    if pat.len() == 0 || s.len() < pat.len() {
        s
    } else if s.take(pat.len() as int) == pat {
        rep + replace_seq(s.skip(pat.len() as int), pat, rep)
    } else {
        seq![s[0]] + replace_seq(s.skip(1), pat, rep)
    }
}

/// Whether the pattern starts at position `i`.
fn match_at(s: &Vec<char>, i: usize, pat: &Vec<char>) -> (r: bool)
    requires
        i <= s@.len(),
    ensures
        r == (s@.len() - i >= pat@.len() && s@.skip(i as int).take(pat@.len() as int) == pat@),
{
    if s.len() - i < pat.len() {
        proof {
            assert(s@.len() - i < pat@.len());
        }
        return false;
    }
    let n = s.len();
    let mut j: usize = 0;
    while j < pat.len()
        invariant
            0 <= j <= pat@.len(),
            n == s@.len(),
            i + pat@.len() <= s@.len(),
            forall|k: int| 0 <= k < j ==> s@[i + k] == pat@[k],
        decreases pat@.len() - j,
    {
        proof {
            assert(i + j < n);
        }
        if s[i + j] != pat[j] {
            proof {
                assert(s@.skip(i as int).take(pat@.len() as int)[j as int] == s@[i + j]);
                if s@.skip(i as int).take(pat@.len() as int) == pat@ {
                    assert(s@[i + j] == pat@[j as int]);
                }
            }
            return false;
        }
        j = j + 1;
    }
    proof {
        assert forall|k: int| 0 <= k < pat@.len() implies s@.skip(i as int).take(
            pat@.len() as int,
        )[k] == pat@[k] by {
            assert(s@.skip(i as int).take(pat@.len() as int)[k] == s@[i + k]);
        }
        assert(s@.skip(i as int).take(pat@.len() as int) =~= pat@);
    }
    true
}

/// Replaces from position `i` on.
fn replace_from(s: &Vec<char>, i: usize, pat: &Vec<char>, rep: &Vec<char>) -> (r: Vec<char>)
    requires
        i <= s@.len(),
        pat@.len() > 0,
    ensures
        r@ == replace_seq(s@.skip(i as int), pat@, rep@),
    decreases s@.len() - i,
{
    let ghost suf = s@.skip(i as int);
    if i >= s.len() {
        proof {
            assert(suf =~= Seq::<char>::empty());
        }
        return Vec::new();
    }
    if match_at(s, i, pat) {
        let mut out = crate::wrap::copy_chars(rep);
        let tail = replace_from(s, i + pat.len(), pat, rep);
        let mut j: usize = 0;
        while j < tail.len()
            invariant
                0 <= j <= tail@.len(),
                out@ =~= rep@ + tail@.take(j as int),
            decreases tail@.len() - j,
        {
            out.push(tail[j]);
            proof {
                assert(out@ =~= rep@ + tail@.take(j as int + 1));
            }
            j = j + 1;
        }
        proof {
            assert(tail@.take(tail@.len() as int) =~= tail@);
            assert(suf.take(pat@.len() as int) =~= s@.skip(i as int).take(pat@.len() as int));
            assert(suf.skip(pat@.len() as int) =~= s@.skip(i as int + pat@.len()));
        }
        out
    } else {
        let mut out: Vec<char> = Vec::new();
        out.push(s[i]);
        let tail = replace_from(s, i + 1, pat, rep);
        let mut j: usize = 0;
        while j < tail.len()
            invariant
                0 <= j <= tail@.len(),
                out@ =~= seq![s@[i as int]] + tail@.take(j as int),
            decreases tail@.len() - j,
        {
            out.push(tail[j]);
            proof {
                assert(out@ =~= seq![s@[i as int]] + tail@.take(j as int + 1));
            }
            j = j + 1;
        }
        proof {
            assert(tail@.take(tail@.len() as int) =~= tail@);
            assert(suf[0] == s@[i as int]);
            assert(suf.skip(1) =~= s@.skip(i as int + 1));
            if suf.len() >= pat@.len() {
                assert(suf.take(pat@.len() as int) =~= s@.skip(i as int).take(
                    pat@.len() as int,
                ));
            }
        }
        out
    }
}

/// Expands a public-URL template: `%f` becomes the file name, `%b` the
/// bucket, and finally `%%` a literal percent sign, each replaced left to
/// right in that order.
pub fn get_file_url(url_format: &str, filename: &str, bucket: &str) -> (r: String)
    ensures
        r@ == replace_seq(
            replace_seq(replace_seq(url_format@, "%f"@, filename@), "%b"@, bucket@),
            "%%"@,
            "%"@,
        ),
{
    proof {
        reveal_strlit("%f");
        reveal_strlit("%b");
        reveal_strlit("%%");
        reveal_strlit("%");
    }
    let fmt = str_chars(url_format);
    let fname = str_chars(filename);
    let bname = str_chars(bucket);
    let mut patf: Vec<char> = Vec::new();
    patf.push('%');
    patf.push('f');
    let mut patb: Vec<char> = Vec::new();
    patb.push('%');
    patb.push('b');
    let mut patp: Vec<char> = Vec::new();
    patp.push('%');
    patp.push('%');
    let mut repp: Vec<char> = Vec::new();
    repp.push('%');
    proof {
        assert(patf@ =~= "%f"@);
        assert(patb@ =~= "%b"@);
        assert(patp@ =~= "%%"@);
        assert(repp@ =~= "%"@);
        assert(fmt@.skip(0) =~= fmt@);
    }
    let s1 = replace_from(&fmt, 0, &patf, &fname);
    proof {
        assert(s1@.skip(0) =~= s1@);
    }
    let s2 = replace_from(&s1, 0, &patb, &bname);
    proof {
        assert(s2@.skip(0) =~= s2@);
    }
    let s3 = replace_from(&s2, 0, &patp, &repp);
    chars_to_string(&s3)
}

} // verus!
