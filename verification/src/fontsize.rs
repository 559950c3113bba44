//! The most-used-font-size heuristic: the fallback default when a
//! variable omits its font size.
//!
//! Every content-stream operator of the template is scanned; the current
//! Tf size and Tm vertical scale are tracked, and the characters drawn by
//! the text-show operators are tallied per effective size. The size with
//! the largest tally wins; a template that shows no text falls back to
//! 11 points.

use vstd::prelude::*;

use crate::document::{contents_list_of, num_milli, num_milli_exec, DocV, Document};
use crate::object::{ContentOp, DataV, ObjV, ObjectId, OpV, PdfObject, StreamData};
use crate::strutil::str_eq;

verus! {

/// Clamps into the i64 range.
pub open spec fn clamp_i64(x: int) -> int {
    if x > 0x7fff_ffff_ffff_ffff {
        0x7fff_ffff_ffff_ffff
    } else if x < -0x8000_0000_0000_0000 {
        -0x8000_0000_0000_0000
    } else {
        x
    }
}

/// A count addition that saturates at the top of usize.
pub open spec fn cap_add(c: int, n: int) -> int {
    if c + n > usize::MAX {
        usize::MAX as int
    } else {
        c + n
    }
}

/// The magnitude of an integer.
pub open spec fn abs_int(x: int) -> int {
    if x < 0 {
        -x
    } else {
        x
    }
}

/// The effective size a glyph is shown at: the Tf size scaled by the Tm
/// vertical scale, rounded toward zero.
pub open spec fn eff_key(size: int, scale: int) -> int {
    let p = abs_int(size) * abs_int(scale) / 1000;
    if (size < 0) != (scale < 0) {
        clamp_i64(-p)
    } else {
        clamp_i64(p)
    }
}

/// The byte length a text-show operand contributes.
pub open spec fn str_len_of(o: ObjV) -> int {
    match o {
        ObjV::Str(s) => s.len() as int,
        _ => 0,
    }
}

/// Adds a count to a size's tally entry, appending the size on first use.
pub open spec fn bump(t: Seq<(int, int)>, key: int, n: int) -> Seq<(int, int)>
    decreases t.len(),
{
    if t.len() == 0 {
        seq![(key, n)]
    } else if t[0].0 == key {
        seq![(t[0].0, cap_add(t[0].1, n))] + t.skip(1)
    } else {
        seq![t[0]] + bump(t.skip(1), key, n)
    }
}

/// Tallies every string of a TJ array operand.
pub open spec fn bump_array(t: Seq<(int, int)>, elems: Seq<ObjV>, key: int) -> Seq<(int, int)>
    decreases elems.len(),
{
    if elems.len() == 0 {
        t
    } else {
        bump_array(bump(t, key, str_len_of(elems[0])), elems.skip(1), key)
    }
}

/// One operator's effect on the tracked state and the tally.
pub open spec fn tally_op(st: (int, int), t: Seq<(int, int)>, op: OpV) -> ((int, int), Seq<
    (int, int),
>) {
    if op.op == "Tf"@ && op.args.len() > 0 {
        let o = if op.args.len() > 1 {
            op.args[1]
        } else {
            op.args[0]
        };
        match num_milli(o) {
            Some(v) => ((v, st.1), t),
            None => (st, t),
        }
    } else if op.op == "Tj"@ && op.args.len() == 1 {
        (st, bump(t, eff_key(st.0, st.1), str_len_of(op.args[0])))
    } else if op.op == "TJ"@ && op.args.len() == 1 && op.args[0] is Array {
        (st, bump_array(t, op.args[0]->Array_0, eff_key(st.0, st.1)))
    } else if op.op == "Tm"@ && op.args.len() == 6 {
        match num_milli(op.args[3]) {
            Some(v) => ((st.0, v), t),
            None => ((st.0, 1000int), t),
        }
    } else {
        (st, t)
    }
}

/// Folds a whole operator list.
pub open spec fn tally_ops(ops: Seq<OpV>, st: (int, int), t: Seq<(int, int)>) -> ((int, int), Seq<
    (int, int),
>)
    decreases ops.len(),
{
    if ops.len() == 0 {
        (st, t)
    } else {
        let r = tally_op(st, t, ops[0]);
        tally_ops(ops.skip(1), r.0, r.1)
    }
}

/// Folds the operator lists of a page's content streams; a reference that
/// does not lead to a structured content stream is skipped.
pub open spec fn tally_streams(d: DocV, ids: Seq<ObjV>, st: (int, int), t: Seq<(int, int)>) -> (
    (int, int),
    Seq<(int, int)>,
)
    decreases ids.len(),
{
    if ids.len() == 0 {
        (st, t)
    } else {
        let r = match ids[0] {
            ObjV::Ref(id) => match d.get_obj(id) {
                Some(ObjV::Stream(_es, DataV::Ops(ops))) => tally_ops(ops, st, t),
                _ => (st, t),
            },
            _ => (st, t),
        };
        tally_streams(d, ids.skip(1), r.0, r.1)
    }
}

/// Folds every page, in template order; the tracked state persists across
/// pages as it does across streams.
pub open spec fn tally_pages(d: DocV, pages: Seq<ObjectId>, st: (int, int), t: Seq<(int, int)>)
    -> ((int, int), Seq<(int, int)>)
    decreases pages.len(),
{
    if pages.len() == 0 {
        (st, t)
    } else {
        let r = match d.get_obj(pages[0]) {
            Some(ObjV::Dict(es)) => tally_streams(d, contents_list_of(es), st, t),
            _ => (st, t),
        };
        tally_pages(d, pages.skip(1), r.0, r.1)
    }
}

/// The best entry of a tally: the first size whose count no later size
/// strictly beats.
pub open spec fn best_of(t: Seq<(int, int)>, bk: int, bc: int) -> int
    decreases t.len(),
{
    if t.len() == 0 {
        bk
    } else if t[0].1 > bc {
        best_of(t.skip(1), t[0].0, t[0].1)
    } else {
        best_of(t.skip(1), bk, bc)
    }
}

/// The most-used effective font size of a document, in milli-points,
/// defaulting to 11 points when no text is shown.
pub open spec fn most_used_size_spec(d: DocV) -> int {
    let r = tally_pages(d, d.pages, (11000int, 1000int), Seq::empty());
    if r.1.len() == 0 {
        11000int
    } else {
        best_of(r.1.skip(1), r.1[0].0, r.1[0].1)
    }
}

/// The mathematical form of the exec tally.
pub open spec fn tally_view(s: Seq<(i64, usize)>) -> Seq<(int, int)>
    decreases s.len(),
{
    if s.len() == 0 {
        Seq::empty()
    } else {
        seq![(s[0].0 as int, s[0].1 as int)] + tally_view(s.subrange(1, s.len() as int))
    }
}

/// The exec tally's form has one entry per entry, in order.
pub proof fn lemma_tally_view(s: Seq<(i64, usize)>)
    ensures
        tally_view(s).len() == s.len(),
        forall|i: int|
            #![trigger tally_view(s)[i]]
            #![trigger s[i]]
            0 <= i < s.len() ==> tally_view(s)[i] == (s[i].0 as int, s[i].1 as int),
    decreases s.len(),
{
    if s.len() > 0 {
        lemma_tally_view(s.subrange(1, s.len() as int));
        assert forall|i: int| 0 <= i < s.len() implies #[trigger] tally_view(s)[i] == (
        s[i].0 as int, s[i].1 as int) by {
            if i > 0 {
                assert(tally_view(s)[i] == tally_view(s.subrange(1, s.len() as int))[i - 1]);
                assert(s.subrange(1, s.len() as int)[i - 1] == s[i]);
            }
        }
    }
}

/// Adds a count to the exec tally.
fn bump_exec(t: &mut Vec<(i64, usize)>, key: i64, n: usize)
    ensures
        tally_view(final(t)@) == bump(tally_view(old(t)@), key as int, n as int),
{
    let ghost orig = tally_view(t@);
    let mut i: usize = 0;
    proof {
        lemma_tally_view(t@);
        assert(orig.skip(0) =~= orig);
        assert(orig.take(0) =~= Seq::<(int, int)>::empty());
        assert(Seq::<(int, int)>::empty() + bump(orig, key as int, n as int) =~= bump(
            orig,
            key as int,
            n as int,
        ));
    }
    while i < t.len()
        invariant
            0 <= i <= t@.len(),
            t@ == old(t)@,
            orig == tally_view(t@),
            orig.len() == t@.len(),
            bump(orig, key as int, n as int) == orig.take(i as int) + bump(
                orig.skip(i as int),
                key as int,
                n as int,
            ),
        decreases t@.len() - i,
    {
        proof {
            lemma_tally_view(t@);
            assert(orig.skip(i as int)[0] == orig[i as int]);
            assert(orig.skip(i as int).skip(1) =~= orig.skip(i as int + 1));
        }
        if t[i].0 == key {
            let c = t[i].1;
            let c2 = if c > usize::MAX - n {
                usize::MAX
            } else {
                c + n
            };
            let ghost olde = t@;
            t.set(i, (key, c2));
            proof {
                lemma_tally_view(olde);
                lemma_tally_view(t@);
                assert(tally_view(t@) =~= orig.update(
                    i as int,
                    (key as int, cap_add(orig[i as int].1, n as int)),
                ));
                assert(orig.skip(i as int)[0].0 == key as int);
                assert(bump(orig.skip(i as int), key as int, n as int) == seq![
                    (key as int, cap_add(orig[i as int].1, n as int))] + orig.skip(
                    i as int,
                ).skip(1));
                assert(orig.take(i as int) + (seq![
                    (key as int, cap_add(orig[i as int].1, n as int))] + orig.skip(i as int + 1))
                    =~= orig.update(i as int, (key as int, cap_add(orig[i as int].1, n as int))));
            }
            return ;
        }
        i = i + 1;
    }
    let ghost olde = t@;
    t.push((key, n));
    proof {
        lemma_tally_view(olde);
        lemma_tally_view(t@);
        assert(orig.skip(orig.len() as int) =~= Seq::<(int, int)>::empty());
        assert(tally_view(t@) =~= orig.push((key as int, n as int)));
        assert(orig.take(orig.len() as int) =~= orig);
        assert(orig + seq![(key as int, n as int)] =~= orig.push((key as int, n as int)));
    }
}

/// The effective key of the current state.
fn eff_key_exec(size: i64, scale: i64) -> (r: i64)
    ensures
        r as int == eff_key(size as int, scale as int),
{
    let a: i128 = if size < 0 {
        -(size as i128)
    } else {
        size as i128
    };
    let b: i128 = if scale < 0 {
        -(scale as i128)
    } else {
        scale as i128
    };
    proof {
        assert(a * b <= 0x8000000000000000i128 * 0x8000000000000000i128 && a * b >= 0)
            by (nonlinear_arith)
            requires
                0 <= a <= 0x8000000000000000i128,
                0 <= b <= 0x8000000000000000i128,
        ;
    }
    let p: i128 = a * b / 1000;
    let neg = (size < 0) != (scale < 0);
    if neg {
        if p > 0x8000_0000_0000_0000 {
            i64::MIN
        } else {
            (-p) as i64
        }
    } else {
        if p > 0x7fff_ffff_ffff_ffff {
            i64::MAX
        } else {
            p as i64
        }
    }
}

/// One operator's effect on the exec state.
fn tally_op_exec(st: (i64, i64), t: &mut Vec<(i64, usize)>, op: &ContentOp) -> (r: (i64, i64))
    ensures
        ({
            let s = tally_op((st.0 as int, st.1 as int), tally_view(old(t)@), op@);
            (r.0 as int, r.1 as int) == s.0 && tally_view(final(t)@) == s.1
        }),
{
    proof {
        reveal_strlit("Tf");
        reveal_strlit("Tj");
        reveal_strlit("TJ");
        reveal_strlit("Tm");
        crate::object::lemma_objs_view(op.operands@);
    }
    let name = op.operator.as_str();
    if str_eq(name, "Tf") && op.operands.len() > 0 {
        let o = if op.operands.len() > 1 {
            &op.operands[1]
        } else {
            &op.operands[0]
        };
        proof {
            crate::object::lemma_objs_view(op.operands@);
        }
        match num_milli_exec(o) {
            Some(v) => (v, st.1),
            None => st,
        }
    } else if str_eq(name, "Tj") && op.operands.len() == 1 {
        proof {
            crate::object::lemma_objs_view(op.operands@);
        }
        let n: usize = match &op.operands[0] {
            PdfObject::Str(s) => s.len(),
            _ => 0,
        };
        let key = eff_key_exec(st.0, st.1);
        bump_exec(t, key, n);
        st
    } else if str_eq(name, "TJ") && op.operands.len() == 1 {
        proof {
            crate::object::lemma_objs_view(op.operands@);
        }
        match &op.operands[0] {
            PdfObject::Array(a) => {
                let key = eff_key_exec(st.0, st.1);
                let ghost elems = crate::object::objs_view(a@);
                let mut j: usize = 0;
                proof {
                    crate::object::lemma_objs_view(a@);
                    assert(elems.skip(0) =~= elems);
                }
                while j < a.len()
                    invariant
                        0 <= j <= a@.len(),
                        elems == crate::object::objs_view(a@),
                        elems.len() == a@.len(),
                        key as int == eff_key(st.0 as int, st.1 as int),
                        bump_array(tally_view(old(t)@), elems, key as int) == bump_array(
                            tally_view(t@),
                            elems.skip(j as int),
                            key as int,
                        ),
                    decreases a@.len() - j,
                {
                    proof {
                        crate::object::lemma_objs_view(a@);
                        assert(elems.skip(j as int)[0] == elems[j as int]);
                        assert(elems.skip(j as int).skip(1) =~= elems.skip(j as int + 1));
                    }
                    let n: usize = match &a[j] {
                        PdfObject::Str(s) => s.len(),
                        _ => 0,
                    };
                    bump_exec(t, key, n);
                    j = j + 1;
                }
                proof {
                    assert(elems.skip(elems.len() as int) =~= Seq::<ObjV>::empty());
                }
                st
            },
            _ => st,
        }
    } else if str_eq(name, "Tm") && op.operands.len() == 6 {
        proof {
            crate::object::lemma_objs_view(op.operands@);
        }
        match num_milli_exec(&op.operands[3]) {
            Some(v) => (st.0, v),
            None => (st.0, 1000),
        }
    } else {
        st
    }
}

/// Folds one structured content stream's operators into the state.
fn tally_stream_ops(st: (i64, i64), t: &mut Vec<(i64, usize)>, ops: &Vec<ContentOp>) -> (r: (
    i64,
    i64,
))
    ensures
        ({
            let s = tally_ops(
                crate::object::ops_view(ops@),
                (st.0 as int, st.1 as int),
                tally_view(old(t)@),
            );
            (r.0 as int, r.1 as int) == s.0 && tally_view(final(t)@) == s.1
        }),
{
    let ghost opv = crate::object::ops_view(ops@);
    let ghost t0 = tally_view(t@);
    let mut cur = st;
    let mut k: usize = 0;
    proof {
        crate::object::lemma_ops_view(ops@);
        assert(opv.skip(0) =~= opv);
    }
    while k < ops.len()
        invariant
            0 <= k <= ops@.len(),
            opv == crate::object::ops_view(ops@),
            opv.len() == ops@.len(),
            tally_ops(opv, (st.0 as int, st.1 as int), t0) == tally_ops(
                opv.skip(k as int),
                (cur.0 as int, cur.1 as int),
                tally_view(t@),
            ),
        decreases ops@.len() - k,
    {
        proof {
            crate::object::lemma_ops_view(ops@);
            assert(opv.skip(k as int)[0] == opv[k as int]);
            assert(opv.skip(k as int).skip(1) =~= opv.skip(k as int + 1));
        }
        cur = tally_op_exec(cur, t, &ops[k]);
        k = k + 1;
    }
    proof {
        assert(opv.skip(opv.len() as int) =~= Seq::<OpV>::empty());
    }
    cur
}

/// Scans every content-stream operator of the template and returns the
/// effective font size, in milli-points, that shows the most characters,
/// defaulting to 11 points.
pub fn get_most_used_font_size(document: &Document) -> (r: i64)
    ensures
        r as int == most_used_size_spec(document@),
{
    let ghost d = document@;
    let mut st: (i64, i64) = (11000, 1000);
    let mut t: Vec<(i64, usize)> = Vec::new();
    let n = document.pages.len();
    let mut i: usize = 0;
    proof {
        assert(tally_view(t@) =~= Seq::<(int, int)>::empty());
        assert(d.pages.skip(0) =~= d.pages);
    }
    while i < n
        invariant
            0 <= i <= n,
            d == document@,
            n == d.pages.len(),
            tally_pages(d, d.pages, (11000int, 1000int), Seq::empty()) == tally_pages(
                d,
                d.pages.skip(i as int),
                (st.0 as int, st.1 as int),
                tally_view(t@),
            ),
        decreases n - i,
    {
        proof {
            assert(d.pages.skip(i as int)[0] == d.pages[i as int]);
            assert(d.pages.skip(i as int).skip(1) =~= d.pages.skip(i as int + 1));
        }
        let page = document.pages[i];
        match document.get_object(page) {
            Ok(PdfObject::Dict(pd)) => {
                let ghost es = crate::object::dict_view(*pd);
                let mut ids: Vec<PdfObject> = Vec::new();
                match pd.get("Contents") {
                    Some(PdfObject::Ref(cid)) => {
                        ids.push(PdfObject::Ref(*cid));
                    },
                    Some(PdfObject::Array(a)) => {
                        ids = crate::object::clone_objs(a);
                    },
                    _ => {},
                }
                let ghost idv = crate::object::objs_view(ids@);
                let ghost st0 = (st.0 as int, st.1 as int);
                let ghost t0 = tally_view(t@);
                proof {
                    crate::object::lemma_objs_view(ids@);
                    assert(idv =~= contents_list_of(es));
                    assert(idv.skip(0) =~= idv);
                }
                let m = ids.len();
                let mut j: usize = 0;
                while j < m
                    invariant
                        0 <= j <= m,
                        d == document@,
                        m == idv.len(),
                        idv == crate::object::objs_view(ids@),
                        m == ids@.len(),
                        tally_streams(d, idv, st0, t0) == tally_streams(
                            d,
                            idv.skip(j as int),
                            (st.0 as int, st.1 as int),
                            tally_view(t@),
                        ),
                    decreases m - j,
                {
                    proof {
                        crate::object::lemma_objs_view(ids@);
                        assert(idv.skip(j as int)[0] == idv[j as int]);
                        assert(idv.skip(j as int).skip(1) =~= idv.skip(j as int + 1));
                    }
                    match &ids[j] {
                        PdfObject::Ref(cid) => {
                            let cid = *cid;
                            match document.get_object(cid) {
                                Ok(PdfObject::Stream(s)) => {
                                    match &s.data {
                                        StreamData::Ops(ops) => {
                                            st = tally_stream_ops(st, &mut t, ops);
                                        },
                                        _ => {},
                                    }
                                },
                                _ => {},
                            }
                        },
                        _ => {},
                    }
                    j = j + 1;
                }
                proof {
                    assert(idv.skip(idv.len() as int) =~= Seq::<ObjV>::empty());
                }
            },
            Ok(_) => {},
            Err(_) => {},
        }
        i = i + 1;
    }
    proof {
        assert(d.pages.skip(n as int) =~= Seq::<ObjectId>::empty());
    }
    proof {
        lemma_tally_view(t@);
    }
    if t.len() == 0 {
        return 11000;
    }
    let mut bk: i64 = t[0].0;
    let mut bc: usize = t[0].1;
    let ghost tv = tally_view(t@);
    let mut i: usize = 1;
    proof {
        assert(tv.skip(1) =~= tv.subrange(1, tv.len() as int));
    }
    while i < t.len()
        invariant
            1 <= i <= t@.len(),
            tv == tally_view(t@),
            tv.len() == t@.len(),
            best_of(tv.skip(1), tv[0].0, tv[0].1) == best_of(
                tv.skip(i as int),
                bk as int,
                bc as int,
            ),
        decreases t@.len() - i,
    {
        proof {
            lemma_tally_view(t@);
            assert(tv.skip(i as int)[0] == tv[i as int]);
            assert(tv.skip(i as int).skip(1) =~= tv.skip(i as int + 1));
        }
        if t[i].1 > bc {
            bk = t[i].0;
            bc = t[i].1;
        }
        i = i + 1;
    }
    proof {
        assert(tv.skip(tv.len() as int) =~= Seq::<(int, int)>::empty());
    }
    bk
}

} // verus!
