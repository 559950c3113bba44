//! The document object model: dictionaries, arrays, streams, references.
//!
//! Geometry and other fractional numbers are carried as integer
//! milli-points, so `Real(1500)` stands for 1.5 points. Content streams
//! generated by this crate are kept as structured operator lists; streams
//! taken over from a template keep their raw bytes.

use vstd::prelude::*;

use crate::strutil::str_eq;

verus! {

/// A stable (number, generation) handle into the object arena.
#[derive(Debug, Clone, Copy, PartialEq, Eq, Structural)]
pub struct ObjectId {
    pub num: u32,
    pub gen: u16,
}

/// An object-graph node.
pub enum PdfObject {
    Null,
    Bool(bool),
    Int(i64),
    /// A fractional number in milli-units.
    Real(i64),
    /// A symbolic name.
    Name(String),
    /// A string object, as raw bytes.
    Str(Vec<u8>),
    Array(Vec<PdfObject>),
    Dict(PdfDict),
    Stream(PdfStream),
    Ref(ObjectId),
}

/// An ordered dictionary with set-replaces semantics.
pub struct PdfDict {
    pub entries: Vec<(String, PdfObject)>,
}

/// A stream: its dictionary and its payload.
pub struct PdfStream {
    pub dict: PdfDict,
    pub data: StreamData,
}

/// A stream payload: raw bytes, or a content-operator list synthesized by
/// this crate.
pub enum StreamData {
    Raw(Vec<u8>),
    Ops(Vec<ContentOp>),
}

/// One content-stream operator with its operands.
pub struct ContentOp {
    pub operator: String,
    pub operands: Vec<PdfObject>,
}

/// The mathematical form of an object-graph node.
#[verifier::ext_equal]
pub enum ObjV {
    Null,
    Bool(bool),
    Int(int),
    Real(int),
    Name(Seq<char>),
    Str(Seq<u8>),
    Array(Seq<ObjV>),
    Dict(Seq<(Seq<char>, ObjV)>),
    Stream(Seq<(Seq<char>, ObjV)>, DataV),
    Ref(ObjectId),
}

/// The mathematical form of a stream payload.
#[verifier::ext_equal]
pub enum DataV {
    Raw(Seq<u8>),
    Ops(Seq<OpV>),
}

/// The mathematical form of one content operator.
#[verifier::ext_equal]
pub struct OpV {
    pub op: Seq<char>,
    pub args: Seq<ObjV>,
}

/// The mathematical form of an object.
pub open spec fn obj_view(o: PdfObject) -> ObjV
    decreases o, 1int,
{
    match o {
        PdfObject::Null => ObjV::Null,
        PdfObject::Bool(b) => ObjV::Bool(b),
        PdfObject::Int(i) => ObjV::Int(i as int),
        PdfObject::Real(m) => ObjV::Real(m as int),
        PdfObject::Name(n) => ObjV::Name(n@),
        PdfObject::Str(s) => ObjV::Str(s@),
        PdfObject::Array(a) => ObjV::Array(objs_view(a@)),
        PdfObject::Dict(d) => ObjV::Dict(dict_view(d)),
        PdfObject::Stream(s) => ObjV::Stream(dict_view(s.dict), data_view(s.data)),
        PdfObject::Ref(id) => ObjV::Ref(id),
    }
}

/// The mathematical form of an object list.
pub open spec fn objs_view(s: Seq<PdfObject>) -> Seq<ObjV>
    decreases s, 0int,
{
    if s.len() == 0 {
        Seq::empty()
    } else {
        seq![obj_view(s[0])] + objs_view(s.subrange(1, s.len() as int))
    }
}

/// The mathematical form of a dictionary: its entry list in order.
pub open spec fn dict_view(d: PdfDict) -> Seq<(Seq<char>, ObjV)>
    decreases d, 0int,
{
    entries_view(d.entries@)
}

/// The mathematical form of a dictionary entry list.
pub open spec fn entries_view(s: Seq<(String, PdfObject)>) -> Seq<(Seq<char>, ObjV)>
    decreases s, 0int,
{
    if s.len() == 0 {
        Seq::empty()
    } else {
        seq![(s[0].0@, obj_view(s[0].1))] + entries_view(s.subrange(1, s.len() as int))
    }
}

/// The mathematical form of a stream payload.
pub open spec fn data_view(d: StreamData) -> DataV
    decreases d, 1int,
{
    match d {
        StreamData::Raw(b) => DataV::Raw(b@),
        StreamData::Ops(ops) => DataV::Ops(ops_view(ops@)),
    }
}

/// The mathematical form of an operator list.
pub open spec fn ops_view(s: Seq<ContentOp>) -> Seq<OpV>
    decreases s, 0int,
{
    if s.len() == 0 {
        Seq::empty()
    } else {
        seq![op_view(s[0])] + ops_view(s.subrange(1, s.len() as int))
    }
}

/// The mathematical form of one operator.
pub open spec fn op_view(o: ContentOp) -> OpV
    decreases o, 1int,
{
    OpV { op: o.operator@, args: objs_view(o.operands@) }
}

/// An object list's form has one entry per object, in order.
pub broadcast proof fn lemma_objs_view(s: Seq<PdfObject>)
    ensures
        (#[trigger] objs_view(s)).len() == s.len(),
        forall|i: int|
            #![trigger objs_view(s)[i]]
            #![trigger s[i]]
            0 <= i < s.len() ==> objs_view(s)[i] == obj_view(s[i]),
    decreases s.len(),
{
    if s.len() > 0 {
        lemma_objs_view(s.subrange(1, s.len() as int));
        assert forall|i: int| 0 <= i < s.len() implies #[trigger] objs_view(s)[i] == obj_view(
            s[i],
        ) by {
            if i > 0 {
                assert(objs_view(s)[i] == objs_view(s.subrange(1, s.len() as int))[i - 1]);
                assert(s.subrange(1, s.len() as int)[i - 1] == s[i]);
            }
        }
    }
}

/// An entry list's form has one entry per entry, in order.
pub broadcast proof fn lemma_entries_view(s: Seq<(String, PdfObject)>)
    ensures
        (#[trigger] entries_view(s)).len() == s.len(),
        forall|i: int|
            #![trigger entries_view(s)[i]]
            #![trigger s[i]]
            0 <= i < s.len() ==> entries_view(s)[i] == (s[i].0@, obj_view(s[i].1)),
    decreases s.len(),
{
    if s.len() > 0 {
        lemma_entries_view(s.subrange(1, s.len() as int));
        assert forall|i: int| 0 <= i < s.len() implies #[trigger] entries_view(s)[i] == (
        s[i].0@, obj_view(s[i].1)) by {
            if i > 0 {
                assert(entries_view(s)[i] == entries_view(s.subrange(1, s.len() as int))[i - 1]);
                assert(s.subrange(1, s.len() as int)[i - 1] == s[i]);
            }
        }
    }
}

/// An operator list's form has one entry per operator, in order.
pub broadcast proof fn lemma_ops_view(s: Seq<ContentOp>)
    ensures
        (#[trigger] ops_view(s)).len() == s.len(),
        forall|i: int|
            #![trigger ops_view(s)[i]]
            #![trigger s[i]]
            0 <= i < s.len() ==> ops_view(s)[i] == op_view(s[i]),
    decreases s.len(),
{
    if s.len() > 0 {
        lemma_ops_view(s.subrange(1, s.len() as int));
        assert forall|i: int| 0 <= i < s.len() implies #[trigger] ops_view(s)[i] == op_view(
            s[i],
        ) by {
            if i > 0 {
                assert(ops_view(s)[i] == ops_view(s.subrange(1, s.len() as int))[i - 1]);
                assert(s.subrange(1, s.len() as int)[i - 1] == s[i]);
            }
        }
    }
}

impl View for PdfObject {
    type V = ObjV;

    open spec fn view(&self) -> ObjV {
        obj_view(*self)
    }
}

impl View for PdfDict {
    type V = Seq<(Seq<char>, ObjV)>;

    open spec fn view(&self) -> Seq<(Seq<char>, ObjV)> {
        dict_view(*self)
    }
}

impl View for ContentOp {
    type V = OpV;

    open spec fn view(&self) -> OpV {
        op_view(*self)
    }
}

/// The value under a key: the first entry that carries it.
pub open spec fn dict_get(es: Seq<(Seq<char>, ObjV)>, key: Seq<char>) -> Option<ObjV>
    decreases es.len(),
{
    if es.len() == 0 {
        None
    } else if es[0].0 == key {
        Some(es[0].1)
    } else {
        dict_get(es.skip(1), key)
    }
}

/// Setting a key: the first entry carrying it is replaced in place, or a
/// new entry is appended.
pub open spec fn dict_set(es: Seq<(Seq<char>, ObjV)>, key: Seq<char>, val: ObjV) -> Seq<
    (Seq<char>, ObjV),
>
    decreases es.len(),
{
    if es.len() == 0 {
        seq![(key, val)]
    } else if es[0].0 == key {
        seq![(key, val)] + es.skip(1)
    } else {
        seq![es[0]] + dict_set(es.skip(1), key, val)
    }
}

/// Removing a key drops every entry carrying it.
pub open spec fn dict_remove(es: Seq<(Seq<char>, ObjV)>, key: Seq<char>) -> Seq<(Seq<char>, ObjV)>
    decreases es.len(),
{
    if es.len() == 0 {
        Seq::empty()
    } else if es[0].0 == key {
        dict_remove(es.skip(1), key)
    } else {
        seq![es[0]] + dict_remove(es.skip(1), key)
    }
}


impl PdfDict {
    /// An empty dictionary.
    pub fn new() -> (r: PdfDict)
        ensures
            r@ == Seq::<(Seq<char>, ObjV)>::empty(),
    {
        let d = PdfDict { entries: Vec::new() };
        proof {
            lemma_entries_view(d.entries@);
            assert(d@ =~= Seq::<(Seq<char>, ObjV)>::empty());
        }
        d
    }

    /// Looks a key up, yielding the first entry that carries it.
    pub fn get(&self, key: &str) -> (r: Option<&PdfObject>)
        ensures
            match r {
                Some(o) => dict_get(self@, key@) == Some(o@),
                None => dict_get(self@, key@) is None,
            },
    {
        let mut i: usize = 0;
        proof {
            lemma_entries_view(self.entries@);
            assert(self@.skip(0) =~= self@);
        }
        while i < self.entries.len()
            invariant
                0 <= i <= self.entries@.len(),
                self@.len() == self.entries@.len(),
                self@ == dict_view(*self),
                dict_get(self@, key@) == dict_get(self@.skip(i as int), key@),
            decreases self.entries@.len() - i,
        {
            proof {
                lemma_entries_view(self.entries@);
                assert(self@.skip(i as int)[0] == self@[i as int]);
                assert(self@.skip(i as int).skip(1) =~= self@.skip(i as int + 1));
            }
            if str_eq(self.entries[i].0.as_str(), key) {
                proof {
                    assert(self@[i as int] == (self.entries@[i as int].0@, obj_view(
                        self.entries@[i as int].1,
                    )));
                }
                return Some(&self.entries[i].1);
            }
            i = i + 1;
        }
        proof {
            assert(self@.skip(self@.len() as int) =~= Seq::<(Seq<char>, ObjV)>::empty());
        }
        None
    }

    /// Whether the dictionary has an entry under the key.
    pub fn has(&self, key: &str) -> (r: bool)
        ensures
            r == (dict_get(self@, key@) is Some),
    {
        match self.get(key) {
            Some(_) => true,
            None => false,
        }
    }

    /// Sets a key, replacing the first entry that carries it or appending a
    /// new one.
    pub fn set(&mut self, key: &str, val: PdfObject)
        ensures
            final(self)@ == dict_set(old(self)@, key@, val@),
    {
        let ghost orig = self@;
        let mut i: usize = 0;
        proof {
            lemma_entries_view(self.entries@);
            assert(orig.skip(0) =~= orig);
            assert(orig.take(0) =~= Seq::<(Seq<char>, ObjV)>::empty());
            assert(Seq::<(Seq<char>, ObjV)>::empty() + dict_set(orig, key@, val@) =~= dict_set(
                orig,
                key@,
                val@,
            ));
        }
        while i < self.entries.len()
            invariant
                0 <= i <= self.entries@.len(),
                orig == old(self)@,
                self@ == orig,
                orig.len() == self.entries@.len(),
                orig == entries_view(self.entries@),
                dict_set(orig, key@, val@) == orig.take(i as int) + dict_set(
                    orig.skip(i as int),
                    key@,
                    val@,
                ),
            decreases self.entries@.len() - i,
        {
            proof {
                lemma_entries_view(self.entries@);
                assert(orig.skip(i as int)[0] == orig[i as int]);
                assert(orig.skip(i as int).skip(1) =~= orig.skip(i as int + 1));
            }
            if str_eq(self.entries[i].0.as_str(), key) {
                let ghost olde = self.entries@;
                let k = key.to_owned();
                self.entries.set(i, (k, val));
                proof {
                    lemma_entries_view(olde);
                    lemma_entries_view(self.entries@);
                    assert(self@ =~= orig.update(i as int, (key@, val@)));
                    assert(seq![(key@, val@)] + orig.skip(i as int).skip(1) =~= seq![
                        (key@, val@)] + orig.skip(i as int + 1));
                    assert(orig.take(i as int) + (seq![(key@, val@)] + orig.skip(i as int + 1))
                        =~= orig.update(i as int, (key@, val@)));
                    assert(orig.skip(i as int)[0].0 == key@);
                    assert(dict_set(orig.skip(i as int), key@, val@) == seq![(key@, val@)]
                        + orig.skip(i as int).skip(1));
                    assert(self@ == dict_set(orig, key@, val@));
                }
                return ;
            }
            proof {
                assert(orig.take(i as int) + (seq![orig[i as int]] + dict_set(
                    orig.skip(i as int + 1),
                    key@,
                    val@,
                )) =~= orig.take(i as int + 1) + dict_set(orig.skip(i as int + 1), key@, val@));
            }
            i = i + 1;
        }
        let ghost olde = self.entries@;
        let k = key.to_owned();
        self.entries.push((k, val));
        proof {
            lemma_entries_view(olde);
            lemma_entries_view(self.entries@);
            assert(orig.skip(orig.len() as int) =~= Seq::<(Seq<char>, ObjV)>::empty());
            assert(self@ =~= orig.push((key@, val@)));
            assert(orig.take(orig.len() as int) =~= orig);
            assert(orig + seq![(key@, val@)] =~= orig.push((key@, val@)));
        }
    }

    /// Removes every entry under the key; a key that is absent leaves the
    /// dictionary unchanged.
    pub fn remove(&mut self, key: &str)
        ensures
            final(self)@ == dict_remove(old(self)@, key@),
    {
        let ghost orig = self@;
        let mut kept = PdfDict { entries: Vec::new() };
        proof {
            lemma_entries_view(self.entries@);
            lemma_entries_view(kept.entries@);
            assert(orig.skip(0) =~= orig);
            assert(kept@ =~= Seq::<(Seq<char>, ObjV)>::empty());
        }
        let mut i: usize = 0;
        while i < self.entries.len()
            invariant
                0 <= i <= self.entries@.len(),
                orig == old(self)@,
                self@ == orig,
                orig.len() == self.entries@.len(),
                orig == entries_view(self.entries@),
                kept@ == entries_view(kept.entries@),
                dict_remove(orig, key@) == kept@ + dict_remove(orig.skip(i as int), key@),
            decreases self.entries@.len() - i,
        {
            proof {
                lemma_entries_view(self.entries@);
                assert(orig.skip(i as int)[0] == orig[i as int]);
                assert(orig.skip(i as int).skip(1) =~= orig.skip(i as int + 1));
            }
            if !str_eq(self.entries[i].0.as_str(), key) {
                let k = self.entries[i].0.clone();
                let v = clone_obj(&self.entries[i].1);
                let ghost prev = kept@;
                let ghost oldk = kept.entries@;
                kept.entries.push((k, v));
                proof {
                    lemma_entries_view(oldk);
                    lemma_entries_view(kept.entries@);
                    assert(kept@ =~= prev.push(orig[i as int]));
                    assert(prev + (seq![orig[i as int]] + dict_remove(
                        orig.skip(i as int + 1),
                        key@,
                    )) =~= prev.push(orig[i as int]) + dict_remove(orig.skip(i as int + 1), key@));
                }
            }
            i = i + 1;
        }
        proof {
            assert(orig.skip(orig.len() as int) =~= Seq::<(Seq<char>, ObjV)>::empty());
            assert(kept@ + dict_remove(Seq::<(Seq<char>, ObjV)>::empty(), key@) =~= kept@);
        }
        *self = kept;
    }
}

/// Deep-copies an object, preserving its mathematical form.
pub fn clone_obj(o: &PdfObject) -> (r: PdfObject)
    ensures
        r@ == o@,
    decreases *o,
{
    match o {
        PdfObject::Null => PdfObject::Null,
        PdfObject::Bool(b) => PdfObject::Bool(*b),
        PdfObject::Int(i) => PdfObject::Int(*i),
        PdfObject::Real(m) => PdfObject::Real(*m),
        PdfObject::Name(n) => PdfObject::Name(n.clone()),
        PdfObject::Str(s) => PdfObject::Str(clone_bytes(s)),
        PdfObject::Array(a) => {
            let mut out: Vec<PdfObject> = Vec::new();
            let mut i: usize = 0;
            while i < a.len()
                invariant
                    *o == PdfObject::Array(*a),
                    0 <= i <= a@.len(),
                    out@.len() == i,
                    forall|j: int|
                        0 <= j < i ==> obj_view(#[trigger] out@[j]) == obj_view(a@[j]),
                decreases a@.len() - i,
            {
                proof {
                    assert(*o == PdfObject::Array(*a));
                    assert(decreases_to!(*o => o->Array_0));
                    assert(o->Array_0 == *a);
                    assert(decreases_to!(*o => a@[i as int]));
                }
                let c = clone_obj(&a[i]);
                out.push(c);
                i = i + 1;
            }
            let r = PdfObject::Array(out);
            proof {
                lemma_objs_view(out@);
                lemma_objs_view(a@);
                assert(objs_view(out@) =~= objs_view(a@));
            }
            r
        },
        PdfObject::Dict(d) => PdfObject::Dict(clone_dict(d)),
        PdfObject::Stream(s) => PdfObject::Stream(
            PdfStream { dict: clone_dict(&s.dict), data: clone_data(&s.data) },
        ),
        PdfObject::Ref(id) => PdfObject::Ref(*id),
    }
}

/// Deep-copies a dictionary.
pub fn clone_dict(d: &PdfDict) -> (r: PdfDict)
    ensures
        r@ == d@,
    decreases *d,
{
    let mut out: Vec<(String, PdfObject)> = Vec::new();
    let mut i: usize = 0;
    while i < d.entries.len()
        invariant
            0 <= i <= d.entries@.len(),
            out@.len() == i,
            forall|j: int|
                0 <= j < i ==> (#[trigger] out@[j]).0@ == d.entries@[j].0@ && out@[j].1@
                    == obj_view(d.entries@[j].1),
        decreases d.entries@.len() - i, 0int,
    {
        proof {
            assert(decreases_to!(*d => d.entries@[i as int].1));
        }
        let k = d.entries[i].0.clone();
        let v = clone_obj(&d.entries[i].1);
        out.push((k, v));
        i = i + 1;
    }
    let r = PdfDict { entries: out };
    proof {
        lemma_entries_view(out@);
        lemma_entries_view(d.entries@);
        assert(r@ =~= d@);
    }
    r
}

/// Deep-copies a stream payload.
pub fn clone_data(d: &StreamData) -> (r: StreamData)
    ensures
        data_view(r) == data_view(*d),
    decreases *d,
{
    match d {
        StreamData::Raw(b) => StreamData::Raw(clone_bytes(b)),
        StreamData::Ops(ops) => {
            let mut out: Vec<ContentOp> = Vec::new();
            let mut i: usize = 0;
            while i < ops.len()
                invariant
                    *d == StreamData::Ops(*ops),
                    0 <= i <= ops@.len(),
                    out@.len() == i,
                    forall|j: int|
                        0 <= j < i ==> op_view(#[trigger] out@[j]) == op_view(ops@[j]),
                decreases ops@.len() - i,
            {
                proof {
                    assert(*d == StreamData::Ops(*ops));
                    assert(decreases_to!(*d => d->Ops_0));
                    assert(d->Ops_0 == *ops);
                    assert(decreases_to!(*d => ops@[i as int]));
                }
                let c = clone_op(&ops[i]);
                out.push(c);
                i = i + 1;
            }
            let r = StreamData::Ops(out);
            proof {
                lemma_ops_view(out@);
                lemma_ops_view(ops@);
                assert(ops_view(out@) =~= ops_view(ops@));
            }
            r
        },
    }
}

/// Deep-copies one operator.
pub fn clone_op(o: &ContentOp) -> (r: ContentOp)
    ensures
        r@ == o@,
    decreases *o,
{
    let mut out: Vec<PdfObject> = Vec::new();
    let mut i: usize = 0;
    while i < o.operands.len()
        invariant
            0 <= i <= o.operands@.len(),
            out@.len() == i,
            forall|j: int|
                0 <= j < i ==> obj_view(#[trigger] out@[j]) == obj_view(o.operands@[j]),
        decreases o.operands@.len() - i, 0int,
    {
        proof {
            assert(decreases_to!(*o => o.operands@[i as int]));
        }
        let c = clone_obj(&o.operands[i]);
        out.push(c);
        i = i + 1;
    }
    let r = ContentOp { operator: o.operator.clone(), operands: out };
    proof {
        lemma_objs_view(out@);
        lemma_objs_view(o.operands@);
        assert(objs_view(out@) =~= objs_view(o.operands@));
    }
    r
}

/// Copies a byte vector.
pub fn clone_bytes(v: &Vec<u8>) -> (r: Vec<u8>)
    ensures
        r@ == v@,
{
    let mut out: Vec<u8> = Vec::new();
    let mut i: usize = 0;
    while i < v.len()
        invariant
            0 <= i <= v@.len(),
            out@ == v@.take(i as int),
        decreases v@.len() - i,
    {
        out.push(v[i]);
        proof {
            assert(out@ =~= v@.take(i as int + 1));
        }
        i = i + 1;
    }
    proof {
        assert(v@.take(v@.len() as int) =~= v@);
    }
    out
}


/// Deep-copies an object list.
pub fn clone_objs(a: &Vec<PdfObject>) -> (r: Vec<PdfObject>)
    ensures
        r@.len() == a@.len(),
        objs_view(r@) == objs_view(a@),
{
    let mut out: Vec<PdfObject> = Vec::new();
    let mut i: usize = 0;
    while i < a.len()
        invariant
            0 <= i <= a@.len(),
            out@.len() == i,
            forall|j: int| 0 <= j < i ==> obj_view(#[trigger] out@[j]) == obj_view(a@[j]),
        decreases a@.len() - i,
    {
        let c = clone_obj(&a[i]);
        out.push(c);
        i = i + 1;
    }
    proof {
        lemma_objs_view(out@);
        lemma_objs_view(a@);
        assert(objs_view(out@) =~= objs_view(a@));
    }
    out
}


/// Setting one key changes only that key's lookup.
pub proof fn lemma_dict_set_get(es: Seq<(Seq<char>, ObjV)>, k1: Seq<char>, k2: Seq<char>, v: ObjV)
    ensures
        dict_get(dict_set(es, k2, v), k1) == if k1 == k2 {
            Some(v)
        } else {
            dict_get(es, k1)
        },
    decreases es.len(),
{
    if es.len() == 0 {
        let r = dict_set(es, k2, v);
        assert(r == seq![(k2, v)]);
        assert(r[0] == (k2, v));
        assert(r.skip(1) =~= Seq::<(Seq<char>, ObjV)>::empty());
        if k1 == k2 {
            assert(dict_get(r, k1) == Some(v));
        } else {
            assert(dict_get(r, k1) == dict_get(r.skip(1), k1));
            assert(dict_get(r, k1) is None);
        }
    } else if es[0].0 == k2 {
        let r = seq![(k2, v)] + es.skip(1);
        assert(dict_set(es, k2, v) == r);
        assert(r[0] == (k2, v));
        assert(r.skip(1) =~= es.skip(1));
        if k1 == k2 {
            assert(dict_get(r, k1) == Some(v));
        } else {
            assert(dict_get(r, k1) == dict_get(es.skip(1), k1));
            assert(dict_get(es, k1) == dict_get(es.skip(1), k1));
        }
    } else {
        lemma_dict_set_get(es.skip(1), k1, k2, v);
        let r = seq![es[0]] + dict_set(es.skip(1), k2, v);
        assert(dict_set(es, k2, v) == r);
        assert(r[0] == es[0]);
        assert(r.skip(1) =~= dict_set(es.skip(1), k2, v));
        if es[0].0 == k1 {
            assert(dict_get(r, k1) == Some(es[0].1));
            assert(dict_get(es, k1) == Some(es[0].1));
        } else {
            assert(dict_get(r, k1) == dict_get(dict_set(es.skip(1), k2, v), k1));
            assert(dict_get(es, k1) == dict_get(es.skip(1), k1));
        }
    }
}

/// Removing one key empties that key's lookup and leaves the others.
pub proof fn lemma_dict_remove_get(es: Seq<(Seq<char>, ObjV)>, k1: Seq<char>, k2: Seq<char>)
    ensures
        dict_get(dict_remove(es, k2), k1) == if k1 == k2 {
            None::<ObjV>
        } else {
            dict_get(es, k1)
        },
    decreases es.len(),
{
    if es.len() == 0 {
    } else if es[0].0 == k2 {
        lemma_dict_remove_get(es.skip(1), k1, k2);
    } else {
        lemma_dict_remove_get(es.skip(1), k1, k2);
        let r = seq![es[0]] + dict_remove(es.skip(1), k2);
        assert(r[0] == es[0]);
        assert(r.skip(1) =~= dict_remove(es.skip(1), k2));
    }
}

/// Removing a key that is absent leaves the dictionary unchanged.
pub proof fn lemma_dict_remove_absent(es: Seq<(Seq<char>, ObjV)>, k: Seq<char>)
    requires
        dict_get(es, k) is None,
    ensures
        dict_remove(es, k) == es,
    decreases es.len(),
{
    if es.len() == 0 {
        assert(dict_remove(es, k) =~= es);
    } else {
        assert(!(es[0].0 == k));
        lemma_dict_remove_absent(es.skip(1), k);
        assert(seq![es[0]] + es.skip(1) =~= es);
    }
}


/// Copies a byte slice into a vector.
pub fn clone_bytes_slice(v: &[u8]) -> (r: Vec<u8>)
    ensures
        r@ == v@,
{
    let mut out: Vec<u8> = Vec::new();
    let mut i: usize = 0;
    while i < v.len()
        invariant
            0 <= i <= v@.len(),
            out@ == v@.take(i as int),
        decreases v@.len() - i,
    {
        out.push(v[i]);
        proof {
            assert(out@ =~= v@.take(i as int + 1));
        }
        i = i + 1;
    }
    proof {
        assert(v@.take(v@.len() as int) =~= v@);
    }
    out
}

} // verus!
