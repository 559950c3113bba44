//! The owned document arena: an object graph addressed by (id, generation)
//! handles, with the page list in template order.
//!
//! Every mutation has a spec-level mirror, so a caller knows the final
//! document exactly from the starting one.

use vstd::prelude::*;

use crate::error::PdfError;
use crate::object::{
    clone_dict, dict_get, dict_set, ContentOp, DataV, ObjV, ObjectId, OpV, PdfDict, PdfObject,
    PdfStream, StreamData, lemma_objs_view, obj_view, objs_view, ops_view,
};

verus! {

/// The mathematical form of a whole document.
#[verifier::ext_equal]
pub struct DocV {
    pub objects: Seq<(ObjectId, ObjV)>,
    pub trailer: Seq<(Seq<char>, ObjV)>,
    pub pages: Seq<ObjectId>,
    pub max_id: int,
    pub embedded: Seq<Seq<char>>,
}

/// An in-memory document: object arena, trailer, page list, id counter,
/// and the memo of embedded font tags.
pub struct Document {
    pub objects: Vec<(ObjectId, PdfObject)>,
    pub trailer: PdfDict,
    pub pages: Vec<ObjectId>,
    pub max_id: u32,
    pub embedded_fonts: Vec<String>,
}

/// The mathematical form of the arena's entry list.
pub open spec fn arena_view(s: Seq<(ObjectId, PdfObject)>) -> Seq<(ObjectId, ObjV)>
    decreases s.len(),
{
    if s.len() == 0 {
        Seq::empty()
    } else {
        seq![(s[0].0, obj_view(s[0].1))] + arena_view(s.subrange(1, s.len() as int))
    }
}

/// The arena's form has one entry per object, in order.
pub broadcast proof fn lemma_arena_view(s: Seq<(ObjectId, PdfObject)>)
    ensures
        (#[trigger] arena_view(s)).len() == s.len(),
        forall|i: int|
            #![trigger arena_view(s)[i]]
            #![trigger s[i]]
            0 <= i < s.len() ==> arena_view(s)[i] == (s[i].0, obj_view(s[i].1)),
    decreases s.len(),
{
    if s.len() > 0 {
        lemma_arena_view(s.subrange(1, s.len() as int));
        assert forall|i: int| 0 <= i < s.len() implies #[trigger] arena_view(s)[i] == (
        s[i].0, obj_view(s[i].1)) by {
            if i > 0 {
                assert(arena_view(s)[i] == arena_view(s.subrange(1, s.len() as int))[i - 1]);
                assert(s.subrange(1, s.len() as int)[i - 1] == s[i]);
            }
        }
    }
}

/// The mathematical form of the embedded-tag memo.
pub open spec fn tags_view(s: Seq<String>) -> Seq<Seq<char>>
    decreases s.len(),
{
    if s.len() == 0 {
        Seq::empty()
    } else {
        seq![s[0]@] + tags_view(s.subrange(1, s.len() as int))
    }
}

/// The memo's form has one entry per tag, in order.
pub broadcast proof fn lemma_tags_view(s: Seq<String>)
    ensures
        (#[trigger] tags_view(s)).len() == s.len(),
        forall|i: int|
            #![trigger tags_view(s)[i]]
            #![trigger s[i]]
            0 <= i < s.len() ==> tags_view(s)[i] == s[i]@,
    decreases s.len(),
{
    if s.len() > 0 {
        lemma_tags_view(s.subrange(1, s.len() as int));
        assert forall|i: int| 0 <= i < s.len() implies #[trigger] tags_view(s)[i] == s[i]@ by {
            if i > 0 {
                assert(tags_view(s)[i] == tags_view(s.subrange(1, s.len() as int))[i - 1]);
                assert(s.subrange(1, s.len() as int)[i - 1] == s[i]);
            }
        }
    }
}

impl View for Document {
    type V = DocV;

    open spec fn view(&self) -> DocV {
        DocV {
            objects: arena_view(self.objects@),
            trailer: self.trailer@,
            pages: self.pages@,
            max_id: self.max_id as int,
            embedded: tags_view(self.embedded_fonts@),
        }
    }
}

/// The object under a handle: the first arena entry that carries it.
pub open spec fn arena_get(s: Seq<(ObjectId, ObjV)>, id: ObjectId) -> Option<ObjV>
    decreases s.len(),
{
    if s.len() == 0 {
        None
    } else if s[0].0 == id {
        Some(s[0].1)
    } else {
        arena_get(s.skip(1), id)
    }
}

/// Storing under a handle: the first entry carrying it is replaced, or a
/// new entry is appended.
pub open spec fn arena_set(s: Seq<(ObjectId, ObjV)>, id: ObjectId, v: ObjV) -> Seq<
    (ObjectId, ObjV),
>
    decreases s.len(),
{
    if s.len() == 0 {
        seq![(id, v)]
    } else if s[0].0 == id {
        seq![(id, v)] + s.skip(1)
    } else {
        seq![s[0]] + arena_set(s.skip(1), id, v)
    }
}

impl DocV {
    /// The object a handle resolves to.
    pub open spec fn get_obj(self, id: ObjectId) -> Option<ObjV> {
        arena_get(self.objects, id)
    }

    /// The same document with one object stored.
    pub open spec fn with_obj(self, id: ObjectId, v: ObjV) -> DocV {
        DocV { objects: arena_set(self.objects, id, v), ..self }
    }

    /// The same document with a fresh object appended and the id counter
    /// advanced.
    pub open spec fn with_added(self, v: ObjV) -> DocV {
        DocV {
            objects: self.objects.push((ObjectId { num: (self.max_id + 1) as u32, gen: 0 }, v)),
            max_id: self.max_id + 1,
            ..self
        }
    }

    /// The handle the next added object gets.
    pub open spec fn next_id(self) -> ObjectId {
        ObjectId { num: (self.max_id + 1) as u32, gen: 0 }
    }
}

impl Document {
    /// Resolves a handle to its object; a handle that resolves to nothing
    /// is an object-graph shape error.
    pub fn get_object(&self, id: ObjectId) -> (r: Result<&PdfObject, PdfError>)
        ensures
            match r {
                Ok(o) => self@.get_obj(id) == Some(o@),
                Err(e) => self@.get_obj(id) is None && e == PdfError::ResourceAccess,
            },
    {
        proof {
            lemma_arena_view(self.objects@);
            assert(self@.objects.skip(0) =~= self@.objects);
        }
        let mut i: usize = 0;
        while i < self.objects.len()
            invariant
                0 <= i <= self.objects@.len(),
                self@.objects.len() == self.objects@.len(),
                self@.objects == arena_view(self.objects@),
                arena_get(self@.objects, id) == arena_get(self@.objects.skip(i as int), id),
            decreases self.objects@.len() - i,
        {
            proof {
                lemma_arena_view(self.objects@);
                assert(self@.objects.skip(i as int)[0] == self@.objects[i as int]);
                assert(self@.objects.skip(i as int).skip(1) =~= self@.objects.skip(i as int + 1));
            }
            if self.objects[i].0.num == id.num && self.objects[i].0.gen == id.gen {
                proof {
                    assert(self.objects@[i as int].0 == id);
                }
                return Ok(&self.objects[i].1);
            }
            i = i + 1;
        }
        proof {
            assert(self@.objects.skip(self@.objects.len() as int) =~= Seq::<
                (ObjectId, ObjV),
            >::empty());
        }
        Err(PdfError::ResourceAccess)
    }

    /// Stores an object under a handle, replacing what the handle resolved
    /// to, or adding it if the handle was unused.
    pub fn set_object(&mut self, id: ObjectId, obj: PdfObject)
        ensures
            final(self)@ == (DocV {
                objects: arena_set(old(self)@.objects, id, obj@),
                ..old(self)@
            }),
    {
        let ghost orig = self@.objects;
        let mut i: usize = 0;
        proof {
            lemma_arena_view(self.objects@);
            assert(orig.skip(0) =~= orig);
            assert(orig.take(0) =~= Seq::<(ObjectId, ObjV)>::empty());
            assert(Seq::<(ObjectId, ObjV)>::empty() + arena_set(orig, id, obj@) =~= arena_set(
                orig,
                id,
                obj@,
            ));
        }
        while i < self.objects.len()
            invariant
                0 <= i <= self.objects@.len(),
                *self == *old(self),
                orig == old(self)@.objects,
                orig.len() == self.objects@.len(),
                orig == arena_view(self.objects@),
                arena_set(orig, id, obj@) == orig.take(i as int) + arena_set(
                    orig.skip(i as int),
                    id,
                    obj@,
                ),
            decreases self.objects@.len() - i,
        {
            proof {
                lemma_arena_view(self.objects@);
                assert(orig.skip(i as int)[0] == orig[i as int]);
                assert(orig.skip(i as int).skip(1) =~= orig.skip(i as int + 1));
            }
            if self.objects[i].0.num == id.num && self.objects[i].0.gen == id.gen {
                let ghost olde = self.objects@;
                self.objects.set(i, (id, obj));
                proof {
                    lemma_arena_view(olde);
                    lemma_arena_view(self.objects@);
                    assert(olde[i as int].0 == id);
                    assert(arena_view(self.objects@) =~= orig.update(i as int, (id, obj@)));
                    assert(orig.skip(i as int)[0].0 == id);
                    assert(arena_set(orig.skip(i as int), id, obj@) == seq![(id, obj@)]
                        + orig.skip(i as int).skip(1));
                    assert(orig.take(i as int) + (seq![(id, obj@)] + orig.skip(i as int + 1))
                        =~= orig.update(i as int, (id, obj@)));
                    assert(final(self)@ == DocV {
                        objects: arena_set(old(self)@.objects, id, obj@),
                        ..old(self)@
                    });
                }
                return ;
            }
            proof {
                assert(orig.take(i as int) + (seq![orig[i as int]] + arena_set(
                    orig.skip(i as int + 1),
                    id,
                    obj@,
                )) =~= orig.take(i as int + 1) + arena_set(orig.skip(i as int + 1), id, obj@));
            }
            i = i + 1;
        }
        let ghost olde = self.objects@;
        self.objects.push((id, obj));
        proof {
            lemma_arena_view(olde);
            lemma_arena_view(self.objects@);
            assert(orig.skip(orig.len() as int) =~= Seq::<(ObjectId, ObjV)>::empty());
            assert(arena_view(self.objects@) =~= orig.push((id, obj@)));
            assert(orig.take(orig.len() as int) =~= orig);
            assert(orig + seq![(id, obj@)] =~= orig.push((id, obj@)));
        }
    }

    /// Adds a new object under a fresh handle and hands the handle back.
    pub fn add_object(&mut self, obj: PdfObject) -> (r: ObjectId)
        requires
            old(self).max_id < 0xffff_ffff,
        ensures
            r == old(self)@.next_id(),
            final(self)@ == old(self)@.with_added(obj@),
    {
        let id = ObjectId { num: self.max_id + 1, gen: 0 };
        self.max_id = self.max_id + 1;
        let ghost olde = self.objects@;
        self.objects.push((id, obj));
        proof {
            lemma_arena_view(olde);
            lemma_arena_view(self.objects@);
            assert(arena_view(self.objects@) =~= arena_view(olde).push((id, obj@)));
        }
        id
    }

    /// The number of pages.
    pub fn page_count(&self) -> (r: usize)
        ensures
            r == self@.pages.len(),
    {
        self.pages.len()
    }

    /// Resolves a 0-indexed page to its handle; an index past the last page
    /// is the page-not-found failure.
    pub fn page_id(&self, idx: usize) -> (r: Result<ObjectId, PdfError>)
        ensures
            match r {
                Ok(id) => idx < self@.pages.len() && id == self@.pages[idx as int],
                Err(e) => idx >= self@.pages.len() && e == PdfError::PageNotFound,
            },
    {
        if idx < self.pages.len() {
            Ok(self.pages[idx])
        } else {
            Err(PdfError::PageNotFound)
        }
    }
}

/// A media-box element as milli-points: an integer is scaled, a real is
/// already scaled, anything else is malformed.
pub open spec fn num_milli(o: ObjV) -> Option<int> {
    match o {
        ObjV::Int(i) => if -0x20000000000000 <= i && i <= 0x20000000000000 {
            Some(i * 1000)
        } else {
            None
        },
        ObjV::Real(m) => Some(m),
        _ => None,
    }
}

/// The media box a page dictionary declares: a 4-element numeric array
/// under the MediaBox key.
pub open spec fn media_box_of(d: DocV, page: ObjectId) -> Option<(int, int, int, int)> {
    match d.get_obj(page) {
        Some(ObjV::Dict(es)) => match dict_get(es, "MediaBox"@) {
            Some(ObjV::Array(a)) => if a.len() == 4 && num_milli(a[0]) is Some && num_milli(
                a[1],
            ) is Some && num_milli(a[2]) is Some && num_milli(a[3]) is Some {
                Some(
                    (
                        num_milli(a[0])->0,
                        num_milli(a[1])->0,
                        num_milli(a[2])->0,
                        num_milli(a[3])->0,
                    ),
                )
            } else {
                None
            },
            _ => None,
        },
        _ => None,
    }
}

/// Converts one media-box element.
pub(crate) fn num_milli_exec(o: &PdfObject) -> (r: Option<i64>)
    ensures
        match r {
            Some(v) => num_milli(o@) == Some(v as int),
            None => num_milli(o@) is None,
        },
{
    match o {
        PdfObject::Int(i) => {
            if -0x20000000000000 <= *i && *i <= 0x20000000000000 {
                Some(*i * 1000)
            } else {
                None
            }
        },
        PdfObject::Real(m) => Some(*m),
        _ => None,
    }
}

/// Reads a page's media box as (x0, y0, x1, y1) in milli-points, failing
/// on a missing or malformed 4-element array.
pub fn get_page_media_box(document: &Document, page: ObjectId) -> (r: Result<
    (i64, i64, i64, i64),
    PdfError,
>)
    ensures
        match r {
            Ok(b) => media_box_of(document@, page) == Some(
                (b.0 as int, b.1 as int, b.2 as int, b.3 as int),
            ),
            Err(e) => media_box_of(document@, page) is None && e == PdfError::ResourceAccess,
        },
{
    let page_obj = document.get_object(page)?;
    let d = match page_obj {
        PdfObject::Dict(d) => d,
        _ => {
            return Err(PdfError::ResourceAccess);
        },
    };
    let arr = match d.get("MediaBox") {
        Some(PdfObject::Array(a)) => a,
        _ => {
            return Err(PdfError::ResourceAccess);
        },
    };
    proof {
        lemma_objs_view(arr@);
    }
    if arr.len() != 4 {
        return Err(PdfError::ResourceAccess);
    }
    let n0 = num_milli_exec(&arr[0]);
    let n1 = num_milli_exec(&arr[1]);
    let n2 = num_milli_exec(&arr[2]);
    let n3 = num_milli_exec(&arr[3]);
    match (n0, n1, n2, n3) {
        (Some(a), Some(b), Some(c), Some(e)) => Ok((a, b, c, e)),
        _ => Err(PdfError::ResourceAccess),
    }
}

/// The page-local resource dictionary a page resolves to: absent means
/// empty, a direct dictionary is taken as is, a reference is followed one
/// step to a dictionary.
pub open spec fn resources_of(d: DocV, page: ObjectId) -> Option<Seq<(Seq<char>, ObjV)>> {
    match d.get_obj(page) {
        Some(ObjV::Dict(es)) => match dict_get(es, "Resources"@) {
            None => Some(Seq::empty()),
            Some(ObjV::Dict(res)) => Some(res),
            Some(ObjV::Ref(rid)) => match d.get_obj(rid) {
                Some(ObjV::Dict(res)) => Some(res),
                _ => None,
            },
            _ => None,
        },
        _ => None,
    }
}

impl Document {
    /// Fetches a page's resources as a local copy, materializing inherited
    /// or referenced resources so the caller can write a page-local copy
    /// back.
    pub fn fetch_resources(&self, page: ObjectId) -> (r: Result<PdfDict, PdfError>)
        ensures
            match r {
                Ok(d) => resources_of(self@, page) == Some(d@),
                Err(e) => resources_of(self@, page) is None && e == PdfError::ResourceAccess,
            },
    {
        let page_obj = self.get_object(page)?;
        let d = match page_obj {
            PdfObject::Dict(d) => d,
            _ => {
                return Err(PdfError::ResourceAccess);
            },
        };
        match d.get("Resources") {
            None => Ok(PdfDict::new()),
            Some(PdfObject::Dict(res)) => Ok(clone_dict(res)),
            Some(PdfObject::Ref(rid)) => {
                let rid = *rid;
                match self.get_object(rid) {
                    Ok(PdfObject::Dict(res)) => Ok(clone_dict(res)),
                    _ => Err(PdfError::ResourceAccess),
                }
            },
            _ => Err(PdfError::ResourceAccess),
        }
    }

    /// Replaces one entry of a page's dictionary, leaving the rest of the
    /// page as it was.
    pub fn set_page_entry(&mut self, page: ObjectId, key: &str, val: PdfObject) -> (r: Result<
        (),
        PdfError,
    >)
        ensures
            match r {
                Ok(()) => match old(self)@.get_obj(page) {
                    Some(ObjV::Dict(es)) => final(self)@ == old(self)@.with_obj(
                        page,
                        ObjV::Dict(dict_set(es, key@, val@)),
                    ),
                    _ => false,
                },
                Err(e) => !(old(self)@.get_obj(page) matches Some(ObjV::Dict(_))) && *final(self)
                    == *old(self) && e == PdfError::ResourceAccess,
            },
    {
        let mut d = match self.get_object(page) {
            Ok(PdfObject::Dict(d)) => clone_dict(d),
            Ok(_) => {
                return Err(PdfError::ResourceAccess);
            },
            Err(e) => {
                return Err(e);
            },
        };
        d.set(key, val);
        self.set_object(page, PdfObject::Dict(d));
        Ok(())
    }
}

/// The content list a page dictionary declares: a single reference is a
/// one-element list, an array is taken as is, anything else starts empty.
pub open spec fn contents_list_of(es: Seq<(Seq<char>, ObjV)>) -> Seq<ObjV> {
    match dict_get(es, "Contents"@) {
        Some(ObjV::Ref(id)) => seq![ObjV::Ref(id)],
        Some(ObjV::Array(a)) => a,
        _ => Seq::empty(),
    }
}

/// What appending a content stream does: a new stream object with the
/// operator list is added, and the page's content list gains a reference
/// to it.
pub open spec fn append_content_spec(d: DocV, page: ObjectId, ops: Seq<OpV>) -> Result<
    DocV,
    PdfError,
> {
    match d.get_obj(page) {
        Some(ObjV::Dict(es)) => if d.max_id < 0xffff_ffff {
            let sid = d.next_id();
            let d1 = d.with_added(ObjV::Stream(Seq::empty(), DataV::Ops(ops)));
            let newlist = contents_list_of(es).push(ObjV::Ref(sid));
            Ok(d1.with_obj(page, ObjV::Dict(dict_set(es, "Contents"@, ObjV::Array(newlist)))))
        } else {
            Err(PdfError::ResourceAccess)
        },
        _ => Err(PdfError::ResourceAccess),
    }
}

impl Document {
    /// Appends a content stream to a page; existing content is kept and
    /// the new stream paints after it.
    pub fn add_page_contents(&mut self, page: ObjectId, ops: Vec<ContentOp>) -> (r: Result<
        (),
        PdfError,
    >)
        ensures
            match append_content_spec(old(self)@, page, ops_view(ops@)) {
                Ok(d2) => r is Ok && final(self)@ == d2,
                Err(e) => r == Err::<(), PdfError>(e) && *final(self) == *old(self),
            },
    {
        let ghost origv = self@;
        let page_dict = match self.get_object(page) {
            Ok(PdfObject::Dict(d)) => clone_dict(d),
            Ok(_) => {
                return Err(PdfError::ResourceAccess);
            },
            Err(e) => {
                return Err(e);
            },
        };
        if !(self.max_id < 0xffff_ffff) {
            return Err(PdfError::ResourceAccess);
        }
        let mut list: Vec<PdfObject> = Vec::new();
        match page_dict.get("Contents") {
            Some(PdfObject::Ref(id)) => {
                list.push(PdfObject::Ref(*id));
            },
            Some(PdfObject::Array(a)) => {
                list = crate::object::clone_objs(a);
            },
            _ => {},
        }
        proof {
            lemma_objs_view(list@);
            assert(objs_view(list@) =~= contents_list_of(
                match origv.get_obj(page) {
                    Some(ObjV::Dict(es)) => es,
                    _ => Seq::empty(),
                },
            ));
        }
        let sid = self.add_object(
            PdfObject::Stream(PdfStream { dict: PdfDict::new(), data: StreamData::Ops(ops) }),
        );
        let ghost mid = self@;
        list.push(PdfObject::Ref(sid));
        let mut d2 = page_dict;
        proof {
            lemma_objs_view(list@);
        }
        d2.set("Contents", PdfObject::Array(list));
        self.set_object(page, PdfObject::Dict(d2));
        proof {
            let es = match origv.get_obj(page) {
                Some(ObjV::Dict(es)) => es,
                _ => Seq::<(Seq<char>, ObjV)>::empty(),
            };
            assert(objs_view(list@) =~= contents_list_of(es).push(ObjV::Ref(sid)));
            assert(final(self)@.objects =~= append_content_spec(origv, page, ops_view(ops@))->Ok_0.objects);
        }
        Ok(())
    }
}


/// Storing under one handle changes only that handle's lookup.
pub proof fn lemma_arena_set_get(s: Seq<(ObjectId, ObjV)>, id1: ObjectId, id2: ObjectId, v: ObjV)
    ensures
        arena_get(arena_set(s, id2, v), id1) == if id1 == id2 {
            Some(v)
        } else {
            arena_get(s, id1)
        },
    decreases s.len(),
{
    if s.len() == 0 {
        let r = arena_set(s, id2, v);
        assert(r == seq![(id2, v)]);
        assert(r[0] == (id2, v));
        assert(r.skip(1) =~= Seq::<(ObjectId, ObjV)>::empty());
        if id1 == id2 {
            assert(arena_get(r, id1) == Some(v));
        } else {
            assert(arena_get(r, id1) == arena_get(r.skip(1), id1));
            assert(arena_get(r, id1) is None);
        }
    } else if s[0].0 == id2 {
        let r = seq![(id2, v)] + s.skip(1);
        assert(arena_set(s, id2, v) == r);
        assert(r[0] == (id2, v));
        assert(r.skip(1) =~= s.skip(1));
        if id1 == id2 {
            assert(arena_get(r, id1) == Some(v));
        } else {
            assert(arena_get(r, id1) == arena_get(s.skip(1), id1));
            assert(arena_get(s, id1) == arena_get(s.skip(1), id1));
        }
    } else {
        lemma_arena_set_get(s.skip(1), id1, id2, v);
        let r = seq![s[0]] + arena_set(s.skip(1), id2, v);
        assert(arena_set(s, id2, v) == r);
        assert(r[0] == s[0]);
        assert(r.skip(1) =~= arena_set(s.skip(1), id2, v));
        if s[0].0 == id1 {
            assert(arena_get(r, id1) == Some(s[0].1));
            assert(arena_get(s, id1) == Some(s[0].1));
        } else {
            assert(arena_get(r, id1) == arena_get(arena_set(s.skip(1), id2, v), id1));
            assert(arena_get(s, id1) == arena_get(s.skip(1), id1));
        }
    }
}

/// Storing back what a handle already resolves to changes nothing.
pub proof fn lemma_arena_set_same(s: Seq<(ObjectId, ObjV)>, id: ObjectId, v: ObjV)
    requires
        arena_get(s, id) == Some(v),
    ensures
        arena_set(s, id, v) == s,
    decreases s.len(),
{
    if s.len() == 0 {
    } else if s[0].0 == id {
        assert(s[0] == (id, v));
        assert(seq![(id, v)] + s.skip(1) =~= s);
    } else {
        lemma_arena_set_same(s.skip(1), id, v);
        assert(seq![s[0]] + s.skip(1) =~= s);
    }
}

/// Looking a handle up past a pushed entry sees the entry only for that
/// handle.
pub proof fn lemma_arena_get_push(s: Seq<(ObjectId, ObjV)>, id: ObjectId, nid: ObjectId, v: ObjV)
    ensures
        arena_get(s.push((nid, v)), id) == if arena_get(s, id) is Some {
            arena_get(s, id)
        } else if id == nid {
            Some(v)
        } else {
            None::<ObjV>
        },
    decreases s.len(),
{
    let r = s.push((nid, v));
    if s.len() == 0 {
        assert(r[0] == (nid, v));
        assert(r.skip(1) =~= Seq::<(ObjectId, ObjV)>::empty());
        if id == nid {
            assert(arena_get(r, id) == Some(v));
        } else {
            assert(arena_get(r, id) == arena_get(r.skip(1), id));
            assert(arena_get(r, id) is None);
        }
    } else {
        assert(r[0] == s[0]);
        assert(r.skip(1) =~= s.skip(1).push((nid, v)));
        lemma_arena_get_push(s.skip(1), id, nid, v);
        if s[0].0 == id {
            assert(arena_get(r, id) == Some(s[0].1));
            assert(arena_get(s, id) == Some(s[0].1));
        } else {
            assert(arena_get(r, id) == arena_get(s.skip(1).push((nid, v)), id));
            assert(arena_get(s, id) == arena_get(s.skip(1), id));
        }
    }
}


/// Appending content changes neither the page list, the trailer, nor the
/// embedded-tag memo.
pub proof fn lemma_append_content_keeps(d: DocV, page: ObjectId, ops: Seq<OpV>)
    ensures
        ({
            let s = append_content_spec(d, page, ops);
            s is Ok ==> s->Ok_0.pages == d.pages && s->Ok_0.trailer == d.trailer
                && s->Ok_0.embedded == d.embedded
        }),
{
}

} // verus!
