//! A plain-value model of a PDF document: objects, dictionaries, streams and
//! the indirect-object table, with the operations the form logic uses.
//!
//! Dictionaries keep their entries in insertion order; a key that is set again
//! keeps its position, and removing a key moves the last entry into its place.
//! The object table maps object ids to objects; looking up an id follows
//! chains of indirect references up to a fixed limit.
use vstd::prelude::*;

verus! {

broadcast use vstd::std_specs::vec::group_vec_axioms;

/// An indirect object id: object number and generation.
pub type ObjectId = (u32, u16);

/// How a string object is written.
#[derive(Clone, Copy, PartialEq, Eq, Debug)]
pub enum StringFormat {
    Literal,
    Hexadecimal,
}

/// A PDF object. A real number is held as the bit pattern of its 32-bit
/// IEEE value together with its shortest decimal rendering.
#[derive(PartialEq, Debug)]
pub enum PdfObject {
    Null,
    Boolean(bool),
    Integer(i64),
    Real(u32, String),
    Name(Vec<u8>),
    Str(Vec<u8>, StringFormat),
    Array(Vec<PdfObject>),
    Dictionary(PdfDict),
    Stream(PdfStream),
    Reference(ObjectId),
}

/// A dictionary: (key, value) entries in insertion order.
#[derive(PartialEq, Debug)]
pub struct PdfDict {
    pub entries: Vec<(Vec<u8>, PdfObject)>,
}

/// A stream: its dictionary and its (raw) content.
#[derive(PartialEq, Debug)]
pub struct PdfStream {
    pub dict: PdfDict,
    pub content: Vec<u8>,
    pub allows_compression: bool,
    pub start_position: Option<usize>,
}

/// A document: the indirect objects, the trailer, the largest object number
/// handed out so far, and the page objects in page order.
#[derive(PartialEq, Debug)]
pub struct PdfDocument {
    pub objects: Vec<(ObjectId, PdfObject)>,
    pub trailer: PdfDict,
    pub max_id: u32,
    pub pages: Vec<ObjectId>,
}

// ---------------------------------------------------------------------------
// Mathematical views
// ---------------------------------------------------------------------------
/// The kind of an object (its variant).
#[derive(Clone, Copy, PartialEq, Eq, Debug)]
pub enum ObjKind {
    Null,
    Boolean,
    Integer,
    Real,
    Name,
    Str,
    Array,
    Dictionary,
    Stream,
    Reference,
}

/// The view of a dictionary.
pub type SDict = Seq<(Seq<u8>, SObj)>;

/// The view of an object.
pub enum SObj {
    Null,
    Boolean(bool),
    Integer(i64),
    Real(u32, Seq<char>),
    Name(Seq<u8>),
    Str(Seq<u8>, StringFormat),
    Array(Seq<SObj>),
    Dictionary(SDict),
    Stream(SDict, Seq<u8>),
    Reference(ObjectId),
}

/// The view of a document.
pub struct SDoc {
    pub objects: Seq<(ObjectId, SObj)>,
    pub trailer: SDict,
    pub max_id: u32,
    pub pages: Seq<ObjectId>,
}

impl PdfObject {
    /// The mathematical value of this object.
    pub open spec fn sv(self) -> SObj
        decreases self,
    {
        match self {
            PdfObject::Null => SObj::Null,
            PdfObject::Boolean(b) => SObj::Boolean(b),
            PdfObject::Integer(i) => SObj::Integer(i),
            PdfObject::Real(r, t) => SObj::Real(r, t@),
            PdfObject::Name(n) => SObj::Name(n@),
            PdfObject::Str(s, f) => SObj::Str(s@, f),
            PdfObject::Array(items) => SObj::Array(
                Seq::new(
                    items.len() as nat,
                    |i: int|
                        if 0 <= i < items.len() {
                            items[i].sv()
                        } else {
                            SObj::Null
                        },
                ),
            ),
            PdfObject::Dictionary(d) => SObj::Dictionary(
                Seq::new(
                    d.entries.len() as nat,
                    |i: int|
                        if 0 <= i < d.entries.len() {
                            (d.entries[i].0@, d.entries[i].1.sv())
                        } else {
                            (Seq::empty(), SObj::Null)
                        },
                ),
            ),
            PdfObject::Stream(s) => SObj::Stream(
                Seq::new(
                    s.dict.entries.len() as nat,
                    |i: int|
                        if 0 <= i < s.dict.entries.len() {
                            (s.dict.entries[i].0@, s.dict.entries[i].1.sv())
                        } else {
                            (Seq::empty(), SObj::Null)
                        },
                ),
                s.content@,
            ),
            PdfObject::Reference(id) => SObj::Reference(id),
        }
    }
}

impl PdfDict {
    /// The mathematical value of this dictionary.
    pub open spec fn sv(self) -> SDict {
        Seq::new(self.entries.len() as nat, |i: int| (self.entries[i].0@, self.entries[i].1.sv()))
    }
}

/// The views of a sequence of objects.
pub open spec fn sv_seq(s: Seq<PdfObject>) -> Seq<SObj> {
    Seq::new(s.len(), |i: int| s[i].sv())
}

impl PdfDocument {
    /// The mathematical value of this document.
    pub open spec fn sv(self) -> SDoc {
        SDoc {
            objects: Seq::new(
                self.objects.len() as nat,
                |i: int| (self.objects[i].0, self.objects[i].1.sv()),
            ),
            trailer: self.trailer.sv(),
            max_id: self.max_id,
            pages: self.pages@,
        }
    }
}

pub proof fn lemma_dict_obj_sv(d: PdfDict)
    ensures
        PdfObject::Dictionary(d).sv() == SObj::Dictionary(d.sv()),
{
    assert(PdfObject::Dictionary(d).sv()->Dictionary_0 =~= d.sv());
}

pub proof fn lemma_array_obj_sv(v: Vec<PdfObject>)
    ensures
        PdfObject::Array(v).sv() == SObj::Array(sv_seq(v@)),
{
    assert(PdfObject::Array(v).sv()->Array_0 =~= sv_seq(v@));
}

/// The kind of an object view.
pub open spec fn kind_of(o: SObj) -> ObjKind {
    match o {
        SObj::Null => ObjKind::Null,
        SObj::Boolean(_) => ObjKind::Boolean,
        SObj::Integer(_) => ObjKind::Integer,
        SObj::Real(_, _) => ObjKind::Real,
        SObj::Name(_) => ObjKind::Name,
        SObj::Str(_, _) => ObjKind::Str,
        SObj::Array(_) => ObjKind::Array,
        SObj::Dictionary(_) => ObjKind::Dictionary,
        SObj::Stream(_, _) => ObjKind::Stream,
        SObj::Reference(_) => ObjKind::Reference,
    }
}

impl PdfObject {
    /// The kind of this object.
    pub fn kind(&self) -> (k: ObjKind)
        ensures
            k == kind_of(self.sv()),
    {
        match self {
            PdfObject::Null => ObjKind::Null,
            PdfObject::Boolean(_) => ObjKind::Boolean,
            PdfObject::Integer(_) => ObjKind::Integer,
            PdfObject::Real(_, _) => ObjKind::Real,
            PdfObject::Name(_) => ObjKind::Name,
            PdfObject::Str(_, _) => ObjKind::Str,
            PdfObject::Array(_) => ObjKind::Array,
            PdfObject::Dictionary(_) => ObjKind::Dictionary,
            PdfObject::Stream(_) => ObjKind::Stream,
            PdfObject::Reference(_) => ObjKind::Reference,
        }
    }
}

// ---------------------------------------------------------------------------
// Copies
// ---------------------------------------------------------------------------
fn copy_bytes_vec(v: &Vec<u8>) -> (r: Vec<u8>)
    ensures
        r@ == v@,
{
    crate::text::copy_bytes(v.as_slice())
}

impl PdfObject {
    /// A copy of this object with the same value.
    pub fn deep_clone(&self) -> (r: PdfObject)
        ensures
            r.sv() == self.sv(),
        decreases self,
    {
        match self {
            PdfObject::Null => PdfObject::Null,
            PdfObject::Boolean(b) => PdfObject::Boolean(*b),
            PdfObject::Integer(i) => PdfObject::Integer(*i),
            PdfObject::Real(r, t) => PdfObject::Real(*r, crate::text::copy_string(t)),
            PdfObject::Name(n) => PdfObject::Name(copy_bytes_vec(n)),
            PdfObject::Str(s, f) => PdfObject::Str(copy_bytes_vec(s), *f),
            PdfObject::Reference(id) => PdfObject::Reference(*id),
            PdfObject::Array(items) => {
                let mut out: Vec<PdfObject> = Vec::new();
                let mut i: usize = 0;
                while i < items.len()
                    invariant
                        *self == PdfObject::Array(*items),
                        i <= items.len(),
                        out.len() == i,
                        forall|j: int| 0 <= j < i ==> out[j].sv() == items[j].sv(),
                    decreases items.len() - i,
                {
                    proof {
                        assert(decreases_to!(*self => (*self)->Array_0));
                        assert(decreases_to!(*items => items[i as int]));
                    }
                    let c = items[i].deep_clone();
                    out.push(c);
                    i += 1;
                }
                let r = PdfObject::Array(out);
                assert(r.sv()->Array_0 =~= self.sv()->Array_0);
                r
            },
            PdfObject::Dictionary(d) => {
                let mut out: Vec<(Vec<u8>, PdfObject)> = Vec::new();
                let mut i: usize = 0;
                while i < d.entries.len()
                    invariant
                        *self == PdfObject::Dictionary(*d),
                        i <= d.entries.len(),
                        out.len() == i,
                        forall|j: int|
                            0 <= j < i ==> out[j].0@ == d.entries[j].0@ && out[j].1.sv()
                                == d.entries[j].1.sv(),
                    decreases d.entries.len() - i,
                {
                    proof {
                        assert(decreases_to!(*self => (*self)->Dictionary_0));
                        assert(decreases_to!(*d => d.entries));
                        assert(decreases_to!(d.entries => d.entries[i as int]));
                        assert(decreases_to!(d.entries[i as int] => d.entries[i as int].1));
                    }
                    let k = copy_bytes_vec(&d.entries[i].0);
                    let c = d.entries[i].1.deep_clone();
                    out.push((k, c));
                    i += 1;
                }
                let r = PdfObject::Dictionary(PdfDict { entries: out });
                assert(r.sv()->Dictionary_0 =~= self.sv()->Dictionary_0);
                r
            },
            PdfObject::Stream(s) => {
                let mut out: Vec<(Vec<u8>, PdfObject)> = Vec::new();
                let mut i: usize = 0;
                while i < s.dict.entries.len()
                    invariant
                        *self == PdfObject::Stream(*s),
                        i <= s.dict.entries.len(),
                        out.len() == i,
                        forall|j: int|
                            0 <= j < i ==> out[j].0@ == s.dict.entries[j].0@ && out[j].1.sv()
                                == s.dict.entries[j].1.sv(),
                    decreases s.dict.entries.len() - i,
                {
                    proof {
                        assert(decreases_to!(*self => (*self)->Stream_0));
                        assert(decreases_to!(*s => s.dict));
                        assert(decreases_to!(s.dict => s.dict.entries));
                        assert(decreases_to!(s.dict.entries => s.dict.entries[i as int]));
                        assert(decreases_to!(s.dict.entries[i as int] => s.dict.entries[i as int].1));
                    }
                    let k = copy_bytes_vec(&s.dict.entries[i].0);
                    let c = s.dict.entries[i].1.deep_clone();
                    out.push((k, c));
                    i += 1;
                }
                let r = PdfObject::Stream(
                    PdfStream {
                        dict: PdfDict { entries: out },
                        content: copy_bytes_vec(&s.content),
                        allows_compression: s.allows_compression,
                        start_position: s.start_position,
                    },
                );
                assert(r.sv()->Stream_0 =~= self.sv()->Stream_0);
                r
            },
        }
    }
}

impl PdfDict {
    /// An empty dictionary.
    pub fn new() -> (d: PdfDict)
        ensures
            d.sv() == Seq::<(Seq<u8>, SObj)>::empty(),
    {
        let d = PdfDict { entries: Vec::new() };
        assert(d.sv() =~= Seq::<(Seq<u8>, SObj)>::empty());
        d
    }

    /// A copy of this dictionary with the same value.
    pub fn deep_clone(&self) -> (r: PdfDict)
        ensures
            r.sv() == self.sv(),
    {
        let mut out: Vec<(Vec<u8>, PdfObject)> = Vec::new();
        let mut i: usize = 0;
        while i < self.entries.len()
            invariant
                i <= self.entries.len(),
                out.len() == i,
                forall|j: int|
                    0 <= j < i ==> out[j].0@ == self.entries[j].0@ && out[j].1.sv()
                        == self.entries[j].1.sv(),
            decreases self.entries.len() - i,
        {
            let k = copy_bytes_vec(&self.entries[i].0);
            let c = self.entries[i].1.deep_clone();
            out.push((k, c));
            i += 1;
        }
        let r = PdfDict { entries: out };
        assert(r.sv() =~= self.sv());
        r
    }

    /// The number of entries.
    pub fn len(&self) -> (n: usize)
        ensures
            n == self.sv().len(),
    {
        self.entries.len()
    }
}

// ---------------------------------------------------------------------------
// Dictionary operations
// ---------------------------------------------------------------------------
/// The position of the first entry with key `k`.
pub open spec fn sd_index(d: SDict, k: Seq<u8>) -> Option<int> {
    if exists|i: int| 0 <= i < d.len() && d[i].0 == k {
        Some(
            choose|i: int|
                0 <= i < d.len() && d[i].0 == k && forall|j: int| 0 <= j < i ==> d[j].0 != k,
        )
    } else {
        None
    }
}

/// The value stored under `k`.
pub open spec fn sd_get(d: SDict, k: Seq<u8>) -> Option<SObj> {
    match sd_index(d, k) {
        Some(i) => Some(d[i].1),
        None => None,
    }
}

/// `d` with `k` mapped to `v`: an existing entry keeps its position, a new
/// one is appended.
pub open spec fn sd_set(d: SDict, k: Seq<u8>, v: SObj) -> SDict {
    match sd_index(d, k) {
        Some(i) => d.update(i, (k, v)),
        None => d.push((k, v)),
    }
}

/// `d` without the entry for `k`; the last entry takes its place.
pub open spec fn sd_remove(d: SDict, k: Seq<u8>) -> SDict {
    match sd_index(d, k) {
        Some(i) => d.update(i, d.last()).drop_last(),
        None => d,
    }
}

/// The dictionary has `k`.
pub open spec fn sd_has(d: SDict, k: Seq<u8>) -> bool {
    sd_index(d, k) is Some
}

pub proof fn lemma_sd_index_found(d: SDict, k: Seq<u8>, i: int)
    requires
        0 <= i < d.len(),
        d[i].0 == k,
        forall|j: int| 0 <= j < i ==> d[j].0 != k,
    ensures
        sd_index(d, k) == Some(i),
{
    let c = choose|c: int|
        0 <= c < d.len() && d[c].0 == k && forall|j: int| 0 <= j < c ==> d[j].0 != k;
    assert(c == i) by {
        if c < i {
            assert(d[c].0 != k);
        }
        if c > i {
            assert(d[i].0 != k);
        }
    }
}

pub proof fn lemma_sd_index_some(d: SDict, k: Seq<u8>)
    ensures
        sd_index(d, k) matches Some(i) ==> 0 <= i < d.len() && d[i].0 == k && forall|j: int|
            0 <= j < i ==> d[j].0 != k,
{
    if exists|i: int| 0 <= i < d.len() && d[i].0 == k {
        let w = choose|i: int| 0 <= i < d.len() && d[i].0 == k;
        let mut m = w;
        // the smallest index holding k exists
        assert(exists|c: int|
            0 <= c < d.len() && d[c].0 == k && forall|j: int| 0 <= j < c ==> d[j].0 != k) by {
            lemma_min_index(d, k, w);
        }
    }
}

proof fn lemma_min_index(d: SDict, k: Seq<u8>, w: int)
    requires
        0 <= w < d.len(),
        d[w].0 == k,
    ensures
        exists|c: int| 0 <= c < d.len() && d[c].0 == k && forall|j: int| 0 <= j < c ==> d[j].0 != k,
    decreases w,
{
    if exists|j: int| 0 <= j < w && d[j].0 == k {
        let j = choose|j: int| 0 <= j < w && d[j].0 == k;
        lemma_min_index(d, k, j);
    } else {
        assert(forall|j: int| 0 <= j < w ==> d[j].0 != k);
    }
}

impl PdfDict {
    /// The position of the first entry with key `key`.
    pub fn find(&self, key: &[u8]) -> (r: Option<usize>)
        ensures
            r matches Some(i) ==> sd_index(self.sv(), key@) == Some(i as int) && i
                < self.entries.len(),
            r is None ==> sd_index(self.sv(), key@) is None,
    {
        let ghost d = self.sv();
        let mut i: usize = 0;
        while i < self.entries.len()
            invariant
                d == self.sv(),
                i <= self.entries.len(),
                forall|j: int| 0 <= j < i ==> d[j].0 != key@,
            decreases self.entries.len() - i,
        {
            if crate::text::bytes_eq(self.entries[i].0.as_slice(), key) {
                proof {
                    lemma_sd_index_found(d, key@, i as int);
                }
                return Some(i);
            }
            i += 1;
        }
        None
    }

    /// The value stored under `key`.
    pub fn get(&self, key: &[u8]) -> (r: Option<&PdfObject>)
        ensures
            r matches Some(o) ==> sd_get(self.sv(), key@) == Some(o.sv()),
            r is None ==> sd_get(self.sv(), key@) is None,
    {
        match self.find(key) {
            Some(i) => Some(&self.entries[i].1),
            None => None,
        }
    }

    /// The dictionary has an entry for `key`.
    pub fn has(&self, key: &[u8]) -> (r: bool)
        ensures
            r == sd_has(self.sv(), key@),
    {
        self.find(key).is_some()
    }

    /// Maps `key` to `value`.
    pub fn set(&mut self, key: Vec<u8>, value: PdfObject)
        ensures
            final(self).sv() == sd_set(old(self).sv(), key@, value.sv()),
    {
        match self.find(key.as_slice()) {
            Some(i) => {
                let ghost kv = key@;
                let ghost vv = value.sv();
                self.entries.set(i, (key, value));
                assert(self.sv() =~= old(self).sv().update(i as int, (kv, vv)));
            },
            None => {
                let ghost kv = key@;
                let ghost vv = value.sv();
                self.entries.push((key, value));
                assert(self.sv() =~= old(self).sv().push((kv, vv)));
            },
        }
    }

    /// Removes the entry for `key`, returning its value.
    pub fn remove(&mut self, key: &[u8]) -> (r: Option<PdfObject>)
        ensures
            final(self).sv() == sd_remove(old(self).sv(), key@),
            r matches Some(o) ==> sd_get(old(self).sv(), key@) == Some(o.sv()),
            r is None ==> sd_get(old(self).sv(), key@) is None,
    {
        match self.find(key) {
            Some(i) => {
                let (_, v) = self.entries.swap_remove(i);
                assert(self.sv() =~= old(self).sv().update(i as int, old(self).sv().last()).drop_last());
                Some(v)
            },
            None => None,
        }
    }
}

// ---------------------------------------------------------------------------
// The object table
// ---------------------------------------------------------------------------
/// Errors of object lookups.
#[derive(Clone, Copy, PartialEq, Eq, Debug)]
pub enum DocError {
    /// No object has this id.
    ObjectNotFound(ObjectId),
    /// More than the allowed number of indirect references in a chain.
    ReferenceLimit,
    /// An object of another kind was found.
    ObjectType { expected: ObjKind, found: ObjKind },
}

/// How many references a lookup follows before it gives up.
pub open spec fn deref_limit() -> nat {
    128
}

/// The position of the entry for `id`.
pub open spec fn so_index(objs: Seq<(ObjectId, SObj)>, id: ObjectId) -> Option<int> {
    if exists|i: int| 0 <= i < objs.len() && objs[i].0 == id {
        Some(
            choose|i: int|
                0 <= i < objs.len() && objs[i].0 == id && forall|j: int|
                    0 <= j < i ==> objs[j].0 != id,
        )
    } else {
        None
    }
}

/// The object stored under `id`.
pub open spec fn so_lookup(objs: Seq<(ObjectId, SObj)>, id: ObjectId) -> Option<SObj> {
    match so_index(objs, id) {
        Some(i) => Some(objs[i].1),
        None => None,
    }
}

/// `objs` with `id` mapped to `o`.
pub open spec fn so_set(objs: Seq<(ObjectId, SObj)>, id: ObjectId, o: SObj) -> Seq<(ObjectId, SObj)> {
    match so_index(objs, id) {
        Some(i) => objs.update(i, (id, o)),
        None => objs.push((id, o)),
    }
}

pub proof fn lemma_so_index_found(objs: Seq<(ObjectId, SObj)>, id: ObjectId, i: int)
    requires
        0 <= i < objs.len(),
        objs[i].0 == id,
        forall|j: int| 0 <= j < i ==> objs[j].0 != id,
    ensures
        so_index(objs, id) == Some(i),
{
    let c = choose|c: int|
        0 <= c < objs.len() && objs[c].0 == id && forall|j: int| 0 <= j < c ==> objs[j].0 != id;
    assert(c == i) by {
        if c < i {
            assert(objs[c].0 != id);
        }
        if c > i {
            assert(objs[i].0 != id);
        }
    }
}

/// Following a chain of references from `obj` (`nb` references followed so
/// far, the last one to `last`): the id of the last reference followed and
/// the first object that is not a reference.
#[verifier::opaque]
pub open spec fn sdoc_deref(
    doc: SDoc,
    last: Option<ObjectId>,
    obj: SObj,
    nb: nat,
) -> Result<(Option<ObjectId>, SObj), DocError>
    decreases deref_limit() - nb,
{
    match obj {
        SObj::Reference(r) => match so_lookup(doc.objects, r) {
            None => Err(DocError::ObjectNotFound(r)),
            Some(o) => if nb + 1 > deref_limit() {
                Err(DocError::ReferenceLimit)
            } else {
                sdoc_deref(doc, Some(r), o, nb + 1)
            },
        },
        _ => Ok((last, obj)),
    }
}

/// The object with id `id`, references followed.
#[verifier::opaque]
pub open spec fn sdoc_get_object(doc: SDoc, id: ObjectId) -> Result<SObj, DocError> {
    match so_lookup(doc.objects, id) {
        None => Err(DocError::ObjectNotFound(id)),
        Some(o) => match sdoc_deref(doc, None, o, 0) {
            Ok((_, r)) => Ok(r),
            Err(e) => Err(e),
        },
    }
}

/// The id of the table entry that a write to `id` changes.
#[verifier::opaque]
pub open spec fn sdoc_target(doc: SDoc, id: ObjectId) -> Result<ObjectId, DocError> {
    match so_lookup(doc.objects, id) {
        None => Err(DocError::ObjectNotFound(id)),
        Some(o) => match sdoc_deref(doc, None, o, 0) {
            Ok((Some(r), _)) => Ok(r),
            Ok((None, _)) => Ok(id),
            Err(e) => Err(e),
        },
    }
}

/// The dictionary with id `id`.
#[verifier::opaque]
pub open spec fn sdoc_get_dict(doc: SDoc, id: ObjectId) -> Result<SDict, DocError> {
    match sdoc_get_object(doc, id) {
        Ok(SObj::Dictionary(d)) => Ok(d),
        Ok(o) => Err(DocError::ObjectType { expected: ObjKind::Dictionary, found: kind_of(o) }),
        Err(e) => Err(e),
    }
}

/// `doc` with the table entry `id` set to `o`.
pub open spec fn sdoc_set(doc: SDoc, id: ObjectId, o: SObj) -> SDoc {
    SDoc { objects: so_set(doc.objects, id, o), ..doc }
}

/// `doc` after `o` is written to the object `id` (through references).
pub open spec fn sdoc_write(doc: SDoc, id: ObjectId, o: SObj) -> Result<SDoc, DocError> {
    match sdoc_target(doc, id) {
        Ok(t) => Ok(sdoc_set(doc, t, o)),
        Err(e) => Err(e),
    }
}

/// The id the next added object gets.
pub open spec fn next_id(doc: SDoc) -> ObjectId {
    ((doc.max_id + 1) as u32, 0u16)
}

/// `doc` after `o` is added as a new object.
pub open spec fn sdoc_add(doc: SDoc, o: SObj) -> SDoc {
    SDoc { max_id: (doc.max_id + 1) as u32, ..sdoc_set(doc, next_id(doc), o) }
}

impl PdfDocument {
    /// An empty document.
    pub fn new() -> (d: PdfDocument)
        ensures
            d.sv().objects.len() == 0,
            d.sv().trailer.len() == 0,
            d.sv().max_id == 0,
            d.sv().pages.len() == 0,
    {
        PdfDocument { objects: Vec::new(), trailer: PdfDict::new(), max_id: 0, pages: Vec::new() }
    }

    fn find_object(&self, id: ObjectId) -> (r: Option<usize>)
        ensures
            r matches Some(i) ==> so_index(self.sv().objects, id) == Some(i as int) && i
                < self.objects.len(),
            r is None ==> so_index(self.sv().objects, id) is None,
    {
        let ghost objs = self.sv().objects;
        let mut i: usize = 0;
        while i < self.objects.len()
            invariant
                objs == self.sv().objects,
                i <= self.objects.len(),
                forall|j: int| 0 <= j < i ==> objs[j].0 != id,
            decreases self.objects.len() - i,
        {
            let oid = self.objects[i].0;
            if oid.0 == id.0 && oid.1 == id.1 {
                proof {
                    lemma_so_index_found(objs, id, i as int);
                }
                return Some(i);
            }
            i += 1;
        }
        None
    }

    /// The table entry for `id`, without following references.
    pub fn lookup(&self, id: ObjectId) -> (r: Option<&PdfObject>)
        ensures
            r matches Some(o) ==> so_lookup(self.sv().objects, id) == Some(o.sv()),
            r is None ==> so_lookup(self.sv().objects, id) is None,
    {
        match self.find_object(id) {
            Some(i) => Some(&self.objects[i].1),
            None => None,
        }
    }

    fn deref<'a>(&'a self, start: &'a PdfObject) -> (r: Result<(Option<ObjectId>, &'a PdfObject), DocError>)
        ensures
            r matches Ok((l, o)) ==> sdoc_deref(self.sv(), None, start.sv(), 0) == Ok::<(Option<ObjectId>, SObj), DocError>((l, o.sv())),
            r matches Err(e) ==> sdoc_deref(self.sv(), None, start.sv(), 0) == Err::<(Option<ObjectId>, SObj), DocError>(e),
    {
        reveal(sdoc_deref);
        let mut obj = start;
        let mut last: Option<ObjectId> = None;
        let mut nb: usize = 0;
        loop
            invariant
                nb <= deref_limit(),
                sdoc_deref(self.sv(), None, start.sv(), 0) == sdoc_deref(self.sv(), last, obj.sv(), nb as nat),
            decreases deref_limit() - nb,
        {
            reveal(sdoc_deref);
            match obj {
                PdfObject::Reference(r) => {
                    match self.lookup(*r) {
                        None => {
                            return Err(DocError::ObjectNotFound(*r));
                        },
                        Some(o) => {
                            if nb + 1 > 128 {
                                return Err(DocError::ReferenceLimit);
                            }
                            obj = o;
                            last = Some(*r);
                            nb = nb + 1;
                        },
                    }
                },
                _ => {
                    return Ok((last, obj));
                },
            }
        }
    }

    /// The object with id `id`, following references.
    pub fn get_object(&self, id: ObjectId) -> (r: Result<&PdfObject, DocError>)
        ensures
            r matches Ok(o) ==> sdoc_get_object(self.sv(), id) == Ok::<SObj, DocError>(o.sv()),
            r matches Err(e) ==> sdoc_get_object(self.sv(), id) == Err::<SObj, DocError>(e),
    {
        reveal(sdoc_get_object);
        match self.lookup(id) {
            None => Err(DocError::ObjectNotFound(id)),
            Some(o) => match self.deref(o) {
                Ok((_, r)) => Ok(r),
                Err(e) => Err(e),
            },
        }
    }

    /// The id of the table entry that a write to `id` changes.
    pub fn write_target(&self, id: ObjectId) -> (r: Result<ObjectId, DocError>)
        ensures
            r == sdoc_target(self.sv(), id),
    {
        reveal(sdoc_target);
        match self.lookup(id) {
            None => Err(DocError::ObjectNotFound(id)),
            Some(o) => match self.deref(o) {
                Ok((Some(t), _)) => Ok(t),
                Ok((None, _)) => Ok(id),
                Err(e) => Err(e),
            },
        }
    }

    /// The dictionary with id `id`.
    pub fn get_dictionary(&self, id: ObjectId) -> (r: Result<&PdfDict, DocError>)
        ensures
            r matches Ok(d) ==> sdoc_get_dict(self.sv(), id) == Ok::<SDict, DocError>(d.sv()),
            r matches Err(e) ==> sdoc_get_dict(self.sv(), id) == Err::<SDict, DocError>(e),
    {
        reveal(sdoc_get_dict);
        match self.get_object(id) {
            Ok(PdfObject::Dictionary(d)) => {
                proof {
                    lemma_dict_obj_sv(*d);
                }
                Ok(d)
            },
            Ok(o) => Err(DocError::ObjectType { expected: ObjKind::Dictionary, found: o.kind() }),
            Err(e) => Err(e),
        }
    }

    /// Sets the table entry `id` to `o`.
    pub fn set_object(&mut self, id: ObjectId, o: PdfObject)
        ensures
            final(self).sv() == sdoc_set(old(self).sv(), id, o.sv()),
    {
        let ghost ov = o.sv();
        match self.find_object(id) {
            Some(i) => {
                self.objects.set(i, (id, o));
                assert(self.sv().objects =~= old(self).sv().objects.update(i as int, (id, ov)));
            },
            None => {
                self.objects.push((id, o));
                assert(self.sv().objects =~= old(self).sv().objects.push((id, ov)));
            },
        }
    }

    /// Writes `o` to the object `id` (through references).
    pub fn write_object(&mut self, id: ObjectId, o: PdfObject) -> (r: Result<(), DocError>)
        ensures
            r is Ok ==> sdoc_write(old(self).sv(), id, o.sv()) == Ok::<SDoc, DocError>(final(self).sv()),
            r matches Err(e) ==> sdoc_write(old(self).sv(), id, o.sv()) == Err::<SDoc, DocError>(e)
                && final(self).sv() == old(self).sv(),
    {
        match self.write_target(id) {
            Ok(t) => {
                self.set_object(t, o);
                Ok(())
            },
            Err(e) => Err(e),
        }
    }

    /// Adds `o` as a new object with the next object number; `None` when the
    /// object numbers are exhausted.
    pub fn add_object(&mut self, o: PdfObject) -> (r: Option<ObjectId>)
        ensures
            old(self).max_id < u32::MAX ==> r == Some(next_id(old(self).sv())) && final(self).sv()
                == sdoc_add(old(self).sv(), o.sv()),
            old(self).max_id == u32::MAX ==> r is None && final(self).sv() == old(self).sv(),
    {
        if self.max_id == u32::MAX {
            return None;
        }
        self.max_id = self.max_id + 1;
        let id: ObjectId = (self.max_id, 0u16);
        self.set_object(id, o);
        Some(id)
    }
}

impl PdfDocument {
    /// A copy of this document with the same value.
    pub fn duplicate(&self) -> (r: PdfDocument)
        ensures
            r.sv() == self.sv(),
    {
        let mut objects: Vec<(ObjectId, PdfObject)> = Vec::new();
        let mut i: usize = 0;
        while i < self.objects.len()
            invariant
                i <= self.objects.len(),
                objects.len() == i,
                forall|j: int|
                    0 <= j < i ==> objects@[j].0 == self.objects@[j].0 && objects@[j].1.sv()
                        == self.objects@[j].1.sv(),
            decreases self.objects.len() - i,
        {
            objects.push((self.objects[i].0, self.objects[i].1.deep_clone()));
            i += 1;
        }
        let mut pages: Vec<ObjectId> = Vec::new();
        let mut k: usize = 0;
        while k < self.pages.len()
            invariant
                k <= self.pages.len(),
                pages@ == self.pages@.take(k as int),
            decreases self.pages.len() - k,
        {
            pages.push(self.pages[k]);
            assert(self.pages@.take(k + 1) =~= self.pages@.take(k as int).push(self.pages@[k as int]));
            k += 1;
        }
        assert(self.pages@.take(self.pages.len() as int) =~= self.pages@);
        let r = PdfDocument { objects, trailer: self.trailer.deep_clone(), max_id: self.max_id, pages };
        assert(r.sv().objects =~= self.sv().objects);
        r
    }
}

} // verus!
