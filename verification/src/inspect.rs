//! Reading a document's form: the text fields with their values, and the
//! pages on which a field's widgets appear.
use vstd::prelude::*;
use crate::error::{PdferError, SErr, res_id, res_v};
use crate::pages::{PageHandle, page_annotation_objects, page_handles, spec_page_annots, spec_page_handles};
use crate::objects::{deref_dict, deref_dictionary, dict_is_widget, dict_ref, get_ref, inherited_name, inherited_name_of, is_widget, kid_objects, kids_of, obj_ref, object_reference};
use crate::fields::{FieldValue, FormField, SField, SValue, contains_ids, fmap_v, get_fields_impl, opt_str, opt_value_v, spec_get_fields, text_is};
use crate::keys::{k_ft, k_p, k_t, key_ft, key_p, key_t, w_tx, word_tx};
use crate::model::{ObjectId, PdfDict, PdfDocument, PdfObject, SDict, SDoc, SObj, sd_get, sd_has, sdoc_get_dict, sv_seq};
use crate::order::{first_match, insert_position, lemma_first_match_step, smap_insert, smap_keys};
use crate::text::{append_chars, chars_eq, copy_string, decimal, decimal_chars, entry_keys, indexed_key, join, join_strings, spec_indexed_key, string_from_chars, string_views, to_chars};

verus! {

broadcast use vstd::std_specs::vec::group_vec_axioms;

// ---------------------------------------------------------------------------
// Text fields
// ---------------------------------------------------------------------------
/// A field value as text: a text or a name as it is, a list joined with
/// `", "`; nothing for a null or missing value.
pub open spec fn value_text(v: Option<SValue>) -> Option<Seq<char>> {
    match v {
        Some(SValue::Text(t)) => Some(t),
        Some(SValue::Name(n)) => Some(n),
        Some(SValue::List(l)) => Some(join(l, ", "@)),
        Some(SValue::Null) => None,
        None => None,
    }
}

/// The text of a field value.
pub fn field_value_to_string(v: &FieldValue) -> (r: String)
    ensures
        r@ == match value_text(Some(v.sv())) {
            Some(t) => t,
            None => Seq::<char>::empty(),
        },
{
    match v {
        FieldValue::Text(s) => copy_string(s),
        FieldValue::Name(s) => copy_string(s),
        FieldValue::List(items) => join_strings(items, ", "),
        FieldValue::Null => String::new(),
    }
}

fn value_text_of(v: &Option<FieldValue>) -> (r: Option<String>)
    ensures
        opt_str(r) == value_text(opt_value_v(*v)),
{
    match v {
        Some(FieldValue::Text(s)) => Some(copy_string(s)),
        Some(FieldValue::Name(s)) => Some(copy_string(s)),
        Some(FieldValue::List(items)) => Some(join_strings(items, ", ")),
        Some(FieldValue::Null) => None,
        None => None,
    }
}

/// The view of a list of (name, optional text) entries.
pub open spec fn tmap_v(m: Seq<(String, Option<String>)>) -> Seq<(Seq<char>, Option<Seq<char>>)> {
    m.map_values(|e: (String, Option<String>)| (e.0@, opt_str(e.1)))
}

/// The text fields among the named fields `m` (visited in key order), with
/// their values as text. With `full` they are keyed by qualified name;
/// otherwise by partial name (the qualified name when there is none),
/// suffixed `.2`, `.3`, ... when the key is already taken.
pub open spec fn text_fields_of(m: Seq<(Seq<char>, SField)>, full: bool) -> Seq<
    (Seq<char>, Option<Seq<char>>),
>
    decreases m.len(),
{
    if m.len() == 0 {
        seq![]
    } else {
        let acc = text_fields_of(m.drop_last(), full);
        let (qn, f) = m.last();
        if f.field_type != Some(w_tx()) {
            acc
        } else {
            let base = match f.partial_name {
                Some(p) => p,
                None => qn,
            };
            let key = if full {
                qn
            } else {
                spec_indexed_key(base, smap_keys(acc))
            };
            smap_insert(acc, key, value_text(f.value))
        }
    }
}

/// The text fields of the document and their values; none when the document
/// has no form.
pub open spec fn spec_get_form_text_fields(doc: SDoc, full: bool) -> Result<
    Seq<(Seq<char>, Option<Seq<char>>)>,
    SErr,
> {
    match spec_get_fields(doc) {
        Err(e) => Err(e),
        Ok(None) => Ok(seq![]),
        Ok(Some(m)) => Ok(text_fields_of(m, full)),
    }
}

fn key_chars_of_tmap(m: &Vec<(String, Option<String>)>) -> (r: Vec<Vec<char>>)
    ensures
        r@.map_values(|v: Vec<char>| v@) == smap_keys(tmap_v(m@)),
{
    let mut r: Vec<Vec<char>> = Vec::new();
    let mut i: usize = 0;
    while i < m.len()
        invariant
            i <= m.len(),
            r.len() == i,
            forall|j: int| 0 <= j < i ==> r@[j]@ == m@[j].0@,
        decreases m.len() - i,
    {
        r.push(to_chars(m[i].0.as_str()));
        i += 1;
    }
    assert(r@.map_values(|v: Vec<char>| v@) =~= smap_keys(tmap_v(m@)));
    r
}

/// Maps `k` to `v` in the key-sorted list `m`.
fn insert_text_entry(m: &mut Vec<(String, Option<String>)>, k: String, v: Option<String>)
    ensures
        tmap_v(final(m)@) == smap_insert(tmap_v(old(m)@), k@, opt_str(v)),
{
    let keys = key_chars_of_tmap(m);
    let kc = to_chars(k.as_str());
    let p = insert_position(&keys, kc.as_slice());
    let ghost kv = k@;
    let ghost vv = opt_str(v);
    proof {
        if p < m.len() {
            assert(keys@.map_values(|c: Vec<char>| c@)[p as int] == keys@[p as int]@);
            assert(smap_keys(tmap_v(old(m)@))[p as int] == tmap_v(old(m)@)[p as int].0);
        }
    }
    if p < m.len() && chars_eq(keys[p].as_slice(), kc.as_slice()) {
        m.set(p, (k, v));
        assert(tmap_v(m@) =~= tmap_v(old(m)@).update(p as int, (kv, vv)));
    } else {
        m.insert(p, (k, v));
        assert(tmap_v(m@) =~= tmap_v(old(m)@).insert(p as int, (kv, vv)));
    }
}

/// The text fields of the document and their values.
pub fn get_form_text_fields_impl(doc: &PdfDocument, full: bool) -> (r: Result<
    Vec<(String, Option<String>)>,
    PdferError,
>)
    ensures
        res_v(r, |m: Vec<(String, Option<String>)>| tmap_v(m@)) == spec_get_form_text_fields(
            doc.sv(),
            full,
        ),
{
    let fields = match get_fields_impl(doc)? {
        None => {
            let out: Vec<(String, Option<String>)> = Vec::new();
            assert(tmap_v(out@) =~= seq![]);
            return Ok(out);
        },
        Some(m) => m,
    };
    let ghost fm = fmap_v(fields@);
    let mut out: Vec<(String, Option<String>)> = Vec::new();
    let mut i: usize = 0;
    assert(tmap_v(out@) =~= text_fields_of(fm.take(0), full));
    let tx = word_tx();
    while i < fields.len()
        invariant
            fm == fmap_v(fields@),
            tx@ == w_tx(),
            i <= fields.len(),
            tmap_v(out@) == text_fields_of(fm.take(i as int), full),
        decreases fields.len() - i,
    {
        assert(fm.take(i + 1).drop_last() =~= fm.take(i as int));
        let ghost entry = fm[i as int];
        assert(fm.take(i + 1).last() == entry);
        let qn = &fields[i].0;
        let f = &fields[i].1;
        assert(entry == (qn@, f.sv()));
        let is_text = match &f.field_type {
            Some(t) => text_is(t, &tx),
            None => false,
        };
        if is_text {
            let value = value_text_of(&f.value);
            let key = if full {
                copy_string(qn)
            } else {
                let base = match &f.partial_name {
                    Some(p) => copy_string(p),
                    None => copy_string(qn),
                };
                assert(entry_keys(out@) =~= smap_keys(tmap_v(out@)));
                indexed_key(base.as_str(), out.as_slice())
            };
            insert_text_entry(&mut out, key, value);
        }
        i += 1;
    }
    assert(fm.take(fields.len() as int) =~= fm);
    Ok(out)
}

// ---------------------------------------------------------------------------
// Pages showing a field
// ---------------------------------------------------------------------------
/// Names a field: by qualified or partial name, or by object id.
#[derive(Debug, PartialEq, Eq)]
pub enum FieldSpecifier {
    Name(String),
    Id(ObjectId),
}

/// The entry's key is `name`.
pub open spec fn key_is(name: Seq<char>) -> spec_fn((Seq<char>, SField)) -> bool {
    |e: (Seq<char>, SField)| e.0 == name
}

/// The entry's field has partial name `name`.
pub open spec fn partial_is(name: Seq<char>) -> spec_fn((Seq<char>, SField)) -> bool {
    |e: (Seq<char>, SField)| e.1.partial_name == Some(name)
}

/// The field a name designates: the field with that qualified name, else the
/// first, in key order, with that partial name.
pub open spec fn find_named_field(m: Seq<(Seq<char>, SField)>, name: Seq<char>) -> Option<SField> {
    match first_match(m, key_is(name)) {
        Some(e) => Some(e.1),
        None => match first_match(m, partial_is(name)) {
            Some(e) => Some(e.1),
            None => None,
        },
    }
}

/// The id of the field a specifier designates.
#[verifier::opaque]
pub open spec fn spec_field_id(doc: SDoc, fs: FieldSpecifier) -> Result<ObjectId, SErr> {
    match fs {
        FieldSpecifier::Id(id) => Ok(id),
        FieldSpecifier::Name(name) => match spec_get_fields(doc) {
            Err(e) => Err(e),
            Ok(None) => Err(SErr::MissingField(name@)),
            Ok(Some(m)) => match find_named_field(m, name@) {
                None => Err(SErr::MissingField(name@)),
                Some(f) => match f.object_id {
                    None => Err(SErr::InvalidField(f.qualified_name)),
                    Some(id) => Ok(id),
                },
            },
        },
    }
}

/// An object id as text: its number and generation.
pub open spec fn id_text(id: ObjectId) -> Seq<char> {
    decimal(id.0 as nat) + seq![' '] + decimal(id.1 as nat)
}

/// Some item is a reference to `id`.
pub open spec fn refers_to(items: Seq<SObj>, id: ObjectId) -> bool {
    exists|i: int| 0 <= i < items.len() && items[i] == SObj::Reference(id)
}

/// The pages among `pages` whose annotations include a reference to `id`.
pub open spec fn pages_referring(doc: SDoc, pages: Seq<ObjectId>, id: ObjectId) -> Result<
    Set<ObjectId>,
    SErr,
>
    decreases pages.len(),
{
    if pages.len() == 0 {
        Ok(Set::empty())
    } else {
        match pages_referring(doc, pages.drop_last(), id) {
            Err(e) => Err(e),
            Ok(s) => match spec_page_annots(doc, pages.last()) {
                Err(e) => Err(e),
                Ok(items) => Ok(
                    if refers_to(items, id) {
                        s.insert(pages.last())
                    } else {
                        s
                    },
                ),
            },
        }
    }
}

/// The pages of the kids that are plain widgets (no `/T`): the page a kid
/// names in `/P`, else the pages whose annotations refer to the kid.
pub open spec fn kid_pages(doc: SDoc, kids: Seq<SObj>) -> Result<Set<ObjectId>, SErr>
    decreases kids.len(),
{
    if kids.len() == 0 {
        Ok(Set::empty())
    } else {
        match kid_pages(doc, kids.drop_last()) {
            Err(e) => Err(e),
            Ok(s) => {
                let kid = kids.last();
                match deref_dict(doc, kid) {
                    Err(e) => Err(e),
                    Ok(kd) => if is_widget(kd) && !sd_has(kd, k_t()) {
                        match dict_ref(kd, k_p()) {
                            Some(p) => Ok(s.insert(p)),
                            None => match obj_ref(kid) {
                                Some(kid_id) => match pages_referring(doc, doc.pages, kid_id) {
                                    Err(e) => Err(e),
                                    Ok(t) => Ok(s.union(t)),
                                },
                                None => Ok(s),
                            },
                        }
                    } else {
                        Ok(s)
                    },
                }
            },
        }
    }
}

/// The pages a field's widgets are on: for a widget, the page in its `/P`
/// (none when `/P` is not a reference) or, without `/P`, the pages whose
/// annotations refer to it; otherwise the pages of its kids.
#[verifier::opaque]
pub open spec fn field_pages(doc: SDoc, id: ObjectId, d: SDict) -> Result<Set<ObjectId>, SErr> {
    if is_widget(d) {
        match sd_get(d, k_p()) {
            Some(p) => Ok(
                match obj_ref(p) {
                    Some(pid) => Set::empty().insert(pid),
                    None => Set::empty(),
                },
            ),
            None => pages_referring(doc, doc.pages, id),
        }
    } else {
        kid_pages(doc, kid_objects(doc, d))
    }
}

/// The handles whose page is in `s`, in order.
pub open spec fn keep_pages(hs: Seq<PageHandle>, s: Set<ObjectId>) -> Seq<PageHandle>
    decreases hs.len(),
{
    if hs.len() == 0 {
        seq![]
    } else if s.contains(hs.last().object_id) {
        keep_pages(hs.drop_last(), s).push(hs.last())
    } else {
        keep_pages(hs.drop_last(), s)
    }
}

/// The pages, in page order, on which the designated field's widgets
/// appear. A name that designates no field, or a field without an object
/// id, is refused, and so is a field without a type.
pub open spec fn spec_pages_showing(doc: SDoc, fs: FieldSpecifier) -> Result<Seq<PageHandle>, SErr> {
    match spec_field_id(doc, fs) {
        Err(e) => Err(e),
        Ok(id) => match sdoc_get_dict(doc, id) {
            Err(e) => Err(SErr::Lopdf(e)),
            Ok(d) => if inherited_name(doc, d, k_ft()) is None {
                Err(SErr::InvalidField(id_text(id)))
            } else {
                match field_pages(doc, id, d) {
                    Err(e) => Err(e),
                    Ok(s) => Ok(keep_pages(spec_page_handles(doc), s)),
                }
            },
        },
    }
}

fn find_named_field_id(m: &Vec<(String, FormField)>, name: &String) -> (r: Result<
    ObjectId,
    PdferError,
>)
    ensures
        res_id(r) == match find_named_field(fmap_v(m@), name@) {
            None => Err(SErr::MissingField(name@)),
            Some(f) => match f.object_id {
                None => Err(SErr::InvalidField(f.qualified_name)),
                Some(id) => Ok(id),
            },
        },
{
    let ghost fm = fmap_v(m@);
    let nc = to_chars(name.as_str());
    let mut i: usize = 0;
    let mut found: Option<usize> = None;
    while i < m.len()
        invariant
            fm == fmap_v(m@),
            nc@ == name@,
            i <= m.len(),
            found is None ==> first_match(fm.take(i as int), key_is(name@)) is None,
            found matches Some(j) ==> j < m.len() && first_match(fm.take(i as int), key_is(name@))
                == Some(fm[j as int]),
        decreases m.len() - i,
    {
        proof {
            lemma_first_match_step(fm, key_is(name@), i as int);
        }
        if found.is_none() {
            let k = to_chars(m[i].0.as_str());
            if chars_eq(k.as_slice(), nc.as_slice()) {
                found = Some(i);
            }
        }
        i += 1;
    }
    assert(fm.take(m.len() as int) =~= fm);
    if found.is_none() {
        let mut k: usize = 0;
        while k < m.len()
            invariant
                fm == fmap_v(m@),
                nc@ == name@,
                k <= m.len(),
                first_match(fm, key_is(name@)) is None,
                found is None ==> first_match(fm.take(k as int), partial_is(name@)) is None,
                found matches Some(j) ==> j < m.len() && first_match(
                    fm.take(k as int),
                    partial_is(name@),
                ) == Some(fm[j as int]),
            decreases m.len() - k,
        {
            proof {
                lemma_first_match_step(fm, partial_is(name@), k as int);
            }
            if found.is_none() {
                let hit = match &m[k].1.partial_name {
                    Some(p) => text_is(p, &nc),
                    None => false,
                };
                if hit {
                    found = Some(k);
                }
            }
            k += 1;
        }
        assert(fm.take(m.len() as int) =~= fm);
    }
    match found {
        None => Err(PdferError::MissingField(copy_string(name))),
        Some(j) => match m[j].1.object_id {
            None => Err(PdferError::InvalidField(copy_string(&m[j].1.qualified_name))),
            Some(id) => Ok(id),
        },
    }
}

fn field_id_of(doc: &PdfDocument, fs: &FieldSpecifier) -> (r: Result<ObjectId, PdferError>)
    ensures
        res_id(r) == spec_field_id(doc.sv(), *fs),
{
    reveal(spec_field_id);
    match fs {
        FieldSpecifier::Id(id) => Ok(*id),
        FieldSpecifier::Name(name) => match get_fields_impl(doc)? {
            None => Err(PdferError::MissingField(copy_string(name))),
            Some(m) => find_named_field_id(&m, name),
        },
    }
}

/// The text of an object id.
fn id_text_of(id: ObjectId) -> (r: String)
    ensures
        r@ == id_text(id),
{
    let mut out = decimal_chars(id.0 as u128);
    out.push(' ');
    let g = decimal_chars(id.1 as u128);
    append_chars(&mut out, g.as_slice());
    string_from_chars(out.as_slice())
}

fn contains_ref(items: &Vec<PdfObject>, id: ObjectId) -> (r: bool)
    ensures
        r == refers_to(sv_seq(items@), id),
{
    let ghost s = sv_seq(items@);
    let mut i: usize = 0;
    while i < items.len()
        invariant
            s == sv_seq(items@),
            i <= items.len(),
            forall|j: int| 0 <= j < i ==> s[j] != SObj::Reference(id),
        decreases items.len() - i,
    {
        match &items[i] {
            PdfObject::Reference(r) => {
                if r.0 == id.0 && r.1 == id.1 {
                    assert(s[i as int] == SObj::Reference(id));
                    return true;
                }
            },
            _ => {},
        }
        i += 1;
    }
    false
}

proof fn lemma_push_set(s: Seq<ObjectId>, x: ObjectId)
    ensures
        s.push(x).to_set() == s.to_set().insert(x),
{
    assert forall|a: ObjectId| s.push(x).to_set().contains(a) == s.to_set().insert(x).contains(a) by {
        if s.push(x).contains(a) {
            let i = choose|i: int| 0 <= i < s.push(x).len() && s.push(x)[i] == a;
            if i < s.len() {
                assert(s[i] == a);
            }
        }
        if s.contains(a) {
            let i = choose|i: int| 0 <= i < s.len() && s[i] == a;
            assert(s.push(x)[i] == a);
        }
        if a == x {
            assert(s.push(x)[s.len() as int] == x);
        }
    }
    assert(s.push(x).to_set() =~= s.to_set().insert(x));
}

proof fn lemma_concat_set(s: Seq<ObjectId>, t: Seq<ObjectId>)
    ensures
        (s + t).to_set() == s.to_set().union(t.to_set()),
{
    assert forall|a: ObjectId| (s + t).to_set().contains(a) == s.to_set().union(t.to_set()).contains(a) by {
        if (s + t).contains(a) {
            let i = choose|i: int| 0 <= i < (s + t).len() && (s + t)[i] == a;
            if i < s.len() {
                assert(s[i] == a);
            } else {
                assert(t[i - s.len()] == a);
            }
        }
        if s.contains(a) {
            let i = choose|i: int| 0 <= i < s.len() && s[i] == a;
            assert((s + t)[i] == a);
        }
        if t.contains(a) {
            let i = choose|i: int| 0 <= i < t.len() && t[i] == a;
            assert((s + t)[s.len() + i] == a);
        }
    }
    assert((s + t).to_set() =~= s.to_set().union(t.to_set()));
}

fn pages_referring_exec(doc: &PdfDocument, id: ObjectId) -> (r: Result<Vec<ObjectId>, PdferError>)
    ensures
        res_v(r, |v: Vec<ObjectId>| v@.to_set()) == pages_referring(doc.sv(), doc.sv().pages, id),
{
    let ghost ps = doc.sv().pages;
    let mut out: Vec<ObjectId> = Vec::new();
    let mut i: usize = 0;
    assert(ps.take(0) =~= Seq::<ObjectId>::empty());
    assert(out@.to_set() =~= Set::<ObjectId>::empty());
    while i < doc.pages.len()
        invariant
            ps == doc.sv().pages,
            i <= doc.pages.len(),
            pages_referring(doc.sv(), ps.take(i as int), id) == Ok::<Set<ObjectId>, SErr>(
                out@.to_set(),
            ),
        decreases doc.pages.len() - i,
    {
        assert(ps.take(i + 1).drop_last() =~= ps.take(i as int));
        assert(ps.take(i + 1).last() == ps[i as int]);
        let p = doc.pages[i];
        let annots = match page_annotation_objects(doc, p) {
            Ok(a) => a,
            Err(e) => {
                proof {
                    lemma_pages_referring_err(doc.sv(), ps, id, i as int);
                }
                return Err(e);
            },
        };
        if contains_ref(&annots, id) {
            let ghost before = out@;
            out.push(p);
            proof {
                lemma_push_set(before, p);
            }
        }
        i += 1;
    }
    assert(ps.take(doc.pages.len() as int) =~= ps);
    Ok(out)
}

proof fn lemma_pages_referring_err(doc: SDoc, ps: Seq<ObjectId>, id: ObjectId, i: int)
    requires
        0 <= i < ps.len(),
        pages_referring(doc, ps.take(i + 1), id) is Err,
    ensures
        pages_referring(doc, ps, id) == pages_referring(doc, ps.take(i + 1), id),
    decreases ps.len() - i,
{
    if i + 1 == ps.len() {
        assert(ps.take(i + 1) =~= ps);
    } else {
        assert(ps.take(i + 2).drop_last() =~= ps.take(i + 1));
        lemma_pages_referring_err(doc, ps, id, i + 1);
    }
}

proof fn lemma_kid_pages_err(doc: SDoc, ks: Seq<SObj>, i: int)
    requires
        0 <= i < ks.len(),
        kid_pages(doc, ks.take(i + 1)) is Err,
    ensures
        kid_pages(doc, ks) == kid_pages(doc, ks.take(i + 1)),
    decreases ks.len() - i,
{
    if i + 1 == ks.len() {
        assert(ks.take(i + 1) =~= ks);
    } else {
        assert(ks.take(i + 2).drop_last() =~= ks.take(i + 1));
        lemma_kid_pages_err(doc, ks, i + 1);
    }
}

fn kid_pages_exec(doc: &PdfDocument, kids: &Vec<PdfObject>) -> (r: Result<Vec<ObjectId>, PdferError>)
    ensures
        res_v(r, |v: Vec<ObjectId>| v@.to_set()) == kid_pages(doc.sv(), sv_seq(kids@)),
{
    let ghost ks = sv_seq(kids@);
    let kp = key_p();
    let kt = key_t();
    let mut out: Vec<ObjectId> = Vec::new();
    let mut i: usize = 0;
    assert(ks.take(0) =~= Seq::<SObj>::empty());
    assert(out@.to_set() =~= Set::<ObjectId>::empty());
    while i < kids.len()
        invariant
            ks == sv_seq(kids@),
            kp@ == k_p(),
            kt@ == k_t(),
            i <= kids.len(),
            kid_pages(doc.sv(), ks.take(i as int)) == Ok::<Set<ObjectId>, SErr>(out@.to_set()),
        decreases kids.len() - i,
    {
        assert(ks.take(i + 1).drop_last() =~= ks.take(i as int));
        assert(ks.take(i + 1).last() == kids@[i as int].sv());
        let kid = &kids[i];
        let kd = match deref_dictionary(doc, kid) {
            Ok(d) => d,
            Err(e) => {
                proof {
                    lemma_kid_pages_err(doc.sv(), ks, i as int);
                }
                return Err(e);
            },
        };
        if dict_is_widget(&kd) && !kd.has(kt.as_slice()) {
            match get_ref(&kd, kp.as_slice()) {
                Some(p) => {
                    let ghost before = out@;
                    out.push(p);
                    proof {
                        lemma_push_set(before, p);
                    }
                },
                None => match object_reference(kid) {
                    Some(kid_id) => {
                        let more = match pages_referring_exec(doc, kid_id) {
                            Ok(v) => v,
                            Err(e) => {
                                proof {
                                    lemma_kid_pages_err(doc.sv(), ks, i as int);
                                }
                                return Err(e);
                            },
                        };
                        let ghost before = out@;
                        let mut k: usize = 0;
                        while k < more.len()
                            invariant
                                k <= more.len(),
                                out@ == before + more@.take(k as int),
                            decreases more.len() - k,
                        {
                            out.push(more[k]);
                            assert(more@.take(k + 1) =~= more@.take(k as int).push(more@[k as int]));
                            assert(before + more@.take(k + 1) =~= (before + more@.take(k as int)).push(
                                more@[k as int],
                            ));
                            k += 1;
                        }
                        assert(more@.take(more.len() as int) =~= more@);
                        proof {
                            lemma_concat_set(before, more@);
                        }
                    },
                    None => {},
                },
            }
        }
        i += 1;
    }
    assert(ks.take(kids.len() as int) =~= ks);
    Ok(out)
}

fn field_pages_exec(doc: &PdfDocument, id: ObjectId, d: &PdfDict) -> (r: Result<
    Vec<ObjectId>,
    PdferError,
>)
    ensures
        res_v(r, |v: Vec<ObjectId>| v@.to_set()) == field_pages(doc.sv(), id, d.sv()),
{
    reveal(field_pages);
    let kp = key_p();
    if dict_is_widget(d) {
        match d.get(kp.as_slice()) {
            Some(p) => match object_reference(p) {
                Some(pid) => {
                    let v = vec![pid];
                    proof {
                        lemma_push_set(Seq::<ObjectId>::empty(), pid);
                        assert(v@ =~= Seq::<ObjectId>::empty().push(pid));
                        assert(Seq::<ObjectId>::empty().to_set() =~= Set::<ObjectId>::empty());
                    }
                    Ok(v)
                },
                None => {
                    let v: Vec<ObjectId> = Vec::new();
                    assert(v@.to_set() =~= Set::<ObjectId>::empty());
                    Ok(v)
                },
            },
            None => pages_referring_exec(doc, id),
        }
    } else {
        let kids = kids_of(doc, d);
        kid_pages_exec(doc, &kids)
    }
}

/// The pages on which the designated field's widgets appear, in page order.
pub fn get_pages_showing_field_impl(doc: &PdfDocument, fs: FieldSpecifier) -> (r: Result<
    Vec<PageHandle>,
    PdferError,
>)
    ensures
        res_v(r, |v: Vec<PageHandle>| v@) == spec_pages_showing(doc.sv(), fs),
{
    let id = field_id_of(doc, &fs)?;
    let d = match doc.get_dictionary(id) {
        Err(e) => {
            return Err(PdferError::Lopdf(e));
        },
        Ok(d) => d,
    };
    let kft = key_ft();
    if inherited_name_of(doc, d, kft.as_slice()).is_none() {
        return Err(PdferError::InvalidField(id_text_of(id)));
    }
    let set = field_pages_exec(doc, id, d)?;
    let hs = page_handles(doc);
    Ok(keep_pages_exec(&hs, &set))
}

fn keep_pages_exec(hs: &Vec<PageHandle>, set: &Vec<ObjectId>) -> (r: Vec<PageHandle>)
    ensures
        r@ == keep_pages(hs@, set@.to_set()),
{
    let ghost s = set@.to_set();
    let mut out: Vec<PageHandle> = Vec::new();
    let mut i: usize = 0;
    assert(hs@.take(0) =~= Seq::<PageHandle>::empty());
    while i < hs.len()
        invariant
            s == set@.to_set(),
            i <= hs.len(),
            out@ == keep_pages(hs@.take(i as int), s),
        decreases hs.len() - i,
    {
        assert(hs@.take(i + 1).drop_last() =~= hs@.take(i as int));
        assert(hs@.take(i + 1).last() == hs@[i as int]);
        if contains_ids(set, hs[i].object_id) {
            out.push(hs[i]);
        }
        i += 1;
    }
    assert(hs@.take(hs.len() as int) =~= hs@);
    out
}


// ---------------------------------------------------------------------------
// Field summaries
// ---------------------------------------------------------------------------
/// A field summarised for reporting: its type with a leading `/`, its value
/// and default value as text, its flags, and its states when it has any.
#[derive(Debug, PartialEq, Eq)]
pub struct FieldInfo {
    pub field_type: Option<String>,
    pub value: Option<String>,
    pub default_value: Option<String>,
    pub flags: u32,
    pub states: Option<Vec<String>>,
}

/// The text of an optional value, as `field_value_to_string` gives it.
pub open spec fn value_string(v: Option<SValue>) -> Option<Seq<char>> {
    match v {
        Some(x) => Some(
            match value_text(Some(x)) {
                Some(t) => t,
                None => Seq::<char>::empty(),
            },
        ),
        None => None,
    }
}

fn slash_prefixed(s: &String) -> (r: String)
    ensures
        r@ == seq!['/'] + s@,
{
    let mut out: Vec<char> = Vec::new();
    out.push('/');
    let v = to_chars(s.as_str());
    append_chars(&mut out, v.as_slice());
    string_from_chars(out.as_slice())
}

fn copy_strings(v: &Vec<String>) -> (r: Vec<String>)
    ensures
        string_views(r@) == string_views(v@),
{
    let mut out: Vec<String> = Vec::new();
    let mut i: usize = 0;
    while i < v.len()
        invariant
            i <= v.len(),
            out@.len() == i,
            forall|j: int| 0 <= j < i ==> out@[j]@ == v@[j]@,
        decreases v.len() - i,
    {
        out.push(copy_string(&v[i]));
        i += 1;
    }
    assert(string_views(out@) =~= string_views(v@));
    out
}

fn optional_value_string(v: &Option<FieldValue>) -> (r: Option<String>)
    ensures
        opt_str(r) == value_string(opt_value_v(*v)),
{
    match v {
        Some(x) => Some(field_value_to_string(x)),
        None => None,
    }
}

/// The summary of a field.
pub fn serialize_field(field: &FormField) -> (r: FieldInfo)
    ensures
        opt_str(r.field_type) == (match field.sv().field_type {
            Some(t) => Some(seq!['/'] + t),
            None => None,
        }),
        opt_str(r.value) == value_string(field.sv().value),
        opt_str(r.default_value) == value_string(field.sv().default_value),
        r.flags == field.flags,
        field.states@.len() == 0 ==> r.states is None,
        field.states@.len() > 0 ==> (r.states matches Some(s) && string_views(s@) == field.sv().states),
{
    let field_type = match &field.field_type {
        Some(t) => Some(slash_prefixed(t)),
        None => None,
    };
    let states = if field.states.len() == 0 {
        None
    } else {
        Some(copy_strings(&field.states))
    };
    FieldInfo {
        field_type,
        value: optional_value_string(&field.value),
        default_value: optional_value_string(&field.default_value),
        flags: field.flags,
        states,
    }
}

} // verus!
