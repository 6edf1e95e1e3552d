//! Form-wide edits: grouping the top-level fields under a new name,
//! renaming the first top-level field, removing annotations, and attaching
//! widgets that are missing from `/Fields`.
use vstd::prelude::*;
use crate::access::{SOut, add_new_object, catalog_id, ensure_indirect_dictionary_entry, has_acroform, read_array_entry_clone, spec_add, spec_catalog_id, spec_ensure_indirect, spec_has_acroform, spec_read_array, spec_write, spec_write_array, write_array_entry, write_dict_object, write_obj};
use crate::error::{PdferError, SErr, res_id, res_v};
use crate::fields::{FormField, SField, build_form_field, contains_ids, spec_build_field};
use crate::keys::{k_acroform, k_annots, k_fields, k_ft, k_kids, k_parent, k_subtype, k_t, key_acroform, key_annots, key_fields, key_ft, key_kids, key_parent, key_subtype, key_t};
use crate::model::{ObjectId, PdfDict, PdfDocument, PdfObject, SDict, SDoc, SObj, StringFormat, lemma_array_obj_sv, lemma_dict_obj_sv, sd_has, sd_set, sdoc_get_dict, sv_seq};
use crate::objects::{DEPTH_BOUND, clone_items, deref_dict, deref_dictionary, dict_is_widget, dict_name, get_name, is_widget, kid_objects, kids_of, obj_ref, object_reference};
use crate::pages::{PageSelection, page_annotation_objects, selected_page_ids, spec_page_annots, spec_selected_page_ids};
use crate::text::{encode_pdf_text, slash_name, slashed, spec_encode_pdf_text, string_views};
use vstd::utf8::encode_utf8;

verus! {

broadcast use vstd::std_specs::vec::group_vec_axioms;

/// The view of an optional field.
pub open spec fn opt_field(f: Option<FormField>) -> Option<SField> {
    match f {
        Some(x) => Some(x.sv()),
        None => None,
    }
}

/// Getting the form of a document to edit it: `None` when there is no
/// interactive form or it has no `/Fields`; else the form's id (the form
/// dictionary made indirect) and its top-level fields.
#[verifier::opaque]
pub open spec fn spec_form_fields(doc: SDoc) -> SOut<Option<(ObjectId, Seq<SObj>)>> {
    match spec_has_acroform(doc) {
        Err(e) => (doc, Err(e)),
        Ok(false) => (doc, Ok(None)),
        Ok(true) => match spec_catalog_id(doc) {
            Err(e) => (doc, Err(e)),
            Ok(cat) => {
                let (d1, ar) = spec_ensure_indirect(doc, cat, k_acroform());
                match ar {
                    Err(e) => (d1, Err(e)),
                    Ok(acro_id) => match spec_read_array(d1, acro_id, k_fields()) {
                        Err(e) => (d1, Err(e)),
                        Ok(None) => (d1, Ok(None)),
                        Ok(Some(fs)) => (d1, Ok(Some((acro_id, fs)))),
                    },
                }
            },
        },
    }
}

fn form_fields(doc: &mut PdfDocument) -> (r: Result<Option<(ObjectId, Vec<PdfObject>)>, PdferError>)
    ensures
        (
            final(doc).sv(),
            res_v(
                r,
                |o: Option<(ObjectId, Vec<PdfObject>)>|
                    match o {
                        Some((a, v)) => Some((a, sv_seq(v@))),
                        None => None,
                    },
            ),
        ) == spec_form_fields(old(doc).sv()),
{
    reveal(spec_form_fields);
    if !has_acroform(doc)? {
        return Ok(None);
    }
    let cat = catalog_id(doc)?;
    let ka = key_acroform();
    let acro_id = ensure_indirect_dictionary_entry(doc, cat, ka.as_slice())?;
    let kf = key_fields();
    match read_array_entry_clone(doc, acro_id, kf.as_slice())? {
        None => Ok(None),
        Some(v) => Ok(Some((acro_id, v))),
    }
}

// ---------------------------------------------------------------------------
// Top-level names
// ---------------------------------------------------------------------------
/// Each referenced field among `children` gets `/Parent` pointing at
/// `parent`, one after the other.
pub open spec fn reparent(doc: SDoc, children: Seq<SObj>, parent: ObjectId) -> SOut<()>
    decreases children.len(),
{
    if children.len() == 0 {
        (doc, Ok(()))
    } else {
        let (d1, r1) = reparent(doc, children.drop_last(), parent);
        match r1 {
            Err(e) => (d1, Err(e)),
            Ok(_) => match obj_ref(children.last()) {
                None => (d1, Ok(())),
                Some(cid) => match sdoc_get_dict(d1, cid) {
                    Err(e) => (d1, Err(SErr::Lopdf(e))),
                    Ok(cd) => spec_write(
                        d1,
                        cid,
                        SObj::Dictionary(sd_set(cd, k_parent(), SObj::Reference(parent))),
                    ),
                },
            },
        }
    }
}

proof fn lemma_reparent_err(doc: SDoc, cs: Seq<SObj>, parent: ObjectId, i: int)
    requires
        0 <= i < cs.len(),
        reparent(doc, cs.take(i + 1), parent).1 is Err,
    ensures
        reparent(doc, cs, parent) == reparent(doc, cs.take(i + 1), parent),
    decreases cs.len() - i,
{
    if i + 1 == cs.len() {
        assert(cs.take(i + 1) =~= cs);
    } else {
        assert(cs.take(i + 2).drop_last() =~= cs.take(i + 1));
        lemma_reparent_err(doc, cs, parent, i + 1);
    }
}

fn reparent_exec(doc: &mut PdfDocument, children: &Vec<PdfObject>, parent: ObjectId) -> (r: Result<
    (),
    PdferError,
>)
    ensures
        (final(doc).sv(), res_id(r)) == reparent(old(doc).sv(), sv_seq(children@), parent),
{
    let ghost cs = sv_seq(children@);
    let ghost d0 = doc.sv();
    let mut i: usize = 0;
    assert(cs.take(0) =~= Seq::<SObj>::empty());
    while i < children.len()
        invariant
            i <= children.len(),
            cs == sv_seq(children@),
            d0 == old(doc).sv(),
            reparent(d0, cs.take(i as int), parent) == (doc.sv(), Ok::<(), SErr>(())),
        decreases children.len() - i,
    {
        assert(cs.take(i + 1).drop_last() =~= cs.take(i as int));
        assert(cs.take(i + 1).last() == children@[i as int].sv());
        match object_reference(&children[i]) {
            None => {},
            Some(cid) => {
                let mut cd = match doc.get_dictionary(cid) {
                    Err(e) => {
                        proof {
                            lemma_reparent_err(d0, cs, parent, i as int);
                        }
                        return Err(PdferError::Lopdf(e));
                    },
                    Ok(d) => d.deep_clone(),
                };
                cd.set(key_parent(), PdfObject::Reference(parent));
                match write_dict_object(doc, cid, cd) {
                    Ok(()) => {},
                    Err(e) => {
                        proof {
                            lemma_reparent_err(d0, cs, parent, i as int);
                        }
                        return Err(e);
                    },
                }
            },
        }
        i += 1;
    }
    assert(cs.take(children.len() as int) =~= cs);
    Ok(())
}

/// The text string object holding `name`.
pub open spec fn name_text(name: Seq<char>) -> SObj {
    SObj::Str(spec_encode_pdf_text(name), StringFormat::Hexadecimal)
}

/// Grouping the top-level fields under a new field named `name`: a new
/// field with that `/T` and the old top-level fields as `/Kids` becomes the
/// only top-level field, and each old top-level field points at it as its
/// `/Parent`. The new field is returned; `None` when there is no form or it
/// has no `/Fields`.
pub open spec fn spec_add_form_topname(doc: SDoc, name: Seq<char>) -> SOut<Option<SField>> {
    let (d1, fr) = spec_form_fields(doc);
    match fr {
        Err(e) => (d1, Err(e)),
        Ok(None) => (d1, Ok(None)),
        Ok(Some((acro_id, existing))) => {
            let interim = sd_set(sd_set(seq![], k_t(), name_text(name)), k_kids(), SObj::Array(existing));
            let (d2, ar) = spec_add(d1, SObj::Dictionary(interim));
            match ar {
                Err(e) => (d2, Err(e)),
                Ok(iid) => match sdoc_get_dict(d2, acro_id) {
                    Err(e) => (d2, Err(SErr::Lopdf(e))),
                    Ok(acro) => {
                        let (d3, w) = spec_write(
                            d2,
                            acro_id,
                            SObj::Dictionary(
                                sd_set(acro, k_fields(), SObj::Array(seq![SObj::Reference(iid)])),
                            ),
                        );
                        match w {
                            Err(e) => (d3, Err(e)),
                            Ok(_) => {
                                let (d4, pr) = reparent(d3, existing, iid);
                                match pr {
                                    Err(e) => (d4, Err(e)),
                                    Ok(_) => match sdoc_get_dict(d4, iid) {
                                        Err(e) => (d4, Err(SErr::Lopdf(e))),
                                        Ok(idict) => match spec_build_field(d4, Some(iid), idict) {
                                            Err(e) => (d4, Err(e)),
                                            Ok(f) => (d4, Ok(Some(f))),
                                        },
                                    },
                                }
                            },
                        }
                    },
                },
            }
        },
    }
}

/// Groups the top-level fields under a new field named `name`.
pub fn add_form_topname(doc: &mut PdfDocument, name: &str) -> (r: Result<
    Option<FormField>,
    PdferError,
>)
    ensures
        (final(doc).sv(), res_v(r, |o: Option<FormField>| opt_field(o))) == spec_add_form_topname(
            old(doc).sv(),
            name@,
        ),
{
    let (acro_id, existing) = match form_fields(doc)? {
        None => {
            return Ok(None);
        },
        Some(p) => p,
    };
    let mut interim = PdfDict::new();
    interim.set(key_t(), PdfObject::Str(encode_pdf_text(name), StringFormat::Hexadecimal));
    let kids = clone_items(&existing);
    proof {
        lemma_array_obj_sv(kids);
    }
    interim.set(key_kids(), PdfObject::Array(kids));
    proof {
        lemma_dict_obj_sv(interim);
    }
    let iid = add_new_object(doc, PdfObject::Dictionary(interim))?;
    let mut acro = match doc.get_dictionary(acro_id) {
        Err(e) => {
            return Err(PdferError::Lopdf(e));
        },
        Ok(d) => d.deep_clone(),
    };
    let top = vec![PdfObject::Reference(iid)];
    proof {
        lemma_array_obj_sv(top);
        assert(sv_seq(top@) =~= seq![SObj::Reference(iid)]);
    }
    acro.set(key_fields(), PdfObject::Array(top));
    write_dict_object(doc, acro_id, acro)?;
    reparent_exec(doc, &existing, iid)?;
    let idict = match doc.get_dictionary(iid) {
        Err(e) => {
            return Err(PdferError::Lopdf(e));
        },
        Ok(d) => d.deep_clone(),
    };
    let f = build_form_field(doc, Some(iid), &idict)?;
    Ok(Some(f))
}

/// Renaming the first top-level field: its `/T` becomes `name`; the renamed
/// field is returned. `None` when there is no form, it has no `/Fields`, or
/// its first top-level field is missing or not a reference.
pub open spec fn spec_rename_form_topname(doc: SDoc, name: Seq<char>) -> SOut<Option<SField>> {
    let (d1, fr) = spec_form_fields(doc);
    match fr {
        Err(e) => (d1, Err(e)),
        Ok(None) => (d1, Ok(None)),
        Ok(Some((_, fs))) => if fs.len() == 0 {
            (d1, Ok(None))
        } else {
            match obj_ref(fs[0]) {
                None => (d1, Ok(None)),
                Some(fid) => match sdoc_get_dict(d1, fid) {
                    Err(e) => (d1, Err(SErr::Lopdf(e))),
                    Ok(fd) => {
                        let fd2 = sd_set(fd, k_t(), name_text(name));
                        let (d2, w) = spec_write(d1, fid, SObj::Dictionary(fd2));
                        match w {
                            Err(e) => (d2, Err(e)),
                            Ok(_) => match spec_build_field(d2, Some(fid), fd2) {
                                Err(e) => (d2, Err(e)),
                                Ok(f) => (d2, Ok(Some(f))),
                            },
                        }
                    },
                },
            }
        },
    }
}

/// Renames the first top-level field.
#[verifier::rlimit(40)]
pub fn rename_form_topname(doc: &mut PdfDocument, name: &str) -> (r: Result<
    Option<FormField>,
    PdferError,
>)
    ensures
        (final(doc).sv(), res_v(r, |o: Option<FormField>| opt_field(o)))
            == spec_rename_form_topname(old(doc).sv(), name@),
{
    let (_, fields) = match form_fields(doc)? {
        None => {
            return Ok(None);
        },
        Some(p) => p,
    };
    if fields.len() == 0 {
        return Ok(None);
    }
    let fid = match object_reference(&fields[0]) {
        None => {
            return Ok(None);
        },
        Some(id) => id,
    };
    let mut fd = match doc.get_dictionary(fid) {
        Err(e) => {
            return Err(PdferError::Lopdf(e));
        },
        Ok(d) => d.deep_clone(),
    };
    fd.set(key_t(), PdfObject::Str(encode_pdf_text(name), StringFormat::Hexadecimal));
    write_dict_object(doc, fid, fd.deep_clone())?;
    let f = build_form_field(doc, Some(fid), &fd)?;
    Ok(Some(f))
}

// ---------------------------------------------------------------------------
// Removing annotations
// ---------------------------------------------------------------------------
/// The subtype of an annotation as a name with one leading slash; empty
/// when it has none.
pub open spec fn subtype_of(d: SDict) -> Seq<char> {
    match dict_name(d, k_subtype()) {
        Some(n) => slashed(n),
        None => seq![],
    }
}

/// An annotation of this subtype is removed: every annotation when no
/// subtypes are given, else those whose subtype is one of them (leading
/// slashes ignored).
pub open spec fn removes(subtypes: Option<Seq<Seq<char>>>, st: Seq<char>) -> bool {
    match subtypes {
        None => true,
        Some(l) => in_slashed(l, st),
    }
}

/// `st` is one of the names `l`, leading slashes ignored.
pub open spec fn in_slashed(l: Seq<Seq<char>>, st: Seq<char>) -> bool {
    exists|i: int| 0 <= i < l.len() && #[trigger] slashed(l[i]) == st
}

/// The views of optional subtypes.
pub open spec fn subtypes_v(s: Option<&Vec<String>>) -> Option<Seq<Seq<char>>> {
    match s {
        Some(v) => Some(string_views(v@)),
        None => None,
    }
}

/// The first `k` annotations of a page examined: an annotation that is not
/// a dictionary is dropped; one to be removed is dropped and, when it is an
/// indirect object, overwritten with null; the others are kept, in order.
#[verifier::opaque]
pub open spec fn remove_walk(
    doc: SDoc,
    annots: Seq<SObj>,
    k: nat,
    subtypes: Option<Seq<Seq<char>>>,
) -> SOut<Seq<SObj>>
    decreases k,
{
    if k == 0 {
        (doc, Ok(seq![]))
    } else {
        let (d1, r1) = remove_walk(doc, annots, (k - 1) as nat, subtypes);
        match r1 {
            Err(e) => (d1, Err(e)),
            Ok(kept) => {
                let a = annots[k - 1];
                match deref_dict(d1, a) {
                    Err(_) => (d1, Ok(kept)),
                    Ok(ad) => if removes(subtypes, subtype_of(ad)) {
                        match obj_ref(a) {
                            Some(aid) => {
                                let (d2, w) = spec_write(d1, aid, SObj::Null);
                                match w {
                                    Err(e) => (d2, Err(e)),
                                    Ok(_) => (d2, Ok(kept)),
                                }
                            },
                            None => (d1, Ok(kept)),
                        }
                    } else {
                        (d1, Ok(kept.push(a)))
                    },
                }
            },
        }
    }
}

proof fn lemma_remove_walk_err(
    doc: SDoc,
    annots: Seq<SObj>,
    i: nat,
    k: nat,
    subtypes: Option<Seq<Seq<char>>>,
)
    requires
        i <= k,
        remove_walk(doc, annots, i, subtypes).1 is Err,
    ensures
        remove_walk(doc, annots, k, subtypes) == remove_walk(doc, annots, i, subtypes),
    decreases k,
{
    reveal(remove_walk);
    if i < k {
        lemma_remove_walk_err(doc, annots, i, (k - 1) as nat, subtypes);
    }
}

/// Removing the chosen annotations of one page: the kept ones are written
/// back as its `/Annots` (nothing is done for a page without annotations).
#[verifier::opaque]
pub open spec fn remove_on_page(doc: SDoc, page_id: ObjectId, subtypes: Option<Seq<Seq<char>>>) -> SOut<
    (),
> {
    match spec_page_annots(doc, page_id) {
        Err(e) => (doc, Err(e)),
        Ok(annots) => if annots.len() == 0 {
            (doc, Ok(()))
        } else {
            let (d1, r) = remove_walk(doc, annots, annots.len(), subtypes);
            match r {
                Err(e) => (d1, Err(e)),
                Ok(kept) => spec_write_array(d1, page_id, k_annots(), kept),
            }
        },
    }
}

/// Removing the chosen annotations from the first `k` pages, in order.
#[verifier::opaque]
pub open spec fn remove_pages(
    doc: SDoc,
    pages: Seq<ObjectId>,
    k: nat,
    subtypes: Option<Seq<Seq<char>>>,
) -> SOut<()>
    decreases k,
{
    if k == 0 {
        (doc, Ok(()))
    } else {
        let (d1, r1) = remove_pages(doc, pages, (k - 1) as nat, subtypes);
        match r1 {
            Err(e) => (d1, Err(e)),
            Ok(_) => remove_on_page(d1, pages[k - 1], subtypes),
        }
    }
}

proof fn lemma_remove_pages_err(
    doc: SDoc,
    pages: Seq<ObjectId>,
    i: nat,
    k: nat,
    subtypes: Option<Seq<Seq<char>>>,
)
    requires
        i <= k,
        remove_pages(doc, pages, i, subtypes).1 is Err,
    ensures
        remove_pages(doc, pages, k, subtypes) == remove_pages(doc, pages, i, subtypes),
    decreases k,
{
    reveal(remove_pages);
    if i < k {
        lemma_remove_pages_err(doc, pages, i, (k - 1) as nat, subtypes);
    }
}

/// Removing the annotations of the given subtypes (all annotations when
/// none are given) from every page.
pub open spec fn spec_remove_annotations(doc: SDoc, subtypes: Option<Seq<Seq<char>>>) -> SOut<()> {
    remove_pages(doc, doc.pages, doc.pages.len(), subtypes)
}

fn subtype_text(d: &PdfDict) -> (r: String)
    ensures
        r@ == subtype_of(d.sv()),
{
    let k = key_subtype();
    match get_name(d, k.as_slice()) {
        Some(n) => slash_name(n.as_str()),
        None => String::new(),
    }
}

fn removes_exec(subtypes: Option<&Vec<String>>, st: &String) -> (r: bool)
    ensures
        r == removes(subtypes_v(subtypes), st@),
{
    match subtypes {
        None => true,
        Some(l) => {
            let mut i: usize = 0;
            while i < l.len()
                invariant
                    i <= l.len(),
                    subtypes_v(subtypes) == Some(string_views(l@)),
                    forall|j: int| 0 <= j < i ==> slashed(string_views(l@)[j]) != st@,
                decreases l.len() - i,
            {
                let c = slash_name(l[i].as_str());
                assert(string_views(l@)[i as int] == l@[i as int]@);
                if c == *st {
                    let ghost sl = string_views(l@);
                    assert(0 <= i < sl.len() && slashed(sl[i as int]) == st@);
                    assert(in_slashed(sl, st@));
                    return true;
                }
                i += 1;
            }
            false
        },
    }
}

fn remove_on_page_exec(doc: &mut PdfDocument, page_id: ObjectId, subtypes: Option<&Vec<String>>) -> (r:
    Result<(), PdferError>)
    ensures
        (final(doc).sv(), res_id(r)) == remove_on_page(old(doc).sv(), page_id, subtypes_v(subtypes)),
{
    reveal(remove_on_page);
    let annotations = page_annotation_objects(doc, page_id)?;
    if annotations.len() == 0 {
        return Ok(());
    }
    let ghost an = sv_seq(annotations@);
    let ghost sv = subtypes_v(subtypes);
    let ghost d0 = doc.sv();
    let mut kept: Vec<PdfObject> = Vec::new();
    let mut i: usize = 0;
    proof {
        reveal(remove_walk);
        assert(sv_seq(kept@) =~= seq![]);
    }
    while i < annotations.len()
        invariant
            i <= annotations.len(),
            an == sv_seq(annotations@),
            sv == subtypes_v(subtypes),
            d0 == old(doc).sv(),
            spec_page_annots(d0, page_id) == Ok::<Seq<SObj>, SErr>(an),
            an.len() > 0,
            remove_walk(d0, an, i as nat, sv) == (doc.sv(), Ok::<Seq<SObj>, SErr>(sv_seq(kept@))),
        decreases annotations.len() - i,
    {
        proof {
            reveal(remove_walk);
            reveal(remove_on_page);
        }
        let a = &annotations[i];
        let ghost before = sv_seq(kept@);
        match deref_dictionary(doc, a) {
            Err(_) => {},
            Ok(ad) => {
                let st = subtype_text(&ad);
                if removes_exec(subtypes, &st) {
                    match object_reference(a) {
                        Some(aid) => {
                            match write_obj(doc, aid, PdfObject::Null) {
                                Ok(()) => {},
                                Err(e) => {
                                    proof {
                                        lemma_remove_walk_err(
                                            d0,
                                            an,
                                            (i + 1) as nat,
                                            annotations.len() as nat,
                                            sv,
                                        );
                                    }
                                    return Err(e);
                                },
                            }
                        },
                        None => {},
                    }
                } else {
                    kept.push(a.deep_clone());
                    assert(sv_seq(kept@) =~= before.push(an[i as int]));
                }
            },
        }
        i += 1;
    }
    let kp = key_annots();
    write_array_entry(doc, page_id, kp.as_slice(), kept)
}

/// Removes the annotations of the given subtypes (all annotations when none
/// are given) from every page.
pub fn remove_annotations(doc: &mut PdfDocument, subtypes: Option<&Vec<String>>) -> (r: Result<
    (),
    PdferError,
>)
    ensures
        (final(doc).sv(), res_id(r)) == spec_remove_annotations(old(doc).sv(), subtypes_v(subtypes)),
{
    let pages = page_ids_of(doc);
    let ghost d0 = doc.sv();
    let ghost sv = subtypes_v(subtypes);
    let mut i: usize = 0;
    proof {
        reveal(remove_pages);
    }
    while i < pages.len()
        invariant
            i <= pages.len(),
            pages@ == d0.pages,
            d0 == old(doc).sv(),
            sv == subtypes_v(subtypes),
            remove_pages(d0, pages@, i as nat, sv) == (doc.sv(), Ok::<(), SErr>(())),
        decreases pages.len() - i,
    {
        proof {
            reveal(remove_pages);
        }
        match remove_on_page_exec(doc, pages[i], subtypes) {
            Ok(()) => {},
            Err(e) => {
                proof {
                    lemma_remove_pages_err(d0, pages@, (i + 1) as nat, pages.len() as nat, sv);
                }
                return Err(e);
            },
        }
        i += 1;
    }
    Ok(())
}

/// The page ids of the document, in page order.
fn page_ids_of(doc: &PdfDocument) -> (r: Vec<ObjectId>)
    ensures
        r@ == doc.sv().pages,
{
    let mut v: Vec<ObjectId> = Vec::new();
    let mut i: usize = 0;
    while i < doc.pages.len()
        invariant
            i <= doc.pages.len(),
            v@ == doc.pages@.take(i as int),
        decreases doc.pages.len() - i,
    {
        v.push(doc.pages[i]);
        assert(doc.pages@.take(i + 1) =~= doc.pages@.take(i as int).push(doc.pages@[i as int]));
        i += 1;
    }
    assert(doc.pages@.take(doc.pages.len() as int) =~= doc.pages@);
    v
}

// ---------------------------------------------------------------------------
// Reattaching widgets
// ---------------------------------------------------------------------------
/// The ids met walking from `obj` down the `/Kids` arrays (depth first),
/// added to `visited` in the order met; an id met before is not walked
/// again, and what is not a dictionary has no kids.
#[verifier::opaque]
pub open spec fn reach(doc: SDoc, obj: SObj, visited: Seq<ObjectId>, fuel: nat) -> Seq<ObjectId>
    decreases fuel, 0nat,
{
    let id = obj_ref(obj);
    if id is Some && visited.contains(id->0) {
        visited
    } else {
        let v1 = if id is Some {
            visited.push(id->0)
        } else {
            visited
        };
        match deref_dict(doc, obj) {
            Err(_) => v1,
            Ok(d) => if fuel == 0 {
                v1
            } else {
                reach_list(doc, kid_objects(doc, d), v1, (fuel - 1) as nat)
            },
        }
    }
}

/// The ids met walking from each of `objs` in turn.
#[verifier::opaque]
pub open spec fn reach_list(doc: SDoc, objs: Seq<SObj>, visited: Seq<ObjectId>, fuel: nat) -> Seq<
    ObjectId,
>
    decreases fuel, objs.len() + 1,
{
    if objs.len() == 0 {
        visited
    } else {
        reach(doc, objs.last(), reach_list(doc, objs.drop_last(), visited, fuel), fuel)
    }
}

fn reach_rec(doc: &PdfDocument, obj: &PdfObject, visited: &mut Vec<ObjectId>, fuel: u64)
    ensures
        final(visited)@ == reach(doc.sv(), obj.sv(), old(visited)@, fuel as nat),
    decreases fuel, 0nat,
{
    reveal(reach);
    reveal(reach_list);
    let id = object_reference(obj);
    match id {
        Some(i) => {
            if contains_ids(visited, i) {
                return ;
            }
            visited.push(i);
        },
        None => {},
    }
    let d = match deref_dictionary(doc, obj) {
        Ok(d) => d,
        Err(_) => {
            return ;
        },
    };
    if fuel == 0 {
        return ;
    }
    let kids = kids_of(doc, &d);
    reach_list_exec(doc, &kids, visited, fuel - 1);
}

proof fn lemma_reach_list_step(doc: SDoc, os: Seq<SObj>, v0: Seq<ObjectId>, fuel: nat, i: int)
    requires
        0 <= i < os.len(),
    ensures
        reach_list(doc, os.take(i + 1), v0, fuel) == reach(
            doc,
            os[i],
            reach_list(doc, os.take(i), v0, fuel),
            fuel,
        ),
{
    reveal(reach);
    reveal(reach_list);
    assert(os.take(i + 1).drop_last() =~= os.take(i));
    assert(os.take(i + 1).last() == os[i]);
}

fn reach_list_exec(doc: &PdfDocument, objs: &Vec<PdfObject>, visited: &mut Vec<ObjectId>, fuel: u64)
    ensures
        final(visited)@ == reach_list(doc.sv(), sv_seq(objs@), old(visited)@, fuel as nat),
    decreases fuel, objs.len() + 1,
{
    let ghost os = sv_seq(objs@);
    let ghost v0 = visited@;
    let mut i: usize = 0;
    assert(os.take(0) =~= Seq::<SObj>::empty());
    assert(reach_list(doc.sv(), os.take(0), v0, fuel as nat) == v0) by {
        reveal(reach);
        reveal(reach_list);
    }
    while i < objs.len()
        invariant
            i <= objs.len(),
            os == sv_seq(objs@),
            v0 == old(visited)@,
            reach_list(doc.sv(), os.take(i as int), v0, fuel as nat) == visited@,
        decreases objs.len() - i,
    {
        proof {
            lemma_reach_list_step(doc.sv(), os, v0, fuel as nat, i as int);
        }
        reach_rec(doc, &objs[i], visited, fuel);
        i += 1;
    }
    assert(os.take(objs.len() as int) =~= os);
}

/// The state of a reattachment: the document, the ids already in the field
/// tree, the top-level fields, and the fields attached so far.
pub struct RState {
    pub doc: SDoc,
    pub existing: Seq<ObjectId>,
    pub fields: Seq<SObj>,
    pub out: Seq<SField>,
}

/// A widget annotation (id `id`, dictionary `d`) that has a field type and
/// is not yet in the field tree is added to the top-level fields and
/// reported.
#[verifier::opaque]
pub open spec fn reattach_widget(st: RState, id: ObjectId, d: SDict) -> (RState, Result<(), SErr>) {
    if !is_widget(d) || !sd_has(d, k_ft()) || st.existing.contains(id) {
        (st, Ok(()))
    } else {
        let st1 = RState {
            existing: st.existing.push(id),
            fields: st.fields.push(SObj::Reference(id)),
            ..st
        };
        match spec_build_field(st.doc, Some(id), d) {
            Err(e) => (st1, Err(e)),
            Ok(f) => (RState { out: st1.out.push(f), ..st1 }, Ok(())),
        }
    }
}

/// The state of one page's walk: the reattachment state, the page's
/// annotations as rewritten so far, and whether any was rewritten.
pub struct PState {
    pub r: RState,
    pub rewritten: Seq<SObj>,
    pub changed: bool,
}

/// One annotation of a page: a reference is kept; a direct dictionary is
/// added as a new object and replaced by a reference to it; anything else
/// is dropped. A widget with a field type that is not in the field tree is
/// attached.
#[verifier::opaque]
pub open spec fn reattach_annot(ps: PState, a: SObj) -> (PState, Result<(), SErr>) {
    match a {
        SObj::Reference(id) => match sdoc_get_dict(ps.r.doc, id) {
            Err(e) => (ps, Err(SErr::Lopdf(e))),
            Ok(d) => {
                let (r1, res) = reattach_widget(ps.r, id, d);
                (PState { r: r1, rewritten: ps.rewritten.push(SObj::Reference(id)), changed: ps.changed }, res)
            },
        },
        SObj::Dictionary(d) => {
            let (d1, ar) = spec_add(ps.r.doc, SObj::Dictionary(d));
            let r0 = RState { doc: d1, ..ps.r };
            match ar {
                Err(e) => (PState { r: r0, ..ps }, Err(e)),
                Ok(id) => {
                    let (r1, res) = reattach_widget(r0, id, d);
                    (PState { r: r1, rewritten: ps.rewritten.push(SObj::Reference(id)), changed: true }, res)
                },
            }
        },
        _ => (ps, Ok(())),
    }
}

/// The first `k` annotations of a page, one after the other.
#[verifier::opaque]
pub open spec fn reattach_annots(ps: PState, annots: Seq<SObj>, k: nat) -> (PState, Result<(), SErr>)
    decreases k,
{
    if k == 0 {
        (ps, Ok(()))
    } else {
        let (p1, r1) = reattach_annots(ps, annots, (k - 1) as nat);
        match r1 {
            Err(e) => (p1, Err(e)),
            Ok(_) => reattach_annot(p1, annots[k - 1]),
        }
    }
}

proof fn lemma_reattach_annots_err(ps: PState, annots: Seq<SObj>, i: nat, k: nat)
    requires
        i <= k,
        reattach_annots(ps, annots, i).1 is Err,
    ensures
        reattach_annots(ps, annots, k) == reattach_annots(ps, annots, i),
    decreases k,
{
    reveal(reattach_annots);
    if i < k {
        lemma_reattach_annots_err(ps, annots, i, (k - 1) as nat);
    }
}

/// One page: its annotations are walked; when any was rewritten the
/// rewritten list becomes its `/Annots`.
#[verifier::opaque]
pub open spec fn reattach_page(st: RState, page_id: ObjectId) -> (RState, Result<(), SErr>) {
    match spec_page_annots(st.doc, page_id) {
        Err(e) => (st, Err(e)),
        Ok(annots) => if annots.len() == 0 {
            (st, Ok(()))
        } else {
            let (p1, r) = reattach_annots(
                PState { r: st, rewritten: seq![], changed: false },
                annots,
                annots.len(),
            );
            match r {
                Err(e) => (p1.r, Err(e)),
                Ok(_) => if p1.changed {
                    let (d2, w) = spec_write_array(p1.r.doc, page_id, k_annots(), p1.rewritten);
                    (RState { doc: d2, ..p1.r }, w)
                } else {
                    (p1.r, Ok(()))
                },
            }
        },
    }
}

/// The first `k` pages, one after the other.
#[verifier::opaque]
pub open spec fn reattach_pages(st: RState, pages: Seq<ObjectId>, k: nat) -> (RState, Result<(), SErr>)
    decreases k,
{
    if k == 0 {
        (st, Ok(()))
    } else {
        let (s1, r1) = reattach_pages(st, pages, (k - 1) as nat);
        match r1 {
            Err(e) => (s1, Err(e)),
            Ok(_) => reattach_page(s1, pages[k - 1]),
        }
    }
}

proof fn lemma_reattach_pages_err(st: RState, pages: Seq<ObjectId>, i: nat, k: nat)
    requires
        i <= k,
        reattach_pages(st, pages, i).1 is Err,
    ensures
        reattach_pages(st, pages, k) == reattach_pages(st, pages, i),
    decreases k,
{
    reveal(reattach_pages);
    if i < k {
        lemma_reattach_pages_err(st, pages, i, (k - 1) as nat);
    }
}

/// Reattaching widgets: on the selected pages (all pages when none are
/// selected), every widget annotation that has a field type and is not
/// already in the field tree (a top-level field or a descendant through
/// `/Kids`) is appended to the top-level fields; direct annotation
/// dictionaries are made indirect on the way. The attached fields are
/// returned.
#[verifier::opaque]
pub open spec fn spec_reattach(doc: SDoc, sel: Option<PageSelection>) -> SOut<Seq<SField>> {
    let selr = match sel {
        Some(s) => spec_selected_page_ids(doc, s),
        None => Ok(doc.pages),
    };
    match selr {
        Err(e) => (doc, Err(e)),
        Ok(pages) => match spec_catalog_id(doc) {
            Err(e) => (doc, Err(e)),
            Ok(cat) => {
                let (d1, ar) = spec_ensure_indirect(doc, cat, k_acroform());
                match ar {
                    Err(e) => (d1, Err(e)),
                    Ok(acro_id) => match spec_read_array(d1, acro_id, k_fields()) {
                        Err(e) => (d1, Err(e)),
                        Ok(fo) => {
                            let fields = match fo {
                                Some(f) => f,
                                None => seq![],
                            };
                            let existing = reach_list(d1, fields, seq![], DEPTH_BOUND as nat);
                            let (s1, r) = reattach_pages(
                                RState { doc: d1, existing, fields, out: seq![] },
                                pages,
                                pages.len(),
                            );
                            match r {
                                Err(e) => (s1.doc, Err(e)),
                                Ok(_) => {
                                    let (d2, w) = spec_write_array(
                                        s1.doc,
                                        acro_id,
                                        k_fields(),
                                        s1.fields,
                                    );
                                    match w {
                                        Err(e) => (d2, Err(e)),
                                        Ok(_) => (d2, Ok(s1.out)),
                                    }
                                },
                            }
                        },
                    },
                }
            },
        },
    }
}

/// The exec state of a reattachment.
struct Reattach {
    existing: Vec<ObjectId>,
    fields: Vec<PdfObject>,
    out: Vec<FormField>,
}

impl Reattach {
    spec fn sv(self, doc: SDoc) -> RState {
        RState {
            doc,
            existing: self.existing@,
            fields: sv_seq(self.fields@),
            out: self.out@.map_values(|f: FormField| f.sv()),
        }
    }
}

#[verifier::rlimit(40)]
fn reattach_widget_exec(doc: &PdfDocument, st: &mut Reattach, id: ObjectId, d: &PdfDict) -> (r: Result<
    (),
    PdferError,
>)
    ensures
        (final(st).sv(doc.sv()), res_id(r)) == reattach_widget(old(st).sv(doc.sv()), id, d.sv()),
{
    reveal(reattach_widget);
    let kft = key_ft();
    if !dict_is_widget(d) || !d.has(kft.as_slice()) || contains_ids(&st.existing, id) {
        return Ok(());
    }
    let ghost f0 = sv_seq(st.fields@);
    st.existing.push(id);
    st.fields.push(PdfObject::Reference(id));
    assert(sv_seq(st.fields@) =~= f0.push(SObj::Reference(id)));
    let f = build_form_field(doc, Some(id), d)?;
    let ghost o0 = st.out@.map_values(|f: FormField| f.sv());
    let ghost fv = f.sv();
    st.out.push(f);
    assert(st.out@.map_values(|f: FormField| f.sv()) =~= o0.push(fv));
    Ok(())
}

fn reattach_annot_exec(
    doc: &mut PdfDocument,
    st: &mut Reattach,
    rewritten: &mut Vec<PdfObject>,
    changed: &mut bool,
    a: &PdfObject,
) -> (r: Result<(), PdferError>)
    ensures
        (
            PState {
                r: final(st).sv(final(doc).sv()),
                rewritten: sv_seq(final(rewritten)@),
                changed: *final(changed),
            },
            res_id(r),
        ) == reattach_annot(
            PState {
                r: old(st).sv(old(doc).sv()),
                rewritten: sv_seq(old(rewritten)@),
                changed: *old(changed),
            },
            a.sv(),
        ),
{
    reveal(reattach_annot);
    let ghost rw0 = sv_seq(rewritten@);
    match a {
        PdfObject::Reference(id) => {
            let d = match doc.get_dictionary(*id) {
                Err(e) => {
                    return Err(PdferError::Lopdf(e));
                },
                Ok(d) => d.deep_clone(),
            };
            rewritten.push(PdfObject::Reference(*id));
            assert(sv_seq(rewritten@) =~= rw0.push(SObj::Reference(*id)));
            reattach_widget_exec(doc, st, *id, &d)
        },
        PdfObject::Dictionary(d) => {
            proof {
                lemma_dict_obj_sv(*d);
            }
            let dc = d.deep_clone();
            proof {
                lemma_dict_obj_sv(dc);
            }
            let id = add_new_object(doc, PdfObject::Dictionary(dc))?;
            rewritten.push(PdfObject::Reference(id));
            assert(sv_seq(rewritten@) =~= rw0.push(SObj::Reference(id)));
            *changed = true;
            reattach_widget_exec(doc, st, id, d)
        },
        _ => Ok(()),
    }
}

fn reattach_page_exec(doc: &mut PdfDocument, st: &mut Reattach, page_id: ObjectId) -> (r: Result<
    (),
    PdferError,
>)
    ensures
        (final(st).sv(final(doc).sv()), res_id(r)) == reattach_page(old(st).sv(old(doc).sv()), page_id),
{
    reveal(reattach_page);
    let annotations = page_annotation_objects(doc, page_id)?;
    if annotations.len() == 0 {
        return Ok(());
    }
    let ghost an = sv_seq(annotations@);
    let ghost p0 = PState { r: st.sv(doc.sv()), rewritten: seq![], changed: false };
    let ghost s0 = st.sv(doc.sv());
    let mut rewritten: Vec<PdfObject> = Vec::new();
    let mut changed = false;
    let mut i: usize = 0;
    proof {
        reveal(reattach_annots);
        assert(sv_seq(rewritten@) =~= seq![]);
    }
    while i < annotations.len()
        invariant
            i <= annotations.len(),
            an == sv_seq(annotations@),
            an.len() > 0,
            s0 == old(st).sv(old(doc).sv()),
            spec_page_annots(s0.doc, page_id) == Ok::<Seq<SObj>, SErr>(an),
            p0 == (PState { r: s0, rewritten: seq![], changed: false }),
            reattach_annots(p0, an, i as nat) == (
                PState { r: st.sv(doc.sv()), rewritten: sv_seq(rewritten@), changed },
                Ok::<(), SErr>(()),
            ),
        decreases annotations.len() - i,
    {
        proof {
            reveal(reattach_annots);
            reveal(reattach_page);
        }
        match reattach_annot_exec(doc, st, &mut rewritten, &mut changed, &annotations[i]) {
            Ok(()) => {},
            Err(e) => {
                proof {
                    lemma_reattach_annots_err(p0, an, (i + 1) as nat, annotations.len() as nat);
                }
                return Err(e);
            },
        }
        i += 1;
    }
    if changed {
        let ka = key_annots();
        write_array_entry(doc, page_id, ka.as_slice(), rewritten)?;
    }
    Ok(())
}

fn selection_or_all(doc: &PdfDocument, sel: Option<PageSelection>) -> (r: Result<
    Vec<ObjectId>,
    PdferError,
>)
    ensures
        res_v(r, |v: Vec<ObjectId>| v@) == match sel {
            Some(s) => spec_selected_page_ids(doc.sv(), s),
            None => Ok(doc.sv().pages),
        },
{
    match sel {
        Some(s) => selected_page_ids(doc, s),
        None => Ok(page_ids_of(doc)),
    }
}

fn reattach_all_pages(doc: &mut PdfDocument, st: &mut Reattach, pages: &Vec<ObjectId>) -> (r:
    Result<(), PdferError>)
    ensures
        (final(st).sv(final(doc).sv()), res_id(r)) == reattach_pages(
            old(st).sv(old(doc).sv()),
            pages@,
            pages.len() as nat,
        ),
{
    let ghost s0 = st.sv(doc.sv());
    let mut i: usize = 0;
    proof {
        reveal(reattach_pages);
    }
    while i < pages.len()
        invariant
            i <= pages.len(),
            s0 == old(st).sv(old(doc).sv()),
            reattach_pages(s0, pages@, i as nat) == (st.sv(doc.sv()), Ok::<(), SErr>(())),
        decreases pages.len() - i,
    {
        proof {
            reveal(reattach_pages);
        }
        match reattach_page_exec(doc, st, pages[i]) {
            Ok(()) => {},
            Err(e) => {
                proof {
                    lemma_reattach_pages_err(s0, pages@, (i + 1) as nat, pages.len() as nat);
                }
                return Err(e);
            },
        }
        i += 1;
    }
    Ok(())
}

/// Attaches widgets that are missing from the field tree; the attached
/// fields.
pub fn reattach_fields(doc: &mut PdfDocument, sel: Option<PageSelection>) -> (r: Result<
    Vec<FormField>,
    PdferError,
>)
    ensures
        (final(doc).sv(), res_v(r, |v: Vec<FormField>| v@.map_values(|f: FormField| f.sv())))
            == spec_reattach(old(doc).sv(), sel),
{
    reveal(spec_reattach);
    let pages = selection_or_all(doc, sel)?;
    let cat = catalog_id(doc)?;
    let ka = key_acroform();
    let acro_id = ensure_indirect_dictionary_entry(doc, cat, ka.as_slice())?;
    let kf = key_fields();
    let fields = match read_array_entry_clone(doc, acro_id, kf.as_slice())? {
        Some(f) => f,
        None => {
            let v: Vec<PdfObject> = Vec::new();
            assert(sv_seq(v@) =~= seq![]);
            v
        },
    };
    let mut existing: Vec<ObjectId> = Vec::new();
    assert(existing@ =~= seq![]);
    reach_list_exec(doc, &fields, &mut existing, DEPTH_BOUND);
    let mut st = Reattach { existing, fields, out: Vec::new() };
    assert(st.out@.map_values(|f: FormField| f.sv()) =~= seq![]);
    reattach_all_pages(doc, &mut st, &pages)?;
    let fields_out = clone_items(&st.fields);
    write_array_entry(doc, acro_id, kf.as_slice(), fields_out)?;
    Ok(st.out)
}

} // verus!
