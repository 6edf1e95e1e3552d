//! Merging documents whose object numbers are already disjoint into one
//! document with a single page tree.
//!
//! The parts' object tables are combined in order (a later entry for an id
//! replaces the earlier one). The combined table is then walked in its own
//! order: for parts whose tables list their ids in increasing order, and
//! whose ids follow one another, as renumbered documents' tables do, that is
//! increasing id order.
use vstd::prelude::*;
use crate::error::{PdferError, SErr, res_v};
use crate::keys::{k_kids, k_parent, k_root, k_type, key_kids, key_parent, key_root, key_type};
use crate::model::{
    ObjectId, PdfDict, PdfDocument, PdfObject, SDict, SDoc, SObj, lemma_array_obj_sv, lemma_dict_obj_sv, sd_get, sd_has,
    sd_remove, sd_set, sdoc_get_object, so_set, sv_seq,
};
use crate::text::bytes_eq;

verus! {

broadcast use vstd::std_specs::vec::group_vec_axioms;

// ---------------------------------------------------------------------------
// Names
// ---------------------------------------------------------------------------
/// `Count`.
pub open spec fn n_count() -> Seq<u8> {
    seq![67u8, 111u8, 117u8, 110u8, 116u8]
}

fn name_count() -> (r: Vec<u8>)
    ensures
        r@ == n_count(),
{
    let r = vec![67u8, 111u8, 117u8, 110u8, 116u8];
    assert(r@ =~= n_count());
    r
}

/// `Pages`.
pub open spec fn n_pages() -> Seq<u8> {
    seq![80u8, 97u8, 103u8, 101u8, 115u8]
}

fn name_pages() -> (r: Vec<u8>)
    ensures
        r@ == n_pages(),
{
    let r = vec![80u8, 97u8, 103u8, 101u8, 115u8];
    assert(r@ =~= n_pages());
    r
}

/// `Page`.
pub open spec fn n_page() -> Seq<u8> {
    seq![80u8, 97u8, 103u8, 101u8]
}

fn name_page() -> (r: Vec<u8>)
    ensures
        r@ == n_page(),
{
    let r = vec![80u8, 97u8, 103u8, 101u8];
    assert(r@ =~= n_page());
    r
}

/// `Catalog`.
pub open spec fn n_catalog() -> Seq<u8> {
    seq![67u8, 97u8, 116u8, 97u8, 108u8, 111u8, 103u8]
}

fn name_catalog() -> (r: Vec<u8>)
    ensures
        r@ == n_catalog(),
{
    let r = vec![67u8, 97u8, 116u8, 97u8, 108u8, 111u8, 103u8];
    assert(r@ =~= n_catalog());
    r
}

/// `Outlines`.
pub open spec fn n_outlines() -> Seq<u8> {
    seq![79u8, 117u8, 116u8, 108u8, 105u8, 110u8, 101u8, 115u8]
}

fn name_outlines() -> (r: Vec<u8>)
    ensures
        r@ == n_outlines(),
{
    let r = vec![79u8, 117u8, 116u8, 108u8, 105u8, 110u8, 101u8, 115u8];
    assert(r@ =~= n_outlines());
    r
}

/// `Outline`.
pub open spec fn n_outline() -> Seq<u8> {
    seq![79u8, 117u8, 116u8, 108u8, 105u8, 110u8, 101u8]
}

fn name_outline() -> (r: Vec<u8>)
    ensures
        r@ == n_outline(),
{
    let r = vec![79u8, 117u8, 116u8, 108u8, 105u8, 110u8, 101u8];
    assert(r@ =~= n_outline());
    r
}

/// `Linearized`.
pub open spec fn n_linearized() -> Seq<u8> {
    seq![76u8, 105u8, 110u8, 101u8, 97u8, 114u8, 105u8, 122u8, 101u8, 100u8]
}

fn name_linearized() -> (r: Vec<u8>)
    ensures
        r@ == n_linearized(),
{
    let r = vec![76u8, 105u8, 110u8, 101u8, 97u8, 114u8, 105u8, 122u8, 101u8, 100u8];
    assert(r@ =~= n_linearized());
    r
}

// ---------------------------------------------------------------------------
// Object types
// ---------------------------------------------------------------------------
/// The type of a dictionary: its `/Type` when that is a name, else
/// `Linearized` when it has a `/Linearized` entry, else empty.
pub open spec fn dict_type(d: SDict) -> Seq<u8> {
    match sd_get(d, k_type()) {
        Some(SObj::Name(n)) => n,
        _ => if sd_has(d, n_linearized()) {
            n_linearized()
        } else {
            seq![]
        },
    }
}

/// The type of an object: that of a dictionary or of a stream's
/// dictionary; empty for anything else.
#[verifier::opaque]
pub open spec fn type_of(o: SObj) -> Seq<u8> {
    match o {
        SObj::Dictionary(d) => dict_type(d),
        SObj::Stream(d, _) => dict_type(d),
        _ => seq![],
    }
}

fn dict_type_exec(d: &PdfDict) -> (r: Vec<u8>)
    ensures
        r@ == dict_type(d.sv()),
{
    let kt = key_type();
    match d.get(kt.as_slice()) {
        Some(PdfObject::Name(n)) => {
            let mut r: Vec<u8> = Vec::new();
            let mut i: usize = 0;
            while i < n.len()
                invariant
                    i <= n.len(),
                    r@ == n@.take(i as int),
                decreases n.len() - i,
            {
                r.push(n[i]);
                assert(n@.take(i + 1) =~= n@.take(i as int).push(n@[i as int]));
                i += 1;
            }
            assert(n@.take(n.len() as int) =~= n@);
            r
        },
        _ => {
            let kl = name_linearized();
            if d.has(kl.as_slice()) {
                kl
            } else {
                let r: Vec<u8> = Vec::new();
                assert(r@ =~= Seq::<u8>::empty());
                r
            }
        },
    }
}

fn type_of_exec(o: &PdfObject) -> (r: Vec<u8>)
    ensures
        r@ == type_of(o.sv()),
{
    reveal(type_of);
    match o {
        PdfObject::Dictionary(d) => {
            proof {
                lemma_dict_obj_sv(*d);
            }
            dict_type_exec(d)
        },
        PdfObject::Stream(s) => {
            assert(o.sv()->Stream_0 =~= s.dict.sv());
            dict_type_exec(&s.dict)
        },
        _ => {
            let r: Vec<u8> = Vec::new();
            assert(r@ =~= Seq::<u8>::empty());
            r
        },
    }
}

// ---------------------------------------------------------------------------
// Merging the page-tree roots
// ---------------------------------------------------------------------------
/// An extension function can be called on any two dictionaries and gives
/// equal dictionaries for equal arguments.
pub open spec fn extend_ok<E: Fn(PdfDict, PdfDict) -> PdfDict>(f: E) -> bool {
    &&& forall|a: PdfDict, b: PdfDict| call_requires(f, (a, b))
    &&& forall|a1: PdfDict, b1: PdfDict, a2: PdfDict, b2: PdfDict, r1: PdfDict, r2: PdfDict|
        #![trigger call_ensures(f, (a1, b1), r1), call_ensures(f, (a2, b2), r2)]
        a1.sv() == a2.sv() && b1.sv() == b2.sv() && call_ensures(f, (a1, b1), r1) && call_ensures(
            f,
            (a2, b2),
            r2,
        ) ==> r1.sv() == r2.sv()
}

/// The dictionary `f` gives for `a` extended by `b`.
pub open spec fn spec_extend<E: Fn(PdfDict, PdfDict) -> PdfDict>(f: E, a: SDict, b: SDict) -> SDict {
    (choose|p: (PdfDict, PdfDict, PdfDict)|
        p.0.sv() == a && p.1.sv() == b && call_ensures(f, (p.0, p.1), p.2)).2.sv()
}

fn run_extend<E: Fn(PdfDict, PdfDict) -> PdfDict>(f: &E, a: PdfDict, b: PdfDict) -> (r: PdfDict)
    requires
        extend_ok(*f),
    ensures
        r.sv() == spec_extend(*f, a.sv(), b.sv()),
{
    let ghost av = a.sv();
    let ghost bv = b.sv();
    let ghost a0 = a;
    let ghost b0 = b;
    let r = f(a, b);
    proof {
        assert(call_ensures(*f, (a0, b0), r));
        let w = (a0, b0, r);
        assert(w.0.sv() == av && w.1.sv() == bv && call_ensures(*f, (w.0, w.1), w.2));
        let p = choose|p: (PdfDict, PdfDict, PdfDict)|
            p.0.sv() == av && p.1.sv() == bv && call_ensures(*f, (p.0, p.1), p.2);
        assert(p.0.sv() == av && p.1.sv() == bv && call_ensures(*f, (p.0, p.1), p.2));
        assert(p.2.sv() == r.sv());
    }
    r
}

// ---------------------------------------------------------------------------
// The merge
// ---------------------------------------------------------------------------
/// The views of the parts.
pub open spec fn parts_v(parts: Seq<PdfDocument>) -> Seq<SDoc> {
    parts.map_values(|p: PdfDocument| p.sv())
}

/// The table `t` with the entries `es` set one after the other.
pub open spec fn table_extend(t: Seq<(ObjectId, SObj)>, es: Seq<(ObjectId, SObj)>) -> Seq<
    (ObjectId, SObj),
>
    decreases es.len(),
{
    if es.len() == 0 {
        t
    } else {
        so_set(table_extend(t, es.drop_last()), es.last().0, es.last().1)
    }
}

/// The parts' object tables, combined in order.
pub open spec fn combined_objects(parts: Seq<SDoc>) -> Seq<(ObjectId, SObj)>
    decreases parts.len(),
{
    if parts.len() == 0 {
        seq![]
    } else {
        table_extend(combined_objects(parts.drop_last()), parts.last().objects)
    }
}

/// The page ids of the parts, in order.
pub open spec fn all_pages(parts: Seq<SDoc>) -> Seq<ObjectId>
    decreases parts.len(),
{
    if parts.len() == 0 {
        seq![]
    } else {
        all_pages(parts.drop_last()) + parts.last().pages
    }
}

/// The table `t` with the page objects `ids` of the part `p` (references
/// followed) set; a page that cannot be read is left out.
pub open spec fn part_page_objects(t: Seq<(ObjectId, SObj)>, p: SDoc, ids: Seq<ObjectId>) -> Seq<
    (ObjectId, SObj),
>
    decreases ids.len(),
{
    if ids.len() == 0 {
        t
    } else {
        let t1 = part_page_objects(t, p, ids.drop_last());
        match sdoc_get_object(p, ids.last()) {
            Ok(o) => so_set(t1, ids.last(), o),
            Err(_) => t1,
        }
    }
}

/// The page objects of the parts, by page id.
pub open spec fn page_objects(parts: Seq<SDoc>) -> Seq<(ObjectId, SObj)>
    decreases parts.len(),
{
    if parts.len() == 0 {
        seq![]
    } else {
        part_page_objects(page_objects(parts.drop_last()), parts.last(), parts.last().pages)
    }
}

/// The objects sorted out of the combined table: the objects kept as they
/// are, the catalog (the first catalog's id with the last catalog), and the
/// page-tree root (the first root's id, each further root dictionary
/// extended by the roots before it).
pub struct MergeSort {
    pub others: Seq<(ObjectId, SObj)>,
    pub catalog: Option<(ObjectId, SObj)>,
    pub root: Option<(ObjectId, SDict)>,
}

/// One entry of the combined table sorted out. Page, outline and outlines
/// objects are dropped, and so is a page-tree root that is not a dictionary.
pub open spec fn sort_step<E: Fn(PdfDict, PdfDict) -> PdfDict>(
    acc: MergeSort,
    e: (ObjectId, SObj),
    ext: E,
) -> MergeSort {
    let t = type_of(e.1);
    if t == n_catalog() {
        MergeSort {
            catalog: Some(
                (
                    match acc.catalog {
                        Some(c) => c.0,
                        None => e.0,
                    },
                    e.1,
                ),
            ),
            ..acc
        }
    } else if t == n_pages() {
        match e.1 {
            SObj::Dictionary(d) => MergeSort {
                root: Some(
                    match acc.root {
                        Some(r) => (r.0, spec_extend(ext, d, r.1)),
                        None => (e.0, d),
                    },
                ),
                ..acc
            },
            _ => acc,
        }
    } else if t == n_page() || t == n_outlines() || t == n_outline() {
        acc
    } else {
        MergeSort { others: so_set(acc.others, e.0, e.1), ..acc }
    }
}

/// The entries `es` sorted out, one after the other.
pub open spec fn sort_objects<E: Fn(PdfDict, PdfDict) -> PdfDict>(
    es: Seq<(ObjectId, SObj)>,
    ext: E,
) -> MergeSort
    decreases es.len(),
{
    if es.len() == 0 {
        MergeSort { others: seq![], catalog: None, root: None }
    } else {
        sort_step(sort_objects(es.drop_last(), ext), es.last(), ext)
    }
}

/// The table `t` with each page dictionary of `pages` set, its `/Parent`
/// the root `root`.
pub open spec fn with_parents(
    t: Seq<(ObjectId, SObj)>,
    pages: Seq<(ObjectId, SObj)>,
    root: ObjectId,
) -> Seq<(ObjectId, SObj)>
    decreases pages.len(),
{
    if pages.len() == 0 {
        t
    } else {
        let t1 = with_parents(t, pages.drop_last(), root);
        match pages.last().1 {
            SObj::Dictionary(d) => so_set(
                t1,
                pages.last().0,
                SObj::Dictionary(sd_set(d, k_parent(), SObj::Reference(root))),
            ),
            _ => t1,
        }
    }
}

/// References to the ids, in order.
pub open spec fn refs(ids: Seq<ObjectId>) -> Seq<SObj> {
    ids.map_values(|id: ObjectId| SObj::Reference(id))
}

/// The page-tree root of the merged document: `/Count` is the number of
/// pages and `/Kids` refers to every page, in order.
pub open spec fn root_dict(r: SDict, pages: Seq<ObjectId>) -> SDict {
    sd_set(sd_set(r, n_count(), SObj::Integer((pages.len() as u32) as i64)), k_kids(), SObj::Array(refs(pages)))
}

/// The catalog of the merged document: `/Pages` is the root, and it has no
/// `/Outlines`.
pub open spec fn catalog_dict(c: SDict, root: ObjectId) -> SDict {
    sd_remove(sd_set(c, n_pages(), SObj::Reference(root)), n_outlines())
}

/// The merged document assembled from the objects kept, the page objects,
/// the pages, the root and the catalog.
pub open spec fn assembled(
    others: Seq<(ObjectId, SObj)>,
    page_objs: Seq<(ObjectId, SObj)>,
    pages: Seq<ObjectId>,
    rid: ObjectId,
    rd: SDict,
    cid: ObjectId,
    co: SObj,
) -> SDoc {
    let t1 = with_parents(others, page_objs, rid);
    let t2 = so_set(t1, rid, SObj::Dictionary(root_dict(rd, pages)));
    let t3 = match co {
        SObj::Dictionary(cd) => so_set(t2, cid, SObj::Dictionary(catalog_dict(cd, rid))),
        _ => t2,
    };
    SDoc { objects: t3, trailer: seq![(k_root(), SObj::Reference(cid))], max_id: t3.len() as u32, pages }
}

/// Merging the parts: refused when there are none, when no page-tree root
/// dictionary is found, or when no catalog is found. Otherwise the merged
/// document holds the objects kept, each page dictionary with the root as
/// its parent, the root, and the catalog (when it is a dictionary); its
/// trailer refers to the catalog, and its pages are the parts' pages in
/// order.
pub open spec fn spec_merge_parts<E: Fn(PdfDict, PdfDict) -> PdfDict>(parts: Seq<SDoc>, ext: E) -> Result<
    SDoc,
    SErr,
> {
    if parts.len() == 0 {
        Err(SErr::Message("no documents to merge"@))
    } else {
        let s = sort_objects(combined_objects(parts), ext);
        match s.root {
            None => Err(SErr::Message("no Pages object found"@)),
            Some((rid, rd)) => match s.catalog {
                None => Err(SErr::Message("no Catalog object found"@)),
                Some((cid, co)) => Ok(
                    assembled(s.others, page_objects(parts), all_pages(parts), rid, rd, cid, co),
                ),
            },
        }
    }
}

fn combine_objects(parts: &Vec<PdfDocument>) -> (r: PdfDocument)
    ensures
        r.sv().objects == combined_objects(parts_v(parts@)),
{
    let ghost pv = parts_v(parts@);
    let mut t = PdfDocument::new();
    assert(t.sv().objects =~= combined_objects(pv.take(0)));
    let mut i: usize = 0;
    while i < parts.len()
        invariant
            i <= parts.len(),
            pv == parts_v(parts@),
            t.sv().objects == combined_objects(pv.take(i as int)),
        decreases parts.len() - i,
    {
        let p = &parts[i];
        let ghost t0 = t.sv().objects;
        let mut j: usize = 0;
        assert(p.sv().objects.take(0) =~= Seq::<(ObjectId, SObj)>::empty());
        while j < p.objects.len()
            invariant
                j <= p.objects.len(),
                t.sv().objects == table_extend(t0, p.sv().objects.take(j as int)),
            decreases p.objects.len() - j,
        {
            let id = p.objects[j].0;
            let o = p.objects[j].1.deep_clone();
            t.set_object(id, o);
            assert(p.sv().objects.take(j + 1).drop_last() =~= p.sv().objects.take(j as int));
            j += 1;
        }
        assert(p.sv().objects.take(p.objects.len() as int) =~= p.sv().objects);
        assert(pv.take(i + 1).drop_last() =~= pv.take(i as int));
        assert(pv[i as int] == p.sv());
        i += 1;
    }
    assert(pv.take(parts.len() as int) =~= pv);
    t
}

fn collect_pages(parts: &Vec<PdfDocument>) -> (r: (PdfDocument, Vec<ObjectId>))
    ensures
        r.0.sv().objects == page_objects(parts_v(parts@)),
        r.1@ == all_pages(parts_v(parts@)),
{
    let ghost pv = parts_v(parts@);
    let mut t = PdfDocument::new();
    let mut ids: Vec<ObjectId> = Vec::new();
    assert(t.sv().objects =~= page_objects(pv.take(0)));
    assert(ids@ =~= all_pages(pv.take(0)));
    let mut i: usize = 0;
    while i < parts.len()
        invariant
            i <= parts.len(),
            pv == parts_v(parts@),
            t.sv().objects == page_objects(pv.take(i as int)),
            ids@ == all_pages(pv.take(i as int)),
        decreases parts.len() - i,
    {
        let p = &parts[i];
        let ghost t0 = t.sv().objects;
        let ghost ids0 = ids@;
        let mut k: usize = 0;
        assert(p.pages@.take(0) =~= Seq::<ObjectId>::empty());
        assert(ids0 + p.pages@.take(0) =~= ids0);
        while k < p.pages.len()
            invariant
                k <= p.pages.len(),
                t.sv().objects == part_page_objects(t0, p.sv(), p.pages@.take(k as int)),
                ids@ == ids0 + p.pages@.take(k as int),
            decreases p.pages.len() - k,
        {
            let pid = p.pages[k];
            match p.get_object(pid) {
                Ok(o) => {
                    let c = o.deep_clone();
                    t.set_object(pid, c);
                },
                Err(_) => {},
            }
            ids.push(pid);
            assert(p.pages@.take(k + 1).drop_last() =~= p.pages@.take(k as int));
            assert(ids0 + p.pages@.take(k + 1) =~= (ids0 + p.pages@.take(k as int)).push(pid));
            k += 1;
        }
        assert(p.pages@.take(p.pages.len() as int) =~= p.pages@);
        assert(pv.take(i + 1).drop_last() =~= pv.take(i as int));
        assert(pv[i as int] == p.sv());
        i += 1;
    }
    assert(pv.take(parts.len() as int) =~= pv);
    (t, ids)
}

/// The view of a found catalog.
pub open spec fn catalog_v(c: Option<(ObjectId, PdfObject)>) -> Option<(ObjectId, SObj)> {
    match c {
        Some((id, o)) => Some((id, o.sv())),
        None => None,
    }
}

/// The view of a found page-tree root.
pub open spec fn root_v(r: Option<(ObjectId, PdfDict)>) -> Option<(ObjectId, SDict)> {
    match r {
        Some((id, d)) => Some((id, d.sv())),
        None => None,
    }
}

#[verifier::rlimit(30)]
fn sort_out<E: Fn(PdfDict, PdfDict) -> PdfDict>(all: &PdfDocument, ext: &E) -> (r: (
    PdfDocument,
    Option<(ObjectId, PdfObject)>,
    Option<(ObjectId, PdfDict)>,
))
    requires
        extend_ok(*ext),
    ensures
        (MergeSort { others: r.0.sv().objects, catalog: catalog_v(r.1), root: root_v(r.2) })
            == sort_objects(all.sv().objects, *ext),
{
    let ghost es = all.sv().objects;
    let mut others = PdfDocument::new();
    let mut catalog: Option<(ObjectId, PdfObject)> = None;
    let mut root: Option<(ObjectId, PdfDict)> = None;
    assert(others.sv().objects =~= Seq::<(ObjectId, SObj)>::empty());
    let kc = name_catalog();
    let kp = name_pages();
    let kg = name_page();
    let ko = name_outlines();
    let kl = name_outline();
    let mut j: usize = 0;
    while j < all.objects.len()
        invariant
            j <= all.objects.len(),
            es == all.sv().objects,
            extend_ok(*ext),
            kc@ == n_catalog(),
            kp@ == n_pages(),
            kg@ == n_page(),
            ko@ == n_outlines(),
            kl@ == n_outline(),
            (MergeSort { others: others.sv().objects, catalog: catalog_v(catalog), root: root_v(root) })
                == sort_objects(es.take(j as int), *ext),
        decreases all.objects.len() - j,
    {
        let id = all.objects[j].0;
        let o = &all.objects[j].1;
        assert(es.take(j + 1).drop_last() =~= es.take(j as int));
        assert(es.take(j + 1).last() == (id, o.sv()));
        let t = type_of_exec(o);
        if bytes_eq(t.as_slice(), kc.as_slice()) {
            let cid = match &catalog {
                Some(c) => c.0,
                None => id,
            };
            catalog = Some((cid, o.deep_clone()));
        } else if bytes_eq(t.as_slice(), kp.as_slice()) {
            match o {
                PdfObject::Dictionary(d) => {
                    proof {
                        lemma_dict_obj_sv(*d);
                    }
                    let prev = root;
                    root = match prev {
                        Some((rid, rd)) => Some((rid, run_extend(ext, d.deep_clone(), rd))),
                        None => Some((id, d.deep_clone())),
                    };
                },
                _ => {},
            }
        } else if bytes_eq(t.as_slice(), kg.as_slice()) || bytes_eq(t.as_slice(), ko.as_slice())
            || bytes_eq(t.as_slice(), kl.as_slice()) {
        } else {
            others.set_object(id, o.deep_clone());
        }
        j += 1;
    }
    assert(es.take(all.objects.len() as int) =~= es);
    (others, catalog, root)
}

fn page_refs(pages: &Vec<ObjectId>) -> (r: Vec<PdfObject>)
    ensures
        sv_seq(r@) == refs(pages@),
{
    let mut out: Vec<PdfObject> = Vec::new();
    let mut k: usize = 0;
    while k < pages.len()
        invariant
            k <= pages.len(),
            out.len() == k,
            forall|i: int| 0 <= i < k ==> out@[i].sv() == SObj::Reference(pages@[i]),
        decreases pages.len() - k,
    {
        out.push(PdfObject::Reference(pages[k]));
        k += 1;
    }
    assert(sv_seq(out@) =~= refs(pages@));
    out
}

fn set_parents(out: &mut PdfDocument, pg: &PdfDocument, rid: ObjectId)
    ensures
        final(out).sv().objects == with_parents(old(out).sv().objects, pg.sv().objects, rid),
        final(out).sv().trailer == old(out).sv().trailer,
        final(out).sv().max_id == old(out).sv().max_id,
        final(out).sv().pages == old(out).sv().pages,
{
    let ghost ps = pg.sv().objects;
    let ghost t0 = out.sv().objects;
    let mut k: usize = 0;
    assert(ps.take(0) =~= Seq::<(ObjectId, SObj)>::empty());
    while k < pg.objects.len()
        invariant
            k <= pg.objects.len(),
            ps == pg.sv().objects,
            out.sv().objects == with_parents(t0, ps.take(k as int), rid),
            out.sv().trailer == old(out).sv().trailer,
            out.sv().max_id == old(out).sv().max_id,
            out.sv().pages == old(out).sv().pages,
        decreases pg.objects.len() - k,
    {
        assert(ps.take(k + 1).drop_last() =~= ps.take(k as int));
        let id = pg.objects[k].0;
        match &pg.objects[k].1 {
            PdfObject::Dictionary(d) => {
                proof {
                    lemma_dict_obj_sv(*d);
                }
                let mut d2 = d.deep_clone();
                d2.set(key_parent(), PdfObject::Reference(rid));
                proof {
                    lemma_dict_obj_sv(d2);
                }
                out.set_object(id, PdfObject::Dictionary(d2));
            },
            _ => {},
        }
        k += 1;
    }
    assert(ps.take(pg.objects.len() as int) =~= ps);
}

fn build_root(rd: PdfDict, pages: &Vec<ObjectId>) -> (r: PdfObject)
    ensures
        r.sv() == SObj::Dictionary(root_dict(rd.sv(), pages@)),
{
    let mut rd2 = rd;
    #[verifier::truncate]
    let count: u32 = pages.len() as u32;
    rd2.set(name_count(), PdfObject::Integer(count as i64));
    let kids = page_refs(pages);
    proof {
        lemma_array_obj_sv(kids);
    }
    rd2.set(key_kids(), PdfObject::Array(kids));
    proof {
        lemma_dict_obj_sv(rd2);
    }
    PdfObject::Dictionary(rd2)
}

fn build_catalog(cd: PdfDict, rid: ObjectId) -> (r: PdfObject)
    ensures
        r.sv() == SObj::Dictionary(catalog_dict(cd.sv(), rid)),
{
    let mut c2 = cd;
    c2.set(name_pages(), PdfObject::Reference(rid));
    let ko = name_outlines();
    c2.remove(ko.as_slice());
    proof {
        lemma_dict_obj_sv(c2);
    }
    PdfObject::Dictionary(c2)
}

fn root_trailer(cid: ObjectId) -> (r: PdfDict)
    ensures
        r.sv() == seq![(k_root(), SObj::Reference(cid))],
{
    let mut trailer = PdfDict::new();
    trailer.set(key_root(), PdfObject::Reference(cid));
    assert(trailer.sv() =~= seq![(k_root(), SObj::Reference(cid))]);
    trailer
}

fn assemble(
    others: PdfDocument,
    pg: &PdfDocument,
    pages: Vec<ObjectId>,
    rid: ObjectId,
    rd: PdfDict,
    cid: ObjectId,
    co: PdfObject,
) -> (d: PdfDocument)
    ensures
        d.sv() == assembled(others.sv().objects, pg.sv().objects, pages@, rid, rd.sv(), cid, co.sv()),
{
    let mut out = others;
    set_parents(&mut out, &pg, rid);
    let root = build_root(rd, &pages);
    out.set_object(rid, root);
    match co {
        PdfObject::Dictionary(cd) => {
            proof {
                lemma_dict_obj_sv(cd);
            }
            let c = build_catalog(cd, rid);
            out.set_object(cid, c);
        },
        _ => {},
    }
    let trailer = root_trailer(cid);
    #[verifier::truncate]
    let max_id: u32 = out.objects.len() as u32;
    let d = PdfDocument { objects: out.objects, trailer, max_id, pages };
    assert(d.sv().objects =~= out.sv().objects);
    d
}

/// Merges documents whose object numbers are disjoint into one document
/// with one page tree; `extend` extends a page-tree root by the roots met
/// before it.
#[verifier::rlimit(30)]
pub fn merge_parts<E: Fn(PdfDict, PdfDict) -> PdfDict>(parts: Vec<PdfDocument>, extend: &E) -> (r:
    Result<PdfDocument, PdferError>)
    requires
        extend_ok(*extend),
    ensures
        res_v(r, |d: PdfDocument| d.sv()) == spec_merge_parts(parts_v(parts@), *extend),
{
    if parts.len() == 0 {
        return Err(PdferError::Message("no documents to merge".to_owned()));
    }
    let combined = combine_objects(&parts);
    let (pg, pages) = collect_pages(&parts);
    let (others, catalog, root) = sort_out(&combined, extend);
    let (rid, rd) = match root {
        None => {
            return Err(PdferError::Message("no Pages object found".to_owned()));
        },
        Some(x) => x,
    };
    let (cid, co) = match catalog {
        None => {
            return Err(PdferError::Message("no Catalog object found".to_owned()));
        },
        Some(x) => x,
    };
    Ok(assemble(others, &pg, pages, rid, rd, cid, co))
}

} // verus!
