//! Pages: their handles, page selections, and their annotation arrays.
use vstd::prelude::*;
use crate::access::{SOut, add_new_object, spec_add, spec_write_array, write_array_entry};
use crate::error::{PdferError, SErr, res_id, res_v};
use crate::keys::{k_annots, key_annots};
use crate::model::{ObjectId, PdfDocument, PdfObject, SDoc, SObj, lemma_array_obj_sv, lemma_dict_obj_sv, sd_get, sdoc_get_dict, sdoc_get_object, sv_seq};
use crate::objects::{clone_items};

verus! {

broadcast use vstd::std_specs::vec::group_vec_axioms;

/// A page: its index in page order (from 0) and its object id.
#[derive(Debug, Clone, Copy, PartialEq, Eq, PartialOrd, Ord, Hash)]
pub struct PageHandle {
    pub index: usize,
    pub object_id: ObjectId,
}

/// Which pages an operation works on.
#[derive(Debug, PartialEq, Eq)]
pub enum PageSelection {
    All,
    Index(usize),
    Indices(Vec<usize>),
    PageId(ObjectId),
    PageIds(Vec<ObjectId>),
}

/// The handles of the document's pages, in page order.
pub open spec fn spec_page_handles(doc: SDoc) -> Seq<PageHandle> {
    Seq::new(doc.pages.len(), |i: int| PageHandle { index: i as usize, object_id: doc.pages[i] })
}

/// The handles of the document's pages, in page order.
pub fn page_handles(doc: &PdfDocument) -> (r: Vec<PageHandle>)
    ensures
        r@ == spec_page_handles(doc.sv()),
{
    let mut r: Vec<PageHandle> = Vec::new();
    let mut i: usize = 0;
    while i < doc.pages.len()
        invariant
            i <= doc.pages.len(),
            r.len() == i,
            forall|j: int|
                0 <= j < i ==> r@[j] == (PageHandle { index: j as usize, object_id: doc.pages@[j] }),
        decreases doc.pages.len() - i,
    {
        r.push(PageHandle { index: i, object_id: doc.pages[i] });
        i += 1;
    }
    assert(r@ =~= spec_page_handles(doc.sv()));
    r
}

/// The handle of the page with index `index`.
pub open spec fn spec_page_handle(doc: SDoc, index: usize) -> Result<PageHandle, SErr> {
    if index < doc.pages.len() {
        Ok(PageHandle { index, object_id: doc.pages[index as int] })
    } else {
        Err(SErr::MissingPage(index))
    }
}

/// The handle of the page with index `index`.
pub fn page_handle(doc: &PdfDocument, index: usize) -> (r: Result<PageHandle, PdferError>)
    ensures
        res_id(r) == spec_page_handle(doc.sv(), index),
{
    if index < doc.pages.len() {
        Ok(PageHandle { index, object_id: doc.pages[index] })
    } else {
        Err(PdferError::MissingPage(index))
    }
}

/// The ids of the pages with the given indices, in the given order; the
/// first index that names no page is the error.
pub open spec fn ids_of_indices(doc: SDoc, indices: Seq<usize>) -> Result<Seq<ObjectId>, SErr>
    decreases indices.len(),
{
    if indices.len() == 0 {
        Ok(seq![])
    } else {
        match ids_of_indices(doc, indices.drop_last()) {
            Err(e) => Err(e),
            Ok(ids) => match spec_page_handle(doc, indices.last()) {
                Err(e) => Err(e),
                Ok(h) => Ok(ids.push(h.object_id)),
            },
        }
    }
}

/// The page ids a selection names: all pages in page order, the pages at
/// the given indices, or the given ids as they are.
pub open spec fn spec_selected_page_ids(doc: SDoc, sel: PageSelection) -> Result<Seq<ObjectId>, SErr> {
    match sel {
        PageSelection::All => Ok(doc.pages),
        PageSelection::Index(i) => match spec_page_handle(doc, i) {
            Err(e) => Err(e),
            Ok(h) => Ok(seq![h.object_id]),
        },
        PageSelection::Indices(v) => ids_of_indices(doc, v@),
        PageSelection::PageId(id) => Ok(seq![id]),
        PageSelection::PageIds(ids) => Ok(ids@),
    }
}

proof fn lemma_ids_of_indices_err(doc: SDoc, indices: Seq<usize>, i: int, e: SErr)
    requires
        0 <= i < indices.len(),
        ids_of_indices(doc, indices.take(i + 1)) == Err::<Seq<ObjectId>, SErr>(e),
    ensures
        ids_of_indices(doc, indices) == Err::<Seq<ObjectId>, SErr>(e),
    decreases indices.len() - i,
{
    if i + 1 == indices.len() {
        assert(indices.take(i + 1) =~= indices);
    } else {
        assert(indices.take(i + 2).drop_last() =~= indices.take(i + 1));
        lemma_ids_of_indices_err(doc, indices, i + 1, e);
    }
}

/// The page ids a selection names.
pub fn selected_page_ids(doc: &PdfDocument, sel: PageSelection) -> (r: Result<
    Vec<ObjectId>,
    PdferError,
>)
    ensures
        res_v(r, |v: Vec<ObjectId>| v@) == spec_selected_page_ids(doc.sv(), sel),
{
    let ghost s0 = sel;
    match sel {
        PageSelection::All => {
            let mut v: Vec<ObjectId> = Vec::new();
            let mut i: usize = 0;
            while i < doc.pages.len()
                invariant
                    i <= doc.pages.len(),
                    v@ == doc.pages@.take(i as int),
                decreases doc.pages.len() - i,
            {
                v.push(doc.pages[i]);
                assert(doc.pages@.take(i + 1) =~= doc.pages@.take(i as int).push(doc.pages@[i as int]));
                i += 1;
            }
            assert(doc.pages@.take(doc.pages.len() as int) =~= doc.pages@);
            Ok(v)
        },
        PageSelection::Index(i) => {
            let h = page_handle(doc, i)?;
            let v = vec![h.object_id];
            assert(v@ =~= seq![h.object_id]);
            Ok(v)
        },
        PageSelection::Indices(indices) => {
            let ghost ix = indices@;
            let mut v: Vec<ObjectId> = Vec::new();
            let mut i: usize = 0;
            assert(ix.take(0) =~= Seq::<usize>::empty());
            while i < indices.len()
                invariant
                    ix == indices@,
                    s0 == sel,
                    spec_selected_page_ids(doc.sv(), s0) == ids_of_indices(doc.sv(), ix),
                    i <= indices.len(),
                    ids_of_indices(doc.sv(), ix.take(i as int)) == Ok::<Seq<ObjectId>, SErr>(v@),
                decreases indices.len() - i,
            {
                assert(ix.take(i + 1).drop_last() =~= ix.take(i as int));
                match page_handle(doc, indices[i]) {
                    Ok(h) => {
                        v.push(h.object_id);
                    },
                    Err(e) => {
                        proof {
                            lemma_ids_of_indices_err(doc.sv(), ix, i as int, e.sv());
                        }
                        return Err(e);
                    },
                }
                i += 1;
            }
            assert(ix.take(indices.len() as int) =~= ix);
            Ok(v)
        },
        PageSelection::PageId(id) => {
            let v = vec![id];
            assert(v@ =~= seq![id]);
            Ok(v)
        },
        PageSelection::PageIds(ids) => Ok(ids),
    }
}

// ---------------------------------------------------------------------------
// Annotation arrays
// ---------------------------------------------------------------------------
/// The annotations of a page: its `/Annots` array, given directly or by
/// reference; none when it has no `/Annots`.
pub open spec fn spec_page_annots(doc: SDoc, page_id: ObjectId) -> Result<Seq<SObj>, SErr> {
    match sdoc_get_dict(doc, page_id) {
        Err(e) => Err(SErr::Lopdf(e)),
        Ok(page) => match sd_get(page, k_annots()) {
            None => Ok(seq![]),
            Some(SObj::Array(items)) => Ok(items),
            Some(SObj::Reference(id)) => match sdoc_get_object(doc, id) {
                Err(e) => Err(SErr::Lopdf(e)),
                Ok(SObj::Array(items)) => Ok(items),
                Ok(_) => Err(SErr::InvalidStructure("/Annots must resolve to an array"@)),
            },
            Some(_) => Err(SErr::InvalidStructure("/Annots must be an array or indirect array"@)),
        },
    }
}

/// The annotations of a page.
pub fn page_annotation_objects(doc: &PdfDocument, page_id: ObjectId) -> (r: Result<
    Vec<PdfObject>,
    PdferError,
>)
    ensures
        res_v(r, |v: Vec<PdfObject>| sv_seq(v@)) == spec_page_annots(doc.sv(), page_id),
{
    let page = match doc.get_dictionary(page_id) {
        Err(e) => {
            return Err(PdferError::Lopdf(e));
        },
        Ok(p) => p,
    };
    let ka = key_annots();
    match page.get(ka.as_slice()) {
        None => {
            let v: Vec<PdfObject> = Vec::new();
            assert(sv_seq(v@) =~= seq![]);
            Ok(v)
        },
        Some(PdfObject::Array(items)) => {
            proof {
                lemma_array_obj_sv(*items);
            }
            Ok(clone_items(items))
        },
        Some(PdfObject::Reference(id)) => match doc.get_object(*id) {
            Err(e) => Err(PdferError::Lopdf(e)),
            Ok(PdfObject::Array(items)) => {
                proof {
                    lemma_array_obj_sv(*items);
                }
                Ok(clone_items(items))
            },
            Ok(_) => Err(PdferError::InvalidStructure("/Annots must resolve to an array")),
        },
        Some(_) => Err(PdferError::InvalidStructure("/Annots must be an array or indirect array")),
    }
}

/// Each direct dictionary among `items` added as a new object and replaced
/// by a reference to it, one item after the other; other items stay.
pub open spec fn indirect_items(doc: SDoc, items: Seq<SObj>) -> SOut<Seq<SObj>>
    decreases items.len(),
{
    if items.len() == 0 {
        (doc, Ok(seq![]))
    } else {
        let (d1, r1) = indirect_items(doc, items.drop_last());
        match r1 {
            Err(e) => (d1, Err(e)),
            Ok(out) => match items.last() {
                SObj::Dictionary(d) => {
                    let (d2, a) = spec_add(d1, SObj::Dictionary(d));
                    match a {
                        Ok(id) => (d2, Ok(out.push(SObj::Reference(id)))),
                        Err(e) => (d2, Err(e)),
                    }
                },
                o => (d1, Ok(out.push(o))),
            },
        }
    }
}

/// Some item is a direct dictionary.
pub open spec fn has_direct_dict(items: Seq<SObj>) -> bool {
    exists|i: int| 0 <= i < items.len() && items[i] is Dictionary
}

/// Makes every annotation of the page that is a direct dictionary an
/// indirect object, and writes the rewritten `/Annots` back when that
/// changed anything; the annotations after.
pub open spec fn spec_ensure_indirect_annots(doc: SDoc, page_id: ObjectId) -> SOut<Seq<SObj>> {
    match spec_page_annots(doc, page_id) {
        Err(e) => (doc, Err(e)),
        Ok(items) => {
            let (d1, r) = indirect_items(doc, items);
            match r {
                Err(e) => (d1, Err(e)),
                Ok(out) => if has_direct_dict(items) {
                    let (d2, w) = spec_write_array(d1, page_id, k_annots(), out);
                    match w {
                        Ok(_) => (d2, Ok(out)),
                        Err(e) => (d2, Err(e)),
                    }
                } else {
                    (d1, Ok(out))
                },
            }
        },
    }
}

proof fn lemma_indirect_items_err(doc: SDoc, items: Seq<SObj>, i: int)
    requires
        0 <= i < items.len(),
        indirect_items(doc, items.take(i + 1)).1 is Err,
    ensures
        indirect_items(doc, items) == indirect_items(doc, items.take(i + 1)),
    decreases items.len() - i,
{
    if i + 1 == items.len() {
        assert(items.take(i + 1) =~= items);
    } else {
        assert(items.take(i + 2).drop_last() =~= items.take(i + 1));
        lemma_indirect_items_err(doc, items, i + 1);
        if indirect_items(doc, items.take(i + 2)).1 is Err {
        } else {
            assert(false);
        }
    }
}

/// Makes the page's direct annotation dictionaries indirect; the
/// annotations after.
pub fn ensure_indirect_page_annotations(doc: &mut PdfDocument, page_id: ObjectId) -> (r: Result<
    Vec<PdfObject>,
    PdferError,
>)
    ensures
        (final(doc).sv(), res_v(r, |v: Vec<PdfObject>| sv_seq(v@))) == spec_ensure_indirect_annots(
            old(doc).sv(),
            page_id,
        ),
{
    let annotations = page_annotation_objects(doc, page_id)?;
    let ghost items = sv_seq(annotations@);
    let ghost doc0 = doc.sv();
    let mut rewritten: Vec<PdfObject> = Vec::new();
    let mut changed = false;
    let mut i: usize = 0;
    assert(items.take(0) =~= Seq::<SObj>::empty());
    assert(sv_seq(rewritten@) =~= seq![]);
    while i < annotations.len()
        invariant
            items == sv_seq(annotations@),
            doc0 == old(doc).sv(),
            spec_page_annots(doc0, page_id) == Ok::<Seq<SObj>, SErr>(items),
            i <= annotations.len(),
            indirect_items(doc0, items.take(i as int)) == (doc.sv(), Ok::<Seq<SObj>, SErr>(
                sv_seq(rewritten@),
            )),
            changed == has_direct_dict(items.take(i as int)),
        decreases annotations.len() - i,
    {
        assert(items.take(i + 1).drop_last() =~= items.take(i as int));
        assert(items.take(i + 1).last() == annotations@[i as int].sv());
        let ghost before = sv_seq(rewritten@);
        let ghost dbefore = doc.sv();
        match &annotations[i] {
            PdfObject::Dictionary(d) => {
                proof {
                    lemma_dict_obj_sv(*d);
                }
                let dc = d.deep_clone();
                proof {
                    lemma_dict_obj_sv(dc);
                }
                match add_new_object(doc, PdfObject::Dictionary(dc)) {
                    Ok(id) => {
                        rewritten.push(PdfObject::Reference(id));
                        assert(sv_seq(rewritten@) =~= before.push(SObj::Reference(id)));
                    },
                    Err(e) => {
                        proof {
                            assert(items.take(i + 1).last() == SObj::Dictionary(dc.sv()));
                            assert(spec_add(dbefore, SObj::Dictionary(dc.sv())) == (doc.sv(), Err::<ObjectId, SErr>(e.sv())));
                            assert(indirect_items(doc0, items.take(i + 1)) == (doc.sv(), Err::<Seq<SObj>, SErr>(e.sv())));
                            lemma_indirect_items_err(doc0, items, i as int);
                            assert(has_direct_dict(items)) by {
                                assert(items[i as int] is Dictionary);
                            }
                        }
                        return Err(e);
                    },
                }
                changed = true;
                proof {
                    let tj = items.take(i + 1);
                    assert(tj[i as int] is Dictionary);
                }
            },
            other => {
                rewritten.push(other.deep_clone());
                assert(sv_seq(rewritten@) =~= before.push(other.sv()));
                proof {
                    let ti = items.take(i as int);
                    let tj = items.take(i + 1);
                    if has_direct_dict(ti) {
                        let w = choose|w: int| 0 <= w < ti.len() && ti[w] is Dictionary;
                        assert(tj[w] is Dictionary);
                    }
                    if has_direct_dict(tj) {
                        let w = choose|w: int| 0 <= w < tj.len() && tj[w] is Dictionary;
                        assert(ti[w] is Dictionary);
                    }
                }
            },
        }
        i += 1;
    }
    assert(items.take(annotations.len() as int) =~= items);
    if changed {
        let ka = key_annots();
        let out = clone_items(&rewritten);
        write_array_entry(doc, page_id, ka.as_slice(), out)?;
    }
    Ok(rewritten)
}

} // verus!
