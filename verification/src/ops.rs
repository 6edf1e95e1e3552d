//! Page operations on a document: rotating pages, and choosing the pages a
//! split removes.
use vstd::prelude::*;
use crate::access::{SOut, spec_write, write_dict_object};
use crate::error::{PdferError, SErr, res_id, res_v};
use crate::keys::{k_rotate, key_rotate};
use crate::model::{PdfDocument, PdfObject, SDoc, SObj, lemma_dict_obj_sv, sd_set, sdoc_get_object};
use crate::objects::{int_text, int_text_exec};
use crate::text::{append_chars, string_from_chars, to_chars};

verus! {

broadcast use vstd::std_specs::vec::group_vec_axioms;

/// The rotations a page may be given.
pub open spec fn valid_rotation(degrees: i64) -> bool {
    degrees == 0 || degrees == 90 || degrees == 180 || degrees == 270
}

/// The message for a rotation that is not allowed.
pub open spec fn rotation_message(degrees: i64) -> Seq<char> {
    "invalid rotation degrees "@ + int_text(degrees as int) + ": must be 0, 90, 180, or 270"@
}

/// Setting `/Rotate` on the page with number `pn` (from 1): a number that
/// names no page, or a page object that cannot be looked up, is refused as a
/// missing page; one that is not a dictionary is refused as invalid.
pub open spec fn rotate_one(doc: SDoc, pn: u32, degrees: i64) -> SOut<()> {
    if pn < 1 || pn > doc.pages.len() {
        (doc, Err(SErr::MissingPage(pn as usize)))
    } else {
        let id = doc.pages[pn - 1];
        match sdoc_get_object(doc, id) {
            Err(_) => (doc, Err(SErr::MissingPage(pn as usize))),
            Ok(SObj::Dictionary(d)) => spec_write(
                doc,
                id,
                SObj::Dictionary(sd_set(d, k_rotate(), SObj::Integer(degrees))),
            ),
            Ok(_) => (doc, Err(SErr::InvalidStructure("page object is not a dictionary"@))),
        }
    }
}

/// The first `k` page numbers rotated, in order; the first failure stops.
pub open spec fn rotate_walk(doc: SDoc, pns: Seq<u32>, k: nat, degrees: i64) -> SOut<()>
    decreases k,
{
    if k == 0 {
        (doc, Ok(()))
    } else {
        let (d1, r1) = rotate_walk(doc, pns, (k - 1) as nat, degrees);
        match r1 {
            Err(e) => (d1, Err(e)),
            Ok(_) => rotate_one(d1, pns[k - 1], degrees),
        }
    }
}

/// Rotating the pages with the given numbers (from 1) to `degrees`, which
/// must be 0, 90, 180 or 270.
pub open spec fn spec_rotate_pages(doc: SDoc, pns: Seq<u32>, degrees: i64) -> SOut<()> {
    if !valid_rotation(degrees) {
        (doc, Err(SErr::Message(rotation_message(degrees))))
    } else {
        rotate_walk(doc, pns, pns.len(), degrees)
    }
}

proof fn lemma_rotate_walk_err(doc: SDoc, pns: Seq<u32>, i: nat, k: nat, degrees: i64)
    requires
        i <= k,
        rotate_walk(doc, pns, i, degrees).1 is Err,
    ensures
        rotate_walk(doc, pns, k, degrees) == rotate_walk(doc, pns, i, degrees),
    decreases k,
{
    if i < k {
        lemma_rotate_walk_err(doc, pns, i, (k - 1) as nat, degrees);
    }
}

fn rotate_one_exec(doc: &mut PdfDocument, pn: u32, degrees: i64) -> (r: Result<(), PdferError>)
    ensures
        (final(doc).sv(), res_id(r)) == rotate_one(old(doc).sv(), pn, degrees),
{
    if pn < 1 || pn as usize > doc.pages.len() {
        return Err(PdferError::MissingPage(pn as usize));
    }
    let id = doc.pages[(pn - 1) as usize];
    let d = match doc.get_object(id) {
        Err(_) => {
            return Err(PdferError::MissingPage(pn as usize));
        },
        Ok(PdfObject::Dictionary(d)) => {
            proof {
                lemma_dict_obj_sv(*d);
            }
            d.deep_clone()
        },
        Ok(_) => {
            return Err(PdferError::InvalidStructure("page object is not a dictionary"));
        },
    };
    let mut d2 = d;
    d2.set(key_rotate(), PdfObject::Integer(degrees));
    write_dict_object(doc, id, d2)
}

/// Rotates the pages with the given numbers (from 1).
pub fn rotate_pages(doc: &mut PdfDocument, page_numbers: &Vec<u32>, degrees: i64) -> (r: Result<
    (),
    PdferError,
>)
    ensures
        (final(doc).sv(), res_id(r)) == spec_rotate_pages(old(doc).sv(), page_numbers@, degrees),
{
    if !(degrees == 0 || degrees == 90 || degrees == 180 || degrees == 270) {
        let mut out = to_chars("invalid rotation degrees ");
        let d = int_text_exec(degrees);
        append_chars(&mut out, d.as_slice());
        let tail = to_chars(": must be 0, 90, 180, or 270");
        append_chars(&mut out, tail.as_slice());
        return Err(PdferError::Message(string_from_chars(out.as_slice())));
    }
    let ghost d0 = doc.sv();
    let mut i: usize = 0;
    while i < page_numbers.len()
        invariant
            i <= page_numbers.len(),
            d0 == old(doc).sv(),
            valid_rotation(degrees),
            rotate_walk(d0, page_numbers@, i as nat, degrees) == (doc.sv(), Ok::<(), SErr>(())),
        decreases page_numbers.len() - i,
    {
        match rotate_one_exec(doc, page_numbers[i], degrees) {
            Ok(()) => {},
            Err(e) => {
                proof {
                    lemma_rotate_walk_err(
                        d0,
                        page_numbers@,
                        (i + 1) as nat,
                        page_numbers.len() as nat,
                        degrees,
                    );
                }
                return Err(e);
            },
        }
        i += 1;
    }
    Ok(())
}

/// The page numbers (from 1, ascending) a split keeping `requested` removes
/// from a document of `count` pages: every page not requested. Nothing may
/// be requested that is not a page, and something must be.
pub open spec fn spec_pages_to_delete(count: u32, requested: Seq<u32>) -> Result<Seq<u32>, SErr> {
    if requested.len() == 0 {
        Err(SErr::Message("no page numbers specified"@))
    } else {
        match first_missing(count, requested, requested.len()) {
            Some(pn) => Err(SErr::MissingPage(pn as usize)),
            None => Ok(unrequested(count, requested, count as nat)),
        }
    }
}

/// The first of the first `k` requested numbers that names no page.
pub open spec fn first_missing(count: u32, requested: Seq<u32>, k: nat) -> Option<u32>
    decreases k,
{
    if k == 0 {
        None
    } else {
        match first_missing(count, requested, (k - 1) as nat) {
            Some(p) => Some(p),
            None => {
                let pn = requested[k - 1];
                if pn < 1 || pn > count {
                    Some(pn)
                } else {
                    None
                }
            },
        }
    }
}

/// The page numbers `1..=k` that are not requested, ascending.
pub open spec fn unrequested(count: u32, requested: Seq<u32>, k: nat) -> Seq<u32>
    decreases k,
{
    if k == 0 {
        seq![]
    } else {
        let rest = unrequested(count, requested, (k - 1) as nat);
        if requested.contains(k as u32) {
            rest
        } else {
            rest.push(k as u32)
        }
    }
}

fn contains_u32(v: &Vec<u32>, x: u32) -> (r: bool)
    ensures
        r == v@.contains(x),
{
    let mut i: usize = 0;
    while i < v.len()
        invariant
            i <= v.len(),
            forall|j: int| 0 <= j < i ==> v@[j] != x,
        decreases v.len() - i,
    {
        if v[i] == x {
            assert(v@[i as int] == x);
            return true;
        }
        i += 1;
    }
    false
}

/// The page numbers a split keeping `requested` removes from a document of
/// `count` pages.
pub fn pages_to_delete(count: u32, requested: &Vec<u32>) -> (r: Result<Vec<u32>, PdferError>)
    ensures
        res_v(r, |v: Vec<u32>| v@) == spec_pages_to_delete(count, requested@),
{
    if requested.len() == 0 {
        return Err(PdferError::Message("no page numbers specified".to_owned()));
    }
    let mut i: usize = 0;
    while i < requested.len()
        invariant
            i <= requested.len(),
            first_missing(count, requested@, i as nat) is None,
        decreases requested.len() - i,
    {
        let pn = requested[i];
        if pn < 1 || pn > count {
            proof {
                lemma_first_missing_found(count, requested@, (i + 1) as nat, requested.len() as nat);
            }
            return Err(PdferError::MissingPage(pn as usize));
        }
        i += 1;
    }
    let mut out: Vec<u32> = Vec::new();
    let mut k: u32 = 0;
    while k < count
        invariant
            k <= count,
            out@ == unrequested(count, requested@, k as nat),
        decreases count - k,
    {
        k = k + 1;
        if !contains_u32(requested, k) {
            out.push(k);
        }
    }
    Ok(out)
}

proof fn lemma_first_missing_found(count: u32, requested: Seq<u32>, i: nat, k: nat)
    requires
        i <= k,
        first_missing(count, requested, i) is Some,
    ensures
        first_missing(count, requested, k) == first_missing(count, requested, i),
    decreases k,
{
    if i < k {
        lemma_first_missing_found(count, requested, i, (k - 1) as nat);
    }
}

} // verus!
