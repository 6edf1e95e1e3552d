//! The document structure the form logic walks: the catalog, the interactive
//! form dictionary, pages and their annotation arrays, and entries held
//! directly or by reference, with the rewrites the writer makes to them.
//!
//! Operations that change the document are specified as functions from the
//! document before to the document after together with the result; when an
//! operation fails part way, the document keeps the changes made before the
//! failure.
use vstd::prelude::*;
use crate::error::{PdferError, SErr, lopdf_res, res_id, res_v};
use crate::keys::{k_acroform, k_fields, k_root, key_acroform, key_fields, key_root};
use crate::model::{ObjectId, PdfDict, PdfDocument, PdfObject, SDict, SDoc, SObj, lemma_array_obj_sv, lemma_dict_obj_sv, next_id, sd_get, sd_has, sd_set, sdoc_add, sdoc_get_dict, sdoc_get_object, sdoc_write, sv_seq};
use crate::objects::{clone_items, deref_dict, deref_dictionary, dict_ref, get_ref};
use crate::text::{copy_bytes};

verus! {

broadcast use vstd::std_specs::vec::group_vec_axioms;

/// A document after an operation, and the operation's result.
pub type SOut<T> = (SDoc, Result<T, SErr>);

// ---------------------------------------------------------------------------
// Catalog and interactive form
// ---------------------------------------------------------------------------
/// The id of the catalog: the trailer's `/Root` reference.
pub open spec fn spec_catalog_id(doc: SDoc) -> Result<ObjectId, SErr> {
    match dict_ref(doc.trailer, k_root()) {
        Some(id) => Ok(id),
        None => Err(SErr::MissingCatalog),
    }
}

/// The id of the catalog.
pub fn catalog_id(doc: &PdfDocument) -> (r: Result<ObjectId, PdferError>)
    ensures
        res_id(r) == spec_catalog_id(doc.sv()),
{
    let k = key_root();
    match get_ref(&doc.trailer, k.as_slice()) {
        Some(id) => Ok(id),
        None => Err(PdferError::MissingCatalog),
    }
}

/// The catalog dictionary.
pub open spec fn spec_catalog(doc: SDoc) -> Result<SDict, SErr> {
    match spec_catalog_id(doc) {
        Ok(c) => lopdf_res(sdoc_get_dict(doc, c)),
        Err(e) => Err(e),
    }
}

/// The catalog dictionary.
pub fn catalog(doc: &PdfDocument) -> (r: Result<&PdfDict, PdferError>)
    ensures
        res_v(r, |d: &PdfDict| d.sv()) == spec_catalog(doc.sv()),
{
    let c = catalog_id(doc)?;
    match doc.get_dictionary(c) {
        Ok(d) => Ok(d),
        Err(e) => Err(PdferError::Lopdf(e)),
    }
}

/// The catalog has an `/AcroForm` entry.
pub open spec fn spec_has_acroform(doc: SDoc) -> Result<bool, SErr> {
    match spec_catalog(doc) {
        Ok(c) => Ok(sd_has(c, k_acroform())),
        Err(e) => Err(e),
    }
}

/// The catalog has an `/AcroForm` entry.
pub fn has_acroform(doc: &PdfDocument) -> (r: Result<bool, PdferError>)
    ensures
        res_id(r) == spec_has_acroform(doc.sv()),
{
    let c = catalog(doc)?;
    let k = key_acroform();
    Ok(c.has(k.as_slice()))
}

/// The id of the interactive form dictionary when the catalog refers to it;
/// `None` when the catalog has none or holds it directly; refused when
/// `/AcroForm` is neither.
pub open spec fn spec_acroform_id(doc: SDoc) -> Result<Option<ObjectId>, SErr> {
    match spec_catalog(doc) {
        Err(e) => Err(e),
        Ok(c) => match sd_get(c, k_acroform()) {
            Some(SObj::Reference(id)) => Ok(Some(id)),
            Some(SObj::Dictionary(_)) => Ok(None),
            Some(_) => Err(SErr::InvalidStructure("/AcroForm is not a dictionary"@)),
            None => Ok(None),
        },
    }
}

/// The id of the interactive form dictionary, when the catalog refers to it.
pub fn get_acroform_id(doc: &PdfDocument) -> (r: Result<Option<ObjectId>, PdferError>)
    ensures
        res_id(r) == spec_acroform_id(doc.sv()),
{
    let c = catalog(doc)?;
    let k = key_acroform();
    match c.get(k.as_slice()) {
        Some(PdfObject::Reference(id)) => Ok(Some(*id)),
        Some(PdfObject::Dictionary(_)) => Ok(None),
        Some(_) => Err(PdferError::InvalidStructure("/AcroForm is not a dictionary")),
        None => Ok(None),
    }
}

/// The views of an optional list of objects.
pub open spec fn opt_objs(o: Option<Vec<PdfObject>>) -> Option<Seq<SObj>> {
    match o {
        Some(v) => Some(sv_seq(v@)),
        None => None,
    }
}

/// The `/Fields` array of an interactive form dictionary, given directly or
/// by reference; `None` when there is none.
pub open spec fn spec_fields_array(doc: SDoc, acro: SDict) -> Result<Option<Seq<SObj>>, SErr> {
    match sd_get(acro, k_fields()) {
        None => Ok(None),
        Some(SObj::Array(items)) => Ok(Some(items)),
        Some(SObj::Reference(id)) => match sdoc_get_object(doc, id) {
            Err(e) => Err(SErr::Lopdf(e)),
            Ok(SObj::Array(items)) => Ok(Some(items)),
            Ok(_) => Err(SErr::InvalidStructure("/Fields did not resolve to an array"@)),
        },
        Some(_) => Err(SErr::InvalidStructure("/Fields is not an array"@)),
    }
}

fn fields_array(doc: &PdfDocument, acro: &PdfDict) -> (r: Result<Option<Vec<PdfObject>>, PdferError>)
    ensures
        res_v(r, |o: Option<Vec<PdfObject>>| opt_objs(o)) == spec_fields_array(doc.sv(), acro.sv()),
{
    let kf = key_fields();
    match acro.get(kf.as_slice()) {
        None => Ok(None),
        Some(PdfObject::Array(items)) => {
            proof {
                lemma_array_obj_sv(*items);
            }
            Ok(Some(clone_items(items)))
        },
        Some(PdfObject::Reference(id)) => match doc.get_object(*id) {
            Err(e) => Err(PdferError::Lopdf(e)),
            Ok(PdfObject::Array(items)) => {
                proof {
                    lemma_array_obj_sv(*items);
                }
                Ok(Some(clone_items(items)))
            },
            Ok(_) => Err(PdferError::InvalidStructure("/Fields did not resolve to an array")),
        },
        Some(_) => Err(PdferError::InvalidStructure("/Fields is not an array")),
    }
}

/// The top-level fields: the `/Fields` array of the interactive form; `None`
/// when there is no form or no `/Fields`.
pub open spec fn spec_acroform_fields(doc: SDoc) -> Result<Option<Seq<SObj>>, SErr> {
    match spec_catalog(doc) {
        Err(e) => Err(e),
        Ok(cat) => match sd_get(cat, k_acroform()) {
            None => Ok(None),
            Some(a) => match deref_dict(doc, a) {
                Err(e) => Err(e),
                Ok(acro) => spec_fields_array(doc, acro),
            },
        },
    }
}

/// The top-level fields of the interactive form.
pub fn acroform_fields(doc: &PdfDocument) -> (r: Result<Option<Vec<PdfObject>>, PdferError>)
    ensures
        res_v(r, |o: Option<Vec<PdfObject>>| opt_objs(o)) == spec_acroform_fields(doc.sv()),
{
    let cat = catalog(doc)?;
    let ka = key_acroform();
    let acro_obj = match cat.get(ka.as_slice()) {
        None => {
            return Ok(None);
        },
        Some(a) => a,
    };
    let acro = deref_dictionary(doc, acro_obj)?;
    fields_array(doc, &acro)
}

// ---------------------------------------------------------------------------
// Adding and writing objects
// ---------------------------------------------------------------------------
/// Adding `o` as a new object: the document after, and the new id. Object
/// numbers are 32-bit; when the last one is taken nothing is added.
pub open spec fn spec_add(doc: SDoc, o: SObj) -> SOut<ObjectId> {
    if doc.max_id < u32::MAX {
        (sdoc_add(doc, o), Ok(next_id(doc)))
    } else {
        (doc, Err(SErr::Unsupported("object numbers are exhausted"@)))
    }
}

/// Adds `o` as a new object.
pub fn add_new_object(doc: &mut PdfDocument, o: PdfObject) -> (r: Result<ObjectId, PdferError>)
    ensures
        (final(doc).sv(), res_id(r)) == spec_add(old(doc).sv(), o.sv()),
{
    match doc.add_object(o) {
        Some(id) => Ok(id),
        None => Err(PdferError::Unsupported("object numbers are exhausted")),
    }
}

/// Writing `o` over the object `id` (through references).
pub open spec fn spec_write(doc: SDoc, id: ObjectId, o: SObj) -> SOut<()> {
    match sdoc_write(doc, id, o) {
        Ok(d) => (d, Ok(())),
        Err(e) => (doc, Err(SErr::Lopdf(e))),
    }
}

/// Writes `o` over the object `id`.
pub fn write_obj(doc: &mut PdfDocument, id: ObjectId, o: PdfObject) -> (r: Result<(), PdferError>)
    ensures
        (final(doc).sv(), res_id(r)) == spec_write(old(doc).sv(), id, o.sv()),
{
    match doc.write_object(id, o) {
        Ok(()) => Ok(()),
        Err(e) => Err(PdferError::Lopdf(e)),
    }
}

/// Writes the dictionary `d` over the object `id`.
pub fn write_dict_object(doc: &mut PdfDocument, id: ObjectId, d: PdfDict) -> (r: Result<
    (),
    PdferError,
>)
    ensures
        (final(doc).sv(), res_id(r)) == spec_write(old(doc).sv(), id, SObj::Dictionary(d.sv())),
{
    proof {
        lemma_dict_obj_sv(d);
    }
    write_obj(doc, id, PdfObject::Dictionary(d))
}

/// `owner` with `key` set to a reference to `id`, written back over `owner_id`.
pub open spec fn spec_link(doc: SDoc, owner_id: ObjectId, key: Seq<u8>, id: ObjectId) -> SOut<
    ObjectId,
> {
    match sdoc_get_dict(doc, owner_id) {
        Err(e) => (doc, Err(SErr::Lopdf(e))),
        Ok(owner) => {
            let (d1, w) = spec_write(
                doc,
                owner_id,
                SObj::Dictionary(sd_set(owner, key, SObj::Reference(id))),
            );
            match w {
                Ok(_) => (d1, Ok(id)),
                Err(e) => (d1, Err(e)),
            }
        },
    }
}

/// Points `owner_id`'s `key` at `id`.
fn link_entry(doc: &mut PdfDocument, owner_id: ObjectId, key: &[u8], id: ObjectId) -> (r: Result<
    ObjectId,
    PdferError,
>)
    ensures
        (final(doc).sv(), res_id(r)) == spec_link(old(doc).sv(), owner_id, key@, id),
{
    let mut owner = match doc.get_dictionary(owner_id) {
        Ok(o) => o.deep_clone(),
        Err(e) => {
            return Err(PdferError::Lopdf(e));
        },
    };
    let ghost ref_v = SObj::Reference(id);
    owner.set(copy_bytes(key), PdfObject::Reference(id));
    write_dict_object(doc, owner_id, owner)?;
    Ok(id)
}

/// Makes the dictionary stored under `key` in `owner_id` an indirect object
/// and returns its id: a reference is returned as it is; a direct
/// dictionary, or a missing entry (as an empty dictionary), is added as a new
/// object that the entry then refers to; any other value is refused.
#[verifier::opaque]
pub open spec fn spec_ensure_indirect(doc: SDoc, owner_id: ObjectId, key: Seq<u8>) -> SOut<
    ObjectId,
> {
    match sdoc_get_dict(doc, owner_id) {
        Err(e) => (doc, Err(SErr::Lopdf(e))),
        Ok(owner) => match sd_get(owner, key) {
            Some(SObj::Reference(id)) => (doc, Ok(id)),
            Some(SObj::Dictionary(d)) => {
                let (d1, a) = spec_add(doc, SObj::Dictionary(d));
                match a {
                    Err(e) => (d1, Err(e)),
                    Ok(new_id) => spec_link(d1, owner_id, key, new_id),
                }
            },
            Some(_) => (doc, Err(SErr::InvalidStructure("dictionary entry is not a dictionary"@))),
            None => {
                let (d1, a) = spec_add(doc, SObj::Dictionary(seq![]));
                match a {
                    Err(e) => (d1, Err(e)),
                    Ok(new_id) => spec_link(d1, owner_id, key, new_id),
                }
            },
        },
    }
}

/// Makes the dictionary under `key` in `owner_id` indirect; its id.
pub fn ensure_indirect_dictionary_entry(doc: &mut PdfDocument, owner_id: ObjectId, key: &[u8]) -> (r:
    Result<ObjectId, PdferError>)
    ensures
        (final(doc).sv(), res_id(r)) == spec_ensure_indirect(old(doc).sv(), owner_id, key@),
{
    reveal(spec_ensure_indirect);
    let existing = match doc.get_dictionary(owner_id) {
        Err(e) => {
            return Err(PdferError::Lopdf(e));
        },
        Ok(owner) => match owner.get(key) {
            Some(o) => Some(o.deep_clone()),
            None => None,
        },
    };
    match existing {
        Some(PdfObject::Reference(id)) => Ok(id),
        Some(PdfObject::Dictionary(d)) => {
            proof {
                lemma_dict_obj_sv(d);
            }
            let new_id = add_new_object(doc, PdfObject::Dictionary(d))?;
            link_entry(doc, owner_id, key, new_id)
        },
        Some(_) => Err(PdferError::InvalidStructure("dictionary entry is not a dictionary")),
        None => {
            let empty = PdfDict::new();
            proof {
                lemma_dict_obj_sv(empty);
            }
            let new_id = add_new_object(doc, PdfObject::Dictionary(empty))?;
            link_entry(doc, owner_id, key, new_id)
        },
    }
}

// ---------------------------------------------------------------------------
// Array entries
// ---------------------------------------------------------------------------
/// The array stored under `key` in `owner_id`, given directly or by
/// reference; `None` when there is no entry.
#[verifier::opaque]
pub open spec fn spec_read_array(doc: SDoc, owner_id: ObjectId, key: Seq<u8>) -> Result<
    Option<Seq<SObj>>,
    SErr,
> {
    match sdoc_get_dict(doc, owner_id) {
        Err(e) => Err(SErr::Lopdf(e)),
        Ok(owner) => match sd_get(owner, key) {
            None => Ok(None),
            Some(SObj::Array(items)) => Ok(Some(items)),
            Some(SObj::Reference(id)) => match sdoc_get_object(doc, id) {
                Err(e) => Err(SErr::Lopdf(e)),
                Ok(SObj::Array(items)) => Ok(Some(items)),
                Ok(_) => Err(SErr::InvalidStructure("entry did not resolve to array"@)),
            },
            Some(_) => Err(SErr::InvalidStructure("entry was not array or indirect array"@)),
        },
    }
}

/// The array stored under `key` in `owner_id`.
pub fn read_array_entry_clone(doc: &PdfDocument, owner_id: ObjectId, key: &[u8]) -> (r: Result<
    Option<Vec<PdfObject>>,
    PdferError,
>)
    ensures
        res_v(r, |o: Option<Vec<PdfObject>>| opt_objs(o)) == spec_read_array(doc.sv(), owner_id, key@),
{
    reveal(spec_read_array);
    let owner = match doc.get_dictionary(owner_id) {
        Err(e) => {
            return Err(PdferError::Lopdf(e));
        },
        Ok(o) => o,
    };
    match owner.get(key) {
        None => Ok(None),
        Some(PdfObject::Array(items)) => {
            proof {
                lemma_array_obj_sv(*items);
            }
            Ok(Some(clone_items(items)))
        },
        Some(PdfObject::Reference(id)) => match doc.get_object(*id) {
            Err(e) => Err(PdferError::Lopdf(e)),
            Ok(PdfObject::Array(items)) => {
                proof {
                    lemma_array_obj_sv(*items);
                }
                Ok(Some(clone_items(items)))
            },
            Ok(_) => Err(PdferError::InvalidStructure("entry did not resolve to array")),
        },
        Some(_) => Err(PdferError::InvalidStructure("entry was not array or indirect array")),
    }
}

/// Stores `values` under `key` in `owner_id`: into the referenced object when
/// the entry is a reference, else as a direct array in the owner.
#[verifier::opaque]
pub open spec fn spec_write_array(doc: SDoc, owner_id: ObjectId, key: Seq<u8>, values: Seq<SObj>) -> SOut<
    (),
> {
    match sdoc_get_dict(doc, owner_id) {
        Err(e) => (doc, Err(SErr::Lopdf(e))),
        Ok(owner) => match sd_get(owner, key) {
            Some(SObj::Reference(id)) => spec_write(doc, id, SObj::Array(values)),
            _ => spec_write(
                doc,
                owner_id,
                SObj::Dictionary(sd_set(owner, key, SObj::Array(values))),
            ),
        },
    }
}

/// Stores `values` under `key` in `owner_id`.
pub fn write_array_entry(doc: &mut PdfDocument, owner_id: ObjectId, key: &[u8], values: Vec<
    PdfObject,
>) -> (r: Result<(), PdferError>)
    ensures
        (final(doc).sv(), res_id(r)) == spec_write_array(
            old(doc).sv(),
            owner_id,
            key@,
            sv_seq(values@),
        ),
{
    reveal(spec_write_array);
    proof {
        lemma_array_obj_sv(values);
    }
    let current = match doc.get_dictionary(owner_id) {
        Err(e) => {
            return Err(PdferError::Lopdf(e));
        },
        Ok(owner) => match owner.get(key) {
            Some(PdfObject::Reference(id)) => Some(*id),
            _ => None,
        },
    };
    match current {
        Some(id) => write_obj(doc, id, PdfObject::Array(values)),
        None => {
            let mut owner = match doc.get_dictionary(owner_id) {
                Err(e) => {
                    return Err(PdferError::Lopdf(e));
                },
                Ok(o) => o.deep_clone(),
            };
            owner.set(copy_bytes(key), PdfObject::Array(values));
            write_dict_object(doc, owner_id, owner)
        },
    }
}

} // verus!
