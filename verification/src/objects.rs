//! Reading values out of objects and dictionaries: references, names, text,
//! inherited entries, fully-qualified field names and the textual rendering
//! of arbitrary objects.
use vstd::prelude::*;
use crate::error::{PdferError, SErr};
use crate::keys::{k_ff, k_kids, k_parent, k_subtype, k_t, k_tm, key_ff, key_kids, key_parent, key_subtype, key_t, key_tm, w_widget, word_widget};
use crate::model::{ObjectId, PdfDict, PdfDocument, PdfObject, SDict, SDoc, SObj, StringFormat, lemma_array_obj_sv, lemma_dict_obj_sv, sd_get, sdoc_get_dict, sdoc_get_object, sv_seq};
use crate::text::{append_chars, bytes_to_string, chars_eq, decimal, decimal_chars, decode_pdf_text, digit_char, spec_decode_pdf_text, spec_doc_decode, string_from_chars, to_chars};
use vstd::utf8::{decode_utf8, valid_utf8};

verus! {

broadcast use vstd::std_specs::vec::group_vec_axioms;

/// How deep the recursive walks of the object graph may go. No real document
/// comes near it: it only gives the walks a measure.
pub const DEPTH_BOUND: u64 = 0xFFFF_FFFF_FFFF_FFFF;

// ---------------------------------------------------------------------------
// Single objects
// ---------------------------------------------------------------------------
/// The id of a reference.
pub open spec fn obj_ref(o: SObj) -> Option<ObjectId> {
    match o {
        SObj::Reference(id) => Some(id),
        _ => None,
    }
}

/// A name's text.
pub open spec fn obj_name(o: SObj) -> Option<Seq<char>> {
    match o {
        SObj::Name(n) => Some(spec_doc_decode(n)),
        _ => None,
    }
}

/// The text of a string or a name.
pub open spec fn obj_text(o: SObj) -> Option<Seq<char>> {
    match o {
        SObj::Str(b, _) => Some(spec_decode_pdf_text(b)),
        SObj::Name(n) => Some(spec_doc_decode(n)),
        _ => None,
    }
}

/// The text stored under `k`.
pub open spec fn dict_text(d: SDict, k: Seq<u8>) -> Option<Seq<char>> {
    match sd_get(d, k) {
        Some(o) => obj_text(o),
        None => None,
    }
}

/// The name stored under `k`.
pub open spec fn dict_name(d: SDict, k: Seq<u8>) -> Option<Seq<char>> {
    match sd_get(d, k) {
        Some(o) => obj_name(o),
        None => None,
    }
}

/// The reference stored under `k`.
pub open spec fn dict_ref(d: SDict, k: Seq<u8>) -> Option<ObjectId> {
    match sd_get(d, k) {
        Some(o) => obj_ref(o),
        None => None,
    }
}

/// The dictionary is a widget annotation.
pub open spec fn is_widget(d: SDict) -> bool {
    dict_name(d, k_subtype()) == Some(w_widget())
}

/// The id of a reference.
pub fn object_reference(o: &PdfObject) -> (r: Option<ObjectId>)
    ensures
        r == obj_ref(o.sv()),
{
    match o {
        PdfObject::Reference(id) => Some(*id),
        _ => None,
    }
}

/// A name's text.
pub fn object_name(o: &PdfObject) -> (r: Option<String>)
    ensures
        r matches Some(s) ==> obj_name(o.sv()) == Some(s@),
        r is None ==> obj_name(o.sv()) is None,
{
    match o {
        PdfObject::Name(n) => Some(bytes_to_string(n.as_slice())),
        _ => None,
    }
}

/// The text of a string or a name.
pub fn object_to_text(o: &PdfObject) -> (r: Option<String>)
    ensures
        r matches Some(s) ==> obj_text(o.sv()) == Some(s@),
        r is None ==> obj_text(o.sv()) is None,
{
    match o {
        PdfObject::Str(b, _) => Some(decode_pdf_text(b.as_slice())),
        PdfObject::Name(n) => Some(bytes_to_string(n.as_slice())),
        _ => None,
    }
}

/// The text stored under `key`.
pub fn get_text(d: &PdfDict, key: &[u8]) -> (r: Option<String>)
    ensures
        r matches Some(s) ==> dict_text(d.sv(), key@) == Some(s@),
        r is None ==> dict_text(d.sv(), key@) is None,
{
    match d.get(key) {
        Some(o) => object_to_text(o),
        None => None,
    }
}

/// The name stored under `key`.
pub fn get_name(d: &PdfDict, key: &[u8]) -> (r: Option<String>)
    ensures
        r matches Some(s) ==> dict_name(d.sv(), key@) == Some(s@),
        r is None ==> dict_name(d.sv(), key@) is None,
{
    match d.get(key) {
        Some(o) => object_name(o),
        None => None,
    }
}

/// The reference stored under `key`.
pub fn get_ref(d: &PdfDict, key: &[u8]) -> (r: Option<ObjectId>)
    ensures
        r == dict_ref(d.sv(), key@),
{
    match d.get(key) {
        Some(o) => object_reference(o),
        None => None,
    }
}

/// The text of an optional string equals the characters `w`.
pub fn opt_text_is(t: &Option<String>, w: &Vec<char>) -> (r: bool)
    ensures
        r == (match t {
            Some(s) => s@ == w@,
            None => false,
        }),
{
    match t {
        Some(s) => {
            let c = to_chars(s.as_str());
            chars_eq(c.as_slice(), w.as_slice())
        },
        None => false,
    }
}

/// The dictionary is a widget annotation.
pub fn dict_is_widget(d: &PdfDict) -> (r: bool)
    ensures
        r == is_widget(d.sv()),
{
    let k = key_subtype();
    let n = get_name(d, k.as_slice());
    let w = word_widget();
    opt_text_is(&n, &w)
}

/// A dictionary given directly or by reference.
pub open spec fn deref_dict(doc: SDoc, o: SObj) -> Result<SDict, SErr> {
    match o {
        SObj::Dictionary(d) => Ok(d),
        SObj::Reference(id) => match sdoc_get_dict(doc, id) {
            Ok(d) => Ok(d),
            Err(e) => Err(SErr::Lopdf(e)),
        },
        _ => Err(SErr::InvalidStructure("object is not a dictionary"@)),
    }
}

/// A copy of the dictionary given directly or by reference.
pub fn deref_dictionary(doc: &PdfDocument, o: &PdfObject) -> (r: Result<PdfDict, PdferError>)
    ensures
        r matches Ok(d) ==> deref_dict(doc.sv(), o.sv()) == Ok::<SDict, SErr>(d.sv()),
        r matches Err(e) ==> deref_dict(doc.sv(), o.sv()) == Err::<SDict, SErr>(e.sv()),
{
    match o {
        PdfObject::Dictionary(d) => {
            proof {
                lemma_dict_obj_sv(*d);
            }
            Ok(d.deep_clone())
        },
        PdfObject::Reference(id) => match doc.get_dictionary(*id) {
            Ok(d) => Ok(d.deep_clone()),
            Err(e) => Err(PdferError::Lopdf(e)),
        },
        _ => Err(PdferError::InvalidStructure("object is not a dictionary")),
    }
}

// ---------------------------------------------------------------------------
// Arrays given directly or by reference
// ---------------------------------------------------------------------------
/// The items of an array given directly, or by a reference to an array;
/// anything else has no items.
pub open spec fn array_items(doc: SDoc, o: SObj) -> Seq<SObj> {
    match o {
        SObj::Array(items) => items,
        SObj::Reference(id) => match sdoc_get_object(doc, id) {
            Ok(SObj::Array(items)) => items,
            _ => seq![],
        },
        _ => seq![],
    }
}

/// The kids of a field: its `/Kids` array, given directly or by reference.
pub open spec fn kid_objects(doc: SDoc, d: SDict) -> Seq<SObj> {
    match sd_get(d, k_kids()) {
        Some(o) => array_items(doc, o),
        None => seq![],
    }
}

/// The dictionary has a `/Kids` entry that is an array, directly or by
/// reference.
pub open spec fn has_kids_array(doc: SDoc, d: SDict) -> bool {
    match sd_get(d, k_kids()) {
        Some(SObj::Array(_)) => true,
        Some(SObj::Reference(id)) => sdoc_get_object(doc, id) matches Ok(SObj::Array(_)),
        _ => false,
    }
}

/// Copies of the items of a vector of objects.
pub fn clone_items(v: &Vec<PdfObject>) -> (r: Vec<PdfObject>)
    ensures
        sv_seq(r@) == sv_seq(v@),
{
    let mut r: Vec<PdfObject> = Vec::new();
    let mut i: usize = 0;
    while i < v.len()
        invariant
            i <= v.len(),
            r.len() == i,
            forall|j: int| 0 <= j < i ==> r@[j].sv() == v@[j].sv(),
        decreases v.len() - i,
    {
        r.push(v[i].deep_clone());
        i += 1;
    }
    assert(sv_seq(r@) =~= sv_seq(v@));
    r
}

/// The items of an array given directly or by reference.
pub fn array_items_of(doc: &PdfDocument, o: &PdfObject) -> (r: Vec<PdfObject>)
    ensures
        sv_seq(r@) == array_items(doc.sv(), o.sv()),
{
    match o {
        PdfObject::Array(items) => {
            proof {
                lemma_array_obj_sv(*items);
            }
            clone_items(items)
        },
        PdfObject::Reference(id) => match doc.get_object(*id) {
            Ok(PdfObject::Array(items)) => {
                proof {
                    lemma_array_obj_sv(*items);
                }
                clone_items(items)
            },
            _ => {
                let r: Vec<PdfObject> = Vec::new();
                assert(sv_seq(r@) =~= seq![]);
                r
            },
        },
        _ => {
            let r: Vec<PdfObject> = Vec::new();
            assert(sv_seq(r@) =~= seq![]);
            r
        },
    }
}

/// The kids of a field.
pub fn kids_of(doc: &PdfDocument, d: &PdfDict) -> (r: Vec<PdfObject>)
    ensures
        sv_seq(r@) == kid_objects(doc.sv(), d.sv()),
{
    let k = key_kids();
    match d.get(k.as_slice()) {
        Some(o) => array_items_of(doc, o),
        None => {
            let r: Vec<PdfObject> = Vec::new();
            assert(sv_seq(r@) =~= seq![]);
            r
        },
    }
}

/// The dictionary has a `/Kids` array.
pub fn has_kids(doc: &PdfDocument, d: &PdfDict) -> (r: bool)
    ensures
        r == has_kids_array(doc.sv(), d.sv()),
{
    let k = key_kids();
    match d.get(k.as_slice()) {
        Some(PdfObject::Array(_)) => true,
        Some(PdfObject::Reference(id)) => match doc.get_object(*id) {
            Ok(PdfObject::Array(_)) => true,
            _ => false,
        },
        _ => false,
    }
}

// ---------------------------------------------------------------------------
// Inherited entries
// ---------------------------------------------------------------------------
/// The value of `k` in `d` or, when absent, in the nearest ancestor along the
/// `/Parent` references (at most `fuel` steps up).
pub open spec fn inherited(doc: SDoc, d: SDict, k: Seq<u8>, fuel: nat) -> Option<SObj>
    decreases fuel,
{
    match sd_get(d, k) {
        Some(o) => Some(o),
        None => if fuel == 0 {
            None
        } else {
            match dict_ref(d, k_parent()) {
                Some(pid) => match sdoc_get_dict(doc, pid) {
                    Ok(pd) => inherited(doc, pd, k, (fuel - 1) as nat),
                    Err(_) => None,
                },
                None => None,
            }
        },
    }
}

/// The inherited value of `k` for the field dictionary `d`.
pub open spec fn spec_inherited(doc: SDoc, d: SDict, k: Seq<u8>) -> Option<SObj> {
    inherited(doc, d, k, DEPTH_BOUND as nat)
}

fn inherited_rec(doc: &PdfDocument, d: &PdfDict, key: &[u8], fuel: u64) -> (r: Option<PdfObject>)
    ensures
        r matches Some(o) ==> inherited(doc.sv(), d.sv(), key@, fuel as nat) == Some(o.sv()),
        r is None ==> inherited(doc.sv(), d.sv(), key@, fuel as nat) is None,
    decreases fuel,
{
    match d.get(key) {
        Some(o) => Some(o.deep_clone()),
        None => {
            if fuel == 0 {
                return None;
            }
            let kp = key_parent();
            match get_ref(d, kp.as_slice()) {
                Some(pid) => match doc.get_dictionary(pid) {
                    Ok(pd) => inherited_rec(doc, pd, key, fuel - 1),
                    Err(_) => None,
                },
                None => None,
            }
        },
    }
}

/// The value of `key` in the field dictionary `d`, inherited from its
/// ancestors when `d` lacks it.
pub fn inherited_object(doc: &PdfDocument, d: &PdfDict, key: &[u8]) -> (r: Option<PdfObject>)
    ensures
        r matches Some(o) ==> spec_inherited(doc.sv(), d.sv(), key@) == Some(o.sv()),
        r is None ==> spec_inherited(doc.sv(), d.sv(), key@) is None,
{
    inherited_rec(doc, d, key, DEPTH_BOUND)
}

/// The inherited name under `k`.
pub open spec fn inherited_name(doc: SDoc, d: SDict, k: Seq<u8>) -> Option<Seq<char>> {
    match spec_inherited(doc, d, k) {
        Some(o) => obj_name(o),
        None => None,
    }
}

/// The inherited integer under `k`.
pub open spec fn inherited_int(doc: SDoc, d: SDict, k: Seq<u8>) -> Option<i64> {
    match spec_inherited(doc, d, k) {
        Some(SObj::Integer(i)) => Some(i),
        _ => None,
    }
}

/// The inherited name under `key`.
pub fn inherited_name_of(doc: &PdfDocument, d: &PdfDict, key: &[u8]) -> (r: Option<String>)
    ensures
        r matches Some(s) ==> inherited_name(doc.sv(), d.sv(), key@) == Some(s@),
        r is None ==> inherited_name(doc.sv(), d.sv(), key@) is None,
{
    match inherited_object(doc, d, key) {
        Some(o) => object_name(&o),
        None => None,
    }
}

/// The inherited integer under `key`.
pub fn inherited_integer(doc: &PdfDocument, d: &PdfDict, key: &[u8]) -> (r: Option<i64>)
    ensures
        r == inherited_int(doc.sv(), d.sv(), key@),
{
    match inherited_object(doc, d, key) {
        Some(PdfObject::Integer(i)) => Some(i),
        _ => None,
    }
}

/// The field flags (`/Ff`, inherited; 0 when absent), truncated to 32 bits.
pub open spec fn field_flags_of(doc: SDoc, d: SDict) -> u32 {
    match inherited_int(doc, d, k_ff()) {
        Some(i) => i as u32,
        None => 0,
    }
}

/// The field flags of `d`.
pub fn flags_of(doc: &PdfDocument, d: &PdfDict) -> (r: u32)
    ensures
        r == field_flags_of(doc.sv(), d.sv()),
{
    let k = key_ff();
    match inherited_integer(doc, d, k.as_slice()) {
        Some(i) => {
            #[verifier::truncate]
            (i as u32)
        },
        None => 0,
    }
}

// ---------------------------------------------------------------------------
// Fully-qualified names
// ---------------------------------------------------------------------------
/// `parent.local`, leaving out an empty part.
pub open spec fn join_name(parent: Seq<char>, local: Seq<char>) -> Seq<char> {
    if parent.len() == 0 {
        local
    } else if local.len() == 0 {
        parent
    } else {
        parent.push('.') + local
    }
}

/// The fully-qualified name of the field `id`: its `/TM` when present, else
/// the `/T` of its ancestors and its own, joined by dots. An id met a second
/// time on the way up contributes an empty name.
pub open spec fn qname(doc: SDoc, id: ObjectId, visited: Seq<ObjectId>, fuel: nat) -> Result<
    Seq<char>,
    SErr,
>
    decreases fuel,
{
    if visited.contains(id) || fuel == 0 {
        Ok(seq![])
    } else {
        match sdoc_get_dict(doc, id) {
            Err(e) => Err(SErr::Lopdf(e)),
            Ok(d) => match dict_text(d, k_tm()) {
                Some(m) => Ok(m),
                None => {
                    let local = match dict_text(d, k_t()) {
                        Some(t) => t,
                        None => seq![],
                    };
                    match dict_ref(d, k_parent()) {
                        Some(p) => match qname(doc, p, visited.push(id), (fuel - 1) as nat) {
                            Ok(pn) => Ok(join_name(pn, local)),
                            Err(e) => Err(e),
                        },
                        None => Ok(local),
                    }
                },
            },
        }
    }
}

/// The fully-qualified name of the field `id`.
pub open spec fn spec_qualified_name(doc: SDoc, id: ObjectId) -> Result<Seq<char>, SErr> {
    qname(doc, id, seq![], DEPTH_BOUND as nat)
}

/// The fully-qualified name of a field dictionary that has no id.
pub open spec fn spec_qualified_name_of_dict(doc: SDoc, d: SDict) -> Seq<char> {
    match dict_text(d, k_tm()) {
        Some(m) => m,
        None => {
            let local = match dict_text(d, k_t()) {
                Some(t) => t,
                None => seq![],
            };
            match dict_ref(d, k_parent()) {
                Some(p) => match spec_qualified_name(doc, p) {
                    Ok(pn) => join_name(pn, local),
                    Err(_) => local,
                },
                None => local,
            }
        },
    }
}

fn contains_id(v: &Vec<ObjectId>, id: ObjectId) -> (r: bool)
    ensures
        r == v@.contains(id),
{
    let mut i: usize = 0;
    while i < v.len()
        invariant
            i <= v.len(),
            forall|j: int| 0 <= j < i ==> v@[j] != id,
        decreases v.len() - i,
    {
        if v[i].0 == id.0 && v[i].1 == id.1 {
            assert(v@[i as int] == id);
            return true;
        }
        i += 1;
    }
    false
}

fn join_name_exec(parent: String, local: String) -> (r: String)
    ensures
        r@ == join_name(parent@, local@),
{
    if parent.as_str().is_empty() {
        local
    } else if local.as_str().is_empty() {
        parent
    } else {
        let mut p = to_chars(parent.as_str());
        p.push('.');
        let l = to_chars(local.as_str());
        let mut i: usize = 0;
        while i < l.len()
            invariant
                i <= l.len(),
                p@ == parent@.push('.') + l@.take(i as int),
            decreases l.len() - i,
        {
            p.push(l[i]);
            assert(l@.take(i + 1) =~= l@.take(i as int).push(l@[i as int]));
            assert(parent@.push('.') + l@.take(i + 1) =~= (parent@.push('.') + l@.take(
                i as int,
            )).push(l@[i as int]));
            i += 1;
        }
        assert(l@.take(l.len() as int) =~= l@);
        string_from_chars(p.as_slice())
    }
}

#[verifier::rlimit(40)]
fn qname_rec(doc: &PdfDocument, id: ObjectId, visited: &mut Vec<ObjectId>, fuel: u64) -> (r:
    Result<String, PdferError>)
    ensures
        r matches Ok(s) ==> qname(doc.sv(), id, old(visited)@, fuel as nat) == Ok::<
            Seq<char>,
            SErr,
        >(s@),
        r matches Err(e) ==> qname(doc.sv(), id, old(visited)@, fuel as nat) == Err::<
            Seq<char>,
            SErr,
        >(e.sv()),
    decreases fuel,
{
    if contains_id(visited, id) || fuel == 0 {
        return Ok(String::new());
    }
    visited.push(id);
    let d = match doc.get_dictionary(id) {
        Ok(d) => d,
        Err(e) => {
            return Err(PdferError::Lopdf(e));
        },
    };
    let ktm = key_tm();
    match get_text(d, ktm.as_slice()) {
        Some(m) => {
            return Ok(m);
        },
        None => {},
    }
    let kt = key_t();
    let local = match get_text(d, kt.as_slice()) {
        Some(t) => t,
        None => String::new(),
    };
    let kp = key_parent();
    match get_ref(d, kp.as_slice()) {
        Some(p) => match qname_rec(doc, p, visited, fuel - 1) {
            Ok(pn) => Ok(join_name_exec(pn, local)),
            Err(e) => Err(e),
        },
        None => Ok(local),
    }
}

/// The fully-qualified name of the field `id`.
pub fn qualified_name_from_id(doc: &PdfDocument, id: ObjectId) -> (r: Result<String, PdferError>)
    ensures
        r matches Ok(s) ==> spec_qualified_name(doc.sv(), id) == Ok::<Seq<char>, SErr>(s@),
        r matches Err(e) ==> spec_qualified_name(doc.sv(), id) == Err::<Seq<char>, SErr>(e.sv()),
{
    let mut visited: Vec<ObjectId> = Vec::new();
    assert(visited@ =~= Seq::<ObjectId>::empty());
    qname_rec(doc, id, &mut visited, DEPTH_BOUND)
}

/// The fully-qualified name of a field dictionary that has no id.
pub fn qualified_name_from_dict(doc: &PdfDocument, d: &PdfDict) -> (r: String)
    ensures
        r@ == spec_qualified_name_of_dict(doc.sv(), d.sv()),
{
    let ktm = key_tm();
    match get_text(d, ktm.as_slice()) {
        Some(m) => {
            return m;
        },
        None => {},
    }
    let kt = key_t();
    let local = match get_text(d, kt.as_slice()) {
        Some(t) => t,
        None => String::new(),
    };
    let kp = key_parent();
    match get_ref(d, kp.as_slice()) {
        Some(p) => match qualified_name_from_id(doc, p) {
            Ok(pn) => join_name_exec(pn, local),
            Err(_) => local,
        },
        None => local,
    }
}

// ---------------------------------------------------------------------------
// The textual rendering of an object
// ---------------------------------------------------------------------------
/// Lossy UTF-8 decoding: what `String::from_utf8_lossy` gives.
pub uninterp spec fn utf8_lossy(bytes: Seq<u8>) -> Seq<char>;

/// Trusted: `String::from_utf8_lossy` decodes UTF-8, replacing invalid
/// sequences; on valid UTF-8 it is the plain decoding.
#[verifier::external_body]
fn utf8_lossy_string(bytes: &[u8]) -> (r: String)
    ensures
        r@ == utf8_lossy(bytes@),
        valid_utf8(bytes@) ==> r@ == decode_utf8(bytes@),
{
    String::from_utf8_lossy(bytes).into_owned()
}

/// The lower-case hexadecimal digit for `d < 16`.
pub open spec fn hex_digit(d: nat) -> char {
    if d < 10 {
        digit_char(d)
    } else {
        ((87 + d) as u8) as char
    }
}

/// Two lower-case hexadecimal digits per byte.
pub open spec fn hex_text(b: Seq<u8>) -> Seq<char>
    decreases b.len(),
{
    if b.len() == 0 {
        seq![]
    } else {
        hex_text(b.drop_last()) + seq![hex_digit((b.last() / 16) as nat), hex_digit((b.last() % 16) as nat)]
    }
}

/// The decimal text of a signed integer.
pub open spec fn int_text(i: int) -> Seq<char> {
    if i < 0 {
        seq!['-'] + decimal((-i) as nat)
    } else {
        decimal(i as nat)
    }
}

/// The rendering of an object: `Null`, `true`, `42`, the real's decimal text,
/// `/Name`, `(text)`, `<hex>`, `[a b]`, `<</Key value>>`, a dictionary
/// followed by `stream...endstream`, `12 0 R`.
pub open spec fn debug_text(o: SObj) -> Seq<char>
    decreases o,
{
    match o {
        SObj::Null => seq!['N', 'u', 'l', 'l'],
        SObj::Boolean(b) => if b {
            seq!['t', 'r', 'u', 'e']
        } else {
            seq!['f', 'a', 'l', 's', 'e']
        },
        SObj::Integer(i) => int_text(i as int),
        SObj::Real(_, t) => t,
        SObj::Name(n) => seq!['/'] + utf8_lossy(n),
        SObj::Str(t, StringFormat::Literal) => seq!['('] + utf8_lossy(t) + seq![')'],
        SObj::Str(t, StringFormat::Hexadecimal) => seq!['<'] + hex_text(t) + seq!['>'],
        SObj::Array(items) => seq!['['] + debug_items(items) + seq![']'],
        SObj::Dictionary(d) => seq!['<', '<'] + debug_entries(d) + seq!['>', '>'],
        SObj::Stream(d, _) => seq!['<', '<'] + debug_entries(d) + seq!['>', '>'] + seq![
            's',
            't',
            'r',
            'e',
            'a',
            'm',
            '.',
            '.',
            '.',
            'e',
            'n',
            'd',
            's',
            't',
            'r',
            'e',
            'a',
            'm',
        ],
        SObj::Reference(id) => decimal(id.0 as nat) + seq![' '] + decimal(id.1 as nat) + seq![
            ' ',
            'R',
        ],
    }
}

/// The renderings of the items, separated by single spaces.
pub open spec fn debug_items(items: Seq<SObj>) -> Seq<char>
    decreases items,
{
    if items.len() == 0 {
        seq![]
    } else if items.len() == 1 {
        debug_text(items[0])
    } else {
        debug_items(items.drop_last()) + seq![' '] + debug_text(items.last())
    }
}

/// The entries rendered as `/Key value`, one after the other.
pub open spec fn debug_entries(d: SDict) -> Seq<char>
    decreases d,
{
    if d.len() == 0 {
        seq![]
    } else {
        debug_entries(d.drop_last()) + seq!['/'] + utf8_lossy(d.last().0) + seq![' '] + debug_text(
            d.last().1,
        )
    }
}

fn append_string(out: &mut Vec<char>, s: &String)
    ensures
        final(out)@ == old(out)@ + s@,
{
    let c = to_chars(s.as_str());
    append_chars(out, c.as_slice());
}

fn hex_digit_exec(d: u8) -> (c: char)
    requires
        d < 16,
    ensures
        c == hex_digit(d as nat),
{
    if d < 10 {
        (d + 48) as char
    } else {
        (d + 87) as char
    }
}

pub fn int_text_exec(i: i64) -> (r: Vec<char>)
    ensures
        r@ == int_text(i as int),
{
    if i < 0 {
        let m: u128 = (0 - (i as i128)) as u128;
        let d = decimal_chars(m);
        let mut r = vec!['-'];
        append_chars(&mut r, d.as_slice());
        assert(r@ =~= seq!['-'] + decimal((-(i as int)) as nat));
        r
    } else {
        decimal_chars(i as u128)
    }
}

fn debug_text_exec(o: &PdfObject, out: &mut Vec<char>)
    ensures
        final(out)@ == old(out)@ + debug_text(o.sv()),
    decreases o,
{
    match o {
        PdfObject::Null => {
            let w = vec!['N', 'u', 'l', 'l'];
            append_chars(out, w.as_slice());
            assert(w@ =~= seq!['N', 'u', 'l', 'l']);
        },
        PdfObject::Boolean(b) => {
            if *b {
                let w = vec!['t', 'r', 'u', 'e'];
                append_chars(out, w.as_slice());
                assert(w@ =~= seq!['t', 'r', 'u', 'e']);
            } else {
                let w = vec!['f', 'a', 'l', 's', 'e'];
                append_chars(out, w.as_slice());
                assert(w@ =~= seq!['f', 'a', 'l', 's', 'e']);
            }
        },
        PdfObject::Integer(i) => {
            let t = int_text_exec(*i);
            append_chars(out, t.as_slice());
        },
        PdfObject::Real(_, t) => {
            append_string(out, t);
        },
        PdfObject::Name(n) => {
            out.push('/');
            let s = utf8_lossy_string(n.as_slice());
            append_string(out, &s);
            assert(final(out)@ =~= old(out)@ + (seq!['/'] + utf8_lossy(n@)));
        },
        PdfObject::Str(t, f) => {
            match f {
                StringFormat::Literal => {
                    out.push('(');
                    let s = utf8_lossy_string(t.as_slice());
                    append_string(out, &s);
                    out.push(')');
                    assert(final(out)@ =~= old(out)@ + (seq!['('] + utf8_lossy(t@) + seq![')']));
                },
                StringFormat::Hexadecimal => {
                    out.push('<');
                    let ghost start = out@;
                    let mut i: usize = 0;
                    while i < t.len()
                        invariant
                            i <= t.len(),
                            out@ == start + hex_text(t@.take(i as int)),
                        decreases t.len() - i,
                    {
                        let b = t[i];
                        assert(t@.take(i + 1).drop_last() =~= t@.take(i as int));
                        out.push(hex_digit_exec(b / 16));
                        out.push(hex_digit_exec(b % 16));
                        assert(out@ =~= start + hex_text(t@.take(i + 1)));
                        i += 1;
                    }
                    assert(t@.take(t.len() as int) =~= t@);
                    out.push('>');
                    assert(final(out)@ =~= old(out)@ + (seq!['<'] + hex_text(t@) + seq!['>']));
                },
            }
        },
        PdfObject::Array(items) => {
            out.push('[');
            let ghost start = out@;
            let ghost iv = sv_seq(items@);
            proof {
                lemma_array_obj_sv(*items);
            }
            let mut i: usize = 0;
            while i < items.len()
                invariant
                    *o == PdfObject::Array(*items),
                    iv == sv_seq(items@),
                    i <= items.len(),
                    out@ == start + debug_items(iv.take(i as int)),
                decreases items.len() - i,
            {
                proof {
                    assert(decreases_to!(*o => (*o)->Array_0));
                    assert(decreases_to!(*items => items[i as int]));
                }
                let ghost before = out@;
                if i > 0 {
                    out.push(' ');
                }
                debug_text_exec(&items[i], out);
                proof {
                    assert(iv.take(i + 1).drop_last() =~= iv.take(i as int));
                    if i == 0 {
                        assert(iv.take(1) =~= seq![iv[0]]);
                        assert(out@ =~= start + debug_items(iv.take(i + 1)));
                    } else {
                        assert(out@ =~= start + debug_items(iv.take(i + 1)));
                    }
                }
                i += 1;
            }
            assert(iv.take(items.len() as int) =~= iv);
            out.push(']');
            assert(final(out)@ =~= old(out)@ + (seq!['['] + debug_items(iv) + seq![']']));
        },
        PdfObject::Dictionary(d) => {
            let w = vec!['<', '<'];
            append_chars(out, w.as_slice());
            proof {
                lemma_dict_obj_sv(*d);
            }
            debug_entries_exec(o, d, out);
            let w2 = vec!['>', '>'];
            append_chars(out, w2.as_slice());
            assert(final(out)@ =~= old(out)@ + (seq!['<', '<'] + debug_entries(d.sv()) + seq![
                '>',
                '>',
            ]));
        },
        PdfObject::Stream(s) => {
            let w = vec!['<', '<'];
            append_chars(out, w.as_slice());
            assert(o.sv()->Stream_0 =~= s.dict.sv());
            debug_entries_exec(o, &s.dict, out);
            let w2 = vec!['>', '>', 's', 't', 'r', 'e', 'a', 'm', '.', '.', '.', 'e', 'n', 'd', 's', 't', 'r', 'e', 'a', 'm'];
            append_chars(out, w2.as_slice());
            assert(final(out)@ =~= old(out)@ + (seq!['<', '<'] + debug_entries(s.dict.sv()) + seq![
                '>',
                '>',
            ] + seq![
                's',
                't',
                'r',
                'e',
                'a',
                'm',
                '.',
                '.',
                '.',
                'e',
                'n',
                'd',
                's',
                't',
                'r',
                'e',
                'a',
                'm',
            ]));
        },
        PdfObject::Reference(id) => {
            let a = decimal_chars(id.0 as u128);
            let b = decimal_chars(id.1 as u128);
            append_chars(out, a.as_slice());
            out.push(' ');
            append_chars(out, b.as_slice());
            out.push(' ');
            out.push('R');
            assert(final(out)@ =~= old(out)@ + (decimal(id.0 as nat) + seq![' '] + decimal(
                id.1 as nat,
            ) + seq![' ', 'R']));
        },
    }
}

fn debug_entries_exec(o: &PdfObject, d: &PdfDict, out: &mut Vec<char>)
    requires
        decreases_to!(*o => d.entries),
    ensures
        final(out)@ == old(out)@ + debug_entries(d.sv()),
    decreases o, 0nat,
{
    let ghost dv = d.sv();
    let ghost start = out@;
    let mut i: usize = 0;
    while i < d.entries.len()
        invariant
            decreases_to!(*o => d.entries),
            dv == d.sv(),
            i <= d.entries.len(),
            out@ == start + debug_entries(dv.take(i as int)),
        decreases d.entries.len() - i,
    {
        proof {
            assert(decreases_to!(d.entries => d.entries[i as int]));
            assert(decreases_to!(d.entries[i as int] => d.entries[i as int].1));
        }
        assert(dv.take(i + 1).drop_last() =~= dv.take(i as int));
        out.push('/');
        let s = utf8_lossy_string(d.entries[i].0.as_slice());
        append_string(out, &s);
        out.push(' ');
        debug_text_exec(&d.entries[i].1, out);
        assert(out@ =~= start + debug_entries(dv.take(i + 1)));
        i += 1;
    }
    assert(dv.take(d.entries.len() as int) =~= dv);
}

/// The text of a string or name, else the object's rendering.
pub open spec fn lossy_text(o: SObj) -> Seq<char> {
    match obj_text(o) {
        Some(t) => t,
        None => debug_text(o),
    }
}

/// The text of a string or name, else the object's rendering.
pub fn object_to_text_lossy(o: &PdfObject) -> (r: String)
    ensures
        r@ == lossy_text(o.sv()),
{
    match object_to_text(o) {
        Some(t) => t,
        None => {
            let mut out: Vec<char> = Vec::new();
            debug_text_exec(o, &mut out);
            assert(out@ =~= debug_text(o.sv()));
            string_from_chars(out.as_slice())
        },
    }
}

} // verus!
