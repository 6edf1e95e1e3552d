//! AcroForm fields: decoded values, appearance states, choice options, and
//! the collection of every named field of a document.
use vstd::prelude::*;
use crate::field_flags::{NO_TOGGLE_TO_OFF, RADIO};
use crate::access::{acroform_fields, spec_acroform_fields};
use crate::error::{PdferError, SErr, res_v};
use crate::keys::{k_ap, k_dv, k_ft, k_n, k_opt, k_t, k_tm, k_v, key_ap, key_dv, key_ft, key_n, key_opt, key_t, key_tm, key_v, w_btn, w_ch, w_tx, word_btn, word_ch, word_tx};
use crate::model::{ObjectId, PdfDict, PdfDocument, PdfObject, SDict, SDoc, SObj, lemma_array_obj_sv, sd_get, sd_has, sv_seq};
use crate::objects::{DEPTH_BOUND, deref_dict, deref_dictionary, dict_text, field_flags_of, flags_of, get_text, has_kids, has_kids_array, inherited_name, inherited_name_of, inherited_object, kid_objects, kids_of, lossy_text, obj_ref, object_reference, object_to_text_lossy, qualified_name_from_dict, qualified_name_from_id, spec_inherited, spec_qualified_name, spec_qualified_name_of_dict};
use crate::order::{ins_pos, insert_position, sort_dedup, sort_dedup_strings};
use crate::text::{bytes_to_string, chars_eq, copy_string, decode_pdf_text, off_state, slash_name, slashed, spec_decode_pdf_text, spec_doc_decode, string_from_chars, string_views, to_chars};

verus! {

broadcast use vstd::std_specs::vec::group_vec_axioms;

// ---------------------------------------------------------------------------
// Field values
// ---------------------------------------------------------------------------
/// A decoded field value.
#[derive(Debug, PartialEq, Eq)]
pub enum FieldValue {
    Text(String),
    Name(String),
    List(Vec<String>),
    Null,
}

/// The view of a field value.
pub enum SValue {
    Text(Seq<char>),
    Name(Seq<char>),
    List(Seq<Seq<char>>),
    Null,
}

impl FieldValue {
    /// The mathematical value of this field value.
    pub open spec fn sv(self) -> SValue {
        match self {
            FieldValue::Text(s) => SValue::Text(s@),
            FieldValue::Name(s) => SValue::Name(s@),
            FieldValue::List(l) => SValue::List(string_views(l@)),
            FieldValue::Null => SValue::Null,
        }
    }

    /// The text of a text or name value.
    pub fn as_text(&self) -> (r: Option<&str>)
        ensures
            r matches Some(t) ==> (self.sv() matches SValue::Text(s) && s == t@) || (
            self.sv() matches SValue::Name(s) && s == t@),
            r is None <==> (self.sv() is List || self.sv() is Null),
    {
        match self {
            FieldValue::Text(v) => Some(v.as_str()),
            FieldValue::Name(v) => Some(v.as_str()),
            _ => None,
        }
    }
}

/// The text of one item of an array value.
pub open spec fn list_item(o: SObj) -> Seq<char> {
    match o {
        SObj::Str(b, _) => spec_decode_pdf_text(b),
        SObj::Name(n) => slashed(spec_doc_decode(n)),
        _ => lossy_text(o),
    }
}

/// The value an object holds: a text string, a name (with its slash), a list
/// of texts, or null; other objects hold no value.
pub open spec fn value_of(o: SObj) -> Option<SValue> {
    match o {
        SObj::Str(b, _) => Some(SValue::Text(spec_decode_pdf_text(b))),
        SObj::Name(n) => Some(SValue::Name(slashed(spec_doc_decode(n)))),
        SObj::Array(items) => Some(SValue::List(items.map_values(|i: SObj| list_item(i)))),
        SObj::Null => Some(SValue::Null),
        _ => None,
    }
}

/// The optional value of an optional object.
pub open spec fn opt_value(o: Option<SObj>) -> Option<SValue> {
    match o {
        Some(x) => value_of(x),
        None => None,
    }
}

/// The view of an optional value.
pub open spec fn opt_value_v(v: Option<FieldValue>) -> Option<SValue> {
    match v {
        Some(x) => Some(x.sv()),
        None => None,
    }
}

fn list_item_exec(o: &PdfObject) -> (r: String)
    ensures
        r@ == list_item(o.sv()),
{
    match o {
        PdfObject::Str(b, _) => decode_pdf_text(b.as_slice()),
        PdfObject::Name(n) => {
            let t = bytes_to_string(n.as_slice());
            slash_name(t.as_str())
        },
        _ => object_to_text_lossy(o),
    }
}

/// The value an object holds.
pub fn field_value_from_object(o: &PdfObject) -> (r: Option<FieldValue>)
    ensures
        opt_value_v(r) == value_of(o.sv()),
{
    match o {
        PdfObject::Str(b, _) => Some(FieldValue::Text(decode_pdf_text(b.as_slice()))),
        PdfObject::Name(n) => {
            let t = bytes_to_string(n.as_slice());
            Some(FieldValue::Name(slash_name(t.as_str())))
        },
        PdfObject::Array(items) => {
            proof {
                lemma_array_obj_sv(*items);
            }
            let mut values: Vec<String> = Vec::new();
            let mut i: usize = 0;
            while i < items.len()
                invariant
                    i <= items.len(),
                    values.len() == i,
                    forall|j: int| 0 <= j < i ==> values@[j]@ == list_item(items@[j].sv()),
                decreases items.len() - i,
            {
                values.push(list_item_exec(&items[i]));
                i += 1;
            }
            assert(string_views(values@) =~= sv_seq(items@).map_values(|x: SObj| list_item(x)));
            Some(FieldValue::List(values))
        },
        PdfObject::Null => Some(FieldValue::Null),
        _ => None,
    }
}

// ---------------------------------------------------------------------------
// Appearance states and choice options
// ---------------------------------------------------------------------------
/// The text of one `/Opt` entry: a text, the first element of a pair, or a
/// name with its slash.
pub open spec fn option_entry(o: SObj) -> Option<Seq<char>> {
    match o {
        SObj::Str(b, _) => Some(spec_decode_pdf_text(b)),
        SObj::Array(parts) => if parts.len() == 0 {
            None
        } else {
            match parts[0] {
                SObj::Str(b, _) => Some(spec_decode_pdf_text(b)),
                SObj::Name(n) => Some(slashed(spec_doc_decode(n))),
                _ => None,
            }
        },
        SObj::Name(n) => Some(slashed(spec_doc_decode(n))),
        _ => None,
    }
}

/// The texts of the `/Opt` entries that have one.
pub open spec fn option_entries(s: Seq<SObj>) -> Seq<Seq<char>>
    decreases s.len(),
{
    if s.len() == 0 {
        seq![]
    } else {
        option_entries(s.drop_last()) + match option_entry(s.last()) {
            Some(t) => seq![t],
            None => seq![],
        }
    }
}

/// The options of a choice field.
pub open spec fn choice_options(opt: SObj) -> Seq<Seq<char>> {
    match opt {
        SObj::Array(values) => option_entries(values),
        _ => seq![],
    }
}

fn option_entry_exec(o: &PdfObject) -> (r: Option<String>)
    ensures
        r matches Some(s) ==> option_entry(o.sv()) == Some(s@),
        r is None ==> option_entry(o.sv()) is None,
{
    match o {
        PdfObject::Str(b, _) => Some(decode_pdf_text(b.as_slice())),
        PdfObject::Array(parts) => {
            proof {
                lemma_array_obj_sv(*parts);
            }
            if parts.len() == 0 {
                None
            } else {
                match &parts[0] {
                    PdfObject::Str(b, _) => Some(decode_pdf_text(b.as_slice())),
                    PdfObject::Name(n) => {
                        let t = bytes_to_string(n.as_slice());
                        Some(slash_name(t.as_str()))
                    },
                    _ => None,
                }
            }
        },
        PdfObject::Name(n) => {
            let t = bytes_to_string(n.as_slice());
            Some(slash_name(t.as_str()))
        },
        _ => None,
    }
}

/// The options of a choice field.
pub fn extract_choice_options(opt: &PdfObject) -> (r: Vec<String>)
    ensures
        string_views(r@) == choice_options(opt.sv()),
{
    let mut out: Vec<String> = Vec::new();
    match opt {
        PdfObject::Array(values) => {
            proof {
                lemma_array_obj_sv(*values);
            }
            let ghost vs = sv_seq(values@);
            let mut i: usize = 0;
            while i < values.len()
                invariant
                    vs == sv_seq(values@),
                    i <= values.len(),
                    string_views(out@) == option_entries(vs.take(i as int)),
                decreases values.len() - i,
            {
                assert(vs.take(i + 1).drop_last() =~= vs.take(i as int));
                let ghost before = string_views(out@);
                match option_entry_exec(&values[i]) {
                    Some(t) => {
                        out.push(t);
                        assert(string_views(out@) =~= before + seq![t@]);
                    },
                    None => {
                        assert(string_views(out@) =~= before + seq![]);
                    },
                }
                i += 1;
            }
            assert(vs.take(values.len() as int) =~= vs);
        },
        _ => {
            assert(string_views(out@) =~= seq![]);
        },
    }
    out
}

/// The names of a dictionary's keys, each with one leading slash.
pub open spec fn key_names(d: SDict) -> Seq<Seq<char>> {
    d.map_values(|e: (Seq<u8>, SObj)| slashed(spec_doc_decode(e.0)))
}

/// The states of a normal-appearance dictionary: its keys, with `/Off`
/// added when missing, sorted, each once.
pub open spec fn normal_states(nd: SDict) -> Seq<Seq<char>> {
    let names = key_names(nd);
    let with_off = if names.contains(off_state()) {
        names
    } else {
        names.push(off_state())
    };
    sort_dedup(with_off)
}

/// `s` without `/Off`.
pub open spec fn without_off(s: Seq<Seq<char>>) -> Seq<Seq<char>>
    decreases s.len(),
{
    if s.len() == 0 {
        seq![]
    } else {
        without_off(s.drop_last()) + if s.last() == off_state() {
            seq![]
        } else {
            seq![s.last()]
        }
    }
}

/// The radio-button flag.
pub open spec fn flag_radio() -> u32 {
    RADIO
}

/// The no-toggle-to-off flag.
pub open spec fn flag_no_toggle_to_off() -> u32 {
    NO_TOGGLE_TO_OFF
}

/// The states of a button's normal appearance dictionary (`/AP /N`), when it
/// has one.
pub open spec fn ap_states(doc: SDoc, d: SDict) -> Option<Seq<Seq<char>>> {
    match sd_get(d, k_ap()) {
        Some(ap_obj) => match deref_dict(doc, ap_obj) {
            Ok(ap) => match sd_get(ap, k_n()) {
                Some(n_obj) => match deref_dict(doc, n_obj) {
                    Ok(nd) => Some(normal_states(nd)),
                    Err(_) => None,
                },
                None => None,
            },
            Err(_) => None,
        },
        None => None,
    }
}

/// The appearance states of a button: those of its own normal appearance
/// when it has one, else the union of its kids' states (sorted, each once;
/// without `/Off` for a radio group that may not be switched off).
pub open spec fn button_states(doc: SDoc, d: SDict, fuel: nat) -> Option<Seq<Seq<char>>>
    decreases fuel, 0nat,
{
    match ap_states(doc, d) {
        Some(s) => Some(s),
        None => if fuel > 0 && has_kids_array(doc, d) {
            let kids = kid_objects(doc, d);
            let all = sort_dedup(kid_states(doc, kids, (fuel - 1) as nat));
            let flags = field_flags_of(doc, d);
            if flags & flag_radio() != 0 && flags & flag_no_toggle_to_off() != 0 {
                Some(without_off(all))
            } else {
                Some(all)
            }
        } else {
            None
        },
    }
}

/// The states of the kids, one kid after the other.
pub open spec fn kid_states(doc: SDoc, kids: Seq<SObj>, fuel: nat) -> Seq<Seq<char>>
    decreases fuel, kids.len() + 1,
{
    if kids.len() == 0 {
        seq![]
    } else {
        kid_states(doc, kids.drop_last(), fuel) + match deref_dict(doc, kids.last()) {
            Ok(kd) => match button_states(doc, kd, fuel) {
                Some(s) => s,
                None => seq![],
            },
            Err(_) => seq![],
        }
    }
}

/// The appearance states of a button field.
pub open spec fn spec_button_states(doc: SDoc, d: SDict) -> Option<Seq<Seq<char>>> {
    button_states(doc, d, DEPTH_BOUND as nat)
}

fn slash_off() -> (r: String)
    ensures
        r@ == off_state(),
{
    let v = vec!['/', 'O', 'f', 'f'];
    assert(v@ =~= off_state());
    string_from_chars(v.as_slice())
}

fn contains_string(v: &Vec<String>, s: &String) -> (r: bool)
    ensures
        r == string_views(v@).contains(s@),
{
    let sc = to_chars(s.as_str());
    let mut i: usize = 0;
    while i < v.len()
        invariant
            i <= v.len(),
            sc@ == s@,
            forall|j: int| 0 <= j < i ==> v@[j]@ != s@,
        decreases v.len() - i,
    {
        let c = to_chars(v[i].as_str());
        if chars_eq(c.as_slice(), sc.as_slice()) {
            assert(string_views(v@)[i as int] == s@);
            return true;
        }
        i += 1;
    }
    false
}

fn normal_states_exec(nd: &PdfDict) -> (r: Vec<String>)
    ensures
        string_views(r@) == normal_states(nd.sv()),
{
    let mut names: Vec<String> = Vec::new();
    let mut i: usize = 0;
    while i < nd.entries.len()
        invariant
            i <= nd.entries.len(),
            names.len() == i,
            forall|j: int|
                0 <= j < i ==> names@[j]@ == slashed(spec_doc_decode(nd.entries@[j].0@)),
        decreases nd.entries.len() - i,
    {
        let t = bytes_to_string(nd.entries[i].0.as_slice());
        names.push(slash_name(t.as_str()));
        i += 1;
    }
    assert(string_views(names@) =~= key_names(nd.sv()));
    let off = slash_off();
    if !contains_string(&names, &off) {
        names.push(off);
        assert(string_views(names@) =~= key_names(nd.sv()).push(off_state()));
    }
    sort_dedup_strings(&names)
}

fn ap_states_exec(doc: &PdfDocument, d: &PdfDict) -> (r: Option<Vec<String>>)
    ensures
        r matches Some(s) ==> ap_states(doc.sv(), d.sv()) == Some(string_views(s@)),
        r is None ==> ap_states(doc.sv(), d.sv()) is None,
{
    let kap = key_ap();
    match d.get(kap.as_slice()) {
        Some(ap_obj) => match deref_dictionary(doc, ap_obj) {
            Ok(ap) => {
                let kn = key_n();
                match ap.get(kn.as_slice()) {
                    Some(n_obj) => match deref_dictionary(doc, n_obj) {
                        Ok(nd) => Some(normal_states_exec(&nd)),
                        Err(_) => None,
                    },
                    None => None,
                }
            },
            Err(_) => None,
        },
        None => None,
    }
}

fn without_off_exec(v: &Vec<String>) -> (r: Vec<String>)
    ensures
        string_views(r@) == without_off(string_views(v@)),
{
    let ghost vs = string_views(v@);
    let off = vec!['/', 'O', 'f', 'f'];
    assert(off@ =~= off_state());
    let mut out: Vec<String> = Vec::new();
    let mut i: usize = 0;
    while i < v.len()
        invariant
            vs == string_views(v@),
            off@ == off_state(),
            i <= v.len(),
            string_views(out@) == without_off(vs.take(i as int)),
        decreases v.len() - i,
    {
        assert(vs.take(i + 1).drop_last() =~= vs.take(i as int));
        let ghost before = string_views(out@);
        let c = to_chars(v[i].as_str());
        if chars_eq(c.as_slice(), off.as_slice()) {
            assert(string_views(out@) =~= before + seq![]);
        } else {
            out.push(copy_string(&v[i]));
            assert(string_views(out@) =~= before + seq![vs[i as int]]);
        }
        i += 1;
    }
    assert(vs.take(v.len() as int) =~= vs);
    out
}

fn append_strings(out: &mut Vec<String>, more: Vec<String>)
    ensures
        string_views(final(out)@) == string_views(old(out)@) + string_views(more@),
{
    let mut m = more;
    out.append(&mut m);
    assert(string_views(final(out)@) =~= string_views(old(out)@) + string_views(more@));
}

#[verifier::rlimit(30)]
fn button_states_rec(doc: &PdfDocument, d: &PdfDict, fuel: u64) -> (r: Option<Vec<String>>)
    ensures
        r matches Some(s) ==> button_states(doc.sv(), d.sv(), fuel as nat) == Some(
            string_views(s@),
        ),
        r is None ==> button_states(doc.sv(), d.sv(), fuel as nat) is None,
    decreases fuel, 0nat,
{
    match ap_states_exec(doc, d) {
        Some(s) => {
            return Some(s);
        },
        None => {},
    }
    if fuel == 0 || !has_kids(doc, d) {
        return None;
    }
    let kids = kids_of(doc, d);
    let ghost kv = sv_seq(kids@);
    let mut states: Vec<String> = Vec::new();
    let mut i: usize = 0;
    while i < kids.len()
        invariant
            kv == sv_seq(kids@),
            kv == kid_objects(doc.sv(), d.sv()),
            fuel > 0,
            i <= kids.len(),
            string_views(states@) == kid_states(doc.sv(), kv.take(i as int), (fuel - 1) as nat),
        decreases kids.len() - i,
    {
        assert(kv.take(i + 1).drop_last() =~= kv.take(i as int));
        assert(kv.take(i + 1).last() == kids@[i as int].sv());
        match deref_dictionary(doc, &kids[i]) {
            Ok(kd) => match button_states_rec(doc, &kd, fuel - 1) {
                Some(cs) => {
                    append_strings(&mut states, cs);
                },
                None => {
                    assert(string_views(states@) =~= string_views(states@) + seq![]);
                },
            },
            Err(_) => {
                assert(string_views(states@) =~= string_views(states@) + seq![]);
            },
        }
        i += 1;
    }
    assert(kv.take(kids.len() as int) =~= kv);
    let all = sort_dedup_strings(&states);
    let flags = flags_of(doc, d);
    if flags & RADIO != 0 && flags & NO_TOGGLE_TO_OFF != 0 {
        Some(without_off_exec(&all))
    } else {
        Some(all)
    }
}

/// The appearance states of a button field (see `button_states`).
pub fn extract_button_states(doc: &PdfDocument, d: &PdfDict) -> (r: Option<Vec<String>>)
    ensures
        r matches Some(s) ==> spec_button_states(doc.sv(), d.sv()) == Some(string_views(s@)),
        r is None ==> spec_button_states(doc.sv(), d.sv()) is None,
{
    button_states_rec(doc, d, DEPTH_BOUND)
}

/// The states a field offers: the options of a choice field with `/Opt`,
/// the appearance states of a button, else none.
pub open spec fn field_states(doc: SDoc, d: SDict) -> Seq<Seq<char>> {
    let ft = match inherited_name(doc, d, k_ft()) {
        Some(t) => t,
        None => seq![],
    };
    if ft == w_ch() && spec_inherited(doc, d, k_opt()) is Some {
        choice_options(spec_inherited(doc, d, k_opt())->0)
    } else if ft == w_btn() && spec_button_states(doc, d) is Some {
        spec_button_states(doc, d)->0
    } else {
        seq![]
    }
}

pub fn text_is(s: &String, w: &Vec<char>) -> (r: bool)
    ensures
        r == (s@ == w@),
{
    let c = to_chars(s.as_str());
    chars_eq(c.as_slice(), w.as_slice())
}

/// The states a field offers.
pub fn field_states_of(doc: &PdfDocument, d: &PdfDict) -> (r: Vec<String>)
    ensures
        string_views(r@) == field_states(doc.sv(), d.sv()),
{
    let kft = key_ft();
    let ft = match inherited_name_of(doc, d, kft.as_slice()) {
        Some(t) => t,
        None => String::new(),
    };
    if text_is(&ft, &word_ch()) {
        let kopt = key_opt();
        match inherited_object(doc, d, kopt.as_slice()) {
            Some(opt) => {
                return extract_choice_options(&opt);
            },
            None => {},
        }
    }
    if text_is(&ft, &word_btn()) {
        match extract_button_states(doc, d) {
            Some(s) => {
                return s;
            },
            None => {},
        }
    }
    let r: Vec<String> = Vec::new();
    assert(string_views(r@) =~= seq![]);
    r
}

// ---------------------------------------------------------------------------
// Form fields
// ---------------------------------------------------------------------------
/// An AcroForm field.
#[derive(Debug, PartialEq, Eq)]
pub struct FormField {
    pub object_id: Option<ObjectId>,
    pub qualified_name: String,
    pub partial_name: Option<String>,
    pub mapping_name: Option<String>,
    pub field_type: Option<String>,
    pub value: Option<FieldValue>,
    pub default_value: Option<FieldValue>,
    pub flags: u32,
    pub states: Vec<String>,
    pub kids: Vec<ObjectId>,
}

/// The view of a form field.
pub struct SField {
    pub object_id: Option<ObjectId>,
    pub qualified_name: Seq<char>,
    pub partial_name: Option<Seq<char>>,
    pub mapping_name: Option<Seq<char>>,
    pub field_type: Option<Seq<char>>,
    pub value: Option<SValue>,
    pub default_value: Option<SValue>,
    pub flags: u32,
    pub states: Seq<Seq<char>>,
    pub kids: Seq<ObjectId>,
}

/// The view of an optional text.
pub open spec fn opt_str(s: Option<String>) -> Option<Seq<char>> {
    match s {
        Some(t) => Some(t@),
        None => None,
    }
}

impl FormField {
    /// The mathematical value of this field.
    pub open spec fn sv(self) -> SField {
        SField {
            object_id: self.object_id,
            qualified_name: self.qualified_name@,
            partial_name: opt_str(self.partial_name),
            mapping_name: opt_str(self.mapping_name),
            field_type: opt_str(self.field_type),
            value: opt_value_v(self.value),
            default_value: opt_value_v(self.default_value),
            flags: self.flags,
            states: string_views(self.states@),
            kids: self.kids@,
        }
    }

    /// The field is a text field (`/FT /Tx`).
    pub fn is_text_field(&self) -> (r: bool)
        ensures
            r == (self.sv().field_type == Some(w_tx())),
    {
        match &self.field_type {
            Some(t) => text_is(t, &word_tx()),
            None => false,
        }
    }
}

/// The ids among a list of objects that are references, in order.
pub open spec fn ref_ids(s: Seq<SObj>) -> Seq<ObjectId>
    decreases s.len(),
{
    if s.len() == 0 {
        seq![]
    } else {
        ref_ids(s.drop_last()) + match obj_ref(s.last()) {
            Some(id) => seq![id],
            None => seq![],
        }
    }
}

/// The field described by the dictionary `d` (with id `id` when it is an
/// indirect object).
#[verifier::opaque]
pub open spec fn spec_build_field(doc: SDoc, id: Option<ObjectId>, d: SDict) -> Result<SField, SErr> {
    let qn = match id {
        Some(i) => spec_qualified_name(doc, i),
        None => Ok(spec_qualified_name_of_dict(doc, d)),
    };
    match qn {
        Err(e) => Err(e),
        Ok(q) => Ok(
            SField {
                object_id: id,
                qualified_name: q,
                partial_name: dict_text(d, k_t()),
                mapping_name: dict_text(d, k_tm()),
                field_type: inherited_name(doc, d, k_ft()),
                value: opt_value(spec_inherited(doc, d, k_v())),
                default_value: opt_value(spec_inherited(doc, d, k_dv())),
                flags: field_flags_of(doc, d),
                states: field_states(doc, d),
                kids: ref_ids(kid_objects(doc, d)),
            },
        ),
    }
}

fn ref_ids_exec(v: &Vec<PdfObject>) -> (r: Vec<ObjectId>)
    ensures
        r@ == ref_ids(sv_seq(v@)),
{
    let ghost vs = sv_seq(v@);
    let mut out: Vec<ObjectId> = Vec::new();
    let mut i: usize = 0;
    while i < v.len()
        invariant
            vs == sv_seq(v@),
            i <= v.len(),
            out@ == ref_ids(vs.take(i as int)),
        decreases v.len() - i,
    {
        assert(vs.take(i + 1).drop_last() =~= vs.take(i as int));
        let ghost before = out@;
        match object_reference(&v[i]) {
            Some(id) => {
                out.push(id);
                assert(out@ =~= before + seq![id]);
            },
            None => {
                assert(out@ =~= before + seq![]);
            },
        }
        i += 1;
    }
    assert(vs.take(v.len() as int) =~= vs);
    out
}

fn opt_value_exec(o: Option<PdfObject>) -> (r: Option<FieldValue>)
    ensures
        opt_value_v(r) == opt_value(match o {
            Some(x) => Some(x.sv()),
            None => None,
        }),
{
    match o {
        Some(x) => field_value_from_object(&x),
        None => None,
    }
}

/// The field described by the dictionary `d`.
pub fn build_form_field(doc: &PdfDocument, id: Option<ObjectId>, d: &PdfDict) -> (r: Result<
    FormField,
    PdferError,
>)
    ensures
        r matches Ok(f) ==> spec_build_field(doc.sv(), id, d.sv()) == Ok::<SField, SErr>(f.sv()),
        r matches Err(e) ==> spec_build_field(doc.sv(), id, d.sv()) == Err::<SField, SErr>(e.sv()),
{
    reveal(spec_build_field);
    let qualified_name = match id {
        Some(i) => match qualified_name_from_id(doc, i) {
            Ok(q) => q,
            Err(e) => {
                return Err(e);
            },
        },
        None => qualified_name_from_dict(doc, d),
    };
    let kt = key_t();
    let ktm = key_tm();
    let kft = key_ft();
    let kv = key_v();
    let kdv = key_dv();
    let partial_name = get_text(d, kt.as_slice());
    let mapping_name = get_text(d, ktm.as_slice());
    let field_type = inherited_name_of(doc, d, kft.as_slice());
    let value = opt_value_exec(inherited_object(doc, d, kv.as_slice()));
    let default_value = opt_value_exec(inherited_object(doc, d, kdv.as_slice()));
    let flags = flags_of(doc, d);
    let states = field_states_of(doc, d);
    let kid_objs = kids_of(doc, d);
    let kids = ref_ids_exec(&kid_objs);
    let f = FormField {
        object_id: id,
        qualified_name,
        partial_name,
        mapping_name,
        field_type,
        value,
        default_value,
        flags,
        states,
        kids,
    };
    proof {
        assert(opt_str(f.partial_name) == dict_text(d.sv(), k_t()));
        assert(opt_str(f.mapping_name) == dict_text(d.sv(), k_tm()));
        assert(opt_str(f.field_type) == inherited_name(doc.sv(), d.sv(), k_ft()));
    }
    Ok(f)
}

// ---------------------------------------------------------------------------
// Key-sorted maps
// ---------------------------------------------------------------------------
/// The keys of a field map.
pub open spec fn fmap_keys(m: Seq<(Seq<char>, SField)>) -> Seq<Seq<char>> {
    m.map_values(|e: (Seq<char>, SField)| e.0)
}

/// `m` with `k` mapped to `f`: a present key gets the new field, a new key
/// goes before the first key that is not smaller.
pub open spec fn fmap_insert(m: Seq<(Seq<char>, SField)>, k: Seq<char>, f: SField) -> Seq<(Seq<char>, SField)> {
    let p = ins_pos(fmap_keys(m), k) as int;
    if p < m.len() && m[p].0 == k {
        m.update(p, (k, f))
    } else {
        m.insert(p, (k, f))
    }
}

/// The view of a field map.
pub open spec fn fmap_v(m: Seq<(String, FormField)>) -> Seq<(Seq<char>, SField)> {
    m.map_values(|e: (String, FormField)| (e.0@, e.1.sv()))
}

fn key_chars_of_fmap(m: &Vec<(String, FormField)>) -> (r: Vec<Vec<char>>)
    ensures
        r@.map_values(|v: Vec<char>| v@) == fmap_keys(fmap_v(m@)),
{
    let mut r: Vec<Vec<char>> = Vec::new();
    let mut i: usize = 0;
    while i < m.len()
        invariant
            i <= m.len(),
            r.len() == i,
            forall|j: int| 0 <= j < i ==> r@[j]@ == m@[j].0@,
        decreases m.len() - i,
    {
        r.push(to_chars(m[i].0.as_str()));
        i += 1;
    }
    assert(r@.map_values(|v: Vec<char>| v@) =~= fmap_keys(fmap_v(m@)));
    r
}

/// Maps the field's qualified name to the field.
pub fn insert_field(m: &mut Vec<(String, FormField)>, f: FormField)
    ensures
        fmap_v(final(m)@) == fmap_insert(fmap_v(old(m)@), f.sv().qualified_name, f.sv()),
{
    let keys = key_chars_of_fmap(m);
    let k = to_chars(f.qualified_name.as_str());
    let p = insert_position(&keys, k.as_slice());
    let ghost fv = f.sv();
    let name = copy_string(&f.qualified_name);
    proof {
        if p < m.len() {
            assert(keys@.map_values(|v: Vec<char>| v@)[p as int] == keys@[p as int]@);
            assert(fmap_keys(fmap_v(old(m)@))[p as int] == fmap_v(old(m)@)[p as int].0);
        }
    }
    if p < m.len() && chars_eq(keys[p].as_slice(), k.as_slice()) {
        m.set(p, (name, f));
        assert(fmap_v(m@) =~= fmap_v(old(m)@).update(p as int, (fv.qualified_name, fv)));
    } else {
        m.insert(p, (name, f));
        assert(fmap_v(m@) =~= fmap_v(old(m)@).insert(p as int, (fv.qualified_name, fv)));
    }
}

// ---------------------------------------------------------------------------
// Collecting the fields of a document
// ---------------------------------------------------------------------------
/// A field map and the ids met so far.
pub type CollectState = (Seq<(Seq<char>, SField)>, Seq<ObjectId>);

/// Visits the field object `obj` and its kids (depth first): every
/// dictionary with a `/T` or `/TM` is added under its qualified name; an
/// object met a second time is skipped.
#[verifier::opaque]
pub open spec fn collect(doc: SDoc, obj: SObj, st: CollectState, fuel: nat) -> Result<CollectState, SErr>
    decreases fuel, 0nat,
{
    let (out, visited) = st;
    let id = obj_ref(obj);
    if id is Some && visited.contains(id->0) {
        Ok(st)
    } else {
        let visited1 = if id is Some {
            visited.push(id->0)
        } else {
            visited
        };
        match deref_dict(doc, obj) {
            Err(e) => Err(e),
            Ok(d) => {
                let added = if sd_has(d, k_t()) || sd_has(d, k_tm()) {
                    match spec_build_field(doc, id, d) {
                        Ok(f) => Ok(fmap_insert(out, f.qualified_name, f)),
                        Err(e) => Err(e),
                    }
                } else {
                    Ok(out)
                };
                match added {
                    Err(e) => Err(e),
                    Ok(out1) => if fuel == 0 {
                        Ok((out1, visited1))
                    } else {
                        collect_list(doc, kid_objects(doc, d), (out1, visited1), (fuel - 1) as nat)
                    },
                }
            },
        }
    }
}

/// Visits the objects one after the other.
#[verifier::opaque]
pub open spec fn collect_list(doc: SDoc, objs: Seq<SObj>, st: CollectState, fuel: nat) -> Result<
    CollectState,
    SErr,
>
    decreases fuel, objs.len() + 1,
{
    if objs.len() == 0 {
        Ok(st)
    } else {
        match collect_list(doc, objs.drop_last(), st, fuel) {
            Ok(st1) => collect(doc, objs.last(), st1, fuel),
            Err(e) => Err(e),
        }
    }
}

#[verifier::rlimit(40)]
fn collect_rec(
    doc: &PdfDocument,
    obj: &PdfObject,
    out: &mut Vec<(String, FormField)>,
    visited: &mut Vec<ObjectId>,
    fuel: u64,
) -> (r: Result<(), PdferError>)
    ensures
        r is Ok ==> collect(doc.sv(), obj.sv(), (fmap_v(old(out)@), old(visited)@), fuel as nat)
            == Ok::<CollectState, SErr>((fmap_v(final(out)@), final(visited)@)),
        r matches Err(e) ==> collect(
            doc.sv(),
            obj.sv(),
            (fmap_v(old(out)@), old(visited)@),
            fuel as nat,
        ) == Err::<CollectState, SErr>(e.sv()),
    decreases fuel, 0nat,
{
    reveal(collect);
    reveal(collect_list);
    let id = object_reference(obj);
    match id {
        Some(i) => {
            if contains_ids(visited, i) {
                return Ok(());
            }
            visited.push(i);
        },
        None => {},
    }
    let d = match deref_dictionary(doc, obj) {
        Ok(d) => d,
        Err(e) => {
            return Err(e);
        },
    };
    let kt = key_t();
    let ktm = key_tm();
    if d.has(kt.as_slice()) || d.has(ktm.as_slice()) {
        match build_form_field(doc, id, &d) {
            Ok(f) => {
                insert_field(out, f);
            },
            Err(e) => {
                return Err(e);
            },
        }
    }
    if fuel == 0 {
        return Ok(());
    }
    let kids = kids_of(doc, &d);
    collect_list_exec(doc, &kids, out, visited, fuel - 1)
}

#[verifier::rlimit(40)]
fn collect_list_exec(
    doc: &PdfDocument,
    objs: &Vec<PdfObject>,
    out: &mut Vec<(String, FormField)>,
    visited: &mut Vec<ObjectId>,
    fuel: u64,
) -> (r: Result<(), PdferError>)
    ensures
        r is Ok ==> collect_list(
            doc.sv(),
            sv_seq(objs@),
            (fmap_v(old(out)@), old(visited)@),
            fuel as nat,
        ) == Ok::<CollectState, SErr>((fmap_v(final(out)@), final(visited)@)),
        r matches Err(e) ==> collect_list(
            doc.sv(),
            sv_seq(objs@),
            (fmap_v(old(out)@), old(visited)@),
            fuel as nat,
        ) == Err::<CollectState, SErr>(e.sv()),
    decreases fuel, objs.len() + 1,
{
    let ghost os = sv_seq(objs@);
    let ghost st0: CollectState = (fmap_v(out@), visited@);
    let mut i: usize = 0;
    assert(os.take(0) =~= Seq::<SObj>::empty());
    assert(collect_list(doc.sv(), os.take(0), st0, fuel as nat) == Ok::<CollectState, SErr>(st0))
        by {
        reveal(collect);
        reveal(collect_list);
    }
    while i < objs.len()
        invariant
            os == sv_seq(objs@),
            st0 == (fmap_v(old(out)@), old(visited)@),
            i <= objs.len(),
            collect_list(doc.sv(), os.take(i as int), st0, fuel as nat) == Ok::<
                CollectState,
                SErr,
            >((fmap_v(out@), visited@)),
        decreases objs.len() - i,
    {
        proof {
            lemma_collect_list_step(doc.sv(), os, st0, fuel as nat, i as int);
        }
        match collect_rec(doc, &objs[i], out, visited, fuel) {
            Ok(()) => {},
            Err(e) => {
                proof {
                    lemma_collect_list_prefix_err(doc.sv(), os, st0, fuel as nat, i as int, e.sv());
                }
                return Err(e);
            },
        }
        i += 1;
    }
    assert(os.take(objs.len() as int) =~= os);
    Ok(())
}

proof fn lemma_collect_list_step(doc: SDoc, os: Seq<SObj>, st0: CollectState, fuel: nat, i: int)
    requires
        0 <= i < os.len(),
    ensures
        collect_list(doc, os.take(i + 1), st0, fuel) == match collect_list(
            doc,
            os.take(i),
            st0,
            fuel,
        ) {
            Ok(st1) => collect(doc, os[i], st1, fuel),
            Err(e) => Err(e),
        },
{
    reveal(collect);
    reveal(collect_list);
    assert(os.take(i + 1).drop_last() =~= os.take(i));
    assert(os.take(i + 1).last() == os[i]);
}

proof fn lemma_collect_list_prefix_err(
    doc: SDoc,
    os: Seq<SObj>,
    st0: CollectState,
    fuel: nat,
    i: int,
    e: SErr,
)
    requires
        0 <= i < os.len(),
        collect_list(doc, os.take(i + 1), st0, fuel) == Err::<CollectState, SErr>(e),
    ensures
        collect_list(doc, os, st0, fuel) == Err::<CollectState, SErr>(e),
    decreases os.len() - i,
{
    reveal(collect);
    reveal(collect_list);
    if i + 1 == os.len() {
        assert(os.take(i + 1) =~= os);
    } else {
        let j = i + 1;
        assert(os.take(j + 1).drop_last() =~= os.take(j));
        lemma_collect_list_prefix_err(doc, os, st0, fuel, j, e);
    }
}

pub fn contains_ids(v: &Vec<ObjectId>, id: ObjectId) -> (r: bool)
    ensures
        r == v@.contains(id),
{
    let mut i: usize = 0;
    while i < v.len()
        invariant
            i <= v.len(),
            forall|j: int| 0 <= j < i ==> v@[j] != id,
        decreases v.len() - i,
    {
        if v[i].0 == id.0 && v[i].1 == id.1 {
            assert(v@[i as int] == id);
            return true;
        }
        i += 1;
    }
    false
}

/// The view of an optional field map.
pub open spec fn fmap_opt(o: Option<Vec<(String, FormField)>>) -> Option<Seq<(Seq<char>, SField)>> {
    match o {
        Some(m) => Some(fmap_v(m@)),
        None => None,
    }
}

/// Every named field of the document (a dictionary with `/T` or `/TM`
/// reached from `/Fields` through `/Kids`), keyed by qualified name in key
/// order, a later field replacing an earlier one of the same name; `None`
/// when the document has no interactive form or the form no `/Fields`.
pub open spec fn spec_get_fields(doc: SDoc) -> Result<Option<Seq<(Seq<char>, SField)>>, SErr> {
    match spec_acroform_fields(doc) {
        Err(e) => Err(e),
        Ok(None) => Ok(None),
        Ok(Some(fs)) => match collect_list(doc, fs, (seq![], seq![]), DEPTH_BOUND as nat) {
            Ok((m, _)) => Ok(Some(m)),
            Err(e) => Err(e),
        },
    }
}

/// Every named field of the document, keyed by qualified name.
pub fn get_fields_impl(doc: &PdfDocument) -> (r: Result<Option<Vec<(String, FormField)>>, PdferError>)
    ensures
        res_v(r, |o: Option<Vec<(String, FormField)>>| fmap_opt(o)) == spec_get_fields(doc.sv()),
{
    let fields = match acroform_fields(doc)? {
        None => {
            return Ok(None);
        },
        Some(f) => f,
    };
    let mut out: Vec<(String, FormField)> = Vec::new();
    let mut visited: Vec<ObjectId> = Vec::new();
    assert(fmap_v(out@) =~= seq![]);
    assert(visited@ =~= seq![]);
    collect_list_exec(doc, &fields, &mut out, &mut visited, DEPTH_BOUND)?;
    Ok(Some(out))
}

} // verus!
