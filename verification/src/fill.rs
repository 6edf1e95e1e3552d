//! Filling form fields: the values callers write, how one value is applied
//! to one widget, and the walk over the selected pages' widgets that applies
//! every requested value to every widget it names.
use vstd::prelude::*;
use crate::access::{SOut, catalog_id, ensure_indirect_dictionary_entry, has_acroform, read_array_entry_clone, spec_catalog_id, spec_ensure_indirect, spec_has_acroform, spec_read_array, spec_write, write_dict_object};
use crate::appearance::{TextLayout, TextRequest, choose_button_state, extract_rect, flatten_appearance_stream, font_v, install_text_appearance, int_text_ok, layout_ok, number_text, resolve_button_appearance_stream, spec_button_stream, spec_choose_state, spec_flatten, spec_install_text, spec_number_text, spec_rect};
use crate::error::{PdferError, SErr, lopdf_res, res_id, res_v};
use crate::fields::{FieldValue, field_value_from_object, opt_str, opt_value, text_is};
use crate::inspect::{value_text};
use crate::keys::{k_acroform, k_as, k_ff, k_fields, k_ft, k_i, k_needappearances, k_parent, k_t, k_v, key_acroform, key_as, key_ff, key_fields, key_ft, key_i, key_needappearances, key_parent, key_t, key_v, w_btn, w_ch, w_tx, word_btn, word_ch, word_tx};
use crate::model::{ObjectId, PdfDict, PdfDocument, PdfObject, SDict, SDoc, SObj, StringFormat, lemma_array_obj_sv, sd_has, sd_remove, sd_set, sdoc_get_dict, sv_seq};
use crate::objects::{deref_dict, deref_dictionary, dict_is_widget, dict_ref, dict_text, get_ref, get_text, inherited_name, inherited_name_of, inherited_object, is_widget, obj_ref, object_reference, qualified_name_from_dict, qualified_name_from_id, spec_inherited, spec_qualified_name, spec_qualified_name_of_dict};
use crate::pages::{PageSelection, ensure_indirect_page_annotations, selected_page_ids, spec_ensure_indirect_annots, spec_selected_page_ids};
use crate::text::{append_chars, copy_string, decimal, decimal_chars, encode_pdf_text, join_strings, normalize_name, spec_encode_pdf_text, string_from_chars, string_views, strip_slashes, to_chars, utf8_bytes};
use vstd::utf8::encode_utf8;

verus! {

broadcast use vstd::std_specs::vec::group_vec_axioms;

// ---------------------------------------------------------------------------
// Field inputs
// ---------------------------------------------------------------------------
/// A value to write into a field.
#[derive(Debug, PartialEq)]
pub enum FieldInput {
    /// Keep the stored value; the appearance is still brought up to date.
    KeepCurrent,
    Text(String),
    TextList(Vec<String>),
    /// Text drawn in a given font: its name, and the bit pattern of its
    /// 32-bit size.
    TextAppearance { text: String, font_name: String, font_size: u32 },
}

/// The view of a field input.
pub enum SInput {
    KeepCurrent,
    Text(Seq<char>),
    TextList(Seq<Seq<char>>),
    TextAppearance(Seq<char>, Seq<char>, u32),
}

/// The text an input stands for: its text, the first item of a list (empty
/// when the list is), and nothing for `KeepCurrent`.
pub open spec fn primary(i: SInput) -> Seq<char> {
    match i {
        SInput::KeepCurrent => seq![],
        SInput::Text(t) => t,
        SInput::TextList(l) => if l.len() > 0 {
            l[0]
        } else {
            seq![]
        },
        SInput::TextAppearance(t, _, _) => t,
    }
}

/// The font an input asks for.
pub open spec fn font_of(i: SInput) -> Option<(Seq<char>, u32)> {
    match i {
        SInput::TextAppearance(_, n, s) => Some((n, s)),
        _ => None,
    }
}

/// `KeepCurrent` replaced by the current text (empty when there is none);
/// any other input as it is.
pub open spec fn materialized(i: SInput, current: Option<Seq<char>>) -> SInput {
    match i {
        SInput::KeepCurrent => SInput::Text(
            match current {
                Some(t) => t,
                None => seq![],
            },
        ),
        _ => i,
    }
}

impl FieldInput {
    /// The mathematical value of this input.
    pub open spec fn sv(self) -> SInput {
        match self {
            FieldInput::KeepCurrent => SInput::KeepCurrent,
            FieldInput::Text(t) => SInput::Text(t@),
            FieldInput::TextList(l) => SInput::TextList(string_views(l@)),
            FieldInput::TextAppearance { text, font_name, font_size } => SInput::TextAppearance(
                text@,
                font_name@,
                font_size,
            ),
        }
    }

    /// The text this input stands for.
    pub fn primary_text(&self) -> (r: String)
        ensures
            r@ == primary(self.sv()),
    {
        match self {
            FieldInput::KeepCurrent => String::new(),
            FieldInput::Text(t) => copy_string(t),
            FieldInput::TextList(items) => {
                if items.len() > 0 {
                    copy_string(&items[0])
                } else {
                    String::new()
                }
            },
            FieldInput::TextAppearance { text, .. } => copy_string(text),
        }
    }

    /// The input is `KeepCurrent`.
    pub fn is_keep_current(&self) -> (r: bool)
        ensures
            r == (self.sv() is KeepCurrent),
    {
        match self {
            FieldInput::KeepCurrent => true,
            _ => false,
        }
    }

    /// A copy of this input.
    pub fn duplicate(&self) -> (r: FieldInput)
        ensures
            r.sv() == self.sv(),
    {
        match self {
            FieldInput::KeepCurrent => FieldInput::KeepCurrent,
            FieldInput::Text(t) => FieldInput::Text(copy_string(t)),
            FieldInput::TextList(items) => {
                let mut v: Vec<String> = Vec::new();
                let mut i: usize = 0;
                while i < items.len()
                    invariant
                        i <= items.len(),
                        v.len() == i,
                        forall|j: int| 0 <= j < i ==> v@[j]@ == items@[j]@,
                    decreases items.len() - i,
                {
                    v.push(copy_string(&items[i]));
                    i += 1;
                }
                assert(string_views(v@) =~= string_views(items@));
                FieldInput::TextList(v)
            },
            FieldInput::TextAppearance { text, font_name, font_size } => FieldInput::TextAppearance {
                text: copy_string(text),
                font_name: copy_string(font_name),
                font_size: *font_size,
            },
        }
    }

    /// `KeepCurrent` becomes the current text (empty when there is none);
    /// any other input stays as it is.
    pub fn materialize(&self, current: Option<&str>) -> (r: FieldInput)
        ensures
            r.sv() == materialized(
                self.sv(),
                match current {
                    Some(t) => Some(t@),
                    None => None,
                },
            ),
    {
        match self {
            FieldInput::KeepCurrent => match current {
                Some(t) => FieldInput::Text(t.to_owned()),
                None => FieldInput::Text(String::new()),
            },
            _ => self.duplicate(),
        }
    }

    /// The items of a list input.
    pub fn text_list(&self) -> (r: Option<&Vec<String>>)
        ensures
            r matches Some(l) ==> self.sv() == SInput::TextList(string_views(l@)),
            r is None ==> !(self.sv() is TextList),
    {
        match self {
            FieldInput::TextList(items) => Some(items),
            _ => None,
        }
    }

    /// The font this input asks for: its name and the bit pattern of its
    /// size.
    pub fn font_override(&self) -> (r: Option<(String, u32)>)
        ensures
            font_v(r) == font_of(self.sv()),
    {
        match self {
            FieldInput::TextAppearance { font_name, font_size, .. } => Some(
                (copy_string(font_name), *font_size),
            ),
            _ => None,
        }
    }
}

// ---------------------------------------------------------------------------
// Writing a value
// ---------------------------------------------------------------------------
/// A PDF text string object holding `t`.
pub open spec fn text_object(t: Seq<char>) -> SObj {
    SObj::Str(spec_encode_pdf_text(t), StringFormat::Hexadecimal)
}

/// Text string objects holding the texts `l`.
pub open spec fn text_objects(l: Seq<Seq<char>>) -> Seq<SObj> {
    Seq::new(l.len(), |j: int| text_object(l[j]))
}

/// The value stored for an input in a field of type `ft`: a name for a
/// button, a text string (or an array of them, for a list) for a text or
/// choice field; nothing for other types.
pub open spec fn stored_value(ft: Seq<char>, i: SInput) -> Option<SObj> {
    if ft == w_btn() {
        Some(SObj::Name(encode_utf8(strip_slashes(primary(i)))))
    } else if ft == w_tx() || ft == w_ch() {
        match i {
            SInput::TextList(l) => Some(SObj::Array(text_objects(l))),
            _ => Some(text_object(primary(i))),
        }
    } else {
        None
    }
}

/// The field and widget dictionaries with the value stored in both (`/V`).
pub open spec fn applied(pd: SDict, ad: SDict, ft: Seq<char>, i: SInput) -> (SDict, SDict) {
    match stored_value(ft, i) {
        Some(v) => (sd_set(pd, k_v(), v), sd_set(ad, k_v(), v)),
        None => (pd, ad),
    }
}

fn text_object_of(t: &str) -> (r: PdfObject)
    ensures
        r.sv() == text_object(t@),
{
    PdfObject::Str(encode_pdf_text(t), StringFormat::Hexadecimal)
}

fn stored_value_of(ft: &String, input: &FieldInput) -> (r: Option<PdfObject>)
    ensures
        match r {
            Some(o) => stored_value(ft@, input.sv()) == Some(o.sv()),
            None => stored_value(ft@, input.sv()) is None,
        },
{
    if text_is(ft, &word_btn()) {
        let state = normalize_name(input.primary_text().as_str());
        Some(PdfObject::Name(utf8_bytes(state.as_str())))
    } else if text_is(ft, &word_tx()) || text_is(ft, &word_ch()) {
        match input.text_list() {
            Some(list) => {
                let mut values: Vec<PdfObject> = Vec::new();
                let mut i: usize = 0;
                while i < list.len()
                    invariant
                        i <= list.len(),
                        values.len() == i,
                        forall|j: int| 0 <= j < i ==> values@[j].sv() == text_object(list@[j]@),
                    decreases list.len() - i,
                {
                    values.push(text_object_of(list[i].as_str()));
                    i += 1;
                }
                proof {
                    lemma_array_obj_sv(values);
                    assert(sv_seq(values@) =~= text_objects(string_views(list@)));
                }
                Some(PdfObject::Array(values))
            },
            None => Some(text_object_of(input.primary_text().as_str())),
        }
    } else {
        None
    }
}

/// Stores the input's value in the field and widget dictionaries.
pub fn apply_field_value(pd: &mut PdfDict, ad: &mut PdfDict, ft: &String, input: &FieldInput)
    ensures
        (final(pd).sv(), final(ad).sv()) == applied(old(pd).sv(), old(ad).sv(), ft@, input.sv()),
{
    match stored_value_of(ft, input) {
        Some(v) => {
            ad.set(key_v(), v.deep_clone());
            pd.set(key_v(), v);
        },
        None => {},
    }
}

// ---------------------------------------------------------------------------
// One value into one widget
// ---------------------------------------------------------------------------
/// Where a value is written: the form, the page and the widget (its id, the
/// id of its parent field, whether the widget is itself the field), the
/// widget's rectangle, the field flags to store (0 for none) and whether to
/// draw the appearance into the page.
pub struct WidgetCtx {
    pub acro_id: ObjectId,
    pub page_id: ObjectId,
    pub aid: Option<ObjectId>,
    pub parent_id: Option<ObjectId>,
    pub merged: bool,
    pub rect: Seq<SObj>,
    pub flags: u32,
    pub flatten: bool,
}

/// `s` with every `.` replaced by `_`.
pub open spec fn dots_to_underscores(s: Seq<char>) -> Seq<char> {
    Seq::new(
        s.len(),
        |i: int|
            if s[i] == '.' {
                '_'
            } else {
                s[i]
            },
    )
}

/// The XObject name under which a widget's appearance is drawn on a page:
/// `Fm_`, the field name with dots as underscores, the page's object number
/// and generation, and the widget's.
pub open spec fn xobject_name(name: Seq<char>, page: ObjectId, aid: Option<ObjectId>) -> Seq<char> {
    "Fm_"@ + dots_to_underscores(name) + "_"@ + decimal(page.0 as nat) + "_"@ + decimal(
        page.1 as nat,
    ) + match aid {
        Some(a) => "_"@ + decimal(a.0 as nat) + "_"@ + decimal(a.1 as nat),
        None => seq![],
    }
}

/// After a value is applied: the field written back (unless the widget is
/// itself the field), the widget written back, and the appearance drawn
/// into the page when flattening.
#[verifier::opaque]
pub open spec fn spec_finish<G: Fn(i64) -> String>(
    doc: SDoc,
    w: WidgetCtx,
    pd: SDict,
    ad: SDict,
    ap: Option<ObjectId>,
    name: Seq<char>,
    g: G,
) -> SOut<()> {
    let (d1, r1) = match w.parent_id {
        Some(pid) => if !w.merged {
            spec_write(doc, pid, SObj::Dictionary(pd))
        } else {
            (doc, Ok(()))
        },
        None => (doc, Ok(())),
    };
    match r1 {
        Err(e) => (d1, Err(e)),
        Ok(_) => {
            let (d2, r2) = match w.aid {
                Some(aid) => spec_write(d1, aid, SObj::Dictionary(ad)),
                None => (d1, Ok(())),
            };
            match r2 {
                Err(e) => (d2, Err(e)),
                Ok(_) => match ap {
                    Some(ap_id) => if w.flatten {
                        spec_flatten(
                            d2,
                            w.page_id,
                            ap_id,
                            xobject_name(name, w.page_id, w.aid),
                            spec_number_text(g, w.rect[0]),
                            spec_number_text(g, w.rect[1]),
                        )
                    } else {
                        (d2, Ok(()))
                    },
                    None => (d2, Ok(())),
                },
            }
        },
    }
}

/// A widget step's outcome: the document, the field and widget
/// dictionaries, and the result.
pub type StepOut = (SDoc, SDict, SDict, Result<(), SErr>);

/// Applying the input requested under `name` to a widget (dictionary `ad`)
/// of the field `pd`. The field dictionary of a choice field loses its
/// selected indices (`/I`); the widget keeps its own. Nonzero flags are
/// stored in the widget. `KeepCurrent` leaves every stored value (`/V`) as
/// it is and only brings the appearance up to date from the current value;
/// any other input is stored as the field's value. A button's widget shows
/// (`/AS`) the state its value resolves to among the widget's own
/// appearance states; unless the input is `KeepCurrent`, the widget stores
/// that state and the field stores the state resolved among the field's
/// states. The widget's appearance for the state is found. A text or choice widget gets a new
/// appearance stream. Then everything is written back and, when
/// flattening, drawn into the page.
#[verifier::opaque]
pub open spec fn spec_fill_one<F: Fn(TextRequest) -> TextLayout, G: Fn(i64) -> String>(
    doc: SDoc,
    w: WidgetCtx,
    pd: SDict,
    ad: SDict,
    name: Seq<char>,
    input: SInput,
    lay: F,
    g: G,
) -> StepOut {
    let remove_i = inherited_name(doc, pd, k_ft()) == Some(w_ch()) && sd_has(pd, k_i());
    let pd1 = if remove_i {
        sd_remove(pd, k_i())
    } else {
        pd
    };
    let ad2 = if w.flags != 0 {
        sd_set(ad, k_ff(), SObj::Integer(w.flags as i64))
    } else {
        ad
    };
    let ft = match inherited_name(doc, pd1, k_ft()) {
        Some(t) => t,
        None => seq![],
    };
    let eff = materialized(input, value_text(opt_value(spec_inherited(doc, pd1, k_v()))));
    let (pd2, ad3) = if input is KeepCurrent {
        (pd1, ad2)
    } else {
        applied(pd1, ad2, ft, eff)
    };
    if ft == w_btn() {
        let fstate = spec_choose_state(doc, pd2, primary(eff));
        let state = spec_choose_state(doc, ad3, primary(eff));
        let nm = SObj::Name(encode_utf8(strip_slashes(state)));
        let ad4 = if input is KeepCurrent {
            sd_set(ad3, k_as(), nm)
        } else {
            sd_set(sd_set(ad3, k_as(), nm), k_v(), nm)
        };
        let pd3 = if input is KeepCurrent {
            pd2
        } else {
            sd_set(pd2, k_v(), SObj::Name(encode_utf8(strip_slashes(fstate))))
        };
        let (d1, apr) = spec_button_stream(doc, ad4, state);
        match apr {
            Err(e) => (d1, pd3, ad4, Err(e)),
            Ok(ap) => {
                let (d2, r) = spec_finish(d1, w, pd3, ad4, ap, name, g);
                (d2, pd3, ad4, r)
            },
        }
    } else if ft == w_tx() || ft == w_ch() {
        match w.aid {
            Some(aid) => {
                let (d1, ir) = spec_install_text(
                    doc,
                    w.acro_id,
                    aid,
                    pd2,
                    ad3,
                    primary(eff),
                    font_of(eff),
                    lay,
                );
                match ir {
                    Err(e) => (d1, pd2, ad3, Err(e)),
                    Ok(sid) => match sdoc_get_dict(d1, aid) {
                        Err(e) => (d1, pd2, ad3, Err(SErr::Lopdf(e))),
                        Ok(ad4) => {
                            let (d2, r) = spec_finish(d1, w, pd2, ad4, Some(sid), name, g);
                            (d2, pd2, ad4, r)
                        },
                    },
                }
            },
            None => {
                let (d2, r) = spec_finish(doc, w, pd2, ad3, None, name, g);
                (d2, pd2, ad3, r)
            },
        }
    } else {
        let (d2, r) = spec_finish(doc, w, pd2, ad3, None, name, g);
        (d2, pd2, ad3, r)
    }
}

fn dots_to_underscores_of(s: &String) -> (r: Vec<char>)
    ensures
        r@ == dots_to_underscores(s@),
{
    let c = to_chars(s.as_str());
    let mut out: Vec<char> = Vec::new();
    let mut i: usize = 0;
    while i < c.len()
        invariant
            i <= c.len(),
            out.len() == i,
            forall|j: int|
                0 <= j < i ==> out@[j] == (if c@[j] == '.' {
                    '_'
                } else {
                    c@[j]
                }),
        decreases c.len() - i,
    {
        if c[i] == '.' {
            out.push('_');
        } else {
            out.push(c[i]);
        }
        i += 1;
    }
    assert(out@ =~= dots_to_underscores(s@));
    out
}

fn push_number(out: &mut Vec<char>, n: u128)
    ensures
        final(out)@ == old(out)@ + seq!['_'] + decimal(n as nat),
{
    out.push('_');
    let d = decimal_chars(n);
    append_chars(out, d.as_slice());
}

fn xobject_name_of(name: &String, page: ObjectId, aid: Option<ObjectId>) -> (r: String)
    ensures
        r@ == xobject_name(name@, page, aid),
{
    let mut out: Vec<char> = vec!['F', 'm', '_'];
    let body = dots_to_underscores_of(name);
    append_chars(&mut out, body.as_slice());
    push_number(&mut out, page.0 as u128);
    push_number(&mut out, page.1 as u128);
    match aid {
        Some(a) => {
            push_number(&mut out, a.0 as u128);
            push_number(&mut out, a.1 as u128);
        },
        None => {},
    }
    proof {
        reveal_strlit("Fm_");
        reveal_strlit("_");
    }
    assert(out@ =~= xobject_name(name@, page, aid));
    string_from_chars(out.as_slice())
}

fn finish<G: Fn(i64) -> String>(
    doc: &mut PdfDocument,
    page_id: ObjectId,
    aid: Option<ObjectId>,
    parent_id: Option<ObjectId>,
    merged: bool,
    rect: &Vec<PdfObject>,
    flatten: bool,
    pd: &PdfDict,
    ad: &PdfDict,
    ap: Option<ObjectId>,
    name: &String,
    g: &G,
    Ghost(w): Ghost<WidgetCtx>,
) -> (r: Result<(), PdferError>)
    requires
        int_text_ok(*g),
        rect.len() == 4,
        w.page_id == page_id,
        w.aid == aid,
        w.parent_id == parent_id,
        w.merged == merged,
        w.rect == sv_seq(rect@),
        w.flatten == flatten,
    ensures
        (final(doc).sv(), res_id(r)) == spec_finish(old(doc).sv(), w, pd.sv(), ad.sv(), ap, name@, *g),
{
    reveal(spec_finish);
    match parent_id {
        Some(pid) => {
            if !merged {
                write_dict_object(doc, pid, pd.deep_clone())?;
            }
        },
        None => {},
    }
    match aid {
        Some(a) => {
            write_dict_object(doc, a, ad.deep_clone())?;
        },
        None => {},
    }
    match ap {
        Some(ap_id) => {
            if flatten {
                let oname = xobject_name_of(name, page_id, aid);
                let x = number_text(g, &rect[0]);
                let y = number_text(g, &rect[1]);
                flatten_appearance_stream(doc, page_id, ap_id, oname.as_str(), x.as_str(), y.as_str())
            } else {
                Ok(())
            }
        },
        None => Ok(()),
    }
}

/// The current value of a field as text.
fn current_text(doc: &PdfDocument, pd: &PdfDict) -> (r: Option<String>)
    ensures
        opt_str(r) == value_text(opt_value(spec_inherited(doc.sv(), pd.sv(), k_v()))),
{
    let kv = key_v();
    let v = match inherited_object(doc, pd, kv.as_slice()) {
        Some(o) => field_value_from_object(&o),
        None => None,
    };
    match v {
        Some(FieldValue::Text(t)) => Some(t),
        Some(FieldValue::Name(n)) => Some(n),
        Some(FieldValue::List(l)) => Some(join_strings(&l, ", ")),
        Some(FieldValue::Null) => None,
        None => None,
    }
}

/// Applies the input requested under `name` to a widget.
#[verifier::rlimit(30)]
fn fill_one<F: Fn(TextRequest) -> TextLayout, G: Fn(i64) -> String>(
    doc: &mut PdfDocument,
    acro_id: ObjectId,
    page_id: ObjectId,
    aid: Option<ObjectId>,
    parent_id: Option<ObjectId>,
    merged: bool,
    rect: &Vec<PdfObject>,
    flags: u32,
    flatten: bool,
    pd: &mut PdfDict,
    ad: &mut PdfDict,
    name: &String,
    input: &FieldInput,
    lay: &F,
    g: &G,
    Ghost(w): Ghost<WidgetCtx>,
) -> (r: Result<(), PdferError>)
    requires
        layout_ok(*lay),
        int_text_ok(*g),
        rect.len() == 4,
        w == (WidgetCtx {
            acro_id,
            page_id,
            aid,
            parent_id,
            merged,
            rect: sv_seq(rect@),
            flags,
            flatten,
        }),
    ensures
        (final(doc).sv(), final(pd).sv(), final(ad).sv(), res_id(r)) == spec_fill_one(
            old(doc).sv(),
            w,
            old(pd).sv(),
            old(ad).sv(),
            name@,
            input.sv(),
            *lay,
            *g,
        ),
{
    reveal(spec_fill_one);
    let kft = key_ft();
    let ki = key_i();
    let is_choice = match inherited_name_of(doc, pd, kft.as_slice()) {
        Some(t) => text_is(&t, &word_ch()),
        None => false,
    };
    if is_choice && pd.has(ki.as_slice()) {
        pd.remove(ki.as_slice());
    }
    if flags != 0 {
        ad.set(key_ff(), PdfObject::Integer(flags as i64));
    }
    let ft = match inherited_name_of(doc, pd, kft.as_slice()) {
        Some(t) => t,
        None => String::new(),
    };
    let cur = current_text(doc, pd);
    let eff = match &cur {
        Some(t) => input.materialize(Some(t.as_str())),
        None => input.materialize(None),
    };
    if !input.is_keep_current() {
        apply_field_value(pd, ad, &ft, &eff);
    }
    let text = eff.primary_text();
    if text_is(&ft, &word_btn()) {
        let fstate = choose_button_state(doc, pd, text.as_str());
        let state = choose_button_state(doc, ad, text.as_str());
        let pdf_name = normalize_name(state.as_str());
        ad.set(key_as(), PdfObject::Name(utf8_bytes(pdf_name.as_str())));
        if !input.is_keep_current() {
            ad.set(key_v(), PdfObject::Name(utf8_bytes(pdf_name.as_str())));
            let field_name = normalize_name(fstate.as_str());
            pd.set(key_v(), PdfObject::Name(utf8_bytes(field_name.as_str())));
        }
        let ap = resolve_button_appearance_stream(doc, ad, state.as_str())?;
        finish(doc, page_id, aid, parent_id, merged, rect, flatten, pd, ad, ap, name, g, Ghost(w))
    } else if text_is(&ft, &word_tx()) || text_is(&ft, &word_ch()) {
        match aid {
            Some(a) => {
                let sid = install_text_appearance(
                    doc,
                    acro_id,
                    a,
                    pd,
                    ad,
                    text.as_str(),
                    eff.font_override(),
                    lay,
                )?;
                let fresh = match doc.get_dictionary(a) {
                    Err(e) => {
                        return Err(PdferError::Lopdf(e));
                    },
                    Ok(d) => d.deep_clone(),
                };
                *ad = fresh;
                finish(
                    doc,
                    page_id,
                    aid,
                    parent_id,
                    merged,
                    rect,
                    flatten,
                    pd,
                    ad,
                    Some(sid),
                    name,
                    g,
                    Ghost(w),
                )
            },
            None => finish(doc, page_id, aid, parent_id, merged, rect, flatten, pd, ad, None, name, g, Ghost(w)),
        }
    } else {
        finish(doc, page_id, aid, parent_id, merged, rect, flatten, pd, ad, None, name, g, Ghost(w))
    }
}

// ---------------------------------------------------------------------------
// All requested values into one widget
// ---------------------------------------------------------------------------
/// The state while one widget is filled: the document, the field and widget
/// dictionaries, which requested names have matched a widget so far, and how
/// many (widget, name) matches there have been.
pub struct WState {
    pub doc: SDoc,
    pub pd: SDict,
    pub ad: SDict,
    pub hits: Seq<bool>,
    pub count: usize,
}

/// The last `.`-separated segment of a name (the whole name when it has no
/// dot).
pub open spec fn leaf(s: Seq<char>) -> Seq<char>
    decreases s.len(),
{
    if s.len() == 0 {
        s
    } else if s.last() == '.' {
        seq![]
    } else {
        leaf(s.drop_last()).push(s.last())
    }
}

/// A requested name names a widget of the field with qualified name `qn`
/// and partial name `pn`: it is the qualified name, or the partial name, or
/// its last segment is the partial name.
pub open spec fn names_widget(qn: Seq<char>, pn: Option<Seq<char>>, name: Seq<char>) -> bool {
    qn == name || pn == Some(name) || pn == Some(leaf(name))
}

/// One more, stopping at the largest `usize`.
pub open spec fn sat_inc(c: usize) -> usize {
    if c < usize::MAX {
        (c + 1) as usize
    } else {
        c
    }
}

/// The view of the requested (name, input) pairs.
pub open spec fn req_v(req: Seq<(String, FieldInput)>) -> Seq<(Seq<char>, SInput)> {
    req.map_values(|e: (String, FieldInput)| (e.0@, e.1.sv()))
}

/// The first `k` requests applied, in order, to a widget of the field with
/// names `qn` and `pn`: each request whose name names the widget is marked
/// as matched, counted, and applied; the first failure stops the walk.
#[verifier::opaque]
pub open spec fn fill_fields<F: Fn(TextRequest) -> TextLayout, G: Fn(i64) -> String>(
    st: WState,
    w: WidgetCtx,
    qn: Seq<char>,
    pn: Option<Seq<char>>,
    req: Seq<(Seq<char>, SInput)>,
    k: nat,
    lay: F,
    g: G,
) -> (WState, Result<(), SErr>)
    decreases k,
{
    if k == 0 {
        (st, Ok(()))
    } else {
        let (s1, r1) = fill_fields(st, w, qn, pn, req, (k - 1) as nat, lay, g);
        match r1 {
            Err(e) => (s1, Err(e)),
            Ok(_) => {
                let (name, input) = req[k - 1];
                if !names_widget(qn, pn, name) {
                    (s1, Ok(()))
                } else {
                    let (d2, pd2, ad2, r2) = spec_fill_one(
                        s1.doc,
                        w,
                        s1.pd,
                        s1.ad,
                        name,
                        input,
                        lay,
                        g,
                    );
                    (
                        WState {
                            doc: d2,
                            pd: pd2,
                            ad: ad2,
                            hits: s1.hits.update(k - 1, true),
                            count: sat_inc(s1.count),
                        },
                        r2,
                    )
                }
            },
        }
    }
}

proof fn lemma_fill_fields_err<F: Fn(TextRequest) -> TextLayout, G: Fn(i64) -> String>(
    st: WState,
    w: WidgetCtx,
    qn: Seq<char>,
    pn: Option<Seq<char>>,
    req: Seq<(Seq<char>, SInput)>,
    i: nat,
    k: nat,
    lay: F,
    g: G,
)
    requires
        i <= k,
        fill_fields(st, w, qn, pn, req, i, lay, g).1 is Err,
    ensures
        fill_fields(st, w, qn, pn, req, k, lay, g) == fill_fields(st, w, qn, pn, req, i, lay, g),
    decreases k,
{
    reveal(fill_fields);
    if i < k {
        lemma_fill_fields_err(st, w, qn, pn, req, i, (k - 1) as nat, lay, g);
    }
}

/// The last segment of a dotted name.
fn leaf_of(s: &String) -> (r: String)
    ensures
        r@ == leaf(s@),
{
    let c = to_chars(s.as_str());
    let mut out: Vec<char> = Vec::new();
    let mut i: usize = 0;
    assert(c@.take(0) =~= Seq::<char>::empty());
    while i < c.len()
        invariant
            i <= c.len(),
            c@ == s@,
            out@ == leaf(c@.take(i as int)),
        decreases c.len() - i,
    {
        assert(c@.take(i + 1).drop_last() =~= c@.take(i as int));
        assert(c@.take(i + 1).last() == c@[i as int]);
        if c[i] == '.' {
            out = Vec::new();
        } else {
            out.push(c[i]);
        }
        i += 1;
    }
    assert(c@.take(c.len() as int) =~= c@);
    string_from_chars(out.as_slice())
}

fn names_widget_of(qn: &String, pn: &Option<String>, name: &String) -> (r: bool)
    ensures
        r == names_widget(qn@, opt_str(*pn), name@),
{
    if *qn == *name {
        return true;
    }
    match pn {
        Some(p) => {
            let l = leaf_of(name);
            *p == *name || *p == l
        },
        None => false,
    }
}

/// Applies every request that names the widget, in order.
fn fill_widget_fields<F: Fn(TextRequest) -> TextLayout, G: Fn(i64) -> String>(
    doc: &mut PdfDocument,
    acro_id: ObjectId,
    page_id: ObjectId,
    aid: Option<ObjectId>,
    parent_id: Option<ObjectId>,
    merged: bool,
    rect: &Vec<PdfObject>,
    flags: u32,
    flatten: bool,
    pd: &mut PdfDict,
    ad: &mut PdfDict,
    qn: &String,
    pn: &Option<String>,
    req: &Vec<(String, FieldInput)>,
    hits: &mut Vec<bool>,
    count: &mut usize,
    lay: &F,
    g: &G,
    Ghost(w): Ghost<WidgetCtx>,
) -> (r: Result<(), PdferError>)
    requires
        layout_ok(*lay),
        int_text_ok(*g),
        rect.len() == 4,
        old(hits).len() == req.len(),
        w == (WidgetCtx {
            acro_id,
            page_id,
            aid,
            parent_id,
            merged,
            rect: sv_seq(rect@),
            flags,
            flatten,
        }),
    ensures
        final(hits).len() == req.len(),
        (
            WState {
                doc: final(doc).sv(),
                pd: final(pd).sv(),
                ad: final(ad).sv(),
                hits: final(hits)@,
                count: *final(count),
            },
            res_id(r),
        ) == fill_fields(
            WState {
                doc: old(doc).sv(),
                pd: old(pd).sv(),
                ad: old(ad).sv(),
                hits: old(hits)@,
                count: *old(count),
            },
            w,
            qn@,
            opt_str(*pn),
            req_v(req@),
            req.len() as nat,
            *lay,
            *g,
        ),
{
    reveal(fill_fields);
    let ghost st0 = WState {
        doc: doc.sv(),
        pd: pd.sv(),
        ad: ad.sv(),
        hits: hits@,
        count: *count,
    };
    let ghost rv = req_v(req@);
    let mut i: usize = 0;
    while i < req.len()
        invariant
            i <= req.len(),
            hits.len() == req.len(),
            rv == req_v(req@),
            layout_ok(*lay),
            int_text_ok(*g),
            rect.len() == 4,
            w == (WidgetCtx {
                acro_id,
                page_id,
                aid,
                parent_id,
                merged,
                rect: sv_seq(rect@),
                flags,
                flatten,
            }),
            st0 == (WState {
                doc: old(doc).sv(),
                pd: old(pd).sv(),
                ad: old(ad).sv(),
                hits: old(hits)@,
                count: *old(count),
            }),
            fill_fields(st0, w, qn@, opt_str(*pn), rv, i as nat, *lay, *g) == (
                WState { doc: doc.sv(), pd: pd.sv(), ad: ad.sv(), hits: hits@, count: *count },
                Ok::<(), SErr>(()),
            ),
        decreases req.len() - i,
    {
        proof {
            reveal(fill_fields);
        }
        let name = &req[i].0;
        let input = &req[i].1;
        assert(rv[i as int] == (name@, input.sv()));
        if names_widget_of(qn, pn, name) {
            hits.set(i, true);
            if *count < usize::MAX {
                *count = *count + 1;
            }
            let res = fill_one(
                doc,
                acro_id,
                page_id,
                aid,
                parent_id,
                merged,
                rect,
                flags,
                flatten,
                pd,
                ad,
                name,
                input,
                lay,
                g,
                Ghost(w),
            );
            match res {
                Ok(()) => {},
                Err(e) => {
                    proof {
                        lemma_fill_fields_err(
                            st0,
                            w,
                            qn@,
                            opt_str(*pn),
                            rv,
                            (i + 1) as nat,
                            req.len() as nat,
                            *lay,
                            *g,
                        );
                    }
                    return Err(e);
                },
            }
        }
        i += 1;
    }
    Ok(())
}

// ---------------------------------------------------------------------------
// Widgets of the selected pages
// ---------------------------------------------------------------------------
/// The state of a fill: the document, which requested names have matched a
/// widget, and how many (widget, name) matches there have been.
pub struct FState {
    pub doc: SDoc,
    pub hits: Seq<bool>,
    pub count: usize,
}

/// What stays the same during a fill: the form's id, the requests, the
/// field flags to store and whether to flatten.
pub struct FillArgs {
    pub acro_id: ObjectId,
    pub req: Seq<(Seq<char>, SInput)>,
    pub flags: u32,
    pub flatten: bool,
}

/// The qualified name of the field a widget belongs to: of the widget itself
/// when it is its own field, else of its parent, else of the widget.
#[verifier::opaque]
pub open spec fn widget_qname(
    doc: SDoc,
    aid: Option<ObjectId>,
    parent_id: Option<ObjectId>,
    merged: bool,
    pd: SDict,
) -> Result<Seq<char>, SErr> {
    if merged {
        match aid {
            Some(id) => spec_qualified_name(doc, id),
            None => Ok(spec_qualified_name_of_dict(doc, pd)),
        }
    } else {
        match parent_id {
            Some(pid) => spec_qualified_name(doc, pid),
            None => match aid {
                Some(id) => spec_qualified_name(doc, id),
                None => Ok(spec_qualified_name_of_dict(doc, pd)),
            },
        }
    }
}

/// The dictionary of the field a widget belongs to: the widget's own when
/// it carries `/FT` and `/T` (it is its own field) or has no parent, else
/// its parent's.
#[verifier::opaque]
pub open spec fn field_dict_of(doc: SDoc, ad: SDict) -> Result<SDict, SErr> {
    if sd_has(ad, k_ft()) && sd_has(ad, k_t()) {
        Ok(ad)
    } else {
        match dict_ref(ad, k_parent()) {
            Some(pid) => lopdf_res(sdoc_get_dict(doc, pid)),
            None => Ok(ad),
        }
    }
}

/// What the fill reads of a widget annotation: its dictionary, its field's
/// dictionary, its parent's id, whether it is its own field, its field's
/// qualified and partial names, and its rectangle.
pub struct SWidget {
    pub ad: SDict,
    pub pd: SDict,
    pub parent_id: Option<ObjectId>,
    pub merged: bool,
    pub qn: Seq<char>,
    pub pn: Option<Seq<char>>,
    pub rect: Seq<SObj>,
}

/// What the fill reads of an annotation: nothing for an annotation that is
/// not a widget; for a widget, its field's names and its rectangle (which
/// must be valid).
#[verifier::opaque]
pub open spec fn spec_widget(doc: SDoc, a: SObj) -> Result<Option<SWidget>, SErr> {
    let aid = obj_ref(a);
    match deref_dict(doc, a) {
        Err(e) => Err(e),
        Ok(ad) => if !is_widget(ad) {
            Ok(None)
        } else {
            let parent_id = dict_ref(ad, k_parent());
            let merged = sd_has(ad, k_ft()) && sd_has(ad, k_t());
            match field_dict_of(doc, ad) {
                Err(e) => Err(e),
                Ok(pd) => match widget_qname(doc, aid, parent_id, merged, pd) {
                    Err(e) => Err(e),
                    Ok(qn) => match spec_rect(ad) {
                        Err(e) => Err(e),
                        Ok(rect) => Ok(
                            Some(
                                SWidget {
                                    ad,
                                    pd,
                                    parent_id,
                                    merged,
                                    qn,
                                    pn: dict_text(pd, k_t()),
                                    rect,
                                },
                            ),
                        ),
                    },
                },
            }
        },
    }
}

/// One annotation of a page filled: anything but a widget is passed over;
/// every request is tried on a widget.
#[verifier::opaque]
pub open spec fn spec_annot_step<F: Fn(TextRequest) -> TextLayout, G: Fn(i64) -> String>(
    st: FState,
    args: FillArgs,
    page_id: ObjectId,
    a: SObj,
    lay: F,
    g: G,
) -> (FState, Result<(), SErr>) {
    match spec_widget(st.doc, a) {
        Err(e) => (st, Err(e)),
        Ok(None) => (st, Ok(())),
        Ok(Some(wi)) => {
            let w = WidgetCtx {
                acro_id: args.acro_id,
                page_id,
                aid: obj_ref(a),
                parent_id: wi.parent_id,
                merged: wi.merged,
                rect: wi.rect,
                flags: args.flags,
                flatten: args.flatten,
            };
            let (ws, r) = fill_fields(
                WState { doc: st.doc, pd: wi.pd, ad: wi.ad, hits: st.hits, count: st.count },
                w,
                wi.qn,
                wi.pn,
                args.req,
                args.req.len(),
                lay,
                g,
            );
            (FState { doc: ws.doc, hits: ws.hits, count: ws.count }, r)
        },
    }
}

/// What the fill reads of a widget annotation.
struct WidgetInfo {
    ad: PdfDict,
    pd: PdfDict,
    parent_id: Option<ObjectId>,
    merged: bool,
    qn: String,
    pn: Option<String>,
    rect: Vec<PdfObject>,
}

impl WidgetInfo {
    spec fn sv(self) -> SWidget {
        SWidget {
            ad: self.ad.sv(),
            pd: self.pd.sv(),
            parent_id: self.parent_id,
            merged: self.merged,
            qn: self.qn@,
            pn: opt_str(self.pn),
            rect: sv_seq(self.rect@),
        }
    }
}

fn field_dict_exec(doc: &PdfDocument, ad: &PdfDict) -> (r: Result<PdfDict, PdferError>)
    ensures
        res_v(r, |d: PdfDict| d.sv()) == field_dict_of(doc.sv(), ad.sv()),
{
    reveal(field_dict_of);
    let kft = key_ft();
    let kt = key_t();
    if ad.has(kft.as_slice()) && ad.has(kt.as_slice()) {
        return Ok(ad.deep_clone());
    }
    let kp = key_parent();
    match get_ref(ad, kp.as_slice()) {
        Some(pid) => match doc.get_dictionary(pid) {
            Ok(d) => Ok(d.deep_clone()),
            Err(e) => Err(PdferError::Lopdf(e)),
        },
        None => Ok(ad.deep_clone()),
    }
}

fn widget_qname_exec(
    doc: &PdfDocument,
    aid: Option<ObjectId>,
    parent_id: Option<ObjectId>,
    merged: bool,
    pd: &PdfDict,
) -> (r: Result<String, PdferError>)
    ensures
        res_v(r, |s: String| s@) == widget_qname(doc.sv(), aid, parent_id, merged, pd.sv()),
{
    reveal(widget_qname);
    if merged {
        match aid {
            Some(id) => qualified_name_from_id(doc, id),
            None => Ok(qualified_name_from_dict(doc, pd)),
        }
    } else {
        match parent_id {
            Some(pid) => qualified_name_from_id(doc, pid),
            None => match aid {
                Some(id) => qualified_name_from_id(doc, id),
                None => Ok(qualified_name_from_dict(doc, pd)),
            },
        }
    }
}

#[verifier::rlimit(60)]
fn widget_info(doc: &PdfDocument, a: &PdfObject) -> (r: Result<Option<WidgetInfo>, PdferError>)
    ensures
        match r {
            Ok(Some(wi)) => spec_widget(doc.sv(), a.sv()) == Ok::<Option<SWidget>, SErr>(
                Some(wi.sv()),
            ) && wi.rect.len() == 4,
            Ok(None) => spec_widget(doc.sv(), a.sv()) == Ok::<Option<SWidget>, SErr>(None),
            Err(e) => spec_widget(doc.sv(), a.sv()) == Err::<Option<SWidget>, SErr>(e.sv()),
        },
{
    reveal(spec_widget);
    let aid = object_reference(a);
    let ad = deref_dictionary(doc, a)?;
    if !dict_is_widget(&ad) {
        return Ok(None);
    }
    let kp = key_parent();
    let parent_id = get_ref(&ad, kp.as_slice());
    let kft = key_ft();
    let kt = key_t();
    let merged = ad.has(kft.as_slice()) && ad.has(kt.as_slice());
    let pd = field_dict_exec(doc, &ad)?;
    let qn = widget_qname_exec(doc, aid, parent_id, merged, &pd)?;
    let pn = get_text(&pd, kt.as_slice());
    let rect = extract_rect(&ad)?;
    Ok(Some(WidgetInfo { ad, pd, parent_id, merged, qn, pn, rect }))
}

/// Fills one annotation of a page.
fn fill_annotation<F: Fn(TextRequest) -> TextLayout, G: Fn(i64) -> String>(
    doc: &mut PdfDocument,
    acro_id: ObjectId,
    page_id: ObjectId,
    a: &PdfObject,
    req: &Vec<(String, FieldInput)>,
    flags: u32,
    flatten: bool,
    hits: &mut Vec<bool>,
    count: &mut usize,
    lay: &F,
    g: &G,
    Ghost(args): Ghost<FillArgs>,
) -> (r: Result<(), PdferError>)
    requires
        layout_ok(*lay),
        int_text_ok(*g),
        old(hits).len() == req.len(),
        args == (FillArgs { acro_id, req: req_v(req@), flags, flatten }),
    ensures
        final(hits).len() == req.len(),
        (FState { doc: final(doc).sv(), hits: final(hits)@, count: *final(count) }, res_id(r))
            == spec_annot_step(
            FState { doc: old(doc).sv(), hits: old(hits)@, count: *old(count) },
            args,
            page_id,
            a.sv(),
            *lay,
            *g,
        ),
{
    reveal(spec_annot_step);
    let aid = object_reference(a);
    let info = widget_info(doc, a)?;
    let mut wi = match info {
        None => {
            return Ok(());
        },
        Some(wi) => wi,
    };
    let ghost w = WidgetCtx {
        acro_id,
        page_id,
        aid,
        parent_id: wi.parent_id,
        merged: wi.merged,
        rect: sv_seq(wi.rect@),
        flags,
        flatten,
    };
    fill_widget_fields(
        doc,
        acro_id,
        page_id,
        aid,
        wi.parent_id,
        wi.merged,
        &wi.rect,
        flags,
        flatten,
        &mut wi.pd,
        &mut wi.ad,
        &wi.qn,
        &wi.pn,
        req,
        hits,
        count,
        lay,
        g,
        Ghost(w),
    )
}

/// The first `k` annotations of a page filled, one after the other; the
/// first failure stops the walk.
#[verifier::opaque]
pub open spec fn fill_annots<F: Fn(TextRequest) -> TextLayout, G: Fn(i64) -> String>(
    st: FState,
    args: FillArgs,
    page_id: ObjectId,
    annots: Seq<SObj>,
    k: nat,
    lay: F,
    g: G,
) -> (FState, Result<(), SErr>)
    decreases k,
{
    if k == 0 {
        (st, Ok(()))
    } else {
        let (s1, r1) = fill_annots(st, args, page_id, annots, (k - 1) as nat, lay, g);
        match r1 {
            Err(e) => (s1, Err(e)),
            Ok(_) => spec_annot_step(s1, args, page_id, annots[k - 1], lay, g),
        }
    }
}

proof fn lemma_fill_annots_err<F: Fn(TextRequest) -> TextLayout, G: Fn(i64) -> String>(
    st: FState,
    args: FillArgs,
    page_id: ObjectId,
    annots: Seq<SObj>,
    i: nat,
    k: nat,
    lay: F,
    g: G,
)
    requires
        i <= k,
        fill_annots(st, args, page_id, annots, i, lay, g).1 is Err,
    ensures
        fill_annots(st, args, page_id, annots, k, lay, g) == fill_annots(
            st,
            args,
            page_id,
            annots,
            i,
            lay,
            g,
        ),
    decreases k,
{
    reveal(fill_annots);
    if i < k {
        lemma_fill_annots_err(st, args, page_id, annots, i, (k - 1) as nat, lay, g);
    }
}

/// One page filled: its direct annotation dictionaries are made indirect
/// first, then its annotations are filled in order.
#[verifier::opaque]
pub open spec fn spec_page_step<F: Fn(TextRequest) -> TextLayout, G: Fn(i64) -> String>(
    st: FState,
    args: FillArgs,
    page_id: ObjectId,
    lay: F,
    g: G,
) -> (FState, Result<(), SErr>) {
    let (d1, r) = spec_ensure_indirect_annots(st.doc, page_id);
    let s1 = FState { doc: d1, hits: st.hits, count: st.count };
    match r {
        Err(e) => (s1, Err(e)),
        Ok(annots) => fill_annots(s1, args, page_id, annots, annots.len(), lay, g),
    }
}

/// Fills one page.
fn fill_page<F: Fn(TextRequest) -> TextLayout, G: Fn(i64) -> String>(
    doc: &mut PdfDocument,
    acro_id: ObjectId,
    page_id: ObjectId,
    req: &Vec<(String, FieldInput)>,
    flags: u32,
    flatten: bool,
    hits: &mut Vec<bool>,
    count: &mut usize,
    lay: &F,
    g: &G,
    Ghost(args): Ghost<FillArgs>,
) -> (r: Result<(), PdferError>)
    requires
        layout_ok(*lay),
        int_text_ok(*g),
        old(hits).len() == req.len(),
        args == (FillArgs { acro_id, req: req_v(req@), flags, flatten }),
    ensures
        final(hits).len() == req.len(),
        (FState { doc: final(doc).sv(), hits: final(hits)@, count: *final(count) }, res_id(r))
            == spec_page_step(
            FState { doc: old(doc).sv(), hits: old(hits)@, count: *old(count) },
            args,
            page_id,
            *lay,
            *g,
        ),
{
    reveal(spec_page_step);
    let annotations = ensure_indirect_page_annotations(doc, page_id)?;
    let ghost an = sv_seq(annotations@);
    let ghost s1 = FState { doc: doc.sv(), hits: hits@, count: *count };
    let mut i: usize = 0;
    proof {
        reveal(fill_annots);
    }
    while i < annotations.len()
        invariant
            i <= annotations.len(),
            an == sv_seq(annotations@),
            spec_ensure_indirect_annots(old(doc).sv(), page_id) == (s1.doc, Ok::<Seq<SObj>, SErr>(
                an,
            )),
            s1.hits == old(hits)@,
            s1.count == *old(count),
            hits.len() == req.len(),
            layout_ok(*lay),
            int_text_ok(*g),
            args == (FillArgs { acro_id, req: req_v(req@), flags, flatten }),
            fill_annots(s1, args, page_id, an, i as nat, *lay, *g) == (
                FState { doc: doc.sv(), hits: hits@, count: *count },
                Ok::<(), SErr>(()),
            ),
        decreases annotations.len() - i,
    {
        proof {
            reveal(fill_annots);
            reveal(spec_page_step);
        }
        let res = fill_annotation(
            doc,
            acro_id,
            page_id,
            &annotations[i],
            req,
            flags,
            flatten,
            hits,
            count,
            lay,
            g,
            Ghost(args),
        );
        match res {
            Ok(()) => {},
            Err(e) => {
                proof {
                    lemma_fill_annots_err(
                        s1,
                        args,
                        page_id,
                        an,
                        (i + 1) as nat,
                        annotations.len() as nat,
                        *lay,
                        *g,
                    );
                }
                return Err(e);
            },
        }
        i += 1;
    }
    Ok(())
}

/// The first `k` pages filled, one after the other; the first failure stops
/// the walk.
#[verifier::opaque]
pub open spec fn fill_pages<F: Fn(TextRequest) -> TextLayout, G: Fn(i64) -> String>(
    st: FState,
    args: FillArgs,
    pages: Seq<ObjectId>,
    k: nat,
    lay: F,
    g: G,
) -> (FState, Result<(), SErr>)
    decreases k,
{
    if k == 0 {
        (st, Ok(()))
    } else {
        let (s1, r1) = fill_pages(st, args, pages, (k - 1) as nat, lay, g);
        match r1 {
            Err(e) => (s1, Err(e)),
            Ok(_) => spec_page_step(s1, args, pages[k - 1], lay, g),
        }
    }
}

proof fn lemma_fill_pages_err<F: Fn(TextRequest) -> TextLayout, G: Fn(i64) -> String>(
    st: FState,
    args: FillArgs,
    pages: Seq<ObjectId>,
    i: nat,
    k: nat,
    lay: F,
    g: G,
)
    requires
        i <= k,
        fill_pages(st, args, pages, i, lay, g).1 is Err,
    ensures
        fill_pages(st, args, pages, k, lay, g) == fill_pages(st, args, pages, i, lay, g),
    decreases k,
{
    reveal(fill_pages);
    if i < k {
        lemma_fill_pages_err(st, args, pages, i, (k - 1) as nat, lay, g);
    }
}

/// Fills the pages in order.
fn fill_all_pages<F: Fn(TextRequest) -> TextLayout, G: Fn(i64) -> String>(
    doc: &mut PdfDocument,
    acro_id: ObjectId,
    pages: &Vec<ObjectId>,
    req: &Vec<(String, FieldInput)>,
    flags: u32,
    flatten: bool,
    hits: &mut Vec<bool>,
    count: &mut usize,
    lay: &F,
    g: &G,
    Ghost(args): Ghost<FillArgs>,
) -> (r: Result<(), PdferError>)
    requires
        layout_ok(*lay),
        int_text_ok(*g),
        old(hits).len() == req.len(),
        args == (FillArgs { acro_id, req: req_v(req@), flags, flatten }),
    ensures
        final(hits).len() == req.len(),
        (FState { doc: final(doc).sv(), hits: final(hits)@, count: *final(count) }, res_id(r))
            == fill_pages(
            FState { doc: old(doc).sv(), hits: old(hits)@, count: *old(count) },
            args,
            pages@,
            pages.len() as nat,
            *lay,
            *g,
        ),
{
    let ghost s0 = FState { doc: doc.sv(), hits: hits@, count: *count };
    let mut i: usize = 0;
    proof {
        reveal(fill_pages);
    }
    while i < pages.len()
        invariant
            i <= pages.len(),
            hits.len() == req.len(),
            layout_ok(*lay),
            int_text_ok(*g),
            args == (FillArgs { acro_id, req: req_v(req@), flags, flatten }),
            s0 == (FState { doc: old(doc).sv(), hits: old(hits)@, count: *old(count) }),
            fill_pages(s0, args, pages@, i as nat, *lay, *g) == (
                FState { doc: doc.sv(), hits: hits@, count: *count },
                Ok::<(), SErr>(()),
            ),
        decreases pages.len() - i,
    {
        proof {
            reveal(fill_pages);
        }
        let res = fill_page(doc, acro_id, pages[i], req, flags, flatten, hits, count, lay, g, Ghost(args));
        match res {
            Ok(()) => {},
            Err(e) => {
                proof {
                    lemma_fill_pages_err(s0, args, pages@, (i + 1) as nat, pages.len() as nat, *lay, *g);
                }
                return Err(e);
            },
        }
        i += 1;
    }
    Ok(())
}

// ---------------------------------------------------------------------------
// Filling a form
// ---------------------------------------------------------------------------
/// The outcome of a fill: which requested names matched at least one widget
/// (and were applied), which matched none (and wrote nothing), and how many
/// (widget, name) matches there were.
#[derive(Debug, Default, PartialEq, Eq)]
pub struct FillReport {
    pub matched: Vec<String>,
    pub unmatched: Vec<String>,
    pub widgets_updated: usize,
}

/// The view of a fill report.
pub struct SReport {
    pub matched: Seq<Seq<char>>,
    pub unmatched: Seq<Seq<char>>,
    pub widgets_updated: usize,
}

impl FillReport {
    /// The mathematical value of this report.
    pub open spec fn sv(self) -> SReport {
        SReport {
            matched: string_views(self.matched@),
            unmatched: string_views(self.unmatched@),
            widgets_updated: self.widgets_updated,
        }
    }

    /// Every requested name matched at least one widget.
    pub fn all_matched(&self) -> (r: bool)
        ensures
            r == (self.sv().unmatched.len() == 0),
    {
        self.unmatched.len() == 0
    }
}

/// The requested names whose mark is `want`, in request order.
pub open spec fn names_with(req: Seq<(Seq<char>, SInput)>, hits: Seq<bool>, want: bool) -> Seq<
    Seq<char>,
>
    decreases req.len(),
{
    if req.len() == 0 {
        seq![]
    } else {
        let rest = names_with(req.drop_last(), hits, want);
        if hits[req.len() - 1] == want {
            rest.push(req.last().0)
        } else {
            rest
        }
    }
}

/// Sets the form's `/NeedAppearances` flag (the form dictionary is made
/// indirect first).
#[verifier::opaque]
pub open spec fn spec_set_need_appearances(doc: SDoc, state: bool) -> SOut<()> {
    match spec_catalog_id(doc) {
        Err(e) => (doc, Err(e)),
        Ok(cat) => {
            let (d1, ar) = spec_ensure_indirect(doc, cat, k_acroform());
            match ar {
                Err(e) => (d1, Err(e)),
                Ok(acro_id) => match sdoc_get_dict(d1, acro_id) {
                    Err(e) => (d1, Err(SErr::Lopdf(e))),
                    Ok(acro) => spec_write(
                        d1,
                        acro_id,
                        SObj::Dictionary(sd_set(acro, k_needappearances(), SObj::Boolean(state))),
                    ),
                },
            }
        },
    }
}

/// Sets the form's `/NeedAppearances` flag.
pub fn set_need_appearances(doc: &mut PdfDocument, state: bool) -> (r: Result<(), PdferError>)
    ensures
        (final(doc).sv(), res_id(r)) == spec_set_need_appearances(old(doc).sv(), state),
{
    reveal(spec_set_need_appearances);
    let cat = catalog_id(doc)?;
    let ka = key_acroform();
    let acro_id = ensure_indirect_dictionary_entry(doc, cat, ka.as_slice())?;
    let mut acro = match doc.get_dictionary(acro_id) {
        Err(e) => {
            return Err(PdferError::Lopdf(e));
        },
        Ok(d) => d.deep_clone(),
    };
    acro.set(key_needappearances(), PdfObject::Boolean(state));
    write_dict_object(doc, acro_id, acro)
}

/// Getting a document ready to be filled: a document without an interactive
/// form, or whose form has no `/Fields`, is refused (the form dictionary
/// having been made indirect by then); `/NeedAppearances` is set when asked.
/// The form's id.
#[verifier::opaque]
pub open spec fn spec_fill_prepare(doc: SDoc, auto: Option<bool>) -> SOut<ObjectId> {
    match spec_has_acroform(doc) {
        Err(e) => (doc, Err(e)),
        Ok(false) => (doc, Err(SErr::MissingAcroForm)),
        Ok(true) => match spec_catalog_id(doc) {
            Err(e) => (doc, Err(e)),
            Ok(cat) => {
                let (d1, ar) = spec_ensure_indirect(doc, cat, k_acroform());
                match ar {
                    Err(e) => (d1, Err(e)),
                    Ok(acro_id) => match spec_read_array(d1, acro_id, k_fields()) {
                        Err(e) => (d1, Err(e)),
                        Ok(None) => (d1, Err(SErr::MissingFields)),
                        Ok(Some(_)) => {
                            let (d2, nr) = match auto {
                                Some(state) => spec_set_need_appearances(d1, state),
                                None => (d1, Ok(())),
                            };
                            match nr {
                                Err(e) => (d2, Err(e)),
                                Ok(_) => (d2, Ok(acro_id)),
                            }
                        },
                    },
                }
            },
        },
    }
}

/// Filling the requests into every widget of the selected pages of a
/// prepared document; the report says which requested names matched.
#[verifier::opaque]
pub open spec fn spec_fill_selected<F: Fn(TextRequest) -> TextLayout, G: Fn(i64) -> String>(
    doc: SDoc,
    acro_id: ObjectId,
    sel: PageSelection,
    req: Seq<(Seq<char>, SInput)>,
    flags: u32,
    flatten: bool,
    lay: F,
    g: G,
) -> SOut<SReport> {
    match spec_selected_page_ids(doc, sel) {
        Err(e) => (doc, Err(e)),
        Ok(pages) => {
            let args = FillArgs { acro_id, req, flags, flatten };
            let (fs, r) = fill_pages(
                FState { doc, hits: Seq::new(req.len(), |i: int| false), count: 0 },
                args,
                pages,
                pages.len(),
                lay,
                g,
            );
            match r {
                Err(e) => (fs.doc, Err(e)),
                Ok(_) => (
                    fs.doc,
                    Ok(
                        SReport {
                            matched: names_with(req, fs.hits, true),
                            unmatched: names_with(req, fs.hits, false),
                            widgets_updated: fs.count,
                        },
                    ),
                ),
            }
        },
    }
}

/// Filling the requested fields on the selected pages: the document is
/// prepared, then every widget of the selected pages is filled with every
/// request that names it.
pub open spec fn spec_fill<F: Fn(TextRequest) -> TextLayout, G: Fn(i64) -> String>(
    doc: SDoc,
    sel: PageSelection,
    req: Seq<(Seq<char>, SInput)>,
    flags: u32,
    auto: Option<bool>,
    flatten: bool,
    lay: F,
    g: G,
) -> SOut<SReport> {
    let (d1, pr) = spec_fill_prepare(doc, auto);
    match pr {
        Err(e) => (d1, Err(e)),
        Ok(acro_id) => spec_fill_selected(d1, acro_id, sel, req, flags, flatten, lay, g),
    }
}

fn names_with_exec(req: &Vec<(String, FieldInput)>, hits: &Vec<bool>, want: bool) -> (r: Vec<
    String,
>)
    requires
        hits.len() == req.len(),
    ensures
        string_views(r@) == names_with(req_v(req@), hits@, want),
{
    let ghost rv = req_v(req@);
    let mut out: Vec<String> = Vec::new();
    let mut i: usize = 0;
    assert(rv.take(0) =~= Seq::<(Seq<char>, SInput)>::empty());
    assert(string_views(out@) =~= seq![]);
    while i < req.len()
        invariant
            i <= req.len(),
            hits.len() == req.len(),
            rv == req_v(req@),
            string_views(out@) == names_with(rv.take(i as int), hits@, want),
        decreases req.len() - i,
    {
        assert(rv.take(i + 1).drop_last() =~= rv.take(i as int));
        assert(rv.take(i + 1).last() == rv[i as int]);
        if hits[i] == want {
            let ghost before = out@;
            out.push(copy_string(&req[i].0));
            assert(string_views(out@) =~= string_views(before).push(req@[i as int].0@));
        }
        i += 1;
    }
    assert(rv.take(req.len() as int) =~= rv);
    out
}

fn fill_prepare(doc: &mut PdfDocument, auto_regenerate: Option<bool>) -> (r: Result<
    ObjectId,
    PdferError,
>)
    ensures
        (final(doc).sv(), res_id(r)) == spec_fill_prepare(old(doc).sv(), auto_regenerate),
{
    reveal(spec_fill_prepare);
    if !has_acroform(doc)? {
        return Err(PdferError::MissingAcroForm);
    }
    let cat = catalog_id(doc)?;
    let ka = key_acroform();
    let acro_id = ensure_indirect_dictionary_entry(doc, cat, ka.as_slice())?;
    let kf = key_fields();
    if read_array_entry_clone(doc, acro_id, kf.as_slice())?.is_none() {
        return Err(PdferError::MissingFields);
    }
    match auto_regenerate {
        Some(state) => {
            set_need_appearances(doc, state)?;
        },
        None => {},
    }
    Ok(acro_id)
}

fn fill_selected<F: Fn(TextRequest) -> TextLayout, G: Fn(i64) -> String>(
    doc: &mut PdfDocument,
    acro_id: ObjectId,
    page: PageSelection,
    fields: &Vec<(String, FieldInput)>,
    flags: u32,
    flatten: bool,
    lay: &F,
    g: &G,
) -> (r: Result<FillReport, PdferError>)
    requires
        layout_ok(*lay),
        int_text_ok(*g),
    ensures
        (final(doc).sv(), res_v(r, |x: FillReport| x.sv())) == spec_fill_selected(
            old(doc).sv(),
            acro_id,
            page,
            req_v(fields@),
            flags,
            flatten,
            *lay,
            *g,
        ),
{
    reveal(spec_fill_selected);
    let pages = selected_page_ids(doc, page)?;
    let mut hits: Vec<bool> = Vec::new();
    let mut k: usize = 0;
    while k < fields.len()
        invariant
            k <= fields.len(),
            hits.len() == k,
            forall|j: int| 0 <= j < k ==> !hits@[j],
        decreases fields.len() - k,
    {
        hits.push(false);
        k += 1;
    }
    assert(hits@ =~= Seq::new(req_v(fields@).len(), |i: int| false));
    let mut count: usize = 0;
    let ghost args = FillArgs { acro_id, req: req_v(fields@), flags, flatten };
    fill_all_pages(
        doc,
        acro_id,
        &pages,
        fields,
        flags,
        flatten,
        &mut hits,
        &mut count,
        lay,
        g,
        Ghost(args),
    )?;
    let matched = names_with_exec(fields, &hits, true);
    let unmatched = names_with_exec(fields, &hits, false);
    Ok(FillReport { matched, unmatched, widgets_updated: count })
}

/// Fills the requested fields on the selected pages and reports which
/// requested names matched a widget. The requests are tried in the order
/// given against every widget; a name given twice is applied twice, the
/// later input last, and reported once per request, in request order.
pub fn fill_form<F: Fn(TextRequest) -> TextLayout, G: Fn(i64) -> String>(
    doc: &mut PdfDocument,
    page: PageSelection,
    fields: &Vec<(String, FieldInput)>,
    flags: u32,
    auto_regenerate: Option<bool>,
    flatten: bool,
    lay: &F,
    g: &G,
) -> (r: Result<FillReport, PdferError>)
    requires
        layout_ok(*lay),
        int_text_ok(*g),
    ensures
        (final(doc).sv(), res_v(r, |x: FillReport| x.sv())) == spec_fill(
            old(doc).sv(),
            page,
            req_v(fields@),
            flags,
            auto_regenerate,
            flatten,
            *lay,
            *g,
        ),
{
    let acro_id = fill_prepare(doc, auto_regenerate)?;
    fill_selected(doc, acro_id, page, fields, flags, flatten, lay, g)
}

} // verus!
