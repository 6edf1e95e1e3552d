//! Widget appearances: choosing a button's appearance state and stream,
//! building and installing the appearance stream of a text or choice field,
//! the core fonts it uses, and drawing an appearance into page content.
//!
//! The floating-point part of a text layout (box size, font size, baseline
//! and the decimal texts of numbers) is computed by functions handed in by
//! the caller; they must give the same result for the same request.
use vstd::prelude::*;
use crate::access::{SOut, add_new_object, ensure_indirect_dictionary_entry, spec_add, spec_ensure_indirect, spec_write, write_dict_object};
use crate::error::{PdferError, SErr, res_id, res_v};
use crate::fields::{extract_button_states, spec_button_states};
use crate::keys::{k_ap, k_basefont, k_bbox, k_contents, k_da, k_dr, k_encoding, k_font, k_formtype, k_length, k_n, k_off, k_rect, k_resources, k_subtype, k_type, k_xobject, key_ap, key_basefont, key_bbox, key_contents, key_da, key_dr, key_encoding, key_font, key_formtype, key_length, key_n, key_off, key_rect, key_resources, key_subtype, key_type, key_xobject, w_cour, w_courier, w_font, w_form, w_helv, w_helvetica, w_symb, w_symbol, w_times_roman, w_tiro, w_type1, w_winansiencoding, w_zadb, w_zapfdingbats, word_cour, word_courier, word_font, word_form, word_helv, word_helvetica, word_symb, word_symbol, word_times_roman, word_tiro, word_type1, word_winansiencoding, word_zadb, word_zapfdingbats};
use crate::model::{ObjectId, PdfDict, PdfDocument, PdfObject, PdfStream, SDict, SDoc, SObj, lemma_array_obj_sv, lemma_dict_obj_sv, sd_get, sd_set, sdoc_get_dict, sdoc_get_object, sv_seq};
use crate::objects::{clone_items, deref_dict, deref_dictionary, dict_text, get_text};
use crate::text::{append_chars, chars_eq, copy_bytes, copy_string, decimal, escape_content_text, escape_seq, normalize_name, off_state, resolve_button_state, spec_resolve_button_state, string_from_chars, string_views, strip_slashes, to_chars, utf8_bytes};
use vstd::utf8::encode_utf8;

verus! {

broadcast use vstd::std_specs::vec::group_vec_axioms;

// ---------------------------------------------------------------------------
// Streams
// ---------------------------------------------------------------------------
/// A stream of `content` with dictionary `d`, its `/Length` set to the
/// content's length.
pub open spec fn spec_stream(d: SDict, content: Seq<u8>) -> SObj {
    SObj::Stream(sd_set(d, k_length(), SObj::Integer(content.len() as i64)), content)
}

/// A new stream of `content` with dictionary `d`; it may be compressed when
/// the document is saved, and has no position in a file yet.
pub fn new_stream(d: PdfDict, content: Vec<u8>) -> (r: PdfObject)
    ensures
        r.sv() == spec_stream(d.sv(), content@),
        r matches PdfObject::Stream(s) && s.allows_compression && s.start_position is None,
{
    let mut dict = d;
    #[verifier::truncate]
    let n: i64 = content.len() as i64;
    dict.set(key_length(), PdfObject::Integer(n));
    let s = PdfStream { dict, content, allows_compression: true, start_position: None };
    let r = PdfObject::Stream(s);
    proof {
        assert(r.sv()->Stream_0 =~= s.dict.sv());
    }
    r
}

/// A name object for the text `w`.
pub fn name_object(w: &Vec<char>) -> (r: PdfObject)
    ensures
        r.sv() == SObj::Name(encode_utf8(w@)),
{
    let s = string_from_chars(w.as_slice());
    PdfObject::Name(utf8_bytes(s.as_str()))
}

// ---------------------------------------------------------------------------
// Button states
// ---------------------------------------------------------------------------
/// The state a button takes for a requested value: the state
/// `resolve_button_state` picks among its appearance states, else `/Off`.
pub open spec fn spec_choose_state(doc: SDoc, d: SDict, requested: Seq<char>) -> Seq<char> {
    let states = match spec_button_states(doc, d) {
        Some(s) => s,
        None => seq![],
    };
    match spec_resolve_button_state(states, requested) {
        Some(s) => s,
        None => off_state(),
    }
}

/// The state a button takes for a requested value.
pub fn choose_button_state(doc: &PdfDocument, d: &PdfDict, requested: &str) -> (r: String)
    ensures
        r@ == spec_choose_state(doc.sv(), d.sv(), requested@),
{
    let states = match extract_button_states(doc, d) {
        Some(s) => s,
        None => Vec::new(),
    };
    proof {
        if spec_button_states(doc.sv(), d.sv()) is None {
            assert(string_views(states@) =~= seq![]);
        }
    }
    match resolve_button_state(states.as_slice(), requested) {
        Some(s) => s,
        None => {
            let o = vec!['/', 'O', 'f', 'f'];
            assert(o@ =~= off_state());
            string_from_chars(o.as_slice())
        },
    }
}

// ---------------------------------------------------------------------------
// Button appearance streams
// ---------------------------------------------------------------------------
/// The id of an appearance stream entry: a reference as it is; a direct
/// stream is added as a new object; anything else gives none.
pub open spec fn spec_stream_ref(doc: SDoc, o: SObj) -> SOut<Option<ObjectId>> {
    match o {
        SObj::Reference(id) => (doc, Ok(Some(id))),
        SObj::Stream(_, _) => {
            let (d1, a) = spec_add(doc, o);
            match a {
                Ok(id) => (d1, Ok(Some(id))),
                Err(e) => (d1, Err(e)),
            }
        },
        _ => (doc, Ok(None)),
    }
}

/// The id of an appearance stream entry.
pub fn ensure_stream_reference(doc: &mut PdfDocument, o: &PdfObject) -> (r: Result<
    Option<ObjectId>,
    PdferError,
>)
    ensures
        (final(doc).sv(), res_id(r)) == spec_stream_ref(old(doc).sv(), o.sv()),
{
    match o {
        PdfObject::Reference(id) => Ok(Some(*id)),
        PdfObject::Stream(_) => {
            let id = add_new_object(doc, o.deep_clone())?;
            Ok(Some(id))
        },
        _ => Ok(None),
    }
}

/// The entry of a normal-appearance dictionary for `state` (leading slashes
/// ignored), else its `Off` entry.
pub open spec fn spec_pick_state(doc: SDoc, nd: SDict, state: Seq<char>) -> SOut<Option<ObjectId>> {
    match sd_get(nd, encode_utf8(strip_slashes(state))) {
        Some(e) => spec_stream_ref(doc, e),
        None => match sd_get(nd, k_off()) {
            Some(e) => spec_stream_ref(doc, e),
            None => (doc, Ok(None)),
        },
    }
}

fn pick_state(doc: &mut PdfDocument, nd: &PdfDict, state: &str) -> (r: Result<
    Option<ObjectId>,
    PdferError,
>)
    ensures
        (final(doc).sv(), res_id(r)) == spec_pick_state(old(doc).sv(), nd.sv(), state@),
{
    let key = utf8_bytes(normalize_name(state).as_str());
    match nd.get(key.as_slice()) {
        Some(e) => ensure_stream_reference(doc, e),
        None => {
            let ko = key_off();
            match nd.get(ko.as_slice()) {
                Some(e) => ensure_stream_reference(doc, e),
                None => Ok(None),
            }
        },
    }
}

/// The appearance stream a button shows in `state`: the normal appearance
/// (`/AP /N`) when it is a stream, else its entry for the state (or for
/// `Off`); none when the widget has no normal appearance.
#[verifier::opaque]
pub open spec fn spec_button_stream(doc: SDoc, ad: SDict, state: Seq<char>) -> SOut<
    Option<ObjectId>,
> {
    match sd_get(ad, k_ap()) {
        None => (doc, Ok(None)),
        Some(ap_obj) => match deref_dict(doc, ap_obj) {
            Err(e) => (doc, Err(e)),
            Ok(ap) => match sd_get(ap, k_n()) {
                None => (doc, Ok(None)),
                Some(SObj::Reference(id)) => match sdoc_get_object(doc, id) {
                    Err(e) => (doc, Err(SErr::Lopdf(e))),
                    Ok(SObj::Stream(_, _)) => (doc, Ok(Some(id))),
                    Ok(SObj::Dictionary(nd)) => spec_pick_state(doc, nd, state),
                    Ok(_) => (doc, Ok(None)),
                },
                Some(SObj::Dictionary(nd)) => spec_pick_state(doc, nd, state),
                Some(SObj::Stream(sd, c)) => {
                    let (d1, a) = spec_add(doc, SObj::Stream(sd, c));
                    match a {
                        Ok(id) => (d1, Ok(Some(id))),
                        Err(e) => (d1, Err(e)),
                    }
                },
                Some(_) => (doc, Ok(None)),
            },
        },
    }
}

/// The appearance stream a button shows in `state`.
pub fn resolve_button_appearance_stream(doc: &mut PdfDocument, ad: &PdfDict, state: &str) -> (r:
    Result<Option<ObjectId>, PdferError>)
    ensures
        (final(doc).sv(), res_id(r)) == spec_button_stream(old(doc).sv(), ad.sv(), state@),
{
    reveal(spec_button_stream);
    let kap = key_ap();
    let ap = match ad.get(kap.as_slice()) {
        None => {
            return Ok(None);
        },
        Some(ap_obj) => deref_dictionary(doc, ap_obj)?,
    };
    let kn = key_n();
    let normal = match ap.get(kn.as_slice()) {
        None => {
            return Ok(None);
        },
        Some(n) => n.deep_clone(),
    };
    match normal {
        PdfObject::Reference(id) => {
            let target = match doc.get_object(id) {
                Err(e) => {
                    return Err(PdferError::Lopdf(e));
                },
                Ok(o) => o.deep_clone(),
            };
            match target {
                PdfObject::Stream(_) => Ok(Some(id)),
                PdfObject::Dictionary(nd) => {
                    proof {
                        lemma_dict_obj_sv(nd);
                    }
                    pick_state(doc, &nd, state)
                },
                _ => Ok(None),
            }
        },
        PdfObject::Dictionary(nd) => {
            proof {
                lemma_dict_obj_sv(nd);
            }
            pick_state(doc, &nd, state)
        },
        PdfObject::Stream(_) => {
            let id = add_new_object(doc, normal)?;
            Ok(Some(id))
        },
        _ => Ok(None),
    }
}

// ---------------------------------------------------------------------------
// Core fonts
// ---------------------------------------------------------------------------
/// The standard font a resource name stands for (`Helv` is Helvetica, `TiRo`
/// Times-Roman, `Cour` Courier, `Symb` Symbol, `ZaDb` ZapfDingbats); any
/// other name is taken as it is.
pub open spec fn base_font_name(n: Seq<char>) -> Seq<char> {
    if n == w_helv() || n == w_helvetica() {
        w_helvetica()
    } else if n == w_tiro() || n == w_times_roman() {
        w_times_roman()
    } else if n == w_cour() || n == w_courier() {
        w_courier()
    } else if n == w_symb() || n == w_symbol() {
        w_symbol()
    } else if n == w_zadb() || n == w_zapfdingbats() {
        w_zapfdingbats()
    } else {
        n
    }
}

/// The Type1 font dictionary, WinAnsi-encoded, for the font named `name`
/// (leading slashes ignored).
pub open spec fn core_font_dict(name: Seq<char>) -> SDict {
    let base = base_font_name(strip_slashes(name));
    sd_set(
        sd_set(
            sd_set(
                sd_set(seq![], k_type(), SObj::Name(encode_utf8(w_font()))),
                k_subtype(),
                SObj::Name(encode_utf8(w_type1())),
            ),
            k_basefont(),
            SObj::Name(encode_utf8(base)),
        ),
        k_encoding(),
        SObj::Name(encode_utf8(w_winansiencoding())),
    )
}

fn base_font_of(n: &Vec<char>) -> (r: Vec<char>)
    ensures
        r@ == base_font_name(n@),
{
    let pairs: Vec<(Vec<char>, Vec<char>)> = vec![
        (word_helv(), word_helvetica()),
        (word_helvetica(), word_helvetica()),
        (word_tiro(), word_times_roman()),
        (word_times_roman(), word_times_roman()),
        (word_cour(), word_courier()),
        (word_courier(), word_courier()),
        (word_symb(), word_symbol()),
        (word_symbol(), word_symbol()),
        (word_zadb(), word_zapfdingbats()),
        (word_zapfdingbats(), word_zapfdingbats()),
    ];
    let mut i: usize = 0;
    while i < pairs.len()
        invariant
            i <= pairs.len(),
            pairs@.len() == 10,
            pairs@[0].0@ == w_helv() && pairs@[0].1@ == w_helvetica(),
            pairs@[1].0@ == w_helvetica() && pairs@[1].1@ == w_helvetica(),
            pairs@[2].0@ == w_tiro() && pairs@[2].1@ == w_times_roman(),
            pairs@[3].0@ == w_times_roman() && pairs@[3].1@ == w_times_roman(),
            pairs@[4].0@ == w_cour() && pairs@[4].1@ == w_courier(),
            pairs@[5].0@ == w_courier() && pairs@[5].1@ == w_courier(),
            pairs@[6].0@ == w_symb() && pairs@[6].1@ == w_symbol(),
            pairs@[7].0@ == w_symbol() && pairs@[7].1@ == w_symbol(),
            pairs@[8].0@ == w_zadb() && pairs@[8].1@ == w_zapfdingbats(),
            pairs@[9].0@ == w_zapfdingbats() && pairs@[9].1@ == w_zapfdingbats(),
            forall|j: int| 0 <= j < i ==> n@ != pairs@[j].0@,
        decreases pairs.len() - i,
    {
        if chars_eq(pairs[i].0.as_slice(), n.as_slice()) {
            let mut r: Vec<char> = Vec::new();
            append_chars(&mut r, pairs[i].1.as_slice());
            return r;
        }
        i += 1;
    }
    let mut r: Vec<char> = Vec::new();
    append_chars(&mut r, n.as_slice());
    r
}

/// Adds the core font dictionary for `name` as a new object.
pub fn add_core_font_object(doc: &mut PdfDocument, name: &str) -> (r: Result<ObjectId, PdferError>)
    ensures
        (final(doc).sv(), res_id(r)) == spec_add(
            old(doc).sv(),
            SObj::Dictionary(core_font_dict(name@)),
        ),
{
    let n = to_chars(normalize_name(name).as_str());
    let base = base_font_of(&n);
    let mut font = PdfDict::new();
    font.set(key_type(), name_object(&word_font()));
    font.set(key_subtype(), name_object(&word_type1()));
    font.set(key_basefont(), name_object(&base));
    font.set(key_encoding(), name_object(&word_winansiencoding()));
    proof {
        lemma_dict_obj_sv(font);
    }
    add_new_object(doc, PdfObject::Dictionary(font))
}

/// Adds the core font for `key`'s name and stores a reference to it under
/// `key` in `fd`; the font dictionary after and the font's id.
pub open spec fn spec_font_entry(doc: SDoc, fd: SDict, key: Seq<u8>, name: Seq<char>) -> (
    SDoc,
    Result<(SDict, ObjectId), SErr>,
) {
    let (d1, a) = spec_add(doc, SObj::Dictionary(core_font_dict(name)));
    match a {
        Err(e) => (d1, Err(e)),
        Ok(fo) => (d1, Ok((sd_set(fd, key, SObj::Reference(fo)), fo))),
    }
}

/// The font registered under `key` in the indirect font dictionary `fid`:
/// a reference found there as it is, a direct font dictionary made indirect,
/// else a new core font.
pub open spec fn spec_font_in_indirect(doc: SDoc, fid: ObjectId, key: Seq<u8>, nk: Seq<char>) -> SOut<
    ObjectId,
> {
    match sdoc_get_dict(doc, fid) {
        Err(e) => (doc, Err(SErr::Lopdf(e))),
        Ok(fd) => match sd_get(fd, key) {
            Some(SObj::Reference(r)) => (doc, Ok(r)),
            Some(SObj::Dictionary(ed)) => {
                let (d2, a) = spec_add(doc, SObj::Dictionary(ed));
                match a {
                    Err(e) => (d2, Err(e)),
                    Ok(new_id) => {
                        let (d3, w) = spec_write(
                            d2,
                            fid,
                            SObj::Dictionary(sd_set(fd, key, SObj::Reference(new_id))),
                        );
                        match w {
                            Err(e) => (d3, Err(e)),
                            Ok(_) => (d3, Ok(new_id)),
                        }
                    },
                }
            },
            _ => {
                let (d2, fe) = spec_font_entry(doc, fd, key, nk);
                match fe {
                    Err(e) => (d2, Err(e)),
                    Ok((fd2, fo)) => {
                        let (d3, w) = spec_write(d2, fid, SObj::Dictionary(fd2));
                        match w {
                            Err(e) => (d3, Err(e)),
                            Ok(_) => (d3, Ok(fo)),
                        }
                    },
                }
            },
        },
    }
}

/// The font registered under `key` in the direct font dictionary `fd` of
/// the resources `dr` (object `dr_id`): a reference found there as it is,
/// else a new core font, the resources written back.
pub open spec fn spec_font_in_direct(
    doc: SDoc,
    dr_id: ObjectId,
    dr: SDict,
    fd: SDict,
    key: Seq<u8>,
    nk: Seq<char>,
) -> SOut<ObjectId> {
    match sd_get(fd, key) {
        Some(SObj::Reference(r)) => (doc, Ok(r)),
        _ => {
            let (d2, fe) = spec_font_entry(doc, fd, key, nk);
            match fe {
                Err(e) => (d2, Err(e)),
                Ok((fd2, fo)) => {
                    let (d3, w) = spec_write(
                        d2,
                        dr_id,
                        SObj::Dictionary(sd_set(dr, k_font(), SObj::Dictionary(fd2))),
                    );
                    match w {
                        Err(e) => (d3, Err(e)),
                        Ok(_) => (d3, Ok(fo)),
                    }
                },
            }
        },
    }
}

/// The id of the font resource named `font_name` in the form's default
/// resources (`/DR /Font`), which are made indirect first. A reference found
/// there is used as it is; a direct font dictionary found in an indirect font
/// dictionary is made indirect; otherwise a core font is added and
/// registered under the name.
#[verifier::opaque]
pub open spec fn spec_core_font(doc: SDoc, acro_id: ObjectId, font_name: Seq<char>) -> SOut<ObjectId> {
    let (d1, dr_r) = spec_ensure_indirect(doc, acro_id, k_dr());
    match dr_r {
        Err(e) => (d1, Err(e)),
        Ok(dr_id) => match sdoc_get_dict(d1, dr_id) {
            Err(e) => (d1, Err(SErr::Lopdf(e))),
            Ok(dr) => {
                let nk = strip_slashes(font_name);
                let key = encode_utf8(nk);
                match sd_get(dr, k_font()) {
                    Some(SObj::Reference(fid)) => spec_font_in_indirect(d1, fid, key, nk),
                    Some(SObj::Dictionary(fd)) => spec_font_in_direct(d1, dr_id, dr, fd, key, nk),
                    _ => spec_font_in_direct(d1, dr_id, dr, seq![], key, nk),
                }
            },
        },
    }
}

fn font_entry(doc: &mut PdfDocument, fd: PdfDict, key: &Vec<u8>, name: &str) -> (r: Result<
    (PdfDict, ObjectId),
    PdferError,
>)
    ensures
        (final(doc).sv(), res_v(r, |p: (PdfDict, ObjectId)| (p.0.sv(), p.1))) == spec_font_entry(
            old(doc).sv(),
            fd.sv(),
            key@,
            name@,
        ),
{
    let fo = add_core_font_object(doc, name)?;
    let mut fd2 = fd;
    fd2.set(copy_bytes(key.as_slice()), PdfObject::Reference(fo));
    Ok((fd2, fo))
}

fn font_in_indirect(doc: &mut PdfDocument, fid: ObjectId, key: &Vec<u8>, nk: &String) -> (r:
    Result<ObjectId, PdferError>)
    ensures
        (final(doc).sv(), res_id(r)) == spec_font_in_indirect(old(doc).sv(), fid, key@, nk@),
{
    let fd = match doc.get_dictionary(fid) {
        Err(e) => {
            return Err(PdferError::Lopdf(e));
        },
        Ok(d) => d.deep_clone(),
    };
    let entry = match fd.get(key.as_slice()) {
        Some(o) => Some(o.deep_clone()),
        None => None,
    };
    match entry {
        Some(PdfObject::Reference(r)) => Ok(r),
        Some(PdfObject::Dictionary(ed)) => {
            proof {
                lemma_dict_obj_sv(ed);
            }
            let new_id = add_new_object(doc, PdfObject::Dictionary(ed))?;
            let mut fd2 = fd;
            fd2.set(copy_bytes(key.as_slice()), PdfObject::Reference(new_id));
            write_dict_object(doc, fid, fd2)?;
            Ok(new_id)
        },
        _ => {
            let (fd2, fo) = font_entry(doc, fd, key, nk.as_str())?;
            write_dict_object(doc, fid, fd2)?;
            Ok(fo)
        },
    }
}

fn font_in_direct(
    doc: &mut PdfDocument,
    dr_id: ObjectId,
    dr: PdfDict,
    fd: PdfDict,
    key: &Vec<u8>,
    nk: &String,
) -> (r: Result<ObjectId, PdferError>)
    ensures
        (final(doc).sv(), res_id(r)) == spec_font_in_direct(
            old(doc).sv(),
            dr_id,
            dr.sv(),
            fd.sv(),
            key@,
            nk@,
        ),
{
    let is_ref = match fd.get(key.as_slice()) {
        Some(PdfObject::Reference(r)) => Some(*r),
        _ => None,
    };
    match is_ref {
        Some(r) => Ok(r),
        None => {
            let (fd2, fo) = font_entry(doc, fd, key, nk.as_str())?;
            let mut dr2 = dr;
            proof {
                lemma_dict_obj_sv(fd2);
            }
            dr2.set(key_font(), PdfObject::Dictionary(fd2));
            write_dict_object(doc, dr_id, dr2)?;
            Ok(fo)
        },
    }
}

/// The id of the font resource named `font_name`, added when missing.
pub fn ensure_core_font_resource(doc: &mut PdfDocument, acro_id: ObjectId, font_name: &str) -> (r:
    Result<ObjectId, PdferError>)
    ensures
        (final(doc).sv(), res_id(r)) == spec_core_font(old(doc).sv(), acro_id, font_name@),
{
    reveal(spec_core_font);
    let kdr = key_dr();
    let dr_id = ensure_indirect_dictionary_entry(doc, acro_id, kdr.as_slice())?;
    let dr = match doc.get_dictionary(dr_id) {
        Err(e) => {
            return Err(PdferError::Lopdf(e));
        },
        Ok(d) => d.deep_clone(),
    };
    let nk = normalize_name(font_name);
    let key = utf8_bytes(nk.as_str());
    let kfont = key_font();
    let existing = match dr.get(kfont.as_slice()) {
        Some(o) => Some(o.deep_clone()),
        None => None,
    };
    match existing {
        Some(PdfObject::Reference(fid)) => font_in_indirect(doc, fid, &key, &nk),
        Some(PdfObject::Dictionary(fd)) => {
            proof {
                lemma_dict_obj_sv(fd);
            }
            font_in_direct(doc, dr_id, dr, fd, &key, &nk)
        },
        _ => font_in_direct(doc, dr_id, dr, PdfDict::new(), &key, &nk),
    }
}

// ---------------------------------------------------------------------------
// Floating-point layout, computed by the caller
// ---------------------------------------------------------------------------
/// What a text layout is asked: the widget's rectangle (four numbers), the
/// default appearance string in force, and the font a caller asked for (its
/// name, and the bit pattern of its 32-bit size), if any.
pub struct TextRequest {
    pub rect: Vec<PdfObject>,
    pub da: String,
    pub font: Option<(String, u32)>,
}

/// The view of a text request.
pub struct STextRequest {
    pub rect: Seq<SObj>,
    pub da: Seq<char>,
    pub font: Option<(Seq<char>, u32)>,
}

/// The view of an optional font choice.
pub open spec fn font_v(f: Option<(String, u32)>) -> Option<(Seq<char>, u32)> {
    match f {
        Some((n, s)) => Some((n@, s)),
        None => None,
    }
}

impl TextRequest {
    /// The mathematical value of this request.
    pub open spec fn sv(self) -> STextRequest {
        STextRequest { rect: sv_seq(self.rect@), da: self.da@, font: font_v(self.font) }
    }
}

/// A text layout: the font to use (as named, before normalisation), the
/// decimal texts of the font size and of the baseline offset, and the box
/// width and height, each a 32-bit float's bit pattern with its decimal text.
pub struct TextLayout {
    pub font_name: String,
    pub font_size: String,
    pub baseline: String,
    pub width: (u32, String),
    pub height: (u32, String),
}

/// The view of a text layout.
pub struct STextLayout {
    pub font_name: Seq<char>,
    pub font_size: Seq<char>,
    pub baseline: Seq<char>,
    pub width: (u32, Seq<char>),
    pub height: (u32, Seq<char>),
}

impl TextLayout {
    /// The mathematical value of this layout.
    pub open spec fn sv(self) -> STextLayout {
        STextLayout {
            font_name: self.font_name@,
            font_size: self.font_size@,
            baseline: self.baseline@,
            width: (self.width.0, self.width.1@),
            height: (self.height.0, self.height.1@),
        }
    }
}

/// A layout function can be called on any request and gives equal layouts
/// for equal requests.
pub open spec fn layout_ok<F: Fn(TextRequest) -> TextLayout>(f: F) -> bool {
    &&& forall|q: TextRequest| call_requires(f, (q,))
    &&& forall|q1: TextRequest, q2: TextRequest, r1: TextLayout, r2: TextLayout|
        #![trigger call_ensures(f, (q1,), r1), call_ensures(f, (q2,), r2)]
        q1.sv() == q2.sv() && call_ensures(f, (q1,), r1) && call_ensures(f, (q2,), r2) ==> r1.sv()
            == r2.sv()
}

/// The layout `f` gives for a request.
pub open spec fn spec_layout<F: Fn(TextRequest) -> TextLayout>(f: F, q: STextRequest) -> STextLayout {
    (choose|p: (TextRequest, TextLayout)| p.0.sv() == q && call_ensures(f, (p.0,), p.1)).1.sv()
}

/// Asks `f` for a layout.
pub fn run_layout<F: Fn(TextRequest) -> TextLayout>(f: &F, q: TextRequest) -> (r: TextLayout)
    requires
        layout_ok(*f),
    ensures
        r.sv() == spec_layout(*f, q.sv()),
{
    let ghost qv = q.sv();
    let ghost q0 = q;
    let r = f(q);
    proof {
        assert(call_ensures(*f, (q0,), r));
        let w = (q0, r);
        assert(w.0.sv() == qv && call_ensures(*f, (w.0,), w.1));
        let p = choose|p: (TextRequest, TextLayout)| p.0.sv() == qv && call_ensures(*f, (p.0,), p.1);
        assert(p.0.sv() == qv && call_ensures(*f, (p.0,), p.1));
        assert(p.1.sv() == r.sv());
    }
    r
}

/// A number-text function can be called on any integer and gives equal
/// texts for equal integers.
pub open spec fn int_text_ok<G: Fn(i64) -> String>(g: G) -> bool {
    &&& forall|n: i64| call_requires(g, (n,))
    &&& forall|n: i64, r1: String, r2: String|
        #![trigger call_ensures(g, (n,), r1), call_ensures(g, (n,), r2)]
        call_ensures(g, (n,), r1) && call_ensures(g, (n,), r2) ==> r1@ == r2@
}

/// The text `g` gives for an integer: the decimal text of the 32-bit float
/// nearest to it.
pub open spec fn spec_int_text<G: Fn(i64) -> String>(g: G, n: i64) -> Seq<char> {
    (choose|r: String| call_ensures(g, (n,), r))@
}

/// The decimal text of a number as a 32-bit float: an integer through `g`,
/// a real by its text.
pub open spec fn spec_number_text<G: Fn(i64) -> String>(g: G, o: SObj) -> Seq<char> {
    match o {
        SObj::Integer(n) => spec_int_text(g, n),
        SObj::Real(_, t) => t,
        _ => seq![],
    }
}

/// The decimal text of a number as a 32-bit float.
pub fn number_text<G: Fn(i64) -> String>(g: &G, o: &PdfObject) -> (r: String)
    requires
        int_text_ok(*g),
    ensures
        r@ == spec_number_text(*g, o.sv()),
{
    match o {
        PdfObject::Integer(n) => {
            let r = g(*n);
            proof {
                assert(call_ensures(*g, (*n,), r));
                let c = choose|c: String| call_ensures(*g, (*n,), c);
                assert(call_ensures(*g, (*n,), c));
                assert(c@ == r@);
            }
            r
        },
        PdfObject::Real(_, t) => copy_string(t),
        _ => String::new(),
    }
}

// ---------------------------------------------------------------------------
// Widget rectangles
// ---------------------------------------------------------------------------
/// Every item is an integer or a real.
pub open spec fn all_numbers(v: Seq<SObj>) -> bool {
    forall|i: int| 0 <= i < v.len() ==> (v[i] is Integer || v[i] is Real)
}

/// The four numbers of a widget's `/Rect`.
pub open spec fn spec_rect(d: SDict) -> Result<Seq<SObj>, SErr> {
    match sd_get(d, k_rect()) {
        None => Err(SErr::InvalidStructure("widget is missing /Rect"@)),
        Some(SObj::Array(v)) => if v.len() != 4 {
            Err(SErr::InvalidStructure("/Rect must have four numbers"@))
        } else if !all_numbers(v) {
            Err(SErr::InvalidStructure("/Rect contains non-number value"@))
        } else {
            Ok(v)
        },
        Some(_) => Err(SErr::InvalidStructure("/Rect is not an array"@)),
    }
}

fn numbers_only(values: &Vec<PdfObject>) -> (r: bool)
    ensures
        r == all_numbers(sv_seq(values@)),
{
    let mut i: usize = 0;
    while i < values.len()
        invariant
            i <= values.len(),
            forall|j: int| 0 <= j < i ==> (values@[j].sv() is Integer || values@[j].sv() is Real),
        decreases values.len() - i,
    {
        match &values[i] {
            PdfObject::Integer(_) => {},
            PdfObject::Real(_, _) => {},
            _ => {
                assert(!(sv_seq(values@)[i as int] is Integer || sv_seq(values@)[i as int] is Real));
                return false;
            },
        }
        i += 1;
    }
    true
}

/// The four numbers of a widget's `/Rect`.
pub fn extract_rect(d: &PdfDict) -> (r: Result<Vec<PdfObject>, PdferError>)
    ensures
        res_v(r, |v: Vec<PdfObject>| sv_seq(v@)) == spec_rect(d.sv()),
{
    let kr = key_rect();
    match d.get(kr.as_slice()) {
        None => Err(PdferError::InvalidStructure("widget is missing /Rect")),
        Some(PdfObject::Array(values)) => {
            proof {
                lemma_array_obj_sv(*values);
            }
            if values.len() != 4 {
                return Err(PdferError::InvalidStructure("/Rect must have four numbers"));
            }
            if !numbers_only(values) {
                return Err(PdferError::InvalidStructure("/Rect contains non-number value"));
            }
            Ok(clone_items(values))
        },
        Some(_) => Err(PdferError::InvalidStructure("/Rect is not an array")),
    }
}

// ---------------------------------------------------------------------------
// Text appearances
// ---------------------------------------------------------------------------
/// The default appearance string of a text or choice widget: the widget's
/// `/DA`, else its field's, else the form's, else `/Helv 0 Tf 0 g`.
pub open spec fn spec_da(doc: SDoc, acro_id: ObjectId, pd: SDict, ad: SDict) -> Seq<char> {
    match dict_text(ad, k_da()) {
        Some(t) => t,
        None => match dict_text(pd, k_da()) {
            Some(t) => t,
            None => match sdoc_get_dict(doc, acro_id) {
                Ok(a) => match dict_text(a, k_da()) {
                    Some(t) => t,
                    None => "/Helv 0 Tf 0 g"@,
                },
                Err(_) => "/Helv 0 Tf 0 g"@,
            },
        },
    }
}

fn default_appearance(doc: &PdfDocument, acro_id: ObjectId, pd: &PdfDict, ad: &PdfDict) -> (r:
    String)
    ensures
        r@ == spec_da(doc.sv(), acro_id, pd.sv(), ad.sv()),
{
    let kda = key_da();
    match get_text(ad, kda.as_slice()) {
        Some(t) => t,
        None => match get_text(pd, kda.as_slice()) {
            Some(t) => t,
            None => match doc.get_dictionary(acro_id) {
                Ok(a) => match get_text(a, kda.as_slice()) {
                    Some(t) => t,
                    None => "/Helv 0 Tf 0 g".to_owned(),
                },
                Err(_) => "/Helv 0 Tf 0 g".to_owned(),
            },
        },
    }
}

/// The font resource name a layout asks for: `Helv` when it names none,
/// else its name without leading slashes.
pub open spec fn layout_font(l: STextLayout) -> Seq<char> {
    if l.font_name.len() == 0 {
        w_helv()
    } else {
        strip_slashes(l.font_name)
    }
}

/// The content of a text appearance: `text`, escaped, drawn in font `fname`
/// at the layout's size and baseline.
pub open spec fn appearance_content(fname: Seq<char>, l: STextLayout, text: Seq<char>) -> Seq<char> {
    "q\nBT\n/"@ + fname + " "@ + l.font_size + " Tf\n2 "@ + l.baseline + " Td\n("@ + escape_seq(
        text,
    ) + ") Tj\nET\nQ\n"@
}

/// The dictionary of a text appearance stream: a form XObject whose box is
/// the layout's width and height and whose resources hold the font.
pub open spec fn appearance_dict(fname: Seq<char>, font_ref: ObjectId, l: STextLayout) -> SDict {
    let resources = sd_set(
        seq![],
        k_font(),
        SObj::Dictionary(sd_set(seq![], encode_utf8(fname), SObj::Reference(font_ref))),
    );
    sd_set(
        sd_set(
            sd_set(
                sd_set(
                    sd_set(seq![], k_type(), SObj::Name(k_xobject())),
                    k_subtype(),
                    SObj::Name(encode_utf8(w_form())),
                ),
                k_formtype(),
                SObj::Integer(1),
            ),
            k_bbox(),
            SObj::Array(
                seq![
                    SObj::Integer(0),
                    SObj::Integer(0),
                    SObj::Real(l.width.0, l.width.1),
                    SObj::Real(l.height.0, l.height.1),
                ],
            ),
        ),
        k_resources(),
        SObj::Dictionary(resources),
    )
}

/// Building the appearance stream of a text or choice widget showing `text`
/// (with the requested font, if any): the stream, after its font has been
/// made available in the form's resources.
#[verifier::opaque]
pub open spec fn spec_text_stream<F: Fn(TextRequest) -> TextLayout>(
    doc: SDoc,
    acro_id: ObjectId,
    pd: SDict,
    ad: SDict,
    text: Seq<char>,
    font: Option<(Seq<char>, u32)>,
    lay: F,
) -> SOut<SObj> {
    match spec_rect(ad) {
        Err(e) => (doc, Err(e)),
        Ok(rect) => {
            let l = spec_layout(
                lay,
                STextRequest { rect, da: spec_da(doc, acro_id, pd, ad), font },
            );
            let fname = layout_font(l);
            let (d1, fr) = spec_core_font(doc, acro_id, fname);
            match fr {
                Err(e) => (d1, Err(e)),
                Ok(font_ref) => (
                    d1,
                    Ok(
                        spec_stream(
                            appearance_dict(fname, font_ref, l),
                            encode_utf8(appearance_content(fname, l, text)),
                        ),
                    ),
                ),
            }
        },
    }
}

fn append_str(out: &mut Vec<char>, s: &str)
    ensures
        final(out)@ == old(out)@ + s@,
{
    let c = to_chars(s);
    append_chars(out, c.as_slice());
}

fn content_text(fname: &String, l: &TextLayout, text: &str) -> (r: String)
    ensures
        r@ == appearance_content(fname@, l.sv(), text@),
{
    let mut out: Vec<char> = Vec::new();
    append_str(&mut out, "q\nBT\n/");
    append_str(&mut out, fname.as_str());
    append_str(&mut out, " ");
    append_str(&mut out, l.font_size.as_str());
    append_str(&mut out, " Tf\n2 ");
    append_str(&mut out, l.baseline.as_str());
    append_str(&mut out, " Td\n(");
    let esc = escape_content_text(text);
    append_str(&mut out, esc.as_str());
    append_str(&mut out, ") Tj\nET\nQ\n");
    assert(out@ =~= appearance_content(fname@, l.sv(), text@));
    string_from_chars(out.as_slice())
}

fn appearance_dict_of(fname: &String, font_ref: ObjectId, l: &TextLayout) -> (r: PdfDict)
    ensures
        r.sv() == appearance_dict(fname@, font_ref, l.sv()),
{
    let mut fonts = PdfDict::new();
    fonts.set(utf8_bytes(fname.as_str()), PdfObject::Reference(font_ref));
    proof {
        lemma_dict_obj_sv(fonts);
    }
    let mut resources = PdfDict::new();
    resources.set(key_font(), PdfObject::Dictionary(fonts));
    proof {
        lemma_dict_obj_sv(resources);
    }
    let bbox = vec![
        PdfObject::Integer(0),
        PdfObject::Integer(0),
        PdfObject::Real(l.width.0, copy_string(&l.width.1)),
        PdfObject::Real(l.height.0, copy_string(&l.height.1)),
    ];
    proof {
        lemma_array_obj_sv(bbox);
        assert(sv_seq(bbox@) =~= seq![
            SObj::Integer(0),
            SObj::Integer(0),
            SObj::Real(l.width.0, l.width.1@),
            SObj::Real(l.height.0, l.height.1@),
        ]);
    }
    let mut d = PdfDict::new();
    d.set(key_type(), PdfObject::Name(key_xobject()));
    d.set(key_subtype(), name_object(&word_form()));
    d.set(key_formtype(), PdfObject::Integer(1));
    d.set(key_bbox(), PdfObject::Array(bbox));
    d.set(key_resources(), PdfObject::Dictionary(resources));
    d
}

/// Builds the appearance stream of a text or choice widget.
pub fn build_text_appearance_stream<F: Fn(TextRequest) -> TextLayout>(
    doc: &mut PdfDocument,
    acro_id: ObjectId,
    pd: &PdfDict,
    ad: &PdfDict,
    text: &str,
    font: Option<(String, u32)>,
    lay: &F,
) -> (r: Result<PdfObject, PdferError>)
    requires
        layout_ok(*lay),
    ensures
        (final(doc).sv(), res_v(r, |o: PdfObject| o.sv())) == spec_text_stream(
            old(doc).sv(),
            acro_id,
            pd.sv(),
            ad.sv(),
            text@,
            font_v(font),
            *lay,
        ),
{
    reveal(spec_text_stream);
    let rect = extract_rect(ad)?;
    let da = default_appearance(doc, acro_id, pd, ad);
    let q = TextRequest { rect, da, font };
    let l = run_layout(lay, q);
    let fname = if l.font_name.as_str().is_empty() {
        let h = word_helv();
        string_from_chars(h.as_slice())
    } else {
        normalize_name(l.font_name.as_str())
    };
    let font_ref = ensure_core_font_resource(doc, acro_id, fname.as_str())?;
    let d = appearance_dict_of(&fname, font_ref, &l);
    let content = content_text(&fname, &l, text);
    Ok(new_stream(d, utf8_bytes(content.as_str())))
}

/// The appearance dictionary of a widget (its `/AP`, given directly or by
/// reference), empty when it has none or it is not a dictionary.
pub open spec fn ap_dict_or_empty(doc: SDoc, ad: SDict) -> SDict {
    match sd_get(ad, k_ap()) {
        Some(o) => match deref_dict(doc, o) {
            Ok(d) => d,
            Err(_) => seq![],
        },
        None => seq![],
    }
}

/// Installing a text appearance on the widget `aid` (dictionary `ad`): the
/// appearance stream is added as a new object and becomes the widget's
/// normal appearance (`/AP /N`), the widget written back; the stream's id.
#[verifier::opaque]
pub open spec fn spec_install_text<F: Fn(TextRequest) -> TextLayout>(
    doc: SDoc,
    acro_id: ObjectId,
    aid: ObjectId,
    pd: SDict,
    ad: SDict,
    text: Seq<char>,
    font: Option<(Seq<char>, u32)>,
    lay: F,
) -> SOut<ObjectId> {
    let (d1, sr) = spec_text_stream(doc, acro_id, pd, ad, text, font, lay);
    match sr {
        Err(e) => (d1, Err(e)),
        Ok(st) => {
            let (d2, a) = spec_add(d1, st);
            match a {
                Err(e) => (d2, Err(e)),
                Ok(sid) => {
                    let ap = sd_set(ap_dict_or_empty(d2, ad), k_n(), SObj::Reference(sid));
                    let (d3, w) = spec_write(
                        d2,
                        aid,
                        SObj::Dictionary(sd_set(ad, k_ap(), SObj::Dictionary(ap))),
                    );
                    match w {
                        Err(e) => (d3, Err(e)),
                        Ok(_) => (d3, Ok(sid)),
                    }
                },
            }
        },
    }
}

fn ap_dict_of(doc: &PdfDocument, ad: &PdfDict) -> (r: PdfDict)
    ensures
        r.sv() == ap_dict_or_empty(doc.sv(), ad.sv()),
{
    let kap = key_ap();
    match ad.get(kap.as_slice()) {
        Some(o) => match deref_dictionary(doc, o) {
            Ok(d) => d,
            Err(_) => PdfDict::new(),
        },
        None => PdfDict::new(),
    }
}

/// Installs a text appearance on a widget; the appearance stream's id.
pub fn install_text_appearance<F: Fn(TextRequest) -> TextLayout>(
    doc: &mut PdfDocument,
    acro_id: ObjectId,
    aid: ObjectId,
    pd: &PdfDict,
    ad: &PdfDict,
    text: &str,
    font: Option<(String, u32)>,
    lay: &F,
) -> (r: Result<ObjectId, PdferError>)
    requires
        layout_ok(*lay),
    ensures
        (final(doc).sv(), res_id(r)) == spec_install_text(
            old(doc).sv(),
            acro_id,
            aid,
            pd.sv(),
            ad.sv(),
            text@,
            font_v(font),
            *lay,
        ),
{
    reveal(spec_install_text);
    let stream = build_text_appearance_stream(doc, acro_id, pd, ad, text, font, lay)?;
    let sid = add_new_object(doc, stream)?;
    let mut ap = ap_dict_of(doc, ad);
    ap.set(key_n(), PdfObject::Reference(sid));
    proof {
        lemma_dict_obj_sv(ap);
    }
    let mut out = ad.deep_clone();
    out.set(key_ap(), PdfObject::Dictionary(ap));
    write_dict_object(doc, aid, out)?;
    Ok(sid)
}

// ---------------------------------------------------------------------------
// Drawing into page content
// ---------------------------------------------------------------------------
/// Appending a content stream to a page: the stream (`content`, with its
/// length) is added as a new object and a reference to it is appended to the
/// page's `/Contents`, which becomes an array (a single reference is kept as
/// its first item; anything but a reference or an array is dropped).
#[verifier::opaque]
pub open spec fn spec_add_page_contents(doc: SDoc, page_id: ObjectId, content: Seq<u8>) -> SOut<()> {
    match sdoc_get_dict(doc, page_id) {
        Err(e) => (doc, Err(SErr::Lopdf(e))),
        Ok(page) => {
            let list = match sd_get(page, k_contents()) {
                Some(SObj::Reference(id)) => seq![SObj::Reference(id)],
                Some(SObj::Array(a)) => a,
                _ => seq![],
            };
            let (d1, a) = spec_add(doc, spec_stream(seq![], content));
            match a {
                Err(e) => (d1, Err(e)),
                Ok(cid) => match sdoc_get_dict(d1, page_id) {
                    Err(e) => (d1, Err(SErr::Lopdf(e))),
                    Ok(p1) => spec_write(
                        d1,
                        page_id,
                        SObj::Dictionary(
                            sd_set(p1, k_contents(), SObj::Array(list.push(SObj::Reference(cid)))),
                        ),
                    ),
                },
            }
        },
    }
}

/// Appends a content stream to a page.
pub fn add_page_contents(doc: &mut PdfDocument, page_id: ObjectId, content: Vec<u8>) -> (r: Result<
    (),
    PdferError,
>)
    ensures
        (final(doc).sv(), res_id(r)) == spec_add_page_contents(old(doc).sv(), page_id, content@),
{
    reveal(spec_add_page_contents);
    let mut list: Vec<PdfObject> = match doc.get_dictionary(page_id) {
        Err(e) => {
            return Err(PdferError::Lopdf(e));
        },
        Ok(page) => {
            let kc = key_contents();
            match page.get(kc.as_slice()) {
                Some(PdfObject::Reference(id)) => {
                    let v = vec![PdfObject::Reference(*id)];
                    assert(sv_seq(v@) =~= seq![SObj::Reference(*id)]);
                    v
                },
                Some(PdfObject::Array(a)) => {
                    proof {
                        lemma_array_obj_sv(*a);
                    }
                    clone_items(a)
                },
                _ => {
                    let v: Vec<PdfObject> = Vec::new();
                    assert(sv_seq(v@) =~= seq![]);
                    v
                },
            }
        },
    };
    let st = new_stream(PdfDict::new(), content);
    let cid = add_new_object(doc, st)?;
    let ghost before = sv_seq(list@);
    list.push(PdfObject::Reference(cid));
    assert(sv_seq(list@) =~= before.push(SObj::Reference(cid)));
    proof {
        lemma_array_obj_sv(list);
    }
    let mut page = match doc.get_dictionary(page_id) {
        Err(e) => {
            return Err(PdferError::Lopdf(e));
        },
        Ok(p) => p.deep_clone(),
    };
    page.set(key_contents(), PdfObject::Array(list));
    write_dict_object(doc, page_id, page)
}

/// The content that draws the XObject `name` with its origin moved to
/// `(x, y)`.
pub open spec fn flatten_commands(name: Seq<char>, x: Seq<char>, y: Seq<char>) -> Seq<char> {
    "q\n1 0 0 1 "@ + x + " "@ + y + " cm\n/"@ + name + " Do\nQ\n"@
}

/// A dictionary entry given directly or by reference, empty when missing or
/// not a dictionary.
pub open spec fn sub_dict_or_empty(doc: SDoc, d: SDict, k: Seq<u8>) -> SDict {
    match sd_get(d, k) {
        Some(o) => match deref_dict(doc, o) {
            Ok(x) => x,
            Err(_) => seq![],
        },
        None => seq![],
    }
}

/// Drawing an appearance stream on a page: the stream is registered under
/// `name` in the page's XObject resources (the resources and XObject
/// dictionaries are written into the page directly), and content drawing it
/// at `(x, y)` is appended to the page.
#[verifier::opaque]
pub open spec fn spec_flatten(
    doc: SDoc,
    page_id: ObjectId,
    ap_id: ObjectId,
    name: Seq<char>,
    x: Seq<char>,
    y: Seq<char>,
) -> SOut<()> {
    match sdoc_get_dict(doc, page_id) {
        Err(e) => (doc, Err(SErr::Lopdf(e))),
        Ok(page) => {
            let res = sub_dict_or_empty(doc, page, k_resources());
            let xo = sub_dict_or_empty(doc, res, k_xobject());
            let xo2 = sd_set(xo, encode_utf8(name), SObj::Reference(ap_id));
            let page2 = sd_set(
                page,
                k_resources(),
                SObj::Dictionary(sd_set(res, k_xobject(), SObj::Dictionary(xo2))),
            );
            let (d1, w) = spec_write(doc, page_id, SObj::Dictionary(page2));
            match w {
                Err(e) => (d1, Err(e)),
                Ok(_) => spec_add_page_contents(
                    d1,
                    page_id,
                    encode_utf8(flatten_commands(name, x, y)),
                ),
            }
        },
    }
}

fn commands_text(name: &str, x: &str, y: &str) -> (r: String)
    ensures
        r@ == flatten_commands(name@, x@, y@),
{
    let mut out: Vec<char> = Vec::new();
    append_str(&mut out, "q\n1 0 0 1 ");
    append_str(&mut out, x);
    append_str(&mut out, " ");
    append_str(&mut out, y);
    append_str(&mut out, " cm\n/");
    append_str(&mut out, name);
    append_str(&mut out, " Do\nQ\n");
    assert(out@ =~= flatten_commands(name@, x@, y@));
    string_from_chars(out.as_slice())
}

fn sub_dict_of(doc: &PdfDocument, d: &PdfDict, k: &[u8]) -> (r: PdfDict)
    ensures
        r.sv() == sub_dict_or_empty(doc.sv(), d.sv(), k@),
{
    match d.get(k) {
        Some(o) => match deref_dictionary(doc, o) {
            Ok(x) => x,
            Err(_) => PdfDict::new(),
        },
        None => PdfDict::new(),
    }
}

/// Draws the appearance stream `ap_id` on the page at `(x, y)`.
pub fn flatten_appearance_stream(
    doc: &mut PdfDocument,
    page_id: ObjectId,
    ap_id: ObjectId,
    name: &str,
    x: &str,
    y: &str,
) -> (r: Result<(), PdferError>)
    ensures
        (final(doc).sv(), res_id(r)) == spec_flatten(old(doc).sv(), page_id, ap_id, name@, x@, y@),
{
    reveal(spec_flatten);
    let page = match doc.get_dictionary(page_id) {
        Err(e) => {
            return Err(PdferError::Lopdf(e));
        },
        Ok(p) => p.deep_clone(),
    };
    let kr = key_resources();
    let mut res = sub_dict_of(doc, &page, kr.as_slice());
    let kx = key_xobject();
    let mut xo = sub_dict_of(doc, &res, kx.as_slice());
    xo.set(utf8_bytes(name), PdfObject::Reference(ap_id));
    proof {
        lemma_dict_obj_sv(xo);
    }
    res.set(key_xobject(), PdfObject::Dictionary(xo));
    proof {
        lemma_dict_obj_sv(res);
    }
    let mut page2 = page;
    page2.set(key_resources(), PdfObject::Dictionary(res));
    write_dict_object(doc, page_id, page2)?;
    let commands = commands_text(name, x, y);
    add_page_contents(doc, page_id, utf8_bytes(commands.as_str()))
}

} // verus!
