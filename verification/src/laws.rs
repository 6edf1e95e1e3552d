//! The laws of the library: properties that relate several operations, or
//! hold of every input, proved over the specifications the operations
//! themselves are verified against.
use vstd::prelude::*;
use crate::appearance::{TextLayout, TextRequest, spec_choose_state, spec_core_font};
use crate::fields::{CollectState, SField, SValue, ap_states, opt_value, collect, collect_list, fmap_insert, fmap_keys, key_names, kid_states, list_item, spec_build_field, spec_button_states, spec_get_fields, value_of, without_off};
use crate::fill::{FState, FillArgs, SInput, WidgetCtx, dots_to_underscores, fill_pages, materialized, names_with, primary, spec_fill, spec_fill_one, spec_fill_prepare, spec_fill_selected, stored_value, text_objects, xobject_name};
use crate::model::{ObjectId, SDict, SDoc, SObj, lemma_sd_index_found, lemma_sd_index_some, lemma_so_index_found, sd_get, sd_has, sd_index, sd_remove, sd_set, sdoc_get_dict, so_index, so_lookup, so_set};
use crate::pages::{PageHandle, spec_page_handles, PageSelection, spec_page_annots, spec_selected_page_ids};
use crate::text::{count_prefixed, is_prefix, ascii_lower, is_white_space, be_bytes, be_units, decimal, digit_char, eq_ignore_case, first_exact_state, first_on_state, is_high_surrogate, is_low_surrogate, is_off_alias, is_on_alias, lower_seq, off_state, slashed, spec_decode_pdf_text, spec_encode_pdf_text, spec_indexed_key, spec_resolve_button_state, strip_slashes, trimmed, utf16_lossy, utf16_of_char, utf16be};
use crate::error::{SErr};
use crate::inspect::{FieldSpecifier, field_pages, keep_pages, spec_field_id, spec_pages_showing, spec_get_form_text_fields, text_fields_of, value_text};
use crate::edit::{remove_on_page, remove_walk, removes, subtype_of, PState, RState, reattach_annot, reattach_annots, reattach_page, reattach_pages, reattach_widget};
use crate::access::{spec_acroform_fields, spec_add, spec_ensure_indirect, spec_write_array};
use crate::merge::{MergeSort, all_pages, part_page_objects, catalog_dict, combined_objects, n_catalog, n_count, n_outline, n_outlines, n_page, n_pages, page_objects, refs, root_dict, sort_objects, sort_step, spec_merge_parts, table_extend, type_of, with_parents};
use crate::ops::{rotate_one, rotate_walk, spec_rotate_pages, valid_rotation};
use crate::model::{DocError, PdfDict, deref_limit, sdoc_deref, sdoc_get_object, sdoc_set, sdoc_target, sdoc_write};
use crate::keys::{k_annots, k_rotate, k_ap, k_as, k_dr, k_ff, k_font, k_ft, k_i, k_kids, k_root, k_n, k_parent, k_t, k_tm, k_v, w_btn, w_ch, w_tx};
use crate::objects::{DEPTH_BOUND, deref_dict, has_kids_array, inherited_name, kid_objects, obj_ref, spec_inherited};
use crate::order::{ins_pos, lex_lt, set_insert, smap_insert, smap_keys, sort_dedup};

verus! {

/// The UTF-16 code units of a character sequence.
pub open spec fn units_of(s: Seq<char>) -> Seq<u16>
    decreases s.len(),
{
    if s.len() == 0 {
        seq![]
    } else {
        units_of(s.drop_last()) + utf16_of_char(s.last())
    }
}

proof fn lemma_units_concat(a: Seq<char>, b: Seq<char>)
    ensures
        units_of(a + b) == units_of(a) + units_of(b),
    decreases b.len(),
{
    if b.len() == 0 {
        assert(a + b =~= a);
        assert(units_of(a) + units_of(b) =~= units_of(a));
    } else {
        assert((a + b).drop_last() =~= a + b.drop_last());
        assert((a + b).last() == b.last());
        lemma_units_concat(a, b.drop_last());
        assert(units_of(a + b) =~= units_of(a) + units_of(b));
    }
}

proof fn lemma_be_units_concat(x: Seq<u8>, y: Seq<u8>)
    requires
        x.len() % 2 == 0,
        y.len() % 2 == 0,
    ensures
        be_units(x + y) == be_units(x) + be_units(y),
{
    let z = x + y;
    assert(z.len() / 2 == x.len() / 2 + y.len() / 2);
    assert forall|i: int| 0 <= i < be_units(z).len() implies be_units(z)[i] == (be_units(x) + be_units(
        y,
    ))[i] by {
        if i < x.len() / 2 {
            assert(z[2 * i] == x[2 * i] && z[2 * i + 1] == x[2 * i + 1]);
        } else {
            let j = i - x.len() / 2;
            assert(2 * i == x.len() + 2 * j);
            assert(z[2 * i] == y[2 * j] && z[2 * i + 1] == y[2 * j + 1]);
        }
    }
    assert(be_units(z) =~= be_units(x) + be_units(y));
}

proof fn lemma_be_bytes_unit(u: u16)
    ensures
        be_units(be_bytes(u)) == seq![u],
{
    let b = be_bytes(u);
    assert(b.len() == 2);
    assert((b[0] as int * 256 + b[1] as int) as u16 == u) by {
        assert((u / 256) as u8 as int == u as int / 256);
        assert((u % 256) as u8 as int == u as int % 256);
        assert(u as int / 256 * 256 + u as int % 256 == u as int) by (nonlinear_arith);
    }
    assert(be_units(b) =~= seq![u]);
}

proof fn lemma_utf16be_units(s: Seq<char>)
    ensures
        utf16be(s).len() % 2 == 0,
        be_units(utf16be(s)) == units_of(s),
    decreases s.len(),
{
    if s.len() > 0 {
        lemma_utf16be_units(s.drop_last());
        let units = utf16_of_char(s.last());
        if units.len() == 1 {
            lemma_be_bytes_unit(units[0]);
            lemma_be_units_concat(utf16be(s.drop_last()), be_bytes(units[0]));
            assert(units =~= seq![units[0]]);
        } else {
            lemma_be_bytes_unit(units[0]);
            lemma_be_bytes_unit(units[1]);
            lemma_be_units_concat(be_bytes(units[0]), be_bytes(units[1]));
            lemma_be_units_concat(
                utf16be(s.drop_last()),
                be_bytes(units[0]) + be_bytes(units[1]),
            );
            assert(units =~= seq![units[0]] + seq![units[1]]);
        }
    }
}

proof fn lemma_lossy_char(c: char, rest: Seq<u16>)
    ensures
        utf16_lossy(utf16_of_char(c) + rest) == seq![c] + utf16_lossy(rest),
{
    let u = c as u32;
    vstd::utf8::char_is_scalar(c);
    let us = utf16_of_char(c) + rest;
    if u < 0x10000 {
        let w = u as u16;
        assert(w as u32 == u);
        vstd::utf8::char_u32_cast(c, u);
        assert(us[0] == w);
        assert(!is_high_surrogate(w) && !is_low_surrogate(w));
        assert(us.drop_first() =~= rest);
    } else {
        let v = u - 0x10000;
        assert(0 <= v < 0x100000);
        let hi = (0xD800 + v / 0x400) as u16;
        let lo = (0xDC00 + v % 0x400) as u16;
        assert(v / 0x400 < 0x400) by (nonlinear_arith)
            requires
                0 <= v < 0x100000,
        ;
        assert(us[0] == hi && us[1] == lo);
        assert(is_high_surrogate(hi) && is_low_surrogate(lo));
        assert(0x10000 + (hi - 0xD800) * 0x400 + (lo - 0xDC00) == u) by (nonlinear_arith)
            requires
                hi == 0xD800 + v / 0x400,
                lo == 0xDC00 + v % 0x400,
                v == u - 0x10000,
        ;
        vstd::utf8::char_u32_cast(c, u);
        assert(us.subrange(2, us.len() as int) =~= rest);
    }
}

proof fn lemma_lossy_units(s: Seq<char>, rest: Seq<u16>)
    ensures
        utf16_lossy(units_of(s) + rest) == s + utf16_lossy(rest),
    decreases s.len(),
{
    if s.len() == 0 {
        assert(units_of(s) + rest =~= rest);
        assert(s + utf16_lossy(rest) =~= utf16_lossy(rest));
    } else {
        let c = s[0];
        let t = s.drop_first();
        assert(s =~= seq![c] + t);
        lemma_units_concat(seq![c], t);
        assert(units_of(seq![c]) =~= utf16_of_char(c)) by {
            assert(seq![c].drop_last() =~= Seq::<char>::empty());
            assert(seq![c].last() == c);
            assert(units_of(Seq::<char>::empty()) =~= Seq::<u16>::empty());
            assert(Seq::<u16>::empty() + utf16_of_char(c) =~= utf16_of_char(c));
        }
        assert(units_of(s) + rest =~= utf16_of_char(c) + (units_of(t) + rest));
        lemma_lossy_char(c, units_of(t) + rest);
        lemma_lossy_units(t, rest);
        assert(seq![c] + (t + utf16_lossy(rest)) =~= s + utf16_lossy(rest));
    }
}

/// Decoding the text string written for `s` gives `s` back: a field value
/// stored as UTF-16BE with a byte-order mark reads back unchanged.
pub proof fn law_text_roundtrip(s: Seq<char>)
    ensures
        spec_decode_pdf_text(spec_encode_pdf_text(s)) == s,
{
    let b = spec_encode_pdf_text(s);
    lemma_utf16be_units(s);
    assert(b.skip(2) =~= utf16be(s));
    lemma_lossy_units(s, seq![]);
    assert(units_of(s) + Seq::<u16>::empty() =~= units_of(s));
    assert(s + utf16_lossy(Seq::<u16>::empty()) =~= s);
}

// ---------------------------------------------------------------------------
// Names
// ---------------------------------------------------------------------------
proof fn lemma_strip_no_slash(s: Seq<char>)
    ensures
        strip_slashes(s).len() == 0 || strip_slashes(s)[0] != '/',
    decreases s.len(),
{
    if s.len() > 0 && s[0] == '/' {
        lemma_strip_no_slash(s.drop_first());
    }
}

/// Normalising a name twice is normalising it once; giving a name its slash
/// twice is giving it once; and normalising a slashed name is normalising
/// the name.
pub proof fn law_name_normalisation(s: Seq<char>)
    ensures
        strip_slashes(strip_slashes(s)) == strip_slashes(s),
        strip_slashes(slashed(s)) == strip_slashes(s),
        slashed(slashed(s)) == slashed(s),
{
    lemma_strip_no_slash(s);
    let t = strip_slashes(s);
    assert(slashed(s).drop_first() =~= t);
    assert(strip_slashes(slashed(s)) == strip_slashes(t));
}

// ---------------------------------------------------------------------------
// Dictionaries and the object table
// ---------------------------------------------------------------------------
/// No key occurs twice.
pub open spec fn keys_unique(d: SDict) -> bool {
    forall|i: int, j: int| 0 <= i < j < d.len() ==> d[i].0 != d[j].0
}

proof fn lemma_index_unique(d: SDict, k: Seq<u8>, i: int)
    requires
        keys_unique(d),
        0 <= i < d.len(),
        d[i].0 == k,
    ensures
        sd_index(d, k) == Some(i),
{
    assert forall|j: int| 0 <= j < i implies d[j].0 != k by {
        assert(d[j].0 != d[i].0);
    }
    lemma_sd_index_found(d, k, i);
}

/// Reading a dictionary entry after setting it gives the value set; the
/// other entries read as before; and setting keeps every key once.
pub proof fn law_dict_set_get(d: SDict, k: Seq<u8>, v: SObj, k2: Seq<u8>)
    requires
        keys_unique(d),
    ensures
        sd_get(sd_set(d, k, v), k) == Some(v),
        k2 != k ==> sd_get(sd_set(d, k, v), k2) == sd_get(d, k2),
        keys_unique(sd_set(d, k, v)),
{
    lemma_sd_index_some(d, k);
    lemma_sd_index_some(d, k2);
    let e = sd_set(d, k, v);
    match sd_index(d, k) {
        Some(i) => {
            lemma_index_unique(e, k, i);
            if k2 != k {
                match sd_index(d, k2) {
                    Some(j) => {
                        lemma_index_unique(e, k2, j);
                    },
                    None => {
                        assert(forall|j: int| 0 <= j < e.len() ==> e[j].0 != k2);
                    },
                }
            }
        },
        None => {
            assert(forall|j: int| 0 <= j < d.len() ==> d[j].0 != k);
            lemma_index_unique(e, k, d.len() as int);
            if k2 != k {
                match sd_index(d, k2) {
                    Some(j) => {
                        lemma_index_unique(e, k2, j);
                    },
                    None => {
                        assert(forall|j: int| 0 <= j < e.len() ==> e[j].0 != k2);
                    },
                }
            }
        },
    }
}

/// After removing a key it reads as missing; the other entries read as
/// before; and every key still occurs once.
pub proof fn law_dict_remove(d: SDict, k: Seq<u8>, k2: Seq<u8>)
    requires
        keys_unique(d),
    ensures
        sd_get(sd_remove(d, k), k) is None,
        k2 != k ==> sd_get(sd_remove(d, k), k2) == sd_get(d, k2),
        keys_unique(sd_remove(d, k)),
{
    lemma_sd_index_some(d, k);
    lemma_sd_index_some(d, k2);
    match sd_index(d, k) {
        None => {},
        Some(i) => {
            let e = sd_remove(d, k);
            let n = d.len() - 1;
            assert(e.len() == n);
            assert forall|a: int, b: int| 0 <= a < b < e.len() implies e[a].0 != e[b].0 by {
                let sa = if a == i {
                    n
                } else {
                    a
                };
                let sb = if b == i {
                    n
                } else {
                    b
                };
                assert(e[a] == d[sa] && e[b] == d[sb]);
            }
            assert forall|j: int| 0 <= j < e.len() implies e[j].0 != k by {
                if j == i {
                    assert(e[j] == d[n]);
                    assert(d[n].0 != d[i].0);
                } else {
                    assert(e[j] == d[j]);
                    if j < i {
                    } else {
                        assert(d[j].0 != d[i].0);
                    }
                }
            }
            if k2 != k {
                match sd_index(d, k2) {
                    Some(j) => {
                        let pos = if j == n {
                            i
                        } else {
                            j
                        };
                        assert(e[pos] == d[j]);
                        lemma_index_unique(e, k2, pos);
                    },
                    None => {
                        assert forall|j: int| 0 <= j < e.len() implies e[j].0 != k2 by {
                            if j == i {
                                assert(e[j] == d[n]);
                            } else {
                                assert(e[j] == d[j]);
                            }
                        }
                    },
                }
            }
        },
    }
}

/// Reading the object table after setting an entry gives the object set,
/// and the other entries read as before.
pub proof fn law_table_set_lookup(
    objs: Seq<(ObjectId, SObj)>,
    id: ObjectId,
    o: SObj,
    id2: ObjectId,
)
    ensures
        so_lookup(so_set(objs, id, o), id) == Some(o),
        id2 != id ==> so_lookup(so_set(objs, id, o), id2) == so_lookup(objs, id2),
{
    let e = so_set(objs, id, o);
    lemma_so_index_any(objs, id);
    lemma_so_index_any(objs, id2);
    match so_index(objs, id) {
        Some(i) => {
            lemma_so_index_found(e, id, i);
            if id2 != id {
                match so_index(objs, id2) {
                    Some(j) => {
                        assert forall|m: int| 0 <= m < j implies e[m].0 != id2 by {
                            if m == i {
                            } else {
                                assert(e[m] == objs[m]);
                            }
                        }
                        lemma_so_index_found(e, id2, j);
                    },
                    None => {
                        assert(forall|m: int| 0 <= m < e.len() ==> e[m].0 != id2);
                    },
                }
            }
        },
        None => {
            assert(forall|m: int| 0 <= m < objs.len() ==> objs[m].0 != id);
            lemma_so_index_found(e, id, objs.len() as int);
            if id2 != id {
                match so_index(objs, id2) {
                    Some(j) => {
                        lemma_so_index_found(e, id2, j);
                    },
                    None => {
                        assert(forall|m: int| 0 <= m < e.len() ==> e[m].0 != id2);
                    },
                }
            }
        },
    }
}

proof fn lemma_so_index_any(objs: Seq<(ObjectId, SObj)>, id: ObjectId)
    ensures
        so_index(objs, id) matches Some(i) ==> 0 <= i < objs.len() && objs[i].0 == id && forall|
            j: int,
        |
            0 <= j < i ==> objs[j].0 != id,
        so_index(objs, id) is None ==> forall|j: int| 0 <= j < objs.len() ==> objs[j].0 != id,
{
    if exists|i: int| 0 <= i < objs.len() && objs[i].0 == id {
        let w = choose|i: int| 0 <= i < objs.len() && objs[i].0 == id;
        lemma_so_min_index(objs, id, w);
    }
}

proof fn lemma_so_min_index(objs: Seq<(ObjectId, SObj)>, id: ObjectId, w: int)
    requires
        0 <= w < objs.len(),
        objs[w].0 == id,
    ensures
        exists|c: int|
            0 <= c < objs.len() && objs[c].0 == id && forall|j: int| 0 <= j < c ==> objs[j].0 != id,
    decreases w,
{
    if exists|j: int| 0 <= j < w && objs[j].0 == id {
        let j = choose|j: int| 0 <= j < w && objs[j].0 == id;
        lemma_so_min_index(objs, id, j);
    }
}

// ---------------------------------------------------------------------------
// Field values read back
// ---------------------------------------------------------------------------
/// The value a fill stores in a text or choice field reads back as the text
/// written (a list as the list written), and the value stored in a button
/// reads back as the state name written, with its slash.
pub proof fn law_stored_value_reads_back(ft: Seq<char>, i: SInput)
    ensures
        (ft == w_tx() || ft == w_ch()) && !(i is TextList) ==> value_of(stored_value(ft, i)->0)
            == Some(SValue::Text(primary(i))),
        (ft == w_tx() || ft == w_ch()) && i is TextList ==> value_of(stored_value(ft, i)->0)
            == Some(SValue::List(i->TextList_0)),
        ft == w_btn() ==> value_of(stored_value(ft, i)->0) == Some(
            SValue::Name(slashed(primary(i))),
        ),
{
    if ft == w_btn() {
        let t = strip_slashes(primary(i));
        vstd::utf8::encode_utf8_valid_utf8(t);
        vstd::utf8::encode_utf8_decode_utf8(t);
        law_name_normalisation(primary(i));
        assert(slashed(t) =~= slashed(primary(i)));
    } else if ft == w_tx() || ft == w_ch() {
        match i {
            SInput::TextList(l) => {
                let items = text_objects(l);
                assert forall|j: int| 0 <= j < l.len() implies list_item(items[j]) == l[j] by {
                    law_text_roundtrip(l[j]);
                }
                assert(items.map_values(|x: SObj| list_item(x)) =~= l);
            },
            _ => {
                law_text_roundtrip(primary(i));
            },
        }
    }
}

// ---------------------------------------------------------------------------
// Fill reports
// ---------------------------------------------------------------------------
proof fn lemma_names_partition(req: Seq<(Seq<char>, SInput)>, hits: Seq<bool>)
    ensures
        names_with(req, hits, true).len() + names_with(req, hits, false).len() == req.len(),
        forall|i: int|
            0 <= i < req.len() ==> (hits[i] ==> names_with(req, hits, true).contains(req[i].0)) && (
            !hits[i] ==> names_with(req, hits, false).contains(req[i].0)),
    decreases req.len(),
{
    if req.len() > 0 {
        let r = req.drop_last();
        lemma_names_partition(r, hits);
        let n = req.len() - 1;
        assert forall|i: int|
            0 <= i < req.len() implies (hits[i] ==> names_with(req, hits, true).contains(req[i].0))
            && (!hits[i] ==> names_with(req, hits, false).contains(req[i].0)) by {
            if i < n {
                assert(req[i] == r[i]);
                if hits[i] {
                    let t = names_with(r, hits, true);
                    let k = choose|k: int| 0 <= k < t.len() && t[k] == r[i].0;
                    if hits[n] {
                        assert(t.push(req.last().0)[k] == req[i].0);
                    }
                } else {
                    let t = names_with(r, hits, false);
                    let k = choose|k: int| 0 <= k < t.len() && t[k] == r[i].0;
                    if !hits[n] {
                        assert(t.push(req.last().0)[k] == req[i].0);
                    }
                }
            } else {
                if hits[i] {
                    let t = names_with(r, hits, true);
                    assert(t.push(req.last().0)[t.len() as int] == req[i].0);
                } else {
                    let t = names_with(r, hits, false);
                    assert(t.push(req.last().0)[t.len() as int] == req[i].0);
                }
            }
        }
    }
}

/// A fill reports every requested name exactly where it belongs: each
/// request is counted once, in the matched or in the unmatched names, and
/// every requested name appears in one of them.
pub proof fn law_fill_report_partition<F: Fn(TextRequest) -> TextLayout, G: Fn(i64) -> String>(
    doc: SDoc,
    sel: PageSelection,
    req: Seq<(Seq<char>, SInput)>,
    flags: u32,
    auto: Option<bool>,
    flatten: bool,
    lay: F,
    g: G,
)
    requires
        spec_fill(doc, sel, req, flags, auto, flatten, lay, g).1 is Ok,
    ensures
        ({
            let rep = spec_fill(doc, sel, req, flags, auto, flatten, lay, g).1->Ok_0;
            &&& rep.matched.len() + rep.unmatched.len() == req.len()
            &&& forall|i: int|
                0 <= i < req.len() ==> rep.matched.contains(req[i].0) || rep.unmatched.contains(
                    req[i].0,
                )
        }),
{
    reveal(spec_fill_selected);
    let (d1, pr) = spec_fill_prepare(doc, auto);
    let acro_id = pr->Ok_0;
    let pages = spec_selected_page_ids(d1, sel)->Ok_0;
    let args = FillArgs { acro_id, req, flags, flatten };
    let (fs, r) = fill_pages(
        FState { doc: d1, hits: Seq::new(req.len(), |i: int| false), count: 0 },
        args,
        pages,
        pages.len(),
        lay,
        g,
    );
    lemma_names_partition(req, fs.hits);
    let rep = spec_fill(doc, sel, req, flags, auto, flatten, lay, g).1->Ok_0;
    assert(rep.matched == names_with(req, fs.hits, true));
    assert(rep.unmatched == names_with(req, fs.hits, false));
    assert forall|i: int|
        0 <= i < req.len() implies rep.matched.contains(req[i].0) || rep.unmatched.contains(
        req[i].0,
    ) by {
        if fs.hits[i] {
        } else {
        }
    }
}

// ---------------------------------------------------------------------------
// Button states
// ---------------------------------------------------------------------------
proof fn lemma_first_exact_in(states: Seq<Seq<char>>, req: Seq<char>)
    ensures
        first_exact_state(states, req) matches Some(s) ==> states.contains(s) && eq_ignore_case(
            strip_slashes(s),
            req,
        ),
    decreases states.len(),
{
    if states.len() > 0 && !eq_ignore_case(strip_slashes(states[0]), req) {
        lemma_first_exact_in(states.drop_first(), req);
        if first_exact_state(states, req) is Some {
            let s = first_exact_state(states, req)->0;
            let k = choose|k: int| 0 <= k < states.drop_first().len() && states.drop_first()[k] == s;
            assert(states[k + 1] == s);
        }
    } else if states.len() > 0 {
        assert(states[0] == states[0]);
    }
}

proof fn lemma_first_on_in(states: Seq<Seq<char>>)
    ensures
        first_on_state(states) matches Some(s) ==> states.contains(s) && !eq_ignore_case(
            strip_slashes(s),
            seq!['O', 'f', 'f'],
        ),
    decreases states.len(),
{
    if states.len() > 0 && eq_ignore_case(strip_slashes(states[0]), seq!['O', 'f', 'f']) {
        lemma_first_on_in(states.drop_first());
        if first_on_state(states) is Some {
            let s = first_on_state(states)->0;
            let k = choose|k: int| 0 <= k < states.drop_first().len() && states.drop_first()[k] == s;
            assert(states[k + 1] == s);
        }
    } else if states.len() > 0 {
        assert(states[0] == states[0]);
    }
}

proof fn lemma_aliases_distinct(low: Seq<char>)
    ensures
        is_on_alias(low) ==> !is_off_alias(low),
{
    if is_on_alias(low) && is_off_alias(low) {
        if low.len() == 2 {
            assert(low[0] == 'o');
            assert(low[1] == 'n' || low[1] == 'o');
        } else if low.len() == 1 {
            assert(low[0] == '1' || low[0] == '0');
        } else if low.len() == 3 {
            assert(low[0] == 'y' || low[0] == 'o');
        } else if low.len() == 4 {
        } else if low.len() == 5 {
        } else if low.len() == 7 {
            assert(low[0] == 'c');
        } else {
        }
    }
}

/// Resolving a requested button value: a state that equals the request
/// (leading slashes and surrounding white space ignored, ASCII case
/// ignored) wins; the value resolved to is always `/Off` or one of the
/// states, slashed; an alias of "on" picks a state that is not `Off`.
pub proof fn law_button_state_resolution(states: Seq<Seq<char>>, requested: Seq<char>)
    ensures
        ({
            let req = trimmed(strip_slashes(requested));
            &&& first_exact_state(states, req) matches Some(s) ==> spec_resolve_button_state(
                states,
                requested,
            ) == Some(slashed(s)) && eq_ignore_case(strip_slashes(s), req)
            &&& spec_resolve_button_state(states, requested) matches Some(x) ==> x == off_state()
                || exists|i: int| 0 <= i < states.len() && x == slashed(states[i])
            &&& first_exact_state(states, req) is None && is_on_alias(lower_seq(req))
                ==> (spec_resolve_button_state(states, requested) matches Some(x) ==> exists|i: int|
                0 <= i < states.len() && x == slashed(states[i]) && !eq_ignore_case(
                strip_slashes(states[i]),
                seq!['O', 'f', 'f'],
            ))
        }),
{
    let req = trimmed(strip_slashes(requested));
    lemma_aliases_distinct(lower_seq(req));
    lemma_first_exact_in(states, req);
    lemma_first_on_in(states);
    if first_exact_state(states, req) is Some {
        let s = first_exact_state(states, req)->0;
        let k = choose|k: int| 0 <= k < states.len() && states[k] == s;
        assert(spec_resolve_button_state(states, requested) == Some(slashed(states[k])));
    } else if first_on_state(states) is Some {
        let s = first_on_state(states)->0;
        let k = choose|k: int| 0 <= k < states.len() && states[k] == s;
        assert(slashed(s) == slashed(states[k]));
    }
}

// ---------------------------------------------------------------------------
// Sorted states
// ---------------------------------------------------------------------------
/// Strictly increasing in code-point order: sorted, each text once.
pub open spec fn sorted_strict(s: Seq<Seq<char>>) -> bool {
    forall|i: int, j: int| 0 <= i < j < s.len() ==> lex_lt(s[i], s[j])
}

proof fn lemma_char_u32_injective(a: char, b: char)
    ensures
        (a as u32) == (b as u32) ==> a == b,
{
    if (a as u32) == (b as u32) {
        vstd::utf8::char_u32_cast(a, a as u32);
        vstd::utf8::char_u32_cast(b, b as u32);
    }
}

proof fn lemma_lex_irreflexive(a: Seq<char>)
    ensures
        !lex_lt(a, a),
    decreases a.len(),
{
    if a.len() > 0 {
        lemma_lex_irreflexive(a.drop_first());
    }
}

proof fn lemma_lex_transitive(a: Seq<char>, b: Seq<char>, c: Seq<char>)
    requires
        lex_lt(a, b),
        lex_lt(b, c),
    ensures
        lex_lt(a, c),
    decreases a.len(),
{
    if a.len() > 0 && b.len() > 0 && c.len() > 0 {
        lemma_char_u32_injective(a[0], b[0]);
        lemma_char_u32_injective(b[0], c[0]);
        lemma_char_u32_injective(a[0], c[0]);
        if a[0] == b[0] && b[0] == c[0] {
            lemma_lex_transitive(a.drop_first(), b.drop_first(), c.drop_first());
        }
    }
}

proof fn lemma_lex_total(a: Seq<char>, b: Seq<char>)
    requires
        a != b,
    ensures
        lex_lt(a, b) || lex_lt(b, a),
    decreases a.len(),
{
    if a.len() == 0 {
        assert(b.len() > 0) by {
            if b.len() == 0 {
                assert(a =~= b);
            }
        }
    } else if b.len() > 0 {
        lemma_char_u32_injective(a[0], b[0]);
        if a[0] == b[0] {
            assert(a.drop_first() != b.drop_first()) by {
                if a.drop_first() == b.drop_first() {
                    assert(a =~= seq![a[0]] + a.drop_first());
                    assert(b =~= seq![b[0]] + b.drop_first());
                }
            }
            lemma_lex_total(a.drop_first(), b.drop_first());
        }
    }
}

proof fn lemma_ins_pos(keys: Seq<Seq<char>>, k: Seq<char>)
    ensures
        ins_pos(keys, k) <= keys.len(),
        forall|j: int| 0 <= j < ins_pos(keys, k) ==> lex_lt(keys[j], k),
        ins_pos(keys, k) < keys.len() ==> !lex_lt(keys[ins_pos(keys, k) as int], k),
    decreases keys.len(),
{
    if keys.len() > 0 && lex_lt(keys[0], k) {
        lemma_ins_pos(keys.drop_first(), k);
        assert forall|j: int| 0 <= j < ins_pos(keys, k) implies lex_lt(keys[j], k) by {
            if j > 0 {
                assert(keys[j] == keys.drop_first()[j - 1]);
            }
        }
    }
}

proof fn lemma_set_insert(t: Seq<Seq<char>>, x: Seq<char>)
    requires
        sorted_strict(t),
    ensures
        sorted_strict(set_insert(t, x)),
        forall|y: Seq<char>| set_insert(t, x).contains(y) <==> (t.contains(y) || y == x),
{
    lemma_ins_pos(t, x);
    let p = ins_pos(t, x) as int;
    if p < t.len() && t[p] == x {
        assert forall|y: Seq<char>| set_insert(t, x).contains(y) <==> (t.contains(y) || y == x) by {
            if y == x {
                assert(t[p] == y);
            }
        }
    } else {
        let r = t.insert(p, x);
        assert forall|i: int, j: int| 0 <= i < j < r.len() implies lex_lt(r[i], r[j]) by {
            if j < p {
            } else if j == p {
                assert(r[j] == x && r[i] == t[i]);
            } else if i < p {
                assert(r[i] == t[i] && r[j] == t[j - 1]);
            } else if i == p {
                assert(r[i] == x && r[j] == t[j - 1]);
                lemma_lex_total(t[p], x);
                if j - 1 > p {
                    lemma_lex_transitive(x, t[p], t[j - 1]);
                }
            } else {
                assert(r[i] == t[i - 1] && r[j] == t[j - 1]);
            }
        }
        assert forall|y: Seq<char>| r.contains(y) <==> (t.contains(y) || y == x) by {
            if r.contains(y) {
                let k = choose|k: int| 0 <= k < r.len() && r[k] == y;
                if k < p {
                    assert(t[k] == y);
                } else if k > p {
                    assert(t[k - 1] == y);
                }
            }
            if t.contains(y) {
                let k = choose|k: int| 0 <= k < t.len() && t[k] == y;
                if k < p {
                    assert(r[k] == y);
                } else {
                    assert(r[k + 1] == y);
                }
            }
            if y == x {
                assert(r[p] == y);
            }
        }
    }
}

/// Sorting and deduplicating texts gives a strictly increasing sequence
/// holding exactly the texts given.
pub proof fn law_sort_dedup(s: Seq<Seq<char>>)
    ensures
        sorted_strict(sort_dedup(s)),
        forall|y: Seq<char>| sort_dedup(s).contains(y) <==> s.contains(y),
    decreases s.len(),
{
    if s.len() > 0 {
        law_sort_dedup(s.drop_last());
        lemma_set_insert(sort_dedup(s.drop_last()), s.last());
        assert forall|y: Seq<char>| sort_dedup(s).contains(y) <==> s.contains(y) by {
            if s.drop_last().contains(y) {
                let k = choose|k: int| 0 <= k < s.drop_last().len() && s.drop_last()[k] == y;
                assert(s[k] == y);
            }
            if s.contains(y) {
                let k = choose|k: int| 0 <= k < s.len() && s[k] == y;
                if k < s.len() - 1 {
                    assert(s.drop_last()[k] == y);
                }
            }
        }
    } else {
        assert(sort_dedup(s) =~= seq![]);
    }
}

proof fn lemma_without_off(s: Seq<Seq<char>>)
    requires
        sorted_strict(s),
    ensures
        sorted_strict(without_off(s)),
        forall|y: Seq<char>| #[trigger] without_off(s).contains(y) ==> s.contains(y),
    decreases s.len(),
{
    if s.len() > 0 {
        let s0 = s.drop_last();
        assert(sorted_strict(s0));
        lemma_without_off(s0);
        let w0 = without_off(s0);
        let w = without_off(s);
        let tail: Seq<Seq<char>> = if s.last() == off_state() {
            seq![]
        } else {
            seq![s.last()]
        };
        assert(w == w0 + tail);
        assert forall|y: Seq<char>| w.contains(y) implies s.contains(y) by {
            let k = choose|k: int| 0 <= k < w.len() && w[k] == y;
            if k < w0.len() {
                assert(w0[k] == y);
                assert(w0.contains(y));
                let m = choose|m: int| 0 <= m < s0.len() && s0[m] == y;
                assert(s[m] == y);
            } else {
                assert(tail[k - w0.len()] == y);
                assert(y == s.last());
                assert(s[s.len() - 1] == y);
            }
        }
        assert forall|i: int, j: int| 0 <= i < j < w.len() implies lex_lt(w[i], w[j]) by {
            if j < w0.len() {
                assert(w[i] == w0[i] && w[j] == w0[j]);
            } else {
                assert(w[i] == w0[i]);
                assert(w0.contains(w0[i]));
                let m = choose|m: int| 0 <= m < s0.len() && s0[m] == w0[i];
                assert(tail[j - w0.len()] == s.last());
                assert(w[j] == s.last());
                assert(s[m] == s0[m]);
                assert(lex_lt(s[m], s[s.len() - 1]));
            }
        }
    }
}

/// The appearance states found for a button are sorted, each once.
pub proof fn law_button_states_sorted(doc: SDoc, d: SDict)
    ensures
        spec_button_states(doc, d) matches Some(s) ==> sorted_strict(s),
{
    match ap_states(doc, d) {
        Some(_) => {
            let ap = deref_dict(doc, sd_get(d, k_ap())->0)->Ok_0;
            let nd = deref_dict(doc, sd_get(ap, k_n())->0)->Ok_0;
            let names = key_names(nd);
            let with_off = if names.contains(off_state()) {
                names
            } else {
                names.push(off_state())
            };
            law_sort_dedup(with_off);
        },
        None => {
            if has_kids_array(doc, d) {
                let all = sort_dedup(
                    kid_states(doc, kid_objects(doc, d), (DEPTH_BOUND as nat - 1) as nat),
                );
                law_sort_dedup(kid_states(doc, kid_objects(doc, d), (DEPTH_BOUND as nat - 1) as nat));
                lemma_without_off(all);
            }
        },
    }
}


// ---------------------------------------------------------------------------
// Names of flattened appearances
// ---------------------------------------------------------------------------
proof fn lemma_decimal_digits(n: nat)
    ensures
        decimal(n).len() >= 1,
        forall|i: int| 0 <= i < decimal(n).len() ==> decimal(n)[i] != '_',
    decreases n,
{
    if n >= 10 {
        lemma_decimal_digits(n / 10);
        assert forall|i: int| 0 <= i < decimal(n).len() implies decimal(n)[i] != '_' by {
            if i < decimal(n / 10).len() {
                assert(decimal(n)[i] == decimal(n / 10)[i]);
            } else {
                assert(decimal(n)[i] == digit_char(n % 10));
                assert(digit_char(n % 10) as u32 == 48 + n % 10);
            }
        }
    } else {
        assert(decimal(n)[0] == digit_char(n));
        assert(digit_char(n) as u32 == 48 + n);
    }
}

proof fn lemma_digit_char_injective(a: nat, b: nat)
    requires
        a < 10,
        b < 10,
        digit_char(a) == digit_char(b),
    ensures
        a == b,
{
    assert(digit_char(a) as u32 == 48 + a);
    assert(digit_char(b) as u32 == 48 + b);
}

proof fn lemma_decimal_injective(a: nat, b: nat)
    requires
        decimal(a) == decimal(b),
    ensures
        a == b,
    decreases a,
{
    if a < 10 && b < 10 {
        assert(decimal(a)[0] == digit_char(a));
        assert(decimal(b)[0] == digit_char(b));
        lemma_digit_char_injective(a, b);
    } else if a < 10 {
        lemma_decimal_digits(b / 10);
        assert(decimal(b).len() >= 2);
    } else if b < 10 {
        lemma_decimal_digits(a / 10);
        assert(decimal(a).len() >= 2);
    } else {
        assert(decimal(a / 10) =~= decimal(a).drop_last());
        assert(decimal(b / 10) =~= decimal(b).drop_last());
        lemma_decimal_injective(a / 10, b / 10);
        assert(decimal(a).last() == digit_char(a % 10));
        assert(decimal(b).last() == digit_char(b % 10));
        lemma_digit_char_injective(a % 10, b % 10);
    }
}

/// Splitting at the last underscore: a text that ends in an underscore
/// followed by underscore-free text splits there in one way only.
proof fn lemma_split_last_underscore(x1: Seq<char>, d1: Seq<char>, x2: Seq<char>, d2: Seq<char>)
    requires
        x1 + seq!['_'] + d1 == x2 + seq!['_'] + d2,
        forall|i: int| 0 <= i < d1.len() ==> d1[i] != '_',
        forall|i: int| 0 <= i < d2.len() ==> d2[i] != '_',
    ensures
        x1 == x2,
        d1 == d2,
{
    let s = x1 + seq!['_'] + d1;
    let t = x2 + seq!['_'] + d2;
    if d1.len() < d2.len() {
        let p = s.len() - d1.len() - 1;
        assert(s[p] == '_');
        assert(t[p] == d2[p - x2.len() - 1]);
    } else if d2.len() < d1.len() {
        let p = t.len() - d2.len() - 1;
        assert(t[p] == '_');
        assert(s[p] == d1[p - x1.len() - 1]);
    }
    assert(d1 =~= s.skip(s.len() - d1.len()));
    assert(d2 =~= t.skip(t.len() - d2.len()));
    assert(x1 =~= s.take(x1.len() as int));
    assert(x2 =~= t.take(x2.len() as int));
}

/// The name under which a widget's appearance is drawn on a page
/// determines the page and the widget: two widgets with different ids are
/// never drawn under one name, whatever their fields are called.
pub proof fn law_flatten_names_distinct(
    n1: Seq<char>,
    p1: ObjectId,
    a1: ObjectId,
    n2: Seq<char>,
    p2: ObjectId,
    a2: ObjectId,
)
    requires
        xobject_name(n1, p1, Some(a1)) == xobject_name(n2, p2, Some(a2)),
    ensures
        a1 == a2,
        p1 == p2,
        dots_to_underscores(n1) == dots_to_underscores(n2),
{
    reveal_strlit("_");
    reveal_strlit("Fm_");
    let u = seq!['_'];
    assert("_"@ =~= u);
    let x1 = "Fm_"@ + dots_to_underscores(n1);
    let x2 = "Fm_"@ + dots_to_underscores(n2);
    let e1 = decimal(p1.0 as nat);
    let e2 = decimal(p2.0 as nat);
    let f1 = decimal(p1.1 as nat);
    let f2 = decimal(p2.1 as nat);
    let g1 = decimal(a1.0 as nat);
    let g2 = decimal(a2.0 as nat);
    let h1 = decimal(a1.1 as nat);
    let h2 = decimal(a2.1 as nat);
    lemma_decimal_digits(p1.0 as nat);
    lemma_decimal_digits(p2.0 as nat);
    lemma_decimal_digits(p1.1 as nat);
    lemma_decimal_digits(p2.1 as nat);
    lemma_decimal_digits(a1.0 as nat);
    lemma_decimal_digits(a2.0 as nat);
    lemma_decimal_digits(a1.1 as nat);
    lemma_decimal_digits(a2.1 as nat);
    assert(xobject_name(n1, p1, Some(a1)) =~= x1 + u + e1 + u + f1 + u + g1 + u + h1);
    assert(xobject_name(n2, p2, Some(a2)) =~= x2 + u + e2 + u + f2 + u + g2 + u + h2);
    lemma_split_last_underscore(x1 + u + e1 + u + f1 + u + g1, h1, x2 + u + e2 + u + f2 + u + g2, h2);
    lemma_split_last_underscore(x1 + u + e1 + u + f1, g1, x2 + u + e2 + u + f2, g2);
    lemma_split_last_underscore(x1 + u + e1, f1, x2 + u + e2, f2);
    lemma_split_last_underscore(x1, e1, x2, e2);
    lemma_decimal_injective(a1.0 as nat, a2.0 as nat);
    lemma_decimal_injective(a1.1 as nat, a2.1 as nat);
    lemma_decimal_injective(p1.0 as nat, p2.0 as nat);
    lemma_decimal_injective(p1.1 as nat, p2.1 as nat);
    assert(dots_to_underscores(n1) =~= x1.skip(3));
    assert(dots_to_underscores(n2) =~= x2.skip(3));
}


// ---------------------------------------------------------------------------
// Reattaching widgets
// ---------------------------------------------------------------------------
/// From `before` to `after`, a reattachment only appended fields: the ids
/// it added to the field tree follow the ids known before, the top-level
/// fields gained exactly one reference to each of them, in order, no id was
/// added twice, and none was in the field tree before.
pub open spec fn attached_once(before: RState, after: RState) -> bool {
    let added = after.existing.skip(before.existing.len() as int);
    &&& before.existing.len() <= after.existing.len()
    &&& after.existing.take(before.existing.len() as int) == before.existing
    &&& after.fields == before.fields + added.map_values(|id: ObjectId| SObj::Reference(id))
    &&& forall|i: int, j: int| 0 <= i < j < added.len() ==> added[i] != added[j]
    &&& forall|i: int| 0 <= i < added.len() ==> !before.existing.contains(added[i])
}

proof fn lemma_attached_once_refl(st: RState)
    ensures
        attached_once(st, st),
{
    assert(st.existing.skip(st.existing.len() as int) =~= Seq::<ObjectId>::empty());
    assert(st.existing.take(st.existing.len() as int) =~= st.existing);
    assert(st.fields + Seq::<ObjectId>::empty().map_values(|id: ObjectId| SObj::Reference(id))
        =~= st.fields);
}

proof fn lemma_attached_once_push(st0: RState, st: RState, st1: RState, id: ObjectId)
    requires
        attached_once(st0, st),
        !st.existing.contains(id),
        st1.existing == st.existing.push(id),
        st1.fields == st.fields.push(SObj::Reference(id)),
    ensures
        attached_once(st0, st1),
{
    let n = st0.existing.len() as int;
    let added = st.existing.skip(n);
    let added1 = st1.existing.skip(n);
    assert(added1 =~= added.push(id));
    assert(st1.existing.take(n) =~= st.existing.take(n));
    assert(added1.map_values(|x: ObjectId| SObj::Reference(x)) =~= added.map_values(
        |x: ObjectId| SObj::Reference(x),
    ).push(SObj::Reference(id)));
    assert(st1.fields =~= st0.fields + added1.map_values(|x: ObjectId| SObj::Reference(x)));
    assert forall|i: int| 0 <= i < added.len() implies added[i] != id by {
        assert(st.existing[n + i] == added[i]);
    }
    assert(!st0.existing.contains(id)) by {
        if st0.existing.contains(id) {
            let k = choose|k: int| 0 <= k < st0.existing.len() && st0.existing[k] == id;
            assert(st.existing.take(n)[k] == id);
        }
    }
}

proof fn lemma_attached_once_widget(st0: RState, st: RState, id: ObjectId, d: SDict)
    requires
        attached_once(st0, st),
    ensures
        attached_once(st0, reattach_widget(st, id, d).0),
{
    let st1 = reattach_widget(st, id, d).0;
    assert(st1 == st || (!st.existing.contains(id) && st1.existing == st.existing.push(id)
        && st1.fields == st.fields.push(SObj::Reference(id)))) by {
        reveal(reattach_widget);
    }
    if st1 != st {
        lemma_attached_once_push(st0, st, st1, id);
    }
}

proof fn lemma_attached_once_annot(st0: RState, ps: PState, a: SObj)
    requires
        attached_once(st0, ps.r),
    ensures
        attached_once(st0, reattach_annot(ps, a).0.r),
{
    reveal(reattach_annot);
    match a {
        SObj::Reference(id) => match sdoc_get_dict(ps.r.doc, id) {
            Err(e) => {},
            Ok(d) => {
                lemma_attached_once_widget(st0, ps.r, id, d);
            },
        },
        SObj::Dictionary(d) => {
            let (d1, ar) = spec_add(ps.r.doc, SObj::Dictionary(d));
            let r0 = RState { doc: d1, ..ps.r };
            match ar {
                Err(e) => {},
                Ok(id) => {
                    lemma_attached_once_widget(st0, r0, id, d);
                },
            }
        },
        _ => {},
    }
}

proof fn lemma_attached_once_annots(st0: RState, ps: PState, annots: Seq<SObj>, k: nat)
    requires
        attached_once(st0, ps.r),
    ensures
        attached_once(st0, reattach_annots(ps, annots, k).0.r),
    decreases k,
{
    reveal(reattach_annots);
    if k > 0 {
        lemma_attached_once_annots(st0, ps, annots, (k - 1) as nat);
        let (p1, r1) = reattach_annots(ps, annots, (k - 1) as nat);
        if r1 is Ok {
            lemma_attached_once_annot(st0, p1, annots[k - 1]);
        }
    }
}

proof fn lemma_attached_once_page(st0: RState, st: RState, page_id: ObjectId)
    requires
        attached_once(st0, st),
    ensures
        attached_once(st0, reattach_page(st, page_id).0),
{
    reveal(reattach_page);
    match spec_page_annots(st.doc, page_id) {
        Err(e) => {},
        Ok(annots) => if annots.len() > 0 {
            let ps = PState { r: st, rewritten: seq![], changed: false };
            lemma_attached_once_annots(st0, ps, annots, annots.len());
        },
    }
}

proof fn lemma_attached_once_pages(st0: RState, st: RState, pages: Seq<ObjectId>, k: nat)
    requires
        attached_once(st0, st),
    ensures
        attached_once(st0, reattach_pages(st, pages, k).0),
    decreases k,
{
    reveal(reattach_pages);
    if k > 0 {
        lemma_attached_once_pages(st0, st, pages, (k - 1) as nat);
        let (s1, r1) = reattach_pages(st, pages, (k - 1) as nat);
        if r1 is Ok {
            lemma_attached_once_page(st0, s1, pages[k - 1]);
        }
    }
}

/// Reattaching widgets over pages adds each widget to the top-level fields
/// at most once, and never one that was already in the field tree (a
/// top-level field or one of its descendants): the fields only grow by
/// references to new ids, each once.
pub proof fn law_reattach_attaches_once(st: RState, pages: Seq<ObjectId>)
    ensures
        attached_once(st, reattach_pages(st, pages, pages.len()).0),
{
    lemma_attached_once_refl(st);
    lemma_attached_once_pages(st, st, pages, pages.len());
}


// ---------------------------------------------------------------------------
// Button fields filled through several widgets
// ---------------------------------------------------------------------------
/// Filling a button field through any one of its widgets gives the field
/// the same dictionary (and so the same value): the state the field stores
/// is resolved among the field's own states, whichever widget is filled,
/// and in whatever order a radio group's widgets come.
pub proof fn law_button_field_value_independent_of_widget<
    F: Fn(TextRequest) -> TextLayout,
    G: Fn(i64) -> String,
>(
    doc: SDoc,
    w1: WidgetCtx,
    w2: WidgetCtx,
    pd: SDict,
    ad1: SDict,
    ad2: SDict,
    name: Seq<char>,
    input: SInput,
    lay: F,
    g: G,
)
    requires
        inherited_name(doc, pd, k_ft()) == Some(w_btn()),
    ensures
        spec_fill_one(doc, w1, pd, ad1, name, input, lay, g).1 == spec_fill_one(
            doc,
            w2,
            pd,
            ad2,
            name,
            input,
            lay,
            g,
        ).1,
{
    reveal(spec_fill_one);
}


// ---------------------------------------------------------------------------
// The field map
// ---------------------------------------------------------------------------
/// A field map keyed by name: the names increase strictly (so no name
/// occurs twice), and each entry holds a field of that qualified name.
pub open spec fn keyed_by_name(m: Seq<(Seq<char>, SField)>) -> bool {
    &&& sorted_strict(fmap_keys(m))
    &&& forall|i: int| 0 <= i < m.len() ==> m[i].1.qualified_name == m[i].0
}

proof fn lemma_fmap_insert_keyed(m: Seq<(Seq<char>, SField)>, f: SField)
    requires
        keyed_by_name(m),
    ensures
        keyed_by_name(fmap_insert(m, f.qualified_name, f)),
{
    let k = f.qualified_name;
    let keys = fmap_keys(m);
    let p = ins_pos(keys, k) as int;
    let r = fmap_insert(m, k, f);
    lemma_ins_pos(keys, k);
    lemma_set_insert(keys, k);
    if p < m.len() && m[p].0 == k {
        assert(keys[p] == k);
        assert(r == m.update(p, (k, f)));
        assert(fmap_keys(r) =~= set_insert(keys, k));
        assert forall|i: int| 0 <= i < r.len() implies r[i].1.qualified_name == r[i].0 by {
            if i != p {
                assert(r[i] == m[i]);
            }
        }
    } else {
        if p < m.len() {
            assert(keys[p] == m[p].0);
        }
        assert(r == m.insert(p, (k, f)));
        assert(set_insert(keys, k) == keys.insert(p, k));
        assert forall|i: int| 0 <= i < r.len() implies fmap_keys(r)[i] == set_insert(keys, k)[i] by {
            if i < p {
                assert(r[i] == m[i]);
            } else if i > p {
                assert(r[i] == m[i - 1]);
            }
        }
        assert(fmap_keys(r) =~= set_insert(keys, k));
        assert forall|i: int| 0 <= i < r.len() implies r[i].1.qualified_name == r[i].0 by {
            if i < p {
                assert(r[i] == m[i]);
            } else if i > p {
                assert(r[i] == m[i - 1]);
            }
        }
    }
}

/// What a field object adds to the map before its kids are visited.
spec fn collect_added(doc: SDoc, id: Option<ObjectId>, d: SDict, out: Seq<(Seq<char>, SField)>) -> Result<
    Seq<(Seq<char>, SField)>,
    SErr,
> {
    if sd_has(d, k_t()) || sd_has(d, k_tm()) {
        match spec_build_field(doc, id, d) {
            Ok(f) => Ok(fmap_insert(out, f.qualified_name, f)),
            Err(e) => Err(e),
        }
    } else {
        Ok(out)
    }
}

proof fn lemma_collect_unfold(doc: SDoc, obj: SObj, st: CollectState, fuel: nat)
    ensures
        collect(doc, obj, st, fuel) == ({
            let (out, visited) = st;
            let id = obj_ref(obj);
            if id is Some && visited.contains(id->0) {
                Ok(st)
            } else {
                let visited1 = if id is Some {
                    visited.push(id->0)
                } else {
                    visited
                };
                match deref_dict(doc, obj) {
                    Err(e) => Err(e),
                    Ok(d) => match collect_added(doc, id, d, out) {
                        Err(e) => Err(e),
                        Ok(out1) => if fuel == 0 {
                            Ok((out1, visited1))
                        } else {
                            collect_list(doc, kid_objects(doc, d), (out1, visited1), (fuel - 1) as nat)
                        },
                    },
                }
            }
        }),
{
    reveal(collect);
    reveal(collect_list);
}

proof fn lemma_collect_keyed(doc: SDoc, obj: SObj, st: CollectState, fuel: nat)
    requires
        keyed_by_name(st.0),
    ensures
        collect(doc, obj, st, fuel) matches Ok(st1) ==> keyed_by_name(st1.0),
    decreases fuel, 0nat,
{
    lemma_collect_unfold(doc, obj, st, fuel);
    let (out, visited) = st;
    let id = obj_ref(obj);
    if !(id is Some && visited.contains(id->0)) {
        let visited1 = if id is Some {
            visited.push(id->0)
        } else {
            visited
        };
        match deref_dict(doc, obj) {
            Err(e) => {},
            Ok(d) => {
                if sd_has(d, k_t()) || sd_has(d, k_tm()) {
                    match spec_build_field(doc, id, d) {
                        Ok(f) => {
                            lemma_fmap_insert_keyed(out, f);
                        },
                        Err(e) => {},
                    }
                }
                match collect_added(doc, id, d, out) {
                    Err(e) => {},
                    Ok(out1) => if fuel > 0 {
                        lemma_collect_list_keyed(
                            doc,
                            kid_objects(doc, d),
                            (out1, visited1),
                            (fuel - 1) as nat,
                        );
                    },
                }
            },
        }
    }
}

proof fn lemma_collect_list_keyed(doc: SDoc, objs: Seq<SObj>, st: CollectState, fuel: nat)
    requires
        keyed_by_name(st.0),
    ensures
        collect_list(doc, objs, st, fuel) matches Ok(st1) ==> keyed_by_name(st1.0),
    decreases fuel, objs.len() + 1,
{
    if objs.len() == 0 {
        assert(collect_list(doc, objs, st, fuel) == Ok::<CollectState, SErr>(st)) by {
            reveal(collect);
            reveal(collect_list);
        }
    } else {
        assert(collect_list(doc, objs, st, fuel) == match collect_list(doc, objs.drop_last(), st, fuel) {
            Ok(st1) => collect(doc, objs.last(), st1, fuel),
            Err(e) => Err(e),
        }) by {
            reveal(collect);
            reveal(collect_list);
        }
        lemma_collect_list_keyed(doc, objs.drop_last(), st, fuel);
        match collect_list(doc, objs.drop_last(), st, fuel) {
            Ok(st1) => {
                lemma_collect_keyed(doc, objs.last(), st1, fuel);
            },
            Err(e) => {},
        }
    }
}

/// The fields a document's form lists are keyed by qualified name: each
/// name occurs once, the names come in increasing order, and each maps to
/// the field of that name.
pub proof fn law_fields_keyed_by_name(doc: SDoc)
    ensures
        spec_get_fields(doc) matches Ok(Some(m)) ==> keyed_by_name(m),
{
    match spec_acroform_fields(doc) {
        Ok(Some(fs)) => {
            assert(keyed_by_name(Seq::<(Seq<char>, SField)>::empty())) by {
                assert(fmap_keys(Seq::<(Seq<char>, SField)>::empty()) =~= Seq::<Seq<char>>::empty());
            }
            lemma_collect_list_keyed(doc, fs, (seq![], seq![]), DEPTH_BOUND as nat);
        },
        _ => {},
    }
}

proof fn lemma_smap_insert_sorted<V>(m: Seq<(Seq<char>, V)>, k: Seq<char>, v: V)
    requires
        sorted_strict(smap_keys(m)),
    ensures
        sorted_strict(smap_keys(smap_insert(m, k, v))),
{
    let keys = smap_keys(m);
    let p = ins_pos(keys, k) as int;
    let r = smap_insert(m, k, v);
    lemma_ins_pos(keys, k);
    lemma_set_insert(keys, k);
    if p < m.len() && m[p].0 == k {
        assert(keys[p] == k);
        assert(smap_keys(r) =~= set_insert(keys, k));
    } else {
        if p < m.len() {
            assert(keys[p] == m[p].0);
        }
        assert(r == m.insert(p, (k, v)));
        assert(set_insert(keys, k) == keys.insert(p, k));
        assert forall|i: int| 0 <= i < r.len() implies smap_keys(r)[i] == set_insert(keys, k)[i] by {
            if i < p {
                assert(r[i] == m[i]);
            } else if i > p {
                assert(r[i] == m[i - 1]);
            }
        }
        assert(smap_keys(r) =~= set_insert(keys, k));
    }
}

/// The text fields listed by name come in increasing order of their keys,
/// each key once, whether they are keyed by qualified or by partial name.
pub proof fn law_text_fields_sorted(m: Seq<(Seq<char>, SField)>, full: bool)
    ensures
        sorted_strict(smap_keys(text_fields_of(m, full))),
    decreases m.len(),
{
    if m.len() == 0 {
        assert(smap_keys(text_fields_of(m, full)) =~= Seq::<Seq<char>>::empty());
    } else {
        law_text_fields_sorted(m.drop_last(), full);
        let acc = text_fields_of(m.drop_last(), full);
        let (qn, f) = m.last();
        if f.field_type == Some(w_tx()) {
            let base = match f.partial_name {
                Some(p) => p,
                None => qn,
            };
            let key = if full {
                qn
            } else {
                spec_indexed_key(base, smap_keys(acc))
            };
            lemma_smap_insert_sorted(acc, key, value_text(f.value));
        }
    }
}

// ---------------------------------------------------------------------------
// Filling a text or choice field
// ---------------------------------------------------------------------------
proof fn lemma_inherited_after_remove(doc: SDoc, d: SDict, k: Seq<u8>, kr: Seq<u8>)
    requires
        keys_unique(d),
        kr != k,
        kr != k_parent(),
    ensures
        spec_inherited(doc, sd_remove(d, kr), k) == spec_inherited(doc, d, k),
{
    law_dict_remove(d, kr, k);
    law_dict_remove(d, kr, k_parent());
}

/// A widget step that writes an input (other than "keep the current
/// value") into a text or choice field leaves the field dictionary holding,
/// under `/V`, a value that reads back as the text written (a list as the
/// list written), whichever widget is filled.
pub proof fn law_fill_step_field_reads_back<F: Fn(TextRequest) -> TextLayout, G: Fn(i64) -> String>(
    doc: SDoc,
    w: WidgetCtx,
    pd: SDict,
    ad: SDict,
    name: Seq<char>,
    input: SInput,
    lay: F,
    g: G,
)
    requires
        keys_unique(pd),
        inherited_name(doc, pd, k_ft()) == Some(w_tx()) || inherited_name(doc, pd, k_ft()) == Some(
            w_ch(),
        ),
        !(input is KeepCurrent),
    ensures
        !(input is TextList) ==> opt_value(
            sd_get(spec_fill_one(doc, w, pd, ad, name, input, lay, g).1, k_v()),
        ) == Some(SValue::Text(primary(input))),
        input matches SInput::TextList(l) ==> opt_value(
            sd_get(spec_fill_one(doc, w, pd, ad, name, input, lay, g).1, k_v()),
        ) == Some(SValue::List(l)),
{
    reveal(spec_fill_one);
    let remove_i = inherited_name(doc, pd, k_ft()) == Some(w_ch()) && sd_has(pd, k_i());
    let pd1 = if remove_i {
        sd_remove(pd, k_i())
    } else {
        pd
    };
    assert(k_i() != k_ft()) by {
        assert(k_i().len() != k_ft().len());
    }
    assert(k_i() != k_parent()) by {
        assert(k_i().len() != k_parent().len());
    }
    lemma_inherited_after_remove(doc, pd, k_ft(), k_i());
    law_dict_remove(pd, k_i(), k_v());
    assert(keys_unique(pd1));
    assert(inherited_name(doc, pd1, k_ft()) == inherited_name(doc, pd, k_ft()));
    let ft = inherited_name(doc, pd, k_ft())->0;
    law_stored_value_reads_back(ft, input);
    law_dict_set_get(pd1, k_v(), stored_value(ft, input)->0, k_v());
}

/// Filling with `KeepCurrent` changes no stored value: the field
/// dictionary keeps its `/V` (present or absent), and so does a button's
/// widget, which only shows (`/AS`) the state of the current value.
pub proof fn law_keep_current_keeps_values<F: Fn(TextRequest) -> TextLayout, G: Fn(i64) -> String>(
    doc: SDoc,
    w: WidgetCtx,
    pd: SDict,
    ad: SDict,
    name: Seq<char>,
    lay: F,
    g: G,
)
    requires
        keys_unique(pd),
        keys_unique(ad),
    ensures
        sd_get(spec_fill_one(doc, w, pd, ad, name, SInput::KeepCurrent, lay, g).1, k_v()) == sd_get(
            pd,
            k_v(),
        ),
        inherited_name(doc, pd, k_ft()) == Some(w_btn()) ==> sd_get(
            spec_fill_one(doc, w, pd, ad, name, SInput::KeepCurrent, lay, g).2,
            k_v(),
        ) == sd_get(ad, k_v()),
{
    assert(k_i() != k_v()) by {
        assert(k_i() =~= seq![73u8]);
        assert(k_v() =~= seq![86u8]);
        assert(k_i()[0] != k_v()[0]);
    }
    assert(k_i() != k_ft()) by {
        assert(k_i().len() != k_ft().len());
    }
    assert(k_i() != k_parent()) by {
        assert(k_i().len() != k_parent().len());
    }
    assert(k_ff() != k_v()) by {
        assert(k_ff().len() != k_v().len());
    }
    assert(k_as() != k_v()) by {
        assert(k_as().len() != k_v().len());
    }
    let remove_i = inherited_name(doc, pd, k_ft()) == Some(w_ch()) && sd_has(pd, k_i());
    let pd1 = if remove_i {
        sd_remove(pd, k_i())
    } else {
        pd
    };
    let ad2 = if w.flags != 0 {
        sd_set(ad, k_ff(), SObj::Integer(w.flags as i64))
    } else {
        ad
    };
    law_dict_remove(pd, k_i(), k_v());
    lemma_inherited_after_remove(doc, pd, k_ft(), k_i());
    lemma_inherited_after_remove(doc, pd, k_v(), k_i());
    law_dict_set_get(ad, k_ff(), SObj::Integer(w.flags as i64), k_v());
    assert(sd_get(pd1, k_v()) == sd_get(pd, k_v()));
    assert(keys_unique(ad2));
    assert(sd_get(ad2, k_v()) == sd_get(ad, k_v()));
    assert(spec_fill_one(doc, w, pd, ad, name, SInput::KeepCurrent, lay, g).1 == pd1) by {
        reveal(spec_fill_one);
    }
    if inherited_name(doc, pd, k_ft()) == Some(w_btn()) {
        assert(inherited_name(doc, pd1, k_ft()) == Some(w_btn()));
        let eff = materialized(
            SInput::KeepCurrent,
            value_text(opt_value(spec_inherited(doc, pd1, k_v()))),
        );
        let state = spec_choose_state(doc, ad2, primary(eff));
        let nm = SObj::Name(vstd::utf8::encode_utf8(strip_slashes(state)));
        law_dict_set_get(ad2, k_as(), nm, k_v());
        assert(spec_fill_one(doc, w, pd, ad, name, SInput::KeepCurrent, lay, g).2 == sd_set(
            ad2,
            k_as(),
            nm,
        )) by {
            reveal(spec_fill_one);
        }
    }
}

// ---------------------------------------------------------------------------
// Merging documents
// ---------------------------------------------------------------------------
/// No id occurs twice in the table.
pub open spec fn ids_unique(t: Seq<(ObjectId, SObj)>) -> bool {
    forall|i: int, j: int| 0 <= i < j < t.len() ==> t[i].0 != t[j].0
}

proof fn lemma_so_set_entries(t: Seq<(ObjectId, SObj)>, id: ObjectId, o: SObj)
    ensures
        ids_unique(t) ==> ids_unique(so_set(t, id, o)),
        forall|k: int|
            0 <= k < so_set(t, id, o).len() ==> so_set(t, id, o)[k] == (id, o) || t.contains(
                so_set(t, id, o)[k],
            ),
{
    lemma_so_index_any(t, id);
    let e = so_set(t, id, o);
    match so_index(t, id) {
        Some(i) => {
            assert forall|k: int| 0 <= k < e.len() && k != i implies t.contains(e[k]) by {
                assert(e[k] == t[k]);
            }
            if ids_unique(t) {
                assert forall|a: int, b: int| 0 <= a < b < e.len() implies e[a].0 != e[b].0 by {
                    if a != i && b != i {
                        assert(e[a] == t[a] && e[b] == t[b]);
                    } else if a == i {
                        assert(e[b] == t[b]);
                    } else {
                        assert(e[a] == t[a]);
                    }
                }
            }
        },
        None => {
            assert forall|k: int| 0 <= k < e.len() && k != t.len() implies t.contains(e[k]) by {
                assert(e[k] == t[k]);
            }
        },
    }
}

proof fn lemma_table_extend_unique(t: Seq<(ObjectId, SObj)>, es: Seq<(ObjectId, SObj)>)
    requires
        ids_unique(t),
    ensures
        ids_unique(table_extend(t, es)),
    decreases es.len(),
{
    if es.len() > 0 {
        lemma_table_extend_unique(t, es.drop_last());
        lemma_so_set_entries(table_extend(t, es.drop_last()), es.last().0, es.last().1);
    }
}

proof fn lemma_combined_unique(parts: Seq<SDoc>)
    ensures
        ids_unique(combined_objects(parts)),
    decreases parts.len(),
{
    if parts.len() > 0 {
        lemma_combined_unique(parts.drop_last());
        lemma_table_extend_unique(combined_objects(parts.drop_last()), parts.last().objects);
    }
}

/// The type of an object is one of those a merge sorts out.
pub open spec fn sorted_out_type(o: SObj) -> bool {
    let t = type_of(o);
    t == n_catalog() || t == n_pages() || t == n_page() || t == n_outlines() || t == n_outline()
}

proof fn lemma_sort_catalog<E: Fn(PdfDict, PdfDict) -> PdfDict>(es: Seq<(ObjectId, SObj)>, ext: E)
    ensures
        sort_objects(es, ext).catalog matches Some(c) ==> exists|i: int|
            0 <= i < es.len() && es[i].0 == c.0 && type_of(es[i].1) == n_catalog(),
        sort_objects(es, ext).catalog is None <==> forall|i: int|
            0 <= i < es.len() ==> type_of(es[i].1) != n_catalog(),
    decreases es.len(),
{
    if es.len() > 0 {
        let p = es.drop_last();
        lemma_sort_catalog(p, ext);
        let a = sort_objects(p, ext);
        let e = es.last();
        let r = sort_objects(es, ext);
        assert(r == sort_step(a, e, ext));
        assert(forall|i: int| 0 <= i < p.len() ==> es[i] == p[i]);
        assert(es[es.len() - 1] == e);
        if type_of(e.1) == n_catalog() {
            if a.catalog is Some {
                let i = choose|i: int| 0 <= i < p.len() && p[i].0 == (a.catalog->0).0 && type_of(p[i].1) == n_catalog();
                assert(es[i] == p[i]);
            }
        } else {
            assert(r.catalog == a.catalog);
            if a.catalog is Some {
                let i = choose|i: int| 0 <= i < p.len() && p[i].0 == (a.catalog->0).0 && type_of(p[i].1) == n_catalog();
                assert(es[i] == p[i]);
            } else {
                assert forall|i: int| 0 <= i < es.len() implies type_of(es[i].1) != n_catalog() by {
                    if i < p.len() {
                        assert(es[i] == p[i]);
                    }
                }
            }
        }
    }
}

proof fn lemma_sort_root<E: Fn(PdfDict, PdfDict) -> PdfDict>(es: Seq<(ObjectId, SObj)>, ext: E)
    ensures
        sort_objects(es, ext).root matches Some(r) ==> exists|i: int|
            0 <= i < es.len() && es[i].0 == r.0 && type_of(es[i].1) == n_pages(),
        sort_objects(es, ext).root is None <==> forall|i: int|
            0 <= i < es.len() ==> !(type_of(es[i].1) == n_pages() && es[i].1 is Dictionary),
    decreases es.len(),
{
    if es.len() > 0 {
        let p = es.drop_last();
        lemma_sort_root(p, ext);
        let a = sort_objects(p, ext);
        let e = es.last();
        let r = sort_objects(es, ext);
        assert(r == sort_step(a, e, ext));
        assert(forall|i: int| 0 <= i < p.len() ==> es[i] == p[i]);
        assert(es[es.len() - 1] == e);
        assert(n_catalog() != n_pages()) by {
            assert(n_catalog().len() != n_pages().len());
        }
        if a.root is Some {
            let i = choose|i: int| 0 <= i < p.len() && p[i].0 == (a.root->0).0 && type_of(p[i].1) == n_pages();
            assert(es[i] == p[i]);
            assert((r.root->0).0 == (a.root->0).0);
        } else if type_of(e.1) == n_pages() && e.1 is Dictionary {
            assert(r.root is Some);
        } else {
            assert(r.root is None);
            assert forall|i: int|
                0 <= i < es.len() implies !(type_of(es[i].1) == n_pages() && es[i].1 is Dictionary) by {
                if i < p.len() {
                    assert(es[i] == p[i]);
                }
            }
        }
    }
}

proof fn lemma_sort_others<E: Fn(PdfDict, PdfDict) -> PdfDict>(es: Seq<(ObjectId, SObj)>, ext: E)
    ensures
        forall|k: int|
            0 <= k < sort_objects(es, ext).others.len() ==> !sorted_out_type(
                #[trigger] sort_objects(es, ext).others[k].1,
            ),
    decreases es.len(),
{
    if es.len() > 0 {
        let p = es.drop_last();
        lemma_sort_others(p, ext);
        let a = sort_objects(p, ext);
        let e = es.last();
        let r = sort_objects(es, ext);
        assert(r == sort_step(a, e, ext));
        if r.others != a.others {
            assert(r.others == so_set(a.others, e.0, e.1));
            assert(!sorted_out_type(e.1));
            lemma_so_set_entries(a.others, e.0, e.1);
            assert forall|k: int| 0 <= k < r.others.len() implies !sorted_out_type(
                #[trigger] r.others[k].1,
            ) by {
                let x = r.others[k];
                if x != (e.0, e.1) {
                    let m = choose|m: int| 0 <= m < a.others.len() && a.others[m] == x;
                    assert(!sorted_out_type(a.others[m].1));
                }
            }
        }
    }
}

proof fn lemma_sd_set_reads(d: SDict, k: Seq<u8>, v: SObj, k2: Seq<u8>)
    ensures
        sd_get(sd_set(d, k, v), k) == Some(v),
        k2 != k ==> sd_get(sd_set(d, k, v), k2) == sd_get(d, k2),
{
    lemma_sd_index_some(d, k);
    lemma_sd_index_some(d, k2);
    let e = sd_set(d, k, v);
    match sd_index(d, k) {
        Some(i) => {
            lemma_sd_index_found(e, k, i);
        },
        None => {
            assert(forall|j: int| 0 <= j < d.len() ==> d[j].0 != k);
            lemma_sd_index_found(e, k, d.len() as int);
        },
    }
    if k2 != k {
        match sd_index(d, k2) {
            Some(j) => {
                lemma_sd_index_found(e, k2, j);
            },
            None => {
                assert(forall|m: int| 0 <= m < d.len() ==> d[m].0 != k2);
                assert(forall|m: int| 0 <= m < e.len() ==> e[m].0 != k2);
            },
        }
    }
}

proof fn lemma_so_lookup_push(s: Seq<(ObjectId, SObj)>, e: (ObjectId, SObj), id: ObjectId)
    ensures
        so_lookup(s.push(e), id) == match so_lookup(s, id) {
            Some(o) => Some(o),
            None => if e.0 == id {
                Some(e.1)
            } else {
                None
            },
        },
{
    let t = s.push(e);
    lemma_so_index_any(s, id);
    match so_index(s, id) {
        Some(i) => {
            lemma_so_index_found(t, id, i);
        },
        None => {
            if e.0 == id {
                lemma_so_index_found(t, id, s.len() as int);
            } else {
                lemma_so_index_any(t, id);
                assert(forall|j: int| 0 <= j < t.len() ==> t[j].0 != id);
            }
        },
    }
}

proof fn lemma_part_pages_unique(t: Seq<(ObjectId, SObj)>, p: SDoc, ids: Seq<ObjectId>)
    requires
        ids_unique(t),
    ensures
        ids_unique(part_page_objects(t, p, ids)),
    decreases ids.len(),
{
    if ids.len() > 0 {
        lemma_part_pages_unique(t, p, ids.drop_last());
        let t1 = part_page_objects(t, p, ids.drop_last());
        match sdoc_get_object(p, ids.last()) {
            Ok(o) => {
                lemma_so_set_entries(t1, ids.last(), o);
            },
            Err(_) => {},
        }
    }
}

proof fn lemma_page_objects_unique(parts: Seq<SDoc>)
    ensures
        ids_unique(page_objects(parts)),
    decreases parts.len(),
{
    if parts.len() > 0 {
        lemma_page_objects_unique(parts.drop_last());
        lemma_part_pages_unique(page_objects(parts.drop_last()), parts.last(), parts.last().pages);
    }
}

/// The page dictionary `d` with the root as its parent.
pub open spec fn parented(d: SDict, root: ObjectId) -> SObj {
    SObj::Dictionary(sd_set(d, k_parent(), SObj::Reference(root)))
}

proof fn lemma_with_parents_lookup(
    t: Seq<(ObjectId, SObj)>,
    ps: Seq<(ObjectId, SObj)>,
    root: ObjectId,
    id: ObjectId,
)
    requires
        ids_unique(ps),
    ensures
        so_lookup(with_parents(t, ps, root), id) == match so_lookup(ps, id) {
            Some(SObj::Dictionary(d)) => Some(parented(d, root)),
            _ => so_lookup(t, id),
        },
    decreases ps.len(),
{
    if ps.len() == 0 {
        lemma_so_index_any(ps, id);
    } else {
        let q = ps.drop_last();
        let e = ps.last();
        assert(ids_unique(q));
        lemma_with_parents_lookup(t, q, root, id);
        assert(q.push(e) =~= ps);
        lemma_so_lookup_push(q, e, id);
        let t1 = with_parents(t, q, root);
        if e.0 == id {
            lemma_so_index_any(q, id);
            assert(so_lookup(q, id) is None) by {
                if so_index(q, id) is Some {
                    let i = so_index(q, id)->0;
                    assert(ps[i].0 == ps[ps.len() - 1].0);
                }
            }
        }
        match e.1 {
            SObj::Dictionary(d) => {
                law_table_set_lookup(t1, e.0, parented(d, root), id);
            },
            _ => {},
        }
    }
}

/// What a merge sorts out of the parts' combined objects.
pub open spec fn merge_sorted<E: Fn(PdfDict, PdfDict) -> PdfDict>(parts: Seq<SDoc>, ext: E) -> MergeSort {
    sort_objects(combined_objects(parts), ext)
}

/// Merging refuses exactly as documented: with no parts; with no
/// page-tree root dictionary among the parts' objects; with no catalog. A
/// merged document's pages are the parts' pages in order; its trailer
/// refers to the catalog; its page-tree root lists every page in `/Kids`,
/// in order, and counts them in `/Count`; its catalog (when it is a
/// dictionary with each key once) refers to the root in `/Pages` and has no
/// `/Outlines`; every page dictionary of the parts (other than the root
/// and the catalog themselves) has the root as its `/Parent`; and none of
/// the objects kept as they are is a page, a page tree root, a catalog, or
/// an outline.
#[verifier::rlimit(40)]
pub proof fn law_merge_page_tree<E: Fn(PdfDict, PdfDict) -> PdfDict>(parts: Seq<SDoc>, ext: E)
    ensures
        parts.len() == 0 ==> spec_merge_parts(parts, ext) == Err::<SDoc, SErr>(
            SErr::Message("no documents to merge"@),
        ),
        parts.len() > 0 && (forall|i: int|
            0 <= i < combined_objects(parts).len() ==> !(type_of(combined_objects(parts)[i].1)
                == n_pages() && combined_objects(parts)[i].1 is Dictionary)) ==> spec_merge_parts(
            parts,
            ext,
        ) == Err::<SDoc, SErr>(SErr::Message("no Pages object found"@)),
        parts.len() > 0 && merge_sorted(parts, ext).root is Some && (forall|i: int|
            0 <= i < combined_objects(parts).len() ==> type_of(combined_objects(parts)[i].1)
                != n_catalog()) ==> spec_merge_parts(parts, ext) == Err::<SDoc, SErr>(
            SErr::Message("no Catalog object found"@),
        ),
        spec_merge_parts(parts, ext) matches Ok(d) ==> {
            let s = merge_sorted(parts, ext);
            let rid = (s.root->0).0;
            let cid = (s.catalog->0).0;
            &&& s.root is Some && s.catalog is Some
            &&& d.pages == all_pages(parts)
            &&& d.trailer == seq![(k_root(), SObj::Reference(cid))]
            &&& rid != cid
            &&& so_lookup(d.objects, rid) matches Some(SObj::Dictionary(r)) && sd_get(r, k_kids())
                == Some(SObj::Array(refs(d.pages))) && sd_get(r, n_count()) == Some(
                SObj::Integer((d.pages.len() as u32) as i64),
            )
            &&& (s.catalog->0).1 matches SObj::Dictionary(cd) ==> keys_unique(cd) ==> (so_lookup(
                d.objects,
                cid,
            ) matches Some(SObj::Dictionary(c)) && sd_get(c, n_pages()) == Some(
                SObj::Reference(rid),
            ) && !sd_has(c, n_outlines()))
            &&& forall|k: int| 0 <= k < s.others.len() ==> !sorted_out_type(#[trigger] s.others[k].1)
            &&& forall|p: ObjectId|
                p != rid && p != cid ==> (#[trigger] so_lookup(page_objects(parts), p) matches Some(
                    SObj::Dictionary(pd),
                ) ==> so_lookup(d.objects, p) == Some(parented(pd, rid)))
        },
{
    if parts.len() > 0 {
        let es = combined_objects(parts);
        let s = merge_sorted(parts, ext);
        lemma_sort_catalog(es, ext);
        lemma_sort_root(es, ext);
        lemma_sort_others(es, ext);
        lemma_combined_unique(parts);
        if let (Some((rid, rd)), Some((cid, co))) = (s.root, s.catalog) {
            let i = choose|i: int| 0 <= i < es.len() && es[i].0 == rid && type_of(es[i].1) == n_pages();
            let j = choose|j: int| 0 <= j < es.len() && es[j].0 == cid && type_of(es[j].1) == n_catalog();
            assert(n_catalog() != n_pages()) by {
                assert(n_catalog().len() != n_pages().len());
            }
            assert(rid != cid) by {
                if rid == cid {
                    if i < j {
                        assert(es[i].0 != es[j].0);
                    } else if j < i {
                        assert(es[j].0 != es[i].0);
                    }
                }
            }
            let pages = all_pages(parts);
            let t1 = with_parents(s.others, page_objects(parts), rid);
            let rdd = root_dict(rd, pages);
            let t2 = so_set(t1, rid, SObj::Dictionary(rdd));
            law_table_set_lookup(t1, rid, SObj::Dictionary(rdd), rid);
            lemma_page_objects_unique(parts);
            assert forall|p: ObjectId| p != rid && p != cid implies (#[trigger] so_lookup(
                page_objects(parts),
                p,
            ) matches Some(SObj::Dictionary(pd)) ==> so_lookup(
                spec_merge_parts(parts, ext)->Ok_0.objects,
                p,
            ) == Some(parented(pd, rid))) by {
                lemma_with_parents_lookup(s.others, page_objects(parts), rid, p);
                law_table_set_lookup(t1, rid, SObj::Dictionary(rdd), p);
                match co {
                    SObj::Dictionary(cd) => {
                        law_table_set_lookup(t2, cid, SObj::Dictionary(catalog_dict(cd, rid)), p);
                    },
                    _ => {},
                }
            }
            assert(k_kids() != n_count()) by {
                assert(k_kids().len() != n_count().len());
            }
            lemma_sd_set_reads(rd, n_count(), SObj::Integer((pages.len() as u32) as i64), k_kids());
            lemma_sd_set_reads(
                sd_set(rd, n_count(), SObj::Integer((pages.len() as u32) as i64)),
                k_kids(),
                SObj::Array(refs(pages)),
                n_count(),
            );
            match co {
                SObj::Dictionary(cd) => {
                    let cdd = catalog_dict(cd, rid);
                    law_table_set_lookup(t2, cid, SObj::Dictionary(cdd), rid);
                    law_table_set_lookup(t2, cid, SObj::Dictionary(cdd), cid);
                    if keys_unique(cd) {
                        assert(n_pages() != n_outlines()) by {
                            assert(n_pages().len() != n_outlines().len());
                        }
                        law_dict_set_get(cd, n_pages(), SObj::Reference(rid), n_outlines());
                        law_dict_remove(
                            sd_set(cd, n_pages(), SObj::Reference(rid)),
                            n_outlines(),
                            n_pages(),
                        );
                    }
                },
                _ => {},
            }
        }
    }
}

// ---------------------------------------------------------------------------
// Requests for a button state
// ---------------------------------------------------------------------------
proof fn lemma_lower_char(c: char, d: char)
    requires
        ascii_lower(c) == ascii_lower(d),
    ensures
        c == '/' <==> d == '/',
        is_white_space(c) <==> is_white_space(d),
{
    if 'A' <= c && c <= 'Z' {
        assert(ascii_lower(c) as u32 == c as u32 + 32);
    }
    if 'A' <= d && d <= 'Z' {
        assert(ascii_lower(d) as u32 == d as u32 + 32);
    }
    if ('A' <= c && c <= 'Z') && !('A' <= d && d <= 'Z') {
        assert(d as u32 == c as u32 + 32);
    }
    if ('A' <= d && d <= 'Z') && !('A' <= c && c <= 'Z') {
        assert(c as u32 == d as u32 + 32);
    }
    if ('A' <= c && c <= 'Z') && ('A' <= d && d <= 'Z') {
        assert(c as u32 == d as u32);
        vstd::utf8::char_u32_cast(c, c as u32);
    }
}

proof fn lemma_strip_lower(a: Seq<char>, b: Seq<char>)
    requires
        lower_seq(a) == lower_seq(b),
    ensures
        lower_seq(strip_slashes(a)) == lower_seq(strip_slashes(b)),
    decreases a.len(),
{
    assert(a.len() == b.len()) by {
        assert(lower_seq(a).len() == a.len());
        assert(lower_seq(b).len() == b.len());
    }
    if a.len() > 0 {
        assert(lower_seq(a)[0] == ascii_lower(a[0]));
        assert(lower_seq(b)[0] == ascii_lower(b[0]));
        lemma_lower_char(a[0], b[0]);
        if a[0] == '/' {
            assert(lower_seq(a.drop_first()) =~= lower_seq(a).drop_first());
            assert(lower_seq(b.drop_first()) =~= lower_seq(b).drop_first());
            lemma_strip_lower(a.drop_first(), b.drop_first());
        }
    }
}

/// Two sequences of one length with white space at the same places.
pub open spec fn same_ws(a: Seq<char>, b: Seq<char>) -> bool {
    a.len() == b.len() && forall|i: int| 0 <= i < a.len() ==> (is_white_space(a[i]) <==> is_white_space(b[i]))
}

/// `x` is the first character that is not white space.
pub open spec fn first_nws(s: Seq<char>, x: int) -> bool {
    0 <= x < s.len() && !is_white_space(s[x]) && forall|j: int| 0 <= j < x ==> is_white_space(s[j])
}

/// `x` is the last character that is not white space.
pub open spec fn last_nws(s: Seq<char>, x: int) -> bool {
    0 <= x < s.len() && !is_white_space(s[x]) && forall|j: int| x < j < s.len() ==> is_white_space(s[j])
}

#[verifier::rlimit(80)]
proof fn lemma_trimmed_bounds(s: Seq<char>)
    ensures
        (exists|i: int| 0 <= i < s.len() && !is_white_space(s[i])) ==> exists|x: int, y: int|
            first_nws(s, x) && last_nws(s, y) && trimmed(s) == s.subrange(x, y + 1),
        !(exists|i: int| 0 <= i < s.len() && !is_white_space(s[i])) ==> trimmed(s) == Seq::<char>::empty(),
{
    if exists|i: int| 0 <= i < s.len() && !is_white_space(s[i]) {
        let w = choose|i: int| 0 <= i < s.len() && !is_white_space(s[i]);
        lemma_first_last_non_ws(s, w);
        let x = choose|x: int|
            0 <= x < s.len() && !is_white_space(s[x]) && forall|j: int| 0 <= j < x ==> is_white_space(s[j]);
        let y = choose|x: int|
            0 <= x < s.len() && !is_white_space(s[x]) && forall|j: int|
                x < j < s.len() ==> is_white_space(s[j]);
        assert(first_nws(s, x) && last_nws(s, y) && trimmed(s) == s.subrange(x, y + 1));
    }
}

proof fn lemma_nws_same(a: Seq<char>, b: Seq<char>, x1: int, x2: int, y1: int, y2: int)
    requires
        same_ws(a, b),
        first_nws(a, x1),
        first_nws(b, x2),
        last_nws(a, y1),
        last_nws(b, y2),
    ensures
        x1 == x2,
        y1 == y2,
{
    if x1 < x2 {
        assert(is_white_space(b[x1]));
    } else if x2 < x1 {
        assert(is_white_space(a[x2]));
    }
    if y1 < y2 {
        assert(is_white_space(a[y2]));
    } else if y2 < y1 {
        assert(is_white_space(b[y1]));
    }
}

proof fn lemma_trimmed_lower(a: Seq<char>, b: Seq<char>)
    requires
        lower_seq(a) == lower_seq(b),
    ensures
        lower_seq(trimmed(a)) == lower_seq(trimmed(b)),
{
    assert(a.len() == b.len()) by {
        assert(lower_seq(a).len() == a.len());
        assert(lower_seq(b).len() == b.len());
    }
    assert(same_ws(a, b)) by {
        assert forall|i: int| 0 <= i < a.len() implies (is_white_space(a[i]) <==> is_white_space(
            b[i],
        )) by {
            assert(lower_seq(a)[i] == ascii_lower(a[i]));
            assert(lower_seq(b)[i] == ascii_lower(b[i]));
            lemma_lower_char(a[i], b[i]);
        }
    }
    lemma_trimmed_bounds(a);
    lemma_trimmed_bounds(b);
    if exists|i: int| 0 <= i < a.len() && !is_white_space(a[i]) {
        let w = choose|i: int| 0 <= i < a.len() && !is_white_space(a[i]);
        assert(0 <= w < b.len() && !is_white_space(b[w]));
        let (x1, y1) = choose|x: int, y: int| first_nws(a, x) && last_nws(a, y) && trimmed(a) == a.subrange(x, y + 1);
        let (x2, y2) = choose|x: int, y: int| first_nws(b, x) && last_nws(b, y) && trimmed(b) == b.subrange(x, y + 1);
        lemma_nws_same(a, b, x1, x2, y1, y2);
        assert forall|k: int| 0 <= k < y1 + 1 - x1 implies lower_seq(trimmed(a))[k] == lower_seq(
            trimmed(b),
        )[k] by {
            assert(lower_seq(a)[x1 + k] == lower_seq(b)[x1 + k]);
            assert(lower_seq(a)[x1 + k] == ascii_lower(a[x1 + k]));
            assert(lower_seq(b)[x1 + k] == ascii_lower(b[x1 + k]));
        }
        assert(lower_seq(trimmed(a)) =~= lower_seq(trimmed(b)));
    } else {
        assert(!(exists|i: int| 0 <= i < b.len() && !is_white_space(b[i])));
        assert(lower_seq(trimmed(a)) =~= lower_seq(trimmed(b)));
    }
}

proof fn lemma_first_last_non_ws(s: Seq<char>, w: int)
    requires
        0 <= w < s.len(),
        !is_white_space(s[w]),
    ensures
        exists|x: int|
            0 <= x < s.len() && !is_white_space(s[x]) && forall|j: int| 0 <= j < x ==> is_white_space(s[j]),
        exists|x: int|
            0 <= x < s.len() && !is_white_space(s[x]) && forall|j: int|
                x < j < s.len() ==> is_white_space(s[j]),
    decreases s.len(),
{
    lemma_first_non_ws_from(s, w);
    lemma_last_non_ws_from(s, w);
}

proof fn lemma_first_non_ws_from(s: Seq<char>, w: int)
    requires
        0 <= w < s.len(),
        !is_white_space(s[w]),
    ensures
        exists|x: int|
            0 <= x < s.len() && !is_white_space(s[x]) && forall|j: int| 0 <= j < x ==> is_white_space(s[j]),
    decreases w,
{
    if exists|j: int| 0 <= j < w && !is_white_space(s[j]) {
        let j = choose|j: int| 0 <= j < w && !is_white_space(s[j]);
        lemma_first_non_ws_from(s, j);
    } else {
        assert(forall|j: int| 0 <= j < w ==> is_white_space(s[j]));
    }
}

proof fn lemma_last_non_ws_from(s: Seq<char>, w: int)
    requires
        0 <= w < s.len(),
        !is_white_space(s[w]),
    ensures
        exists|x: int|
            0 <= x < s.len() && !is_white_space(s[x]) && forall|j: int|
                x < j < s.len() ==> is_white_space(s[j]),
    decreases s.len() - w,
{
    if exists|j: int| w < j < s.len() && !is_white_space(s[j]) {
        let j = choose|j: int| w < j < s.len() && !is_white_space(s[j]);
        lemma_last_non_ws_from(s, j);
    } else {
        assert(forall|j: int| w < j < s.len() ==> is_white_space(s[j]));
    }
}

proof fn lemma_first_exact_lower(states: Seq<Seq<char>>, r1: Seq<char>, r2: Seq<char>)
    requires
        lower_seq(r1) == lower_seq(r2),
    ensures
        first_exact_state(states, r1) == first_exact_state(states, r2),
    decreases states.len(),
{
    if states.len() > 0 {
        lemma_first_exact_lower(states.drop_first(), r1, r2);
    }
}

/// The state a request resolves to ignores the ASCII case of the request
/// and any slashes in front of it: `yes`, `YES` and `/Yes` resolve alike.
pub proof fn law_button_request_case_and_slash(states: Seq<Seq<char>>, r1: Seq<char>, r2: Seq<char>)
    ensures
        lower_seq(r1) == lower_seq(r2) ==> spec_resolve_button_state(states, r1)
            == spec_resolve_button_state(states, r2),
        spec_resolve_button_state(states, seq!['/'] + r1) == spec_resolve_button_state(states, r1),
{
    let s = seq!['/'] + r1;
    assert(s.drop_first() =~= r1);
    assert(strip_slashes(s) == strip_slashes(r1));
    if lower_seq(r1) == lower_seq(r2) {
        lemma_strip_lower(r1, r2);
        lemma_trimmed_lower(strip_slashes(r1), strip_slashes(r2));
        let q1 = trimmed(strip_slashes(r1));
        let q2 = trimmed(strip_slashes(r2));
        lemma_first_exact_lower(states, q1, q2);
    }
}

// ---------------------------------------------------------------------------
// Text fields and fields
// ---------------------------------------------------------------------------
/// The text fields among the fields `m`, in order, keyed by qualified name,
/// each with its value as text.
pub open spec fn text_entries(m: Seq<(Seq<char>, SField)>) -> Seq<(Seq<char>, Option<Seq<char>>)>
    decreases m.len(),
{
    if m.len() == 0 {
        seq![]
    } else {
        let acc = text_entries(m.drop_last());
        let (qn, f) = m.last();
        if f.field_type == Some(w_tx()) {
            acc.push((qn, value_text(f.value)))
        } else {
            acc
        }
    }
}

proof fn lemma_text_entries_keys(m: Seq<(Seq<char>, SField)>)
    ensures
        forall|i: int|
            0 <= i < text_entries(m).len() ==> exists|j: int|
                0 <= j < m.len() && m[j].0 == #[trigger] text_entries(m)[i].0,
    decreases m.len(),
{
    if m.len() > 0 {
        lemma_text_entries_keys(m.drop_last());
        let p = m.drop_last();
        assert forall|i: int| 0 <= i < text_entries(m).len() implies exists|j: int|
            0 <= j < m.len() && m[j].0 == #[trigger] text_entries(m)[i].0 by {
            if i < text_entries(p).len() {
                assert(text_entries(m)[i] == text_entries(p)[i]);
                let j = choose|j: int| 0 <= j < p.len() && p[j].0 == text_entries(p)[i].0;
                assert(m[j] == p[j]);
            } else {
                assert(m[m.len() - 1].0 == text_entries(m)[i].0);
            }
        }
    }
}

proof fn lemma_text_fields_full(m: Seq<(Seq<char>, SField)>)
    requires
        sorted_strict(fmap_keys(m)),
    ensures
        text_fields_of(m, true) == text_entries(m),
    decreases m.len(),
{
    if m.len() > 0 {
        let p = m.drop_last();
        assert(sorted_strict(fmap_keys(p))) by {
            assert forall|i: int, j: int| 0 <= i < j < fmap_keys(p).len() implies lex_lt(
                fmap_keys(p)[i],
                fmap_keys(p)[j],
            ) by {
                assert(fmap_keys(p)[i] == fmap_keys(m)[i]);
                assert(fmap_keys(p)[j] == fmap_keys(m)[j]);
            }
        }
        lemma_text_fields_full(p);
        let (qn, f) = m.last();
        if f.field_type == Some(w_tx()) {
            let acc = text_entries(p);
            lemma_text_entries_keys(p);
            let keys = smap_keys(acc);
            assert forall|i: int| 0 <= i < keys.len() implies lex_lt(keys[i], qn) by {
                let j = choose|j: int| 0 <= j < p.len() && p[j].0 == acc[i].0;
                assert(fmap_keys(m)[j] == p[j].0);
                assert(fmap_keys(m)[m.len() - 1] == qn);
            }
            lemma_ins_pos(keys, qn);
            assert(ins_pos(keys, qn) == keys.len());
            assert(smap_insert(acc, qn, value_text(f.value)) =~= acc.push((qn, value_text(f.value))));
        }
    }
}

/// The text fields listed by qualified name are exactly the fields of type
/// `Tx` that the form lists, in the same order, each with its value as text
/// (a list joined with `", "`); a document without a form has none.
pub proof fn law_text_fields_are_tx_fields(doc: SDoc)
    ensures
        spec_get_form_text_fields(doc, true) == match spec_get_fields(doc) {
            Err(e) => Err(e),
            Ok(None) => Ok(seq![]),
            Ok(Some(m)) => Ok(text_entries(m)),
        },
{
    law_fields_keyed_by_name(doc);
    match spec_get_fields(doc) {
        Ok(Some(m)) => {
            lemma_text_fields_full(m);
        },
        _ => {},
    }
}

// ---------------------------------------------------------------------------
// Font resources
// ---------------------------------------------------------------------------
/// The font resource `font_name` is registered under, when the form's
/// default resources (`/DR`) are an indirect dictionary whose font
/// dictionary (direct, or by reference) maps the name to a reference.
pub open spec fn registered_font(doc: SDoc, acro_id: ObjectId, font_name: Seq<char>) -> Option<ObjectId> {
    let key = vstd::utf8::encode_utf8(strip_slashes(font_name));
    match sdoc_get_dict(doc, acro_id) {
        Ok(acro) => match sd_get(acro, k_dr()) {
            Some(SObj::Reference(dr_id)) => match sdoc_get_dict(doc, dr_id) {
                Ok(dr) => match sd_get(dr, k_font()) {
                    Some(SObj::Dictionary(fd)) => match sd_get(fd, key) {
                        Some(SObj::Reference(r)) => Some(r),
                        _ => None,
                    },
                    Some(SObj::Reference(fid)) => match sdoc_get_dict(doc, fid) {
                        Ok(fd) => match sd_get(fd, key) {
                            Some(SObj::Reference(r)) => Some(r),
                            _ => None,
                        },
                        Err(_) => None,
                    },
                    _ => None,
                },
                Err(_) => None,
            },
            _ => None,
        },
        Err(_) => None,
    }
}

/// A font already registered in the form's default resources is used as it
/// is: asking for it again gives its id and leaves the document unchanged.
pub proof fn law_registered_font_is_reused(doc: SDoc, acro_id: ObjectId, font_name: Seq<char>)
    ensures
        registered_font(doc, acro_id, font_name) matches Some(r) ==> spec_core_font(
            doc,
            acro_id,
            font_name,
        ) == (doc, Ok::<ObjectId, SErr>(r)),
{
    reveal(spec_core_font);
    reveal(spec_ensure_indirect);
}

// ---------------------------------------------------------------------------
// Values of the text fields
// ---------------------------------------------------------------------------
/// The name a text field is listed under by partial name: its partial name,
/// or its qualified name when it has none.
pub open spec fn partial_base(qn: Seq<char>, f: SField) -> Seq<char> {
    match f.partial_name {
        Some(p) => p,
        None => qn,
    }
}

proof fn lemma_smap_insert_entries<V>(m: Seq<(Seq<char>, V)>, k: Seq<char>, v: V)
    ensures
        forall|i: int|
            0 <= i < smap_insert(m, k, v).len() ==> #[trigger] smap_insert(m, k, v)[i] == (k, v)
                || m.contains(smap_insert(m, k, v)[i]),
{
    let keys = smap_keys(m);
    lemma_ins_pos(keys, k);
    let p = ins_pos(keys, k) as int;
    let r = smap_insert(m, k, v);
    assert forall|i: int| 0 <= i < r.len() implies #[trigger] r[i] == (k, v) || m.contains(r[i]) by {
        if p < m.len() && m[p].0 == k {
            if i != p {
                assert(r[i] == m[i]);
            }
        } else {
            if i < p {
                assert(r[i] == m[i]);
            } else if i > p {
                assert(r[i] == m[i - 1]);
            }
        }
    }
}

/// Every text field listed, by qualified or by partial name, shows the
/// value of a field of type `Tx` as text, under a key made from that same
/// field's name: its qualified name, or (by partial name) its partial name
/// itself or that name with a `.N` suffix.
pub proof fn law_text_field_values(m: Seq<(Seq<char>, SField)>, full: bool)
    ensures
        forall|i: int|
            0 <= i < text_fields_of(m, full).len() ==> exists|j: int|
                0 <= j < m.len() && m[j].1.field_type == Some(w_tx()) && (#[trigger] text_fields_of(
                    m,
                    full,
                )[i]).1 == value_text(m[j].1.value) && (full ==> text_fields_of(m, full)[i].0
                    == m[j].0) && (!full ==> (text_fields_of(m, full)[i].0 == partial_base(
                    m[j].0,
                    m[j].1,
                ) || is_prefix(partial_base(m[j].0, m[j].1).push('.'), text_fields_of(m, full)[i].0))),
    decreases m.len(),
{
    if m.len() > 0 {
        let q = m.drop_last();
        law_text_field_values(q, full);
        let acc = text_fields_of(q, full);
        let (qn, f) = m.last();
        let r = text_fields_of(m, full);
        let n = m.len() - 1;
        assert forall|j: int| 0 <= j < q.len() implies m[j] == q[j] by {}
        if f.field_type == Some(w_tx()) {
            let base = partial_base(qn, f);
            let key = if full {
                qn
            } else {
                spec_indexed_key(base, smap_keys(acc))
            };
            lemma_smap_insert_entries(acc, key, value_text(f.value));
            if !full {
                if smap_keys(acc).contains(base) {
                    let suffix = decimal(count_prefixed(smap_keys(acc), base.push('.')) + 2);
                    assert((base.push('.') + suffix).subrange(0, base.push('.').len() as int)
                        =~= base.push('.'));
                }
            }
            assert forall|i: int| 0 <= i < r.len() implies exists|j: int|
                0 <= j < m.len() && m[j].1.field_type == Some(w_tx()) && (#[trigger] r[i]).1
                    == value_text(m[j].1.value) && (full ==> r[i].0 == m[j].0) && (!full ==> (
                r[i].0 == partial_base(m[j].0, m[j].1) || is_prefix(
                    partial_base(m[j].0, m[j].1).push('.'),
                    r[i].0,
                ))) by {
                if r[i] == (key, value_text(f.value)) {
                    assert(m[n] == (qn, f));
                } else {
                    let a = choose|a: int| 0 <= a < acc.len() && acc[a] == r[i];
                    assert(acc[a] == text_fields_of(q, full)[a]);
                    let j = choose|j: int|
                        0 <= j < q.len() && q[j].1.field_type == Some(w_tx()) && (
                        #[trigger] text_fields_of(q, full)[a]).1 == value_text(q[j].1.value) && (
                        full ==> text_fields_of(q, full)[a].0 == q[j].0) && (!full ==> (
                        text_fields_of(q, full)[a].0 == partial_base(q[j].0, q[j].1) || is_prefix(
                            partial_base(q[j].0, q[j].1).push('.'),
                            text_fields_of(q, full)[a].0,
                        )));
                    assert(m[j] == q[j]);
                }
            }
        } else {
            assert(r == acc);
            assert forall|i: int| 0 <= i < r.len() implies exists|j: int|
                0 <= j < m.len() && m[j].1.field_type == Some(w_tx()) && (#[trigger] r[i]).1
                    == value_text(m[j].1.value) && (full ==> r[i].0 == m[j].0) && (!full ==> (
                r[i].0 == partial_base(m[j].0, m[j].1) || is_prefix(
                    partial_base(m[j].0, m[j].1).push('.'),
                    r[i].0,
                ))) by {
                let j = choose|j: int|
                    0 <= j < q.len() && q[j].1.field_type == Some(w_tx()) && (
                    #[trigger] text_fields_of(q, full)[i]).1 == value_text(q[j].1.value) && (full
                        ==> text_fields_of(q, full)[i].0 == q[j].0) && (!full ==> (text_fields_of(
                        q,
                        full,
                    )[i].0 == partial_base(q[j].0, q[j].1) || is_prefix(
                        partial_base(q[j].0, q[j].1).push('.'),
                        text_fields_of(q, full)[i].0,
                    )));
                assert(m[j] == q[j]);
            }
        }
    }
}

// ---------------------------------------------------------------------------
// Pages showing a field
// ---------------------------------------------------------------------------
proof fn lemma_keep_pages(hs: Seq<PageHandle>, s: Set<ObjectId>)
    ensures
        forall|i: int|
            0 <= i < keep_pages(hs, s).len() ==> s.contains(#[trigger] keep_pages(hs, s)[i].object_id)
                && hs.contains(keep_pages(hs, s)[i]),
        forall|h: PageHandle| #[trigger] hs.contains(h) && s.contains(h.object_id) ==> keep_pages(
            hs,
            s,
        ).contains(h),
    decreases hs.len(),
{
    if hs.len() > 0 {
        let q = hs.drop_last();
        let e = hs.last();
        lemma_keep_pages(q, s);
        let k = keep_pages(q, s);
        let r = keep_pages(hs, s);
        assert(r == if s.contains(e.object_id) {
            k.push(e)
        } else {
            k
        });
        assert forall|i: int| 0 <= i < r.len() implies s.contains(#[trigger] r[i].object_id)
            && hs.contains(r[i]) by {
            if i < k.len() {
                assert(r[i] == k[i]);
                assert(s.contains(k[i].object_id) && q.contains(k[i]));
                let j = choose|j: int| 0 <= j < q.len() && q[j] == k[i];
                assert(hs[j] == q[j]);
            } else {
                assert(r[i] == e);
                assert(hs[hs.len() - 1] == e);
            }
        }
        assert forall|h: PageHandle| #[trigger] hs.contains(h) && s.contains(h.object_id) implies r.contains(h) by {
            let j = choose|j: int| 0 <= j < hs.len() && hs[j] == h;
            if j < hs.len() - 1 {
                assert(q[j] == h);
                assert(q.contains(h));
                assert(k.contains(h));
                let a = choose|a: int| 0 <= a < k.len() && k[a] == h;
                assert(r[a] == h);
            } else {
                assert(e == h);
                assert(r[r.len() - 1] == h);
            }
        }
    }
}

/// The pages reported for a field are exactly the document's pages (in
/// page order) on which the field shows: every page returned is a page of
/// the document in the field's page set (the page a widget names in `/P`,
/// or a page whose `/Annots` refers to a widget), and every page of the
/// document in that set is returned.
pub proof fn law_pages_showing_field(doc: SDoc, fs: FieldSpecifier)
    ensures
        spec_pages_showing(doc, fs) matches Ok(r) ==> (spec_field_id(doc, fs) matches Ok(id)
            && sdoc_get_dict(doc, id) matches Ok(d) && field_pages(doc, id, d) matches Ok(s) && (
        forall|i: int|
            0 <= i < r.len() ==> s.contains(#[trigger] r[i].object_id) && spec_page_handles(
                doc,
            ).contains(r[i])) && (forall|h: PageHandle|
            #[trigger] spec_page_handles(doc).contains(h) && s.contains(h.object_id) ==> r.contains(h))),
{
    match spec_field_id(doc, fs) {
        Ok(id) => match sdoc_get_dict(doc, id) {
            Ok(d) => match field_pages(doc, id, d) {
                Ok(s) => {
                    lemma_keep_pages(spec_page_handles(doc), s);
                    if spec_pages_showing(doc, fs) is Ok {
                        let r = keep_pages(spec_page_handles(doc), s);
                        assert(spec_pages_showing(doc, fs) == Ok::<Seq<PageHandle>, SErr>(r));
                        assert forall|i: int| 0 <= i < r.len() implies s.contains(
                            #[trigger] r[i].object_id,
                        ) && spec_page_handles(doc).contains(r[i]) by {}
                        assert forall|h: PageHandle|
                            #[trigger] spec_page_handles(doc).contains(h) && s.contains(
                                h.object_id,
                            ) implies r.contains(h) by {}
                    }
                },
                _ => {},
            },
            _ => {},
        },
        _ => {},
    }
}

// ---------------------------------------------------------------------------
// Reading objects after a write
// ---------------------------------------------------------------------------
/// A reference-following result after the entry `t` was given `o`.
pub open spec fn adjust_deref(
    r: Result<(Option<ObjectId>, SObj), DocError>,
    t: ObjectId,
    o: SObj,
) -> Result<(Option<ObjectId>, SObj), DocError> {
    match r {
        Ok((Some(l), y)) => if l == t {
            Ok((Some(t), o))
        } else {
            r
        },
        _ => r,
    }
}

proof fn lemma_deref_consistent(doc: SDoc, last: Option<ObjectId>, obj: SObj, nb: nat)
    requires
        last matches Some(l) ==> so_lookup(doc.objects, l) == Some(obj),
    ensures
        sdoc_deref(doc, last, obj, nb) matches Ok((Some(l), y)) ==> so_lookup(doc.objects, l)
            == Some(y) && !(y is Reference),
        sdoc_deref(doc, last, obj, nb) matches Ok((None, y)) ==> y == obj && last is None && !(
        obj is Reference),
    decreases deref_limit() - nb,
{
    reveal(sdoc_deref);
    match obj {
        SObj::Reference(r) => match so_lookup(doc.objects, r) {
            None => {},
            Some(o) => if nb + 1 <= deref_limit() {
                lemma_deref_consistent(doc, Some(r), o, nb + 1);
            },
        },
        _ => {},
    }
}

proof fn lemma_deref_set(
    doc: SDoc,
    t: ObjectId,
    o: SObj,
    last: Option<ObjectId>,
    obj: SObj,
    obj2: SObj,
    nb: nat,
)
    requires
        so_lookup(doc.objects, t) matches Some(x) && !(x is Reference),
        !(o is Reference),
        last == Some(t) ==> !(obj is Reference) && obj2 == o,
        last != Some(t) ==> obj2 == obj,
    ensures
        sdoc_deref(sdoc_set(doc, t, o), last, obj2, nb) == adjust_deref(
            sdoc_deref(doc, last, obj, nb),
            t,
            o,
        ),
    decreases deref_limit() - nb,
{
    reveal(sdoc_deref);
    let nd = sdoc_set(doc, t, o);
    if last != Some(t) {
        match obj {
            SObj::Reference(r) => {
                law_table_set_lookup(doc.objects, t, o, r);
                match so_lookup(doc.objects, r) {
                    None => {},
                    Some(y) => if nb + 1 <= deref_limit() {
                        if r == t {
                            lemma_deref_set(doc, t, o, Some(t), y, o, nb + 1);
                        } else {
                            lemma_deref_set(doc, t, o, Some(r), y, y, nb + 1);
                        }
                    },
                }
            },
            _ => {},
        }
    }
}

/// After the entry `t`, which holds an object that is not a reference, is
/// given another such object `o`: an id whose references lead to `t` reads
/// as `o`, every other id reads as before, and every id's references lead
/// where they did.
pub proof fn law_read_after_set(doc: SDoc, t: ObjectId, o: SObj, id: ObjectId)
    requires
        so_lookup(doc.objects, t) matches Some(x) && !(x is Reference),
        !(o is Reference),
    ensures
        sdoc_get_object(sdoc_set(doc, t, o), id) == (if sdoc_target(doc, id) == Ok::<ObjectId, DocError>(t) {
            Ok::<SObj, DocError>(o)
        } else {
            sdoc_get_object(doc, id)
        }),
        sdoc_target(sdoc_set(doc, t, o), id) == sdoc_target(doc, id),
{
    reveal(sdoc_get_object);
    reveal(sdoc_target);
    reveal(sdoc_deref);
    let nd = sdoc_set(doc, t, o);
    law_table_set_lookup(doc.objects, t, o, id);
    if id != t {
        match so_lookup(doc.objects, id) {
            None => {},
            Some(y) => {
                lemma_deref_set(doc, t, o, None, y, y, 0);
            },
        }
    }
}

/// Where the references from `id` lead: an entry holding the object `id`
/// reads as, which is not a reference.
pub proof fn law_target_holds_object(doc: SDoc, id: ObjectId)
    ensures
        sdoc_target(doc, id) matches Ok(t) ==> so_lookup(doc.objects, t) matches Some(x) && !(
        x is Reference) && sdoc_get_object(doc, id) == Ok::<SObj, DocError>(x),
{
    reveal(sdoc_get_object);
    reveal(sdoc_target);
    match so_lookup(doc.objects, id) {
        None => {},
        Some(y) => {
            lemma_deref_consistent(doc, None, y, 0);
        },
    }
}

/// Writing an object that is not a reference to `id`: `id` then reads as
/// that object; every id whose references led elsewhere reads as before,
/// and every id's references still lead where they did; the pages and the
/// trailer are kept.
pub proof fn law_write_reads_back(doc: SDoc, id: ObjectId, o: SObj, id2: ObjectId)
    requires
        !(o is Reference),
    ensures
        sdoc_write(doc, id, o) matches Ok(d) ==> {
            &&& sdoc_get_object(d, id) == Ok::<SObj, DocError>(o)
            &&& sdoc_target(d, id2) == sdoc_target(doc, id2)
            &&& (sdoc_target(doc, id2) != sdoc_target(doc, id) ==> sdoc_get_object(d, id2)
                == sdoc_get_object(doc, id2))
            &&& d.pages == doc.pages
            &&& d.trailer == doc.trailer
        },
{
    match sdoc_target(doc, id) {
        Ok(t) => {
            law_target_holds_object(doc, id);
            law_read_after_set(doc, t, o, id);
            law_read_after_set(doc, t, o, id2);
        },
        Err(_) => {},
    }
}

// ---------------------------------------------------------------------------
// Rotating pages
// ---------------------------------------------------------------------------
/// Rotating the page with number `pn` (counted from 1 at the front) sets
/// `/Rotate` on that page's dictionary, whose other entries stay; every
/// object that is not that page's reads as before, and the pages are kept.
pub proof fn law_rotate_one(doc: SDoc, pn: u32, degrees: i64)
    ensures
        rotate_one(doc, pn, degrees) matches (d, Ok(_)) ==> {
            &&& 1 <= pn <= doc.pages.len()
            &&& d.pages == doc.pages
            &&& sdoc_get_object(doc, doc.pages[pn - 1]) matches Ok(SObj::Dictionary(old_d))
                && sdoc_get_object(d, doc.pages[pn - 1]) == Ok::<SObj, DocError>(
                SObj::Dictionary(sd_set(old_d, k_rotate(), SObj::Integer(degrees))),
            )
            &&& forall|id2: ObjectId|
                #![trigger sdoc_get_object(d, id2)]
                sdoc_target(doc, id2) != sdoc_target(doc, doc.pages[pn - 1]) ==> sdoc_get_object(
                    d,
                    id2,
                ) == sdoc_get_object(doc, id2)
            &&& forall|id2: ObjectId| #[trigger] sdoc_target(d, id2) == sdoc_target(doc, id2)
        },
{
    if 1 <= pn <= doc.pages.len() {
        let id = doc.pages[pn - 1];
        match sdoc_get_object(doc, id) {
            Ok(SObj::Dictionary(od)) => {
                let o = SObj::Dictionary(sd_set(od, k_rotate(), SObj::Integer(degrees)));
                assert forall|id2: ObjectId|
                    #![trigger sdoc_target(doc, id2)]
                    sdoc_write(doc, id, o) matches Ok(d) ==> (sdoc_target(d, id2) == sdoc_target(
                        doc,
                        id2,
                    ) && (sdoc_target(doc, id2) != sdoc_target(doc, id) ==> sdoc_get_object(d, id2)
                        == sdoc_get_object(doc, id2))) by {
                    law_write_reads_back(doc, id, o, id2);
                }
                law_write_reads_back(doc, id, o, id);
            },
            _ => {},
        }
    }
}

/// After rotating pages succeeds: the rotation was allowed, every page
/// listed (by number from 1) has `/Rotate` set to it, the pages are kept,
/// and every object that is none of the listed pages reads as before.
pub proof fn law_rotate_pages(doc: SDoc, pns: Seq<u32>, degrees: i64)
    ensures
        spec_rotate_pages(doc, pns, degrees) matches (d, Ok(_)) ==> {
            &&& valid_rotation(degrees)
            &&& d.pages == doc.pages
            &&& forall|k: int|
                0 <= k < pns.len() ==> 1 <= pns[k] <= doc.pages.len() && (#[trigger] sdoc_get_object(
                    d,
                    doc.pages[pns[k] - 1],
                ) matches Ok(SObj::Dictionary(pd)) && sd_get(pd, k_rotate()) == Some(
                    SObj::Integer(degrees),
                ))
            &&& forall|id2: ObjectId|
                (forall|k: int|
                    0 <= k < pns.len() ==> sdoc_target(doc, id2) != sdoc_target(
                        doc,
                        doc.pages[#[trigger] pns[k] - 1],
                    )) ==> sdoc_get_object(d, id2) == sdoc_get_object(doc, id2)
        },
{
    if valid_rotation(degrees) {
        lemma_rotate_walk(doc, pns, pns.len(), degrees);
    }
}

/// The rotated state after the first `k` page numbers.
pub open spec fn rotated_upto(doc: SDoc, d: SDoc, pns: Seq<u32>, k: nat, degrees: i64) -> bool {
    &&& d.pages == doc.pages
    &&& forall|id2: ObjectId| #[trigger] sdoc_target(d, id2) == sdoc_target(doc, id2)
    &&& forall|j: int|
        0 <= j < k ==> 1 <= pns[j] <= doc.pages.len() && (#[trigger] sdoc_get_object(
            d,
            doc.pages[pns[j] - 1],
        ) matches Ok(SObj::Dictionary(pd)) && sd_get(pd, k_rotate()) == Some(
            SObj::Integer(degrees),
        ))
    &&& forall|id2: ObjectId|
        (forall|j: int|
            0 <= j < k ==> sdoc_target(doc, id2) != sdoc_target(doc, doc.pages[#[trigger] pns[j] - 1]))
            ==> sdoc_get_object(d, id2) == sdoc_get_object(doc, id2)
}

proof fn lemma_rotate_walk(doc: SDoc, pns: Seq<u32>, k: nat, degrees: i64)
    requires
        k <= pns.len(),
    ensures
        rotate_walk(doc, pns, k, degrees) matches (d, Ok(_)) ==> rotated_upto(doc, d, pns, k, degrees),
    decreases k,
{
    if k > 0 {
        lemma_rotate_walk(doc, pns, (k - 1) as nat, degrees);
        let (d1, r1) = rotate_walk(doc, pns, (k - 1) as nat, degrees);
        if r1 is Ok {
            let pn = pns[k - 1];
            law_rotate_one(d1, pn, degrees);
            if rotate_one(d1, pn, degrees).1 is Ok {
                let d2 = rotate_one(d1, pn, degrees).0;
                let page = doc.pages[pn - 1];
                assert(d1.pages == doc.pages);
                let (o_rot) = sd_set(
                    sdoc_get_object(d1, page)->Ok_0->Dictionary_0,
                    k_rotate(),
                    SObj::Integer(degrees),
                );
                assert(sdoc_get_object(d2, page) == Ok::<SObj, DocError>(SObj::Dictionary(o_rot)));
                lemma_sd_set_reads(
                    sdoc_get_object(d1, page)->Ok_0->Dictionary_0,
                    k_rotate(),
                    SObj::Integer(degrees),
                    k_rotate(),
                );
                assert forall|id2: ObjectId| #[trigger] sdoc_target(d2, id2) == sdoc_target(doc, id2) by {
                    assert(sdoc_target(d2, id2) == sdoc_target(d1, id2));
                    assert(sdoc_target(d1, id2) == sdoc_target(doc, id2));
                }
                assert forall|j: int| 0 <= j < k implies 1 <= pns[j] <= doc.pages.len() && (
                #[trigger] sdoc_get_object(d2, doc.pages[pns[j] - 1]) matches Ok(
                    SObj::Dictionary(pd),
                ) && sd_get(pd, k_rotate()) == Some(SObj::Integer(degrees))) by {
                    if j < k - 1 {
                        let p2 = doc.pages[pns[j] - 1];
                        assert(sdoc_get_object(d1, p2) matches Ok(SObj::Dictionary(pd)) && sd_get(
                            pd,
                            k_rotate(),
                        ) == Some(SObj::Integer(degrees)));
                        if sdoc_target(d1, p2) == sdoc_target(d1, page) {
                            law_target_holds_object(d1, p2);
                            law_target_holds_object(d1, page);
                            let t = sdoc_target(d1, page)->Ok_0;
                            law_read_after_set(d1, t, SObj::Dictionary(o_rot), p2);
                            reveal(sdoc_target);
                            assert(sdoc_write(d1, page, SObj::Dictionary(o_rot)) == Ok::<
                                SDoc,
                                DocError,
                            >(sdoc_set(d1, t, SObj::Dictionary(o_rot))));
                        } else {
                            assert(sdoc_get_object(d2, p2) == sdoc_get_object(d1, p2));
                        }
                    }
                }
                assert forall|id2: ObjectId|
                    (forall|j: int|
                        0 <= j < k ==> sdoc_target(doc, id2) != sdoc_target(
                            doc,
                            doc.pages[#[trigger] pns[j] - 1],
                        )) implies sdoc_get_object(d2, id2) == sdoc_get_object(doc, id2) by {
                    assert(sdoc_target(doc, id2) != sdoc_target(doc, doc.pages[pns[k - 1] - 1]));
                    assert forall|j: int| 0 <= j < k - 1 implies sdoc_target(doc, id2) != sdoc_target(
                        doc,
                        doc.pages[#[trigger] pns[j] - 1],
                    ) by {}
                    assert(sdoc_target(d1, id2) == sdoc_target(doc, id2));
                    assert(sdoc_target(d1, page) == sdoc_target(doc, page));
                    assert(sdoc_get_object(d2, id2) == sdoc_get_object(d1, id2));
                }
            }
        }
    } else {
        assert(rotate_walk(doc, pns, 0, degrees) == (doc, Ok::<(), SErr>(())));
    }
}

// ---------------------------------------------------------------------------
// Removing annotations
// ---------------------------------------------------------------------------
/// The annotation `a` is a dictionary (given directly or by reference)
/// whose subtype, with its slash, is none of the names `l`, slashed.
pub open spec fn kept_annotation(doc: SDoc, a: SObj, l: Seq<Seq<char>>) -> bool {
    deref_dict(doc, a) matches Ok(ad) && !(exists|j: int|
        0 <= j < l.len() && #[trigger] slashed(l[j]) == subtype_of(ad))
}

/// The walk's state after `k` annotations keeps the annotations to be kept.
pub open spec fn walk_keeps(doc: SDoc, annots: Seq<SObj>, l: Seq<Seq<char>>, k: nat, d: SDoc, kept: Seq<SObj>) -> bool {
    &&& forall|i: int|
        0 <= i < annots.len() && kept_annotation(doc, #[trigger] annots[i], l) ==> deref_dict(d, annots[i])
            == deref_dict(doc, annots[i])
    &&& forall|i: int| 0 <= i < k && kept_annotation(doc, #[trigger] annots[i], l) ==> kept.contains(annots[i])
}

proof fn lemma_null_keeps(
    doc: SDoc,
    d1: SDoc,
    annots: Seq<SObj>,
    l: Seq<Seq<char>>,
    aid: ObjectId,
    ad: SDict,
    d2: SDoc,
)
    requires
        deref_dict(d1, SObj::Reference(aid)) == Ok::<SDict, SErr>(ad),
        exists|j: int| 0 <= j < l.len() && #[trigger] slashed(l[j]) == subtype_of(ad),
        sdoc_write(d1, aid, SObj::Null) == Ok::<SDoc, DocError>(d2),
        forall|i: int|
            0 <= i < annots.len() && kept_annotation(doc, #[trigger] annots[i], l) ==> deref_dict(d1, annots[i])
                == deref_dict(doc, annots[i]),
    ensures
        forall|i: int|
            0 <= i < annots.len() && kept_annotation(doc, #[trigger] annots[i], l) ==> deref_dict(d2, annots[i])
                == deref_dict(doc, annots[i]),
{
    assert forall|i: int|
        0 <= i < annots.len() && kept_annotation(doc, #[trigger] annots[i], l) implies deref_dict(d2, annots[i])
            == deref_dict(doc, annots[i]) by {
        match annots[i] {
            SObj::Reference(r) => {
                reveal(sdoc_get_dict);
                law_write_reads_back(d1, aid, SObj::Null, r);
                if sdoc_target(d1, r) == sdoc_target(d1, aid) {
                    law_target_holds_object(d1, r);
                    law_target_holds_object(d1, aid);
                    law_write_reads_back(d1, aid, SObj::Null, aid);
                    let ad2 = deref_dict(doc, annots[i])->Ok_0;
                    assert(deref_dict(d1, annots[i]) == Ok::<SDict, SErr>(ad2));
                    assert(sdoc_get_object(d1, r) == Ok::<SObj, DocError>(SObj::Dictionary(ad2)));
                    assert(sdoc_get_object(d1, aid) == Ok::<SObj, DocError>(SObj::Dictionary(ad)));
                    assert(ad == ad2);
                    assert(false);
                }
            },
            _ => {},
        }
    }
}

proof fn lemma_remove_walk_keeps(doc: SDoc, annots: Seq<SObj>, l: Seq<Seq<char>>, k: nat)
    requires
        k <= annots.len(),
    ensures
        remove_walk(doc, annots, k, Some(l)) matches (d, Ok(kept)) ==> walk_keeps(doc, annots, l, k, d, kept),
    decreases k,
{
    reveal(remove_walk);
    if k > 0 {
        lemma_remove_walk_keeps(doc, annots, l, (k - 1) as nat);
        let (d1, r1) = remove_walk(doc, annots, (k - 1) as nat, Some(l));
        if let Ok(kept1) = r1 {
            let a = annots[k - 1];
            let (d, r) = remove_walk(doc, annots, k, Some(l));
            if let Ok(kept) = r {
                match deref_dict(d1, a) {
                    Err(_) => {
                        assert(!kept_annotation(doc, annots[k - 1], l));
                    },
                    Ok(ad) => if removes(Some(l), subtype_of(ad)) {
                        assert(!kept_annotation(doc, annots[k - 1], l));
                        match obj_ref(a) {
                            Some(aid) => {
                                let d2 = sdoc_write(d1, aid, SObj::Null)->Ok_0;
                                lemma_null_keeps(doc, d1, annots, l, aid, ad, d2);
                            },
                            None => {},
                        }
                    } else {
                        assert(kept == kept1.push(a));
                        assert forall|i: int|
                            0 <= i < k && kept_annotation(doc, #[trigger] annots[i], l) implies kept.contains(
                                annots[i],
                            ) by {
                            if i < k - 1 {
                                let m = choose|m: int| 0 <= m < kept1.len() && kept1[m] == annots[i];
                                assert(kept[m] == annots[i]);
                            } else {
                                assert(kept[kept.len() - 1] == a);
                            }
                        }
                    },
                }
            }
        }
    }
}

/// Removing annotations of given subtypes from a page: every annotation of
/// the page that is a dictionary whose subtype (with its slash) is none of
/// the subtypes given (slashed) stays among the annotations kept for the
/// page, and reads as the same dictionary afterwards.
pub proof fn law_remove_keeps_other_subtypes(doc: SDoc, annots: Seq<SObj>, l: Seq<Seq<char>>)
    ensures
        remove_walk(doc, annots, annots.len(), Some(l)) matches (d, Ok(kept)) ==> forall|i: int|
            0 <= i < annots.len() && kept_annotation(doc, #[trigger] annots[i], l) ==> kept.contains(annots[i])
                && deref_dict(d, annots[i]) == deref_dict(doc, annots[i]),
{
    lemma_remove_walk_keeps(doc, annots, l, annots.len());
}

/// Removing annotations of given subtypes from a page: afterwards the
/// page's annotations (when they can be read) still hold every annotation
/// that was a dictionary whose subtype (with its slash) is none of the
/// subtypes given.
pub proof fn law_remove_on_page_keeps(doc: SDoc, page_id: ObjectId, l: Seq<Seq<char>>)
    ensures
        remove_on_page(doc, page_id, Some(l)) matches (d, Ok(_)) ==> (spec_page_annots(doc, page_id)
            matches Ok(annots) && (spec_page_annots(d, page_id) matches Ok(now) ==> forall|i: int|
            0 <= i < annots.len() && kept_annotation(doc, #[trigger] annots[i], l) ==> now.contains(
                annots[i],
            ))),
{
    reveal(remove_on_page);
    match spec_page_annots(doc, page_id) {
        Err(_) => {},
        Ok(annots) => if annots.len() > 0 {
            lemma_remove_walk_keeps(doc, annots, l, annots.len());
            let (d1, r) = remove_walk(doc, annots, annots.len(), Some(l));
            if let Ok(kept) = r {
                reveal(spec_write_array);
                match sdoc_get_dict(d1, page_id) {
                    Err(_) => {},
                    Ok(owner) => match sd_get(owner, k_annots()) {
                        Some(SObj::Reference(id)) => {
                            let o = SObj::Array(kept);
                            if let Ok(d2) = sdoc_write(d1, id, o) {
                                law_write_reads_back(d1, id, o, id);
                                law_write_reads_back(d1, id, o, page_id);
                                reveal(sdoc_get_dict);
                                if spec_page_annots(d2, page_id) is Ok {
                                    if sdoc_target(d1, page_id) == sdoc_target(d1, id) {
                                        law_target_holds_object(d1, page_id);
                                        law_target_holds_object(d1, id);
                                        law_read_after_set(
                                            d1,
                                            sdoc_target(d1, id)->Ok_0,
                                            o,
                                            page_id,
                                        );
                                        reveal(sdoc_target);
                                        assert(sdoc_get_object(d2, page_id) == Ok::<SObj, DocError>(o));
                                        assert(false);
                                    }
                                    assert(sdoc_get_dict(d2, page_id) == Ok::<SDict, DocError>(owner));
                                    assert(spec_page_annots(d2, page_id) == Ok::<Seq<SObj>, SErr>(kept));
                                }
                            }
                        },
                        _ => {
                            let o = SObj::Dictionary(sd_set(owner, k_annots(), SObj::Array(kept)));
                            if let Ok(d2) = sdoc_write(d1, page_id, o) {
                                law_write_reads_back(d1, page_id, o, page_id);
                                reveal(sdoc_get_dict);
                                lemma_sd_set_reads(owner, k_annots(), SObj::Array(kept), k_annots());
                                assert(spec_page_annots(d2, page_id) == Ok::<Seq<SObj>, SErr>(kept));
                            }
                        },
                    },
                }
            }
        },
    }
}

/// Every dictionary `d` reads as in `doc` has the same value there.
pub open spec fn dicts_from(doc: SDoc, d: SDoc) -> bool {
    forall|r: ObjectId|
        #![trigger sdoc_get_dict(d, r)]
        sdoc_get_dict(d, r) is Ok ==> sdoc_get_dict(doc, r) == sdoc_get_dict(d, r)
}

proof fn lemma_walk_only_kept(doc: SDoc, annots: Seq<SObj>, l: Seq<Seq<char>>, k: nat)
    requires
        k <= annots.len(),
    ensures
        remove_walk(doc, annots, k, Some(l)) matches (d, Ok(kept)) ==> dicts_from(doc, d) && forall|i: int|
            0 <= i < kept.len() ==> kept_annotation(doc, #[trigger] kept[i], l) && annots.contains(kept[i]),
    decreases k,
{
    reveal(remove_walk);
    if k == 0 {
        assert(dicts_from(doc, doc));
    } else {
        lemma_walk_only_kept(doc, annots, l, (k - 1) as nat);
        let (d1, r1) = remove_walk(doc, annots, (k - 1) as nat, Some(l));
        if let Ok(kept1) = r1 {
            let a = annots[k - 1];
            let (d, r) = remove_walk(doc, annots, k, Some(l));
            if let Ok(kept) = r {
                match deref_dict(d1, a) {
                    Err(_) => {},
                    Ok(ad) => if removes(Some(l), subtype_of(ad)) {
                        match obj_ref(a) {
                            Some(aid) => {
                                let d2 = sdoc_write(d1, aid, SObj::Null)->Ok_0;
                                assert forall|r: ObjectId|
                                    #![trigger sdoc_get_dict(d2, r)]
                                    sdoc_get_dict(d2, r) is Ok implies sdoc_get_dict(doc, r) == sdoc_get_dict(
                                        d2,
                                        r,
                                    ) by {
                                    reveal(sdoc_get_dict);
                                    law_write_reads_back(d1, aid, SObj::Null, r);
                                    if sdoc_target(d1, r) == sdoc_target(d1, aid) {
                                        law_write_reads_back(d1, aid, SObj::Null, aid);
                                        law_target_holds_object(d1, aid);
                                        law_target_holds_object(d1, r);
                                        law_read_after_set(d1, sdoc_target(d1, aid)->Ok_0, SObj::Null, r);
                                        reveal(sdoc_target);
                                        assert(sdoc_get_object(d2, r) == Ok::<SObj, DocError>(SObj::Null));
                                    } else {
                                        assert(sdoc_get_dict(d2, r) == sdoc_get_dict(d1, r));
                                    }
                                }
                            },
                            None => {},
                        }
                    } else {
                        assert(kept == kept1.push(a));
                        assert(deref_dict(doc, a) == Ok::<SDict, SErr>(ad)) by {
                            match a {
                                SObj::Reference(rr) => {
                                    assert(sdoc_get_dict(d1, rr) == Ok::<SDict, DocError>(ad));
                                },
                                _ => {},
                            }
                        }
                        assert forall|i: int| 0 <= i < kept.len() implies kept_annotation(
                            doc,
                            #[trigger] kept[i],
                            l,
                        ) && annots.contains(kept[i]) by {
                            if i < kept1.len() {
                                assert(kept[i] == kept1[i]);
                            } else {
                                assert(annots[k - 1] == a);
                            }
                        }
                    },
                }
            }
        }
    }
}

/// Removing annotations of given subtypes from a page keeps only
/// annotations of the page that are dictionaries whose subtype (with its
/// slash) is none of the subtypes given (slashed): an annotation of a
/// subtype given, or one that is not a dictionary, is never kept.
pub proof fn law_remove_keeps_only_other_subtypes(doc: SDoc, annots: Seq<SObj>, l: Seq<Seq<char>>)
    ensures
        remove_walk(doc, annots, annots.len(), Some(l)) matches (d, Ok(kept)) ==> forall|i: int|
            0 <= i < kept.len() ==> kept_annotation(doc, #[trigger] kept[i], l) && annots.contains(kept[i]),
{
    lemma_walk_only_kept(doc, annots, l, annots.len());
}

proof fn lemma_smap_insert_keys<V>(m: Seq<(Seq<char>, V)>, k: Seq<char>, v: V)
    ensures
        smap_keys(smap_insert(m, k, v)).contains(k),
        forall|x: Seq<char>| smap_keys(m).contains(x) ==> #[trigger] smap_keys(smap_insert(m, k, v)).contains(x),
{
    let keys = smap_keys(m);
    lemma_ins_pos(keys, k);
    let p = ins_pos(keys, k) as int;
    let r = smap_insert(m, k, v);
    let rk = smap_keys(r);
    if p < m.len() && m[p].0 == k {
        assert(rk[p] == k);
        assert forall|x: Seq<char>| keys.contains(x) implies #[trigger] rk.contains(x) by {
            let i = choose|i: int| 0 <= i < keys.len() && keys[i] == x;
            assert(rk[i] == x);
        }
    } else {
        assert(rk[p] == k);
        assert forall|x: Seq<char>| keys.contains(x) implies #[trigger] rk.contains(x) by {
            let i = choose|i: int| 0 <= i < keys.len() && keys[i] == x;
            if i < p {
                assert(rk[i] == x);
            } else {
                assert(rk[i + 1] == x);
            }
        }
    }
}

/// Every text field has a key of its own name among the text fields
/// listed: its qualified name or, by partial name, its partial name.
pub proof fn law_text_field_keys(m: Seq<(Seq<char>, SField)>, full: bool)
    ensures
        forall|j: int|
            0 <= j < m.len() && (#[trigger] m[j]).1.field_type == Some(w_tx()) ==> smap_keys(
                text_fields_of(m, full),
            ).contains(
                if full {
                    m[j].0
                } else {
                    partial_base(m[j].0, m[j].1)
                },
            ),
    decreases m.len(),
{
    if m.len() > 0 {
        let q = m.drop_last();
        law_text_field_keys(q, full);
        let acc = text_fields_of(q, full);
        let (qn, f) = m.last();
        let n = m.len() - 1;
        if f.field_type == Some(w_tx()) {
            let base = partial_base(qn, f);
            let key = if full {
                qn
            } else {
                spec_indexed_key(base, smap_keys(acc))
            };
            lemma_smap_insert_keys(acc, key, value_text(f.value));
        }
        assert forall|j: int|
            0 <= j < m.len() && (#[trigger] m[j]).1.field_type == Some(w_tx()) implies smap_keys(
                text_fields_of(m, full),
            ).contains(
                if full {
                    m[j].0
                } else {
                    partial_base(m[j].0, m[j].1)
                },
            ) by {
            if j < n {
                assert(m[j] == q[j]);
            } else {
                assert(m[j] == (qn, f));
            }
        }
    }
}

} // verus!
