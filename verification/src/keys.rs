//! The dictionary keys and the names that the form logic reads and writes.
use vstd::prelude::*;

verus! {

/// The key `/T`.
pub open spec fn k_t() -> Seq<u8> {
    seq![84u8]
}

/// The key `/T`.
pub fn key_t() -> (r: Vec<u8>)
    ensures
        r@ == k_t(),
{
    let r = vec![84u8];
    assert(r@ =~= k_t());
    r
}

/// The key `/TM`.
pub open spec fn k_tm() -> Seq<u8> {
    seq![84u8, 77u8]
}

/// The key `/TM`.
pub fn key_tm() -> (r: Vec<u8>)
    ensures
        r@ == k_tm(),
{
    let r = vec![84u8, 77u8];
    assert(r@ =~= k_tm());
    r
}

/// The key `/FT`.
pub open spec fn k_ft() -> Seq<u8> {
    seq![70u8, 84u8]
}

/// The key `/FT`.
pub fn key_ft() -> (r: Vec<u8>)
    ensures
        r@ == k_ft(),
{
    let r = vec![70u8, 84u8];
    assert(r@ =~= k_ft());
    r
}

/// The key `/V`.
pub open spec fn k_v() -> Seq<u8> {
    seq![86u8]
}

/// The key `/V`.
pub fn key_v() -> (r: Vec<u8>)
    ensures
        r@ == k_v(),
{
    let r = vec![86u8];
    assert(r@ =~= k_v());
    r
}

/// The key `/DV`.
pub open spec fn k_dv() -> Seq<u8> {
    seq![68u8, 86u8]
}

/// The key `/DV`.
pub fn key_dv() -> (r: Vec<u8>)
    ensures
        r@ == k_dv(),
{
    let r = vec![68u8, 86u8];
    assert(r@ =~= k_dv());
    r
}

/// The key `/Ff`.
pub open spec fn k_ff() -> Seq<u8> {
    seq![70u8, 102u8]
}

/// The key `/Ff`.
pub fn key_ff() -> (r: Vec<u8>)
    ensures
        r@ == k_ff(),
{
    let r = vec![70u8, 102u8];
    assert(r@ =~= k_ff());
    r
}

/// The key `/Opt`.
pub open spec fn k_opt() -> Seq<u8> {
    seq![79u8, 112u8, 116u8]
}

/// The key `/Opt`.
pub fn key_opt() -> (r: Vec<u8>)
    ensures
        r@ == k_opt(),
{
    let r = vec![79u8, 112u8, 116u8];
    assert(r@ =~= k_opt());
    r
}

/// The key `/AP`.
pub open spec fn k_ap() -> Seq<u8> {
    seq![65u8, 80u8]
}

/// The key `/AP`.
pub fn key_ap() -> (r: Vec<u8>)
    ensures
        r@ == k_ap(),
{
    let r = vec![65u8, 80u8];
    assert(r@ =~= k_ap());
    r
}

/// The key `/N`.
pub open spec fn k_n() -> Seq<u8> {
    seq![78u8]
}

/// The key `/N`.
pub fn key_n() -> (r: Vec<u8>)
    ensures
        r@ == k_n(),
{
    let r = vec![78u8];
    assert(r@ =~= k_n());
    r
}

/// The key `/Kids`.
pub open spec fn k_kids() -> Seq<u8> {
    seq![75u8, 105u8, 100u8, 115u8]
}

/// The key `/Kids`.
pub fn key_kids() -> (r: Vec<u8>)
    ensures
        r@ == k_kids(),
{
    let r = vec![75u8, 105u8, 100u8, 115u8];
    assert(r@ =~= k_kids());
    r
}

/// The key `/Parent`.
pub open spec fn k_parent() -> Seq<u8> {
    seq![80u8, 97u8, 114u8, 101u8, 110u8, 116u8]
}

/// The key `/Parent`.
pub fn key_parent() -> (r: Vec<u8>)
    ensures
        r@ == k_parent(),
{
    let r = vec![80u8, 97u8, 114u8, 101u8, 110u8, 116u8];
    assert(r@ =~= k_parent());
    r
}

/// The key `/Subtype`.
pub open spec fn k_subtype() -> Seq<u8> {
    seq![83u8, 117u8, 98u8, 116u8, 121u8, 112u8, 101u8]
}

/// The key `/Subtype`.
pub fn key_subtype() -> (r: Vec<u8>)
    ensures
        r@ == k_subtype(),
{
    let r = vec![83u8, 117u8, 98u8, 116u8, 121u8, 112u8, 101u8];
    assert(r@ =~= k_subtype());
    r
}

/// The key `/P`.
pub open spec fn k_p() -> Seq<u8> {
    seq![80u8]
}

/// The key `/P`.
pub fn key_p() -> (r: Vec<u8>)
    ensures
        r@ == k_p(),
{
    let r = vec![80u8];
    assert(r@ =~= k_p());
    r
}

/// The key `/Annots`.
pub open spec fn k_annots() -> Seq<u8> {
    seq![65u8, 110u8, 110u8, 111u8, 116u8, 115u8]
}

/// The key `/Annots`.
pub fn key_annots() -> (r: Vec<u8>)
    ensures
        r@ == k_annots(),
{
    let r = vec![65u8, 110u8, 110u8, 111u8, 116u8, 115u8];
    assert(r@ =~= k_annots());
    r
}

/// The key `/Root`.
pub open spec fn k_root() -> Seq<u8> {
    seq![82u8, 111u8, 111u8, 116u8]
}

/// The key `/Root`.
pub fn key_root() -> (r: Vec<u8>)
    ensures
        r@ == k_root(),
{
    let r = vec![82u8, 111u8, 111u8, 116u8];
    assert(r@ =~= k_root());
    r
}

/// The key `/AcroForm`.
pub open spec fn k_acroform() -> Seq<u8> {
    seq![65u8, 99u8, 114u8, 111u8, 70u8, 111u8, 114u8, 109u8]
}

/// The key `/AcroForm`.
pub fn key_acroform() -> (r: Vec<u8>)
    ensures
        r@ == k_acroform(),
{
    let r = vec![65u8, 99u8, 114u8, 111u8, 70u8, 111u8, 114u8, 109u8];
    assert(r@ =~= k_acroform());
    r
}

/// The key `/Fields`.
pub open spec fn k_fields() -> Seq<u8> {
    seq![70u8, 105u8, 101u8, 108u8, 100u8, 115u8]
}

/// The key `/Fields`.
pub fn key_fields() -> (r: Vec<u8>)
    ensures
        r@ == k_fields(),
{
    let r = vec![70u8, 105u8, 101u8, 108u8, 100u8, 115u8];
    assert(r@ =~= k_fields());
    r
}

/// The key `/NeedAppearances`.
pub open spec fn k_needappearances() -> Seq<u8> {
    seq![78u8, 101u8, 101u8, 100u8, 65u8, 112u8, 112u8, 101u8, 97u8, 114u8, 97u8, 110u8, 99u8, 101u8, 115u8]
}

/// The key `/NeedAppearances`.
pub fn key_needappearances() -> (r: Vec<u8>)
    ensures
        r@ == k_needappearances(),
{
    let r = vec![78u8, 101u8, 101u8, 100u8, 65u8, 112u8, 112u8, 101u8, 97u8, 114u8, 97u8, 110u8, 99u8, 101u8, 115u8];
    assert(r@ =~= k_needappearances());
    r
}

/// The key `/I`.
pub open spec fn k_i() -> Seq<u8> {
    seq![73u8]
}

/// The key `/I`.
pub fn key_i() -> (r: Vec<u8>)
    ensures
        r@ == k_i(),
{
    let r = vec![73u8];
    assert(r@ =~= k_i());
    r
}

/// The key `/AS`.
pub open spec fn k_as() -> Seq<u8> {
    seq![65u8, 83u8]
}

/// The key `/AS`.
pub fn key_as() -> (r: Vec<u8>)
    ensures
        r@ == k_as(),
{
    let r = vec![65u8, 83u8];
    assert(r@ =~= k_as());
    r
}

/// The key `/DA`.
pub open spec fn k_da() -> Seq<u8> {
    seq![68u8, 65u8]
}

/// The key `/DA`.
pub fn key_da() -> (r: Vec<u8>)
    ensures
        r@ == k_da(),
{
    let r = vec![68u8, 65u8];
    assert(r@ =~= k_da());
    r
}

/// The key `/Rect`.
pub open spec fn k_rect() -> Seq<u8> {
    seq![82u8, 101u8, 99u8, 116u8]
}

/// The key `/Rect`.
pub fn key_rect() -> (r: Vec<u8>)
    ensures
        r@ == k_rect(),
{
    let r = vec![82u8, 101u8, 99u8, 116u8];
    assert(r@ =~= k_rect());
    r
}

/// The key `/DR`.
pub open spec fn k_dr() -> Seq<u8> {
    seq![68u8, 82u8]
}

/// The key `/DR`.
pub fn key_dr() -> (r: Vec<u8>)
    ensures
        r@ == k_dr(),
{
    let r = vec![68u8, 82u8];
    assert(r@ =~= k_dr());
    r
}

/// The key `/Font`.
pub open spec fn k_font() -> Seq<u8> {
    seq![70u8, 111u8, 110u8, 116u8]
}

/// The key `/Font`.
pub fn key_font() -> (r: Vec<u8>)
    ensures
        r@ == k_font(),
{
    let r = vec![70u8, 111u8, 110u8, 116u8];
    assert(r@ =~= k_font());
    r
}

/// The key `/Type`.
pub open spec fn k_type() -> Seq<u8> {
    seq![84u8, 121u8, 112u8, 101u8]
}

/// The key `/Type`.
pub fn key_type() -> (r: Vec<u8>)
    ensures
        r@ == k_type(),
{
    let r = vec![84u8, 121u8, 112u8, 101u8];
    assert(r@ =~= k_type());
    r
}

/// The key `/BaseFont`.
pub open spec fn k_basefont() -> Seq<u8> {
    seq![66u8, 97u8, 115u8, 101u8, 70u8, 111u8, 110u8, 116u8]
}

/// The key `/BaseFont`.
pub fn key_basefont() -> (r: Vec<u8>)
    ensures
        r@ == k_basefont(),
{
    let r = vec![66u8, 97u8, 115u8, 101u8, 70u8, 111u8, 110u8, 116u8];
    assert(r@ =~= k_basefont());
    r
}

/// The key `/Encoding`.
pub open spec fn k_encoding() -> Seq<u8> {
    seq![69u8, 110u8, 99u8, 111u8, 100u8, 105u8, 110u8, 103u8]
}

/// The key `/Encoding`.
pub fn key_encoding() -> (r: Vec<u8>)
    ensures
        r@ == k_encoding(),
{
    let r = vec![69u8, 110u8, 99u8, 111u8, 100u8, 105u8, 110u8, 103u8];
    assert(r@ =~= k_encoding());
    r
}

/// The key `/Resources`.
pub open spec fn k_resources() -> Seq<u8> {
    seq![82u8, 101u8, 115u8, 111u8, 117u8, 114u8, 99u8, 101u8, 115u8]
}

/// The key `/Resources`.
pub fn key_resources() -> (r: Vec<u8>)
    ensures
        r@ == k_resources(),
{
    let r = vec![82u8, 101u8, 115u8, 111u8, 117u8, 114u8, 99u8, 101u8, 115u8];
    assert(r@ =~= k_resources());
    r
}

/// The key `/XObject`.
pub open spec fn k_xobject() -> Seq<u8> {
    seq![88u8, 79u8, 98u8, 106u8, 101u8, 99u8, 116u8]
}

/// The key `/XObject`.
pub fn key_xobject() -> (r: Vec<u8>)
    ensures
        r@ == k_xobject(),
{
    let r = vec![88u8, 79u8, 98u8, 106u8, 101u8, 99u8, 116u8];
    assert(r@ =~= k_xobject());
    r
}

/// The key `/Contents`.
pub open spec fn k_contents() -> Seq<u8> {
    seq![67u8, 111u8, 110u8, 116u8, 101u8, 110u8, 116u8, 115u8]
}

/// The key `/Contents`.
pub fn key_contents() -> (r: Vec<u8>)
    ensures
        r@ == k_contents(),
{
    let r = vec![67u8, 111u8, 110u8, 116u8, 101u8, 110u8, 116u8, 115u8];
    assert(r@ =~= k_contents());
    r
}

/// The key `/Length`.
pub open spec fn k_length() -> Seq<u8> {
    seq![76u8, 101u8, 110u8, 103u8, 116u8, 104u8]
}

/// The key `/Length`.
pub fn key_length() -> (r: Vec<u8>)
    ensures
        r@ == k_length(),
{
    let r = vec![76u8, 101u8, 110u8, 103u8, 116u8, 104u8];
    assert(r@ =~= k_length());
    r
}

/// The key `/BBox`.
pub open spec fn k_bbox() -> Seq<u8> {
    seq![66u8, 66u8, 111u8, 120u8]
}

/// The key `/BBox`.
pub fn key_bbox() -> (r: Vec<u8>)
    ensures
        r@ == k_bbox(),
{
    let r = vec![66u8, 66u8, 111u8, 120u8];
    assert(r@ =~= k_bbox());
    r
}

/// The key `/FormType`.
pub open spec fn k_formtype() -> Seq<u8> {
    seq![70u8, 111u8, 114u8, 109u8, 84u8, 121u8, 112u8, 101u8]
}

/// The key `/FormType`.
pub fn key_formtype() -> (r: Vec<u8>)
    ensures
        r@ == k_formtype(),
{
    let r = vec![70u8, 111u8, 114u8, 109u8, 84u8, 121u8, 112u8, 101u8];
    assert(r@ =~= k_formtype());
    r
}

/// The key `/Rotate`.
pub open spec fn k_rotate() -> Seq<u8> {
    seq![82u8, 111u8, 116u8, 97u8, 116u8, 101u8]
}

/// The key `/Rotate`.
pub fn key_rotate() -> (r: Vec<u8>)
    ensures
        r@ == k_rotate(),
{
    let r = vec![82u8, 111u8, 116u8, 97u8, 116u8, 101u8];
    assert(r@ =~= k_rotate());
    r
}

/// The key `/Off`.
pub open spec fn k_off() -> Seq<u8> {
    seq![79u8, 102u8, 102u8]
}

/// The key `/Off`.
pub fn key_off() -> (r: Vec<u8>)
    ensures
        r@ == k_off(),
{
    let r = vec![79u8, 102u8, 102u8];
    assert(r@ =~= k_off());
    r
}

/// The text `Widget`.
pub open spec fn w_widget() -> Seq<char> {
    seq!['W', 'i', 'd', 'g', 'e', 't']
}

/// The text `Widget`.
pub fn word_widget() -> (r: Vec<char>)
    ensures
        r@ == w_widget(),
{
    let r = vec!['W', 'i', 'd', 'g', 'e', 't'];
    assert(r@ =~= w_widget());
    r
}

/// The text `Tx`.
pub open spec fn w_tx() -> Seq<char> {
    seq!['T', 'x']
}

/// The text `Tx`.
pub fn word_tx() -> (r: Vec<char>)
    ensures
        r@ == w_tx(),
{
    let r = vec!['T', 'x'];
    assert(r@ =~= w_tx());
    r
}

/// The text `Btn`.
pub open spec fn w_btn() -> Seq<char> {
    seq!['B', 't', 'n']
}

/// The text `Btn`.
pub fn word_btn() -> (r: Vec<char>)
    ensures
        r@ == w_btn(),
{
    let r = vec!['B', 't', 'n'];
    assert(r@ =~= w_btn());
    r
}

/// The text `Ch`.
pub open spec fn w_ch() -> Seq<char> {
    seq!['C', 'h']
}

/// The text `Ch`.
pub fn word_ch() -> (r: Vec<char>)
    ensures
        r@ == w_ch(),
{
    let r = vec!['C', 'h'];
    assert(r@ =~= w_ch());
    r
}

/// The text `Helv`.
pub open spec fn w_helv() -> Seq<char> {
    seq!['H', 'e', 'l', 'v']
}

/// The text `Helv`.
pub fn word_helv() -> (r: Vec<char>)
    ensures
        r@ == w_helv(),
{
    let r = vec!['H', 'e', 'l', 'v'];
    assert(r@ =~= w_helv());
    r
}

/// The text `Helvetica`.
pub open spec fn w_helvetica() -> Seq<char> {
    seq!['H', 'e', 'l', 'v', 'e', 't', 'i', 'c', 'a']
}

/// The text `Helvetica`.
pub fn word_helvetica() -> (r: Vec<char>)
    ensures
        r@ == w_helvetica(),
{
    let r = vec!['H', 'e', 'l', 'v', 'e', 't', 'i', 'c', 'a'];
    assert(r@ =~= w_helvetica());
    r
}

/// The text `TiRo`.
pub open spec fn w_tiro() -> Seq<char> {
    seq!['T', 'i', 'R', 'o']
}

/// The text `TiRo`.
pub fn word_tiro() -> (r: Vec<char>)
    ensures
        r@ == w_tiro(),
{
    let r = vec!['T', 'i', 'R', 'o'];
    assert(r@ =~= w_tiro());
    r
}

/// The text `Times-Roman`.
pub open spec fn w_times_roman() -> Seq<char> {
    seq!['T', 'i', 'm', 'e', 's', '-', 'R', 'o', 'm', 'a', 'n']
}

/// The text `Times-Roman`.
pub fn word_times_roman() -> (r: Vec<char>)
    ensures
        r@ == w_times_roman(),
{
    let r = vec!['T', 'i', 'm', 'e', 's', '-', 'R', 'o', 'm', 'a', 'n'];
    assert(r@ =~= w_times_roman());
    r
}

/// The text `Cour`.
pub open spec fn w_cour() -> Seq<char> {
    seq!['C', 'o', 'u', 'r']
}

/// The text `Cour`.
pub fn word_cour() -> (r: Vec<char>)
    ensures
        r@ == w_cour(),
{
    let r = vec!['C', 'o', 'u', 'r'];
    assert(r@ =~= w_cour());
    r
}

/// The text `Courier`.
pub open spec fn w_courier() -> Seq<char> {
    seq!['C', 'o', 'u', 'r', 'i', 'e', 'r']
}

/// The text `Courier`.
pub fn word_courier() -> (r: Vec<char>)
    ensures
        r@ == w_courier(),
{
    let r = vec!['C', 'o', 'u', 'r', 'i', 'e', 'r'];
    assert(r@ =~= w_courier());
    r
}

/// The text `Symb`.
pub open spec fn w_symb() -> Seq<char> {
    seq!['S', 'y', 'm', 'b']
}

/// The text `Symb`.
pub fn word_symb() -> (r: Vec<char>)
    ensures
        r@ == w_symb(),
{
    let r = vec!['S', 'y', 'm', 'b'];
    assert(r@ =~= w_symb());
    r
}

/// The text `Symbol`.
pub open spec fn w_symbol() -> Seq<char> {
    seq!['S', 'y', 'm', 'b', 'o', 'l']
}

/// The text `Symbol`.
pub fn word_symbol() -> (r: Vec<char>)
    ensures
        r@ == w_symbol(),
{
    let r = vec!['S', 'y', 'm', 'b', 'o', 'l'];
    assert(r@ =~= w_symbol());
    r
}

/// The text `ZaDb`.
pub open spec fn w_zadb() -> Seq<char> {
    seq!['Z', 'a', 'D', 'b']
}

/// The text `ZaDb`.
pub fn word_zadb() -> (r: Vec<char>)
    ensures
        r@ == w_zadb(),
{
    let r = vec!['Z', 'a', 'D', 'b'];
    assert(r@ =~= w_zadb());
    r
}

/// The text `ZapfDingbats`.
pub open spec fn w_zapfdingbats() -> Seq<char> {
    seq!['Z', 'a', 'p', 'f', 'D', 'i', 'n', 'g', 'b', 'a', 't', 's']
}

/// The text `ZapfDingbats`.
pub fn word_zapfdingbats() -> (r: Vec<char>)
    ensures
        r@ == w_zapfdingbats(),
{
    let r = vec!['Z', 'a', 'p', 'f', 'D', 'i', 'n', 'g', 'b', 'a', 't', 's'];
    assert(r@ =~= w_zapfdingbats());
    r
}

/// The text `Form`.
pub open spec fn w_form() -> Seq<char> {
    seq!['F', 'o', 'r', 'm']
}

/// The text `Form`.
pub fn word_form() -> (r: Vec<char>)
    ensures
        r@ == w_form(),
{
    let r = vec!['F', 'o', 'r', 'm'];
    assert(r@ =~= w_form());
    r
}

/// The text `Font`.
pub open spec fn w_font() -> Seq<char> {
    seq!['F', 'o', 'n', 't']
}

/// The text `Font`.
pub fn word_font() -> (r: Vec<char>)
    ensures
        r@ == w_font(),
{
    let r = vec!['F', 'o', 'n', 't'];
    assert(r@ =~= w_font());
    r
}

/// The text `Type1`.
pub open spec fn w_type1() -> Seq<char> {
    seq!['T', 'y', 'p', 'e', '1']
}

/// The text `Type1`.
pub fn word_type1() -> (r: Vec<char>)
    ensures
        r@ == w_type1(),
{
    let r = vec!['T', 'y', 'p', 'e', '1'];
    assert(r@ =~= w_type1());
    r
}

/// The text `WinAnsiEncoding`.
pub open spec fn w_winansiencoding() -> Seq<char> {
    seq!['W', 'i', 'n', 'A', 'n', 's', 'i', 'E', 'n', 'c', 'o', 'd', 'i', 'n', 'g']
}

/// The text `WinAnsiEncoding`.
pub fn word_winansiencoding() -> (r: Vec<char>)
    ensures
        r@ == w_winansiencoding(),
{
    let r = vec!['W', 'i', 'n', 'A', 'n', 's', 'i', 'E', 'n', 'c', 'o', 'd', 'i', 'n', 'g'];
    assert(r@ =~= w_winansiencoding());
    r
}

} // verus!
