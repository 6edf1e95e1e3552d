//! Character-level helpers: PDF name normalisation, text decoding and
//! encoding, content-stream escaping, key suffixing and button-state
//! resolution.
use vstd::prelude::*;
use vstd::utf8::{decode_utf8, encode_utf8, valid_utf8};

verus! {

// ---------------------------------------------------------------------------
// Basic conversions between `str`/`String` and character vectors
// ---------------------------------------------------------------------------
/// Trusted: `String::push` appends exactly one character.
#[verifier::external_body]
pub(crate) fn push_char(s: &mut String, c: char)
    ensures
        final(s)@ == old(s)@.push(c),
{
    s.push(c)
}

/// The characters of `s`, in order.
pub fn to_chars(s: &str) -> (v: Vec<char>)
    ensures
        v@ == s@,
{
    broadcast use vstd::string::axiom_spec_iter;

    let mut v: Vec<char> = Vec::new();
    for c in it: s.chars()
        invariant
            it.seq() == s@,
            v@ == it.seq().take(it.index() as int),
    {
        assert(it.seq().take(it.index() + 1) =~= it.seq().take(it.index() as int).push(c));
        v.push(c);
    }
    assert(s@.take(s@.len() as int) =~= s@);
    v
}

/// A `String` holding exactly the characters of `v`.
pub fn string_from_chars(v: &[char]) -> (s: String)
    ensures
        s@ == v@,
{
    let mut s = String::new();
    let mut i: usize = 0;
    while i < v.len()
        invariant
            i <= v.len(),
            s@ == v@.take(i as int),
        decreases v.len() - i,
    {
        push_char(&mut s, v[i]);
        assert(v@.take(i + 1) =~= v@.take(i as int).push(v@[i as int]));
        i += 1;
    }
    assert(v@.take(v.len() as int) =~= v@);
    s
}

/// Character-sequence equality.
pub fn chars_eq(a: &[char], b: &[char]) -> (r: bool)
    ensures
        r == (a@ == b@),
{
    if a.len() != b.len() {
        return false;
    }
    let mut i: usize = 0;
    while i < a.len()
        invariant
            i <= a.len(),
            a.len() == b.len(),
            forall|j: int| 0 <= j < i ==> a@[j] == b@[j],
        decreases a.len() - i,
    {
        if a[i] != b[i] {
            return false;
        }
        i += 1;
    }
    assert(a@ =~= b@);
    true
}

/// Byte-sequence equality.
pub fn bytes_eq(a: &[u8], b: &[u8]) -> (r: bool)
    ensures
        r == (a@ == b@),
{
    if a.len() != b.len() {
        return false;
    }
    let mut i: usize = 0;
    while i < a.len()
        invariant
            i <= a.len(),
            a.len() == b.len(),
            forall|j: int| 0 <= j < i ==> a@[j] == b@[j],
        decreases a.len() - i,
    {
        if a[i] != b[i] {
            return false;
        }
        i += 1;
    }
    assert(a@ =~= b@);
    true
}

/// A copy of a byte slice.
pub fn copy_bytes(a: &[u8]) -> (r: Vec<u8>)
    ensures
        r@ == a@,
{
    let mut r: Vec<u8> = Vec::new();
    let mut i: usize = 0;
    while i < a.len()
        invariant
            i <= a.len(),
            r@ == a@.take(i as int),
        decreases a.len() - i,
    {
        r.push(a[i]);
        assert(a@.take(i + 1) =~= a@.take(i as int).push(a@[i as int]));
        i += 1;
    }
    assert(a@.take(a.len() as int) =~= a@);
    r
}

/// The UTF-8 bytes of a text.
pub fn utf8_bytes(s: &str) -> (r: Vec<u8>)
    ensures
        r@ == encode_utf8(s@),
{
    copy_bytes(s.as_bytes())
}

/// A copy of a string.
pub fn copy_string(s: &String) -> (r: String)
    ensures
        r@ == s@,
{
    let v = to_chars(s.as_str());
    string_from_chars(v.as_slice())
}

// ---------------------------------------------------------------------------
// Name normalisation
// ---------------------------------------------------------------------------
/// `s` without its leading `/` characters (all of them).
pub open spec fn strip_slashes(s: Seq<char>) -> Seq<char>
    decreases s.len(),
{
    if s.len() > 0 && s[0] == '/' {
        strip_slashes(s.drop_first())
    } else {
        s
    }
}

/// `s` with exactly one leading `/`.
pub open spec fn slashed(s: Seq<char>) -> Seq<char> {
    seq!['/'] + strip_slashes(s)
}

proof fn lemma_strip_slashes_skip(s: Seq<char>, i: int)
    requires
        0 <= i <= s.len(),
        forall|j: int| 0 <= j < i ==> s[j] == '/',
    ensures
        strip_slashes(s) == strip_slashes(s.skip(i)),
    decreases i,
{
    if i > 0 {
        assert(s[0] == '/');
        assert(s.drop_first().skip(i - 1) =~= s.skip(i));
        lemma_strip_slashes_skip(s.drop_first(), i - 1);
    } else {
        assert(s.skip(0) =~= s);
    }
}

fn strip_slashes_chars(v: &[char]) -> (r: Vec<char>)
    ensures
        r@ == strip_slashes(v@),
{
    let mut i: usize = 0;
    while i < v.len() && v[i] == '/'
        invariant
            i <= v.len(),
            forall|j: int| 0 <= j < i ==> v@[j] == '/',
        decreases v.len() - i,
    {
        i += 1;
    }
    proof {
        lemma_strip_slashes_skip(v@, i as int);
        assert(strip_slashes(v@.skip(i as int)) == v@.skip(i as int));
    }
    let mut r: Vec<char> = Vec::new();
    let mut k: usize = i;
    while k < v.len()
        invariant
            i <= k <= v.len(),
            r@ == v@.subrange(i as int, k as int),
        decreases v.len() - k,
    {
        r.push(v[k]);
        assert(v@.subrange(i as int, k + 1) =~= v@.subrange(i as int, k as int).push(v@[k as int]));
        k += 1;
    }
    assert(r@ =~= v@.skip(i as int));
    r
}

/// The name without its leading slashes (`"/Yes"` becomes `"Yes"`).
pub fn normalize_name(name: &str) -> (r: String)
    ensures
        r@ == strip_slashes(name@),
{
    let v = to_chars(name);
    let s = strip_slashes_chars(v.as_slice());
    string_from_chars(s.as_slice())
}

/// The name with exactly one leading slash (`"Yes"` and `"/Yes"` both become `"/Yes"`).
pub fn slash_name(name: &str) -> (r: String)
    ensures
        r@ == slashed(name@),
{
    let v = to_chars(name);
    let s = strip_slashes_chars(v.as_slice());
    let mut out: Vec<char> = Vec::new();
    out.push('/');
    let mut i: usize = 0;
    while i < s.len()
        invariant
            i <= s.len(),
            out@ == seq!['/'] + s@.take(i as int),
        decreases s.len() - i,
    {
        out.push(s[i]);
        assert(s@.take(i + 1) =~= s@.take(i as int).push(s@[i as int]));
        assert(seq!['/'] + s@.take(i + 1) =~= (seq!['/'] + s@.take(i as int)).push(s@[i as int]));
        i += 1;
    }
    assert(s@.take(s.len() as int) =~= s@);
    string_from_chars(out.as_slice())
}

// ---------------------------------------------------------------------------
// ASCII case and Unicode white space
// ---------------------------------------------------------------------------
/// The ASCII lower-case form of a character (other characters unchanged).
pub open spec fn ascii_lower(c: char) -> char {
    if 'A' <= c && c <= 'Z' {
        ((c as u32) + 32) as char
    } else {
        c
    }
}

/// Lower-cases the ASCII letters of a character sequence.
pub open spec fn lower_seq(s: Seq<char>) -> Seq<char> {
    Seq::new(s.len(), |i: int| ascii_lower(s[i]))
}

/// Equality up to ASCII case (what `str::eq_ignore_ascii_case` decides).
pub open spec fn eq_ignore_case(a: Seq<char>, b: Seq<char>) -> bool {
    lower_seq(a) == lower_seq(b)
}

/// The characters with the Unicode `White_Space` property (what
/// `char::is_whitespace` decides).
pub open spec fn is_white_space(c: char) -> bool {
    let u = c as u32;
    (0x9 <= u <= 0xD) || u == 0x20 || u == 0x85 || u == 0xA0 || u == 0x1680 || (0x2000 <= u
        <= 0x200A) || u == 0x2028 || u == 0x2029 || u == 0x202F || u == 0x205F || u == 0x3000
}

fn white_space(c: char) -> (r: bool)
    ensures
        r == is_white_space(c),
{
    let u = c as u32;
    (0x9 <= u && u <= 0xD) || u == 0x20 || u == 0x85 || u == 0xA0 || u == 0x1680 || (0x2000 <= u
        && u <= 0x200A) || u == 0x2028 || u == 0x2029 || u == 0x202F || u == 0x205F || u == 0x3000
}

fn lower_char(c: char) -> (r: char)
    ensures
        r == ascii_lower(c),
{
    if 'A' <= c && c <= 'Z' {
        let b = c as u8;
        (b + 32) as char
    } else {
        c
    }
}

/// Lower-cases the ASCII letters of `v`.
pub fn lower_chars(v: &[char]) -> (r: Vec<char>)
    ensures
        r@ == lower_seq(v@),
{
    let mut r: Vec<char> = Vec::new();
    let mut i: usize = 0;
    while i < v.len()
        invariant
            i <= v.len(),
            r.len() == i,
            forall|j: int| 0 <= j < i ==> r@[j] == ascii_lower(v@[j]),
        decreases v.len() - i,
    {
        r.push(lower_char(v[i]));
        i += 1;
    }
    assert(r@ =~= lower_seq(v@));
    r
}

/// Equality of two character sequences up to ASCII case.
pub fn chars_eq_ignore_case(a: &[char], b: &[char]) -> (r: bool)
    ensures
        r == eq_ignore_case(a@, b@),
{
    let la = lower_chars(a);
    let lb = lower_chars(b);
    chars_eq(la.as_slice(), lb.as_slice())
}

/// `s` without leading and trailing white space (what `str::trim` gives).
pub open spec fn trimmed(s: Seq<char>) -> Seq<char> {
    if exists|i: int| 0 <= i < s.len() && !is_white_space(s[i]) {
        let a = choose|a: int|
            0 <= a < s.len() && !is_white_space(s[a]) && forall|j: int|
                0 <= j < a ==> is_white_space(s[j]);
        let b = choose|b: int|
            0 <= b < s.len() && !is_white_space(s[b]) && forall|j: int|
                b < j < s.len() ==> is_white_space(s[j]);
        s.subrange(a, b + 1)
    } else {
        seq![]
    }
}

fn trim_chars(v: &[char]) -> (r: Vec<char>)
    ensures
        r@ == trimmed(v@),
{
    let mut a: usize = 0;
    while a < v.len() && white_space(v[a])
        invariant
            a <= v.len(),
            forall|j: int| 0 <= j < a ==> is_white_space(v@[j]),
        decreases v.len() - a,
    {
        a += 1;
    }
    if a == v.len() {
        assert(!exists|i: int| 0 <= i < v@.len() && !is_white_space(v@[i]));
        return Vec::new();
    }
    let mut b: usize = v.len() - 1;
    while white_space(v[b])
        invariant
            a <= b < v.len(),
            !is_white_space(v@[a as int]),
            forall|j: int| b < j < v.len() ==> is_white_space(v@[j]),
        decreases b,
    {
        b -= 1;
    }
    let ghost s = v@;
    proof {
        let aa = choose|x: int|
            0 <= x < s.len() && !is_white_space(s[x]) && forall|j: int|
                0 <= j < x ==> is_white_space(s[j]);
        assert(0 <= a < s.len() && !is_white_space(s[a as int]) && forall|j: int|
            0 <= j < a ==> is_white_space(s[j]));
        assert(aa == a) by {
            if aa < a {
                assert(is_white_space(s[aa]));
            }
            if aa > a {
                assert(is_white_space(s[a as int]));
            }
        }
        let bb = choose|x: int|
            0 <= x < s.len() && !is_white_space(s[x]) && forall|j: int|
                x < j < s.len() ==> is_white_space(s[j]);
        assert(0 <= b < s.len() && !is_white_space(s[b as int]) && forall|j: int|
            b < j < s.len() ==> is_white_space(s[j]));
        assert(bb == b) by {
            if bb < b {
                assert(is_white_space(s[b as int]));
            }
            if bb > b {
                assert(is_white_space(s[bb]));
            }
        }
    }
    let mut r: Vec<char> = Vec::new();
    let mut k: usize = a;
    while k <= b
        invariant
            a <= k <= b + 1,
            b < v.len(),
            r@ == v@.subrange(a as int, k as int),
        decreases b + 1 - k,
    {
        r.push(v[k]);
        assert(v@.subrange(a as int, k + 1) =~= v@.subrange(a as int, k as int).push(v@[k as int]));
        k += 1;
    }
    r
}

// ---------------------------------------------------------------------------
// Button states
// ---------------------------------------------------------------------------
/// The first state equal (up to ASCII case, ignoring leading slashes) to `req`.
pub open spec fn first_exact_state(states: Seq<Seq<char>>, req: Seq<char>) -> Option<Seq<char>>
    decreases states.len(),
{
    if states.len() == 0 {
        None
    } else if eq_ignore_case(strip_slashes(states[0]), req) {
        Some(states[0])
    } else {
        first_exact_state(states.drop_first(), req)
    }
}

/// The first state that is not the `Off` state.
pub open spec fn first_on_state(states: Seq<Seq<char>>) -> Option<Seq<char>>
    decreases states.len(),
{
    if states.len() == 0 {
        None
    } else if !eq_ignore_case(strip_slashes(states[0]), seq!['O', 'f', 'f']) {
        Some(states[0])
    } else {
        first_on_state(states.drop_first())
    }
}

/// Requested values that mean "not selected".
pub open spec fn is_off_alias(low: Seq<char>) -> bool {
    low == Seq::<char>::empty() || low == seq!['o', 'f', 'f'] || low == seq![
        'f',
        'a',
        'l',
        's',
        'e',
    ] || low == seq!['u', 'n', 'c', 'h', 'e', 'c', 'k', 'e', 'd'] || low == seq!['n', 'o']
        || low == seq!['0']
}

/// Requested values that mean "selected".
pub open spec fn is_on_alias(low: Seq<char>) -> bool {
    low == seq!['o', 'n'] || low == seq!['t', 'r', 'u', 'e'] || low == seq![
        'c',
        'h',
        'e',
        'c',
        'k',
        'e',
        'd',
    ] || low == seq!['y', 'e', 's'] || low == seq!['1']
}

/// The `/Off` state name.
pub open spec fn off_state() -> Seq<char> {
    seq!['/', 'O', 'f', 'f']
}

/// The appearance state chosen for a requested button value: an exact state
/// first, then the boolean-like aliases.
pub open spec fn spec_resolve_button_state(states: Seq<Seq<char>>, requested: Seq<char>) -> Option<
    Seq<char>,
> {
    let req = trimmed(strip_slashes(requested));
    let low = lower_seq(req);
    match first_exact_state(states, req) {
        Some(s) => Some(slashed(s)),
        None => {
            if is_off_alias(low) {
                Some(off_state())
            } else if is_on_alias(low) {
                match first_on_state(states) {
                    Some(s) => Some(slashed(s)),
                    None => None,
                }
            } else {
                None
            }
        },
    }
}

/// The views of a slice of strings.
pub open spec fn string_views(v: Seq<String>) -> Seq<Seq<char>> {
    v.map_values(|s: String| s@)
}

proof fn lemma_first_exact_step(s: Seq<Seq<char>>, req: Seq<char>, i: int)
    requires
        0 <= i < s.len(),
    ensures
        first_exact_state(s.skip(i), req) == (if eq_ignore_case(strip_slashes(s[i]), req) {
            Some(s[i])
        } else {
            first_exact_state(s.skip(i + 1), req)
        }),
{
    assert(s.skip(i).drop_first() =~= s.skip(i + 1));
}

proof fn lemma_first_on_step(s: Seq<Seq<char>>, i: int)
    requires
        0 <= i < s.len(),
    ensures
        first_on_state(s.skip(i)) == (if !eq_ignore_case(strip_slashes(s[i]), seq!['O', 'f', 'f']) {
            Some(s[i])
        } else {
            first_on_state(s.skip(i + 1))
        }),
{
    assert(s.skip(i).drop_first() =~= s.skip(i + 1));
}

fn find_exact_state(states: &[String], req: &[char]) -> (r: Option<usize>)
    ensures
        r matches Some(i) ==> i < states.len() && first_exact_state(string_views(states@), req@)
            == Some(states@[i as int]@),
        r is None ==> first_exact_state(string_views(states@), req@) is None,
{
    let ghost sv = string_views(states@);
    assert(sv.skip(0) =~= sv);
    let mut i: usize = 0;
    while i < states.len()
        invariant
            i <= states.len(),
            sv == string_views(states@),
            first_exact_state(sv, req@) == first_exact_state(sv.skip(i as int), req@),
        decreases states.len() - i,
    {
        let sc = to_chars(states[i].as_str());
        let ns = strip_slashes_chars(sc.as_slice());
        proof {
            lemma_first_exact_step(sv, req@, i as int);
        }
        if chars_eq_ignore_case(ns.as_slice(), req) {
            return Some(i);
        }
        i += 1;
    }
    assert(sv.skip(states.len() as int) =~= Seq::<Seq<char>>::empty());
    None
}

fn find_on_state(states: &[String]) -> (r: Option<usize>)
    ensures
        r matches Some(i) ==> i < states.len() && first_on_state(string_views(states@)) == Some(
            states@[i as int]@,
        ),
        r is None ==> first_on_state(string_views(states@)) is None,
{
    let ghost sv = string_views(states@);
    assert(sv.skip(0) =~= sv);
    let off_word = vec!['O', 'f', 'f'];
    let mut k: usize = 0;
    while k < states.len()
        invariant
            k <= states.len(),
            sv == string_views(states@),
            off_word@ == seq!['O', 'f', 'f'],
            first_on_state(sv) == first_on_state(sv.skip(k as int)),
        decreases states.len() - k,
    {
        let sc = to_chars(states[k].as_str());
        let ns = strip_slashes_chars(sc.as_slice());
        proof {
            lemma_first_on_step(sv, k as int);
        }
        if !chars_eq_ignore_case(ns.as_slice(), off_word.as_slice()) {
            return Some(k);
        }
        k += 1;
    }
    assert(sv.skip(states.len() as int) =~= Seq::<Seq<char>>::empty());
    None
}

fn off_alias(low: &[char]) -> (r: bool)
    ensures
        r == is_off_alias(low@),
{
    let off = vec!['o', 'f', 'f'];
    let fals = vec!['f', 'a', 'l', 's', 'e'];
    let unch = vec!['u', 'n', 'c', 'h', 'e', 'c', 'k', 'e', 'd'];
    let no = vec!['n', 'o'];
    let zero = vec!['0'];
    assert(low@.len() == 0 <==> low@ =~= Seq::<char>::empty());
    assert(off@ =~= seq!['o', 'f', 'f']);
    assert(fals@ =~= seq!['f', 'a', 'l', 's', 'e']);
    assert(unch@ =~= seq!['u', 'n', 'c', 'h', 'e', 'c', 'k', 'e', 'd']);
    assert(no@ =~= seq!['n', 'o']);
    assert(zero@ =~= seq!['0']);
    low.len() == 0 || chars_eq(low, off.as_slice()) || chars_eq(low, fals.as_slice()) || chars_eq(
        low,
        unch.as_slice(),
    ) || chars_eq(low, no.as_slice()) || chars_eq(low, zero.as_slice())
}

fn on_alias(low: &[char]) -> (r: bool)
    ensures
        r == is_on_alias(low@),
{
    let on = vec!['o', 'n'];
    let tru = vec!['t', 'r', 'u', 'e'];
    let chk = vec!['c', 'h', 'e', 'c', 'k', 'e', 'd'];
    let yes = vec!['y', 'e', 's'];
    let one = vec!['1'];
    assert(on@ =~= seq!['o', 'n']);
    assert(tru@ =~= seq!['t', 'r', 'u', 'e']);
    assert(chk@ =~= seq!['c', 'h', 'e', 'c', 'k', 'e', 'd']);
    assert(yes@ =~= seq!['y', 'e', 's']);
    assert(one@ =~= seq!['1']);
    chars_eq(low, on.as_slice()) || chars_eq(low, tru.as_slice()) || chars_eq(low, chk.as_slice())
        || chars_eq(low, yes.as_slice()) || chars_eq(low, one.as_slice())
}

/// Resolve a requested button value to an exact PDF appearance state.
///
/// Exact states take precedence (compared without leading slashes and up to
/// ASCII case). Otherwise `""`, `off`, `false`, `unchecked`, `no` and `0`
/// give `/Off`, and `on`, `true`, `checked`, `yes` and `1` give the first
/// state that is not `Off`.
pub fn resolve_button_state(states: &[String], requested: &str) -> (r: Option<String>)
    ensures
        r matches Some(s) ==> spec_resolve_button_state(string_views(states@), requested@)
            == Some(s@),
        r is None <==> spec_resolve_button_state(string_views(states@), requested@) is None,
{
    let req_chars = to_chars(requested);
    let stripped = strip_slashes_chars(req_chars.as_slice());
    let req = trim_chars(stripped.as_slice());
    let low = lower_chars(req.as_slice());
    match find_exact_state(states, req.as_slice()) {
        Some(i) => {
            return Some(slash_name(states[i].as_str()));
        },
        None => {},
    }
    if off_alias(low.as_slice()) {
        let o = vec!['/', 'O', 'f', 'f'];
        return Some(string_from_chars(o.as_slice()));
    }
    if on_alias(low.as_slice()) {
        match find_on_state(states) {
            Some(k) => {
                return Some(slash_name(states[k].as_str()));
            },
            None => {
                return None;
            },
        }
    }
    None
}

// ---------------------------------------------------------------------------
// Decimal numbers
// ---------------------------------------------------------------------------
/// The decimal digit character for `d < 10`.
pub open spec fn digit_char(d: nat) -> char {
    ((48 + d) as u8) as char
}

/// The decimal representation of `n`, without leading zeros.
pub open spec fn decimal(n: nat) -> Seq<char>
    decreases n,
{
    if n < 10 {
        seq![digit_char(n)]
    } else {
        decimal(n / 10).push(digit_char(n % 10))
    }
}

/// The decimal representation of `n`.
pub fn decimal_chars(n: u128) -> (r: Vec<char>)
    ensures
        r@ == decimal(n as nat),
    decreases n,
{
    if n < 10 {
        let d = ((n as u8) + 48) as char;
        vec![d]
    } else {
        let mut r = decimal_chars(n / 10);
        let d = (((n % 10) as u8) + 48) as char;
        r.push(d);
        r
    }
}

// ---------------------------------------------------------------------------
// Key suffixing
// ---------------------------------------------------------------------------
/// `p` is a prefix of `s`.
pub open spec fn is_prefix(p: Seq<char>, s: Seq<char>) -> bool {
    p.len() <= s.len() && s.subrange(0, p.len() as int) == p
}

/// The number of keys that start with `p`.
pub open spec fn count_prefixed(keys: Seq<Seq<char>>, p: Seq<char>) -> nat
    decreases keys.len(),
{
    if keys.len() == 0 {
        0
    } else {
        count_prefixed(keys.drop_last(), p) + (if is_prefix(p, keys.last()) {
            1nat
        } else {
            0nat
        })
    }
}

/// The keys of a list of (key, value) entries.
pub open spec fn entry_keys(entries: Seq<(String, Option<String>)>) -> Seq<Seq<char>> {
    entries.map_values(|e: (String, Option<String>)| e.0@)
}

/// The key under which a value for `base` is stored: `base` itself when it is
/// free, else `base.N` where `N` is two more than the number of keys that
/// already start with `base.`.
pub open spec fn spec_indexed_key(base: Seq<char>, keys: Seq<Seq<char>>) -> Seq<char> {
    if !keys.contains(base) {
        base
    } else {
        base.push('.') + decimal(count_prefixed(keys, base.push('.')) + 2)
    }
}

fn starts_with_chars(s: &[char], p: &[char]) -> (r: bool)
    ensures
        r == is_prefix(p@, s@),
{
    if p.len() > s.len() {
        return false;
    }
    let mut i: usize = 0;
    while i < p.len()
        invariant
            i <= p.len() <= s.len(),
            forall|j: int| 0 <= j < i ==> s@[j] == p@[j],
        decreases p.len() - i,
    {
        if s[i] != p[i] {
            return false;
        }
        i += 1;
    }
    assert(s@.subrange(0, p@.len() as int) =~= p@);
    true
}

/// The key for a new text-field entry named `base`, suffixed as pypdf does
/// when `base` is taken (`city`, then `city.2`, `city.3`, ...).
pub fn indexed_key(base: &str, fields: &[(String, Option<String>)]) -> (r: String)
    ensures
        r@ == spec_indexed_key(base@, entry_keys(fields@)),
{
    let ghost keys = entry_keys(fields@);
    let b = to_chars(base);
    let mut found = false;
    let mut i: usize = 0;
    while i < fields.len()
        invariant
            i <= fields.len(),
            keys == entry_keys(fields@),
            b@ == base@,
            found == (exists|j: int| 0 <= j < i && keys[j] == base@),
        decreases fields.len() - i,
    {
        let k = to_chars(fields[i].0.as_str());
        assert(keys[i as int] == fields@[i as int].0@);
        if chars_eq(k.as_slice(), b.as_slice()) {
            found = true;
        }
        i += 1;
    }
    if !found {
        assert(!keys.contains(base@));
        return string_from_chars(b.as_slice());
    }
    let mut prefix = b;
    prefix.push('.');
    let mut count: usize = 0;
    let mut k: usize = 0;
    while k < fields.len()
        invariant
            k <= fields.len(),
            keys == entry_keys(fields@),
            prefix@ == base@.push('.'),
            count <= k,
            count == count_prefixed(keys.take(k as int), prefix@),
        decreases fields.len() - k,
    {
        let kc = to_chars(fields[k].0.as_str());
        assert(keys[k as int] == fields@[k as int].0@);
        assert(keys.take(k + 1).drop_last() =~= keys.take(k as int));
        if starts_with_chars(kc.as_slice(), prefix.as_slice()) {
            count += 1;
        }
        k += 1;
    }
    assert(keys.take(fields.len() as int) =~= keys);
    let digits = decimal_chars(count as u128 + 2);
    let mut out = prefix;
    let mut d: usize = 0;
    while d < digits.len()
        invariant
            d <= digits.len(),
            out@ == base@.push('.') + digits@.take(d as int),
        decreases digits.len() - d,
    {
        out.push(digits[d]);
        assert(digits@.take(d + 1) =~= digits@.take(d as int).push(digits@[d as int]));
        assert(base@.push('.') + digits@.take(d + 1) =~= (base@.push('.') + digits@.take(
            d as int,
        )).push(digits@[d as int]));
        d += 1;
    }
    assert(digits@.take(digits.len() as int) =~= digits@);
    string_from_chars(out.as_slice())
}

// ---------------------------------------------------------------------------
// Text decoding and encoding
// ---------------------------------------------------------------------------
/// Trusted: `std::str::from_utf8` accepts exactly the valid UTF-8 byte
/// sequences and decodes them.
#[verifier::external_body]
fn utf8_decode(bytes: &[u8]) -> (r: Option<String>)
    ensures
        r is Some <==> valid_utf8(bytes@),
        r matches Some(s) ==> s@ == decode_utf8(bytes@),
{
    std::str::from_utf8(bytes).ok().map(|s| s.to_owned())
}

/// Each byte read as the character with the same code point (Latin-1).
pub open spec fn latin1(bytes: Seq<u8>) -> Seq<char> {
    Seq::new(bytes.len(), |i: int| bytes[i] as char)
}

/// PDFDocEncoding as this library reads it: UTF-8 when the bytes are valid
/// UTF-8, else Latin-1.
pub open spec fn spec_doc_decode(bytes: Seq<u8>) -> Seq<char> {
    if valid_utf8(bytes) {
        decode_utf8(bytes)
    } else {
        latin1(bytes)
    }
}

/// Decode bytes as UTF-8 when valid, else as Latin-1 (byte to code point).
pub fn decode_pdf_doc_encoding(bytes: &[u8]) -> (r: String)
    ensures
        r@ == spec_doc_decode(bytes@),
{
    match utf8_decode(bytes) {
        Some(s) => s,
        None => {
            let mut v: Vec<char> = Vec::new();
            let mut i: usize = 0;
            while i < bytes.len()
                invariant
                    i <= bytes.len(),
                    v.len() == i,
                    forall|j: int| 0 <= j < i ==> v@[j] == bytes@[j] as char,
                decreases bytes.len() - i,
            {
                v.push(bytes[i] as char);
                i += 1;
            }
            assert(v@ =~= latin1(bytes@));
            string_from_chars(v.as_slice())
        },
    }
}

/// A name's bytes read as text.
pub fn bytes_to_string(bytes: &[u8]) -> (r: String)
    ensures
        r@ == spec_doc_decode(bytes@),
{
    decode_pdf_doc_encoding(bytes)
}

pub open spec fn is_high_surrogate(u: u16) -> bool {
    0xD800 <= u <= 0xDBFF
}

pub open spec fn is_low_surrogate(u: u16) -> bool {
    0xDC00 <= u <= 0xDFFF
}

/// Lossy UTF-16 decoding: surrogate pairs are combined, and each unpaired
/// surrogate becomes U+FFFD.
pub open spec fn utf16_lossy(units: Seq<u16>) -> Seq<char>
    decreases units.len(),
{
    if units.len() == 0 {
        seq![]
    } else if !is_high_surrogate(units[0]) && !is_low_surrogate(units[0]) {
        seq![(units[0] as u32) as char] + utf16_lossy(units.drop_first())
    } else if is_high_surrogate(units[0]) && units.len() >= 2 && is_low_surrogate(units[1]) {
        seq![
            ((0x10000 + (units[0] - 0xD800) * 0x400 + (units[1] - 0xDC00)) as u32) as char,
        ] + utf16_lossy(units.subrange(2, units.len() as int))
    } else {
        seq!['\u{FFFD}'] + utf16_lossy(units.drop_first())
    }
}

/// Trusted: `String::from_utf16_lossy` decodes UTF-16 code units, replacing
/// each unpaired surrogate by U+FFFD.
#[verifier::external_body]
fn utf16_decode_lossy(units: &[u16]) -> (r: String)
    ensures
        r@ == utf16_lossy(units@),
{
    String::from_utf16_lossy(units)
}

/// The big-endian 16-bit units of `bytes` (an even number of them).
pub open spec fn be_units(bytes: Seq<u8>) -> Seq<u16> {
    Seq::new(bytes.len() / 2, |i: int| (bytes[2 * i] as int * 256 + bytes[2 * i + 1] as int) as u16)
}

/// Text strings: UTF-16BE after a `FE FF` byte-order mark (an even number of
/// bytes in all), else PDFDocEncoding.
pub open spec fn spec_decode_pdf_text(bytes: Seq<u8>) -> Seq<char> {
    if bytes.len() >= 2 && bytes[0] == 0xFE && bytes[1] == 0xFF && bytes.len() % 2 == 0 {
        utf16_lossy(be_units(bytes.skip(2)))
    } else {
        spec_doc_decode(bytes)
    }
}

/// Decode a PDF text string.
pub fn decode_pdf_text(bytes: &[u8]) -> (r: String)
    ensures
        r@ == spec_decode_pdf_text(bytes@),
{
    if bytes.len() >= 2 && bytes[0] == 0xFE && bytes[1] == 0xFF && bytes.len() % 2 == 0 {
        let ghost body = bytes@.skip(2);
        let mut units: Vec<u16> = Vec::new();
        let mut index: usize = 2;
        while index + 1 < bytes.len()
            invariant
                2 <= index <= bytes.len(),
                index % 2 == 0,
                bytes.len() % 2 == 0,
                body == bytes@.skip(2),
                units.len() == (index - 2) / 2,
                forall|j: int|
                    0 <= j < units.len() ==> units@[j] == (body[2 * j] as int * 256
                        + body[2 * j + 1] as int) as u16,
            decreases bytes.len() - index,
        {
            let hi = bytes[index] as u16;
            let lo = bytes[index + 1] as u16;
            let u: u16 = hi * 256 + lo;
            units.push(u);
            index += 2;
        }
        assert(units@ =~= be_units(body));
        return utf16_decode_lossy(units.as_slice());
    }
    decode_pdf_doc_encoding(bytes)
}

/// The UTF-16 code units of one character.
pub open spec fn utf16_of_char(c: char) -> Seq<u16> {
    let u = c as u32;
    if u < 0x10000 {
        seq![u as u16]
    } else {
        seq![
            (0xD800 + (u - 0x10000) / 0x400) as u16,
            (0xDC00 + (u - 0x10000) % 0x400) as u16,
        ]
    }
}

/// The big-endian bytes of one code unit.
pub open spec fn be_bytes(u: u16) -> Seq<u8> {
    seq![(u / 256) as u8, (u % 256) as u8]
}

/// The UTF-16BE bytes of a character sequence.
pub open spec fn utf16be(s: Seq<char>) -> Seq<u8>
    decreases s.len(),
{
    if s.len() == 0 {
        seq![]
    } else {
        let units = utf16_of_char(s.last());
        let tail = if units.len() == 1 {
            be_bytes(units[0])
        } else {
            be_bytes(units[0]) + be_bytes(units[1])
        };
        utf16be(s.drop_last()) + tail
    }
}

/// The bytes of a PDF text string for `s`: the `FE FF` mark, then UTF-16BE.
pub open spec fn spec_encode_pdf_text(s: Seq<char>) -> Seq<u8> {
    seq![0xFEu8, 0xFFu8] + utf16be(s)
}

fn push_unit(out: &mut Vec<u8>, u: u16)
    ensures
        final(out)@ == old(out)@ + be_bytes(u),
{
    out.push((u / 256) as u8);
    out.push((u % 256) as u8);
    assert(final(out)@ =~= old(out)@ + be_bytes(u));
}

/// The bytes of a PDF text string (UTF-16BE with a byte-order mark) for `text`.
pub fn encode_pdf_text(text: &str) -> (r: Vec<u8>)
    ensures
        r@ == spec_encode_pdf_text(text@),
{
    let chars = to_chars(text);
    let mut out: Vec<u8> = Vec::new();
    out.push(0xFEu8);
    out.push(0xFFu8);
    let mut i: usize = 0;
    while i < chars.len()
        invariant
            i <= chars.len(),
            out@ == seq![0xFEu8, 0xFFu8] + utf16be(chars@.take(i as int)),
        decreases chars.len() - i,
    {
        let c = chars[i];
        let u = c as u32;
        assert(chars@.take(i + 1).drop_last() =~= chars@.take(i as int));
        let ghost before = out@;
        if u < 0x10000 {
            push_unit(&mut out, u as u16);
        } else {
            assert(u <= 0x10FFFF) by {
                vstd::utf8::char_is_scalar(c);
            }
            let v = u - 0x10000;
            push_unit(&mut out, (0xD800 + v / 0x400) as u16);
            push_unit(&mut out, (0xDC00 + v % 0x400) as u16);
        }
        assert(out@ =~= seq![0xFEu8, 0xFFu8] + utf16be(chars@.take(i + 1)));
        i += 1;
    }
    assert(chars@.take(chars.len() as int) =~= chars@);
    out
}

// ---------------------------------------------------------------------------
// Content-stream escaping
// ---------------------------------------------------------------------------
/// How one character is written inside a literal string of a content stream.
pub open spec fn escape_char(c: char) -> Seq<char> {
    if c == '\\' {
        seq!['\\', '\\']
    } else if c == '(' {
        seq!['\\', '(']
    } else if c == ')' {
        seq!['\\', ')']
    } else if c == '\r' || c == '\n' {
        seq![' ']
    } else if (c as u32) < 128 {
        seq![c]
    } else {
        seq!['?']
    }
}

/// The escaped form of a character sequence.
pub open spec fn escape_seq(s: Seq<char>) -> Seq<char>
    decreases s.len(),
{
    if s.len() == 0 {
        seq![]
    } else {
        escape_seq(s.drop_last()) + escape_char(s.last())
    }
}

/// Escape text for a content-stream literal string: backslash and parentheses
/// are escaped, line breaks become spaces, other non-ASCII characters become `?`.
pub fn escape_content_text(text: &str) -> (r: String)
    ensures
        r@ == escape_seq(text@),
{
    let chars = to_chars(text);
    let mut out: Vec<char> = Vec::new();
    let mut i: usize = 0;
    while i < chars.len()
        invariant
            i <= chars.len(),
            out@ == escape_seq(chars@.take(i as int)),
        decreases chars.len() - i,
    {
        let c = chars[i];
        assert(chars@.take(i + 1).drop_last() =~= chars@.take(i as int));
        let ghost before = out@;
        if c == '\\' {
            out.push('\\');
            out.push('\\');
        } else if c == '(' {
            out.push('\\');
            out.push('(');
        } else if c == ')' {
            out.push('\\');
            out.push(')');
        } else if c == '\r' || c == '\n' {
            out.push(' ');
        } else if (c as u32) < 128 {
            out.push(c);
        } else {
            out.push('?');
        }
        assert(out@ =~= before + escape_char(c));
        i += 1;
    }
    assert(chars@.take(chars.len() as int) =~= chars@);
    string_from_chars(out.as_slice())
}

/// Appends the characters `s` to `out`.
pub fn append_chars(out: &mut Vec<char>, s: &[char])
    ensures
        final(out)@ == old(out)@ + s@,
{
    let mut i: usize = 0;
    while i < s.len()
        invariant
            i <= s.len(),
            out@ == old(out)@ + s@.take(i as int),
        decreases s.len() - i,
    {
        out.push(s[i]);
        assert(s@.take(i + 1) =~= s@.take(i as int).push(s@[i as int]));
        assert(old(out)@ + s@.take(i + 1) =~= (old(out)@ + s@.take(i as int)).push(s@[i as int]));
        i += 1;
    }
    assert(s@.take(s.len() as int) =~= s@);
}

/// The texts joined with `sep` between them.
pub open spec fn join(l: Seq<Seq<char>>, sep: Seq<char>) -> Seq<char>
    decreases l.len(),
{
    if l.len() == 0 {
        seq![]
    } else if l.len() == 1 {
        l[0]
    } else {
        join(l.drop_last(), sep) + sep + l.last()
    }
}

/// Joins the texts with `sep` between them.
pub fn join_strings(l: &Vec<String>, sep: &str) -> (r: String)
    ensures
        r@ == join(string_views(l@), sep@),
{
    let ghost ls = string_views(l@);
    let sc = to_chars(sep);
    let mut out: Vec<char> = Vec::new();
    let mut i: usize = 0;
    while i < l.len()
        invariant
            ls == string_views(l@),
            sc@ == sep@,
            i <= l.len(),
            out@ == join(ls.take(i as int), sep@),
        decreases l.len() - i,
    {
        let ghost before = out@;
        assert(ls.take(i + 1).drop_last() =~= ls.take(i as int));
        assert(ls.take(i + 1).last() == l@[i as int]@);
        if i > 0 {
            append_chars(&mut out, sc.as_slice());
        } else {
            assert(ls.take(0) =~= Seq::<Seq<char>>::empty());
        }
        let c = to_chars(l[i].as_str());
        append_chars(&mut out, c.as_slice());
        i += 1;
    }
    assert(ls.take(l.len() as int) =~= ls);
    string_from_chars(out.as_slice())
}

} // verus!
