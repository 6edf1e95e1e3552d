//! Ordering of texts (the order of `String`, which is code-point order) and
//! ordered insertion into key-sorted lists.
use vstd::prelude::*;
use crate::text::{chars_eq, string_from_chars, to_chars};

verus! {

/// `a` comes before `b` in code-point lexicographic order.
pub open spec fn lex_lt(a: Seq<char>, b: Seq<char>) -> bool
    decreases a.len(),
{
    if a.len() == 0 {
        b.len() > 0
    } else if b.len() == 0 {
        false
    } else if a[0] != b[0] {
        (a[0] as u32) < (b[0] as u32)
    } else {
        lex_lt(a.drop_first(), b.drop_first())
    }
}

proof fn lemma_lex_skip(a: Seq<char>, b: Seq<char>, i: int)
    requires
        0 <= i <= a.len(),
        i <= b.len(),
        forall|j: int| 0 <= j < i ==> a[j] == b[j],
    ensures
        lex_lt(a, b) == lex_lt(a.skip(i), b.skip(i)),
    decreases i,
{
    if i == 0 {
        assert(a.skip(0) =~= a);
        assert(b.skip(0) =~= b);
    } else {
        assert(a.drop_first().skip(i - 1) =~= a.skip(i));
        assert(b.drop_first().skip(i - 1) =~= b.skip(i));
        lemma_lex_skip(a.drop_first(), b.drop_first(), i - 1);
    }
}

/// Code-point lexicographic comparison.
pub fn lex_less(a: &[char], b: &[char]) -> (r: bool)
    ensures
        r == lex_lt(a@, b@),
{
    let mut i: usize = 0;
    while i < a.len() && i < b.len() && a[i] == b[i]
        invariant
            i <= a.len(),
            i <= b.len(),
            forall|j: int| 0 <= j < i ==> a@[j] == b@[j],
        decreases a.len() - i,
    {
        i += 1;
    }
    proof {
        lemma_lex_skip(a@, b@, i as int);
    }
    let ghost sa = a@.skip(i as int);
    let ghost sb = b@.skip(i as int);
    if i == a.len() {
        assert(sa.len() == 0);
        i < b.len()
    } else if i == b.len() {
        assert(sb.len() == 0);
        false
    } else {
        assert(sa[0] == a@[i as int] && sb[0] == b@[i as int]);
        (a[i] as u32) < (b[i] as u32)
    }
}

/// The number of leading keys that come before `k`: where `k` goes in a list
/// sorted by key.
pub open spec fn ins_pos(keys: Seq<Seq<char>>, k: Seq<char>) -> nat
    decreases keys.len(),
{
    if keys.len() == 0 {
        0
    } else if !lex_lt(keys[0], k) {
        0
    } else {
        1 + ins_pos(keys.drop_first(), k)
    }
}

proof fn lemma_ins_pos_step(keys: Seq<Seq<char>>, k: Seq<char>, i: int)
    requires
        0 <= i < keys.len(),
        forall|j: int| 0 <= j < i ==> lex_lt(keys[j], k),
    ensures
        ins_pos(keys, k) == i + ins_pos(keys.skip(i), k),
    decreases i,
{
    if i == 0 {
        assert(keys.skip(0) =~= keys);
    } else {
        assert(keys.drop_first().skip(i - 1) =~= keys.skip(i));
        lemma_ins_pos_step(keys.drop_first(), k, i - 1);
    }
}

proof fn lemma_ins_pos_end(keys: Seq<Seq<char>>, k: Seq<char>)
    requires
        forall|j: int| 0 <= j < keys.len() ==> lex_lt(keys[j], k),
    ensures
        ins_pos(keys, k) == keys.len(),
    decreases keys.len(),
{
    if keys.len() > 0 {
        lemma_ins_pos_end(keys.drop_first(), k);
    }
}

/// Where `k` goes among `keys`.
pub fn insert_position(keys: &Vec<Vec<char>>, k: &[char]) -> (r: usize)
    ensures
        r == ins_pos(keys@.map_values(|v: Vec<char>| v@), k@),
        r <= keys.len(),
{
    let ghost ks = keys@.map_values(|v: Vec<char>| v@);
    let mut i: usize = 0;
    while i < keys.len()
        invariant
            ks == keys@.map_values(|v: Vec<char>| v@),
            i <= keys.len(),
            forall|j: int| 0 <= j < i ==> lex_lt(ks[j], k@),
        decreases keys.len() - i,
    {
        if !lex_less(keys[i].as_slice(), k) {
            proof {
                lemma_ins_pos_step(ks, k@, i as int);
                assert(ks.skip(i as int)[0] == ks[i as int]);
            }
            return i;
        }
        i += 1;
    }
    proof {
        lemma_ins_pos_end(ks, k@);
    }
    i
}

/// `s` with `x` added at its place, unless `x` is already there.
pub open spec fn set_insert(s: Seq<Seq<char>>, x: Seq<char>) -> Seq<Seq<char>> {
    let p = ins_pos(s, x) as int;
    if p < s.len() && s[p] == x {
        s
    } else {
        s.insert(p, x)
    }
}

/// The texts of `s`, sorted, each once.
pub open spec fn sort_dedup(s: Seq<Seq<char>>) -> Seq<Seq<char>>
    decreases s.len(),
{
    if s.len() == 0 {
        seq![]
    } else {
        set_insert(sort_dedup(s.drop_last()), s.last())
    }
}

/// Sorts the texts and drops repeats.
pub fn sort_dedup_strings(v: &Vec<String>) -> (r: Vec<String>)
    ensures
        r@.map_values(|s: String| s@) == sort_dedup(v@.map_values(|s: String| s@)),
{
    let ghost vs = v@.map_values(|s: String| s@);
    let mut acc: Vec<Vec<char>> = Vec::new();
    let mut i: usize = 0;
    while i < v.len()
        invariant
            vs == v@.map_values(|s: String| s@),
            i <= v.len(),
            acc@.map_values(|c: Vec<char>| c@) == sort_dedup(vs.take(i as int)),
        decreases v.len() - i,
    {
        let c = to_chars(v[i].as_str());
        assert(vs.take(i + 1).drop_last() =~= vs.take(i as int));
        assert(vs[i as int] == v@[i as int]@);
        let ghost before = acc@.map_values(|c: Vec<char>| c@);
        let p = insert_position(&acc, c.as_slice());
        if p < acc.len() && chars_eq(acc[p].as_slice(), c.as_slice()) {
        } else {
            acc.insert(p, c);
            assert(acc@.map_values(|c: Vec<char>| c@) =~= before.insert(p as int, vs[i as int]));
        }
        i += 1;
    }
    assert(vs.take(v.len() as int) =~= vs);
    let mut r: Vec<String> = Vec::new();
    let mut k: usize = 0;
    while k < acc.len()
        invariant
            k <= acc.len(),
            r.len() == k,
            forall|j: int| 0 <= j < k ==> r@[j]@ == acc@[j]@,
        decreases acc.len() - k,
    {
        r.push(string_from_chars(acc[k].as_slice()));
        k += 1;
    }
    assert(r@.map_values(|s: String| s@) =~= acc@.map_values(|c: Vec<char>| c@));
    r
}

/// The keys of a key-sorted list of entries.
pub open spec fn smap_keys<V>(m: Seq<(Seq<char>, V)>) -> Seq<Seq<char>> {
    m.map_values(|e: (Seq<char>, V)| e.0)
}

/// `m` with `k` mapped to `v`: a present key gets the new value, a new key
/// goes before the first key that is not smaller.
pub open spec fn smap_insert<V>(m: Seq<(Seq<char>, V)>, k: Seq<char>, v: V) -> Seq<(Seq<char>, V)> {
    let p = ins_pos(smap_keys(m), k) as int;
    if p < m.len() && m[p].0 == k {
        m.update(p, (k, v))
    } else {
        m.insert(p, (k, v))
    }
}


/// The first element of `s` that satisfies `p`.
pub open spec fn first_match<T>(s: Seq<T>, p: spec_fn(T) -> bool) -> Option<T>
    decreases s.len(),
{
    if s.len() == 0 {
        None
    } else {
        match first_match(s.drop_last(), p) {
            Some(x) => Some(x),
            None => if p(s.last()) {
                Some(s.last())
            } else {
                None
            },
        }
    }
}

/// A match in a prefix is the first match of the whole.
pub proof fn lemma_first_match_prefix<T>(s: Seq<T>, p: spec_fn(T) -> bool, i: int)
    requires
        0 <= i <= s.len(),
        first_match(s.take(i), p) is Some,
    ensures
        first_match(s, p) == first_match(s.take(i), p),
    decreases s.len() - i,
{
    if i == s.len() {
        assert(s.take(i) =~= s);
    } else {
        assert(s.take(i + 1).drop_last() =~= s.take(i));
        lemma_first_match_prefix(s, p, i + 1);
    }
}

/// One more element examined.
pub proof fn lemma_first_match_step<T>(s: Seq<T>, p: spec_fn(T) -> bool, i: int)
    requires
        0 <= i < s.len(),
    ensures
        first_match(s.take(i + 1), p) == match first_match(s.take(i), p) {
            Some(x) => Some(x),
            None => if p(s[i]) {
                Some(s[i])
            } else {
                None
            },
        },
{
    assert(s.take(i + 1).drop_last() =~= s.take(i));
    assert(s.take(i + 1).last() == s[i]);
}


} // verus!
