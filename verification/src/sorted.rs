//! Ordered collections of strings: strictly sorted string sets (the shape of a
//! `BTreeSet<String>` walked in order) and key/value pair lists (the shape of a
//! `BTreeMap<String, String>` walked in order).
use vstd::prelude::*;
use crate::text::{chars_of, compare_strings, eq_chars, lemma_lex_asymmetric, lemma_lex_irreflexive, lemma_lex_transitive, lex_lt, Order};

verus! {

/// The characters of each string.
pub open spec fn strs(v: Seq<String>) -> Seq<Seq<char>> {
    Seq::new(v.len(), |i: int| v[i]@)
}

pub proof fn lemma_strs_push(v: Seq<String>, x: String)
    ensures
        strs(v.push(x)) == strs(v).push(x@),
{
    assert(strs(v.push(x)) =~= strs(v).push(x@));
}

/// Every element sorts strictly before the next one.
pub open spec fn strictly_sorted(s: Seq<Seq<char>>) -> bool {
    forall|i: int, j: int| 0 <= i < j < s.len() ==> lex_lt(#[trigger] s[i], #[trigger] s[j])
}

/// The strictly sorted sequence of the elements of a finite set of texts:
/// what collecting a `BTreeSet<String>` gives.
pub open spec fn is_sorted_set_of(s: Seq<Seq<char>>, set: Set<Seq<char>>) -> bool {
    strictly_sorted(s) && s.to_set() == set
}

/// The strictly sorted sequence of the elements of `set` (for a finite set;
/// there is exactly one).
pub open spec fn sorted_of(set: Set<Seq<char>>) -> Seq<Seq<char>> {
    choose|s: Seq<Seq<char>>| is_sorted_set_of(s, set)
}

/// A strictly sorted sequence is the sorted sequence of its elements.
pub proof fn lemma_sorted_of(s: Seq<Seq<char>>, set: Set<Seq<char>>)
    requires
        is_sorted_set_of(s, set),
    ensures
        sorted_of(set) == s,
{
    let t = sorted_of(set);
    assert(is_sorted_set_of(t, set));
    lemma_sorted_set_unique(t, s);
}

pub proof fn lemma_sorted_no_dup(s: Seq<Seq<char>>)
    requires
        strictly_sorted(s),
    ensures
        s.no_duplicates(),
{
    assert forall|i: int, j: int| 0 <= i < s.len() && 0 <= j < s.len() && i != j implies s[i]
        != s[j] by {
        if i < j {
            lemma_lex_asymmetric(s[i], s[j]);
        } else {
            lemma_lex_asymmetric(s[j], s[i]);
        }
    }
}

/// Two strictly sorted sequences with the same elements are equal.
pub proof fn lemma_sorted_set_unique(a: Seq<Seq<char>>, b: Seq<Seq<char>>)
    requires
        strictly_sorted(a),
        strictly_sorted(b),
        a.to_set() == b.to_set(),
    ensures
        a == b,
    decreases a.len(),
{
    lemma_sorted_no_dup(a);
    lemma_sorted_no_dup(b);
    a.unique_seq_to_set();
    b.unique_seq_to_set();
    if a.len() == 0 {
        assert(b.len() == 0);
        assert(a =~= b);
    } else {
        assert(a.to_set().contains(a.last()));
        assert(b.to_set().contains(b.last()));
        let ia = choose|i: int| 0 <= i < a.len() && a[i] == b.last();
        let ib = choose|i: int| 0 <= i < b.len() && b[i] == a.last();
        if ia < a.len() - 1 {
            assert(lex_lt(a[ia], a[a.len() - 1]));
            if ib < b.len() - 1 {
                assert(lex_lt(b[ib], b[b.len() - 1]));
                lemma_lex_asymmetric(a.last(), b.last());
            } else {
                lemma_lex_irreflexive(a.last());
            }
        } else if ib < b.len() - 1 {
            assert(lex_lt(b[ib], b[b.len() - 1]));
            lemma_lex_irreflexive(a.last());
        }
        assert(a.last() == b.last());
        let a2 = a.drop_last();
        let b2 = b.drop_last();
        assert forall|x: Seq<char>| a2.to_set().contains(x) implies b2.to_set().contains(x) by {
            let i = choose|i: int| 0 <= i < a2.len() && a2[i] == x;
            assert(a.to_set().contains(x));
            let j = choose|j: int| 0 <= j < b.len() && b[j] == x;
            if j == b.len() - 1 {
                assert(lex_lt(a[i], a[a.len() - 1]));
                lemma_lex_irreflexive(x);
            }
            assert(b2[j] == x);
        }
        assert forall|x: Seq<char>| b2.to_set().contains(x) implies a2.to_set().contains(x) by {
            let i = choose|i: int| 0 <= i < b2.len() && b2[i] == x;
            assert(b.to_set().contains(x));
            let j = choose|j: int| 0 <= j < a.len() && a[j] == x;
            if j == a.len() - 1 {
                assert(lex_lt(b[i], b[b.len() - 1]));
                lemma_lex_irreflexive(x);
            }
            assert(a2[j] == x);
        }
        assert(a2.to_set() =~= b2.to_set());
        lemma_sorted_set_unique(a2, b2);
        assert(a =~= a2.push(a.last()));
        assert(b =~= b2.push(b.last()));
    }
}

/// Adds `x` to the strictly sorted string set `v`; returns whether it was new.
pub fn set_insert(v: &mut Vec<String>, x: String) -> (added: bool)
    requires
        strictly_sorted(strs(old(v)@)),
    ensures
        strictly_sorted(strs(final(v)@)),
        strs(final(v)@).to_set() == strs(old(v)@).to_set().insert(x@),
        added == !strs(old(v)@).contains(x@),
{
    let ghost s0 = strs(v@);
    let mut i: usize = 0;
    let mut stop = false;
    while !stop && i < v.len()
        invariant
            i <= v.len(),
            s0 == strs(v@),
            s0 == strs(old(v)@),
            strictly_sorted(s0),
            forall|k: int| 0 <= k < i ==> lex_lt(#[trigger] s0[k], x@),
            stop ==> i < v.len() && lex_lt(x@, s0[i as int]),
        decreases v.len() - i + if stop { 0int } else { 1int },
    {
        let c = compare_strings(&v[i], &x);
        match c {
            Order::Before => {
                i += 1;
            },
            Order::Same => {
                assert(s0[i as int] == x@);
                assert(s0.to_set().contains(x@));
                assert(s0.to_set().insert(x@) =~= s0.to_set());
                return false;
            },
            Order::After => {
                stop = true;
            },
        }
    }
    proof {
        assert forall|k: int| 0 <= k < s0.len() implies s0[k] != x@ by {
            if k < i {
                lemma_lex_asymmetric(s0[k], x@);
            } else {
                if k > i {
                    assert(lex_lt(s0[i as int], s0[k]));
                    lemma_lex_transitive(x@, s0[i as int], s0[k]);
                }
                lemma_lex_asymmetric(x@, s0[k]);
            }
        }
    }
    let ghost xv = x@;
    v.insert(i, x);
    proof {
        let s1 = strs(v@);
        assert(s1 =~= s0.insert(i as int, xv));
        assert forall|a: int, b: int| 0 <= a < b < s1.len() implies lex_lt(
            #[trigger] s1[a],
            #[trigger] s1[b],
        ) by {
            if b < i {
                assert(s1[a] == s0[a] && s1[b] == s0[b]);
            } else if b == i {
                assert(s1[a] == s0[a]);
            } else if a == i {
                assert(s1[b] == s0[b - 1]);
                if b - 1 > i {
                    assert(lex_lt(s0[i as int], s0[b - 1]));
                    lemma_lex_transitive(xv, s0[i as int], s0[b - 1]);
                }
            } else if a < i {
                assert(s1[a] == s0[a] && s1[b] == s0[b - 1]);
            } else {
                assert(s1[a] == s0[a - 1] && s1[b] == s0[b - 1]);
            }
        }
        assert forall|y: Seq<char>| s1.to_set().contains(y) <==> s0.to_set().insert(xv).contains(
            y,
        ) by {
            if s1.to_set().contains(y) {
                let k = choose|k: int| 0 <= k < s1.len() && s1[k] == y;
                if k < i {
                    assert(s0[k] == y);
                } else if k > i {
                    assert(s0[k - 1] == y);
                }
            }
            if s0.to_set().contains(y) {
                let k = choose|k: int| 0 <= k < s0.len() && s0[k] == y;
                if k < i {
                    assert(s1[k] == y);
                } else {
                    assert(s1[k + 1] == y);
                }
            }
            if y == xv {
                assert(s1[i as int] == y);
            }
        }
        assert(s1.to_set() =~= s0.to_set().insert(xv));
    }
    true
}

/// Removes `x` from the strictly sorted string set `v`; returns whether it
/// was there.
pub fn set_remove(v: &mut Vec<String>, x: &String) -> (removed: bool)
    requires
        strictly_sorted(strs(old(v)@)),
    ensures
        strictly_sorted(strs(final(v)@)),
        strs(final(v)@).to_set() == strs(old(v)@).to_set().remove(x@),
        removed == strs(old(v)@).contains(x@),
{
    let ghost s0 = strs(v@);
    let mut i: usize = 0;
    while i < v.len()
        invariant
            i <= v.len(),
            s0 == strs(v@),
            s0 == strs(old(v)@),
            strictly_sorted(s0),
            forall|k: int| 0 <= k < i ==> s0[k] != x@,
        decreases v.len() - i,
    {
        if crate::text::string_eq(&v[i], x) {
            v.remove(i);
            proof {
                lemma_sorted_no_dup(s0);
                let s1 = strs(v@);
                assert(s1 =~= s0.remove(i as int));
                assert forall|a: int, b: int| 0 <= a < b < s1.len() implies lex_lt(
                    #[trigger] s1[a],
                    #[trigger] s1[b],
                ) by {
                    if a < i {
                        if b < i {
                            assert(s1[b] == s0[b]);
                        } else {
                            assert(s1[b] == s0[b + 1]);
                        }
                    } else {
                        assert(s1[a] == s0[a + 1] && s1[b] == s0[b + 1]);
                    }
                }
                assert(s0[i as int] == x@);
                assert forall|y: Seq<char>| s1.contains(y) implies s0.contains(y) && y != x@ by {
                    let k = choose|k: int| 0 <= k < s1.len() && s1[k] == y;
                    if k < i {
                        assert(s0[k] == y);
                        assert(k != i);
                    } else {
                        assert(s0[k + 1] == y);
                        assert(k + 1 != i);
                    }
                }
                assert forall|y: Seq<char>| s0.contains(y) && y != x@ implies s1.contains(y) by {
                    let k = choose|k: int| 0 <= k < s0.len() && s0[k] == y;
                    if k < i {
                        assert(s1[k] == y);
                    } else {
                        assert(k != i);
                        assert(s1[k - 1] == y);
                    }
                }
                assert(s1.to_set() =~= s0.to_set().remove(x@));
                assert(s0[i as int] == x@);
            }
            return true;
        }
        i += 1;
    }
    assert(!s0.contains(x@));
    assert(s0.to_set().remove(x@) =~= s0.to_set());
    false
}

/// Adds every element of `items` to the strictly sorted string set `v`.
pub fn set_extend(v: &mut Vec<String>, items: &Vec<String>)
    requires
        strictly_sorted(strs(old(v)@)),
    ensures
        strictly_sorted(strs(final(v)@)),
        strs(final(v)@).to_set() == strs(old(v)@).to_set() + strs(items@).to_set(),
{
    let ghost s0 = strs(v@).to_set();
    let mut i: usize = 0;
    while i < items.len()
        invariant
            i <= items.len(),
            strictly_sorted(strs(v@)),
            strs(v@).to_set() == s0 + strs(items@.subrange(0, i as int)).to_set(),
        decreases items.len() - i,
    {
        let x = items[i].clone();
        let ghost before = strs(v@).to_set();
        set_insert(v, x);
        proof {
            let p0 = strs(items@.subrange(0, i as int));
            let p1 = strs(items@.subrange(0, i + 1));
            assert(p1 =~= p0.push(items@[i as int]@));
            assert(p1.to_set() =~= p0.to_set().insert(items@[i as int]@)) by {
                p0.lemma_push_to_set_commute(items@[i as int]@);
            }
            assert(strs(v@).to_set() =~= s0 + p1.to_set());
        }
        i += 1;
    }
    assert(items@.subrange(0, i as int) =~= items@);
}

/// `items` collected into a `BTreeSet` and walked in order: sorted, without
/// duplicates.
pub fn unique_sorted(items: Vec<String>) -> (r: Vec<String>)
    ensures
        is_sorted_set_of(strs(r@), strs(items@).to_set()),
{
    let mut r: Vec<String> = Vec::new();
    assert(strs(r@).to_set() =~= Set::empty());
    set_extend(&mut r, &items);
    assert(strs(r@).to_set() =~= strs(items@).to_set());
    r
}

// ---------------------------------------------------------------------------
// Key/value pairs
// ---------------------------------------------------------------------------

/// The characters of each key and value.
pub open spec fn pairs(v: Seq<(String, String)>) -> Seq<(Seq<char>, Seq<char>)> {
    Seq::new(v.len(), |i: int| (v[i].0@, v[i].1@))
}

/// The keys of a pair list.
pub open spec fn keys(s: Seq<(Seq<char>, Seq<char>)>) -> Seq<Seq<char>> {
    Seq::new(s.len(), |i: int| s[i].0)
}

/// The value that the pair list gives `k`: the value of the last pair with
/// that key, as when the pairs are inserted into a map one after the other.
pub open spec fn pair_get(s: Seq<(Seq<char>, Seq<char>)>, k: Seq<char>) -> Option<Seq<char>>
    decreases s.len(),
{
    if s.len() == 0 {
        None
    } else if s.last().0 == k {
        Some(s.last().1)
    } else {
        pair_get(s.drop_last(), k)
    }
}

pub proof fn lemma_pair_get_index(s: Seq<(Seq<char>, Seq<char>)>, k: Seq<char>)
    ensures
        pair_get(s, k) is None <==> (forall|i: int| 0 <= i < s.len() ==> s[i].0 != k),
        pair_get(s, k) is Some ==> exists|i: int|
            0 <= i < s.len() && s[i].0 == k && s[i].1 == pair_get(s, k)->0 && (forall|j: int|
                i < j < s.len() ==> s[j].0 != k),
    decreases s.len(),
{
    if s.len() > 0 {
        let t = s.drop_last();
        lemma_pair_get_index(t, k);
        if s.last().0 == k {
            assert(s[s.len() - 1].0 == k);
        } else if pair_get(t, k) is Some {
            let i = choose|i: int|
                0 <= i < t.len() && t[i].0 == k && t[i].1 == pair_get(t, k)->0 && (forall|j: int|
                    i < j < t.len() ==> t[j].0 != k);
            assert(s[i] == t[i]);
            assert forall|j: int| i < j < s.len() implies s[j].0 != k by {
                if j < t.len() {
                    assert(s[j] == t[j]);
                }
            }
        } else {
            assert forall|i: int| 0 <= i < s.len() implies s[i].0 != k by {
                if i < t.len() {
                    assert(s[i] == t[i]);
                }
            }
        }
    }
}

/// For a list with strictly sorted keys, the value of a key is the value at
/// its one position.
pub proof fn lemma_pair_get_sorted(s: Seq<(Seq<char>, Seq<char>)>, i: int)
    requires
        strictly_sorted(keys(s)),
        0 <= i < s.len(),
    ensures
        pair_get(s, s[i].0) == Some(s[i].1),
{
    lemma_pair_get_index(s, s[i].0);
    let j = choose|j: int|
        0 <= j < s.len() && s[j].0 == s[i].0 && s[j].1 == pair_get(s, s[i].0)->0 && (forall|
            l: int,
        | j < l < s.len() ==> s[l].0 != s[i].0);
    if i != j {
        if i < j {
            assert(lex_lt(keys(s)[i], keys(s)[j]));
        } else {
            assert(lex_lt(keys(s)[j], keys(s)[i]));
        }
        lemma_lex_irreflexive(s[i].0);
    }
}

/// The value the pair list gives `key`, if any.
pub fn lookup(v: &Vec<(String, String)>, key: &Vec<char>) -> (r: Option<String>)
    ensures
        match r {
            Some(x) => pair_get(pairs(v@), key@) == Some(x@),
            None => pair_get(pairs(v@), key@) is None,
        },
{
    let mut i: usize = v.len();
    assert(pairs(v@).subrange(0, i as int) =~= pairs(v@));
    while i > 0
        invariant
            i <= v.len(),
            pair_get(pairs(v@), key@) == pair_get(pairs(v@).subrange(0, i as int), key@),
        decreases i,
    {
        let kv = chars_of(v[i - 1].0.as_str());
        let ghost t = pairs(v@).subrange(0, i as int);
        assert(t.drop_last() =~= pairs(v@).subrange(0, i - 1));
        if eq_chars(&kv, key) {
            return Some(v[i - 1].1.clone());
        }
        i -= 1;
    }
    None
}

/// The value the pair list gives `key`, if any.
pub fn lookup_str(v: &Vec<(String, String)>, key: &str) -> (r: Option<String>)
    ensures
        match r {
            Some(x) => pair_get(pairs(v@), key@) == Some(x@),
            None => pair_get(pairs(v@), key@) is None,
        },
{
    let k = chars_of(key);
    lookup(v, &k)
}

/// Sets `key` to `value` in a pair list whose keys are strictly sorted,
/// keeping them sorted (`BTreeMap::insert`).
pub fn put_pair(v: &mut Vec<(String, String)>, key: String, value: String)
    requires
        strictly_sorted(keys(pairs(old(v)@))),
    ensures
        strictly_sorted(keys(pairs(final(v)@))),
        forall|k: Seq<char>|
            #[trigger] pair_get(pairs(final(v)@), k) == if k == key@ {
                Some(value@)
            } else {
                pair_get(pairs(old(v)@), k)
            },
{
    let ghost s0 = pairs(v@);
    let ghost k0 = keys(s0);
    let ghost kx = key@;
    let ghost vx = value@;
    let mut i: usize = 0;
    let mut replace = false;
    let mut stop = false;
    while !stop && i < v.len()
        invariant
            i <= v.len(),
            s0 == pairs(v@),
            k0 == keys(s0),
            kx == key@,
            strictly_sorted(k0),
            forall|k: int| 0 <= k < i ==> lex_lt(#[trigger] k0[k], kx),
            stop ==> i < v.len(),
            stop && replace ==> k0[i as int] == kx,
            stop && !replace ==> lex_lt(kx, k0[i as int]),
            !stop ==> !replace,
        decreases v.len() - i + if stop { 0int } else { 1int },
    {
        let c = compare_strings(&v[i].0, &key);
        match c {
            Order::Before => {
                i += 1;
            },
            Order::Same => {
                replace = true;
                stop = true;
            },
            Order::After => {
                stop = true;
            },
        }
    }
    proof {
        assert forall|k: int| 0 <= k < s0.len() && k != i implies k0[k] != kx by {
            if k < i {
                lemma_lex_asymmetric(k0[k], kx);
            } else if i < k0.len() {
                assert(lex_lt(k0[i as int], k0[k]));
                if replace {
                    lemma_lex_asymmetric(kx, k0[k]);
                } else {
                    lemma_lex_transitive(kx, k0[i as int], k0[k]);
                    lemma_lex_asymmetric(kx, k0[k]);
                }
            }
        }
        if !replace && i < s0.len() {
            lemma_lex_asymmetric(kx, k0[i as int]);
        }
    }
    if replace {
        v.set(i, (key, value));
    } else {
        v.insert(i, (key, value));
    }
    proof {
        let s1 = pairs(v@);
        let k1 = keys(s1);
        if replace {
            assert(s1 =~= s0.update(i as int, (kx, vx)));
            assert(k1 =~= k0.update(i as int, kx));
        } else {
            assert(s1 =~= s0.insert(i as int, (kx, vx)));
            assert(k1 =~= k0.insert(i as int, kx));
        }
        assert forall|a: int, b: int| 0 <= a < b < k1.len() implies lex_lt(
            #[trigger] k1[a],
            #[trigger] k1[b],
        ) by {
            if replace {
                if a != i && b != i {
                } else if a == i {
                    assert(lex_lt(k0[a], k0[b]));
                } else {
                    assert(lex_lt(k0[a], k0[b]));
                }
            } else {
                if b < i {
                    assert(k1[a] == k0[a] && k1[b] == k0[b]);
                } else if b == i {
                    assert(k1[a] == k0[a]);
                } else if a == i {
                    assert(k1[b] == k0[b - 1]);
                    if b - 1 > i {
                        assert(lex_lt(k0[i as int], k0[b - 1]));
                        lemma_lex_transitive(kx, k0[i as int], k0[b - 1]);
                    }
                } else if a < i {
                    assert(k1[a] == k0[a] && k1[b] == k0[b - 1]);
                } else {
                    assert(k1[a] == k0[a - 1] && k1[b] == k0[b - 1]);
                }
            }
        }
        assert forall|k: Seq<char>|
            #[trigger] pair_get(s1, k) == if k == kx {
                Some(vx)
            } else {
                pair_get(s0, k)
            } by {
            lemma_pair_get_index(s1, k);
            lemma_pair_get_index(s0, k);
            if k == kx {
                assert(s1[i as int] == (kx, vx));
                lemma_pair_get_sorted(s1, i as int);
            } else {
                if pair_get(s0, k) is Some {
                    let j = choose|j: int|
                        0 <= j < s0.len() && s0[j].0 == k && s0[j].1 == pair_get(s0, k)->0 && (
                        forall|l: int| j < l < s0.len() ==> s0[l].0 != k);
                    lemma_pair_get_sorted(s0, j);
                    let j1 = if replace || j < i {
                        j
                    } else {
                        j + 1
                    };
                    assert(s1[j1] == s0[j]);
                    lemma_pair_get_sorted(s1, j1);
                } else {
                    assert forall|j: int| 0 <= j < s1.len() implies s1[j].0 != k by {
                        if replace {
                            if j != i {
                                assert(s1[j] == s0[j]);
                            }
                        } else if j < i {
                            assert(s1[j] == s0[j]);
                        } else if j > i {
                            assert(s1[j] == s0[j - 1]);
                        }
                    }
                }
            }
        }
    }
}

} // verus!
