//! Association lists of string pairs kept sorted by key, so that the order
//! in which bindings were given never shows in what is built from them.

use vstd::prelude::*;

use crate::text::{
    less_than, lemma_seq_lt_irreflexive, lemma_seq_lt_total, lemma_seq_lt_transitive, seq_lt,
};

verus! {

/// A key and its value, as character sequences.
pub type Binding = (Seq<char>, Seq<char>);

pub open spec fn pairs_view(v: Seq<(String, String)>) -> Seq<Binding> {
    v.map_values(|p: (String, String)| (p.0@, p.1@))
}

/// The value bound to `k` by the last binding of `k` in `s`.
pub open spec fn lookup(s: Seq<Binding>, k: Seq<char>) -> Option<Seq<char>>
    decreases s.len(),
{
    if s.len() == 0 {
        None
    } else if s.last().0 == k {
        Some(s.last().1)
    } else {
        lookup(s.drop_last(), k)
    }
}

/// Keys strictly increase along `s`, so each key occurs once.
pub open spec fn keys_sorted(s: Seq<Binding>) -> bool {
    forall|i: int, j: int| 0 <= i < j < s.len() ==> seq_lt(#[trigger] s[i].0, #[trigger] s[j].0)
}

/// `r` is the sorted form of the bindings `s`: one entry per key, with the
/// value of the key's last binding in `s`.
pub open spec fn sorted_form(r: Seq<Binding>, s: Seq<Binding>) -> bool {
    keys_sorted(r) && forall|k: Seq<char>| #[trigger] lookup(r, k) == lookup(s, k)
}

pub proof fn lemma_lookup_absent(s: Seq<Binding>, k: Seq<char>)
    requires
        forall|i: int| 0 <= i < s.len() ==> (#[trigger] s[i]).0 != k,
    ensures
        lookup(s, k).is_none(),
    decreases s.len(),
{
    if s.len() > 0 {
        lemma_lookup_absent(s.drop_last(), k);
    }
}

pub proof fn lemma_lookup_sorted(s: Seq<Binding>, i: int)
    requires
        keys_sorted(s),
        0 <= i < s.len(),
    ensures
        lookup(s, s[i].0) == Some(s[i].1),
    decreases s.len(),
{
    if i < s.len() - 1 {
        assert(seq_lt(s[i].0, s[s.len() - 1].0));
        lemma_seq_lt_irreflexive(s[i].0);
        assert(s.drop_last()[i] == s[i]);
        lemma_lookup_sorted(s.drop_last(), i);
    }
}

/// In a sorted list, `lookup` finds `k` exactly where an entry holds it.
pub proof fn lemma_lookup_sorted_all(s: Seq<Binding>)
    requires
        keys_sorted(s),
    ensures
        forall|i: int| 0 <= i < s.len() ==> lookup(s, #[trigger] s[i].0) == Some(s[i].1),
        forall|k: Seq<char>|
            (forall|i: int| 0 <= i < s.len() ==> (#[trigger] s[i]).0 != k) ==> lookup(
                s,
                k,
            ).is_none(),
{
    assert forall|i: int| 0 <= i < s.len() implies lookup(s, #[trigger] s[i].0) == Some(
        s[i].1,
    ) by {
        lemma_lookup_sorted(s, i);
    }
    assert forall|k: Seq<char>|
        (forall|i: int| 0 <= i < s.len() ==> (#[trigger] s[i]).0 != k) implies lookup(
        s,
        k,
    ).is_none() by {
        lemma_lookup_absent(s, k);
    }
}

/// Binds `key` to `value` in the sorted list `v`, replacing an earlier binding.
pub fn upsert(v: &mut Vec<(String, String)>, key: String, value: String)
    requires
        keys_sorted(pairs_view(old(v)@)),
    ensures
        keys_sorted(pairs_view(final(v)@)),
        forall|k: Seq<char>|
            #[trigger] lookup(pairs_view(final(v)@), k) == if k == key@ {
                Some(value@)
            } else {
                lookup(pairs_view(old(v)@), k)
            },
{
    let ghost s = pairs_view(v@);
    let n = v.len();
    let mut i: usize = 0;
    while i < n && less_than(v[i].0.as_str(), key.as_str())
        invariant
            n == v@.len(),
            s == pairs_view(v@),
            i <= n,
            forall|j: int| 0 <= j < i ==> seq_lt((#[trigger] s[j]).0, key@),
        decreases n - i,
    {
        i = i + 1;
    }
    proof {
        lemma_lookup_sorted_all(s);
    }
    let ghost b: Binding = (key@, value@);
    if i < n && v[i].0 == key {
        v.set(i, (key, value));
        let ghost t = pairs_view(v@);
        assert(t =~= s.update(i as int, b));
        assert(s[i as int].0 == b.0);
        assert forall|x: int, y: int| 0 <= x < y < t.len() implies seq_lt(
            #[trigger] t[x].0,
            #[trigger] t[y].0,
        ) by {
            assert(t[x].0 == s[x].0 && t[y].0 == s[y].0);
        }
        proof {
            lemma_lookup_sorted_all(t);
        }
        assert forall|k: Seq<char>|
            #[trigger] lookup(t, k) == if k == b.0 {
                Some(b.1)
            } else {
                lookup(s, k)
            } by {
            if k == b.0 {
                assert(t[i as int].0 == k);
            } else if exists|j: int| 0 <= j < s.len() && (#[trigger] s[j]).0 == k {
                let j = choose|j: int| 0 <= j < s.len() && (#[trigger] s[j]).0 == k;
                assert(t[j] == s[j]);
            } else {
                assert forall|j: int| 0 <= j < t.len() implies (#[trigger] t[j]).0 != k by {
                    if j != i {
                        assert(t[j] == s[j]);
                    }
                }
            }
        }
    } else {
        proof {
            if i < n {
                lemma_seq_lt_total(s[i as int].0, key@);
            }
        }
        v.insert(i, (key, value));
        let ghost t = pairs_view(v@);
        assert(t =~= s.insert(i as int, b));
        assert forall|x: int, y: int| 0 <= x < y < t.len() implies seq_lt(
            #[trigger] t[x].0,
            #[trigger] t[y].0,
        ) by {
            if y == i {
                assert(t[x] == s[x]);
            } else if x == i {
                assert(t[y] == s[y - 1]);
                if y - 1 > i {
                    assert(seq_lt(s[i as int].0, s[y - 1].0));
                    lemma_seq_lt_transitive(key@, s[i as int].0, s[y - 1].0);
                }
            } else if x < i && y > i {
                assert(t[x] == s[x] && t[y] == s[y - 1]);
                assert(seq_lt(s[x].0, s[y - 1].0));
            } else if y < i {
                assert(t[x] == s[x] && t[y] == s[y]);
            } else {
                assert(t[x] == s[x - 1] && t[y] == s[y - 1]);
            }
        }
        proof {
            lemma_lookup_sorted_all(t);
        }
        assert forall|k: Seq<char>|
            #[trigger] lookup(t, k) == if k == b.0 {
                Some(b.1)
            } else {
                lookup(s, k)
            } by {
            if k == b.0 {
                assert(t[i as int].0 == k);
            } else if exists|j: int| 0 <= j < s.len() && (#[trigger] s[j]).0 == k {
                let j = choose|j: int| 0 <= j < s.len() && (#[trigger] s[j]).0 == k;
                if j < i {
                    assert(t[j] == s[j]);
                } else {
                    assert(t[j + 1] == s[j]);
                }
            } else {
                assert forall|j: int| 0 <= j < t.len() implies (#[trigger] t[j]).0 != k by {
                    if j < i {
                        assert(t[j] == s[j]);
                    } else if j > i {
                        assert(t[j] == s[j - 1]);
                    }
                }
            }
        }
    }
}


/// A later list of bindings overrides an earlier one key by key.
pub proof fn lemma_lookup_concat(a: Seq<Binding>, c: Seq<Binding>, k: Seq<char>)
    ensures
        lookup(a + c, k) == if lookup(c, k).is_some() {
            lookup(c, k)
        } else {
            lookup(a, k)
        },
    decreases c.len(),
{
    if c.len() == 0 {
        assert(a + c =~= a);
    } else {
        assert((a + c).drop_last() =~= a + c.drop_last());
        assert((a + c).last() == c.last());
        lemma_lookup_concat(a, c.drop_last(), k);
    }
}

/// Adds the bindings of `src`, in order, to the sorted list `v`.
pub fn bind_all(v: &mut Vec<(String, String)>, src: &Vec<(String, String)>)
    requires
        keys_sorted(pairs_view(old(v)@)),
    ensures
        keys_sorted(pairs_view(final(v)@)),
        forall|k: Seq<char>|
            #[trigger] lookup(pairs_view(final(v)@), k) == lookup(
                pairs_view(old(v)@) + pairs_view(src@),
                k,
            ),
{
    let ghost start = pairs_view(v@);
    let ghost whole = pairs_view(src@);
    let n = src.len();
    let mut i: usize = 0;
    while i < n
        invariant
            n == src@.len(),
            i <= n,
            whole == pairs_view(src@),
            keys_sorted(pairs_view(v@)),
            forall|k: Seq<char>|
                #[trigger] lookup(pairs_view(v@), k) == lookup(
                    start + whole.subrange(0, i as int),
                    k,
                ),
        decreases n - i,
    {
        let ghost before = pairs_view(v@);
        upsert(v, src[i].0.clone(), src[i].1.clone());
        assert forall|k: Seq<char>|
            #[trigger] lookup(pairs_view(v@), k) == lookup(start + whole.subrange(0, i + 1), k) by {
            let longer = start + whole.subrange(0, i + 1);
            assert(longer.drop_last() =~= start + whole.subrange(0, i as int));
            assert(longer.last() == whole[i as int]);
        }
        i = i + 1;
    }
    assert(whole.subrange(0, n as int) =~= whole);
}


/// No key of `s` is bound to two different values.
pub open spec fn consistent(s: Seq<Binding>) -> bool {
    forall|i: int, j: int|
        0 <= i < s.len() && 0 <= j < s.len() && (#[trigger] s[i]).0 == (#[trigger] s[j]).0
            ==> s[i] == s[j]
}

/// In consistent bindings, `lookup` finds exactly the bindings present.
pub proof fn lemma_lookup_consistent(s: Seq<Binding>, k: Seq<char>)
    requires
        consistent(s),
    ensures
        lookup(s, k).is_some() ==> exists|i: int|
            0 <= i < s.len() && #[trigger] s[i] == (k, lookup(s, k).unwrap()),
        forall|i: int| 0 <= i < s.len() && (#[trigger] s[i]).0 == k ==> lookup(s, k) == Some(s[i].1),
    decreases s.len(),
{
    if s.len() > 0 {
        let t = s.drop_last();
        assert(consistent(t)) by {
            assert forall|i: int, j: int|
                0 <= i < t.len() && 0 <= j < t.len() && (#[trigger] t[i]).0 == (#[trigger] t[j]).0
                    implies t[i] == t[j] by {
                assert(t[i] == s[i] && t[j] == s[j]);
            }
        }
        lemma_lookup_consistent(t, k);
        if s.last().0 != k {
            if lookup(s, k).is_some() {
                let i = choose|i: int| 0 <= i < t.len() && #[trigger] t[i] == (k, lookup(t, k).unwrap());
                assert(s[i] == t[i]);
            }
            assert forall|i: int| 0 <= i < s.len() && (#[trigger] s[i]).0 == k implies lookup(s, k)
                == Some(s[i].1) by {
                assert(i < s.len() - 1);
                assert(t[i] == s[i]);
            }
        } else {
            assert(s[s.len() - 1] == (k, lookup(s, k).unwrap()));
            assert forall|i: int| 0 <= i < s.len() && (#[trigger] s[i]).0 == k implies lookup(s, k)
                == Some(s[i].1) by {
                assert(s[i] == s[s.len() - 1]);
            }
        }
    }
}

/// Two sorted lists with the same entries are the same list.
pub proof fn lemma_sorted_same_entries(r1: Seq<Binding>, r2: Seq<Binding>)
    requires
        keys_sorted(r1),
        keys_sorted(r2),
        forall|i: int| 0 <= i < r1.len() ==> r2.contains(#[trigger] r1[i]),
        forall|j: int| 0 <= j < r2.len() ==> r1.contains(#[trigger] r2[j]),
    ensures
        r1 == r2,
    decreases r1.len(),
{
    if r1.len() == 0 {
        if r2.len() > 0 {
            assert(r1.contains(r2[0]));
        }
        assert(r1 =~= r2);
    } else {
        assert(r2.contains(r1[0]));
        let j = choose|j: int| 0 <= j < r2.len() && r2[j] == r1[0];
        assert(r1.contains(r2[0]));
        let i = choose|i: int| 0 <= i < r1.len() && r1[i] == r2[0];
        if j > 0 {
            assert(seq_lt(r2[0].0, r2[j].0));
            if i > 0 {
                assert(seq_lt(r1[0].0, r1[i].0));
                lemma_seq_lt_transitive(r1[0].0, r2[0].0, r1[0].0);
                lemma_seq_lt_irreflexive(r1[0].0);
            } else {
                lemma_seq_lt_irreflexive(r1[0].0);
            }
        }
        assert(r1[0] == r2[0]);
        let t1 = r1.drop_first();
        let t2 = r2.drop_first();
        assert forall|x: int| 0 <= x < t1.len() implies t2.contains(#[trigger] t1[x]) by {
            assert(t1[x] == r1[x + 1]);
            assert(r2.contains(r1[x + 1]));
            let y = choose|y: int| 0 <= y < r2.len() && r2[y] == r1[x + 1];
            assert(seq_lt(r1[0].0, r1[x + 1].0));
            if y == 0 {
                lemma_seq_lt_irreflexive(r1[0].0);
            }
            assert(t2[y - 1] == r2[y]);
        }
        assert forall|y: int| 0 <= y < t2.len() implies t1.contains(#[trigger] t2[y]) by {
            assert(t2[y] == r2[y + 1]);
            assert(r1.contains(r2[y + 1]));
            let x = choose|x: int| 0 <= x < r1.len() && r1[x] == r2[y + 1];
            assert(seq_lt(r2[0].0, r2[y + 1].0));
            if x == 0 {
                lemma_seq_lt_irreflexive(r2[0].0);
            }
            assert(t1[x - 1] == r1[x]);
        }
        lemma_sorted_same_entries(t1, t2);
        assert(r1 =~= r2) by {
            assert forall|x: int| 0 <= x < r1.len() implies r1[x] == r2[x] by {
                if x > 0 {
                    assert(r1[x] == t1[x - 1] && r2[x] == t2[x - 1]);
                }
            }
        }
    }
}

/// The sorted form of consistent bindings holds exactly their entries.
pub proof fn lemma_sorted_form_entries(r: Seq<Binding>, s: Seq<Binding>)
    requires
        sorted_form(r, s),
        consistent(s),
    ensures
        forall|i: int| 0 <= i < r.len() ==> s.contains(#[trigger] r[i]),
        forall|j: int| 0 <= j < s.len() ==> r.contains(#[trigger] s[j]),
{
    lemma_lookup_sorted_all(r);
    assert forall|i: int| 0 <= i < r.len() implies s.contains(#[trigger] r[i]) by {
        let k = r[i].0;
        assert(lookup(r, k) == lookup(s, k));
        lemma_lookup_consistent(s, k);
        let x = choose|x: int| 0 <= x < s.len() && #[trigger] s[x] == (k, lookup(s, k).unwrap());
        assert(s[x] == r[i]);
    }
    assert forall|j: int| 0 <= j < s.len() implies r.contains(#[trigger] s[j]) by {
        let k = s[j].0;
        lemma_lookup_consistent(s, k);
        assert(lookup(r, k) == Some(s[j].1));
        if forall|i: int| 0 <= i < r.len() ==> (#[trigger] r[i]).0 != k {
            lemma_lookup_absent(r, k);
        }
        let i = choose|i: int| 0 <= i < r.len() && (#[trigger] r[i]).0 == k;
        assert(r[i] == s[j]);
    }
}


/// The sorted form of a list of bindings is unique.
pub proof fn lemma_sorted_form_unique(r1: Seq<Binding>, r2: Seq<Binding>, s: Seq<Binding>)
    requires
        sorted_form(r1, s),
        sorted_form(r2, s),
    ensures
        r1 == r2,
{
    lemma_lookup_sorted_all(r1);
    lemma_lookup_sorted_all(r2);
    assert forall|i: int| 0 <= i < r1.len() implies r2.contains(#[trigger] r1[i]) by {
        let k = r1[i].0;
        assert(lookup(r2, k) == lookup(r1, k));
        if forall|j: int| 0 <= j < r2.len() ==> (#[trigger] r2[j]).0 != k {
            lemma_lookup_absent(r2, k);
        }
        let j = choose|j: int| 0 <= j < r2.len() && (#[trigger] r2[j]).0 == k;
        assert(r2[j] == r1[i]);
    }
    assert forall|j: int| 0 <= j < r2.len() implies r1.contains(#[trigger] r2[j]) by {
        let k = r2[j].0;
        assert(lookup(r2, k) == lookup(r1, k));
        if forall|i: int| 0 <= i < r1.len() ==> (#[trigger] r1[i]).0 != k {
            lemma_lookup_absent(r1, k);
        }
        let i = choose|i: int| 0 <= i < r1.len() && (#[trigger] r1[i]).0 == k;
        assert(r2[j] == r1[i]);
    }
    lemma_sorted_same_entries(r1, r2);
}

} // verus!
