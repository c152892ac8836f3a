//! Association lists keyed by strings, used as small maps: a key is stored
//! at most once and a new value for it replaces the old one.
use crate::text::str_eq;
use vstd::prelude::*;

verus! {

broadcast use vstd::seq::group_seq_axioms;

/// The value stored under `key` (first match).
pub open spec fn get_spec<V>(s: Seq<(String, V)>, key: Seq<char>) -> Option<V>
    decreases s.len(),
{
    if s.len() == 0 {
        None
    } else if s[0].0@ == key {
        Some(s[0].1)
    } else {
        get_spec(s.drop_first(), key)
    }
}

/// Every key occurs once.
pub open spec fn unique_keys<V>(s: Seq<(String, V)>) -> bool {
    forall|i: int, j: int| 0 <= i < j < s.len() ==> s[i].0@ != s[j].0@
}

proof fn lemma_get_index<V>(s: Seq<(String, V)>, key: Seq<char>, i: int)
    requires
        0 <= i <= s.len(),
        i < s.len() ==> s[i].0@ == key,
        forall|j: int| 0 <= j < i ==> s[j].0@ != key,
    ensures
        get_spec(s, key) == (if i < s.len() {
            Some(s[i].1)
        } else {
            None
        }),
    decreases i,
{
    if i > 0 {
        assert forall|j: int| 0 <= j < i - 1 implies s.drop_first()[j].0@ != key by {
            assert(s.drop_first()[j] == s[j + 1]);
        }
        lemma_get_index(s.drop_first(), key, i - 1);
    }
}

/// A stored value belongs to an entry of its key.
pub proof fn lemma_get_member<V>(s: Seq<(String, V)>, key: Seq<char>)
    ensures
        get_spec(s, key) matches Some(v) ==> exists|j: int|
            0 <= j < s.len() && s[j].0@ == key && s[j].1 == v,
    decreases s.len(),
{
    if s.len() > 0 && s[0].0@ != key {
        lemma_get_member(s.drop_first(), key);
        if let Some(v) = get_spec(s, key) {
            let j = choose|j: int| 0 <= j < s.drop_first().len() && s.drop_first()[j].0@ == key
                && s.drop_first()[j].1 == v;
            assert(s[j + 1] == s.drop_first()[j]);
        }
    }
}

/// Position of `key`, if stored.
pub fn position<V>(s: &Vec<(String, V)>, key: &str) -> (r: Option<usize>)
    ensures
        match r {
            Some(i) => i < s@.len() && s@[i as int].0@ == key@ && get_spec(s@, key@) == Some(
                s@[i as int].1,
            ),
            None => get_spec(s@, key@) is None,
        },
{
    let mut i: usize = 0;
    while i < s.len()
        invariant
            i <= s@.len(),
            forall|j: int| 0 <= j < i ==> s@[j].0@ != key@,
        decreases s.len() - i,
    {
        if str_eq(s[i].0.as_str(), key) {
            proof {
                lemma_get_index(s@, key@, i as int);
            }
            return Some(i);
        }
        i = i + 1;
    }
    proof {
        lemma_get_index(s@, key@, i as int);
    }
    None
}

/// The value stored under `key`.
pub fn get<'a, V>(s: &'a Vec<(String, V)>, key: &str) -> (r: Option<&'a V>)
    ensures
        match get_spec(s@, key@) {
            Some(v) => r == Some(&v),
            None => r is None,
        },
{
    match position(s, key) {
        Some(i) => Some(&s[i].1),
        None => None,
    }
}

/// Stores `value` under `key`, replacing an earlier value.
pub fn insert<V>(s: &mut Vec<(String, V)>, key: String, value: V)
    requires
        unique_keys(old(s)@),
    ensures
        unique_keys(final(s)@),
        get_spec(final(s)@, key@) == Some(value),
        forall|k: Seq<char>| k != key@ ==> get_spec(final(s)@, k) == get_spec(old(s)@, k),
        forall|j: int|
            0 <= j < final(s)@.len() ==> #[trigger] final(s)@[j].1 == value || exists|k: int|
                0 <= k < old(s)@.len() && old(s)@[k].1 == final(s)@[j].1,
{
    let ghost before = s@;
    match position(s, key.as_str()) {
        Some(i) => {
            s.set(i, (key, value));
            proof {
                assert forall|j: int| 0 <= j < s@.len() && j != i implies s@[j] == before[j] by {}

                assert forall|k: Seq<char>| k != key@ implies get_spec(s@, k) == get_spec(before, k) by {
                    lemma_get_same_except(before, s@, i as int, k);
                }
                lemma_get_index(s@, key@, i as int);
                assert(unique_keys(s@)) by {
                    assert forall|a: int, b: int| 0 <= a < b < s@.len() implies s@[a].0@ != s@[b].0@ by {
                        if a != i && b != i {
                            assert(s@[a] == before[a] && s@[b] == before[b]);
                        } else if a == i {
                            assert(s@[b] == before[b]);
                        } else {
                            assert(s@[a] == before[a]);
                        }
                    }
                }
            }
        },
        None => {
            proof {
                assert forall|j: int| 0 <= j < before.len() implies before[j].0@ != key@ by {
                    if before[j].0@ == key@ {
                        lemma_first_match(before, key@, j);
                    }
                }
            }
            s.push((key, value));
            proof {
                assert forall|k: Seq<char>| k != key@ implies get_spec(s@, k) == get_spec(before, k) by {
                    lemma_get_push(before, (key, value), k);
                }
                lemma_get_push(before, (key, value), key@);
            }
        },
    }
}

proof fn lemma_first_match<V>(s: Seq<(String, V)>, key: Seq<char>, j: int)
    requires
        0 <= j < s.len(),
        s[j].0@ == key,
    ensures
        get_spec(s, key) is Some,
    decreases j,
{
    if s[0].0@ != key {
        assert(s.drop_first()[j - 1] == s[j]);
        lemma_first_match(s.drop_first(), key, j - 1);
    }
}

proof fn lemma_get_same_except<V>(a: Seq<(String, V)>, b: Seq<(String, V)>, i: int, k: Seq<char>)
    requires
        a.len() == b.len(),
        0 <= i < a.len(),
        forall|j: int| 0 <= j < a.len() && j != i ==> a[j] == b[j],
        a[i].0@ != k,
        b[i].0@ != k,
    ensures
        get_spec(b, k) == get_spec(a, k),
    decreases a.len(),
{
    if a.len() > 0 && i > 0 {
        assert(a[0] == b[0]);
        if a[0].0@ != k {
            assert forall|j: int| 0 <= j < a.len() - 1 && j != i - 1 implies a.drop_first()[j] == b.drop_first()[j] by {
                assert(a.drop_first()[j] == a[j + 1]);
            }
            lemma_get_same_except(a.drop_first(), b.drop_first(), i - 1, k);
        }
    } else if a.len() > 0 {
        assert(a.drop_first() =~= b.drop_first());
    }
}

proof fn lemma_get_push<V>(s: Seq<(String, V)>, e: (String, V), k: Seq<char>)
    requires
        forall|j: int| 0 <= j < s.len() ==> s[j].0@ != e.0@,
    ensures
        get_spec(s.push(e), k) == (if k == e.0@ {
            Some(e.1)
        } else {
            get_spec(s, k)
        }),
    decreases s.len(),
{
    if s.len() == 0 {
        assert(s.push(e).drop_first() =~= s);
        assert(s.push(e)[0] == e);
        assert(get_spec(s, k) is None);
        if k != e.0@ {
            assert(get_spec(s.push(e), k) == get_spec(s.push(e).drop_first(), k));
        }
    } else {
        assert(s.push(e).drop_first() =~= s.drop_first().push(e));
        assert(s.push(e)[0] == s[0]);
        assert(s[0].0@ != e.0@);
        assert forall|j: int| 0 <= j < s.drop_first().len() implies s.drop_first()[j].0@ != e.0@ by {
            assert(s.drop_first()[j] == s[j + 1]);
        }
        lemma_get_push(s.drop_first(), e, k);
        if s[0].0@ != k {
            assert(get_spec(s.push(e), k) == get_spec(s.push(e).drop_first(), k));
        }
    }
}

} // verus!
