//! Name-keyed maps kept as vectors of pairs, sorted strictly by key.
//!
//! The manifest's package, dev-package and script sections are maps whose
//! iteration order must be deterministic; keeping the pairs sorted by key
//! gives every consumer (writer, bridge, hash) the same order for free and
//! makes key uniqueness part of well-formedness.

use vstd::prelude::*;
use crate::text::{seq_lt, str_lt, str_eq, lemma_seq_lt_trans, lemma_seq_lt_asym};

verus! {

/// Strictly sorted by key: keys are unique and in lexicographic order.
pub open spec fn map_wf<V>(m: Seq<(String, V)>) -> bool {
    forall|i: int, j: int| 0 <= i < j < m.len() ==> seq_lt(#[trigger] m[i].0@, #[trigger] m[j].0@)
}

/// The value bound to a key: the first pair that carries it, if any.
pub open spec fn map_get_spec<V>(m: Seq<(String, V)>, k: Seq<char>) -> Option<V>
    decreases m.len(),
{
    if m.len() == 0 {
        None
    } else if m[0].0@ == k {
        Some(m[0].1)
    } else {
        map_get_spec(m.drop_first(), k)
    }
}

/// Whether some pair carries the key.
pub open spec fn map_has_key<V>(m: Seq<(String, V)>, k: Seq<char>) -> bool {
    map_get_spec(m, k) is Some
}

/// The result of binding a key in a sorted map: earlier keys kept, the new
/// pair in key position, a pair with an equal key replaced.
pub open spec fn map_insert_spec<V>(m: Seq<(String, V)>, key: String, val: V) -> Seq<(String, V)>
    decreases m.len(),
{
    if m.len() == 0 {
        seq![(key, val)]
    } else if seq_lt(key@, m[0].0@) {
        seq![(key, val)] + m
    } else if key@ == m[0].0@ {
        seq![(key, val)] + m.drop_first()
    } else {
        seq![m[0]] + map_insert_spec(m.drop_first(), key, val)
    }
}

/// The result of unbinding a key: the one pair carrying it dropped.
pub open spec fn map_remove_spec<V>(m: Seq<(String, V)>, k: Seq<char>) -> Seq<(String, V)>
    decreases m.len(),
{
    if m.len() == 0 {
        m
    } else if m[0].0@ == k {
        m.drop_first()
    } else {
        seq![m[0]] + map_remove_spec(m.drop_first(), k)
    }
}

/// Binding a key keeps the map sorted.
pub proof fn lemma_insert_wf<V>(m: Seq<(String, V)>, key: String, val: V)
    requires
        map_wf(m),
    ensures
        map_wf(map_insert_spec(m, key, val)),
    decreases m.len(),
{
    if m.len() == 0 {
    } else if seq_lt(key@, m[0].0@) {
        let r = seq![(key, val)] + m;
        assert forall|i: int, j: int| 0 <= i < j < r.len() implies seq_lt(r[i].0@, r[j].0@) by {
            if i == 0 {
                if j > 1 {
                    lemma_seq_lt_trans(key@, m[0].0@, m[j - 1].0@);
                }
            }
        }
    } else if key@ == m[0].0@ {
        let r = seq![(key, val)] + m.drop_first();
        assert forall|i: int, j: int| 0 <= i < j < r.len() implies seq_lt(r[i].0@, r[j].0@) by {
            if i == 0 {
                assert(seq_lt(m[0].0@, m[j].0@));
            } else {
                assert(seq_lt(m[i].0@, m[j].0@));
            }
        }
    } else {
        lemma_insert_wf(m.drop_first(), key, val);
        let rest = map_insert_spec(m.drop_first(), key, val);
        let r = seq![m[0]] + rest;
        // every key of `rest` is a key of the tail or the new key, and the
        // head key is below all of them
        lemma_insert_keys(m.drop_first(), key, val);
        crate::text::lemma_seq_lt_connected(key@, m[0].0@);
        assert forall|i: int, j: int| 0 <= i < j < r.len() implies seq_lt(r[i].0@, r[j].0@) by {
            if i == 0 {
                assert(rest[j - 1].0@ == key@ || exists|x: int|
                    0 <= x < m.drop_first().len() && #[trigger] m.drop_first()[x].0@
                        == rest[j - 1].0@);
                if rest[j - 1].0@ != key@ {
                    let x = choose|x: int|
                        0 <= x < m.drop_first().len() && #[trigger] m.drop_first()[x].0@
                            == rest[j - 1].0@;
                    assert(seq_lt(m[0].0@, m[x + 1].0@));
                }
            } else {
                assert(seq_lt(rest[i - 1].0@, rest[j - 1].0@));
            }
        }
    }
}

/// Every key of the map after an insert is the inserted key or an old key.
pub proof fn lemma_insert_keys<V>(m: Seq<(String, V)>, key: String, val: V)
    ensures
        forall|p: int|
            0 <= p < map_insert_spec(m, key, val).len() ==> (#[trigger] map_insert_spec(
                m,
                key,
                val,
            )[p].0@ == key@ || exists|x: int| 0 <= x < m.len() && #[trigger] m[x].0@
                == map_insert_spec(m, key, val)[p].0@),
    decreases m.len(),
{
    if m.len() == 0 {
    } else if seq_lt(key@, m[0].0@) {
    } else if key@ == m[0].0@ {
    } else {
        lemma_insert_keys(m.drop_first(), key, val);
        let rest = map_insert_spec(m.drop_first(), key, val);
        let r = seq![m[0]] + rest;
        assert forall|p: int| 0 <= p < r.len() implies (r[p].0@ == key@ || exists|x: int|
            0 <= x < m.len() && #[trigger] m[x].0@ == r[p].0@) by {
            if p == 0 {
                assert(m[0].0@ == r[p].0@);
            } else {
                if rest[p - 1].0@ != key@ {
                    let x = choose|x: int|
                        0 <= x < m.drop_first().len() && #[trigger] m.drop_first()[x].0@ == rest[p
                            - 1].0@;
                    assert(m[x + 1].0@ == r[p].0@);
                }
            }
        }
    }
}

/// After an insert, the key is bound to the value and no other binding moved.
pub proof fn lemma_insert_get<V>(m: Seq<(String, V)>, key: String, val: V)
    ensures
        map_get_spec(map_insert_spec(m, key, val), key@) == Some(val),
        forall|k: Seq<char>| k != key@ ==> map_get_spec(map_insert_spec(m, key, val), k)
            == map_get_spec(m, k),
    decreases m.len(),
{
    let r = map_insert_spec(m, key, val);
    if m.len() == 0 {
        assert(r[0] == (key, val));
        assert(r.drop_first() =~= Seq::<(String, V)>::empty());
        assert forall|k: Seq<char>| k != key@ implies map_get_spec(r, k) == map_get_spec(m, k) by {
            assert(map_get_spec(r.drop_first(), k) is None);
        }
    } else if seq_lt(key@, m[0].0@) {
        assert(r[0] == (key, val));
        assert(r.drop_first() =~= m);
        lemma_seq_lt_asym(key@, m[0].0@);
        assert(m[0].0@ != key@);
        assert forall|k: Seq<char>| k != key@ implies map_get_spec(r, k) == map_get_spec(m, k) by {
            assert(map_get_spec(r, k) == map_get_spec(r.drop_first(), k));
        }
    } else if key@ == m[0].0@ {
        assert(r[0] == (key, val));
        assert(r.drop_first() =~= m.drop_first());
        assert forall|k: Seq<char>| k != key@ implies map_get_spec(r, k) == map_get_spec(m, k) by {
            assert(map_get_spec(r, k) == map_get_spec(r.drop_first(), k));
            assert(map_get_spec(m, k) == map_get_spec(m.drop_first(), k));
        }
    } else {
        lemma_insert_get(m.drop_first(), key, val);
        assert(r[0] == m[0]);
        assert(r.drop_first() =~= map_insert_spec(m.drop_first(), key, val));
        assert(map_get_spec(r, key@) == Some(val));
        assert forall|k: Seq<char>| k != key@ implies map_get_spec(r, k) == map_get_spec(m, k) by {
            if m[0].0@ == k {
                assert(map_get_spec(r, k) == Some(m[0].1));
            } else {
                assert(map_get_spec(r, k) == map_get_spec(r.drop_first(), k));
                assert(map_get_spec(m, k) == map_get_spec(m.drop_first(), k));
            }
        }
    }
}

/// On a well-formed map, an insert grows it by one pair unless the key was
/// already bound.
pub proof fn lemma_insert_len<V>(m: Seq<(String, V)>, key: String, val: V)
    requires
        map_wf(m),
    ensures
        map_insert_spec(m, key, val).len() == m.len() + (if map_has_key(m, key@) {
            0int
        } else {
            1int
        }),
    decreases m.len(),
{
    if m.len() == 0 {
    } else if seq_lt(key@, m[0].0@) {
        lemma_seq_lt_asym(key@, m[0].0@);
        if map_has_key(m, key@) {
            lemma_get_some_key_at(m, key@);
            let x = choose|x: int| 0 <= x < m.len() && #[trigger] m[x].0@ == key@;
            if x == 0 {
                assert(false);
            } else {
                lemma_seq_lt_trans(key@, m[0].0@, m[x].0@);
                lemma_seq_lt_asym(key@, m[x].0@);
                assert(false);
            }
        }
    } else if key@ == m[0].0@ {
    } else {
        assert(map_wf(m.drop_first())) by {
            assert(forall|i: int, j: int|
                0 <= i < j < m.drop_first().len() ==> seq_lt(
                    #[trigger] m.drop_first()[i].0@,
                    #[trigger] m.drop_first()[j].0@,
                ));
        }
        lemma_insert_len(m.drop_first(), key, val);
    }
}

/// Removing a key keeps the map sorted.
pub proof fn lemma_remove_wf<V>(m: Seq<(String, V)>, k: Seq<char>)
    requires
        map_wf(m),
    ensures
        map_wf(map_remove_spec(m, k)),
        map_remove_spec(m, k).len() <= m.len(),
        forall|p: int|
            #![trigger map_remove_spec(m, k)[p]]
            0 <= p < map_remove_spec(m, k).len() ==> exists|x: int| 0 <= x < m.len()
                && #[trigger] m[x].0@ == map_remove_spec(m, k)[p].0@,
    decreases m.len(),
{
    if m.len() == 0 {
    } else if m[0].0@ == k {
        assert forall|p: int|
            #![trigger m.drop_first()[p]]
            0 <= p < m.drop_first().len() implies exists|x: int| 0 <= x < m.len()
            && #[trigger] m[x].0@ == m.drop_first()[p].0@ by {
            assert(m[p + 1].0@ == m.drop_first()[p].0@);
        }
    } else {
        lemma_remove_wf(m.drop_first(), k);
        let rest = map_remove_spec(m.drop_first(), k);
        let r = seq![m[0]] + rest;
        assert forall|i: int, j: int| 0 <= i < j < r.len() implies seq_lt(r[i].0@, r[j].0@) by {
            if i == 0 {
                let x = choose|x: int|
                    0 <= x < m.drop_first().len() && #[trigger] m.drop_first()[x].0@ == rest[j
                        - 1].0@;
                assert(seq_lt(m[0].0@, m[x + 1].0@));
            } else {
                assert(seq_lt(rest[i - 1].0@, rest[j - 1].0@));
            }
        }
        assert forall|p: int| #![trigger r[p]] 0 <= p < r.len() implies exists|x: int|
            0 <= x < m.len() && #[trigger] m[x].0@ == r[p].0@ by {
            if p == 0 {
                assert(m[0].0@ == r[0].0@);
            } else {
                let x = choose|x: int|
                    0 <= x < m.drop_first().len() && #[trigger] m.drop_first()[x].0@ == rest[p
                        - 1].0@;
                assert(m[x + 1].0@ == r[p].0@);
            }
        }
    }
}

/// After a remove on a well-formed map, the key is unbound and no other
/// binding moved.
pub proof fn lemma_remove_get<V>(m: Seq<(String, V)>, k: Seq<char>)
    requires
        map_wf(m),
    ensures
        map_get_spec(map_remove_spec(m, k), k) is None,
        forall|k2: Seq<char>| k2 != k ==> map_get_spec(map_remove_spec(m, k), k2) == map_get_spec(
            m,
            k2,
        ),
    decreases m.len(),
{
    if m.len() == 0 {
    } else if m[0].0@ == k {
        // the tail cannot bind the key again: its keys are all above m[0]
        if map_get_spec(m.drop_first(), k) is Some {
            lemma_get_some_key_at(m.drop_first(), k);
            let x = choose|x: int|
                0 <= x < m.drop_first().len() && #[trigger] m.drop_first()[x].0@ == k;
            assert(seq_lt(m[0].0@, m[x + 1].0@));
            lemma_seq_lt_asym(m[0].0@, m[x + 1].0@);
            assert(false);
        }
        assert forall|k2: Seq<char>| k2 != k implies map_get_spec(map_remove_spec(m, k), k2)
            == map_get_spec(m, k2) by {
            assert(map_get_spec(m, k2) == map_get_spec(m.drop_first(), k2));
        }
    } else {
        assert(map_wf(m.drop_first()));
        lemma_remove_get(m.drop_first(), k);
        let r = map_remove_spec(m, k);
        assert(r[0] == m[0]);
        assert(r.drop_first() =~= map_remove_spec(m.drop_first(), k));
        assert forall|k2: Seq<char>| k2 != k implies map_get_spec(r, k2) == map_get_spec(m, k2) by {
            if m[0].0@ == k2 {
                assert(map_get_spec(r, k2) == Some(m[0].1));
            } else {
                assert(map_get_spec(r, k2) == map_get_spec(r.drop_first(), k2));
                assert(map_get_spec(m, k2) == map_get_spec(m.drop_first(), k2));
            }
        }
    }
}

/// A bound key occurs at some index.
pub proof fn lemma_get_some_key_at<V>(m: Seq<(String, V)>, k: Seq<char>)
    requires
        map_get_spec(m, k) is Some,
    ensures
        exists|x: int| 0 <= x < m.len() && #[trigger] m[x].0@ == k,
    decreases m.len(),
{
    if m.len() == 0 {
    } else if m[0].0@ == k {
        assert(m[0].0@ == k);
    } else {
        lemma_get_some_key_at(m.drop_first(), k);
        let x = choose|x: int| 0 <= x < m.drop_first().len() && #[trigger] m.drop_first()[x].0@
            == k;
        assert(m[x + 1].0@ == k);
    }
}

/// A key at some index is bound.
pub proof fn lemma_key_at_get_some<V>(m: Seq<(String, V)>, x: int)
    requires
        0 <= x < m.len(),
    ensures
        map_get_spec(m, m[x].0@) is Some,
    decreases m.len(),
{
    if m[0].0@ == m[x].0@ {
    } else {
        lemma_key_at_get_some(m.drop_first(), x - 1);
    }
}

/// Look a key up in the map.
#[verifier::loop_isolation(false)]
pub fn map_get<'a, V>(m: &'a Vec<(String, V)>, key: &str) -> (r: Option<&'a V>)
    ensures
        match r {
            Some(v) => map_get_spec(m@, key@) == Some(*v),
            None => map_get_spec(m@, key@) is None,
        },
{
    let n = m.len();
    let mut i: usize = 0;
    proof {
        assert(m@.skip(0) =~= m@);
    }
    while i < n
        invariant
            n == m@.len(),
            i <= n,
            map_get_spec(m@, key@) == map_get_spec(m@.skip(i as int), key@),
        decreases n - i,
    {
        proof {
            assert(m@.skip(i as int)[0] == m@[i as int]);
            assert(m@.skip(i as int).drop_first() =~= m@.skip(i + 1));
        }
        if str_eq(m[i].0.as_str(), key) {
            return Some(&m[i].1);
        }
        i += 1;
    }
    None
}

/// Whether the map binds a key.
pub fn map_contains<V>(m: &Vec<(String, V)>, key: &str) -> (r: bool)
    ensures
        r == map_has_key(m@, key@),
{
    map_get(m, key).is_some()
}

/// Bind a key, keeping the pairs sorted; an equal key's pair is replaced.
#[verifier::loop_isolation(false)]
pub fn map_insert<V>(m: Vec<(String, V)>, key: String, val: V) -> (r: Vec<(String, V)>)
    ensures
        r@ == map_insert_spec(m@, key, val),
{
    let ghost m0 = m@;
    let mut rest = m;
    let mut out: Vec<(String, V)> = Vec::new();
    proof {
        assert(out@ + map_insert_spec(rest@, key, val) =~= map_insert_spec(m0, key, val));
    }
    loop
        invariant
            out@ + map_insert_spec(rest@, key, val) == map_insert_spec(m0, key, val),
        decreases rest@.len(),
    {
        if rest.len() == 0 {
            out.push((key, val));
            proof {
                assert(out@ =~= map_insert_spec(m0, key, val));
            }
            return out;
        }
        proof {
            assert(rest@[0] == rest@[0]);
        }
        if str_lt(key.as_str(), rest[0].0.as_str()) {
            // the new pair comes first, then everything left
            out.push((key, val));
            proof {
                let r = map_insert_spec(m0, key, val);
                assert(seq![(key, val)] + rest@ == map_insert_spec(rest@, key, val));
                assert(out@ + rest@ =~= r);
            }
            loop
                invariant
                    out@ + rest@ == map_insert_spec(m0, key, val),
                decreases rest@.len(),
            {
                if rest.len() == 0 {
                    proof {
                        assert(out@ =~= map_insert_spec(m0, key, val));
                    }
                    return out;
                }
                let p = rest.remove(0);
                out.push(p);
                proof {
                    assert(out@ + rest@ =~= map_insert_spec(m0, key, val));
                }
            }
        } else if str_eq(key.as_str(), rest[0].0.as_str()) {
            let _ = rest.remove(0);
            out.push((key, val));
            proof {
                assert(out@ + rest@ =~= map_insert_spec(m0, key, val));
            }
            loop
                invariant
                    out@ + rest@ == map_insert_spec(m0, key, val),
                decreases rest@.len(),
            {
                if rest.len() == 0 {
                    proof {
                        assert(out@ =~= map_insert_spec(m0, key, val));
                    }
                    return out;
                }
                let p = rest.remove(0);
                out.push(p);
                proof {
                    assert(out@ + rest@ =~= map_insert_spec(m0, key, val));
                }
            }
        } else {
            let p = rest.remove(0);
            out.push(p);
            proof {
                assert(out@ + map_insert_spec(rest@, key, val) =~= map_insert_spec(m0, key, val));
            }
        }
    }
}

/// Unbind a key, keeping the remaining pairs in order.
#[verifier::loop_isolation(false)]
pub fn map_remove<V>(m: Vec<(String, V)>, key: &str) -> (r: Vec<(String, V)>)
    ensures
        r@ == map_remove_spec(m@, key@),
{
    let ghost m0 = m@;
    let mut rest = m;
    let mut out: Vec<(String, V)> = Vec::new();
    proof {
        assert(out@ + map_remove_spec(rest@, key@) =~= map_remove_spec(m0, key@));
    }
    loop
        invariant
            out@ + map_remove_spec(rest@, key@) == map_remove_spec(m0, key@),
        decreases rest@.len(),
    {
        if rest.len() == 0 {
            proof {
                assert(out@ =~= map_remove_spec(m0, key@));
            }
            return out;
        }
        if str_eq(rest[0].0.as_str(), key) {
            let _ = rest.remove(0);
            proof {
                assert(out@ + rest@ =~= map_remove_spec(m0, key@));
            }
            loop
                invariant
                    out@ + rest@ == map_remove_spec(m0, key@),
                decreases rest@.len(),
            {
                if rest.len() == 0 {
                    proof {
                        assert(out@ =~= map_remove_spec(m0, key@));
                    }
                    return out;
                }
                let p = rest.remove(0);
                out.push(p);
                proof {
                    assert(out@ + rest@ =~= map_remove_spec(m0, key@));
                }
            }
        } else {
            let p = rest.remove(0);
            out.push(p);
            proof {
                assert(out@ + map_remove_spec(rest@, key@) =~= map_remove_spec(m0, key@));
            }
        }
    }
}

} // verus!
