//! Graph reachability over an adjacency list of package names.
//!
//! The lock reconstructor classifies resolved packages by whether they are
//! reachable from the production or the development roots. [`bfs_reachable`]
//! computes exactly the reachable set: membership in its result is proved
//! equivalent to [`reachable`], the path-based specification.

use vstd::prelude::*;
use crate::text::{seq_lt, str_lt, str_eq, lemma_seq_lt_trans, lemma_seq_lt_asym,
    lemma_seq_lt_connected};
use crate::strmap::{map_get_spec, map_get};

verus! {

/// The views of a sequence of strings.
pub open spec fn str_views(s: Seq<String>) -> Seq<Seq<char>>
    decreases s.len(),
{
    if s.len() == 0 {
        Seq::empty()
    } else {
        seq![s[0]@] + str_views(s.drop_first())
    }
}

/// The views sequence is the pointwise view.
pub proof fn lemma_str_views(s: Seq<String>)
    ensures
        str_views(s).len() == s.len(),
        forall|i: int| 0 <= i < s.len() ==> str_views(s)[i] == (#[trigger] s[i])@,
    decreases s.len(),
{
    if s.len() > 0 {
        lemma_str_views(s.drop_first());
        assert forall|i: int| 0 <= i < s.len() implies str_views(s)[i] == (#[trigger] s[i])@ by {
            if i > 0 {
                assert(str_views(s)[i] == str_views(s.drop_first())[i - 1]);
                assert(s.drop_first()[i - 1] == s[i]);
            }
        }
    }
}

/// The adjacency list with each dependency vector replaced by its view.
pub open spec fn pairs_view(adj: Seq<(String, Vec<String>)>) -> Seq<(String, Seq<String>)>
    decreases adj.len(),
{
    if adj.len() == 0 {
        Seq::empty()
    } else {
        seq![(adj[0].0, adj[0].1@)] + pairs_view(adj.drop_first())
    }
}

/// The view list is the pointwise view.
pub proof fn lemma_pairs_view(adj: Seq<(String, Vec<String>)>)
    ensures
        pairs_view(adj).len() == adj.len(),
        forall|i: int|
            0 <= i < adj.len() ==> #[trigger] pairs_view(adj)[i] == (adj[i].0, adj[i].1@),
    decreases adj.len(),
{
    if adj.len() > 0 {
        lemma_pairs_view(adj.drop_first());
        assert forall|i: int| 0 <= i < adj.len() implies #[trigger] pairs_view(adj)[i] == (
        adj[i].0,
        adj[i].1@,
        ) by {
            if i > 0 {
                assert(pairs_view(adj)[i] == pairs_view(adj.drop_first())[i - 1]);
                assert(adj.drop_first()[i - 1] == adj[i]);
            }
        }
    }
}

/// Looking a key up in the view list finds the view of what the underlying
/// list binds.
pub proof fn lemma_pairs_view_get(adj: Seq<(String, Vec<String>)>, k: Seq<char>)
    ensures
        match map_get_spec(adj, k) {
            Some(v) => map_get_spec(pairs_view(adj), k) == Some(v@),
            None => map_get_spec(pairs_view(adj), k) is None,
        },
    decreases adj.len(),
{
    if adj.len() == 0 {
    } else {
        assert(pairs_view(adj)[0] == (adj[0].0, adj[0].1@));
        if adj[0].0@ == k {
        } else {
            lemma_pairs_view_get(adj.drop_first(), k);
            assert(pairs_view(adj).drop_first() =~= pairs_view(adj.drop_first()));
        }
    }
}

/// A sorted set of names: strictly sorted, hence unique.
pub open spec fn set_sorted(v: Seq<String>) -> bool {
    forall|i: int, j: int| 0 <= i < j < v.len() ==> seq_lt((#[trigger] v[i])@, (#[trigger] v[j])@)
}

/// Whether the set holds a name.
pub open spec fn set_has(v: Seq<String>, x: Seq<char>) -> bool {
    exists|i: int| 0 <= i < v.len() && (#[trigger] v[i])@ == x
}

/// The result of adding a name to a sorted set.
pub open spec fn set_insert_spec(v: Seq<String>, s: String) -> Seq<String>
    decreases v.len(),
{
    if v.len() == 0 {
        seq![s]
    } else if seq_lt(s@, v[0]@) {
        seq![s] + v
    } else if s@ == v[0]@ {
        v
    } else {
        seq![v[0]] + set_insert_spec(v.drop_first(), s)
    }
}

/// Adding a name keeps the set sorted, adds exactly that name, and grows
/// the set only when the name was absent.
pub proof fn lemma_set_insert_props(v: Seq<String>, s: String)
    requires
        set_sorted(v),
    ensures
        set_sorted(set_insert_spec(v, s)),
        forall|x: Seq<char>| set_has(set_insert_spec(v, s), x) <==> (set_has(v, x) || x == s@),
        set_insert_spec(v, s).len() == v.len() + (if set_has(v, s@) {
            0int
        } else {
            1int
        }),
    decreases v.len(),
{
    let r = set_insert_spec(v, s);
    if v.len() == 0 {
        assert(r[0] == s);
        assert forall|x: Seq<char>| set_has(r, x) implies (set_has(v, x) || x == s@) by {
            let i = choose|i: int| 0 <= i < r.len() && r[i]@ == x;
            assert(i == 0);
        }
        assert(set_has(r, s@));
    } else if seq_lt(s@, v[0]@) {
        lemma_seq_lt_asym(s@, v[0]@);
        assert forall|i: int, j: int| 0 <= i < j < r.len() implies seq_lt(r[i]@, r[j]@) by {
            if i == 0 {
                if j > 1 {
                    lemma_seq_lt_trans(s@, v[0]@, v[j - 1]@);
                }
            } else {
                assert(seq_lt(v[i - 1]@, v[j - 1]@));
            }
        }
        assert forall|x: Seq<char>| set_has(r, x) implies (set_has(v, x) || x == s@) by {
            let i = choose|i: int| 0 <= i < r.len() && r[i]@ == x;
            if i > 0 {
                assert(v[i - 1]@ == x);
            }
        }
        assert forall|x: Seq<char>| set_has(v, x) || x == s@ implies set_has(r, x) by {
            if x == s@ {
                assert(r[0]@ == x);
            } else {
                let i = choose|i: int| 0 <= i < v.len() && v[i]@ == x;
                assert(r[i + 1]@ == x);
            }
        }
        if set_has(v, s@) {
            let i = choose|i: int| 0 <= i < v.len() && v[i]@ == s@;
            if i == 0 {
                assert(false);
            } else {
                lemma_seq_lt_trans(s@, v[0]@, v[i]@);
                lemma_seq_lt_asym(s@, v[i]@);
                assert(false);
            }
        }
    } else if s@ == v[0]@ {
        assert(set_has(v, s@)) by {
            assert(v[0]@ == s@);
        }
        assert forall|x: Seq<char>| set_has(v, x) || x == s@ implies set_has(r, x) by {
            if x == s@ {
                assert(v[0]@ == x);
            }
        }
    } else {
        lemma_seq_lt_connected(s@, v[0]@);
        assert(seq_lt(v[0]@, s@));
        assert(set_sorted(v.drop_first()));
        lemma_set_insert_props(v.drop_first(), s);
        let rest = set_insert_spec(v.drop_first(), s);
        assert forall|i: int, j: int| 0 <= i < j < r.len() implies seq_lt(r[i]@, r[j]@) by {
            if i == 0 {
                assert(set_has(rest, rest[j - 1]@));
                if rest[j - 1]@ == s@ {
                    assert(seq_lt(v[0]@, s@));
                } else {
                    assert(set_has(v.drop_first(), rest[j - 1]@));
                    let x = choose|x: int|
                        0 <= x < v.drop_first().len() && v.drop_first()[x]@ == rest[j - 1]@;
                    assert(seq_lt(v[0]@, v[x + 1]@));
                }
            } else {
                assert(seq_lt(rest[i - 1]@, rest[j - 1]@));
            }
        }
        assert forall|x: Seq<char>| set_has(r, x) implies (set_has(v, x) || x == s@) by {
            let i = choose|i: int| 0 <= i < r.len() && r[i]@ == x;
            if i == 0 {
                assert(v[0]@ == x);
            } else {
                assert(rest[i - 1]@ == x);
                assert(set_has(rest, x));
                if set_has(v.drop_first(), x) {
                    let k = choose|k: int| 0 <= k < v.drop_first().len() && v.drop_first()[k]@ == x;
                    assert(v[k + 1]@ == x);
                }
            }
        }
        assert forall|x: Seq<char>| set_has(v, x) || x == s@ implies set_has(r, x) by {
            if x == s@ {
                assert(set_has(rest, x));
                let k = choose|k: int| 0 <= k < rest.len() && rest[k]@ == x;
                assert(r[k + 1]@ == x);
            } else {
                let i = choose|i: int| 0 <= i < v.len() && v[i]@ == x;
                if i == 0 {
                    assert(r[0]@ == x);
                } else {
                    assert(set_has(v.drop_first(), x)) by {
                        assert(v.drop_first()[i - 1]@ == x);
                    }
                    assert(set_has(rest, x));
                    let k = choose|k: int| 0 <= k < rest.len() && rest[k]@ == x;
                    assert(r[k + 1]@ == x);
                }
            }
        }
        if set_has(v, s@) {
            let i = choose|i: int| 0 <= i < v.len() && v[i]@ == s@;
            assert(i > 0) by {
                lemma_seq_lt_asym(v[0]@, s@);
            }
            assert(set_has(v.drop_first(), s@)) by {
                assert(v.drop_first()[i - 1]@ == s@);
            }
        } else {
            if set_has(v.drop_first(), s@) {
                let i = choose|i: int| 0 <= i < v.drop_first().len() && v.drop_first()[i]@ == s@;
                assert(v[i + 1]@ == s@);
                assert(false);
            }
        }
    }
}

/// Add a name to a sorted set.
#[verifier::loop_isolation(false)]
pub fn set_insert(v: Vec<String>, s: String) -> (r: Vec<String>)
    ensures
        r@ == set_insert_spec(v@, s),
{
    let ghost v0 = v@;
    let mut rest = v;
    let mut out: Vec<String> = Vec::new();
    proof {
        assert(out@ + set_insert_spec(rest@, s) =~= set_insert_spec(v0, s));
    }
    loop
        invariant
            out@ + set_insert_spec(rest@, s) == set_insert_spec(v0, s),
        decreases rest@.len(),
    {
        if rest.len() == 0 {
            out.push(s);
            proof {
                assert(out@ =~= set_insert_spec(v0, s));
            }
            return out;
        }
        if str_lt(s.as_str(), rest[0].as_str()) {
            out.push(s);
            proof {
                assert(out@ + rest@ =~= set_insert_spec(v0, s));
            }
            loop
                invariant
                    out@ + rest@ == set_insert_spec(v0, s),
                decreases rest@.len(),
            {
                if rest.len() == 0 {
                    proof {
                        assert(out@ =~= set_insert_spec(v0, s));
                    }
                    return out;
                }
                let p = rest.remove(0);
                out.push(p);
                proof {
                    assert(out@ + rest@ =~= set_insert_spec(v0, s));
                }
            }
        } else if str_eq(s.as_str(), rest[0].as_str()) {
            loop
                invariant
                    out@ + rest@ == set_insert_spec(v0, s),
                decreases rest@.len(),
            {
                if rest.len() == 0 {
                    proof {
                        assert(out@ =~= set_insert_spec(v0, s));
                    }
                    return out;
                }
                let p = rest.remove(0);
                out.push(p);
                proof {
                    assert(out@ + rest@ =~= set_insert_spec(v0, s));
                }
            }
        } else {
            let p = rest.remove(0);
            out.push(p);
            proof {
                assert(out@ + set_insert_spec(rest@, s) =~= set_insert_spec(v0, s));
            }
        }
    }
}

/// Whether the set holds a name.
#[verifier::loop_isolation(false)]
pub fn set_contains(v: &Vec<String>, x: &str) -> (r: bool)
    ensures
        r == set_has(v@, x@),
{
    let n = v.len();
    let mut i: usize = 0;
    while i < n
        invariant
            i <= n,
            n == v@.len(),
            forall|j: int| 0 <= j < i ==> (#[trigger] v@[j])@ != x@,
        decreases n - i,
    {
        if str_eq(v[i].as_str(), x) {
            proof {
                assert(v@[i as int]@ == x@);
            }
            return true;
        }
        i += 1;
    }
    proof {
        if set_has(v@, x@) {
            let j = choose|j: int| 0 <= j < v@.len() && v@[j]@ == x@;
            assert(false);
        }
    }
    false
}

/// A sorted set of names drawn from another sorted set is no longer.
pub proof fn lemma_sorted_subset_len(a: Seq<String>, b: Seq<String>)
    requires
        set_sorted(a),
        set_sorted(b),
        forall|i: int| 0 <= i < a.len() ==> set_has(b, (#[trigger] a[i])@),
    ensures
        a.len() <= b.len(),
    decreases b.len(),
{
    if a.len() == 0 {
    } else {
        assert(set_has(b, a[0]@));
        assert(b.len() > 0);
        lemma_seq_lt_connected(a[0]@, b[0]@);
        if a[0]@ == b[0]@ {
            assert(set_sorted(a.drop_first()));
            assert(set_sorted(b.drop_first()));
            assert forall|i: int| 0 <= i < a.drop_first().len() implies set_has(
                b.drop_first(),
                (#[trigger] a.drop_first()[i])@,
            ) by {
                let x = a.drop_first()[i]@;
                assert(a[i + 1]@ == x);
                assert(set_has(b, x));
                let k = choose|k: int| 0 <= k < b.len() && b[k]@ == x;
                assert(seq_lt(a[0]@, a[i + 1]@));
                if k == 0 {
                    lemma_seq_lt_asym(a[0]@, x);
                    assert(false);
                }
                assert(b.drop_first()[k - 1]@ == x);
            }
            lemma_sorted_subset_len(a.drop_first(), b.drop_first());
        } else if seq_lt(b[0]@, a[0]@) {
            assert(set_sorted(b.drop_first()));
            assert forall|i: int| 0 <= i < a.len() implies set_has(
                b.drop_first(),
                (#[trigger] a[i])@,
            ) by {
                let x = a[i]@;
                assert(set_has(b, x));
                let k = choose|k: int| 0 <= k < b.len() && b[k]@ == x;
                if k == 0 {
                    // x == b[0] < a[0] <= x: contradiction
                    if i == 0 {
                        lemma_seq_lt_asym(b[0]@, a[0]@);
                        assert(false);
                    } else {
                        assert(seq_lt(a[0]@, a[i]@));
                        lemma_seq_lt_trans(b[0]@, a[0]@, a[i]@);
                        lemma_seq_lt_asym(b[0]@, a[i]@);
                        assert(false);
                    }
                }
                assert(b.drop_first()[k - 1]@ == x);
            }
            lemma_sorted_subset_len(a, b.drop_first());
        } else {
            // a[0] < b[0], yet a[0] occurs in b: impossible, since b[0] is
            // the least element of b
            let k = choose|k: int| 0 <= k < b.len() && b[k]@ == a[0]@;
            if k == 0 {
                lemma_seq_lt_asym(a[0]@, b[0]@);
            } else {
                assert(seq_lt(b[0]@, b[k]@));
                lemma_seq_lt_trans(a[0]@, b[0]@, b[k]@);
                lemma_seq_lt_asym(a[0]@, b[k]@);
            }
            assert(false);
        }
    }
}

/// Whether a name is one of the roots.
pub open spec fn root_of(roots: Seq<Seq<char>>, x: Seq<char>) -> bool {
    exists|r: int| 0 <= r < roots.len() && #[trigger] roots[r] == x
}

/// Whether the adjacency list has an edge from one name to another.
pub open spec fn edge(adj: Seq<(String, Seq<String>)>, a: Seq<char>, b: Seq<char>) -> bool {
    match map_get_spec(adj, a) {
        Some(ds) => exists|k: int| 0 <= k < ds.len() && (#[trigger] ds[k])@ == b,
        None => false,
    }
}

/// Whether a nonempty name sequence follows adjacency edges.
pub open spec fn is_path(adj: Seq<(String, Seq<String>)>, p: Seq<Seq<char>>) -> bool {
    p.len() >= 1 && forall|i: int| 0 <= i < p.len() - 1 ==> edge(adj, #[trigger] p[i], p[i + 1])
}

/// Whether a name is reachable from some root along adjacency edges.
pub open spec fn reachable(adj: Seq<(String, Seq<String>)>, roots: Seq<Seq<char>>, n: Seq<char>) -> bool {
    exists|p: Seq<Seq<char>>| #[trigger] is_path(adj, p) && root_of(roots, p[0]) && p.last() == n
}

/// Every root is reachable.
pub proof fn lemma_root_reachable(adj: Seq<(String, Seq<String>)>, roots: Seq<Seq<char>>, x: Seq<char>)
    requires
        root_of(roots, x),
    ensures
        reachable(adj, roots, x),
{
    let p = seq![x];
    assert(is_path(adj, p));
    assert(p.last() == x);
}

/// Reachability follows edges.
pub proof fn lemma_reachable_step(
    adj: Seq<(String, Seq<String>)>,
    roots: Seq<Seq<char>>,
    a: Seq<char>,
    b: Seq<char>,
)
    requires
        reachable(adj, roots, a),
        edge(adj, a, b),
    ensures
        reachable(adj, roots, b),
{
    let p = choose|p: Seq<Seq<char>>| #[trigger] is_path(adj, p) && root_of(roots, p[0]) && p.last()
        == a;
    let q = p.push(b);
    assert forall|i: int| 0 <= i < q.len() - 1 implies edge(adj, #[trigger] q[i], q[i + 1]) by {
        if i < p.len() - 1 {
            assert(q[i] == p[i]);
            assert(q[i + 1] == p[i + 1]);
            assert(edge(adj, p[i], p[i + 1]));
        } else {
            assert(q[i] == p.last());
            assert(q[i + 1] == b);
        }
    }
    assert(is_path(adj, q));
    assert(q[0] == p[0]);
    assert(q.last() == b);
}

/// A set that holds the start of a path and is closed under edges holds its
/// end.
proof fn lemma_closed_path(adj: Seq<(String, Seq<String>)>, s: Set<Seq<char>>, p: Seq<Seq<char>>)
    requires
        is_path(adj, p),
        s.contains(p[0]),
        forall|a: Seq<char>, b: Seq<char>| s.contains(a) && #[trigger] edge(adj, a, b)
            ==> s.contains(b),
    ensures
        s.contains(p.last()),
    decreases p.len(),
{
    if p.len() == 1 {
    } else {
        let q = p.drop_last();
        assert(is_path(adj, q)) by {
            assert(forall|i: int| 0 <= i < q.len() - 1 ==> #[trigger] q[i] == p[i] && q[i + 1] == p[
                i + 1
            ]);
        }
        assert(q[0] == p[0]);
        lemma_closed_path(adj, s, q);
        assert(q.last() == p[p.len() - 2]);
        assert(edge(adj, p[p.len() - 2], p[p.len() - 1]));
    }
}

/// A set that holds every root and is closed under edges holds every
/// reachable name.
pub proof fn lemma_closed_contains_reachable(
    adj: Seq<(String, Seq<String>)>,
    roots: Seq<Seq<char>>,
    s: Set<Seq<char>>,
    n: Seq<char>,
)
    requires
        forall|x: Seq<char>| root_of(roots, x) ==> s.contains(x),
        forall|a: Seq<char>, b: Seq<char>| s.contains(a) && #[trigger] edge(adj, a, b)
            ==> s.contains(b),
        reachable(adj, roots, n),
    ensures
        s.contains(n),
{
    let p = choose|p: Seq<Seq<char>>| #[trigger] is_path(adj, p) && root_of(roots, p[0]) && p.last()
        == n;
    lemma_closed_path(adj, s, p);
}

/// Whether the queue holds a name at or past the cursor.
pub open spec fn in_queue_tail(q: Seq<String>, qi: int, x: Seq<char>) -> bool {
    exists|k: int| qi <= k < q.len() && (#[trigger] q[k])@ == x
}

/// A bound key of the adjacency list occurs at some index with its value.
proof fn lemma_adj_get_at(m: Seq<(String, Vec<String>)>, k: Seq<char>)
    requires
        map_get_spec(m, k) is Some,
    ensures
        exists|x: int|
            0 <= x < m.len() && (#[trigger] m[x]).0@ == k && m[x].1 == map_get_spec(m, k)->Some_0,
    decreases m.len(),
{
    if m.len() == 0 {
    } else if m[0].0@ == k {
        assert(m[0].0@ == k && m[0].1 == map_get_spec(m, k)->Some_0);
    } else {
        lemma_adj_get_at(m.drop_first(), k);
        let x = choose|x: int|
            0 <= x < m.drop_first().len() && (#[trigger] m.drop_first()[x]).0@ == k
                && m.drop_first()[x].1 == map_get_spec(m.drop_first(), k)->Some_0;
        assert((m[x + 1]).0@ == k && m[x + 1].1 == map_get_spec(m, k)->Some_0);
    }
}

/// Collect every name the search could ever visit: the roots, the
/// adjacency keys and every dependency name.
#[verifier::loop_isolation(false)]
fn build_pool(adjacency: &Vec<(String, Vec<String>)>, roots: &Vec<String>) -> (pool: Vec<String>)
    ensures
        set_sorted(pool@),
        forall|i: int| 0 <= i < roots@.len() ==> set_has(pool@, (#[trigger] roots@[i])@),
        forall|i: int| 0 <= i < adjacency@.len() ==> set_has(pool@, (#[trigger] adjacency@[i]).0@),
        forall|i: int, k: int|
            0 <= i < adjacency@.len() && 0 <= k < adjacency@[i].1@.len() ==> set_has(
                pool@,
                (#[trigger] adjacency@[i].1@[k])@,
            ),
{
    let mut pool: Vec<String> = Vec::new();
    let rn = roots.len();
    let mut i: usize = 0;
    while i < rn
        invariant
            i <= rn,
            rn == roots@.len(),
            set_sorted(pool@),
            forall|j: int| 0 <= j < i ==> set_has(pool@, (#[trigger] roots@[j])@),
        decreases rn - i,
    {
        proof {
            lemma_set_insert_props(pool@, roots@[i as int]);
        }
        pool = set_insert(pool, roots[i].clone());
        i += 1;
    }
    let an = adjacency.len();
    let mut a: usize = 0;
    while a < an
        invariant
            a <= an,
            an == adjacency@.len(),
            set_sorted(pool@),
            forall|j: int| 0 <= j < roots@.len() ==> set_has(pool@, (#[trigger] roots@[j])@),
            forall|j: int| 0 <= j < a ==> set_has(pool@, (#[trigger] adjacency@[j]).0@),
            forall|j: int, k: int|
                0 <= j < a && 0 <= k < adjacency@[j].1@.len() ==> set_has(
                    pool@,
                    (#[trigger] adjacency@[j].1@[k])@,
                ),
        decreases an - a,
    {
        proof {
            lemma_set_insert_props(pool@, adjacency@[a as int].0);
        }
        pool = set_insert(pool, adjacency[a].0.clone());
        let dn = adjacency[a].1.len();
        let mut d: usize = 0;
        while d < dn
            invariant
                d <= dn,
                a < an,
                an == adjacency@.len(),
                dn == adjacency@[a as int].1@.len(),
                set_sorted(pool@),
                forall|j: int| 0 <= j < roots@.len() ==> set_has(pool@, (#[trigger] roots@[j])@),
                forall|j: int| 0 <= j <= a ==> set_has(pool@, (#[trigger] adjacency@[j]).0@),
                forall|j: int, k: int|
                    0 <= j < a && 0 <= k < adjacency@[j].1@.len() ==> set_has(
                        pool@,
                        (#[trigger] adjacency@[j].1@[k])@,
                    ),
                forall|k: int|
                    0 <= k < d ==> set_has(pool@, (#[trigger] adjacency@[a as int].1@[k])@),
            decreases dn - d,
        {
            proof {
                lemma_set_insert_props(pool@, adjacency@[a as int].1@[d as int]);
            }
            pool = set_insert(pool, adjacency[a].1[d].clone());
            d += 1;
        }
        a += 1;
    }
    pool
}

/// The search state is sound and complete so far: everything seen is
/// reachable and within the pool, the visited set is sorted, every root and
/// every edge out of a visited node is accounted for by the visited set or
/// the pending part of the queue.
pub open spec fn bfs_inv(
    adj: Seq<(String, Vec<String>)>,
    rv: Seq<Seq<char>>,
    pool: Seq<String>,
    visited: Seq<String>,
    queue: Seq<String>,
    qi: int,
) -> bool {
    &&& 0 <= qi <= queue.len()
    &&& set_sorted(visited)
    &&& visited.len() <= pool.len()
    &&& set_sorted(pool)
    &&& forall|k: int| 0 <= k < visited.len() ==> set_has(pool, (#[trigger] visited[k])@)
    &&& forall|k: int| 0 <= k < queue.len() ==> set_has(pool, (#[trigger] queue[k])@)
    &&& forall|k: int| 0 <= k < visited.len() ==> reachable(
        pairs_view(adj),
        rv,
        (#[trigger] visited[k])@,
    )
    &&& forall|k: int| 0 <= k < queue.len() ==> reachable(pairs_view(adj), rv, (#[trigger] queue[k])@)
    &&& forall|x: Seq<char>| root_of(rv, x) ==> set_has(visited, x) || in_queue_tail(queue, qi, x)
    &&& forall|a: Seq<char>, b: Seq<char>|
        set_has(visited, a) && #[trigger] edge(pairs_view(adj), a, b) ==> set_has(visited, b)
            || in_queue_tail(queue, qi, b)
    &&& forall|i: int, k: int|
        0 <= i < adj.len() && 0 <= k < adj[i].1@.len() ==> set_has(
            pool,
            (#[trigger] adj[i].1@[k])@,
        )
}

/// When the name at the cursor is already visited, anything the tail
/// accounted for is still accounted for one step later.
proof fn lemma_tail_advance(queue: Seq<String>, qi: int, visited: Seq<String>, x: Seq<char>)
    requires
        0 <= qi < queue.len(),
        set_has(visited, queue[qi]@),
        set_has(visited, x) || in_queue_tail(queue, qi, x),
    ensures
        set_has(visited, x) || in_queue_tail(queue, qi + 1, x),
{
    if !set_has(visited, x) {
        let k = choose|k: int| qi <= k < queue.len() && (#[trigger] queue[k])@ == x;
        if k == qi {
            assert(set_has(visited, x));
        } else {
            assert(in_queue_tail(queue, qi + 1, x));
        }
    }
}

/// Process the queue entry at the cursor: mark it visited and enqueue its
/// dependencies, or skip it when already visited.
#[verifier::loop_isolation(false)]
#[verifier::rlimit(100)]
fn bfs_step(
    adjacency: &Vec<(String, Vec<String>)>,
    visited: Vec<String>,
    queue: Vec<String>,
    qi: usize,
    Ghost(rv): Ghost<Seq<Seq<char>>>,
    pool: &Vec<String>,
) -> (r: (Vec<String>, Vec<String>))
    requires
        bfs_inv(adjacency@, rv, pool@, visited@, queue@, qi as int),
        qi < queue@.len(),
    ensures
        bfs_inv(adjacency@, rv, pool@, r.0@, r.1@, qi + 1),
        r.0@.len() > visited@.len() || (r.0@ == visited@ && r.1@ == queue@),
{
    let ghost old_visited = visited@;
    let ghost old_queue = queue@;
    let name = queue[qi].clone();
    if set_contains(&visited, name.as_str()) {
        proof {
            assert forall|x: Seq<char>| root_of(rv, x) implies set_has(visited@, x)
                || in_queue_tail(queue@, qi + 1, x) by {
                lemma_tail_advance(queue@, qi as int, visited@, x);
            }
            assert forall|a: Seq<char>, b: Seq<char>|
                set_has(visited@, a) && #[trigger] edge(pairs_view(adjacency@), a, b) implies
                set_has(visited@, b) || in_queue_tail(queue@, qi + 1, b) by {
                lemma_tail_advance(queue@, qi as int, visited@, b);
            }
        }
        (visited, queue)
    } else {
        proof {
            lemma_set_insert_props(visited@, name);
        }
        let mut visited = visited;
        let mut queue = queue;
        visited = set_insert(visited, name.clone());
        proof {
            assert(set_has(pool@, name@)) by {
                assert(old_queue[qi as int]@ == name@);
            }
            assert forall|k: int| 0 <= k < visited@.len() implies set_has(
                pool@,
                (#[trigger] visited@[k])@,
            ) by {
                assert(set_has(visited@, visited@[k]@));
                if visited@[k]@ != name@ {
                    assert(set_has(old_visited, visited@[k]@));
                    let j = choose|j: int|
                        0 <= j < old_visited.len() && (#[trigger] old_visited[j])@ == visited@[k]@;
                }
            }
            lemma_sorted_subset_len(visited@, pool@);
            assert(visited@.len() == old_visited.len() + 1);
            assert(reachable(pairs_view(adjacency@), rv, name@)) by {
                assert(old_queue[qi as int]@ == name@);
            }
            assert forall|k: int| 0 <= k < visited@.len() implies reachable(
                pairs_view(adjacency@),
                rv,
                (#[trigger] visited@[k])@,
            ) by {
                assert(set_has(visited@, visited@[k]@));
                if visited@[k]@ != name@ {
                    assert(set_has(old_visited, visited@[k]@));
                    let j = choose|j: int|
                        0 <= j < old_visited.len() && (#[trigger] old_visited[j])@ == visited@[k]@;
                }
            }
        }
        // enqueue this node's dependencies
        let deps = map_get(adjacency, name.as_str());
        proof {
            lemma_pairs_view_get(adjacency@, name@);
        }
        if let Some(ds) = deps {
            proof {
                lemma_adj_get_at(adjacency@, name@);
                assert(map_get_spec(pairs_view(adjacency@), name@) == Some(ds@));
            }
            let dn = ds.len();
            let mut d: usize = 0;
            while d < dn
                invariant
                    d <= dn,
                    dn == ds@.len(),
                    map_get_spec(adjacency@, name@) == Some(*ds),
                    map_get_spec(pairs_view(adjacency@), name@) == Some(ds@),
                    reachable(pairs_view(adjacency@), rv, name@),
                    exists|x: int|
                        0 <= x < adjacency@.len() && (#[trigger] adjacency@[x]).0@ == name@
                            && adjacency@[x].1 == *ds,
                    queue@.len() == old_queue.len() + d,
                    forall|k: int| 0 <= k < old_queue.len() ==> queue@[k] == old_queue[k],
                    forall|k: int|
                        old_queue.len() <= k < queue@.len() ==> (#[trigger] queue@[k])@ == ds@[k
                            - old_queue.len()]@,
                decreases dn - d,
            {
                queue.push(ds[d].clone());
                d += 1;
            }
            proof {
                assert forall|k: int| 0 <= k < queue@.len() implies set_has(
                    pool@,
                    (#[trigger] queue@[k])@,
                ) by {
                    if k < old_queue.len() {
                        assert(queue@[k] == old_queue[k]);
                    } else {
                        let x = choose|x: int|
                            0 <= x < adjacency@.len() && (#[trigger] adjacency@[x]).0@ == name@
                                && adjacency@[x].1 == *ds;
                        assert(queue@[k]@ == adjacency@[x].1@[k - old_queue.len()]@);
                    }
                }
                assert forall|k: int| 0 <= k < queue@.len() implies reachable(
                    pairs_view(adjacency@),
                    rv,
                    (#[trigger] queue@[k])@,
                ) by {
                    if k < old_queue.len() {
                        assert(queue@[k] == old_queue[k]);
                    } else {
                        assert(edge(pairs_view(adjacency@), name@, queue@[k]@)) by {
                            assert(map_get_spec(pairs_view(adjacency@), name@) == Some(ds@));
                            let k2 = k - old_queue.len();
                            assert(0 <= k2 < ds@.len());
                            assert((map_get_spec(pairs_view(adjacency@), name@)->Some_0)[k2]@
                                == queue@[k]@);
                        }
                        lemma_reachable_step(pairs_view(adjacency@), rv, name@, queue@[k]@);
                    }
                }
            }
        }
        proof {
            assert forall|x: Seq<char>| root_of(rv, x) implies set_has(visited@, x)
                || in_queue_tail(queue@, qi + 1, x) by {
                if !set_has(visited@, x) {
                    assert(!set_has(old_visited, x));
                    let k = choose|k: int|
                        qi <= k < old_queue.len() && (#[trigger] old_queue[k])@ == x;
                    if k == qi {
                        assert(old_queue[k]@ == name@);
                        assert(set_has(visited@, x));
                        assert(false);
                    } else {
                        assert(queue@[k] == old_queue[k]);
                        assert(in_queue_tail(queue@, qi + 1, x));
                    }
                }
            }
            assert forall|a: Seq<char>, b: Seq<char>|
                set_has(visited@, a) && #[trigger] edge(pairs_view(adjacency@), a, b) implies
                set_has(visited@, b) || in_queue_tail(queue@, qi + 1, b) by {
                if !set_has(visited@, b) {
                    if a == name@ {
                        // the freshly visited node: its dependencies were
                        // just enqueued
                        let ds2 = map_get_spec(pairs_view(adjacency@), name@)->Some_0;
                        let k = choose|k: int| 0 <= k < ds2.len() && (#[trigger] ds2[k])@ == b;
                        assert(queue@[old_queue.len() + k]@ == b);
                        assert(in_queue_tail(queue@, qi + 1, b));
                    } else {
                        assert(set_has(old_visited, a)) by {
                            let j = choose|j: int|
                                0 <= j < visited@.len() && (#[trigger] visited@[j])@ == a;
                            assert(set_has(visited@, a));
                        }
                        assert(!set_has(old_visited, b));
                        let k = choose|k: int|
                            qi <= k < old_queue.len() && (#[trigger] old_queue[k])@ == b;
                        if k == qi {
                            assert(old_queue[k]@ == name@);
                            assert(set_has(visited@, b));
                            assert(false);
                        } else {
                            assert(queue@[k] == old_queue[k]);
                            assert(in_queue_tail(queue@, qi + 1, b));
                        }
                    }
                }
            }
        }
        (visited, queue)
    }
}

/// The names reachable from the roots, as a sorted set: a name is in the
/// result exactly when some chain of dependency edges leads to it from a
/// root.
#[verifier::loop_isolation(false)]
pub fn bfs_reachable(adjacency: &Vec<(String, Vec<String>)>, roots: &Vec<String>) -> (r: Vec<
    String,
>)
    ensures
        set_sorted(r@),
        forall|n: Seq<char>| #[trigger] set_has(r@, n) <==> reachable(
            pairs_view(adjacency@),
            str_views(roots@),
            n,
        ),
{
    let ghost rv = str_views(roots@);
    proof {
        lemma_str_views(roots@);
    }
    let pool = build_pool(adjacency, roots);
    let mut visited: Vec<String> = Vec::new();
    let mut queue: Vec<String> = Vec::new();
    let rn = roots.len();
    let mut i: usize = 0;
    while i < rn
        invariant
            i <= rn,
            rn == roots@.len(),
            queue@.len() == i,
            forall|k: int| 0 <= k < i ==> (#[trigger] queue@[k])@ == roots@[k]@,
        decreases rn - i,
    {
        queue.push(roots[i].clone());
        i += 1;
    }
    let mut qi: usize = 0;
    proof {
        lemma_sorted_subset_len(visited@, pool@);
        assert forall|k: int| 0 <= k < queue@.len() implies reachable(
            pairs_view(adjacency@),
            rv,
            (#[trigger] queue@[k])@,
        ) by {
            assert(rv[k] == roots@[k]@);
            assert(root_of(rv, queue@[k]@));
            lemma_root_reachable(pairs_view(adjacency@), rv, queue@[k]@);
        }
        assert forall|k: int| 0 <= k < queue@.len() implies set_has(
            pool@,
            (#[trigger] queue@[k])@,
        ) by {
            assert(queue@[k]@ == roots@[k]@);
            assert(set_has(pool@, roots@[k]@));
        }
        assert forall|x: Seq<char>| root_of(rv, x) implies set_has(visited@, x) || in_queue_tail(
            queue@,
            0,
            x,
        ) by {
            let k = choose|k: int| 0 <= k < rv.len() && rv[k] == x;
            assert(queue@[k]@ == x);
        }
        assert(bfs_inv(adjacency@, rv, pool@, visited@, queue@, 0));
    }
    while qi < queue.len()
        invariant
            bfs_inv(adjacency@, rv, pool@, visited@, queue@, qi as int),
        decreases pool@.len() + 1 - visited@.len(), queue@.len() - qi,
    {
        let ghost old_visited = visited@;
        let ghost old_queue = queue@;
        let step = bfs_step(adjacency, visited, queue, qi, Ghost(rv), &pool);
        visited = step.0;
        queue = step.1;
        qi += 1;
        proof {
            if visited@.len() == old_visited.len() {
                assert(visited@ == old_visited && queue@ == old_queue);
            }
        }
    }
    proof {
        let s = Set::new(|x: Seq<char>| set_has(visited@, x));
        assert forall|n: Seq<char>| #[trigger] set_has(visited@, n) implies reachable(
            pairs_view(adjacency@),
            rv,
            n,
        ) by {
            let k = choose|k: int| 0 <= k < visited@.len() && (#[trigger] visited@[k])@ == n;
        }
        assert forall|n: Seq<char>| reachable(pairs_view(adjacency@), rv, n) implies set_has(
            visited@,
            n,
        ) by {
            assert forall|x: Seq<char>| root_of(rv, x) implies s.contains(x) by {
                assert(set_has(visited@, x) || in_queue_tail(queue@, qi as int, x));
            }
            assert forall|a: Seq<char>, b: Seq<char>|
                s.contains(a) && #[trigger] edge(pairs_view(adjacency@), a, b) implies s.contains(
                b,
            ) by {
                assert(set_has(visited@, a));
                assert(set_has(visited@, b) || in_queue_tail(queue@, qi as int, b));
            }
            lemma_closed_contains_reachable(pairs_view(adjacency@), rv, s, n);
        }
    }
    visited
}

} // verus!
