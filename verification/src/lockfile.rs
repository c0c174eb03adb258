//! Lock artifact reconstruction from the resolution engine's resolved graph.
//!
//! The resolved graph arrives as plain data ([`LockGraph`]): one node per
//! resolved package with its version, content hashes, dependency edges and
//! originating index URL. From it and the manifest this module recovers the
//! production/development split by reachability, computes the manifest's
//! content hash, and emits the legacy lock artifact as deterministic,
//! pretty-printed JSON with a trailing newline.

use vstd::prelude::*;
use sha2::Digest;
use crate::model::{Pipfile, PipfilePackage, PipfilePackageDetail, PipfileRequires, PipfileSource};
use crate::jsonout::{json_str, json_opt_str, push_json_str, push_json_opt_str, hex_seq, push_hex,
    lemma_hex_seq_len, join_lines, push_joined_lines};
use crate::writer::{bool_str, views_of, opt_view};
use vstd::utf8::encode_utf8;
use crate::strmap::{map_wf, map_insert_spec, map_insert, lemma_insert_wf};
use crate::reach::{set_sorted, set_has, reachable, bfs_reachable, str_views, lemma_str_views,
    set_contains, pairs_view, lemma_pairs_view};
use crate::text::{seq_lt, str_to_chars, chars_to_string, push_chars, lemma_seq_lt_trans,
    lemma_seq_lt_asym};

verus! {

/// Whether a character separates name parts.
pub open spec fn is_sep(c: char) -> bool {
    c == '-' || c == '_' || c == '.'
}

/// An ASCII letter lowered; anything else unchanged.
pub open spec fn lower_char(c: char) -> char {
    if 'A' <= c && c <= 'Z' {
        ((c as u8) + 32) as char
    } else {
        c
    }
}

/// Name normalization: lowercase, with every run of separators collapsed
/// into a single hyphen. `prev_sep` records whether a separator run is
/// pending before the next kept character.
pub open spec fn norm_chars(s: Seq<char>, prev_sep: bool) -> Seq<char>
    decreases s.len(),
{
    if s.len() == 0 {
        Seq::empty()
    } else if is_sep(s[0]) {
        norm_chars(s.drop_first(), true)
    } else {
        (if prev_sep {
            seq!['-']
        } else {
            Seq::empty()
        }) + seq![lower_char(s[0])] + norm_chars(s.drop_first(), false)
    }
}

/// The normalized form of a package name.
pub open spec fn normalize_spec(s: Seq<char>) -> Seq<char> {
    norm_chars(s, false)
}

/// Normalize a package name to the resolution engine's convention:
/// lowercase, separator runs collapsed to a hyphen.
#[verifier::loop_isolation(false)]
pub fn normalize_package_name(name: &str) -> (r: String)
    ensures
        r@ == normalize_spec(name@),
{
    let chars = str_to_chars(name);
    let n = chars.len();
    let mut out: Vec<char> = Vec::new();
    let mut prev_sep = false;
    let mut i: usize = 0;
    proof {
        assert(name@.skip(0) =~= name@);
        assert(out@ + norm_chars(name@.skip(0), false) =~= normalize_spec(name@));
    }
    while i < n
        invariant
            i <= n,
            n == name@.len(),
            chars@ == name@,
            out@ + norm_chars(name@.skip(i as int), prev_sep) == normalize_spec(name@),
        decreases n - i,
    {
        proof {
            assert(name@.skip(i as int)[0] == name@[i as int]);
            assert(name@.skip(i as int).drop_first() =~= name@.skip(i + 1));
        }
        let c = chars[i];
        if c == '-' || c == '_' || c == '.' {
            prev_sep = true;
        } else {
            if prev_sep {
                out.push('-');
            }
            if 'A' <= c && c <= 'Z' {
                out.push(((c as u8) + 32) as char);
            } else {
                out.push(c);
            }
            prev_sep = false;
            proof {
                assert(out@ + norm_chars(name@.skip(i + 1), false) =~= normalize_spec(name@));
            }
        }
        i += 1;
    }
    proof {
        assert(norm_chars(name@.skip(n as int), prev_sep).len() == 0);
        assert(out@ =~= normalize_spec(name@));
    }
    chars_to_string(&out)
}

/// The shape of normalized names: no uppercase ASCII letter, no underscore
/// or dot, no two adjacent hyphens, and no trailing hyphen.
pub open spec fn normalized_shape(o: Seq<char>) -> bool {
    &&& forall|i: int| 0 <= i < o.len() ==> !('A' <= #[trigger] o[i] && o[i] <= 'Z')
    &&& forall|i: int| 0 <= i < o.len() ==> #[trigger] o[i] != '_' && o[i] != '.'
    &&& forall|i: int| 0 <= i < o.len() - 1 ==> !(#[trigger] o[i] == '-' && o[i + 1] == '-')
    &&& (o.len() > 0 ==> o.last() != '-')
}

/// Normalization only produces names of the normalized shape.
proof fn lemma_norm_shape(s: Seq<char>, b: bool)
    ensures
        normalized_shape(norm_chars(s, b)),
    decreases s.len(),
{
    if s.len() == 0 {
    } else if is_sep(s[0]) {
        lemma_norm_shape(s.drop_first(), true);
    } else {
        lemma_norm_shape(s.drop_first(), false);
        let pre: Seq<char> = if b {
            seq!['-']
        } else {
            Seq::empty()
        };
        let c = lower_char(s[0]);
        let rest = norm_chars(s.drop_first(), false);
        let o = pre + seq![c] + rest;
        assert(!is_sep(c) && !('A' <= c && c <= 'Z')) by {
            if 'A' <= s[0] && s[0] <= 'Z' {
                assert(97 <= c as int <= 122);
            }
        }
        assert forall|i: int| 0 <= i < o.len() implies !('A' <= #[trigger] o[i] && o[i] <= 'Z')
            && o[i] != '_' && o[i] != '.' by {
            if i >= pre.len() + 1 {
                assert(o[i] == rest[i - pre.len() - 1]);
            }
        }
        assert forall|i: int| 0 <= i < o.len() - 1 implies !(#[trigger] o[i] == '-' && o[i + 1]
            == '-') by {
            if i >= pre.len() + 1 {
                assert(o[i] == rest[i - pre.len() - 1]);
                assert(o[i + 1] == rest[i - pre.len()]);
            } else if i == pre.len() {
                assert(o[i] == c);
            } else {
                assert(o[i + 1] == c);
            }
        }
        assert(o.len() > 0 ==> o.last() != '-') by {
            if rest.len() > 0 {
                assert(o.last() == rest.last());
            } else {
                assert(o.last() == c);
            }
        }
    }
}

/// A name of the normalized shape is a fixed point of normalization.
proof fn lemma_norm_fixed(o: Seq<char>)
    requires
        normalized_shape(o),
    ensures
        norm_chars(o, false) == o,
    decreases o.len(),
{
    if o.len() == 0 {
        assert(norm_chars(o, false) =~= o);
    } else if o[0] == '-' {
        // a hyphen is followed by a plain character, and the rest keeps
        // the shape
        assert(o.len() >= 2) by {
            assert(o.last() != '-');
        }
        let tail = o.drop_first();
        assert(tail[0] == o[1]);
        assert(o[1] != '-' && o[1] != '_' && o[1] != '.');
        assert(!is_sep(tail[0]));
        let rest = o.skip(2);
        assert(normalized_shape(rest)) by {
            assert(forall|i: int| 0 <= i < rest.len() ==> #[trigger] rest[i] == o[i + 2]);
            if rest.len() > 0 {
                assert(rest.last() == o.last());
            }
        }
        lemma_norm_fixed(rest);
        assert(lower_char(o[1]) == o[1]);
        assert(tail.drop_first() =~= rest);
        assert(norm_chars(o, false) == norm_chars(tail, true));
        assert(norm_chars(tail, true) == seq!['-'] + seq![lower_char(tail[0])] + norm_chars(
            tail.drop_first(),
            false,
        ));
        assert(norm_chars(tail.drop_first(), false) == rest);
        assert(norm_chars(o, false) == seq!['-'] + seq![o[1]] + rest);
        assert(seq!['-'] + seq![o[1]] + rest =~= o);
    } else {
        assert(!is_sep(o[0]));
        let rest = o.drop_first();
        assert(normalized_shape(rest)) by {
            assert(forall|i: int| 0 <= i < rest.len() ==> #[trigger] rest[i] == o[i + 1]);
            if rest.len() > 0 {
                assert(rest.last() == o.last());
            }
        }
        lemma_norm_fixed(rest);
        assert(lower_char(o[0]) == o[0]);
        assert(norm_chars(o, false) == Seq::<char>::empty() + seq![o[0]] + rest);
        assert(Seq::<char>::empty() + seq![o[0]] + rest =~= o);
    }
}

/// Normalization is idempotent: normalizing an already-normalized name
/// changes nothing.
pub proof fn lemma_normalize_idempotent(s: Seq<char>)
    ensures
        normalize_spec(normalize_spec(s)) == normalize_spec(s),
{
    lemma_norm_shape(s, false);
    lemma_norm_fixed(normalize_spec(s));
}

/// One resolved package of the engine's graph, as plain data: its
/// normalized name, resolved version, content hashes, dependency edges and
/// originating index URL. The virtual root node that stands for the project
/// itself is marked.
pub struct LockNode {
    /// Normalized package name.
    pub name: String,
    /// Resolved version, absent for unversioned entries.
    pub version: Option<String>,
    /// Whether the node is the virtual root that stands for the project.
    pub is_virtual: bool,
    /// Content hashes of all distributions.
    pub hashes: Vec<String>,
    /// Normalized names of the node's dependencies.
    pub deps: Vec<String>,
    /// Originating index URL, for registry packages.
    pub index_url: Option<String>,
}

/// The engine's resolved dependency graph.
pub struct LockGraph {
    /// One node per resolved package.
    pub nodes: Vec<LockNode>,
}

/// Copy a vector of strings.
#[verifier::loop_isolation(false)]
pub fn clone_string_vec(v: &Vec<String>) -> (r: Vec<String>)
    ensures
        r@ == v@,
{
    let n = v.len();
    let mut out: Vec<String> = Vec::new();
    let mut i: usize = 0;
    while i < n
        invariant
            i <= n,
            n == v@.len(),
            out@ == v@.take(i as int),
        decreases n - i,
    {
        out.push(v[i].clone());
        proof {
            assert(v@.take(i as int) + seq![v@[i as int]] =~= v@.take(i + 1 as int));
        }
        i += 1;
    }
    proof {
        assert(v@.take(n as int) =~= v@);
    }
    out
}

/// Whether a node contributes edges: the virtual root that stands for the
/// project and version-less entries are left out of the adjacency.
pub open spec fn node_in_adjacency(node: LockNode) -> bool {
    !node.is_virtual && node.version is Some
}

/// The adjacency map over the graph's non-virtual, version-bearing nodes,
/// keyed by name, a later node with the same name replacing an earlier one.
pub open spec fn adjacency_spec(nodes: Seq<LockNode>) -> Seq<(String, Seq<String>)>
    decreases nodes.len(),
{
    if nodes.len() == 0 {
        Seq::empty()
    } else if node_in_adjacency(nodes.last()) {
        map_insert_spec(adjacency_spec(nodes.drop_last()), nodes.last().name, nodes.last().deps@)
    } else {
        adjacency_spec(nodes.drop_last())
    }
}

/// Inserting a binding commutes with taking the dependency views.
proof fn lemma_pairs_view_insert(m: Seq<(String, Vec<String>)>, key: String, val: Vec<String>)
    ensures
        pairs_view(map_insert_spec(m, key, val)) == map_insert_spec(pairs_view(m), key, val@),
    decreases m.len(),
{
    lemma_pairs_view(m);
    let pv = pairs_view(m);
    if m.len() == 0 {
        assert(pairs_view(seq![(key, val)]) =~= seq![(key, val@)]) by {
            lemma_pairs_view(seq![(key, val)]);
        }
    } else if seq_lt(key@, m[0].0@) {
        assert(pv[0] == (m[0].0, m[0].1@));
        assert(pairs_view(seq![(key, val)] + m) =~= seq![(key, val@)] + pv) by {
            lemma_pairs_view(seq![(key, val)] + m);
        }
    } else if key@ == m[0].0@ {
        assert(pairs_view(seq![(key, val)] + m.drop_first()) =~= seq![(key, val@)]
            + pv.drop_first()) by {
            lemma_pairs_view(seq![(key, val)] + m.drop_first());
            lemma_pairs_view(m.drop_first());
            assert(forall|i: int|
                0 <= i < m.drop_first().len() ==> #[trigger] m.drop_first()[i] == m[i + 1]);
        }
    } else {
        lemma_pairs_view_insert(m.drop_first(), key, val);
        assert(pairs_view(m.drop_first()) =~= pv.drop_first()) by {
            lemma_pairs_view(m.drop_first());
            assert(forall|i: int|
                0 <= i < m.drop_first().len() ==> #[trigger] m.drop_first()[i] == m[i + 1]);
        }
        assert(pairs_view(seq![m[0]] + map_insert_spec(m.drop_first(), key, val)) =~= seq![
            (m[0].0, m[0].1@),
        ] + pairs_view(map_insert_spec(m.drop_first(), key, val))) by {
            lemma_pairs_view(seq![m[0]] + map_insert_spec(m.drop_first(), key, val));
            lemma_pairs_view(map_insert_spec(m.drop_first(), key, val));
        }
    }
}

/// Build the locally owned adjacency map from the graph.
#[verifier::loop_isolation(false)]
pub fn build_adjacency(graph: &LockGraph) -> (r: Vec<(String, Vec<String>)>)
    ensures
        pairs_view(r@) == adjacency_spec(graph.nodes@),
        map_wf(r@),
{
    let nodes = &graph.nodes;
    let n = nodes.len();
    let mut acc: Vec<(String, Vec<String>)> = Vec::new();
    let mut i: usize = 0;
    proof {
        assert(nodes@.take(0) =~= Seq::<LockNode>::empty());
        assert(pairs_view(acc@) =~= adjacency_spec(nodes@.take(0)));
    }
    while i < n
        invariant
            i <= n,
            n == nodes@.len(),
            pairs_view(acc@) == adjacency_spec(nodes@.take(i as int)),
            map_wf(acc@),
        decreases n - i,
    {
        proof {
            let t = nodes@.take(i + 1);
            assert(t.drop_last() =~= nodes@.take(i as int));
            assert(t.last() == nodes@[i as int]);
        }
        if !nodes[i].is_virtual && nodes[i].version.is_some() {
            let key = nodes[i].name.clone();
            let val = clone_string_vec(&nodes[i].deps);
            proof {
                lemma_insert_wf(acc@, key, val);
                lemma_pairs_view_insert(acc@, key, val);
            }
            acc = map_insert(acc, key, val);
            proof {
                assert(val@ == nodes@[i as int].deps@);
                assert(pairs_view(acc@) == adjacency_spec(nodes@.take(i + 1)));
            }
        } else {
            proof {
                assert(pairs_view(acc@) == adjacency_spec(nodes@.take(i + 1)));
            }
        }
        i += 1;
    }
    proof {
        assert(nodes@.take(n as int) =~= nodes@);
    }
    acc
}

/// The normalized keys of a package map, in map order.
pub open spec fn norm_keys(m: Seq<(String, PipfilePackage)>) -> Seq<Seq<char>>
    decreases m.len(),
{
    if m.len() == 0 {
        Seq::empty()
    } else {
        seq![normalize_spec(m[0].0@)] + norm_keys(m.drop_first())
    }
}

/// The normalized-keys sequence is the pointwise normalization.
pub proof fn lemma_norm_keys(m: Seq<(String, PipfilePackage)>)
    ensures
        norm_keys(m).len() == m.len(),
        forall|i: int| 0 <= i < m.len() ==> norm_keys(m)[i] == normalize_spec((#[trigger] m[i]).0@),
    decreases m.len(),
{
    if m.len() > 0 {
        lemma_norm_keys(m.drop_first());
        assert forall|i: int| 0 <= i < m.len() implies norm_keys(m)[i] == normalize_spec(
            (#[trigger] m[i]).0@,
        ) by {
            if i > 0 {
                assert(norm_keys(m)[i] == norm_keys(m.drop_first())[i - 1]);
                assert(m.drop_first()[i - 1] == m[i]);
            }
        }
    }
}

/// Normalize every key of a package map.
#[verifier::loop_isolation(false)]
fn normalize_keys(m: &Vec<(String, PipfilePackage)>) -> (r: Vec<String>)
    ensures
        str_views(r@) == norm_keys(m@),
{
    let n = m.len();
    let mut out: Vec<String> = Vec::new();
    let mut i: usize = 0;
    while i < n
        invariant
            i <= n,
            n == m@.len(),
            out@.len() == i,
            forall|j: int| 0 <= j < i ==> (#[trigger] out@[j])@ == normalize_spec(m@[j].0@),
        decreases n - i,
    {
        let nm = normalize_package_name(m[i].0.as_str());
        out.push(nm);
        i += 1;
    }
    proof {
        lemma_str_views(out@);
        lemma_norm_keys(m@);
        assert forall|k: int| 0 <= k < n implies str_views(out@)[k] == norm_keys(m@)[k] by {
            assert(str_views(out@)[k] == out@[k]@);
            assert(norm_keys(m@)[k] == normalize_spec(m@[k].0@));
        }
        assert(str_views(out@) =~= norm_keys(m@));
    }
    out
}

/// Categorize resolved packages into the production and development sets.
///
/// A name reachable from the production roots is production; a name
/// reachable only from the development roots is development. Production
/// membership always wins for a name reachable from both.
#[verifier::loop_isolation(false)]
pub fn categorize_packages(pipfile: &Pipfile, graph: &LockGraph) -> (r: (Vec<String>, Vec<String>))
    ensures
        set_sorted(r.0@),
        set_sorted(r.1@),
        forall|n: Seq<char>| #[trigger] set_has(r.0@, n) <==> reachable(
            adjacency_spec(graph.nodes@),
            norm_keys(pipfile.packages@),
            n,
        ),
        forall|n: Seq<char>| #[trigger] set_has(r.1@, n) <==> (reachable(
            adjacency_spec(graph.nodes@),
            norm_keys(pipfile.dev_packages@),
            n,
        ) && !reachable(adjacency_spec(graph.nodes@), norm_keys(pipfile.packages@), n)),
{
    let adjacency = build_adjacency(graph);

    let default_roots = normalize_keys(&pipfile.packages);
    let default_names = bfs_reachable(&adjacency, &default_roots);

    let develop_roots = normalize_keys(&pipfile.dev_packages);
    let develop_reach = bfs_reachable(&adjacency, &develop_roots);

    // development-only: reachable from the development roots and not from
    // the production roots
    let mut develop: Vec<String> = Vec::new();
    let n = develop_reach.len();
    let mut i: usize = 0;
    while i < n
        invariant
            i <= n,
            n == develop_reach@.len(),
            set_sorted(develop_reach@),
            set_sorted(develop@),
            forall|k: int|
                0 <= k < develop@.len() ==> exists|j: int|
                    0 <= j < i && #[trigger] develop@[k] == develop_reach@[j],
            forall|x: Seq<char>| #[trigger] set_has(develop@, x) <==> (set_has(
                develop_reach@.take(i as int),
                x,
            ) && !set_has(default_names@, x)),
        decreases n - i,
    {
        let ghost old_develop = develop@;
        if !set_contains(&default_names, develop_reach[i].as_str()) {
            proof {
                assert forall|k: int| 0 <= k < develop@.len() implies seq_lt(
                    (#[trigger] develop@[k])@,
                    develop_reach@[i as int]@,
                ) by {
                    let j = choose|j: int|
                        0 <= j < i && #[trigger] develop@[k] == develop_reach@[j];
                    assert(seq_lt(develop_reach@[j]@, develop_reach@[i as int]@));
                }
            }
            develop.push(develop_reach[i].clone());
        }
        proof {
            assert forall|x: Seq<char>| #[trigger] set_has(develop@, x) implies (set_has(
                develop_reach@.take(i + 1),
                x,
            ) && !set_has(default_names@, x)) by {
                let k = choose|k: int| 0 <= k < develop@.len() && (#[trigger] develop@[k])@ == x;
                if k < old_develop.len() {
                    assert(develop@[k] == old_develop[k]);
                    assert(set_has(old_develop, x));
                    let j = choose|j: int|
                        0 <= j < develop_reach@.take(i as int).len()
                            && (#[trigger] develop_reach@.take(i as int)[j])@ == x;
                    assert(develop_reach@.take(i + 1)[j]@ == x);
                } else {
                    assert(develop@[k]@ == develop_reach@[i as int]@);
                    assert(develop_reach@.take(i + 1)[i as int]@ == x);
                }
            }
            assert forall|x: Seq<char>|
                set_has(develop_reach@.take(i + 1), x) && !set_has(
                    default_names@,
                    x,
                ) implies #[trigger] set_has(develop@, x) by {
                let j = choose|j: int|
                    0 <= j < develop_reach@.take(i + 1).len() && (#[trigger] develop_reach@.take(
                        i + 1,
                    )[j])@ == x;
                if j < i {
                    assert(set_has(develop_reach@.take(i as int), x)) by {
                        assert(develop_reach@.take(i as int)[j]@ == x);
                    }
                    assert(set_has(old_develop, x));
                    let k = choose|k: int|
                        0 <= k < old_develop.len() && (#[trigger] old_develop[k])@ == x;
                    assert(develop@[k]@ == x);
                } else {
                    // the element considered this round: it was kept exactly
                    // when it is not a production name
                    assert(develop_reach@[i as int]@ == x);
                    assert(develop@[develop@.len() - 1]@ == x);
                }
            }
        }
        i += 1;
    }
    proof {
        assert(develop_reach@.take(n as int) =~= develop_reach@);
    }
    (default_names, develop)
}

/// Production precedence: a name reachable from both the production and the
/// development roots is classified as production and not as development.
pub proof fn lemma_production_precedence(
    default_names: Seq<String>,
    develop_names: Seq<String>,
    adj: Seq<(String, Seq<String>)>,
    prod_roots: Seq<Seq<char>>,
    dev_roots: Seq<Seq<char>>,
    n: Seq<char>,
)
    requires
        forall|x: Seq<char>| #[trigger] set_has(default_names, x) <==> reachable(adj, prod_roots, x),
        forall|x: Seq<char>| #[trigger] set_has(develop_names, x) <==> (reachable(adj, dev_roots, x)
            && !reachable(adj, prod_roots, x)),
        reachable(adj, prod_roots, n),
        reachable(adj, dev_roots, n),
    ensures
        set_has(default_names, n),
        !set_has(develop_names, n),
{
}

/// The two sections of the artifact are disjoint: no name classified as
/// production is also classified as development.
pub proof fn lemma_split_disjoint(
    default_names: Seq<String>,
    develop_names: Seq<String>,
    adj: Seq<(String, Seq<String>)>,
    prod_roots: Seq<Seq<char>>,
    dev_roots: Seq<Seq<char>>,
)
    requires
        forall|x: Seq<char>| #[trigger] set_has(default_names, x) <==> reachable(adj, prod_roots, x),
        forall|x: Seq<char>| #[trigger] set_has(develop_names, x) <==> (reachable(adj, dev_roots, x)
            && !reachable(adj, prod_roots, x)),
    ensures
        forall|n: Seq<char>| !(#[trigger] set_has(default_names, n) && set_has(develop_names, n)),
{
}

/// What the sha2 crate's SHA-256 returns for a byte string: a function of
/// the input alone.
pub uninterp spec fn sha256_of(bytes: Seq<u8>) -> Seq<u8>;

/// Relies on sha2's `Sha256::digest`: the digest depends on the input bytes
/// alone and is 32 bytes long.
#[verifier::external_body]
fn sha256_digest(input: &[u8]) -> (r: Vec<u8>)
    ensures
        r@ == sha256_of(input@),
        r@.len() == 32,
{
    sha2::Sha256::digest(input).to_vec()
}

/// The compact JSON of the `requires` section, keys in canonical order.
pub open spec fn requires_json_spec(r: Option<PipfileRequires>) -> Seq<char> {
    match r {
        None => "{}"@,
        Some(req) => match (req.python_full_version, req.python_version) {
            (None, None) => "{}"@,
            (Some(fv), None) => "{\"python_full_version\":"@ + json_str(fv@) + "}"@,
            (None, Some(v)) => "{\"python_version\":"@ + json_str(v@) + "}"@,
            (Some(fv), Some(v)) => "{\"python_full_version\":"@ + json_str(fv@)
                + ",\"python_version\":"@ + json_str(v@) + "}"@,
        },
    }
}

/// Render the `requires` section as compact JSON.
pub fn pipfile_requires_to_json(r: &Option<PipfileRequires>) -> (out: String)
    ensures
        out@ == requires_json_spec(*r),
{
    let mut buf: Vec<char> = Vec::new();
    push_requires_json(&mut buf, r);
    proof {
        assert(buf@ =~= requires_json_spec(*r));
    }
    chars_to_string(&buf)
}

/// Append the compact JSON of the `requires` section.
pub fn push_requires_json(out: &mut Vec<char>, r: &Option<PipfileRequires>)
    ensures
        final(out)@ == old(out)@ + requires_json_spec(*r),
{
    match r {
        None => {
            push_chars(out, "{}");
        },
        Some(req) => {
            match (&req.python_full_version, &req.python_version) {
                (None, None) => {
                    push_chars(out, "{}");
                },
                (Some(fv), None) => {
                    push_chars(out, "{\"python_full_version\":");
                    push_json_str(out, fv.as_str());
                    push_chars(out, "}");
                },
                (None, Some(v)) => {
                    push_chars(out, "{\"python_version\":");
                    push_json_str(out, v.as_str());
                    push_chars(out, "}");
                },
                (Some(fv), Some(v)) => {
                    push_chars(out, "{\"python_full_version\":");
                    push_json_str(out, fv.as_str());
                    push_chars(out, ",\"python_version\":");
                    push_json_str(out, v.as_str());
                    push_chars(out, "}");
                },
            }
        },
    }
    proof {
        assert(out@ =~= old(out)@ + requires_json_spec(*r));
    }
}

/// The compact JSON of one index source, keys in canonical order.
pub open spec fn source_json_spec(s: PipfileSource) -> Seq<char> {
    "{\"name\":"@ + json_str(s.name@) + ",\"url\":"@ + json_str(s.url@) + ",\"verify_ssl\":"@
        + bool_str(s.verify_ssl) + "}"@
}

/// Render one index source as compact JSON.
pub fn source_to_json(s: &PipfileSource) -> (out: String)
    ensures
        out@ == source_json_spec(*s),
{
    let mut buf: Vec<char> = Vec::new();
    push_chars(&mut buf, "{\"name\":");
    push_json_str(&mut buf, s.name.as_str());
    push_chars(&mut buf, ",\"url\":");
    push_json_str(&mut buf, s.url.as_str());
    push_chars(&mut buf, ",\"verify_ssl\":");
    if s.verify_ssl {
        push_chars(&mut buf, "true");
    } else {
        push_chars(&mut buf, "false");
    }
    push_chars(&mut buf, "}");
    proof {
        assert(buf@ =~= source_json_spec(*s));
    }
    chars_to_string(&buf)
}

/// The compact JSON of the source list's elements, comma separated.
pub open spec fn sources_json_list(ss: Seq<PipfileSource>) -> Seq<char>
    decreases ss.len(),
{
    if ss.len() == 0 {
        Seq::empty()
    } else if ss.len() == 1 {
        source_json_spec(ss[0])
    } else {
        source_json_spec(ss[0]) + ","@ + sources_json_list(ss.drop_first())
    }
}

/// Append the compact JSON elements of the source list.
#[verifier::loop_isolation(false)]
fn push_sources_json(out: &mut Vec<char>, ss: &Vec<PipfileSource>)
    ensures
        final(out)@ == old(out)@ + sources_json_list(ss@),
{
    let n = ss.len();
    let mut i: usize = 0;
    proof {
        assert(ss@.skip(0) =~= ss@);
        assert(out@ + sources_json_list(ss@.skip(0)) =~= old(out)@ + sources_json_list(ss@));
    }
    while i < n
        invariant
            i <= n,
            n == ss@.len(),
            out@ + sources_json_list(ss@.skip(i as int)) == old(out)@ + sources_json_list(ss@),
        decreases n - i,
    {
        proof {
            assert(ss@.skip(i as int)[0] == ss@[i as int]);
            assert(ss@.skip(i as int).drop_first() =~= ss@.skip(i + 1));
        }
        let sj = source_to_json(&ss[i]);
        push_chars(out, sj.as_str());
        if i + 1 < n {
            push_chars(out, ",");
        }
        proof {
            if i + 1 < n {
                assert(out@ + sources_json_list(ss@.skip(i + 1)) =~= old(out)@ + sources_json_list(
                    ss@,
                ));
            } else {
                assert(sources_json_list(ss@.skip(i + 1)).len() == 0);
                assert(out@ + sources_json_list(ss@.skip(i + 1)) =~= old(out)@ + sources_json_list(
                    ss@,
                ));
            }
        }
        i += 1;
    }
    proof {
        assert(sources_json_list(ss@.skip(n as int)).len() == 0);
        assert(out@ =~= old(out)@ + sources_json_list(ss@));
    }
}

/// The compact JSON of the extras list's elements, comma separated.
pub open spec fn extras_json_list(s: Seq<String>) -> Seq<char>
    decreases s.len(),
{
    if s.len() == 0 {
        Seq::empty()
    } else if s.len() == 1 {
        json_str(s[0]@)
    } else {
        json_str(s[0]@) + ","@ + extras_json_list(s.drop_first())
    }
}

/// Append the compact JSON elements of the extras list.
#[verifier::loop_isolation(false)]
fn push_extras_json(out: &mut Vec<char>, s: &Vec<String>)
    ensures
        final(out)@ == old(out)@ + extras_json_list(s@),
{
    let n = s.len();
    let mut i: usize = 0;
    proof {
        assert(s@.skip(0) =~= s@);
        assert(out@ + extras_json_list(s@.skip(0)) =~= old(out)@ + extras_json_list(s@));
    }
    while i < n
        invariant
            i <= n,
            n == s@.len(),
            out@ + extras_json_list(s@.skip(i as int)) == old(out)@ + extras_json_list(s@),
        decreases n - i,
    {
        proof {
            assert(s@.skip(i as int)[0] == s@[i as int]);
            assert(s@.skip(i as int).drop_first() =~= s@.skip(i + 1));
        }
        push_json_str(out, s[i].as_str());
        if i + 1 < n {
            push_chars(out, ",");
        }
        proof {
            if i + 1 < n {
                assert(out@ + extras_json_list(s@.skip(i + 1)) =~= old(out)@ + extras_json_list(
                    s@,
                ));
            } else {
                assert(extras_json_list(s@.skip(i + 1)).len() == 0);
                assert(out@ + extras_json_list(s@.skip(i + 1)) =~= old(out)@ + extras_json_list(
                    s@,
                ));
            }
        }
        i += 1;
    }
    proof {
        assert(extras_json_list(s@.skip(n as int)).len() == 0);
        assert(out@ =~= old(out)@ + extras_json_list(s@));
    }
}

/// The compact JSON of a detailed package: its full structured form, every
/// field present, keys in canonical order.
pub open spec fn detail_json_spec(d: PipfilePackageDetail) -> Seq<char> {
    "{\"editable\":"@ + bool_str(d.editable) + ",\"extras\":["@ + extras_json_list(d.extras@)
        + "],\"git\":"@ + json_opt_str(d.git) + ",\"index\":"@ + json_opt_str(d.index)
        + ",\"markers\":"@ + json_opt_str(d.markers) + ",\"path\":"@ + json_opt_str(d.path)
        + ",\"ref\":"@ + json_opt_str(d.git_ref) + ",\"sys_platform\":"@ + json_opt_str(
        d.sys_platform,
    ) + ",\"version\":"@ + json_opt_str(d.version) + "}"@
}

/// Append the compact JSON of a detailed package.
#[verifier::rlimit(100)]
fn push_detail_json(out: &mut Vec<char>, d: &PipfilePackageDetail)
    ensures
        final(out)@ == old(out)@ + detail_json_spec(*d),
{
    push_chars(out, "{\"editable\":");
    if d.editable {
        push_chars(out, "true");
    } else {
        push_chars(out, "false");
    }
    push_chars(out, ",\"extras\":[");
    push_extras_json(out, &d.extras);
    push_chars(out, "],\"git\":");
    push_json_opt_str(out, &d.git);
    push_chars(out, ",\"index\":");
    push_json_opt_str(out, &d.index);
    push_chars(out, ",\"markers\":");
    push_json_opt_str(out, &d.markers);
    push_chars(out, ",\"path\":");
    push_json_opt_str(out, &d.path);
    push_chars(out, ",\"ref\":");
    push_json_opt_str(out, &d.git_ref);
    push_chars(out, ",\"sys_platform\":");
    push_json_opt_str(out, &d.sys_platform);
    push_chars(out, ",\"version\":");
    push_json_opt_str(out, &d.version);
    push_chars(out, "}");
    proof {
        assert(out@ =~= old(out)@ + detail_json_spec(*d));
    }
}

/// The compact JSON value of one package: a bare string for a simple
/// version, the full structured form for a detailed one.
pub open spec fn package_json_value(pkg: PipfilePackage) -> Seq<char> {
    match pkg {
        PipfilePackage::Simple(v) => json_str(v@),
        PipfilePackage::Detailed(d) => detail_json_spec(d),
    }
}

/// The compact JSON entries of a package map, comma separated, map order.
pub open spec fn packages_json_entries(m: Seq<(String, PipfilePackage)>) -> Seq<char>
    decreases m.len(),
{
    if m.len() == 0 {
        Seq::empty()
    } else if m.len() == 1 {
        json_str(m[0].0@) + ":"@ + package_json_value(m[0].1)
    } else {
        json_str(m[0].0@) + ":"@ + package_json_value(m[0].1) + ","@ + packages_json_entries(
            m.drop_first(),
        )
    }
}

/// The compact JSON of a package map.
pub open spec fn packages_json_spec(m: Seq<(String, PipfilePackage)>) -> Seq<char> {
    "{"@ + packages_json_entries(m) + "}"@
}

/// Render a package map as compact JSON, each simple package as a bare
/// string and each detailed one in its full structured form.
#[verifier::loop_isolation(false)]
pub fn packages_to_json(m: &Vec<(String, PipfilePackage)>) -> (out: String)
    ensures
        out@ == packages_json_spec(m@),
{
    let mut buf: Vec<char> = Vec::new();
    push_chars(&mut buf, "{");
    let n = m.len();
    let mut i: usize = 0;
    let ghost base = buf@;
    proof {
        assert(m@.skip(0) =~= m@);
        assert(buf@ + packages_json_entries(m@.skip(0)) =~= base + packages_json_entries(m@));
    }
    while i < n
        invariant
            i <= n,
            n == m@.len(),
            buf@ + packages_json_entries(m@.skip(i as int)) == base + packages_json_entries(m@),
        decreases n - i,
    {
        proof {
            assert(m@.skip(i as int)[0] == m@[i as int]);
            assert(m@.skip(i as int).drop_first() =~= m@.skip(i + 1));
        }
        push_json_str(&mut buf, m[i].0.as_str());
        push_chars(&mut buf, ":");
        match &m[i].1 {
            PipfilePackage::Simple(v) => {
                push_json_str(&mut buf, v.as_str());
            },
            PipfilePackage::Detailed(d) => {
                push_detail_json(&mut buf, d);
            },
        }
        if i + 1 < n {
            push_chars(&mut buf, ",");
        }
        proof {
            if i + 1 < n {
                assert(buf@ + packages_json_entries(m@.skip(i + 1)) =~= base
                    + packages_json_entries(m@));
            } else {
                assert(packages_json_entries(m@.skip(i + 1)).len() == 0);
                assert(buf@ + packages_json_entries(m@.skip(i + 1)) =~= base
                    + packages_json_entries(m@));
            }
        }
        i += 1;
    }
    push_chars(&mut buf, "}");
    proof {
        assert(packages_json_entries(m@.skip(n as int)).len() == 0);
        assert(buf@ =~= packages_json_spec(m@));
    }
    chars_to_string(&buf)
}

/// The canonical compact JSON document the content hash is computed over:
/// built from manifest content alone, keys in a fixed order, no whitespace.
pub open spec fn content_json_spec(pf: &Pipfile) -> Seq<char> {
    "{\"_meta\":{\"requires\":"@ + requires_json_spec(pf.requires) + ",\"sources\":["@
        + sources_json_list(pf.source@) + "]},\"default\":"@ + packages_json_spec(pf.packages@)
        + ",\"develop\":"@ + packages_json_spec(pf.dev_packages@) + "}"@
}

/// The content hash: the lowercase hex SHA-256 digest of the canonical
/// document's UTF-8 bytes.
pub open spec fn content_hash_spec(pf: &Pipfile) -> Seq<char> {
    hex_seq(sha256_of(encode_utf8(content_json_spec(pf))))
}

/// Compute the manifest's content hash: a 64-character lowercase hex
/// SHA-256 digest, a pure function of the manifest.
pub fn compute_pipfile_hash(pipfile: &Pipfile) -> (r: String)
    ensures
        r@ == content_hash_spec(pipfile),
        r@.len() == 64,
{
    let mut buf: Vec<char> = Vec::new();
    push_chars(&mut buf, "{\"_meta\":{\"requires\":");
    push_requires_json(&mut buf, &pipfile.requires);
    push_chars(&mut buf, ",\"sources\":[");
    push_sources_json(&mut buf, &pipfile.source);
    push_chars(&mut buf, "]},\"default\":");
    let pk = packages_to_json(&pipfile.packages);
    push_chars(&mut buf, pk.as_str());
    push_chars(&mut buf, ",\"develop\":");
    let dk = packages_to_json(&pipfile.dev_packages);
    push_chars(&mut buf, dk.as_str());
    push_chars(&mut buf, "}");
    proof {
        assert(buf@ =~= content_json_spec(pipfile));
    }
    let document = chars_to_string(&buf);
    let digest = sha256_digest(document.as_str().as_bytes());
    let mut hexbuf: Vec<char> = Vec::new();
    push_hex(&mut hexbuf, &digest);
    proof {
        lemma_hex_seq_len(digest@);
        assert(hexbuf@ =~= content_hash_spec(pipfile));
    }
    chars_to_string(&hexbuf)
}

/// Hash entry of the artifact's `_meta` section.
pub struct PipfileLockHash {
    /// Lowercase hex SHA-256 digest of the manifest content.
    pub sha256: String,
}

/// Source entry of the artifact's `_meta.sources` list.
pub struct PipfileLockSource {
    /// Source name (e.g., `"pypi"`).
    pub name: String,
    /// Index URL.
    pub url: String,
    /// Whether to verify SSL certificates.
    pub verify_ssl: bool,
}

/// A locked package entry of the `default` or `develop` section.
pub struct PipfileLockPackage {
    /// Content hashes from all distributions.
    pub hashes: Vec<String>,
    /// Source index name, for registry packages only.
    pub index: Option<String>,
    /// Environment markers; never set by reconstruction.
    pub markers: Option<String>,
    /// Pinned version string (e.g., `"==1.2.3"`).
    pub version: String,
}

/// Whether one string starts with another.
#[verifier::loop_isolation(false)]
pub fn str_starts_with(s: &str, prefix: &str) -> (r: bool)
    ensures
        r == prefix@.is_prefix_of(s@),
{
    let sn = s.unicode_len();
    let pn = prefix.unicode_len();
    if pn > sn {
        proof {
            assert(!prefix@.is_prefix_of(s@));
        }
        return false;
    }
    let mut i: usize = 0;
    while i < pn
        invariant
            i <= pn,
            pn == prefix@.len(),
            sn == s@.len(),
            pn <= sn,
            forall|j: int| 0 <= j < i ==> prefix@[j] == s@[j],
        decreases pn - i,
    {
        if prefix.get_char(i) != s.get_char(i) {
            proof {
                assert(prefix@[i as int] != s@[i as int]);
                assert(s@.subrange(0, pn as int)[i as int] == s@[i as int]);
                assert(!prefix@.is_prefix_of(s@));
            }
            return false;
        }
        i += 1;
    }
    proof {
        assert(prefix@ =~= s@.subrange(0, pn as int));
    }
    true
}

/// The name of the first manifest source whose URL and the node's index URL
/// agree by prefix in either direction, if any.
pub open spec fn find_source_spec(sources: Seq<PipfileSource>, url: Seq<char>) -> Option<Seq<char>>
    decreases sources.len(),
{
    if sources.len() == 0 {
        None
    } else if sources[0].url@.is_prefix_of(url) || url.is_prefix_of(sources[0].url@) {
        Some(sources[0].name@)
    } else {
        find_source_spec(sources.drop_first(), url)
    }
}

/// The index name attributed to a node: the first source matching its
/// originating index URL, if the node has one.
pub open spec fn index_of_node(node: LockNode, sources: Seq<PipfileSource>) -> Option<Seq<char>> {
    match node.index_url {
        None => None,
        Some(u) => find_source_spec(sources, u@),
    }
}

/// Find the manifest source name for a node's originating index URL, by
/// prefix match in either direction; first match wins.
#[verifier::loop_isolation(false)]
pub fn find_source_name(node: &LockNode, pipfile: &Pipfile) -> (r: Option<String>)
    ensures
        opt_view(r) == index_of_node(*node, pipfile.source@),
{
    let url = match &node.index_url {
        None => {
            return None;
        },
        Some(u) => u,
    };
    let sources = &pipfile.source;
    let n = sources.len();
    let mut i: usize = 0;
    proof {
        assert(pipfile.source@.skip(0) =~= pipfile.source@);
        assert(find_source_spec(sources@.skip(0), url@) == index_of_node(*node, pipfile.source@));
    }
    while i < n
        invariant
            i <= n,
            n == sources@.len(),
            node.index_url == Some(*url),
            find_source_spec(sources@.skip(i as int), url@) == index_of_node(
                *node,
                pipfile.source@,
            ),
        decreases n - i,
    {
        proof {
            assert(sources@.skip(i as int)[0] == sources@[i as int]);
            assert(sources@.skip(i as int).drop_first() =~= sources@.skip(i + 1));
        }
        if str_starts_with(url.as_str(), sources[i].url.as_str()) || str_starts_with(
            sources[i].url.as_str(),
            url.as_str(),
        ) {
            return Some(sources[i].name.clone());
        }
        i += 1;
    }
    proof {
        assert(find_source_spec(sources@.skip(n as int), url@) is None);
    }
    None
}

/// The first non-virtual, version-bearing node of the given name, if any.
pub open spec fn find_node_spec(nodes: Seq<LockNode>, name: Seq<char>) -> Option<LockNode>
    decreases nodes.len(),
{
    if nodes.len() == 0 {
        None
    } else if nodes[0].name@ == name && !nodes[0].is_virtual && nodes[0].version is Some {
        Some(nodes[0])
    } else {
        find_node_spec(nodes.drop_first(), name)
    }
}

/// What the found node satisfies: the name matches, it is not virtual, and
/// it carries a version.
pub proof fn lemma_find_node_props(nodes: Seq<LockNode>, name: Seq<char>)
    ensures
        match find_node_spec(nodes, name) {
            Some(node) => node.name@ == name && !node.is_virtual && node.version is Some,
            None => true,
        },
    decreases nodes.len(),
{
    if nodes.len() > 0 {
        lemma_find_node_props(nodes.drop_first(), name);
    }
}

/// Find the first non-virtual, version-bearing node of the given name.
#[verifier::loop_isolation(false)]
pub fn find_node<'a>(graph: &'a LockGraph, name: &str) -> (r: Option<&'a LockNode>)
    ensures
        match r {
            Some(node) => find_node_spec(graph.nodes@, name@) == Some(*node),
            None => find_node_spec(graph.nodes@, name@) is None,
        },
{
    let nodes = &graph.nodes;
    let n = nodes.len();
    let mut i: usize = 0;
    proof {
        assert(nodes@.skip(0) =~= nodes@);
    }
    while i < n
        invariant
            i <= n,
            n == nodes@.len(),
            find_node_spec(nodes@.skip(i as int), name@) == find_node_spec(nodes@, name@),
        decreases n - i,
    {
        proof {
            assert(nodes@.skip(i as int)[0] == nodes@[i as int]);
            assert(nodes@.skip(i as int).drop_first() =~= nodes@.skip(i + 1));
        }
        if crate::text::str_eq(nodes[i].name.as_str(), name) && !nodes[i].is_virtual
            && nodes[i].version.is_some() {
            return Some(&nodes[i]);
        }
        i += 1;
    }
    None
}

/// The pretty `requires` object of the artifact.
pub open spec fn requires_pretty(r: Option<PipfileRequires>) -> Seq<char> {
    match r {
        None => "{}"@,
        Some(req) => match (req.python_full_version, req.python_version) {
            (None, None) => "{}"@,
            (Some(fv), None) => "{\n      \"python_full_version\": "@ + json_str(fv@)
                + "\n    }"@,
            (None, Some(v)) => "{\n      \"python_version\": "@ + json_str(v@) + "\n    }"@,
            (Some(fv), Some(v)) => "{\n      \"python_full_version\": "@ + json_str(fv@)
                + ",\n      \"python_version\": "@ + json_str(v@) + "\n    }"@,
        },
    }
}

/// Append the pretty `requires` object.
fn push_requires_pretty(out: &mut Vec<char>, r: &Option<PipfileRequires>)
    ensures
        final(out)@ == old(out)@ + requires_pretty(*r),
{
    match r {
        None => {
            push_chars(out, "{}");
        },
        Some(req) => {
            match (&req.python_full_version, &req.python_version) {
                (None, None) => {
                    push_chars(out, "{}");
                },
                (Some(fv), None) => {
                    push_chars(out, "{\n      \"python_full_version\": ");
                    push_json_str(out, fv.as_str());
                    push_chars(out, "\n    }");
                },
                (None, Some(v)) => {
                    push_chars(out, "{\n      \"python_version\": ");
                    push_json_str(out, v.as_str());
                    push_chars(out, "\n    }");
                },
                (Some(fv), Some(v)) => {
                    push_chars(out, "{\n      \"python_full_version\": ");
                    push_json_str(out, fv.as_str());
                    push_chars(out, ",\n      \"python_version\": ");
                    push_json_str(out, v.as_str());
                    push_chars(out, "\n    }");
                },
            }
        },
    }
    proof {
        assert(out@ =~= old(out)@ + requires_pretty(*r));
    }
}

/// One pretty source object of the `_meta.sources` list.
pub open spec fn source_item_pretty(s: PipfileSource) -> Seq<char> {
    "      {\n        \"name\": "@ + json_str(s.name@) + ",\n        \"url\": "@ + json_str(
        s.url@,
    ) + ",\n        \"verify_ssl\": "@ + bool_str(s.verify_ssl) + "\n      }"@
}

/// The pretty source objects, one per source.
pub open spec fn source_items_pretty(ss: Seq<PipfileSource>) -> Seq<Seq<char>>
    decreases ss.len(),
{
    if ss.len() == 0 {
        Seq::empty()
    } else {
        seq![source_item_pretty(ss[0])] + source_items_pretty(ss.drop_first())
    }
}

/// The pretty `sources` list of the artifact.
pub open spec fn sources_pretty(ss: Seq<PipfileSource>) -> Seq<char> {
    if ss.len() == 0 {
        "[]"@
    } else {
        "[\n"@ + join_lines(source_items_pretty(ss)) + "\n    ]"@
    }
}

/// Append the pretty `sources` list.
#[verifier::loop_isolation(false)]
fn push_sources_pretty(out: &mut Vec<char>, ss: &Vec<PipfileSource>)
    ensures
        final(out)@ == old(out)@ + sources_pretty(ss@),
{
    let n = ss.len();
    if n == 0 {
        push_chars(out, "[]");
        proof {
            assert(out@ =~= old(out)@ + sources_pretty(ss@));
        }
        return ;
    }
    push_chars(out, "[\n");
    let mut items: Vec<Vec<char>> = Vec::new();
    let mut i: usize = 0;
    proof {
        assert(ss@.skip(0) =~= ss@);
        assert(views_of(items@) + source_items_pretty(ss@.skip(0)) =~= source_items_pretty(ss@));
    }
    while i < n
        invariant
            i <= n,
            n == ss@.len(),
            views_of(items@) + source_items_pretty(ss@.skip(i as int)) == source_items_pretty(ss@),
        decreases n - i,
    {
        proof {
            assert(ss@.skip(i as int)[0] == ss@[i as int]);
            assert(ss@.skip(i as int).drop_first() =~= ss@.skip(i + 1));
        }
        // the artifact copies each source verbatim from the manifest
        let entry = PipfileLockSource {
            name: ss[i].name.clone(),
            url: ss[i].url.clone(),
            verify_ssl: ss[i].verify_ssl,
        };
        let mut item: Vec<char> = Vec::new();
        push_chars(&mut item, "      {\n        \"name\": ");
        push_json_str(&mut item, entry.name.as_str());
        push_chars(&mut item, ",\n        \"url\": ");
        push_json_str(&mut item, entry.url.as_str());
        push_chars(&mut item, ",\n        \"verify_ssl\": ");
        if entry.verify_ssl {
            push_chars(&mut item, "true");
        } else {
            push_chars(&mut item, "false");
        }
        push_chars(&mut item, "\n      }");
        proof {
            assert(item@ =~= source_item_pretty(ss@[i as int]));
        }
        items.push(item);
        proof {
            assert(views_of(items@) + source_items_pretty(ss@.skip(i + 1)) =~~=
                source_items_pretty(ss@));
        }
        i += 1;
    }
    proof {
        assert(source_items_pretty(ss@.skip(n as int)).len() == 0);
        assert(views_of(items@) =~= source_items_pretty(ss@));
    }
    push_joined_lines(out, &items);
    push_chars(out, "\n    ]");
    proof {
        assert(out@ =~= old(out)@ + sources_pretty(ss@));
    }
}

/// One pretty hash line of a package entry.
pub open spec fn hash_items_pretty(hs: Seq<String>) -> Seq<Seq<char>>
    decreases hs.len(),
{
    if hs.len() == 0 {
        Seq::empty()
    } else {
        seq!["        "@ + json_str(hs[0]@)] + hash_items_pretty(hs.drop_first())
    }
}

/// The pretty `hashes` list of a package entry.
pub open spec fn hashes_pretty(hs: Seq<String>) -> Seq<char> {
    if hs.len() == 0 {
        "[]"@
    } else {
        "[\n"@ + join_lines(hash_items_pretty(hs)) + "\n      ]"@
    }
}

/// Append the pretty `hashes` list.
#[verifier::loop_isolation(false)]
fn push_hashes_pretty(out: &mut Vec<char>, hs: &Vec<String>)
    ensures
        final(out)@ == old(out)@ + hashes_pretty(hs@),
{
    let n = hs.len();
    if n == 0 {
        push_chars(out, "[]");
        proof {
            assert(out@ =~= old(out)@ + hashes_pretty(hs@));
        }
        return ;
    }
    push_chars(out, "[\n");
    let mut items: Vec<Vec<char>> = Vec::new();
    let mut i: usize = 0;
    proof {
        assert(hs@.skip(0) =~= hs@);
        assert(views_of(items@) + hash_items_pretty(hs@.skip(0)) =~= hash_items_pretty(hs@));
    }
    while i < n
        invariant
            i <= n,
            n == hs@.len(),
            views_of(items@) + hash_items_pretty(hs@.skip(i as int)) == hash_items_pretty(hs@),
        decreases n - i,
    {
        proof {
            assert(hs@.skip(i as int)[0] == hs@[i as int]);
            assert(hs@.skip(i as int).drop_first() =~= hs@.skip(i + 1));
        }
        let mut item: Vec<char> = Vec::new();
        push_chars(&mut item, "        ");
        push_json_str(&mut item, hs[i].as_str());
        proof {
            assert(item@ =~= "        "@ + json_str(hs@[i as int]@));
        }
        items.push(item);
        proof {
            assert(views_of(items@) + hash_items_pretty(hs@.skip(i + 1)) =~~= hash_items_pretty(
                hs@,
            ));
        }
        i += 1;
    }
    proof {
        assert(hash_items_pretty(hs@.skip(n as int)).len() == 0);
        assert(views_of(items@) =~= hash_items_pretty(hs@));
    }
    push_joined_lines(out, &items);
    push_chars(out, "\n      ]");
    proof {
        assert(out@ =~= old(out)@ + hashes_pretty(hs@));
    }
}

/// The pretty text of one package entry: hashes, the attributed index when
/// one matches, no markers, and the pinned `==` version.
pub open spec fn entry_text(name: Seq<char>, node: LockNode, sources: Seq<PipfileSource>) -> Seq<
    char,
> {
    "    "@ + json_str(name) + ": {\n      \"hashes\": "@ + hashes_pretty(node.hashes@) + ",\n"@
        + (match index_of_node(node, sources) {
        Some(srcname) => "      \"index\": "@ + json_str(srcname) + ",\n"@,
        None => Seq::empty(),
    }) + "      \"version\": "@ + json_str("=="@ + node.version->Some_0@) + "\n    }"@
}

/// The pretty entry texts of the names that resolve to a graph node.
pub open spec fn entries_items(
    names: Seq<Seq<char>>,
    nodes: Seq<LockNode>,
    sources: Seq<PipfileSource>,
) -> Seq<Seq<char>>
    decreases names.len(),
{
    if names.len() == 0 {
        Seq::empty()
    } else {
        (match find_node_spec(nodes, names[0]) {
            None => Seq::empty(),
            Some(node) => seq![entry_text(names[0], node, sources)],
        }) + entries_items(names.drop_first(), nodes, sources)
    }
}

/// The pretty `default` or `develop` map of the artifact.
pub open spec fn entries_pretty(
    names: Seq<Seq<char>>,
    nodes: Seq<LockNode>,
    sources: Seq<PipfileSource>,
) -> Seq<char> {
    if entries_items(names, nodes, sources).len() == 0 {
        "{}"@
    } else {
        "{\n"@ + join_lines(entries_items(names, nodes, sources)) + "\n  }"@
    }
}

/// Append the pretty map of the entries for the given names.
#[verifier::loop_isolation(false)]
fn push_entries_pretty(
    out: &mut Vec<char>,
    names: &Vec<String>,
    graph: &LockGraph,
    pipfile: &Pipfile,
)
    ensures
        final(out)@ == old(out)@ + entries_pretty(
            str_views(names@),
            graph.nodes@,
            pipfile.source@,
        ),
{
    let ghost nv = str_views(names@);
    proof {
        lemma_str_views(names@);
    }
    let n = names.len();
    let mut items: Vec<Vec<char>> = Vec::new();
    let mut i: usize = 0;
    proof {
        assert(nv.skip(0) =~= nv);
        assert(views_of(items@) + entries_items(nv.skip(0), graph.nodes@, pipfile.source@) =~=
            entries_items(nv, graph.nodes@, pipfile.source@));
    }
    while i < n
        invariant
            i <= n,
            n == names@.len(),
            n == nv.len(),
            nv == str_views(names@),
            forall|j: int| 0 <= j < n ==> nv[j] == (#[trigger] names@[j])@,
            views_of(items@) + entries_items(nv.skip(i as int), graph.nodes@, pipfile.source@)
                == entries_items(nv, graph.nodes@, pipfile.source@),
        decreases n - i,
    {
        proof {
            assert(nv.skip(i as int)[0] == nv[i as int]);
            assert(nv.skip(i as int).drop_first() =~= nv.skip(i + 1));
        }
        if let Some(node) = find_node(graph, names[i].as_str()) {
            proof {
                lemma_find_node_props(graph.nodes@, names@[i as int]@);
            }
            // assemble the entry as the artifact stores it
            let mut version: Vec<char> = Vec::new();
            push_chars(&mut version, "==");
            match &node.version {
                Some(v) => {
                    push_chars(&mut version, v.as_str());
                },
                None => {
                },
            }
            let entry = PipfileLockPackage {
                hashes: clone_string_vec(&node.hashes),
                index: find_source_name(node, pipfile),
                markers: None,
                version: chars_to_string(&version),
            };
            let mut item: Vec<char> = Vec::new();
            push_chars(&mut item, "    ");
            push_json_str(&mut item, names[i].as_str());
            push_chars(&mut item, ": {\n      \"hashes\": ");
            push_hashes_pretty(&mut item, &entry.hashes);
            push_chars(&mut item, ",\n");
            if let Some(srcname) = &entry.index {
                push_chars(&mut item, "      \"index\": ");
                push_json_str(&mut item, srcname.as_str());
                push_chars(&mut item, ",\n");
            }
            push_chars(&mut item, "      \"version\": ");
            push_json_str(&mut item, entry.version.as_str());
            push_chars(&mut item, "\n    }");
            proof {
                assert(entry.version@ == "=="@ + node.version->Some_0@);
                assert(item@ =~= entry_text(nv[i as int], *node, pipfile.source@));
            }
            items.push(item);
            proof {
                assert(views_of(items@) + entries_items(nv.skip(i + 1), graph.nodes@,
                    pipfile.source@) =~~= entries_items(nv, graph.nodes@, pipfile.source@));
            }
        } else {
            proof {
                assert(views_of(items@) + entries_items(nv.skip(i + 1), graph.nodes@,
                    pipfile.source@) =~= entries_items(nv, graph.nodes@, pipfile.source@));
            }
        }
        i += 1;
    }
    proof {
        assert(entries_items(nv.skip(n as int), graph.nodes@, pipfile.source@).len() == 0);
        assert(views_of(items@) =~= entries_items(nv, graph.nodes@, pipfile.source@));
    }
    if items.len() == 0 {
        push_chars(out, "{}");
        proof {
            assert(entries_items(nv, graph.nodes@, pipfile.source@).len() == 0);
            assert(out@ =~= old(out)@ + entries_pretty(nv, graph.nodes@, pipfile.source@));
        }
    } else {
        push_chars(out, "{\n");
        push_joined_lines(out, &items);
        push_chars(out, "\n  }");
        proof {
            assert(entries_items(nv, graph.nodes@, pipfile.source@).len() > 0);
            assert(out@ =~= old(out)@ + entries_pretty(nv, graph.nodes@, pipfile.source@));
        }
    }
}

/// A sequence of name views, strictly sorted.
pub open spec fn sorted_views(s: Seq<Seq<char>>) -> bool {
    forall|i: int, j: int| 0 <= i < j < s.len() ==> seq_lt(#[trigger] s[i], #[trigger] s[j])
}

/// Whether a name view occurs in the sequence.
pub open spec fn views_has(s: Seq<Seq<char>>, x: Seq<char>) -> bool {
    exists|i: int| 0 <= i < s.len() && #[trigger] s[i] == x
}

/// Two strictly sorted name sequences with the same members are equal.
pub proof fn lemma_sorted_views_unique(a: Seq<Seq<char>>, b: Seq<Seq<char>>)
    requires
        sorted_views(a),
        sorted_views(b),
        forall|x: Seq<char>| views_has(a, x) <==> views_has(b, x),
    ensures
        a == b,
    decreases a.len() + b.len(),
{
    if a.len() == 0 {
        if b.len() > 0 {
            assert(views_has(b, b[0]));
            assert(views_has(a, b[0]));
            let i = choose|i: int| 0 <= i < a.len() && a[i] == b[0];
            assert(false);
        }
        assert(a =~= b);
    } else if b.len() == 0 {
        assert(views_has(a, a[0]));
        assert(views_has(b, a[0]));
        let i = choose|i: int| 0 <= i < b.len() && b[i] == a[0];
        assert(false);
    } else {
        // the heads are each other's least elements, so they are equal
        assert(views_has(a, a[0]));
        assert(views_has(b, a[0]));
        let k = choose|k: int| 0 <= k < b.len() && b[k] == a[0];
        assert(views_has(b, b[0]));
        assert(views_has(a, b[0]));
        let l = choose|l: int| 0 <= l < a.len() && a[l] == b[0];
        if k > 0 && l > 0 {
            assert(seq_lt(b[0], b[k]));
            assert(seq_lt(a[0], a[l]));
            lemma_seq_lt_trans(a[0], a[l], b[k]);
            lemma_seq_lt_asym(a[0], b[k]);
            assert(false);
        }
        assert(a[0] == b[0]);
        assert(sorted_views(a.drop_first()));
        assert(sorted_views(b.drop_first()));
        assert forall|x: Seq<char>| views_has(a.drop_first(), x) implies views_has(
            b.drop_first(),
            x,
        ) by {
            let i = choose|i: int| 0 <= i < a.drop_first().len() && a.drop_first()[i] == x;
            assert(a[i + 1] == x);
            assert(views_has(a, x));
            assert(views_has(b, x));
            let j = choose|j: int| 0 <= j < b.len() && b[j] == x;
            if j == 0 {
                assert(seq_lt(a[0], a[i + 1]));
                lemma_seq_lt_asym(a[0], x);
                assert(false);
            }
            assert(b.drop_first()[j - 1] == x);
        }
        assert forall|x: Seq<char>| views_has(b.drop_first(), x) implies views_has(
            a.drop_first(),
            x,
        ) by {
            let i = choose|i: int| 0 <= i < b.drop_first().len() && b.drop_first()[i] == x;
            assert(b[i + 1] == x);
            assert(views_has(b, x));
            assert(views_has(a, x));
            let j = choose|j: int| 0 <= j < a.len() && a[j] == x;
            if j == 0 {
                assert(seq_lt(b[0], b[i + 1]));
                lemma_seq_lt_asym(b[0], x);
                assert(false);
            }
            assert(a.drop_first()[j - 1] == x);
        }
        lemma_sorted_views_unique(a.drop_first(), b.drop_first());
        assert(a =~= b) by {
            assert forall|i: int| 0 <= i < a.len() implies a[i] == b[i] by {
                if i > 0 {
                    assert(a.drop_first()[i - 1] == b.drop_first()[i - 1]);
                }
            }
        }
    }
}

/// The sorted names of the production set: exactly the names reachable
/// from the manifest's normalized production keys.
pub open spec fn default_names_spec(g: &LockGraph, pf: &Pipfile) -> Seq<Seq<char>> {
    choose|s: Seq<Seq<char>>|
        sorted_views(s) && forall|n: Seq<char>| #[trigger] views_has(s, n) <==> reachable(
            adjacency_spec(g.nodes@),
            norm_keys(pf.packages@),
            n,
        )
}

/// The sorted names of the development set: exactly the names reachable
/// from the development keys and not from the production keys.
pub open spec fn develop_names_spec(g: &LockGraph, pf: &Pipfile) -> Seq<Seq<char>> {
    choose|s: Seq<Seq<char>>|
        sorted_views(s) && forall|n: Seq<char>| #[trigger] views_has(s, n) <==> (reachable(
            adjacency_spec(g.nodes@),
            norm_keys(pf.dev_packages@),
            n,
        ) && !reachable(adjacency_spec(g.nodes@), norm_keys(pf.packages@), n))
}

/// A sorted set of strings, seen by views, is strictly sorted and has the
/// same members.
proof fn lemma_set_to_views(v: Seq<String>)
    requires
        set_sorted(v),
    ensures
        sorted_views(str_views(v)),
        forall|x: Seq<char>| views_has(str_views(v), x) <==> set_has(v, x),
{
    lemma_str_views(v);
    assert forall|i: int, j: int| 0 <= i < j < str_views(v).len() implies seq_lt(
        #[trigger] str_views(v)[i],
        #[trigger] str_views(v)[j],
    ) by {
        assert(str_views(v)[i] == v[i]@);
        assert(str_views(v)[j] == v[j]@);
    }
    assert forall|x: Seq<char>| views_has(str_views(v), x) implies set_has(v, x) by {
        let i = choose|i: int| 0 <= i < str_views(v).len() && str_views(v)[i] == x;
        assert(v[i]@ == x);
    }
    assert forall|x: Seq<char>| set_has(v, x) implies views_has(str_views(v), x) by {
        let i = choose|i: int| 0 <= i < v.len() && (#[trigger] v[i])@ == x;
        assert(str_views(v)[i] == x);
    }
}

/// The whole lock artifact text: metadata with the content hash, the spec
/// version, the manifest's requirement and sources, then the production and
/// development maps, as pretty JSON with a trailing newline.
pub open spec fn lock_text_spec(g: &LockGraph, pf: &Pipfile) -> Seq<char> {
    "{\n  \"_meta\": {\n    \"hash\": {\n      \"sha256\": "@ + json_str(
        content_hash_spec(pf),
    ) + "\n    },\n    \"pipfile-spec\": 6,\n    \"requires\": "@ + requires_pretty(
        pf.requires,
    ) + ",\n    \"sources\": "@ + sources_pretty(pf.source@) + "\n  },\n  \"default\": "@
        + entries_pretty(default_names_spec(g, pf), g.nodes@, pf.source@) + ",\n  \"develop\": "@
        + entries_pretty(develop_names_spec(g, pf), g.nodes@, pf.source@) + "\n}\n"@
}

/// Reconstruct the lock artifact from the resolved graph and the manifest.
///
/// The output is a pure function of the two inputs: same graph and manifest,
/// byte-identical text.
#[verifier::rlimit(60)]
pub fn generate_pipfile_lock(graph: &LockGraph, pipfile: &Pipfile) -> (r: String)
    ensures
        r@ == lock_text_spec(graph, pipfile),
{
    let (default_names, develop_names) = categorize_packages(pipfile, graph);
    proof {
        lemma_set_to_views(default_names@);
        lemma_set_to_views(develop_names@);
        let s0 = str_views(default_names@);
        assert forall|n: Seq<char>| #[trigger] views_has(s0, n) <==> reachable(
            adjacency_spec(graph.nodes@),
            norm_keys(pipfile.packages@),
            n,
        ) by {
            assert(views_has(s0, n) <==> set_has(default_names@, n));
            assert(set_has(default_names@, n) <==> reachable(
                adjacency_spec(graph.nodes@),
                norm_keys(pipfile.packages@),
                n,
            ));
        }
        lemma_sorted_views_unique(s0, default_names_spec(graph, pipfile));
        assert(str_views(default_names@) == default_names_spec(graph, pipfile));

        let t0 = str_views(develop_names@);
        assert forall|n: Seq<char>| #[trigger] views_has(t0, n) <==> (reachable(
            adjacency_spec(graph.nodes@),
            norm_keys(pipfile.dev_packages@),
            n,
        ) && !reachable(adjacency_spec(graph.nodes@), norm_keys(pipfile.packages@), n)) by {
            assert(views_has(t0, n) <==> set_has(develop_names@, n));
            assert(set_has(develop_names@, n) <==> (reachable(
                adjacency_spec(graph.nodes@),
                norm_keys(pipfile.dev_packages@),
                n,
            ) && !reachable(adjacency_spec(graph.nodes@), norm_keys(pipfile.packages@), n)));
        }
        lemma_sorted_views_unique(t0, develop_names_spec(graph, pipfile));
        assert(str_views(develop_names@) == develop_names_spec(graph, pipfile));
    }
    let content_hash = PipfileLockHash { sha256: compute_pipfile_hash(pipfile) };
    let mut out: Vec<char> = Vec::new();
    push_chars(&mut out, "{\n  \"_meta\": {\n    \"hash\": {\n      \"sha256\": ");
    push_json_str(&mut out, content_hash.sha256.as_str());
    push_chars(&mut out, "\n    },\n    \"pipfile-spec\": 6,\n    \"requires\": ");
    push_requires_pretty(&mut out, &pipfile.requires);
    push_chars(&mut out, ",\n    \"sources\": ");
    push_sources_pretty(&mut out, &pipfile.source);
    push_chars(&mut out, "\n  },\n  \"default\": ");
    push_entries_pretty(&mut out, &default_names, graph, pipfile);
    push_chars(&mut out, ",\n  \"develop\": ");
    push_entries_pretty(&mut out, &develop_names, graph, pipfile);
    push_chars(&mut out, "\n}\n");
    proof {
        assert(out@ =~= lock_text_spec(graph, pipfile));
    }
    chars_to_string(&out)
}

/// Determinism: the content hash and the whole lock artifact are functions
/// of the manifest and the resolved graph alone, so computing either twice
/// from unchanged inputs yields identical text.
pub proof fn lemma_lock_deterministic(g1: &LockGraph, g2: &LockGraph, pf1: &Pipfile, pf2: &Pipfile)
    requires
        g1 == g2,
        pf1 == pf2,
    ensures
        content_hash_spec(pf1) == content_hash_spec(pf2),
        lock_text_spec(g1, pf1) == lock_text_spec(g2, pf2),
{
}

} // verus!
