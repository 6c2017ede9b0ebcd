//! Deterministic, cycle-safe linearization of a roadmap graph.
//!
//! Nodes carry optional `prev_node_id` / `next_node_id` references. The
//! linearizer picks head candidates (nodes without a resolvable
//! predecessor, or every node when none qualifies), orders them by skill
//! name, walks each head forward along `next_node_id` with a visited
//! guard, and finally appends any node still unvisited, again ordered by
//! skill name. The whole algorithm is specified as a function of the
//! node sequence, so the display order depends on nothing but the
//! roadmap itself.

use vstd::prelude::*;
use crate::model::{clone_nodes, NodeV, Roadmap, RoadmapNode};
use crate::text::{lex_lt, str_eq, str_lt};

verus! {

/// The last node with the given id, if any. Mirrors an id-keyed map
/// built by inserting the nodes in order, where later entries win.
pub open spec fn find_by_id(nodes: Seq<NodeV>, id: Seq<char>) -> Option<NodeV>
    decreases nodes.len(),
{
    if nodes.len() == 0 {
        None
    } else if nodes.last().id == id {
        Some(nodes.last())
    } else {
        find_by_id(nodes.drop_last(), id)
    }
}

/// The id names some node of the roadmap.
pub open spec fn resolves(nodes: Seq<NodeV>, id: Seq<char>) -> bool {
    find_by_id(nodes, id) is Some
}

/// What `find_by_id` returns: a node of the sequence carrying the id,
/// and `None` exactly when no node carries it.
pub proof fn lemma_find_by_id_spec(nodes: Seq<NodeV>, id: Seq<char>)
    ensures
        resolves(nodes, id) <==> exists|k: int| 0 <= k < nodes.len() && nodes[k].id == id,
        resolves(nodes, id) ==> {
            let n = find_by_id(nodes, id).unwrap();
            n.id == id && exists|k: int| 0 <= k < nodes.len() && nodes[k] == n
        },
    decreases nodes.len(),
{
    if nodes.len() > 0 {
        if nodes.last().id == id {
            assert(nodes[nodes.len() - 1].id == id);
        } else {
            lemma_find_by_id_spec(nodes.drop_last(), id);
            if exists|k: int| 0 <= k < nodes.len() && nodes[k].id == id {
                let k = choose|k: int| 0 <= k < nodes.len() && nodes[k].id == id;
                assert(k < nodes.len() - 1);
                assert(nodes.drop_last()[k].id == id);
            }
            if resolves(nodes.drop_last(), id) {
                let k = choose|k: int|
                    0 <= k < nodes.drop_last().len() && nodes.drop_last()[k] == find_by_id(
                        nodes.drop_last(),
                        id,
                    ).unwrap();
                assert(nodes[k] == find_by_id(nodes, id).unwrap());
            }
        }
    }
}

/// Decides whether an id names some node of the roadmap.
pub fn id_resolves(nodes: &Vec<RoadmapNode>, id: &str) -> (r: bool)
    ensures
        r == resolves(nodes.deep_view(), id@),
{
    let ghost dv = nodes.deep_view();
    proof {
        lemma_find_by_id_spec(dv, id@);
    }
    let mut k: usize = 0;
    while k < nodes.len()
        invariant
            k <= nodes.len(),
            dv == nodes.deep_view(),
            forall|j: int| 0 <= j < k ==> dv[j].id != id@,
        decreases nodes.len() - k,
    {
        if str_eq(nodes[k].id.as_str(), id) {
            proof {
                assert(dv[k as int].id == id@);
                lemma_find_by_id_spec(dv, id@);
            }
            return true;
        }
        k = k + 1;
    }
    false
}

/// Looks up the last node with the given id, as the id-keyed map would.
pub fn find_node(nodes: &Vec<RoadmapNode>, id: &str) -> (r: Option<RoadmapNode>)
    ensures
        r.deep_view() == find_by_id(nodes.deep_view(), id@),
{
    let ghost dv = nodes.deep_view();
    let mut k: usize = nodes.len();
    proof {
        assert(dv.take(dv.len() as int) =~= dv);
    }
    while k > 0
        invariant
            k <= nodes.len(),
            dv == nodes.deep_view(),
            find_by_id(dv, id@) == find_by_id(dv.take(k as int), id@),
        decreases k,
    {
        k = k - 1;
        if str_eq(nodes[k].id.as_str(), id) {
            let found = nodes[k].clone();
            proof {
                assert(dv.take(k as int + 1).last() == dv[k as int]);
                assert(found@ == dv[k as int]);
            }
            return Some(found);
        }
        proof {
            assert(dv.take(k as int + 1).last() == dv[k as int]);
            assert(dv.take(k as int + 1).drop_last() =~= dv.take(k as int));
        }
    }
    proof {
        assert(dv.take(0) =~= Seq::<NodeV>::empty());
    }
    None
}

/// A node qualifies as a traversal head: it has no predecessor
/// reference, or its predecessor reference names no node.
pub open spec fn is_head(nodes: Seq<NodeV>, n: NodeV) -> bool {
    match n.prev_node_id {
        None => true,
        Some(p) => !resolves(nodes, p),
    }
}

/// The heads among the first `k` nodes, in node order.
pub open spec fn heads_upto(nodes: Seq<NodeV>, k: int) -> Seq<NodeV>
    decreases k,
{
    if k <= 0 {
        Seq::empty()
    } else {
        heads_upto(nodes, k - 1) + if is_head(nodes, nodes[k - 1]) {
            seq![nodes[k - 1]]
        } else {
            Seq::empty()
        }
    }
}

/// All head candidates of the roadmap, in node order.
pub open spec fn head_candidates(nodes: Seq<NodeV>) -> Seq<NodeV> {
    heads_upto(nodes, nodes.len() as int)
}

/// Inserts `x` behind every element whose skill name does not exceed
/// `x`'s: a stable insertion.
pub open spec fn insert_sorted(s: Seq<NodeV>, x: NodeV) -> Seq<NodeV>
    decreases s.len(),
{
    if s.len() == 0 {
        seq![x]
    } else if lex_lt(x.skill_name, s.last().skill_name) {
        insert_sorted(s.drop_last(), x).push(s.last())
    } else {
        s.push(x)
    }
}

/// Stable insertion sort by skill name: the deterministic tie-break of
/// the linearizer.
pub open spec fn sort_by_name(s: Seq<NodeV>) -> Seq<NodeV>
    decreases s.len(),
{
    if s.len() == 0 {
        Seq::empty()
    } else {
        insert_sorted(sort_by_name(s.drop_last()), s.last())
    }
}

proof fn lemma_insert_sorted_at(s: Seq<NodeV>, x: NodeV, j: int)
    requires
        0 <= j <= s.len(),
        forall|t: int| j <= t < s.len() ==> lex_lt(x.skill_name, s[t].skill_name),
        j > 0 ==> !lex_lt(x.skill_name, s[j - 1].skill_name),
    ensures
        insert_sorted(s, x) == s.insert(j, x),
    decreases s.len(),
{
    if s.len() == 0 {
        assert(insert_sorted(s, x) =~= s.insert(0, x));
    } else if j == s.len() {
        assert(!lex_lt(x.skill_name, s[j - 1].skill_name));
        assert(insert_sorted(s, x) == s.push(x));
        assert(s.push(x) =~= s.insert(j, x));
    } else {
        assert(lex_lt(x.skill_name, s[s.len() - 1].skill_name));
        lemma_insert_sorted_at(s.drop_last(), x, j);
        assert(insert_sorted(s, x) == insert_sorted(s.drop_last(), x).push(s.last()));
        assert(s.drop_last().insert(j, x).push(s.last()) =~= s.insert(j, x));
    }
}

/// Sorts nodes by skill name with the stable insertion sort of the
/// specification.
pub fn sorted_by_name(src: &Vec<RoadmapNode>) -> (r: Vec<RoadmapNode>)
    ensures
        r.deep_view() == sort_by_name(src.deep_view()),
{
    let ghost dv = src.deep_view();
    let mut out: Vec<RoadmapNode> = Vec::new();
    let mut i: usize = 0;
    proof {
        assert(dv.take(0) =~= Seq::<NodeV>::empty());
        assert(out.deep_view() =~= Seq::<NodeV>::empty());
    }
    while i < src.len()
        invariant
            i <= src.len(),
            dv == src.deep_view(),
            out.deep_view() == sort_by_name(dv.take(i as int)),
        decreases src.len() - i,
    {
        let x = src[i].clone();
        proof {
            assert(x@ == dv[i as int]);
        }
        let ghost acc = out.deep_view();
        let mut j: usize = out.len();
        while j > 0 && str_lt(x.skill_name.as_str(), out[j - 1].skill_name.as_str())
            invariant
                j <= out.len(),
                acc == out.deep_view(),
                out.deep_view().len() == out.len(),
                x@ == dv[i as int],
                forall|t: int| j <= t < acc.len() ==> lex_lt(x@.skill_name, acc[t].skill_name),
            decreases j,
        {
            proof {
                assert(acc[j - 1] == out@[j - 1].deep_view());
            }
            j = j - 1;
        }
        proof {
            if j > 0 {
                assert(acc[j - 1] == out@[j - 1].deep_view());
            }
            lemma_insert_sorted_at(acc, x@, j as int);
        }
        out.insert(j, x);
        proof {
            assert(out.deep_view() =~= acc.insert(j as int, dv[i as int]));
            assert(dv.take(i + 1).drop_last() =~= dv.take(i as int));
            assert(dv.take(i + 1).last() == dv[i as int]);
        }
        i = i + 1;
    }
    proof {
        assert(dv.take(dv.len() as int) =~= dv);
    }
    out
}

/// Number of nodes whose id is not yet visited: the walk's termination
/// measure.
pub open spec fn unvisited_count(nodes: Seq<NodeV>, visited: Set<Seq<char>>) -> nat
    decreases nodes.len(),
{
    if nodes.len() == 0 {
        0
    } else {
        unvisited_count(nodes.drop_last(), visited) + if !visited.contains(nodes.last().id) {
            1nat
        } else {
            0nat
        }
    }
}

proof fn lemma_unvisited_monotone(nodes: Seq<NodeV>, visited: Set<Seq<char>>, x: Seq<char>)
    ensures
        unvisited_count(nodes, visited.insert(x)) <= unvisited_count(nodes, visited),
    decreases nodes.len(),
{
    if nodes.len() > 0 {
        lemma_unvisited_monotone(nodes.drop_last(), visited, x);
    }
}

proof fn lemma_unvisited_insert(nodes: Seq<NodeV>, visited: Set<Seq<char>>, x: Seq<char>)
    requires
        exists|k: int| 0 <= k < nodes.len() && nodes[k].id == x,
        !visited.contains(x),
    ensures
        unvisited_count(nodes, visited.insert(x)) < unvisited_count(nodes, visited),
    decreases nodes.len(),
{
    let k = choose|k: int| 0 <= k < nodes.len() && nodes[k].id == x;
    if k == nodes.len() - 1 {
        lemma_unvisited_monotone(nodes.drop_last(), visited, x);
    } else {
        assert(nodes.drop_last()[k] == nodes[k]);
        lemma_unvisited_insert(nodes.drop_last(), visited, x);
    }
}

/// The forward walk from `cur`: emits each not-yet-visited node along
/// the `next_node_id` chain, stopping at a visited id, an unresolvable
/// id, or a missing link. Returns the emitted nodes and the grown
/// visited set.
pub open spec fn walk(nodes: Seq<NodeV>, cur: Seq<char>, visited: Set<Seq<char>>) -> (Seq<
    NodeV,
>, Set<Seq<char>>)
    decreases unvisited_count(nodes, visited),
    via walk_decreases
{
    if visited.contains(cur) || !resolves(nodes, cur) {
        (Seq::empty(), visited)
    } else {
        let node = find_by_id(nodes, cur).unwrap();
        let visited2 = visited.insert(cur);
        match node.next_node_id {
            Some(nid) => if resolves(nodes, nid) {
                let rest = walk(nodes, nid, visited2);
                (seq![node] + rest.0, rest.1)
            } else {
                (seq![node], visited2)
            },
            None => (seq![node], visited2),
        }
    }
}

#[via_fn]
proof fn walk_decreases(nodes: Seq<NodeV>, cur: Seq<char>, visited: Set<Seq<char>>) {
    if !visited.contains(cur) && resolves(nodes, cur) {
        lemma_find_by_id_spec(nodes, cur);
        lemma_unvisited_insert(nodes, visited, cur);
    }
}

/// The walks from all heads in order, threading the visited set.
pub open spec fn walk_list(
    nodes: Seq<NodeV>,
    heads: Seq<NodeV>,
    visited: Set<Seq<char>>,
) -> (Seq<NodeV>, Set<Seq<char>>)
    decreases heads.len(),
{
    if heads.len() == 0 {
        (Seq::empty(), visited)
    } else {
        let w = walk(nodes, heads.first().id, visited);
        let rest = walk_list(nodes, heads.drop_first(), w.1);
        (w.0 + rest.0, rest.1)
    }
}

/// The nodes among the first `k` whose id is unvisited, in node order.
pub open spec fn orphans_upto(nodes: Seq<NodeV>, visited: Set<Seq<char>>, k: int) -> Seq<NodeV>
    decreases k,
{
    if k <= 0 {
        Seq::empty()
    } else {
        orphans_upto(nodes, visited, k - 1) + if !visited.contains(nodes[k - 1].id) {
            seq![nodes[k - 1]]
        } else {
            Seq::empty()
        }
    }
}

/// All nodes no head walk reached.
pub open spec fn orphans(nodes: Seq<NodeV>, visited: Set<Seq<char>>) -> Seq<NodeV> {
    orphans_upto(nodes, visited, nodes.len() as int)
}

/// The full linearization: sorted head walks, then sorted orphans.
pub open spec fn linearize_spec(nodes: Seq<NodeV>) -> Seq<NodeV> {
    let hc = head_candidates(nodes);
    let heads = if hc.len() == 0 {
        nodes
    } else {
        hc
    };
    let walked = walk_list(nodes, sort_by_name(heads), Set::empty());
    walked.0 + sort_by_name(orphans(nodes, walked.1))
}

/// Decides membership of a string in the visited list.
fn contains_str(v: &Vec<String>, s: &str) -> (r: bool)
    ensures
        r == v.deep_view().to_set().contains(s@),
{
    let ghost dv = v.deep_view();
    let mut k: usize = 0;
    while k < v.len()
        invariant
            k <= v.len(),
            dv == v.deep_view(),
            forall|j: int| 0 <= j < k ==> dv[j] != s@,
        decreases v.len() - k,
    {
        if str_eq(v[k].as_str(), s) {
            proof {
                assert(dv[k as int] == s@);
                assert(dv.contains(s@));
            }
            return true;
        }
        k = k + 1;
    }
    proof {
        assert(!dv.contains(s@)) by {
            if dv.contains(s@) {
                let j = choose|j: int| 0 <= j < dv.len() && dv[j] == s@;
            }
        }
    }
    false
}

proof fn lemma_to_set_push(s: Seq<Seq<char>>, x: Seq<char>)
    ensures
        s.push(x).to_set() == s.to_set().insert(x),
{
    assert forall|a: Seq<char>|
        s.push(x).to_set().contains(a) implies s.to_set().insert(x).contains(a) by {
        let j = choose|j: int| 0 <= j < s.push(x).len() && s.push(x)[j] == a;
        if j < s.len() {
            assert(s[j] == a);
            assert(s.contains(a));
        }
    }
    assert forall|a: Seq<char>|
        s.to_set().insert(x).contains(a) implies s.push(x).to_set().contains(a) by {
        if s.contains(a) {
            let j = choose|j: int| 0 <= j < s.len() && s[j] == a;
            assert(s.push(x)[j] == a);
            assert(s.push(x).contains(a));
        } else {
            assert(s.push(x)[s.len() as int] == x);
            assert(s.push(x).contains(x));
        }
    }
    assert(s.push(x).to_set() =~= s.to_set().insert(x));
}

/// Runs one head walk, appending to `out` and growing `visited`.
fn walk_exec(
    nodes: &Vec<RoadmapNode>,
    start: &str,
    visited: &mut Vec<String>,
    out: &mut Vec<RoadmapNode>,
)
    ensures
        ({
            let w = walk(nodes.deep_view(), start@, old(visited).deep_view().to_set());
            &&& final(out).deep_view() == old(out).deep_view() + w.0
            &&& final(visited).deep_view().to_set() == w.1
        }),
{
    let ghost dv = nodes.deep_view();
    let ghost v0 = visited.deep_view().to_set();
    let ghost out0 = out.deep_view();
    let ghost mut emitted: Seq<NodeV> = Seq::empty();
    let mut cur: String = start.to_owned();
    proof {
        assert(out.deep_view() =~= out0 + emitted);
        assert(emitted + walk(dv, start@, v0).0 =~= walk(dv, start@, v0).0);
    }
    loop
        invariant
            dv == nodes.deep_view(),
            v0 == old(visited).deep_view().to_set(),
            out0 == old(out).deep_view(),
            out.deep_view() == out0 + emitted,
            walk(dv, start@, v0).0 == emitted + walk(dv, cur@, visited.deep_view().to_set()).0,
            walk(dv, start@, v0).1 == walk(dv, cur@, visited.deep_view().to_set()).1,
        decreases unvisited_count(dv, visited.deep_view().to_set()),
    {
        let ghost vnow = visited.deep_view().to_set();
        if contains_str(visited, cur.as_str()) {
            proof {
                assert(emitted + walk(dv, cur@, vnow).0 =~= emitted);
            }
            return;
        }
        let node_opt = find_node(nodes, cur.as_str());
        match node_opt {
            None => {
                proof {
                    assert(emitted + walk(dv, cur@, vnow).0 =~= emitted);
                }
                return;
            },
            Some(node) => {
                proof {
                    assert(node@ == find_by_id(dv, cur@).unwrap());
                }
                let ghost pre_visited = visited.deep_view();
                let ghost emitted_old = emitted;
                let ghost out_pre = out.deep_view();
                visited.push(cur.clone());
                let nxt = crate::model::clone_opt_string(&node.next_node_id);
                let ghost nodev = node@;
                out.push(node);
                proof {
                    emitted = emitted.push(nodev);
                    assert(out.deep_view() =~= out_pre.push(nodev));
                    assert(out_pre.push(nodev) =~= out0 + emitted);
                    assert(visited.deep_view() =~= pre_visited.push(cur@));
                    lemma_to_set_push(pre_visited, cur@);
                    assert(visited.deep_view().to_set() == vnow.insert(cur@));
                    assert(emitted_old + seq![nodev] =~= emitted);
                }
                match nxt {
                    Some(nid) => {
                        if id_resolves(nodes, nid.as_str()) {
                            proof {
                                assert(walk(dv, cur@, vnow).0 == seq![nodev] + walk(
                                    dv,
                                    nid@,
                                    vnow.insert(cur@),
                                ).0);
                                assert((emitted_old + seq![nodev]) + walk(
                                    dv,
                                    nid@,
                                    vnow.insert(cur@),
                                ).0 =~= emitted_old + (seq![nodev] + walk(
                                    dv,
                                    nid@,
                                    vnow.insert(cur@),
                                ).0));
                                lemma_find_by_id_spec(dv, cur@);
                                lemma_unvisited_insert(dv, vnow, cur@);
                            }
                            cur = nid;
                        } else {
                            proof {
                                assert(walk(dv, cur@, vnow).0 == seq![nodev]);
                            }
                            return;
                        }
                    },
                    None => {
                        proof {
                            assert(walk(dv, cur@, vnow).0 == seq![nodev]);
                        }
                        return;
                    },
                }
            },
        }
    }
}

/// Flattens the roadmap graph into its display order: every head walk
/// in skill-name order, then the unreached nodes in skill-name order.
/// The result is exactly `linearize_spec` of the roadmap's nodes, and
/// for a well-formed roadmap it is a permutation of them.
pub fn ordered_nodes(roadmap: &Roadmap) -> (r: Vec<RoadmapNode>)
    ensures
        r.deep_view() == linearize_spec(roadmap@.nodes),
        roadmap.wf() ==> {
            &&& r.len() == roadmap.nodes.len()
            &&& r.deep_view().to_multiset() == roadmap@.nodes.to_multiset()
        },
{
    proof {
        if roadmap.wf() {
            lemma_linearize_permutation(roadmap@.nodes);
        }
    }
    let nodes = &roadmap.nodes;
    let ghost dv = nodes.deep_view();
    proof {
        assert(roadmap@.nodes == dv);
    }

    let mut heads: Vec<RoadmapNode> = Vec::new();
    let mut k: usize = 0;
    proof {
        assert(heads.deep_view() =~= heads_upto(dv, 0));
    }
    while k < nodes.len()
        invariant
            k <= nodes.len(),
            dv == nodes.deep_view(),
            heads.deep_view() == heads_upto(dv, k as int),
        decreases nodes.len() - k,
    {
        let qualifies = match &nodes[k].prev_node_id {
            None => true,
            Some(p) => !id_resolves(nodes, p.as_str()),
        };
        proof {
            assert(qualifies == is_head(dv, dv[k as int]));
        }
        if qualifies {
            let ghost pre = heads.deep_view();
            heads.push(nodes[k].clone());
            proof {
                assert(heads.deep_view() =~= pre.push(dv[k as int]));
                assert(pre.push(dv[k as int]) =~= heads_upto(dv, k as int) + seq![
                    dv[k as int],
                ]);
            }
        } else {
            proof {
                assert(heads_upto(dv, k + 1) =~= heads.deep_view());
            }
        }
        k = k + 1;
    }

    let head_list = if heads.len() == 0 {
        proof {
            assert(head_candidates(dv).len() == 0);
        }
        clone_nodes(nodes)
    } else {
        heads
    };
    let ghost headsv = sort_by_name(
        if head_candidates(dv).len() == 0 {
            dv
        } else {
            head_candidates(dv)
        },
    );
    let sorted = sorted_by_name(&head_list);
    proof {
        assert(sorted.deep_view() == headsv);
    }

    let mut visited: Vec<String> = Vec::new();
    let mut out: Vec<RoadmapNode> = Vec::new();
    let mut i: usize = 0;
    proof {
        assert(visited.deep_view().to_set() =~= Set::<Seq<char>>::empty());
        assert(out.deep_view() =~= Seq::<NodeV>::empty());
        assert(headsv.skip(0) =~= headsv);
        assert(Seq::<NodeV>::empty() + walk_list(dv, headsv, Set::empty()).0 =~= walk_list(
            dv,
            headsv,
            Set::empty(),
        ).0);
    }
    while i < sorted.len()
        invariant
            i <= sorted.len(),
            dv == nodes.deep_view(),
            headsv == sorted.deep_view(),
            sorted.deep_view().len() == sorted.len(),
            walk_list(dv, headsv, Set::empty()).0 == out.deep_view() + walk_list(
                dv,
                headsv.skip(i as int),
                visited.deep_view().to_set(),
            ).0,
            walk_list(dv, headsv, Set::empty()).1 == walk_list(
                dv,
                headsv.skip(i as int),
                visited.deep_view().to_set(),
            ).1,
        decreases sorted.len() - i,
    {
        let ghost vnow = visited.deep_view().to_set();
        let ghost rem = headsv.skip(i as int);
        proof {
            assert(rem.first() == headsv[i as int]);
            assert(rem.drop_first() =~= headsv.skip(i + 1));
            assert(sorted.deep_view()[i as int] == sorted@[i as int].deep_view());
        }
        let head_id: String = sorted[i].id.clone();
        proof {
            assert(head_id@ == headsv[i as int].id);
        }
        let ghost out_old = out.deep_view();
        walk_exec(nodes, head_id.as_str(), &mut visited, &mut out);
        proof {
            let w = walk(dv, headsv[i as int].id, vnow);
            let rest = walk_list(dv, headsv.skip(i + 1), w.1);
            assert(walk_list(dv, rem, vnow).0 == w.0 + rest.0);
            assert((out_old + w.0) + rest.0 =~= out_old + (w.0 + rest.0));
        }
        i = i + 1;
    }
    proof {
        assert(headsv.skip(headsv.len() as int) =~= Seq::<NodeV>::empty());
        assert(out.deep_view() + Seq::<NodeV>::empty() =~= out.deep_view());
        assert(out.deep_view() == walk_list(dv, headsv, Set::empty()).0);
        assert(visited.deep_view().to_set() == walk_list(dv, headsv, Set::empty()).1);
    }

    let ghost vfin = visited.deep_view().to_set();
    let mut rem: Vec<RoadmapNode> = Vec::new();
    let mut k2: usize = 0;
    proof {
        assert(rem.deep_view() =~= orphans_upto(dv, vfin, 0));
    }
    while k2 < nodes.len()
        invariant
            k2 <= nodes.len(),
            dv == nodes.deep_view(),
            vfin == visited.deep_view().to_set(),
            rem.deep_view() == orphans_upto(dv, vfin, k2 as int),
        decreases nodes.len() - k2,
    {
        if !contains_str(&visited, nodes[k2].id.as_str()) {
            let ghost pre = rem.deep_view();
            rem.push(nodes[k2].clone());
            proof {
                assert(rem.deep_view() =~= pre.push(dv[k2 as int]));
                assert(pre.push(dv[k2 as int]) =~= orphans_upto(dv, vfin, k2 as int) + seq![
                    dv[k2 as int],
                ]);
            }
        } else {
            proof {
                assert(orphans_upto(dv, vfin, k2 + 1) =~= rem.deep_view());
            }
        }
        k2 = k2 + 1;
    }

    let mut tail = sorted_by_name(&rem);
    let ghost out_walked = out.deep_view();
    let ghost tailv = tail.deep_view();
    out.append(&mut tail);
    proof {
        assert(out.deep_view() =~= out_walked + tailv);
    }
    out
}

/// The display label for a reference: the skill name of the first node
/// carrying that id, or the reference text itself when no node does.
pub fn label_for_ref(roadmap: &Roadmap, reference: &str) -> (r: String)
    ensures
        ({
            let i = crate::completion::first_index(roadmap@.nodes, reference@);
            if i == -1 {
                r@ == reference@
            } else {
                r@ == roadmap@.nodes[i].skill_name
            }
        }),
{
    let ghost dv = roadmap@.nodes;
    let nodes = &roadmap.nodes;
    let mut k: usize = 0;
    while k < nodes.len()
        invariant
            k <= nodes.len(),
            dv == roadmap@.nodes,
            dv == nodes.deep_view(),
            forall|j: int| 0 <= j < k ==> dv[j].id != reference@,
        decreases nodes.len() - k,
    {
        if str_eq(nodes[k].id.as_str(), reference) {
            proof {
                assert(dv[k as int].id == reference@);
                crate::completion::lemma_first_index_spec(dv, reference@);
            }
            return nodes[k].skill_name.clone();
        }
        k = k + 1;
    }
    proof {
        crate::completion::lemma_first_index_spec(dv, reference@);
        if crate::completion::first_index(dv, reference@) != -1 {
            assert(dv[crate::completion::first_index(dv, reference@)].id == reference@);
        }
    }
    reference.to_owned()
}

/// Some node in `o` carries the id `x`.
pub open spec fn has_id(o: Seq<NodeV>, x: Seq<char>) -> bool {
    exists|j: int| 0 <= j < o.len() && o[j].id == x
}

proof fn lemma_walk_props(nodes: Seq<NodeV>, cur: Seq<char>, visited: Set<Seq<char>>)
    ensures
        ({
            let w = walk(nodes, cur, visited);
            &&& forall|x: Seq<char>|
                #[trigger] w.1.contains(x) <==> (visited.contains(x) || has_id(w.0, x))
            &&& forall|j: int| 0 <= j < w.0.len() ==> !visited.contains(#[trigger] w.0[j].id)
            &&& forall|i: int, j: int| 0 <= i < j < w.0.len() ==> w.0[i].id != w.0[j].id
            &&& forall|j: int| 0 <= j < w.0.len() ==> nodes.contains(#[trigger] w.0[j])
        }),
    decreases unvisited_count(nodes, visited),
{
    let w = walk(nodes, cur, visited);
    if visited.contains(cur) || !resolves(nodes, cur) {
        assert(w.0 =~= Seq::<NodeV>::empty());
        assert forall|x: Seq<char>|
            #[trigger] w.1.contains(x) <==> (visited.contains(x) || has_id(w.0, x)) by {
            assert(!has_id(w.0, x));
        }
    } else {
        lemma_find_by_id_spec(nodes, cur);
        lemma_unvisited_insert(nodes, visited, cur);
        let node = find_by_id(nodes, cur).unwrap();
        let v2 = visited.insert(cur);
        assert(node.id == cur);
        assert(nodes.contains(node)) by {
            let k = choose|k: int| 0 <= k < nodes.len() && nodes[k] == node;
            assert(nodes[k] == node);
        }
        let chained = match node.next_node_id {
            Some(nid) => resolves(nodes, nid),
            None => false,
        };
        if chained {
            let nid = node.next_node_id.unwrap();
            lemma_walk_props(nodes, nid, v2);
            let rest = walk(nodes, nid, v2);
            assert(w.0 == seq![node] + rest.0);
            assert(w.1 == rest.1);
            assert(w.0[0] == node);
            assert(forall|j: int| 1 <= j < w.0.len() ==> w.0[j] == rest.0[j - 1]);
            assert forall|x: Seq<char>|
                #[trigger] w.1.contains(x) <==> (visited.contains(x) || has_id(w.0, x)) by {
                if w.1.contains(x) {
                    if v2.contains(x) {
                        if x == cur {
                            assert(w.0[0].id == x);
                            assert(has_id(w.0, x));
                        }
                    } else {
                        assert(has_id(rest.0, x));
                        let j = choose|j: int| 0 <= j < rest.0.len() && rest.0[j].id == x;
                        assert(w.0[j + 1].id == x);
                        assert(has_id(w.0, x));
                    }
                }
                if visited.contains(x) {
                    assert(v2.contains(x));
                    assert(w.1.contains(x));
                }
                if has_id(w.0, x) {
                    let j = choose|j: int| 0 <= j < w.0.len() && w.0[j].id == x;
                    if j == 0 {
                        assert(v2.contains(x));
                        assert(w.1.contains(x));
                    } else {
                        assert(rest.0[j - 1].id == x);
                        assert(has_id(rest.0, x));
                        assert(w.1.contains(x));
                    }
                }
            }
            assert forall|j: int|
                0 <= j < w.0.len() implies !visited.contains(#[trigger] w.0[j].id) by {
                if j > 0 {
                    assert(w.0[j] == rest.0[j - 1]);
                    assert(!v2.contains(rest.0[j - 1].id));
                }
            }
            assert forall|i: int, j: int|
                0 <= i < j < w.0.len() implies w.0[i].id != w.0[j].id by {
                assert(w.0[j] == rest.0[j - 1]);
                assert(!v2.contains(rest.0[j - 1].id));
                if i > 0 {
                    assert(w.0[i] == rest.0[i - 1]);
                }
            }
            assert forall|j: int| 0 <= j < w.0.len() implies nodes.contains(#[trigger] w.0[j]) by {
                if j > 0 {
                    assert(w.0[j] == rest.0[j - 1]);
                    assert(nodes.contains(rest.0[j - 1]));
                }
            }
        } else {
            assert(w.0 == seq![node]);
            assert(w.1 == v2);
            assert forall|x: Seq<char>|
                #[trigger] w.1.contains(x) <==> (visited.contains(x) || has_id(w.0, x)) by {
                if w.1.contains(x) && !visited.contains(x) {
                    assert(x == cur);
                    assert(w.0[0].id == x);
                    assert(has_id(w.0, x));
                }
                if has_id(w.0, x) {
                    let j = choose|j: int| 0 <= j < w.0.len() && w.0[j].id == x;
                    assert(w.0[0].id == cur);
                    assert(w.1.contains(x));
                }
            }
        }
    }
}

proof fn lemma_walk_list_props(nodes: Seq<NodeV>, heads: Seq<NodeV>, visited: Set<Seq<char>>)
    ensures
        ({
            let w = walk_list(nodes, heads, visited);
            &&& forall|x: Seq<char>|
                #[trigger] w.1.contains(x) <==> (visited.contains(x) || has_id(w.0, x))
            &&& forall|j: int| 0 <= j < w.0.len() ==> !visited.contains(#[trigger] w.0[j].id)
            &&& forall|i: int, j: int| 0 <= i < j < w.0.len() ==> w.0[i].id != w.0[j].id
            &&& forall|j: int| 0 <= j < w.0.len() ==> nodes.contains(#[trigger] w.0[j])
        }),
    decreases heads.len(),
{
    let w = walk_list(nodes, heads, visited);
    if heads.len() == 0 {
        assert(w.0 =~= Seq::<NodeV>::empty());
        assert forall|x: Seq<char>|
            #[trigger] w.1.contains(x) <==> (visited.contains(x) || has_id(w.0, x)) by {
            assert(!has_id(w.0, x));
        }
    } else {
        let first_walk = walk(nodes, heads.first().id, visited);
        lemma_walk_props(nodes, heads.first().id, visited);
        lemma_walk_list_props(nodes, heads.drop_first(), first_walk.1);
        let rest = walk_list(nodes, heads.drop_first(), first_walk.1);
        assert(w.0 == first_walk.0 + rest.0);
        assert(w.1 == rest.1);
        let a = first_walk.0;
        let b = rest.0;
        assert(forall|j: int| 0 <= j < a.len() ==> w.0[j] == a[j]);
        assert(forall|j: int| a.len() <= j < w.0.len() ==> w.0[j] == b[j - a.len()]);
        assert forall|x: Seq<char>|
            #[trigger] w.1.contains(x) <==> (visited.contains(x) || has_id(w.0, x)) by {
            if w.1.contains(x) {
                if first_walk.1.contains(x) {
                    if !visited.contains(x) {
                        assert(has_id(a, x));
                        let j = choose|j: int| 0 <= j < a.len() && a[j].id == x;
                        assert(w.0[j].id == x);
                        assert(has_id(w.0, x));
                    }
                } else {
                    assert(has_id(b, x));
                    let j = choose|j: int| 0 <= j < b.len() && b[j].id == x;
                    assert(w.0[j + a.len()].id == x);
                    assert(has_id(w.0, x));
                }
            }
            if visited.contains(x) {
                assert(first_walk.1.contains(x));
                assert(w.1.contains(x));
            }
            if has_id(w.0, x) {
                let j = choose|j: int| 0 <= j < w.0.len() && w.0[j].id == x;
                if j < a.len() {
                    assert(a[j].id == x);
                    assert(has_id(a, x));
                    assert(first_walk.1.contains(x));
                    assert(w.1.contains(x));
                } else {
                    assert(b[j - a.len()].id == x);
                    assert(has_id(b, x));
                    assert(w.1.contains(x));
                }
            }
        }
        assert forall|j: int|
            0 <= j < w.0.len() implies !visited.contains(#[trigger] w.0[j].id) by {
            if j >= a.len() {
                assert(w.0[j] == b[j - a.len()]);
                assert(!first_walk.1.contains(b[j - a.len()].id));
            }
        }
        assert forall|i: int, j: int|
            0 <= i < j < w.0.len() implies w.0[i].id != w.0[j].id by {
            if j < a.len() {
            } else if i >= a.len() {
                assert(w.0[i] == b[i - a.len()]);
                assert(w.0[j] == b[j - a.len()]);
            } else {
                assert(w.0[i] == a[i]);
                assert(w.0[j] == b[j - a.len()]);
                assert(!first_walk.1.contains(b[j - a.len()].id));
                assert(a[i].id == w.0[i].id);
                assert(has_id(a, a[i].id));
                assert(first_walk.1.contains(a[i].id));
            }
        }
        assert forall|j: int| 0 <= j < w.0.len() implies nodes.contains(#[trigger] w.0[j]) by {
            if j >= a.len() {
                assert(w.0[j] == b[j - a.len()]);
                assert(nodes.contains(b[j - a.len()]));
            } else {
                assert(w.0[j] == a[j]);
                assert(nodes.contains(a[j]));
            }
        }
    }
}

proof fn lemma_unvisited_insert_absent(nodes: Seq<NodeV>, visited: Set<Seq<char>>, x: Seq<char>)
    requires
        forall|k: int| 0 <= k < nodes.len() ==> nodes[k].id != x,
    ensures
        unvisited_count(nodes, visited.insert(x)) == unvisited_count(nodes, visited),
    decreases nodes.len(),
{
    if nodes.len() > 0 {
        assert(forall|k: int|
            0 <= k < nodes.drop_last().len() ==> nodes.drop_last()[k] == nodes[k]);
        lemma_unvisited_insert_absent(nodes.drop_last(), visited, x);
        assert(nodes[nodes.len() - 1].id != x);
    }
}

proof fn lemma_unvisited_insert_one(nodes: Seq<NodeV>, visited: Set<Seq<char>>, x: Seq<char>)
    requires
        crate::model::ids_distinct(nodes),
        has_id(nodes, x),
        !visited.contains(x),
    ensures
        unvisited_count(nodes, visited.insert(x)) + 1 == unvisited_count(nodes, visited),
    decreases nodes.len(),
{
    let k = choose|k: int| 0 <= k < nodes.len() && nodes[k].id == x;
    if k == nodes.len() - 1 {
        assert forall|t: int| 0 <= t < nodes.drop_last().len() implies nodes.drop_last()[t].id
            != x by {
            assert(nodes[t].id != nodes[k].id);
        }
        lemma_unvisited_insert_absent(nodes.drop_last(), visited, x);
    } else {
        assert(nodes.drop_last()[k] == nodes[k]);
        assert(has_id(nodes.drop_last(), x));
        assert(crate::model::ids_distinct(nodes.drop_last())) by {
            assert(forall|t: int|
                0 <= t < nodes.drop_last().len() ==> nodes.drop_last()[t] == nodes[t]);
        }
        lemma_unvisited_insert_one(nodes.drop_last(), visited, x);
        assert(nodes.last().id != x) by {
            assert(nodes[k].id == x);
            assert(nodes[nodes.len() - 1].id != nodes[k].id);
        }
    }
}

proof fn lemma_walk_count(nodes: Seq<NodeV>, cur: Seq<char>, visited: Set<Seq<char>>)
    requires
        crate::model::ids_distinct(nodes),
    ensures
        walk(nodes, cur, visited).0.len() + unvisited_count(nodes, walk(nodes, cur, visited).1)
            == unvisited_count(nodes, visited),
    decreases unvisited_count(nodes, visited),
{
    if visited.contains(cur) || !resolves(nodes, cur) {
    } else {
        lemma_find_by_id_spec(nodes, cur);
        lemma_unvisited_insert(nodes, visited, cur);
        let node = find_by_id(nodes, cur).unwrap();
        let v2 = visited.insert(cur);
        assert(has_id(nodes, cur)) by {
            let k = choose|k: int| 0 <= k < nodes.len() && nodes[k].id == cur;
            assert(nodes[k].id == cur);
        }
        lemma_unvisited_insert_one(nodes, visited, cur);
        let chained = match node.next_node_id {
            Some(nid) => resolves(nodes, nid),
            None => false,
        };
        if chained {
            let nid = node.next_node_id.unwrap();
            lemma_walk_count(nodes, nid, v2);
        }
    }
}

proof fn lemma_walk_list_count(nodes: Seq<NodeV>, heads: Seq<NodeV>, visited: Set<Seq<char>>)
    requires
        crate::model::ids_distinct(nodes),
    ensures
        walk_list(nodes, heads, visited).0.len() + unvisited_count(
            nodes,
            walk_list(nodes, heads, visited).1,
        ) == unvisited_count(nodes, visited),
    decreases heads.len(),
{
    if heads.len() > 0 {
        let first_walk = walk(nodes, heads.first().id, visited);
        lemma_walk_count(nodes, heads.first().id, visited);
        lemma_walk_list_count(nodes, heads.drop_first(), first_walk.1);
    }
}

proof fn lemma_unvisited_empty(nodes: Seq<NodeV>)
    ensures
        unvisited_count(nodes, Set::empty()) == nodes.len(),
    decreases nodes.len(),
{
    if nodes.len() > 0 {
        lemma_unvisited_empty(nodes.drop_last());
    }
}

proof fn lemma_orphans_props(nodes: Seq<NodeV>, visited: Set<Seq<char>>, k: int)
    requires
        0 <= k <= nodes.len(),
    ensures
        ({
            let o = orphans_upto(nodes, visited, k);
            &&& o.len() == unvisited_count(nodes.take(k), visited)
            &&& forall|j: int| 0 <= j < o.len() ==> !visited.contains(#[trigger] o[j].id)
            &&& forall|j: int| 0 <= j < o.len() ==> nodes.contains(#[trigger] o[j])
            &&& forall|t: int|
                0 <= t < k && !visited.contains(nodes[t].id) ==> o.contains(#[trigger] nodes[t])
            &&& crate::model::ids_distinct(nodes) ==> crate::model::ids_distinct(o)
        }),
    decreases k,
{
    let o = orphans_upto(nodes, visited, k);
    if k == 0 {
        assert(unvisited_count(nodes.take(0), visited) == 0) by {
            assert(nodes.take(0) =~= Seq::<NodeV>::empty());
        }
    } else {
        lemma_orphans_props(nodes, visited, k - 1);
        let prev = orphans_upto(nodes, visited, k - 1);
        assert(nodes.take(k).drop_last() =~= nodes.take(k - 1));
        assert(nodes.take(k).last() == nodes[k - 1]);
        if !visited.contains(nodes[k - 1].id) {
            assert(o == prev + seq![nodes[k - 1]]);
            assert(forall|j: int| 0 <= j < prev.len() ==> o[j] == prev[j]);
            assert(o[o.len() - 1] == nodes[k - 1]);
            assert forall|t: int|
                0 <= t < k && !visited.contains(nodes[t].id) implies o.contains(
                #[trigger] nodes[t],
            ) by {
                if t < k - 1 {
                    assert(prev.contains(nodes[t]));
                    let j = choose|j: int| 0 <= j < prev.len() && prev[j] == nodes[t];
                    assert(o[j] == nodes[t]);
                } else {
                    assert(o[o.len() - 1] == nodes[t]);
                }
            }
            assert forall|j: int| 0 <= j < o.len() implies nodes.contains(#[trigger] o[j]) by {
                if j < prev.len() {
                    assert(o[j] == prev[j]);
                    assert(nodes.contains(prev[j]));
                } else {
                    assert(o[j] == nodes[k - 1]);
                }
            }
            if crate::model::ids_distinct(nodes) {
                assert forall|i: int, j: int|
                    0 <= i < j < o.len() implies o[i].id != o[j].id by {
                    if j < prev.len() {
                    } else {
                        assert(o[j] == nodes[k - 1]);
                        assert(o[i] == prev[i]);
                        assert(nodes.contains(prev[i]));
                        let t = choose|t: int| 0 <= t < nodes.len() && nodes[t] == prev[i];
                        if t == k - 1 {
                            assert(!visited.contains(prev[i].id));
                            assert(prev.contains(prev[i]));
                            // prev holds only nodes among the first k - 1;
                            // nodes[k - 1] cannot be one of them by distinctness
                            lemma_orphans_members_early(nodes, visited, k - 1, i);
                        } else {
                            assert(nodes[t].id != nodes[k - 1].id);
                        }
                    }
                }
            }
        } else {
            assert(o =~= prev);
            assert forall|t: int|
                0 <= t < k && !visited.contains(nodes[t].id) implies o.contains(
                #[trigger] nodes[t],
            ) by {
                assert(t < k - 1);
                assert(prev.contains(nodes[t]));
            }
        }
    }
}

proof fn lemma_orphans_members_early(
    nodes: Seq<NodeV>,
    visited: Set<Seq<char>>,
    k: int,
    i: int,
)
    requires
        0 <= k <= nodes.len(),
        crate::model::ids_distinct(nodes),
        0 <= i < orphans_upto(nodes, visited, k).len(),
    ensures
        exists|t: int|
            0 <= t < k && nodes[t] == orphans_upto(nodes, visited, k)[i],
    decreases k,
{
    let o = orphans_upto(nodes, visited, k);
    let prev = orphans_upto(nodes, visited, k - 1);
    if k > 0 {
        if !visited.contains(nodes[k - 1].id) {
            if i < prev.len() {
                lemma_orphans_members_early(nodes, visited, k - 1, i);
                assert(o[i] == prev[i]);
            } else {
                assert(o[i] == nodes[k - 1]);
            }
        } else {
            assert(o =~= prev);
            lemma_orphans_members_early(nodes, visited, k - 1, i);
        }
    }
}

proof fn lemma_insert_sorted_props(s: Seq<NodeV>, x: NodeV)
    ensures
        insert_sorted(s, x).len() == s.len() + 1,
        forall|y: NodeV|
            #[trigger] insert_sorted(s, x).contains(y) <==> (s.contains(y) || y == x),
    decreases s.len(),
{
    let r = insert_sorted(s, x);
    if s.len() == 0 {
        assert(r[0] == x);
        assert forall|y: NodeV| #[trigger] r.contains(y) <==> (s.contains(y) || y == x) by {
            if r.contains(y) {
                let j = choose|j: int| 0 <= j < r.len() && r[j] == y;
                assert(j == 0);
            }
            if y == x {
                assert(r[0] == y);
            }
        }
    } else if lex_lt(x.skill_name, s.last().skill_name) {
        lemma_insert_sorted_props(s.drop_last(), x);
        let q = insert_sorted(s.drop_last(), x);
        assert(r == q.push(s.last()));
        assert forall|y: NodeV| #[trigger] r.contains(y) <==> (s.contains(y) || y == x) by {
            if r.contains(y) {
                let j = choose|j: int| 0 <= j < r.len() && r[j] == y;
                if j < q.len() {
                    assert(q[j] == y);
                    assert(q.contains(y));
                    if !(y == x) {
                        assert(s.drop_last().contains(y));
                        let t = choose|t: int|
                            0 <= t < s.drop_last().len() && s.drop_last()[t] == y;
                        assert(s[t] == y);
                        assert(s.contains(y));
                    }
                } else {
                    assert(y == s.last());
                    assert(s[s.len() - 1] == y);
                    assert(s.contains(y));
                }
            }
            if s.contains(y) {
                let t = choose|t: int| 0 <= t < s.len() && s[t] == y;
                if t < s.len() - 1 {
                    assert(s.drop_last()[t] == y);
                    assert(s.drop_last().contains(y));
                    assert(q.contains(y));
                    let j = choose|j: int| 0 <= j < q.len() && q[j] == y;
                    assert(r[j] == y);
                } else {
                    assert(r[r.len() - 1] == y);
                }
            }
            if y == x {
                assert(q.contains(y));
                let j = choose|j: int| 0 <= j < q.len() && q[j] == y;
                assert(r[j] == y);
            }
        }
    } else {
        assert(r == s.push(x));
        assert forall|y: NodeV| #[trigger] r.contains(y) <==> (s.contains(y) || y == x) by {
            if r.contains(y) {
                let j = choose|j: int| 0 <= j < r.len() && r[j] == y;
                if j < s.len() {
                    assert(s[j] == y);
                    assert(s.contains(y));
                }
            }
            if s.contains(y) {
                let t = choose|t: int| 0 <= t < s.len() && s[t] == y;
                assert(r[t] == y);
            }
            if y == x {
                assert(r[s.len() as int] == y);
            }
        }
    }
}

proof fn lemma_sort_props(s: Seq<NodeV>)
    ensures
        sort_by_name(s).len() == s.len(),
        forall|y: NodeV| #[trigger] sort_by_name(s).contains(y) <==> s.contains(y),
    decreases s.len(),
{
    let r = sort_by_name(s);
    if s.len() == 0 {
        assert forall|y: NodeV| #[trigger] r.contains(y) <==> s.contains(y) by {
            assert(!r.contains(y)) by {
                if r.contains(y) {
                    let j = choose|j: int| 0 <= j < r.len() && r[j] == y;
                }
            }
            assert(!s.contains(y)) by {
                if s.contains(y) {
                    let j = choose|j: int| 0 <= j < s.len() && s[j] == y;
                }
            }
        }
    } else {
        lemma_sort_props(s.drop_last());
        lemma_insert_sorted_props(sort_by_name(s.drop_last()), s.last());
        assert forall|y: NodeV| #[trigger] r.contains(y) <==> s.contains(y) by {
            if r.contains(y) {
                if sort_by_name(s.drop_last()).contains(y) {
                    assert(s.drop_last().contains(y));
                    let t = choose|t: int|
                        0 <= t < s.drop_last().len() && s.drop_last()[t] == y;
                    assert(s[t] == y);
                    assert(s.contains(y));
                } else {
                    assert(y == s.last());
                    assert(s[s.len() - 1] == y);
                    assert(s.contains(y));
                }
            }
            if s.contains(y) {
                let t = choose|t: int| 0 <= t < s.len() && s[t] == y;
                if t < s.len() - 1 {
                    assert(s.drop_last()[t] == y);
                    assert(s.drop_last().contains(y));
                    assert(sort_by_name(s.drop_last()).contains(y));
                } else {
                    assert(y == s.last());
                }
            }
        }
    }
}

proof fn lemma_sort_distinct(s: Seq<NodeV>)
    requires
        crate::model::ids_distinct(s),
    ensures
        crate::model::ids_distinct(sort_by_name(s)),
    decreases s.len(),
{
    let r = sort_by_name(s);
    if s.len() > 0 {
        assert(crate::model::ids_distinct(s.drop_last())) by {
            assert(forall|t: int|
                0 <= t < s.drop_last().len() ==> s.drop_last()[t] == s[t]);
        }
        lemma_sort_distinct(s.drop_last());
        lemma_sort_props(s.drop_last());
        lemma_insert_sorted_distinct(sort_by_name(s.drop_last()), s.last(), s);
    }
}

proof fn lemma_insert_sorted_distinct(q: Seq<NodeV>, x: NodeV, s: Seq<NodeV>)
    requires
        crate::model::ids_distinct(q),
        crate::model::ids_distinct(s),
        s.len() > 0,
        x == s.last(),
        forall|y: NodeV| #[trigger] q.contains(y) <==> s.drop_last().contains(y),
    ensures
        crate::model::ids_distinct(insert_sorted(q, x)),
{
    let r = insert_sorted(q, x);
    assert forall|y: NodeV| #[trigger] q.contains(y) implies y.id != x.id by {
        assert(s.drop_last().contains(y));
        let t = choose|t: int| 0 <= t < s.drop_last().len() && s.drop_last()[t] == y;
        assert(s[t] == y);
        assert(s[t].id != s[s.len() - 1].id);
    }
    lemma_insert_sorted_distinct_inner(q, x);
}

proof fn lemma_insert_sorted_distinct_inner(q: Seq<NodeV>, x: NodeV)
    requires
        crate::model::ids_distinct(q),
        forall|y: NodeV| #[trigger] q.contains(y) ==> y.id != x.id,
    ensures
        crate::model::ids_distinct(insert_sorted(q, x)),
    decreases q.len(),
{
    let r = insert_sorted(q, x);
    if q.len() == 0 {
    } else if lex_lt(x.skill_name, q.last().skill_name) {
        assert(crate::model::ids_distinct(q.drop_last())) by {
            assert(forall|t: int|
                0 <= t < q.drop_last().len() ==> q.drop_last()[t] == q[t]);
        }
        assert forall|y: NodeV| #[trigger] q.drop_last().contains(y) implies y.id != x.id by {
            let t = choose|t: int| 0 <= t < q.drop_last().len() && q.drop_last()[t] == y;
            assert(q[t] == y);
            assert(q.contains(y));
        }
        lemma_insert_sorted_distinct_inner(q.drop_last(), x);
        let p = insert_sorted(q.drop_last(), x);
        lemma_insert_sorted_props(q.drop_last(), x);
        assert(r == p.push(q.last()));
        assert forall|i: int, j: int| 0 <= i < j < r.len() implies r[i].id != r[j].id by {
            if j < p.len() {
                assert(r[i] == p[i]);
                assert(r[j] == p[j]);
            } else {
                assert(r[j] == q.last());
                assert(r[i] == p[i]);
                assert(p.contains(p[i]));
                if p[i] == x {
                    assert(q.contains(q.last()));
                    assert(q[q.len() - 1] == q.last());
                    assert(q.last().id != x.id);
                } else {
                    assert(q.drop_last().contains(p[i]));
                    let t = choose|t: int|
                        0 <= t < q.drop_last().len() && q.drop_last()[t] == p[i];
                    assert(q[t] == p[i]);
                    assert(q[t].id != q[q.len() - 1].id);
                }
            }
        }
    } else {
        assert(r == q.push(x));
        assert forall|i: int, j: int| 0 <= i < j < r.len() implies r[i].id != r[j].id by {
            if j < q.len() {
            } else {
                assert(r[j] == x);
                assert(r[i] == q[i]);
                assert(q.contains(q[i]));
            }
        }
    }
}

/// The linearization of a roadmap with pairwise distinct node ids is a
/// permutation of its nodes: same length, pairwise distinct ids, every
/// node included, nothing else included, equal as multisets.
pub proof fn lemma_linearize_permutation(nodes: Seq<NodeV>)
    requires
        crate::model::ids_distinct(nodes),
    ensures
        linearize_spec(nodes).len() == nodes.len(),
        crate::model::ids_distinct(linearize_spec(nodes)),
        forall|k: int| 0 <= k < nodes.len() ==> linearize_spec(nodes).contains(
            #[trigger] nodes[k],
        ),
        forall|j: int| 0 <= j < linearize_spec(nodes).len() ==> nodes.contains(
            #[trigger] linearize_spec(nodes)[j],
        ),
        linearize_spec(nodes).to_multiset() == nodes.to_multiset(),
{
    let hc = head_candidates(nodes);
    let heads = if hc.len() == 0 {
        nodes
    } else {
        hc
    };
    let sorted_heads = sort_by_name(heads);
    let w = walk_list(nodes, sorted_heads, Set::empty());
    let orph = orphans(nodes, w.1);
    let tail = sort_by_name(orph);
    let r = linearize_spec(nodes);
    assert(r == w.0 + tail);

    lemma_walk_list_props(nodes, sorted_heads, Set::empty());
    lemma_walk_list_count(nodes, sorted_heads, Set::empty());
    lemma_unvisited_empty(nodes);
    lemma_orphans_props(nodes, w.1, nodes.len() as int);
    assert(nodes.take(nodes.len() as int) =~= nodes);
    lemma_sort_props(orph);
    lemma_sort_distinct(orph);

    // length
    assert(orph.len() == unvisited_count(nodes, w.1));
    assert(w.0.len() + orph.len() == nodes.len());
    assert(r.len() == nodes.len());

    // positions of the two parts
    assert(forall|j: int| 0 <= j < w.0.len() ==> r[j] == w.0[j]);
    assert(forall|j: int| w.0.len() <= j < r.len() ==> r[j] == tail[j - w.0.len()]);

    // pairwise distinct ids
    assert forall|i: int, j: int| 0 <= i < j < r.len() implies r[i].id != r[j].id by {
        if j < w.0.len() {
        } else if i >= w.0.len() {
            assert(r[i] == tail[i - w.0.len()]);
            assert(r[j] == tail[j - w.0.len()]);
        } else {
            assert(r[i] == w.0[i]);
            assert(r[j] == tail[j - w.0.len()]);
            assert(tail.contains(tail[j - w.0.len()]));
            assert(orph.contains(tail[j - w.0.len()]));
            let t = choose|t: int| 0 <= t < orph.len() && orph[t] == tail[j - w.0.len()];
            assert(!w.1.contains(orph[t].id));
            assert(has_id(w.0, w.0[i].id)) by {
                assert(w.0[i].id == w.0[i].id);
            }
            assert(w.1.contains(w.0[i].id));
        }
    }

    // everything in the output comes from the nodes
    assert forall|j: int| 0 <= j < r.len() implies nodes.contains(#[trigger] r[j]) by {
        if j < w.0.len() {
            assert(r[j] == w.0[j]);
            assert(nodes.contains(w.0[j]));
        } else {
            assert(r[j] == tail[j - w.0.len()]);
            assert(tail.contains(tail[j - w.0.len()]));
            assert(orph.contains(tail[j - w.0.len()]));
            let t = choose|t: int| 0 <= t < orph.len() && orph[t] == tail[j - w.0.len()];
            assert(nodes.contains(orph[t]));
        }
    }

    // every node appears in the output
    assert forall|k: int| 0 <= k < nodes.len() implies r.contains(#[trigger] nodes[k]) by {
        if w.1.contains(nodes[k].id) {
            assert(has_id(w.0, nodes[k].id));
            let j = choose|j: int| 0 <= j < w.0.len() && w.0[j].id == nodes[k].id;
            assert(nodes.contains(w.0[j]));
            let t = choose|t: int| 0 <= t < nodes.len() && nodes[t] == w.0[j];
            assert(nodes[t].id == nodes[k].id);
            assert(t == k);
            assert(r[j] == nodes[k]);
        } else {
            assert(orph.contains(nodes[k]));
            assert(tail.contains(nodes[k]));
            let j = choose|j: int| 0 <= j < tail.len() && tail[j] == nodes[k];
            assert(r[j + w.0.len()] == nodes[k]);
        }
    }

    // multiset equality via distinct elements and shared membership
    assert(r.no_duplicates()) by {
        assert forall|i: int, j: int| 0 <= i < j < r.len() implies r[i] != r[j] by {
            assert(r[i].id != r[j].id);
        }
    }
    assert(nodes.no_duplicates()) by {
        assert forall|i: int, j: int| 0 <= i < j < nodes.len() implies nodes[i] != nodes[j] by {
            assert(nodes[i].id != nodes[j].id);
        }
    }
    r.lemma_multiset_has_no_duplicates();
    nodes.lemma_multiset_has_no_duplicates();
    broadcast use vstd::seq_lib::group_to_multiset_ensures;

    assert forall|y: NodeV| r.to_multiset().count(y) == nodes.to_multiset().count(y) by {
        if r.contains(y) {
            let j = choose|j: int| 0 <= j < r.len() && r[j] == y;
            assert(nodes.contains(y));
        }
        if nodes.contains(y) {
            let k = choose|k: int| 0 <= k < nodes.len() && nodes[k] == y;
            assert(r.contains(y));
        }
        if !r.contains(y) {
            assert(r.to_multiset().count(y) == 0);
        }
        if !nodes.contains(y) {
            assert(nodes.to_multiset().count(y) == 0);
        }
    }
    assert(r.to_multiset() =~= nodes.to_multiset());
}

/// Linearization is deterministic: it is a function of the node
/// sequence alone, so equal roadmaps linearize to equal orders.
pub proof fn lemma_linearize_deterministic(a: Seq<NodeV>, b: Seq<NodeV>)
    requires
        a == b,
    ensures
        linearize_spec(a) == linearize_spec(b),
{
}

} // verus!

