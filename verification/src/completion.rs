//! Completion tracking: flipping a node's completion flag and computing
//! roadmap progress.
//!
//! A toggle mutates exactly one node (the first whose id matches) and
//! refreshes the roadmap's update timestamp; a toggle for an id that is
//! not in the roadmap is a silent no-op on the nodes. Progress is a pure
//! read-time computation.

use vstd::prelude::*;
use crate::model::{NodeV, Roadmap, RoadmapNode};
use crate::text::str_eq;

verus! {

/// Index of the first node with the given id, or -1 when absent.
pub open spec fn first_index(nodes: Seq<NodeV>, id: Seq<char>) -> int
    decreases nodes.len(),
{
    if nodes.len() == 0 {
        -1
    } else if nodes[0].id == id {
        0
    } else {
        let r = first_index(nodes.skip(1), id);
        if r == -1 {
            -1
        } else {
            r + 1
        }
    }
}

/// `n` with its completion flag flipped.
pub open spec fn flip_completed(n: NodeV) -> NodeV {
    NodeV { is_completed: !n.is_completed, ..n }
}

/// The node sequence after a toggle of `id`: the first node with that id
/// has its flag flipped; when no node matches, the sequence is unchanged.
pub open spec fn toggle_spec(nodes: Seq<NodeV>, id: Seq<char>) -> Seq<NodeV> {
    let i = first_index(nodes, id);
    if i == -1 {
        nodes
    } else {
        nodes.update(i, flip_completed(nodes[i]))
    }
}

/// Number of completed nodes.
pub open spec fn count_completed(nodes: Seq<NodeV>) -> nat
    decreases nodes.len(),
{
    if nodes.len() == 0 {
        0
    } else {
        count_completed(nodes.drop_last()) + if nodes.last().is_completed {
            1nat
        } else {
            0nat
        }
    }
}

proof fn lemma_first_index_found(nodes: Seq<NodeV>, id: Seq<char>, i: int)
    requires
        0 <= i < nodes.len(),
        nodes[i].id == id,
        forall|j: int| 0 <= j < i ==> nodes[j].id != id,
    ensures
        first_index(nodes, id) == i,
    decreases i,
{
    if i > 0 {
        lemma_first_index_found(nodes.skip(1), id, i - 1);
    }
}

proof fn lemma_first_index_absent(nodes: Seq<NodeV>, id: Seq<char>)
    requires
        forall|j: int| 0 <= j < nodes.len() ==> nodes[j].id != id,
    ensures
        first_index(nodes, id) == -1,
    decreases nodes.len(),
{
    if nodes.len() > 0 {
        lemma_first_index_absent(nodes.skip(1), id);
    }
}

/// The first matching index is a real match, and is the first.
pub proof fn lemma_first_index_spec(nodes: Seq<NodeV>, id: Seq<char>)
    ensures
        first_index(nodes, id) == -1 ==> forall|j: int|
            0 <= j < nodes.len() ==> nodes[j].id != id,
        first_index(nodes, id) != -1 ==> {
            let i = first_index(nodes, id);
            &&& 0 <= i < nodes.len()
            &&& nodes[i].id == id
            &&& forall|j: int| 0 <= j < i ==> nodes[j].id != id
        },
    decreases nodes.len(),
{
    if nodes.len() > 0 && nodes[0].id != id {
        lemma_first_index_spec(nodes.skip(1), id);
        let r = first_index(nodes.skip(1), id);
        if r == -1 {
            assert forall|j: int| 0 <= j < nodes.len() implies nodes[j].id != id by {
                if j > 0 {
                    assert(nodes.skip(1)[j - 1] == nodes[j]);
                }
            }
        } else {
            assert(nodes.skip(1)[r] == nodes[r + 1]);
            assert forall|j: int| 0 <= j < r + 1 implies nodes[j].id != id by {
                if j > 0 {
                    assert(nodes.skip(1)[j - 1] == nodes[j]);
                }
            }
        }
    }
}

/// Flips `is_completed` on the first node whose id is `node_id`, if any,
/// and stamps the roadmap as updated at `now`. Everything else is kept.
pub fn toggle_node_completion(roadmap: &mut Roadmap, node_id: &str, now: i64)
    ensures
        final(roadmap)@.nodes == toggle_spec(old(roadmap)@.nodes, node_id@),
        final(roadmap).updated_at == now,
        final(roadmap).id == old(roadmap).id,
        final(roadmap).user_id == old(roadmap).user_id,
        final(roadmap).skill_name == old(roadmap).skill_name,
        final(roadmap).created_at == old(roadmap).created_at,
{
    let ghost nodes0 = roadmap@.nodes;
    let n = roadmap.nodes.len();
    let mut i: usize = 0;
    while i < n
        invariant
            i <= n,
            n == roadmap.nodes.len(),
            *roadmap == *old(roadmap),
            nodes0 == roadmap@.nodes,
            forall|j: int| 0 <= j < i ==> roadmap@.nodes[j].id != node_id@,
        decreases n - i,
    {
        if str_eq(roadmap.nodes[i].id.as_str(), node_id) {
            proof {
                assert(nodes0[i as int] == roadmap.nodes@[i as int].deep_view());
                lemma_first_index_found(nodes0, node_id@, i as int);
            }
            let mut node = roadmap.nodes[i].clone();
            node.is_completed = !node.is_completed;
            proof {
                assert(node@ == flip_completed(nodes0[i as int]));
            }
            roadmap.nodes.set(i, node);
            roadmap.updated_at = now;
            proof {
                assert(roadmap@.nodes =~= nodes0.update(
                    i as int,
                    flip_completed(nodes0[i as int]),
                ));
            }
            return;
        }
        i = i + 1;
    }
    roadmap.updated_at = now;
    proof {
        lemma_first_index_absent(nodes0, node_id@);
        assert(roadmap@.nodes =~= nodes0);
    }
}

/// Returns `(completed, total)` for a roadmap: a pure read recomputed on
/// every call, so it always reflects the latest toggle.
pub fn progress(roadmap: &Roadmap) -> (r: (usize, usize))
    ensures
        r.1 == roadmap@.nodes.len(),
        r.0 == count_completed(roadmap@.nodes),
        r.0 <= r.1,
{
    let n = roadmap.nodes.len();
    let mut completed: usize = 0;
    let mut i: usize = 0;
    proof {
        assert(roadmap@.nodes.take(0) =~= Seq::<NodeV>::empty());
    }
    while i < n
        invariant
            i <= n,
            n == roadmap.nodes.len(),
            completed <= i,
            completed == count_completed(roadmap@.nodes.take(i as int)),
        decreases n - i,
    {
        if roadmap.nodes[i].is_completed {
            completed = completed + 1;
        }
        proof {
            assert(roadmap@.nodes.take(i + 1).drop_last() =~= roadmap@.nodes.take(i as int));
            assert(roadmap@.nodes.take(i + 1).last() == roadmap@.nodes[i as int]);
        }
        i = i + 1;
    }
    proof {
        assert(roadmap@.nodes.take(n as int) =~= roadmap@.nodes);
    }
    (completed, n)
}

proof fn lemma_first_index_ids(nodes1: Seq<NodeV>, nodes2: Seq<NodeV>, id: Seq<char>)
    requires
        nodes1.len() == nodes2.len(),
        forall|j: int| 0 <= j < nodes1.len() ==> nodes1[j].id == nodes2[j].id,
    ensures
        first_index(nodes1, id) == first_index(nodes2, id),
    decreases nodes1.len(),
{
    if nodes1.len() > 0 {
        lemma_first_index_ids(nodes1.skip(1), nodes2.skip(1), id);
    }
}

/// Toggling the same node twice restores the node sequence exactly, so
/// every node's completion flag — and with it the progress count — is
/// back to its original value.
pub proof fn lemma_toggle_twice(nodes: Seq<NodeV>, id: Seq<char>)
    ensures
        toggle_spec(toggle_spec(nodes, id), id) == nodes,
        count_completed(toggle_spec(toggle_spec(nodes, id), id)) == count_completed(nodes),
{
    let i = first_index(nodes, id);
    lemma_first_index_spec(nodes, id);
    if i == -1 {
    } else {
        let once = toggle_spec(nodes, id);
        lemma_first_index_ids(once, nodes, id);
        assert(first_index(once, id) == i);
        assert(once.update(i, flip_completed(once[i])) =~= nodes);
    }
}

} // verus!
