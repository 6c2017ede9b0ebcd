//! Identifier assignment and symbolic reference resolution.
//!
//! The generative backend names nodes by skill name, because the ids do
//! not exist yet. This module assigns one fresh identifier per node,
//! then rewrites every prerequisite / previous / next reference through
//! a name-to-id table built from the nodes themselves. A reference that
//! matches no skill name is kept as its raw text — never dropped — so a
//! consumer can surface the broken edge.

use vstd::prelude::*;
use crate::error::EngineError;
use crate::linearize::has_id;
use crate::model::{clone_nodes, ids_distinct, NodeV, RoadmapNode};
use crate::text::{
    lemma_trim_idempotent, lemma_trim_no_ws_identity, str_eq, trim, trim_spec, ws,
};
use vstd::string::StrSliceExecFns;

verus! {

/// Relies on uuid::Uuid::new_v4 and its Display form: a freshly drawn
/// random 128-bit UUID rendered as 36 hyphenated lower-case hex
/// characters, none of which is whitespace. Randomness promises no
/// uniqueness that proofs could rest on.
#[verifier::external_body]
pub(crate) fn fresh_node_id() -> (r: String)
    ensures
        r@.len() == 36,
        forall|j: int| 0 <= j < r@.len() ==> !ws(r@[j]),
{
    uuid::Uuid::new_v4().to_string()
}

/// The relation between a parsed node and the same node after
/// identifier assignment: everything is kept except the id, which is
/// fresh, nonempty and free of surrounding whitespace, and the
/// completion flag, which starts false.
pub open spec fn node_relabeled(orig: NodeV, n: NodeV) -> bool {
    &&& n.skill_name == orig.skill_name
    &&& n.description == orig.description
    &&& n.resources == orig.resources
    &&& n.prerequisites == orig.prerequisites
    &&& n.prev_node_id == orig.prev_node_id
    &&& n.next_node_id == orig.next_node_id
    &&& n.is_completed == false
    &&& n.id.len() > 0
    &&& trim_spec(n.id) == n.id
}

/// Decides whether some node in `v` carries the id.
fn contains_id(v: &Vec<RoadmapNode>, id: &str) -> (r: bool)
    ensures
        r == has_id(v.deep_view(), id@),
{
    let ghost dv = v.deep_view();
    let mut k: usize = 0;
    while k < v.len()
        invariant
            k <= v.len(),
            dv == v.deep_view(),
            forall|j: int| 0 <= j < k ==> dv[j].id != id@,
        decreases v.len() - k,
    {
        if str_eq(v[k].id.as_str(), id) {
            proof {
                assert(dv[k as int].id == id@);
            }
            return true;
        }
        k = k + 1;
    }
    proof {
        if has_id(dv, id@) {
            let j = choose|j: int| 0 <= j < dv.len() && dv[j].id == id@;
        }
    }
    false
}

/// Assigns a fresh identifier to every node and clears its completion
/// flag, leaving all other fields untouched. Succeeds with pairwise
/// distinct ids; fails only if the random source draws a duplicate.
pub fn assign_ids(nodes: &Vec<RoadmapNode>) -> (r: Result<Vec<RoadmapNode>, EngineError>)
    ensures
        match r {
            Ok(v) => {
                &&& v.deep_view().len() == nodes.deep_view().len()
                &&& ids_distinct(v.deep_view())
                &&& forall|i: int|
                    0 <= i < v.deep_view().len() ==> node_relabeled(
                        nodes.deep_view()[i],
                        #[trigger] v.deep_view()[i],
                    )
            },
            Err(e) => e is IdCollision,
        },
{
    let ghost dv = nodes.deep_view();
    let mut out: Vec<RoadmapNode> = Vec::new();
    let mut i: usize = 0;
    while i < nodes.len()
        invariant
            i <= nodes.len(),
            dv == nodes.deep_view(),
            out.deep_view().len() == i,
            ids_distinct(out.deep_view()),
            forall|j: int| 0 <= j < i ==> node_relabeled(dv[j], #[trigger] out.deep_view()[j]),
        decreases nodes.len() - i,
    {
        let id = fresh_node_id();
        if contains_id(&out, id.as_str()) {
            return Err(EngineError::IdCollision);
        }
        let mut node = nodes[i].clone();
        node.id = id;
        node.is_completed = false;
        let ghost pre = out.deep_view();
        let ghost nv = node@;
        out.push(node);
        proof {
            assert(out.deep_view() =~= pre.push(nv));
            lemma_trim_no_ws_identity(nv.id);
            assert(node_relabeled(dv[i as int], nv));
            assert forall|s: int, t: int|
                0 <= s < t < out.deep_view().len() implies out.deep_view()[s].id
                != out.deep_view()[t].id by {
                if t == pre.len() {
                    assert(out.deep_view()[s] == pre[s]);
                    assert(!has_id(pre, nv.id));
                }
            }
        }
        i = i + 1;
    }
    Ok(out)
}

/// The id of the last node whose skill name is `name`, if any. Mirrors
/// a name-keyed map built by inserting the nodes in order.
pub open spec fn name_to_id(table: Seq<NodeV>, name: Seq<char>) -> Option<Seq<char>>
    decreases table.len(),
{
    if table.len() == 0 {
        None
    } else if table.last().skill_name == name {
        Some(table.last().id)
    } else {
        name_to_id(table.drop_last(), name)
    }
}

/// A reference rewritten through the name table: the matched node's id,
/// or the raw reference text when no node carries that name.
pub open spec fn map_ref_spec(table: Seq<NodeV>, s: Seq<char>) -> Seq<char> {
    match name_to_id(table, s) {
        Some(id) => id,
        None => s,
    }
}

/// What `name_to_id` returns: the id of a node with the looked-up skill
/// name, and `None` exactly when no node carries the name.
pub proof fn lemma_name_to_id_spec(table: Seq<NodeV>, name: Seq<char>)
    ensures
        match name_to_id(table, name) {
            Some(id) => exists|k: int|
                0 <= k < table.len() && table[k].id == id && table[k].skill_name == name,
            None => forall|k: int| 0 <= k < table.len() ==> table[k].skill_name != name,
        },
    decreases table.len(),
{
    if table.len() > 0 {
        if table.last().skill_name == name {
            assert(table[table.len() - 1].id == table.last().id);
        } else {
            lemma_name_to_id_spec(table.drop_last(), name);
            match name_to_id(table.drop_last(), name) {
                Some(id) => {
                    let k = choose|k: int|
                        0 <= k < table.drop_last().len() && table.drop_last()[k].id == id
                            && table.drop_last()[k].skill_name == name;
                    assert(table[k].id == id && table[k].skill_name == name);
                },
                None => {
                    assert forall|k: int|
                        0 <= k < table.len() implies table[k].skill_name != name by {
                        if k < table.len() - 1 {
                            assert(table.drop_last()[k] == table[k]);
                        }
                    }
                },
            }
        }
    }
}

proof fn lemma_name_to_id_same(a: Seq<NodeV>, b: Seq<NodeV>, name: Seq<char>)
    requires
        a.len() == b.len(),
        forall|k: int| 0 <= k < a.len() ==> a[k].id == b[k].id,
        forall|k: int| 0 <= k < a.len() ==> a[k].skill_name == b[k].skill_name,
    ensures
        name_to_id(a, name) == name_to_id(b, name),
    decreases a.len(),
{
    if a.len() > 0 {
        assert(forall|k: int| 0 <= k < a.len() - 1 ==> a.drop_last()[k] == a[k]);
        assert(forall|k: int| 0 <= k < b.len() - 1 ==> b.drop_last()[k] == b[k]);
        lemma_name_to_id_same(a.drop_last(), b.drop_last(), name);
    }
}

/// Looks up the id registered under a skill name.
fn lookup_name(table: &Vec<RoadmapNode>, name: &str) -> (r: Option<String>)
    ensures
        r.deep_view() == name_to_id(table.deep_view(), name@),
{
    let ghost dv = table.deep_view();
    let mut k: usize = table.len();
    proof {
        assert(dv.take(dv.len() as int) =~= dv);
    }
    while k > 0
        invariant
            k <= table.len(),
            dv == table.deep_view(),
            name_to_id(dv, name@) == name_to_id(dv.take(k as int), name@),
        decreases k,
    {
        k = k - 1;
        if str_eq(table[k].skill_name.as_str(), name) {
            let id = table[k].id.clone();
            proof {
                assert(dv.take(k as int + 1).last() == dv[k as int]);
                assert(id@ == dv[k as int].id);
            }
            return Some(id);
        }
        proof {
            assert(dv.take(k as int + 1).last() == dv[k as int]);
            assert(dv.take(k as int + 1).drop_last() =~= dv.take(k as int));
        }
    }
    proof {
        assert(dv.take(0) =~= Seq::<NodeV>::empty());
    }
    None
}

/// Rewrites one reference through the table.
fn map_ref(table: &Vec<RoadmapNode>, s: &str) -> (r: String)
    ensures
        r@ == map_ref_spec(table.deep_view(), s@),
{
    match lookup_name(table, s) {
        Some(id) => id,
        None => s.to_owned(),
    }
}

/// An optional previous/next reference after resolution: trimmed, empty
/// becomes absent, anything else rewritten through the table.
pub open spec fn resolve_link_spec(table: Seq<NodeV>, l: Option<Seq<char>>) -> Option<
    Seq<char>,
> {
    match l {
        None => None,
        Some(s) => {
            let t = trim_spec(s);
            if t.len() == 0 {
                None
            } else {
                Some(map_ref_spec(table, t))
            }
        },
    }
}

/// One node after reference resolution.
pub open spec fn resolve_node_spec(table: Seq<NodeV>, n: NodeV) -> NodeV {
    NodeV {
        prerequisites: n.prerequisites.map_values(|p: Seq<char>| map_ref_spec(table, p)),
        prev_node_id: resolve_link_spec(table, n.prev_node_id),
        next_node_id: resolve_link_spec(table, n.next_node_id),
        ..n
    }
}

/// The whole roadmap after reference resolution, with the unresolved
/// nodes themselves as the name table.
pub open spec fn resolve_all_spec(nodes: Seq<NodeV>) -> Seq<NodeV> {
    Seq::new(nodes.len(), |i: int| resolve_node_spec(nodes, nodes[i]))
}

fn resolve_link_exec(table: &Vec<RoadmapNode>, l: &Option<String>) -> (r: Option<String>)
    ensures
        r.deep_view() == resolve_link_spec(table.deep_view(), l.deep_view()),
{
    match l {
        None => None,
        Some(s) => {
            let t = trim(s.as_str());
            if t.unicode_len() == 0 {
                None
            } else {
                Some(map_ref(table, t))
            }
        },
    }
}

/// Rewrites every prerequisite / previous / next reference of every
/// node through the roadmap's own name-to-id table.
pub fn resolve_references(nodes: &mut Vec<RoadmapNode>)
    ensures
        final(nodes).deep_view() == resolve_all_spec(old(nodes).deep_view()),
{
    let ghost dv = nodes.deep_view();
    let table = clone_nodes(nodes);
    let n = nodes.len();
    let mut i: usize = 0;
    while i < n
        invariant
            i <= n,
            n == nodes.len(),
            dv.len() == n,
            table.deep_view() == dv,
            forall|j: int| 0 <= j < i ==> nodes.deep_view()[j] == resolve_all_spec(dv)[j],
            forall|j: int| i <= j < n ==> nodes.deep_view()[j] == dv[j],
        decreases n - i,
    {
        let mut node = nodes[i].clone();
        proof {
            assert(node@ == dv[i as int]);
        }
        let ghost prereqs0 = node@.prerequisites;
        let mut prs: Vec<String> = Vec::new();
        let m = node.prerequisites.len();
        let mut p: usize = 0;
        proof {
            assert(prs.deep_view() =~= prereqs0.take(0).map_values(
                |q: Seq<char>| map_ref_spec(dv, q),
            ));
        }
        while p < m
            invariant
                p <= m,
                m == node.prerequisites.len(),
                node@.prerequisites == prereqs0,
                prereqs0.len() == m,
                table.deep_view() == dv,
                prs.deep_view() == prereqs0.take(p as int).map_values(
                    |q: Seq<char>| map_ref_spec(dv, q),
                ),
            decreases m - p,
        {
            let ghost pre = prs.deep_view();
            let mapped = map_ref(&table, node.prerequisites[p].as_str());
            proof {
                assert(node.prerequisites@[p as int]@ == prereqs0[p as int]);
            }
            prs.push(mapped);
            proof {
                assert(prs.deep_view() =~= pre.push(map_ref_spec(dv, prereqs0[p as int])));
                assert(prs.deep_view() =~= prereqs0.take(p + 1).map_values(
                    |q: Seq<char>| map_ref_spec(dv, q),
                ));
            }
            p = p + 1;
        }
        proof {
            assert(prereqs0.take(m as int) =~= prereqs0);
        }
        node.prerequisites = prs;
        let resolved_prev = resolve_link_exec(&table, &node.prev_node_id);
        node.prev_node_id = resolved_prev;
        let resolved_next = resolve_link_exec(&table, &node.next_node_id);
        node.next_node_id = resolved_next;
        proof {
            assert(node@ == resolve_node_spec(dv, dv[i as int]));
        }
        nodes.set(i, node);
        proof {
            assert(nodes.deep_view()[i as int] == resolve_all_spec(dv)[i as int]);
        }
        i = i + 1;
    }
    proof {
        assert(nodes.deep_view() =~= resolve_all_spec(dv));
    }
}

/// How a resolved previous/next field relates to the unresolved one: it
/// is absent exactly for an absent or blank original, and otherwise
/// holds either the id of a node of the roadmap or the trimmed original
/// text, never an empty string.
pub open spec fn link_resolved(
    nodes: Seq<NodeV>,
    orig: Option<Seq<char>>,
    res: Option<Seq<char>>,
) -> bool {
    match res {
        None => orig is None || trim_spec(orig.unwrap()).len() == 0,
        Some(v) => has_id(nodes, v) || (v == trim_spec(orig.unwrap()) && v.len() > 0),
    }
}

/// Resolution is total: in a resolved roadmap every prerequisite is
/// either the id of a node of the roadmap or the raw referenced name
/// unchanged, and every previous/next reference is either such an id or
/// the trimmed original text; ids and skill names are untouched.
pub proof fn lemma_resolution_total(nodes: Seq<NodeV>)
    ensures
        ({
            let r = resolve_all_spec(nodes);
            &&& r.len() == nodes.len()
            &&& forall|i: int|
                0 <= i < r.len() ==> (#[trigger] r[i]).id == nodes[i].id && r[i].skill_name
                    == nodes[i].skill_name
            &&& forall|i: int|
                0 <= i < r.len() ==> (#[trigger] r[i]).prerequisites.len()
                    == nodes[i].prerequisites.len()
            &&& forall|i: int, j: int|
                0 <= i < r.len() && 0 <= j < r[i].prerequisites.len() ==> has_id(
                    nodes,
                    #[trigger] r[i].prerequisites[j],
                ) || r[i].prerequisites[j] == nodes[i].prerequisites[j]
            &&& forall|i: int|
                0 <= i < r.len() ==> link_resolved(
                    nodes,
                    nodes[i].prev_node_id,
                    (#[trigger] r[i]).prev_node_id,
                )
            &&& forall|i: int|
                0 <= i < r.len() ==> link_resolved(
                    nodes,
                    nodes[i].next_node_id,
                    (#[trigger] r[i]).next_node_id,
                )
        }),
{
    let r = resolve_all_spec(nodes);
    assert forall|i: int, j: int|
        0 <= i < r.len() && 0 <= j < r[i].prerequisites.len() implies has_id(
        nodes,
        #[trigger] r[i].prerequisites[j],
    ) || r[i].prerequisites[j] == nodes[i].prerequisites[j] by {
        let p = nodes[i].prerequisites[j];
        assert(r[i].prerequisites[j] == map_ref_spec(nodes, p));
        lemma_name_to_id_spec(nodes, p);
        match name_to_id(nodes, p) {
            Some(id) => {
                let k = choose|k: int|
                    0 <= k < nodes.len() && nodes[k].id == id && nodes[k].skill_name == p;
                assert(has_id(nodes, id));
            },
            None => {},
        }
    }
    assert forall|i: int|
        0 <= i < r.len() implies link_resolved(
        nodes,
        nodes[i].prev_node_id,
        (#[trigger] r[i]).prev_node_id,
    ) by {
        lemma_link_resolved(nodes, nodes[i].prev_node_id);
    }
    assert forall|i: int|
        0 <= i < r.len() implies link_resolved(
        nodes,
        nodes[i].next_node_id,
        (#[trigger] r[i]).next_node_id,
    ) by {
        lemma_link_resolved(nodes, nodes[i].next_node_id);
    }
}

proof fn lemma_link_resolved(nodes: Seq<NodeV>, l: Option<Seq<char>>)
    ensures
        link_resolved(nodes, l, resolve_link_spec(nodes, l)),
{
    match l {
        None => {},
        Some(s) => {
            let t = trim_spec(s);
            if t.len() > 0 {
                lemma_name_to_id_spec(nodes, t);
                match name_to_id(nodes, t) {
                    Some(id) => {
                        let k = choose|k: int|
                            0 <= k < nodes.len() && nodes[k].id == id && nodes[k].skill_name
                                == t;
                        assert(has_id(nodes, id));
                    },
                    None => {},
                }
            }
        },
    }
}

/// Resolution is idempotent: resolving a resolved roadmap changes
/// nothing, provided the ids are nonempty, carry no surrounding
/// whitespace, and no id doubles as a skill name.
pub proof fn lemma_resolution_idempotent(nodes: Seq<NodeV>)
    requires
        forall|k: int| 0 <= k < nodes.len() ==> (#[trigger] nodes[k].id).len() > 0,
        forall|k: int| 0 <= k < nodes.len() ==> trim_spec(#[trigger] nodes[k].id)
            == nodes[k].id,
        forall|k: int, m: int|
            0 <= k < nodes.len() && 0 <= m < nodes.len() ==> nodes[k].id
                != nodes[m].skill_name,
    ensures
        resolve_all_spec(resolve_all_spec(nodes)) == resolve_all_spec(nodes),
{
    let r = resolve_all_spec(nodes);
    let r2 = resolve_all_spec(r);
    assert(forall|k: int| 0 <= k < r.len() ==> (#[trigger] r[k]).id == nodes[k].id);
    assert(forall|k: int|
        0 <= k < r.len() ==> (#[trigger] r[k]).skill_name == nodes[k].skill_name);
    assert forall|i: int| 0 <= i < r2.len() implies r2[i] == r[i] by {
        assert(r2[i] == resolve_node_spec(r, r[i]));
        assert(r[i] == resolve_node_spec(nodes, nodes[i]));
        assert forall|j: int|
            0 <= j < r[i].prerequisites.len() implies map_ref_spec(
            r,
            #[trigger] r[i].prerequisites[j],
        ) == r[i].prerequisites[j] by {
            let p = nodes[i].prerequisites[j];
            let v = map_ref_spec(nodes, p);
            assert(r[i].prerequisites[j] == v);
            lemma_map_ref_fixed(nodes, r, v, p);
        }
        assert(r2[i].prerequisites =~= r[i].prerequisites);
        lemma_resolve_link_fixed(nodes, r, nodes[i].prev_node_id);
        lemma_resolve_link_fixed(nodes, r, nodes[i].next_node_id);
        assert(r2[i].prev_node_id == r[i].prev_node_id);
        assert(r2[i].next_node_id == r[i].next_node_id);
    }
    assert(r2 =~= r);
}

proof fn lemma_map_ref_fixed(nodes: Seq<NodeV>, r: Seq<NodeV>, v: Seq<char>, p: Seq<char>)
    requires
        r.len() == nodes.len(),
        forall|k: int| 0 <= k < r.len() ==> (#[trigger] r[k]).id == nodes[k].id,
        forall|k: int| 0 <= k < r.len() ==> (#[trigger] r[k]).skill_name
            == nodes[k].skill_name,
        forall|k: int, m: int|
            0 <= k < nodes.len() && 0 <= m < nodes.len() ==> nodes[k].id
                != nodes[m].skill_name,
        v == map_ref_spec(nodes, p),
    ensures
        map_ref_spec(r, v) == v,
{
    lemma_name_to_id_same(nodes, r, v);
    lemma_name_to_id_spec(nodes, p);
    lemma_name_to_id_spec(nodes, v);
    match name_to_id(nodes, p) {
        Some(id) => {
            let k = choose|k: int|
                0 <= k < nodes.len() && nodes[k].id == id && nodes[k].skill_name == p;
            assert(v == id);
            match name_to_id(nodes, v) {
                Some(_) => {
                    let m = choose|m: int|
                        0 <= m < nodes.len() && nodes[m].id == name_to_id(nodes, v).unwrap()
                            && nodes[m].skill_name == v;
                    assert(nodes[k].id != nodes[m].skill_name);
                },
                None => {},
            }
        },
        None => {
            assert(v == p);
        },
    }
}

proof fn lemma_resolve_link_fixed(nodes: Seq<NodeV>, r: Seq<NodeV>, l: Option<Seq<char>>)
    requires
        r.len() == nodes.len(),
        forall|k: int| 0 <= k < r.len() ==> (#[trigger] r[k]).id == nodes[k].id,
        forall|k: int| 0 <= k < r.len() ==> (#[trigger] r[k]).skill_name
            == nodes[k].skill_name,
        forall|k: int| 0 <= k < nodes.len() ==> (#[trigger] nodes[k].id).len() > 0,
        forall|k: int| 0 <= k < nodes.len() ==> trim_spec(#[trigger] nodes[k].id)
            == nodes[k].id,
        forall|k: int, m: int|
            0 <= k < nodes.len() && 0 <= m < nodes.len() ==> nodes[k].id
                != nodes[m].skill_name,
    ensures
        resolve_link_spec(r, resolve_link_spec(nodes, l)) == resolve_link_spec(nodes, l),
{
    match l {
        None => {},
        Some(s) => {
            let t = trim_spec(s);
            if t.len() > 0 {
                let v = map_ref_spec(nodes, t);
                lemma_name_to_id_spec(nodes, t);
                match name_to_id(nodes, t) {
                    Some(id) => {
                        let k = choose|k: int|
                            0 <= k < nodes.len() && nodes[k].id == id && nodes[k].skill_name
                                == t;
                        assert(v == id);
                        assert(trim_spec(v) == v);
                        assert(v.len() > 0);
                        lemma_map_ref_fixed(nodes, r, v, t);
                    },
                    None => {
                        assert(v == t);
                        lemma_trim_idempotent(s);
                        assert(trim_spec(v) == v);
                        lemma_map_ref_fixed(nodes, r, v, t);
                    },
                }
            }
        },
    }
}

} // verus!
