use skillforge::completion::{progress, toggle_node_completion};
use skillforge::linearize::{label_for_ref, ordered_nodes};
use skillforge::model::{
    CandidateResource, CoursesDataClean, LearningResource, Roadmap, RoadmapNode,
};
use skillforge::resolve::{assign_ids, resolve_references};
use skillforge::retrieve::{merge_candidates, DEFAULT_CANDIDATE_CAP};

fn node(id: &str, name: &str, prev: Option<&str>, next: Option<&str>) -> RoadmapNode {
    RoadmapNode {
        id: id.to_string(),
        skill_name: name.to_string(),
        description: format!("about {}", name),
        resources: vec![LearningResource {
            title: format!("{} basics", name),
            platform: "web".to_string(),
            url: None,
            resource_type: "article".to_string(),
        }],
        prerequisites: Vec::new(),
        is_completed: false,
        prev_node_id: prev.map(|s| s.to_string()),
        next_node_id: next.map(|s| s.to_string()),
    }
}

fn roadmap(nodes: Vec<RoadmapNode>) -> Roadmap {
    Roadmap {
        id: Some("roadmaps:demo".to_string()),
        user_id: "users:u1".to_string(),
        skill_name: "Rust".to_string(),
        nodes,
        created_at: 1000,
        updated_at: 1000,
    }
}

fn ids(nodes: &[RoadmapNode]) -> Vec<String> {
    nodes.iter().map(|n| n.id.clone()).collect()
}

#[test]
fn linear_chain_keeps_its_order() {
    let r = roadmap(vec![
        node("a", "Algebra", None, Some("b")),
        node("b", "Binary", Some("a"), Some("c")),
        node("c", "Calculus", Some("b"), None),
    ]);
    let ordered = ordered_nodes(&r);
    assert_eq!(ids(&ordered), vec!["a", "b", "c"]);
}

#[test]
fn perfect_cycle_is_flattened_without_hanging() {
    // no node has a missing or broken prev, so the head fallback kicks in
    let r = roadmap(vec![
        node("a", "Algebra", Some("b"), Some("b")),
        node("b", "Binary", Some("a"), Some("a")),
    ]);
    let ordered = ordered_nodes(&r);
    assert_eq!(ordered.len(), 2);
    // the lexicographically first skill name starts the walk
    assert_eq!(ids(&ordered), vec!["a", "b"]);
}

#[test]
fn every_node_appears_exactly_once() {
    // broken links, a self-loop, and a disconnected fragment
    let r = roadmap(vec![
        node("a", "Zebra", None, Some("missing")),
        node("b", "Yak", Some("nowhere"), Some("b")),
        node("c", "Xenon", Some("c"), None),
        node("d", "Wolf", Some("a"), Some("a")),
    ]);
    let ordered = ordered_nodes(&r);
    assert_eq!(ordered.len(), 4);
    let mut seen = ids(&ordered);
    seen.sort();
    assert_eq!(seen, vec!["a", "b", "c", "d"]);
}

#[test]
fn linearize_is_deterministic_across_calls() {
    let r = roadmap(vec![
        node("a", "Graphs", None, None),
        node("b", "Sets", None, None),
        node("c", "Logic", None, None),
    ]);
    let first = ids(&ordered_nodes(&r));
    let second = ids(&ordered_nodes(&r));
    assert_eq!(first, second);
    // heads are sorted by skill name
    assert_eq!(first, vec!["a", "c", "b"]);
}

#[test]
fn orphans_are_appended_sorted_by_name() {
    let r = roadmap(vec![
        node("a", "Alpha", None, Some("b")),
        node("b", "Beta", Some("a"), None),
        // unreachable from any head walk only if linked from nowhere and
        // pointing at a visited node; these two have resolvable prevs
        // forming their own cycle, so they are swept up at the end
        node("d", "Delta", Some("e"), Some("e")),
        node("e", "Gamma", Some("d"), Some("d")),
    ]);
    let ordered = ordered_nodes(&r);
    assert_eq!(ids(&ordered), vec!["a", "b", "d", "e"]);
}

#[test]
fn label_for_ref_resolves_ids_and_keeps_raw_text() {
    let r = roadmap(vec![node("a", "Algebra", None, None)]);
    assert_eq!(label_for_ref(&r, "a"), "Algebra");
    assert_eq!(label_for_ref(&r, "Linear Algebra"), "Linear Algebra");
}

#[test]
fn toggle_flips_exactly_one_node_and_stamps_the_time() {
    let mut r = roadmap(vec![
        node("a", "Algebra", None, Some("b")),
        node("b", "Binary", Some("a"), None),
    ]);
    toggle_node_completion(&mut r, "b", 2000);
    assert!(!r.nodes[0].is_completed);
    assert!(r.nodes[1].is_completed);
    assert_eq!(r.updated_at, 2000);
    assert_eq!(progress(&r), (1, 2));
}

#[test]
fn toggle_twice_restores_completion_and_progress() {
    let mut r = roadmap(vec![
        node("a", "Algebra", None, None),
        node("b", "Binary", None, None),
    ]);
    toggle_node_completion(&mut r, "a", 2000);
    let mid = progress(&r);
    assert_eq!(mid, (1, 2));
    toggle_node_completion(&mut r, "a", 3000);
    assert!(!r.nodes[0].is_completed);
    assert_eq!(progress(&r), (0, 2));
    assert_eq!(r.updated_at, 3000);
}

#[test]
fn toggle_of_a_missing_node_is_a_silent_no_op() {
    let mut r = roadmap(vec![node("a", "Algebra", None, None)]);
    toggle_node_completion(&mut r, "zzz", 2000);
    assert!(!r.nodes[0].is_completed);
    assert_eq!(progress(&r), (0, 1));
    // the update stamp still moves, as the store write does
    assert_eq!(r.updated_at, 2000);
}

#[test]
fn progress_of_an_empty_roadmap_is_zero_of_zero() {
    let r = roadmap(Vec::new());
    assert_eq!(progress(&r), (0, 0));
    assert_eq!(ordered_nodes(&r).len(), 0);
}

fn course(id: &str) -> CandidateResource {
    CandidateResource {
        id: id.to_string(),
        data: CoursesDataClean {
            title: format!("course {}", id),
            description: "d".to_string(),
            channel_name: "c".to_string(),
            published_date: "2024-01-01".to_string(),
            skill_path: "s".to_string(),
            level: "Beginner".to_string(),
            ctype: "Macro".to_string(),
            content: "text".to_string(),
            topic: "t".to_string(),
            prerequisite_topics: Vec::new(),
        },
    }
}

#[test]
fn overlapping_batches_merge_within_corpus_and_cap() {
    // three queries, each a top-5 slice of a 10-record corpus
    let all: Vec<CandidateResource> = (0..10).map(|i| course(&format!("r{}", i))).collect();
    let batches = vec![
        all[0..5].to_vec(),
        all[2..7].to_vec(),
        all[5..10].to_vec(),
    ];
    let merged = merge_candidates(&batches, DEFAULT_CANDIDATE_CAP);
    assert!(merged.len() <= DEFAULT_CANDIDATE_CAP);
    assert_eq!(merged.len(), 10);
    let mut seen: Vec<String> = merged.iter().map(|c| c.id.clone()).collect();
    let distinct = seen.clone();
    seen.sort();
    seen.dedup();
    assert_eq!(seen.len(), distinct.len());
}

#[test]
fn merge_keeps_first_insertion_order_and_last_record() {
    let mut newer = course("x");
    newer.data.title = "replacement".to_string();
    let batches = vec![
        vec![course("x"), course("y")],
        vec![newer, course("z")],
    ];
    let merged = merge_candidates(&batches, 20);
    assert_eq!(
        merged.iter().map(|c| c.id.as_str()).collect::<Vec<_>>(),
        vec!["x", "y", "z"]
    );
    // the later hit overwrote the stored record in place
    assert_eq!(merged[0].data.title, "replacement");
}

#[test]
fn merge_truncates_to_the_cap_in_insertion_order() {
    let batch: Vec<CandidateResource> = (0..8).map(|i| course(&format!("c{}", i))).collect();
    let merged = merge_candidates(&vec![batch], 3);
    assert_eq!(
        merged.iter().map(|c| c.id.as_str()).collect::<Vec<_>>(),
        vec!["c0", "c1", "c2"]
    );
}

#[test]
fn unresolved_prerequisite_is_kept_as_raw_text() {
    // a node references a prerequisite name no node carries
    let mut d = node("", "Databases", None, None);
    d.prerequisites = vec!["Linear Algebra".to_string()];
    let labeled = assign_ids(&vec![d]).expect("fresh ids");
    let mut nodes = labeled;
    resolve_references(&mut nodes);
    assert_eq!(nodes[0].prerequisites, vec!["Linear Algebra".to_string()]);
}

#[test]
fn named_references_become_ids_after_resolution() {
    let mut a = node("", "Algebra", None, Some("Binary"));
    a.prerequisites = vec!["Binary".to_string()];
    let b = node("", "Binary", Some("Algebra"), None);
    let labeled = assign_ids(&vec![a, b]).expect("fresh ids");
    let mut nodes = labeled;
    resolve_references(&mut nodes);
    let id_a = nodes[0].id.clone();
    let id_b = nodes[1].id.clone();
    assert_eq!(id_a.len(), 36);
    assert_eq!(id_b.len(), 36);
    assert_ne!(id_a, id_b);
    assert_eq!(nodes[0].next_node_id.as_deref(), Some(id_b.as_str()));
    assert_eq!(nodes[0].prerequisites, vec![id_b.clone()]);
    assert_eq!(nodes[1].prev_node_id.as_deref(), Some(id_a.as_str()));
    assert!(!nodes[0].is_completed && !nodes[1].is_completed);
}

#[test]
fn blank_references_resolve_to_none() {
    let mut a = node("", "Algebra", Some("   "), Some(""));
    a.prerequisites = Vec::new();
    let labeled = assign_ids(&vec![a]).expect("fresh ids");
    let mut nodes = labeled;
    resolve_references(&mut nodes);
    assert_eq!(nodes[0].prev_node_id, None);
    assert_eq!(nodes[0].next_node_id, None);
}

#[test]
fn toggle_flips_only_the_first_of_duplicate_ids() {
    // duplicate ids violate the roadmap invariant, but the toggle is
    // still well defined: the first match flips
    let mut r = roadmap(vec![
        node("x", "Algebra", None, None),
        node("x", "Binary", None, None),
    ]);
    toggle_node_completion(&mut r, "x", 2000);
    assert!(r.nodes[0].is_completed);
    assert!(!r.nodes[1].is_completed);
}

#[test]
fn equal_skill_names_keep_node_order() {
    // the head sort is stable, so ties stay in node order
    let r = roadmap(vec![
        node("b", "Same", None, None),
        node("a", "Same", None, None),
        node("c", "Other", None, None),
    ]);
    assert_eq!(ids(&ordered_nodes(&r)), vec!["c", "b", "a"]);
}

#[test]
fn a_cap_of_zero_yields_no_candidates() {
    let merged = merge_candidates(&vec![vec![course("a"), course("b")]], 0);
    assert!(merged.is_empty());
}

#[test]
fn resolution_is_idempotent_on_resolved_nodes() {
    let mut a = node("", "Algebra", None, Some("Binary"));
    a.prerequisites = vec!["Binary".to_string(), "Linear Algebra".to_string()];
    let b = node("", "Binary", Some("Algebra"), None);
    let mut nodes = assign_ids(&vec![a, b]).expect("fresh ids");
    resolve_references(&mut nodes);
    let snapshot: Vec<(Vec<String>, Option<String>, Option<String>)> = nodes
        .iter()
        .map(|n| (n.prerequisites.clone(), n.prev_node_id.clone(), n.next_node_id.clone()))
        .collect();
    resolve_references(&mut nodes);
    let again: Vec<(Vec<String>, Option<String>, Option<String>)> = nodes
        .iter()
        .map(|n| (n.prerequisites.clone(), n.prev_node_id.clone(), n.next_node_id.clone()))
        .collect();
    assert_eq!(snapshot, again);
}
