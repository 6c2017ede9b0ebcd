//! Parsing and validation of generative-backend output.
//!
//! The backend returns raw text that must be valid JSON of a declared
//! shape: an object with a `nodes` array for roadmap synthesis, an
//! object with a `questions` array for quiz generation. This module
//! strips the markdown fences models like to add, parses the text, and
//! walks the parsed value strictly: a missing required field or a wrong
//! type aborts synthesis. The parsed nodes then get fresh identifiers
//! and resolved references.

use vstd::prelude::*;
use crate::error::{EngineError, Stage};
use crate::model::{
    ids_distinct, LearningResource, NodeV, Question, QuestionType, RoadmapNode,
};
use crate::resolve::{assign_ids, resolve_all_spec, resolve_references};
use crate::text::{has_prefix, has_suffix, starts_with, ends_with, trim, trim_spec};
use vstd::string::{StrSliceExecFns, StringExecFns};

verus! {

/// Declares serde_json::Value as an opaque type for signatures here.
#[verifier::external_type_specification]
#[verifier::external_body]
pub struct ExJsonValue(serde_json::Value);

/// Declares serde_json::Error as an opaque type for signatures here.
#[verifier::external_type_specification]
#[verifier::external_body]
pub struct ExJsonError(serde_json::Error);

/// The text parses as JSON. Names the success of
/// `serde_json::from_str::<serde_json::Value>`, which depends on the
/// text alone.
pub uninterp spec fn json_wf(s: Seq<char>) -> bool;

/// Relies on serde_json::from_str::<Value>: parses text as JSON; the
/// outcome is a function of the text.
#[verifier::external_body]
fn parse_json(s: &str) -> (r: Result<serde_json::Value, serde_json::Error>)
    ensures
        r is Ok <==> json_wf(s@),
{
    serde_json::from_str(s)
}

/// Relies on serde_json::Error's Display implementation for the
/// failure text shown to the caller.
#[verifier::external_body]
pub(crate) fn json_error_text(e: &serde_json::Error) -> (r: String) {
    e.to_string()
}

// Accessors of serde_json::Value that the readers below call: field
// or index lookup, and the checked readings of a value as a string,
// an array, a boolean, or null. The value is opaque here, so nothing
// is claimed of their results.
pub assume_specification<I: serde_json::value::Index>[ serde_json::Value::get::<I> ](
    v: &serde_json::Value,
    index: I,
) -> Option<&serde_json::Value>;

pub assume_specification[ serde_json::Value::as_str ](v: &serde_json::Value) -> Option<&str>;

pub assume_specification[ serde_json::Value::as_array ](v: &serde_json::Value) -> Option<
    &Vec<serde_json::Value>,
>;

pub assume_specification[ serde_json::Value::as_bool ](v: &serde_json::Value) -> Option<bool>;

pub assume_specification[ serde_json::Value::is_null ](v: &serde_json::Value) -> bool;

/// Strips every repetition of the prefix `p` from the front of `s`.
pub open spec fn strip_prefix_all(s: Seq<char>, p: Seq<char>) -> Seq<char>
    decreases s.len(),
{
    if p.len() > 0 && has_prefix(s, p) {
        strip_prefix_all(s.skip(p.len() as int), p)
    } else {
        s
    }
}

/// Strips every repetition of the suffix `p` from the end of `s`.
pub open spec fn strip_suffix_all(s: Seq<char>, p: Seq<char>) -> Seq<char>
    decreases s.len(),
{
    if p.len() > 0 && has_suffix(s, p) {
        strip_suffix_all(s.take(s.len() - p.len()), p)
    } else {
        s
    }
}

/// The backend's text with surrounding whitespace and markdown code
/// fences removed: trimmed, leading "```json" and "```" fences and
/// trailing "```" fences stripped, trimmed again.
pub open spec fn clean_json_spec(s: Seq<char>) -> Seq<char> {
    trim_spec(
        strip_suffix_all(
            strip_prefix_all(strip_prefix_all(trim_spec(s), "```json"@), "```"@),
            "```"@,
        ),
    )
}

/// Removes markdown fences and surrounding whitespace from a backend
/// response, leaving the JSON payload.
pub fn clean_json_response(input: &str) -> (r: String)
    ensures
        r@ == clean_json_spec(input@),
{
    let fence_json = "```json";
    let fence = "```";
    let mut s: &str = trim(input);
    while starts_with(s, fence_json)
        invariant
            fence_json@ == "```json"@,
            fence@ == "```"@,
            strip_prefix_all(trim_spec(input@), "```json"@) == strip_prefix_all(
                s@,
                "```json"@,
            ),
        decreases s@.len(),
    {
        let ghost pre = s@;
        let n = fence_json.unicode_len();
        let whole = s.unicode_len();
        s = s.substring_char(n, whole);
        proof {
            reveal_strlit("```json");
            assert(s@ =~= pre.skip(n as int));
        }
    }
    let ghost after_json = s@;
    while starts_with(s, fence)
        invariant
            fence@ == "```"@,
            strip_prefix_all(after_json, "```"@) == strip_prefix_all(s@, "```"@),
        decreases s@.len(),
    {
        let ghost pre = s@;
        let n = fence.unicode_len();
        let whole = s.unicode_len();
        s = s.substring_char(n, whole);
        proof {
            reveal_strlit("```");
            assert(s@ =~= pre.skip(n as int));
        }
    }
    let ghost after_pre = s@;
    while ends_with(s, fence)
        invariant
            fence@ == "```"@,
            strip_suffix_all(after_pre, "```"@) == strip_suffix_all(s@, "```"@),
        decreases s@.len(),
    {
        let ghost pre = s@;
        let n = fence.unicode_len();
        let whole = s.unicode_len();
        s = s.substring_char(0, whole - n);
        proof {
            reveal_strlit("```");
            assert(s@ =~= pre.take(pre.len() - n));
        }
    }
    let cleaned = trim(s);
    String::from_str(cleaned)
}

fn synth_error(detail: String) -> (r: EngineError)
    ensures
        r matches EngineError::Upstream(s, _) && s == Stage::Synthesis,
{
    EngineError::Upstream(Stage::Synthesis, detail)
}

fn missing_field_error(key: &str) -> (r: EngineError)
    ensures
        r matches EngineError::Upstream(s, _) && s == Stage::Synthesis,
{
    let mut m = String::from_str("missing required field: ");
    m.append(key);
    synth_error(m)
}

fn type_error(key: &str, expected: &str) -> (r: EngineError)
    ensures
        r matches EngineError::Upstream(s, _) && s == Stage::Synthesis,
{
    let mut m = String::from_str("field has the wrong type: ");
    m.append(key);
    m.append(" must be ");
    m.append(expected);
    synth_error(m)
}

/// Reads a required string field of a JSON object.
fn req_string(obj: &serde_json::Value, key: &str) -> (r: Result<String, EngineError>)
    ensures
        r matches Err(e) ==> e matches EngineError::Upstream(s, _) && s == Stage::Synthesis,
{
    match obj.get(key) {
        Some(v) => match v.as_str() {
            Some(s) => Ok(s.to_owned()),
            None => Err(type_error(key, "a string")),
        },
        None => Err(missing_field_error(key)),
    }
}

/// Reads a required string-or-null field of a JSON object, as the
/// previous/next references are declared.
fn req_link(obj: &serde_json::Value, key: &str) -> (r: Result<Option<String>, EngineError>)
    ensures
        r matches Err(e) ==> e matches EngineError::Upstream(s, _) && s == Stage::Synthesis,
{
    match obj.get(key) {
        Some(v) => {
            if v.is_null() {
                Ok(None)
            } else {
                match v.as_str() {
                    Some(s) => Ok(Some(s.to_owned())),
                    None => Err(type_error(key, "a string or null")),
                }
            }
        },
        None => Err(missing_field_error(key)),
    }
}

/// Reads one learning resource object: title, platform and type are
/// required strings, the URL is a required string-or-null.
fn parse_resource(v: &serde_json::Value) -> (r: Result<LearningResource, EngineError>)
    ensures
        r matches Err(e) ==> e matches EngineError::Upstream(s, _) && s == Stage::Synthesis,
{
    let title = match req_string(v, "title") {
        Ok(t) => t,
        Err(e) => {
            return Err(e);
        },
    };
    let platform = match req_string(v, "platform") {
        Ok(t) => t,
        Err(e) => {
            return Err(e);
        },
    };
    let url = match req_link(v, "url") {
        Ok(t) => t,
        Err(e) => {
            return Err(e);
        },
    };
    let resource_type = match req_string(v, "resource_type") {
        Ok(t) => t,
        Err(e) => {
            return Err(e);
        },
    };
    Ok(LearningResource { title, platform, url, resource_type })
}

/// Reads the optional resources array of a node; absent means empty.
fn parse_resources(obj: &serde_json::Value) -> (r: Result<Vec<LearningResource>, EngineError>)
    ensures
        r matches Err(e) ==> e matches EngineError::Upstream(s, _) && s == Stage::Synthesis,
{
    let mut out: Vec<LearningResource> = Vec::new();
    match obj.get("resources") {
        None => Ok(out),
        Some(v) => match v.as_array() {
            None => Err(type_error("resources", "an array")),
            Some(items) => {
                let mut i: usize = 0;
                while i < items.len()
                    decreases items.len() - i,
                {
                    match parse_resource(&items[i]) {
                        Ok(res) => out.push(res),
                        Err(e) => {
                            return Err(e);
                        },
                    }
                    i = i + 1;
                }
                Ok(out)
            },
        },
    }
}

/// Reads the optional prerequisites array of a node; absent means
/// empty, and every element must be a string.
fn parse_prerequisites(obj: &serde_json::Value) -> (r: Result<Vec<String>, EngineError>)
    ensures
        r matches Err(e) ==> e matches EngineError::Upstream(s, _) && s == Stage::Synthesis,
{
    let mut out: Vec<String> = Vec::new();
    match obj.get("prerequisites") {
        None => Ok(out),
        Some(v) => match v.as_array() {
            None => Err(type_error("prerequisites", "an array")),
            Some(items) => {
                let mut i: usize = 0;
                while i < items.len()
                    decreases items.len() - i,
                {
                    match items[i].as_str() {
                        Some(s) => out.push(s.to_owned()),
                        None => {
                            return Err(type_error("prerequisites", "an array of strings"));
                        },
                    }
                    i = i + 1;
                }
                Ok(out)
            },
        },
    }
}

/// Reads one roadmap node object strictly against the declared schema.
/// The id is left empty (the engine assigns ids) and the completion
/// flag, though type-checked when present, starts false.
fn parse_node(v: &serde_json::Value) -> (r: Result<RoadmapNode, EngineError>)
    ensures
        r matches Err(e) ==> e matches EngineError::Upstream(s, _) && s == Stage::Synthesis,
        r matches Ok(n) ==> n.is_completed == false && n.id@.len() == 0,
{
    match v.get("id") {
        Some(idv) => {
            if idv.as_str().is_none() {
                return Err(type_error("id", "a string"));
            }
        },
        None => {},
    }
    match v.get("is_completed") {
        Some(cv) => {
            if cv.as_bool().is_none() {
                return Err(type_error("is_completed", "a boolean"));
            }
        },
        None => {},
    }
    let skill_name = match req_string(v, "skill_name") {
        Ok(t) => t,
        Err(e) => {
            return Err(e);
        },
    };
    let description = match req_string(v, "description") {
        Ok(t) => t,
        Err(e) => {
            return Err(e);
        },
    };
    let resources = match parse_resources(v) {
        Ok(t) => t,
        Err(e) => {
            return Err(e);
        },
    };
    let prerequisites = match parse_prerequisites(v) {
        Ok(t) => t,
        Err(e) => {
            return Err(e);
        },
    };
    let prev_node_id = match req_link(v, "prev_node_id") {
        Ok(t) => t,
        Err(e) => {
            return Err(e);
        },
    };
    let next_node_id = match req_link(v, "next_node_id") {
        Ok(t) => t,
        Err(e) => {
            return Err(e);
        },
    };
    Ok(
        RoadmapNode {
            id: String::new(),
            skill_name,
            description,
            resources,
            prerequisites,
            is_completed: false,
            prev_node_id,
            next_node_id,
        },
    )
}

/// Parses the generative backend's roadmap response: fences stripped,
/// text parsed as JSON, and the object's `nodes` array read strictly.
/// Malformed text or a schema violation is a synthesis failure.
pub fn parse_roadmap_nodes(text: &str) -> (r: Result<Vec<RoadmapNode>, EngineError>)
    ensures
        r matches Err(e) ==> e matches EngineError::Upstream(s, _) && s == Stage::Synthesis,
        !json_wf(clean_json_spec(text@)) ==> r is Err,
        r matches Ok(v) ==> forall|i: int|
            0 <= i < v.deep_view().len() ==> !(#[trigger] v.deep_view()[i]).is_completed,
{
    let cleaned = clean_json_response(text);
    let root = match parse_json(cleaned.as_str()) {
        Ok(val) => val,
        Err(e) => {
            let mut m = String::from_str("response is not valid JSON: ");
            m.append(json_error_text(&e).as_str());
            return Err(synth_error(m));
        },
    };
    let nodes_val = match root.get("nodes") {
        Some(v) => v,
        None => {
            return Err(missing_field_error("nodes"));
        },
    };
    let items = match nodes_val.as_array() {
        Some(a) => a,
        None => {
            return Err(type_error("nodes", "an array"));
        },
    };
    let mut out: Vec<RoadmapNode> = Vec::new();
    let mut i: usize = 0;
    while i < items.len()
        invariant
            forall|j: int|
                0 <= j < out.deep_view().len() ==> !(#[trigger] out.deep_view()[j]).is_completed,
        decreases items.len() - i,
    {
        match parse_node(&items[i]) {
            Ok(n) => {
                let ghost pre = out.deep_view();
                let ghost nv = n@;
                out.push(n);
                proof {
                    assert(out.deep_view() =~= pre.push(nv));
                }
            },
            Err(e) => {
                return Err(e);
            },
        }
        i = i + 1;
    }
    Ok(out)
}

/// Runs the whole synthesis on a backend response: strict parsing,
/// fresh identifier assignment, reference resolution. All-or-nothing:
/// any failure leaves nothing to persist. On success the nodes carry
/// pairwise distinct ids, all completion flags start false, and every
/// reference is resolved against the roadmap's own name table.
pub fn synthesize_nodes(text: &str) -> (r: Result<Vec<RoadmapNode>, EngineError>)
    ensures
        !json_wf(clean_json_spec(text@)) ==> r is Err,
        r matches Err(e) ==> (e matches EngineError::Upstream(s, _) && s == Stage::Synthesis)
            || e is IdCollision,
        r matches Ok(v) ==> {
            &&& ids_distinct(v.deep_view())
            &&& forall|i: int|
                0 <= i < v.deep_view().len() ==> !(#[trigger] v.deep_view()[i]).is_completed
            &&& exists|labeled: Seq<NodeV>|
                ids_distinct(labeled) && v.deep_view() == resolve_all_spec(labeled)
        },
{
    let parsed = match parse_roadmap_nodes(text) {
        Ok(v) => v,
        Err(e) => {
            return Err(e);
        },
    };
    let mut labeled = match assign_ids(&parsed) {
        Ok(v) => v,
        Err(e) => {
            return Err(e);
        },
    };
    let ghost labeled_v = labeled.deep_view();
    resolve_references(&mut labeled);
    proof {
        crate::resolve::lemma_resolution_total(labeled_v);
        let rv = labeled.deep_view();
        assert(rv == crate::resolve::resolve_all_spec(labeled_v));
        assert forall|s: int, t: int| 0 <= s < t < rv.len() implies rv[s].id != rv[t].id by {
            assert(rv[s].id == labeled_v[s].id);
            assert(rv[t].id == labeled_v[t].id);
        }
        assert forall|i: int| 0 <= i < rv.len() implies !(#[trigger] rv[i]).is_completed by {
            assert(rv[i] == crate::resolve::resolve_node_spec(labeled_v, labeled_v[i]));
            assert(!labeled_v[i].is_completed);
        }
    }
    Ok(labeled)
}

/// Assembles the roadmap aggregate to persist: synthesized nodes under
/// the requesting user and skill, stamped with the creation time. The
/// result satisfies the roadmap invariant.
pub fn build_roadmap(user_id: String, skill_name: String, nodes: Vec<RoadmapNode>, now: i64) -> (r:
    crate::model::Roadmap)
    requires
        ids_distinct(nodes.deep_view()),
    ensures
        r.wf(),
        r.id is None,
        r.user_id == user_id,
        r.skill_name == skill_name,
        r@.nodes == nodes.deep_view(),
        r.created_at == now,
        r.updated_at == now,
{
    crate::model::Roadmap {
        id: None,
        user_id,
        skill_name,
        nodes,
        created_at: now,
        updated_at: now,
    }
}

/// The quiz question type encoded in the backend's response text; any
/// unknown tag falls back to the one-word kind.
pub open spec fn question_type_spec(s: Seq<char>) -> QuestionType {
    if s == "MCQ"@ {
        QuestionType::MCQ
    } else if s == "MSQ"@ {
        QuestionType::MSQ
    } else if s == "TrueFalse"@ {
        QuestionType::TrueFalse
    } else {
        QuestionType::OneWord
    }
}

/// Decodes a question type tag.
pub fn question_type_of(s: &str) -> (r: QuestionType)
    ensures
        r == question_type_spec(s@),
{
    if crate::text::str_eq(s, "MCQ") {
        QuestionType::MCQ
    } else if crate::text::str_eq(s, "MSQ") {
        QuestionType::MSQ
    } else if crate::text::str_eq(s, "TrueFalse") {
        QuestionType::TrueFalse
    } else {
        QuestionType::OneWord
    }
}

/// Parses the generative backend's quiz response: an object with a
/// `questions` array. Unlike roadmap synthesis this read is tolerant:
/// question text defaults to empty, an unknown or missing type tag
/// becomes the one-word kind, and non-string options are skipped.
pub fn parse_questions(text: &str) -> (r: Result<Vec<Question>, EngineError>)
    ensures
        !json_wf(text@) ==> r is Err,
        r matches Err(e) ==> e matches EngineError::Upstream(s, _) && s
            == Stage::QuestionGeneration,
        r matches Ok(v) ==> forall|i: int|
            0 <= i < v.deep_view().len() ==> (#[trigger] v.deep_view()[i]).id.len() == 36,
{
    let root = match parse_json(text) {
        Ok(val) => val,
        Err(e) => {
            let mut m = String::from_str("response is not valid JSON: ");
            m.append(json_error_text(&e).as_str());
            return Err(EngineError::Upstream(Stage::QuestionGeneration, m));
        },
    };
    let questions_val = match root.get("questions") {
        Some(v) => v,
        None => {
            return Err(
                EngineError::Upstream(
                    Stage::QuestionGeneration,
                    String::from_str("missing required field: questions"),
                ),
            );
        },
    };
    let items = match questions_val.as_array() {
        Some(a) => a,
        None => {
            return Err(
                EngineError::Upstream(
                    Stage::QuestionGeneration,
                    String::from_str("field has the wrong type: questions must be an array"),
                ),
            );
        },
    };
    let mut out: Vec<Question> = Vec::new();
    let mut i: usize = 0;
    while i < items.len()
        invariant
            forall|j: int|
                0 <= j < out.deep_view().len() ==> (#[trigger] out.deep_view()[j]).id.len()
                    == 36,
        decreases items.len() - i,
    {
        let q = &items[i];
        let question_text = match q.get("question_text") {
            Some(v) => match v.as_str() {
                Some(s) => s.to_owned(),
                None => String::new(),
            },
            None => String::new(),
        };
        let question_type = match q.get("question_type") {
            Some(v) => match v.as_str() {
                Some(s) => question_type_of(s),
                None => QuestionType::OneWord,
            },
            None => QuestionType::OneWord,
        };
        let mut options: Vec<String> = Vec::new();
        match q.get("options") {
            Some(v) => match v.as_array() {
                Some(arr) => {
                    let mut t: usize = 0;
                    while t < arr.len()
                        decreases arr.len() - t,
                    {
                        match arr[t].as_str() {
                            Some(s) => options.push(s.to_owned()),
                            None => {},
                        }
                        t = t + 1;
                    }
                },
                None => {},
            },
            None => {},
        }
        let question = Question {
            id: crate::resolve::fresh_node_id(),
            question_text,
            question_type,
            options,
        };
        let ghost pre = out.deep_view();
        let ghost qv = question.deep_view();
        out.push(question);
        proof {
            assert(out.deep_view() =~= pre.push(qv));
        }
        i = i + 1;
    }
    Ok(out)
}

} // verus!
