//! Query expansion: request validation and strict parsing of the
//! expansion backend's output.
//!
//! A roadmap-generation request is rejected before any backend call
//! when its skill name is blank or its quiz is empty. The expansion
//! backend must return a JSON array of strings; anything else is a
//! hard failure for the whole request — a single fallback query would
//! silently degrade retrieval diversity.

use vstd::prelude::*;
use crate::error::{EngineError, InputFault, Stage};
use crate::model::QuestionResponse;
use crate::synth::{clean_json_response, clean_json_spec};
use crate::text::{trim, trim_spec};
use vstd::string::{StrSliceExecFns, StringExecFns};

verus! {

/// The parse of text as a JSON array of strings. Names the result of
/// `serde_json::from_str::<Vec<String>>`, a function of the text alone.
pub uninterp spec fn string_array_of(s: Seq<char>) -> Option<Seq<Seq<char>>>;

/// Relies on serde_json::from_str::<Vec<String>>: parses text as a
/// JSON array of strings, deterministically in the text.
#[verifier::external_body]
fn parse_string_array(s: &str) -> (r: Result<Vec<String>, serde_json::Error>)
    ensures
        match r {
            Ok(v) => string_array_of(s@) == Some(v.deep_view()),
            Err(_) => string_array_of(s@) is None,
        },
{
    serde_json::from_str(s)
}

/// Rejects a malformed roadmap request: the skill name must not be
/// blank and the quiz must hold at least one response. Exactly the
/// well-formed requests pass.
pub fn validate_request(skill_name: &str, responses: &Vec<QuestionResponse>) -> (r: Result<
    (),
    EngineError,
>)
    ensures
        match r {
            Ok(_) => trim_spec(skill_name@).len() > 0 && responses@.len() > 0,
            Err(e) => match e {
                EngineError::Input(InputFault::EmptySkillName) => trim_spec(
                    skill_name@,
                ).len() == 0,
                EngineError::Input(InputFault::EmptyResponses) => trim_spec(
                    skill_name@,
                ).len() > 0 && responses@.len() == 0,
                _ => false,
            },
        },
{
    let t = trim(skill_name);
    if t.unicode_len() == 0 {
        return Err(EngineError::Input(InputFault::EmptySkillName));
    }
    if responses.len() == 0 {
        return Err(EngineError::Input(InputFault::EmptyResponses));
    }
    Ok(())
}

/// Parses the expansion backend's response into search queries: fences
/// and surrounding whitespace stripped, then read strictly as a JSON
/// array of strings. Malformed output fails the whole request.
pub fn parse_expanded_queries(text: &str) -> (r: Result<Vec<String>, EngineError>)
    ensures
        match r {
            Ok(v) => string_array_of(clean_json_spec(text@)) == Some(v.deep_view()),
            Err(e) => (e matches EngineError::Upstream(s, _) && s == Stage::QueryExpansion)
                && string_array_of(clean_json_spec(text@)) is None,
        },
{
    let cleaned = clean_json_response(text);
    match parse_string_array(cleaned.as_str()) {
        Ok(v) => Ok(v),
        Err(e) => {
            let mut m = String::from_str("response is not a JSON array of strings: ");
            m.append(crate::synth::json_error_text(&e).as_str());
            Err(EngineError::Upstream(Stage::QueryExpansion, m))
        },
    }
}

} // verus!
