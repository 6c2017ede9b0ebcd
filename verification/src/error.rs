//! The engine's error taxonomy.
//!
//! Malformed requests are rejected before any backend call; backend
//! failures abort the whole operation with the stage they occurred in;
//! a missing roadmap on read or toggle is a not-found error. A dangling
//! reference inside a roadmap is deliberately not an error: the raw
//! reference text is kept for the consumer to surface.

use vstd::prelude::*;
use vstd::string::StringExecFns;

verus! {

/// The pipeline stage an upstream failure occurred in.
#[derive(Debug, PartialEq, Eq, Structural, Clone, Copy)]
pub enum Stage {
    QueryExpansion,
    Retrieval,
    Synthesis,
    QuestionGeneration,
}

/// Why a request was rejected before any backend call.
#[derive(Debug, PartialEq, Eq, Structural, Clone, Copy)]
pub enum InputFault {
    EmptySkillName,
    EmptyResponses,
}

/// An error of the roadmap engine.
#[derive(Debug)]
pub enum EngineError {
    /// The request was malformed; nothing was attempted.
    Input(InputFault),
    /// A backend call failed or returned malformed content; the carried
    /// text says what went wrong.
    Upstream(Stage, String),
    /// Fresh identifier assignment drew the same identifier twice.
    IdCollision,
    /// Password hashing failed.
    HashingFailed,
    /// A stored password hash could not be checked against.
    StoredHashInvalid,
    /// The presented credentials do not match the stored ones.
    InvalidCredentials,
    /// The requested record does not exist.
    NotFound,
}

/// The stage prefix used when wrapping an upstream failure.
pub open spec fn stage_prefix_spec(s: Stage) -> Seq<char> {
    match s {
        Stage::QueryExpansion => "query expansion failed: "@,
        Stage::Retrieval => "retrieval failed: "@,
        Stage::Synthesis => "synthesis failed: "@,
        Stage::QuestionGeneration => "question generation failed: "@,
    }
}

/// The text of an error, for callers that report it.
pub open spec fn message_spec(e: &EngineError) -> Seq<char> {
    match e {
        EngineError::Input(InputFault::EmptySkillName) => "skill name must not be empty"@,
        EngineError::Input(InputFault::EmptyResponses) => "quiz responses must not be empty"@,
        EngineError::Upstream(s, detail) => stage_prefix_spec(*s) + detail@,
        EngineError::IdCollision => "identifier assignment drew a duplicate"@,
        EngineError::HashingFailed => "password hashing failed"@,
        EngineError::StoredHashInvalid => "stored password hash is invalid"@,
        EngineError::InvalidCredentials => "invalid credentials"@,
        EngineError::NotFound => "not found"@,
    }
}

impl EngineError {
    /// Renders the error as text, with the stage context in front of an
    /// upstream failure.
    pub fn message(&self) -> (r: String)
        ensures
            r@ == message_spec(self),
    {
        match self {
            EngineError::Input(InputFault::EmptySkillName) => String::from_str(
                "skill name must not be empty",
            ),
            EngineError::Input(InputFault::EmptyResponses) => String::from_str(
                "quiz responses must not be empty",
            ),
            EngineError::Upstream(s, detail) => {
                let mut m = match s {
                    Stage::QueryExpansion => String::from_str("query expansion failed: "),
                    Stage::Retrieval => String::from_str("retrieval failed: "),
                    Stage::Synthesis => String::from_str("synthesis failed: "),
                    Stage::QuestionGeneration => String::from_str("question generation failed: "),
                };
                m.append(detail.as_str());
                m
            },
            EngineError::IdCollision => String::from_str("identifier assignment drew a duplicate"),
            EngineError::HashingFailed => String::from_str("password hashing failed"),
            EngineError::StoredHashInvalid => String::from_str("stored password hash is invalid"),
            EngineError::InvalidCredentials => String::from_str("invalid credentials"),
            EngineError::NotFound => String::from_str("not found"),
        }
    }
}

} // verus!
