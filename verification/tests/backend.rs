use skillforge::error::{EngineError, InputFault, Stage};
use skillforge::expand::{parse_expanded_queries, validate_request};
use skillforge::model::{QuestionResponse, QuestionType, UserPreferences, User};
use skillforge::model::apply_profile_update;
use skillforge::session::{
    change_password, check_password, create_session, generate_session_token,
    get_session_token, hash_password, session_expires_at, session_is_valid,
    set_session_cookie, MILLIS_PER_DAY, SESSION_DURATION_DAYS,
};
use skillforge::synth::{
    build_roadmap, clean_json_response, parse_questions, parse_roadmap_nodes,
    question_type_of, synthesize_nodes,
};
use skillforge::text::{str_eq, str_lt, trim};

fn response(q: &str, a: &str) -> QuestionResponse {
    QuestionResponse { question_id: q.to_string(), answer: vec![a.to_string()] }
}

#[test]
fn blank_skill_name_is_rejected_before_any_call() {
    let r = validate_request("   ", &vec![response("q1", "yes")]);
    assert!(matches!(r, Err(EngineError::Input(InputFault::EmptySkillName))));
}

#[test]
fn empty_quiz_is_rejected_before_any_call() {
    let r = validate_request("Rust", &Vec::new());
    assert!(matches!(r, Err(EngineError::Input(InputFault::EmptyResponses))));
}

#[test]
fn well_formed_request_passes_validation() {
    assert!(validate_request("Rust", &vec![response("q1", "video")]).is_ok());
}

#[test]
fn fenced_json_is_cleaned_to_its_payload() {
    assert_eq!(clean_json_response("```json\n[\"a\"]\n```"), "[\"a\"]");
    assert_eq!(clean_json_response("  {\"x\":1}  "), "{\"x\":1}");
    assert_eq!(clean_json_response("```\n[]\n```"), "[]");
    assert_eq!(clean_json_response("``````"), "");
}

#[test]
fn expansion_output_parses_into_queries() {
    let text = "```json\n[\"Rust for beginners\", \"Rust ownership deep dive\"]\n```";
    let queries = parse_expanded_queries(text).expect("well-formed array");
    assert_eq!(
        queries,
        vec!["Rust for beginners".to_string(), "Rust ownership deep dive".to_string()]
    );
}

#[test]
fn malformed_expansion_output_is_a_hard_failure() {
    let err = parse_expanded_queries("not json at all").unwrap_err();
    match &err {
        EngineError::Upstream(stage, _) => assert_eq!(*stage, Stage::QueryExpansion),
        other => panic!("unexpected error {:?}", other),
    }
    let text = err.message();
    assert!(text.starts_with("query expansion failed: "));
}

#[test]
fn numbers_in_the_array_fail_the_expansion_parse() {
    assert!(parse_expanded_queries("[\"ok\", 3]").is_err());
}

const ROADMAP_JSON: &str = r#"{
  "nodes": [
    {
      "skill_name": "Algebra",
      "description": "Linear maps",
      "resources": [
        {"title": "Course A", "platform": "web", "url": null, "resource_type": "video"}
      ],
      "prerequisites": [],
      "prev_node_id": null,
      "next_node_id": "Binary",
      "is_completed": true
    },
    {
      "skill_name": "Binary",
      "description": "Bits",
      "prerequisites": ["Algebra", "Linear Algebra"],
      "prev_node_id": "Algebra",
      "next_node_id": null
    }
  ]
}"#;

#[test]
fn roadmap_nodes_parse_strictly_from_the_schema() {
    let nodes = parse_roadmap_nodes(ROADMAP_JSON).expect("valid schema");
    assert_eq!(nodes.len(), 2);
    assert_eq!(nodes[0].skill_name, "Algebra");
    assert_eq!(nodes[0].resources.len(), 1);
    assert_eq!(nodes[0].resources[0].title, "Course A");
    assert_eq!(nodes[0].resources[0].url, None);
    // completion starts false no matter what the backend claims
    assert!(!nodes[0].is_completed);
    // absent resources default to empty
    assert_eq!(nodes[1].resources.len(), 0);
    assert_eq!(nodes[1].prerequisites.len(), 2);
}

#[test]
fn missing_required_field_fails_synthesis() {
    let err = parse_roadmap_nodes("{\"nodes\": [{\"description\": \"x\", \"prev_node_id\": null, \"next_node_id\": null}]}")
        .unwrap_err();
    let text = err.message();
    assert!(text.starts_with("synthesis failed: missing required field: skill_name"));
}

#[test]
fn wrong_field_type_fails_synthesis() {
    assert!(parse_roadmap_nodes("{\"nodes\": {}}").is_err());
    assert!(parse_roadmap_nodes("{\"nodes\": [{\"skill_name\": 7, \"description\": \"x\", \"prev_node_id\": null, \"next_node_id\": null}]}").is_err());
    assert!(parse_roadmap_nodes("{\"nodes\": [{\"skill_name\": \"a\", \"description\": \"x\", \"prev_node_id\": 1, \"next_node_id\": null}]}").is_err());
}

#[test]
fn non_json_text_fails_synthesis() {
    let err = parse_roadmap_nodes("```json\nnope\n```").unwrap_err();
    let text = err.message();
    assert!(text.starts_with("synthesis failed: response is not valid JSON: "));
}

#[test]
fn synthesis_assigns_ids_and_resolves_references() {
    let nodes = synthesize_nodes(ROADMAP_JSON).expect("valid roadmap");
    assert_eq!(nodes.len(), 2);
    let id_a = nodes[0].id.clone();
    let id_b = nodes[1].id.clone();
    assert_eq!(id_a.len(), 36);
    assert_ne!(id_a, id_b);
    assert_eq!(nodes[0].next_node_id.as_deref(), Some(id_b.as_str()));
    assert_eq!(nodes[1].prev_node_id.as_deref(), Some(id_a.as_str()));
    // the resolvable name became an id, the dangling one kept its text
    assert_eq!(nodes[1].prerequisites[0], id_a);
    assert_eq!(nodes[1].prerequisites[1], "Linear Algebra");
    assert!(!nodes[0].is_completed && !nodes[1].is_completed);
}

#[test]
fn synthesized_nodes_build_a_well_formed_roadmap() {
    let nodes = synthesize_nodes(ROADMAP_JSON).expect("valid roadmap");
    let roadmap = build_roadmap("users:u1".to_string(), "Math".to_string(), nodes, 777);
    assert_eq!(roadmap.id, None);
    assert_eq!(roadmap.user_id, "users:u1");
    assert_eq!(roadmap.skill_name, "Math");
    assert_eq!(roadmap.created_at, 777);
    assert_eq!(roadmap.updated_at, 777);
    assert_eq!(roadmap.nodes.len(), 2);
}

#[test]
fn questions_parse_with_tolerant_defaults() {
    let text = r#"{
      "questions": [
        {"question_text": "Style?", "question_type": "MCQ", "options": ["a", "b", 3, "c"]},
        {"question_type": "Riddle"},
        {"question_text": "True?", "question_type": "TrueFalse", "options": ["True", "False"]}
      ]
    }"#;
    let qs = parse_questions(text).expect("valid questions");
    assert_eq!(qs.len(), 3);
    assert_eq!(qs[0].question_text, "Style?");
    assert!(matches!(qs[0].question_type, QuestionType::MCQ));
    // the non-string option was skipped
    assert_eq!(qs[0].options, vec!["a".to_string(), "b".to_string(), "c".to_string()]);
    assert_eq!(qs[1].question_text, "");
    assert!(matches!(qs[1].question_type, QuestionType::OneWord));
    assert!(matches!(qs[2].question_type, QuestionType::TrueFalse));
    assert_eq!(qs[0].id.len(), 36);
    assert_ne!(qs[0].id, qs[1].id);
}

#[test]
fn question_responses_without_questions_array_fail() {
    let err = parse_questions("{\"items\": []}").unwrap_err();
    let text = err.message();
    assert!(text.starts_with("question generation failed: "));
}

#[test]
fn question_type_tags_decode_with_a_fallback() {
    assert!(matches!(question_type_of("MCQ"), QuestionType::MCQ));
    assert!(matches!(question_type_of("MSQ"), QuestionType::MSQ));
    assert!(matches!(question_type_of("TrueFalse"), QuestionType::TrueFalse));
    assert!(matches!(question_type_of("anything"), QuestionType::OneWord));
}

#[test]
fn session_tokens_are_43_characters_and_vary() {
    let a = generate_session_token();
    let b = generate_session_token();
    assert_eq!(a.len(), 43);
    assert_eq!(b.len(), 43);
    assert_ne!(a, b);
}

#[test]
fn session_expiry_adds_the_duration() {
    assert_eq!(session_expires_at(1000, 1), 1000 + MILLIS_PER_DAY);
    assert_eq!(session_expires_at(i64::MAX - 5, 1), i64::MAX);
    assert!(session_is_valid(2000, 1000));
    assert!(!session_is_valid(999, 1000));
}

#[test]
fn created_sessions_expire_after_the_configured_days() {
    let s = create_session("users:u1".to_string());
    assert_eq!(s.user_id, "users:u1");
    assert_eq!(s.session_token.len(), 43);
    assert_eq!(s.expires_at - s.created_at, SESSION_DURATION_DAYS * MILLIS_PER_DAY);
}

#[test]
fn passwords_round_trip_through_hash_and_check() {
    let hash = hash_password("hunter2").expect("hashing");
    assert!(hash.starts_with("$2"));
    assert_eq!(check_password("hunter2", &hash).expect("well-formed hash"), true);
    assert_eq!(check_password("wrong", &hash).expect("well-formed hash"), false);
}

#[test]
fn an_unusable_stored_hash_is_an_error_not_a_mismatch() {
    let r = check_password("hunter2", "not-a-bcrypt-hash");
    assert!(matches!(r, Err(EngineError::StoredHashInvalid)));
}

#[test]
fn change_password_demands_the_old_password() {
    let hash = hash_password("old-secret").expect("hashing");
    let wrong = change_password(&hash, "bad-guess", "new-secret");
    assert!(matches!(wrong, Err(EngineError::InvalidCredentials)));
    let new_hash = change_password(&hash, "old-secret", "new-secret").expect("change");
    assert_eq!(check_password("new-secret", &new_hash).unwrap(), true);
    assert_eq!(check_password("old-secret", &new_hash).unwrap(), false);
}

#[test]
fn profile_updates_replace_only_the_given_fields() {
    let mut user = User {
        id: Some("users:u1".to_string()),
        username: "ada".to_string(),
        password_hash: "h".to_string(),
        name: "Ada".to_string(),
        skills_learned: vec!["Logic".to_string()],
        preferences: UserPreferences {
            learning_style: "visual".to_string(),
            time_commitment: "low".to_string(),
            preferred_content_types: vec!["video".to_string()],
            difficulty_preference: "easy".to_string(),
        },
        created_at: 5,
    };
    apply_profile_update(
        &mut user,
        Some("Ada L.".to_string()),
        None,
        None,
    );
    assert_eq!(user.name, "Ada L.");
    assert_eq!(user.skills_learned, vec!["Logic".to_string()]);
    assert_eq!(user.preferences.learning_style, "visual");
    assert_eq!(user.username, "ada");
}

#[test]
fn the_session_cookie_is_found_among_others() {
    assert_eq!(
        get_session_token("theme=dark; skillforge_session=tok123; lang=en"),
        Some("tok123".to_string())
    );
    assert_eq!(get_session_token("skillforge_session=abc"), Some("abc".to_string()));
    assert_eq!(get_session_token("skillforge_sessionx=abc; other=1"), None);
    assert_eq!(get_session_token(""), None);
}

#[test]
fn the_session_cookie_string_carries_all_attributes() {
    let cookie = set_session_cookie("tok123", "Tue, 01 Jan 2030 00:00:00 GMT");
    assert_eq!(
        cookie,
        "skillforge_session=tok123; expires=Tue, 01 Jan 2030 00:00:00 GMT; path=/; SameSite=Lax"
    );
}

#[test]
fn error_messages_carry_their_stage_context() {
    let e = EngineError::Upstream(Stage::Retrieval, "store unreachable".to_string());
    let text = e.message();
    assert_eq!(text, "retrieval failed: store unreachable");
    let nf = EngineError::NotFound.message();
    assert_eq!(nf, "not found");
}

#[test]
fn text_utilities_behave_like_their_specifications() {
    assert_eq!(trim("  abc \n"), "abc");
    assert!(str_lt("Algebra", "Binary"));
    assert!(!str_lt("Binary", "Algebra"));
    assert!(!str_lt("same", "same"));
    assert!(str_eq("same", "same"));
    assert!(!str_eq("same", "Same"));
}
