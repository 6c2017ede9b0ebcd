//! Data model of the engine: roadmaps, nodes, resources, user inputs,
//! and their mathematical views.
//!
//! Every executable type has a ghost view (`View` / `DeepView`) over
//! `Seq<char>` and plain values; contracts elsewhere in the crate are
//! stated over these views. Timestamps are milliseconds since the Unix
//! epoch, held as `i64`.

use vstd::prelude::*;

verus! {

/// Ghost view of a learning resource.
pub struct ResourceV {
    pub title: Seq<char>,
    pub platform: Seq<char>,
    pub url: Option<Seq<char>>,
    pub resource_type: Seq<char>,
}

/// One course/video recommendation attached to a roadmap node.
#[derive(Debug)]
pub struct LearningResource {
    pub title: String,
    pub platform: String,
    pub url: Option<String>,
    pub resource_type: String,
}

impl View for LearningResource {
    type V = ResourceV;

    open spec fn view(&self) -> ResourceV {
        ResourceV {
            title: self.title@,
            platform: self.platform@,
            url: self.url.deep_view(),
            resource_type: self.resource_type@,
        }
    }
}

impl DeepView for LearningResource {
    type V = ResourceV;

    open spec fn deep_view(&self) -> ResourceV {
        self.view()
    }
}

impl Clone for LearningResource {
    fn clone(&self) -> (res: Self)
        ensures
            res@ == self@,
    {
        LearningResource {
            title: self.title.clone(),
            platform: self.platform.clone(),
            url: clone_opt_string(&self.url),
            resource_type: self.resource_type.clone(),
        }
    }
}

/// Ghost view of a roadmap node.
pub struct NodeV {
    pub id: Seq<char>,
    pub skill_name: Seq<char>,
    pub description: Seq<char>,
    pub resources: Seq<ResourceV>,
    pub prerequisites: Seq<Seq<char>>,
    pub is_completed: bool,
    pub prev_node_id: Option<Seq<char>>,
    pub next_node_id: Option<Seq<char>>,
}

/// One skill/topic unit within a roadmap.
///
/// `prerequisites`, `prev_node_id` and `next_node_id` hold either the id
/// of another node in the same roadmap or, when resolution found no node
/// of the referenced name, the raw referenced name unchanged.
#[derive(Debug)]
pub struct RoadmapNode {
    pub id: String,
    pub skill_name: String,
    pub description: String,
    pub resources: Vec<LearningResource>,
    pub prerequisites: Vec<String>,
    pub is_completed: bool,
    pub prev_node_id: Option<String>,
    pub next_node_id: Option<String>,
}

impl View for RoadmapNode {
    type V = NodeV;

    open spec fn view(&self) -> NodeV {
        NodeV {
            id: self.id@,
            skill_name: self.skill_name@,
            description: self.description@,
            resources: self.resources.deep_view(),
            prerequisites: self.prerequisites.deep_view(),
            is_completed: self.is_completed,
            prev_node_id: self.prev_node_id.deep_view(),
            next_node_id: self.next_node_id.deep_view(),
        }
    }
}

impl DeepView for RoadmapNode {
    type V = NodeV;

    open spec fn deep_view(&self) -> NodeV {
        self.view()
    }
}

impl Clone for RoadmapNode {
    fn clone(&self) -> (res: Self)
        ensures
            res@ == self@,
    {
        let res = RoadmapNode {
            id: self.id.clone(),
            skill_name: self.skill_name.clone(),
            description: self.description.clone(),
            resources: clone_resources(&self.resources),
            prerequisites: clone_strings(&self.prerequisites),
            is_completed: self.is_completed,
            prev_node_id: clone_opt_string(&self.prev_node_id),
            next_node_id: clone_opt_string(&self.next_node_id),
        };
        proof {
            assert(res@.resources =~= self@.resources);
            assert(res@.prerequisites =~= self@.prerequisites);
        }
        res
    }
}

/// Ghost view of a roadmap.
pub struct RoadmapV {
    pub id: Option<Seq<char>>,
    pub user_id: Seq<char>,
    pub skill_name: Seq<char>,
    pub nodes: Seq<NodeV>,
    pub created_at: i64,
    pub updated_at: i64,
}

/// A generated, per-user learning plan: a mostly-linear graph of nodes
/// whose edges are id references embedded in the nodes themselves.
#[derive(Debug)]
pub struct Roadmap {
    pub id: Option<String>,
    pub user_id: String,
    pub skill_name: String,
    pub nodes: Vec<RoadmapNode>,
    pub created_at: i64,
    pub updated_at: i64,
}

impl View for Roadmap {
    type V = RoadmapV;

    open spec fn view(&self) -> RoadmapV {
        RoadmapV {
            id: self.id.deep_view(),
            user_id: self.user_id@,
            skill_name: self.skill_name@,
            nodes: self.nodes.deep_view(),
            created_at: self.created_at,
            updated_at: self.updated_at,
        }
    }
}

impl DeepView for Roadmap {
    type V = RoadmapV;

    open spec fn deep_view(&self) -> RoadmapV {
        self.view()
    }
}

/// Node ids within one roadmap are pairwise distinct.
///
/// The synthesizer assigns one fresh identifier per node, so this is an
/// invariant of every roadmap the engine creates.
pub open spec fn ids_distinct(nodes: Seq<NodeV>) -> bool {
    forall|i: int, j: int|
        0 <= i < j < nodes.len() ==> nodes[i].id != nodes[j].id
}

impl Roadmap {
    /// Well-formedness: the structural invariant of a stored roadmap.
    pub open spec fn wf(&self) -> bool {
        ids_distinct(self@.nodes)
    }
}

/// Learning preferences carried on a user profile.
#[derive(Debug)]
pub struct UserPreferences {
    pub learning_style: String,
    pub time_commitment: String,
    pub preferred_content_types: Vec<String>,
    pub difficulty_preference: String,
}

impl Default for UserPreferences {
    fn default() -> (res: Self)
        ensures
            res.learning_style@ == Seq::<char>::empty(),
            res.time_commitment@ == Seq::<char>::empty(),
            res.preferred_content_types.deep_view() == Seq::<Seq<char>>::empty(),
            res.difficulty_preference@ == Seq::<char>::empty(),
    {
        let res = UserPreferences {
            learning_style: String::new(),
            time_commitment: String::new(),
            preferred_content_types: Vec::new(),
            difficulty_preference: String::new(),
        };
        proof {
            assert(res.preferred_content_types.deep_view() =~= Seq::<Seq<char>>::empty());
        }
        res
    }
}

/// A user account with profile data. Read-only to the engine except
/// through the explicit profile-update and password-change operations.
#[derive(Debug)]
pub struct User {
    pub id: Option<String>,
    pub username: String,
    pub password_hash: String,
    pub name: String,
    pub skills_learned: Vec<String>,
    pub preferences: UserPreferences,
    pub created_at: i64,
}

/// Applies a partial profile update: each given field replaces the
/// stored one, absent fields and everything else stay untouched.
pub fn apply_profile_update(
    user: &mut User,
    name: Option<String>,
    skills_learned: Option<Vec<String>>,
    preferences: Option<UserPreferences>,
)
    ensures
        final(user).name == (match name {
            Some(n) => n,
            None => old(user).name,
        }),
        final(user).skills_learned == (match skills_learned {
            Some(s) => s,
            None => old(user).skills_learned,
        }),
        final(user).preferences == (match preferences {
            Some(p) => p,
            None => old(user).preferences,
        }),
        final(user).id == old(user).id,
        final(user).username == old(user).username,
        final(user).password_hash == old(user).password_hash,
        final(user).created_at == old(user).created_at,
{
    match name {
        Some(n) => {
            user.name = n;
        },
        None => {},
    }
    match skills_learned {
        Some(s) => {
            user.skills_learned = s;
        },
        None => {},
    }
    match preferences {
        Some(p) => {
            user.preferences = p;
        },
        None => {},
    }
}

/// The identity facts a session resolves to.
#[derive(Debug)]
pub struct SessionInfo {
    pub user_id: String,
    pub username: String,
    pub name: String,
}

/// A stored login session: an opaque token bound to a user, valid
/// until its expiry timestamp.
#[derive(Debug)]
pub struct Session {
    pub id: Option<String>,
    pub user_id: String,
    pub session_token: String,
    pub created_at: i64,
    pub expires_at: i64,
}

/// Position hint for rendering a node.
#[derive(Debug)]
pub struct NodePosition {
    pub x: i32,
    pub y: i32,
}

/// Ghost view of a corpus record.
pub struct CourseV {
    pub title: Seq<char>,
    pub description: Seq<char>,
    pub channel_name: Seq<char>,
    pub published_date: Seq<char>,
    pub skill_path: Seq<char>,
    pub level: Seq<char>,
    pub ctype: Seq<char>,
    pub content: Seq<char>,
    pub topic: Seq<char>,
    pub prerequisite_topics: Seq<Seq<char>>,
}

/// A corpus record stripped of its embedding vector.
#[derive(Debug)]
pub struct CoursesDataClean {
    pub title: String,
    pub description: String,
    pub channel_name: String,
    pub published_date: String,
    pub skill_path: String,
    pub level: String,
    pub ctype: String,
    pub content: String,
    pub topic: String,
    pub prerequisite_topics: Vec<String>,
}

impl View for CoursesDataClean {
    type V = CourseV;

    open spec fn view(&self) -> CourseV {
        CourseV {
            title: self.title@,
            description: self.description@,
            channel_name: self.channel_name@,
            published_date: self.published_date@,
            skill_path: self.skill_path@,
            level: self.level@,
            ctype: self.ctype@,
            content: self.content@,
            topic: self.topic@,
            prerequisite_topics: self.prerequisite_topics.deep_view(),
        }
    }
}

impl DeepView for CoursesDataClean {
    type V = CourseV;

    open spec fn deep_view(&self) -> CourseV {
        self.view()
    }
}

impl Clone for CoursesDataClean {
    fn clone(&self) -> (res: Self)
        ensures
            res@ == self@,
    {
        CoursesDataClean {
            title: self.title.clone(),
            description: self.description.clone(),
            channel_name: self.channel_name.clone(),
            published_date: self.published_date.clone(),
            skill_path: self.skill_path.clone(),
            level: self.level.clone(),
            ctype: self.ctype.clone(),
            content: self.content.clone(),
            topic: self.topic.clone(),
            prerequisite_topics: clone_strings(&self.prerequisite_topics),
        }
    }
}

/// Ghost view of a retrieval candidate.
pub struct CandidateV {
    pub id: Seq<char>,
    pub data: CourseV,
}

/// A corpus record surfaced by similarity search, keyed by its corpus
/// record id. Identity for deduplication is the id alone.
#[derive(Debug)]
pub struct CandidateResource {
    pub id: String,
    pub data: CoursesDataClean,
}

impl View for CandidateResource {
    type V = CandidateV;

    open spec fn view(&self) -> CandidateV {
        CandidateV { id: self.id@, data: self.data@ }
    }
}

impl DeepView for CandidateResource {
    type V = CandidateV;

    open spec fn deep_view(&self) -> CandidateV {
        self.view()
    }
}

impl Clone for CandidateResource {
    fn clone(&self) -> (res: Self)
        ensures
            res@ == self@,
    {
        CandidateResource { id: self.id.clone(), data: self.data.clone() }
    }
}

/// The kind of quiz question presented to the user.
#[derive(Debug, PartialEq, Eq, Structural, Clone, Copy)]
pub enum QuestionType {
    MCQ,
    MSQ,
    TrueFalse,
    OneWord,
}

/// Ghost view of a quiz question.
pub struct QuestionV {
    pub id: Seq<char>,
    pub question_text: Seq<char>,
    pub question_type: QuestionType,
    pub options: Seq<Seq<char>>,
}

/// A generated quiz question.
#[derive(Debug)]
pub struct Question {
    pub id: String,
    pub question_text: String,
    pub question_type: QuestionType,
    pub options: Vec<String>,
}

impl View for Question {
    type V = QuestionV;

    open spec fn view(&self) -> QuestionV {
        QuestionV {
            id: self.id@,
            question_text: self.question_text@,
            question_type: self.question_type,
            options: self.options.deep_view(),
        }
    }
}

impl DeepView for Question {
    type V = QuestionV;

    open spec fn deep_view(&self) -> QuestionV {
        self.view()
    }
}

/// The user's answer(s) to one quiz question.
#[derive(Debug)]
pub struct QuestionResponse {
    pub question_id: String,
    pub answer: Vec<String>,
}

/// A request to generate a roadmap.
#[derive(Debug)]
pub struct RoadmapRequest {
    pub skill_name: String,
    pub user_responses: Vec<QuestionResponse>,
}

/// Clones an optional string, preserving its view.
pub fn clone_opt_string(o: &Option<String>) -> (res: Option<String>)
    ensures
        res.deep_view() == o.deep_view(),
{
    match o {
        Some(s) => Some(s.clone()),
        None => None,
    }
}

/// Clones a vector of strings, preserving its view.
pub fn clone_strings(v: &Vec<String>) -> (res: Vec<String>)
    ensures
        res.deep_view() == v.deep_view(),
{
    let mut res: Vec<String> = Vec::new();
    let mut i: usize = 0;
    while i < v.len()
        invariant
            i <= v.len(),
            res.deep_view() =~= v.deep_view().take(i as int),
        decreases v.len() - i,
    {
        let ghost pre = res.deep_view();
        res.push(v[i].clone());
        proof {
            assert(res.deep_view() =~= pre.push(v.deep_view()[i as int]));
        }
        i = i + 1;
    }
    proof {
        assert(res.deep_view() =~= v.deep_view());
    }
    res
}

/// Clones a vector of roadmap nodes, preserving its view.
pub fn clone_nodes(v: &Vec<RoadmapNode>) -> (res: Vec<RoadmapNode>)
    ensures
        res.deep_view() == v.deep_view(),
{
    let mut res: Vec<RoadmapNode> = Vec::new();
    let mut i: usize = 0;
    while i < v.len()
        invariant
            i <= v.len(),
            res.deep_view() =~= v.deep_view().take(i as int),
        decreases v.len() - i,
    {
        let ghost pre = res.deep_view();
        res.push(v[i].clone());
        proof {
            assert(res.deep_view() =~= pre.push(v.deep_view()[i as int]));
        }
        i = i + 1;
    }
    proof {
        assert(res.deep_view() =~= v.deep_view());
    }
    res
}

/// Clones a vector of learning resources, preserving its view.
pub fn clone_resources(v: &Vec<LearningResource>) -> (res: Vec<LearningResource>)
    ensures
        res.deep_view() == v.deep_view(),
{
    let mut res: Vec<LearningResource> = Vec::new();
    let mut i: usize = 0;
    while i < v.len()
        invariant
            i <= v.len(),
            res.deep_view() =~= v.deep_view().take(i as int),
        decreases v.len() - i,
    {
        let ghost pre = res.deep_view();
        res.push(v[i].clone());
        proof {
            assert(res.deep_view() =~= pre.push(v.deep_view()[i as int]));
        }
        i = i + 1;
    }
    proof {
        assert(res.deep_view() =~= v.deep_view());
    }
    res
}

} // verus!
