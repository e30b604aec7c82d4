//! Core data types of the wiki: edges, page types, pages, sections, sources, audit events.
use vstd::prelude::*;
pub use crate::status::{Confidence, PageStatus, Priority};

verus! {

// ─── Edge Types ─────────────────────────────────────────────

/// Typed relation between two pages.
#[derive(Clone, Debug, PartialEq, Eq, Hash)]
pub enum EdgeType {
    Extends,
    Implements,
    ExampleOf,
    PartOf,
    RelatesTo,
    Supports,
    Contradicts,
    Supersedes,
    DependsOn,
    RequiredBy,
    Questions,
    Answers,
    References,
    SimilarTo,
    Causes,
    Mitigates,
    Custom(String),
}

/// Ranking weight of an edge type (higher = stronger relation).
pub open spec fn edge_priority(e: EdgeType) -> u8 {
    match e {
        EdgeType::Extends => 10,
        EdgeType::Implements => 9,
        EdgeType::PartOf => 8,
        EdgeType::Supports => 7,
        EdgeType::ExampleOf => 6,
        EdgeType::DependsOn | EdgeType::RequiredBy => 5,
        EdgeType::Mitigates | EdgeType::Causes => 4,
        EdgeType::Contradicts | EdgeType::Questions => 3,
        EdgeType::Answers => 2,
        EdgeType::References | EdgeType::SimilarTo => 1,
        EdgeType::RelatesTo | EdgeType::Custom(_) => 0,
        EdgeType::Supersedes => 8,
    }
}

impl EdgeType {
    /// Ranking weight of this edge type.
    pub fn priority(&self) -> (res: u8)
        ensures
            res == edge_priority(*self),
    {
        match self {
            EdgeType::Extends => 10,
            EdgeType::Implements => 9,
            EdgeType::PartOf => 8,
            EdgeType::Supports => 7,
            EdgeType::ExampleOf => 6,
            EdgeType::DependsOn | EdgeType::RequiredBy => 5,
            EdgeType::Mitigates | EdgeType::Causes => 4,
            EdgeType::Contradicts | EdgeType::Questions => 3,
            EdgeType::Answers => 2,
            EdgeType::References | EdgeType::SimilarTo => 1,
            EdgeType::RelatesTo | EdgeType::Custom(_) => 0,
            EdgeType::Supersedes => 8,
        }
    }
}

/// Edge priorities lie between 0 and 10, and custom edges rank lowest.
pub proof fn lemma_edge_priority_bounds(e: EdgeType)
    ensures
        edge_priority(e) <= 10,
        e is Custom ==> edge_priority(e) == 0,
        edge_priority(e) == 10 <==> e is Extends,
{
}

// ─── Page Types ─────────────────────────────────────────────

/// Kind of a wiki page.
#[derive(Clone, Copy, Debug, PartialEq, Eq, Structural)]
pub enum PageType {
    Task,
    Spec,
    Concept,
    Pattern,
    Decision,
    Howto,
    Reference,
}

/// Sorting rank of a page type (higher = more important).
pub open spec fn page_type_rank(t: PageType) -> u8 {
    match t {
        PageType::Task => 7,
        PageType::Spec => 6,
        PageType::Pattern => 5,
        PageType::Concept => 4,
        PageType::Decision => 3,
        PageType::Howto => 2,
        PageType::Reference => 1,
    }
}

impl PageType {
    /// Priority rank for sorting (higher = more important)
    pub fn priority_rank(&self) -> (res: u8)
        ensures
            res == page_type_rank(*self),
    {
        match self {
            PageType::Task => 7,
            PageType::Spec => 6,
            PageType::Pattern => 5,
            PageType::Concept => 4,
            PageType::Decision => 3,
            PageType::Howto => 2,
            PageType::Reference => 1,
        }
    }
}

/// Distinct page types have distinct ranks, all between 1 and 7.
pub proof fn lemma_page_type_rank_injective(a: PageType, b: PageType)
    ensures
        1 <= page_type_rank(a) <= 7,
        page_type_rank(a) == page_type_rank(b) ==> a == b,
{
}

// ─── Memory Entry ───────────────────────────────────────────

/// A stored memory note.
#[derive(Clone, Debug)]
pub struct MemoryEntry {
    pub id: String,
    pub title: String,
    pub content: String,
    pub tags: Vec<String>,
    pub created_at: String,
    pub updated_at: String,
}

// ─── Spec-specific fields ───────────────────────────────────

#[derive(Clone, Debug)]
pub struct FunctionalRequirement {
    pub id: String,
    pub description: String,
}

#[derive(Clone, Debug)]
pub struct NonFunctionalRequirement {
    pub id: String,
    pub description: String,
}

#[derive(Clone, Debug)]
pub struct GeneralGoal {
    pub description: String,
}

// ─── Decision-specific fields ───────────────────────────────

#[derive(Clone, Debug)]
pub struct DecisionEntry {
    pub context: String,
    pub options: Vec<String>,
    pub rationale: String,
    pub outcome: String,
}

// ─── Pattern-specific fields ────────────────────────────────

#[derive(Clone, Debug)]
pub struct PatternInfo {
    pub when_to_use: String,
    pub example: String,
}

// ─── Acceptance Criterion ───────────────────────────────────

#[derive(Clone, Debug)]
pub struct AcceptanceCriterion {
    pub text: String,
    pub checked: bool,
}

// ─── Wiki Page Metadata ─────────────────────────────────────

/// Metadata of one wiki page, as held in the page graph.
#[derive(Clone, Debug)]
pub struct WikiPageMeta {
    pub id: String,
    pub title: String,
    pub page_type: PageType,
    pub tags: Vec<String>,
    pub status: PageStatus,
    pub priority: Option<Priority>,
    pub confidence: Option<Confidence>,
    pub assignee: Option<String>,
    pub aliases: Vec<String>,
    pub superseded_by: Option<String>,
    pub version: Option<String>,
    pub sources: Vec<String>,
    pub acceptance_criteria: Vec<AcceptanceCriterion>,
    pub estimate: Option<u32>,
    pub functional_requirements: Vec<FunctionalRequirement>,
    pub non_functional_requirements: Vec<NonFunctionalRequirement>,
    pub general_goals: Vec<GeneralGoal>,
    pub stakeholders: Vec<String>,
    pub decision: Option<DecisionEntry>,
    pub pattern: Option<PatternInfo>,
    pub prerequisites: Vec<String>,
    pub difficulty: Option<String>,
    pub source_url: Option<String>,
    pub relates_to: Vec<String>,
    pub path: String,
    pub created_at: String,
    pub updated_at: String,
}

// ─── Wiki Page Content ──────────────────────────────────────

/// Raw text of a page and its sections.
#[derive(Clone, Debug)]
pub struct WikiPageContent {
    pub raw: String,
    pub sections: Vec<SectionDoc>,
}

/// One `##` section of a page.
#[derive(Clone, Debug)]
pub struct SectionDoc {
    pub section_id: String,
    pub page_id: String,
    pub header: String,
    pub body: String,
}

// ─── Source Entry ───────────────────────────────────────────

/// Processing state of an ingested source document.
#[derive(Clone, Copy, Debug, PartialEq, Eq, Structural)]
pub enum SourceState {
    Pending,
    Processing,
    Done,
    Error,
    Stale,
}

/// An ingested source document.
#[derive(Clone, Debug)]
pub struct SourceEntry {
    pub id: String,
    pub original_path: Option<String>,
    pub stored_path: String,
    pub content_hash: String,
    pub state: SourceState,
    pub added_at: String,
    pub last_processed_at: Option<String>,
    pub page_refs: Vec<String>,
    pub page_count: usize,
    pub error_message: Option<String>,
    pub retry_count: usize,
}

// ─── Audit Event ────────────────────────────────────────────

/// One entry of the audit log.
#[derive(Clone, Debug)]
pub struct AuditEvent {
    pub timestamp: String,
    pub tool_name: String,
    pub action: String,
    pub duration_ms: i64,
    pub result: String,
    pub error_message: Option<String>,
    pub entity_refs: Vec<String>,
}

// ─── Staleness ──────────────────────────────────────────────

/// Whether the indexes are stale after looking at the wiki directory: they
/// stay stale once stale, and become stale when the directory was modified
/// after the time recorded at the last rebuild (both times known).
pub open spec fn stale_after(stale: bool, current: Option<u128>, recorded: Option<u128>) -> bool {
    stale || (current matches Some(c) && recorded matches Some(p) && c > p)
}

/// Whether the indexes are stale after looking at the wiki directory's
/// modification time (`current`) against the one recorded at the last
/// rebuild.
pub fn check_staleness(stale: bool, current: Option<u128>, recorded: Option<u128>) -> (r: bool)
    ensures
        r == stale_after(stale, current, recorded),
{
    if stale {
        return true;
    }
    match (current, recorded) {
        (Some(c), Some(p)) => c > p,
        _ => false,
    }
}

} // verus!
