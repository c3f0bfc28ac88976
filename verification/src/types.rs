//! Shared vocabulary of the research system.

use vstd::prelude::*;

verus! {

/// Kind of document content.
#[derive(Debug, Clone, Copy, PartialEq, Eq, Structural)]
pub enum ContentType {
    WebPage,
    AcademicPaper,
    NewsArticle,
    BlogPost,
    Documentation,
    SocialMedia,
    ForumPost,
    PDF,
    Unknown,
}

/// Kind of research finding.
#[derive(Debug, Clone, Copy, PartialEq, Eq, Structural)]
pub enum FindingCategory {
    Fact,
    Claim,
    Opinion,
    Statistic,
    Quote,
    Definition,
    Relationship,
    Event,
    Contradiction,
}

/// Kind of extracted entity.
#[derive(Debug, Clone, Copy, PartialEq, Eq, Structural)]
pub enum EntityType {
    Person,
    Company,
    Organization,
    Location,
    Product,
    Technology,
    Event,
    Date,
    Money,
    Concept,
}

/// A section of a research report; `citations` index into the report's sources.
#[derive(Debug)]
pub struct ReportSection {
    pub title: String,
    pub content: String,
    pub citations: Vec<usize>,
    pub subsections: Vec<ReportSection>,
}

/// How deep a research task goes.
#[derive(Debug, Clone, Copy, PartialEq, Eq, Structural)]
pub enum ResearchDepth {
    /// 1-2 sources, about 30 seconds.
    Quick,
    /// 5-10 sources, about 2 minutes.
    Standard,
    /// 20-50 sources, about 10 minutes.
    Deep,
    /// 100+ sources, 30 minutes or more.
    Exhaustive,
}

/// Who wrote a message in a conversation with an LLM.
#[derive(Debug, Clone, Copy, PartialEq, Eq, Structural)]
pub enum Role {
    System,
    User,
    Assistant,
    Tool,
}

/// What a research query is about; decides the pipeline it goes to.
#[derive(Debug, Clone, Copy, PartialEq, Eq, Structural)]
pub enum TaskCategory {
    CompanyResearch,
    PersonResearch,
    TechnologyAnalysis,
    AcademicLiterature,
    MarketAnalysis,
    CompetitiveIntelligence,
    ReverseEngineering,
    GeneralKnowledge,
    CurrentEvents,
    FactChecking,
}

/// Type of research task.
#[derive(Debug, Clone, Copy, PartialEq, Eq, Structural)]
pub enum TaskType {
    General,
    CompanyProfile,
    PersonProfile,
    CompetitiveAnalysis,
    LiteratureReview,
    ReverseEngineering,
    FactCheck,
    TrendAnalysis,
}

/// Status of a task.
#[derive(Debug, Clone)]
pub enum TaskStatus {
    Pending,
    Planning,
    Running,
    Synthesizing,
    Completed,
    Failed(String),
    Cancelled,
}

/// Memory tier.
#[derive(Debug, Clone, Copy, PartialEq, Eq, Structural)]
pub enum MemoryType {
    /// Current conversation or task context.
    ShortTerm,
    /// Intermediate findings during research.
    Working,
    /// Knowledge kept across sessions.
    LongTerm,
    /// Past research sessions and their outcomes.
    Episodic,
}

/// Counts of the memory tiers.
#[derive(Debug, Clone, Copy, PartialEq, Eq, Structural)]
pub struct MemoryStats {
    pub short_term_count: usize,
    pub short_term_capacity: usize,
    pub working_count: usize,
    pub long_term_count: usize,
}

/// An artifact produced by a tool (a downloaded file, extracted content, ...).
#[derive(Debug, Clone)]
pub struct ToolArtifact {
    pub name: String,
    pub content_type: String,
    pub data: String,
}

/// Kind of tool.
#[derive(Debug, Clone, Copy, PartialEq, Eq, Structural)]
pub enum ToolCategory {
    Search,
    WebAccess,
    Analysis,
    Knowledge,
    Utility,
}

/// Coordinates a reason-act-observe loop for a single agent; it carries no state.
pub struct ReactLoop {}

} // verus!
