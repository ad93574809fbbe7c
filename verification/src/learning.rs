//! Vocabulary of cross-project learning.

use vstd::prelude::*;
use crate::predicate::{debug_quoted, debug_string};
use crate::text::{concat_text, lowercase, lowercase_contains, text_contains};

verus! {

/// Predicts deviations from a trained model.
pub struct DeviationClassifier {
    pub model_path: String,
}

impl DeviationClassifier {
    /// A classifier for the model at `model_path`.
    pub fn new(model_path: String) -> (c: DeviationClassifier)
        ensures
            c.model_path == model_path,
    {
        DeviationClassifier { model_path }
    }
}

/// Knowledge-base statistics.
pub struct KnowledgeBaseStats {
    pub total_patterns: usize,
}

/// A file of a project; `last_modified` is milliseconds since the Unix epoch.
pub struct FileSnapshot {
    pub path: String,
    pub size: u64,
    pub language: String,
    pub last_modified: i64,
}

/// How alignment moved over a project.
#[derive(Debug, Clone, Copy, PartialEq, Eq, Structural)]
pub enum AlignmentTrend {
    Increasing,
    Decreasing,
    Stable,
    Volatile,
}

/// Severity of a deviation.
#[derive(Debug, Clone, Copy, PartialEq, Eq, Structural)]
pub enum DeviationSeverity {
    Low,
    Medium,
    High,
    Critical,
}

/// Kind of goal.
#[derive(Debug, Clone, Copy, PartialEq, Eq, Structural)]
pub enum GoalType {
    FeatureImplementation,
    BugFix,
    Refactoring,
    Testing,
    Documentation,
    PerformanceOptimization,
    Security,
    Infrastructure,
    Database,
    Authentication,
    Payment,
    Api,
    Ui,
}

/// Facts about a project; times are milliseconds since the Unix epoch.
pub struct ProjectMetadata {
    pub language: String,
    pub framework: Option<String>,
    pub total_lines_of_code: usize,
    pub total_actions: usize,
    pub total_deviations: usize,
    pub started_at: i64,
    pub completed_at: i64,
}

/// The kind of a goal, read from its description once lowercased: the first
/// keyword found decides, in this order of checks.
pub open spec fn goal_type_of(d: Seq<char>) -> GoalType {
    if text_contains(d, "bug"@) || text_contains(d, "fix"@) {
        GoalType::BugFix
    } else if text_contains(d, "test"@) {
        GoalType::Testing
    } else if text_contains(d, "refactor"@) {
        GoalType::Refactoring
    } else if text_contains(d, "auth"@) {
        GoalType::Authentication
    } else if text_contains(d, "api"@) {
        GoalType::Api
    } else if text_contains(d, "database"@) || text_contains(d, "db"@) {
        GoalType::Database
    } else if text_contains(d, "performance"@) || text_contains(d, "optimize"@) {
        GoalType::PerformanceOptimization
    } else if text_contains(d, "security"@) {
        GoalType::Security
    } else if text_contains(d, "payment"@) || text_contains(d, "billing"@) {
        GoalType::Payment
    } else if text_contains(d, "ui"@) || text_contains(d, "interface"@) {
        GoalType::Ui
    } else if text_contains(d, "infrastructure"@) || text_contains(d, "deploy"@) {
        GoalType::Infrastructure
    } else if text_contains(d, "document"@) {
        GoalType::Documentation
    } else {
        GoalType::FeatureImplementation
    }
}

/// Classify a goal by the keywords of its description.
pub fn classify_goal(description: &String) -> (t: GoalType)
    ensures
        t == goal_type_of(lowercase(description@)),
{
    if lowercase_contains(description, "bug") || lowercase_contains(description, "fix") {
        GoalType::BugFix
    } else if lowercase_contains(description, "test") {
        GoalType::Testing
    } else if lowercase_contains(description, "refactor") {
        GoalType::Refactoring
    } else if lowercase_contains(description, "auth") {
        GoalType::Authentication
    } else if lowercase_contains(description, "api") {
        GoalType::Api
    } else if lowercase_contains(description, "database") || lowercase_contains(description, "db") {
        GoalType::Database
    } else if lowercase_contains(description, "performance") || lowercase_contains(description, "optimize") {
        GoalType::PerformanceOptimization
    } else if lowercase_contains(description, "security") {
        GoalType::Security
    } else if lowercase_contains(description, "payment") || lowercase_contains(description, "billing") {
        GoalType::Payment
    } else if lowercase_contains(description, "ui") || lowercase_contains(description, "interface") {
        GoalType::Ui
    } else if lowercase_contains(description, "infrastructure") || lowercase_contains(description, "deploy") {
        GoalType::Infrastructure
    } else if lowercase_contains(description, "document") {
        GoalType::Documentation
    } else {
        GoalType::FeatureImplementation
    }
}

/// The kind of a recorded action, as pattern mining sees it: files are told
/// apart by language, read from the extension of their path.
#[derive(Debug, Clone, PartialEq, Eq)]
pub enum ActionType {
    CreateFile { language: String },
    EditFile { language: String },
    DeleteFile,
    RunTests,
    RunCommand,
    CreateDirectory,
    Dependency,
    Custom { name: String },
    UpdateGoal,
    Query,
    ApplyPattern,
}

/// What `Path::extension` gives for a path: the part of its file name after
/// the last `.`, or none (no file name, no `.` in it, or only a leading one).
pub uninterp spec fn path_extension(path: Seq<char>) -> Option<Seq<char>>;

/// The extension of a path (`Path::extension`, read as text); the result is
/// a function of the path alone.
#[verifier::external_body]
fn extension_of(path: &String) -> (r: Option<String>)
    ensures
        match r {
            Some(e) => path_extension(path@) == Some(e@),
            None => path_extension(path@) is None,
        },
{
    std::path::Path::new(path).extension().map(|e| e.to_string_lossy().into_owned())
}

/// The language of a file: the extension of its path, or `unknown`.
pub open spec fn language_of(path: Seq<char>) -> Seq<char> {
    match path_extension(path) {
        Some(e) => e,
        None => "unknown"@,
    }
}

/// `r` is how pattern mining records the action kind `a`.
pub open spec fn mined_kind(r: ActionType, a: crate::action::ActionType) -> bool {
    match a {
        crate::action::ActionType::EditFile { path, .. } => r matches ActionType::EditFile { language }
            && language@ == language_of(path@),
        crate::action::ActionType::CreateFile { path, .. } => r matches ActionType::CreateFile { language }
            && language@ == language_of(path@),
        crate::action::ActionType::DeleteFile { .. } => r is DeleteFile,
        crate::action::ActionType::RunCommand { .. } => r is RunCommand,
        crate::action::ActionType::RunTests { .. } => r is RunTests,
        crate::action::ActionType::UpdateGoal { .. } => r is UpdateGoal,
        crate::action::ActionType::Custom { name, .. } => r matches ActionType::Custom { name: custom }
            && custom == name,
    }
}

/// The language of the file at a path.
fn language(path: &String) -> (r: String)
    ensures
        r@ == language_of(path@),
{
    match extension_of(path) {
        Some(e) => e,
        None => "unknown".to_owned(),
    }
}

impl ActionType {
    /// How pattern mining records an action of this kind (see `mined_kind`).
    pub fn from_action(a: crate::action::ActionType) -> (r: ActionType)
        ensures
            mined_kind(r, a),
    {
        match a {
            crate::action::ActionType::EditFile { path, .. } => ActionType::EditFile { language: language(&path) },
            crate::action::ActionType::CreateFile { path, .. } => ActionType::CreateFile { language: language(&path) },
            crate::action::ActionType::DeleteFile { .. } => ActionType::DeleteFile,
            crate::action::ActionType::RunCommand { .. } => ActionType::RunCommand,
            crate::action::ActionType::RunTests { .. } => ActionType::RunTests,
            crate::action::ActionType::UpdateGoal { .. } => ActionType::UpdateGoal,
            crate::action::ActionType::Custom { name, .. } => ActionType::Custom { name },
        }
    }
}

/// The goal types a project's root goal is filed under: `Api` when its
/// description mentions an API, else `FeatureImplementation`.
pub fn classify_goal_types(description: &String) -> (r: Vec<GoalType>)
    ensures
        r@ == (if text_contains(lowercase(description@), "api"@) {
            seq![GoalType::Api]
        } else {
            seq![GoalType::FeatureImplementation]
        }),
{
    let mut types: Vec<GoalType> = Vec::new();
    if lowercase_contains(description, "api") {
        types.push(GoalType::Api);
    } else {
        types.push(GoalType::FeatureImplementation);
    }
    types
}

/// A pattern of success learned from completed projects. Rates hold the
/// bits of fractions; `learned_at` is milliseconds since the Unix epoch.
pub struct SuccessPattern {
    pub id: u128,
    pub name: String,
    pub description: String,
    pub action_sequence: Vec<ActionType>,
    pub applicable_to_goal_types: Vec<GoalType>,
    pub success_rate: u64,
    /// Number of projects
    pub support: usize,
    pub preconditions: Vec<String>,
    pub expected_outcomes: Vec<String>,
    pub confidence: u64,
    pub learned_at: i64,
}

/// The name of a goal type, as `{:?}` writes it.
pub open spec fn goal_type_name(t: GoalType) -> Seq<char> {
    match t {
        GoalType::FeatureImplementation => "FeatureImplementation"@,
        GoalType::BugFix => "BugFix"@,
        GoalType::Refactoring => "Refactoring"@,
        GoalType::Testing => "Testing"@,
        GoalType::Documentation => "Documentation"@,
        GoalType::PerformanceOptimization => "PerformanceOptimization"@,
        GoalType::Security => "Security"@,
        GoalType::Infrastructure => "Infrastructure"@,
        GoalType::Database => "Database"@,
        GoalType::Authentication => "Authentication"@,
        GoalType::Payment => "Payment"@,
        GoalType::Api => "Api"@,
        GoalType::Ui => "Ui"@,
    }
}

/// The name of a goal type.
pub fn goal_type_text(t: GoalType) -> (r: String)
    ensures
        r@ == goal_type_name(t),
{
    match t {
        GoalType::FeatureImplementation => "FeatureImplementation".to_owned(),
        GoalType::BugFix => "BugFix".to_owned(),
        GoalType::Refactoring => "Refactoring".to_owned(),
        GoalType::Testing => "Testing".to_owned(),
        GoalType::Documentation => "Documentation".to_owned(),
        GoalType::PerformanceOptimization => "PerformanceOptimization".to_owned(),
        GoalType::Security => "Security".to_owned(),
        GoalType::Infrastructure => "Infrastructure".to_owned(),
        GoalType::Database => "Database".to_owned(),
        GoalType::Authentication => "Authentication".to_owned(),
        GoalType::Payment => "Payment".to_owned(),
        GoalType::Api => "Api".to_owned(),
        GoalType::Ui => "Ui".to_owned(),
    }
}

/// An action kind written out as `{:?}` writes it: the variant, then its
/// field in braces with the text quoted.
pub open spec fn action_text(a: ActionType) -> Seq<char> {
    match a {
        ActionType::CreateFile { language } => "CreateFile { language: "@ + debug_quoted(language@) + " }"@,
        ActionType::EditFile { language } => "EditFile { language: "@ + debug_quoted(language@) + " }"@,
        ActionType::DeleteFile => "DeleteFile"@,
        ActionType::RunTests => "RunTests"@,
        ActionType::RunCommand => "RunCommand"@,
        ActionType::CreateDirectory => "CreateDirectory"@,
        ActionType::Dependency => "Dependency"@,
        ActionType::Custom { name } => "Custom { name: "@ + debug_quoted(name@) + " }"@,
        ActionType::UpdateGoal => "UpdateGoal"@,
        ActionType::Query => "Query"@,
        ActionType::ApplyPattern => "ApplyPattern"@,
    }
}

/// `prefix`, the quoted text, then ` }`.
fn with_quoted_field(prefix: &str, text: &String) -> (r: String)
    ensures
        r@ == prefix@ + debug_quoted(text@) + " }"@,
{
    let a = concat_text(prefix, &debug_string(text));
    concat_text(a.as_str(), &" }".to_owned())
}

impl ActionType {
    /// The action kind written out (see `action_text`).
    pub fn to_text(&self) -> (r: String)
        ensures
            r@ == action_text(*self),
    {
        match self {
            ActionType::CreateFile { language } => with_quoted_field("CreateFile { language: ", language),
            ActionType::EditFile { language } => with_quoted_field("EditFile { language: ", language),
            ActionType::DeleteFile => "DeleteFile".to_owned(),
            ActionType::RunTests => "RunTests".to_owned(),
            ActionType::RunCommand => "RunCommand".to_owned(),
            ActionType::CreateDirectory => "CreateDirectory".to_owned(),
            ActionType::Dependency => "Dependency".to_owned(),
            ActionType::Custom { name } => with_quoted_field("Custom { name: ", name),
            ActionType::UpdateGoal => "UpdateGoal".to_owned(),
            ActionType::Query => "Query".to_owned(),
            ActionType::ApplyPattern => "ApplyPattern".to_owned(),
        }
    }
}

} // verus!
