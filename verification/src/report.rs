//! What an analysis hands back: the report, its reasons and its errors.

use vstd::prelude::*;

use crate::text;

verus! {

/// Why an analysis gave no report.
#[derive(Debug)]
pub enum AnalyzeError {
    EmptyPatch,
    InvalidPatch,
    InvalidConfig(String),
    Io(String),
    Git(String),
    Utf8(String),
    Command(String),
}

/// An `AnalyzeError` with its texts as sequences.
pub enum ErrorModel {
    EmptyPatch,
    InvalidPatch,
    InvalidConfig(Seq<char>),
    Io(Seq<char>),
    Git(Seq<char>),
    Utf8(Seq<char>),
    Command(Seq<char>),
}

impl View for AnalyzeError {
    type V = ErrorModel;

    open spec fn view(&self) -> ErrorModel {
        match self {
            AnalyzeError::EmptyPatch => ErrorModel::EmptyPatch,
            AnalyzeError::InvalidPatch => ErrorModel::InvalidPatch,
            AnalyzeError::InvalidConfig(error) => ErrorModel::InvalidConfig(error@),
            AnalyzeError::Io(error) => ErrorModel::Io(error@),
            AnalyzeError::Git(error) => ErrorModel::Git(error@),
            AnalyzeError::Utf8(error) => ErrorModel::Utf8(error@),
            AnalyzeError::Command(error) => ErrorModel::Command(error@),
        }
    }
}

impl ErrorModel {
    /// What a user is told of the error.
    pub open spec fn shown(self) -> Seq<char> {
        match self {
            ErrorModel::EmptyPatch => "patch is empty"@,
            ErrorModel::InvalidPatch => "patch does not contain any changed files"@,
            ErrorModel::InvalidConfig(error) => "invalid config: "@ + error,
            ErrorModel::Io(error) => "io error: "@ + error,
            ErrorModel::Git(error) => "git error: "@ + error,
            ErrorModel::Utf8(error) => "utf8 error: "@ + error,
            ErrorModel::Command(error) => "command failed: "@ + error,
        }
    }
}

impl AnalyzeError {
    /// What a user is told of the error.
    pub fn message(&self) -> (r: String)
        ensures
            r@ == self@.shown(),
    {
        match self {
            AnalyzeError::EmptyPatch => "patch is empty".to_string(),
            AnalyzeError::InvalidPatch => "patch does not contain any changed files".to_string(),
            AnalyzeError::InvalidConfig(error) => {
                "invalid config: ".to_string().concat(error.as_str())
            },
            AnalyzeError::Io(error) => "io error: ".to_string().concat(error.as_str()),
            AnalyzeError::Git(error) => "git error: ".to_string().concat(error.as_str()),
            AnalyzeError::Utf8(error) => "utf8 error: ".to_string().concat(error.as_str()),
            AnalyzeError::Command(error) => "command failed: ".to_string().concat(error.as_str()),
        }
    }
}

/// What the score recommends.
#[derive(Clone, Copy, Debug, PartialEq, Eq, Structural)]
pub enum Decision {
    SkipReview,
    ReviewOptional,
    ReviewSuggested,
    ReviewRecommended,
    ReviewRequired,
}

impl Decision {
    pub open spec fn name(self) -> Seq<char> {
        match self {
            Decision::SkipReview => "skip_review"@,
            Decision::ReviewOptional => "review_optional"@,
            Decision::ReviewSuggested => "review_suggested"@,
            Decision::ReviewRecommended => "review_recommended"@,
            Decision::ReviewRequired => "review_required"@,
        }
    }

    /// How much review the decision asks for, from 0 to 4.
    pub open spec fn rank(self) -> int {
        match self {
            Decision::SkipReview => 0,
            Decision::ReviewOptional => 1,
            Decision::ReviewSuggested => 2,
            Decision::ReviewRecommended => 3,
            Decision::ReviewRequired => 4,
        }
    }

    pub fn as_str(&self) -> (r: &'static str)
        ensures
            r@ == self.name(),
    {
        match self {
            Decision::SkipReview => "skip_review",
            Decision::ReviewOptional => "review_optional",
            Decision::ReviewSuggested => "review_suggested",
            Decision::ReviewRecommended => "review_recommended",
            Decision::ReviewRequired => "review_required",
        }
    }
}

/// How far the analysis can be relied on.
#[derive(Clone, Copy, Debug, PartialEq, Eq, Structural)]
pub enum Confidence {
    Low,
    Medium,
    High,
}

impl Confidence {
    pub open spec fn name(self) -> Seq<char> {
        match self {
            Confidence::Low => "low"@,
            Confidence::Medium => "medium"@,
            Confidence::High => "high"@,
        }
    }

    pub open spec fn rank(self) -> int {
        match self {
            Confidence::Low => 0,
            Confidence::Medium => 1,
            Confidence::High => 2,
        }
    }

    pub fn as_str(&self) -> (r: &'static str)
        ensures
            r@ == self.name(),
    {
        match self {
            Confidence::Low => "low",
            Confidence::Medium => "medium",
            Confidence::High => "high",
        }
    }
}

/// The rule behind a reason.
#[derive(Clone, Copy, Debug, PartialEq, Eq, Structural)]
pub enum ReasonKind {
    CommentOnly,
    ImportOnly,
    ChangeSize,
    RepoHotspot,
    RefactorLikeChange,
    PublicInterfaceChange,
    ControlFlowChange,
    TestExpectationChange,
    GenericCodeChange,
    PluginSignal,
    GoExportedApiChange,
    GoInterfaceBreak,
    GoConcurrencyChange,
    GoErrorHandlingChange,
    GoReceiverChange,
    GoTestOracleChange,
    GoRuntimeBehaviorChange,
    GoResourceLifecycleChange,
    GoAnalysisFallback,
    TypeScriptExportedApiChange,
    TypeScriptInterfaceBreak,
    TypeScriptAsyncChange,
    TypeScriptErrorHandlingChange,
    TypeScriptMemberKindChange,
    TypeScriptTestOracleChange,
    TypeScriptRuntimeBehaviorChange,
    TypeScriptResourceLifecycleChange,
    TypeScriptAnalysisFallback,
}

impl ReasonKind {
    /// A reason of this kind. The message is converted by its own `into`.
    pub fn as_reason<M: Into<String>>(&self, file: String, weight: u32, message: M) -> (r: Reason)
        ensures
            r.kind == *self,
            r.file == file,
            r.weight == weight,
            call_ensures(<M as Into<String>>::into, (message,), r.message),
    {
        Reason { kind: *self, file, weight, message: message.into() }
    }
}

/// One rule hit that explains the score.
#[derive(Clone, Debug, PartialEq, Eq)]
pub struct Reason {
    pub kind: ReasonKind,
    pub file: String,
    pub weight: u32,
    pub message: String,
}

/// A `Reason` with its texts as sequences.
#[verifier::ext_equal]
pub struct ReasonModel {
    pub kind: ReasonKind,
    pub file: Seq<char>,
    pub weight: u32,
    pub message: Seq<char>,
}

impl View for Reason {
    type V = ReasonModel;

    open spec fn view(&self) -> ReasonModel {
        ReasonModel {
            kind: self.kind,
            file: self.file@,
            weight: self.weight,
            message: self.message@,
        }
    }
}

/// The score of one file and what it is made of.
#[derive(Clone, Debug)]
pub struct FileScore {
    pub path: String,
    pub score: u32,
    pub language: String,
    pub base_score: u32,
    pub size_modifier: u32,
    pub hotspot_modifier: u32,
    pub plugin_contribution: u32,
}

/// A `FileScore` with its texts as sequences.
#[verifier::ext_equal]
pub struct FileScoreModel {
    pub path: Seq<char>,
    pub score: u32,
    pub language: Seq<char>,
    pub base_score: u32,
    pub size_modifier: u32,
    pub hotspot_modifier: u32,
    pub plugin_contribution: u32,
}

impl View for FileScore {
    type V = FileScoreModel;

    open spec fn view(&self) -> FileScoreModel {
        FileScoreModel {
            path: self.path@,
            score: self.score,
            language: self.language@,
            base_score: self.base_score,
            size_modifier: self.size_modifier,
            hotspot_modifier: self.hotspot_modifier,
            plugin_contribution: self.plugin_contribution,
        }
    }
}

/// How many rule hits of each class an analysis counted.
#[derive(Clone, Copy, Debug, Default, PartialEq, Eq, Structural)]
pub struct FeatureVector {
    pub files_changed: usize,
    pub public_signature_changes: usize,
    pub control_flow_changes: usize,
    pub assertion_changes: usize,
    pub size_signals: usize,
    pub hotspot_signals: usize,
    pub plugin_signals: usize,
}

/// The outcome of an analysis.
#[derive(Clone, Debug)]
pub struct ScoreReport {
    pub schema_version: String,
    pub scoring_model_version: String,
    pub score: u32,
    pub decision: Decision,
    pub confidence: Confidence,
    pub secondary_contribution: u32,
    pub reasons: Vec<Reason>,
    pub by_file: Vec<FileScore>,
    pub feature_vector: FeatureVector,
}

/// A `FeatureVector` with its counters as numbers.
pub struct FeatureModel {
    pub files_changed: nat,
    pub public_signature_changes: nat,
    pub control_flow_changes: nat,
    pub assertion_changes: nat,
    pub size_signals: nat,
    pub hotspot_signals: nat,
    pub plugin_signals: nat,
}

impl View for FeatureVector {
    type V = FeatureModel;

    open spec fn view(&self) -> FeatureModel {
        FeatureModel {
            files_changed: self.files_changed as nat,
            public_signature_changes: self.public_signature_changes as nat,
            control_flow_changes: self.control_flow_changes as nat,
            assertion_changes: self.assertion_changes as nat,
            size_signals: self.size_signals as nat,
            hotspot_signals: self.hotspot_signals as nat,
            plugin_signals: self.plugin_signals as nat,
        }
    }
}

/// A `ScoreReport` with its texts and lists as sequences.
#[verifier::ext_equal]
pub struct ReportModel {
    pub schema_version: Seq<char>,
    pub scoring_model_version: Seq<char>,
    pub score: u32,
    pub decision: Decision,
    pub confidence: Confidence,
    pub secondary_contribution: u32,
    pub reasons: Seq<ReasonModel>,
    pub by_file: Seq<FileScoreModel>,
    pub feature_vector: FeatureModel,
}

impl View for ScoreReport {
    type V = ReportModel;

    open spec fn view(&self) -> ReportModel {
        ReportModel {
            schema_version: self.schema_version@,
            scoring_model_version: self.scoring_model_version@,
            score: self.score,
            decision: self.decision,
            confidence: self.confidence,
            secondary_contribution: self.secondary_contribution,
            reasons: text::views(self.reasons@),
            by_file: text::views(self.by_file@),
            feature_vector: self.feature_vector@,
        }
    }
}

/// The names of decisions and of confidences.
pub proof fn law_names()
    ensures
        Decision::SkipReview.name() == "skip_review"@,
        Decision::ReviewOptional.name() == "review_optional"@,
        Decision::ReviewSuggested.name() == "review_suggested"@,
        Decision::ReviewRecommended.name() == "review_recommended"@,
        Decision::ReviewRequired.name() == "review_required"@,
        Confidence::Low.name() == "low"@,
        Confidence::Medium.name() == "medium"@,
        Confidence::High.name() == "high"@,
        Confidence::Low.rank() < Confidence::Medium.rank() < Confidence::High.rank(),
        Decision::SkipReview.rank() < Decision::ReviewOptional.rank()
            < Decision::ReviewSuggested.rank() < Decision::ReviewRecommended.rank()
            < Decision::ReviewRequired.rank(),
{
}

/// How errors are shown.
pub proof fn law_errors_are_shown(error: Seq<char>)
    ensures
        ErrorModel::EmptyPatch.shown() == "patch is empty"@,
        ErrorModel::InvalidPatch.shown() == "patch does not contain any changed files"@,
        ErrorModel::InvalidConfig(error).shown() == "invalid config: "@ + error,
        ErrorModel::Io(error).shown() == "io error: "@ + error,
        ErrorModel::Git(error).shown() == "git error: "@ + error,
        ErrorModel::Utf8(error).shown() == "utf8 error: "@ + error,
        ErrorModel::Command(error).shown() == "command failed: "@ + error,
{
}

} // verus!
