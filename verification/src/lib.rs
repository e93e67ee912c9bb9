//! Scores code diffs and explains the score.
//!
//! A diff is read into changed files (`patch`), each file gets a score with reasons (`signals`,
//! `normalize`, `oracle`, `scoring`), plugins add findings (`plugins`), and the scores of the files
//! make up the score of the diff (`aggregate`, `analyze`, `requests`).

pub mod aggregate;
pub mod analyze;
pub mod binary64;
pub mod config;
pub mod context;
pub mod digits;
pub mod gitattributes;
pub mod history;
pub mod laws;
pub mod normalize;
pub mod oracle;
pub mod order;
pub mod patch;
pub mod plugins;
pub mod report;
pub mod requests;
pub mod scoring;
pub mod signals;
pub mod text;

pub use crate::binary64::Binary64;
pub use crate::config::{AggregationConfig, DecisionThresholds, RuleConfig, ScoreConfig};
pub use crate::context::{
    AnalysisContext, AnalyzeInput, AnalyzeRequest, AnalyzerPlugin, ChangedFile, FileHistory,
    InputKind, PluginAnalysis, PluginFinding, PluginScoreMode,
};
pub use crate::gitattributes::GitAttributes;
pub use crate::plugins::builtin::resolve_builtin_plugins;
pub use crate::report::{
    AnalyzeError, Confidence, Decision, FeatureVector, FileScore, Reason, ReasonKind, ScoreReport,
};
pub use crate::requests::{
    analyze_patch, analyze_patch_with_config, analyze_request, analyze_request_with_config,
    FileEvidence, RepositoryEvidence,
};
