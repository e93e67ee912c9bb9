//! The scoring model: weights, thresholds and aggregation.

use vstd::prelude::*;

use crate::binary64::Binary64;
use crate::report::{Decision, ReasonKind};
use crate::text;

verus! {

/// The weight of one rule.
#[derive(Clone, Copy, Debug, PartialEq, Eq, Structural)]
pub struct RuleConfig {
    pub kind: ReasonKind,
    pub score: u32,
}

/// The greatest score of each decision but the last.
#[derive(Clone, Copy, Debug, PartialEq, Eq, Structural)]
pub struct DecisionThresholds {
    pub skip_review_max: u32,
    pub review_optional_max: u32,
    pub review_suggested_max: u32,
    pub review_recommended_max: u32,
}

/// How the scores of the files make up the score of the patch.
#[derive(Clone, Copy, Debug, PartialEq, Eq, Structural)]
pub struct AggregationConfig {
    pub max_score: u32,
    pub secondary_ratio: Binary64,
    pub secondary_cap: u32,
}

/// A scoring model.
#[derive(Clone, Debug)]
pub struct ScoreConfig {
    pub schema_version: u32,
    pub scoring_model_version: String,
    pub decision_thresholds: DecisionThresholds,
    pub aggregation: AggregationConfig,
    pub gitattributes_skip_attributes: Vec<String>,
    pub rules: Vec<RuleConfig>,
}

/// A `ScoreConfig` with its texts and lists as sequences.
#[verifier::ext_equal]
pub struct ConfigModel {
    pub schema_version: u32,
    pub scoring_model_version: Seq<char>,
    pub decision_thresholds: DecisionThresholds,
    pub aggregation: AggregationConfig,
    pub gitattributes_skip_attributes: Seq<Seq<char>>,
    pub rules: Seq<RuleConfig>,
}

impl View for ScoreConfig {
    type V = ConfigModel;

    open spec fn view(&self) -> ConfigModel {
        ConfigModel {
            schema_version: self.schema_version,
            scoring_model_version: self.scoring_model_version@,
            decision_thresholds: self.decision_thresholds,
            aggregation: self.aggregation,
            gitattributes_skip_attributes: text::views(self.gitattributes_skip_attributes@),
            rules: self.rules@,
        }
    }
}

impl ConfigModel {
    /// The weight of the first rule of the given kind; 0 where there is none.
    pub open spec fn weight(self, kind: ReasonKind) -> u32 {
        first_weight(self.rules, kind)
    }
}

/// The weight of the first rule of the given kind; 0 where there is none.
pub open spec fn first_weight(rules: Seq<RuleConfig>, kind: ReasonKind) -> u32
    decreases rules.len(),
{
    if rules.len() == 0 {
        0
    } else if rules[0].kind == kind {
        rules[0].score
    } else {
        first_weight(rules.skip(1), kind)
    }
}

/// The attribute names that keep a file out of the scoring by default.
pub open spec fn default_skip_attributes() -> Seq<Seq<char>> {
    seq!["linguist-generated"@]
}

/// The weight of each kind in the built-in model.
pub open spec fn default_weight(kind: ReasonKind) -> u32 {
    match kind {
        ReasonKind::CommentOnly => 0,
        ReasonKind::ImportOnly => 5,
        ReasonKind::ChangeSize => 25,
        ReasonKind::RepoHotspot => 15,
        ReasonKind::RefactorLikeChange => 10,
        ReasonKind::PublicInterfaceChange => 75,
        ReasonKind::ControlFlowChange => 65,
        ReasonKind::TestExpectationChange => 55,
        ReasonKind::GenericCodeChange => 20,
        ReasonKind::PluginSignal => 10,
        ReasonKind::GoExportedApiChange => 25,
        ReasonKind::GoInterfaceBreak => 30,
        ReasonKind::GoConcurrencyChange => 20,
        ReasonKind::GoErrorHandlingChange => 25,
        ReasonKind::GoReceiverChange => 25,
        ReasonKind::GoTestOracleChange => 30,
        ReasonKind::GoRuntimeBehaviorChange => 25,
        ReasonKind::GoResourceLifecycleChange => 25,
        ReasonKind::GoAnalysisFallback => 0,
        ReasonKind::TypeScriptExportedApiChange => 25,
        ReasonKind::TypeScriptInterfaceBreak => 30,
        ReasonKind::TypeScriptAsyncChange => 20,
        ReasonKind::TypeScriptErrorHandlingChange => 25,
        ReasonKind::TypeScriptMemberKindChange => 25,
        ReasonKind::TypeScriptTestOracleChange => 30,
        ReasonKind::TypeScriptRuntimeBehaviorChange => 25,
        ReasonKind::TypeScriptResourceLifecycleChange => 25,
        ReasonKind::TypeScriptAnalysisFallback => 0,
    }
}

/// The kinds in the order in which the built-in model lists them.
pub open spec fn kinds_in_order() -> Seq<ReasonKind> {
    seq![
        ReasonKind::CommentOnly,
        ReasonKind::ImportOnly,
        ReasonKind::ChangeSize,
        ReasonKind::RepoHotspot,
        ReasonKind::RefactorLikeChange,
        ReasonKind::PublicInterfaceChange,
        ReasonKind::ControlFlowChange,
        ReasonKind::TestExpectationChange,
        ReasonKind::GenericCodeChange,
        ReasonKind::PluginSignal,
        ReasonKind::GoExportedApiChange,
        ReasonKind::GoInterfaceBreak,
        ReasonKind::GoConcurrencyChange,
        ReasonKind::GoErrorHandlingChange,
        ReasonKind::GoReceiverChange,
        ReasonKind::GoTestOracleChange,
        ReasonKind::GoRuntimeBehaviorChange,
        ReasonKind::GoResourceLifecycleChange,
        ReasonKind::GoAnalysisFallback,
        ReasonKind::TypeScriptExportedApiChange,
        ReasonKind::TypeScriptInterfaceBreak,
        ReasonKind::TypeScriptAsyncChange,
        ReasonKind::TypeScriptErrorHandlingChange,
        ReasonKind::TypeScriptMemberKindChange,
        ReasonKind::TypeScriptTestOracleChange,
        ReasonKind::TypeScriptRuntimeBehaviorChange,
        ReasonKind::TypeScriptResourceLifecycleChange,
        ReasonKind::TypeScriptAnalysisFallback,
    ]
}

/// The built-in model.
pub open spec fn default_model() -> ConfigModel {
    ConfigModel {
        schema_version: 1,
        scoring_model_version: "v1"@,
        decision_thresholds: DecisionThresholds {
            skip_review_max: 24,
            review_optional_max: 29,
            review_suggested_max: 39,
            review_recommended_max: 59,
        },
        aggregation: AggregationConfig {
            max_score: 100,
            secondary_ratio: Binary64 { bits: 0x3fc999999999999a },
            secondary_cap: 12,
        },
        gitattributes_skip_attributes: default_skip_attributes(),
        rules: Seq::new(
            kinds_in_order().len(),
            |i: int| RuleConfig {
                kind: kinds_in_order()[i],
                score: default_weight(kinds_in_order()[i]),
            },
        ),
    }
}

proof fn lemma_first_weight(rules: Seq<RuleConfig>, kind: ReasonKind, n: int)
    requires
        0 <= n <= rules.len(),
        forall|j: int| 0 <= j < n ==> rules[j].kind != kind,
        n < rules.len() ==> rules[n].kind == kind,
    ensures
        first_weight(rules, kind) == (if n < rules.len() {
            rules[n].score
        } else {
            0
        }),
    decreases n,
{
    if n > 0 {
        lemma_first_weight(rules.skip(1), kind, n - 1);
    }
}

/// In the built-in model every kind has its own weight.
pub proof fn law_default_weights(kind: ReasonKind)
    ensures
        default_model().weight(kind) == default_weight(kind),
{
    let rules = default_model().rules;
    let n = match kind {
        ReasonKind::CommentOnly => 0int,
        ReasonKind::ImportOnly => 1,
        ReasonKind::ChangeSize => 2,
        ReasonKind::RepoHotspot => 3,
        ReasonKind::RefactorLikeChange => 4,
        ReasonKind::PublicInterfaceChange => 5,
        ReasonKind::ControlFlowChange => 6,
        ReasonKind::TestExpectationChange => 7,
        ReasonKind::GenericCodeChange => 8,
        ReasonKind::PluginSignal => 9,
        ReasonKind::GoExportedApiChange => 10,
        ReasonKind::GoInterfaceBreak => 11,
        ReasonKind::GoConcurrencyChange => 12,
        ReasonKind::GoErrorHandlingChange => 13,
        ReasonKind::GoReceiverChange => 14,
        ReasonKind::GoTestOracleChange => 15,
        ReasonKind::GoRuntimeBehaviorChange => 16,
        ReasonKind::GoResourceLifecycleChange => 17,
        ReasonKind::GoAnalysisFallback => 18,
        ReasonKind::TypeScriptExportedApiChange => 19,
        ReasonKind::TypeScriptInterfaceBreak => 20,
        ReasonKind::TypeScriptAsyncChange => 21,
        ReasonKind::TypeScriptErrorHandlingChange => 22,
        ReasonKind::TypeScriptMemberKindChange => 23,
        ReasonKind::TypeScriptTestOracleChange => 24,
        ReasonKind::TypeScriptRuntimeBehaviorChange => 25,
        ReasonKind::TypeScriptResourceLifecycleChange => 26,
        ReasonKind::TypeScriptAnalysisFallback => 27,
    };
    assert(rules[n].kind == kind);
    assert forall|j: int| 0 <= j < n implies rules[j].kind != kind by {
        assert(rules[j].kind == kinds_in_order()[j]);
    }
    lemma_first_weight(rules, kind, n);
}

/// The attribute names that keep a file out of the scoring by default.
pub fn default_gitattributes_skip_attributes() -> (r: Vec<String>)
    ensures
        text::views(r@) == default_skip_attributes(),
{
    let mut r: Vec<String> = Vec::new();
    r.push("linguist-generated".to_string());
    assert(text::views(r@) =~= default_skip_attributes());
    r
}

fn rule(kind: ReasonKind, score: u32) -> (r: RuleConfig)
    ensures
        r == (RuleConfig { kind, score }),
{
    RuleConfig { kind, score }
}

impl ScoreConfig {
    /// The built-in model.
    pub fn default_v1() -> (r: ScoreConfig)
        ensures
            r@ == default_model(),
    {
        let rules: Vec<RuleConfig> = vec![
            rule(ReasonKind::CommentOnly, 0),
            rule(ReasonKind::ImportOnly, 5),
            rule(ReasonKind::ChangeSize, 25),
            rule(ReasonKind::RepoHotspot, 15),
            rule(ReasonKind::RefactorLikeChange, 10),
            rule(ReasonKind::PublicInterfaceChange, 75),
            rule(ReasonKind::ControlFlowChange, 65),
            rule(ReasonKind::TestExpectationChange, 55),
            rule(ReasonKind::GenericCodeChange, 20),
            rule(ReasonKind::PluginSignal, 10),
            rule(ReasonKind::GoExportedApiChange, 25),
            rule(ReasonKind::GoInterfaceBreak, 30),
            rule(ReasonKind::GoConcurrencyChange, 20),
            rule(ReasonKind::GoErrorHandlingChange, 25),
            rule(ReasonKind::GoReceiverChange, 25),
            rule(ReasonKind::GoTestOracleChange, 30),
            rule(ReasonKind::GoRuntimeBehaviorChange, 25),
            rule(ReasonKind::GoResourceLifecycleChange, 25),
            rule(ReasonKind::GoAnalysisFallback, 0),
            rule(ReasonKind::TypeScriptExportedApiChange, 25),
            rule(ReasonKind::TypeScriptInterfaceBreak, 30),
            rule(ReasonKind::TypeScriptAsyncChange, 20),
            rule(ReasonKind::TypeScriptErrorHandlingChange, 25),
            rule(ReasonKind::TypeScriptMemberKindChange, 25),
            rule(ReasonKind::TypeScriptTestOracleChange, 30),
            rule(ReasonKind::TypeScriptRuntimeBehaviorChange, 25),
            rule(ReasonKind::TypeScriptResourceLifecycleChange, 25),
            rule(ReasonKind::TypeScriptAnalysisFallback, 0),
        ];
        let r = ScoreConfig {
            schema_version: 1,
            scoring_model_version: "v1".to_string(),
            decision_thresholds: DecisionThresholds {
                skip_review_max: 24,
                review_optional_max: 29,
                review_suggested_max: 39,
                review_recommended_max: 59,
            },
            aggregation: AggregationConfig {
                max_score: 100,
                secondary_ratio: Binary64 { bits: 0x3fc999999999999a },
                secondary_cap: 12,
            },
            gitattributes_skip_attributes: default_gitattributes_skip_attributes(),
            rules,
        };
        assert(r@.rules =~= default_model().rules);
        r
    }

    /// The weight of the first rule of the given kind; 0 where there is none.
    pub fn score_for(&self, kind: &ReasonKind) -> (r: u32)
        ensures
            r == self@.weight(*kind),
    {
        let mut i: usize = 0;
        while i < self.rules.len()
            invariant
                i <= self.rules@.len(),
                forall|j: int| 0 <= j < i ==> self.rules@[j].kind != *kind,
            decreases self.rules@.len() - i,
        {
            if self.rules[i].kind == *kind {
                proof {
                    lemma_first_weight(self.rules@, *kind, i as int);
                }
                return self.rules[i].score;
            }
            i = i + 1;
        }
        proof {
            lemma_first_weight(self.rules@, *kind, i as int);
        }
        0
    }
}

/// The decision of the first band whose upper end the score does not exceed.
pub open spec fn decided(score: u32, thresholds: DecisionThresholds) -> Decision {
    if score <= thresholds.skip_review_max {
        Decision::SkipReview
    } else if score <= thresholds.review_optional_max {
        Decision::ReviewOptional
    } else if score <= thresholds.review_suggested_max {
        Decision::ReviewSuggested
    } else if score <= thresholds.review_recommended_max {
        Decision::ReviewRecommended
    } else {
        Decision::ReviewRequired
    }
}

/// The decision for a score.
pub fn score_to_decision(score: u32, config: &DecisionThresholds) -> (r: Decision)
    ensures
        r == decided(score, *config),
{
    if score <= config.skip_review_max {
        return Decision::SkipReview;
    }
    if score <= config.review_optional_max {
        return Decision::ReviewOptional;
    }
    if score <= config.review_suggested_max {
        return Decision::ReviewSuggested;
    }
    if score <= config.review_recommended_max {
        return Decision::ReviewRecommended;
    }
    Decision::ReviewRequired
}

/// A greater score never asks for less review.
pub proof fn law_decision_is_monotonic(low: u32, high: u32, thresholds: DecisionThresholds)
    requires
        low <= high,
    ensures
        decided(low, thresholds).rank() <= decided(high, thresholds).rank(),
{
}

/// The bands of the built-in model: up to 24 no review, up to 29 an optional one, up to 39 a
/// suggested one, up to 59 a recommended one, and a required one from 60 on.
pub proof fn law_default_bands(score: u32)
    ensures
        decided(score, default_model().decision_thresholds) == (if score <= 24 {
            Decision::SkipReview
        } else if score <= 29 {
            Decision::ReviewOptional
        } else if score <= 39 {
            Decision::ReviewSuggested
        } else if score <= 59 {
            Decision::ReviewRecommended
        } else {
            Decision::ReviewRequired
        }),
{
}

} // verus!
