//! From changed files to a report.

use vstd::hash_map::StringHashMap;
use vstd::prelude::*;

use crate::aggregate;
use crate::config;
use crate::config::{ConfigModel, ScoreConfig};
use crate::context;
use crate::context::{
    AnalysisContext, AnalysisModel, ChangedFile, FileModel, FindingModel,
    PluginAnalysis, PluginFinding, PluginScoreMode,
};
use crate::digits;
use crate::report::{
    Confidence, FeatureModel, FeatureVector, FileScore, FileScoreModel, Reason, ReasonModel,
    ReportModel, ScoreReport,
};
use crate::scoring;
use crate::scoring::FileScoreState;
use crate::text;

verus! {

/// The scores by path, and the reasons for them.
#[verifier::ext_equal]
pub struct Book {
    pub scores: Map<Seq<char>, FileScoreState>,
    pub reasons: Seq<ReasonModel>,
}

/// The score of a file of which nothing is known.
pub open spec fn blank_state() -> FileScoreState {
    FileScoreState {
        base_score: 0,
        size_modifier: 0,
        hotspot_modifier: 0,
        plugin_contribution: 0,
        has_semantic_risk: false,
        score: 0,
    }
}

/// The scores and reasons of the files by themselves. Of two files with one path the later one
/// counts.
pub open spec fn file_book(files: Seq<FileModel>, config: ConfigModel) -> Book
    decreases files.len(),
{
    if files.len() == 0 {
        Book { scores: Map::empty(), reasons: Seq::empty() }
    } else {
        let before = file_book(files.drop_last(), config);
        Book {
            scores: before.scores.insert(
                files.last().path,
                scoring::file_state(files.last(), config),
            ),
            reasons: before.reasons + scoring::file_reasons(files.last(), config),
        }
    }
}

/// The counters that the files by themselves give.
pub open spec fn file_features(files: Seq<FileModel>, config: ConfigModel) -> FeatureModel
    decreases files.len(),
{
    if files.len() == 0 {
        FeatureModel {
            files_changed: 0,
            public_signature_changes: 0,
            control_flow_changes: 0,
            assertion_changes: 0,
            size_signals: 0,
            hotspot_signals: 0,
            plugin_signals: 0,
        }
    } else {
        let before = file_features(files.drop_last(), config);
        let after = scoring::with_file_features(before, files.last(), config);
        FeatureModel { files_changed: (after.files_changed + 1) as nat, ..after }
    }
}

/// The weight of a finding: its own, or that of its kind.
pub open spec fn finding_weight(finding: FindingModel, config: ConfigModel) -> u32 {
    match finding.weight_override {
        Some(weight) => weight,
        None => config.weight(finding.kind),
    }
}

/// The score of a file as the sum of its parts.
pub open spec fn recomputed(state: FileScoreState, max_score: u32) -> FileScoreState {
    FileScoreState {
        score: scoring::at_most(
            state.base_score + state.size_modifier + state.hotspot_modifier
                + state.plugin_contribution,
            max_score,
        ),
        ..state
    }
}

/// What a finding of the given weight makes of the score of its file: a base finding can raise the
/// base score, an additive one adds to what plugins contribute.
pub open spec fn raised(
    state: FileScoreState,
    mode: PluginScoreMode,
    weight: u32,
    max_score: u32,
) -> FileScoreState {
    recomputed(
        match mode {
            PluginScoreMode::Base => FileScoreState {
                base_score: if weight > state.base_score {
                    weight
                } else {
                    state.base_score
                },
                ..state
            },
            PluginScoreMode::Additive => FileScoreState {
                plugin_contribution: scoring::at_most(
                    state.plugin_contribution + weight,
                    u32::MAX,
                ),
                ..state
            },
        },
        max_score,
    )
}

/// The score that the book holds for a path.
pub open spec fn state_at(scores: Map<Seq<char>, FileScoreState>, path: Seq<char>) -> FileScoreState {
    if scores.dom().contains(path) {
        scores[path]
    } else {
        blank_state()
    }
}

/// The book behind a finding.
pub open spec fn with_finding(book: Book, finding: FindingModel, config: ConfigModel) -> Book {
    let weight = finding_weight(finding, config);
    Book {
        scores: book.scores.insert(
            finding.path,
            raised(
                state_at(book.scores, finding.path),
                finding.score_mode,
                weight,
                config.aggregation.max_score,
            ),
        ),
        reasons: book.reasons.push(
            ReasonModel {
                kind: finding.kind,
                file: finding.path,
                weight,
                message: finding.message,
            },
        ),
    }
}

/// The book behind all findings.
pub open spec fn with_findings(
    book: Book,
    findings: Seq<FindingModel>,
    config: ConfigModel,
) -> Book
    decreases findings.len(),
{
    if findings.len() == 0 {
        book
    } else {
        with_finding(with_findings(book, findings.drop_last(), config), findings.last(), config)
    }
}

/// The findings of all plugins, in their order.
pub open spec fn all_findings(analyses: Seq<AnalysisModel>) -> Seq<FindingModel>
    decreases analyses.len(),
{
    if analyses.len() == 0 {
        Seq::empty()
    } else {
        all_findings(analyses.drop_last()) + analyses.last().findings
    }
}

/// The lower one of two confidences.
pub open spec fn lower(a: Confidence, b: Confidence) -> Confidence {
    if a.rank() <= b.rank() {
        a
    } else {
        b
    }
}

/// The lowest confidence of the plugins; high where there are none.
pub open spec fn overall_confidence(analyses: Seq<AnalysisModel>) -> Confidence
    decreases analyses.len(),
{
    if analyses.len() == 0 {
        Confidence::High
    } else {
        lower(overall_confidence(analyses.drop_last()), analyses.last().confidence)
    }
}

/// The final scores of the files, in the order of the files.
pub open spec fn final_states(
    files: Seq<FileModel>,
    scores: Map<Seq<char>, FileScoreState>,
) -> Seq<FileScoreState> {
    Seq::new(files.len(), |i: int| state_at(scores, files[i].path))
}

/// The entry of a file in the report.
pub open spec fn file_entry(path: Seq<char>, state: FileScoreState) -> FileScoreModel {
    FileScoreModel {
        path,
        score: state.score,
        language: context::language_of(path),
        base_score: state.base_score,
        size_modifier: state.size_modifier,
        hotspot_modifier: state.hotspot_modifier,
        plugin_contribution: state.plugin_contribution,
    }
}

/// The scores and reasons behind everything that is known of the files.
pub open spec fn final_book(
    files: Seq<FileModel>,
    analyses: Seq<AnalysisModel>,
    config: ConfigModel,
) -> Book {
    with_findings(file_book(files, config), all_findings(analyses), config)
}

/// The report on the files, with what plugins said of them.
pub open spec fn report_of(
    files: Seq<FileModel>,
    analyses: Seq<AnalysisModel>,
    config: ConfigModel,
) -> ReportModel {
    let book = final_book(files, analyses, config);
    let states = final_states(files, book.scores);
    let score = aggregate::total(states, config.aggregation);
    ReportModel {
        schema_version: digits::decimal(config.schema_version as nat),
        scoring_model_version: config.scoring_model_version,
        score,
        decision: config::decided(score, config.decision_thresholds),
        confidence: overall_confidence(analyses),
        secondary_contribution: aggregate::secondary(states, config.aggregation),
        reasons: book.reasons,
        by_file: Seq::new(files.len(), |i: int| file_entry(files[i].path, states[i])),
        feature_vector: FeatureModel {
            plugin_signals: all_findings(analyses).len(),
            ..file_features(files, config)
        },
    }
}

/// The lower one of two confidences.
pub fn min_confidence(left: &Confidence, right: &Confidence) -> (r: Confidence)
    ensures
        r == lower(*left, *right),
{
    match (left, right) {
        (Confidence::Low, _) => Confidence::Low,
        (_, Confidence::Low) => Confidence::Low,
        (Confidence::Medium, _) => Confidence::Medium,
        (_, Confidence::Medium) => Confidence::Medium,
        _ => Confidence::High,
    }
}

impl FileScoreState {
    /// Makes the score the sum of its parts, up to the greatest score.
    pub fn recompute_score(&mut self, max_score: u32)
        ensures
            *final(self) == recomputed(*old(self), max_score),
    {
        let sum: u64 = self.base_score as u64 + self.size_modifier as u64
            + self.hotspot_modifier as u64 + self.plugin_contribution as u64;
        self.score = if sum < max_score as u64 {
            sum as u32
        } else {
            max_score
        };
    }
}

/// Enters a finding into the scores, the reasons and the counters. The counter of findings has room
/// for one more: also where it does not exceed the number of reasons, to which one is added.
pub fn apply_plugin_finding(
    finding: &PluginFinding,
    file_scores: &mut StringHashMap<FileScoreState>,
    reasons: &mut Vec<Reason>,
    feature_vector: &mut FeatureVector,
    config: &ScoreConfig,
)
    requires
        old(feature_vector).plugin_signals < usize::MAX || old(feature_vector).plugin_signals
            <= old(reasons)@.len(),
    ensures
        (Book { scores: final(file_scores)@, reasons: text::views(final(reasons)@) })
            == with_finding(
            Book { scores: old(file_scores)@, reasons: text::views(old(reasons)@) },
            finding@,
            config@,
        ),
        final(feature_vector)@ == (FeatureModel {
            plugin_signals: old(feature_vector)@.plugin_signals + 1,
            ..old(feature_vector)@
        }),
{
    let weight: u32 = match finding.weight_override {
        Some(weight) => weight,
        None => config.score_for(&finding.kind),
    };
    let mut state = match file_scores.get(finding.path.as_str()) {
        Some(state) => *state,
        None => FileScoreState {
            base_score: 0,
            size_modifier: 0,
            hotspot_modifier: 0,
            plugin_contribution: 0,
            has_semantic_risk: false,
            score: 0,
        },
    };
    assert(state == state_at(old(file_scores)@, finding.path@));
    match finding.score_mode {
        PluginScoreMode::Base => {
            if weight > state.base_score {
                state.base_score = weight;
            }
        },
        PluginScoreMode::Additive => {
            state.plugin_contribution = state.plugin_contribution.saturating_add(weight);
        },
    }
    state.recompute_score(config.aggregation.max_score);
    file_scores.insert(finding.path.clone(), state);
    reasons.push(
        finding.kind.as_reason(finding.path.clone(), weight, finding.message.clone()),
    );
    let entries: usize = reasons.len();
    assert(feature_vector.plugin_signals < entries || feature_vector.plugin_signals < usize::MAX);
    feature_vector.plugin_signals = feature_vector.plugin_signals + 1;
    proof {
        let book = Book { scores: old(file_scores)@, reasons: text::views(old(reasons)@) };
        let after = with_finding(book, finding@, config@);
        assert(text::views(reasons@) =~= after.reasons);
        assert(file_scores@ =~= after.scores);
    }
}

/// The entries of the files in the report, and their final scores.
pub fn collect_file_scores(
    files: &Vec<ChangedFile>,
    file_scores: &StringHashMap<FileScoreState>,
) -> (r: (Vec<FileScore>, Vec<FileScoreState>))
    ensures
        r.1@ == final_states(text::views(files@), file_scores@),
        text::views(r.0@) == Seq::new(
            files@.len(),
            |i: int| file_entry(files@[i].path@, state_at(file_scores@, files@[i].path@)),
        ),
{
    let ghost all = text::views(files@);
    let mut by_file: Vec<FileScore> = Vec::new();
    let mut states: Vec<FileScoreState> = Vec::new();
    let mut i: usize = 0;
    while i < files.len()
        invariant
            i <= files@.len(),
            all == text::views(files@),
            states@.len() == i,
            by_file@.len() == i,
            forall|k: int|
                0 <= k < i ==> #[trigger] states@[k] == state_at(file_scores@, files@[k].path@),
            forall|k: int|
                0 <= k < i ==> (#[trigger] by_file@[k])@ == file_entry(
                    files@[k].path@,
                    state_at(file_scores@, files@[k].path@),
                ),
        decreases files@.len() - i,
    {
        let file = &files[i];
        let state = match file_scores.get(file.path.as_str()) {
            Some(state) => *state,
            None => FileScoreState {
                base_score: 0,
                size_modifier: 0,
                hotspot_modifier: 0,
                plugin_contribution: 0,
                has_semantic_risk: false,
                score: 0,
            },
        };
        states.push(state);
        by_file.push(
            FileScore {
                path: file.path.clone(),
                score: state.score,
                language: file.language().to_string(),
                base_score: state.base_score,
                size_modifier: state.size_modifier,
                hotspot_modifier: state.hotspot_modifier,
                plugin_contribution: state.plugin_contribution,
            },
        );
        i = i + 1;
    }
    proof {
        assert(states@ =~= final_states(all, file_scores@)) by {
            assert forall|k: int| 0 <= k < all.len() implies states@[k] == final_states(
                all,
                file_scores@,
            )[k] by {
                assert(all[k].path == files@[k].path@);
            }
        }
    }
    (by_file, states)
}

proof fn lemma_feature_bounds(files: Seq<FileModel>, config: ConfigModel)
    ensures
        file_features(files, config).files_changed == files.len(),
        file_features(files, config).public_signature_changes <= files.len(),
        file_features(files, config).control_flow_changes <= files.len(),
        file_features(files, config).assertion_changes <= files.len(),
        file_features(files, config).size_signals <= files.len(),
        file_features(files, config).hotspot_signals <= files.len(),
        file_features(files, config).plugin_signals == 0,
    decreases files.len(),
{
    if files.len() > 0 {
        lemma_feature_bounds(files.drop_last(), config);
    }
}

/// The report on the files of a context, with the given analyses of plugins.
pub fn score_context(
    ctx: &AnalysisContext,
    analyses: &Vec<PluginAnalysis>,
    config: &ScoreConfig,
) -> (r: ScoreReport)
    ensures
        r@ == report_of(ctx@.files, text::views(analyses@), config@),
{
    let ghost files = ctx@.files;
    let ghost c = config@;
    let ghost said = text::views(analyses@);
    let mut reasons: Vec<Reason> = Vec::new();
    let mut features = FeatureVector {
        files_changed: 0,
        public_signature_changes: 0,
        control_flow_changes: 0,
        assertion_changes: 0,
        size_signals: 0,
        hotspot_signals: 0,
        plugin_signals: 0,
    };
    let mut scores: StringHashMap<FileScoreState> = StringHashMap::new();
    let mut i: usize = 0;
    proof {
        assert(files.take(0) =~= Seq::empty());
        assert(text::views(reasons@) =~= file_book(files.take(0), c).reasons);
        assert(scores@ =~= file_book(files.take(0), c).scores);
    }
    while i < ctx.files.len()
        invariant
            i <= ctx.files@.len(),
            files == text::views(ctx.files@),
            c == config@,
            scores@ =~= file_book(files.take(i as int), c).scores,
            text::views(reasons@) =~= file_book(files.take(i as int), c).reasons,
            features@ == file_features(files.take(i as int), c),
        decreases ctx.files@.len() - i,
    {
        let file = &ctx.files[i];
        proof {
            assert(files.take(i + 1).drop_last() =~= files.take(i as int));
            assert(files.take(i + 1).last() == file@);
            lemma_feature_bounds(files.take(i as int), c);
        }
        let state = scoring::score_file(file, &mut reasons, &mut features, config);
        features.files_changed = features.files_changed + 1;
        scores.insert(file.path.clone(), state);
        i = i + 1;
    }
    proof {
        assert(files.take(i as int) =~= files);
        lemma_feature_bounds(files, c);
        assert(all_findings(said.take(0)) =~= Seq::empty()) by {
            assert(said.take(0) =~= Seq::empty());
        }
    }
    let ghost start = file_book(files, c);
    let ghost counted = features@;
    let mut confidence = Confidence::High;
    let mut k: usize = 0;
    assert(said.take(0) =~= Seq::empty());
    while k < analyses.len()
        invariant
            k <= analyses@.len(),
            said == text::views(analyses@),
            c == config@,
            counted.plugin_signals == 0,
            (Book { scores: scores@, reasons: text::views(reasons@) }) == with_findings(
                start,
                all_findings(said.take(k as int)),
                c,
            ),
            features@ == (FeatureModel {
                plugin_signals: all_findings(said.take(k as int)).len(),
                ..counted
            }),
            features.plugin_signals <= reasons@.len(),
            confidence == overall_confidence(said.take(k as int)),
        decreases analyses@.len() - k,
    {
        let analysis = &analyses[k];
        let ghost done = all_findings(said.take(k as int));
        let ghost more = text::views(analysis.findings@);
        proof {
            assert(said.take(k + 1).drop_last() =~= said.take(k as int));
            assert(said.take(k + 1).last() == analysis@);
            assert(done + more.take(0) =~= done);
        }
        confidence = min_confidence(&confidence, &analysis.confidence);
        let mut j: usize = 0;
        while j < analysis.findings.len()
            invariant
                j <= analysis.findings@.len(),
                more == text::views(analysis.findings@),
                c == config@,
                (Book { scores: scores@, reasons: text::views(reasons@) }) == with_findings(
                    start,
                    done + more.take(j as int),
                    c,
                ),
                features@ == (FeatureModel {
                    plugin_signals: done.len() + j as nat,
                    ..counted
                }),
                features.plugin_signals <= reasons@.len(),
            decreases analysis.findings@.len() - j,
        {
            proof {
                assert((done + more.take(j + 1)).drop_last() =~= done + more.take(j as int));
                assert((done + more.take(j + 1)).last() == analysis.findings@[j as int]@);
            }
            let ghost told = text::views(reasons@);
            apply_plugin_finding(
                &analysis.findings[j],
                &mut scores,
                &mut reasons,
                &mut features,
                config,
            );
            assert(text::views(reasons@).len() == told.len() + 1);
            j = j + 1;
        }
        proof {
            assert(more.take(j as int) =~= more);
            assert(done + more =~= all_findings(said.take(k + 1)));
        }
        k = k + 1;
    }
    assert(said.take(k as int) =~= said);
    let (by_file, states) = collect_file_scores(&ctx.files, &scores);
    let (score, secondary_contribution) = aggregate::aggregate_scores(&states, &config.aggregation);
    let r = ScoreReport {
        schema_version: digits::write(config.schema_version as u128, 10),
        scoring_model_version: config.scoring_model_version.clone(),
        score,
        decision: config::score_to_decision(score, &config.decision_thresholds),
        confidence,
        secondary_contribution,
        reasons,
        by_file,
        feature_vector: features,
    };
    proof {
        let expected = report_of(files, said, c);
        assert(r@.by_file =~= expected.by_file) by {
            assert forall|n: int| 0 <= n < files.len() implies r@.by_file[n]
                == expected.by_file[n] by {
                assert(files[n].path == ctx.files@[n].path@);
            }
        }
        assert(r@ =~= expected);
    }
    r
}

} // verus!
