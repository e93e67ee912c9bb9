//! What holds of reports, scores and plugins as a whole.

use vstd::prelude::*;

use crate::aggregate;
use crate::analyze;
use crate::analyze::Book;
use crate::binary64;
use crate::binary64::Binary64;
use crate::config;
use crate::config::{AggregationConfig, ConfigModel};
use crate::context::{
    AnalysisModel, ContextModel, FileModel, FindingModel, InputKind, PluginScoreMode,
};
use crate::gitattributes;
use crate::gitattributes::AttributesModel;
use crate::normalize;
use crate::oracle;
use crate::patch;
use crate::report::{Confidence, Decision, ErrorModel, ReasonKind, ReasonModel};
use crate::requests;
use crate::scoring;
use crate::scoring::{BaseScoring, FileScoreState};
use crate::signals;
use crate::text;

verus! {

/// A scaled count never exceeds its cap.
pub proof fn law_scaling_is_capped(ratio: Binary64, count: u32, cap: u32)
    ensures
        ratio.scaled(count, cap) <= cap,
{
}

/// The score of a report never exceeds the greatest score of the model.
pub proof fn law_score_is_bounded(
    files: Seq<FileModel>,
    analyses: Seq<AnalysisModel>,
    config: ConfigModel,
)
    ensures
        analyze::report_of(files, analyses, config).score <= config.aggregation.max_score,
{
}

/// The other files add at most the cap to the top score, and nothing where no file carries semantic
/// risk.
pub proof fn law_secondary_is_bounded(files: Seq<FileScoreState>, config: AggregationConfig)
    ensures
        aggregate::secondary(files, config) <= config.secondary_cap,
        !aggregate::any_risk(files) ==> aggregate::secondary(files, config) == 0,
        aggregate::total(files, config) <= aggregate::top_score(files) + config.secondary_cap,
        aggregate::top_score(files) <= config.max_score ==> aggregate::top_score(files)
            <= aggregate::total(files, config),
{
}

/// The top score is the score of a file, and no file has a greater one.
pub proof fn law_top_score_is_the_maximum(files: Seq<FileScoreState>)
    ensures
        forall|i: int| 0 <= i < files.len() ==> (#[trigger] files[i]).score <= aggregate::top_score(
            files,
        ),
        files.len() > 0 ==> exists|i: int|
            0 <= i < files.len() && (#[trigger] files[i]).score == aggregate::top_score(files),
    decreases files.len(),
{
    if files.len() > 0 {
        let before = files.drop_last();
        law_top_score_is_the_maximum(before);
        assert forall|i: int| 0 <= i < files.len() implies (#[trigger] files[i]).score
            <= aggregate::top_score(files) by {
            if i < before.len() {
                assert(before[i] == files[i]);
            }
        }
        if files.last().score > aggregate::top_score(before) {
            assert(files[files.len() - 1].score == aggregate::top_score(files));
        } else if before.len() > 0 {
            let i = choose|i: int|
                0 <= i < before.len() && (#[trigger] before[i]).score == aggregate::top_score(
                    before,
                );
            assert(files[i].score == aggregate::top_score(files));
        } else {
            assert(files[files.len() - 1].score == aggregate::top_score(files));
        }
    }
}

proof fn lemma_sum_without(files: Seq<FileScoreState>, i: int)
    requires
        0 <= i < files.len(),
    ensures
        aggregate::bounded_sum(files) == aggregate::bounded_sum(files.remove(i))
            + scoring::at_most(files[i].score as int, 30),
    decreases files.len(),
{
    if i == files.len() - 1 {
        assert(files.remove(i) =~= files.drop_last());
    } else {
        lemma_sum_without(files.drop_last(), i);
        assert(files.remove(i).drop_last() =~= files.drop_last().remove(i));
        assert(files.remove(i).last() == files.last());
    }
}

proof fn lemma_sum_of_permutation(a: Seq<FileScoreState>, b: Seq<FileScoreState>)
    requires
        a.to_multiset() == b.to_multiset(),
    ensures
        aggregate::bounded_sum(a) == aggregate::bounded_sum(b),
    decreases a.len(),
{
    broadcast use vstd::seq_lib::group_to_multiset_ensures;

    assert(a.len() == a.to_multiset().len());
    assert(b.len() == b.to_multiset().len());
    if a.len() > 0 {
        let x = a.last();
        assert(a.contains(x));
        assert(a.to_multiset().count(x) > 0);
        assert(b.contains(x));
        let j = choose|j: int| 0 <= j < b.len() && b[j] == x;
        assert(a.remove(a.len() - 1) =~= a.drop_last());
        assert(a.drop_last().to_multiset() =~= b.remove(j).to_multiset());
        lemma_sum_of_permutation(a.drop_last(), b.remove(j));
        lemma_sum_without(b, j);
    }
}

/// The score of a patch does not depend on the order of its files.
pub proof fn law_total_ignores_order(
    a: Seq<FileScoreState>,
    b: Seq<FileScoreState>,
    config: AggregationConfig,
)
    requires
        a.to_multiset() == b.to_multiset(),
    ensures
        aggregate::total(a, config) == aggregate::total(b, config),
        aggregate::secondary(a, config) == aggregate::secondary(b, config),
{
    broadcast use vstd::seq_lib::group_to_multiset_ensures;

    lemma_sum_of_permutation(a, b);
    law_top_score_is_the_maximum(a);
    law_top_score_is_the_maximum(b);
    assert forall|x: FileScoreState| a.contains(x) == b.contains(x) by {
        assert(a.contains(x) <==> a.to_multiset().count(x) > 0);
        assert(b.contains(x) <==> b.to_multiset().count(x) > 0);
    }
    assert(a.len() == b.len()) by {
        assert(a.len() == a.to_multiset().len());
        assert(b.len() == b.to_multiset().len());
    }
    if a.len() > 0 {
        let i = choose|i: int|
            0 <= i < a.len() && (#[trigger] a[i]).score == aggregate::top_score(a);
        assert(b.contains(a[i]));
        let j = choose|j: int|
            0 <= j < b.len() && (#[trigger] b[j]).score == aggregate::top_score(b);
        assert(a.contains(b[j]));
    }
    assert(aggregate::top_score(a) == aggregate::top_score(b));
    if aggregate::any_risk(a) {
        let i = choose|i: int| 0 <= i < a.len() && (#[trigger] a[i]).has_semantic_risk;
        assert(b.contains(a[i]));
        let j = choose|j: int| 0 <= j < b.len() && b[j] == a[i];
        assert(b[j].has_semantic_risk);
    }
    if aggregate::any_risk(b) {
        let j = choose|j: int| 0 <= j < b.len() && (#[trigger] b[j]).has_semantic_risk;
        assert(a.contains(b[j]));
        let i = choose|i: int| 0 <= i < a.len() && a[i] == b[j];
        assert(a[i].has_semantic_risk);
    }
}

/// The greatest weight is that of a reason, and no reason has a greater one.
pub proof fn law_strongest_is_the_maximum(reasons: Seq<ReasonModel>)
    ensures
        forall|i: int|
            0 <= i < reasons.len() ==> (#[trigger] reasons[i]).weight <= scoring::strongest(reasons),
        reasons.len() > 0 ==> exists|i: int|
            0 <= i < reasons.len() && (#[trigger] reasons[i]).weight == scoring::strongest(reasons),
    decreases reasons.len(),
{
    if reasons.len() > 0 {
        let before = reasons.drop_last();
        law_strongest_is_the_maximum(before);
        assert forall|i: int| 0 <= i < reasons.len() implies (#[trigger] reasons[i]).weight
            <= scoring::strongest(reasons) by {
            if i < before.len() {
                assert(before[i] == reasons[i]);
            }
        }
        if reasons.last().weight > scoring::strongest(before) || before.len() == 0 {
            assert(reasons[reasons.len() - 1].weight == scoring::strongest(reasons));
        } else {
            let i = choose|i: int|
                0 <= i < before.len() && (#[trigger] before[i]).weight == scoring::strongest(
                    before,
                );
            assert(reasons[i].weight == scoring::strongest(reasons));
        }
    }
}

/// A file always has a base reason, and its base score is the weight of the strongest one.
pub proof fn law_base_score_is_the_strongest_reason(file: FileModel, config: ConfigModel)
    ensures
        ({
            let reasons = scoring::base_reasons(file, config);
            let base = scoring::base_of(file, config).base_score;
            &&& reasons.len() > 0
            &&& forall|i: int| 0 <= i < reasons.len() ==> (#[trigger] reasons[i]).weight <= base
            &&& exists|i: int| 0 <= i < reasons.len() && (#[trigger] reasons[i]).weight == base
        }),
{
    law_strongest_is_the_maximum(scoring::base_reasons(file, config));
}

/// Size and history together add at most the cap of the base score, which is at most 18.
pub proof fn law_modifiers_are_bounded(file: FileModel, base: BaseScoring, config: ConfigModel)
    ensures
        scoring::size_modifier(file, base, config) + scoring::hotspot_modifier(file, base, config)
            <= scoring::cap_of(base.base_score),
        scoring::cap_of(base.base_score) <= 18,
{
}

/// Neither size nor history adds anything to a refactoring.
pub proof fn law_refactoring_has_no_modifiers(
    file: FileModel,
    base: BaseScoring,
    config: ConfigModel,
)
    requires
        base.refactor_like,
    ensures
        scoring::size_modifier(file, base, config) == 0,
        scoring::hotspot_modifier(file, base, config) == 0,
        scoring::modifier_reasons(file, base, config).len() == 0,
{
}

/// Whatever the cap, history adds something only to a file that was changed at least four times
/// before and carries semantic risk.
pub proof fn law_hotspot_needs_history_and_risk(
    file: FileModel,
    base: BaseScoring,
    cap: u32,
    config: ConfigModel,
)
    requires
        scoring::hotspot_up_to(file, base, cap, config) > 0,
    ensures
        file.history is Some,
        file.history->0.prior_commits >= 4,
        base.has_semantic_risk,
        !base.refactor_like,
{
}

/// What size and history add is told by one reason each, with its weight and in this order, and by
/// nothing else.
pub proof fn law_modifiers_are_told(file: FileModel, base: BaseScoring, config: ConfigModel)
    ensures
        ({
            let size = scoring::size_modifier(file, base, config);
            let hotspot = scoring::hotspot_modifier(file, base, config);
            let reasons = scoring::modifier_reasons(file, base, config);
            &&& reasons.len() == scoring::one_if(size > 0) + scoring::one_if(hotspot > 0)
            &&& size > 0 ==> reasons.first().kind == ReasonKind::ChangeSize
                && reasons.first().weight == size && reasons.first().file == file.path
            &&& hotspot > 0 ==> reasons.last().kind == ReasonKind::RepoHotspot
                && reasons.last().weight == hotspot && reasons.last().file == file.path
        }),
{
}

/// Whether a change is a refactoring does not depend on its direction.
pub proof fn law_refactoring_is_symmetric(file: FileModel)
    ensures
        normalize::refactor_like(file) == normalize::refactor_like(
            FileModel { added: file.removed, removed: file.added, ..file },
        ),
{
}

/// Whether a test expects something else does not depend on the direction of the change.
pub proof fn law_expectation_change_is_symmetric(file: FileModel)
    ensures
        oracle::expectation_change(file) == oracle::expectation_change(
            FileModel { added: file.removed, removed: file.added, ..file },
        ),
{
}

/// Whether the score of a state is the sum of its parts, up to the greatest score.
pub open spec fn adds_up(state: FileScoreState, max_score: u32) -> bool {
    state == analyze::recomputed(state, max_score)
}

proof fn lemma_file_book_adds_up(files: Seq<FileModel>, config: ConfigModel)
    requires
        config.weight(ReasonKind::CommentOnly) <= config.aggregation.max_score,
    ensures
        forall|path: Seq<char>|
            analyze::file_book(files, config).scores.dom().contains(path) ==> adds_up(
                #[trigger] analyze::file_book(files, config).scores[path],
                config.aggregation.max_score,
            ),
    decreases files.len(),
{
    if files.len() > 0 {
        lemma_file_book_adds_up(files.drop_last(), config);
        let before = analyze::file_book(files.drop_last(), config).scores;
        let after = analyze::file_book(files, config).scores;
        assert(adds_up(
            scoring::file_state(files.last(), config),
            config.aggregation.max_score,
        ));
        assert forall|path: Seq<char>| after.dom().contains(path) implies adds_up(
            #[trigger] after[path],
            config.aggregation.max_score,
        ) by {
            if path != files.last().path {
                assert(after[path] == before[path]);
            }
        }
    }
}

proof fn lemma_findings_add_up(book: Book, findings: Seq<FindingModel>, config: ConfigModel)
    requires
        forall|path: Seq<char>|
            book.scores.dom().contains(path) ==> adds_up(
                #[trigger] book.scores[path],
                config.aggregation.max_score,
            ),
    ensures
        forall|path: Seq<char>|
            analyze::with_findings(book, findings, config).scores.dom().contains(path) ==> adds_up(
                #[trigger] analyze::with_findings(book, findings, config).scores[path],
                config.aggregation.max_score,
            ),
    decreases findings.len(),
{
    if findings.len() > 0 {
        lemma_findings_add_up(book, findings.drop_last(), config);
        let before = analyze::with_findings(book, findings.drop_last(), config).scores;
        let after = analyze::with_findings(book, findings, config).scores;
        assert forall|path: Seq<char>| after.dom().contains(path) implies adds_up(
            #[trigger] after[path],
            config.aggregation.max_score,
        ) by {
            if path != findings.last().path {
                assert(after[path] == before[path]);
            }
        }
    }
}

/// In a report the score of each file is the sum of its parts, up to the greatest score. The weight
/// of a change of comments alone is not cut down, so it must not be above the greatest score.
pub proof fn law_file_scores_add_up(
    files: Seq<FileModel>,
    analyses: Seq<AnalysisModel>,
    config: ConfigModel,
    i: int,
)
    requires
        0 <= i < files.len(),
        config.weight(ReasonKind::CommentOnly) <= config.aggregation.max_score,
    ensures
        ({
            let entry = analyze::report_of(files, analyses, config).by_file[i];
            entry.score == scoring::at_most(
                entry.base_score + entry.size_modifier + entry.hotspot_modifier
                    + entry.plugin_contribution,
                config.aggregation.max_score,
            )
        }),
{
    lemma_file_book_adds_up(files, config);
    lemma_findings_add_up(
        analyze::file_book(files, config),
        analyze::all_findings(analyses),
        config,
    );
    let scores = analyze::final_book(files, analyses, config).scores;
    if scores.dom().contains(files[i].path) {
        assert(adds_up(scores[files[i].path], config.aggregation.max_score));
    }
}

/// A report has one entry for each file, under its path, and counts the files; it counts the
/// findings too.
pub proof fn law_report_covers_the_files(
    files: Seq<FileModel>,
    analyses: Seq<AnalysisModel>,
    config: ConfigModel,
)
    ensures
        ({
            let report = analyze::report_of(files, analyses, config);
            &&& report.by_file.len() == files.len()
            &&& forall|i: int|
                0 <= i < files.len() ==> (#[trigger] report.by_file[i]).path == files[i].path
            &&& report.feature_vector.files_changed == files.len()
            &&& report.feature_vector.plugin_signals == analyze::all_findings(analyses).len()
        }),
{
    lemma_files_counted(files, config);
}

proof fn lemma_files_counted(files: Seq<FileModel>, config: ConfigModel)
    ensures
        analyze::file_features(files, config).files_changed == files.len(),
    decreases files.len(),
{
    if files.len() > 0 {
        lemma_files_counted(files.drop_last(), config);
    }
}

/// The confidence of a report is no higher than that of any plugin, is that of a plugin where it is
/// not high, and is high without plugins.
pub proof fn law_confidence_is_the_lowest(analyses: Seq<AnalysisModel>)
    ensures
        forall|i: int|
            0 <= i < analyses.len() ==> analyze::overall_confidence(analyses).rank() <= (
            #[trigger] analyses[i]).confidence.rank(),
        analyze::overall_confidence(analyses) != Confidence::High ==> exists|i: int|
            0 <= i < analyses.len() && (#[trigger] analyses[i]).confidence
                == analyze::overall_confidence(analyses),
        analyses.len() == 0 ==> analyze::overall_confidence(analyses) == Confidence::High,
    decreases analyses.len(),
{
    if analyses.len() > 0 {
        let before = analyses.drop_last();
        law_confidence_is_the_lowest(before);
        let overall = analyze::overall_confidence(analyses);
        assert forall|i: int| 0 <= i < analyses.len() implies overall.rank() <= (
        #[trigger] analyses[i]).confidence.rank() by {
            if i < before.len() {
                assert(before[i] == analyses[i]);
            }
        }
        if overall != Confidence::High {
            if overall == analyze::overall_confidence(before) {
                let i = choose|i: int|
                    0 <= i < before.len() && (#[trigger] before[i]).confidence == overall;
                assert(analyses[i].confidence == overall);
            } else {
                assert(analyses[analyses.len() - 1].confidence == overall);
            }
        }
    }
}

/// A finding never lowers a score that is the sum of its parts.
pub proof fn law_findings_never_lower_a_score(
    state: FileScoreState,
    mode: PluginScoreMode,
    weight: u32,
    max_score: u32,
)
    requires
        adds_up(state, max_score),
    ensures
        analyze::raised(state, mode, weight, max_score).score >= state.score,
        adds_up(analyze::raised(state, mode, weight, max_score), max_score),
{
}

/// The files of a patch have a path and at least one changed line, and neither sources nor a
/// history: those come from a repository alone.
pub proof fn law_patch_files_count(patch: Seq<char>)
    ensures
        forall|i: int|
            0 <= i < patch::patch_files(patch).len() ==> {
                let file = #[trigger] patch::patch_files(patch)[i];
                &&& file.path.len() > 0
                &&& file.changed().len() > 0
                &&& file.before_source is None
                &&& file.after_source is None
                &&& file.history is None
            },
{
    lemma_opened_files_are_bare(text::line_seq(patch));
    lemma_counting_files(patch::files_of(text::line_seq(patch)));
}

pub open spec fn is_bare(file: FileModel) -> bool {
    file.before_source is None && file.after_source is None && file.history is None
}

proof fn lemma_opened_files_are_bare(lines: Seq<Seq<char>>)
    ensures
        forall|i: int|
            0 <= i < patch::files_of(lines).len() ==> is_bare(#[trigger] patch::files_of(lines)[i]),
    decreases lines.len(),
{
    if lines.len() > 0 {
        lemma_opened_files_are_bare(lines.drop_last());
        let before = patch::files_of(lines.drop_last());
        let after = patch::files_of(lines);
        assert forall|i: int| 0 <= i < after.len() implies is_bare(#[trigger] after[i]) by {
            if i < before.len() {
                assert(is_bare(before[i]));
            }
        }
    }
}

proof fn lemma_counting_files(files: Seq<FileModel>)
    requires
        forall|i: int| 0 <= i < files.len() ==> is_bare(#[trigger] files[i]),
    ensures
        forall|i: int|
            0 <= i < patch::counting(files).len() ==> patch::counts(
                #[trigger] patch::counting(files)[i],
            ) && is_bare(patch::counting(files)[i]),
    decreases files.len(),
{
    if files.len() > 0 {
        lemma_counting_files(files.drop_last());
        let before = patch::counting(files.drop_last());
        let after = patch::counting(files);
        assert(is_bare(files[files.len() - 1]));
        assert forall|i: int| 0 <= i < after.len() implies patch::counts(#[trigger] after[i])
            && is_bare(after[i]) by {
            if i < before.len() {
                assert(after[i] == before[i]);
            }
        }
    }
}

/// Without a repository no file of a patch gets anything for its history.
pub proof fn law_patches_have_no_hotspots(patch: Seq<char>, config: ConfigModel, i: int)
    requires
        0 <= i < patch::patch_files(patch).len(),
    ensures
        ({
            let file = patch::patch_files(patch)[i];
            scoring::hotspot_modifier(file, scoring::base_of(file, config), config) == 0
        }),
{
    law_patch_files_count(patch);
    let file = patch::patch_files(patch)[i];
    assert(file.history is None);
}

/// What a patch without a repository is refused for: it is blank, or it holds no changed file.
pub proof fn law_patch_errors(
    patch: Seq<char>,
    attributes: AttributesModel,
    names: Seq<Seq<char>>,
)
    ensures
        ({
            let outcome = requests::patch_context(patch, None, attributes, names);
            &&& outcome == Err::<ContextModel, ErrorModel>(ErrorModel::EmptyPatch)
                <==> text::trimmed(patch).len() == 0
            &&& outcome == Err::<ContextModel, ErrorModel>(ErrorModel::InvalidPatch)
                <==> text::trimmed(patch).len() > 0 && patch::patch_files(patch).len() == 0
            &&& outcome is Ok <==> text::trimmed(patch).len() > 0 && patch::patch_files(patch).len()
                > 0
            &&& outcome is Ok ==> outcome->Ok_0.files == patch::patch_files(patch)
                && outcome->Ok_0.input_kind == InputKind::PatchText
        }),
{
}

/// Without a source to hold it against, a change with more lines never weighs less.
pub proof fn law_larger_changes_weigh_no_less(
    small: FileModel,
    large: FileModel,
    config: ConfigModel,
)
    requires
        scoring::volume(small) <= scoring::volume(large),
        small.is_test() == large.is_test(),
        scoring::reference_source(small) is None,
        scoring::reference_source(large) is None,
    ensures
        scoring::size_weight(small, config) <= scoring::size_weight(large, config),
{
}

/// The size of a change in a test weighs half of what it weighs elsewhere, rounded up.
pub proof fn law_tests_weigh_half(test: FileModel, other: FileModel, config: ConfigModel)
    requires
        test.is_test(),
        !other.is_test(),
        scoring::volume(test) == scoring::volume(other),
        scoring::reference_source(test) == scoring::reference_source(other),
    ensures
        scoring::size_weight(test, config) == (scoring::size_weight(other, config) + 1) / 2,
{
}

/// The weight of a change of control flow never exceeds that of the rule, and is that of the rule
/// where the change is a heavy one.
pub proof fn law_flow_weight_is_bounded(file: FileModel, config: ConfigModel)
    ensures
        signals::flow_weight(file, config) is Some <==> signals::control_flow_change(file),
        signals::control_flow_change(file) ==> signals::flow_weight(file, config)->0
            <= config.weight(ReasonKind::ControlFlowChange),
        signals::control_flow_change(file) && signals::heavy_flow_change(file)
            ==> signals::flow_weight(file, config)->0 == config.weight(
            ReasonKind::ControlFlowChange,
        ),
{
}

/// Among changes of control flow that are not heavy, a deeper branch never weighs less.
pub proof fn law_deeper_branches_weigh_no_less(
    shallow: FileModel,
    deep: FileModel,
    config: ConfigModel,
)
    requires
        signals::control_flow_change(shallow),
        signals::control_flow_change(deep),
        !signals::heavy_flow_change(shallow),
        !signals::heavy_flow_change(deep),
        signals::branch_depth(shallow) <= signals::branch_depth(deep),
    ensures
        signals::flow_weight(shallow, config)->0 <= signals::flow_weight(deep, config)->0,
{
}

proof fn lemma_default_weights_used()
    ensures
        config::default_model().weight(ReasonKind::CommentOnly) == 0,
        config::default_model().weight(ReasonKind::ImportOnly) == 5,
        config::default_model().weight(ReasonKind::ChangeSize) == 25,
        config::default_model().weight(ReasonKind::RepoHotspot) == 15,
        config::default_model().weight(ReasonKind::RefactorLikeChange) == 10,
        config::default_model().weight(ReasonKind::PublicInterfaceChange) == 75,
        config::default_model().weight(ReasonKind::ControlFlowChange) == 65,
        config::default_model().weight(ReasonKind::TestExpectationChange) == 55,
        config::default_model().weight(ReasonKind::GenericCodeChange) == 20,
{
    config::law_default_weights(ReasonKind::CommentOnly);
    config::law_default_weights(ReasonKind::ImportOnly);
    config::law_default_weights(ReasonKind::ChangeSize);
    config::law_default_weights(ReasonKind::RepoHotspot);
    config::law_default_weights(ReasonKind::RefactorLikeChange);
    config::law_default_weights(ReasonKind::PublicInterfaceChange);
    config::law_default_weights(ReasonKind::ControlFlowChange);
    config::law_default_weights(ReasonKind::TestExpectationChange);
    config::law_default_weights(ReasonKind::GenericCodeChange);
}

proof fn lemma_strongest_concat(a: Seq<ReasonModel>, b: Seq<ReasonModel>)
    ensures
        scoring::strongest(a + b) == (if scoring::strongest(a) > scoring::strongest(b) {
            scoring::strongest(a)
        } else {
            scoring::strongest(b)
        }),
    decreases b.len(),
{
    if b.len() == 0 {
        assert(a + b =~= a);
    } else {
        assert((a + b).drop_last() =~= a + b.drop_last());
        lemma_strongest_concat(a, b.drop_last());
    }
}

proof fn lemma_strongest_only_if(condition: bool, reason: ReasonModel)
    ensures
        scoring::strongest(scoring::only_if(condition, reason)) == (if condition {
            reason.weight
        } else {
            0
        }),
{
    if condition {
        let one = seq![reason];
        assert(one.drop_last() =~= Seq::empty());
        assert(scoring::strongest(Seq::<ReasonModel>::empty()) == 0);
    }
}

/// The greater one of two weights.
pub open spec fn greater(a: u32, b: u32) -> u32 {
    if a > b {
        a
    } else {
        b
    }
}

/// The weight where the condition holds, else 0.
pub open spec fn weight_if(condition: bool, weight: u32) -> u32 {
    if condition {
        weight
    } else {
        0
    }
}

proof fn lemma_line_strength(file: FileModel, config: ConfigModel)
    ensures
        scoring::strongest(scoring::line_reasons(file, config)) == greater(
            greater(
                greater(
                    weight_if(signals::import_only(file), config.weight(ReasonKind::ImportOnly)),
                    weight_if(
                        scoring::interface_signal(file),
                        scoring::interface_reason(file, config).weight,
                    ),
                ),
                weight_if(
                    signals::control_flow_change(file),
                    scoring::flow_reason(file, config).weight,
                ),
            ),
            weight_if(
                scoring::expectation_signal(file),
                config.weight(ReasonKind::TestExpectationChange),
            ),
        ),
{
    let import = scoring::reason(
        file,
        ReasonKind::ImportOnly,
        config.weight(ReasonKind::ImportOnly),
        "import or package declaration change"@,
    );
    let expect = scoring::reason(
        file,
        ReasonKind::TestExpectationChange,
        config.weight(ReasonKind::TestExpectationChange),
        "test expectation changed"@,
    );
    let a = scoring::only_if(signals::import_only(file), import);
    let b = scoring::only_if(
        scoring::interface_signal(file),
        scoring::interface_reason(file, config),
    );
    let c = scoring::only_if(
        signals::control_flow_change(file),
        scoring::flow_reason(file, config),
    );
    let d = scoring::only_if(scoring::expectation_signal(file), expect);
    lemma_strongest_only_if(signals::import_only(file), import);
    lemma_strongest_only_if(
        scoring::interface_signal(file),
        scoring::interface_reason(file, config),
    );
    lemma_strongest_only_if(
        signals::control_flow_change(file),
        scoring::flow_reason(file, config),
    );
    lemma_strongest_only_if(scoring::expectation_signal(file), expect);
    lemma_strongest_concat(a, b);
    lemma_strongest_concat(a + b, c);
    lemma_strongest_concat(a + b + c, d);
}

proof fn lemma_base_strength(file: FileModel, config: ConfigModel)
    ensures
        ({
            let line = scoring::strongest(scoring::line_reasons(file, config));
            scoring::base_of(file, config).base_score == greater(
                greater(
                    line,
                    weight_if(
                        scoring::told_as_refactoring(file, config),
                        config.weight(ReasonKind::RefactorLikeChange),
                    ),
                ),
                weight_if(
                    scoring::told_as_generic(file, config),
                    config.weight(ReasonKind::GenericCodeChange),
                ),
            )
        }),
{
    let line = scoring::line_reasons(file, config);
    let refactoring = scoring::reason(
        file,
        ReasonKind::RefactorLikeChange,
        config.weight(ReasonKind::RefactorLikeChange),
        "refactor-like change"@,
    );
    let generic = scoring::reason(
        file,
        ReasonKind::GenericCodeChange,
        config.weight(ReasonKind::GenericCodeChange),
        "generic code change"@,
    );
    let a = scoring::only_if(scoring::told_as_refactoring(file, config), refactoring);
    let b = scoring::only_if(scoring::told_as_generic(file, config), generic);
    lemma_strongest_only_if(scoring::told_as_refactoring(file, config), refactoring);
    lemma_strongest_only_if(scoring::told_as_generic(file, config), generic);
    lemma_strongest_concat(line, a);
    lemma_strongest_concat(line + a, b);
}

/// In the built-in model a file without semantic risk scores at most 24, whatever its size.
pub proof fn law_default_files_without_risk_stay_low(file: FileModel)
    requires
        !scoring::semantic_risk(file),
    ensures
        scoring::file_state(file, config::default_model()).score <= 24,
        !scoring::file_state(file, config::default_model()).has_semantic_risk,
{
    lemma_default_weights_used();
    lemma_line_strength(file, config::default_model());
    lemma_base_strength(file, config::default_model());
}

/// In the built-in model a change that keeps the shapes of the code, and touches neither control
/// flow nor what a test expects, scores at most 10.
pub proof fn law_default_refactorings_stay_low(file: FileModel)
    requires
        normalize::refactor_like(file),
        !signals::control_flow_change(file),
        !scoring::expectation_signal(file),
    ensures
        scoring::file_state(file, config::default_model()).score <= 10,
{
    lemma_default_weights_used();
    lemma_line_strength(file, config::default_model());
    lemma_base_strength(file, config::default_model());
}

/// In the built-in model a change of imports alone, without any other signal, scores 5.
pub proof fn law_default_imports_score_five(file: FileModel)
    requires
        signals::import_only(file),
        !signals::comment_only(file),
        !scoring::interface_signal(file),
        !signals::control_flow_change(file),
        !scoring::expectation_signal(file),
    ensures
        scoring::file_state(file, config::default_model()).score == 5,
{
    lemma_default_weights_used();
    lemma_line_strength(file, config::default_model());
    lemma_base_strength(file, config::default_model());
}

/// In the built-in model a file other than a test that carries semantic risk scores at least 30: a
/// change of its public interface at least 75, a heavy change of its control flow at least 65.
pub proof fn law_default_risk_scores_high(file: FileModel)
    requires
        scoring::semantic_risk(file),
        !signals::comment_only(file),
        !file.is_test(),
    ensures
        scoring::file_state(file, config::default_model()).score >= 30,
        scoring::interface_signal(file) && !normalize::refactor_like(file) ==> scoring::file_state(
            file,
            config::default_model(),
        ).score >= 75,
        signals::heavy_flow_change(file) && signals::control_flow_change(file)
            ==> scoring::file_state(file, config::default_model()).score >= 65,
{
    lemma_default_weights_used();
    lemma_line_strength(file, config::default_model());
    lemma_base_strength(file, config::default_model());
}

/// In the built-in model a test that expects something else than before scores at least 55.
pub proof fn law_default_expectations_score_high(file: FileModel)
    requires
        scoring::expectation_signal(file),
        !signals::comment_only(file),
    ensures
        scoring::file_state(file, config::default_model()).score >= 55,
{
    lemma_default_weights_used();
    lemma_line_strength(file, config::default_model());
    lemma_base_strength(file, config::default_model());
}

proof fn lemma_low_book(files: Seq<FileModel>, bound: u32)
    requires
        forall|i: int|
            0 <= i < files.len() ==> {
                let state = scoring::file_state(#[trigger] files[i], config::default_model());
                state.score <= bound && !state.has_semantic_risk
            },
    ensures
        forall|path: Seq<char>|
            analyze::file_book(files, config::default_model()).scores.dom().contains(path) ==> {
                let state = #[trigger] analyze::file_book(
                    files,
                    config::default_model(),
                ).scores[path];
                state.score <= bound && !state.has_semantic_risk
            },
    decreases files.len(),
{
    if files.len() > 0 {
        let before = files.drop_last();
        assert forall|i: int| 0 <= i < before.len() implies {
            let state = scoring::file_state(#[trigger] before[i], config::default_model());
            state.score <= bound && !state.has_semantic_risk
        } by {
            assert(before[i] == files[i]);
        }
        lemma_low_book(before, bound);
        let earlier = analyze::file_book(before, config::default_model()).scores;
        let after = analyze::file_book(files, config::default_model()).scores;
        let last = files[files.len() - 1];
        let state = scoring::file_state(last, config::default_model());
        assert(state.score <= bound && !state.has_semantic_risk);
        assert forall|path: Seq<char>| after.dom().contains(path) implies {
            let state = #[trigger] after[path];
            state.score <= bound && !state.has_semantic_risk
        } by {
            if path != last.path {
                assert(after[path] == earlier[path]);
            }
        }
    }
}

proof fn lemma_low_total(files: Seq<FileModel>, bound: u32)
    requires
        forall|i: int|
            0 <= i < files.len() ==> {
                let state = scoring::file_state(#[trigger] files[i], config::default_model());
                state.score <= bound && !state.has_semantic_risk
            },
    ensures
        analyze::report_of(files, Seq::empty(), config::default_model()).score <= bound,
{
    let model = config::default_model();
    lemma_low_book(files, bound);
    let none: Seq<AnalysisModel> = Seq::empty();
    assert(analyze::all_findings(none) =~= Seq::empty());
    let book = analyze::final_book(files, none, model);
    assert(book == analyze::file_book(files, model));
    let states = analyze::final_states(files, book.scores);
    assert forall|i: int| 0 <= i < states.len() implies (#[trigger] states[i]).score <= bound
        && !states[i].has_semantic_risk by {
        if book.scores.dom().contains(files[i].path) {
            assert(states[i] == book.scores[files[i].path]);
        }
    }
    law_top_score_is_the_maximum(states);
    assert(!aggregate::any_risk(states));
}

/// In the built-in model a patch none of whose files carries semantic risk needs no review.
pub proof fn law_default_patches_without_risk_skip_review(files: Seq<FileModel>)
    requires
        forall|i: int| 0 <= i < files.len() ==> !scoring::semantic_risk(#[trigger] files[i]),
    ensures
        analyze::report_of(files, Seq::empty(), config::default_model()).score <= 24,
        analyze::report_of(files, Seq::empty(), config::default_model()).decision
            == Decision::SkipReview,
{
    assert forall|i: int| 0 <= i < files.len() implies {
        let state = scoring::file_state(#[trigger] files[i], config::default_model());
        state.score <= 24 && !state.has_semantic_risk
    } by {
        law_default_files_without_risk_stay_low(files[i]);
    }
    lemma_low_total(files, 24);
}

/// In the built-in model a patch of nothing but comments and blank lines scores 0.
pub proof fn law_default_comments_score_zero(files: Seq<FileModel>)
    requires
        forall|i: int| 0 <= i < files.len() ==> signals::comment_only(#[trigger] files[i]),
    ensures
        analyze::report_of(files, Seq::empty(), config::default_model()).score == 0,
        analyze::report_of(files, Seq::empty(), config::default_model()).decision
            == Decision::SkipReview,
        analyze::report_of(files, Seq::empty(), config::default_model()).confidence
            == Confidence::High,
{
    lemma_default_weights_used();
    assert forall|i: int| 0 <= i < files.len() implies {
        let state = scoring::file_state(#[trigger] files[i], config::default_model());
        state.score <= 0 && !state.has_semantic_risk
    } by {
        assert(signals::comment_only(files[i]));
    }
    lemma_low_total(files, 0);
}

/// No file scores above the report, as far as the greatest score allows.
pub proof fn law_report_covers_each_score(
    files: Seq<FileModel>,
    analyses: Seq<AnalysisModel>,
    config: ConfigModel,
    i: int,
)
    requires
        0 <= i < files.len(),
    ensures
        ({
            let report = analyze::report_of(files, analyses, config);
            report.score >= scoring::at_most(
                report.by_file[i].score as int,
                config.aggregation.max_score,
            )
        }),
{
    let book = analyze::final_book(files, analyses, config);
    let states = analyze::final_states(files, book.scores);
    law_top_score_is_the_maximum(states);
    assert(states[i].score <= aggregate::top_score(states));
}

proof fn lemma_book_holds_file(files: Seq<FileModel>, config: ConfigModel, i: int)
    requires
        0 <= i < files.len(),
        forall|j: int| i < j < files.len() ==> (#[trigger] files[j]).path != files[i].path,
    ensures
        analyze::file_book(files, config).scores.dom().contains(files[i].path),
        analyze::file_book(files, config).scores[files[i].path] == scoring::file_state(
            files[i],
            config,
        ),
    decreases files.len(),
{
    if i < files.len() - 1 {
        let before = files.drop_last();
        assert forall|j: int| i < j < before.len() implies (#[trigger] before[j]).path
            != before[i].path by {
            assert(before[j] == files[j]);
        }
        lemma_book_holds_file(before, config, i);
        assert(files[files.len() - 1].path != files[i].path);
    }
}

/// In a report without plugins the entry of a file whose path does not come again is that of the
/// file by itself.
pub proof fn law_entries_are_those_of_the_files(
    files: Seq<FileModel>,
    config: ConfigModel,
    i: int,
)
    requires
        0 <= i < files.len(),
        forall|j: int| i < j < files.len() ==> (#[trigger] files[j]).path != files[i].path,
    ensures
        analyze::report_of(files, Seq::empty(), config).by_file[i] == analyze::file_entry(
            files[i].path,
            scoring::file_state(files[i], config),
        ),
{
    lemma_book_holds_file(files, config, i);
    let none: Seq<AnalysisModel> = Seq::empty();
    assert(analyze::all_findings(none) =~= Seq::empty());
}

/// In the built-in model a patch with semantic risk outside of its tests is at least suggested for
/// review.
pub proof fn law_default_risk_is_reviewed(files: Seq<FileModel>, i: int)
    requires
        0 <= i < files.len(),
        forall|j: int| i < j < files.len() ==> (#[trigger] files[j]).path != files[i].path,
        scoring::semantic_risk(files[i]),
        !signals::comment_only(files[i]),
        !files[i].is_test(),
    ensures
        analyze::report_of(files, Seq::empty(), config::default_model()).score >= 30,
        analyze::report_of(files, Seq::empty(), config::default_model()).decision.rank()
            >= Decision::ReviewSuggested.rank(),
{
    law_default_risk_scores_high(files[i]);
    law_entries_are_those_of_the_files(files, config::default_model(), i);
    law_report_covers_each_score(files, Seq::empty(), config::default_model(), i);
}

/// A single file has nothing added by others.
pub proof fn law_single_file_stands_alone(file: FileScoreState)
    ensures
        aggregate::others_sum(seq![file]) == 0,
        aggregate::top_score(seq![file]) == file.score,
{
    let one = seq![file];
    assert(one.drop_last() =~= Seq::empty());
    assert(aggregate::bounded_sum(Seq::<FileScoreState>::empty()) == 0);
    assert(aggregate::top_score(Seq::<FileScoreState>::empty()) == 0);
}

/// The score of a report is the top score of its files and what it tells of the others, up to the
/// greatest score of the model.
pub proof fn law_score_is_top_plus_secondary(
    files: Seq<FileModel>,
    analyses: Seq<AnalysisModel>,
    config: ConfigModel,
    top: u32,
)
    requires
        ({
            let entries = analyze::report_of(files, analyses, config).by_file;
            &&& forall|i: int| 0 <= i < entries.len() ==> (#[trigger] entries[i]).score <= top
            &&& exists|i: int| 0 <= i < entries.len() && (#[trigger] entries[i]).score == top
        }),
    ensures
        ({
            let report = analyze::report_of(files, analyses, config);
            report.score == scoring::at_most(
                top + report.secondary_contribution,
                config.aggregation.max_score,
            )
        }),
{
    let entries = analyze::report_of(files, analyses, config).by_file;
    let book = analyze::final_book(files, analyses, config);
    let states = analyze::final_states(files, book.scores);
    law_top_score_is_the_maximum(states);
    let i = choose|i: int| 0 <= i < entries.len() && (#[trigger] entries[i]).score == top;
    assert(states[i].score == top);
    let j = choose|j: int|
        0 <= j < states.len() && (#[trigger] states[j]).score == aggregate::top_score(states);
    assert(entries[j].score == states[j].score);
}

/// Where the repository is known, no file is scored that its attributes make generated.
pub proof fn law_generated_files_are_not_scored(
    patch: Seq<char>,
    attributes: AttributesModel,
    names: Seq<Seq<char>>,
    i: int,
)
    requires
        requests::files_to_score(patch, Some(attributes), names) is Ok,
        0 <= i < requests::files_to_score(patch, Some(attributes), names)->Ok_0.len(),
    ensures
        gitattributes::loaded_rules(attributes, names) is Ok,
        !gitattributes::generated_path(
            gitattributes::loaded_rules(attributes, names)->Ok_0,
            requests::files_to_score(patch, Some(attributes), names)->Ok_0[i].path,
        ),
        patch::patch_files(patch).contains(
            requests::files_to_score(patch, Some(attributes), names)->Ok_0[i],
        ),
{
    let rules = gitattributes::loaded_rules(attributes, names)->Ok_0;
    let files = patch::patch_files(patch);
    let kept = gitattributes::handwritten(files, rules);
    gitattributes::law_generated_files_are_left_out(files, rules);
    assert(kept.contains(kept[i]));
}

/// The weight that a finding has by itself, or else the one that the model has for its kind.
pub open spec fn own_weight(finding: FindingModel, config: ConfigModel) -> u32 {
    if finding.weight_override is Some {
        finding.weight_override->0
    } else {
        config.weight(finding.kind)
    }
}

/// The reason that a finding gives.
pub open spec fn reason_of(finding: FindingModel, config: ConfigModel) -> ReasonModel {
    ReasonModel {
        kind: finding.kind,
        file: finding.path,
        weight: own_weight(finding, config),
        message: finding.message,
    }
}

proof fn lemma_findings_are_told(book: Book, findings: Seq<FindingModel>, config: ConfigModel)
    ensures
        analyze::with_findings(book, findings, config).reasons == book.reasons + Seq::new(
            findings.len(),
            |i: int| reason_of(findings[i], config),
        ),
    decreases findings.len(),
{
    let told = Seq::new(findings.len(), |i: int| reason_of(findings[i], config));
    if findings.len() == 0 {
        assert(book.reasons + told =~= book.reasons);
    } else {
        let before = findings.drop_last();
        lemma_findings_are_told(book, before, config);
        assert(Seq::new(before.len(), |i: int| reason_of(before[i], config)).push(
            reason_of(findings.last(), config),
        ) =~= told);
        assert((book.reasons + told.drop_last()).push(told.last()) =~= book.reasons + told);
        assert(told.drop_last() =~= Seq::new(before.len(), |i: int| reason_of(before[i], config)));
    }
}

/// The reasons of a report are those of the files by themselves, and behind them one for each
/// finding, in the order of the findings.
pub proof fn law_reasons_are_those_of_files_and_findings(
    files: Seq<FileModel>,
    analyses: Seq<AnalysisModel>,
    config: ConfigModel,
)
    ensures
        ({
            let findings = analyze::all_findings(analyses);
            analyze::report_of(files, analyses, config).reasons == analyze::file_book(
                files,
                config,
            ).reasons + Seq::new(findings.len(), |i: int| reason_of(findings[i], config))
        }),
{
    lemma_findings_are_told(
        analyze::file_book(files, config),
        analyze::all_findings(analyses),
        config,
    );
}

proof fn lemma_file_reasons_are_told(files: Seq<FileModel>, config: ConfigModel, i: int, n: int)
    requires
        0 <= i < files.len(),
        0 <= n < scoring::file_reasons(files[i], config).len(),
    ensures
        analyze::file_book(files, config).reasons.contains(
            scoring::file_reasons(files[i], config)[n],
        ),
    decreases files.len(),
{
    let before = analyze::file_book(files.drop_last(), config).reasons;
    let after = analyze::file_book(files, config).reasons;
    let wanted = scoring::file_reasons(files[i], config)[n];
    if i == files.len() - 1 {
        assert(after[before.len() + n] == wanted);
    } else {
        lemma_file_reasons_are_told(files.drop_last(), config, i, n);
        let k = choose|k: int| 0 <= k < before.len() && before[k] == wanted;
        assert(after[k] == wanted);
    }
}

/// A report explains the score of each file: one of its reasons has the weight of the base score,
/// and what size and history add is the weight of a reason too.
pub proof fn law_scores_are_explained(
    files: Seq<FileModel>,
    analyses: Seq<AnalysisModel>,
    config: ConfigModel,
    i: int,
)
    requires
        0 <= i < files.len(),
    ensures
        ({
            let reasons = analyze::report_of(files, analyses, config).reasons;
            let state = scoring::file_state(files[i], config);
            &&& exists|r: ReasonModel| #[trigger]
                reasons.contains(r) && r.file == files[i].path && r.weight == state.base_score
            &&& state.size_modifier > 0 ==> exists|r: ReasonModel| #[trigger]
                reasons.contains(r) && r.file == files[i].path && r.kind == ReasonKind::ChangeSize
                    && r.weight == state.size_modifier
            &&& state.hotspot_modifier > 0 ==> exists|r: ReasonModel| #[trigger]
                reasons.contains(r) && r.file == files[i].path && r.kind == ReasonKind::RepoHotspot
                    && r.weight == state.hotspot_modifier
        }),
{
    let file = files[i];
    let all = analyze::report_of(files, analyses, config).reasons;
    let own = scoring::file_reasons(file, config);
    law_reasons_are_those_of_files_and_findings(files, analyses, config);
    assert forall|n: int| 0 <= n < own.len() implies all.contains(#[trigger] own[n]) by {
        lemma_file_reasons_are_told(files, config, i, n);
        let told = analyze::file_book(files, config).reasons;
        let k = choose|k: int| 0 <= k < told.len() && told[k] == own[n];
        assert(all[k] == own[n]);
    }
    if signals::comment_only(file) {
        assert(all.contains(own[0]));
    } else {
        let base = scoring::base_of(file, config);
        let reasons = scoring::base_reasons(file, config);
        law_base_score_is_the_strongest_reason(file, config);
        let n = choose|n: int|
            0 <= n < reasons.len() && (#[trigger] reasons[n]).weight == base.base_score;
        assert(own[n] == reasons[n]);
        assert(all.contains(own[n]));
        lemma_reasons_name_their_file(file, config);
        assert(reasons[n].file == file.path);
        let size = scoring::size_modifier(file, base, config);
        if size > 0 {
            assert(own[reasons.len() as int] == scoring::size_reason(file, size));
            assert(all.contains(own[reasons.len() as int]));
        }
        let hotspot = scoring::hotspot_modifier(file, base, config);
        if hotspot > 0 {
            assert(own.last() == scoring::hotspot_reason(file, hotspot));
            assert(all.contains(own[own.len() - 1]));
        }
    }
}

proof fn lemma_reasons_name_their_file(file: FileModel, config: ConfigModel)
    ensures
        forall|n: int|
            0 <= n < scoring::base_reasons(file, config).len() ==> (
            #[trigger] scoring::base_reasons(file, config)[n]).file == file.path,
{
}

/// A scoring model decides what changes weigh, not which changes are seen: any two models count
/// the same changes of signatures, of control flow and of assertions.
pub proof fn law_models_see_the_same_changes(
    files: Seq<FileModel>,
    first: ConfigModel,
    second: ConfigModel,
)
    ensures
        ({
            let a = analyze::file_features(files, first);
            let b = analyze::file_features(files, second);
            &&& a.files_changed == b.files_changed
            &&& a.public_signature_changes == b.public_signature_changes
            &&& a.control_flow_changes == b.control_flow_changes
            &&& a.assertion_changes == b.assertion_changes
        }),
    decreases files.len(),
{
    if files.len() > 0 {
        law_models_see_the_same_changes(files.drop_last(), first, second);
    }
}

proof fn lemma_sum_grows(low: Seq<FileScoreState>, high: Seq<FileScoreState>)
    requires
        low.len() == high.len(),
        forall|i: int| 0 <= i < low.len() ==> (#[trigger] low[i]).score <= high[i].score,
    ensures
        aggregate::bounded_sum(low) <= aggregate::bounded_sum(high),
    decreases low.len(),
{
    if low.len() > 0 {
        let a = low.drop_last();
        let b = high.drop_last();
        assert forall|i: int| 0 <= i < a.len() implies (#[trigger] a[i]).score <= b[i].score by {
            assert(a[i] == low[i]);
        }
        lemma_sum_grows(a, b);
        assert(low[low.len() - 1].score <= high[low.len() - 1].score);
    }
}

proof fn lemma_others_grow(low: Seq<FileScoreState>, high: Seq<FileScoreState>)
    requires
        low.len() == high.len(),
        low.len() > 0,
        forall|i: int| 0 <= i < low.len() ==> (#[trigger] low[i]).score <= high[i].score,
    ensures
        aggregate::top_score(low) <= aggregate::top_score(high),
        0 <= aggregate::others_sum(low) <= aggregate::others_sum(high),
{
    law_top_score_is_the_maximum(low);
    law_top_score_is_the_maximum(high);
    let i = choose|i: int|
        0 <= i < low.len() && (#[trigger] low[i]).score == aggregate::top_score(low);
    assert(high[i].score <= aggregate::top_score(high));
    lemma_sum_without(low, i);
    let j = choose|j: int|
        0 <= j < high.len() && (#[trigger] high[j]).score == aggregate::top_score(high);
    assert(low[j].score <= aggregate::top_score(low));
    lemma_sum_without(low, j);
    lemma_sum_without(high, j);
    let a = low.remove(j);
    let b = high.remove(j);
    assert forall|k: int| 0 <= k < a.len() implies (#[trigger] a[k]).score <= b[k].score by {
        if k < j {
            assert(a[k] == low[k] && b[k] == high[k]);
        } else {
            assert(a[k] == low[k + 1] && b[k] == high[k + 1]);
        }
    }
    lemma_sum_grows(a, b);
}

/// A patch whose files score no less, and carry semantic risk where they did, scores no less. The
/// share of the other files must not be negative infinity.
pub proof fn law_higher_scores_never_lower_the_total(
    low: Seq<FileScoreState>,
    high: Seq<FileScoreState>,
    config: AggregationConfig,
)
    requires
        low.len() == high.len(),
        forall|i: int| 0 <= i < low.len() ==> (#[trigger] low[i]).score <= high[i].score,
        aggregate::any_risk(low) ==> aggregate::any_risk(high),
        !(config.secondary_ratio.is_infinite() && config.secondary_ratio.is_negative()),
    ensures
        aggregate::total(low, config) <= aggregate::total(high, config),
        aggregate::secondary(low, config) <= aggregate::secondary(high, config),
{
    if low.len() > 0 {
        lemma_others_grow(low, high);
        binary64::law_scaling_is_monotonic(
            config.secondary_ratio,
            scoring::at_most(aggregate::others_sum(low), u32::MAX),
            scoring::at_most(aggregate::others_sum(high), u32::MAX),
            config.secondary_cap,
        );
    } else {
        assert(low =~= high);
    }
}

/// Whether one book holds for each path of another a score that is no less, with the same semantic
/// risk.
pub open spec fn raises(before: Book, after: Book) -> bool {
    forall|path: Seq<char>| #[trigger]
        before.scores.dom().contains(path) ==> after.scores.dom().contains(path)
            && before.scores[path].score <= after.scores[path].score
            && before.scores[path].has_semantic_risk == after.scores[path].has_semantic_risk
}

proof fn lemma_findings_raise(book: Book, findings: Seq<FindingModel>, config: ConfigModel)
    requires
        forall|path: Seq<char>|
            book.scores.dom().contains(path) ==> adds_up(
                #[trigger] book.scores[path],
                config.aggregation.max_score,
            ),
    ensures
        raises(book, analyze::with_findings(book, findings, config)),
    decreases findings.len(),
{
    if findings.len() > 0 {
        let before = findings.drop_last();
        let last = findings.last();
        lemma_findings_raise(book, before, config);
        lemma_findings_add_up(book, before, config);
        let middle = analyze::with_findings(book, before, config);
        let after = analyze::with_findings(book, findings, config);
        assert forall|path: Seq<char>| #[trigger] book.scores.dom().contains(path) implies
            after.scores.dom().contains(path) && book.scores[path].score
            <= after.scores[path].score && book.scores[path].has_semantic_risk
            == after.scores[path].has_semantic_risk by {
            assert(middle.scores.dom().contains(path));
            if path == last.path {
                assert(adds_up(middle.scores[path], config.aggregation.max_score));
                law_findings_never_lower_a_score(
                    middle.scores[path],
                    last.score_mode,
                    analyze::finding_weight(last, config),
                    config.aggregation.max_score,
                );
            }
        }
    }
}

proof fn lemma_book_holds_each_path(files: Seq<FileModel>, config: ConfigModel, i: int)
    requires
        0 <= i < files.len(),
    ensures
        analyze::file_book(files, config).scores.dom().contains(files[i].path),
    decreases files.len(),
{
    if i < files.len() - 1 {
        lemma_book_holds_each_path(files.drop_last(), config, i);
    }
}

/// Plugins never lower a score: neither that of a file nor that of the report. The weight of a
/// change of comments alone must not be above the greatest score, and the share of the other files
/// must not be negative infinity.
pub proof fn law_plugins_never_lower_a_report(
    files: Seq<FileModel>,
    analyses: Seq<AnalysisModel>,
    config: ConfigModel,
)
    requires
        config.weight(ReasonKind::CommentOnly) <= config.aggregation.max_score,
        !(config.aggregation.secondary_ratio.is_infinite()
            && config.aggregation.secondary_ratio.is_negative()),
    ensures
        ({
            let without = analyze::report_of(files, Seq::empty(), config);
            let with = analyze::report_of(files, analyses, config);
            &&& without.score <= with.score
            &&& forall|i: int|
                0 <= i < files.len() ==> without.by_file[i].score <= (
                #[trigger] with.by_file[i]).score
        }),
{
    let none: Seq<AnalysisModel> = Seq::empty();
    assert(analyze::all_findings(none) =~= Seq::empty());
    let start = analyze::file_book(files, config);
    let end = analyze::final_book(files, analyses, config);
    assert(analyze::final_book(files, none, config) == start);
    lemma_file_book_adds_up(files, config);
    lemma_findings_raise(start, analyze::all_findings(analyses), config);
    let low = analyze::final_states(files, start.scores);
    let high = analyze::final_states(files, end.scores);
    assert forall|i: int| 0 <= i < files.len() implies (#[trigger] low[i]).score <= high[i].score
        && low[i].has_semantic_risk == high[i].has_semantic_risk by {
        lemma_book_holds_each_path(files, config, i);
        assert(start.scores[files[i].path].score <= end.scores[files[i].path].score);
    }
    if aggregate::any_risk(low) {
        let i = choose|i: int| 0 <= i < low.len() && (#[trigger] low[i]).has_semantic_risk;
        assert(high[i].has_semantic_risk);
    }
    law_higher_scores_never_lower_the_total(low, high, config.aggregation);
    let without = analyze::report_of(files, none, config);
    let with = analyze::report_of(files, analyses, config);
    assert forall|i: int| 0 <= i < files.len() implies without.by_file[i].score <= (
    #[trigger] with.by_file[i]).score by {
        assert(low[i].score <= high[i].score);
    }
}

/// The greatest weight of the base findings on a path; 0 where there are none.
pub open spec fn strongest_base(
    findings: Seq<FindingModel>,
    path: Seq<char>,
    config: ConfigModel,
) -> u32
    decreases findings.len(),
{
    if findings.len() == 0 {
        0
    } else {
        let before = strongest_base(findings.drop_last(), path, config);
        let last = findings.last();
        if last.path == path && last.score_mode == PluginScoreMode::Base {
            greater(before, own_weight(last, config))
        } else {
            before
        }
    }
}

/// The sum of the weights of the additive findings on a path.
pub open spec fn additive_sum(
    findings: Seq<FindingModel>,
    path: Seq<char>,
    config: ConfigModel,
) -> nat
    decreases findings.len(),
{
    if findings.len() == 0 {
        0
    } else {
        let before = additive_sum(findings.drop_last(), path, config);
        let last = findings.last();
        if last.path == path && last.score_mode == PluginScoreMode::Additive {
            before + own_weight(last, config) as nat
        } else {
            before
        }
    }
}

/// Findings raise the base score of a file to the weight of the strongest base finding on it, add the
/// weights of the additive ones to what plugins contribute, and leave the rest of its score alone. A
/// finding without a weight of its own weighs what the model says of its kind. Findings on other paths
/// change nothing.
pub proof fn law_findings_fold_into_scores(
    book: Book,
    findings: Seq<FindingModel>,
    path: Seq<char>,
    config: ConfigModel,
)
    requires
        book.scores.dom().contains(path),
    ensures
        ({
            let before = book.scores[path];
            let after = analyze::with_findings(book, findings, config).scores[path];
            &&& analyze::with_findings(book, findings, config).scores.dom().contains(path)
            &&& after.base_score == greater(
                before.base_score,
                strongest_base(findings, path, config),
            )
            &&& after.plugin_contribution == scoring::at_most(
                before.plugin_contribution + additive_sum(findings, path, config),
                u32::MAX,
            )
            &&& after.size_modifier == before.size_modifier
            &&& after.hotspot_modifier == before.hotspot_modifier
            &&& after.has_semantic_risk == before.has_semantic_risk
        }),
    decreases findings.len(),
{
    if findings.len() > 0 {
        law_findings_fold_into_scores(book, findings.drop_last(), path, config);
    }
}

/// The entry of a file in a report, with what plugins found: its base score is the greater one of its
/// own and of the strongest base finding, plugins contribute the sum of the additive findings, size
/// and history are its own, and its score is the sum of all these, up to the greatest score.
pub proof fn law_entries_with_findings(
    files: Seq<FileModel>,
    analyses: Seq<AnalysisModel>,
    config: ConfigModel,
    i: int,
)
    requires
        0 <= i < files.len(),
        forall|j: int| i < j < files.len() ==> (#[trigger] files[j]).path != files[i].path,
        config.weight(ReasonKind::CommentOnly) <= config.aggregation.max_score,
    ensures
        ({
            let own = scoring::file_state(files[i], config);
            let findings = analyze::all_findings(analyses);
            let entry = analyze::report_of(files, analyses, config).by_file[i];
            &&& entry.path == files[i].path
            &&& entry.base_score == greater(
                own.base_score,
                strongest_base(findings, files[i].path, config),
            )
            &&& entry.plugin_contribution == scoring::at_most(
                additive_sum(findings, files[i].path, config) as int,
                u32::MAX,
            )
            &&& entry.size_modifier == own.size_modifier
            &&& entry.hotspot_modifier == own.hotspot_modifier
            &&& entry.score == scoring::at_most(
                entry.base_score + entry.size_modifier + entry.hotspot_modifier
                    + entry.plugin_contribution,
                config.aggregation.max_score,
            )
        }),
{
    lemma_book_holds_file(files, config, i);
    law_findings_fold_into_scores(
        analyze::file_book(files, config),
        analyze::all_findings(analyses),
        files[i].path,
        config,
    );
    law_file_scores_add_up(files, analyses, config, i);
}

/// A base finding without a weight of its own raises the base score of its file to at least the weight
/// of its kind in the model, an additive one adds at least that weight to what plugins contribute, and
/// the reason of the finding has that weight.
pub proof fn law_findings_weigh_what_their_kind_does(
    files: Seq<FileModel>,
    analyses: Seq<AnalysisModel>,
    config: ConfigModel,
    i: int,
    k: int,
)
    requires
        0 <= i < files.len(),
        forall|j: int| i < j < files.len() ==> (#[trigger] files[j]).path != files[i].path,
        config.weight(ReasonKind::CommentOnly) <= config.aggregation.max_score,
        0 <= k < analyze::all_findings(analyses).len(),
        analyze::all_findings(analyses)[k].path == files[i].path,
        analyze::all_findings(analyses)[k].weight_override is None,
    ensures
        ({
            let finding = analyze::all_findings(analyses)[k];
            let weight = config.weight(finding.kind);
            let report = analyze::report_of(files, analyses, config);
            let entry = report.by_file[i];
            &&& finding.score_mode == PluginScoreMode::Base ==> entry.base_score >= weight
            &&& finding.score_mode == PluginScoreMode::Additive ==> entry.plugin_contribution
                >= weight
            &&& report.reasons.contains(
                ReasonModel {
                    kind: finding.kind,
                    file: finding.path,
                    weight,
                    message: finding.message,
                },
            )
        }),
{
    let findings = analyze::all_findings(analyses);
    law_entries_with_findings(files, analyses, config, i);
    lemma_finding_counts(findings, k, config);
    law_reasons_are_those_of_files_and_findings(files, analyses, config);
    let own = analyze::file_book(files, config).reasons;
    let reasons = analyze::report_of(files, analyses, config).reasons;
    assert(reasons[own.len() + k] == reason_of(findings[k], config));
}

proof fn lemma_finding_counts(findings: Seq<FindingModel>, k: int, config: ConfigModel)
    requires
        0 <= k < findings.len(),
    ensures
        findings[k].score_mode == PluginScoreMode::Base ==> strongest_base(
            findings,
            findings[k].path,
            config,
        ) >= own_weight(findings[k], config),
        findings[k].score_mode == PluginScoreMode::Additive ==> additive_sum(
            findings,
            findings[k].path,
            config,
        ) >= own_weight(findings[k], config),
    decreases findings.len(),
{
    if k < findings.len() - 1 {
        lemma_finding_counts(findings.drop_last(), k, config);
    }
}

/// The findings of all plugins come in the order of the plugins.
pub proof fn law_findings_of_all_plugins(
    first: Seq<AnalysisModel>,
    second: Seq<AnalysisModel>,
    one: AnalysisModel,
)
    ensures
        analyze::all_findings(first + second) == analyze::all_findings(first)
            + analyze::all_findings(second),
        analyze::all_findings(seq![one]) == one.findings,
    decreases second.len(),
{
    if second.len() == 0 {
        assert(first + second =~= first);
        assert(analyze::all_findings(first) + analyze::all_findings(second)
            =~= analyze::all_findings(first));
    } else {
        law_findings_of_all_plugins(first, second.drop_last(), one);
        assert((first + second).drop_last() =~= first + second.drop_last());
        assert(analyze::all_findings(first + second) =~= analyze::all_findings(first)
            + analyze::all_findings(second));
    }
    reveal_with_fuel(analyze::all_findings, 2);
    assert(seq![one].drop_last() =~= Seq::empty());
    assert(analyze::all_findings(seq![one]) =~= one.findings);
}

/// The reasons of the files come in the order of the files, and each file gives its own.
pub proof fn law_reasons_of_all_files(
    first: Seq<FileModel>,
    second: Seq<FileModel>,
    one: FileModel,
    config: ConfigModel,
)
    ensures
        analyze::file_book(first + second, config).reasons == analyze::file_book(
            first,
            config,
        ).reasons + analyze::file_book(second, config).reasons,
        analyze::file_book(seq![one], config).reasons == scoring::file_reasons(one, config),
    decreases second.len(),
{
    if second.len() == 0 {
        assert(first + second =~= first);
        assert(analyze::file_book(first, config).reasons + analyze::file_book(
            second,
            config,
        ).reasons =~= analyze::file_book(first, config).reasons);
    } else {
        law_reasons_of_all_files(first, second.drop_last(), one, config);
        assert((first + second).drop_last() =~= first + second.drop_last());
        assert(analyze::file_book(first + second, config).reasons =~= analyze::file_book(
            first,
            config,
        ).reasons + analyze::file_book(second, config).reasons);
    }
    reveal_with_fuel(analyze::file_book, 2);
    assert(seq![one].drop_last() =~= Seq::empty());
    assert(analyze::file_book(seq![one], config).reasons =~= scoring::file_reasons(one, config));
}

/// A report says which model it was made with, and its decision is the one that the model has for its
/// score.
pub proof fn law_reports_follow_their_model(
    files: Seq<FileModel>,
    analyses: Seq<AnalysisModel>,
    config: ConfigModel,
)
    ensures
        ({
            let report = analyze::report_of(files, analyses, config);
            let bands = config.decision_thresholds;
            &&& report.schema_version == crate::digits::decimal(config.schema_version as nat)
            &&& report.scoring_model_version == config.scoring_model_version
            &&& report.decision == Decision::SkipReview <==> report.score <= bands.skip_review_max
            &&& report.decision == Decision::ReviewOptional <==> bands.skip_review_max
                < report.score <= bands.review_optional_max
            &&& report.decision == Decision::ReviewSuggested <==> report.score
                > bands.skip_review_max && report.score > bands.review_optional_max && report.score
                <= bands.review_suggested_max
            &&& report.decision == Decision::ReviewRecommended <==> report.score
                > bands.skip_review_max && report.score > bands.review_optional_max && report.score
                > bands.review_suggested_max && report.score <= bands.review_recommended_max
            &&& report.decision == Decision::ReviewRequired <==> report.score
                > bands.skip_review_max && report.score > bands.review_optional_max && report.score
                > bands.review_suggested_max && report.score > bands.review_recommended_max
            &&& report.confidence == analyze::overall_confidence(analyses)
        }),
{
}

/// The model weighs a kind by the first rule that it has for it, and by 0 where it has none.
pub proof fn law_first_rule_counts(config: ConfigModel, kind: ReasonKind, i: int)
    requires
        0 <= i <= config.rules.len(),
        i < config.rules.len() ==> config.rules[i].kind == kind,
        forall|j: int| 0 <= j < i ==> (#[trigger] config.rules[j]).kind != kind,
    ensures
        config.weight(kind) == (if i < config.rules.len() {
            config.rules[i].score
        } else {
            0
        }),
{
    lemma_first_rule(config.rules, kind, i);
}

proof fn lemma_first_rule(rules: Seq<config::RuleConfig>, kind: ReasonKind, i: int)
    requires
        0 <= i <= rules.len(),
        i < rules.len() ==> rules[i].kind == kind,
        forall|j: int| 0 <= j < i ==> (#[trigger] rules[j]).kind != kind,
    ensures
        config::first_weight(rules, kind) == (if i < rules.len() {
            rules[i].score
        } else {
            0
        }),
    decreases rules.len(),
{
    if i > 0 {
        let rest = rules.skip(1);
        assert forall|j: int| 0 <= j < i - 1 implies (#[trigger] rest[j]).kind != kind by {
            assert(rest[j] == rules[j + 1]);
        }
        assert(rules[0].kind != kind);
        lemma_first_rule(rest, kind, i - 1);
    }
}

/// The weights of the built-in model.
pub proof fn law_built_in_weights()
    ensures
        ({
            let m = config::default_model();
            &&& m.weight(ReasonKind::CommentOnly) == 0
            &&& m.weight(ReasonKind::ImportOnly) == 5
            &&& m.weight(ReasonKind::ChangeSize) == 25
            &&& m.weight(ReasonKind::RepoHotspot) == 15
            &&& m.weight(ReasonKind::RefactorLikeChange) == 10
            &&& m.weight(ReasonKind::PublicInterfaceChange) == 75
            &&& m.weight(ReasonKind::ControlFlowChange) == 65
            &&& m.weight(ReasonKind::TestExpectationChange) == 55
            &&& m.weight(ReasonKind::GenericCodeChange) == 20
            &&& m.weight(ReasonKind::PluginSignal) == 10
            &&& m.weight(ReasonKind::GoExportedApiChange) == 25
            &&& m.weight(ReasonKind::GoInterfaceBreak) == 30
            &&& m.weight(ReasonKind::GoConcurrencyChange) == 20
            &&& m.weight(ReasonKind::GoErrorHandlingChange) == 25
            &&& m.weight(ReasonKind::GoReceiverChange) == 25
            &&& m.weight(ReasonKind::GoTestOracleChange) == 30
            &&& m.weight(ReasonKind::GoRuntimeBehaviorChange) == 25
            &&& m.weight(ReasonKind::GoResourceLifecycleChange) == 25
            &&& m.weight(ReasonKind::GoAnalysisFallback) == 0
            &&& m.weight(ReasonKind::TypeScriptExportedApiChange) == 25
            &&& m.weight(ReasonKind::TypeScriptInterfaceBreak) == 30
            &&& m.weight(ReasonKind::TypeScriptAsyncChange) == 20
            &&& m.weight(ReasonKind::TypeScriptErrorHandlingChange) == 25
            &&& m.weight(ReasonKind::TypeScriptMemberKindChange) == 25
            &&& m.weight(ReasonKind::TypeScriptTestOracleChange) == 30
            &&& m.weight(ReasonKind::TypeScriptRuntimeBehaviorChange) == 25
            &&& m.weight(ReasonKind::TypeScriptResourceLifecycleChange) == 25
            &&& m.weight(ReasonKind::TypeScriptAnalysisFallback) == 0
            &&& m.aggregation.max_score == 100
            &&& m.aggregation.secondary_cap == 12
            &&& m.schema_version == 1
            &&& m.scoring_model_version == "v1"@
            &&& m.gitattributes_skip_attributes == seq!["linguist-generated"@]
        }),
{
    lemma_default_weights_used();
    config::law_default_weights(ReasonKind::PluginSignal);
    config::law_default_weights(ReasonKind::GoExportedApiChange);
    config::law_default_weights(ReasonKind::GoInterfaceBreak);
    config::law_default_weights(ReasonKind::GoConcurrencyChange);
    config::law_default_weights(ReasonKind::GoErrorHandlingChange);
    config::law_default_weights(ReasonKind::GoReceiverChange);
    config::law_default_weights(ReasonKind::GoTestOracleChange);
    config::law_default_weights(ReasonKind::GoRuntimeBehaviorChange);
    config::law_default_weights(ReasonKind::GoResourceLifecycleChange);
    config::law_default_weights(ReasonKind::GoAnalysisFallback);
    config::law_default_weights(ReasonKind::TypeScriptExportedApiChange);
    config::law_default_weights(ReasonKind::TypeScriptInterfaceBreak);
    config::law_default_weights(ReasonKind::TypeScriptAsyncChange);
    config::law_default_weights(ReasonKind::TypeScriptErrorHandlingChange);
    config::law_default_weights(ReasonKind::TypeScriptMemberKindChange);
    config::law_default_weights(ReasonKind::TypeScriptTestOracleChange);
    config::law_default_weights(ReasonKind::TypeScriptRuntimeBehaviorChange);
    config::law_default_weights(ReasonKind::TypeScriptResourceLifecycleChange);
    config::law_default_weights(ReasonKind::TypeScriptAnalysisFallback);
}

/// What the changed lines of a file weigh: the strongest one of imports alone, of a changed public
/// interface outside of tests, which weighs like a refactoring where all shapes stay, of control flow,
/// which weighs at most 20 in tests, and of changed expectations of a test.
pub open spec fn line_weight(file: FileModel, config: ConfigModel) -> u32 {
    let import = weight_if(signals::import_only(file), config.weight(ReasonKind::ImportOnly));
    let interface = weight_if(
        !file.is_test() && signals::public_interface_change(file),
        if normalize::refactor_like(file) {
            config.weight(ReasonKind::RefactorLikeChange)
        } else {
            config.weight(ReasonKind::PublicInterfaceChange)
        },
    );
    let flow = match signals::flow_weight(file, config) {
        Some(weight) => if file.is_test() && weight > 20 {
            20
        } else {
            weight
        },
        None => 0,
    };
    let expectation = weight_if(
        file.is_test() && oracle::expectation_change(file),
        config.weight(ReasonKind::TestExpectationChange),
    );
    greater(greater(import, interface), greater(flow, expectation))
}

/// The base score of a file is the weight of its changed lines; where they weigh nothing, that of a
/// refactoring; and where that weighs nothing either, that of a generic change.
pub proof fn law_base_scores(file: FileModel, config: ConfigModel)
    ensures
        ({
            let line = line_weight(file, config);
            let refactoring = weight_if(
                normalize::refactor_like(file),
                config.weight(ReasonKind::RefactorLikeChange),
            );
            scoring::base_of(file, config).base_score == if line > 0 {
                line
            } else if refactoring > 0 {
                refactoring
            } else {
                config.weight(ReasonKind::GenericCodeChange)
            }
        }),
        scoring::base_of(file, config).refactor_like == normalize::refactor_like(file),
        scoring::base_of(file, config).has_semantic_risk <==> {
            ||| !file.is_test() && signals::public_interface_change(file)
                && !normalize::refactor_like(file)
            ||| signals::control_flow_change(file)
            ||| file.is_test() && oracle::expectation_change(file)
        },
{
    lemma_line_strength(file, config);
    lemma_base_strength(file, config);
}

/// Whether one of the reasons is of a kind, with the given weight and message, and names the file.
pub open spec fn gives_reason(
    reasons: Seq<ReasonModel>,
    file: FileModel,
    kind: ReasonKind,
    weight: u32,
    message: Seq<char>,
) -> bool {
    reasons.contains(ReasonModel { kind, file: file.path, weight, message })
}

/// Whether one of the reasons is of a kind.
pub open spec fn has_kind(reasons: Seq<ReasonModel>, kind: ReasonKind) -> bool {
    exists|i: int| 0 <= i < reasons.len() && (#[trigger] reasons[i]).kind == kind
}

/// Each signal of a file is told by a reason of its kind, with its weight and its message, and no
/// signal is told that is not there.
#[verifier::spinoff_prover]
#[verifier::rlimit(60)]
pub proof fn law_base_reasons_tell_the_signals(file: FileModel, config: ConfigModel)
    ensures
        ({
            let reasons = scoring::base_reasons(file, config);
            let interface = !file.is_test() && signals::public_interface_change(file);
            let alone = line_weight(file, config) == 0;
            let refactoring = config.weight(ReasonKind::RefactorLikeChange);
            &&& has_kind(reasons, ReasonKind::ImportOnly) <==> signals::import_only(file)
            &&& signals::import_only(file) ==> gives_reason(
                reasons,
                file,
                ReasonKind::ImportOnly,
                config.weight(ReasonKind::ImportOnly),
                "import or package declaration change"@,
            )
            &&& has_kind(reasons, ReasonKind::PublicInterfaceChange) <==> interface
                && !normalize::refactor_like(file)
            &&& interface && !normalize::refactor_like(file) ==> gives_reason(
                reasons,
                file,
                ReasonKind::PublicInterfaceChange,
                config.weight(ReasonKind::PublicInterfaceChange),
                "public interface changed"@,
            )
            &&& interface && normalize::refactor_like(file) ==> gives_reason(
                reasons,
                file,
                ReasonKind::RefactorLikeChange,
                refactoring,
                "public interface rename-like change"@,
            )
            &&& has_kind(reasons, ReasonKind::ControlFlowChange) <==> signals::control_flow_change(
                file,
            )
            &&& signals::flow_weight(file, config) matches Some(weight) ==> gives_reason(
                reasons,
                file,
                ReasonKind::ControlFlowChange,
                if file.is_test() && weight > 20 {
                    20
                } else {
                    weight
                },
                "control flow changed"@,
            )
            &&& has_kind(reasons, ReasonKind::TestExpectationChange) <==> file.is_test()
                && oracle::expectation_change(file)
            &&& file.is_test() && oracle::expectation_change(file) ==> gives_reason(
                reasons,
                file,
                ReasonKind::TestExpectationChange,
                config.weight(ReasonKind::TestExpectationChange),
                "test expectation changed"@,
            )
            &&& has_kind(reasons, ReasonKind::RefactorLikeChange) <==> normalize::refactor_like(
                file,
            ) && (interface || alone)
            &&& normalize::refactor_like(file) && alone ==> gives_reason(
                reasons,
                file,
                ReasonKind::RefactorLikeChange,
                refactoring,
                "refactor-like change"@,
            )
            &&& has_kind(reasons, ReasonKind::GenericCodeChange) <==> alone && (
            normalize::refactor_like(file) ==> refactoring == 0)
            &&& has_kind(reasons, ReasonKind::GenericCodeChange) ==> gives_reason(
                reasons,
                file,
                ReasonKind::GenericCodeChange,
                config.weight(ReasonKind::GenericCodeChange),
                "generic code change"@,
            )
            &&& forall|i: int|
                0 <= i < reasons.len() ==> {
                    let kind = (#[trigger] reasons[i]).kind;
                    ||| kind == ReasonKind::ImportOnly
                    ||| kind == ReasonKind::PublicInterfaceChange
                    ||| kind == ReasonKind::RefactorLikeChange
                    ||| kind == ReasonKind::ControlFlowChange
                    ||| kind == ReasonKind::TestExpectationChange
                    ||| kind == ReasonKind::GenericCodeChange
                }
        }),
{
    lemma_line_strength(file, config);
    assert(scoring::strongest(scoring::line_reasons(file, config)) == line_weight(file, config));
    let import = scoring::reason(
        file,
        ReasonKind::ImportOnly,
        config.weight(ReasonKind::ImportOnly),
        "import or package declaration change"@,
    );
    let interface = scoring::interface_reason(file, config);
    let flow = scoring::flow_reason(file, config);
    let expectation = scoring::reason(
        file,
        ReasonKind::TestExpectationChange,
        config.weight(ReasonKind::TestExpectationChange),
        "test expectation changed"@,
    );
    let refactoring = scoring::reason(
        file,
        ReasonKind::RefactorLikeChange,
        config.weight(ReasonKind::RefactorLikeChange),
        "refactor-like change"@,
    );
    let generic = scoring::reason(
        file,
        ReasonKind::GenericCodeChange,
        config.weight(ReasonKind::GenericCodeChange),
        "generic code change"@,
    );
    lemma_told_reasons(
        (signals::import_only(file), import),
        (scoring::interface_signal(file), interface),
        (signals::control_flow_change(file), flow),
        (scoring::expectation_signal(file), expectation),
        (scoring::told_as_refactoring(file, config), refactoring),
        (scoring::told_as_generic(file, config), generic),
    );
}

proof fn lemma_told_reasons(
    a: (bool, ReasonModel),
    b: (bool, ReasonModel),
    c: (bool, ReasonModel),
    d: (bool, ReasonModel),
    e: (bool, ReasonModel),
    f: (bool, ReasonModel),
)
    ensures
        ({
            let all = scoring::only_if(a.0, a.1) + scoring::only_if(b.0, b.1) + scoring::only_if(
                c.0,
                c.1,
            ) + scoring::only_if(d.0, d.1) + scoring::only_if(e.0, e.1) + scoring::only_if(
                f.0,
                f.1,
            );
            &&& a.0 ==> all.contains(a.1)
            &&& b.0 ==> all.contains(b.1)
            &&& c.0 ==> all.contains(c.1)
            &&& d.0 ==> all.contains(d.1)
            &&& e.0 ==> all.contains(e.1)
            &&& f.0 ==> all.contains(f.1)
            &&& forall|i: int|
                0 <= i < all.len() ==> {
                    let r = #[trigger] all[i];
                    ||| a.0 && r == a.1
                    ||| b.0 && r == b.1
                    ||| c.0 && r == c.1
                    ||| d.0 && r == d.1
                    ||| e.0 && r == e.1
                    ||| f.0 && r == f.1
                }
            &&& forall|kind: ReasonKind| #[trigger]
                has_kind(all, kind) <==> {
                    ||| a.0 && a.1.kind == kind
                    ||| b.0 && b.1.kind == kind
                    ||| c.0 && c.1.kind == kind
                    ||| d.0 && d.1.kind == kind
                    ||| e.0 && e.1.kind == kind
                    ||| f.0 && f.1.kind == kind
                }
        }),
{
    let all = scoring::only_if(a.0, a.1) + scoring::only_if(b.0, b.1) + scoring::only_if(c.0, c.1)
        + scoring::only_if(d.0, d.1) + scoring::only_if(e.0, e.1) + scoring::only_if(f.0, f.1);
    let n1 = if a.0 { 1int } else { 0 };
    let n2 = n1 + if b.0 { 1int } else { 0 };
    let n3 = n2 + if c.0 { 1int } else { 0 };
    let n4 = n3 + if d.0 { 1int } else { 0 };
    let n5 = n4 + if e.0 { 1int } else { 0 };
    let n6 = n5 + if f.0 { 1int } else { 0 };
    assert(all.len() == n6);
    assert(a.0 ==> all[0] == a.1);
    assert(b.0 ==> all[n1] == b.1);
    assert(c.0 ==> all[n2] == c.1);
    assert(d.0 ==> all[n3] == d.1);
    assert(e.0 ==> all[n4] == e.1);
    assert(f.0 ==> all[n5] == f.1);
}

/// How many lines a change has, and how many lines the source has that it is held against: the one
/// behind the change, or the one before it; an empty source counts as one line.
pub open spec fn source_lines(file: FileModel) -> Option<nat> {
    let source = if file.after_source is Some {
        file.after_source
    } else {
        file.before_source
    };
    match source {
        Some(source) => Some(
            if text::line_seq(source).len() == 0 {
                1
            } else {
                text::line_seq(source).len()
            },
        ),
        None => None,
    }
}

/// What the size of a change weighs outside of tests, where the model weighs sizes at all: nothing
/// below 4 lines, 4 from 4 lines on, 8 from 10 on, and 12 from 25 on. From 6 lines on, a change of
/// three tenths of the source weighs 8, and one of six tenths 12.
pub proof fn law_sizes(file: FileModel, config: ConfigModel)
    ensures
        ({
            let lines = file.added.len() + file.removed.len();
            let weight = scoring::size_weight(file, config);
            let three_tenths = source_lines(file) matches Some(n) && lines >= 6 && 10 * lines >= 3
                * n;
            let six_tenths = source_lines(file) matches Some(n) && lines >= 6 && 10 * lines >= 6
                * n;
            &&& config.weight(ReasonKind::ChangeSize) == 0 ==> weight == 0
            &&& config.weight(ReasonKind::ChangeSize) > 0 && !file.is_test() ==> {
                &&& weight == 12 <==> lines >= 25 || six_tenths
                &&& weight == 8 <==> (lines >= 10 || three_tenths) && !(lines >= 25 || six_tenths)
                &&& weight == 4 <==> 4 <= lines < 10 && !three_tenths
                &&& weight == 0 <==> lines < 4
            }
            &&& config.weight(ReasonKind::ChangeSize) > 0 && file.is_test() ==> {
                &&& weight == 6 <==> lines >= 25 || six_tenths
                &&& weight == 4 <==> (lines >= 10 || three_tenths) && !(lines >= 25 || six_tenths)
                &&& weight == 2 <==> 4 <= lines < 10 && !three_tenths
                &&& weight == 0 <==> lines < 4
            }
        }),
{
}

/// What size and history can add to a base score: nothing up to 10, 8 up to 29, 12 up to 54, and 18
/// above.
pub proof fn law_caps(base_score: u32)
    ensures
        scoring::cap_of(base_score) == 0 <==> base_score <= 10,
        scoring::cap_of(base_score) == 8 <==> 11 <= base_score <= 29,
        scoring::cap_of(base_score) == 12 <==> 30 <= base_score <= 54,
        scoring::cap_of(base_score) == 18 <==> base_score >= 55,
{
}

/// What the size of a change adds: its weight where there is semantic risk, a third of it, rounded up,
/// where there is none, never more than the cap of the base score, and nothing to a refactoring.
pub proof fn law_sizes_add(file: FileModel, base: BaseScoring, config: ConfigModel)
    ensures
        ({
            let weight = scoring::size_weight(file, config);
            let cap = scoring::cap_of(base.base_score);
            let size = scoring::size_modifier(file, base, config);
            &&& base.refactor_like ==> size == 0
            &&& !base.refactor_like && base.has_semantic_risk ==> size == if weight < cap {
                weight
            } else {
                cap
            }
            &&& !base.refactor_like && !base.has_semantic_risk ==> {
                &&& size == cap || (3 * size >= weight && 3 * size <= weight + 2)
                &&& size <= cap
                &&& size == cap ==> 3 * cap <= weight + 2 || cap == 0
            }
        }),
{
}

/// What the history of a file weighs: 4 from 4 commits on and 8 from 10 on, at most 3 in tests, and
/// nothing without a history or where the model does not weigh it. Of this as much is added to a base
/// score with semantic risk as the size leaves of the cap.
pub proof fn law_histories(file: FileModel, base: BaseScoring, config: ConfigModel)
    ensures
        ({
            let weighs = config.weight(ReasonKind::RepoHotspot) > 0;
            let commits = match file.history {
                Some(history) => history.prior_commits as int,
                None => 0,
            };
            let weight = scoring::hotspot_weight(file, config);
            let left = scoring::cap_of(base.base_score) - scoring::size_modifier(
                file,
                base,
                config,
            );
            let added = scoring::hotspot_modifier(file, base, config);
            &&& weight == 0 <==> !weighs || commits < 4
            &&& weighs && !file.is_test() ==> (weight == 4 <==> 4 <= commits < 10) && (weight == 8
                <==> commits >= 10)
            &&& weighs && file.is_test() ==> (weight == 3 <==> commits >= 4)
            &&& base.refactor_like || !base.has_semantic_risk ==> added == 0
            &&& !base.refactor_like && base.has_semantic_risk ==> added == if weight < left {
                weight as int
            } else {
                left
            }
        }),
{
}

/// What is told of size and history: how many lines were changed, and how many commits and authors
/// there were before.
pub proof fn law_modifiers_are_explained(file: FileModel, base: BaseScoring, config: ConfigModel)
    ensures
        ({
            let reasons = scoring::modifier_reasons(file, base, config);
            let size = scoring::size_modifier(file, base, config);
            let hotspot = scoring::hotspot_modifier(file, base, config);
            &&& size > 0 ==> reasons.first() == (ReasonModel {
                kind: ReasonKind::ChangeSize,
                file: file.path,
                weight: size,
                message: "change size increased review load ("@ + crate::digits::decimal(
                    file.added.len() + file.removed.len(),
                ) + " changed lines)"@,
            })
            &&& hotspot > 0 ==> reasons.last() == (ReasonModel {
                kind: ReasonKind::RepoHotspot,
                file: file.path,
                weight: hotspot,
                message: "repo hotspot with "@ + crate::digits::decimal(
                    file.history->0.prior_commits as nat,
                ) + " prior commits across "@ + crate::digits::decimal(
                    file.history->0.prior_authors as nat,
                ) + " authors"@,
            })
        }),
{
    law_modifiers_are_told(file, base, config);
}

/// The score of a file by itself: that of comments alone where nothing else is changed; else its base
/// score and what size and history add, up to the greatest score. Its reasons are those of the base
/// score and behind them those of size and history.
pub proof fn law_files_by_themselves(file: FileModel, config: ConfigModel)
    ensures
        ({
            let state = scoring::file_state(file, config);
            let base = scoring::base_of(file, config);
            let size = scoring::size_modifier(file, base, config);
            let hotspot = scoring::hotspot_modifier(file, base, config);
            let sum = base.base_score + size + hotspot;
            let comment = config.weight(ReasonKind::CommentOnly);
            let only_comments = forall|i: int|
                0 <= i < file.added.len() + file.removed.len() ==> signals::comment_or_blank(
                    #[trigger] (file.added + file.removed)[i],
                );
            &&& state.plugin_contribution == 0
            &&& only_comments ==> {
                &&& state.base_score == comment
                &&& state.score == comment
                &&& state.size_modifier == 0
                &&& state.hotspot_modifier == 0
                &&& !state.has_semantic_risk
                &&& scoring::file_reasons(file, config) == seq![
                    ReasonModel {
                        kind: ReasonKind::CommentOnly,
                        file: file.path,
                        weight: comment,
                        message: "comment or whitespace only change"@,
                    },
                ]
            }
            &&& !only_comments ==> {
                &&& state.base_score == base.base_score
                &&& state.size_modifier == size
                &&& state.hotspot_modifier == hotspot
                &&& state.has_semantic_risk == base.has_semantic_risk
                &&& state.score == if sum < config.aggregation.max_score {
                    sum
                } else {
                    config.aggregation.max_score as int
                }
                &&& scoring::file_reasons(file, config) == scoring::base_reasons(file, config)
                    + scoring::modifier_reasons(file, base, config)
            }
        }),
{
    assert(file.changed() == file.added + file.removed);
}

/// How many of the files have a property and are not changed in comments alone.
pub open spec fn number_of(files: Seq<FileModel>, p: spec_fn(FileModel) -> bool) -> nat
    decreases files.len(),
{
    if files.len() == 0 {
        0
    } else {
        number_of(files.drop_last(), p) + if !signals::comment_only(files.last()) && p(
            files.last(),
        ) {
            1nat
        } else {
            0
        }
    }
}

/// A report counts the files with a changed public interface, with changed control flow and with
/// changed expectations, and those to whose score size and history add.
pub proof fn law_features_count_files(files: Seq<FileModel>, config: ConfigModel)
    ensures
        ({
            let features = analyze::file_features(files, config);
            &&& features.files_changed == files.len()
            &&& features.public_signature_changes == number_of(
                files,
                |file: FileModel| !file.is_test() && signals::public_interface_change(file),
            )
            &&& features.control_flow_changes == number_of(
                files,
                |file: FileModel| signals::control_flow_change(file),
            )
            &&& features.assertion_changes == number_of(
                files,
                |file: FileModel| file.is_test() && oracle::expectation_change(file),
            )
            &&& features.size_signals == number_of(
                files,
                |file: FileModel| scoring::file_state(file, config).size_modifier > 0,
            )
            &&& features.hotspot_signals == number_of(
                files,
                |file: FileModel| scoring::file_state(file, config).hotspot_modifier > 0,
            )
            &&& features.plugin_signals == 0
        }),
    decreases files.len(),
{
    if files.len() > 0 {
        law_features_count_files(files.drop_last(), config);
    }
}

/// A report counts what its files show, and the findings of the plugins.
pub proof fn law_reports_count(
    files: Seq<FileModel>,
    analyses: Seq<AnalysisModel>,
    config: ConfigModel,
)
    ensures
        ({
            let features = analyze::report_of(files, analyses, config).feature_vector;
            let own = analyze::file_features(files, config);
            &&& features.files_changed == own.files_changed
            &&& features.public_signature_changes == own.public_signature_changes
            &&& features.control_flow_changes == own.control_flow_changes
            &&& features.assertion_changes == own.assertion_changes
            &&& features.size_signals == own.size_signals
            &&& features.hotspot_signals == own.hotspot_signals
            &&& features.plugin_signals == analyze::all_findings(analyses).len()
        }),
{
}

/// Each file other than the top one counts with its score, but with no more than 30.
pub proof fn law_others_count_bounded(
    top: FileScoreState,
    others: Seq<FileScoreState>,
    one: FileScoreState,
)
    requires
        forall|i: int| 0 <= i < others.len() ==> (#[trigger] others[i]).score <= top.score,
    ensures
        aggregate::others_sum(seq![top] + others) == aggregate::bounded_sum(others),
        aggregate::bounded_sum(others.push(one)) == aggregate::bounded_sum(others) + if one.score
            > 30 {
            30
        } else {
            one.score as int
        },
        aggregate::bounded_sum(Seq::<FileScoreState>::empty()) == 0,
{
    let all = seq![top] + others;
    law_top_score_is_the_maximum(all);
    let i = choose|i: int|
        0 <= i < all.len() && (#[trigger] all[i]).score == aggregate::top_score(all);
    assert(all[0].score <= aggregate::top_score(all));
    if i > 0 {
        assert(all[i] == others[i - 1]);
    }
    lemma_sum_without(all, 0);
    assert(all.remove(0) =~= others);
    assert(others.push(one).drop_last() =~= others);
}

/// The other files add a share of what they count, rounded and up to the cap, where some file carries
/// semantic risk; and the total is the top score and that share, up to the greatest score.
pub proof fn law_totals(files: Seq<FileScoreState>, config: AggregationConfig)
    ensures
        ({
            let risk = exists|i: int|
                0 <= i < files.len() && (#[trigger] files[i]).has_semantic_risk;
            let others = aggregate::others_sum(files);
            let share = aggregate::secondary(files, config);
            let sum = aggregate::top_score(files) + share;
            &&& !risk ==> share == 0
            &&& risk && others <= u32::MAX ==> share == config.secondary_ratio.scaled(
                others as u32,
                config.secondary_cap,
            )
            &&& aggregate::total(files, config) == if sum < config.max_score {
                sum
            } else {
                config.max_score as int
            }
        }),
{
}

/// A report scores the final states of its files, in their order, each under the language of its path.
pub proof fn law_reports_score_their_entries(
    files: Seq<FileModel>,
    analyses: Seq<AnalysisModel>,
    config: ConfigModel,
    states: Seq<FileScoreState>,
)
    requires
        states.len() == files.len(),
        forall|i: int|
            0 <= i < files.len() ==> {
                let entry = analyze::report_of(files, analyses, config).by_file[i];
                let risk = analyze::state_at(
                    analyze::final_book(files, analyses, config).scores,
                    files[i].path,
                ).has_semantic_risk;
                (#[trigger] states[i]) == (FileScoreState {
                    base_score: entry.base_score,
                    size_modifier: entry.size_modifier,
                    hotspot_modifier: entry.hotspot_modifier,
                    plugin_contribution: entry.plugin_contribution,
                    has_semantic_risk: risk,
                    score: entry.score,
                })
            },
    ensures
        analyze::report_of(files, analyses, config).score == aggregate::total(
            states,
            config.aggregation,
        ),
        analyze::report_of(files, analyses, config).secondary_contribution == aggregate::secondary(
            states,
            config.aggregation,
        ),
        forall|i: int|
            0 <= i < files.len() ==> (#[trigger] analyze::report_of(
                files,
                analyses,
                config,
            ).by_file[i]).language == crate::context::language_of(files[i].path),
{
    let book = analyze::final_book(files, analyses, config);
    let own = analyze::final_states(files, book.scores);
    assert forall|i: int| 0 <= i < files.len() implies (#[trigger] states[i]) == own[i] by {
        let entry = analyze::report_of(files, analyses, config).by_file[i];
        assert(entry == analyze::file_entry(files[i].path, own[i]));
    }
    assert(states =~= own);
}

/// In the built-in model the other files add a fifth of what they count, rounded, and at most 12, where
/// some file carries semantic risk.
pub proof fn law_built_in_share(files: Seq<FileScoreState>)
    requires
        exists|i: int| 0 <= i < files.len() && (#[trigger] files[i]).has_semantic_risk,
        0 <= aggregate::others_sum(files) <= u32::MAX,
    ensures
        ({
            let others = aggregate::others_sum(files);
            let fifth = (2 * others + 5) / 10;
            aggregate::secondary(files, config::default_model().aggregation) == if fifth < 12 {
                fifth
            } else {
                12
            }
        }),
{
    binary64::law_a_fifth(aggregate::others_sum(files) as u32, 12);
}

} // verus!
