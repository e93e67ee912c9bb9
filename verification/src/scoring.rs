//! The score of one file: its strongest reason, and what size and history add to it.

use vstd::prelude::*;

use crate::config::{ConfigModel, ScoreConfig};
use crate::context::{ChangedFile, FileModel};
use crate::digits;
use crate::normalize;
use crate::oracle;
use crate::report::{FeatureModel, FeatureVector, Reason, ReasonKind, ReasonModel};
use crate::signals;
use crate::text;

verus! {

/// The score of a file so far, and what it is made of.
#[derive(Clone, Copy, Debug, PartialEq, Eq, Structural)]
pub struct FileScoreState {
    pub base_score: u32,
    pub size_modifier: u32,
    pub hotspot_modifier: u32,
    pub plugin_contribution: u32,
    pub has_semantic_risk: bool,
    pub score: u32,
}

/// The base score of a file, and what the modifiers depend on.
#[derive(Clone, Copy, Debug, PartialEq, Eq, Structural)]
pub struct BaseScoring {
    pub base_score: u32,
    pub has_semantic_risk: bool,
    pub refactor_like: bool,
}

/// The smaller one of two numbers.
pub open spec fn at_most(n: int, bound: u32) -> u32 {
    if n < bound {
        n as u32
    } else {
        bound
    }
}

/// A reason for the score of a file.
pub open spec fn reason(
    file: FileModel,
    kind: ReasonKind,
    weight: u32,
    message: Seq<char>,
) -> ReasonModel {
    ReasonModel { kind, file: file.path, weight, message }
}

/// The reason by itself where the condition holds, and no reason where it does not.
pub open spec fn only_if(condition: bool, reason: ReasonModel) -> Seq<ReasonModel> {
    if condition {
        seq![reason]
    } else {
        Seq::empty()
    }
}

/// The greatest weight among the reasons; 0 where there are none.
pub open spec fn strongest(reasons: Seq<ReasonModel>) -> u32
    decreases reasons.len(),
{
    if reasons.len() == 0 {
        0
    } else {
        let before = strongest(reasons.drop_last());
        if reasons.last().weight > before {
            reasons.last().weight
        } else {
            before
        }
    }
}

/// Whether the file is no test and its public interface changed.
pub open spec fn interface_signal(file: FileModel) -> bool {
    !file.is_test() && signals::public_interface_change(file)
}

/// Whether the file is a test and expects something else than before.
pub open spec fn expectation_signal(file: FileModel) -> bool {
    file.is_test() && oracle::expectation_change(file)
}

pub open spec fn interface_reason(file: FileModel, config: ConfigModel) -> ReasonModel {
    if normalize::refactor_like(file) {
        reason(
            file,
            ReasonKind::RefactorLikeChange,
            config.weight(ReasonKind::RefactorLikeChange),
            "public interface rename-like change"@,
        )
    } else {
        reason(
            file,
            ReasonKind::PublicInterfaceChange,
            config.weight(ReasonKind::PublicInterfaceChange),
            "public interface changed"@,
        )
    }
}

pub open spec fn flow_reason(file: FileModel, config: ConfigModel) -> ReasonModel {
    let weight = signals::flow_weight(file, config)->0;
    reason(
        file,
        ReasonKind::ControlFlowChange,
        if file.is_test() {
            at_most(weight as int, 20)
        } else {
            weight
        },
        "control flow changed"@,
    )
}

/// The reasons that the lines of a file give, without the ones that stand in for them.
pub open spec fn line_reasons(file: FileModel, config: ConfigModel) -> Seq<ReasonModel> {
    only_if(
        signals::import_only(file),
        reason(
            file,
            ReasonKind::ImportOnly,
            config.weight(ReasonKind::ImportOnly),
            "import or package declaration change"@,
        ),
    ) + only_if(interface_signal(file), interface_reason(file, config)) + only_if(
        signals::control_flow_change(file),
        flow_reason(file, config),
    ) + only_if(
        expectation_signal(file),
        reason(
            file,
            ReasonKind::TestExpectationChange,
            config.weight(ReasonKind::TestExpectationChange),
            "test expectation changed"@,
        ),
    )
}

/// Whether the change is told as a refactoring for want of a reason with a weight.
pub open spec fn told_as_refactoring(file: FileModel, config: ConfigModel) -> bool {
    strongest(line_reasons(file, config)) == 0 && normalize::refactor_like(file)
}

/// Whether the change is told as a generic one for want of any reason with a weight.
pub open spec fn told_as_generic(file: FileModel, config: ConfigModel) -> bool {
    &&& strongest(line_reasons(file, config)) == 0
    &&& told_as_refactoring(file, config) ==> config.weight(ReasonKind::RefactorLikeChange) == 0
}

/// The reasons behind the base score of a file.
pub open spec fn base_reasons(file: FileModel, config: ConfigModel) -> Seq<ReasonModel> {
    line_reasons(file, config) + only_if(
        told_as_refactoring(file, config),
        reason(
            file,
            ReasonKind::RefactorLikeChange,
            config.weight(ReasonKind::RefactorLikeChange),
            "refactor-like change"@,
        ),
    ) + only_if(
        told_as_generic(file, config),
        reason(
            file,
            ReasonKind::GenericCodeChange,
            config.weight(ReasonKind::GenericCodeChange),
            "generic code change"@,
        ),
    )
}

/// Whether the change can alter what the program does for others, or what its tests demand of it.
pub open spec fn semantic_risk(file: FileModel) -> bool {
    ||| interface_signal(file) && !normalize::refactor_like(file)
    ||| signals::control_flow_change(file)
    ||| expectation_signal(file)
}

/// The base score of a file: the weight of its strongest base reason.
pub open spec fn base_of(file: FileModel, config: ConfigModel) -> BaseScoring {
    BaseScoring {
        base_score: strongest(base_reasons(file, config)),
        has_semantic_risk: semantic_risk(file),
        refactor_like: normalize::refactor_like(file),
    }
}

/// The number of changed lines.
pub open spec fn volume(file: FileModel) -> nat {
    file.added.len() + file.removed.len()
}

/// The most that size and history can add to a base score.
pub open spec fn cap_of(base_score: u32) -> u32 {
    if base_score <= 10 {
        0
    } else if base_score <= 29 {
        8
    } else if base_score <= 54 {
        12
    } else {
        18
    }
}

/// The source that the number of changed lines is held against: the one behind the change, or the
/// one before it.
pub open spec fn reference_source(file: FileModel) -> Option<Seq<char>> {
    match file.after_source {
        Some(source) => Some(source),
        None => file.before_source,
    }
}

/// Whether at least `tenths` tenths of the lines of the file changed. A file without lines counts
/// as one of one line.
pub open spec fn changed_share(file: FileModel, tenths: nat) -> bool {
    match reference_source(file) {
        Some(source) => {
            let lines = text::line_seq(source).len();
            10 * volume(file) >= tenths * (if lines == 0 {
                1
            } else {
                lines
            })
        },
        None => false,
    }
}

/// The weight of the size of a change.
pub open spec fn size_weight(file: FileModel, config: ConfigModel) -> u32 {
    let full: u32 = if volume(file) >= 25 || (volume(file) >= 6 && changed_share(file, 6)) {
        12
    } else if volume(file) >= 10 || (volume(file) >= 6 && changed_share(file, 3)) {
        8
    } else if volume(file) >= 4 {
        4
    } else {
        0
    };
    if config.weight(ReasonKind::ChangeSize) == 0 {
        0
    } else if file.is_test() {
        ((full + 1) / 2) as u32
    } else {
        full
    }
}

/// What the size of a change adds to a base score up to a cap: nothing to a refactoring, and a third
/// of its weight, rounded up, where there is no semantic risk.
pub open spec fn size_up_to(
    file: FileModel,
    base: BaseScoring,
    cap: u32,
    config: ConfigModel,
) -> u32 {
    let weight = size_weight(file, config);
    if base.refactor_like {
        0
    } else {
        at_most(
            if base.has_semantic_risk {
                weight as int
            } else {
                (weight + 2) / 3
            },
            cap,
        )
    }
}

/// What the size of a change adds to its base score, up to the cap of the base score.
pub open spec fn size_modifier(file: FileModel, base: BaseScoring, config: ConfigModel) -> u32 {
    size_up_to(file, base, cap_of(base.base_score), config)
}

/// The weight of the history of a file.
pub open spec fn hotspot_weight(file: FileModel, config: ConfigModel) -> u32 {
    match file.history {
        Some(history) => {
            let full: u32 = if history.prior_commits >= 10 {
                8
            } else if history.prior_commits >= 4 {
                4
            } else {
                0
            };
            if config.weight(ReasonKind::RepoHotspot) == 0 {
                0
            } else if file.is_test() {
                at_most(full as int, 3)
            } else {
                full
            }
        },
        None => 0,
    }
}

/// What is left of a cap.
pub open spec fn left_of(cap: u32, used: u32) -> u32 {
    if cap > used {
        (cap - used) as u32
    } else {
        0
    }
}

/// What the history of a file adds to a base score up to a cap: nothing to a refactoring or without
/// semantic risk.
pub open spec fn hotspot_up_to(
    file: FileModel,
    base: BaseScoring,
    cap: u32,
    config: ConfigModel,
) -> u32 {
    if base.refactor_like || !base.has_semantic_risk {
        0
    } else {
        at_most(hotspot_weight(file, config) as int, cap)
    }
}

/// What the history of a file adds to its base score, up to what the size of the change has left of
/// the cap of the base score.
pub open spec fn hotspot_modifier(file: FileModel, base: BaseScoring, config: ConfigModel) -> u32 {
    hotspot_up_to(
        file,
        base,
        left_of(cap_of(base.base_score), size_modifier(file, base, config)),
        config,
    )
}

/// The reason behind what the size of a change adds.
pub open spec fn size_reason(file: FileModel, weight: u32) -> ReasonModel {
    reason(
        file,
        ReasonKind::ChangeSize,
        weight,
        "change size increased review load ("@ + digits::decimal(volume(file)) + " changed lines)"@,
    )
}

/// The reason behind what the history of a file adds.
pub open spec fn hotspot_reason(file: FileModel, weight: u32) -> ReasonModel {
    reason(
        file,
        ReasonKind::RepoHotspot,
        weight,
        "repo hotspot with "@ + digits::decimal(file.history->0.prior_commits as nat)
            + " prior commits across "@ + digits::decimal(file.history->0.prior_authors as nat)
            + " authors"@,
    )
}

/// The reasons behind what size and history add to a base score.
pub open spec fn modifier_reasons(
    file: FileModel,
    base: BaseScoring,
    config: ConfigModel,
) -> Seq<ReasonModel> {
    let size = size_modifier(file, base, config);
    let hotspot = hotspot_modifier(file, base, config);
    only_if(size > 0, size_reason(file, size)) + only_if(hotspot > 0, hotspot_reason(file, hotspot))
}

pub open spec fn comment_reason(file: FileModel, config: ConfigModel) -> ReasonModel {
    reason(
        file,
        ReasonKind::CommentOnly,
        config.weight(ReasonKind::CommentOnly),
        "comment or whitespace only change"@,
    )
}

/// All reasons for the score of a file, as far as plugins have no part in it.
pub open spec fn file_reasons(file: FileModel, config: ConfigModel) -> Seq<ReasonModel> {
    if signals::comment_only(file) {
        seq![comment_reason(file, config)]
    } else {
        base_reasons(file, config) + modifier_reasons(file, base_of(file, config), config)
    }
}

/// The score of a change of comments alone.
pub open spec fn comment_state(config: ConfigModel) -> FileScoreState {
    FileScoreState {
        base_score: config.weight(ReasonKind::CommentOnly),
        size_modifier: 0,
        hotspot_modifier: 0,
        plugin_contribution: 0,
        has_semantic_risk: false,
        score: config.weight(ReasonKind::CommentOnly),
    }
}

/// The score of a file, as far as plugins have no part in it.
pub open spec fn file_state(file: FileModel, config: ConfigModel) -> FileScoreState {
    if signals::comment_only(file) {
        comment_state(config)
    } else {
        let base = base_of(file, config);
        let size = size_modifier(file, base, config);
        let hotspot = hotspot_modifier(file, base, config);
        FileScoreState {
            base_score: base.base_score,
            size_modifier: size,
            hotspot_modifier: hotspot,
            plugin_contribution: 0,
            has_semantic_risk: base.has_semantic_risk,
            score: at_most(base.base_score + size + hotspot, config.aggregation.max_score),
        }
    }
}

/// One where the condition holds, else zero.
pub open spec fn one_if(condition: bool) -> nat {
    if condition {
        1
    } else {
        0
    }
}

/// What a file adds to the counters.
pub open spec fn with_file_features(
    features: FeatureModel,
    file: FileModel,
    config: ConfigModel,
) -> FeatureModel {
    if signals::comment_only(file) {
        features
    } else {
        let base = base_of(file, config);
        FeatureModel {
            public_signature_changes: features.public_signature_changes + one_if(
                interface_signal(file),
            ),
            control_flow_changes: features.control_flow_changes + one_if(
                signals::control_flow_change(file),
            ),
            assertion_changes: features.assertion_changes + one_if(expectation_signal(file)),
            size_signals: features.size_signals + one_if(size_modifier(file, base, config) > 0),
            hotspot_signals: features.hotspot_signals + one_if(
                hotspot_modifier(file, base, config) > 0,
            ),
            ..features
        }
    }
}

/// Whether each of the counters that the base score of a file can raise has room for one more.
pub open spec fn has_base_room(features: FeatureVector) -> bool {
    &&& features.public_signature_changes < usize::MAX
    &&& features.control_flow_changes < usize::MAX
    &&& features.assertion_changes < usize::MAX
}

/// Whether each of the counters that a file can raise has room for one more.
pub open spec fn has_room(features: FeatureVector) -> bool {
    &&& has_base_room(features)
    &&& features.size_signals < usize::MAX
    &&& features.hotspot_signals < usize::MAX
}

fn push_reason(
    reasons: &mut Vec<Reason>,
    file: &ChangedFile,
    kind: ReasonKind,
    weight: u32,
    message: String,
)
    ensures
        text::views(final(reasons)@) == text::views(old(reasons)@).push(
            reason(file@, kind, weight, message@),
        ),
{
    reasons.push(kind.as_reason(file.path.clone(), weight, message));
    assert(text::views(reasons@) =~= text::views(old(reasons)@).push(
        reason(file@, kind, weight, message@),
    ));
}

fn greater(a: u32, b: u32) -> (r: u32)
    ensures
        r == (if b > a {
            b
        } else {
            a
        }),
{
    if b > a {
        b
    } else {
        a
    }
}

proof fn lemma_strongest_push(reasons: Seq<ReasonModel>, last: ReasonModel)
    ensures
        strongest(reasons.push(last)) == (if last.weight > strongest(reasons) {
            last.weight
        } else {
            strongest(reasons)
        }),
{
    assert(reasons.push(last).drop_last() =~= reasons);
}

proof fn lemma_only_if(
    before: Seq<ReasonModel>,
    done: Seq<ReasonModel>,
    condition: bool,
    next: ReasonModel,
)
    ensures
        condition ==> (before + done).push(next) == before + (done + only_if(condition, next)),
        !condition ==> before + done == before + (done + only_if(condition, next)),
        condition ==> strongest(done + only_if(condition, next)) == (if next.weight > strongest(
            done,
        ) {
            next.weight
        } else {
            strongest(done)
        }),
        !condition ==> strongest(done + only_if(condition, next)) == strongest(done),
{
    if condition {
        assert(done + only_if(condition, next) =~= done.push(next));
        assert((before + done).push(next) =~= before + done.push(next));
        lemma_strongest_push(done, next);
    } else {
        assert(done + only_if(condition, next) =~= done);
    }
}

/// The base score of a file. Its reasons go to the end of `reasons`.
pub fn detect_base_scoring(
    file: &ChangedFile,
    reasons: &mut Vec<Reason>,
    feature_vector: &mut FeatureVector,
    config: &ScoreConfig,
) -> (r: BaseScoring)
    requires
        has_base_room(*old(feature_vector)),
    ensures
        r == base_of(file@, config@),
        text::views(final(reasons)@) == text::views(old(reasons)@) + base_reasons(file@, config@),
        final(feature_vector)@ == (FeatureModel {
            public_signature_changes: old(feature_vector)@.public_signature_changes + one_if(
                interface_signal(file@),
            ),
            control_flow_changes: old(feature_vector)@.control_flow_changes + one_if(
                signals::control_flow_change(file@),
            ),
            assertion_changes: old(feature_vector)@.assertion_changes + one_if(
                expectation_signal(file@),
            ),
            ..old(feature_vector)@
        }),
{
    let ghost f = file@;
    let ghost c = config@;
    let ghost start = text::views(reasons@);
    let ghost mut done: Seq<ReasonModel> = Seq::empty();
    let is_test: bool = file.is_test_file();
    let refactor_like: bool = normalize::is_refactor_like(file);
    let mut base_score: u32 = 0;
    let mut has_semantic_risk: bool = false;
    assert(start =~= start + done);

    let imports: bool = signals::is_import_only(file);
    let ghost next = reason(
        f,
        ReasonKind::ImportOnly,
        c.weight(ReasonKind::ImportOnly),
        "import or package declaration change"@,
    );
    proof {
        lemma_only_if(start, done, imports, next);
        done = done + only_if(imports, next);
    }
    if imports {
        let rule_score: u32 = config.score_for(&ReasonKind::ImportOnly);
        base_score = greater(base_score, rule_score);
        push_reason(
            reasons,
            file,
            ReasonKind::ImportOnly,
            rule_score,
            "import or package declaration change".to_string(),
        );
    }

    let interface: bool = !is_test && signals::has_public_interface_change(file);
    let ghost next = interface_reason(f, c);
    proof {
        lemma_only_if(start, done, interface, next);
        done = done + only_if(interface, next);
    }
    if interface {
        has_semantic_risk = !refactor_like;
        feature_vector.public_signature_changes = feature_vector.public_signature_changes + 1;
        if refactor_like {
            let rule_score: u32 = config.score_for(&ReasonKind::RefactorLikeChange);
            base_score = greater(base_score, rule_score);
            push_reason(
                reasons,
                file,
                ReasonKind::RefactorLikeChange,
                rule_score,
                "public interface rename-like change".to_string(),
            );
        } else {
            let rule_score: u32 = config.score_for(&ReasonKind::PublicInterfaceChange);
            base_score = greater(base_score, rule_score);
            push_reason(
                reasons,
                file,
                ReasonKind::PublicInterfaceChange,
                rule_score,
                "public interface changed".to_string(),
            );
        }
    }

    let flow = signals::control_flow_weight(file, config);
    let ghost next = flow_reason(f, c);
    proof {
        lemma_only_if(start, done, flow is Some, next);
        done = done + only_if(flow is Some, next);
    }
    if let Some(control_flow_score) = flow {
        let rule_score: u32 = if is_test && control_flow_score > 20 {
            20
        } else {
            control_flow_score
        };
        base_score = greater(base_score, rule_score);
        has_semantic_risk = true;
        feature_vector.control_flow_changes = feature_vector.control_flow_changes + 1;
        push_reason(
            reasons,
            file,
            ReasonKind::ControlFlowChange,
            rule_score,
            "control flow changed".to_string(),
        );
    }

    let expectation: bool = is_test && oracle::has_test_expectation_change(file);
    let ghost next = reason(
        f,
        ReasonKind::TestExpectationChange,
        c.weight(ReasonKind::TestExpectationChange),
        "test expectation changed"@,
    );
    proof {
        lemma_only_if(start, done, expectation, next);
        done = done + only_if(expectation, next);
    }
    if expectation {
        let rule_score: u32 = config.score_for(&ReasonKind::TestExpectationChange);
        base_score = greater(base_score, rule_score);
        has_semantic_risk = true;
        feature_vector.assertion_changes = feature_vector.assertion_changes + 1;
        push_reason(
            reasons,
            file,
            ReasonKind::TestExpectationChange,
            rule_score,
            "test expectation changed".to_string(),
        );
    }
    assert(done =~= line_reasons(f, c));

    let refactoring: bool = base_score == 0 && refactor_like;
    let ghost next = reason(
        f,
        ReasonKind::RefactorLikeChange,
        c.weight(ReasonKind::RefactorLikeChange),
        "refactor-like change"@,
    );
    proof {
        lemma_only_if(start, done, refactoring, next);
        done = done + only_if(refactoring, next);
    }
    if refactoring {
        base_score = config.score_for(&ReasonKind::RefactorLikeChange);
        push_reason(
            reasons,
            file,
            ReasonKind::RefactorLikeChange,
            base_score,
            "refactor-like change".to_string(),
        );
    }

    let generic: bool = base_score == 0;
    let ghost next = reason(
        f,
        ReasonKind::GenericCodeChange,
        c.weight(ReasonKind::GenericCodeChange),
        "generic code change"@,
    );
    proof {
        lemma_only_if(start, done, generic, next);
        done = done + only_if(generic, next);
    }
    if generic {
        base_score = config.score_for(&ReasonKind::GenericCodeChange);
        push_reason(
            reasons,
            file,
            ReasonKind::GenericCodeChange,
            base_score,
            "generic code change".to_string(),
        );
    }
    assert(done =~= base_reasons(f, c));
    BaseScoring { base_score, has_semantic_risk, refactor_like }
}

/// The number of changed lines.
pub fn change_volume(file: &ChangedFile) -> (r: u128)
    ensures
        r == volume(file@),
        r <= 0x1_ffff_ffff_ffff_fffe,
{
    file.added.len() as u128 + file.removed.len() as u128
}

/// The most that size and history can add to a base score.
pub fn modifier_cap(base_score: u32) -> (r: u32)
    ensures
        r == cap_of(base_score),
{
    if base_score <= 10 {
        0
    } else if base_score <= 29 {
        8
    } else if base_score <= 54 {
        12
    } else {
        18
    }
}

/// Whether at least `tenths` tenths of the lines of the file changed.
fn has_changed_share(file: &ChangedFile, tenths: u8) -> (r: bool)
    ensures
        r == changed_share(file@, tenths as nat),
{
    let lines: usize = match &file.after_source {
        Some(source) => text::lines(source.as_str()).len(),
        None => match &file.before_source {
            Some(source) => text::lines(source.as_str()).len(),
            None => {
                return false;
            },
        },
    };
    let whole: u128 = if lines == 0 {
        1
    } else {
        lines as u128
    };
    assert(tenths * whole <= 0x10000000000000000 * 0x100) by (nonlinear_arith)
        requires
            tenths <= 0xff,
            whole <= 0x10000000000000000,
    ;
    10 * change_volume(file) >= tenths as u128 * whole
}

/// The weight of the size of the change, where it has one.
pub fn change_size_weight(file: &ChangedFile, config: &ScoreConfig) -> (r: Option<u32>)
    ensures
        r == (if size_weight(file@, config@) > 0 {
            Some(size_weight(file@, config@))
        } else {
            None
        }),
{
    if config.score_for(&ReasonKind::ChangeSize) == 0 {
        return None;
    }
    let changed_lines: u128 = change_volume(file);
    let ratio_can_raise_to_high: bool = changed_lines >= 6;
    let mut score: u32 = if changed_lines >= 25 || (ratio_can_raise_to_high && has_changed_share(
        file,
        6,
    )) {
        12
    } else if changed_lines >= 10 || (ratio_can_raise_to_high && has_changed_share(file, 3)) {
        8
    } else if changed_lines >= 4 {
        4
    } else {
        0
    };
    if file.is_test_file() {
        score = (score + 1) / 2;
    }
    if score > 0 {
        Some(score)
    } else {
        None
    }
}

/// The weight of the history of the file, where it has one.
pub fn repo_hotspot_weight(file: &ChangedFile, config: &ScoreConfig) -> (r: Option<u32>)
    ensures
        r == (if hotspot_weight(file@, config@) > 0 {
            Some(hotspot_weight(file@, config@))
        } else {
            None
        }),
{
    let history = match file.history {
        Some(history) => history,
        None => {
            return None;
        },
    };
    if config.score_for(&ReasonKind::RepoHotspot) == 0 {
        return None;
    }
    let mut score: u32 = if history.prior_commits >= 10 {
        8
    } else if history.prior_commits >= 4 {
        4
    } else {
        0
    };
    if file.is_test_file() && score > 3 {
        score = 3;
    }
    if score > 0 {
        Some(score)
    } else {
        None
    }
}

/// What the size of the change adds, up to the cap. Its reason goes to the end of `reasons`.
pub fn compute_size_modifier(
    file: &ChangedFile,
    base: &BaseScoring,
    modifier_cap: u32,
    reasons: &mut Vec<Reason>,
    feature_vector: &mut FeatureVector,
    config: &ScoreConfig,
) -> (r: u32)
    requires
        old(feature_vector).size_signals < usize::MAX,
    ensures
        r == size_up_to(file@, *base, modifier_cap, config@),
        text::views(final(reasons)@) == text::views(old(reasons)@) + only_if(
            r > 0,
            size_reason(file@, r),
        ),
        final(feature_vector)@ == (FeatureModel {
            size_signals: old(feature_vector)@.size_signals + one_if(r > 0),
            ..old(feature_vector)@
        }),
{
    let ghost start = text::views(reasons@);
    assert(start =~= start + Seq::<ReasonModel>::empty());
    if base.refactor_like {
        return 0;
    }
    let weight: u32 = match change_size_weight(file, config) {
        Some(weight) => weight,
        None => {
            return 0;
        },
    };
    let rule_score: u32 = if base.has_semantic_risk {
        weight
    } else {
        (weight + 2) / 3
    };
    let modifier: u32 = if rule_score < modifier_cap {
        rule_score
    } else {
        modifier_cap
    };
    if modifier == 0 {
        return 0;
    }
    feature_vector.size_signals = feature_vector.size_signals + 1;
    let count = digits::write(change_volume(file), 10);
    let message = "change size increased review load (".to_string().concat(count.as_str()).concat(
        " changed lines)",
    );
    push_reason(reasons, file, ReasonKind::ChangeSize, modifier, message);
    assert(text::views(reasons@) =~= start + seq![size_reason(file@, modifier)]);
    modifier
}

/// What the history of the file adds, up to what the size of the change has left of the cap. Its
/// reason goes to the end of `reasons`.
pub fn compute_hotspot_modifier(
    file: &ChangedFile,
    base: &BaseScoring,
    modifier_cap: u32,
    size_modifier: u32,
    reasons: &mut Vec<Reason>,
    feature_vector: &mut FeatureVector,
    config: &ScoreConfig,
) -> (r: u32)
    requires
        old(feature_vector).hotspot_signals < usize::MAX,
    ensures
        r == hotspot_up_to(file@, *base, left_of(modifier_cap, size_modifier), config@),
        text::views(final(reasons)@) == text::views(old(reasons)@) + only_if(
            r > 0,
            hotspot_reason(file@, r),
        ),
        final(feature_vector)@ == (FeatureModel {
            hotspot_signals: old(feature_vector)@.hotspot_signals + one_if(r > 0),
            ..old(feature_vector)@
        }),
{
    let ghost start = text::views(reasons@);
    assert(start =~= start + Seq::<ReasonModel>::empty());
    if base.refactor_like || !base.has_semantic_risk {
        return 0;
    }
    let rule_score: u32 = match repo_hotspot_weight(file, config) {
        Some(weight) => weight,
        None => {
            return 0;
        },
    };
    let left: u32 = modifier_cap.saturating_sub(size_modifier);
    let modifier: u32 = if rule_score < left {
        rule_score
    } else {
        left
    };
    if modifier == 0 {
        return 0;
    }
    let history = match file.history {
        Some(history) => history,
        None => {
            return 0;
        },
    };
    feature_vector.hotspot_signals = feature_vector.hotspot_signals + 1;
    let commits = digits::write(history.prior_commits as u128, 10);
    let authors = digits::write(history.prior_authors as u128, 10);
    let message = "repo hotspot with ".to_string().concat(commits.as_str()).concat(
        " prior commits across ",
    ).concat(authors.as_str()).concat(" authors");
    push_reason(reasons, file, ReasonKind::RepoHotspot, modifier, message);
    assert(text::views(reasons@) =~= start + seq![hotspot_reason(file@, modifier)]);
    modifier
}

/// What size and history add to the base score of a file.
pub fn compute_modifiers(
    file: &ChangedFile,
    base: &BaseScoring,
    reasons: &mut Vec<Reason>,
    feature_vector: &mut FeatureVector,
    config: &ScoreConfig,
) -> (r: (u32, u32))
    requires
        old(feature_vector).size_signals < usize::MAX,
        old(feature_vector).hotspot_signals < usize::MAX,
    ensures
        r.0 == size_modifier(file@, *base, config@),
        r.1 == hotspot_modifier(file@, *base, config@),
        text::views(final(reasons)@) == text::views(old(reasons)@) + modifier_reasons(
            file@,
            *base,
            config@,
        ),
        final(feature_vector)@ == (FeatureModel {
            size_signals: old(feature_vector)@.size_signals + one_if(r.0 > 0),
            hotspot_signals: old(feature_vector)@.hotspot_signals + one_if(r.1 > 0),
            ..old(feature_vector)@
        }),
{
    let ghost start = text::views(reasons@);
    let cap: u32 = modifier_cap(base.base_score);
    let size: u32 = compute_size_modifier(file, base, cap, reasons, feature_vector, config);
    let hotspot: u32 = compute_hotspot_modifier(
        file,
        base,
        cap,
        size,
        reasons,
        feature_vector,
        config,
    );
    assert(text::views(reasons@) =~= start + modifier_reasons(file@, *base, config@));
    (size, hotspot)
}

/// The score of a change of comments alone. Its reason goes to the end of `reasons`.
pub fn comment_only_score(
    file: &ChangedFile,
    reasons: &mut Vec<Reason>,
    config: &ScoreConfig,
) -> (r: FileScoreState)
    ensures
        r == comment_state(config@),
        text::views(final(reasons)@) == text::views(old(reasons)@).push(
            comment_reason(file@, config@),
        ),
{
    let score: u32 = config.score_for(&ReasonKind::CommentOnly);
    push_reason(
        reasons,
        file,
        ReasonKind::CommentOnly,
        score,
        "comment or whitespace only change".to_string(),
    );
    FileScoreState {
        base_score: score,
        size_modifier: 0,
        hotspot_modifier: 0,
        plugin_contribution: 0,
        has_semantic_risk: false,
        score,
    }
}

/// The score of a file. Its reasons go to the end of `reasons`.
pub fn score_file(
    file: &ChangedFile,
    reasons: &mut Vec<Reason>,
    feature_vector: &mut FeatureVector,
    config: &ScoreConfig,
) -> (r: FileScoreState)
    requires
        has_room(*old(feature_vector)),
    ensures
        r == file_state(file@, config@),
        text::views(final(reasons)@) == text::views(old(reasons)@) + file_reasons(file@, config@),
        final(feature_vector)@ == with_file_features(old(feature_vector)@, file@, config@),
{
    let ghost start = text::views(reasons@);
    if signals::is_comment_only(file) {
        let state = comment_only_score(file, reasons, config);
        assert(text::views(reasons@) =~= start + file_reasons(file@, config@));
        return state;
    }
    let base = detect_base_scoring(file, reasons, feature_vector, config);
    let (size, hotspot) = compute_modifiers(file, &base, reasons, feature_vector, config);
    assert(text::views(reasons@) =~= start + file_reasons(file@, config@));
    let sum: u64 = base.base_score as u64 + size as u64 + hotspot as u64;
    let score: u32 = if sum < config.aggregation.max_score as u64 {
        sum as u32
    } else {
        config.aggregation.max_score
    };
    FileScoreState {
        base_score: base.base_score,
        size_modifier: size,
        hotspot_modifier: hotspot,
        plugin_contribution: 0,
        has_semantic_risk: base.has_semantic_risk,
        score,
    }
}

} // verus!
