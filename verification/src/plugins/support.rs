//! Findings, and the analysis that stands in where a plugin cannot do better.

use vstd::prelude::*;

use crate::context::{
    AnalysisContext, AnalysisModel, ChangedFile, FileModel, FindingModel, PluginAnalysis,
    PluginFinding, PluginScoreMode,
};
use crate::report::{Confidence, ReasonKind};
use crate::text;

verus! {

/// Whether a test of paths may answer `answer` for a path.
pub open spec fn may_answer<F: Fn(&str) -> bool>(matching: F, path: Seq<char>, answer: bool) -> bool {
    exists|s: &str| s@ == path && #[trigger] call_ensures(matching, (s,), answer)
}

/// Whether a test of paths may give the answers for the files.
pub open spec fn may_pick<F: Fn(&str) -> bool>(
    matching: F,
    files: Seq<FileModel>,
    picks: Seq<bool>,
) -> bool {
    &&& picks.len() == files.len()
    &&& forall|i: int|
        0 <= i < files.len() ==> may_answer(matching, (#[trigger] files[i]).path, picks[i])
}

/// Whether a test of paths answers by a predicate.
pub open spec fn decides<F: Fn(&str) -> bool>(
    matching: F,
    p: spec_fn(Seq<char>) -> bool,
) -> bool {
    forall|s: &str, answer: bool| #[trigger]
        call_ensures(matching, (s,), answer) ==> answer == p(s@)
}

/// The answers of a predicate for the files.
pub open spec fn picks_of(files: Seq<FileModel>, p: spec_fn(Seq<char>) -> bool) -> Seq<bool> {
    Seq::new(files.len(), |i: int| p(files[i].path))
}

/// The paths of the picked files, in their order.
pub open spec fn picked_paths(files: Seq<FileModel>, picks: Seq<bool>) -> Seq<Seq<char>>
    decreases files.len(),
{
    if files.len() == 0 {
        Seq::empty()
    } else {
        let before = picked_paths(files.drop_last(), picks.drop_last());
        if picks.last() {
            before.push(files.last().path)
        } else {
            before
        }
    }
}

/// Whether a path ends with an extension, as a function.
pub open spec fn ends_test(extension: Seq<char>) -> spec_fn(Seq<char>) -> bool {
    |path: Seq<char>| text::has_suffix(path, extension)
}

/// A finding with the weight of its kind, on top of the base score.
pub open spec fn additive(path: Seq<char>, kind: ReasonKind, message: Seq<char>) -> FindingModel {
    FindingModel {
        path,
        kind,
        message,
        weight_override: None,
        score_mode: PluginScoreMode::Additive,
    }
}

/// A finding with the weight of its kind, as a candidate for the base score.
pub open spec fn base(path: Seq<char>, kind: ReasonKind, message: Seq<char>) -> FindingModel {
    FindingModel {
        path,
        kind,
        message,
        weight_override: None,
        score_mode: PluginScoreMode::Base,
    }
}

/// A finding with a weight of its own, as a candidate for the base score.
pub open spec fn weighted_base(
    path: Seq<char>,
    kind: ReasonKind,
    message: Seq<char>,
    weight: u32,
) -> FindingModel {
    FindingModel {
        path,
        kind,
        message,
        weight_override: Some(weight),
        score_mode: PluginScoreMode::Base,
    }
}

/// The finding by itself where the condition holds, and none where it does not.
pub open spec fn found_if(condition: bool, finding: FindingModel) -> Seq<FindingModel> {
    if condition {
        seq![finding]
    } else {
        Seq::empty()
    }
}

/// What a fallback finds: for each picked file a finding that tells the reason for the fallback,
/// and what could be found all the same.
pub open spec fn fallback_findings(
    files: Seq<FileModel>,
    picks: Seq<bool>,
    extras: Seq<Seq<FindingModel>>,
    kind: ReasonKind,
    reason: Seq<char>,
) -> Seq<FindingModel>
    decreases files.len(),
{
    if files.len() == 0 {
        Seq::empty()
    } else {
        let before = fallback_findings(
            files.drop_last(),
            picks.drop_last(),
            extras.drop_last(),
            kind,
            reason,
        );
        if picks.last() {
            before.push(additive(files.last().path, kind, reason)) + extras.last()
        } else {
            before
        }
    }
}

/// Whether `enrich` may find `extra` in a file.
pub open spec fn may_find<E: Fn(&ChangedFile) -> Vec<PluginFinding>>(
    enrich: E,
    file: ChangedFile,
    extra: Seq<FindingModel>,
) -> bool {
    exists|v: Vec<PluginFinding>|
        text::views(v@) == extra && #[trigger] call_ensures(enrich, (&file,), v)
}

/// Whether `enrich` may find the extras in the picked files.
pub open spec fn may_find_all<E: Fn(&ChangedFile) -> Vec<PluginFinding>>(
    enrich: E,
    files: Seq<ChangedFile>,
    picks: Seq<bool>,
    extras: Seq<Seq<FindingModel>>,
) -> bool {
    &&& extras.len() == files.len()
    &&& forall|i: int|
        0 <= i < files.len() && picks[i] ==> may_find(enrich, #[trigger] files[i], extras[i])
}

/// Whether `enrich` finds what a function of the file says.
pub open spec fn finds<E: Fn(&ChangedFile) -> Vec<PluginFinding>>(
    enrich: E,
    extra: spec_fn(FileModel) -> Seq<FindingModel>,
) -> bool {
    forall|file: &ChangedFile, v: Vec<PluginFinding>| #[trigger]
        call_ensures(enrich, (file,), v) ==> text::views(v@) == extra(file@)
}

/// The extras that a function of the file gives.
pub open spec fn extras_of(
    files: Seq<FileModel>,
    extra: spec_fn(FileModel) -> Seq<FindingModel>,
) -> Seq<Seq<FindingModel>> {
    Seq::new(files.len(), |i: int| extra(files[i]))
}

/// The analysis of a fallback whose parts are functions.
pub open spec fn plain_fallback(
    files: Seq<FileModel>,
    p: spec_fn(Seq<char>) -> bool,
    extra: spec_fn(FileModel) -> Seq<FindingModel>,
    kind: ReasonKind,
    reason: Seq<char>,
) -> AnalysisModel {
    AnalysisModel {
        confidence: Confidence::Medium,
        findings: fallback_findings(
            files,
            picks_of(files, p),
            extras_of(files, extra),
            kind,
            reason,
        ),
    }
}

pub proof fn lemma_picks<F: Fn(&str) -> bool>(
    matching: F,
    files: Seq<FileModel>,
    picks: Seq<bool>,
    p: spec_fn(Seq<char>) -> bool,
)
    requires
        may_pick(matching, files, picks),
        decides(matching, p),
    ensures
        picks == picks_of(files, p),
{
    assert forall|i: int| 0 <= i < files.len() implies picks[i] == p(files[i].path) by {
        assert(may_answer(matching, files[i].path, picks[i]));
    }
    assert(picks =~= picks_of(files, p));
}

pub proof fn lemma_extras<E: Fn(&ChangedFile) -> Vec<PluginFinding>>(
    enrich: E,
    files: Seq<ChangedFile>,
    picks: Seq<bool>,
    extras: Seq<Seq<FindingModel>>,
    extra: spec_fn(FileModel) -> Seq<FindingModel>,
    kind: ReasonKind,
    reason: Seq<char>,
)
    requires
        picks.len() == files.len(),
        may_find_all(enrich, files, picks, extras),
        finds(enrich, extra),
    ensures
        fallback_findings(text::views(files), picks, extras, kind, reason) == fallback_findings(
            text::views(files),
            picks,
            extras_of(text::views(files), extra),
            kind,
            reason,
        ),
    decreases files.len(),
{
    let models = text::views(files);
    if files.len() > 0 {
        let shorter = files.drop_last();
        let fewer = picks.drop_last();
        let less = extras.drop_last();
        assert forall|i: int| 0 <= i < shorter.len() && fewer[i] implies may_find(
            enrich,
            #[trigger] shorter[i],
            less[i],
        ) by {
            assert(may_find(enrich, files[i], extras[i]));
        }
        lemma_extras(enrich, shorter, fewer, less, extra, kind, reason);
        assert(text::views(shorter) =~= models.drop_last());
        assert(extras_of(models, extra).drop_last() =~= extras_of(models.drop_last(), extra));
        if picks.last() {
            assert(may_find(enrich, files[files.len() - 1], extras.last()));
        }
    }
}

/// The paths of the changed files that end with the extension.
pub fn changed_files_with_extension(ctx: &AnalysisContext, extension: &str) -> (r: Vec<String>)
    ensures
        text::views(r@) == picked_paths(
            ctx@.files,
            picks_of(ctx@.files, ends_test(extension@)),
        ),
{
    let ends = |path: &str| -> (b: bool)
        ensures
            b == text::has_suffix(path@, extension@)
        { text::ends_with(path, extension) };
    let r = changed_files_matching(ctx, ends);
    proof {
        let picks = choose|picks: Seq<bool>| #[trigger]
            may_pick(ends, ctx@.files, picks) && text::views(r@) == picked_paths(
                ctx@.files,
                picks,
            );
        lemma_picks(ends, ctx@.files, picks, ends_test(extension@));
    }
    r
}

/// The paths of the changed files that pass the test.
pub fn changed_files_matching<F: Fn(&str) -> bool>(ctx: &AnalysisContext, matching: F) -> (r: Vec<
    String,
>)
    requires
        forall|s: &str| #[trigger] call_requires(matching, (s,)),
    ensures
        exists|picks: Seq<bool>| #[trigger]
            may_pick(matching, ctx@.files, picks) && text::views(r@) == picked_paths(
                ctx@.files,
                picks,
            ),
{
    let ghost files = ctx@.files;
    let ghost mut picks: Seq<bool> = Seq::empty();
    let mut r: Vec<String> = Vec::new();
    let mut i: usize = 0;
    assert(text::views(r@) =~= picked_paths(files.take(0), picks));
    while i < ctx.files.len()
        invariant
            i <= ctx.files@.len(),
            files == text::views(ctx.files@),
            forall|s: &str| #[trigger] call_requires(matching, (s,)),
            picks.len() == i,
            forall|k: int|
                0 <= k < i ==> may_answer(matching, (#[trigger] files[k]).path, picks[k]),
            text::views(r@) =~= picked_paths(files.take(i as int), picks),
        decreases ctx.files@.len() - i,
    {
        let ghost before = text::views(r@);
        let ghost earlier = picks;
        let path = ctx.files[i].path.as_str();
        let picked: bool = matching(path);
        proof {
            assert(may_answer(matching, files[i as int].path, picked));
            picks = picks.push(picked);
            assert(picks.drop_last() =~= earlier);
            assert(files.take(i + 1).drop_last() =~= files.take(i as int));
            assert(files.take(i + 1).last().path == path@);
        }
        if picked {
            r.push(path.to_owned());
            assert(text::views(r@) =~= before.push(path@));
        }
        i = i + 1;
    }
    assert(files.take(i as int) =~= files);
    assert(may_pick(matching, files, picks));
    r
}

/// A finding with the weight of its kind, as a candidate for the base score. The message is
/// converted by its own `into`.
pub fn base_finding<M: Into<String>>(path: String, kind: ReasonKind, message: M) -> (r:
    PluginFinding)
    ensures
        r.path == path,
        r.kind == kind,
        call_ensures(<M as Into<String>>::into, (message,), r.message),
        r.weight_override is None,
        r.score_mode == PluginScoreMode::Base,
{
    PluginFinding {
        path,
        kind,
        message: message.into(),
        weight_override: None,
        score_mode: PluginScoreMode::Base,
    }
}

/// A finding with a weight of its own, as a candidate for the base score. The message is converted
/// by its own `into`.
pub fn weighted_base_finding<M: Into<String>>(
    path: String,
    kind: ReasonKind,
    message: M,
    weight_override: u32,
) -> (r: PluginFinding)
    ensures
        r.path == path,
        r.kind == kind,
        call_ensures(<M as Into<String>>::into, (message,), r.message),
        r.weight_override == Some(weight_override),
        r.score_mode == PluginScoreMode::Base,
{
    PluginFinding {
        path,
        kind,
        message: message.into(),
        weight_override: Some(weight_override),
        score_mode: PluginScoreMode::Base,
    }
}

/// A finding with the weight of its kind, on top of the base score. The message is converted by its
/// own `into`.
pub fn additive_finding<M: Into<String>>(path: String, kind: ReasonKind, message: M) -> (r:
    PluginFinding)
    ensures
        r.path == path,
        r.kind == kind,
        call_ensures(<M as Into<String>>::into, (message,), r.message),
        r.weight_override is None,
        r.score_mode == PluginScoreMode::Additive,
{
    PluginFinding {
        path,
        kind,
        message: message.into(),
        weight_override: None,
        score_mode: PluginScoreMode::Additive,
    }
}

/// Puts a candidate for the base score behind other findings, where the condition holds.
pub fn push_base_if(
    findings: &mut Vec<PluginFinding>,
    condition: bool,
    path: &str,
    kind: ReasonKind,
    message: &str,
    weight_override: Option<u32>,
)
    ensures
        text::views(final(findings)@) == text::views(old(findings)@) + found_if(
            condition,
            FindingModel {
                path: path@,
                kind,
                message: message@,
                weight_override,
                score_mode: PluginScoreMode::Base,
            },
        ),
{
    let ghost before = text::views(findings@);
    if condition {
        let next = match weight_override {
            Some(weight) => weighted_base_finding(path.to_owned(), kind, message, weight),
            None => base_finding(path.to_owned(), kind, message),
        };
        findings.push(next);
        assert(text::views(findings@) =~= before + seq![next@]);
    } else {
        assert(before + Seq::<FindingModel>::empty() =~= before);
    }
}

/// Puts findings behind other findings.
pub fn append_findings(findings: &mut Vec<PluginFinding>, more: Vec<PluginFinding>)
    ensures
        text::views(final(findings)@) == text::views(old(findings)@) + text::views(more@),
{
    let mut more = more;
    let ghost first = text::views(findings@);
    let ghost second = text::views(more@);
    findings.append(&mut more);
    assert(text::views(findings@) =~= first + second);
}

/// The analysis that stands in for a plugin that cannot do better, for the files that pass the
/// test. `enrich` gives what can be found in a file all the same.
pub fn fallback_analysis_matching<
    Matching: Fn(&str) -> bool,
    Enrich: Fn(&ChangedFile) -> Vec<PluginFinding>,
>(
    ctx: &AnalysisContext,
    matching: Matching,
    fallback_kind: ReasonKind,
    reason: &str,
    enrich: Enrich,
) -> (r: PluginAnalysis)
    requires
        forall|s: &str| #[trigger] call_requires(matching, (s,)),
        forall|file: &ChangedFile| #[trigger] call_requires(enrich, (file,)),
    ensures
        r.confidence == Confidence::Medium,
        exists|picks: Seq<bool>, extras: Seq<Seq<FindingModel>>| #[trigger]
            may_pick(matching, ctx@.files, picks) && #[trigger] may_find_all(
                enrich,
                ctx.files@,
                picks,
                extras,
            ) && r@.findings == fallback_findings(
                ctx@.files,
                picks,
                extras,
                fallback_kind,
                reason@,
            ),
{
    let ghost files = ctx@.files;
    let ghost mut picks: Seq<bool> = Seq::empty();
    let ghost mut extras: Seq<Seq<FindingModel>> = Seq::empty();
    let mut findings: Vec<PluginFinding> = Vec::new();
    let mut i: usize = 0;
    assert(text::views(findings@) =~= fallback_findings(
        files.take(0),
        picks,
        extras,
        fallback_kind,
        reason@,
    ));
    while i < ctx.files.len()
        invariant
            i <= ctx.files@.len(),
            files == text::views(ctx.files@),
            forall|s: &str| #[trigger] call_requires(matching, (s,)),
            forall|file: &ChangedFile| #[trigger] call_requires(enrich, (file,)),
            picks.len() == i,
            extras.len() == i,
            forall|k: int|
                0 <= k < i ==> may_answer(matching, (#[trigger] files[k]).path, picks[k]),
            forall|k: int|
                0 <= k < i && picks[k] ==> may_find(enrich, #[trigger] ctx.files@[k], extras[k]),
            text::views(findings@) =~= fallback_findings(
                files.take(i as int),
                picks,
                extras,
                fallback_kind,
                reason@,
            ),
        decreases ctx.files@.len() - i,
    {
        let ghost before = text::views(findings@);
        let ghost earlier_picks = picks;
        let ghost earlier_extras = extras;
        let file = &ctx.files[i];
        let picked: bool = matching(file.path.as_str());
        let ghost mut extra: Seq<FindingModel> = Seq::empty();
        if picked {
            let first = additive_finding(file.path.clone(), fallback_kind, reason);
            findings.push(first);
            assert(text::views(findings@) =~= before.push(
                additive(file.path@, fallback_kind, reason@),
            ));
            let more = enrich(file);
            proof {
                extra = text::views(more@);
                assert(may_find(enrich, ctx.files@[i as int], extra));
            }
            append_findings(&mut findings, more);
        }
        proof {
            assert(may_answer(matching, files[i as int].path, picked));
            picks = picks.push(picked);
            extras = extras.push(extra);
            assert(picks.drop_last() =~= earlier_picks);
            assert(extras.drop_last() =~= earlier_extras);
            assert(files.take(i + 1).drop_last() =~= files.take(i as int));
            assert(files.take(i + 1).last() == file@);
        }
        i = i + 1;
    }
    proof {
        assert(files.take(i as int) =~= files);
        assert(may_pick(matching, files, picks));
        assert(may_find_all(enrich, ctx.files@, picks, extras));
    }
    PluginAnalysis::new(Confidence::Medium, findings)
}

/// The analysis that stands in for a plugin that cannot do better, for the files whose path ends
/// with the extension.
pub fn fallback_analysis<Enrich: Fn(&ChangedFile) -> Vec<PluginFinding>>(
    ctx: &AnalysisContext,
    extension: &str,
    fallback_kind: ReasonKind,
    reason: &str,
    enrich: Enrich,
) -> (r: PluginAnalysis)
    requires
        forall|file: &ChangedFile| #[trigger] call_requires(enrich, (file,)),
    ensures
        r.confidence == Confidence::Medium,
        exists|extras: Seq<Seq<FindingModel>>| #[trigger]
            may_find_all(
                enrich,
                ctx.files@,
                picks_of(ctx@.files, ends_test(extension@)),
                extras,
            ) && r@.findings == fallback_findings(
                ctx@.files,
                picks_of(ctx@.files, ends_test(extension@)),
                extras,
                fallback_kind,
                reason@,
            ),
{
    let ends = |path: &str| -> (b: bool)
        ensures
            b == text::has_suffix(path@, extension@)
        { text::ends_with(path, extension) };
    let r = fallback_analysis_matching(ctx, ends, fallback_kind, reason, enrich);
    proof {
        let (picks, extras) = choose|picks: Seq<bool>, extras: Seq<Seq<FindingModel>>|
            #[trigger] may_pick(ends, ctx@.files, picks) && #[trigger] may_find_all(
                enrich,
                ctx.files@,
                picks,
                extras,
            ) && r@.findings == fallback_findings(
                ctx@.files,
                picks,
                extras,
                fallback_kind,
                reason@,
            );
        lemma_picks(ends, ctx@.files, picks, ends_test(extension@));
    }
    r
}

/// Where nothing is picked, no path is.
pub proof fn law_nothing_picked(files: Seq<FileModel>, picks: Seq<bool>)
    requires
        picks.len() == files.len(),
        forall|i: int| 0 <= i < picks.len() ==> !(#[trigger] picks[i]),
    ensures
        picked_paths(files, picks).len() == 0,
    decreases files.len(),
{
    if files.len() > 0 {
        let shorter = picks.drop_last();
        assert forall|i: int| 0 <= i < shorter.len() implies !(#[trigger] shorter[i]) by {
            assert(shorter[i] == picks[i]);
        }
        law_nothing_picked(files.drop_last(), shorter);
        assert(!picks[picks.len() - 1]);
    }
}

/// The picked paths are those of the picked files, in the order of the files: of two lists of files
/// those of each of them.
pub proof fn law_picked_paths_add_up(
    first: Seq<FileModel>,
    second: Seq<FileModel>,
    a: Seq<bool>,
    b: Seq<bool>,
    file: FileModel,
    pick: bool,
)
    requires
        a.len() == first.len(),
        b.len() == second.len(),
    ensures
        picked_paths(first + second, a + b) == picked_paths(first, a) + picked_paths(second, b),
        picked_paths(seq![file], seq![pick]) == (if pick {
            seq![file.path]
        } else {
            Seq::empty()
        }),
    decreases second.len(),
{
    if second.len() == 0 {
        assert(first + second =~= first);
        assert(a + b =~= a);
        assert(picked_paths(first, a) + picked_paths(second, b) =~= picked_paths(first, a));
    } else {
        law_picked_paths_add_up(first, second.drop_last(), a, b.drop_last(), file, pick);
        assert((first + second).drop_last() =~= first + second.drop_last());
        assert((a + b).drop_last() =~= a + b.drop_last());
        assert((a + b).last() == b.last());
        assert(picked_paths(first + second, a + b) =~= picked_paths(first, a) + picked_paths(
            second,
            b,
        ));
    }
    reveal_with_fuel(picked_paths, 2);
    assert(seq![file].drop_last() =~= Seq::empty());
    assert(picked_paths(seq![file], seq![pick]) =~= (if pick {
        seq![file.path]
    } else {
        Seq::empty()
    }));
}

/// The fallback tells, for each picked file in turn, the reason and then what the lines of the file
/// show, and nothing of the other files.
pub proof fn law_fallbacks_add_up(
    files: Seq<FileModel>,
    picks: Seq<bool>,
    extras: Seq<Seq<FindingModel>>,
    kind: ReasonKind,
    reason: Seq<char>,
    file: FileModel,
    extra: Seq<FindingModel>,
)
    requires
        picks.len() == files.len(),
        extras.len() == files.len(),
    ensures
        fallback_findings(files.push(file), picks.push(true), extras.push(extra), kind, reason)
            == fallback_findings(files, picks, extras, kind, reason) + seq![
            FindingModel {
                path: file.path,
                kind,
                message: reason,
                weight_override: None,
                score_mode: PluginScoreMode::Additive,
            },
        ] + extra,
        fallback_findings(files.push(file), picks.push(false), extras.push(extra), kind, reason)
            == fallback_findings(files, picks, extras, kind, reason),
        fallback_findings(
            Seq::<FileModel>::empty(),
            Seq::<bool>::empty(),
            Seq::<Seq<FindingModel>>::empty(),
            kind,
            reason,
        ).len() == 0,
{
    assert(files.push(file).drop_last() =~= files);
    assert(picks.push(true).drop_last() =~= picks);
    assert(picks.push(false).drop_last() =~= picks);
    assert(extras.push(extra).drop_last() =~= extras);
    let before = fallback_findings(files, picks, extras, kind, reason);
    let told = additive(file.path, kind, reason);
    assert(before.push(told) + extra =~= before + seq![told] + extra);
}

} // verus!
