//! What the helper of a plugin needs to run, and what to do where it is missing.

use vstd::prelude::*;

use crate::context::{
    AnalysisContext, ChangedFile, ContextModel, FileModel, FindingModel, InputKind, PluginAnalysis,
    PluginFinding, PluginScoreMode,
};
use crate::digits;
use crate::plugins::support;
use crate::report::{Confidence, ReasonKind};
use crate::text;

verus! {

/// A helper program that comes with the plugin: its files, and the command that runs it.
pub struct EmbeddedHelper<'a> {
    pub temp_dir_prefix: &'a str,
    pub files: &'a [(&'a str, &'a str)],
    pub program: &'a str,
    pub args: &'a [&'a str],
}

/// What a helper is run on.
pub struct RevisionHelperInputs {
    pub changed_files: Vec<String>,
    pub repo_root: String,
    pub base_rev: String,
    pub head_rev: String,
}

/// A `RevisionHelperInputs` with its texts and lists as sequences.
#[verifier::ext_equal]
pub struct InputsModel {
    pub changed_files: Seq<Seq<char>>,
    pub repo_root: Seq<char>,
    pub base_rev: Seq<char>,
    pub head_rev: Seq<char>,
}

impl View for RevisionHelperInputs {
    type V = InputsModel;

    open spec fn view(&self) -> InputsModel {
        InputsModel {
            changed_files: text::views(self.changed_files@),
            repo_root: self.repo_root@,
            base_rev: self.base_rev@,
            head_rev: self.head_rev@,
        }
    }
}

/// The kind of a fallback finding, and its message for each thing that can be missing.
pub struct RevisionHelperFallback<'a> {
    pub kind: ReasonKind,
    pub input_kind_reason: &'a str,
    pub repo_root_reason: &'a str,
    pub base_rev_reason: &'a str,
    pub head_rev_reason: &'a str,
    pub required_files_reason: &'a str,
}

/// Whether a file that a helper requires is there in both revisions.
#[derive(Clone, Copy, Debug, PartialEq, Eq, Structural)]
pub struct RequiredFile {
    pub in_base: bool,
    pub in_head: bool,
}

/// What can be missing.
pub enum Gap {
    InputKind,
    RepoRoot,
    BaseRev,
    HeadRev,
    RequiredFiles,
}

/// Whether a required file is missing in one of the revisions.
pub open spec fn lacks_file(required_files: Seq<RequiredFile>) -> bool {
    exists|i: int|
        0 <= i < required_files.len() && !((#[trigger] required_files[i]).in_base
            && required_files[i].in_head)
}

/// The first thing that is missing.
pub open spec fn gap_of(ctx: ContextModel, required_files: Seq<RequiredFile>) -> Option<Gap> {
    if ctx.input_kind != InputKind::GitRevisionRange {
        Some(Gap::InputKind)
    } else if ctx.repo_root is None {
        Some(Gap::RepoRoot)
    } else if ctx.base_rev is None {
        Some(Gap::BaseRev)
    } else if ctx.head_rev is None {
        Some(Gap::HeadRev)
    } else if lacks_file(required_files) {
        Some(Gap::RequiredFiles)
    } else {
        None
    }
}

impl<'a> RevisionHelperFallback<'a> {
    /// The message for a gap.
    pub open spec fn reason_for(self, gap: Gap) -> Seq<char> {
        match gap {
            Gap::InputKind => self.input_kind_reason@,
            Gap::RepoRoot => self.repo_root_reason@,
            Gap::BaseRev => self.base_rev_reason@,
            Gap::HeadRev => self.head_rev_reason@,
            Gap::RequiredFiles => self.required_files_reason@,
        }
    }
}

/// The inputs for a helper that has nothing to do.
pub open spec fn no_inputs() -> InputsModel {
    InputsModel {
        changed_files: Seq::empty(),
        repo_root: Seq::empty(),
        base_rev: Seq::empty(),
        head_rev: Seq::empty(),
    }
}

/// The inputs for a helper on a revision range.
pub open spec fn inputs_for(ctx: ContextModel, paths: Seq<Seq<char>>) -> InputsModel {
    InputsModel {
        changed_files: paths,
        repo_root: ctx.repo_root->0,
        base_rev: ctx.base_rev->0,
        head_rev: ctx.head_rev->0,
    }
}

/// Whether `outcome` is what resolving the inputs gives: no inputs where no file is picked, a
/// fallback where something is missing, and else the inputs. `later` are the files that are picked
/// for the fallback.
pub open spec fn resolves<Enrich: Fn(&ChangedFile) -> Vec<PluginFinding>>(
    outcome: Result<RevisionHelperInputs, PluginAnalysis>,
    ctx: AnalysisContext,
    picks: Seq<bool>,
    later: Seq<bool>,
    required_files: Seq<RequiredFile>,
    fallback: RevisionHelperFallback<'_>,
    enrich: Enrich,
) -> bool {
    let paths = support::picked_paths(ctx@.files, picks);
    if paths.len() == 0 {
        outcome is Ok && outcome->Ok_0@ == no_inputs()
    } else {
        match gap_of(ctx@, required_files) {
            Some(gap) => {
                &&& outcome is Err
                &&& outcome->Err_0.confidence == Confidence::Medium
                &&& exists|extras: Seq<Seq<FindingModel>>| #[trigger]
                    support::may_find_all(enrich, ctx.files@, later, extras)
                        && outcome->Err_0@.findings == support::fallback_findings(
                        ctx@.files,
                        later,
                        extras,
                        fallback.kind,
                        fallback.reason_for(gap),
                    )
            },
            None => outcome is Ok && outcome->Ok_0@ == inputs_for(ctx@, paths),
        }
    }
}

fn lacks_required_file(required_files: &Vec<RequiredFile>) -> (r: bool)
    ensures
        r == lacks_file(required_files@),
{
    let mut i: usize = 0;
    while i < required_files.len()
        invariant
            i <= required_files@.len(),
            forall|k: int|
                0 <= k < i ==> (#[trigger] required_files@[k]).in_base
                    && required_files@[k].in_head,
        decreases required_files@.len() - i,
    {
        if !(required_files[i].in_base && required_files[i].in_head) {
            assert(!(required_files@[i as int].in_base && required_files@[i as int].in_head));
            return true;
        }
        i = i + 1;
    }
    false
}

/// The inputs for the helper of a plugin, for the files that pass the test, or the fallback where
/// something is missing. `required_files` tells which of the files that the helper requires are
/// there.
pub fn resolve_revision_helper_inputs_matching<
    Matching: Copy + Fn(&str) -> bool,
    Enrich: Fn(&ChangedFile) -> Vec<PluginFinding>,
>(
    ctx: &AnalysisContext,
    matching: Matching,
    required_files: &Vec<RequiredFile>,
    fallback: RevisionHelperFallback<'_>,
    enrich: Enrich,
) -> (r: Result<RevisionHelperInputs, PluginAnalysis>)
    requires
        forall|s: &str| #[trigger] call_requires(matching, (s,)),
        forall|file: &ChangedFile| #[trigger] call_requires(enrich, (file,)),
    ensures
        exists|picks: Seq<bool>, later: Seq<bool>| #[trigger]
            support::may_pick(matching, ctx@.files, picks) && #[trigger] support::may_pick(
                matching,
                ctx@.files,
                later,
            ) && resolves(r, *ctx, picks, later, required_files@, fallback, enrich),
{
    let changed_files = support::changed_files_matching(ctx, matching);
    let ghost picks = choose|picks: Seq<bool>| #[trigger]
        support::may_pick(matching, ctx@.files, picks) && text::views(changed_files@)
            == support::picked_paths(ctx@.files, picks);
    assert(changed_files@.len() == support::picked_paths(ctx@.files, picks).len());
    if changed_files.len() == 0 {
        let r = RevisionHelperInputs {
            changed_files,
            repo_root: String::new(),
            base_rev: String::new(),
            head_rev: String::new(),
        };
        assert(r@ =~= no_inputs());
        assert(resolves(Ok(r), *ctx, picks, picks, required_files@, fallback, enrich));
        return Ok(r);
    }
    let reason: &str;
    if ctx.input_kind != InputKind::GitRevisionRange {
        reason = fallback.input_kind_reason;
    } else if ctx.repo_root.is_none() {
        reason = fallback.repo_root_reason;
    } else if ctx.base_rev.is_none() {
        reason = fallback.base_rev_reason;
    } else if ctx.head_rev.is_none() {
        reason = fallback.head_rev_reason;
    } else if lacks_required_file(required_files) {
        reason = fallback.required_files_reason;
    } else {
        if let (Some(repo_root), Some(base_rev), Some(head_rev)) = (
            &ctx.repo_root,
            &ctx.base_rev,
            &ctx.head_rev,
        ) {
            let r = RevisionHelperInputs {
                changed_files,
                repo_root: repo_root.clone(),
                base_rev: base_rev.clone(),
                head_rev: head_rev.clone(),
            };
            assert(resolves(Ok(r), *ctx, picks, picks, required_files@, fallback, enrich));
            return Ok(r);
        }
        reason = fallback.required_files_reason;
    }
    let analysis = support::fallback_analysis_matching(
        ctx,
        matching,
        fallback.kind,
        reason,
        enrich,
    );
    proof {
        let (later, extras) = choose|later: Seq<bool>, extras: Seq<Seq<FindingModel>>|
            #[trigger] support::may_pick(matching, ctx@.files, later)
                && #[trigger] support::may_find_all(enrich, ctx.files@, later, extras)
                && analysis@.findings == support::fallback_findings(
                ctx@.files,
                later,
                extras,
                fallback.kind,
                reason@,
            );
        assert(resolves(Err(analysis), *ctx, picks, later, required_files@, fallback, enrich));
    }
    Err(analysis)
}

/// The inputs for the helper of a plugin, for the files whose path ends with the extension, or the
/// fallback where something is missing.
pub fn resolve_revision_helper_inputs<Enrich: Fn(&ChangedFile) -> Vec<PluginFinding>>(
    ctx: &AnalysisContext,
    extension: &str,
    required_files: &Vec<RequiredFile>,
    fallback: RevisionHelperFallback<'_>,
    enrich: Enrich,
) -> (r: Result<RevisionHelperInputs, PluginAnalysis>)
    requires
        forall|file: &ChangedFile| #[trigger] call_requires(enrich, (file,)),
    ensures
        resolves(
            r,
            *ctx,
            support::picks_of(ctx@.files, support::ends_test(extension@)),
            support::picks_of(ctx@.files, support::ends_test(extension@)),
            required_files@,
            fallback,
            enrich,
        ),
{
    let ends = |path: &str| -> (b: bool)
        ensures
            b == text::has_suffix(path@, extension@)
        { text::ends_with(path, extension) };
    let r = resolve_revision_helper_inputs_matching(ctx, ends, required_files, fallback, enrich);
    proof {
        let (picks, later) = choose|picks: Seq<bool>, later: Seq<bool>|
            #[trigger] support::may_pick(ends, ctx@.files, picks) && #[trigger] support::may_pick(
                ends,
                ctx@.files,
                later,
            ) && resolves(r, *ctx, picks, later, required_files@, fallback, enrich);
        support::lemma_picks(ends, ctx@.files, picks, support::ends_test(extension@));
        support::lemma_picks(ends, ctx@.files, later, support::ends_test(extension@));
    }
    r
}

/// Whether the command of a helper is `go run .`, which is replaced by a binary that is built once.
pub open spec fn runs_go(helper: EmbeddedHelper<'_>) -> bool {
    &&& helper.program@ == "go"@
    &&& text::views(helper.args@) == seq!["run"@, "."@]
}

/// Whether the helper is to be built with `go build` before it can run.
pub fn needs_go_binary(helper: &EmbeddedHelper<'_>) -> (r: bool)
    ensures
        r == runs_go(*helper),
{
    if !(text::same(helper.program, "go") && helper.args.len() == 2) {
        assert(helper.args@.len() != 2 ==> text::views(helper.args@).len() != 2);
        return false;
    }
    proof {
        let given = text::views(helper.args@);
        assert(given[0] == helper.args@[0]@ && given[1] == helper.args@[1]@);
        if given[0] == "run"@ && given[1] == "."@ {
            assert(given =~= seq!["run"@, "."@]);
        }
    }
    text::same(helper.args[0], "run") && text::same(helper.args[1], ".")
}

/// The command that runs a helper: the binary that was built for it where it runs Go, and its own
/// command where it does not.
pub fn resolve_helper_command(
    helper: &EmbeddedHelper<'_>,
    go_binary: Result<String, String>,
) -> (r: Result<(String, Vec<String>), String>)
    ensures
        runs_go(*helper) ==> match go_binary {
            Ok(path) => r matches Ok((program, args)) && program == path && args@.len() == 0,
            Err(error) => r == Err::<(String, Vec<String>), String>(error),
        },
        !runs_go(*helper) ==> (r matches Ok((program, args)) && program@ == helper.program@
            && text::views(args@) == text::views(helper.args@)),
{
    if needs_go_binary(helper) {
        return match go_binary {
            Ok(path) => Ok((path, Vec::new())),
            Err(error) => Err(error),
        };
    }
    let mut args: Vec<String> = Vec::new();
    let mut i: usize = 0;
    while i < helper.args.len()
        invariant
            i <= helper.args@.len(),
            text::views(args@) =~= text::views(helper.args@).take(i as int),
        decreases helper.args@.len() - i,
    {
        let ghost before = text::views(args@);
        let arg: &str = helper.args[i];
        args.push(arg.to_owned());
        assert(text::views(helper.args@)[i as int] == arg@);
        assert(text::views(args@) =~= before.push(arg@));
        i = i + 1;
    }
    Ok((helper.program.to_owned(), args))
}

/// The name of the directory that holds the files of a helper with the given fingerprint.
pub fn helper_dir_name(temp_dir_prefix: &str, fingerprint: u64) -> (r: String)
    ensures
        r@ == "shiwake-helper-"@ + temp_dir_prefix@ + "-"@ + digits::numeral(
            fingerprint as nat,
            16,
        ),
{
    let hex = digits::write(fingerprint as u128, 16);
    "shiwake-helper-".to_string().concat(temp_dir_prefix).concat("-").concat(hex.as_str())
}

/// What is missing for a helper: in this order a revision range, the repository, the base revision, the
/// head revision, and a required file in either revision.
pub proof fn law_gaps(ctx: ContextModel, required_files: Seq<RequiredFile>)
    ensures
        ({
            let gap = gap_of(ctx, required_files);
            let range = ctx.input_kind == InputKind::GitRevisionRange;
            let there = forall|i: int|
                0 <= i < required_files.len() ==> (#[trigger] required_files[i]).in_base
                    && required_files[i].in_head;
            &&& gap is None <==> range && ctx.repo_root is Some && ctx.base_rev is Some
                && ctx.head_rev is Some && there
            &&& gap == Some(Gap::InputKind) <==> !range
            &&& gap == Some(Gap::RepoRoot) <==> range && ctx.repo_root is None
            &&& gap == Some(Gap::BaseRev) <==> range && ctx.repo_root is Some && ctx.base_rev
                is None
            &&& gap == Some(Gap::HeadRev) <==> range && ctx.repo_root is Some && ctx.base_rev
                is Some && ctx.head_rev is None
        }),
{
}

/// A helper gets the paths that its plugin looks at, the repository and both revisions, and nothing
/// where there is no such path.
pub proof fn law_inputs(ctx: ContextModel, paths: Seq<Seq<char>>)
    requires
        ctx.repo_root is Some,
        ctx.base_rev is Some,
        ctx.head_rev is Some,
    ensures
        inputs_for(ctx, paths).changed_files == paths,
        Some(inputs_for(ctx, paths).repo_root) == ctx.repo_root,
        Some(inputs_for(ctx, paths).base_rev) == ctx.base_rev,
        Some(inputs_for(ctx, paths).head_rev) == ctx.head_rev,
        no_inputs().changed_files.len() == 0,
{
}

/// A fallback has its own reason for each gap.
pub proof fn law_reasons_for_gaps(fallback: RevisionHelperFallback<'_>)
    ensures
        fallback.reason_for(Gap::InputKind) == fallback.input_kind_reason@,
        fallback.reason_for(Gap::RepoRoot) == fallback.repo_root_reason@,
        fallback.reason_for(Gap::BaseRev) == fallback.base_rev_reason@,
        fallback.reason_for(Gap::HeadRev) == fallback.head_rev_reason@,
        fallback.reason_for(Gap::RequiredFiles) == fallback.required_files_reason@,
{
}

/// Only the command `go run .` is replaced by a binary.
pub proof fn law_commands_that_are_replaced(helper: EmbeddedHelper<'_>)
    ensures
        runs_go(helper) <==> helper.program@ == "go"@ && helper.args@.len() == 2
            && helper.args@[0]@ == "run"@ && helper.args@[1]@ == "."@,
{
    let given = text::views(helper.args@);
    if helper.args@.len() == 2 {
        assert(given[0] == helper.args@[0]@ && given[1] == helper.args@[1]@);
        if given[0] == "run"@ && given[1] == "."@ {
            assert(given =~= seq!["run"@, "."@]);
        }
    }
    if runs_go(helper) {
        assert(given.len() == 2);
        assert(given[0] == "run"@ && given[1] == "."@);
    }
}

/// Where files were changed for the plugin, the helper gets them with the three names of the revision
/// range; where something is missing, the plugin falls back with medium confidence, and says of each of
/// those files what is missing first. Where none was changed, there is nothing to do.
pub proof fn law_inputs_are_resolved<Enrich: Fn(&ChangedFile) -> Vec<PluginFinding>>(
    outcome: Result<RevisionHelperInputs, PluginAnalysis>,
    ctx: AnalysisContext,
    picks: Seq<bool>,
    required_files: Seq<RequiredFile>,
    fallback: RevisionHelperFallback<'_>,
    enrich: Enrich,
    i: int,
)
    requires
        picks.len() == ctx@.files.len(),
        resolves(outcome, ctx, picks, picks, required_files, fallback, enrich),
        0 <= i < picks.len(),
    ensures
        !picks.contains(true) ==> outcome is Ok && outcome->Ok_0@.changed_files.len() == 0
            && outcome->Ok_0@.repo_root.len() == 0 && outcome->Ok_0@.base_rev.len() == 0
            && outcome->Ok_0@.head_rev.len() == 0,
        picks[i] ==> {
            let reason = if ctx.input_kind != InputKind::GitRevisionRange {
                Some(fallback.input_kind_reason@)
            } else if ctx.repo_root is None {
                Some(fallback.repo_root_reason@)
            } else if ctx.base_rev is None {
                Some(fallback.base_rev_reason@)
            } else if ctx.head_rev is None {
                Some(fallback.head_rev_reason@)
            } else if exists|k: int|
                0 <= k < required_files.len() && !((#[trigger] required_files[k]).in_base
                    && required_files[k].in_head) {
                Some(fallback.required_files_reason@)
            } else {
                None
            };
            match reason {
                Some(reason) => {
                    &&& outcome is Err
                    &&& outcome->Err_0.confidence == Confidence::Medium
                    &&& outcome->Err_0@.findings.contains(
                        FindingModel {
                            path: ctx@.files[i].path,
                            kind: fallback.kind,
                            message: reason,
                            weight_override: None,
                            score_mode: PluginScoreMode::Additive,
                        },
                    )
                },
                None => {
                    &&& outcome is Ok
                    &&& outcome->Ok_0@.changed_files.contains(ctx@.files[i].path)
                    &&& outcome->Ok_0@.repo_root == ctx.repo_root->0@
                    &&& outcome->Ok_0@.base_rev == ctx.base_rev->0@
                    &&& outcome->Ok_0@.head_rev == ctx.head_rev->0@
                },
            }
        },
{
    let paths = support::picked_paths(ctx@.files, picks);
    if !picks.contains(true) {
        assert forall|k: int| 0 <= k < picks.len() implies !picks[k] by {
            if picks[k] {
                assert(picks.contains(true));
            }
        }
        support::law_nothing_picked(ctx@.files, picks);
    }
    if picks[i] {
        lemma_picked(ctx@.files, picks, i);
        assert(paths.len() > 0);
        if let Some(gap) = gap_of(ctx@, required_files) {
            let reason = fallback.reason_for(gap);
            let extras = choose|extras: Seq<Seq<FindingModel>>| #[trigger]
                support::may_find_all(enrich, ctx.files@, picks, extras)
                    && outcome->Err_0@.findings == support::fallback_findings(
                    ctx@.files,
                    picks,
                    extras,
                    fallback.kind,
                    reason,
                );
            lemma_fallback_is_told(ctx@.files, picks, extras, fallback.kind, reason, i);
        }
    }
}

proof fn lemma_picked(files: Seq<FileModel>, picks: Seq<bool>, i: int)
    requires
        picks.len() == files.len(),
        0 <= i < picks.len(),
        picks[i],
    ensures
        support::picked_paths(files, picks).contains(files[i].path),
    decreases files.len(),
{
    let paths = support::picked_paths(files, picks);
    let before = support::picked_paths(files.drop_last(), picks.drop_last());
    if i == files.len() - 1 {
        assert(paths[paths.len() - 1] == files[i].path);
    } else {
        lemma_picked(files.drop_last(), picks.drop_last(), i);
        let k = choose|k: int| 0 <= k < before.len() && before[k] == files[i].path;
        assert(paths[k] == files[i].path);
    }
}

proof fn lemma_fallback_is_told(
    files: Seq<FileModel>,
    picks: Seq<bool>,
    extras: Seq<Seq<FindingModel>>,
    kind: ReasonKind,
    reason: Seq<char>,
    i: int,
)
    requires
        picks.len() == files.len(),
        0 <= i < picks.len(),
        picks[i],
    ensures
        support::fallback_findings(files, picks, extras, kind, reason).contains(
            FindingModel {
                path: files[i].path,
                kind,
                message: reason,
                weight_override: None,
                score_mode: PluginScoreMode::Additive,
            },
        ),
    decreases files.len(),
{
    let told = FindingModel {
        path: files[i].path,
        kind,
        message: reason,
        weight_override: None,
        score_mode: PluginScoreMode::Additive,
    };
    let findings = support::fallback_findings(files, picks, extras, kind, reason);
    let before = support::fallback_findings(
        files.drop_last(),
        picks.drop_last(),
        extras.drop_last(),
        kind,
        reason,
    );
    if i == files.len() - 1 {
        assert(findings[before.len() as int] == told);
    } else {
        lemma_fallback_is_told(
            files.drop_last(),
            picks.drop_last(),
            extras.drop_last(),
            kind,
            reason,
            i,
        );
        let k = choose|k: int| 0 <= k < before.len() && before[k] == told;
        assert(findings[k] == told);
    }
}

} // verus!
