//! The plugin for Go.

use vstd::prelude::*;

use crate::context::{
    AnalysisContext, AnalysisModel, AnalyzerPlugin, ChangedFile, ContextModel, FileModel,
    FindingModel, PluginAnalysis, PluginFinding,
};
use crate::digits;
use crate::oracle;
use crate::plugins::helper_process;
use crate::plugins::helper_process::{RevisionHelperFallback, RevisionHelperInputs};
use crate::plugins::runtime;
use crate::plugins::snapshot;
use crate::plugins::snapshot::{
    HelperPackageSnapshot, PackageWords, PluginParts, RevisionObservation,
};
use crate::plugins::support;
use crate::report::ReasonKind;
use crate::signals;
use crate::text;

verus! {

/// What the helper counts in a Go file.
#[derive(Clone, Copy, Debug, Default, PartialEq, Eq, Structural)]
pub struct GoCounts {
    pub goroutines: u32,
    pub defers: u32,
    pub selects: u32,
    pub sends: u32,
    pub receives: u32,
    pub closes: u32,
    pub max_nesting: u32,
    pub errors_is_as_calls: u32,
    pub nil_checks: u32,
    pub panic_calls: u32,
    pub recover_calls: u32,
    pub context_checks: u32,
    pub time_calls: u32,
    pub retry_markers: u32,
    pub cleanup_calls: u32,
}

/// What the helper tells of a Go file.
#[derive(Clone, Debug)]
pub struct GoFileSnapshot {
    pub counts: GoCounts,
    pub receiver_kinds: Vec<(String, String)>,
}

/// The counts of a file that is not there.
pub open spec fn no_counts() -> GoCounts {
    GoCounts {
        goroutines: 0,
        defers: 0,
        selects: 0,
        sends: 0,
        receives: 0,
        closes: 0,
        max_nesting: 0,
        errors_is_as_calls: 0,
        nil_checks: 0,
        panic_calls: 0,
        recover_calls: 0,
        context_checks: 0,
        time_calls: 0,
        retry_markers: 0,
        cleanup_calls: 0,
    }
}

pub open spec fn counts_of(file: Option<GoFileSnapshot>) -> GoCounts {
    match file {
        Some(file) => file.counts,
        None => no_counts(),
    }
}

/// Whether the kinds of the receivers changed. That a file comes or goes is a change.
pub open spec fn receivers_differ(
    before: Option<GoFileSnapshot>,
    after: Option<GoFileSnapshot>,
) -> bool {
    match (before, after) {
        (Some(b), Some(a)) => snapshot::entry_map(b.receiver_kinds@) != snapshot::entry_map(
            a.receiver_kinds@,
        ),
        (None, None) => false,
        _ => true,
    }
}

pub open spec fn is_concurrent(counts: GoCounts) -> bool {
    ||| counts.goroutines > 0
    ||| counts.defers > 0
    ||| counts.selects > 0
    ||| counts.sends > 0
    ||| counts.receives > 0
    ||| counts.closes > 0
}

/// Whether a count of concurrency primitives changed, or the nesting of a file that has such.
pub open spec fn concurrency_differs(b: GoCounts, a: GoCounts) -> bool {
    ||| b.goroutines != a.goroutines
    ||| b.defers != a.defers
    ||| b.selects != a.selects
    ||| b.sends != a.sends
    ||| b.receives != a.receives
    ||| b.closes != a.closes
    ||| (is_concurrent(b) || is_concurrent(a)) && b.max_nesting != a.max_nesting
}

pub open spec fn error_handling_differs(b: GoCounts, a: GoCounts) -> bool {
    ||| b.errors_is_as_calls != a.errors_is_as_calls
    ||| b.nil_checks != a.nil_checks
    ||| b.panic_calls != a.panic_calls
    ||| b.recover_calls != a.recover_calls
    ||| b.context_checks != a.context_checks
}

pub open spec fn runtime_differs(b: GoCounts, a: GoCounts) -> bool {
    b.time_calls != a.time_calls || b.retry_markers != a.retry_markers
}

/// What the comparison of a file finds.
pub open spec fn file_findings(
    path: Seq<char>,
    before: Option<GoFileSnapshot>,
    after: Option<GoFileSnapshot>,
) -> Seq<FindingModel> {
    let b = counts_of(before);
    let a = counts_of(after);
    support::found_if(
        receivers_differ(before, after),
        support::base(path, ReasonKind::GoReceiverChange, "go receiver kind changed"@),
    ) + support::found_if(
        concurrency_differs(b, a),
        support::weighted_base(
            path,
            ReasonKind::GoConcurrencyChange,
            "go concurrency primitive changed (nesting "@ + digits::decimal(a.max_nesting as nat)
                + ")"@,
            snapshot::depth_weight(a.max_nesting as nat),
        ),
    ) + support::found_if(
        error_handling_differs(b, a),
        support::base(path, ReasonKind::GoErrorHandlingChange, "go error handling changed"@),
    ) + support::found_if(
        runtime_differs(b, a),
        support::base(path, ReasonKind::GoRuntimeBehaviorChange, "go runtime behavior changed"@),
    ) + support::found_if(
        b.cleanup_calls != a.cleanup_calls,
        support::base(
            path,
            ReasonKind::GoResourceLifecycleChange,
            "go resource lifecycle changed"@,
        ),
    )
}

/// Whether the line ends a test with a failure.
pub open spec fn fails_test(line: Seq<char>) -> bool {
    text::has_infix(line, "t.Fatal("@) || text::has_infix(line, "t.Fatalf("@)
}

/// How many of the lines end a test with a failure.
pub open spec fn failures(lines: Seq<Seq<char>>) -> nat
    decreases lines.len(),
{
    if lines.len() == 0 {
        0
    } else {
        failures(lines.drop_last()) + if fails_test(lines.last()) {
            1nat
        } else {
            0nat
        }
    }
}

/// Whether a test expects something else than before, or has more or fewer places where it fails.
/// What it says when it fails does not count.
pub open spec fn oracle_differs(file: FileModel) -> bool {
    file.is_test() && (oracle::expectation_change(file) || failures(file.removed) != failures(
        file.added,
    ))
}

/// What the look at a test finds.
pub open spec fn test_findings(file: FileModel) -> Seq<FindingModel> {
    support::found_if(
        text::has_suffix(file.path, "_test.go"@) && oracle_differs(file),
        support::base(file.path, ReasonKind::GoTestOracleChange, "go test oracle changed"@),
    )
}

/// Whether a trimmed line opens a branch of Go.
pub open spec fn opens_branch(t: Seq<char>) -> bool {
    ||| text::has_prefix(t, "if "@)
    ||| text::has_prefix(t, "if("@)
    ||| text::has_prefix(t, "else if"@)
    ||| text::has_prefix(t, "for "@)
    ||| text::has_prefix(t, "switch "@)
    ||| text::has_prefix(t, "select "@)
    ||| text::has_prefix(t, "select{"@)
}

/// The test of `opens_branch` as a function.
pub open spec fn branch_test() -> spec_fn(Seq<char>) -> bool {
    |t: Seq<char>| opens_branch(t)
}

pub open spec fn opens_select(line: Seq<char>) -> bool {
    text::has_prefix(text::trimmed_start(line), "select {"@)
}

/// Whether the line declares an exported function or type.
pub open spec fn exports_declaration(line: Seq<char>) -> bool {
    let t = text::trimmed_start(line);
    signals::capital_behind(t, "func "@) || signals::capital_behind(t, "type "@)
}

pub open spec fn changes_select(file: FileModel) -> bool {
    exists|i: int| 0 <= i < file.changed().len() && opens_select(#[trigger] file.changed()[i])
}

pub open spec fn changes_declaration(file: FileModel) -> bool {
    exists|i: int|
        0 <= i < file.changed().len() && exports_declaration(#[trigger] file.changed()[i])
}

/// What can be found in the changed lines of a file without the helper.
pub open spec fn line_findings(file: FileModel) -> Seq<FindingModel> {
    support::found_if(
        changes_select(file),
        support::weighted_base(
            file.path,
            ReasonKind::GoConcurrencyChange,
            "go select change"@,
            snapshot::depth_weight(signals::nesting(file.added, branch_test()).deepest),
        ),
    ) + support::found_if(
        changes_declaration(file),
        support::base(file.path, ReasonKind::GoExportedApiChange, "exported go api change"@),
    )
}

/// How the plugin tells of changed packages.
pub open spec fn package_words() -> PackageWords<'static> {
    PackageWords {
        api_kind: ReasonKind::GoExportedApiChange,
        api_message: "go exported api changed",
        break_kind: ReasonKind::GoInterfaceBreak,
        break_message: "go interface implementation removed: ",
    }
}

/// What the plugin tells where something is missing.
pub open spec fn fallback_words() -> RevisionHelperFallback<'static> {
    RevisionHelperFallback {
        kind: ReasonKind::GoAnalysisFallback,
        input_kind_reason: "go plugin requires git revision input",
        repo_root_reason: "go plugin requires repo root",
        base_rev_reason: "go plugin requires base revision",
        head_rev_reason: "go plugin requires head revision",
        required_files_reason: "go plugin requires go.mod",
    }
}

/// The functions that make up the plugin.
pub open spec fn plugin_parts() -> PluginParts<GoFileSnapshot> {
    PluginParts {
        picks: support::ends_test(".go"@),
        extra: |file: FileModel| line_findings(file),
        in_package: |
            path: Seq<char>,
            b: Option<HelperPackageSnapshot>,
            a: Option<HelperPackageSnapshot>,
        | snapshot::package_findings(package_words(), path, b, a),
        in_file: |path: Seq<char>, b: Option<GoFileSnapshot>, a: Option<GoFileSnapshot>|
            file_findings(path, b, a),
        in_test: |file: FileModel| test_findings(file),
    }
}

/// What the plugin says of a context, by what was observed.
pub open spec fn go_analysis(
    ctx: ContextModel,
    observation: RevisionObservation<GoFileSnapshot>,
) -> AnalysisModel {
    snapshot::revision_analysis(
        ctx,
        observation,
        fallback_words(),
        "go helper failed: "@,
        plugin_parts(),
    )
}

/// The plugin for Go, with what was observed of the two revisions.
#[derive(Debug)]
pub struct GoPlugin {
    pub observation: RevisionObservation<GoFileSnapshot>,
}

impl GoPlugin {
    /// The plugin without any observation: it can only fall back.
    pub fn new() -> (r: GoPlugin)
        ensures
            r.observation.is_blank(),
    {
        GoPlugin { observation: RevisionObservation::none() }
    }
}

fn snapshot_or_default(file: Option<&GoFileSnapshot>) -> (r: GoCounts)
    ensures
        r == counts_of(snapshot::inner(file)),
{
    match file {
        Some(file) => file.counts,
        None => GoCounts {
            goroutines: 0,
            defers: 0,
            selects: 0,
            sends: 0,
            receives: 0,
            closes: 0,
            max_nesting: 0,
            errors_is_as_calls: 0,
            nil_checks: 0,
            panic_calls: 0,
            recover_calls: 0,
            context_checks: 0,
            time_calls: 0,
            retry_markers: 0,
            cleanup_calls: 0,
        },
    }
}

/// Whether the kinds of the receivers changed.
pub fn receiver_changed(before: Option<&GoFileSnapshot>, after: Option<&GoFileSnapshot>) -> (r:
    bool)
    ensures
        r == receivers_differ(snapshot::inner(before), snapshot::inner(after)),
{
    match (before, after) {
        (Some(b), Some(a)) => !snapshot::same_entries(&b.receiver_kinds, &a.receiver_kinds),
        (None, None) => false,
        _ => true,
    }
}

fn has_concurrency_primitives(counts: &GoCounts) -> (r: bool)
    ensures
        r == is_concurrent(*counts),
{
    counts.goroutines > 0 || counts.defers > 0 || counts.selects > 0 || counts.sends > 0
        || counts.receives > 0 || counts.closes > 0
}

/// Whether the concurrency of the file changed.
pub fn concurrency_changed(before: Option<&GoFileSnapshot>, after: Option<&GoFileSnapshot>) -> (r:
    bool)
    ensures
        r == concurrency_differs(
            counts_of(snapshot::inner(before)),
            counts_of(snapshot::inner(after)),
        ),
{
    let b = snapshot_or_default(before);
    let a = snapshot_or_default(after);
    b.goroutines != a.goroutines || b.defers != a.defers || b.selects != a.selects || b.sends
        != a.sends || b.receives != a.receives || b.closes != a.closes || ((
    has_concurrency_primitives(&b) || has_concurrency_primitives(&a)) && b.max_nesting
        != a.max_nesting)
}

/// Whether the error handling of the file changed.
pub fn error_handling_changed(
    before: Option<&GoFileSnapshot>,
    after: Option<&GoFileSnapshot>,
) -> (r: bool)
    ensures
        r == error_handling_differs(
            counts_of(snapshot::inner(before)),
            counts_of(snapshot::inner(after)),
        ),
{
    let b = snapshot_or_default(before);
    let a = snapshot_or_default(after);
    b.errors_is_as_calls != a.errors_is_as_calls || b.nil_checks != a.nil_checks || b.panic_calls
        != a.panic_calls || b.recover_calls != a.recover_calls || b.context_checks
        != a.context_checks
}

/// Whether the runtime behavior of the file changed.
pub fn runtime_behavior_changed(
    before: Option<&GoFileSnapshot>,
    after: Option<&GoFileSnapshot>,
) -> (r: bool)
    ensures
        r == runtime_differs(
            counts_of(snapshot::inner(before)),
            counts_of(snapshot::inner(after)),
        ),
{
    let b = snapshot_or_default(before);
    let a = snapshot_or_default(after);
    b.time_calls != a.time_calls || b.retry_markers != a.retry_markers
}

/// Whether the cleanup in the file changed.
pub fn resource_lifecycle_changed(
    before: Option<&GoFileSnapshot>,
    after: Option<&GoFileSnapshot>,
) -> (r: bool)
    ensures
        r == (counts_of(snapshot::inner(before)).cleanup_calls != counts_of(
            snapshot::inner(after),
        ).cleanup_calls),
{
    snapshot_or_default(before).cleanup_calls != snapshot_or_default(after).cleanup_calls
}

/// What the comparison of a package finds.
pub fn analyze_package_findings(
    path: &str,
    before: Option<&HelperPackageSnapshot>,
    after: Option<&HelperPackageSnapshot>,
) -> (r: Vec<PluginFinding>)
    ensures
        text::views(r@) == snapshot::package_findings(
            package_words(),
            path@,
            snapshot::inner(before),
            snapshot::inner(after),
        ),
{
    let words = PackageWords {
        api_kind: ReasonKind::GoExportedApiChange,
        api_message: "go exported api changed",
        break_kind: ReasonKind::GoInterfaceBreak,
        break_message: "go interface implementation removed: ",
    };
    snapshot::compare_packages(words, path, before, after)
}

/// What the comparison of a file finds.
pub fn analyze_file_findings(
    path: &str,
    before: Option<&GoFileSnapshot>,
    after: Option<&GoFileSnapshot>,
) -> (r: Vec<PluginFinding>)
    ensures
        text::views(r@) == file_findings(path@, snapshot::inner(before), snapshot::inner(after)),
{
    let mut findings: Vec<PluginFinding> = Vec::new();
    support::push_base_if(
        &mut findings,
        receiver_changed(before, after),
        path,
        ReasonKind::GoReceiverChange,
        "go receiver kind changed",
        None,
    );
    let nesting: u32 = snapshot_or_default(after).max_nesting;
    let depth = digits::write(nesting as u128, 10);
    let message = "go concurrency primitive changed (nesting ".to_string().concat(
        depth.as_str(),
    ).concat(")");
    support::push_base_if(
        &mut findings,
        concurrency_changed(before, after),
        path,
        ReasonKind::GoConcurrencyChange,
        message.as_str(),
        Some(snapshot::weight_at_depth(nesting as u128)),
    );
    support::push_base_if(
        &mut findings,
        error_handling_changed(before, after),
        path,
        ReasonKind::GoErrorHandlingChange,
        "go error handling changed",
        None,
    );
    support::push_base_if(
        &mut findings,
        runtime_behavior_changed(before, after),
        path,
        ReasonKind::GoRuntimeBehaviorChange,
        "go runtime behavior changed",
        None,
    );
    support::push_base_if(
        &mut findings,
        resource_lifecycle_changed(before, after),
        path,
        ReasonKind::GoResourceLifecycleChange,
        "go resource lifecycle changed",
        None,
    );
    assert(text::views(findings@) =~= file_findings(
        path@,
        snapshot::inner(before),
        snapshot::inner(after),
    ));
    findings
}

fn count_failures(lines: &Vec<String>) -> (r: usize)
    ensures
        r == failures(text::views(lines@)),
{
    let ghost all = text::views(lines@);
    let mut n: usize = 0;
    let mut i: usize = 0;
    while i < lines.len()
        invariant
            i <= lines@.len(),
            n <= i,
            all == text::views(lines@),
            n == failures(all.take(i as int)),
        decreases lines@.len() - i,
    {
        let line = lines[i].as_str();
        proof {
            assert(all.take(i + 1).drop_last() =~= all.take(i as int));
            assert(all.take(i + 1).last() == line@);
        }
        if text::contains(line, "t.Fatal(") || text::contains(line, "t.Fatalf(") {
            n = n + 1;
        }
        i = i + 1;
    }
    assert(all.take(i as int) =~= all);
    n
}

/// Whether a test expects something else than before, or has more or fewer places where it fails.
pub fn go_test_oracle_changed(file: &ChangedFile) -> (r: bool)
    ensures
        r == oracle_differs(file@),
{
    file.is_test_file() && (oracle::has_test_expectation_change(file) || count_failures(
        &file.removed,
    ) != count_failures(&file.added))
}

/// What the look at a test finds.
pub fn analyze_test_findings(file: &ChangedFile) -> (r: Vec<PluginFinding>)
    ensures
        text::views(r@) == test_findings(file@),
{
    let mut findings: Vec<PluginFinding> = Vec::new();
    let changed: bool = text::ends_with(file.path.as_str(), "_test.go") && go_test_oracle_changed(
        file,
    );
    support::push_base_if(
        &mut findings,
        changed,
        file.path.as_str(),
        ReasonKind::GoTestOracleChange,
        "go test oracle changed",
        None,
    );
    assert(text::views(findings@) =~= test_findings(file@));
    findings
}

fn starts_go_branch(t: &str) -> (r: bool)
    ensures
        r == opens_branch(t@),
{
    text::starts_with(t, "if ") || text::starts_with(t, "if(") || text::starts_with(t, "else if")
        || text::starts_with(t, "for ") || text::starts_with(t, "switch ") || text::starts_with(
        t,
        "select ",
    ) || text::starts_with(t, "select{")
}

fn is_select(line: &str) -> (r: bool)
    ensures
        r == opens_select(line@),
{
    text::starts_with(text::trim_start(line), "select {")
}

fn is_exported_go_declaration(line: &str) -> (r: bool)
    ensures
        r == exports_declaration(line@),
{
    let t = text::trim_start(line);
    signals::has_capital_behind(t, "func ") || signals::has_capital_behind(t, "type ")
}

/// The depth of the deepest branch that the added lines open.
pub fn approximate_go_branch_nesting(file: &ChangedFile) -> (r: u128)
    ensures
        r == signals::nesting(file@.added, branch_test()).deepest,
{
    signals::deepest_branch(&file.added, starts_go_branch, Ghost(branch_test()))
}

/// What can be found in the changed lines of a file without the helper.
pub fn fallback_enrich(file: &ChangedFile) -> (r: Vec<PluginFinding>)
    ensures
        text::views(r@) == line_findings(file@),
{
    let mut findings: Vec<PluginFinding> = Vec::new();
    support::push_base_if(
        &mut findings,
        signals::any_changed(file, is_select, Ghost(|s: Seq<char>| opens_select(s))),
        file.path.as_str(),
        ReasonKind::GoConcurrencyChange,
        "go select change",
        Some(snapshot::weight_at_depth(approximate_go_branch_nesting(file))),
    );
    let exported: bool = signals::any_changed(
        file,
        is_exported_go_declaration,
        Ghost(|s: Seq<char>| exports_declaration(s)),
    );
    support::push_base_if(
        &mut findings,
        exported,
        file.path.as_str(),
        ReasonKind::GoExportedApiChange,
        "exported go api change",
        None,
    );
    assert(text::views(findings@) =~= line_findings(file@));
    findings
}

fn fallback_findings(ctx: &AnalysisContext, reason: &str) -> (r: PluginAnalysis)
    ensures
        r@ == support::plain_fallback(
            ctx@.files,
            plugin_parts().picks,
            plugin_parts().extra,
            ReasonKind::GoAnalysisFallback,
            reason@,
        ),
{
    let r = support::fallback_analysis(
        ctx,
        ".go",
        ReasonKind::GoAnalysisFallback,
        reason,
        fallback_enrich,
    );
    proof {
        let picks = support::picks_of(ctx@.files, support::ends_test(".go"@));
        let extras = choose|extras: Seq<Seq<FindingModel>>| #[trigger]
            support::may_find_all(fallback_enrich, ctx.files@, picks, extras)
                && r@.findings == support::fallback_findings(
                ctx@.files,
                picks,
                extras,
                ReasonKind::GoAnalysisFallback,
                reason@,
            );
        support::lemma_extras(
            fallback_enrich,
            ctx.files@,
            picks,
            extras,
            plugin_parts().extra,
            ReasonKind::GoAnalysisFallback,
            reason@,
        );
    }
    r
}

fn helper_failed(ctx: &AnalysisContext, error: &str) -> (r: PluginAnalysis)
    ensures
        r@ == support::plain_fallback(
            ctx@.files,
            plugin_parts().picks,
            plugin_parts().extra,
            ReasonKind::GoAnalysisFallback,
            "go helper failed: "@ + error@,
        ),
{
    let reason = "go helper failed: ".to_string().concat(error);
    fallback_findings(ctx, reason.as_str())
}

impl GoPlugin {
    /// What the helper is to be run on, or the fallback where something is missing. Of the
    /// observation, only the required files count.
    pub fn helper_inputs(&self, ctx: &AnalysisContext) -> (r: Result<
        RevisionHelperInputs,
        PluginAnalysis,
    >)
        ensures
            match snapshot::revision_inputs(
                ctx@,
                self.observation.required_files@,
                fallback_words(),
                plugin_parts(),
            ) {
                Ok(inputs) => r is Ok && r->Ok_0@ == inputs,
                Err(analysis) => r is Err && r->Err_0@ == analysis,
            },
    {
        let fallback = RevisionHelperFallback {
            kind: ReasonKind::GoAnalysisFallback,
            input_kind_reason: "go plugin requires git revision input",
            repo_root_reason: "go plugin requires repo root",
            base_rev_reason: "go plugin requires base revision",
            head_rev_reason: "go plugin requires head revision",
            required_files_reason: "go plugin requires go.mod",
        };
        let ghost parts = plugin_parts();
        let ghost picks = support::picks_of(ctx@.files, parts.picks);
        let r = helper_process::resolve_revision_helper_inputs(
            ctx,
            ".go",
            &self.observation.required_files,
            fallback,
            fallback_enrich,
        );
        proof {
            if r is Err {
                let analysis = r->Err_0;
                let gap = helper_process::gap_of(ctx@, self.observation.required_files@)->0;
                let extras = choose|extras: Seq<Seq<FindingModel>>| #[trigger]
                    support::may_find_all(fallback_enrich, ctx.files@, picks, extras)
                        && analysis@.findings == support::fallback_findings(
                        ctx@.files,
                        picks,
                        extras,
                        fallback.kind,
                        fallback.reason_for(gap),
                    );
                support::lemma_extras(
                    fallback_enrich,
                    ctx.files@,
                    picks,
                    extras,
                    parts.extra,
                    fallback.kind,
                    fallback.reason_for(gap),
                );
            }
        }
        r
    }
}

impl AnalyzerPlugin for GoPlugin {
    fn id(&self) -> (r: &'static str)
        ensures
            r@ == "go"@,
    {
        "go"
    }

    fn analyze(&self, ctx: &AnalysisContext) -> (r: PluginAnalysis)
        ensures
            r@ == go_analysis(ctx@, self.observation),
    {
        let inputs = match self.helper_inputs(ctx) {
            Ok(inputs) => inputs,
            Err(analysis) => {
                return analysis;
            },
        };
        let before = snapshot::borrow_snapshot(&self.observation.before);
        let after = snapshot::borrow_snapshot(&self.observation.after);
        let r = runtime::analyze_revision_plugin(
            ctx,
            &inputs,
            before,
            after,
            helper_failed,
            analyze_package_findings,
            analyze_file_findings,
            analyze_test_findings,
        );
        proof {
            let parts = plugin_parts();
            assert(inputs.changed_files@.len() == inputs@.changed_files.len());
            if inputs.changed_files@.len() == 0 {
                assert(r@.findings =~= Seq::empty());
            } else if before is Ok && after is Ok {
                snapshot::lemma_comparison(
                    r,
                    *ctx,
                    inputs@.changed_files,
                    before->Ok_0,
                    after->Ok_0,
                    analyze_package_findings,
                    analyze_file_findings,
                    analyze_test_findings,
                    parts.in_package,
                    parts.in_file,
                    parts.in_test,
                );
            }
        }
        r
    }
}

/// What a helper counted in a file, as far as it told of the file.
pub open spec fn counted(file: Option<GoFileSnapshot>, count: spec_fn(GoCounts) -> u32) -> u32 {
    match file {
        Some(file) => count(file.counts),
        None => 0,
    }
}

/// Whether two revisions of a file count differently.
pub open spec fn counts_change(
    before: Option<GoFileSnapshot>,
    after: Option<GoFileSnapshot>,
    count: spec_fn(GoCounts) -> u32,
) -> bool {
    counted(before, count) != counted(after, count)
}

/// Whether one of two revisions of a file counts something.
pub open spec fn either_counts(
    before: Option<GoFileSnapshot>,
    after: Option<GoFileSnapshot>,
    count: spec_fn(GoCounts) -> u32,
) -> bool {
    counted(before, count) > 0 || counted(after, count) > 0
}

/// The comparison of two revisions of a file tells of the kind of receivers where one of the revisions
/// does not have the file, or where a receiver has a kind in one of them and not in the other one; of
/// concurrency where one of its primitives is counted differently, or the nesting is and there are
/// such primitives; of error handling, of runtime behaviour and of the lifecycle of resources where
/// one of their marks is counted differently; and of nothing else.
pub proof fn law_changed_files_are_told(
    path: Seq<char>,
    before: Option<GoFileSnapshot>,
    after: Option<GoFileSnapshot>,
)
    ensures
        ({
            let found = file_findings(path, before, after);
            &&& snapshot::tells(found, ReasonKind::GoReceiverChange) <==> match (before, after) {
                (None, None) => false,
                (Some(b), Some(a)) => exists|name: Seq<char>, kind: Seq<char>| #[trigger]
                    snapshot::gives(b.receiver_kinds@, name, kind) != #[trigger] snapshot::gives(
                        a.receiver_kinds@,
                        name,
                        kind,
                    ),
                _ => true,
            }
            &&& snapshot::tells(found, ReasonKind::GoConcurrencyChange) <==> {
                ||| counts_change(before, after, |c: GoCounts| c.goroutines)
                ||| counts_change(before, after, |c: GoCounts| c.defers)
                ||| counts_change(before, after, |c: GoCounts| c.selects)
                ||| counts_change(before, after, |c: GoCounts| c.sends)
                ||| counts_change(before, after, |c: GoCounts| c.receives)
                ||| counts_change(before, after, |c: GoCounts| c.closes)
                ||| counts_change(before, after, |c: GoCounts| c.max_nesting) && {
                    ||| either_counts(before, after, |c: GoCounts| c.goroutines)
                    ||| either_counts(before, after, |c: GoCounts| c.defers)
                    ||| either_counts(before, after, |c: GoCounts| c.selects)
                    ||| either_counts(before, after, |c: GoCounts| c.sends)
                    ||| either_counts(before, after, |c: GoCounts| c.receives)
                    ||| either_counts(before, after, |c: GoCounts| c.closes)
                }
            }
            &&& snapshot::tells(found, ReasonKind::GoErrorHandlingChange) <==> {
                ||| counts_change(before, after, |c: GoCounts| c.errors_is_as_calls)
                ||| counts_change(before, after, |c: GoCounts| c.nil_checks)
                ||| counts_change(before, after, |c: GoCounts| c.panic_calls)
                ||| counts_change(before, after, |c: GoCounts| c.recover_calls)
                ||| counts_change(before, after, |c: GoCounts| c.context_checks)
            }
            &&& snapshot::tells(found, ReasonKind::GoRuntimeBehaviorChange) <==> {
                ||| counts_change(before, after, |c: GoCounts| c.time_calls)
                ||| counts_change(before, after, |c: GoCounts| c.retry_markers)
            }
            &&& snapshot::tells(found, ReasonKind::GoResourceLifecycleChange) <==> counts_change(
                before,
                after,
                |c: GoCounts| c.cleanup_calls,
            )
            &&& forall|i: int|
                0 <= i < found.len() ==> {
                    let kind = (#[trigger] found[i]).kind;
                    ||| kind == ReasonKind::GoReceiverChange
                    ||| kind == ReasonKind::GoConcurrencyChange
                    ||| kind == ReasonKind::GoErrorHandlingChange
                    ||| kind == ReasonKind::GoRuntimeBehaviorChange
                    ||| kind == ReasonKind::GoResourceLifecycleChange
                }
        }),
{
    let found = file_findings(path, before, after);
    let b = counts_of(before);
    let a = counts_of(after);
    if let (Some(x), Some(y)) = (before, after) {
        snapshot::law_maps_differ_by_an_entry(x.receiver_kinds@, y.receiver_kinds@);
    }
    let n0 = if receivers_differ(before, after) { 1int } else { 0 };
    let n1 = n0 + if concurrency_differs(b, a) { 1int } else { 0 };
    let n2 = n1 + if error_handling_differs(b, a) { 1int } else { 0 };
    let n3 = n2 + if runtime_differs(b, a) { 1int } else { 0 };
    let n4 = n3 + if b.cleanup_calls != a.cleanup_calls { 1int } else { 0 };
    assert(found.len() == n4);
    assert(n0 > 0 ==> found[0].kind == ReasonKind::GoReceiverChange);
    assert(n1 > n0 ==> found[n0].kind == ReasonKind::GoConcurrencyChange);
    assert(n2 > n1 ==> found[n1].kind == ReasonKind::GoErrorHandlingChange);
    assert(n3 > n2 ==> found[n2].kind == ReasonKind::GoRuntimeBehaviorChange);
    assert(n4 > n3 ==> found[n3].kind == ReasonKind::GoResourceLifecycleChange);
}

/// What each finding on a file says: it names the file, raises its base score, and weighs what the
/// model says of its kind, but for concurrency, which weighs by the nesting behind the change.
pub proof fn law_file_findings_say(
    path: Seq<char>,
    before: Option<GoFileSnapshot>,
    after: Option<GoFileSnapshot>,
    i: int,
)
    requires
        0 <= i < file_findings(path, before, after).len(),
    ensures
        ({
            let finding = file_findings(path, before, after)[i];
            let nesting = counted(after, |c: GoCounts| c.max_nesting);
            &&& finding.path == path
            &&& finding.score_mode == crate::context::PluginScoreMode::Base
            &&& finding.kind == ReasonKind::GoConcurrencyChange ==> finding.weight_override == Some(
                if nesting >= 4 {
                    35u32
                } else if nesting == 3 {
                    30
                } else if nesting == 2 {
                    25
                } else {
                    20
                },
            ) && finding.message == "go concurrency primitive changed (nesting "@ + digits::decimal(
                nesting as nat,
            ) + ")"@
            &&& finding.kind != ReasonKind::GoConcurrencyChange ==> finding.weight_override is None
            &&& finding.kind == ReasonKind::GoReceiverChange ==> finding.message
                == "go receiver kind changed"@
            &&& finding.kind == ReasonKind::GoErrorHandlingChange ==> finding.message
                == "go error handling changed"@
            &&& finding.kind == ReasonKind::GoRuntimeBehaviorChange ==> finding.message
                == "go runtime behavior changed"@
            &&& finding.kind == ReasonKind::GoResourceLifecycleChange ==> finding.message
                == "go resource lifecycle changed"@
        }),
{
    let found = file_findings(path, before, after);
    let b = counts_of(before);
    let a = counts_of(after);
    let n0 = if receivers_differ(before, after) { 1int } else { 0 };
    let n1 = n0 + if concurrency_differs(b, a) { 1int } else { 0 };
    let n2 = n1 + if error_handling_differs(b, a) { 1int } else { 0 };
    let n3 = n2 + if runtime_differs(b, a) { 1int } else { 0 };
    let n4 = n3 + if b.cleanup_calls != a.cleanup_calls { 1int } else { 0 };
    assert(found.len() == n4);
    assert(counted(after, |c: GoCounts| c.max_nesting) == a.max_nesting);
    if i < n0 {
        assert(found[i] == support::base(
            path,
            ReasonKind::GoReceiverChange,
            "go receiver kind changed"@,
        ));
    } else if i < n1 {
        assert(found[i] == support::weighted_base(
            path,
            ReasonKind::GoConcurrencyChange,
            "go concurrency primitive changed (nesting "@ + digits::decimal(a.max_nesting as nat)
                + ")"@,
            snapshot::depth_weight(a.max_nesting as nat),
        ));
    } else if i < n2 {
        assert(found[i] == support::base(
            path,
            ReasonKind::GoErrorHandlingChange,
            "go error handling changed"@,
        ));
    } else if i < n3 {
        assert(found[i] == support::base(
            path,
            ReasonKind::GoRuntimeBehaviorChange,
            "go runtime behavior changed"@,
        ));
    } else {
        assert(found[i] == support::base(
            path,
            ReasonKind::GoResourceLifecycleChange,
            "go resource lifecycle changed"@,
        ));
    }
}

/// How many of the lines hold one of two texts.
pub open spec fn lines_with(lines: Seq<Seq<char>>, first: Seq<char>, second: Seq<char>) -> nat
    decreases lines.len(),
{
    if lines.len() == 0 {
        0
    } else if text::has_infix(lines[0], first) || text::has_infix(lines[0], second) {
        1 + lines_with(lines.skip(1), first, second)
    } else {
        lines_with(lines.skip(1), first, second)
    }
}

proof fn lemma_lines_with(lines: Seq<Seq<char>>, last: Seq<char>)
    ensures
        lines_with(lines.push(last), "t.Fatal("@, "t.Fatalf("@) == lines_with(
            lines,
            "t.Fatal("@,
            "t.Fatalf("@,
        ) + (if fails_test(last) {
            1nat
        } else {
            0nat
        }),
    decreases lines.len(),
{
    let all = lines.push(last);
    if lines.len() == 0 {
        assert(all[0] == last);
        assert(all.skip(1) =~= Seq::empty());
        assert(lines_with(Seq::empty(), "t.Fatal("@, "t.Fatalf("@) == 0);
    } else {
        assert(all[0] == lines[0]);
        assert(all.skip(1) =~= lines.skip(1).push(last));
        lemma_lines_with(lines.skip(1), last);
    }
}

proof fn lemma_failures(lines: Seq<Seq<char>>)
    ensures
        failures(lines) == lines_with(lines, "t.Fatal("@, "t.Fatalf("@),
    decreases lines.len(),
{
    if lines.len() > 0 {
        lemma_failures(lines.drop_last());
        lemma_lines_with(lines.drop_last(), lines.last());
        assert(lines.drop_last().push(lines.last()) =~= lines);
    }
}

/// A changed test oracle is told of a Go test whose expectations changed, or which fails the test in
/// another number of lines than before, and of no other file.
pub proof fn law_changed_oracles_are_told(file: FileModel)
    ensures
        test_findings(file) == (if text::has_suffix(file.path, "_test.go"@) && file.is_test() && (
        oracle::expectation_change(file) || lines_with(file.removed, "t.Fatal("@, "t.Fatalf("@)
            != lines_with(file.added, "t.Fatal("@, "t.Fatalf("@)) {
            seq![
                FindingModel {
                    path: file.path,
                    kind: ReasonKind::GoTestOracleChange,
                    message: "go test oracle changed"@,
                    weight_override: None,
                    score_mode: crate::context::PluginScoreMode::Base,
                },
            ]
        } else {
            Seq::empty()
        }),
{
    lemma_failures(file.removed);
    lemma_failures(file.added);
}

/// Without its helper the plugin tells of a select that a changed line opens, and of a function or a
/// type that a changed line declares under a name with a capital letter.
pub proof fn law_lines_are_told(file: FileModel)
    ensures
        ({
            let found = line_findings(file);
            &&& snapshot::tells(found, ReasonKind::GoConcurrencyChange) <==> exists|i: int|
                0 <= i < file.changed().len() && text::has_prefix(
                    text::trimmed_start(#[trigger] file.changed()[i]),
                    "select {"@,
                )
            &&& snapshot::tells(found, ReasonKind::GoExportedApiChange) <==> exists|i: int|
                0 <= i < file.changed().len() && declares(
                    text::trimmed_start(#[trigger] file.changed()[i]),
                )
            &&& forall|i: int|
                0 <= i < found.len() ==> {
                    let finding = #[trigger] found[i];
                    &&& finding.path == file.path
                    &&& finding.score_mode == crate::context::PluginScoreMode::Base
                    &&& finding.kind == ReasonKind::GoConcurrencyChange && finding.message
                        == "go select change"@ && finding.weight_override is Some || finding.kind
                        == ReasonKind::GoExportedApiChange && finding.message
                        == "exported go api change"@ && finding.weight_override is None
                }
        }),
{
    let found = line_findings(file);
    assert forall|i: int| 0 <= i < file.changed().len() implies declares(
        text::trimmed_start(#[trigger] file.changed()[i]),
    ) == exports_declaration(file.changed()[i]) by {
        lemma_declares(text::trimmed_start(file.changed()[i]));
    }
    let n = if changes_select(file) { 1int } else { 0 };
    assert(n > 0 ==> found[0].kind == ReasonKind::GoConcurrencyChange);
    assert(changes_declaration(file) ==> found[n].kind == ReasonKind::GoExportedApiChange);
}

/// Whether a line declares a function or a type under a name that begins with an ASCII capital letter.
pub open spec fn declares(t: Seq<char>) -> bool {
    exists|c: char, rest: Seq<char>|
        65 <= c as int <= 90 && (t == #[trigger] ("func "@ + seq![c] + rest) || t == "type "@ + seq![c]
            + rest)
}

proof fn lemma_declares(t: Seq<char>)
    ensures
        declares(t) == (signals::capital_behind(t, "func "@) || signals::capital_behind(
            t,
            "type "@,
        )),
{
    reveal_strlit("func ");
    reveal_strlit("type ");
    if declares(t) {
        let (c, rest) = choose|c: char, rest: Seq<char>|
            65 <= c as int <= 90 && (t == #[trigger] ("func "@ + seq![c] + rest) || t == "type "@
                + seq![c] + rest);
        assert(t[5] == c);
        assert(t.take(5) =~= "func "@ || t.take(5) =~= "type "@);
    }
    if t.len() > 5 {
        let c = t[5];
        let rest = t.skip(6);
        assert("func "@ + seq![c] + rest == "func "@ + seq![c] + rest);
        if t.take(5) == "func "@ {
            assert(t =~= "func "@ + seq![c] + rest);
        }
        if t.take(5) == "type "@ {
            assert(t =~= "type "@ + seq![c] + rest);
        }
    }
}

/// A select that the lines of a file open weighs by the deepest branch that the added lines open.
pub proof fn law_selects_weigh_by_depth(file: FileModel, i: int)
    requires
        0 <= i < line_findings(file).len(),
        line_findings(file)[i].kind == ReasonKind::GoConcurrencyChange,
    ensures
        line_findings(file)[i].weight_override == Some(
            snapshot::depth_weight(signals::nesting(file.added, branch_test()).deepest),
        ),
        forall|t: Seq<char>| #[trigger]
            branch_test()(t) <==> {
                ||| text::has_prefix(t, "if "@)
                ||| text::has_prefix(t, "if("@)
                ||| text::has_prefix(t, "else if"@)
                ||| text::has_prefix(t, "for "@)
                ||| text::has_prefix(t, "switch "@)
                ||| text::has_prefix(t, "select "@)
                ||| text::has_prefix(t, "select{"@)
            },
{
}

/// The plugin looks at the files whose path ends with `.go`, tells of packages, files and tests as Go
/// does, and says what it lacks.
pub proof fn law_parts_of_the_plugin(
    path: Seq<char>,
    before: Option<HelperPackageSnapshot>,
    after: Option<HelperPackageSnapshot>,
    old: Option<GoFileSnapshot>,
    new: Option<GoFileSnapshot>,
    file: FileModel,
)
    ensures
        (plugin_parts().picks)(path) <==> text::has_suffix(path, ".go"@),
        (plugin_parts().in_package)(path, before, after) == snapshot::package_findings(
            PackageWords {
                api_kind: ReasonKind::GoExportedApiChange,
                api_message: "go exported api changed",
                break_kind: ReasonKind::GoInterfaceBreak,
                break_message: "go interface implementation removed: ",
            },
            path,
            before,
            after,
        ),
        (plugin_parts().in_file)(path, old, new) == file_findings(path, old, new),
        (plugin_parts().in_test)(file) == test_findings(file),
        (plugin_parts().extra)(file) == line_findings(file),
{
}

/// Where the plugin cannot compare revisions, it tells for each Go file why.
pub proof fn law_fallbacks_say_why(
    ctx: ContextModel,
    observation: RevisionObservation<GoFileSnapshot>,
    i: int,
)
    requires
        0 <= i < ctx.files.len(),
        text::has_suffix(ctx.files[i].path, ".go"@),
    ensures
        ({
            let analysis = go_analysis(ctx, observation);
            let lacks_file = exists|k: int|
                0 <= k < observation.required_files@.len() && !((
                #[trigger] observation.required_files@[k]).in_base
                    && observation.required_files@[k].in_head);
            let why = if ctx.input_kind != crate::context::InputKind::GitRevisionRange {
                Some("go plugin requires git revision input"@)
            } else if ctx.repo_root is None {
                Some("go plugin requires repo root"@)
            } else if ctx.base_rev is None {
                Some("go plugin requires base revision"@)
            } else if ctx.head_rev is None {
                Some("go plugin requires head revision"@)
            } else if lacks_file {
                Some("go plugin requires go.mod"@)
            } else {
                match (observation.before, observation.after) {
                    (Err(error), _) => Some("go helper failed: "@ + error@),
                    (_, Err(error)) => Some("go helper failed: "@ + error@),
                    _ => None,
                }
            };
            &&& analysis.confidence == if why is Some {
                crate::report::Confidence::Medium
            } else {
                crate::report::Confidence::High
            }
            &&& why matches Some(message) ==> analysis.findings.contains(
                FindingModel {
                    path: ctx.files[i].path,
                    kind: ReasonKind::GoAnalysisFallback,
                    message,
                    weight_override: None,
                    score_mode: crate::context::PluginScoreMode::Additive,
                },
            )
        }),
{
    let required = observation.required_files@;
    assert((plugin_parts().picks)(ctx.files[i].path));
    match crate::plugins::helper_process::gap_of(ctx, required) {
        Some(_) => {
            snapshot::law_missing_prerequisite_falls_back(
                ctx,
                observation,
                fallback_words(),
                "go helper failed: "@,
                plugin_parts(),
                i,
            );
        },
        None => {
            if observation.before is Err || observation.after is Err {
                snapshot::law_failed_helper_falls_back(
                    ctx,
                    observation,
                    fallback_words(),
                    "go helper failed: "@,
                    plugin_parts(),
                    i,
                );
            } else {
                snapshot::law_revisions_are_compared(
                    ctx,
                    observation,
                    observation.before->Ok_0,
                    observation.after->Ok_0,
                    fallback_words(),
                    "go helper failed: "@,
                    plugin_parts(),
                    i,
                );
            }
        },
    }
}

} // verus!
