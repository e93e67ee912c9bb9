//! The plugin for TypeScript.

use vstd::prelude::*;

use crate::context::{
    AnalysisContext, AnalysisModel, AnalyzerPlugin, ChangedFile, ContextModel, FileModel,
    FindingModel, PluginAnalysis, PluginFinding,
};
use crate::digits;
use crate::oracle;
use crate::plugins::helper_process;
use crate::plugins::helper_process::{RevisionHelperFallback, RevisionHelperInputs};
use crate::plugins::runtime;
use crate::plugins::snapshot;
use crate::plugins::snapshot::{
    HelperPackageSnapshot, PackageWords, PluginParts, RevisionObservation,
};
use crate::plugins::support;
use crate::report::ReasonKind;
use crate::signals;
use crate::text;

verus! {

/// What the helper counts in a TypeScript file.
#[derive(Clone, Copy, Debug, Default, PartialEq, Eq, Structural)]
pub struct TypeScriptCounts {
    pub async_functions: u32,
    pub await_expressions: u32,
    pub promise_calls: u32,
    pub timers: u32,
    pub max_nesting: u32,
    pub try_blocks: u32,
    pub catch_clauses: u32,
    pub throw_statements: u32,
    pub instanceof_error_checks: u32,
    pub date_calls: u32,
    pub retry_markers: u32,
    pub abort_controllers: u32,
    pub cleanup_calls: u32,
}

/// What the helper tells of a TypeScript file.
#[derive(Clone, Debug)]
pub struct TypeScriptFileSnapshot {
    pub counts: TypeScriptCounts,
    pub member_kinds: Vec<(String, String)>,
}

/// The counts of a file that is not there.
pub open spec fn no_counts() -> TypeScriptCounts {
    TypeScriptCounts {
        async_functions: 0,
        await_expressions: 0,
        promise_calls: 0,
        timers: 0,
        max_nesting: 0,
        try_blocks: 0,
        catch_clauses: 0,
        throw_statements: 0,
        instanceof_error_checks: 0,
        date_calls: 0,
        retry_markers: 0,
        abort_controllers: 0,
        cleanup_calls: 0,
    }
}

pub open spec fn counts_of(file: Option<TypeScriptFileSnapshot>) -> TypeScriptCounts {
    match file {
        Some(file) => file.counts,
        None => no_counts(),
    }
}

/// Whether the kinds of the members changed. That a file comes or goes is a change.
pub open spec fn members_differ(
    before: Option<TypeScriptFileSnapshot>,
    after: Option<TypeScriptFileSnapshot>,
) -> bool {
    match (before, after) {
        (Some(b), Some(a)) => snapshot::entry_map(b.member_kinds@) != snapshot::entry_map(
            a.member_kinds@,
        ),
        (None, None) => false,
        _ => true,
    }
}

pub open spec fn is_async(counts: TypeScriptCounts) -> bool {
    ||| counts.async_functions > 0
    ||| counts.await_expressions > 0
    ||| counts.promise_calls > 0
    ||| counts.timers > 0
}

/// Whether a count of asynchronous primitives changed, or the nesting of a file that has such.
pub open spec fn async_differs(b: TypeScriptCounts, a: TypeScriptCounts) -> bool {
    ||| b.async_functions != a.async_functions
    ||| b.await_expressions != a.await_expressions
    ||| b.promise_calls != a.promise_calls
    ||| b.timers != a.timers
    ||| (is_async(b) || is_async(a)) && b.max_nesting != a.max_nesting
}

pub open spec fn error_handling_differs(b: TypeScriptCounts, a: TypeScriptCounts) -> bool {
    ||| b.try_blocks != a.try_blocks
    ||| b.catch_clauses != a.catch_clauses
    ||| b.throw_statements != a.throw_statements
    ||| b.instanceof_error_checks != a.instanceof_error_checks
}

pub open spec fn runtime_differs(b: TypeScriptCounts, a: TypeScriptCounts) -> bool {
    b.date_calls != a.date_calls || b.retry_markers != a.retry_markers
}

pub open spec fn lifecycle_differs(b: TypeScriptCounts, a: TypeScriptCounts) -> bool {
    b.abort_controllers != a.abort_controllers || b.cleanup_calls != a.cleanup_calls
}

/// What the comparison of a file finds.
pub open spec fn file_findings(
    path: Seq<char>,
    before: Option<TypeScriptFileSnapshot>,
    after: Option<TypeScriptFileSnapshot>,
) -> Seq<FindingModel> {
    let b = counts_of(before);
    let a = counts_of(after);
    support::found_if(
        members_differ(before, after),
        support::base(
            path,
            ReasonKind::TypeScriptMemberKindChange,
            "typescript member kind changed"@,
        ),
    ) + support::found_if(
        async_differs(b, a),
        support::weighted_base(
            path,
            ReasonKind::TypeScriptAsyncChange,
            "typescript async change (nesting "@ + digits::decimal(a.max_nesting as nat) + ")"@,
            snapshot::depth_weight(a.max_nesting as nat),
        ),
    ) + support::found_if(
        error_handling_differs(b, a),
        support::base(
            path,
            ReasonKind::TypeScriptErrorHandlingChange,
            "typescript error handling changed"@,
        ),
    ) + support::found_if(
        runtime_differs(b, a),
        support::base(
            path,
            ReasonKind::TypeScriptRuntimeBehaviorChange,
            "typescript runtime behavior changed"@,
        ),
    ) + support::found_if(
        lifecycle_differs(b, a),
        support::base(
            path,
            ReasonKind::TypeScriptResourceLifecycleChange,
            "typescript resource lifecycle changed"@,
        ),
    )
}

/// Whether a path is one of a TypeScript test.
pub open spec fn test_path(path: Seq<char>) -> bool {
    ||| text::has_suffix(path, ".test.ts"@)
    ||| text::has_suffix(path, ".spec.ts"@)
    ||| text::has_suffix(path, ".test.tsx"@)
    ||| text::has_suffix(path, ".spec.tsx"@)
}

/// What the look at a test finds.
pub open spec fn test_findings(file: FileModel) -> Seq<FindingModel> {
    support::found_if(
        test_path(file.path) && oracle::expectation_change(file),
        support::base(
            file.path,
            ReasonKind::TypeScriptTestOracleChange,
            "typescript test oracle changed"@,
        ),
    )
}

/// Whether a path is one of TypeScript.
pub open spec fn typescript_path(path: Seq<char>) -> bool {
    text::has_suffix(path, ".ts"@) || text::has_suffix(path, ".tsx"@)
}

/// Whether a trimmed line opens a branch of TypeScript.
pub open spec fn opens_branch(t: Seq<char>) -> bool {
    ||| text::has_prefix(t, "if "@)
    ||| text::has_prefix(t, "if("@)
    ||| text::has_prefix(t, "for "@)
    ||| text::has_prefix(t, "while "@)
    ||| text::has_prefix(t, "switch "@)
    ||| text::has_prefix(t, "try"@)
    ||| text::has_prefix(t, "catch"@)
}

/// The test of `opens_branch` as a function.
pub open spec fn branch_test() -> spec_fn(Seq<char>) -> bool {
    |t: Seq<char>| opens_branch(t)
}

/// Whether the line shows asynchronous code.
pub open spec fn async_signal(line: Seq<char>) -> bool {
    let t = text::trimmed(line);
    ||| text::has_infix(t, "await "@)
    ||| text::has_infix(t, "Promise."@)
    ||| text::has_infix(t, "Promise<"@)
    ||| text::has_infix(t, "async "@)
    ||| text::has_infix(t, "setTimeout("@)
    ||| text::has_infix(t, "queueMicrotask("@)
}

/// Whether the line exports a declaration.
pub open spec fn exports_declaration(line: Seq<char>) -> bool {
    let t = text::trimmed_start(line);
    ||| text::has_prefix(t, "export function "@)
    ||| text::has_prefix(t, "export async function "@)
    ||| text::has_prefix(t, "export class "@)
    ||| text::has_prefix(t, "export interface "@)
    ||| text::has_prefix(t, "export type "@)
    ||| text::has_prefix(t, "export const "@)
}

pub open spec fn changes_async(file: FileModel) -> bool {
    exists|i: int| 0 <= i < file.changed().len() && async_signal(#[trigger] file.changed()[i])
}

pub open spec fn changes_declaration(file: FileModel) -> bool {
    exists|i: int|
        0 <= i < file.changed().len() && exports_declaration(#[trigger] file.changed()[i])
}

/// What can be found in the changed lines of a file without the helper.
pub open spec fn line_findings(file: FileModel) -> Seq<FindingModel> {
    support::found_if(
        changes_async(file),
        support::weighted_base(
            file.path,
            ReasonKind::TypeScriptAsyncChange,
            "typescript async change"@,
            snapshot::depth_weight(signals::nesting(file.added, branch_test()).deepest),
        ),
    ) + support::found_if(
        changes_declaration(file),
        support::base(
            file.path,
            ReasonKind::TypeScriptExportedApiChange,
            "exported typescript api change"@,
        ),
    )
}

/// How the plugin tells of changed packages.
pub open spec fn package_words() -> PackageWords<'static> {
    PackageWords {
        api_kind: ReasonKind::TypeScriptExportedApiChange,
        api_message: "exported typescript api changed",
        break_kind: ReasonKind::TypeScriptInterfaceBreak,
        break_message: "typescript interface implementation removed: ",
    }
}

/// What the plugin tells where something is missing.
pub open spec fn fallback_words() -> RevisionHelperFallback<'static> {
    RevisionHelperFallback {
        kind: ReasonKind::TypeScriptAnalysisFallback,
        input_kind_reason: "typescript plugin requires git revision input",
        repo_root_reason: "typescript plugin requires repo root",
        base_rev_reason: "typescript plugin requires base revision",
        head_rev_reason: "typescript plugin requires head revision",
        required_files_reason: "typescript plugin requires package.json",
    }
}

/// The functions that make up the plugin.
pub open spec fn plugin_parts() -> PluginParts<TypeScriptFileSnapshot> {
    PluginParts {
        picks: |path: Seq<char>| typescript_path(path),
        extra: |file: FileModel| line_findings(file),
        in_package: |
            path: Seq<char>,
            b: Option<HelperPackageSnapshot>,
            a: Option<HelperPackageSnapshot>,
        | snapshot::package_findings(package_words(), path, b, a),
        in_file: |
            path: Seq<char>,
            b: Option<TypeScriptFileSnapshot>,
            a: Option<TypeScriptFileSnapshot>,
        | file_findings(path, b, a),
        in_test: |file: FileModel| test_findings(file),
    }
}

/// What the plugin says of a context, by what was observed.
pub open spec fn typescript_analysis(
    ctx: ContextModel,
    observation: RevisionObservation<TypeScriptFileSnapshot>,
) -> AnalysisModel {
    snapshot::revision_analysis(
        ctx,
        observation,
        fallback_words(),
        "typescript helper failed: "@,
        plugin_parts(),
    )
}

/// The plugin for TypeScript, with what was observed of the two revisions.
#[derive(Debug)]
pub struct TypeScriptPlugin {
    pub observation: RevisionObservation<TypeScriptFileSnapshot>,
}

impl TypeScriptPlugin {
    /// The plugin without any observation: it can only fall back.
    pub fn new() -> (r: TypeScriptPlugin)
        ensures
            r.observation.is_blank(),
    {
        TypeScriptPlugin { observation: RevisionObservation::none() }
    }
}

fn snapshot_or_default(file: Option<&TypeScriptFileSnapshot>) -> (r: TypeScriptCounts)
    ensures
        r == counts_of(snapshot::inner(file)),
{
    match file {
        Some(file) => file.counts,
        None => TypeScriptCounts {
            async_functions: 0,
            await_expressions: 0,
            promise_calls: 0,
            timers: 0,
            max_nesting: 0,
            try_blocks: 0,
            catch_clauses: 0,
            throw_statements: 0,
            instanceof_error_checks: 0,
            date_calls: 0,
            retry_markers: 0,
            abort_controllers: 0,
            cleanup_calls: 0,
        },
    }
}

/// Whether the kinds of the members changed.
pub fn member_kind_changed(
    before: Option<&TypeScriptFileSnapshot>,
    after: Option<&TypeScriptFileSnapshot>,
) -> (r: bool)
    ensures
        r == members_differ(snapshot::inner(before), snapshot::inner(after)),
{
    match (before, after) {
        (Some(b), Some(a)) => !snapshot::same_entries(&b.member_kinds, &a.member_kinds),
        (None, None) => false,
        _ => true,
    }
}

fn has_async_primitives(counts: &TypeScriptCounts) -> (r: bool)
    ensures
        r == is_async(*counts),
{
    counts.async_functions > 0 || counts.await_expressions > 0 || counts.promise_calls > 0
        || counts.timers > 0
}

/// Whether the asynchronous code of the file changed.
pub fn async_changed(
    before: Option<&TypeScriptFileSnapshot>,
    after: Option<&TypeScriptFileSnapshot>,
) -> (r: bool)
    ensures
        r == async_differs(
            counts_of(snapshot::inner(before)),
            counts_of(snapshot::inner(after)),
        ),
{
    let b = snapshot_or_default(before);
    let a = snapshot_or_default(after);
    b.async_functions != a.async_functions || b.await_expressions != a.await_expressions
        || b.promise_calls != a.promise_calls || b.timers != a.timers || ((has_async_primitives(&b)
        || has_async_primitives(&a)) && b.max_nesting != a.max_nesting)
}

/// Whether the error handling of the file changed.
pub fn error_handling_changed(
    before: Option<&TypeScriptFileSnapshot>,
    after: Option<&TypeScriptFileSnapshot>,
) -> (r: bool)
    ensures
        r == error_handling_differs(
            counts_of(snapshot::inner(before)),
            counts_of(snapshot::inner(after)),
        ),
{
    let b = snapshot_or_default(before);
    let a = snapshot_or_default(after);
    b.try_blocks != a.try_blocks || b.catch_clauses != a.catch_clauses || b.throw_statements
        != a.throw_statements || b.instanceof_error_checks != a.instanceof_error_checks
}

/// Whether the runtime behavior of the file changed.
pub fn runtime_behavior_changed(
    before: Option<&TypeScriptFileSnapshot>,
    after: Option<&TypeScriptFileSnapshot>,
) -> (r: bool)
    ensures
        r == runtime_differs(
            counts_of(snapshot::inner(before)),
            counts_of(snapshot::inner(after)),
        ),
{
    let b = snapshot_or_default(before);
    let a = snapshot_or_default(after);
    b.date_calls != a.date_calls || b.retry_markers != a.retry_markers
}

/// Whether the cleanup in the file changed.
pub fn resource_lifecycle_changed(
    before: Option<&TypeScriptFileSnapshot>,
    after: Option<&TypeScriptFileSnapshot>,
) -> (r: bool)
    ensures
        r == lifecycle_differs(
            counts_of(snapshot::inner(before)),
            counts_of(snapshot::inner(after)),
        ),
{
    let b = snapshot_or_default(before);
    let a = snapshot_or_default(after);
    b.abort_controllers != a.abort_controllers || b.cleanup_calls != a.cleanup_calls
}

/// What the comparison of a package finds.
pub fn analyze_package_findings(
    path: &str,
    before: Option<&HelperPackageSnapshot>,
    after: Option<&HelperPackageSnapshot>,
) -> (r: Vec<PluginFinding>)
    ensures
        text::views(r@) == snapshot::package_findings(
            package_words(),
            path@,
            snapshot::inner(before),
            snapshot::inner(after),
        ),
{
    let words = PackageWords {
        api_kind: ReasonKind::TypeScriptExportedApiChange,
        api_message: "exported typescript api changed",
        break_kind: ReasonKind::TypeScriptInterfaceBreak,
        break_message: "typescript interface implementation removed: ",
    };
    snapshot::compare_packages(words, path, before, after)
}

/// What the comparison of a file finds.
pub fn analyze_file_findings(
    path: &str,
    before: Option<&TypeScriptFileSnapshot>,
    after: Option<&TypeScriptFileSnapshot>,
) -> (r: Vec<PluginFinding>)
    ensures
        text::views(r@) == file_findings(path@, snapshot::inner(before), snapshot::inner(after)),
{
    let mut findings: Vec<PluginFinding> = Vec::new();
    support::push_base_if(
        &mut findings,
        member_kind_changed(before, after),
        path,
        ReasonKind::TypeScriptMemberKindChange,
        "typescript member kind changed",
        None,
    );
    let nesting: u32 = snapshot_or_default(after).max_nesting;
    let depth = digits::write(nesting as u128, 10);
    let message = "typescript async change (nesting ".to_string().concat(depth.as_str()).concat(")");
    support::push_base_if(
        &mut findings,
        async_changed(before, after),
        path,
        ReasonKind::TypeScriptAsyncChange,
        message.as_str(),
        Some(snapshot::weight_at_depth(nesting as u128)),
    );
    support::push_base_if(
        &mut findings,
        error_handling_changed(before, after),
        path,
        ReasonKind::TypeScriptErrorHandlingChange,
        "typescript error handling changed",
        None,
    );
    support::push_base_if(
        &mut findings,
        runtime_behavior_changed(before, after),
        path,
        ReasonKind::TypeScriptRuntimeBehaviorChange,
        "typescript runtime behavior changed",
        None,
    );
    support::push_base_if(
        &mut findings,
        resource_lifecycle_changed(before, after),
        path,
        ReasonKind::TypeScriptResourceLifecycleChange,
        "typescript resource lifecycle changed",
        None,
    );
    assert(text::views(findings@) =~= file_findings(
        path@,
        snapshot::inner(before),
        snapshot::inner(after),
    ));
    findings
}

/// Whether a path is one of a TypeScript test.
pub fn is_typescript_test_file(path: &str) -> (r: bool)
    ensures
        r == test_path(path@),
{
    text::ends_with(path, ".test.ts") || text::ends_with(path, ".spec.ts") || text::ends_with(
        path,
        ".test.tsx",
    ) || text::ends_with(path, ".spec.tsx")
}

/// What the look at a test finds.
pub fn analyze_test_findings(file: &ChangedFile) -> (r: Vec<PluginFinding>)
    ensures
        text::views(r@) == test_findings(file@),
{
    let mut findings: Vec<PluginFinding> = Vec::new();
    let changed: bool = is_typescript_test_file(file.path.as_str())
        && oracle::has_test_expectation_change(file);
    support::push_base_if(
        &mut findings,
        changed,
        file.path.as_str(),
        ReasonKind::TypeScriptTestOracleChange,
        "typescript test oracle changed",
        None,
    );
    assert(text::views(findings@) =~= test_findings(file@));
    findings
}

/// Whether a path is one of TypeScript.
pub fn is_typescript_path(path: &str) -> (r: bool)
    ensures
        r == typescript_path(path@),
{
    text::ends_with(path, ".ts") || text::ends_with(path, ".tsx")
}

fn starts_branch(t: &str) -> (r: bool)
    ensures
        r == opens_branch(t@),
{
    text::starts_with(t, "if ") || text::starts_with(t, "if(") || text::starts_with(t, "for ")
        || text::starts_with(t, "while ") || text::starts_with(t, "switch ") || text::starts_with(
        t,
        "try",
    ) || text::starts_with(t, "catch")
}

fn is_async_signal(line: &str) -> (r: bool)
    ensures
        r == async_signal(line@),
{
    let t = text::trim(line);
    text::contains(t, "await ") || text::contains(t, "Promise.") || text::contains(t, "Promise<")
        || text::contains(t, "async ") || text::contains(t, "setTimeout(") || text::contains(
        t,
        "queueMicrotask(",
    )
}

fn is_exported_typescript_declaration(line: &str) -> (r: bool)
    ensures
        r == exports_declaration(line@),
{
    let t = text::trim_start(line);
    text::starts_with(t, "export function ") || text::starts_with(t, "export async function ")
        || text::starts_with(t, "export class ") || text::starts_with(t, "export interface ")
        || text::starts_with(t, "export type ") || text::starts_with(t, "export const ")
}

/// The depth of the deepest branch that the added lines open.
pub fn approximate_branch_nesting(file: &ChangedFile) -> (r: u128)
    ensures
        r == signals::nesting(file@.added, branch_test()).deepest,
{
    signals::deepest_branch(&file.added, starts_branch, Ghost(branch_test()))
}

/// What can be found in the changed lines of a file without the helper.
pub fn fallback_enrich(file: &ChangedFile) -> (r: Vec<PluginFinding>)
    ensures
        text::views(r@) == line_findings(file@),
{
    let mut findings: Vec<PluginFinding> = Vec::new();
    support::push_base_if(
        &mut findings,
        signals::any_changed(file, is_async_signal, Ghost(|s: Seq<char>| async_signal(s))),
        file.path.as_str(),
        ReasonKind::TypeScriptAsyncChange,
        "typescript async change",
        Some(snapshot::weight_at_depth(approximate_branch_nesting(file))),
    );
    let exported: bool = signals::any_changed(
        file,
        is_exported_typescript_declaration,
        Ghost(|s: Seq<char>| exports_declaration(s)),
    );
    support::push_base_if(
        &mut findings,
        exported,
        file.path.as_str(),
        ReasonKind::TypeScriptExportedApiChange,
        "exported typescript api change",
        None,
    );
    assert(text::views(findings@) =~= line_findings(file@));
    findings
}

fn fallback_findings(ctx: &AnalysisContext, reason: &str) -> (r: PluginAnalysis)
    ensures
        r@ == support::plain_fallback(
            ctx@.files,
            plugin_parts().picks,
            plugin_parts().extra,
            ReasonKind::TypeScriptAnalysisFallback,
            reason@,
        ),
{
    let r = support::fallback_analysis_matching(
        ctx,
        is_typescript_path,
        ReasonKind::TypeScriptAnalysisFallback,
        reason,
        fallback_enrich,
    );
    proof {
        let (picks, extras) = choose|picks: Seq<bool>, extras: Seq<Seq<FindingModel>>|
            #[trigger] support::may_pick(is_typescript_path, ctx@.files, picks)
                && #[trigger] support::may_find_all(fallback_enrich, ctx.files@, picks, extras)
                && r@.findings == support::fallback_findings(
                ctx@.files,
                picks,
                extras,
                ReasonKind::TypeScriptAnalysisFallback,
                reason@,
            );
        support::lemma_picks(is_typescript_path, ctx@.files, picks, plugin_parts().picks);
        support::lemma_extras(
            fallback_enrich,
            ctx.files@,
            picks,
            extras,
            plugin_parts().extra,
            ReasonKind::TypeScriptAnalysisFallback,
            reason@,
        );
    }
    r
}

fn helper_failed(ctx: &AnalysisContext, error: &str) -> (r: PluginAnalysis)
    ensures
        r@ == support::plain_fallback(
            ctx@.files,
            plugin_parts().picks,
            plugin_parts().extra,
            ReasonKind::TypeScriptAnalysisFallback,
            "typescript helper failed: "@ + error@,
        ),
{
    let reason = "typescript helper failed: ".to_string().concat(error);
    fallback_findings(ctx, reason.as_str())
}

impl TypeScriptPlugin {
    /// What the helper is to be run on, or the fallback where something is missing. Of the
    /// observation, only the required files count.
    pub fn helper_inputs(&self, ctx: &AnalysisContext) -> (r: Result<
        RevisionHelperInputs,
        PluginAnalysis,
    >)
        ensures
            match snapshot::revision_inputs(
                ctx@,
                self.observation.required_files@,
                fallback_words(),
                plugin_parts(),
            ) {
                Ok(inputs) => r is Ok && r->Ok_0@ == inputs,
                Err(analysis) => r is Err && r->Err_0@ == analysis,
            },
    {
        let fallback = RevisionHelperFallback {
            kind: ReasonKind::TypeScriptAnalysisFallback,
            input_kind_reason: "typescript plugin requires git revision input",
            repo_root_reason: "typescript plugin requires repo root",
            base_rev_reason: "typescript plugin requires base revision",
            head_rev_reason: "typescript plugin requires head revision",
            required_files_reason: "typescript plugin requires package.json",
        };
        let ghost parts = plugin_parts();
        let ghost files = ctx@.files;
        let ghost wanted = support::picks_of(files, parts.picks);
        let r = helper_process::resolve_revision_helper_inputs_matching(
            ctx,
            is_typescript_path,
            &self.observation.required_files,
            fallback,
            fallback_enrich,
        );
        proof {
            let (picks, later) = choose|picks: Seq<bool>, later: Seq<bool>|
                #[trigger] support::may_pick(is_typescript_path, files, picks)
                    && #[trigger] support::may_pick(is_typescript_path, files, later)
                    && helper_process::resolves(
                    r,
                    *ctx,
                    picks,
                    later,
                    self.observation.required_files@,
                    fallback,
                    fallback_enrich,
                );
            support::lemma_picks(is_typescript_path, files, picks, parts.picks);
            support::lemma_picks(is_typescript_path, files, later, parts.picks);
            if r is Err {
                let analysis = r->Err_0;
                let gap = helper_process::gap_of(ctx@, self.observation.required_files@)->0;
                let extras = choose|extras: Seq<Seq<FindingModel>>| #[trigger]
                    support::may_find_all(fallback_enrich, ctx.files@, wanted, extras)
                        && analysis@.findings == support::fallback_findings(
                        files,
                        wanted,
                        extras,
                        fallback.kind,
                        fallback.reason_for(gap),
                    );
                support::lemma_extras(
                    fallback_enrich,
                    ctx.files@,
                    wanted,
                    extras,
                    parts.extra,
                    fallback.kind,
                    fallback.reason_for(gap),
                );
            }
        }
        r
    }
}

impl AnalyzerPlugin for TypeScriptPlugin {
    fn id(&self) -> (r: &'static str)
        ensures
            r@ == "ts"@,
    {
        "ts"
    }

    fn analyze(&self, ctx: &AnalysisContext) -> (r: PluginAnalysis)
        ensures
            r@ == typescript_analysis(ctx@, self.observation),
    {
        let inputs = match self.helper_inputs(ctx) {
            Ok(inputs) => inputs,
            Err(analysis) => {
                return analysis;
            },
        };
        let before = snapshot::borrow_snapshot(&self.observation.before);
        let after = snapshot::borrow_snapshot(&self.observation.after);
        let r = runtime::analyze_revision_plugin(
            ctx,
            &inputs,
            before,
            after,
            helper_failed,
            analyze_package_findings,
            analyze_file_findings,
            analyze_test_findings,
        );
        proof {
            let parts = plugin_parts();
            assert(inputs.changed_files@.len() == inputs@.changed_files.len());
            if inputs.changed_files@.len() == 0 {
                assert(r@.findings =~= Seq::empty());
            } else if before is Ok && after is Ok {
                snapshot::lemma_comparison(
                    r,
                    *ctx,
                    inputs@.changed_files,
                    before->Ok_0,
                    after->Ok_0,
                    analyze_package_findings,
                    analyze_file_findings,
                    analyze_test_findings,
                    parts.in_package,
                    parts.in_file,
                    parts.in_test,
                );
            }
        }
        r
    }
}

/// What a helper counted in a file, as far as it told of the file.
pub open spec fn counted(
    file: Option<TypeScriptFileSnapshot>,
    count: spec_fn(TypeScriptCounts) -> u32,
) -> u32 {
    match file {
        Some(file) => count(file.counts),
        None => 0,
    }
}

/// Whether two revisions of a file count differently.
pub open spec fn counts_change(
    before: Option<TypeScriptFileSnapshot>,
    after: Option<TypeScriptFileSnapshot>,
    count: spec_fn(TypeScriptCounts) -> u32,
) -> bool {
    counted(before, count) != counted(after, count)
}

/// Whether one of two revisions of a file counts something.
pub open spec fn either_counts(
    before: Option<TypeScriptFileSnapshot>,
    after: Option<TypeScriptFileSnapshot>,
    count: spec_fn(TypeScriptCounts) -> u32,
) -> bool {
    counted(before, count) > 0 || counted(after, count) > 0
}

/// The comparison of two revisions of a file tells of the kind of members where one of the revisions
/// does not have the file, or where a member has a kind in one of them and not in the other one; of
/// asynchronous code where one of its marks is counted differently, or the nesting is and there are
/// such marks; of error handling, of runtime behaviour and of the lifecycle of resources where one of
/// their marks is counted differently; and of nothing else.
pub proof fn law_changed_files_are_told(
    path: Seq<char>,
    before: Option<TypeScriptFileSnapshot>,
    after: Option<TypeScriptFileSnapshot>,
)
    ensures
        ({
            let found = file_findings(path, before, after);
            &&& snapshot::tells(found, ReasonKind::TypeScriptMemberKindChange) <==> match (
                before,
                after,
            ) {
                (None, None) => false,
                (Some(b), Some(a)) => exists|name: Seq<char>, kind: Seq<char>| #[trigger]
                    snapshot::gives(b.member_kinds@, name, kind) != #[trigger] snapshot::gives(
                        a.member_kinds@,
                        name,
                        kind,
                    ),
                _ => true,
            }
            &&& snapshot::tells(found, ReasonKind::TypeScriptAsyncChange) <==> {
                ||| counts_change(before, after, |c: TypeScriptCounts| c.async_functions)
                ||| counts_change(before, after, |c: TypeScriptCounts| c.await_expressions)
                ||| counts_change(before, after, |c: TypeScriptCounts| c.promise_calls)
                ||| counts_change(before, after, |c: TypeScriptCounts| c.timers)
                ||| counts_change(before, after, |c: TypeScriptCounts| c.max_nesting) && {
                    ||| either_counts(before, after, |c: TypeScriptCounts| c.async_functions)
                    ||| either_counts(before, after, |c: TypeScriptCounts| c.await_expressions)
                    ||| either_counts(before, after, |c: TypeScriptCounts| c.promise_calls)
                    ||| either_counts(before, after, |c: TypeScriptCounts| c.timers)
                }
            }
            &&& snapshot::tells(found, ReasonKind::TypeScriptErrorHandlingChange) <==> {
                ||| counts_change(before, after, |c: TypeScriptCounts| c.try_blocks)
                ||| counts_change(before, after, |c: TypeScriptCounts| c.catch_clauses)
                ||| counts_change(before, after, |c: TypeScriptCounts| c.throw_statements)
                ||| counts_change(before, after, |c: TypeScriptCounts| c.instanceof_error_checks)
            }
            &&& snapshot::tells(found, ReasonKind::TypeScriptRuntimeBehaviorChange) <==> {
                ||| counts_change(before, after, |c: TypeScriptCounts| c.date_calls)
                ||| counts_change(before, after, |c: TypeScriptCounts| c.retry_markers)
            }
            &&& snapshot::tells(found, ReasonKind::TypeScriptResourceLifecycleChange) <==> {
                ||| counts_change(before, after, |c: TypeScriptCounts| c.abort_controllers)
                ||| counts_change(before, after, |c: TypeScriptCounts| c.cleanup_calls)
            }
            &&& forall|i: int|
                0 <= i < found.len() ==> {
                    let kind = (#[trigger] found[i]).kind;
                    ||| kind == ReasonKind::TypeScriptMemberKindChange
                    ||| kind == ReasonKind::TypeScriptAsyncChange
                    ||| kind == ReasonKind::TypeScriptErrorHandlingChange
                    ||| kind == ReasonKind::TypeScriptRuntimeBehaviorChange
                    ||| kind == ReasonKind::TypeScriptResourceLifecycleChange
                }
        }),
{
    let found = file_findings(path, before, after);
    let b = counts_of(before);
    let a = counts_of(after);
    if let (Some(x), Some(y)) = (before, after) {
        snapshot::law_maps_differ_by_an_entry(x.member_kinds@, y.member_kinds@);
    }
    let n0 = if members_differ(before, after) { 1int } else { 0 };
    let n1 = n0 + if async_differs(b, a) { 1int } else { 0 };
    let n2 = n1 + if error_handling_differs(b, a) { 1int } else { 0 };
    let n3 = n2 + if runtime_differs(b, a) { 1int } else { 0 };
    let n4 = n3 + if lifecycle_differs(b, a) { 1int } else { 0 };
    assert(found.len() == n4);
    assert(n0 > 0 ==> found[0].kind == ReasonKind::TypeScriptMemberKindChange);
    assert(n1 > n0 ==> found[n0].kind == ReasonKind::TypeScriptAsyncChange);
    assert(n2 > n1 ==> found[n1].kind == ReasonKind::TypeScriptErrorHandlingChange);
    assert(n3 > n2 ==> found[n2].kind == ReasonKind::TypeScriptRuntimeBehaviorChange);
    assert(n4 > n3 ==> found[n3].kind == ReasonKind::TypeScriptResourceLifecycleChange);
}

/// What each finding on a file says: it names the file, raises its base score, and weighs what the
/// model says of its kind, but for asynchronous code, which weighs by the nesting behind the change.
pub proof fn law_file_findings_say(
    path: Seq<char>,
    before: Option<TypeScriptFileSnapshot>,
    after: Option<TypeScriptFileSnapshot>,
    i: int,
)
    requires
        0 <= i < file_findings(path, before, after).len(),
    ensures
        ({
            let finding = file_findings(path, before, after)[i];
            let nesting = counted(after, |c: TypeScriptCounts| c.max_nesting);
            &&& finding.path == path
            &&& finding.score_mode == crate::context::PluginScoreMode::Base
            &&& finding.kind == ReasonKind::TypeScriptAsyncChange ==> finding.weight_override
                == Some(
                if nesting >= 4 {
                    35u32
                } else if nesting == 3 {
                    30
                } else if nesting == 2 {
                    25
                } else {
                    20
                },
            ) && finding.message == "typescript async change (nesting "@ + digits::decimal(
                nesting as nat,
            ) + ")"@
            &&& finding.kind != ReasonKind::TypeScriptAsyncChange ==> finding.weight_override
                is None
            &&& finding.kind == ReasonKind::TypeScriptMemberKindChange ==> finding.message
                == "typescript member kind changed"@
            &&& finding.kind == ReasonKind::TypeScriptErrorHandlingChange ==> finding.message
                == "typescript error handling changed"@
            &&& finding.kind == ReasonKind::TypeScriptRuntimeBehaviorChange ==> finding.message
                == "typescript runtime behavior changed"@
            &&& finding.kind == ReasonKind::TypeScriptResourceLifecycleChange ==> finding.message
                == "typescript resource lifecycle changed"@
        }),
{
    let found = file_findings(path, before, after);
    let b = counts_of(before);
    let a = counts_of(after);
    let n0 = if members_differ(before, after) { 1int } else { 0 };
    let n1 = n0 + if async_differs(b, a) { 1int } else { 0 };
    let n2 = n1 + if error_handling_differs(b, a) { 1int } else { 0 };
    let n3 = n2 + if runtime_differs(b, a) { 1int } else { 0 };
    let n4 = n3 + if lifecycle_differs(b, a) { 1int } else { 0 };
    assert(found.len() == n4);
    assert(counted(after, |c: TypeScriptCounts| c.max_nesting) == a.max_nesting);
    if i < n0 {
        assert(found[i] == support::base(
            path,
            ReasonKind::TypeScriptMemberKindChange,
            "typescript member kind changed"@,
        ));
    } else if i < n1 {
        assert(found[i] == support::weighted_base(
            path,
            ReasonKind::TypeScriptAsyncChange,
            "typescript async change (nesting "@ + digits::decimal(a.max_nesting as nat) + ")"@,
            snapshot::depth_weight(a.max_nesting as nat),
        ));
    } else if i < n2 {
        assert(found[i] == support::base(
            path,
            ReasonKind::TypeScriptErrorHandlingChange,
            "typescript error handling changed"@,
        ));
    } else if i < n3 {
        assert(found[i] == support::base(
            path,
            ReasonKind::TypeScriptRuntimeBehaviorChange,
            "typescript runtime behavior changed"@,
        ));
    } else {
        assert(found[i] == support::base(
            path,
            ReasonKind::TypeScriptResourceLifecycleChange,
            "typescript resource lifecycle changed"@,
        ));
    }
}

/// A changed test oracle is told of a TypeScript test whose expectations changed, and of no other
/// file.
pub proof fn law_changed_oracles_are_told(file: FileModel)
    ensures
        test_findings(file) == (if (text::has_suffix(file.path, ".test.ts"@) || text::has_suffix(
            file.path,
            ".spec.ts"@,
        ) || text::has_suffix(file.path, ".test.tsx"@) || text::has_suffix(file.path, ".spec.tsx"@))
            && oracle::expectation_change(file) {
            seq![
                FindingModel {
                    path: file.path,
                    kind: ReasonKind::TypeScriptTestOracleChange,
                    message: "typescript test oracle changed"@,
                    weight_override: None,
                    score_mode: crate::context::PluginScoreMode::Base,
                },
            ]
        } else {
            Seq::empty()
        }),
{
}

/// Whether a line without the white space around it shows asynchronous code.
pub open spec fn shows_async(t: Seq<char>) -> bool {
    exists|word: Seq<char>| #[trigger]
        text::has_infix(t, word) && (word == "await "@ || word == "Promise."@ || word == "Promise<"@
            || word == "async "@ || word == "setTimeout("@ || word == "queueMicrotask("@)
}

/// Whether a line without the white space before it exports a declaration.
pub open spec fn shows_export(t: Seq<char>) -> bool {
    exists|word: Seq<char>| #[trigger]
        text::has_prefix(t, "export "@ + word) && (word == "function "@ || word
            == "async function "@ || word == "class "@ || word == "interface "@ || word == "type "@
            || word == "const "@)
}

proof fn lemma_shows_async(line: Seq<char>)
    ensures
        async_signal(line) == shows_async(text::trimmed(line)),
{
    let t = text::trimmed(line);
    if async_signal(line) {
        assert(text::has_infix(t, "await "@) || text::has_infix(t, "Promise."@) || text::has_infix(
            t,
            "Promise<"@,
        ) || text::has_infix(t, "async "@) || text::has_infix(t, "setTimeout("@) || text::has_infix(
            t,
            "queueMicrotask("@,
        ));
    }
}

proof fn lemma_shows_export(line: Seq<char>)
    ensures
        exports_declaration(line) == shows_export(text::trimmed_start(line)),
{
    reveal_strlit("export ");
    reveal_strlit("function ");
    reveal_strlit("async function ");
    reveal_strlit("class ");
    reveal_strlit("interface ");
    reveal_strlit("type ");
    reveal_strlit("const ");
    reveal_strlit("export function ");
    reveal_strlit("export async function ");
    reveal_strlit("export class ");
    reveal_strlit("export interface ");
    reveal_strlit("export type ");
    reveal_strlit("export const ");
    assert("export "@ + "function "@ =~= "export function "@);
    assert("export "@ + "async function "@ =~= "export async function "@);
    assert("export "@ + "class "@ =~= "export class "@);
    assert("export "@ + "interface "@ =~= "export interface "@);
    assert("export "@ + "type "@ =~= "export type "@);
    assert("export "@ + "const "@ =~= "export const "@);
    let t = text::trimmed_start(line);
    if exports_declaration(line) {
        assert(text::has_prefix(t, "export "@ + "function "@) || text::has_prefix(
            t,
            "export "@ + "async function "@,
        ) || text::has_prefix(t, "export "@ + "class "@) || text::has_prefix(
            t,
            "export "@ + "interface "@,
        ) || text::has_prefix(t, "export "@ + "type "@) || text::has_prefix(
            t,
            "export "@ + "const "@,
        ));
    }
}

/// Without its helper the plugin tells of asynchronous code and of an exported declaration that a
/// changed line shows.
pub proof fn law_lines_are_told(file: FileModel)
    ensures
        ({
            let found = line_findings(file);
            &&& snapshot::tells(found, ReasonKind::TypeScriptAsyncChange) <==> exists|i: int|
                0 <= i < file.changed().len() && shows_async(
                    text::trimmed(#[trigger] file.changed()[i]),
                )
            &&& snapshot::tells(found, ReasonKind::TypeScriptExportedApiChange) <==> exists|i: int|
                0 <= i < file.changed().len() && shows_export(
                    text::trimmed_start(#[trigger] file.changed()[i]),
                )
            &&& forall|i: int|
                0 <= i < found.len() ==> {
                    let finding = #[trigger] found[i];
                    &&& finding.path == file.path
                    &&& finding.score_mode == crate::context::PluginScoreMode::Base
                    &&& finding.kind == ReasonKind::TypeScriptAsyncChange && finding.message
                        == "typescript async change"@ && finding.weight_override == Some(
                        snapshot::depth_weight(signals::nesting(file.added, branch_test()).deepest),
                    ) || finding.kind == ReasonKind::TypeScriptExportedApiChange && finding.message
                        == "exported typescript api change"@ && finding.weight_override is None
                }
        }),
        forall|t: Seq<char>| #[trigger]
            branch_test()(t) <==> {
                ||| text::has_prefix(t, "if "@)
                ||| text::has_prefix(t, "if("@)
                ||| text::has_prefix(t, "for "@)
                ||| text::has_prefix(t, "while "@)
                ||| text::has_prefix(t, "switch "@)
                ||| text::has_prefix(t, "try"@)
                ||| text::has_prefix(t, "catch"@)
            },
{
    let found = line_findings(file);
    assert forall|i: int| 0 <= i < file.changed().len() implies shows_async(
        text::trimmed(#[trigger] file.changed()[i]),
    ) == async_signal(file.changed()[i]) by {
        lemma_shows_async(file.changed()[i]);
    }
    assert forall|i: int| 0 <= i < file.changed().len() implies shows_export(
        text::trimmed_start(#[trigger] file.changed()[i]),
    ) == exports_declaration(file.changed()[i]) by {
        lemma_shows_export(file.changed()[i]);
    }
    let n = if changes_async(file) { 1int } else { 0 };
    assert(n > 0 ==> found[0].kind == ReasonKind::TypeScriptAsyncChange);
    assert(changes_declaration(file) ==> found[n].kind == ReasonKind::TypeScriptExportedApiChange);
}

/// The plugin looks at the files whose path ends with `.ts` or `.tsx`, tells of packages, files and
/// tests as TypeScript does, and says what it lacks.
pub proof fn law_parts_of_the_plugin(
    path: Seq<char>,
    before: Option<HelperPackageSnapshot>,
    after: Option<HelperPackageSnapshot>,
    old: Option<TypeScriptFileSnapshot>,
    new: Option<TypeScriptFileSnapshot>,
    file: FileModel,
)
    ensures
        (plugin_parts().picks)(path) <==> text::has_suffix(path, ".ts"@) || text::has_suffix(
            path,
            ".tsx"@,
        ),
        (plugin_parts().in_package)(path, before, after) == snapshot::package_findings(
            PackageWords {
                api_kind: ReasonKind::TypeScriptExportedApiChange,
                api_message: "exported typescript api changed",
                break_kind: ReasonKind::TypeScriptInterfaceBreak,
                break_message: "typescript interface implementation removed: ",
            },
            path,
            before,
            after,
        ),
        (plugin_parts().in_file)(path, old, new) == file_findings(path, old, new),
        (plugin_parts().in_test)(file) == test_findings(file),
        (plugin_parts().extra)(file) == line_findings(file),
{
}

/// Where the plugin cannot compare revisions, it tells for each TypeScript file why.
pub proof fn law_fallbacks_say_why(
    ctx: ContextModel,
    observation: RevisionObservation<TypeScriptFileSnapshot>,
    i: int,
)
    requires
        0 <= i < ctx.files.len(),
        text::has_suffix(ctx.files[i].path, ".ts"@) || text::has_suffix(
            ctx.files[i].path,
            ".tsx"@,
        ),
    ensures
        ({
            let analysis = typescript_analysis(ctx, observation);
            let lacks_file = exists|k: int|
                0 <= k < observation.required_files@.len() && !((
                #[trigger] observation.required_files@[k]).in_base
                    && observation.required_files@[k].in_head);
            let why = if ctx.input_kind != crate::context::InputKind::GitRevisionRange {
                Some("typescript plugin requires git revision input"@)
            } else if ctx.repo_root is None {
                Some("typescript plugin requires repo root"@)
            } else if ctx.base_rev is None {
                Some("typescript plugin requires base revision"@)
            } else if ctx.head_rev is None {
                Some("typescript plugin requires head revision"@)
            } else if lacks_file {
                Some("typescript plugin requires package.json"@)
            } else {
                match (observation.before, observation.after) {
                    (Err(error), _) => Some("typescript helper failed: "@ + error@),
                    (_, Err(error)) => Some("typescript helper failed: "@ + error@),
                    _ => None,
                }
            };
            &&& analysis.confidence == if why is Some {
                crate::report::Confidence::Medium
            } else {
                crate::report::Confidence::High
            }
            &&& why matches Some(message) ==> analysis.findings.contains(
                FindingModel {
                    path: ctx.files[i].path,
                    kind: ReasonKind::TypeScriptAnalysisFallback,
                    message,
                    weight_override: None,
                    score_mode: crate::context::PluginScoreMode::Additive,
                },
            )
        }),
{
    let required = observation.required_files@;
    assert((plugin_parts().picks)(ctx.files[i].path));
    match crate::plugins::helper_process::gap_of(ctx, required) {
        Some(_) => {
            snapshot::law_missing_prerequisite_falls_back(
                ctx,
                observation,
                fallback_words(),
                "typescript helper failed: "@,
                plugin_parts(),
                i,
            );
        },
        None => {
            if observation.before is Err || observation.after is Err {
                snapshot::law_failed_helper_falls_back(
                    ctx,
                    observation,
                    fallback_words(),
                    "typescript helper failed: "@,
                    plugin_parts(),
                    i,
                );
            } else {
                snapshot::law_revisions_are_compared(
                    ctx,
                    observation,
                    observation.before->Ok_0,
                    observation.after->Ok_0,
                    fallback_words(),
                    "typescript helper failed: "@,
                    plugin_parts(),
                    i,
                );
            }
        },
    }
}

} // verus!
