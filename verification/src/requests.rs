//! Requests: what to analyze, with what was read for it, answered by a report.

use vstd::prelude::*;

use crate::analyze;
use crate::config;
use crate::config::{ConfigModel, ScoreConfig};
use crate::context::{
    clone_opt, AnalysisContext, AnalysisModel, AnalyzeInput, AnalyzeRequest, AnalyzerPlugin,
    ChangedFile, ContextModel, FileModel, InputKind, PluginAnalysis,
};
use crate::gitattributes;
use crate::gitattributes::{AttributesModel, GitAttributes};
use crate::history;
use crate::patch;
use crate::report::{AnalyzeError, ErrorModel, ReportModel, ScoreReport};
use crate::text;

verus! {

/// What a repository tells of one changed file.
#[derive(Clone, Debug)]
pub struct FileEvidence {
    /// The contents before the change, where the old path names a text.
    pub before_source: Option<String>,
    /// The contents behind the change, where the new path names a text.
    pub after_source: Option<String>,
    /// The number of commits that changed the file before, as git prints it.
    pub commit_count: String,
    /// The authors of those commits, one on each line.
    pub author_log: String,
}

/// A `FileEvidence` with its texts as sequences.
#[verifier::ext_equal]
pub struct FileEvidenceModel {
    pub before_source: Option<Seq<char>>,
    pub after_source: Option<Seq<char>>,
    pub commit_count: Seq<char>,
    pub author_log: Seq<char>,
}

impl View for FileEvidence {
    type V = FileEvidenceModel;

    open spec fn view(&self) -> FileEvidenceModel {
        FileEvidenceModel {
            before_source: text::opt_view(self.before_source),
            after_source: text::opt_view(self.after_source),
            commit_count: self.commit_count@,
            author_log: self.author_log@,
        }
    }
}

/// What a repository tells of a request: its attributes and, for a revision range, the diff and
/// what belongs to each file that `changed_files` finds in it, in the same order.
#[derive(Clone, Debug)]
pub struct RepositoryEvidence {
    pub gitattributes: GitAttributes,
    pub diff: String,
    pub files: Vec<FileEvidence>,
}

/// A `RepositoryEvidence` with its texts and lists as sequences.
#[verifier::ext_equal]
pub struct EvidenceModel {
    pub gitattributes: AttributesModel,
    pub diff: Seq<char>,
    pub files: Seq<FileEvidenceModel>,
}

impl View for RepositoryEvidence {
    type V = EvidenceModel;

    open spec fn view(&self) -> EvidenceModel {
        EvidenceModel {
            gitattributes: self.gitattributes@,
            diff: self.diff@,
            files: text::views(self.files@),
        }
    }
}

/// The files of a patch that are to be scored.
pub open spec fn files_to_score(
    patch: Seq<char>,
    attributes: Option<AttributesModel>,
    names: Seq<Seq<char>>,
) -> Result<Seq<FileModel>, ErrorModel> {
    match patch::read_patch(patch) {
        Ok(files) => gitattributes::scored_files(files, attributes, names),
        Err(error) => Err(error),
    }
}

/// A file with what the repository tells of it.
pub open spec fn informed(file: FileModel, evidence: FileEvidenceModel) -> FileModel {
    FileModel {
        before_source: evidence.before_source,
        after_source: evidence.after_source,
        history: Some(history::told_history(evidence.commit_count, evidence.author_log)),
        ..file
    }
}

/// The files, each with the evidence at its position. A file without evidence stays as it is.
pub open spec fn informed_files(
    files: Seq<FileModel>,
    evidence: Seq<FileEvidenceModel>,
) -> Seq<FileModel> {
    Seq::new(
        files.len(),
        |i: int|
            if i < evidence.len() {
                informed(files[i], evidence[i])
            } else {
                files[i]
            },
    )
}

/// The context of a patch.
pub open spec fn patch_context(
    patch: Seq<char>,
    repo_root: Option<Seq<char>>,
    attributes: AttributesModel,
    names: Seq<Seq<char>>,
) -> Result<ContextModel, ErrorModel> {
    if text::trimmed(patch).len() == 0 {
        Err(ErrorModel::EmptyPatch)
    } else {
        match files_to_score(
            patch,
            if repo_root is Some {
                Some(attributes)
            } else {
                None
            },
            names,
        ) {
            Ok(files) => Ok(
                ContextModel {
                    input_kind: InputKind::PatchText,
                    repo_root,
                    base_rev: None,
                    head_rev: None,
                    files,
                },
            ),
            Err(error) => Err(error),
        }
    }
}

/// The context of a revision range.
pub open spec fn revision_context(
    repo_root: Seq<char>,
    base: Seq<char>,
    head: Seq<char>,
    evidence: EvidenceModel,
    names: Seq<Seq<char>>,
) -> Result<ContextModel, ErrorModel> {
    match files_to_score(evidence.diff, Some(evidence.gitattributes), names) {
        Ok(files) => Ok(
            ContextModel {
                input_kind: InputKind::GitRevisionRange,
                repo_root: Some(repo_root),
                base_rev: Some(base),
                head_rev: Some(head),
                files: informed_files(files, evidence.files),
            },
        ),
        Err(error) => Err(error),
    }
}

/// The context of a request.
pub open spec fn request_context(
    request: AnalyzeRequest,
    evidence: EvidenceModel,
    names: Seq<Seq<char>>,
) -> Result<ContextModel, ErrorModel> {
    match request.input {
        AnalyzeInput::PatchText { patch } => patch_context(
            patch@,
            text::opt_view(request.repo_root),
            evidence.gitattributes,
            names,
        ),
        AnalyzeInput::GitRevisionRange { repo_root, base, head } => revision_context(
            repo_root@,
            base@,
            head@,
            evidence,
            names,
        ),
    }
}

/// Whether a plugin may answer a context with an analysis.
pub open spec fn answers<P: AnalyzerPlugin + ?Sized>(
    plugin: &P,
    ctx: &AnalysisContext,
    analysis: PluginAnalysis,
) -> bool {
    call_ensures(P::analyze, (plugin, ctx), analysis)
}

/// Whether each plugin may answer the context with the analysis at its position.
pub open spec fn all_answer(
    plugins: Seq<&dyn AnalyzerPlugin>,
    ctx: &AnalysisContext,
    analyses: Seq<PluginAnalysis>,
) -> bool {
    &&& analyses.len() == plugins.len()
    &&& forall|i: int|
        0 <= i < plugins.len() ==> answers(#[trigger] plugins[i], ctx, analyses[i])
}

/// Whether a report is the one on the files of the context, with answers of the plugins to it.
pub open spec fn reports(
    report: ReportModel,
    ctx: &AnalysisContext,
    plugins: Seq<&dyn AnalyzerPlugin>,
    config: ConfigModel,
) -> bool {
    exists|analyses: Seq<PluginAnalysis>| #[trigger]
        all_answer(plugins, ctx, analyses) && report == analyze::report_of(
            ctx@.files,
            text::views(analyses),
            config,
        )
}

/// What a request is answered: an error exactly where it has no context, and else the report on
/// its context. Without plugins the report is fixed.
pub open spec fn answered(
    outcome: Result<ScoreReport, AnalyzeError>,
    context: Result<ContextModel, ErrorModel>,
    plugins: Seq<&dyn AnalyzerPlugin>,
    config: ConfigModel,
) -> bool {
    match context {
        Ok(model) => {
            &&& outcome is Ok
            &&& exists|ctx: AnalysisContext|
                ctx@ == model && #[trigger] reports(outcome->Ok_0@, &ctx, plugins, config)
            &&& plugins.len() == 0 ==> outcome->Ok_0@ == analyze::report_of(
                model.files,
                Seq::empty(),
                config,
            )
        },
        Err(error) => outcome is Err && outcome->Err_0@ == error,
    }
}

/// The path to read a version of a file from: none where it has no path or the path is
/// `/dev/null`.
pub fn blob_path(path: &Option<String>) -> (r: Option<String>)
    ensures
        r == (match *path {
            Some(path) => if path@ == "/dev/null"@ {
                None
            } else {
                Some(path)
            },
            None => None,
        }),
{
    match path {
        Some(path) => if text::same(path.as_str(), "/dev/null") {
            None
        } else {
            Some(path.clone())
        },
        None => None,
    }
}

/// The files of a patch that are to be scored.
pub fn changed_files(
    patch: &str,
    attributes: Option<&GitAttributes>,
    skip_attributes: &Vec<String>,
) -> (r: Result<Vec<ChangedFile>, AnalyzeError>)
    ensures
        match files_to_score(
            patch@,
            gitattributes::attributes_view(attributes),
            text::views(skip_attributes@),
        ) {
            Ok(files) => r is Ok && text::views(r->Ok_0@) == files,
            Err(error) => r is Err && r->Err_0@ == error,
        },
{
    match patch::parse_patch(patch) {
        Ok(files) => gitattributes::filter_generated_files(files, attributes, skip_attributes),
        Err(error) => Err(error),
    }
}

/// The context of a revision range.
pub fn build_git_revision_context(
    repo_root: &str,
    base: &str,
    head: &str,
    evidence: &RepositoryEvidence,
    skip_attributes: &Vec<String>,
) -> (r: Result<AnalysisContext, AnalyzeError>)
    ensures
        match revision_context(
            repo_root@,
            base@,
            head@,
            evidence@,
            text::views(skip_attributes@),
        ) {
            Ok(ctx) => r is Ok && r->Ok_0@ == ctx,
            Err(error) => r is Err && r->Err_0@ == error,
        },
{
    let files = match changed_files(
        evidence.diff.as_str(),
        Some(&evidence.gitattributes),
        skip_attributes,
    ) {
        Ok(files) => files,
        Err(error) => {
            return Err(error);
        },
    };
    let ghost found = text::views(files@);
    let ghost told = text::views(evidence.files@);
    let mut done: Vec<ChangedFile> = Vec::new();
    for file in it: files
        invariant
            found == text::views(it.seq()),
            told == text::views(evidence.files@),
            done@.len() == it.index(),
            forall|k: int|
                0 <= k < done@.len() ==> (#[trigger] done@[k])@ == informed_files(found, told)[k],
    {
        let n: usize = done.len();
        assert(found[n as int] == file@);
        if n < evidence.files.len() {
            let about = &evidence.files[n];
            assert(told[n as int] == about@);
            let next = ChangedFile {
                path: file.path,
                old_path: file.old_path,
                new_path: file.new_path,
                added: file.added,
                removed: file.removed,
                before_source: clone_opt(&about.before_source),
                after_source: clone_opt(&about.after_source),
                history: Some(
                    history::file_history(about.commit_count.as_str(), about.author_log.as_str()),
                ),
            };
            assert(next@ == informed(file@, about@));
            done.push(next);
        } else {
            done.push(file);
        }
    }
    assert(text::views(done@) =~= informed_files(found, told));
    Ok(
        AnalysisContext {
            input_kind: InputKind::GitRevisionRange,
            repo_root: Some(repo_root.to_owned()),
            base_rev: Some(base.to_owned()),
            head_rev: Some(head.to_owned()),
            files: done,
        },
    )
}

/// The context of a request.
pub fn build_context(
    request: &AnalyzeRequest,
    evidence: &RepositoryEvidence,
    config: &ScoreConfig,
) -> (r: Result<AnalysisContext, AnalyzeError>)
    ensures
        match request_context(*request, evidence@, config@.gitattributes_skip_attributes) {
            Ok(ctx) => r is Ok && r->Ok_0@ == ctx,
            Err(error) => r is Err && r->Err_0@ == error,
        },
{
    match &request.input {
        AnalyzeInput::PatchText { patch } => {
            if text::trim(patch.as_str()).is_empty() {
                return Err(AnalyzeError::EmptyPatch);
            }
            let attributes = if request.repo_root.is_some() {
                Some(&evidence.gitattributes)
            } else {
                None
            };
            match changed_files(patch.as_str(), attributes, &config.gitattributes_skip_attributes) {
                Ok(files) => Ok(
                    AnalysisContext {
                        input_kind: InputKind::PatchText,
                        repo_root: clone_opt(&request.repo_root),
                        base_rev: None,
                        head_rev: None,
                        files,
                    },
                ),
                Err(error) => Err(error),
            }
        },
        AnalyzeInput::GitRevisionRange { repo_root, base, head } => build_git_revision_context(
            repo_root.as_str(),
            base.as_str(),
            head.as_str(),
            evidence,
            &config.gitattributes_skip_attributes,
        ),
    }
}

fn ask<P: AnalyzerPlugin + ?Sized>(plugin: &P, ctx: &AnalysisContext) -> (r: PluginAnalysis)
    ensures
        answers(plugin, ctx, r),
{
    plugin.analyze(ctx)
}

/// The report on a context. Each plugin is asked once, in order, about this very context.
pub fn analyze_context(
    ctx: &AnalysisContext,
    plugins: &[&dyn AnalyzerPlugin],
    config: &ScoreConfig,
) -> (r: ScoreReport)
    ensures
        reports(r@, ctx, plugins@, config@),
        plugins@.len() == 0 ==> r@ == analyze::report_of(ctx@.files, Seq::empty(), config@),
{
    let mut analyses: Vec<PluginAnalysis> = Vec::new();
    let mut i: usize = 0;
    while i < plugins.len()
        invariant
            i <= plugins@.len(),
            analyses@.len() == i,
            forall|k: int|
                0 <= k < i ==> answers(#[trigger] plugins@[k], ctx, analyses@[k]),
        decreases plugins@.len() - i,
    {
        let analysis = ask(plugins[i], ctx);
        analyses.push(analysis);
        i = i + 1;
    }
    assert(all_answer(plugins@, ctx, analyses@));
    assert(plugins@.len() == 0 ==> text::views(analyses@) =~= Seq::empty());
    analyze::score_context(ctx, &analyses, config)
}

/// Answers a request by a scoring model.
pub fn analyze_request_with_config(
    request: &AnalyzeRequest,
    evidence: &RepositoryEvidence,
    plugins: &[&dyn AnalyzerPlugin],
    config: &ScoreConfig,
) -> (r: Result<ScoreReport, AnalyzeError>)
    ensures
        answered(
            r,
            request_context(*request, evidence@, config@.gitattributes_skip_attributes),
            plugins@,
            config@,
        ),
{
    match build_context(request, evidence, config) {
        Ok(ctx) => {
            let report = analyze_context(&ctx, plugins, config);
            assert(reports(report@, &ctx, plugins@, config@));
            Ok(report)
        },
        Err(error) => Err(error),
    }
}

/// Answers a request by the built-in model.
pub fn analyze_request(
    request: &AnalyzeRequest,
    evidence: &RepositoryEvidence,
    plugins: &[&dyn AnalyzerPlugin],
) -> (r: Result<ScoreReport, AnalyzeError>)
    ensures
        answered(
            r,
            request_context(
                *request,
                evidence@,
                config::default_model().gitattributes_skip_attributes,
            ),
            plugins@,
            config::default_model(),
        ),
{
    analyze_request_with_config(request, evidence, plugins, &ScoreConfig::default_v1())
}

/// Analyzes a patch by a scoring model. No repository is known.
pub fn analyze_patch_with_config(
    patch: &str,
    plugins: &[&dyn AnalyzerPlugin],
    config: &ScoreConfig,
) -> (r: Result<ScoreReport, AnalyzeError>)
    ensures
        answered(
            r,
            patch_context(
                patch@,
                None,
                AttributesModel::Absent,
                config@.gitattributes_skip_attributes,
            ),
            plugins@,
            config@,
        ),
{
    let request = AnalyzeRequest {
        input: AnalyzeInput::PatchText { patch: patch.to_owned() },
        repo_root: None,
    };
    let evidence = RepositoryEvidence {
        gitattributes: GitAttributes::Absent,
        diff: String::new(),
        files: Vec::new(),
    };
    analyze_request_with_config(&request, &evidence, plugins, config)
}

/// Analyzes a patch by the built-in model. No repository is known.
pub fn analyze_patch(patch: &str, plugins: &[&dyn AnalyzerPlugin]) -> (r: Result<
    ScoreReport,
    AnalyzeError,
>)
    ensures
        answered(
            r,
            patch_context(
                patch@,
                None,
                AttributesModel::Absent,
                config::default_model().gitattributes_skip_attributes,
            ),
            plugins@,
            config::default_model(),
        ),
{
    analyze_patch_with_config(patch, plugins, &ScoreConfig::default_v1())
}

/// A patch is analyzed without revisions: its files are those that it tells of, without those that the
/// repository makes generated, where there is one. A blank patch is refused before anything else.
pub proof fn law_patches_are_taken_as_they_are(
    patch: Seq<char>,
    repo_root: Option<Seq<char>>,
    attributes: AttributesModel,
    names: Seq<Seq<char>>,
)
    ensures
        ({
            let outcome = patch_context(patch, repo_root, attributes, names);
            let files = match repo_root {
                Some(_) => files_to_score(patch, Some(attributes), names),
                None => files_to_score(patch, None, names),
            };
            &&& text::trimmed(patch).len() == 0 ==> outcome == Err::<ContextModel, ErrorModel>(
                ErrorModel::EmptyPatch,
            )
            &&& text::trimmed(patch).len() > 0 ==> {
                &&& files matches Err(error) ==> outcome == Err::<ContextModel, ErrorModel>(error)
                &&& files matches Ok(scored) ==> {
                    &&& outcome is Ok
                    &&& outcome->Ok_0.input_kind == InputKind::PatchText
                    &&& outcome->Ok_0.repo_root == repo_root
                    &&& outcome->Ok_0.base_rev is None
                    &&& outcome->Ok_0.head_rev is None
                    &&& outcome->Ok_0.files == scored
                }
            }
        }),
{
}

/// The files to score are those of the patch that the attributes leave, and an error of the patch
/// comes before one of the attributes.
pub proof fn law_files_to_score(
    patch: Seq<char>,
    attributes: Option<AttributesModel>,
    names: Seq<Seq<char>>,
)
    ensures
        patch::patch_files(patch).len() == 0 ==> files_to_score(patch, attributes, names) == Err::<
            Seq<FileModel>,
            ErrorModel,
        >(ErrorModel::InvalidPatch),
        patch::patch_files(patch).len() > 0 ==> files_to_score(patch, attributes, names)
            == gitattributes::scored_files(patch::patch_files(patch), attributes, names),
{
}

/// A revision range is analyzed with its revisions, on the files of its diff that the repository does
/// not make generated; each of them gets its sources and its history from what was observed of it, and
/// keeps its paths and lines.
pub proof fn law_revisions_are_observed(
    repo_root: Seq<char>,
    base: Seq<char>,
    head: Seq<char>,
    evidence: EvidenceModel,
    names: Seq<Seq<char>>,
)
    ensures
        ({
            let outcome = revision_context(repo_root, base, head, evidence, names);
            match files_to_score(evidence.diff, Some(evidence.gitattributes), names) {
                Err(error) => outcome == Err::<ContextModel, ErrorModel>(error),
                Ok(files) => {
                    &&& outcome is Ok
                    &&& outcome->Ok_0.input_kind == InputKind::GitRevisionRange
                    &&& outcome->Ok_0.repo_root == Some(repo_root)
                    &&& outcome->Ok_0.base_rev == Some(base)
                    &&& outcome->Ok_0.head_rev == Some(head)
                    &&& outcome->Ok_0.files.len() == files.len()
                    &&& forall|i: int|
                        0 <= i < files.len() ==> {
                            let file = #[trigger] outcome->Ok_0.files[i];
                            &&& file.path == files[i].path
                            &&& file.old_path == files[i].old_path
                            &&& file.new_path == files[i].new_path
                            &&& file.added == files[i].added
                            &&& file.removed == files[i].removed
                            &&& i < evidence.files.len() ==> {
                                &&& file.before_source == evidence.files[i].before_source
                                &&& file.after_source == evidence.files[i].after_source
                                &&& file.history == Some(
                                    history::told_history(
                                        evidence.files[i].commit_count,
                                        evidence.files[i].author_log,
                                    ),
                                )
                            }
                            &&& i >= evidence.files.len() ==> file == files[i]
                        }
                },
            }
        }),
{
}

/// A request is taken by its input: a patch with the repository of the request, a revision range with
/// its own.
pub proof fn law_requests_are_taken_by_their_input(
    request: AnalyzeRequest,
    evidence: EvidenceModel,
    names: Seq<Seq<char>>,
)
    ensures
        request.input matches AnalyzeInput::PatchText { patch } ==> request_context(
            request,
            evidence,
            names,
        ) == patch_context(
            patch@,
            match request.repo_root {
                Some(root) => Some(root@),
                None => None,
            },
            evidence.gitattributes,
            names,
        ),
        request.input matches AnalyzeInput::GitRevisionRange { repo_root, base, head }
            ==> request_context(request, evidence, names) == revision_context(
            repo_root@,
            base@,
            head@,
            evidence,
            names,
        ),
{
}

/// A request is answered with the report on its files and on what each plugin says of them, in the order
/// of the plugins, or with the error that it has.
pub proof fn law_requests_are_answered(
    outcome: Result<ScoreReport, AnalyzeError>,
    context: Result<ContextModel, ErrorModel>,
    plugins: Seq<&dyn AnalyzerPlugin>,
    said: Seq<AnalysisModel>,
    config: ConfigModel,
)
    requires
        answered(outcome, context, plugins, config),
        said.len() == plugins.len(),
        forall|i: int, ctx: AnalysisContext, analysis: PluginAnalysis|
            0 <= i < plugins.len() && Ok::<ContextModel, ErrorModel>(ctx@) == context
                && #[trigger] answers(plugins[i], &ctx, analysis) ==> analysis@ == said[i],
    ensures
        match context {
            Ok(model) => outcome is Ok && outcome->Ok_0@ == analyze::report_of(
                model.files,
                said,
                config,
            ),
            Err(error) => outcome is Err && outcome->Err_0@ == error,
        },
{
    if let Ok(model) = context {
        let ctx = choose|ctx: AnalysisContext|
            ctx@ == model && #[trigger] reports(outcome->Ok_0@, &ctx, plugins, config);
        let analyses = choose|analyses: Seq<PluginAnalysis>| #[trigger]
            all_answer(plugins, &ctx, analyses) && outcome->Ok_0@ == analyze::report_of(
                ctx@.files,
                text::views(analyses),
                config,
            );
        assert forall|i: int| 0 <= i < plugins.len() implies #[trigger] analyses[i]@
            == said[i] by {
            assert(answers(plugins[i], &ctx, analyses[i]));
        }
        assert(text::views(analyses) =~= said);
    }
}

} // verus!
