//! The plugins for Go and TypeScript, and what they are made of.

use shiwake::plugins::builtin::analyze_with_builtin_plugins;
use shiwake::plugins::go::{self, GoCounts, GoFileSnapshot, GoPlugin};
use shiwake::plugins::helper_process::{
    helper_dir_name, needs_go_binary, resolve_helper_command, EmbeddedHelper, RequiredFile,
    RevisionHelperInputs,
};
use shiwake::plugins::runtime::{
    analyze_revision_plugin, directory_of, representative_paths_by_dir, PackageSnapshotView,
    RevisionSnapshotView,
};
use shiwake::plugins::snapshot::{
    find_dropped, same_entries, weight_at_depth, HelperPackageSnapshot, RevisionObservation,
    RevisionSnapshot,
};
use shiwake::plugins::support::{
    additive_finding, base_finding, changed_files_with_extension, weighted_base_finding,
};
use shiwake::plugins::typescript::{
    self, TypeScriptCounts, TypeScriptFileSnapshot, TypeScriptPlugin,
};
use shiwake::requests::analyze_context;
use shiwake::{
    resolve_builtin_plugins, AnalysisContext, AnalyzerPlugin, ChangedFile, Confidence, InputKind,
    PluginAnalysis, PluginFinding, PluginScoreMode, ReasonKind, ScoreConfig,
};

fn changed(path: &str, added: &[&str], removed: &[&str]) -> ChangedFile {
    ChangedFile {
        path: String::from(path),
        old_path: None,
        new_path: None,
        added: added.iter().map(|line| String::from(*line)).collect(),
        removed: removed.iter().map(|line| String::from(*line)).collect(),
        before_source: None,
        after_source: None,
        history: None,
    }
}

fn revisions(files: Vec<ChangedFile>) -> AnalysisContext {
    AnalysisContext {
        input_kind: InputKind::GitRevisionRange,
        repo_root: Some(String::from("/repo")),
        base_rev: Some(String::from("base")),
        head_rev: Some(String::from("head")),
        files,
    }
}

fn kinds(analysis: &PluginAnalysis) -> Vec<ReasonKind> {
    analysis.findings.iter().map(|finding| finding.kind).collect()
}

fn pair(name: &str, value: &str) -> (String, String) {
    (String::from(name), String::from(value))
}

struct PackageSnapshot {
    exports: Vec<(String, String)>,
    implementations: Vec<String>,
}

impl PackageSnapshotView for PackageSnapshot {
    fn exports(&self) -> &Vec<(String, String)> {
        &self.exports
    }

    fn implementations(&self) -> &Vec<String> {
        &self.implementations
    }
}

struct FileSnapshot {
    counter: u32,
}

struct Snapshot {
    packages: Vec<(String, PackageSnapshot)>,
    files: Vec<(String, FileSnapshot)>,
}

impl RevisionSnapshotView for Snapshot {
    type Package = PackageSnapshot;
    type File = FileSnapshot;

    fn package_snapshot(&self, dir: &str) -> Option<&Self::Package> {
        self.packages.iter().find(|entry| entry.0 == dir).map(|entry| &entry.1)
    }

    fn file_snapshot(&self, path: &str) -> Option<&Self::File> {
        self.files.iter().find(|entry| entry.0 == path).map(|entry| &entry.1)
    }
}

fn snapshot(is_before: bool, changed_files: &[String]) -> Result<Snapshot, String> {
    Ok(Snapshot {
        packages: vec![(
            String::from("pkg"),
            PackageSnapshot {
                exports: if is_before {
                    vec![pair("Before", "func()")]
                } else {
                    vec![pair("After", "func()")]
                },
                implementations: if is_before {
                    vec![String::from("OldImpl")]
                } else {
                    vec![]
                },
            },
        )],
        files: vec![(
            changed_files[0].clone(),
            FileSnapshot {
                counter: if is_before { 1 } else { 2 },
            },
        )],
    })
}

#[test]
fn revision_plugin_runner_combines_package_file_and_test_findings() {
    let ctx = AnalysisContext {
        input_kind: InputKind::GitRevisionRange,
        repo_root: None,
        base_rev: None,
        head_rev: None,
        files: vec![
            changed("pkg/api.go", &["func After() {}"], &["func Before() {}"]),
            changed(
                "pkg/api_test.go",
                &["assert.Equal(t, 2, actual)"],
                &["assert.Equal(t, 1, actual)"],
            ),
        ],
    };
    let helper_inputs = RevisionHelperInputs {
        changed_files: vec![String::from("pkg/api.go")],
        repo_root: String::from("repo"),
        base_rev: String::from("before"),
        head_rev: String::from("after"),
    };

    let report = analyze_revision_plugin(
        &ctx,
        &helper_inputs,
        snapshot(true, &helper_inputs.changed_files),
        snapshot(false, &helper_inputs.changed_files),
        |_: &AnalysisContext, reason: &str| {
            PluginAnalysis::new(
                Confidence::Medium,
                vec![base_finding(
                    String::from("pkg/api.go"),
                    ReasonKind::PluginSignal,
                    reason,
                )],
            )
        },
        |path: &str, before: Option<&PackageSnapshot>, after: Option<&PackageSnapshot>| {
            let mut findings = Vec::new();
            let before_exports = before
                .map(|snapshot| snapshot.exports().clone())
                .unwrap_or_default();
            let after_exports = after
                .map(|snapshot| snapshot.exports().clone())
                .unwrap_or_default();
            if before_exports != after_exports {
                findings.push(base_finding(
                    path.to_string(),
                    ReasonKind::GoExportedApiChange,
                    "package changed",
                ));
            }

            let before_impls = before
                .map(|snapshot| snapshot.implementations().to_vec())
                .unwrap_or_default();
            let after_impls = after
                .map(|snapshot| snapshot.implementations().to_vec())
                .unwrap_or_default();
            if before_impls != after_impls {
                findings.push(base_finding(
                    path.to_string(),
                    ReasonKind::GoInterfaceBreak,
                    "implementation changed",
                ));
            }
            findings
        },
        |path: &str, before: Option<&FileSnapshot>, after: Option<&FileSnapshot>| {
            let before_counter = before.map(|snapshot| snapshot.counter).unwrap_or_default();
            let after_counter = after.map(|snapshot| snapshot.counter).unwrap_or_default();
            if before_counter != after_counter {
                vec![base_finding(
                    path.to_string(),
                    ReasonKind::GoConcurrencyChange,
                    "file changed",
                )]
            } else {
                Vec::new()
            }
        },
        |file: &ChangedFile| {
            if file.path.ends_with("_test.go") {
                vec![base_finding(
                    file.path.clone(),
                    ReasonKind::GoTestOracleChange,
                    "test changed",
                )]
            } else {
                Vec::new()
            }
        },
    );

    assert_eq!(report.confidence, Confidence::High);
    assert_eq!(report.findings.len(), 4);
    assert!(report
        .findings
        .iter()
        .any(|finding| finding.kind == ReasonKind::GoExportedApiChange));
    assert!(report
        .findings
        .iter()
        .any(|finding| finding.kind == ReasonKind::GoConcurrencyChange));
    assert!(report
        .findings
        .iter()
        .any(|finding| finding.kind == ReasonKind::GoTestOracleChange));
}

#[test]
fn revision_plugin_runner_returns_fallback_when_helper_fails() {
    let ctx = AnalysisContext {
        input_kind: InputKind::GitRevisionRange,
        repo_root: None,
        base_rev: None,
        head_rev: None,
        files: vec![changed("pkg/api.go", &[], &[])],
    };
    let helper_inputs = RevisionHelperInputs {
        changed_files: vec![String::from("pkg/api.go")],
        repo_root: String::from("repo"),
        base_rev: String::from("before"),
        head_rev: String::from("after"),
    };

    let report = analyze_revision_plugin::<Snapshot, _, _, _, _>(
        &ctx,
        &helper_inputs,
        Err(String::from("boom")),
        Err(String::from("boom")),
        |_: &AnalysisContext, reason: &str| {
            PluginAnalysis::new(
                Confidence::Medium,
                vec![PluginFinding {
                    path: String::from("pkg/api.go"),
                    kind: ReasonKind::GoAnalysisFallback,
                    message: reason.to_string(),
                    weight_override: None,
                    score_mode: PluginScoreMode::Additive,
                }],
            )
        },
        |_: &str, _: Option<&PackageSnapshot>, _: Option<&PackageSnapshot>| Vec::new(),
        |_: &str, _: Option<&FileSnapshot>, _: Option<&FileSnapshot>| Vec::new(),
        |_: &ChangedFile| Vec::new(),
    );

    assert_eq!(report.confidence, Confidence::Medium);
    assert_eq!(report.findings.len(), 1);
    assert_eq!(report.findings[0].kind, ReasonKind::GoAnalysisFallback);
    assert!(report.findings[0].message.contains("boom"));
}

#[test]
fn resolve_helper_command_keeps_non_go_helpers_unchanged() {
    let helper = EmbeddedHelper {
        temp_dir_prefix: "ts-helper",
        files: &[("main.js", "console.log('x')")],
        program: "node",
        args: &["main.js"],
    };

    let (program, args) =
        resolve_helper_command(&helper, Err(String::from("not built"))).expect("command");

    assert_eq!(program, "node");
    assert_eq!(args, vec![String::from("main.js")]);
}

#[test]
fn go_helpers_run_the_binary_that_was_built() {
    let helper = EmbeddedHelper {
        temp_dir_prefix: "go-helper",
        files: &[("main.go", "package main")],
        program: "go",
        args: &["run", "."],
    };
    assert!(needs_go_binary(&helper));
    assert_eq!(
        resolve_helper_command(&helper, Ok(String::from("/tmp/helper"))),
        Ok((String::from("/tmp/helper"), Vec::new()))
    );
    assert_eq!(
        resolve_helper_command(&helper, Err(String::from("no compiler"))),
        Err(String::from("no compiler"))
    );

    let vet = EmbeddedHelper { args: &["vet", "."], ..helper };
    assert!(!needs_go_binary(&vet));
    let other = EmbeddedHelper { program: "gofmt", args: &["run", "."], ..vet };
    assert!(!needs_go_binary(&other));
}

#[test]
fn helper_directories_are_named_by_fingerprint() {
    assert_eq!(helper_dir_name("go", 0), "shiwake-helper-go-0");
    assert_eq!(helper_dir_name("ts", 0xdead_beef_0123_4567), "shiwake-helper-ts-deadbeef01234567");
    assert_eq!(helper_dir_name("", u64::MAX), "shiwake-helper--ffffffffffffffff");
}

#[test]
fn directories_are_those_of_the_paths() {
    assert_eq!(directory_of("pkg/api.go"), "pkg");
    assert_eq!(directory_of("a/b/c.go"), "a/b");
    assert_eq!(directory_of("main.go"), ".");
    assert_eq!(directory_of("a//b.go"), "a");
    let paths = vec![
        String::from("pkg/a.go"),
        String::from("main.go"),
        String::from("pkg/b.go"),
    ];
    let by_dir = representative_paths_by_dir(&paths);
    assert_eq!(by_dir.len(), 2);
    assert!(by_dir.contains(&pair("pkg", "pkg/a.go")));
    assert!(by_dir.contains(&pair(".", "main.go")));
}

#[test]
fn dropped_names_are_those_that_are_gone() {
    let names = |list: &[&str]| -> Vec<String> { list.iter().map(|n| String::from(*n)).collect() };
    assert_eq!(find_dropped(&names(&["A", "B", "A", "C"]), &names(&["B"])), names(&["A", "C"]));
    assert_eq!(find_dropped(&names(&["A"]), &names(&["A", "B"])), names(&[]));
}

#[test]
fn entries_are_compared_by_name() {
    let first = vec![pair("a", "1"), pair("b", "2")];
    let turned = vec![pair("b", "2"), pair("a", "1")];
    let other = vec![pair("a", "1"), pair("b", "3")];
    assert!(same_entries(&first, &turned));
    assert!(!same_entries(&first, &other));
    assert!(!same_entries(&first, &vec![pair("a", "1")]));
    assert!(same_entries(&vec![pair("a", "0"), pair("a", "1"), pair("b", "2")], &first));
}

#[test]
fn deeper_code_weighs_more() {
    let weights: Vec<u32> = (0..6).map(weight_at_depth).collect();
    assert_eq!(weights, vec![20, 20, 25, 30, 35, 35]);
}

#[test]
fn findings_carry_weight_and_mode() {
    let base = base_finding(String::from("a"), ReasonKind::PluginSignal, "m");
    assert_eq!((base.weight_override, base.score_mode), (None, PluginScoreMode::Base));
    let weighted = weighted_base_finding(String::from("a"), ReasonKind::PluginSignal, "m", 7);
    assert_eq!((weighted.weight_override, weighted.score_mode), (Some(7), PluginScoreMode::Base));
    let more = additive_finding(String::from("a"), ReasonKind::PluginSignal, String::from("m"));
    assert_eq!((more.weight_override, more.score_mode), (None, PluginScoreMode::Additive));
    assert_eq!(more.message, "m");
}

#[test]
fn files_are_picked_by_extension() {
    let ctx = revisions(vec![changed("a.go", &[], &[]), changed("b.ts", &[], &[]), changed("c.go", &[], &[])]);
    assert_eq!(changed_files_with_extension(&ctx, ".go"), vec![String::from("a.go"), String::from("c.go")]);
    assert!(typescript::is_typescript_path("b.tsx") && !typescript::is_typescript_path("b.js"));
    assert!(typescript::is_typescript_test_file("b.spec.tsx"));
    assert!(!typescript::is_typescript_test_file("b.tsx"));
}

fn go_file(counts: GoCounts, receiver_kinds: Vec<(String, String)>) -> GoFileSnapshot {
    GoFileSnapshot { counts, receiver_kinds }
}

fn go_package(exports: &[(&str, &str)], implementations: &[&str]) -> HelperPackageSnapshot {
    HelperPackageSnapshot {
        dir: String::from("pkg"),
        exports: exports.iter().map(|entry| pair(entry.0, entry.1)).collect(),
        implementations: implementations.iter().map(|name| String::from(*name)).collect(),
    }
}

fn here() -> Vec<RequiredFile> {
    vec![RequiredFile { in_base: true, in_head: true }]
}

#[test]
fn go_plugin_compares_two_revisions() {
    let before = GoCounts { goroutines: 1, max_nesting: 1, ..GoCounts::default() };
    let after = GoCounts { goroutines: 2, max_nesting: 3, nil_checks: 1, time_calls: 1, cleanup_calls: 1, ..before };
    let plugin = GoPlugin {
        observation: RevisionObservation {
            required_files: here(),
            before: Ok(RevisionSnapshot {
                packages: vec![go_package(&[("Run", "func()")], &["T implements I", "U implements I"])],
                files: vec![(String::from("pkg/api.go"), go_file(before, vec![pair("T.Run", "value")]))],
            }),
            after: Ok(RevisionSnapshot {
                packages: vec![go_package(&[("Run", "func(int)")], &["U implements I"])],
                files: vec![(String::from("pkg/api.go"), go_file(after, vec![pair("T.Run", "pointer")]))],
            }),
        },
    };
    assert_eq!(plugin.id(), "go");
    let ctx = revisions(vec![
        changed("pkg/api.go", &["x"], &["y"]),
        changed("pkg/api_test.go", &["assert.Equal(t, 2, actual)"], &["assert.Equal(t, 1, actual)"]),
        changed("README.md", &["x"], &[]),
    ]);
    let analysis = plugin.analyze(&ctx);
    assert_eq!(analysis.confidence, Confidence::High);
    assert_eq!(
        kinds(&analysis),
        vec![
            ReasonKind::GoExportedApiChange,
            ReasonKind::GoInterfaceBreak,
            ReasonKind::GoReceiverChange,
            ReasonKind::GoConcurrencyChange,
            ReasonKind::GoErrorHandlingChange,
            ReasonKind::GoRuntimeBehaviorChange,
            ReasonKind::GoResourceLifecycleChange,
            ReasonKind::GoTestOracleChange,
        ]
    );
    assert_eq!(analysis.findings[1].message, "go interface implementation removed: T implements I");
    assert_eq!(analysis.findings[3].message, "go concurrency primitive changed (nesting 3)");
    assert_eq!(analysis.findings[3].weight_override, Some(30));
    assert_eq!(analysis.findings[7].path, "pkg/api_test.go");

    let inputs = plugin.helper_inputs(&ctx).expect("inputs");
    assert_eq!(inputs.changed_files.len(), 2);
    assert_eq!((inputs.repo_root.as_str(), inputs.base_rev.as_str(), inputs.head_rev.as_str()), ("/repo", "base", "head"));
}

#[test]
fn nesting_counts_only_beside_concurrency() {
    let plain = go_file(GoCounts { max_nesting: 1, ..GoCounts::default() }, vec![]);
    let deep = go_file(GoCounts { max_nesting: 4, ..GoCounts::default() }, vec![]);
    assert!(!go::concurrency_changed(Some(&plain), Some(&deep)));
    let busy = go_file(GoCounts { selects: 1, max_nesting: 1, ..GoCounts::default() }, vec![]);
    let busier = go_file(GoCounts { selects: 1, max_nesting: 2, ..GoCounts::default() }, vec![]);
    assert!(go::concurrency_changed(Some(&busy), Some(&busier)));
    assert!(!go::concurrency_changed(Some(&busy), Some(&busy)));
    assert!(go::concurrency_changed(None, Some(&busy)));
    assert!(go::receiver_changed(None, Some(&busy)));
    assert!(!go::receiver_changed(None, None));
}

#[test]
fn failures_of_go_tests_count_without_their_messages() {
    let looks = |added: &[&str], removed: &[&str]| {
        !go::analyze_test_findings(&changed("main_test.go", added, removed)).is_empty()
    };
    assert!(!looks(&["t.Fatalf(\"value mismatch: %d\", got)"], &["t.Fatalf(\"unexpected value: %d\", got)"]));
    assert!(looks(&["t.Fatal(diff)"], &[]));
    assert!(looks(&[], &["t.Fatalf(\"x\")"]));
    assert!(!looks(&["t.Log(diff)"], &[]));
    assert!(looks(
        &["if diff := cmp.Diff(\"want-2\", \"got\"); diff != \"\" {"],
        &["if diff := cmp.Diff(\"want\", \"got\"); diff != \"\" {"],
    ));
    assert!(!looks(
        &["require.Equalf(t, 1, value(), \"value mismatch\")"],
        &["require.Equalf(t, 1, value(), \"unexpected value\")"],
    ));
    assert!(go::analyze_test_findings(&changed("main.go", &["t.Fatal(diff)"], &[])).is_empty());
}

fn fallback_message(plugin: &GoPlugin, ctx: &AnalysisContext) -> String {
    let analysis = plugin.analyze(ctx);
    assert_eq!(analysis.confidence, Confidence::Medium);
    assert_eq!(analysis.findings[0].kind, ReasonKind::GoAnalysisFallback);
    assert_eq!(analysis.findings[0].score_mode, PluginScoreMode::Additive);
    analysis.findings[0].message.clone()
}

#[test]
fn go_plugin_says_what_is_missing() {
    let mut plugin = GoPlugin {
        observation: RevisionObservation {
            required_files: here(),
            before: Ok(RevisionSnapshot { packages: vec![], files: vec![] }),
            after: Err(String::from("exit status 1")),
        },
    };
    let mut ctx = revisions(vec![changed("pkg/api.go", &["select {"], &[])]);
    assert_eq!(fallback_message(&plugin, &ctx), "go helper failed: exit status 1");
    plugin.observation.before = Err(String::from("exit status 2"));
    assert_eq!(fallback_message(&plugin, &ctx), "go helper failed: exit status 2");
    plugin.observation.required_files[0].in_head = false;
    assert_eq!(fallback_message(&plugin, &ctx), "go plugin requires go.mod");
    ctx.head_rev = None;
    assert_eq!(fallback_message(&plugin, &ctx), "go plugin requires head revision");
    ctx.base_rev = None;
    assert_eq!(fallback_message(&plugin, &ctx), "go plugin requires base revision");
    ctx.repo_root = None;
    assert_eq!(fallback_message(&plugin, &ctx), "go plugin requires repo root");
    ctx.input_kind = InputKind::PatchText;
    assert_eq!(fallback_message(&plugin, &ctx), "go plugin requires git revision input");

    let analysis = plugin.analyze(&ctx);
    assert_eq!(
        kinds(&analysis),
        vec![ReasonKind::GoAnalysisFallback, ReasonKind::GoConcurrencyChange]
    );
    assert_eq!(analysis.findings[1].weight_override, Some(20));

    let nothing = plugin.analyze(&revisions(vec![changed("README.md", &["x"], &[])]));
    assert_eq!(nothing.confidence, Confidence::High);
    assert!(nothing.findings.is_empty());
}

#[test]
fn typescript_plugin_compares_two_revisions() {
    let before = TypeScriptCounts::default();
    let after = TypeScriptCounts {
        await_expressions: 1,
        max_nesting: 2,
        catch_clauses: 1,
        date_calls: 1,
        abort_controllers: 1,
        ..before
    };
    let package = |kind: &str| HelperPackageSnapshot {
        dir: String::from("src"),
        exports: vec![pair("run", kind)],
        implementations: vec![format!("Runner implements {kind}")],
    };
    let file = |counts: TypeScriptCounts, kind: &str| {
        (
            String::from("src/run.ts"),
            TypeScriptFileSnapshot { counts, member_kinds: vec![pair("Runner.run", kind)] },
        )
    };
    let plugin = TypeScriptPlugin {
        observation: RevisionObservation {
            required_files: here(),
            before: Ok(RevisionSnapshot { packages: vec![package("A")], files: vec![file(before, "method")] }),
            after: Ok(RevisionSnapshot { packages: vec![package("B")], files: vec![file(after, "property")] }),
        },
    };
    assert_eq!(plugin.id(), "ts");
    let ctx = revisions(vec![
        changed("src/run.ts", &["x"], &["y"]),
        changed("src/run.test.ts", &["expect(run()).toBe(2)"], &["expect(run()).toBe(1)"]),
    ]);
    let analysis = plugin.analyze(&ctx);
    assert_eq!(analysis.confidence, Confidence::High);
    assert_eq!(
        kinds(&analysis),
        vec![
            ReasonKind::TypeScriptExportedApiChange,
            ReasonKind::TypeScriptInterfaceBreak,
            ReasonKind::TypeScriptMemberKindChange,
            ReasonKind::TypeScriptAsyncChange,
            ReasonKind::TypeScriptErrorHandlingChange,
            ReasonKind::TypeScriptRuntimeBehaviorChange,
            ReasonKind::TypeScriptResourceLifecycleChange,
            ReasonKind::TypeScriptTestOracleChange,
        ]
    );
    assert_eq!(analysis.findings[1].message, "typescript interface implementation removed: Runner implements A");
    assert_eq!(analysis.findings[3].message, "typescript async change (nesting 2)");
    assert_eq!(analysis.findings[3].weight_override, Some(25));
}

#[test]
fn typescript_plugin_falls_back_to_the_lines() {
    let mut ctx = revisions(vec![changed(
        "src/run.ts",
        &["export async function run() {", "  if (ready) {", "    await go();"],
        &[],
    )]);
    ctx.input_kind = InputKind::PatchText;
    let analysis = TypeScriptPlugin::new().analyze(&ctx);
    assert_eq!(analysis.confidence, Confidence::Medium);
    assert_eq!(
        kinds(&analysis),
        vec![
            ReasonKind::TypeScriptAnalysisFallback,
            ReasonKind::TypeScriptAsyncChange,
            ReasonKind::TypeScriptExportedApiChange,
        ]
    );
    assert_eq!(analysis.findings[0].message, "typescript plugin requires git revision input");
}

#[test]
fn reports_hold_what_builtin_plugins_say() {
    let ctx = AnalysisContext {
        input_kind: InputKind::PatchText,
        repo_root: None,
        base_rev: None,
        head_rev: None,
        files: vec![changed("src/run.go", &["select {"], &[])],
    };
    let plugins = resolve_builtin_plugins(&[String::from("go"), String::from("ts")]).expect("known");
    let config = ScoreConfig::default_v1();
    let report = analyze_with_builtin_plugins(&ctx, &plugins, &config);
    assert_eq!(report.confidence, Confidence::Medium);
    assert_eq!(report.feature_vector.plugin_signals, 2);
    let kinds: Vec<ReasonKind> = report.reasons.iter().map(|reason| reason.kind).collect();
    assert_eq!(
        kinds,
        vec![
            ReasonKind::GenericCodeChange,
            ReasonKind::GoAnalysisFallback,
            ReasonKind::GoConcurrencyChange,
        ]
    );
    assert_eq!(report.score, 20);
    let dynamic: Vec<&dyn AnalyzerPlugin> = plugins.iter().map(|plugin| plugin as &dyn AnalyzerPlugin).collect();
    assert_eq!(analyze_context(&ctx, &dynamic, &config).score, report.score);
}

#[test]
fn builtin_plugins_are_resolved_by_name() {
    let names = vec![String::from("ts"), String::from("go")];
    let plugins = resolve_builtin_plugins(&names).expect("both are known");
    assert_eq!(plugins.len(), 2);
    assert_eq!(plugins[0].id(), "ts");
    assert_eq!(plugins[1].id(), "go");
    let error = resolve_builtin_plugins(&[String::from("python")]).expect_err("unknown");
    assert_eq!(error.message(), "command failed: unknown plugin: python");
    assert!(resolve_builtin_plugins(&[]).expect("none").is_empty());
}
