//! Whole revision ranges, with what the helpers of the plugins tell of them.

use shiwake::plugins::builtin::{analyze_with_builtin_plugins, BuiltinPlugin};
use shiwake::plugins::go::{GoCounts, GoFileSnapshot, GoPlugin};
use shiwake::plugins::helper_process::RequiredFile;
use shiwake::plugins::snapshot::{HelperPackageSnapshot, RevisionObservation, RevisionSnapshot};
use shiwake::plugins::typescript::{TypeScriptCounts, TypeScriptFileSnapshot, TypeScriptPlugin};
use shiwake::requests::build_context;
use shiwake::{
    analyze_request, AnalyzeInput, AnalyzeRequest, FileEvidence, GitAttributes, ReasonKind,
    RepositoryEvidence, ScoreConfig, ScoreReport,
};

/// The diff between two versions of a file, as one hunk with the lines around it that stay.
fn diff(path: &str, initial: &str, updated: &str) -> String {
    let old: Vec<&str> = initial.lines().collect();
    let new: Vec<&str> = updated.lines().collect();
    let head = old.iter().zip(&new).take_while(|(a, b)| a == b).count();
    let tail = old[head..]
        .iter()
        .rev()
        .zip(new[head..].iter().rev())
        .take_while(|(a, b)| a == b)
        .count();
    let mut patch = format!(
        "diff --git a/{path} b/{path}\nindex 1111111..2222222 100644\n--- a/{path}\n+++ b/{path}\n@@ -{},{} +{},{} @@\n",
        head + 1,
        old.len() - head - tail,
        head + 1,
        new.len() - head - tail
    );
    for line in &old[head..old.len() - tail] {
        patch.push_str(&format!("-{line}\n"));
    }
    for line in &new[head..new.len() - tail] {
        patch.push_str(&format!("+{line}\n"));
    }
    patch
}

fn report(path: &str, initial: &str, updated: &str, plugin: BuiltinPlugin) -> ScoreReport {
    let request = AnalyzeRequest {
        input: AnalyzeInput::GitRevisionRange {
            repo_root: String::from("/repo"),
            base: String::from("base"),
            head: String::from("head"),
        },
        repo_root: Some(String::from("/repo")),
    };
    let evidence = RepositoryEvidence {
        gitattributes: GitAttributes::Absent,
        diff: diff(path, initial, updated),
        files: vec![FileEvidence {
            before_source: Some(String::from(initial)),
            after_source: Some(String::from(updated)),
            commit_count: String::from("1\n"),
            author_log: String::from("Tomohiro\n"),
        }],
    };
    let config = ScoreConfig::default_v1();
    let ctx = build_context(&request, &evidence, &config).expect("context");
    analyze_with_builtin_plugins(&ctx, &vec![plugin], &config)
}

fn has(report: &ScoreReport, kind: ReasonKind) -> bool {
    report.reasons.iter().any(|reason| reason.kind == kind)
}

fn package(dir: &str, exports: &[(&str, &str)], implementations: &[&str]) -> HelperPackageSnapshot {
    HelperPackageSnapshot {
        dir: String::from(dir),
        exports: exports
            .iter()
            .map(|entry| (String::from(entry.0), String::from(entry.1)))
            .collect(),
        implementations: implementations.iter().map(|name| String::from(*name)).collect(),
    }
}

fn here() -> Vec<RequiredFile> {
    vec![RequiredFile { in_base: true, in_head: true }]
}

fn go_snapshot(
    path: &str,
    package: HelperPackageSnapshot,
    counts: GoCounts,
    receiver_kinds: &[(&str, &str)],
) -> Result<RevisionSnapshot<GoFileSnapshot>, String> {
    Ok(RevisionSnapshot {
        packages: vec![package],
        files: vec![(
            String::from(path),
            GoFileSnapshot {
                counts,
                receiver_kinds: receiver_kinds
                    .iter()
                    .map(|entry| (String::from(entry.0), String::from(entry.1)))
                    .collect(),
            },
        )],
    })
}

fn go_counts(before: GoCounts, after: GoCounts) -> BuiltinPlugin {
    BuiltinPlugin::Go(GoPlugin {
        observation: RevisionObservation {
            required_files: here(),
            before: go_snapshot("main.go", package(".", &[("Run", "func")], &[]), before, &[]),
            after: go_snapshot("main.go", package(".", &[("Run", "func")], &[]), after, &[]),
        },
    })
}

fn go_packages(before: HelperPackageSnapshot, after: HelperPackageSnapshot) -> BuiltinPlugin {
    BuiltinPlugin::Go(GoPlugin {
        observation: RevisionObservation {
            required_files: here(),
            before: go_snapshot("main.go", before, GoCounts::default(), &[]),
            after: go_snapshot("main.go", after, GoCounts::default(), &[]),
        },
    })
}

fn go_tests() -> BuiltinPlugin {
    let told = || {
        go_snapshot(
            "main_test.go",
            package(".", &[("TestValue", "func(t *testing.T)")], &[]),
            GoCounts::default(),
            &[],
        )
    };
    BuiltinPlugin::Go(GoPlugin {
        observation: RevisionObservation { required_files: here(), before: told(), after: told() },
    })
}

fn typescript_snapshot(
    path: &str,
    package: HelperPackageSnapshot,
    counts: TypeScriptCounts,
    member_kinds: &[(&str, &str)],
) -> Result<RevisionSnapshot<TypeScriptFileSnapshot>, String> {
    Ok(RevisionSnapshot {
        packages: vec![package],
        files: vec![(
            String::from(path),
            TypeScriptFileSnapshot {
                counts,
                member_kinds: member_kinds
                    .iter()
                    .map(|entry| (String::from(entry.0), String::from(entry.1)))
                    .collect(),
            },
        )],
    })
}

fn typescript_counts(path: &str, before: TypeScriptCounts, after: TypeScriptCounts) -> BuiltinPlugin {
    BuiltinPlugin::TypeScript(TypeScriptPlugin {
        observation: RevisionObservation {
            required_files: here(),
            before: typescript_snapshot(path, package("src", &[("run", "function")], &[]), before, &[]),
            after: typescript_snapshot(path, package("src", &[("run", "function")], &[]), after, &[]),
        },
    })
}

fn typescript_packages(
    path: &str,
    before: HelperPackageSnapshot,
    after: HelperPackageSnapshot,
) -> BuiltinPlugin {
    BuiltinPlugin::TypeScript(TypeScriptPlugin {
        observation: RevisionObservation {
            required_files: here(),
            before: typescript_snapshot(path, before, TypeScriptCounts::default(), &[]),
            after: typescript_snapshot(path, after, TypeScriptCounts::default(), &[]),
        },
    })
}

fn patch_report(patch: String, plugin: BuiltinPlugin) -> ScoreReport {
    let request = AnalyzeRequest {
        input: AnalyzeInput::PatchText { patch },
        repo_root: Some(String::from("/repo")),
    };
    let evidence = RepositoryEvidence {
        gitattributes: GitAttributes::Absent,
        diff: String::new(),
        files: Vec::new(),
    };
    analyze_request(&request, &evidence, &[&plugin]).expect("analysis should succeed")
}

#[test]
fn go_plugin_detects_exported_api_change_from_revision_range() {
    let initial = r#"package main

import "context"

type Runner interface {
    Run(context.Context) error
}

type worker struct{}

func (worker) Run(ctx context.Context) error {
    return nil
}

func Build(ctx context.Context) error {
    return worker{}.Run(ctx)
}
"#;
    let updated = r#"package main

import "context"

type Runner interface {
    Run(context.Context) error
}

type worker struct{}

func (worker) Run(ctx context.Context, strict bool) error {
    return nil
}

func Build(ctx context.Context, strict bool) error {
    return worker{}.Run(ctx, strict)
}
"#;
    let plugin = go_packages(
        package(".", &[("Runner", "interface{Run(context.Context) error}"), ("Build", "func(ctx context.Context) error")], &["worker implements Runner"]),
        package(".", &[("Runner", "interface{Run(context.Context) error}"), ("Build", "func(ctx context.Context, strict bool) error")], &[]),
    );
    let report = report("main.go", initial, updated, plugin);
    assert!(has(&report, ReasonKind::GoExportedApiChange), "reasons were {:?}", report.reasons);
    assert!(has(&report, ReasonKind::GoInterfaceBreak), "reasons were {:?}", report.reasons);
}

#[test]
fn go_plugin_detects_concurrency_change_from_revision_range() {
    let initial = r#"package main

import "context"

func Run(ctx context.Context) error {
    return nil
}
"#;
    let updated = r#"package main

import "context"

func Run(ctx context.Context) error {
    select {
    case <-ctx.Done():
        return ctx.Err()
    default:
        return nil
    }
}
"#;
    let plugin = go_counts(
        GoCounts::default(),
        GoCounts { selects: 1, receives: 1, max_nesting: 1, ..GoCounts::default() },
    );
    let report = report("main.go", initial, updated, plugin);
    assert!(has(&report, ReasonKind::GoConcurrencyChange), "reasons were {:?}", report.reasons);
}

#[test]
fn go_plugin_falls_back_for_patch_input() {
    let initial = r#"package main

import "context"

func Build(ctx context.Context) error {
    return nil
}
"#;
    let updated = r#"package main

import "context"

func Build(ctx context.Context, strict bool) error {
    return nil
}
"#;
    let report = patch_report(diff("main.go", initial, updated), BuiltinPlugin::Go(GoPlugin::new()));
    assert!(has(&report, ReasonKind::GoAnalysisFallback), "reasons were {:?}", report.reasons);
    assert_eq!(report.confidence.as_str(), "medium");
}

#[test]
fn go_plugin_handles_module_imports_without_fallback() {
    let initial = r#"package main

import (
    "context"
    "github.com/google/uuid"
)

type Runner interface {
    Run(context.Context) error
}

type worker struct{}

func (worker) Run(ctx context.Context) error {
    _ = uuid.Nil
    return nil
}

func Build(ctx context.Context) error {
    return worker{}.Run(ctx)
}
"#;
    let updated = r#"package main

import (
    "context"
    "github.com/google/uuid"
)

type Runner interface {
    Run(context.Context) error
}

type worker struct{}

func (worker) Run(ctx context.Context, strict bool) error {
    _ = uuid.Nil
    return nil
}

func Build(ctx context.Context, strict bool) error {
    return worker{}.Run(ctx, strict)
}
"#;
    let plugin = go_packages(
        package(".", &[("Runner", "interface{Run(context.Context) error}"), ("Build", "func(ctx context.Context) error")], &["worker implements Runner"]),
        package(".", &[("Runner", "interface{Run(context.Context) error}"), ("Build", "func(ctx context.Context, strict bool) error")], &[]),
    );
    let report = report("main.go", initial, updated, plugin);
    assert!(!has(&report, ReasonKind::GoAnalysisFallback), "reasons were {:?}", report.reasons);
    assert!(has(&report, ReasonKind::GoInterfaceBreak), "reasons were {:?}", report.reasons);
}

#[test]
fn go_plugin_scores_deeper_concurrency_nesting_higher() {
    let shallow = r#"package main

import "context"

func Run(ctx context.Context, ch chan int) error {
    select {
    case <-ctx.Done():
        return ctx.Err()
    default:
        return nil
    }
}
"#;
    let deep = r#"package main

import "context"

func Run(ctx context.Context, ch chan int) error {
    select {
    case <-ctx.Done():
        if len(ch) > 0 {
            select {
            case <-ctx.Done():
                return ctx.Err()
            default:
                return nil
            }
        }
        return ctx.Err()
    default:
        return nil
    }
}
"#;
    let plugin = go_counts(
        GoCounts { selects: 1, receives: 1, max_nesting: 1, ..GoCounts::default() },
        GoCounts { selects: 2, receives: 2, max_nesting: 3, ..GoCounts::default() },
    );
    let report = report("main.go", shallow, deep, plugin);
    assert!(has(&report, ReasonKind::GoConcurrencyChange), "reasons were {:?}", report.reasons);
    assert!(report.score > 0);
}

#[test]
fn go_plugin_detects_error_handling_change_from_revision_range() {
    let initial = r#"package main

import (
    "context"
)

func Run(ctx context.Context, err error) error {
    if err != nil {
        return err
    }
    return nil
}
"#;
    let updated = r#"package main

import (
    "context"
    "errors"
)

func Run(ctx context.Context, err error) error {
    if err != nil {
        if errors.Is(err, context.DeadlineExceeded) {
            return nil
        }
        return err
    }
    return nil
}
"#;
    let plugin = go_counts(
        GoCounts { nil_checks: 1, max_nesting: 1, ..GoCounts::default() },
        GoCounts { nil_checks: 1, errors_is_as_calls: 1, max_nesting: 2, ..GoCounts::default() },
    );
    let report = report("main.go", initial, updated, plugin);
    assert!(has(&report, ReasonKind::GoErrorHandlingChange), "reasons were {:?}", report.reasons);
    assert!(!has(&report, ReasonKind::GoConcurrencyChange), "reasons were {:?}", report.reasons);
}

#[test]
fn go_plugin_detects_embedded_interface_break_with_type_info() {
    let initial = r#"package main

import (
    "context"
    "example.com/shiwake-test/iface"
)

type Runner interface {
    iface.Base
}

type worker struct{}

func (worker) Run(ctx context.Context) error {
    return nil
}
"#;
    let updated = r#"package main

import (
    "context"
    "example.com/shiwake-test/iface"
)

type Runner interface {
    iface.Base
}

type worker struct{}

func (worker) Run(ctx context.Context, strict bool) error {
    return nil
}
"#;
    let plugin = go_packages(
        package(".", &[("Runner", "interface{iface.Base}")], &["worker implements Runner"]),
        package(".", &[("Runner", "interface{iface.Base}")], &[]),
    );
    let report = report("main.go", initial, updated, plugin);
    assert!(has(&report, ReasonKind::GoInterfaceBreak), "reasons were {:?}", report.reasons);
}

#[test]
fn go_plugin_detects_receiver_kind_change() {
    let initial = r#"package main

type Counter struct{}

func (Counter) Inc() int {
    return 1
}
"#;
    let updated = r#"package main

type Counter struct{}

func (*Counter) Inc() int {
    return 1
}
"#;
    let told = |kind: &str| {
        go_snapshot(
            "main.go",
            package(".", &[("Counter", "struct{}")], &[]),
            GoCounts::default(),
            &[("Counter.Inc", kind)],
        )
    };
    let plugin = BuiltinPlugin::Go(GoPlugin {
        observation: RevisionObservation {
            required_files: here(),
            before: told("value"),
            after: told("pointer"),
        },
    });
    let report = report("main.go", initial, updated, plugin);
    assert!(has(&report, ReasonKind::GoReceiverChange), "reasons were {:?}", report.reasons);
}

#[test]
fn go_plugin_detects_test_oracle_change() {
    let initial = "package main\n\nimport (\n    \"testing\"\n    \"github.com/google/go-cmp/cmp\"\n)\n\nfunc TestValue(t *testing.T) {\n    if diff := cmp.Diff(\"want\", \"got\"); diff != \"\" {\n        t.Fatal(diff)\n    }\n}\n";
    let updated = "package main\n\nimport (\n    \"testing\"\n    \"github.com/google/go-cmp/cmp\"\n)\n\nfunc TestValue(t *testing.T) {\n    if diff := cmp.Diff(\"want-2\", \"got\"); diff != \"\" {\n        t.Fatal(diff)\n    }\n}\n";
    let report = report("main_test.go", initial, updated, go_tests());
    assert!(has(&report, ReasonKind::GoTestOracleChange), "reasons were {:?}", report.reasons);
}

#[test]
fn go_plugin_ignores_test_failure_message_only_change() {
    let initial = "package main\n\nimport \"testing\"\n\nfunc TestValue(t *testing.T) {\n    if got := value(); got != 1 {\n        t.Fatalf(\"unexpected value: %d\", got)\n    }\n}\n";
    let updated = "package main\n\nimport \"testing\"\n\nfunc TestValue(t *testing.T) {\n    if got := value(); got != 1 {\n        t.Fatalf(\"value mismatch: %d\", got)\n    }\n}\n";
    let report = report("main_test.go", initial, updated, go_tests());
    assert!(!has(&report, ReasonKind::GoTestOracleChange), "reasons were {:?}", report.reasons);
}

#[test]
fn go_plugin_ignores_assert_message_only_change() {
    let initial = "package main\n\nimport (\n    \"testing\"\n    \"github.com/stretchr/testify/require\"\n)\n\nfunc TestValue(t *testing.T) {\n    require.Equalf(t, 1, value(), \"unexpected value\")\n}\n";
    let updated = "package main\n\nimport (\n    \"testing\"\n    \"github.com/stretchr/testify/require\"\n)\n\nfunc TestValue(t *testing.T) {\n    require.Equalf(t, 1, value(), \"value mismatch\")\n}\n";
    let report = report("main_test.go", initial, updated, go_tests());
    assert!(!has(&report, ReasonKind::GoTestOracleChange), "reasons were {:?}", report.reasons);
}

#[test]
fn go_plugin_detects_context_retry_time_change() {
    let initial = r#"package main

import (
    "context"
    "time"
)

func Run(ctx context.Context) error {
    _ = time.Second
    _ = ctx
    return nil
}
"#;
    let updated = r#"package main

import (
    "context"
    "time"
)

func Run(ctx context.Context) error {
    for retries := 0; retries < 3; retries++ {
        select {
        case <-ctx.Done():
            return ctx.Err()
        case <-time.After(2 * time.Second):
            continue
        }
    }
    return nil
}
"#;
    let plugin = go_counts(
        GoCounts { time_calls: 1, ..GoCounts::default() },
        GoCounts {
            selects: 1,
            receives: 2,
            max_nesting: 2,
            context_checks: 2,
            time_calls: 2,
            retry_markers: 1,
            ..GoCounts::default()
        },
    );
    let report = report("main.go", initial, updated, plugin);
    assert!(has(&report, ReasonKind::GoRuntimeBehaviorChange), "reasons were {:?}", report.reasons);
}

#[test]
fn go_plugin_detects_resource_lifecycle_change() {
    let initial = r#"package main

import "context"

func Run(ctx context.Context) error {
    _ = ctx
    return nil
}
"#;
    let updated = r#"package main

import "context"

func Run(ctx context.Context) error {
    ctx, cancel := context.WithCancel(ctx)
    defer cancel()
    _ = ctx
    return nil
}
"#;
    let plugin = go_counts(
        GoCounts::default(),
        GoCounts { defers: 1, cleanup_calls: 1, ..GoCounts::default() },
    );
    let report = report("main.go", initial, updated, plugin);
    assert!(has(&report, ReasonKind::GoResourceLifecycleChange), "reasons were {:?}", report.reasons);
}

#[test]
fn typescript_plugin_detects_exported_api_change_from_revision_range() {
    let initial = r#"export interface Runner {
  run(id: string): Promise<void>
}

export class Worker implements Runner {
  async run(id: string): Promise<void> {
    void id
  }
}

export function build(id: string): Promise<void> {
  return new Worker().run(id)
}
"#;
    let updated = r#"export interface Runner {
  run(id: string): Promise<void>
}

export class Worker implements Runner {
  async run(id: string, strict: boolean): Promise<void> {
    void id
    void strict
  }
}

export function build(id: string, strict: boolean): Promise<void> {
  return new Worker().run(id, strict)
}
"#;
    let plugin = typescript_packages(
        "src/api.ts",
        package("src", &[("build", "(id: string): Promise<void>")], &["Worker implements Runner"]),
        package("src", &[("build", "(id: string, strict: boolean): Promise<void>")], &[]),
    );
    let report = report("src/api.ts", initial, updated, plugin);
    assert!(has(&report, ReasonKind::TypeScriptExportedApiChange), "reasons were {:?}", report.reasons);
    assert!(has(&report, ReasonKind::TypeScriptInterfaceBreak), "reasons were {:?}", report.reasons);
}

#[test]
fn typescript_plugin_detects_async_change_from_revision_range() {
    let initial = r#"export function run(): number {
  return 1
}
"#;
    let updated = r#"export async function run(signal?: AbortSignal): Promise<number> {
  return await Promise.resolve(signal ? 2 : 1)
}
"#;
    let plugin = typescript_counts(
        "src/run.ts",
        TypeScriptCounts::default(),
        TypeScriptCounts {
            async_functions: 1,
            await_expressions: 1,
            promise_calls: 1,
            ..TypeScriptCounts::default()
        },
    );
    let report = report("src/run.ts", initial, updated, plugin);
    assert!(has(&report, ReasonKind::TypeScriptAsyncChange), "reasons were {:?}", report.reasons);
}

#[test]
fn typescript_plugin_falls_back_for_patch_input() {
    let initial = r#"export function build(id: string): string {
  return id
}
"#;
    let updated = r#"export function build(id: string, strict: boolean): string {
  return strict ? id.trim() : id
}
"#;
    let report = patch_report(
        diff("src/build.ts", initial, updated),
        BuiltinPlugin::TypeScript(TypeScriptPlugin::new()),
    );
    assert!(has(&report, ReasonKind::TypeScriptAnalysisFallback), "reasons were {:?}", report.reasons);
    assert_eq!(report.confidence.as_str(), "medium");
}

#[test]
fn typescript_plugin_detects_error_handling_change() {
    let initial = r#"export function run(err?: Error): string {
  if (err) {
    return err.message
  }
  return "ok"
}
"#;
    let updated = r#"export function run(err?: Error): string {
  try {
    if (err) {
      throw err
    }
    return "ok"
  } catch (error) {
    if (error instanceof Error) {
      return error.message
    }
    return "unknown"
  }
}
"#;
    let plugin = typescript_counts(
        "src/error.ts",
        TypeScriptCounts { max_nesting: 1, ..TypeScriptCounts::default() },
        TypeScriptCounts {
            try_blocks: 1,
            catch_clauses: 1,
            throw_statements: 1,
            instanceof_error_checks: 1,
            max_nesting: 2,
            ..TypeScriptCounts::default()
        },
    );
    let report = report("src/error.ts", initial, updated, plugin);
    assert!(has(&report, ReasonKind::TypeScriptErrorHandlingChange), "reasons were {:?}", report.reasons);
}

#[test]
fn typescript_plugin_detects_imported_interface_break() {
    let initial_main = r#"import type { BaseRunner } from "../iface/base"

export interface Runner extends BaseRunner {}

export class Worker implements Runner {
  async run(id: string): Promise<void> {
    void id
  }
}
"#;
    let updated_main = r#"import type { BaseRunner } from "../iface/base"

export interface Runner extends BaseRunner {}

export class Worker implements Runner {
  async run(id: string, strict: boolean): Promise<void> {
    void id
    void strict
  }
}
"#;
    let plugin = typescript_packages(
        "src/main/api.ts",
        package("src/main", &[("Runner", "interface"), ("Worker", "class")], &["Worker implements Runner"]),
        package("src/main", &[("Runner", "interface"), ("Worker", "class")], &[]),
    );
    let report = report("src/main/api.ts", initial_main, updated_main, plugin);
    assert!(has(&report, ReasonKind::TypeScriptInterfaceBreak), "reasons were {:?}", report.reasons);
}

#[test]
fn typescript_plugin_detects_type_alias_interface_break() {
    let initial = r#"export type Runner = {
  run(id: string): Promise<void>
}

export class Worker implements Runner {
  async run(id: string): Promise<void> {
    void id
  }
}
"#;
    let updated = r#"export type Runner = {
  run(id: string): Promise<void>
}

export class Worker implements Runner {
  async run(id: string, strict: boolean): Promise<void> {
    void id
    void strict
  }
}
"#;
    let plugin = typescript_packages(
        "src/runner.ts",
        package("src", &[("Runner", "type"), ("Worker", "class")], &["Worker implements Runner"]),
        package("src", &[("Runner", "type"), ("Worker", "class")], &[]),
    );
    let report = report("src/runner.ts", initial, updated, plugin);
    assert!(has(&report, ReasonKind::TypeScriptInterfaceBreak), "reasons were {:?}", report.reasons);
}

#[test]
fn typescript_plugin_detects_member_kind_change() {
    let initial = r#"export class Counter {
  count(): number {
    return 1
  }
}
"#;
    let updated = r#"export class Counter {
  count = (): number => {
    return 1
  }
}
"#;
    let told = |kind: &str| {
        typescript_snapshot(
            "src/counter.ts",
            package("src", &[("Counter", "class")], &[]),
            TypeScriptCounts::default(),
            &[("Counter.count", kind)],
        )
    };
    let plugin = BuiltinPlugin::TypeScript(TypeScriptPlugin {
        observation: RevisionObservation {
            required_files: here(),
            before: told("method"),
            after: told("property"),
        },
    });
    let report = report("src/counter.ts", initial, updated, plugin);
    assert!(has(&report, ReasonKind::TypeScriptMemberKindChange), "reasons were {:?}", report.reasons);
}

#[test]
fn typescript_plugin_detects_test_oracle_change() {
    let initial = r#"import { expect, test } from "vitest"

test("value", () => {
  expect(value()).toBe("old")
})
"#;
    let updated = r#"import { expect, test } from "vitest"

test("value", () => {
  expect(value()).toBe("new")
})
"#;
    let plugin = typescript_counts(
        "src/value.test.ts",
        TypeScriptCounts::default(),
        TypeScriptCounts::default(),
    );
    let report = report("src/value.test.ts", initial, updated, plugin);
    assert!(has(&report, ReasonKind::TypeScriptTestOracleChange), "reasons were {:?}", report.reasons);
}

#[test]
fn typescript_plugin_detects_runtime_behavior_change() {
    let initial = r#"export function run(): number {
  return 1
}
"#;
    let updated = r#"export async function run(): Promise<number> {
  for (let retries = 0; retries < 3; retries += 1) {
    await new Promise((resolve) => setTimeout(resolve, 100))
  }
  return Date.now()
}
"#;
    let plugin = typescript_counts(
        "src/runtime.ts",
        TypeScriptCounts::default(),
        TypeScriptCounts {
            async_functions: 1,
            await_expressions: 1,
            timers: 1,
            max_nesting: 1,
            date_calls: 1,
            retry_markers: 1,
            ..TypeScriptCounts::default()
        },
    );
    let report = report("src/runtime.ts", initial, updated, plugin);
    assert!(has(&report, ReasonKind::TypeScriptRuntimeBehaviorChange), "reasons were {:?}", report.reasons);
}

#[test]
fn typescript_plugin_detects_resource_lifecycle_change() {
    let initial = r#"export async function run(): Promise<void> {
  return
}
"#;
    let updated = r#"export async function run(): Promise<void> {
  const controller = new AbortController()
  const timeout = setTimeout(() => controller.abort(), 100)
  clearTimeout(timeout)
}
"#;
    let plugin = typescript_counts(
        "src/resource.ts",
        TypeScriptCounts { async_functions: 1, ..TypeScriptCounts::default() },
        TypeScriptCounts {
            async_functions: 1,
            timers: 1,
            abort_controllers: 1,
            cleanup_calls: 1,
            ..TypeScriptCounts::default()
        },
    );
    let report = report("src/resource.ts", initial, updated, plugin);
    assert!(has(&report, ReasonKind::TypeScriptResourceLifecycleChange), "reasons were {:?}", report.reasons);
}
