//! Requests that a repository has something to say on.

use shiwake::plugins::go::GoPlugin;
use shiwake::requests::{blob_path, build_context, changed_files};
use shiwake::{
    analyze_request, analyze_request_with_config, AggregationConfig, AnalyzeError, AnalyzeInput,
    AnalyzeRequest, Binary64, DecisionThresholds, FileEvidence, FileHistory, GitAttributes,
    InputKind, ReasonKind, RepositoryEvidence, RuleConfig, ScoreConfig,
};

fn range() -> AnalyzeRequest {
    AnalyzeRequest {
        input: AnalyzeInput::GitRevisionRange {
            repo_root: String::from("/repo"),
            base: String::from("base"),
            head: String::from("head"),
        },
        repo_root: Some(String::from("/repo")),
    }
}

fn about(before: &str, after: &str, commits: usize, author: &str) -> FileEvidence {
    FileEvidence {
        before_source: Some(String::from(before)),
        after_source: Some(String::from(after)),
        commit_count: format!("{commits}\n"),
        author_log: format!("{author}\n").repeat(commits),
    }
}

fn file_diff(path: &str, lines: &str) -> String {
    format!(
        "diff --git a/{path} b/{path}\nindex 1111111..2222222 100644\n--- a/{path}\n+++ b/{path}\n{lines}"
    )
}

const HOT_DIFF: &str = "@@ -1,3 +1,6 @@
 pub fn hot() -> i32 {
-    5
+    if needs_hot_path() {
+        return compute_hot();
+    }
+    0
 }
";

const COLD_DIFF: &str = "@@ -1,3 +1,4 @@
 pub fn cold() -> i32 {
-    1
+    let next = compute_cold();
+    next
 }
";

const BUILD_DIFF: &str = "@@ -1,5 +1,8 @@
 package gen
 
 func Build() int {
+    if useNewFlow() {
+        return 2
+    }
     return 1
 }
";

#[test]
fn revision_range_adds_repo_hotspot_signal_for_frequently_touched_file() {
    let evidence = RepositoryEvidence {
        gitattributes: GitAttributes::Absent,
        diff: format!("{}{}", file_diff("src/cold.rs", COLD_DIFF), file_diff("src/hot.rs", HOT_DIFF)),
        files: vec![
            about(
                "pub fn cold() -> i32 {\n    1\n}\n",
                "pub fn cold() -> i32 {\n    let next = compute_cold();\n    next\n}\n",
                1,
                "Tomohiro",
            ),
            about(
                "pub fn hot() -> i32 {\n    5\n}\n",
                "pub fn hot() -> i32 {\n    if needs_hot_path() {\n        return compute_hot();\n    }\n    0\n}\n",
                5,
                "Tomohiro",
            ),
        ],
    };

    let report = analyze_request(&range(), &evidence, &[]).expect("analysis should succeed");

    let hot_reason = report
        .reasons
        .iter()
        .find(|reason| reason.kind == ReasonKind::RepoHotspot && reason.file == "src/hot.rs");
    let cold_reason = report
        .reasons
        .iter()
        .find(|reason| reason.kind == ReasonKind::RepoHotspot && reason.file == "src/cold.rs");

    assert!(hot_reason.is_some(), "reasons were {:?}", report.reasons);
    assert!(cold_reason.is_none(), "reasons were {:?}", report.reasons);
    assert_eq!(
        hot_reason.map(|reason| reason.message.as_str()),
        Some("repo hotspot with 5 prior commits across 1 authors")
    );
    assert_eq!(report.feature_vector.hotspot_signals, 1);
}

#[test]
fn repo_hotspot_does_not_raise_generic_change_without_semantic_risk() {
    let evidence = RepositoryEvidence {
        gitattributes: GitAttributes::Absent,
        diff: file_diff(
            "src/hot.rs",
            "@@ -1,3 +1,4 @@\n pub fn hot() -> i32 {\n-    5\n+    let next = compute_hot();\n+    next\n }\n",
        ),
        files: vec![about(
            "pub fn hot() -> i32 {\n    5\n}\n",
            "pub fn hot() -> i32 {\n    let next = compute_hot();\n    next\n}\n",
            5,
            "Tomohiro",
        )],
    };

    let report = analyze_request(&range(), &evidence, &[]).expect("analysis should succeed");

    assert!(
        !report
            .reasons
            .iter()
            .any(|reason| reason.kind == ReasonKind::RepoHotspot),
        "reasons were {:?}",
        report.reasons
    );
}

#[test]
fn generated_files_from_gitattributes_are_excluded_from_scoring() {
    let evidence = RepositoryEvidence {
        gitattributes: GitAttributes::Text(String::from("gen/** linguist-generated=true\n")),
        diff: format!(
            "{}{}",
            file_diff("gen/output.go", BUILD_DIFF),
            file_diff(
                "src/lib.rs",
                "@@ -1,3 +1,4 @@\n pub fn score() -> i32 {\n-    1\n+    let next = compute_score();\n+    next\n }\n",
            )
        ),
        files: vec![about(
            "pub fn score() -> i32 {\n    1\n}\n",
            "pub fn score() -> i32 {\n    let next = compute_score();\n    next\n}\n",
            1,
            "Tomohiro",
        )],
    };

    let plugin = GoPlugin::new();
    let report = analyze_request(&range(), &evidence, &[&plugin]).expect("analysis should succeed");

    assert!(
        report
            .by_file
            .iter()
            .all(|file| file.path != "gen/output.go"),
        "by_file was {:?}",
        report.by_file
    );
    assert!(
        report
            .reasons
            .iter()
            .all(|reason| reason.file != "gen/output.go"),
        "reasons were {:?}",
        report.reasons
    );
    assert_eq!(report.by_file.len(), 1, "by_file was {:?}", report.by_file);
}

#[test]
fn generated_files_are_excluded_for_patch_input_when_repo_root_is_known() {
    let patch = file_diff(
        "gen/output.go",
        "@@ -1,3 +1,6 @@\n-func Build() int {\n-    return 1\n-}\n+func Build() int {\n+    if useNewFlow() {\n+        return 2\n+    }\n+    return 1\n+}\n",
    );
    let evidence = RepositoryEvidence {
        gitattributes: GitAttributes::Text(String::from("gen/** linguist-generated=true\n")),
        diff: String::new(),
        files: Vec::new(),
    };
    let plugin = GoPlugin::new();

    let report = analyze_request(
        &AnalyzeRequest {
            input: AnalyzeInput::PatchText { patch: patch.clone() },
            repo_root: Some(String::from("/repo")),
        },
        &evidence,
        &[&plugin],
    )
    .expect("analysis should succeed");

    assert_eq!(report.score, 0, "report was {:?}", report);
    assert!(
        report.by_file.is_empty(),
        "by_file was {:?}",
        report.by_file
    );
    assert!(
        report.reasons.is_empty(),
        "reasons were {:?}",
        report.reasons
    );

    let unknown = analyze_request(
        &AnalyzeRequest { input: AnalyzeInput::PatchText { patch }, repo_root: None },
        &evidence,
        &[],
    )
    .expect("analysis should succeed");
    assert_eq!(unknown.by_file.len(), 1);
}

#[test]
fn generated_file_attributes_can_be_customized_in_config() {
    let config = ScoreConfig {
        schema_version: 1,
        scoring_model_version: String::from("custom-v1"),
        decision_thresholds: DecisionThresholds {
            skip_review_max: 24,
            review_optional_max: 29,
            review_suggested_max: 39,
            review_recommended_max: 59,
        },
        aggregation: AggregationConfig {
            max_score: 100,
            secondary_ratio: Binary64 { bits: 0.2f64.to_bits() },
            secondary_cap: 12,
        },
        gitattributes_skip_attributes: vec![String::from("pr-review-skip")],
        rules: vec![RuleConfig { kind: ReasonKind::ControlFlowChange, score: 65 }],
    };
    let evidence = RepositoryEvidence {
        gitattributes: GitAttributes::Text(String::from(
            "gen/** pr-review-skip\nraw/** linguist-generated=true\n",
        )),
        diff: format!(
            "{}{}",
            file_diff("gen/output.go", BUILD_DIFF),
            file_diff("raw/output.go", BUILD_DIFF)
        ),
        files: vec![about("", "", 1, "Tomohiro")],
    };
    let plugin = GoPlugin::new();

    let report = analyze_request_with_config(&range(), &evidence, &[&plugin], &config)
        .expect("analysis should succeed");

    assert!(
        report
            .by_file
            .iter()
            .all(|file| file.path != "gen/output.go"),
        "by_file was {:?}",
        report.by_file
    );
    assert!(
        report
            .by_file
            .iter()
            .any(|file| file.path == "raw/output.go"),
        "by_file was {:?}",
        report.by_file
    );
}

#[test]
fn medium_semantic_change_with_hotspot_stays_recommended() {
    let evidence = RepositoryEvidence {
        gitattributes: GitAttributes::Absent,
        diff: file_diff(
            "src/hot.rs",
            "@@ -1,3 +1,7 @@\n pub fn hot() -> i32 {\n-    9\n+    let mut value = 0;\n+    if should_use_override() {\n+        value = compute_override();\n+    }\n+    value\n }\n",
        ),
        files: vec![about(
            "pub fn hot() -> i32 {\n    9\n}\n",
            "pub fn hot() -> i32 {\n    let mut value = 0;\n    if should_use_override() {\n        value = compute_override();\n    }\n    value\n}\n",
            9,
            "Tomohiro",
        )],
    };

    let report = analyze_request(&range(), &evidence, &[]).expect("analysis should succeed");

    assert!(report.score < 60, "report was {:?}", report);
    assert_eq!(report.decision.as_str(), "review_recommended");
    assert_eq!(report.score, 42);
    assert_eq!(report.by_file[0].base_score, 30);
    assert_eq!(report.by_file[0].size_modifier, 12);
    assert_eq!(report.by_file[0].hotspot_modifier, 0);
}

#[test]
fn history_adds_what_size_leaves_of_the_cap() {
    let mut evidence = RepositoryEvidence {
        gitattributes: GitAttributes::Absent,
        diff: file_diff("src/api.rs", "@@ -1 +1 @@\n-pub fn run() {\n+pub fn run(strict: bool) {\n"),
        files: vec![about("a\n", "b\n", 12, "Ann")],
    };
    let report = analyze_request(&range(), &evidence, &[]).expect("report");
    assert_eq!(report.by_file[0].base_score, 75);
    assert_eq!(report.by_file[0].size_modifier, 0);
    assert_eq!(report.by_file[0].hotspot_modifier, 8);
    assert_eq!(report.score, 83);

    evidence.files[0].commit_count = String::from("4");
    let report = analyze_request(&range(), &evidence, &[]).expect("report");
    assert_eq!(report.score, 79);

    evidence.files[0].commit_count = String::from("many");
    let report = analyze_request(&range(), &evidence, &[]).expect("report");
    assert_eq!(report.score, 75);
}

#[test]
fn evidence_goes_to_the_file_at_its_position() {
    let evidence = RepositoryEvidence {
        gitattributes: GitAttributes::Absent,
        diff: format!("{}{}", file_diff("src/cold.rs", COLD_DIFF), file_diff("src/hot.rs", HOT_DIFF)),
        files: vec![FileEvidence {
            before_source: None,
            after_source: Some(String::from("x")),
            commit_count: String::from(" 7 \n"),
            author_log: String::from("Ann\n\n  Bob \nAnn\n"),
        }],
    };
    let ctx = build_context(&range(), &evidence, &ScoreConfig::default_v1()).expect("context");
    assert_eq!(ctx.input_kind, InputKind::GitRevisionRange);
    assert_eq!(ctx.repo_root.as_deref(), Some("/repo"));
    assert_eq!(ctx.base_rev.as_deref(), Some("base"));
    assert_eq!(ctx.head_rev.as_deref(), Some("head"));
    assert_eq!(ctx.files.len(), 2);
    assert_eq!(ctx.files[0].after_source.as_deref(), Some("x"));
    assert_eq!(
        ctx.files[0].history,
        Some(FileHistory { prior_commits: 7, prior_authors: 2 })
    );
    assert_eq!(ctx.files[1].history, None);
}

#[test]
fn an_unreadable_attributes_file_is_an_error_only_where_it_is_needed() {
    let mut evidence = RepositoryEvidence {
        gitattributes: GitAttributes::Unreadable(String::from("denied")),
        diff: file_diff("src/hot.rs", HOT_DIFF),
        files: Vec::new(),
    };
    let error = analyze_request(&range(), &evidence, &[]).expect_err("unreadable");
    assert_eq!(error.message(), "io error: denied");

    let mut config = ScoreConfig::default_v1();
    config.gitattributes_skip_attributes = Vec::new();
    assert!(analyze_request_with_config(&range(), &evidence, &[], &config).is_ok());

    evidence.diff = String::new();
    let error = analyze_request(&range(), &evidence, &[]).expect_err("no files");
    assert!(matches!(error, AnalyzeError::InvalidPatch));
}

#[test]
fn a_wrong_pattern_is_an_error() {
    let evidence = RepositoryEvidence {
        gitattributes: GitAttributes::Text(String::from("a[ linguist-generated\n")),
        diff: file_diff("src/hot.rs", HOT_DIFF),
        files: Vec::new(),
    };
    let error = analyze_request(&range(), &evidence, &[]).expect_err("wrong pattern");
    let message = error.message();
    assert!(
        message.starts_with("command failed: invalid .gitattributes pattern `a[`: "),
        "message was {message}"
    );
    assert!(message.contains("unclosed character class"), "message was {message}");
}

#[test]
fn blob_paths_leave_out_the_null_device() {
    assert_eq!(blob_path(&None), None);
    assert_eq!(blob_path(&Some(String::from("/dev/null"))), None);
    assert_eq!(blob_path(&Some(String::from("src/a.rs"))), Some(String::from("src/a.rs")));
}

#[test]
fn changed_files_are_those_that_are_scored() {
    let diff = format!("{}{}", file_diff("gen/a.rs", HOT_DIFF), file_diff("src/a.rs", HOT_DIFF));
    let attributes = GitAttributes::Text(String::from("/gen/** linguist-generated\ngen/** linguist-generated\n"));
    let names = vec![String::from(" linguist-generated ")];
    let files = changed_files(&diff, Some(&attributes), &names).expect("files");
    assert_eq!(files.len(), 1);
    assert_eq!(files[0].path, "src/a.rs");
    let files = changed_files(&diff, None, &names).expect("files");
    assert_eq!(files.len(), 2);
}
