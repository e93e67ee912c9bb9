//! The laws of the library on concrete values.

use shiwake::aggregate::aggregate_scores;
use shiwake::analyze::score_context;
use shiwake::config::score_to_decision;
use shiwake::normalize::{is_refactor_like, normalize_line};
use shiwake::oracle::has_test_expectation_change;
use shiwake::patch::parse_patch;
use shiwake::plugins::go::GoPlugin;
use shiwake::plugins::runtime::representative_paths_by_dir;
use shiwake::scoring::FileScoreState;
use shiwake::{
    analyze_patch, analyze_patch_with_config, digits, text, AggregationConfig, AnalysisContext,
    AnalyzeError, Binary64, ChangedFile, Confidence, Decision, InputKind, PluginAnalysis,
    PluginFinding, PluginScoreMode, ReasonKind, ScoreConfig,
};

fn file_patch(path: &str, removed: &[&str], added: &[&str]) -> String {
    let mut patch = format!("diff --git a/{path} b/{path}\n--- a/{path}\n+++ b/{path}\n@@ -1 +1 @@\n");
    for line in removed {
        patch.push_str(&format!("-{line}\n"));
    }
    for line in added {
        patch.push_str(&format!("+{line}\n"));
    }
    patch
}

fn state(score: u32, has_semantic_risk: bool) -> FileScoreState {
    FileScoreState {
        base_score: score,
        size_modifier: 0,
        hotspot_modifier: 0,
        plugin_contribution: 0,
        has_semantic_risk,
        score,
    }
}

fn aggregation() -> AggregationConfig {
    ScoreConfig::default_v1().aggregation
}

fn context(files: Vec<ChangedFile>) -> AnalysisContext {
    AnalysisContext {
        input_kind: InputKind::PatchText,
        repo_root: None,
        base_rev: None,
        head_rev: None,
        files,
    }
}

fn finding(path: &str, mode: PluginScoreMode, weight: u32) -> PluginFinding {
    PluginFinding {
        path: String::from(path),
        kind: ReasonKind::PluginSignal,
        message: String::from("signal"),
        weight_override: Some(weight),
        score_mode: mode,
    }
}

#[test]
fn the_total_is_bounded_and_ignores_order() {
    let files = vec![state(40, true), state(90, false), state(20, false), state(95, false)];
    let mut turned = files.clone();
    turned.reverse();
    assert_eq!(aggregate_scores(&files, &aggregation()), (100, 12));
    assert_eq!(aggregate_scores(&files, &aggregation()), aggregate_scores(&turned, &aggregation()));
    assert_eq!(aggregate_scores(&vec![state(40, true), state(20, false)], &aggregation()), (44, 4));
    assert_eq!(aggregate_scores(&vec![state(40, false), state(20, false)], &aggregation()), (40, 0));
    assert_eq!(aggregate_scores(&vec![state(40, true)], &aggregation()), (40, 0));
    assert_eq!(aggregate_scores(&Vec::new(), &aggregation()), (0, 0));
    let steep = AggregationConfig {
        max_score: 1000,
        secondary_ratio: Binary64 { bits: 2.0f64.to_bits() },
        secondary_cap: 1000,
    };
    assert_eq!(aggregate_scores(&vec![state(90, true), state(80, true), state(7, true)], &steep), (164, 74));
}

#[test]
fn base_scores_are_those_of_the_strongest_reason() {
    let patch = file_patch("src/api.rs", &["pub fn run() {", "a();"], &["pub fn run(x: u8) {", "if x { b = 1; }"]);
    let report = analyze_patch(&patch, &[]).expect("report");
    let strongest = report
        .reasons
        .iter()
        .filter(|reason| reason.kind != ReasonKind::ChangeSize)
        .map(|reason| reason.weight)
        .max();
    assert_eq!(strongest, Some(report.by_file[0].base_score));
    assert_eq!(report.by_file[0].base_score, 75);
    let entry = &report.by_file[0];
    assert_eq!(
        entry.score,
        entry.base_score + entry.size_modifier + entry.hotspot_modifier + entry.plugin_contribution
    );
    assert!(entry.size_modifier + entry.hotspot_modifier <= 18);
    assert_eq!(entry.hotspot_modifier, 0);
}

#[test]
fn reports_cover_the_files() {
    let patch = format!(
        "{}{}",
        file_patch("src/a.rs", &["return 1;"], &["return 2 + f();"]),
        file_patch("src/b.rs", &["let a = 1;"], &["let a = f(1);"])
    );
    let report = analyze_patch(&patch, &[]).expect("report");
    assert_eq!(report.by_file.len(), 2);
    assert_eq!(report.by_file[0].path, "src/a.rs");
    assert_eq!(report.by_file[1].path, "src/b.rs");
    assert_eq!(report.feature_vector.files_changed, 2);
    assert_eq!(report.feature_vector.plugin_signals, 0);
    assert!(report.by_file.iter().all(|file| file.score <= report.score));
    assert!(report.score <= 100);

    let alone = analyze_patch(&file_patch("src/b.rs", &["let a = 1;"], &["let a = f(1);"]), &[]).expect("report");
    assert_eq!(alone.by_file[0].score, report.by_file[1].score);
}

#[test]
fn findings_raise_scores_and_lower_confidence() {
    let files = parse_patch(&file_patch("src/a.rs", &["let a = 1;"], &["let a = f(1);"])).expect("files");
    let config = ScoreConfig::default_v1();
    let plain = score_context(&context(files.clone()), &Vec::new(), &config);
    assert_eq!((plain.score, plain.confidence), (20, Confidence::High));
    let analyses = vec![
        PluginAnalysis::new(Confidence::Medium, vec![finding("src/a.rs", PluginScoreMode::Base, 35)]),
        PluginAnalysis::new(Confidence::High, vec![finding("src/a.rs", PluginScoreMode::Additive, 7)]),
    ];
    let report = score_context(&context(files.clone()), &analyses, &config);
    assert_eq!((report.score, report.confidence), (42, Confidence::Medium));
    assert_eq!(report.by_file[0].base_score, 35);
    assert_eq!(report.by_file[0].plugin_contribution, 7);
    assert_eq!(report.feature_vector.plugin_signals, 2);
    let weak = vec![PluginAnalysis::new(Confidence::Low, vec![finding("src/a.rs", PluginScoreMode::Base, 1)])];
    let report = score_context(&context(files.clone()), &weak, &config);
    assert_eq!((report.score, report.confidence), (20, Confidence::Low));
    let strong = vec![PluginAnalysis::new(Confidence::High, vec![finding("src/a.rs", PluginScoreMode::Additive, u32::MAX)])];
    assert_eq!(score_context(&context(files), &strong, &config).score, 100);
}

#[test]
fn the_built_in_model_keeps_its_bands() {
    let score = |path: &str, removed: &[&str], added: &[&str]| {
        let report = analyze_patch(&file_patch(path, removed, added), &[]).expect("report");
        (report.score, report.decision)
    };
    assert_eq!(score("src/a.rs", &["// a"], &["// b", ""]), (0, Decision::SkipReview));
    assert_eq!(score("src/a.rs", &["use a::b;"], &["use a::c;", "use a::d;"]), (5, Decision::SkipReview));
    assert_eq!(score("src/a.rs", &["let a = b;"], &["let c = d;"]), (10, Decision::SkipReview));
    let many: Vec<String> = (0..80).map(|n| format!("call_{n}(a + {n}, \"b\");")).collect();
    let many: Vec<&str> = many.iter().map(|line| line.as_str()).collect();
    assert_eq!(score("src/a.rs", &[], &many), (24, Decision::SkipReview));
    assert_eq!(score("src/a.rs", &["pub fn a() {"], &["pub fn a(b: u8) {"]), (75, Decision::ReviewRequired));
    assert_eq!(score("src/a.rs", &["a();"], &["throw b();"]), (65, Decision::ReviewRequired));
    assert_eq!(score("src/a.rs", &["a();"], &["return b();"]), (20, Decision::SkipReview));
    assert_eq!(score("src/a.rs", &["return a"], &["return b"]), (10, Decision::SkipReview));
    assert_eq!(
        score("tests/a.rs", &["assert.Equal(t, 1, a)"], &["assert.Equal(t, g(), a)"]).0,
        55
    );
    let (risk, decision) = score("src/a.rs", &["a();"], &["if x {", "a = b();", "}"]);
    assert!(risk >= 30);
    assert!(decision != Decision::SkipReview && decision != Decision::ReviewOptional);
}

#[test]
fn decisions_never_fall_as_scores_rise() {
    let bands = ScoreConfig::default_v1().decision_thresholds;
    let rank = |decision: Decision| match decision {
        Decision::SkipReview => 0,
        Decision::ReviewOptional => 1,
        Decision::ReviewSuggested => 2,
        Decision::ReviewRecommended => 3,
        Decision::ReviewRequired => 4,
    };
    for score in 0..120 {
        assert!(rank(score_to_decision(score, &bands)) <= rank(score_to_decision(score + 1, &bands)));
    }
}

#[test]
fn moved_lines_change_no_expectation() {
    let lines = ["assert.True(t, a)", "x := 1", "assert.True(t, a)", "require.NoError(t, e)"];
    let moved = [lines[3], lines[0], lines[2], lines[1]];
    let files = parse_patch(&file_patch("a_test.go", &lines, &moved)).expect("files");
    assert!(!has_test_expectation_change(&files[0]));
    let fewer = parse_patch(&file_patch("a_test.go", &lines, &moved[..2])).expect("files");
    assert!(has_test_expectation_change(&fewer[0]));
}

#[test]
fn directions_do_not_matter() {
    let files = parse_patch(&file_patch("a_test.go", &["assert.True(t, a)", "x := 1"], &["assert.True(t, b)", "y := 2"])).expect("files");
    let file = files[0].clone();
    let back = ChangedFile { added: file.removed.clone(), removed: file.added.clone(), ..file.clone() };
    assert_eq!(is_refactor_like(&file), is_refactor_like(&back));
    assert_eq!(has_test_expectation_change(&file), has_test_expectation_change(&back));
    assert!(is_refactor_like(&file) && has_test_expectation_change(&file));
    assert_eq!(normalize_line("sum = one + 1"), normalize_line("total = two + 20"));
}

#[test]
fn patches_are_refused_when_blank_or_without_files() {
    assert!(matches!(analyze_patch("", &[]), Err(AnalyzeError::EmptyPatch)));
    assert!(matches!(analyze_patch(" \n\t\n", &[]), Err(AnalyzeError::EmptyPatch)));
    assert!(matches!(analyze_patch("hello", &[]), Err(AnalyzeError::InvalidPatch)));
    let only_header = "diff --git a/x b/x\n--- a/x\n+++ b/x\n";
    assert!(matches!(analyze_patch(only_header, &[]), Err(AnalyzeError::InvalidPatch)));
}

#[test]
fn written_text_is_read_back() {
    let lines: Vec<String> = ["a", "", "b c", "\rd"].iter().map(|line| String::from(*line)).collect();
    let written: String = lines.iter().map(|line| format!("{line}\n")).collect();
    assert_eq!(text::lines(&written), lines);
    for s in ["a/b", "/", "", "a//"] {
        assert_eq!(text::join(&text::split(s, '/'), "/"), s);
    }
    for n in [0usize, 1, 10, 12345, usize::MAX] {
        assert_eq!(digits::parse(&digits::write(n as u128, 10)), Some(n));
    }
    let files = parse_patch(&file_patch("src/a.rs", &["x", "-y"], &["z", ""])).expect("files");
    assert_eq!(files[0].removed, vec![String::from("x"), String::from("-y")]);
    assert_eq!(files[0].added, vec![String::from("z"), String::new()]);
}

#[test]
fn each_directory_is_represented_once() {
    let paths: Vec<String> = ["a/1", "b/1", "a/2", "c", "b/2", "d"].iter().map(|path| String::from(*path)).collect();
    let mut dirs: Vec<String> = representative_paths_by_dir(&paths).into_iter().map(|entry| entry.0).collect();
    dirs.sort();
    assert_eq!(dirs, vec![String::from("."), String::from("a"), String::from("b")]);
}

#[test]
fn tests_weigh_half_and_larger_changes_no_less() {
    let size = |path: &str, n: usize| {
        let mut lines = vec!["throw f();"];
        lines.resize(n, "a();");
        analyze_patch(&file_patch(path, &[], &lines), &[]).expect("report").by_file[0].size_modifier
    };
    let sizes: Vec<u32> = [1, 4, 10, 25].iter().map(|n| size("src/a.rs", *n)).collect();
    assert_eq!(sizes, vec![0, 4, 8, 12]);
    let halves: Vec<u32> = [1, 4, 10, 25].iter().map(|n| size("tests/a.rs", *n)).collect();
    assert_eq!(halves, vec![0, 2, 4, 6]);
}

#[test]
fn a_low_greatest_score_cuts_every_score() {
    let mut config = ScoreConfig::default_v1();
    config.aggregation.max_score = 50;
    let patch = file_patch("src/a.go", &["func Run() {"], &["func Run(a int) {"]);
    let report = analyze_patch_with_config(&patch, &[&GoPlugin::new()], &config).expect("report");
    assert_eq!(report.score, 50);
    assert_eq!(report.by_file[0].score, 50);
    assert_eq!(report.confidence, Confidence::Medium);
}

#[test]
fn reports_explain_their_scores() {
    let patch = format!(
        "{}{}{}",
        file_patch("src/a.rs", &["pub fn a() {"], &["pub fn a(b: u8) {", "c();", "d();"]),
        file_patch("src/b.rs", &["let a = 1;"], &["let a = f(1);"]),
        file_patch("src/c.rs", &["// a"], &["// b"])
    );
    let report = analyze_patch(&patch, &[]).expect("report");
    let top = report.by_file.iter().map(|file| file.score).max().expect("three files");
    assert_eq!((top, report.secondary_contribution), (79, 4));
    assert_eq!(report.score, top + report.secondary_contribution);
    for file in &report.by_file {
        assert!(report.reasons.iter().any(|reason| reason.file == file.path && reason.weight == file.base_score));
        assert!(
            file.size_modifier == 0
                || report.reasons.iter().any(|reason| reason.file == file.path
                    && reason.kind == ReasonKind::ChangeSize
                    && reason.weight == file.size_modifier)
        );
    }
    assert_eq!(report.reasons[1].message, "change size increased review load (4 changed lines)");
}

#[test]
fn models_see_the_same_changes() {
    let patch = file_patch("src/a.rs", &["pub fn a() {"], &["pub fn a(b: u8) {", "return b;"]);
    let mut light = ScoreConfig::default_v1();
    light.rules = Vec::new();
    let report = analyze_patch(&patch, &[]).expect("report");
    let other = analyze_patch_with_config(&patch, &[], &light).expect("report");
    assert_eq!(other.score, 0);
    assert_eq!(report.feature_vector.public_signature_changes, 1);
    assert_eq!(other.feature_vector.public_signature_changes, 1);
    assert_eq!(other.feature_vector.control_flow_changes, report.feature_vector.control_flow_changes);
    assert_eq!(other.feature_vector.assertion_changes, report.feature_vector.assertion_changes);
}

#[test]
fn plugins_never_lower_a_report() {
    let patch = format!(
        "{}{}",
        file_patch("src/a.rs", &["a();"], &["throw b();"]),
        file_patch("src/b.rs", &["let a = 1;"], &["let a = f(1);"])
    );
    let files = parse_patch(&patch).expect("files");
    let config = ScoreConfig::default_v1();
    let plain = score_context(&context(files.clone()), &Vec::new(), &config);
    assert_eq!((plain.score, plain.secondary_contribution), (69, 4));
    for weight in [0, 1, 19, 25, 40, 100] {
        for mode in [PluginScoreMode::Base, PluginScoreMode::Additive] {
            for path in ["src/a.rs", "src/b.rs", "src/c.rs"] {
                let analyses = vec![PluginAnalysis::new(Confidence::High, vec![finding(path, mode, weight)])];
                let report = score_context(&context(files.clone()), &analyses, &config);
                assert!(report.score >= plain.score);
                assert!(report.by_file[0].score >= plain.by_file[0].score);
                assert!(report.by_file[1].score >= plain.by_file[1].score);
            }
        }
    }
}

#[test]
fn only_negative_infinity_scales_a_greater_count_to_less() {
    let below = Binary64 { bits: f64::NEG_INFINITY.to_bits() };
    assert_eq!((below.scale(0, 12), below.scale(1, 12)), (12, 0));
    for ratio in [0.2, 0.0, -1.0, 1e300, f64::INFINITY, f64::NAN, 1.0 / 3.0] {
        let ratio = Binary64 { bits: ratio.to_bits() };
        for count in 0..200 {
            assert!(ratio.scale(count, 12) <= ratio.scale(count + 1, 12));
        }
    }
}
