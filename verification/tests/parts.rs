//! The parts that the scorer is made of.

use shiwake::analyze::min_confidence;
use shiwake::config::score_to_decision;
use shiwake::history::file_history;
use shiwake::normalize::{is_refactor_like, normalize_line, normalized_code_lines};
use shiwake::oracle::{
    has_test_expectation_change, normalize_assert_like_line, normalize_test_oracle_line,
    split_top_level_args,
};
use shiwake::order::{same_texts, sort_texts};
use shiwake::patch::{normalize_diff_path, parse_patch, strip_diff_prefix};
use shiwake::scoring::{change_size_weight, change_volume, modifier_cap, repo_hotspot_weight};
use shiwake::signals::{
    approximate_branch_nesting_depth, control_flow_weight, has_public_interface_change,
    is_comment_only, is_comment_or_blank, is_import_line, is_import_only,
    is_internal_or_private_path, is_public_signature_line,
};
use shiwake::{
    digits, text, AnalyzeError, Binary64, ChangedFile, Confidence, Decision, FileHistory,
    ReasonKind, ScoreConfig,
};

fn texts(list: &[&str]) -> Vec<String> {
    list.iter().map(|entry| String::from(*entry)).collect()
}

fn changed(path: &str, added: &[&str], removed: &[&str]) -> ChangedFile {
    ChangedFile {
        path: String::from(path),
        old_path: None,
        new_path: None,
        added: texts(added),
        removed: texts(removed),
        before_source: None,
        after_source: None,
        history: None,
    }
}

const SAMPLES: [&str; 14] = [
    "",
    " ",
    "a",
    " a b ",
    "\t\u{b}x\u{c}\r\n",
    "\u{a0}\u{3000}wide\u{2003}\u{85}",
    "one\ntwo\r\nthree\n",
    "one\ntwo\r",
    "\r\n\n\r",
    "a/b//c/",
    "\u{feff}kept\u{200b}",
    "Stra\u{df}e \u{c4}BC xyz",
    "\u{1f600} \u{1f601}",
    "\n",
];

#[test]
fn text_operations_agree_with_std() {
    for s in SAMPLES {
        assert_eq!(text::trim(s), s.trim());
        assert_eq!(text::trim_start(s), s.trim_start());
        assert_eq!(text::lines(s), s.lines().map(String::from).collect::<Vec<_>>());
        assert_eq!(text::words(s), s.split_whitespace().map(String::from).collect::<Vec<_>>());
        assert_eq!(text::split(s, '/'), s.split('/').map(String::from).collect::<Vec<_>>());
        assert_eq!(text::split_once(s, ' '), s.split_once(' '));
        assert_eq!(text::to_lower(s), s.to_ascii_lowercase());
        assert_eq!(text::first_char(s), s.chars().next());
        assert_eq!(text::count_char(s, 'a'), s.matches('a').count());
        assert_eq!(text::replace_char(s, ' ', '_'), s.replace(' ', "_"));
        for p in SAMPLES {
            assert_eq!(text::contains(s, p), s.contains(p));
            assert_eq!(text::starts_with(s, p), s.starts_with(p));
            assert_eq!(text::ends_with(s, p), s.ends_with(p));
            assert_eq!(text::strip_prefix(s, p), s.strip_prefix(p));
            assert_eq!(text::same(s, p), s == p);
        }
    }
    for code in 0u32..0x3100 {
        if let Some(c) = char::from_u32(code) {
            assert_eq!(text::space(c), c.is_whitespace(), "{code:x}");
        }
    }
    assert_eq!(text::join(&texts(&["a", "b", ""]), ", "), "a, b, ");
}

#[test]
fn numbers_are_written_and_read_as_std_does() {
    for n in [0u128, 7, 10, 255, 65536, u64::MAX as u128, u128::MAX] {
        assert_eq!(digits::write(n, 10), n.to_string());
        assert_eq!(digits::write(n, 16), format!("{n:x}"));
    }
    for s in ["", "0", "42", "+7", "-7", "++7", "+", " 7", "7x", "007", "18446744073709551615", "18446744073709551616"] {
        assert_eq!(digits::parse(s), s.parse::<usize>().ok(), "{s}");
    }
}

#[test]
fn scaling_agrees_with_floating_point() {
    let ratios = [
        0.0, -0.0, 0.2, 0.1, 0.3, 0.5, 0.25, 1.0, 1.5, 2.0, 3.7, -1.0, 1e-9, 1e-300, 1e300, 5e-324, 1.0 / 3.0,
        f64::MAX, f64::MIN_POSITIVE, f64::EPSILON, f64::INFINITY, f64::NEG_INFINITY, f64::NAN, 0.49999999999999994,
        4503599627370497.5, 9007199254740993.0,
    ];
    let counts = [0u32, 1, 2, 3, 5, 7, 15, 25, 30, 60, 61, 99, 1000, 123_457, 4_000_000_001, u32::MAX];
    let caps = [0u32, 1, 12, 100, 65_535, u32::MAX - 1, u32::MAX];
    for ratio in ratios {
        for count in counts {
            for cap in caps {
                let expected = ((count as f64) * ratio).round().min(cap as f64) as u32;
                let scaled = Binary64 { bits: ratio.to_bits() }.scale(count, cap);
                assert_eq!(scaled, expected, "{ratio} * {count} up to {cap}");
            }
        }
    }
    let fifth = Binary64 { bits: 0.2f64.to_bits() };
    for count in 0..2000 {
        assert_eq!(fifth.scale(count, u32::MAX), ((count as f64) * 0.2).round() as u32);
    }
    assert_eq!(fifth.scale(30, 12), 6);
    assert_eq!(fifth.scale(90, 12), 12);
    assert_eq!(ScoreConfig::default_v1().aggregation.secondary_ratio, fifth);
}

#[test]
fn texts_are_sorted_as_std_does() {
    let list = texts(&["b", "", "ab", "a", "\u{e9}", "Z", "a", "\u{1f600}", "abc", "\u{ffff}"]);
    let mut sorted = list.clone();
    sorted.sort();
    assert_eq!(sort_texts(list.clone()), sorted);
    assert!(same_texts(&list, &list));
    assert!(!same_texts(&list, &sorted));
}

#[test]
fn patches_are_read_file_by_file() {
    let files = parse_patch(
        "diff --git a/old.rs b/new.rs\n--- a/old.rs\n+++ b/new.rs\n@@ -1 +1 @@\n-a\n+b\n context\ndiff --git a/x b/x\nrename only\ndiff --git a/gone.rs b/gone.rs\n--- a/gone.rs\n+++ /dev/null\n-c\n",
    )
    .expect("two files");
    assert_eq!(files.len(), 2);
    assert_eq!(files[0].path, "new.rs");
    assert_eq!(files[0].old_path.as_deref(), Some("old.rs"));
    assert_eq!(files[0].added, texts(&["b"]));
    assert_eq!(files[0].removed, texts(&["a"]));
    assert_eq!(files[1].path, "gone.rs");
    assert_eq!(files[1].new_path, None);
    assert!(matches!(parse_patch("nothing"), Err(AnalyzeError::InvalidPatch)));
    assert!(matches!(parse_patch(""), Err(AnalyzeError::InvalidPatch)));
}

#[test]
fn diff_paths_lose_their_prefix() {
    assert_eq!(strip_diff_prefix("a/src/x.rs"), "src/x.rs");
    assert_eq!(strip_diff_prefix("b/src/x.rs"), "src/x.rs");
    assert_eq!(strip_diff_prefix("c/src/x.rs"), "c/src/x.rs");
    assert_eq!(normalize_diff_path("/dev/null"), None);
    assert_eq!(normalize_diff_path("b/x"), Some(String::from("x")));
}

#[test]
fn errors_have_messages() {
    assert_eq!(AnalyzeError::EmptyPatch.message(), "patch is empty");
    assert_eq!(AnalyzeError::InvalidPatch.message(), "patch does not contain any changed files");
    assert_eq!(AnalyzeError::InvalidConfig(String::from("x")).message(), "invalid config: x");
    assert_eq!(AnalyzeError::Io(String::from("x")).message(), "io error: x");
    assert_eq!(AnalyzeError::Git(String::from("x")).message(), "git error: x");
    assert_eq!(AnalyzeError::Utf8(String::from("x")).message(), "utf8 error: x");
    assert_eq!(AnalyzeError::Command(String::from("x")).message(), "command failed: x");
}

#[test]
fn files_are_told_apart_by_path() {
    let language = |path: &str| changed(path, &[], &[]).language();
    assert_eq!(language("a.rs"), "rust");
    assert_eq!(language("a.go"), "go");
    assert_eq!(language("a.ts"), "typescript");
    assert_eq!(language("a.tsx"), "typescript");
    assert_eq!(language("a.py"), "python");
    assert_eq!(language("a.txt"), "unknown");
    assert_eq!(language("rs"), "unknown");
    assert_eq!(language("dir.rs/.rs"), "unknown");
    let is_test = |path: &str| changed(path, &[], &[]).is_test_file();
    assert!(is_test("tests/a.rs") && is_test("pkg/a_test.go") && is_test("src/a.test.ts"));
    assert!(is_test("SRC/A.SPEC.TS"));
    assert!(!is_test("src/latest.rs"));
}

#[test]
fn lines_show_what_they_are() {
    assert!(is_comment_or_blank("  // note") && is_comment_or_blank("# note") && is_comment_or_blank(""));
    assert!(!is_comment_or_blank("let a = 1; // note"));
    assert!(is_import_line("use std::io;") && is_import_line("import x from 'y'"));
    assert!(!is_import_line("reuse();"));
    assert!(is_public_signature_line("pub fn run() {") && is_public_signature_line("export function f() {"));
    assert!(is_public_signature_line("func Run() {") && !is_public_signature_line("func run() {"));
    assert!(is_internal_or_private_path("src/internal/a.go"));
    assert!(!is_internal_or_private_path("src/internals/a.go"));
    assert!(is_comment_only(&changed("a.rs", &["// new", ""], &["// old"])));
    assert!(!is_comment_only(&changed("a.rs", &["x"], &["// old"])));
    assert!(is_import_only(&changed("a.rs", &["use a;"], &["use b;"])));
    assert!(has_public_interface_change(&changed("a.rs", &["pub fn f(x: u8) {"], &["pub fn f() {"])));
    assert!(!has_public_interface_change(&changed("internal/a.go", &["func F(x int) {"], &["func F() {"])));
}

#[test]
fn control_flow_weighs_by_depth() {
    let config = ScoreConfig::default_v1();
    let weight = |lines: &[&str]| control_flow_weight(&changed("a.rs", lines, &[]), &config);
    assert_eq!(weight(&["let a = 1;"]), None);
    assert_eq!(weight(&["return a;"]), None);
    assert_eq!(control_flow_weight(&changed("a.rs", &["return b;"], &["return a;"]), &config), None);
    assert_eq!(weight(&["throw a;"]), Some(65));
    assert_eq!(weight(&["if a {", "  return b;", "}"]), Some(65));
    assert_eq!(weight(&["select {", "case <-a:", "  return b", "}"]), Some(65));
    assert_eq!(weight(&["select {", "case <-a:", "  b()", "}"]), None);
    assert_eq!(weight(&["break;", "return a;"]), Some(30));
    let shallow = ["if a {", "  b = 1;", "}"];
    let deep = ["if a {", "  if b {", "    if c {", "      d = 1;", "    }", "  }", "}"];
    assert_eq!(approximate_branch_nesting_depth(&changed("a.rs", &shallow, &[])), 1);
    assert_eq!(approximate_branch_nesting_depth(&changed("a.rs", &deep, &[])), 3);
    assert!(weight(&shallow) < weight(&deep));
    assert!(weight(&deep) <= Some(65));
}

#[test]
fn shapes_forget_names_numbers_and_strings() {
    assert_eq!(normalize_line("  let total = 42 + price[\"a\\\"b\"];"), "xx=0+x[\"s\"];");
    assert_eq!(normalize_line("let x1 = 'c"), "xx=\"s\"");
    assert_eq!(normalized_code_lines(&texts(&["// note", "a + b", ""])), texts(&["x+x"]));
    assert!(is_refactor_like(&changed("a.rs", &["let total = 1;"], &["let sum = 2;"])));
    assert!(!is_refactor_like(&changed("a.rs", &["let total = 1;"], &["let sum = f(2);"])));
    assert!(!is_refactor_like(&changed("a.rs", &["let total = 1;"], &[])));
}

#[test]
fn arguments_are_split_at_the_top_level() {
    assert_eq!(
        split_top_level_args("a, f(b, c), [d, e], \"x, \\\" y\", "),
        texts(&["a", "f(b, c)", "[d, e]", "\"x, \\\" y\""])
    );
    assert_eq!(split_top_level_args("  "), texts(&[]));
    assert_eq!(split_top_level_args(",a"), texts(&["", "a"]));
    assert_eq!(
        normalize_assert_like_line("assert.Equal(t, 1, f(a, b), \"why %d\", x)"),
        "assert.Equal(t, 1, f(a, b))"
    );
    assert_eq!(normalize_assert_like_line("assert.True()"), "assert.True()");
    assert_eq!(normalize_assert_like_line(") assert.("), ") assert.(");
    assert_eq!(normalize_test_oracle_line("let a = 1;"), None);
    assert_eq!(normalize_test_oracle_line(" expect(a).toBe(1) "), Some(String::from("expect(a).toBe(1)")));
}

#[test]
fn sizes_and_histories_weigh_in_steps() {
    let config = ScoreConfig::default_v1();
    let lines = |n: usize| -> ChangedFile { changed("a.rs", &vec!["x"; n], &[]) };
    let weight = |n: usize| change_size_weight(&lines(n), &config);
    assert_eq!(
        [weight(3), weight(4), weight(9), weight(10), weight(24), weight(25)],
        [None, Some(4), Some(4), Some(8), Some(8), Some(12)]
    );
    assert_eq!(change_volume(&lines(7)), 7);
    let mut file = lines(6);
    file.after_source = Some("l\n".repeat(10));
    assert_eq!(change_size_weight(&file, &config), Some(12));
    file.after_source = Some("l\n".repeat(20));
    assert_eq!(change_size_weight(&file, &config), Some(8));
    file.after_source = Some("l\n".repeat(21));
    assert_eq!(change_size_weight(&file, &config), Some(4));
    let caps: Vec<u32> = [10, 11, 29, 30, 54, 55, 100].iter().map(|base| modifier_cap(*base)).collect();
    assert_eq!(caps, vec![0, 8, 8, 12, 12, 18, 18]);
    let hotspot = |path: &str, commits: usize| {
        let mut file = changed(path, &["x"], &[]);
        file.history = Some(FileHistory { prior_commits: commits, prior_authors: 1 });
        repo_hotspot_weight(&file, &config)
    };
    assert_eq!([hotspot("a.rs", 3), hotspot("a.rs", 4), hotspot("a.rs", 10)], [None, Some(4), Some(8)]);
    assert_eq!(hotspot("tests/a.rs", 10), Some(3));
    assert_eq!(repo_hotspot_weight(&lines(1), &config), None);
}

#[test]
fn histories_count_commits_and_authors() {
    let history = |count: &str, log: &str| file_history(count, log);
    assert_eq!(history("12\n", "Ann\nBob\nAnn\n"), FileHistory { prior_commits: 12, prior_authors: 2 });
    assert_eq!(history("", ""), FileHistory { prior_commits: 0, prior_authors: 0 });
    assert_eq!(history("x", " Ann \n\n   \nAnn\n"), FileHistory { prior_commits: 0, prior_authors: 1 });
}

#[test]
fn decisions_follow_the_bands() {
    let bands = ScoreConfig::default_v1().decision_thresholds;
    let decide = |score: u32| score_to_decision(score, &bands);
    assert_eq!([decide(0), decide(24)], [Decision::SkipReview, Decision::SkipReview]);
    assert_eq!([decide(25), decide(29)], [Decision::ReviewOptional, Decision::ReviewOptional]);
    assert_eq!([decide(30), decide(39)], [Decision::ReviewSuggested, Decision::ReviewSuggested]);
    assert_eq!([decide(40), decide(59)], [Decision::ReviewRecommended, Decision::ReviewRecommended]);
    assert_eq!([decide(60), decide(u32::MAX)], [Decision::ReviewRequired, Decision::ReviewRequired]);
    assert_eq!(min_confidence(&Confidence::High, &Confidence::Low), Confidence::Low);
    assert_eq!(min_confidence(&Confidence::Medium, &Confidence::High), Confidence::Medium);
    assert_eq!(min_confidence(&Confidence::High, &Confidence::High), Confidence::High);
}

#[test]
fn a_missing_rule_weighs_nothing() {
    let mut config = ScoreConfig::default_v1();
    assert_eq!(config.score_for(&ReasonKind::PublicInterfaceChange), 75);
    config.rules.retain(|rule| rule.kind != ReasonKind::PublicInterfaceChange);
    assert_eq!(config.score_for(&ReasonKind::PublicInterfaceChange), 0);
    assert_eq!(config.gitattributes_skip_attributes, texts(&["linguist-generated"]));
}

#[test]
fn expectations_count_without_order_and_message() {
    let test = |added: &[&str], removed: &[&str]| has_test_expectation_change(&changed("a_test.go", added, removed));
    assert!(test(&["assert.Equal(t, 2, a)"], &["assert.Equal(t, 1, a)"]));
    assert!(!test(&["assert.Equal(t, 1, a, \"new\")"], &["assert.Equal(t, 1, a, \"old\")"]));
    assert!(!test(&["require.NoError(t, e)", "assert.True(t, a)"], &["assert.True(t, a)", "require.NoError(t, e)"]));
    assert!(!test(&["x := 1"], &["x := 2"]));
}
