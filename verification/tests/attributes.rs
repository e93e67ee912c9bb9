//! Rules of `.gitattributes` files.

use shiwake::gitattributes::{load_generated_file_matcher, parse_gitattributes_attribute};
use shiwake::GitAttributes;

fn generated(contents: &str, path: &str) -> bool {
    let attributes = GitAttributes::Text(String::from(contents));
    let names = vec![String::from("linguist-generated")];
    match load_generated_file_matcher(&attributes, &names).expect("rules") {
        Some(matcher) => matcher.is_generated(path),
        None => false,
    }
}

#[test]
fn attributes_are_set_and_unset() {
    let parse = |attribute: &str| parse_gitattributes_attribute(attribute, "linguist-generated");
    assert_eq!(parse("linguist-generated"), Some(true));
    assert_eq!(parse("-linguist-generated"), Some(false));
    assert_eq!(parse("!linguist-generated"), Some(false));
    assert_eq!(parse("linguist-generated=true"), Some(true));
    assert_eq!(parse("linguist-generated=false"), Some(false));
    assert_eq!(parse("linguist-generated=unset"), Some(false));
    assert_eq!(parse("linguist-generated="), Some(true));
    assert_eq!(parse("text"), None);
    assert_eq!(parse("linguist-vendored=true"), None);
}

#[test]
fn later_rules_override_earlier_ones() {
    let contents = "gen/** linguist-generated=true\ngen/keep.go linguist-generated=false\n";
    assert!(generated(contents, "gen/a.go"));
    assert!(!generated(contents, "gen/keep.go"));
    assert!(!generated(contents, "src/a.go"));
    let reversed = "gen/keep.go linguist-generated=false\ngen/** linguist-generated=true\n";
    assert!(generated(reversed, "gen/keep.go"));
}

#[test]
fn patterns_without_a_slash_match_at_any_depth() {
    let contents = "schema.rs linguist-generated\n";
    assert!(generated(contents, "schema.rs"));
    assert!(generated(contents, "src/db/schema.rs"));
    assert!(!generated(contents, "src/schema.rs.txt"));
    let contents = "db/schema.rs linguist-generated\n";
    assert!(generated(contents, "db/schema.rs"));
    assert!(!generated(contents, "src/db/schema.rs"));
}

#[test]
fn globs_match_as_globset_says() {
    assert!(generated("*.pb.go linguist-generated\n", "api/v1/service.pb.go"));
    assert!(generated("{a,b}/?.rs linguist-generated\n", "b/x.rs"));
    assert!(!generated("{a,b}/?.rs linguist-generated\n", "c/x.rs"));
    assert!(generated("[a-c].rs linguist-generated\n", "src/b.rs"));
    assert!(generated("gen/** linguist-generated\n", "gen\\a.rs"));
}

#[test]
fn comments_blank_lines_and_other_attributes_are_skipped() {
    let contents = "# gen/** linguist-generated\n\n   \ngen/** text eol=lf\n";
    assert!(!generated(contents, "gen/a.go"));
    let attributes = GitAttributes::Text(String::from(contents));
    let names = vec![String::from("linguist-generated")];
    assert!(load_generated_file_matcher(&attributes, &names).expect("rules").is_none());
}

#[test]
fn the_last_attribute_of_a_line_counts() {
    assert!(!generated("gen/** linguist-generated -linguist-generated\n", "gen/a.go"));
    assert!(generated("gen/** -linguist-generated linguist-generated\n", "gen/a.go"));
}

#[test]
fn names_are_trimmed_and_blank_ones_ignored() {
    let attributes = GitAttributes::Text(String::from("gen/** mine\n"));
    let names = vec![String::from("  "), String::from(" mine ")];
    let matcher = load_generated_file_matcher(&attributes, &names)
        .expect("rules")
        .expect("one rule");
    assert!(matcher.is_generated("gen/a.go"));
    let blank = vec![String::from("  ")];
    assert!(load_generated_file_matcher(&attributes, &blank).expect("rules").is_none());
    assert!(load_generated_file_matcher(&GitAttributes::Absent, &names).expect("rules").is_none());
    assert!(load_generated_file_matcher(&attributes, &Vec::new()).expect("rules").is_none());
}

#[test]
fn wrong_and_too_large_patterns_are_errors() {
    let names = vec![String::from("linguist-generated")];
    let load = |contents: String| load_generated_file_matcher(&GitAttributes::Text(contents), &names);
    let error = load(String::from("{a linguist-generated\n")).expect_err("unclosed group");
    assert!(error.message().contains("invalid .gitattributes pattern `{a`: "), "{}", error.message());
    let nested = |depth: usize, inner: &str| format!("{}{inner}{} linguist-generated\n", "{".repeat(depth), "}".repeat(depth));
    let error = load(nested(1001, "a")).expect_err("nested too deep");
    assert!(error.message().ends_with("`: pattern is too large"));
    assert!(load(nested(900, "a")).is_err());
    assert!(generated(&nested(100, "a"), "src/a"));
}

#[test]
fn errors_name_the_pattern_and_what_is_wrong() {
    let names = vec![String::from("linguist-generated")];
    let message = |pattern: &str| {
        let contents = GitAttributes::Text(format!("{pattern} linguist-generated\n"));
        load_generated_file_matcher(&contents, &names).expect_err("wrong pattern").message()
    };
    let deep = |inner: &str| format!("{}{inner}{}", "{".repeat(3000), "}".repeat(3000));
    let wrong = [
        String::from("a["),
        String::from("[z-a]"),
        String::from("a}"),
        String::from("{a"),
        String::from("{{}{,}a"),
        String::from("{a}}{"),
        String::from("{a,[z-a]}"),
        "{".repeat(3000),
        format!("{}[", deep("a")),
        format!("{}}}", deep("")),
    ];
    let kinds = [
        "unclosed character class; missing ']'",
        "invalid range; 'z' > 'a'",
        "unopened alternate group; missing '{' (maybe escape '}' with '[}]'?)",
        "unclosed alternate group; missing '}' (maybe escape '{' with '[{]'?)",
        "unclosed alternate group; missing '}' (maybe escape '{' with '[{]'?)",
        "unopened alternate group; missing '{' (maybe escape '}' with '[}]'?)",
        "invalid range; 'z' > 'a'",
        "unclosed alternate group; missing '}' (maybe escape '{' with '[{]'?)",
        "unclosed character class; missing ']'",
        "unopened alternate group; missing '{' (maybe escape '}' with '[}]'?)",
    ];
    for (pattern, kind) in wrong.iter().zip(kinds) {
        assert!(
            message(pattern).ends_with(&format!(
                "invalid .gitattributes pattern `{pattern}`: error parsing glob '{pattern}': {kind}"
            )),
            "{}",
            message(pattern)
        );
    }
    for pattern in &wrong[..7] {
        let error = globset::Glob::new(pattern).err().expect("wrong pattern");
        assert!(message(pattern).ends_with(&error.to_string()), "{error}");
    }
}

#[test]
fn groups_without_content_nest_to_any_depth() {
    let deep = |inner: &str| format!("{}{inner}{}", "{".repeat(5000), "}".repeat(5000));
    assert!(generated(&format!("a{}b linguist-generated\n", deep("")), "src/ab"));
    assert!(generated(&format!("a{}b linguist-generated\n", deep(",{},{,}")), "src/ab"));
    assert!(generated(&format!("{{x,{},y}}b linguist-generated\n", deep("")), "yb"));
    assert!(!generated(&format!("{{x,{},y}}b linguist-generated\n", deep("")), "b"));
    assert!(!generated(&format!("a{}b linguist-generated\n", deep("")), "ab{}"));
}

/// What a matcher of the pattern itself says.
fn matches(pattern: &str, path: &str) -> bool {
    globset::Glob::new(pattern).expect("pattern").compile_matcher().is_match(path)
}

#[test]
fn rules_match_as_a_matcher_of_their_pattern() {
    let patterns = [
        "/**", "**/", "**/**/", "**/**/**/", "**/**", "a/**", "a/**/", "a/**/**", "**/a", "**/a/", "**/a/**",
        "**/*", "**/*.rs", "*/", "/", "//", "***/", "**//", "**/*/", "*/**/", "**/{}", "{}**/", "{**/}", "{}/**",
        "{**/,a/}", "a/{b/**,c}", "{a/**,b}/c", "{a,**}/b", "a/{,{}}b", "a/{{},b}", "{{}}/**/", "{{{}},**/a}/",
        "a/[!b]", "a/[]b]", "a/b\\*", "a/?", "a/..", "**/..", "**/*.", "a/{b,c}{,d}", "**/\\{a", "[{]/**",
    ];
    let paths = [
        "", "/", "a", "a/", "a/b", "b/a", "a/b/", "a/b/c", "a/..", "..", "a/b/..", "/a", "/a/", "x/y/a/z", "a.rs",
        "x/a.rs", "b/c", "a/b*", "a/]", "x/{a", "{/b", "a/bd", "a/{}b", "a/b{}", "**/", "a//", "//",
    ];
    for pattern in patterns {
        for path in paths {
            assert_eq!(
                generated(&format!("{pattern} linguist-generated\n"), path),
                matches(pattern, path),
                "{pattern} on {path}"
            );
        }
    }
}

#[test]
fn pieces_for_any_directory_alone_match_any_path() {
    for pattern in ["**/", "**/**/", "**/**/**/"] {
        let contents = format!("{pattern} linguist-generated\n");
        assert!(generated(&contents, "a.go") && generated(&contents, "src/a.go"));
    }
    assert!(!generated("**/{} linguist-generated\n", "src/a.go"));
    assert!(!generated("**// linguist-generated\n", "src/a.go"));
}

#[test]
fn groups_side_by_side_do_not_count_as_nested() {
    let contents = format!("{} linguist-generated\n", "{a,b}".repeat(1001));
    assert!(generated(&contents, &"ab".repeat(501)[..1001]));
    assert!(!generated(&contents, &"ab".repeat(500)));
    let escaped = format!("{} linguist-generated\n", "\\{".repeat(1001));
    assert!(generated(&escaped, &"{".repeat(1001)));
    let classes = format!("{} linguist-generated\n", "[]{}]".repeat(1001));
    assert!(generated(&classes, &"{".repeat(1001)));
    assert!(generated("[!]{] linguist-generated\n", "}"));
}

#[test]
fn escaped_and_bracketed_braces_close_no_group() {
    let names = vec![String::from("linguist-generated")];
    let load = |contents: String| load_generated_file_matcher(&GitAttributes::Text(contents), &names);
    for brace in ["{\\}", "{[}]", "{[!}]", "{[]}]"] {
        let contents = format!("{}{} linguist-generated\n", brace.repeat(1001), "}".repeat(1001));
        let error = load(contents).expect_err("nested too deep");
        assert!(error.message().ends_with("`: pattern is too large"));
    }
}

#[test]
fn patterns_match_paths_that_end_in_dots() {
    assert!(generated("*. linguist-generated\n", "a/.."));
    assert!(generated(".. linguist-generated\n", "a/.."));
    assert!(generated("**/.. linguist-generated\n", "a/b/.."));
    assert!(generated("*.. linguist-generated\n", "a/.."));
    assert!(generated("a/** linguist-generated\n", "a/.."));
    assert!(!generated("*.rs linguist-generated\n", "a/.."));
}

#[test]
fn the_empty_group_changes_nothing() {
    assert!(generated("** linguist-generated\n", "a/b"));
    assert!(generated("**/** linguist-generated\n", "a/b"));
    assert!(generated("a/**/** linguist-generated\n", "a/b"));
    assert!(!generated("a/** linguist-generated\n", "a"));
    assert!(!generated("a/b linguist-generated\n", "a/b{}"));
    assert!(generated("a/b{} linguist-generated\n", "a/b"));
    let names = vec![String::from("linguist-generated")];
    let contents = GitAttributes::Text(String::from("a\\ linguist-generated\n"));
    let error = load_generated_file_matcher(&contents, &names).expect_err("dangling escape");
    assert!(error.message().contains("invalid .gitattributes pattern `a\\`: "));
    assert!(!error.message().contains("{}"));
}
