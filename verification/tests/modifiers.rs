//! What size and history add to any base score.

use shiwake::scoring::{
    comment_only_score, compute_hotspot_modifier, compute_modifiers, compute_size_modifier, BaseScoring,
};
use shiwake::{ChangedFile, FeatureVector, FileHistory, ReasonKind, RuleConfig, ScoreConfig};

fn file(lines: usize, prior_commits: usize) -> ChangedFile {
    ChangedFile {
        path: String::from("src/a.rs"),
        old_path: None,
        new_path: None,
        added: vec![String::from("run();"); lines],
        removed: Vec::new(),
        before_source: None,
        after_source: None,
        history: Some(FileHistory { prior_commits, prior_authors: 3 }),
    }
}

fn base(base_score: u32, has_semantic_risk: bool, refactor_like: bool) -> BaseScoring {
    BaseScoring { base_score, has_semantic_risk, refactor_like }
}

fn size(file: &ChangedFile, base: &BaseScoring, cap: u32) -> (u32, usize, usize) {
    let mut reasons = Vec::new();
    let mut features = FeatureVector::default();
    let config = ScoreConfig::default_v1();
    let modifier = compute_size_modifier(file, base, cap, &mut reasons, &mut features, &config);
    assert!(reasons.iter().all(|reason| reason.kind == ReasonKind::ChangeSize && reason.weight == modifier));
    (modifier, reasons.len(), features.size_signals)
}

fn hotspot(file: &ChangedFile, base: &BaseScoring, cap: u32, used: u32) -> (u32, usize, usize) {
    let mut reasons = Vec::new();
    let mut features = FeatureVector::default();
    let config = ScoreConfig::default_v1();
    let modifier = compute_hotspot_modifier(file, base, cap, used, &mut reasons, &mut features, &config);
    assert!(reasons.iter().all(|reason| reason.kind == ReasonKind::RepoHotspot && reason.weight == modifier));
    (modifier, reasons.len(), features.hotspot_signals)
}

#[test]
fn size_adds_up_to_any_cap() {
    let file = file(12, 0);
    assert_eq!(size(&file, &base(7, true, false), 100), (8, 1, 1));
    assert_eq!(size(&file, &base(7, true, false), 5), (5, 1, 1));
    assert_eq!(size(&file, &base(7, true, false), 0), (0, 0, 0));
    assert_eq!(size(&file, &base(7, false, false), 100), (3, 1, 1));
    assert_eq!(size(&file, &base(7, true, true), 100), (0, 0, 0));
}

#[test]
fn history_adds_what_any_size_leaves_of_any_cap() {
    let busy = file(12, 12);
    assert_eq!(hotspot(&busy, &base(7, true, false), 100, 0), (8, 1, 1));
    assert_eq!(hotspot(&busy, &base(7, true, false), 10, 4), (6, 1, 1));
    assert_eq!(hotspot(&busy, &base(7, true, false), 10, 10), (0, 0, 0));
    assert_eq!(hotspot(&busy, &base(7, true, false), 10, 20), (0, 0, 0));
    assert_eq!(hotspot(&busy, &base(7, false, false), 100, 0), (0, 0, 0));
    assert_eq!(hotspot(&busy, &base(7, true, true), 100, 0), (0, 0, 0));
    assert_eq!(hotspot(&file(12, 3), &base(7, true, false), 100, 0), (0, 0, 0));
}

#[test]
fn modifiers_follow_the_base_they_are_given() {
    let file = file(12, 12);
    let config = ScoreConfig::default_v1();
    let modifiers = |base: &BaseScoring| {
        let mut reasons = Vec::new();
        let mut features = FeatureVector::default();
        let added = compute_modifiers(&file, base, &mut reasons, &mut features, &config);
        let told: Vec<(ReasonKind, u32)> = reasons.iter().map(|reason| (reason.kind, reason.weight)).collect();
        (added, told)
    };
    assert_eq!(
        modifiers(&base(90, true, false)),
        ((8, 8), vec![(ReasonKind::ChangeSize, 8), (ReasonKind::RepoHotspot, 8)]),
    );
    assert_eq!(modifiers(&base(90, false, false)), ((3, 0), vec![(ReasonKind::ChangeSize, 3)]));
    assert_eq!(modifiers(&base(90, true, true)), ((0, 0), Vec::new()));
}

#[test]
fn comments_score_their_weight_whatever_the_lines() {
    let mut config = ScoreConfig::default_v1();
    config.rules.retain(|rule| rule.kind != ReasonKind::CommentOnly);
    config.rules.push(RuleConfig { kind: ReasonKind::CommentOnly, score: 9 });
    let mut reasons = Vec::new();
    let state = comment_only_score(&file(12, 12), &mut reasons, &config);
    assert_eq!((state.base_score, state.size_modifier, state.hotspot_modifier, state.score), (9, 0, 0, 9));
    assert!(!state.has_semantic_risk);
    assert_eq!(reasons.len(), 1);
    assert_eq!(reasons[0].weight, 9);
    assert_eq!(reasons[0].message, "comment or whitespace only change");
}
