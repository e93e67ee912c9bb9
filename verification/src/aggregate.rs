//! The score of a patch from the scores of its files.

use vstd::prelude::*;

use crate::config::AggregationConfig;
use crate::scoring;
use crate::scoring::FileScoreState;

verus! {

/// The greatest score of a file; 0 where there are no files.
pub open spec fn top_score(files: Seq<FileScoreState>) -> u32
    decreases files.len(),
{
    if files.len() == 0 {
        0
    } else {
        let before = top_score(files.drop_last());
        if files.last().score > before {
            files.last().score
        } else {
            before
        }
    }
}

/// The sum of the scores, each counted up to 30.
pub open spec fn bounded_sum(files: Seq<FileScoreState>) -> nat
    decreases files.len(),
{
    if files.len() == 0 {
        0
    } else {
        bounded_sum(files.drop_last()) + scoring::at_most(files.last().score as int, 30) as nat
    }
}

/// The sum of the scores of all files but one with the top score, each counted up to 30.
pub open spec fn others_sum(files: Seq<FileScoreState>) -> int {
    bounded_sum(files) - scoring::at_most(top_score(files) as int, 30)
}

/// Whether some file carries semantic risk.
pub open spec fn any_risk(files: Seq<FileScoreState>) -> bool {
    exists|i: int| 0 <= i < files.len() && (#[trigger] files[i]).has_semantic_risk
}

/// What the other files add to the top score: a bounded share of their scores, and nothing where
/// no file carries semantic risk.
pub open spec fn secondary(files: Seq<FileScoreState>, config: AggregationConfig) -> u32 {
    if any_risk(files) {
        config.secondary_ratio.scaled(
            scoring::at_most(others_sum(files), u32::MAX),
            config.secondary_cap,
        )
    } else {
        0
    }
}

/// The score of the patch: the top score and what the other files add, up to the greatest score.
pub open spec fn total(files: Seq<FileScoreState>, config: AggregationConfig) -> u32 {
    scoring::at_most(top_score(files) + secondary(files, config), config.max_score)
}

proof fn lemma_sum_covers_top(files: Seq<FileScoreState>)
    ensures
        bounded_sum(files) >= scoring::at_most(top_score(files) as int, 30),
        bounded_sum(files) <= 30 * files.len(),
    decreases files.len(),
{
    if files.len() > 0 {
        lemma_sum_covers_top(files.drop_last());
    }
}

/// The score of the patch, and what the files other than the top one add to it.
pub fn aggregate_scores(scores: &Vec<FileScoreState>, config: &AggregationConfig) -> (r: (u32, u32))
    ensures
        r.0 == total(scores@, *config),
        r.1 == secondary(scores@, *config),
{
    let mut top: u32 = 0;
    let mut risk: bool = false;
    let mut sum: u128 = 0;
    let mut i: usize = 0;
    assert(scores@.take(0) =~= Seq::empty());
    while i < scores.len()
        invariant
            i <= scores@.len(),
            top == top_score(scores@.take(i as int)),
            sum == bounded_sum(scores@.take(i as int)),
            sum <= 30 * i,
            risk == any_risk(scores@.take(i as int)),
        decreases scores@.len() - i,
    {
        let file = scores[i];
        proof {
            let prefix = scores@.take(i as int);
            let longer = scores@.take(i + 1);
            assert(longer.drop_last() =~= prefix);
            assert(longer.last() == file);
            if any_risk(prefix) {
                let k = choose|k: int| 0 <= k < prefix.len() && (#[trigger] prefix[k]).has_semantic_risk;
                assert(longer[k] == prefix[k]);
            }
            if file.has_semantic_risk {
                assert(longer[i as int].has_semantic_risk);
            }
            if any_risk(longer) {
                let k = choose|k: int| 0 <= k < longer.len() && (#[trigger] longer[k]).has_semantic_risk;
                if k < i {
                    assert(prefix[k] == longer[k]);
                }
            }
        }
        if file.score > top {
            top = file.score;
        }
        if file.has_semantic_risk {
            risk = true;
        }
        sum = sum + (if file.score < 30 {
            file.score as u128
        } else {
            30
        });
        i = i + 1;
    }
    proof {
        assert(scores@.take(i as int) =~= scores@);
        lemma_sum_covers_top(scores@);
    }
    let others: u128 = sum - (if top < 30 {
        top as u128
    } else {
        30
    });
    let contribution: u32 = if risk {
        let raw: u32 = if others < 0xffff_ffff {
            others as u32
        } else {
            0xffff_ffff
        };
        config.secondary_ratio.scale(raw, config.secondary_cap)
    } else {
        0
    };
    let whole: u64 = top as u64 + contribution as u64;
    let score: u32 = if whole < config.max_score as u64 {
        whole as u32
    } else {
        config.max_score
    };
    (score, contribution)
}

} // verus!
