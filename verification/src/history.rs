//! The history of a file, from what git prints.

use vstd::hash_map::StringHashMap;
use vstd::prelude::*;

use crate::context::FileHistory;
use crate::digits;
use crate::text;

verus! {

/// The names among the lines of a log: the lines without the white space around them, as far as
/// anything is left of them.
pub open spec fn names_of(lines: Seq<Seq<char>>) -> Seq<Seq<char>>
    decreases lines.len(),
{
    if lines.len() == 0 {
        Seq::empty()
    } else {
        let before = names_of(lines.drop_last());
        let name = text::trimmed(lines.last());
        if name.len() > 0 {
            before.push(name)
        } else {
            before
        }
    }
}

/// The history that a commit count and a log of author names tell. A count that cannot be read
/// counts as none; each author counts once.
pub open spec fn told_history(commit_count: Seq<char>, author_log: Seq<char>) -> FileHistory {
    FileHistory {
        prior_commits: match digits::parsed(text::trimmed(commit_count)) {
            Some(count) => count,
            None => 0,
        },
        prior_authors: names_of(text::line_seq(author_log)).to_set().len() as usize,
    }
}

/// The history that a commit count and a log of author names tell.
pub fn file_history(commit_count: &str, author_log: &str) -> (r: FileHistory)
    ensures
        r == told_history(commit_count@, author_log@),
        r.prior_authors == names_of(text::line_seq(author_log@)).to_set().len(),
{
    let lines = text::lines(author_log);
    let ghost all = text::line_seq(author_log@);
    let mut seen: StringHashMap<bool> = StringHashMap::new();
    let mut i: usize = 0;
    proof {
        assert(all.take(0) =~= Seq::empty());
        assert(seen@.dom() =~= names_of(all.take(0)).to_set());
    }
    while i < lines.len()
        invariant
            i <= lines@.len(),
            all == text::views(lines@),
            seen@.dom() =~= names_of(all.take(i as int)).to_set(),
        decreases lines@.len() - i,
    {
        let ghost before = names_of(all.take(i as int));
        assert(all.take(i + 1).drop_last() =~= all.take(i as int));
        assert(all.take(i + 1).last() == lines@[i as int]@);
        let name = text::trim(lines[i].as_str());
        if !name.is_empty() {
            seen.insert(name.to_owned(), true);
            assert(before.push(name@).to_set() =~= before.to_set().insert(name@)) by {
                assert forall|x: Seq<char>| #[trigger] before.push(name@).to_set().contains(
                    x,
                ) == before.to_set().insert(name@).contains(x) by {
                    if before.contains(x) {
                        let k = choose|k: int| 0 <= k < before.len() && before[k] == x;
                        assert(before.push(name@)[k] == x);
                    }
                    assert(before.push(name@)[before.len() as int] == name@);
                }
            }
        }
        i = i + 1;
    }
    assert(all.take(i as int) =~= all);
    FileHistory {
        prior_commits: match digits::parse(text::trim(commit_count)) {
            Some(count) => count,
            None => 0,
        },
        prior_authors: seen.len(),
    }
}

proof fn lemma_names(lines: Seq<Seq<char>>, name: Seq<char>)
    ensures
        names_of(lines).contains(name) <==> name.len() > 0 && exists|i: int|
            0 <= i < lines.len() && text::trimmed(#[trigger] lines[i]) == name,
    decreases lines.len(),
{
    if lines.len() > 0 {
        let shorter = lines.drop_last();
        let before = names_of(shorter);
        let all = names_of(lines);
        let last = text::trimmed(lines[lines.len() - 1]);
        lemma_names(shorter, name);
        if all.contains(name) {
            let k = choose|k: int| 0 <= k < all.len() && all[k] == name;
            if k < before.len() {
                assert(before[k] == name);
                let i = choose|i: int|
                    0 <= i < shorter.len() && text::trimmed(#[trigger] shorter[i]) == name;
                assert(text::trimmed(lines[i]) == name);
            } else {
                assert(last == name);
            }
        }
        if name.len() > 0 && exists|i: int|
            0 <= i < lines.len() && text::trimmed(#[trigger] lines[i]) == name {
            let i = choose|i: int|
                0 <= i < lines.len() && text::trimmed(#[trigger] lines[i]) == name;
            if i < shorter.len() {
                assert(text::trimmed(shorter[i]) == name);
                let k = choose|k: int| 0 <= k < before.len() && before[k] == name;
                assert(all[k] == name);
            } else {
                assert(all[before.len() as int] == name);
            }
        }
    }
}

/// The authors of a log are the names on its lines, without white space around them: each name counts
/// once, and blank lines do not count. So as many authors are told as there are different names.
pub proof fn law_authors_count_once(
    commit_count: Seq<char>,
    author_log: Seq<char>,
    authors: Set<Seq<char>>,
)
    requires
        forall|name: Seq<char>| #[trigger]
            authors.contains(name) <==> name.len() > 0 && exists|i: int|
                0 <= i < text::line_seq(author_log).len() && text::trimmed(
                    #[trigger] text::line_seq(author_log)[i],
                ) == name,
    ensures
        told_history(commit_count, author_log).prior_authors == authors.len() as usize,
{
    let lines = text::line_seq(author_log);
    let names = names_of(lines).to_set();
    assert forall|name: Seq<char>| #[trigger] names.contains(name) == authors.contains(name) by {
        lemma_names(lines, name);
    }
    assert(names =~= authors);
}

/// The number of commits is the number that is told, whatever white space is around it; what is no
/// number counts as none.
pub proof fn law_commits_are_read(n: usize, left: Seq<char>, right: Seq<char>, author_log: Seq<char>)
    requires
        text::all_space(left),
        text::all_space(right),
    ensures
        told_history(left + digits::decimal(n as nat) + right, author_log).prior_commits == n,
        forall|count: Seq<char>|
            #![trigger told_history(count, author_log)]
            digits::parsed(text::trimmed(count)) is None ==> told_history(
                count,
                author_log,
            ).prior_commits == 0,
{
    let core = digits::decimal(n as nat);
    digits::law_decimals_are_digits(n as nat);
    assert(!text::is_space(core[0]));
    assert(!text::is_space(core[core.len() - 1]));
    text::law_trimming(left, core, right);
    digits::law_written_numbers_read_back(n);
}

} // verus!
