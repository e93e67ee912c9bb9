//! Unified diffs, read into changed files.

use vstd::prelude::*;

use crate::context::{ChangedFile, FileModel};
use crate::report::{AnalyzeError, ErrorModel};
use crate::text;

verus! {

/// A path of a diff without the `a/` or `b/` in front.
pub open spec fn plain_path(path: Seq<char>) -> Seq<char> {
    if text::has_prefix(path, "a/"@) || text::has_prefix(path, "b/"@) {
        path.skip(2)
    } else {
        path
    }
}

/// The path that a `---` or `+++` line names; none for `/dev/null`.
pub open spec fn named_path(path: Seq<char>) -> Option<Seq<char>> {
    if path == "/dev/null"@ {
        None
    } else {
        Some(plain_path(path))
    }
}

/// The first of two optional paths that is there, or the empty path.
pub open spec fn first_path(first: Option<Seq<char>>, second: Option<Seq<char>>) -> Seq<char> {
    match first {
        Some(path) => path,
        None => match second {
            Some(path) => path,
            None => Seq::empty(),
        },
    }
}

/// The file that a `diff --git` line opens: its first two words are the old and the new path.
pub open spec fn opened_file(rest: Seq<char>) -> FileModel {
    let words = text::word_seq(rest);
    let old_path = if words.len() > 0 {
        Some(plain_path(words[0]))
    } else {
        None
    };
    let new_path = if words.len() > 1 {
        Some(plain_path(words[1]))
    } else {
        None
    };
    FileModel {
        path: first_path(new_path, old_path),
        old_path,
        new_path,
        added: Seq::empty(),
        removed: Seq::empty(),
        before_source: None,
        after_source: None,
        history: None,
    }
}

/// What a line that opens no file does to the file that it stands in: `---` and `+++` lines name
/// its paths, `@@` lines are skipped, other lines with a leading `+` or `-` are changed lines, and
/// all others are context.
pub open spec fn with_line(file: FileModel, line: Seq<char>) -> FileModel {
    if text::has_prefix(line, "--- "@) {
        FileModel { old_path: named_path(line.skip(4)), ..file }
    } else if text::has_prefix(line, "+++ "@) {
        let new_path = named_path(line.skip(4));
        FileModel { new_path, path: first_path(new_path, file.old_path), ..file }
    } else if text::has_prefix(line, "@@"@) {
        file
    } else if text::has_prefix(line, "+"@) {
        FileModel { added: file.added.push(line.skip(1)), ..file }
    } else if text::has_prefix(line, "-"@) {
        FileModel { removed: file.removed.push(line.skip(1)), ..file }
    } else {
        file
    }
}

/// All files that the lines open, with what the lines behind each opening say of it. Lines before
/// the first opening belong to no file.
pub open spec fn files_of(lines: Seq<Seq<char>>) -> Seq<FileModel>
    decreases lines.len(),
{
    if lines.len() == 0 {
        Seq::empty()
    } else {
        let files = files_of(lines.drop_last());
        let line = lines.last();
        if text::has_prefix(line, "diff --git "@) {
            files.push(opened_file(line.skip(11)))
        } else if files.len() == 0 {
            files
        } else {
            files.drop_last().push(with_line(files.last(), line))
        }
    }
}

/// Whether a file of a patch counts: it has a path and at least one changed line.
pub open spec fn counts(file: FileModel) -> bool {
    file.path.len() > 0 && (file.added.len() > 0 || file.removed.len() > 0)
}

/// The files that count, in their order.
pub open spec fn counting(files: Seq<FileModel>) -> Seq<FileModel>
    decreases files.len(),
{
    if files.len() == 0 {
        Seq::empty()
    } else if counts(files.last()) {
        counting(files.drop_last()).push(files.last())
    } else {
        counting(files.drop_last())
    }
}

/// The changed files of a patch.
pub open spec fn patch_files(patch: Seq<char>) -> Seq<FileModel> {
    counting(files_of(text::line_seq(patch)))
}

/// What reading a patch gives: its changed files, or an error where there are none.
pub open spec fn read_patch(patch: Seq<char>) -> Result<Seq<FileModel>, ErrorModel> {
    if patch_files(patch).len() == 0 {
        Err(ErrorModel::InvalidPatch)
    } else {
        Ok(patch_files(patch))
    }
}

/// The path without the `a/` or `b/` in front.
pub fn strip_diff_prefix(path: &str) -> (r: String)
    ensures
        r@ == plain_path(path@),
{
    proof {
        reveal_strlit("a/");
        reveal_strlit("b/");
    }
    match text::strip_prefix(path, "a/") {
        Some(rest) => rest.to_owned(),
        None => match text::strip_prefix(path, "b/") {
            Some(rest) => rest.to_owned(),
            None => path.to_owned(),
        },
    }
}

/// The path that a `---` or `+++` line names.
pub fn normalize_diff_path(path: &str) -> (r: Option<String>)
    ensures
        text::opt_view(r) == named_path(path@),
{
    if text::same(path, "/dev/null") {
        None
    } else {
        Some(strip_diff_prefix(path))
    }
}

fn path_or_other(first: &Option<String>, second: &Option<String>) -> (r: String)
    ensures
        r@ == first_path(text::opt_view(*first), text::opt_view(*second)),
{
    match first {
        Some(path) => path.clone(),
        None => match second {
            Some(path) => path.clone(),
            None => String::new(),
        },
    }
}

fn open_file(rest: &str) -> (r: ChangedFile)
    ensures
        r@ == opened_file(rest@),
{
    let words = text::words(rest);
    let ghost all = text::word_seq(rest@);
    assert(words@.len() == all.len());
    let old_path = if words.len() > 0 {
        assert(words@[0]@ == all[0]);
        Some(strip_diff_prefix(words[0].as_str()))
    } else {
        None
    };
    let new_path = if words.len() > 1 {
        assert(words@[1]@ == all[1]);
        Some(strip_diff_prefix(words[1].as_str()))
    } else {
        None
    };
    let r = ChangedFile {
        path: path_or_other(&new_path, &old_path),
        old_path,
        new_path,
        added: Vec::new(),
        removed: Vec::new(),
        before_source: None,
        after_source: None,
        history: None,
    };
    assert(r@ =~= opened_file(rest@));
    r
}

fn take_line(file: &mut ChangedFile, line: &str)
    ensures
        final(file)@ == with_line(old(file)@, line@),
{
    proof {
        reveal_strlit("--- ");
        reveal_strlit("+++ ");
        reveal_strlit("+");
        reveal_strlit("-");
    }
    if let Some(path) = text::strip_prefix(line, "--- ") {
        file.old_path = normalize_diff_path(path);
        return;
    }
    if let Some(path) = text::strip_prefix(line, "+++ ") {
        file.new_path = normalize_diff_path(path);
        file.path = path_or_other(&file.new_path, &file.old_path);
        return;
    }
    if text::starts_with(line, "@@") {
        return;
    }
    if let Some(value) = text::strip_prefix(line, "+") {
        file.added.push(value.to_owned());
        assert(text::views(file.added@) =~= text::views(old(file).added@).push(line@.skip(1)));
        return;
    }
    if let Some(value) = text::strip_prefix(line, "-") {
        file.removed.push(value.to_owned());
        assert(text::views(file.removed@) =~= text::views(old(file).removed@).push(line@.skip(1)));
    }
}

/// Reads a unified diff.
pub fn parse_patch(patch: &str) -> (r: Result<Vec<ChangedFile>, AnalyzeError>)
    ensures
        match read_patch(patch@) {
            Ok(files) => r is Ok && text::views(r->Ok_0@) == files,
            Err(error) => r is Err && r->Err_0@ == error,
        },
{
    proof {
        reveal_strlit("diff --git ");
    }
    let lines = text::lines(patch);
    let ghost all = text::line_seq(patch@);
    let mut files: Vec<ChangedFile> = Vec::new();
    let mut i: usize = 0;
    assert(all.take(0) =~= Seq::empty());
    while i < lines.len()
        invariant
            i <= lines@.len(),
            "diff --git "@.len() == 11,
            all == text::views(lines@),
            text::views(files@) =~= files_of(all.take(i as int)),
        decreases lines@.len() - i,
    {
        let line = lines[i].as_str();
        let ghost before = files_of(all.take(i as int));
        proof {
            assert(all.take(i + 1).drop_last() =~= all.take(i as int));
            assert(all.take(i + 1).last() == line@);
            assert(files@.len() == before.len());
        }
        if let Some(rest) = text::strip_prefix(line, "diff --git ") {
            files.push(open_file(rest));
            assert(text::views(files@) =~= before.push(opened_file(line@.skip(11))));
        } else if files.len() > 0 {
            let mut file = match files.pop() {
                Some(file) => file,
                None => {
                    return Err(AnalyzeError::InvalidPatch);
                },
            };
            assert(file@ == before.last());
            take_line(&mut file, line);
            files.push(file);
            assert(text::views(files@) =~= before.drop_last().push(with_line(before.last(), line@)));
        }
        i = i + 1;
    }
    assert(all.take(i as int) =~= all);
    let kept = keep_counting(files);
    if kept.len() == 0 {
        return Err(AnalyzeError::InvalidPatch);
    }
    Ok(kept)
}

fn keep_counting(files: Vec<ChangedFile>) -> (r: Vec<ChangedFile>)
    ensures
        text::views(r@) == counting(text::views(files@)),
{
    let ghost all = text::views(files@);
    let mut kept: Vec<ChangedFile> = Vec::new();
    assert(all.take(0) =~= Seq::empty());
    assert(text::views(kept@) =~= counting(all.take(0)));
    for file in it: files
        invariant
            all == text::views(it.seq()),
            text::views(kept@) =~= counting(all.take(it.index())),
    {
        let ghost before = counting(all.take(it.index()));
        proof {
            assert(all.take(it.index() + 1).drop_last() =~= all.take(it.index()));
            assert(all.take(it.index() + 1).last() == file@);
        }
        if !file.path.as_str().is_empty() && (file.added.len() > 0 || file.removed.len() > 0) {
            kept.push(file);
            assert(text::views(kept@) =~= before.push(file@));
        }
    }
    assert(all.take(all.len() as int) =~= all);
    kept
}

/// The lines that tell of a changed file.
pub open spec fn told_lines(
    path: Seq<char>,
    hunk: Seq<char>,
    removed: Seq<Seq<char>>,
    added: Seq<Seq<char>>,
) -> Seq<Seq<char>> {
    seq![
        "diff --git "@ + ("a/"@ + path) + " "@ + ("b/"@ + path),
        "--- "@ + ("a/"@ + path),
        "+++ "@ + ("b/"@ + path),
        "@@"@ + hunk,
    ] + Seq::new(removed.len(), |i: int| "-"@ + removed[i]) + Seq::new(
        added.len(),
        |i: int| "+"@ + added[i],
    )
}

/// The file that such lines tell of.
pub open spec fn told_file(
    path: Seq<char>,
    removed: Seq<Seq<char>>,
    added: Seq<Seq<char>>,
) -> FileModel {
    FileModel {
        path,
        old_path: Some(path),
        new_path: Some(path),
        added,
        removed,
        before_source: None,
        after_source: None,
        history: None,
    }
}

proof fn lemma_two_words(first: Seq<char>, second: Seq<char>)
    requires
        first.len() > 0,
        second.len() > 0,
        forall|i: int| 0 <= i < first.len() ==> !text::is_space(#[trigger] first[i]),
        forall|i: int| 0 <= i < second.len() ==> !text::is_space(#[trigger] second[i]),
    ensures
        text::word_seq(first + " "@ + second) == seq![first, second],
{
    reveal_strlit(" ");
    let s = first + " "@ + second;
    let tail = s.skip(first.len() as int);
    text::lemma_first_word(s, first.len() as int);
    assert(s.take(first.len() as int) =~= first);
    assert(tail[0] == ' ');
    assert(text::trimmed_start(tail) == text::trimmed_start(tail.skip(1)));
    assert(tail.skip(1) =~= second);
    text::lemma_first_word(second, second.len() as int);
    assert(second.take(second.len() as int) =~= second);
    assert(second.skip(second.len() as int) =~= Seq::empty());
    assert(text::word_seq(Seq::<char>::empty()) =~= Seq::empty());
    assert(text::word_seq(second) =~= seq![second]);
    assert(text::word_seq(tail) == text::word_seq(second));
    assert(seq![first] + seq![second] =~= seq![first, second]);
}

proof fn lemma_header(path: Seq<char>, hunk: Seq<char>)
    requires
        path.len() > 0,
        forall|i: int| 0 <= i < path.len() ==> !text::is_space(#[trigger] path[i]),
    ensures
        files_of(told_lines(path, hunk, Seq::empty(), Seq::empty())) == seq![
            told_file(path, Seq::empty(), Seq::empty()),
        ],
{
    reveal_strlit("diff --git ");
    reveal_strlit("--- ");
    reveal_strlit("+++ ");
    reveal_strlit("@@");
    reveal_strlit("a/");
    reveal_strlit("b/");
    reveal_strlit("+");
    reveal_strlit("-");
    reveal_strlit("/dev/null");
    reveal_strlit(" ");
    let old = "a/"@ + path;
    let new = "b/"@ + path;
    let l0 = "diff --git "@ + old + " "@ + new;
    let l1 = "--- "@ + old;
    let l2 = "+++ "@ + new;
    let l3 = "@@"@ + hunk;
    let lines = told_lines(path, hunk, Seq::empty(), Seq::empty());
    assert(lines =~= seq![l0, l1, l2, l3]);
    let blank: Seq<Seq<char>> = Seq::empty();
    let f = told_file(path, Seq::empty(), Seq::empty());
    assert(files_of(blank) =~= Seq::empty());
    assert forall|i: int| 0 <= i < old.len() implies !text::is_space(#[trigger] old[i]) by {
        if i >= 2 {
            assert(old[i] == path[i - 2]);
        }
    }
    assert forall|i: int| 0 <= i < new.len() implies !text::is_space(#[trigger] new[i]) by {
        if i >= 2 {
            assert(new[i] == path[i - 2]);
        }
    }
    lemma_two_words(old, new);
    assert(old.take(2) =~= "a/"@);
    assert(new.take(2) =~= "b/"@);
    assert(old.skip(2) =~= path);
    assert(new.skip(2) =~= path);
    assert(l0.take(11) =~= "diff --git "@);
    assert(l0.skip(11) =~= old + " "@ + new);
    assert(opened_file(l0.skip(11)) =~= f);
    let one = seq![l0];
    assert(one.drop_last() =~= blank);
    assert(files_of(one) =~= seq![f]);
    let two = seq![l0, l1];
    assert(two.drop_last() =~= one);
    assert(l1[0] == '-');
    assert(!text::has_prefix(l1, "diff --git "@)) by {
        assert(l1.take(11)[0] == '-' || l1.len() < 11);
    }
    assert(l1.take(4) =~= "--- "@);
    assert(l1.skip(4) =~= old);
    assert(old != "/dev/null"@) by {
        assert(old[0] == 'a');
    }
    assert(with_line(f, l1) =~= f);
    assert(files_of(two) =~= seq![f]);
    let three = seq![l0, l1, l2];
    assert(three.drop_last() =~= two);
    assert(l2[0] == '+');
    assert(!text::has_prefix(l2, "diff --git "@)) by {
        assert(l2.take(11)[0] == '+' || l2.len() < 11);
    }
    assert(!text::has_prefix(l2, "--- "@)) by {
        assert(l2.take(4)[0] == '+');
    }
    assert(l2.take(4) =~= "+++ "@);
    assert(l2.skip(4) =~= new);
    assert(new != "/dev/null"@) by {
        assert(new[0] == 'b');
    }
    assert(with_line(f, l2) =~= f);
    assert(files_of(three) =~= seq![f]);
    assert(lines.drop_last() =~= three);
    assert(l3[0] == '@');
    assert(!text::has_prefix(l3, "diff --git "@)) by {
        assert(l3.len() >= 11 ==> l3.take(11)[0] == '@');
    }
    assert(!text::has_prefix(l3, "--- "@)) by {
        assert(l3.len() >= 4 ==> l3.take(4)[0] == '@');
    }
    assert(!text::has_prefix(l3, "+++ "@)) by {
        assert(l3.len() >= 4 ==> l3.take(4)[0] == '@');
    }
    assert(l3.take(2) =~= "@@"@);
    assert(files_of(lines) =~= seq![f]);
}

/// Whether a removed line can be told from the line that names the old path.
pub open spec fn plain_removed(line: Seq<char>) -> bool {
    !text::has_prefix(line, "-- "@)
}

/// Whether an added line can be told from the line that names the new path.
pub open spec fn plain_added(line: Seq<char>) -> bool {
    !text::has_prefix(line, "++ "@)
}

proof fn lemma_removed_lines(path: Seq<char>, hunk: Seq<char>, removed: Seq<Seq<char>>)
    requires
        path.len() > 0,
        forall|i: int| 0 <= i < path.len() ==> !text::is_space(#[trigger] path[i]),
        forall|i: int| 0 <= i < removed.len() ==> plain_removed(#[trigger] removed[i]),
    ensures
        files_of(told_lines(path, hunk, removed, Seq::empty())) == seq![
            told_file(path, removed, Seq::empty()),
        ],
    decreases removed.len(),
{
    if removed.len() == 0 {
        assert(removed =~= Seq::empty());
        lemma_header(path, hunk);
    } else {
        reveal_strlit("diff --git ");
        reveal_strlit("--- ");
        reveal_strlit("+++ ");
        reveal_strlit("@@");
        reveal_strlit("+");
        reveal_strlit("-");
        reveal_strlit("-- ");
        let before = removed.drop_last();
        assert forall|i: int| 0 <= i < before.len() implies plain_removed(#[trigger] before[i]) by {
            assert(before[i] == removed[i]);
        }
        lemma_removed_lines(path, hunk, before);
        let last = removed.last();
        assert(plain_removed(removed[removed.len() - 1]));
        let line = "-"@ + last;
        let lines = told_lines(path, hunk, removed, Seq::empty());
        assert(lines.drop_last() =~= told_lines(path, hunk, before, Seq::empty()));
        assert(lines.last() == line);
        assert(line[0] == '-');
        assert(!text::has_prefix(line, "diff --git "@)) by {
            assert(line.len() >= 11 ==> line.take(11)[0] == '-');
        }
        assert(!text::has_prefix(line, "--- "@)) by {
            if text::has_prefix(line, "--- "@) {
                assert(last.take(3) =~= line.take(4).skip(1));
                assert(last.take(3) =~= "-- "@);
            }
        }
        assert(!text::has_prefix(line, "+++ "@)) by {
            assert(line.len() >= 4 ==> line.take(4)[0] == '-');
        }
        assert(!text::has_prefix(line, "@@"@)) by {
            assert(line.len() >= 2 ==> line.take(2)[0] == '-');
        }
        assert(!text::has_prefix(line, "+"@)) by {
            assert(line.take(1)[0] == '-');
        }
        assert(line.take(1) =~= "-"@);
        assert(line.skip(1) =~= last);
        assert(before.push(last) =~= removed);
        let f = told_file(path, before, Seq::empty());
        assert(with_line(f, line) =~= told_file(path, removed, Seq::empty()));
        assert(files_of(lines) =~= seq![told_file(path, removed, Seq::empty())]);
    }
}

proof fn lemma_added_lines(
    path: Seq<char>,
    hunk: Seq<char>,
    removed: Seq<Seq<char>>,
    added: Seq<Seq<char>>,
)
    requires
        path.len() > 0,
        forall|i: int| 0 <= i < path.len() ==> !text::is_space(#[trigger] path[i]),
        forall|i: int| 0 <= i < removed.len() ==> plain_removed(#[trigger] removed[i]),
        forall|i: int| 0 <= i < added.len() ==> plain_added(#[trigger] added[i]),
    ensures
        files_of(told_lines(path, hunk, removed, added)) == seq![told_file(path, removed, added)],
    decreases added.len(),
{
    if added.len() == 0 {
        assert(added =~= Seq::empty());
        lemma_removed_lines(path, hunk, removed);
    } else {
        reveal_strlit("diff --git ");
        reveal_strlit("--- ");
        reveal_strlit("+++ ");
        reveal_strlit("@@");
        reveal_strlit("+");
        reveal_strlit("++ ");
        let before = added.drop_last();
        assert forall|i: int| 0 <= i < before.len() implies plain_added(#[trigger] before[i]) by {
            assert(before[i] == added[i]);
        }
        lemma_added_lines(path, hunk, removed, before);
        let last = added.last();
        assert(plain_added(added[added.len() - 1]));
        let line = "+"@ + last;
        let lines = told_lines(path, hunk, removed, added);
        assert(lines.drop_last() =~= told_lines(path, hunk, removed, before));
        assert(lines.last() == line);
        assert(line[0] == '+');
        assert(!text::has_prefix(line, "diff --git "@)) by {
            assert(line.len() >= 11 ==> line.take(11)[0] == '+');
        }
        assert(!text::has_prefix(line, "--- "@)) by {
            assert(line.len() >= 4 ==> line.take(4)[0] == '+');
        }
        assert(!text::has_prefix(line, "+++ "@)) by {
            if text::has_prefix(line, "+++ "@) {
                assert(last.take(3) =~= line.take(4).skip(1));
                assert(last.take(3) =~= "++ "@);
            }
        }
        assert(!text::has_prefix(line, "@@"@)) by {
            assert(line.len() >= 2 ==> line.take(2)[0] == '+');
        }
        assert(line.take(1) =~= "+"@);
        assert(line.skip(1) =~= last);
        assert(before.push(last) =~= added);
        let f = told_file(path, removed, before);
        assert(with_line(f, line) =~= told_file(path, removed, added));
        assert(files_of(lines) =~= seq![told_file(path, removed, added)]);
    }
}

/// A patch that tells of one changed file is read back as that file. The path holds no white space,
/// the lines fit a line, and no removed line begins with `-- ` and no added one with `++ `: behind
/// its sign such a line would be taken for one that names a path.
pub proof fn law_patch_reads_back(
    path: Seq<char>,
    hunk: Seq<char>,
    removed: Seq<Seq<char>>,
    added: Seq<Seq<char>>,
)
    requires
        path.len() > 0,
        forall|i: int| 0 <= i < path.len() ==> !text::is_space(#[trigger] path[i]),
        text::fits_a_line(hunk),
        forall|i: int|
            0 <= i < removed.len() ==> text::fits_a_line(#[trigger] removed[i]) && plain_removed(
                removed[i],
            ),
        forall|i: int|
            0 <= i < added.len() ==> text::fits_a_line(#[trigger] added[i]) && plain_added(
                added[i],
            ),
        removed.len() > 0 || added.len() > 0,
    ensures
        read_patch(text::terminated(told_lines(path, hunk, removed, added))) == Ok::<
            Seq<FileModel>,
            ErrorModel,
        >(seq![told_file(path, removed, added)]),
{
    let lines = told_lines(path, hunk, removed, added);
    assert forall|i: int| 0 <= i < lines.len() implies text::fits_a_line(#[trigger] lines[i]) by {
        lemma_told_line_fits(path, hunk, removed, added, i);
    }
    text::law_lines_read_back(lines);
    assert forall|i: int| 0 <= i < removed.len() implies plain_removed(#[trigger] removed[i]) by {
        assert(text::fits_a_line(removed[i]));
    }
    assert forall|i: int| 0 <= i < added.len() implies plain_added(#[trigger] added[i]) by {
        assert(text::fits_a_line(added[i]));
    }
    lemma_added_lines(path, hunk, removed, added);
    let file = told_file(path, removed, added);
    let files = seq![file];
    assert(files.drop_last() =~= Seq::empty());
    assert(counting(Seq::<FileModel>::empty()) =~= Seq::empty());
    assert(counts(file));
    assert(counting(files) =~= files);
}

proof fn lemma_line_fits(head: Seq<char>, tail: Seq<char>)
    requires
        text::fits_a_line(head),
        text::fits_a_line(tail),
    ensures
        text::fits_a_line(head + tail),
{
    let s = head + tail;
    if s.contains('\n') {
        let k = choose|k: int| 0 <= k < s.len() && s[k] == '\n';
        if k < head.len() {
            assert(head[k] == '\n');
        } else {
            assert(tail[k - head.len()] == '\n');
        }
    }
    if tail.len() > 0 {
        assert(s.last() == tail.last());
    } else {
        assert(s =~= head);
    }
}

proof fn lemma_told_line_fits(
    path: Seq<char>,
    hunk: Seq<char>,
    removed: Seq<Seq<char>>,
    added: Seq<Seq<char>>,
    i: int,
)
    requires
        0 <= i < told_lines(path, hunk, removed, added).len(),
        path.len() > 0,
        forall|i: int| 0 <= i < path.len() ==> !text::is_space(#[trigger] path[i]),
        text::fits_a_line(hunk),
        forall|i: int| 0 <= i < removed.len() ==> text::fits_a_line(#[trigger] removed[i]),
        forall|i: int| 0 <= i < added.len() ==> text::fits_a_line(#[trigger] added[i]),
    ensures
        text::fits_a_line(told_lines(path, hunk, removed, added)[i]),
{
    reveal_strlit("diff --git ");
    reveal_strlit("--- ");
    reveal_strlit("+++ ");
    reveal_strlit("@@");
    reveal_strlit("a/");
    reveal_strlit("b/");
    reveal_strlit("+");
    reveal_strlit("-");
    reveal_strlit(" ");
    let lines = told_lines(path, hunk, removed, added);
    assert(text::fits_a_line(path)) by {
        if path.contains('\n') {
            let k = choose|k: int| 0 <= k < path.len() && path[k] == '\n';
            assert(text::is_space(path[k]));
        }
        assert(!text::is_space(path[path.len() - 1]));
    }
    assert(text::fits_a_line("a/"@));
    assert(text::fits_a_line("b/"@));
    assert(text::fits_a_line(" "@));
    assert(text::fits_a_line("diff --git "@));
    assert(text::fits_a_line("--- "@));
    assert(text::fits_a_line("+++ "@));
    assert(text::fits_a_line("@@"@));
    assert(text::fits_a_line("-"@));
    assert(text::fits_a_line("+"@));
    lemma_line_fits("a/"@, path);
    lemma_line_fits("b/"@, path);
    lemma_line_fits("diff --git "@, "a/"@ + path);
    lemma_line_fits("diff --git "@ + ("a/"@ + path), " "@);
    lemma_line_fits("diff --git "@ + ("a/"@ + path) + " "@, "b/"@ + path);
    lemma_line_fits("--- "@, "a/"@ + path);
    lemma_line_fits("+++ "@, "b/"@ + path);
    lemma_line_fits("@@"@, hunk);
    if i >= 4 {
        if i < 4 + removed.len() {
            lemma_line_fits("-"@, removed[i - 4]);
            assert(lines[i] == "-"@ + removed[i - 4]);
        } else {
            lemma_line_fits("+"@, added[i - 4 - removed.len()]);
            assert(lines[i] == "+"@ + added[i - 4 - removed.len()]);
        }
    }
}

/// Whether a line behind the header of a file can be told from the lines that open a file or name a
/// path.
pub open spec fn plain_line(line: Seq<char>) -> bool {
    &&& !text::has_prefix(line, "diff --git "@)
    &&& !text::has_prefix(line, "--- "@)
    &&& !text::has_prefix(line, "+++ "@)
}

/// The lines that begin with a sign, without it, in their order.
pub open spec fn behind_sign(lines: Seq<Seq<char>>, sign: char) -> Seq<Seq<char>>
    decreases lines.len(),
{
    if lines.len() == 0 {
        Seq::empty()
    } else if lines.last().len() > 0 && lines.last()[0] == sign {
        behind_sign(lines.drop_last(), sign).push(lines.last().skip(1))
    } else {
        behind_sign(lines.drop_last(), sign)
    }
}

/// A change of a file as a patch tells it: the path before and behind it, where the file is there
/// then, what is said of it before its paths are named, and the lines of all its hunks.
pub struct Change {
    pub old_path: Option<Seq<char>>,
    pub new_path: Option<Seq<char>>,
    pub preface: Seq<Seq<char>>,
    pub hunks: Seq<Seq<char>>,
}

impl Change {
    /// The path behind the change, or the one before it where the file is deleted.
    pub open spec fn path(self) -> Seq<char> {
        match self.new_path {
            Some(path) => path,
            None => self.old_path->0,
        }
    }

    /// The path before the change, or the one behind it where the file is new.
    pub open spec fn former_path(self) -> Seq<char> {
        match self.old_path {
            Some(path) => path,
            None => self.new_path->0,
        }
    }

    pub open spec fn header(self) -> Seq<Seq<char>> {
        seq!["diff --git a/"@ + self.former_path() + " b/"@ + self.path()] + self.preface + seq![
            match self.old_path {
                Some(path) => "--- a/"@ + path,
                None => "--- /dev/null"@,
            },
            match self.new_path {
                Some(path) => "+++ b/"@ + path,
                None => "+++ /dev/null"@,
            },
        ]
    }

    /// The lines that tell of the change.
    pub open spec fn lines(self) -> Seq<Seq<char>> {
        self.header() + self.hunks
    }

    /// The file as it was changed.
    pub open spec fn file(self) -> FileModel {
        FileModel {
            path: self.path(),
            old_path: self.old_path,
            new_path: self.new_path,
            added: behind_sign(self.hunks, '+'),
            removed: behind_sign(self.hunks, '-'),
            before_source: None,
            after_source: None,
            history: None,
        }
    }

    /// Whether the change can be told: it names a path, paths are words, the preface holds no changed
    /// line, no line looks like another part of a patch, and at least one line is changed.
    pub open spec fn can_be_told(self) -> bool {
        &&& self.old_path is Some || self.new_path is Some
        &&& self.old_path matches Some(path) ==> is_word(path)
        &&& self.new_path matches Some(path) ==> is_word(path)
        &&& forall|i: int|
            0 <= i < self.preface.len() ==> {
                let line = #[trigger] self.preface[i];
                &&& text::fits_a_line(line)
                &&& plain_line(line)
                &&& line.len() > 0 ==> line[0] != '+' && line[0] != '-'
            }
        &&& forall|i: int|
            0 <= i < self.hunks.len() ==> text::fits_a_line(#[trigger] self.hunks[i]) && plain_line(
                self.hunks[i],
            )
        &&& behind_sign(self.hunks, '+').len() > 0 || behind_sign(self.hunks, '-').len() > 0
    }
}

/// Whether a text is a word.
pub open spec fn is_word(path: Seq<char>) -> bool {
    path.len() > 0 && forall|i: int| 0 <= i < path.len() ==> !text::is_space(#[trigger] path[i])
}

/// The lines that tell of changes, one behind the other.
pub open spec fn change_lines(changes: Seq<Change>) -> Seq<Seq<char>>
    decreases changes.len(),
{
    if changes.len() == 0 {
        Seq::empty()
    } else {
        change_lines(changes.drop_last()) + changes.last().lines()
    }
}

proof fn lemma_signed_line(line: Seq<char>)
    requires
        plain_line(line),
        line.len() > 0,
    ensures
        line[0] == '+' ==> text::has_prefix(line, "+"@) && !text::has_prefix(line, "@@"@),
        line[0] == '-' ==> text::has_prefix(line, "-"@) && !text::has_prefix(line, "@@"@)
            && !text::has_prefix(line, "+"@),
        line[0] != '+' ==> !text::has_prefix(line, "+"@),
        line[0] != '-' ==> !text::has_prefix(line, "-"@),
{
    reveal_strlit("@@");
    reveal_strlit("+");
    reveal_strlit("-");
    assert(line.take(1)[0] == line[0]);
    assert(line[0] == '+' ==> line.take(1) =~= "+"@);
    assert(line[0] == '-' ==> line.take(1) =~= "-"@);
    if line.len() >= 2 {
        assert(line.take(2)[0] == line[0]);
    }
}

proof fn lemma_plain_line(file: FileModel, line: Seq<char>)
    requires
        plain_line(line),
    ensures
        with_line(file, line) == (FileModel {
            added: if line.len() > 0 && line[0] == '+' {
                file.added.push(line.skip(1))
            } else {
                file.added
            },
            removed: if line.len() > 0 && line[0] == '-' {
                file.removed.push(line.skip(1))
            } else {
                file.removed
            },
            ..file
        }),
{
    if line.len() > 0 {
        lemma_signed_line(line);
    } else {
        reveal_strlit("@@");
        reveal_strlit("+");
        reveal_strlit("-");
    }
}

proof fn lemma_hunks(start: Seq<Seq<char>>, file: FileModel, body: Seq<Seq<char>>)
    requires
        files_of(start) == seq![file],
        forall|i: int| 0 <= i < body.len() ==> plain_line(#[trigger] body[i]),
    ensures
        files_of(start + body) == seq![
            FileModel {
                added: file.added + behind_sign(body, '+'),
                removed: file.removed + behind_sign(body, '-'),
                ..file
            },
        ],
    decreases body.len(),
{
    if body.len() == 0 {
        assert(start + body =~= start);
        assert(file.added + behind_sign(body, '+') =~= file.added);
        assert(file.removed + behind_sign(body, '-') =~= file.removed);
    } else {
        let before = body.drop_last();
        let line = body.last();
        assert forall|i: int| 0 <= i < before.len() implies plain_line(#[trigger] before[i]) by {
            assert(before[i] == body[i]);
        }
        lemma_hunks(start, file, before);
        assert(plain_line(body[body.len() - 1]));
        assert((start + body).drop_last() =~= start + before);
        assert((start + body).last() == line);
        let now = FileModel {
            added: file.added + behind_sign(before, '+'),
            removed: file.removed + behind_sign(before, '-'),
            ..file
        };
        lemma_plain_line(now, line);
        let next = FileModel {
            added: file.added + behind_sign(body, '+'),
            removed: file.removed + behind_sign(body, '-'),
            ..file
        };
        assert(with_line(now, line).added =~= next.added);
        assert(with_line(now, line).removed =~= next.removed);
        assert(files_of(start + body) =~= seq![next]);
    }
}

proof fn lemma_no_signs(lines: Seq<Seq<char>>, sign: char)
    requires
        forall|i: int|
            0 <= i < lines.len() ==> ((#[trigger] lines[i]).len() > 0 ==> lines[i][0] != sign),
    ensures
        behind_sign(lines, sign).len() == 0,
    decreases lines.len(),
{
    if lines.len() > 0 {
        let before = lines.drop_last();
        assert forall|i: int| 0 <= i < before.len() && (#[trigger] before[i]).len() > 0 implies
            before[i][0] != sign by {
            assert(before[i] == lines[i]);
        }
        lemma_no_signs(before, sign);
        assert(lines[lines.len() - 1] == lines.last());
    }
}

proof fn lemma_prefixed_word(letter: Seq<char>, path: Seq<char>)
    requires
        is_word(path),
        letter == "a/"@ || letter == "b/"@,
    ensures
        is_word(letter + path),
        plain_path(letter + path) == path,
        named_path(letter + path) == Some(path),
{
    reveal_strlit("a/");
    reveal_strlit("b/");
    reveal_strlit("/dev/null");
    let whole = letter + path;
    assert forall|i: int| 0 <= i < whole.len() implies !text::is_space(#[trigger] whole[i]) by {
        if i >= 2 {
            assert(whole[i] == path[i - 2]);
        }
    }
    assert(whole.take(2) =~= letter);
    assert(whole.skip(2) =~= path);
    assert(whole[0] == letter[0]);
}

proof fn lemma_naming_line(file: FileModel, sign: Seq<char>, rest: Seq<char>)
    requires
        sign == "--- "@ || sign == "+++ "@,
    ensures
        !text::has_prefix(sign + rest, "diff --git "@),
        sign == "--- "@ ==> with_line(file, sign + rest) == (FileModel {
            old_path: named_path(rest),
            ..file
        }),
        sign == "+++ "@ ==> with_line(file, sign + rest) == (FileModel {
            new_path: named_path(rest),
            path: first_path(named_path(rest), file.old_path),
            ..file
        }),
{
    reveal_strlit("diff --git ");
    reveal_strlit("--- ");
    reveal_strlit("+++ ");
    let line = sign + rest;
    assert(line[0] == sign[0]);
    assert(line.len() >= 11 ==> line.take(11)[0] == sign[0]);
    assert(line.take(4) =~= sign);
    assert(line.skip(4) =~= rest);
}

proof fn lemma_change(change: Change)
    requires
        change.can_be_told(),
    ensures
        files_of(change.lines()) == seq![change.file()],
{
    reveal_strlit("diff --git ");
    reveal_strlit("diff --git a/");
    reveal_strlit(" b/");
    reveal_strlit("a/");
    reveal_strlit("b/");
    reveal_strlit(" ");
    reveal_strlit("--- ");
    reveal_strlit("+++ ");
    reveal_strlit("--- a/");
    reveal_strlit("+++ b/");
    reveal_strlit("--- /dev/null");
    reveal_strlit("+++ /dev/null");
    reveal_strlit("/dev/null");
    let old = change.former_path();
    let new = change.path();
    let l0 = "diff --git a/"@ + old + " b/"@ + new;
    lemma_prefixed_word("a/"@, old);
    lemma_prefixed_word("b/"@, new);
    lemma_two_words("a/"@ + old, "b/"@ + new);
    assert(l0.take(11) =~= "diff --git "@);
    assert(l0.skip(11) =~= ("a/"@ + old) + " "@ + ("b/"@ + new));
    let opened = opened_file(l0.skip(11));
    let one = seq![l0];
    assert(one.drop_last() =~= Seq::empty());
    assert(files_of(Seq::<Seq<char>>::empty()) =~= Seq::empty());
    assert(files_of(one) =~= seq![opened]);
    assert forall|i: int| 0 <= i < change.preface.len() implies plain_line(
        #[trigger] change.preface[i],
    ) by {
        assert(text::fits_a_line(change.preface[i]));
    }
    lemma_hunks(one, opened, change.preface);
    lemma_no_signs(change.preface, '+');
    lemma_no_signs(change.preface, '-');
    let begun = one + change.preface;
    assert(opened.added + behind_sign(change.preface, '+') =~= opened.added);
    assert(opened.removed + behind_sign(change.preface, '-') =~= opened.removed);
    assert(files_of(begun) =~= seq![opened]);
    let old_name = match change.old_path {
        Some(path) => "a/"@ + path,
        None => "/dev/null"@,
    };
    let new_name = match change.new_path {
        Some(path) => "b/"@ + path,
        None => "/dev/null"@,
    };
    let l1 = "--- "@ + old_name;
    let l2 = "+++ "@ + new_name;
    lemma_naming_line(opened, "--- "@, old_name);
    let named = with_line(opened, l1);
    lemma_naming_line(named, "+++ "@, new_name);
    let header = with_line(named, l2);
    assert(begun.push(l1).drop_last() =~= begun);
    assert(files_of(begun.push(l1)) =~= seq![named]);
    assert(begun.push(l1).push(l2).drop_last() =~= begun.push(l1));
    assert(files_of(begun.push(l1).push(l2)) =~= seq![header]);
    let lines = change.header();
    assert(lines[lines.len() - 2] =~= l1);
    assert(lines[lines.len() - 1] =~= l2);
    assert(lines =~= begun.push(l1).push(l2));
    lemma_hunks(lines, header, change.hunks);
    assert(header.added + behind_sign(change.hunks, '+') =~= behind_sign(change.hunks, '+'));
    assert(header.removed + behind_sign(change.hunks, '-') =~= behind_sign(change.hunks, '-'));
    assert(header.old_path == change.old_path);
    assert(header.new_path == change.new_path);
    assert(files_of(change.lines())[0] =~= change.file());
    assert(files_of(change.lines()) =~= seq![change.file()]);
}

/// What two lists of lines tell one behind the other is what each of them tells, where the second one
/// begins with a line that opens a file; and lines before the first file tell nothing.
pub proof fn law_patches_concatenate(first: Seq<Seq<char>>, second: Seq<Seq<char>>)
    requires
        second.len() > 0 ==> text::has_prefix(second[0], "diff --git "@),
    ensures
        files_of(first + second) == files_of(first) + files_of(second),
        (forall|i: int|
            0 <= i < first.len() ==> !text::has_prefix(#[trigger] first[i], "diff --git "@))
            ==> files_of(first).len() == 0,
    decreases first.len() + second.len(),
{
    if second.len() == 0 {
        assert(first + second =~= first);
        assert(files_of(first) + files_of(second) =~= files_of(first));
    } else {
        let before = second.drop_last();
        assert(second.len() > 1 ==> before[0] == second[0]);
        law_patches_concatenate(first, before);
        assert((first + second).drop_last() =~= first + before);
        assert((first + second).last() == second.last());
        if second.len() > 1 {
            lemma_opened(before);
        }
        assert(files_of(first + second) =~= files_of(first) + files_of(second));
    }
    if first.len() > 0 && (forall|i: int|
        0 <= i < first.len() ==> !text::has_prefix(#[trigger] first[i], "diff --git "@)) {
        let shorter = first.drop_last();
        assert forall|i: int| 0 <= i < shorter.len() implies !text::has_prefix(
            #[trigger] shorter[i],
            "diff --git "@,
        ) by {
            assert(shorter[i] == first[i]);
        }
        law_patches_concatenate(shorter, second);
        assert(!text::has_prefix(first[first.len() - 1], "diff --git "@));
    }
}

proof fn lemma_opened(lines: Seq<Seq<char>>)
    requires
        lines.len() > 0,
        text::has_prefix(lines[0], "diff --git "@),
    ensures
        files_of(lines).len() > 0,
    decreases lines.len(),
{
    if lines.len() > 1 {
        lemma_opened(lines.drop_last());
    }
}

proof fn lemma_changes(changes: Seq<Change>)
    requires
        forall|i: int| 0 <= i < changes.len() ==> (#[trigger] changes[i]).can_be_told(),
    ensures
        files_of(change_lines(changes)) == Seq::new(changes.len(), |i: int| changes[i].file()),
        counting(files_of(change_lines(changes))) == files_of(change_lines(changes)),
        forall|i: int|
            0 <= i < change_lines(changes).len() ==> text::fits_a_line(
                #[trigger] change_lines(changes)[i],
            ),
    decreases changes.len(),
{
    let files = Seq::new(changes.len(), |i: int| changes[i].file());
    if changes.len() == 0 {
        assert(files_of(change_lines(changes)) =~= files);
    } else {
        let before = changes.drop_last();
        assert forall|i: int| 0 <= i < before.len() implies (
        #[trigger] before[i]).can_be_told() by {
            assert(before[i] == changes[i]);
        }
        lemma_changes(before);
        let last = changes.last();
        assert(changes[changes.len() - 1].can_be_told());
        lemma_change(last);
        reveal_strlit("diff --git ");
        reveal_strlit("diff --git a/");
        assert(last.lines()[0].take(11) =~= "diff --git "@);
        law_patches_concatenate(change_lines(before), last.lines());
        assert(files_of(change_lines(changes)) =~= files);
        assert(files.drop_last() =~= files_of(change_lines(before)));
        assert(counts(last.file()));
        assert(counting(files) =~= files);
        lemma_change_fits(last);
        let lines = change_lines(changes);
        let n = change_lines(before).len();
        assert forall|i: int| 0 <= i < lines.len() implies text::fits_a_line(
            #[trigger] lines[i],
        ) by {
            if i < n {
                assert(lines[i] == change_lines(before)[i]);
            } else {
                assert(lines[i] == last.lines()[i - n]);
            }
        }
    }
}

proof fn lemma_change_fits(change: Change)
    requires
        change.can_be_told(),
    ensures
        forall|i: int|
            0 <= i < change.lines().len() ==> text::fits_a_line(#[trigger] change.lines()[i]),
{
    reveal_strlit("diff --git a/");
    reveal_strlit(" b/");
    reveal_strlit("--- a/");
    reveal_strlit("+++ b/");
    reveal_strlit("--- /dev/null");
    reveal_strlit("+++ /dev/null");
    let old = change.former_path();
    let new = change.path();
    lemma_word_fits(old);
    lemma_word_fits(new);
    lemma_line_fits("diff --git a/"@, old);
    lemma_line_fits("diff --git a/"@ + old, " b/"@);
    lemma_line_fits("diff --git a/"@ + old + " b/"@, new);
    lemma_line_fits("--- a/"@, old);
    lemma_line_fits("+++ b/"@, new);
    let lines = change.lines();
    let n = change.preface.len() as int;
    assert forall|i: int| 0 <= i < lines.len() implies text::fits_a_line(#[trigger] lines[i]) by {
        if 0 < i <= n {
            assert(lines[i] == change.preface[i - 1]);
        } else if i >= n + 3 {
            assert(lines[i] == change.hunks[i - n - 3]);
        }
    }
}

proof fn lemma_word_fits(path: Seq<char>)
    requires
        is_word(path),
    ensures
        text::fits_a_line(path),
{
    if path.contains('\n') {
        let k = choose|k: int| 0 <= k < path.len() && path[k] == '\n';
        assert(text::is_space(path[k]));
    }
    assert(!text::is_space(path[path.len() - 1]));
}

/// A patch that tells of changes is read back as all of them, in their order: new, deleted, renamed
/// and changed files, each under its paths, with the removed and the added lines of all its hunks in
/// their order. Lines without a sign, those that begin a hunk among them, change nothing, and neither
/// does what stands before the first file.
pub proof fn law_changes_read_back(preamble: Seq<Seq<char>>, changes: Seq<Change>)
    requires
        changes.len() > 0,
        forall|i: int| 0 <= i < changes.len() ==> (#[trigger] changes[i]).can_be_told(),
        forall|i: int|
            0 <= i < preamble.len() ==> text::fits_a_line(#[trigger] preamble[i])
                && !text::has_prefix(preamble[i], "diff --git "@),
    ensures
        read_patch(text::terminated(preamble + change_lines(changes))) == Ok::<
            Seq<FileModel>,
            ErrorModel,
        >(Seq::new(changes.len(), |i: int| changes[i].file())),
{
    let lines = change_lines(changes);
    let all = preamble + lines;
    lemma_changes(changes);
    assert forall|i: int| 0 <= i < all.len() implies text::fits_a_line(#[trigger] all[i]) by {
        if i < preamble.len() {
            assert(all[i] == preamble[i]);
        } else {
            assert(all[i] == lines[i - preamble.len()]);
        }
    }
    text::law_lines_read_back(all);
    lemma_first_change(changes);
    law_patches_concatenate(preamble, lines);
    assert forall|i: int| 0 <= i < preamble.len() implies !text::has_prefix(
        #[trigger] preamble[i],
        "diff --git "@,
    ) by {
        assert(text::fits_a_line(preamble[i]));
    }
    assert(files_of(all) =~= files_of(lines));
}

proof fn lemma_first_change(changes: Seq<Change>)
    requires
        changes.len() > 0,
    ensures
        change_lines(changes).len() > 0,
        text::has_prefix(change_lines(changes)[0], "diff --git "@),
    decreases changes.len(),
{
    reveal_strlit("diff --git ");
    reveal_strlit("diff --git a/");
    let before = changes.drop_last();
    let lines = change_lines(changes);
    if changes.len() > 1 {
        lemma_first_change(before);
        assert(lines[0] == change_lines(before)[0]);
    } else {
        assert(change_lines(before).len() == 0);
        assert(lines[0] == changes.last().lines()[0]);
        assert(lines[0].take(11) =~= "diff --git "@);
    }
}

/// A file counts where it has a path and a changed line, and the others are left out: of two lists of
/// files those count that count in each of them.
pub proof fn law_counting_files(first: Seq<FileModel>, second: Seq<FileModel>, file: FileModel)
    ensures
        counting(first + second) == counting(first) + counting(second),
        counting(seq![file]) == (if file.path.len() > 0 && file.added.len() + file.removed.len()
            > 0 {
            seq![file]
        } else {
            Seq::empty()
        }),
    decreases second.len(),
{
    if second.len() == 0 {
        assert(first + second =~= first);
        assert(counting(first) + counting(second) =~= counting(first));
    } else {
        law_counting_files(first, second.drop_last(), file);
        assert((first + second).drop_last() =~= first + second.drop_last());
        assert(counting(first + second) =~= counting(first) + counting(second));
    }
    reveal_with_fuel(counting, 2);
    assert(seq![file].drop_last() =~= Seq::empty());
    assert(counting(seq![file]) =~= (if file.path.len() > 0 && file.added.len()
        + file.removed.len() > 0 {
        seq![file]
    } else {
        Seq::empty()
    }));
}

/// The signs at the front of lines: the lines of two hunks are those of each of them.
pub proof fn law_hunks_add_up(first: Seq<Seq<char>>, second: Seq<Seq<char>>, sign: char)
    ensures
        behind_sign(first + second, sign) == behind_sign(first, sign) + behind_sign(second, sign),
    decreases second.len(),
{
    if second.len() == 0 {
        assert(first + second =~= first);
        assert(behind_sign(first, sign) + behind_sign(second, sign) =~= behind_sign(first, sign));
    } else {
        law_hunks_add_up(first, second.drop_last(), sign);
        assert((first + second).drop_last() =~= first + second.drop_last());
        assert(behind_sign(first + second, sign) =~= behind_sign(first, sign) + behind_sign(
            second,
            sign,
        ));
    }
}

/// A path loses the `a/` or `b/` in front of it, once, and nothing else; `/dev/null` names no path.
pub proof fn law_paths_lose_their_side(path: Seq<char>)
    ensures
        plain_path("a/"@ + path) == path,
        plain_path("b/"@ + path) == path,
        path.len() < 2 || path[1] != '/' || (path[0] != 'a' && path[0] != 'b') ==> plain_path(path)
            == path,
        named_path("/dev/null"@) is None,
        path != "/dev/null"@ ==> named_path(path) == Some(plain_path(path)),
{
    reveal_strlit("a/");
    reveal_strlit("b/");
    assert(("a/"@ + path).take(2) =~= "a/"@);
    assert(("b/"@ + path).take(2) =~= "b/"@);
    assert(("a/"@ + path).skip(2) =~= path);
    assert(("b/"@ + path).skip(2) =~= path);
    if path.len() >= 2 {
        assert(path.take(2)[0] == path[0] && path.take(2)[1] == path[1]);
    }
}

/// A `diff --git` line with one path opens the file of that path, which has no new path; one without a
/// path opens a file that cannot count.
pub proof fn law_openings_with_fewer_paths(path: Seq<char>, space: Seq<char>)
    requires
        is_word(path),
        text::all_space(space),
    ensures
        files_of(seq!["diff --git "@ + path]).len() == 1,
        files_of(seq!["diff --git "@ + path])[0].path == plain_path(path),
        files_of(seq!["diff --git "@ + path])[0].old_path == Some(plain_path(path)),
        files_of(seq!["diff --git "@ + path])[0].new_path == None::<Seq<char>>,
        files_of(seq!["diff --git "@ + space]).len() == 1,
        files_of(seq!["diff --git "@ + space])[0].path.len() == 0,
        files_of(seq!["diff --git "@ + space])[0].old_path == None::<Seq<char>>,
        files_of(seq!["diff --git "@ + space])[0].new_path == None::<Seq<char>>,
{
    reveal_strlit("diff --git ");
    reveal_with_fuel(files_of, 2);
    let one = "diff --git "@ + path;
    let none = "diff --git "@ + space;
    assert(one.take(11) =~= "diff --git "@ && one.skip(11) =~= path);
    assert(none.take(11) =~= "diff --git "@ && none.skip(11) =~= space);
    assert(seq![one].drop_last() =~= Seq::empty());
    assert(seq![none].drop_last() =~= Seq::empty());
    let empty = Seq::<char>::empty();
    assert(empty + path + empty =~= path);
    text::law_first_of_words(empty, path, empty);
    text::law_first_of_words(space, empty, empty);
    assert(text::word_seq(empty).len() == 0);
    assert(text::word_seq(path) =~= seq![path]);
}

} // verus!
