//! What is analyzed: the changed files, where they come from, and what plugins say of them.

use vstd::prelude::*;

use crate::report::{Confidence, ReasonKind};
use crate::text;

verus! {

/// Where the changed files come from.
#[derive(Clone, Copy, Debug, PartialEq, Eq, Structural)]
pub enum InputKind {
    PatchText,
    GitRevisionRange,
}

/// What to analyze.
#[derive(Clone, Debug)]
pub enum AnalyzeInput {
    PatchText { patch: String },
    GitRevisionRange { repo_root: String, base: String, head: String },
}

/// What to analyze, and the repository that it belongs to.
#[derive(Clone, Debug)]
pub struct AnalyzeRequest {
    pub input: AnalyzeInput,
    pub repo_root: Option<String>,
}

/// How often, and by how many authors, a file was changed before.
#[derive(Clone, Copy, Debug, Default, PartialEq, Eq, Structural)]
pub struct FileHistory {
    pub prior_commits: usize,
    pub prior_authors: usize,
}

/// One file of a patch.
#[derive(Clone, Debug)]
pub struct ChangedFile {
    pub path: String,
    pub old_path: Option<String>,
    pub new_path: Option<String>,
    pub added: Vec<String>,
    pub removed: Vec<String>,
    pub before_source: Option<String>,
    pub after_source: Option<String>,
    pub history: Option<FileHistory>,
}

/// A `ChangedFile` with its texts and lists as sequences.
#[verifier::ext_equal]
pub struct FileModel {
    pub path: Seq<char>,
    pub old_path: Option<Seq<char>>,
    pub new_path: Option<Seq<char>>,
    pub added: Seq<Seq<char>>,
    pub removed: Seq<Seq<char>>,
    pub before_source: Option<Seq<char>>,
    pub after_source: Option<Seq<char>>,
    pub history: Option<FileHistory>,
}

impl View for ChangedFile {
    type V = FileModel;

    open spec fn view(&self) -> FileModel {
        FileModel {
            path: self.path@,
            old_path: text::opt_view(self.old_path),
            new_path: text::opt_view(self.new_path),
            added: text::views(self.added@),
            removed: text::views(self.removed@),
            before_source: text::opt_view(self.before_source),
            after_source: text::opt_view(self.after_source),
            history: self.history,
        }
    }
}

/// What plugins get to see.
#[derive(Clone, Debug)]
pub struct AnalysisContext {
    pub input_kind: InputKind,
    pub repo_root: Option<String>,
    pub base_rev: Option<String>,
    pub head_rev: Option<String>,
    pub files: Vec<ChangedFile>,
}

/// An `AnalysisContext` with its texts and lists as sequences.
#[verifier::ext_equal]
pub struct ContextModel {
    pub input_kind: InputKind,
    pub repo_root: Option<Seq<char>>,
    pub base_rev: Option<Seq<char>>,
    pub head_rev: Option<Seq<char>>,
    pub files: Seq<FileModel>,
}

impl View for AnalysisContext {
    type V = ContextModel;

    open spec fn view(&self) -> ContextModel {
        ContextModel {
            input_kind: self.input_kind,
            repo_root: text::opt_view(self.repo_root),
            base_rev: text::opt_view(self.base_rev),
            head_rev: text::opt_view(self.head_rev),
            files: text::views(self.files@),
        }
    }
}

/// How a finding counts: as a candidate for the base score of its file, or on top of it.
#[derive(Clone, Copy, Debug, PartialEq, Eq, Structural)]
pub enum PluginScoreMode {
    Base,
    Additive,
}

/// One thing that a plugin found.
#[derive(Clone, Debug)]
pub struct PluginFinding {
    pub path: String,
    pub kind: ReasonKind,
    pub message: String,
    pub weight_override: Option<u32>,
    pub score_mode: PluginScoreMode,
}

/// A `PluginFinding` with its texts as sequences.
#[verifier::ext_equal]
pub struct FindingModel {
    pub path: Seq<char>,
    pub kind: ReasonKind,
    pub message: Seq<char>,
    pub weight_override: Option<u32>,
    pub score_mode: PluginScoreMode,
}

impl View for PluginFinding {
    type V = FindingModel;

    open spec fn view(&self) -> FindingModel {
        FindingModel {
            path: self.path@,
            kind: self.kind,
            message: self.message@,
            weight_override: self.weight_override,
            score_mode: self.score_mode,
        }
    }
}

/// All that a plugin found, and how far it can be relied on.
#[derive(Clone, Debug)]
pub struct PluginAnalysis {
    pub confidence: Confidence,
    pub findings: Vec<PluginFinding>,
}

/// A `PluginAnalysis` with its list as a sequence.
#[verifier::ext_equal]
pub struct AnalysisModel {
    pub confidence: Confidence,
    pub findings: Seq<FindingModel>,
}

impl View for PluginAnalysis {
    type V = AnalysisModel;

    open spec fn view(&self) -> AnalysisModel {
        AnalysisModel { confidence: self.confidence, findings: text::views(self.findings@) }
    }
}

impl PluginAnalysis {
    pub fn new(confidence: Confidence, findings: Vec<PluginFinding>) -> (r: PluginAnalysis)
        ensures
            r.confidence == confidence,
            r.findings == findings,
    {
        PluginAnalysis { confidence, findings }
    }
}

/// A source of findings. Nothing is asked of what it returns.
pub trait AnalyzerPlugin {
    fn id(&self) -> &'static str;

    fn analyze(&self, ctx: &AnalysisContext) -> PluginAnalysis;
}

/// A copy of an optional text.
pub fn clone_opt(value: &Option<String>) -> (r: Option<String>)
    ensures
        r == *value,
{
    match value {
        Some(inner) => Some(inner.clone()),
        None => None,
    }
}

/// Whether a path is one of a test file: it stands in a directory `tests`, or its name ends like
/// that of a test file of a language.
pub open spec fn is_test_path(path: Seq<char>) -> bool {
    let p = text::lowered(path);
    ||| text::has_infix(p, "/tests/"@)
    ||| text::has_prefix(p, "tests/"@)
    ||| text::has_suffix(p, "_test.go"@)
    ||| text::has_suffix(p, "_test.rs"@)
    ||| text::has_suffix(p, ".test.ts"@)
    ||| text::has_suffix(p, ".test.js"@)
    ||| text::has_suffix(p, ".spec.ts"@)
    ||| text::has_suffix(p, ".spec.js"@)
}

/// The last of the segments that is neither empty nor `.`.
pub open spec fn last_name(segments: Seq<Seq<char>>) -> Option<Seq<char>>
    decreases segments.len(),
{
    if segments.len() == 0 {
        None
    } else if segments.last().len() == 0 || segments.last() == "."@ {
        last_name(segments.drop_last())
    } else {
        Some(segments.last())
    }
}

/// The last position of `c` in `s`; -1 where it does not occur.
pub open spec fn last_position(s: Seq<char>, c: char) -> int
    decreases s.len(),
{
    if s.len() == 0 {
        -1
    } else if s.last() == c {
        s.len() - 1
    } else {
        last_position(s.drop_last(), c)
    }
}

/// What stands behind the last dot of the file name of a path. The file name is the last segment
/// that is neither empty nor `.`; there is none where that segment is `..`. A dot that begins the
/// file name does not count.
pub open spec fn extension(path: Seq<char>) -> Option<Seq<char>> {
    match last_name(text::split_seq(path, '/')) {
        Some(name) => if name == ".."@ || last_position(name, '.') <= 0 {
            None
        } else {
            Some(name.skip(last_position(name, '.') + 1))
        },
        None => None,
    }
}

/// The language of a path, by its extension.
pub open spec fn language_of(path: Seq<char>) -> Seq<char> {
    match extension(path) {
        Some(e) => if e == "rs"@ {
            "rust"@
        } else if e == "ts"@ || e == "tsx"@ {
            "typescript"@
        } else if e == "js"@ || e == "jsx"@ {
            "javascript"@
        } else if e == "go"@ {
            "go"@
        } else if e == "py"@ {
            "python"@
        } else {
            "unknown"@
        },
        None => "unknown"@,
    }
}

impl FileModel {
    pub open spec fn is_test(self) -> bool {
        is_test_path(self.path)
    }

    /// The added lines, then the removed ones.
    pub open spec fn changed(self) -> Seq<Seq<char>> {
        self.added + self.removed
    }
}

/// The last position of `c` in `chars`, plus 1; 0 where it does not occur.
pub fn find_last(chars: &Vec<char>, c: char) -> (r: usize)
    ensures
        r == last_position(chars@, c) + 1,
        r <= chars@.len(),
{
    let mut n: usize = chars.len();
    assert(chars@.take(n as int) =~= chars@);
    while n > 0
        invariant
            n <= chars@.len(),
            last_position(chars@.take(n as int), c) == last_position(chars@, c),
        decreases n,
    {
        assert(chars@.take(n as int).drop_last() =~= chars@.take(n - 1));
        if chars[n - 1] == c {
            return n;
        }
        n = n - 1;
    }
    0
}

/// The extension of a path.
pub fn path_extension(path: &str) -> (r: Option<String>)
    ensures
        text::opt_view(r) == extension(path@),
{
    let segments = text::split(path, '/');
    let ghost all = text::views(segments@);
    let mut n: usize = segments.len();
    assert(all.take(n as int) =~= all);
    while n > 0
        invariant
            n <= segments@.len(),
            all == text::views(segments@),
            all == text::split_seq(path@, '/'),
            last_name(all.take(n as int)) == last_name(all),
        decreases n,
    {
        let segment = segments[n - 1].as_str();
        proof {
            assert(all.take(n as int).last() == segment@);
            assert(all.take(n as int).drop_last() =~= all.take(n - 1));
        }
        if segment.is_empty() || text::same(segment, ".") {
            n = n - 1;
            continue;
        }
        let chars = text::chars_of(segment);
        let dot: usize = find_last(&chars, '.');
        if text::same(segment, "..") || dot <= 1 {
            return None;
        }
        let r = text::string_of(&chars, dot, chars.len());
        assert(r@ =~= segment@.skip(dot as int));
        return Some(r);
    }
    None
}

impl ChangedFile {
    /// Whether the file is a test file.
    pub fn is_test_file(&self) -> (r: bool)
        ensures
            r == self@.is_test(),
    {
        let path = text::to_lower(self.path.as_str());
        let p = path.as_str();
        text::contains(p, "/tests/") || text::starts_with(p, "tests/") || text::ends_with(
            p,
            "_test.go",
        ) || text::ends_with(p, "_test.rs") || text::ends_with(p, ".test.ts") || text::ends_with(
            p,
            ".test.js",
        ) || text::ends_with(p, ".spec.ts") || text::ends_with(p, ".spec.js")
    }

    /// The language of the file.
    pub fn language(&self) -> (r: &'static str)
        ensures
            r@ == language_of(self.path@),
    {
        match path_extension(self.path.as_str()) {
            Some(extension) => {
                let e = extension.as_str();
                if text::same(e, "rs") {
                    "rust"
                } else if text::same(e, "ts") || text::same(e, "tsx") {
                    "typescript"
                } else if text::same(e, "js") || text::same(e, "jsx") {
                    "javascript"
                } else if text::same(e, "go") {
                    "go"
                } else if text::same(e, "py") {
                    "python"
                } else {
                    "unknown"
                }
            },
            None => "unknown",
        }
    }
}

/// A path is that of a test by the directory `tests` that it lies in or by the end of its name,
/// whatever the case of its ASCII letters.
pub proof fn law_tests_are_known_by_their_path(path: Seq<char>)
    ensures
        ({
            let p = text::lowered(path);
            is_test_path(path) <==> {
                ||| exists|a: Seq<char>, b: Seq<char>| #[trigger] (a + "/tests/"@ + b) == p
                ||| exists|b: Seq<char>| #[trigger] ("tests/"@ + b) == p
                ||| exists|a: Seq<char>|
                    #[trigger] (a + "_test.go"@) == p || a + "_test.rs"@ == p || a + ".test.ts"@ == p
                        || a + ".test.js"@ == p || a + ".spec.ts"@ == p || a + ".spec.js"@ == p
            }
        }),
{
    let p = text::lowered(path);
    let dir = "/tests/"@;
    text::law_parts_of_texts(p, dir, p, p);
    text::law_parts_of_texts(p, "tests/"@, p, p);
    if text::has_infix(p, dir) {
        let i = choose|i: int|
            0 <= i <= p.len() - dir.len() && p == #[trigger] p.take(i) + dir + p.skip(
                i + dir.len(),
            );
        assert(p.take(i) + dir + p.skip(i + dir.len()) == p);
    }
    if exists|a: Seq<char>, b: Seq<char>| #[trigger] (a + "/tests/"@ + b) == p {
        let (a, b) = choose|a: Seq<char>, b: Seq<char>| #[trigger] (a + "/tests/"@ + b) == p;
        text::law_parts_of_texts(p, dir, a, b);
    }
    if text::has_prefix(p, "tests/"@) {
        assert("tests/"@ + p.skip("tests/"@.len() as int) == p);
    }
    if exists|b: Seq<char>| #[trigger] ("tests/"@ + b) == p {
        let b = choose|b: Seq<char>| #[trigger] ("tests/"@ + b) == p;
        text::law_parts_of_texts(p, "tests/"@, b, b);
    }
    lemma_ends(p, "_test.go"@);
    lemma_ends(p, "_test.rs"@);
    lemma_ends(p, ".test.ts"@);
    lemma_ends(p, ".test.js"@);
    lemma_ends(p, ".spec.ts"@);
    lemma_ends(p, ".spec.js"@);
    if text::has_suffix(p, "_test.go"@) || text::has_suffix(p, "_test.rs"@) || text::has_suffix(
        p,
        ".test.ts"@,
    ) || text::has_suffix(p, ".test.js"@) || text::has_suffix(p, ".spec.ts"@) || text::has_suffix(
        p,
        ".spec.js"@,
    ) {
        let end = if text::has_suffix(p, "_test.go"@) {
            "_test.go"@
        } else if text::has_suffix(p, "_test.rs"@) {
            "_test.rs"@
        } else if text::has_suffix(p, ".test.ts"@) {
            ".test.ts"@
        } else if text::has_suffix(p, ".test.js"@) {
            ".test.js"@
        } else if text::has_suffix(p, ".spec.ts"@) {
            ".spec.ts"@
        } else {
            ".spec.js"@
        };
        let a = p.take(p.len() - end.len());
        assert(a + end == p);
        assert(a + "_test.go"@ == a + "_test.go"@);
    }
}

proof fn lemma_ends(p: Seq<char>, end: Seq<char>)
    ensures
        text::has_suffix(p, end) ==> p == p.take(p.len() - end.len()) + end,
        forall|a: Seq<char>| #[trigger] (a + end) == p ==> text::has_suffix(p, end),
{
    text::law_parts_of_texts(p, end, p, p);
    assert forall|a: Seq<char>| #[trigger] (a + end) == p implies text::has_suffix(p, end) by {
        text::law_parts_of_texts(p, end, a, a);
    }
}

proof fn lemma_last_position(s: Seq<char>, c: char, n: int)
    requires
        -1 <= n < s.len(),
        n >= 0 ==> s[n] == c,
        forall|j: int| n < j < s.len() ==> #[trigger] s[j] != c,
    ensures
        last_position(s, c) == n,
    decreases s.len(),
{
    if s.len() > 0 && n < s.len() - 1 {
        assert(s[s.len() - 1] != c);
        let t = s.drop_last();
        assert forall|j: int| n < j < t.len() implies #[trigger] t[j] != c by {
            assert(t[j] == s[j]);
        }
        lemma_last_position(t, c, n);
    }
}

/// The extension of a path is what stands behind the last dot of its last name, where something stands
/// before the dot. A name without a dot has none, and neither has one whose only dot is its first
/// character.
pub proof fn law_extensions(segments: Seq<Seq<char>>, path: Seq<char>, stem: Seq<char>, end: Seq<char>)
    requires
        text::split_seq(path, '/') == segments,
        !end.contains('.'),
    ensures
        stem.len() > 0 && segments.len() > 0 && segments.last() == stem + "."@ + end
            && segments.last() != ".."@ ==> extension(path) == Some(end),
        segments.len() > 0 && segments.last() == end && end.len() > 0 ==> extension(path) is None,
        segments.len() > 0 && segments.last() == "."@ + end && end.len() > 0 ==> extension(path)
            is None,
{
    reveal_strlit(".");
    reveal_strlit("..");
    assert forall|j: int| 0 <= j < end.len() implies #[trigger] end[j] != '.' by {
        assert(end.contains(end[j]));
    }
    if segments.len() > 0 {
        let name = segments.last();
        if stem.len() > 0 && name == stem + "."@ + end {
            let n = stem.len() as int;
            assert(name[n] == '.');
            assert forall|j: int| n < j < name.len() implies #[trigger] name[j] != '.' by {
                assert(name[j] == end[j - n - 1]);
            }
            lemma_last_position(name, '.', n);
            assert(name.skip(n + 1) =~= end);
            assert(name.len() > 1);
        }
        if name == end && end.len() > 0 {
            assert(end[0] != '.');
            lemma_last_position(name, '.', -1);
        }
        if name == "."@ + end && end.len() > 0 {
            assert(name[0] == '.');
            assert forall|j: int| 0 < j < name.len() implies #[trigger] name[j] != '.' by {
                assert(name[j] == end[j - 1]);
            }
            lemma_last_position(name, '.', 0);
        }
    }
}

/// The language of a path by its extension.
pub proof fn law_languages(path: Seq<char>)
    ensures
        ({
            let language = language_of(path);
            let e = extension(path);
            &&& e == Some("rs"@) ==> language == "rust"@
            &&& e == Some("ts"@) || e == Some("tsx"@) ==> language == "typescript"@
            &&& e == Some("js"@) || e == Some("jsx"@) ==> language == "javascript"@
            &&& e == Some("go"@) ==> language == "go"@
            &&& e == Some("py"@) ==> language == "python"@
            &&& !(e == Some("rs"@) || e == Some("ts"@) || e == Some("tsx"@) || e == Some("js"@) || e
                == Some("jsx"@) || e == Some("go"@) || e == Some("py"@)) ==> language == "unknown"@
        }),
{
    reveal_strlit("rs");
    reveal_strlit("ts");
    reveal_strlit("tsx");
    reveal_strlit("js");
    reveal_strlit("jsx");
    reveal_strlit("go");
    reveal_strlit("py");
    assert("rs"@[0] == 'r' && "ts"@[0] == 't' && "tsx"@[0] == 't' && "js"@[0] == 'j' && "jsx"@[0]
        == 'j' && "go"@[0] == 'g' && "py"@[0] == 'p');
}

/// The changed lines of a file are the added ones and then the removed ones.
pub proof fn law_changed_lines(file: FileModel)
    ensures
        file.changed() == file.added + file.removed,
        file.is_test() == is_test_path(file.path),
{
}

} // verus!
