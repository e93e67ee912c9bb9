//! Generated files: which paths the rules of a `.gitattributes` file keep out of the scoring.
//!
//! Patterns are matched by the crate `globset`, on 64-bit targets where `/` is the only path
//! separator.

use vstd::prelude::*;

use crate::context::{ChangedFile, FileModel};
use crate::report::{AnalyzeError, ErrorModel};
use crate::text;

verus! {

/// `globset::GlobSet`: a set of compiled glob patterns.
#[verifier::external_type_specification]
#[verifier::external_body]
pub struct ExGlobSet(globset::GlobSet);

/// The patterns that a `globset::GlobSet` was built from.
pub uninterp spec fn globs_of(set: globset::GlobSet) -> Seq<Seq<char>>;

/// What `Glob::new` of `globset` objects to in a pattern, as the text of the kind of its error.
pub uninterp spec fn glob_error(pattern: Seq<char>) -> Option<Seq<char>>;

/// What `GlobSet::new` of `globset` objects to in a pattern that `Glob::new` could read, as the text
/// of its error.
pub uninterp spec fn set_error(pattern: Seq<char>) -> Option<Seq<char>>;

/// Whether a `globset::GlobSet` that holds a pattern matches a path by it.
pub uninterp spec fn glob_matches(pattern: Seq<char>, path: Seq<char>) -> bool;

/// What the next character of a pattern is part of. The first character of a class, behind the sign
/// that may negate it, belongs to the class even where it is a closing bracket.
#[derive(Clone, Copy, Debug, PartialEq, Eq, Structural)]
pub enum Place {
    Plain,
    Escape,
    ClassSign,
    ClassFirst,
    ClassRest,
}

/// A group that is not closed yet: where its brace stands in the two rewritten patterns, whether
/// anything but alternatives and groups without content stands in it, and the height of its tallest
/// group.
pub struct GroupModel {
    pub flat_at: nat,
    pub shrunk_at: nat,
    pub filled: bool,
    pub height: nat,
}

/// What was read of a pattern: what comes next, the open groups, the height of the tallest group that
/// was closed, and the pattern in two other forms. The flat one has no closed groups: their braces are
/// left out, and their content stays. The shrunk one has `{}` for each closed group without content.
pub struct Scan {
    pub place: Place,
    pub groups: Seq<GroupModel>,
    pub tallest: nat,
    pub flat: Seq<char>,
    pub shrunk: Seq<char>,
}

/// What the character behind `c` is part of.
pub open spec fn place_after(place: Place, c: char) -> Place {
    match place {
        Place::Plain => if c == '\\' {
            Place::Escape
        } else if c == '[' {
            Place::ClassSign
        } else {
            Place::Plain
        },
        Place::Escape => Place::Plain,
        Place::ClassSign => if c == '!' || c == '^' {
            Place::ClassFirst
        } else {
            Place::ClassRest
        },
        Place::ClassFirst => Place::ClassRest,
        Place::ClassRest => if c == ']' {
            Place::Plain
        } else {
            Place::ClassRest
        },
    }
}

/// The larger one of two numbers.
pub open spec fn at_least(n: nat, bound: nat) -> nat {
    if n < bound {
        bound
    } else {
        n
    }
}

/// The open groups behind something of the given height, where the innermost one gets content if it
/// is content.
pub open spec fn enclosing(groups: Seq<GroupModel>, content: bool, height: nat) -> Seq<GroupModel> {
    if groups.len() == 0 {
        groups
    } else {
        let group = groups.last();
        groups.drop_last().push(
            GroupModel {
                filled: group.filled || content,
                height: at_least(group.height, height),
                ..group
            },
        )
    }
}

/// The scan behind a closing brace that closes the innermost group.
pub open spec fn closed(before: Scan) -> Scan {
    let group = before.groups.last();
    let height = group.height + 1;
    Scan {
        place: Place::Plain,
        groups: enclosing(before.groups.drop_last(), group.filled, height),
        tallest: at_least(before.tallest, height),
        flat: before.flat.remove(group.flat_at as int),
        shrunk: if group.filled {
            before.shrunk.push('}')
        } else {
            before.shrunk.take(group.shrunk_at as int) + "{}"@
        },
    }
}

/// The scan behind one more character. Braces and commas have a meaning where they are neither escaped
/// nor in a class.
pub open spec fn scanned(before: Scan, c: char) -> Scan {
    if before.place == Place::Plain && c == '}' && before.groups.len() > 0 {
        closed(before)
    } else {
        Scan {
            place: place_after(before.place, c),
            groups: if before.place == Place::Plain && c == '{' {
                before.groups.push(
                    GroupModel {
                        flat_at: before.flat.len(),
                        shrunk_at: before.shrunk.len(),
                        filled: false,
                        height: 0,
                    },
                )
            } else if before.place == Place::Plain && c == ',' {
                before.groups
            } else {
                enclosing(before.groups, true, 0)
            },
            tallest: before.tallest,
            flat: before.flat.push(c),
            shrunk: before.shrunk.push(c),
        }
    }
}

/// The scan of a pattern.
pub open spec fn scan(pattern: Seq<char>) -> Scan
    decreases pattern.len(),
{
    if pattern.len() == 0 {
        Scan {
            place: Place::Plain,
            groups: Seq::empty(),
            tallest: 0,
            flat: Seq::empty(),
            shrunk: Seq::empty(),
        }
    } else {
        scanned(scan(pattern.drop_last()), pattern.last())
    }
}

/// Whether a pattern is small enough to be handed to `globset`, which counts the states of its
/// automata in 31 bits and descends into closed groups by recursion.
pub open spec fn manageable(pattern: Seq<char>) -> bool {
    pattern.len() <= 0x1000_0000 && scan(pattern).tallest <= 1000
}

/// `Glob::new` of `globset`: reads a pattern, or hands back the kind of the error as text. Claimed is
/// that the error depends on the pattern alone.
#[verifier::external_body]
fn read_glob(pattern: &str) -> (r: Result<(), String>)
    requires
        manageable(pattern@),
    ensures
        match r {
            Ok(_) => glob_error(pattern@) is None,
            Err(error) => glob_error(pattern@) == Some(error@),
        },
{
    globset::Glob::new(pattern).map(|_| ()).map_err(|error| error.kind().to_string())
}

/// `GlobSet::new` of `globset`: builds the set that holds one pattern, read by `Glob::new`, and
/// nothing else, or hands back the text of the error. Claimed are that the error depends on the
/// pattern alone, and that the set remembers the pattern. A set is built, and not a single matcher,
/// because it reports a pattern that is too costly to compile where the matcher would panic.
#[verifier::external_body]
fn build_set(pattern: &str) -> (r: Result<globset::GlobSet, String>)
    requires
        manageable(pattern@),
        glob_error(pattern@) is None,
    ensures
        match r {
            Ok(set) => set_error(pattern@) is None && globs_of(set) == seq![pattern@],
            Err(error) => set_error(pattern@) == Some(error@),
        },
{
    globset::GlobSet::new(globset::Glob::new(pattern).ok()).map_err(|error| error.to_string())
}

/// `GlobSet::is_match` of `globset`: whether one of the patterns of the set matches the path.
#[verifier::external_body]
fn set_matches(set: &globset::GlobSet, path: &str) -> (r: bool)
    ensures
        r == (exists|i: int|
            0 <= i < globs_of(*set).len() && glob_matches(#[trigger] globs_of(*set)[i], path@)),
{
    set.is_match(path)
}

/// The `.gitattributes` file of a repository.
#[derive(Clone, Debug)]
pub enum GitAttributes {
    Absent,
    Unreadable(String),
    Text(String),
}

/// A `GitAttributes` with its text as a sequence.
pub enum AttributesModel {
    Absent,
    Unreadable(Seq<char>),
    Text(Seq<char>),
}

impl View for GitAttributes {
    type V = AttributesModel;

    open spec fn view(&self) -> AttributesModel {
        match self {
            GitAttributes::Absent => AttributesModel::Absent,
            GitAttributes::Unreadable(error) => AttributesModel::Unreadable(error@),
            GitAttributes::Text(contents) => AttributesModel::Text(contents@),
        }
    }
}

/// The attributes of a repository, where it is known.
pub open spec fn attributes_view(attributes: Option<&GitAttributes>) -> Option<AttributesModel> {
    match attributes {
        Some(attributes) => Some(attributes@),
        None => None,
    }
}

/// Whether a pattern consists of pieces `**/` alone.
pub open spec fn anywhere(pattern: Seq<char>) -> bool {
    &&& pattern.len() > 0
    &&& pattern.len() % 3 == 0
    &&& forall|i: int|
        0 <= i < pattern.len() ==> #[trigger] pattern[i] == (if i % 3 == 2 {
            '/'
        } else {
            '*'
        })
}

/// A pattern as a set gets it: in its shrunk form, with an empty group behind it.
///
/// Groups without content stand for nothing, so that the same paths are matched. But a set runs a
/// pattern with a group on the whole path, where for some other patterns it looks at the name of the
/// file alone, and takes a path that ends in `..` to have none. The pieces `**/` match any path where
/// nothing stands behind them, and the directories of a path where something does: a pattern of such
/// pieces alone is written `**`, which matches any path with a group behind it too.
pub open spec fn whole(pattern: Seq<char>) -> Seq<char> {
    if anywhere(pattern) {
        "**{}"@
    } else {
        scan(pattern).shrunk + "{}"@
    }
}

/// One rule: the paths that one of its patterns matches are generated, or are not.
#[derive(Debug)]
pub struct GeneratedRule {
    pub matchers: Vec<globset::GlobSet>,
    pub generated: bool,
}

/// A `GeneratedRule` by the patterns that its matchers hold.
#[verifier::ext_equal]
pub struct RuleModel {
    pub patterns: Seq<Seq<char>>,
    pub generated: bool,
}

impl View for GeneratedRule {
    type V = RuleModel;

    open spec fn view(&self) -> RuleModel {
        RuleModel {
            patterns: Seq::new(self.matchers@.len(), |i: int| globs_of(self.matchers@[i])[0]),
            generated: self.generated,
        }
    }
}

impl GeneratedRule {
    /// Each matcher holds one pattern.
    pub open spec fn well_formed(self) -> bool {
        forall|i: int|
            0 <= i < self.matchers@.len() ==> globs_of(#[trigger] self.matchers@[i]).len() == 1
    }
}

/// The rules of a `.gitattributes` file that speak of generated files.
#[derive(Debug)]
pub struct GeneratedFileMatcher {
    pub rules: Vec<GeneratedRule>,
}

impl GeneratedFileMatcher {
    pub open spec fn well_formed(self) -> bool {
        forall|i: int| 0 <= i < self.rules@.len() ==> (#[trigger] self.rules@[i]).well_formed()
    }
}

/// What an attribute says of a target: `target` sets it, `-target` and `!target` unset it, and so
/// do `target=false` and `target=unset`, while any other `target=value` sets it.
pub open spec fn setting(attribute: Seq<char>, target: Seq<char>) -> Option<bool> {
    if attribute == target {
        Some(true)
    } else if attribute == "-"@ + target || attribute == "!"@ + target {
        Some(false)
    } else {
        match text::split_pair(attribute, '=') {
            Some((name, value)) => if name == target {
                Some(value != "false"@ && value != "unset"@)
            } else {
                None
            },
            None => None,
        }
    }
}

/// What an attribute says of the last target that it speaks of.
pub open spec fn setting_of_any(attribute: Seq<char>, targets: Seq<Seq<char>>) -> Option<bool>
    decreases targets.len(),
{
    if targets.len() == 0 {
        None
    } else {
        match setting(attribute, targets.last()) {
            Some(enabled) => Some(enabled),
            None => setting_of_any(attribute, targets.drop_last()),
        }
    }
}

/// What the last attribute that speaks of a target says of it.
pub open spec fn last_setting(attributes: Seq<Seq<char>>, targets: Seq<Seq<char>>) -> Option<bool>
    decreases attributes.len(),
{
    if attributes.len() == 0 {
        None
    } else {
        match setting_of_any(attributes.last(), targets) {
            Some(enabled) => Some(enabled),
            None => last_setting(attributes.drop_last(), targets),
        }
    }
}

/// The patterns that a rule stands for: a pattern without a slash matches at any depth.
pub open spec fn patterns_of(pattern: Seq<char>) -> Seq<Seq<char>> {
    if pattern.contains('/') {
        seq![pattern]
    } else {
        seq![pattern, "**/"@ + pattern]
    }
}

/// The rule for a pattern.
pub open spec fn rule_for(pattern: Seq<char>, generated: bool) -> RuleModel {
    RuleModel {
        patterns: Seq::new(patterns_of(pattern).len(), |i: int| whole(patterns_of(pattern)[i])),
        generated,
    }
}

/// The pattern of the rule that a line holds, and what the rule says, where the line is neither blank
/// nor a comment and speaks of a target.
pub open spec fn rule_of(line: Seq<char>, targets: Seq<Seq<char>>) -> Option<(Seq<char>, bool)> {
    let t = text::trimmed(line);
    let words = text::word_seq(t);
    if t.len() == 0 || t[0] == '#' || words.len() == 0 {
        None
    } else {
        match last_setting(words.skip(1), targets) {
            Some(generated) => Some((words[0], generated)),
            None => None,
        }
    }
}

/// What keeps a pattern from being read in the form in which it is handed over.
pub open spec fn reading_error(pattern: Seq<char>, handed: Seq<char>) -> Option<Seq<char>> {
    if !manageable(handed) {
        Some("pattern is too large"@)
    } else {
        match glob_error(handed) {
            Some(kind) => Some("error parsing glob '"@ + pattern + "': "@ + kind),
            None => None,
        }
    }
}

/// What is wrong with a pattern: what keeps it from being read, or from being built. The braces of
/// closed groups have no part in what can be wrong with its syntax, so that it is read in its flat
/// form first.
pub open spec fn pattern_error(pattern: Seq<char>) -> Option<Seq<char>> {
    match reading_error(pattern, scan(pattern).flat) {
        Some(error) => Some(error),
        None => match reading_error(pattern, whole(pattern)) {
            Some(error) => Some(error),
            None => set_error(whole(pattern)),
        },
    }
}

/// The error on the first of the patterns that has one.
pub open spec fn first_error(patterns: Seq<Seq<char>>) -> Option<ErrorModel>
    decreases patterns.len(),
{
    if patterns.len() == 0 {
        None
    } else {
        match first_error(patterns.drop_last()) {
            Some(error) => Some(error),
            None => match pattern_error(patterns.last()) {
                Some(error) => Some(
                    ErrorModel::Command(
                        "invalid .gitattributes pattern `"@ + patterns.last() + "`: "@ + error,
                    ),
                ),
                None => None,
            },
        }
    }
}

/// The rules of the lines, in their order, or the error on the first rule with a wrong pattern.
pub open spec fn rules_of(
    lines: Seq<Seq<char>>,
    targets: Seq<Seq<char>>,
) -> Result<Seq<RuleModel>, ErrorModel>
    decreases lines.len(),
{
    if lines.len() == 0 {
        Ok(Seq::empty())
    } else {
        match rules_of(lines.drop_last(), targets) {
            Err(error) => Err(error),
            Ok(rules) => match rule_of(lines.last(), targets) {
                None => Ok(rules),
                Some((pattern, generated)) => match first_error(patterns_of(pattern)) {
                    Some(error) => Err(error),
                    None => Ok(rules.push(rule_for(pattern, generated))),
                },
            },
        }
    }
}

/// The attribute names without the white space around them, as far as anything is left of them.
pub open spec fn target_names(names: Seq<Seq<char>>) -> Seq<Seq<char>>
    decreases names.len(),
{
    if names.len() == 0 {
        Seq::empty()
    } else {
        let before = target_names(names.drop_last());
        let name = text::trimmed(names.last());
        if name.len() > 0 {
            before.push(name)
        } else {
            before
        }
    }
}

/// The rules that a `.gitattributes` file has for the attribute names. The file is looked at only
/// where there are such names.
pub open spec fn loaded_rules(
    attributes: AttributesModel,
    names: Seq<Seq<char>>,
) -> Result<Seq<RuleModel>, ErrorModel> {
    if names.len() == 0 {
        Ok(Seq::empty())
    } else {
        match attributes {
            AttributesModel::Absent => Ok(Seq::empty()),
            AttributesModel::Unreadable(error) => Err(ErrorModel::Io(error)),
            AttributesModel::Text(contents) => if target_names(names).len() == 0 {
                Ok(Seq::empty())
            } else {
                rules_of(text::line_seq(contents), target_names(names))
            },
        }
    }
}

/// Whether one of the patterns of a rule matches a path.
pub open spec fn applies(rule: RuleModel, path: Seq<char>) -> bool {
    exists|i: int|
        0 <= i < rule.patterns.len() && glob_matches(#[trigger] rule.patterns[i], path)
}

/// What the last rule that applies to a path says of it; not generated where none applies.
pub open spec fn last_word(rules: Seq<RuleModel>, path: Seq<char>) -> bool
    decreases rules.len(),
{
    if rules.len() == 0 {
        false
    } else if applies(rules.last(), path) {
        rules.last().generated
    } else {
        last_word(rules.drop_last(), path)
    }
}

/// Whether the rules make a path generated. Backslashes count as slashes.
pub open spec fn generated_path(rules: Seq<RuleModel>, path: Seq<char>) -> bool {
    last_word(rules, text::replaced(path, '\\', '/'))
}

/// The files that the rules do not make generated.
pub open spec fn handwritten(files: Seq<FileModel>, rules: Seq<RuleModel>) -> Seq<FileModel>
    decreases files.len(),
{
    if files.len() == 0 {
        Seq::empty()
    } else if generated_path(rules, files.last().path) {
        handwritten(files.drop_last(), rules)
    } else {
        handwritten(files.drop_last(), rules).push(files.last())
    }
}

/// The files that are to be scored: all of them where the repository is not known.
pub open spec fn scored_files(
    files: Seq<FileModel>,
    attributes: Option<AttributesModel>,
    names: Seq<Seq<char>>,
) -> Result<Seq<FileModel>, ErrorModel> {
    match attributes {
        None => Ok(files),
        Some(attributes) => match loaded_rules(attributes, names) {
            Ok(rules) => Ok(handwritten(files, rules)),
            Err(error) => Err(error),
        },
    }
}

/// What an attribute says of a target.
pub fn parse_gitattributes_attribute(attribute: &str, target: &str) -> (r: Option<bool>)
    ensures
        r == setting(attribute@, target@),
{
    if text::same(attribute, target) {
        return Some(true);
    }
    let minus = "-".to_string().concat(target);
    let bang = "!".to_string().concat(target);
    if text::same(attribute, minus.as_str()) || text::same(attribute, bang.as_str()) {
        return Some(false);
    }
    match text::split_once(attribute, '=') {
        Some((name, value)) => if text::same(name, target) {
            Some(!(text::same(value, "false") || text::same(value, "unset")))
        } else {
            None
        },
        None => None,
    }
}

/// What the last attribute that speaks of a target says of it. The attributes are the words from
/// `from` on.
pub fn extract_skip_rule(words: &Vec<String>, from: usize, skip_attributes: &Vec<String>) -> (r:
    Option<bool>)
    requires
        from <= words@.len(),
    ensures
        r == last_setting(
            text::views(words@).skip(from as int),
            text::views(skip_attributes@),
        ),
{
    let ghost attributes = text::views(words@).skip(from as int);
    let ghost targets = text::views(skip_attributes@);
    let mut n: usize = words.len();
    assert(attributes.take(n - from) =~= attributes);
    while n > from
        invariant
            from <= n <= words@.len(),
            attributes == text::views(words@).skip(from as int),
            targets == text::views(skip_attributes@),
            last_setting(attributes.take(n - from), targets) == last_setting(attributes, targets),
        decreases n,
    {
        let ghost shorter = attributes.take(n - from);
        assert(shorter.drop_last() =~= attributes.take(n - 1 - from));
        assert(shorter.last() == words@[n - 1]@);
        let mut m: usize = skip_attributes.len();
        assert(targets.take(m as int) =~= targets);
        while m > 0
            invariant
                m <= skip_attributes@.len(),
                from < n <= words@.len(),
                attributes == text::views(words@).skip(from as int),
                targets == text::views(skip_attributes@),
                shorter == attributes.take(n - from),
                shorter.last() == words@[n - 1]@,
                last_setting(shorter, targets) == last_setting(attributes, targets),
                setting_of_any(words@[n - 1]@, targets.take(m as int)) == setting_of_any(
                    words@[n - 1]@,
                    targets,
                ),
            decreases m,
        {
            assert(targets.take(m as int).drop_last() =~= targets.take(m - 1));
            assert(targets.take(m as int).last() == skip_attributes@[m - 1]@);
            let found = parse_gitattributes_attribute(
                words[n - 1].as_str(),
                skip_attributes[m - 1].as_str(),
            );
            if found.is_some() {
                return found;
            }
            m = m - 1;
        }
        n = n - 1;
    }
    None
}

fn trimmed_names(names: &Vec<String>) -> (r: Vec<String>)
    ensures
        text::views(r@) == target_names(text::views(names@)),
{
    let ghost all = text::views(names@);
    let mut r: Vec<String> = Vec::new();
    let mut i: usize = 0;
    assert(all.take(0) =~= Seq::empty());
    assert(text::views(r@) =~= target_names(all.take(0)));
    while i < names.len()
        invariant
            i <= names@.len(),
            all == text::views(names@),
            text::views(r@) =~= target_names(all.take(i as int)),
        decreases names@.len() - i,
    {
        let ghost before = text::views(r@);
        assert(all.take(i + 1).drop_last() =~= all.take(i as int));
        assert(all.take(i + 1).last() == names@[i as int]@);
        let name = text::trim(names[i].as_str());
        if !name.is_empty() {
            r.push(name.to_owned());
            assert(text::views(r@) =~= before.push(name@));
        }
        i = i + 1;
    }
    assert(all.take(i as int) =~= all);
    r
}

fn next_place(place: Place, c: char) -> (r: Place)
    ensures
        r == place_after(place, c),
{
    match place {
        Place::Plain => if c == '\\' {
            Place::Escape
        } else if c == '[' {
            Place::ClassSign
        } else {
            Place::Plain
        },
        Place::Escape => Place::Plain,
        Place::ClassSign => if c == '!' || c == '^' {
            Place::ClassFirst
        } else {
            Place::ClassRest
        },
        Place::ClassFirst => Place::ClassRest,
        Place::ClassRest => if c == ']' {
            Place::Plain
        } else {
            Place::ClassRest
        },
    }
}

#[derive(Clone, Copy)]
struct Group {
    flat_at: usize,
    shrunk_at: usize,
    filled: bool,
    height: usize,
}

impl View for Group {
    type V = GroupModel;

    closed spec fn view(&self) -> GroupModel {
        GroupModel {
            flat_at: self.flat_at as nat,
            shrunk_at: self.shrunk_at as nat,
            filled: self.filled,
            height: self.height as nat,
        }
    }
}

/// Each group has its brace in both forms, behind those of the groups around it.
spec fn placed(groups: Seq<Group>, flat: Seq<char>, shrunk: Seq<char>, bound: nat) -> bool {
    &&& forall|j: int|
        0 <= j < groups.len() ==> (#[trigger] groups[j]).flat_at < flat.len() && groups[j].shrunk_at
            < shrunk.len() && groups[j].height <= bound
    &&& forall|j: int, k: int|
        0 <= j < k < groups.len() ==> (#[trigger] groups[j]).flat_at < (
        #[trigger] groups[k]).flat_at && groups[j].shrunk_at < groups[k].shrunk_at
}

fn note(groups: &mut Vec<Group>, content: bool, height: usize)
    ensures
        text::views(final(groups)@) == enclosing(
            text::views(old(groups)@),
            content,
            height as nat,
        ),
        final(groups)@.len() == old(groups)@.len(),
        forall|j: int|
            0 <= j < old(groups)@.len() ==> (#[trigger] final(groups)@[j]).flat_at == old(
                groups,
            )@[j].flat_at && final(groups)@[j].shrunk_at == old(groups)@[j].shrunk_at && (
            final(groups)@[j].height == old(groups)@[j].height || final(groups)@[j].height
                == height),
{
    let ghost start = groups@;
    match groups.pop() {
        Some(group) => {
            let noted = Group {
                filled: group.filled || content,
                height: if group.height < height {
                    height
                } else {
                    group.height
                },
                ..group
            };
            groups.push(noted);
            assert(text::views(groups@) =~= text::views(start).drop_last().push(noted@));
        },
        None => {
            assert(text::views(groups@) =~= text::views(start));
        },
    }
}

struct Forms {
    tallest: usize,
    flat: Vec<char>,
    shrunk: Vec<char>,
}

fn scan_pattern(pattern: &str) -> (r: Forms)
    ensures
        r.tallest == scan(pattern@).tallest,
        r.flat@ == scan(pattern@).flat,
        r.shrunk@ == scan(pattern@).shrunk,
{
    let chars = text::chars_of(pattern);
    let mut place = Place::Plain;
    let mut groups: Vec<Group> = Vec::new();
    let mut tallest: usize = 0;
    let mut flat: Vec<char> = Vec::new();
    let mut shrunk: Vec<char> = Vec::new();
    let mut i: usize = 0;
    assert(text::views(groups@) =~= Seq::empty());
    while i < chars.len()
        invariant
            i <= chars@.len(),
            placed(groups@, flat@, shrunk@, i as nat),
            scan(chars@.take(i as int)) == (Scan {
                place,
                groups: text::views(groups@),
                tallest: tallest as nat,
                flat: flat@,
                shrunk: shrunk@,
            }),
        decreases chars@.len() - i,
    {
        let ghost before = scan(chars@.take(i as int));
        let ghost open = groups@;
        let c = chars[i];
        proof {
            assert(chars@.take(i + 1).drop_last() =~= chars@.take(i as int));
            assert(scan(chars@.take(i + 1)) == scanned(before, c));
        }
        if place == Place::Plain && c == '}' && groups.len() > 0 {
            let group = groups[groups.len() - 1];
            groups.pop();
            assert(text::views(groups@) =~= text::views(open).drop_last());
            let height: usize = group.height + 1;
            note(&mut groups, group.filled, height);
            if tallest < height {
                tallest = height;
            }
            flat.remove(group.flat_at);
            if group.filled {
                shrunk.push('}');
            } else {
                shrunk.truncate(group.shrunk_at);
                shrunk.push('{');
                shrunk.push('}');
                proof {
                    reveal_strlit("{}");
                    assert(shrunk@ =~= before.shrunk.take(group.shrunk_at as int) + "{}"@);
                }
            }
        } else {
            if place == Place::Plain && c == '{' {
                let group = Group {
                    flat_at: flat.len(),
                    shrunk_at: shrunk.len(),
                    filled: false,
                    height: 0,
                };
                groups.push(group);
                assert(text::views(groups@) =~= text::views(open).push(group@));
            } else if place == Place::Plain && c == ',' {
            } else {
                note(&mut groups, true, 0);
            }
            place = next_place(place, c);
            flat.push(c);
            shrunk.push(c);
        }
        i = i + 1;
    }
    assert(chars@.take(i as int) =~= chars@);
    Forms { tallest, flat, shrunk }
}

fn is_anywhere(pattern: &str) -> (r: bool)
    ensures
        r == anywhere(pattern@),
{
    let chars = text::chars_of(pattern);
    if chars.len() == 0 || chars.len() % 3 != 0 {
        return false;
    }
    let mut i: usize = 0;
    while i < chars.len()
        invariant
            i <= chars@.len(),
            chars@ == pattern@,
            forall|j: int|
                0 <= j < i ==> #[trigger] chars@[j] == (if j % 3 == 2 {
                    '/'
                } else {
                    '*'
                }),
        decreases chars@.len() - i,
    {
        if chars[i] != (if i % 3 == 2 {
            '/'
        } else {
            '*'
        }) {
            return false;
        }
        i = i + 1;
    }
    true
}

fn read_pattern(pattern: &str, handed: &str) -> (r: Result<(), String>)
    ensures
        match r {
            Ok(_) => reading_error(pattern@, handed@) is None && manageable(handed@) && glob_error(
                handed@,
            ) is None,
            Err(error) => reading_error(pattern@, handed@) == Some(error@),
        },
{
    if handed.unicode_len() > 0x1000_0000 || scan_pattern(handed).tallest > 1000 {
        return Err("pattern is too large".to_string());
    }
    match read_glob(handed) {
        Ok(_) => Ok(()),
        Err(kind) => Err(
            "error parsing glob '".to_string().concat(pattern).concat("': ").concat(kind.as_str()),
        ),
    }
}

fn build_pattern(pattern: &str) -> (r: Result<globset::GlobSet, String>)
    ensures
        match r {
            Ok(set) => pattern_error(pattern@) is None && globs_of(set) == seq![whole(pattern@)],
            Err(error) => pattern_error(pattern@) == Some(error@),
        },
{
    let forms = scan_pattern(pattern);
    let flat = text::string_of(&forms.flat, 0, forms.flat.len());
    assert(flat@ =~= forms.flat@);
    match read_pattern(pattern, flat.as_str()) {
        Ok(_) => {},
        Err(error) => {
            return Err(error);
        },
    }
    let all = if is_anywhere(pattern) {
        "**{}".to_string()
    } else {
        let shrunk = text::string_of(&forms.shrunk, 0, forms.shrunk.len());
        assert(shrunk@ =~= forms.shrunk@);
        shrunk.concat("{}")
    };
    match read_pattern(pattern, all.as_str()) {
        Ok(_) => build_set(all.as_str()),
        Err(error) => Err(error),
    }
}

fn compile_pattern(pattern: &str) -> (r: Result<globset::GlobSet, AnalyzeError>)
    ensures
        match r {
            Ok(set) => pattern_error(pattern@) is None && globs_of(set) == seq![whole(pattern@)],
            Err(error) => pattern_error(pattern@) is Some && error@ == ErrorModel::Command(
                "invalid .gitattributes pattern `"@ + pattern@ + "`: "@ + pattern_error(pattern@)->0,
            ),
        },
{
    match build_pattern(pattern) {
        Ok(set) => Ok(set),
        Err(error) => Err(
            AnalyzeError::Command(
                "invalid .gitattributes pattern `".to_string().concat(pattern).concat("`: ").concat(
                    error.as_str(),
                ),
            ),
        ),
    }
}

/// The matchers of a pattern.
pub fn compile_gitattributes_matchers(pattern: &str) -> (r: Result<
    Vec<globset::GlobSet>,
    AnalyzeError,
>)
    ensures
        match first_error(patterns_of(pattern@)) {
            Some(error) => r is Err && r->Err_0@ == error,
            None => {
                &&& r is Ok
                &&& r->Ok_0@.len() == patterns_of(pattern@).len()
                &&& forall|i: int|
                    0 <= i < r->Ok_0@.len() ==> globs_of(#[trigger] r->Ok_0@[i]) == seq![
                        whole(patterns_of(pattern@)[i]),
                    ]
            },
        },
{
    let ghost patterns = patterns_of(pattern@);
    let mut matchers: Vec<globset::GlobSet> = Vec::new();
    proof {
        reveal_with_fuel(first_error, 3);
        let one = seq![pattern@];
        assert(one.drop_last() =~= Seq::empty());
        let two = seq![pattern@, "**/"@ + pattern@];
        assert(two.drop_last() =~= one);
    }
    match compile_pattern(pattern) {
        Ok(set) => matchers.push(set),
        Err(error) => {
            return Err(error);
        },
    }
    if !text::contains_char(pattern, '/') {
        let deep = "**/".to_string().concat(pattern);
        match compile_pattern(deep.as_str()) {
            Ok(set) => matchers.push(set),
            Err(error) => {
                return Err(error);
            },
        }
    }
    Ok(matchers)
}

/// The rules that the file has for the attribute names; none where it has none.
pub fn load_generated_file_matcher(
    attributes: &GitAttributes,
    skip_attributes: &Vec<String>,
) -> (r: Result<Option<GeneratedFileMatcher>, AnalyzeError>)
    ensures
        match loaded_rules(attributes@, text::views(skip_attributes@)) {
            Ok(rules) => match r {
                Ok(Some(matcher)) => rules.len() > 0 && matcher.well_formed() && text::views(
                    matcher.rules@,
                ) == rules,
                Ok(None) => rules.len() == 0,
                Err(_) => false,
            },
            Err(error) => r is Err && r->Err_0@ == error,
        },
{
    if skip_attributes.len() == 0 {
        return Ok(None);
    }
    let contents = match attributes {
        GitAttributes::Absent => {
            return Ok(None);
        },
        GitAttributes::Unreadable(error) => {
            return Err(AnalyzeError::Io(error.clone()));
        },
        GitAttributes::Text(contents) => contents,
    };
    let names = trimmed_names(skip_attributes);
    if names.len() == 0 {
        return Ok(None);
    }
    let ghost targets = text::views(names@);
    let lines = text::lines(contents.as_str());
    let ghost all = text::line_seq(contents@);
    let mut rules: Vec<GeneratedRule> = Vec::new();
    let mut i: usize = 0;
    assert(all.take(0) =~= Seq::empty());
    assert(text::views(rules@) =~= Seq::empty());
    while i < lines.len()
        invariant
            i <= lines@.len(),
            all == text::views(lines@),
            all == text::line_seq(contents@),
            targets == text::views(names@),
            targets == target_names(text::views(skip_attributes@)),
            targets.len() > 0,
            skip_attributes@.len() > 0,
            attributes@ == AttributesModel::Text(contents@),
            rules_of(all.take(i as int), targets) == Ok::<Seq<RuleModel>, ErrorModel>(
                text::views(rules@),
            ),
            forall|k: int| 0 <= k < rules@.len() ==> (#[trigger] rules@[k]).well_formed(),
        decreases lines@.len() - i,
    {
        let ghost before = text::views(rules@);
        let line = lines[i].as_str();
        assert(all.take(i + 1).drop_last() =~= all.take(i as int));
        assert(all.take(i + 1).last() == line@);
        i = i + 1;
        let trimmed = text::trim(line);
        if trimmed.is_empty() || trimmed.get_char(0) == '#' {
            continue;
        }
        let words = text::words(trimmed);
        assert(words@.len() == text::word_seq(trimmed@).len());
        if words.len() == 0 {
            continue;
        }
        assert(words@[0]@ == text::word_seq(trimmed@)[0]);
        let generated = match extract_skip_rule(&words, 1, &names) {
            Some(generated) => generated,
            None => {
                continue;
            },
        };
        match compile_gitattributes_matchers(words[0].as_str()) {
            Ok(matchers) => {
                let rule = GeneratedRule { matchers, generated };
                assert(rule@ =~= rule_for(words@[0]@, generated));
                rules.push(rule);
                assert(text::views(rules@) =~= before.push(rule@));
            },
            Err(error) => {
                proof {
                    lemma_error_stays(all, i as int, targets);
                }
                return Err(error);
            },
        }
    }
    assert(all.take(i as int) =~= all);
    if rules.len() == 0 {
        return Ok(None);
    }
    Ok(Some(GeneratedFileMatcher { rules }))
}

proof fn lemma_error_stays(lines: Seq<Seq<char>>, n: int, targets: Seq<Seq<char>>)
    requires
        0 <= n <= lines.len(),
        rules_of(lines.take(n), targets) is Err,
    ensures
        rules_of(lines, targets) == rules_of(lines.take(n), targets),
    decreases lines.len(),
{
    if n == lines.len() {
        assert(lines.take(n) =~= lines);
    } else {
        assert(lines.drop_last().take(n) =~= lines.take(n));
        lemma_error_stays(lines.drop_last(), n, targets);
    }
}

fn rule_applies(rule: &GeneratedRule, path: &str) -> (r: bool)
    requires
        rule.well_formed(),
    ensures
        r == applies(rule@, path@),
{
    let mut i: usize = 0;
    while i < rule.matchers.len()
        invariant
            i <= rule.matchers@.len(),
            rule.well_formed(),
            forall|k: int| 0 <= k < i ==> !glob_matches(#[trigger] rule@.patterns[k], path@),
        decreases rule.matchers@.len() - i,
    {
        let set = &rule.matchers[i];
        assert(globs_of(*set)[0] == rule@.patterns[i as int]);
        if set_matches(set, path) {
            assert(glob_matches(rule@.patterns[i as int], path@));
            return true;
        }
        i = i + 1;
    }
    false
}

impl GeneratedFileMatcher {
    /// Whether the rules make the path generated.
    pub fn is_generated(&self, path: &str) -> (r: bool)
        requires
            self.well_formed(),
        ensures
            r == generated_path(text::views(self.rules@), path@),
    {
        let normalized = text::replace_char(path, '\\', '/');
        let ghost all = text::views(self.rules@);
        let mut n: usize = self.rules.len();
        assert(all.take(n as int) =~= all);
        while n > 0
            invariant
                n <= self.rules@.len(),
                self.well_formed(),
                all == text::views(self.rules@),
                normalized@ == text::replaced(path@, '\\', '/'),
                last_word(all.take(n as int), normalized@) == last_word(all, normalized@),
            decreases n,
        {
            let rule = &self.rules[n - 1];
            assert(all.take(n as int).last() == rule@);
            assert(all.take(n as int).drop_last() =~= all.take(n - 1));
            if rule_applies(rule, normalized.as_str()) {
                return rule.generated;
            }
            n = n - 1;
        }
        false
    }
}

/// The files that are to be scored. The attributes are those of the repository, where it is known.
pub fn filter_generated_files(
    files: Vec<ChangedFile>,
    attributes: Option<&GitAttributes>,
    skip_attributes: &Vec<String>,
) -> (r: Result<Vec<ChangedFile>, AnalyzeError>)
    ensures
        match scored_files(
            text::views(files@),
            attributes_view(attributes),
            text::views(skip_attributes@),
        ) {
            Ok(kept) => r is Ok && text::views(r->Ok_0@) == kept,
            Err(error) => r is Err && r->Err_0@ == error,
        },
{
    let attributes = match attributes {
        Some(attributes) => attributes,
        None => {
            return Ok(files);
        },
    };
    let ghost all = text::views(files@);
    let matcher = match load_generated_file_matcher(attributes, skip_attributes) {
        Ok(Some(matcher)) => matcher,
        Ok(None) => {
            proof {
                let rules = loaded_rules(attributes@, text::views(skip_attributes@))->Ok_0;
                assert(rules =~= Seq::empty());
                lemma_no_rules(all);
            }
            return Ok(files);
        },
        Err(error) => {
            return Err(error);
        },
    };
    let ghost rules = text::views(matcher.rules@);
    let mut kept: Vec<ChangedFile> = Vec::new();
    assert(all.take(0) =~= Seq::empty());
    assert(text::views(kept@) =~= handwritten(all.take(0), rules));
    for file in it: files
        invariant
            matcher.well_formed(),
            rules == text::views(matcher.rules@),
            all == text::views(it.seq()),
            text::views(kept@) =~= handwritten(all.take(it.index()), rules),
    {
        let ghost before = text::views(kept@);
        assert(all.take(it.index() + 1).drop_last() =~= all.take(it.index()));
        assert(all.take(it.index() + 1).last() == file@);
        if !matcher.is_generated(file.path.as_str()) {
            kept.push(file);
            assert(text::views(kept@) =~= before.push(file@));
        }
    }
    assert(all.take(all.len() as int) =~= all);
    Ok(kept)
}

proof fn lemma_no_rules(files: Seq<FileModel>)
    ensures
        handwritten(files, Seq::empty()) == files,
    decreases files.len(),
{
    if files.len() > 0 {
        lemma_no_rules(files.drop_last());
        assert(files.drop_last().push(files.last()) =~= files);
    }
}

/// The rules leave exactly the files that they do not make generated.
pub proof fn law_generated_files_are_left_out(files: Seq<FileModel>, rules: Seq<RuleModel>)
    ensures
        forall|file: FileModel| #[trigger]
            handwritten(files, rules).contains(file) <==> files.contains(file) && !generated_path(
                rules,
                file.path,
            ),
        handwritten(files, rules).len() <= files.len(),
    decreases files.len(),
{
    if files.len() > 0 {
        let before = files.drop_last();
        let kept = handwritten(before, rules);
        let after = handwritten(files, rules);
        law_generated_files_are_left_out(before, rules);
        assert forall|file: FileModel| #[trigger] after.contains(file) <==> files.contains(file)
            && !generated_path(rules, file.path) by {
            if files.contains(file) {
                let k = choose|k: int| 0 <= k < files.len() && files[k] == file;
                if k < before.len() {
                    assert(before[k] == file);
                    assert(before.contains(file));
                }
            }
            if before.contains(file) {
                let k = choose|k: int| 0 <= k < before.len() && before[k] == file;
                assert(files[k] == file);
            }
            assert(files[files.len() - 1] == files.last());
            if kept.contains(file) {
                let k = choose|k: int| 0 <= k < kept.len() && kept[k] == file;
                assert(after[k] == file);
            }
            if after.contains(file) {
                let k = choose|k: int| 0 <= k < after.len() && after[k] == file;
                if k < kept.len() {
                    assert(kept[k] == file);
                    assert(kept.contains(file));
                }
            }
            if !generated_path(rules, files.last().path) {
                assert(after[kept.len() as int] == files.last());
            }
        }
    }
}

/// A pattern without braces has one form, and no group in it.
pub proof fn law_patterns_without_groups_stay(pattern: Seq<char>)
    requires
        !pattern.contains('{'),
        !pattern.contains('}'),
    ensures
        scan(pattern).flat == pattern,
        scan(pattern).shrunk == pattern,
        scan(pattern).groups.len() == 0,
        scan(pattern).tallest == 0,
    decreases pattern.len(),
{
    if pattern.len() > 0 {
        let before = pattern.drop_last();
        assert(pattern.contains(pattern[pattern.len() - 1]));
        assert forall|c: char| #[trigger] before.contains(c) implies pattern.contains(c) by {
            let k = choose|k: int| 0 <= k < before.len() && before[k] == c;
            assert(pattern[k] == c);
        }
        law_patterns_without_groups_stay(before);
        assert(before.push(pattern.last()) =~= pattern);
    }
}

/// Without a closing brace no group has a height: however many groups such a pattern opens, they do
/// not make it too large.
pub proof fn law_open_groups_have_no_height(pattern: Seq<char>)
    requires
        !pattern.contains('}'),
    ensures
        scan(pattern).tallest == 0,
    decreases pattern.len(),
{
    if pattern.len() > 0 {
        let before = pattern.drop_last();
        assert(pattern.contains(pattern[pattern.len() - 1]));
        assert forall|c: char| #[trigger] before.contains(c) implies pattern.contains(c) by {
            let k = choose|k: int| 0 <= k < before.len() && before[k] == c;
            assert(pattern[k] == c);
        }
        law_open_groups_have_no_height(before);
    }
}

/// A later rule that applies to a path overrides the earlier ones; one that does not apply changes
/// nothing.
pub proof fn law_later_rules_override(rules: Seq<RuleModel>, rule: RuleModel, path: Seq<char>)
    ensures
        last_word(rules.push(rule), path) == (if applies(rule, path) {
            rule.generated
        } else {
            last_word(rules, path)
        }),
{
    assert(rules.push(rule).drop_last() =~= rules);
}

/// The forms of an attribute: its name sets it, a minus or an exclamation mark before the name
/// unsets it, and a value behind an equals sign sets it unless it is `false` or `unset`.
pub proof fn law_attribute_forms(target: Seq<char>, value: Seq<char>)
    requires
        !target.contains('='),
    ensures
        setting(target, target) == Some(true),
        setting("-"@ + target, target) == Some(false),
        setting("!"@ + target, target) == Some(false),
        setting(target + "="@ + value, target) == Some(value != "false"@ && value != "unset"@),
{
    reveal_strlit("-");
    reveal_strlit("!");
    reveal_strlit("=");
    assert(("-"@ + target).len() == target.len() + 1);
    assert(("!"@ + target).len() == target.len() + 1);
    let whole = target + "="@ + value;
    assert(whole.len() > target.len());
    assert(whole[target.len() as int] == '=');
    if whole == "-"@ + target || whole == "!"@ + target {
        if target.len() == 0 {
            assert(whole[0] == '=');
            assert(("-"@ + target)[0] == '-');
            assert(("!"@ + target)[0] == '!');
        } else {
            assert(("-"@ + target)[target.len() as int] == target[target.len() - 1]);
            assert(("!"@ + target)[target.len() as int] == target[target.len() - 1]);
            assert(target.contains(target[target.len() - 1]));
        }
    }
    assert forall|j: int| 0 <= j < target.len() implies whole[j] != '=' by {
        assert(whole[j] == target[j]);
        assert(target.contains(target[j]));
    }
    text::lemma_before_first(whole, '=', target.len() as int);
    assert(whole.take(target.len() as int) =~= target);
    assert(whole.skip(target.len() as int + 1) =~= value);
}

/// An attribute speaks of a target only as its name alone, behind a minus or an exclamation mark, or
/// before an equals sign.
pub proof fn law_attributes_speak_of_their_name(attribute: Seq<char>, target: Seq<char>)
    requires
        setting(attribute, target) is Some,
    ensures
        attribute == target || attribute == "-"@ + target || attribute == "!"@ + target || exists|
            value: Seq<char>,
        | attribute == #[trigger] (target + "="@ + value),
{
    reveal_strlit("=");
    if attribute != target && attribute != "-"@ + target && attribute != "!"@ + target {
        let (_name, value) = text::split_pair(attribute, '=')->0;
        let n = text::before_first(attribute, '=') as int;
        text::lemma_before_first_bound(attribute, '=');
        assert(attribute[n] == '=') by {
            lemma_equals_sign(attribute);
        }
        assert(attribute =~= target + "="@ + value);
    }
}

proof fn lemma_equals_sign(s: Seq<char>)
    ensures
        text::before_first(s, '=') < s.len() ==> s[text::before_first(s, '=') as int] == '=',
    decreases s.len(),
{
    if s.len() > 0 && s[0] != '=' {
        lemma_equals_sign(s.skip(1));
        text::lemma_before_first_bound(s.skip(1), '=');
    }
}

/// An attribute that speaks of none of the targets says nothing of them; else it says what it says of
/// the last one that it speaks of, at whatever position.
pub proof fn law_any_target_is_spoken_of(attribute: Seq<char>, targets: Seq<Seq<char>>, i: int)
    requires
        -1 <= i < targets.len(),
        i >= 0 ==> setting(attribute, targets[i]) is Some,
        forall|j: int| i < j < targets.len() ==> setting(attribute, #[trigger] targets[j]) is None,
    ensures
        setting_of_any(attribute, targets) == (if i >= 0 {
            setting(attribute, targets[i])
        } else {
            None
        }),
    decreases targets.len(),
{
    if i < targets.len() - 1 {
        let before = targets.drop_last();
        assert(setting(attribute, targets[targets.len() - 1]) is None);
        assert forall|j: int| i < j < before.len() implies setting(attribute, #[trigger] before[j])
            is None by {
            assert(before[j] == targets[j]);
        }
        assert(i >= 0 ==> before[i] == targets[i]);
        law_any_target_is_spoken_of(attribute, before, i);
    }
}

/// Whether a text is the name of an attribute, which is neither a value nor unset.
pub open spec fn is_attribute_name(name: Seq<char>) -> bool {
    name.len() > 0 && !name.contains('=') && name[0] != '-' && name[0] != '!'
}

proof fn lemma_other_target(name: Seq<char>, other: Seq<char>, value: Seq<char>)
    requires
        is_attribute_name(name),
        is_attribute_name(other),
        name != other,
    ensures
        setting(name, other) is None,
        setting("-"@ + name, other) is None,
        setting("!"@ + name, other) is None,
        setting(name + "="@ + value, other) is None,
{
    reveal_strlit("-");
    reveal_strlit("!");
    reveal_strlit("=");
    let whole = name + "="@ + value;
    assert(("-"@ + name).skip(1) =~= name);
    assert(("!"@ + name).skip(1) =~= name);
    assert(("-"@ + other).skip(1) =~= other);
    assert(("!"@ + other).skip(1) =~= other);
    assert(("-"@ + other)[0] == '-' && ("!"@ + other)[0] == '!');
    assert(("-"@ + name)[0] == '-' && ("!"@ + name)[0] == '!');
    assert forall|t: Seq<char>| !(#[trigger] t.contains('=')) implies text::split_pair(t, '=')
        is None by {
        text::law_splitting(t, '=', t);
    }
    assert(!("-"@ + name).contains('=')) by {
        if ("-"@ + name).contains('=') {
            let k = choose|k: int| 0 <= k < ("-"@ + name).len() && ("-"@ + name)[k] == '=';
            assert(name[k - 1] == '=');
        }
    }
    assert(!("!"@ + name).contains('=')) by {
        if ("!"@ + name).contains('=') {
            let k = choose|k: int| 0 <= k < ("!"@ + name).len() && ("!"@ + name)[k] == '=';
            assert(name[k - 1] == '=');
        }
    }
    assert(whole =~= name + seq!['='] + value);
    text::law_splitting(name, '=', value);
    assert(whole[name.len() as int] == '=');
    assert(whole.contains('='));
    assert(whole[0] == name[0]);
}

/// Every configured name counts, not the first one alone: on a line with one attribute, the name of
/// any target sets it, a minus or an exclamation mark before it unsets it, and a value sets it unless
/// it is `false` or `unset`.
pub proof fn law_every_target_counts(targets: Seq<Seq<char>>, i: int, value: Seq<char>)
    requires
        0 <= i < targets.len(),
        forall|j: int| 0 <= j < targets.len() ==> is_attribute_name(#[trigger] targets[j]),
    ensures
        last_setting(seq![targets[i]], targets) == Some(true),
        last_setting(seq!["-"@ + targets[i]], targets) == Some(false),
        last_setting(seq!["!"@ + targets[i]], targets) == Some(false),
        last_setting(seq![targets[i] + "="@ + value], targets) == Some(
            value != "false"@ && value != "unset"@,
        ),
{
    let name = targets[i];
    assert(is_attribute_name(name));
    law_attribute_forms(name, value);
    lemma_target_decides(name, targets, i, Some(true));
    lemma_target_decides("-"@ + name, targets, i, Some(false));
    lemma_target_decides("!"@ + name, targets, i, Some(false));
    lemma_target_decides(
        name + "="@ + value,
        targets,
        i,
        Some(value != "false"@ && value != "unset"@),
    );
    law_later_attributes_override(Seq::empty(), name, targets);
    law_later_attributes_override(Seq::empty(), "-"@ + name, targets);
    law_later_attributes_override(Seq::empty(), "!"@ + name, targets);
    law_later_attributes_override(Seq::empty(), name + "="@ + value, targets);
    let none: Seq<Seq<char>> = Seq::empty();
    assert(none.push(name) =~= seq![name]);
    assert(none.push("-"@ + name) =~= seq!["-"@ + name]);
    assert(none.push("!"@ + name) =~= seq!["!"@ + name]);
    assert(none.push(name + "="@ + value) =~= seq![name + "="@ + value]);
}

proof fn lemma_target_decides(
    attribute: Seq<char>,
    targets: Seq<Seq<char>>,
    i: int,
    said: Option<bool>,
)
    requires
        0 <= i < targets.len(),
        forall|j: int| 0 <= j < targets.len() ==> is_attribute_name(#[trigger] targets[j]),
        said is Some,
        setting(attribute, targets[i]) == said,
        attribute == targets[i] || attribute == "-"@ + targets[i] || attribute == "!"@ + targets[i]
            || exists|value: Seq<char>| attribute == #[trigger] (targets[i] + "="@ + value),
    ensures
        setting_of_any(attribute, targets) == said,
    decreases targets.len(),
{
    let last = targets[targets.len() - 1];
    let name = targets[i];
    assert(is_attribute_name(last));
    if last == name {
    } else {
        let before = targets.drop_last();
        let value = choose|value: Seq<char>| attribute == #[trigger] (name + "="@ + value);
        lemma_other_target(name, last, value);
        assert forall|j: int| 0 <= j < before.len() implies is_attribute_name(
            #[trigger] before[j],
        ) by {
            assert(before[j] == targets[j]);
        }
        assert(before[i] == name);
        lemma_target_decides(attribute, before, i, said);
    }
}

/// Of the attributes on a line the last one that speaks of a target counts.
pub proof fn law_later_attributes_override(
    attributes: Seq<Seq<char>>,
    attribute: Seq<char>,
    targets: Seq<Seq<char>>,
)
    ensures
        last_setting(attributes.push(attribute), targets) == (match setting_of_any(
            attribute,
            targets,
        ) {
            Some(enabled) => Some(enabled),
            None => last_setting(attributes, targets),
        }),
        last_setting(Seq::<Seq<char>>::empty(), targets) is None,
{
    assert(attributes.push(attribute).drop_last() =~= attributes);
}

/// A line with a pattern and an attribute of any target is a rule for that pattern. White space around
/// and between them does not count. A line that begins with `#` is a comment, whatever it says, and a
/// blank one says nothing.
pub proof fn law_rule_lines(
    left: Seq<char>,
    pattern: Seq<char>,
    gap: Seq<char>,
    attribute: Seq<char>,
    right: Seq<char>,
    targets: Seq<Seq<char>>,
)
    requires
        text::all_space(left),
        text::all_space(gap),
        gap.len() > 0,
        text::all_space(right),
        pattern.len() > 0,
        forall|i: int| 0 <= i < pattern.len() ==> !text::is_space(#[trigger] pattern[i]),
        attribute.len() > 0,
        forall|i: int| 0 <= i < attribute.len() ==> !text::is_space(#[trigger] attribute[i]),
    ensures
        rule_of(left + pattern + gap + attribute + right, targets) == (if pattern[0] == '#' {
            None
        } else {
            match setting_of_any(attribute, targets) {
                Some(generated) => Some((pattern, generated)),
                None => None,
            }
        }),
        rule_of(left, targets) is None,
{
    let core = pattern + gap + attribute;
    let line = left + pattern + gap + attribute + right;
    assert(line =~= left + core + right);
    assert(core[0] == pattern[0]);
    assert(core.last() == attribute[attribute.len() - 1]);
    text::law_trimming(left, core, right);
    let none: Seq<char> = Seq::empty();
    let rest = gap + attribute;
    assert(core =~= none + pattern + rest);
    assert(rest[0] == gap[0]);
    assert(text::is_space(gap[0]));
    text::law_first_of_words(none, pattern, rest);
    assert(rest =~= gap + attribute + none);
    text::law_first_of_words(gap, attribute, none);
    text::law_first_of_words(none, none, none);
    assert(text::word_seq(rest) =~= seq![attribute]);
    let words = text::word_seq(core);
    assert(words =~= seq![pattern, attribute]);
    assert(words.skip(1) =~= Seq::<Seq<char>>::empty().push(attribute));
    law_later_attributes_override(Seq::empty(), attribute, targets);
    assert(left =~= left + none + none);
    text::law_trimming(left, none, none);
}

/// The rules of two lists of lines are those of the first and then those of the second; an error in
/// the first one comes first.
pub proof fn law_rules_add_up(
    first: Seq<Seq<char>>,
    second: Seq<Seq<char>>,
    targets: Seq<Seq<char>>,
)
    ensures
        rules_of(first + second, targets) == (match rules_of(first, targets) {
            Err(error) => Err(error),
            Ok(a) => match rules_of(second, targets) {
                Ok(b) => Ok(a + b),
                Err(error) => Err(error),
            },
        }),
    decreases second.len(),
{
    if second.len() == 0 {
        assert(first + second =~= first);
        if let Ok(a) = rules_of(first, targets) {
            assert(a + Seq::<RuleModel>::empty() =~= a);
        }
    } else {
        let before = second.drop_last();
        law_rules_add_up(first, before, targets);
        assert((first + second).drop_last() =~= first + before);
        assert((first + second).last() == second.last());
        match (rules_of(first, targets), rules_of(before, targets)) {
            (Ok(a), Ok(b)) => {
                match rule_of(second.last(), targets) {
                    Some((pattern, generated)) => {
                        let rule = rule_for(pattern, generated);
                        assert((a + b).push(rule) =~= a + b.push(rule));
                    },
                    None => {},
                }
            },
            _ => {},
        }
    }
}

/// A line gives one rule, with what it says and with the patterns that its pattern stands for: itself,
/// and, where it has no slash, itself in any directory.
pub proof fn law_rules_of_a_line(line: Seq<char>, targets: Seq<Seq<char>>)
    ensures
        rule_of(line, targets) is None ==> rules_of(seq![line], targets) == Ok::<
            Seq<RuleModel>,
            ErrorModel,
        >(Seq::empty()),
        rule_of(line, targets) matches Some((pattern, generated)) ==> {
            let deep = "**/"@ + pattern;
            &&& pattern.contains('/') && pattern_error(pattern) is None ==> rules_of(
                seq![line],
                targets,
            ) == Ok::<Seq<RuleModel>, ErrorModel>(
                seq![RuleModel { patterns: seq![whole(pattern)], generated }],
            )
            &&& !pattern.contains('/') && pattern_error(pattern) is None && pattern_error(deep)
                is None ==> rules_of(seq![line], targets) == Ok::<Seq<RuleModel>, ErrorModel>(
                seq![RuleModel { patterns: seq![whole(pattern), whole(deep)], generated }],
            )
        },
{
    reveal_with_fuel(rules_of, 2);
    reveal_with_fuel(first_error, 3);
    let one = seq![line];
    assert(one.drop_last() =~= Seq::empty());
    if let Some((pattern, generated)) = rule_of(line, targets) {
        let deep = "**/"@ + pattern;
        let none: Seq<RuleModel> = Seq::empty();
        let rule = rule_for(pattern, generated);
        assert(seq![pattern].drop_last() =~= Seq::empty());
        assert(seq![pattern, deep].drop_last() =~= seq![pattern]);
        if pattern.contains('/') && pattern_error(pattern) is None {
            assert(first_error(patterns_of(pattern)) is None);
            assert(rule =~= RuleModel { patterns: seq![whole(pattern)], generated });
            assert(none.push(rule) =~= seq![rule]);
        }
        if !pattern.contains('/') && pattern_error(pattern) is None && pattern_error(deep) is None {
            assert(first_error(patterns_of(pattern)) is None);
            assert(rule =~= RuleModel { patterns: seq![whole(pattern), whole(deep)], generated });
            assert(none.push(rule) =~= seq![rule]);
        }
    }
}

/// A wrong pattern is told with its text and with what is wrong, before what is wrong with it in any
/// directory.
pub proof fn law_wrong_patterns_are_told(
    line: Seq<char>,
    targets: Seq<Seq<char>>,
    pattern: Seq<char>,
    generated: bool,
)
    requires
        rule_of(line, targets) == Some((pattern, generated)),
        pattern_error(pattern) is Some,
    ensures
        rules_of(seq![line], targets) == Err::<Seq<RuleModel>, ErrorModel>(
            ErrorModel::Command(
                "invalid .gitattributes pattern `"@ + pattern + "`: "@ + pattern_error(pattern)->0,
            ),
        ),
{
    reveal_with_fuel(rules_of, 2);
    reveal_with_fuel(first_error, 3);
    assert(seq![line].drop_last() =~= Seq::empty());
    assert(seq![pattern].drop_last() =~= Seq::empty());
    assert(seq![pattern, "**/"@ + pattern].drop_last() =~= seq![pattern]);
}

/// A pattern without braces is handed over as it stands, with an empty group behind it, unless it
/// consists of pieces `**/` alone, which match any path.
pub proof fn law_patterns_are_handed_over(pattern: Seq<char>)
    requires
        !pattern.contains('{'),
        !pattern.contains('}'),
    ensures
        !anywhere(pattern) ==> whole(pattern) == pattern + "{}"@,
        anywhere(pattern) ==> whole(pattern) == "**{}"@,
{
    law_patterns_without_groups_stay(pattern);
}

/// The pieces `**/`, and they alone, stand for any directory.
pub proof fn law_any_directory(rest: Seq<char>)
    ensures
        anywhere("**/"@ + rest) <==> rest.len() == 0 || anywhere(rest),
        anywhere(rest) ==> exists|tail: Seq<char>| rest == #[trigger] ("**/"@ + tail),
{
    reveal_strlit("**/");
    let all = "**/"@ + rest;
    if anywhere(rest) || rest.len() == 0 {
        assert forall|i: int| 0 <= i < all.len() implies #[trigger] all[i] == (if i % 3 == 2 {
            '/'
        } else {
            '*'
        }) by {
            if i >= 3 {
                assert(all[i] == rest[i - 3]);
            }
        }
    }
    if anywhere(all) && rest.len() > 0 {
        assert forall|i: int| 0 <= i < rest.len() implies #[trigger] rest[i] == (if i % 3 == 2 {
            '/'
        } else {
            '*'
        }) by {
            assert(rest[i] == all[i + 3]);
        }
    }
    if anywhere(rest) {
        assert(rest[0] == '*' && rest[1] == '*' && rest[2] == '/');
        assert(rest =~= "**/"@ + rest.skip(3));
    }
}

/// The names of attributes count without the white space around them, in their order; blank ones do
/// not count.
pub proof fn law_names_are_trimmed(first: Seq<Seq<char>>, second: Seq<Seq<char>>, name: Seq<char>)
    ensures
        target_names(first + second) == target_names(first) + target_names(second),
        target_names(seq![name]) == (if text::trimmed(name).len() == 0 {
            Seq::empty()
        } else {
            seq![text::trimmed(name)]
        }),
    decreases second.len(),
{
    if second.len() == 0 {
        assert(first + second =~= first);
        assert(target_names(first) + target_names(second) =~= target_names(first));
    } else {
        law_names_are_trimmed(first, second.drop_last(), name);
        assert((first + second).drop_last() =~= first + second.drop_last());
        assert(target_names(first + second) =~= target_names(first) + target_names(second));
    }
    reveal_with_fuel(target_names, 2);
    assert(seq![name].drop_last() =~= Seq::empty());
    assert(target_names(seq![name]) =~= (if text::trimmed(name).len() == 0 {
        Seq::empty()
    } else {
        seq![text::trimmed(name)]
    }));
}

/// What is loaded: the rules of all lines of the file, for the names that are not blank; nothing where
/// there is no file or no name; and the error where the file cannot be read and there are names.
pub proof fn law_rules_are_loaded(contents: Seq<char>, error: Seq<char>, names: Seq<Seq<char>>)
    ensures
        target_names(names).len() > 0 ==> loaded_rules(AttributesModel::Text(contents), names)
            == rules_of(text::line_seq(contents), target_names(names)),
        target_names(names).len() == 0 ==> loaded_rules(AttributesModel::Text(contents), names)
            == Ok::<Seq<RuleModel>, ErrorModel>(Seq::empty()),
        loaded_rules(AttributesModel::Absent, names) == Ok::<Seq<RuleModel>, ErrorModel>(
            Seq::empty(),
        ),
        names.len() > 0 ==> loaded_rules(AttributesModel::Unreadable(error), names) == Err::<
            Seq<RuleModel>,
            ErrorModel,
        >(ErrorModel::Io(error)),
        names.len() == 0 ==> loaded_rules(AttributesModel::Unreadable(error), names) == Ok::<
            Seq<RuleModel>,
            ErrorModel,
        >(Seq::empty()),
{
    if names.len() == 0 {
        assert(target_names(names).len() == 0);
    }
}

/// A path is generated where the last rule with a pattern that matches it says so. Slashes and
/// backslashes are the same.
pub proof fn law_last_matching_rule_decides(rules: Seq<RuleModel>, path: Seq<char>)
    ensures
        generated_path(rules, path) <==> exists|i: int|
            0 <= i < rules.len() && (#[trigger] rules[i]).generated && matched_by(
                rules[i],
                text::replaced(path, '\\', '/'),
            ) && forall|j: int|
                i < j < rules.len() ==> !matched_by(
                    #[trigger] rules[j],
                    text::replaced(path, '\\', '/'),
                ),
{
    lemma_last_word(rules, text::replaced(path, '\\', '/'));
}

/// Whether one of the patterns that the matchers of a rule hold matches a path.
pub open spec fn matched_by(rule: RuleModel, path: Seq<char>) -> bool {
    exists|pattern: Seq<char>| #[trigger]
        rule.patterns.contains(pattern) && glob_matches(pattern, path)
}

proof fn lemma_last_word(rules: Seq<RuleModel>, path: Seq<char>)
    ensures
        last_word(rules, path) <==> exists|i: int|
            0 <= i < rules.len() && (#[trigger] rules[i]).generated && matched_by(rules[i], path)
                && forall|j: int| i < j < rules.len() ==> !matched_by(#[trigger] rules[j], path),
    decreases rules.len(),
{
    if rules.len() > 0 {
        let before = rules.drop_last();
        let n = rules.len() - 1;
        lemma_last_word(before, path);
        lemma_applies(rules[n], path);
        if last_word(rules, path) {
            if !applies(rules[n], path) {
                let i = choose|i: int|
                    0 <= i < before.len() && (#[trigger] before[i]).generated && matched_by(
                        before[i],
                        path,
                    ) && forall|j: int|
                        i < j < before.len() ==> !matched_by(#[trigger] before[j], path);
                assert(rules[i].generated && matched_by(rules[i], path));
                assert forall|j: int| i < j < rules.len() implies !matched_by(
                    #[trigger] rules[j],
                    path,
                ) by {
                    if j < n {
                        assert(!matched_by(before[j], path));
                    }
                }
            }
        }
        if exists|i: int|
            0 <= i < rules.len() && (#[trigger] rules[i]).generated && matched_by(rules[i], path)
                && forall|j: int| i < j < rules.len() ==> !matched_by(#[trigger] rules[j], path) {
            let i = choose|i: int|
                0 <= i < rules.len() && (#[trigger] rules[i]).generated && matched_by(
                    rules[i],
                    path,
                ) && forall|j: int| i < j < rules.len() ==> !matched_by(#[trigger] rules[j], path);
            if i < n {
                assert(!matched_by(rules[n], path));
                assert(before[i].generated && matched_by(before[i], path));
                assert forall|j: int| i < j < before.len() implies !matched_by(
                    #[trigger] before[j],
                    path,
                ) by {
                    assert(!matched_by(rules[j], path));
                }
            }
        }
    }
}

proof fn lemma_applies(rule: RuleModel, path: Seq<char>)
    ensures
        applies(rule, path) == matched_by(rule, path),
{
    if applies(rule, path) {
        let i = choose|i: int|
            0 <= i < rule.patterns.len() && glob_matches(#[trigger] rule.patterns[i], path);
        assert(rule.patterns.contains(rule.patterns[i]));
    }
    if matched_by(rule, path) {
        let pattern = choose|pattern: Seq<char>| #[trigger]
            rule.patterns.contains(pattern) && glob_matches(pattern, path);
        let i = choose|i: int| 0 <= i < rule.patterns.len() && rule.patterns[i] == pattern;
        assert(glob_matches(rule.patterns[i], path));
    }
}

/// The files that are not generated stay in their order: of two lists of files those stay that stay of
/// each of them.
pub proof fn law_handwritten_files_keep_their_order(
    first: Seq<FileModel>,
    second: Seq<FileModel>,
    file: FileModel,
    rules: Seq<RuleModel>,
)
    ensures
        handwritten(first + second, rules) == handwritten(first, rules) + handwritten(
            second,
            rules,
        ),
        handwritten(seq![file], rules) == (if generated_path(rules, file.path) {
            Seq::empty()
        } else {
            seq![file]
        }),
    decreases second.len(),
{
    if second.len() == 0 {
        assert(first + second =~= first);
        assert(handwritten(first, rules) + handwritten(second, rules) =~= handwritten(first, rules));
    } else {
        law_handwritten_files_keep_their_order(first, second.drop_last(), file, rules);
        assert((first + second).drop_last() =~= first + second.drop_last());
        assert(handwritten(first + second, rules) =~= handwritten(first, rules) + handwritten(
            second,
            rules,
        ));
    }
    reveal_with_fuel(handwritten, 2);
    assert(seq![file].drop_last() =~= Seq::empty());
    assert(handwritten(seq![file], rules) =~= (if generated_path(rules, file.path) {
        Seq::empty()
    } else {
        seq![file]
    }));
}

/// Without a repository all files are scored; with one, those that its rules do not make generated, or
/// the error that its rules have.
pub proof fn law_rules_decide_what_is_scored(
    files: Seq<FileModel>,
    attributes: AttributesModel,
    names: Seq<Seq<char>>,
)
    ensures
        scored_files(files, None, names) == Ok::<Seq<FileModel>, ErrorModel>(files),
        loaded_rules(attributes, names) matches Ok(rules) ==> scored_files(
            files,
            Some(attributes),
            names,
        ) == Ok::<Seq<FileModel>, ErrorModel>(handwritten(files, rules)),
        loaded_rules(attributes, names) matches Err(error) ==> scored_files(
            files,
            Some(attributes),
            names,
        ) == Err::<Seq<FileModel>, ErrorModel>(error),
{
}

/// What stands in a class is taken as it is: it opens and closes no group. A class may begin with `!` or
/// `^`; its first character behind that belongs to it whatever it is, and then it goes on up to the
/// first `]`.
pub proof fn law_classes_hold_no_groups(
    pattern: Seq<char>,
    sign: Seq<char>,
    first: char,
    rest: Seq<char>,
)
    requires
        scan(pattern).place == Place::Plain,
        sign.len() == 0 && first != '!' && first != '^' || sign == seq!['!'] || sign == seq!['^'],
        !rest.contains(']'),
    ensures
        ({
            let before = scan(pattern);
            let class = seq!['['] + sign + seq![first] + rest + seq![']'];
            let after = scan(pattern + class);
            &&& after.place == Place::Plain
            &&& after.flat == before.flat + class
            &&& after.shrunk == before.shrunk + class
            &&& after.groups.len() == before.groups.len()
            &&& after.tallest == before.tallest
        }),
{
    let before = scan(pattern);
    let front = seq!['['] + sign + seq![first];
    lemma_front_of_class(pattern, sign, first);
    lemma_rest_of_class(pattern + front, rest);
    let inner = pattern + front + rest;
    lemma_scan_push(inner, ']');
    let class = front + rest + seq![']'];
    assert(inner.push(']') =~= pattern + class);
    assert(scan(inner).flat.push(']') =~= before.flat + class);
    assert(scan(inner).shrunk.push(']') =~= before.shrunk + class);
}

proof fn lemma_front_of_class(pattern: Seq<char>, sign: Seq<char>, first: char)
    requires
        scan(pattern).place == Place::Plain,
        sign.len() == 0 && first != '!' && first != '^' || sign == seq!['!'] || sign == seq!['^'],
    ensures
        ({
            let before = scan(pattern);
            let front = seq!['['] + sign + seq![first];
            let after = scan(pattern + front);
            &&& after.place == Place::ClassRest
            &&& after.flat == before.flat + front
            &&& after.shrunk == before.shrunk + front
            &&& after.groups.len() == before.groups.len()
            &&& after.tallest == before.tallest
        }),
{
    let before = scan(pattern);
    let front = seq!['['] + sign + seq![first];
    let opened = pattern.push('[');
    lemma_scan_push(pattern, '[');
    if sign.len() > 0 {
        lemma_scan_push(opened, sign[0]);
        lemma_scan_push(opened.push(sign[0]), first);
        assert(opened.push(sign[0]).push(first) =~= pattern + front);
        assert(before.flat.push('[').push(sign[0]).push(first) =~= before.flat + front);
        assert(before.shrunk.push('[').push(sign[0]).push(first) =~= before.shrunk + front);
    } else {
        lemma_scan_push(opened, first);
        assert(opened.push(first) =~= pattern + front);
        assert(before.flat.push('[').push(first) =~= before.flat + front);
        assert(before.shrunk.push('[').push(first) =~= before.shrunk + front);
    }
}

/// What stands behind a backslash is taken as it is: it opens and closes no group and no class.
pub proof fn law_escapes_hold_no_groups(pattern: Seq<char>, c: char)
    requires
        scan(pattern).place == Place::Plain,
    ensures
        ({
            let before = scan(pattern);
            let after = scan(pattern + seq!['\\', c]);
            &&& after.place == Place::Plain
            &&& after.flat == before.flat + seq!['\\', c]
            &&& after.shrunk == before.shrunk + seq!['\\', c]
            &&& after.groups.len() == before.groups.len()
            &&& after.tallest == before.tallest
        }),
{
    let before = scan(pattern);
    lemma_scan_push(pattern, '\\');
    lemma_scan_push(pattern.push('\\'), c);
    assert(pattern.push('\\').push(c) =~= pattern + seq!['\\', c]);
    assert(before.flat.push('\\').push(c) =~= before.flat + seq!['\\', c]);
    assert(before.shrunk.push('\\').push(c) =~= before.shrunk + seq!['\\', c]);
}

proof fn lemma_scan_push(pattern: Seq<char>, c: char)
    ensures
        scan(pattern.push(c)) == scanned(scan(pattern), c),
{
    assert(pattern.push(c).drop_last() =~= pattern);
}

proof fn lemma_rest_of_class(pattern: Seq<char>, rest: Seq<char>)
    requires
        scan(pattern).place == Place::ClassRest,
        !rest.contains(']'),
    ensures
        scan(pattern + rest).place == Place::ClassRest,
        scan(pattern + rest).flat == scan(pattern).flat + rest,
        scan(pattern + rest).shrunk == scan(pattern).shrunk + rest,
        scan(pattern + rest).groups.len() == scan(pattern).groups.len(),
        scan(pattern + rest).tallest == scan(pattern).tallest,
    decreases rest.len(),
{
    if rest.len() == 0 {
        assert(pattern + rest =~= pattern);
        assert(scan(pattern).flat + rest =~= scan(pattern).flat);
        assert(scan(pattern).shrunk + rest =~= scan(pattern).shrunk);
    } else {
        let shorter = rest.drop_last();
        assert(rest.contains(rest[rest.len() - 1]));
        if shorter.contains(']') {
            let k = choose|k: int| 0 <= k < shorter.len() && shorter[k] == ']';
            assert(rest[k] == ']');
        }
        lemma_rest_of_class(pattern, shorter);
        lemma_scan_push(pattern + shorter, rest.last());
        assert((pattern + shorter).push(rest.last()) =~= pattern + rest);
        assert(scan(pattern + rest).flat =~= scan(pattern).flat + rest);
        assert(scan(pattern + rest).shrunk =~= scan(pattern).shrunk + rest);
    }
}

/// A group of alternatives is one group high. In the flat form its alternatives stand without the
/// braces; in the shrunk form it stands as it is, or as `{}` where all its alternatives are empty.
#[verifier::spinoff_prover]
#[verifier::rlimit(40)]
pub proof fn law_groups_are_closed(pattern: Seq<char>, alternatives: Seq<char>)
    requires
        scan(pattern).place == Place::Plain,
        !alternatives.contains('{'),
        !alternatives.contains('}'),
        !alternatives.contains('['),
        !alternatives.contains('\\'),
    ensures
        ({
            let before = scan(pattern);
            let empty = forall|i: int|
                0 <= i < alternatives.len() ==> #[trigger] alternatives[i] == ',';
            let group = seq!['{'] + alternatives + seq!['}'];
            let after = scan(pattern + group);
            &&& after.place == Place::Plain
            &&& after.flat == before.flat + alternatives
            &&& after.shrunk == before.shrunk + if empty {
                seq!['{', '}']
            } else {
                group
            }
            &&& after.groups.len() == before.groups.len()
            &&& after.tallest == if before.tallest > 1 {
                before.tallest
            } else {
                1
            }
        }),
{
    let before = scan(pattern);
    let opened = pattern.push('{');
    lemma_scan_push(pattern, '{');
    lemma_alternatives(opened, alternatives);
    let inner = opened + alternatives;
    lemma_scan_push(inner, '}');
    let group = seq!['{'] + alternatives + seq!['}'];
    assert(inner.push('}') =~= pattern + group);
    assert(scan(pattern + group) == closed(scan(inner)));
    lemma_without_brace(before.flat, alternatives);
    lemma_in_braces(before.shrunk, alternatives);
}

proof fn lemma_without_brace(front: Seq<char>, alternatives: Seq<char>)
    ensures
        (front.push('{') + alternatives).remove(front.len() as int) == front + alternatives,
{
    assert((front.push('{') + alternatives).remove(front.len() as int) =~= front + alternatives);
}

proof fn lemma_in_braces(front: Seq<char>, alternatives: Seq<char>)
    ensures
        (front.push('{') + alternatives).push('}') == front + (seq!['{'] + alternatives + seq![
            '}',
        ]),
        (front.push('{') + alternatives).take(front.len() as int) + "{}"@ == front + seq!['{', '}'],
{
    reveal_strlit("{}");
    assert((front.push('{') + alternatives).push('}') =~= front + (seq!['{'] + alternatives + seq![
        '}',
    ]));
    assert((front.push('{') + alternatives).take(front.len() as int) + "{}"@ =~= front + seq![
        '{',
        '}',
    ]);
}

/// A closing brace that closes no group stands for itself.
pub proof fn law_lone_braces_stay(pattern: Seq<char>)
    requires
        scan(pattern).place == Place::Plain,
        scan(pattern).groups.len() == 0,
    ensures
        scan(pattern.push('}')).place == Place::Plain,
        scan(pattern.push('}')).flat == scan(pattern).flat.push('}'),
        scan(pattern.push('}')).shrunk == scan(pattern).shrunk.push('}'),
        scan(pattern.push('}')).tallest == scan(pattern).tallest,
        scan(pattern.push('}')).groups.len() == 0,
{
    lemma_scan_push(pattern, '}');
}

proof fn lemma_alternatives(pattern: Seq<char>, alternatives: Seq<char>)
    requires
        scan(pattern).place == Place::Plain,
        scan(pattern).groups.len() > 0,
        !scan(pattern).groups.last().filled,
        scan(pattern).groups.last().height == 0,
        !alternatives.contains('{'),
        !alternatives.contains('}'),
        !alternatives.contains('['),
        !alternatives.contains('\\'),
    ensures
        ({
            let before = scan(pattern);
            let after = scan(pattern + alternatives);
            &&& after.place == Place::Plain
            &&& after.flat == before.flat + alternatives
            &&& after.shrunk == before.shrunk + alternatives
            &&& after.tallest == before.tallest
            &&& after.groups.len() == before.groups.len()
            &&& after.groups.last().flat_at == before.groups.last().flat_at
            &&& after.groups.last().shrunk_at == before.groups.last().shrunk_at
            &&& after.groups.last().height == 0
            &&& !after.groups.last().filled <==> forall|i: int|
                0 <= i < alternatives.len() ==> #[trigger] alternatives[i] == ','
        }),
    decreases alternatives.len(),
{
    let before = scan(pattern);
    if alternatives.len() == 0 {
        assert(pattern + alternatives =~= pattern);
        assert(before.flat + alternatives =~= before.flat);
        assert(before.shrunk + alternatives =~= before.shrunk);
    } else {
        let shorter = alternatives.drop_last();
        let c = alternatives.last();
        assert(alternatives.contains(alternatives[alternatives.len() - 1]));
        assert forall|d: char| #[trigger] shorter.contains(d) implies alternatives.contains(d) by {
            let k = choose|k: int| 0 <= k < shorter.len() && shorter[k] == d;
            assert(alternatives[k] == d);
        }
        lemma_alternatives(pattern, shorter);
        lemma_scan_push(pattern + shorter, c);
        assert((pattern + shorter).push(c) =~= pattern + alternatives);
        let after = scan(pattern + alternatives);
        assert(after.flat =~= before.flat + alternatives);
        assert(after.shrunk =~= before.shrunk + alternatives);
        if forall|i: int| 0 <= i < alternatives.len() ==> #[trigger] alternatives[i] == ',' {
            assert forall|i: int| 0 <= i < shorter.len() implies #[trigger] shorter[i] == ',' by {
                assert(alternatives[i] == ',');
            }
            assert(alternatives[alternatives.len() - 1] == ',');
        }
        if !after.groups.last().filled {
            assert forall|i: int| 0 <= i < alternatives.len() implies #[trigger] alternatives[i]
                == ',' by {
                if i < shorter.len() {
                    assert(shorter[i] == alternatives[i]);
                }
            }
        }
    }
}

/// Groups in groups are as high as there are groups: where `n` braces are opened and closed again, the
/// pattern is `n` groups high, has nothing in its flat form, and is one empty group in its shrunk one.
pub proof fn law_groups_in_groups(n: nat)
    requires
        n > 0,
    ensures
        ({
            let nested = Seq::new(n, |i: int| '{') + Seq::new(n, |i: int| '}');
            &&& scan(nested).tallest == n
            &&& scan(nested).groups.len() == 0
            &&& scan(nested).flat.len() == 0
            &&& scan(nested).shrunk == seq!['{', '}']
            &&& manageable(nested) <==> n <= 1000
        }),
{
    lemma_nested(n, n);
    let nested = Seq::new(n, |i: int| '{') + Seq::new(n, |i: int| '}');
    assert(scan(nested).shrunk =~= seq!['{', '}']);
}

proof fn lemma_opened(n: nat)
    ensures
        ({
            let opened = scan(Seq::new(n, |i: int| '{'));
            &&& opened.place == Place::Plain
            &&& opened.tallest == 0
            &&& opened.flat == Seq::new(n, |i: int| '{')
            &&& opened.shrunk == Seq::new(n, |i: int| '{')
            &&& opened.groups.len() == n
            &&& forall|k: int|
                0 <= k < n ==> #[trigger] opened.groups[k] == (GroupModel {
                    flat_at: k as nat,
                    shrunk_at: k as nat,
                    filled: false,
                    height: 0,
                })
        }),
    decreases n,
{
    let braces = Seq::new(n, |i: int| '{');
    if n == 0 {
        assert(scan(braces).flat =~= braces);
        assert(scan(braces).shrunk =~= braces);
    } else {
        let fewer = Seq::new((n - 1) as nat, |i: int| '{');
        lemma_opened((n - 1) as nat);
        lemma_scan_push(fewer, '{');
        assert(fewer.push('{') =~= braces);
    }
}

proof fn lemma_nested(n: nat, m: nat)
    requires
        m <= n,
    ensures
        ({
            let before = Seq::new(n, |i: int| '{') + Seq::new(m, |i: int| '}');
            let after = scan(before);
            &&& after.place == Place::Plain
            &&& after.tallest == m
            &&& after.flat == Seq::new((n - m) as nat, |i: int| '{')
            &&& after.shrunk == Seq::new((n - m) as nat, |i: int| '{') + if m == 0 {
                Seq::<char>::empty()
            } else {
                seq!['{', '}']
            }
            &&& after.groups.len() == n - m
            &&& forall|k: int|
                0 <= k < n - m ==> #[trigger] after.groups[k] == (GroupModel {
                    flat_at: k as nat,
                    shrunk_at: k as nat,
                    filled: false,
                    height: if k == n - m - 1 {
                        m
                    } else {
                        0
                    },
                })
        }),
    decreases m,
{
    reveal_strlit("{}");
    let open = Seq::new(n, |i: int| '{');
    let before = open + Seq::new(m, |i: int| '}');
    if m == 0 {
        lemma_opened(n);
        assert(before =~= open);
        assert(open + Seq::<char>::empty() =~= open);
    } else {
        let fewer = (m - 1) as nat;
        let shorter = open + Seq::new(fewer, |i: int| '}');
        lemma_nested(n, fewer);
        lemma_scan_push(shorter, '}');
        assert(shorter.push('}') =~= before);
        let left = (n - m) as nat;
        let braces = Seq::new(left, |i: int| '{');
        assert(scan(shorter).groups[left as int].flat_at == left);
        assert(scan(shorter).flat.remove(left as int) =~= braces);
        assert(scan(shorter).shrunk.take(left as int) + "{}"@ =~= braces + seq!['{', '}']);
    }
}

} // verus!
