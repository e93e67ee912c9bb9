//! What helpers tell of revisions, and how two revisions are compared.

use vstd::hash_map::StringHashMap;
use vstd::prelude::*;

use crate::context::{
    AnalysisContext, AnalysisModel, ChangedFile, ContextModel, FileModel, FindingModel, InputKind,
    PluginAnalysis, PluginFinding,
};
use crate::plugins::helper_process;
use crate::plugins::helper_process::{InputsModel, RequiredFile, RevisionHelperFallback};
use crate::plugins::runtime;
use crate::plugins::runtime::{PackageSnapshotView, RevisionSnapshotView};
use crate::plugins::support;
use crate::report::{Confidence, ReasonKind};
use crate::text;

verus! {

/// What a helper tells of a package.
#[derive(Clone, Debug)]
pub struct HelperPackageSnapshot {
    pub dir: String,
    pub exports: Vec<(String, String)>,
    pub implementations: Vec<String>,
}

impl PackageSnapshotView for HelperPackageSnapshot {
    fn exports(&self) -> (r: &Vec<(String, String)>)
        ensures
            *r == self.exports,
    {
        &self.exports
    }

    fn implementations(&self) -> (r: &Vec<String>)
        ensures
            *r == self.implementations,
    {
        &self.implementations
    }
}

/// What a helper tells of a revision: its packages, and its files by path.
#[derive(Clone, Debug)]
pub struct RevisionSnapshot<F> {
    pub packages: Vec<HelperPackageSnapshot>,
    pub files: Vec<(String, F)>,
}

/// What was observed of two revisions: the files that the helper requires, and what it told of
/// each revision, or why it failed.
#[derive(Debug)]
pub struct RevisionObservation<F> {
    pub required_files: Vec<RequiredFile>,
    pub before: Result<RevisionSnapshot<F>, String>,
    pub after: Result<RevisionSnapshot<F>, String>,
}

/// The last package of a directory.
pub open spec fn package_in(
    packages: Seq<HelperPackageSnapshot>,
    dir: Seq<char>,
) -> Option<HelperPackageSnapshot>
    decreases packages.len(),
{
    if packages.len() == 0 {
        None
    } else if packages.last().dir@ == dir {
        Some(packages.last())
    } else {
        package_in(packages.drop_last(), dir)
    }
}

/// The last entry of a path.
pub open spec fn file_in<F>(files: Seq<(String, F)>, path: Seq<char>) -> Option<F>
    decreases files.len(),
{
    if files.len() == 0 {
        None
    } else if files.last().0@ == path {
        Some(files.last().1)
    } else {
        file_in(files.drop_last(), path)
    }
}

/// The value behind an optional reference.
pub open spec fn inner<T>(value: Option<&T>) -> Option<T> {
    match value {
        Some(value) => Some(*value),
        None => None,
    }
}

impl<'a, F> RevisionSnapshotView for &'a RevisionSnapshot<F> {
    type Package = HelperPackageSnapshot;

    type File = F;

    fn package_snapshot(&self, dir: &str) -> (r: Option<&HelperPackageSnapshot>)
        ensures
            inner(r) == package_in(self.packages@, dir@),
    {
        let ghost all = self.packages@;
        let mut n: usize = self.packages.len();
        assert(all.take(n as int) =~= all);
        while n > 0
            invariant
                n <= self.packages@.len(),
                all == self.packages@,
                package_in(all.take(n as int), dir@) == package_in(all, dir@),
            decreases n,
        {
            assert(all.take(n as int).drop_last() =~= all.take(n - 1));
            if text::same(self.packages[n - 1].dir.as_str(), dir) {
                return Some(&self.packages[n - 1]);
            }
            n = n - 1;
        }
        None
    }

    fn file_snapshot(&self, path: &str) -> (r: Option<&F>)
        ensures
            inner(r) == file_in(self.files@, path@),
    {
        let ghost all = self.files@;
        let mut n: usize = self.files.len();
        assert(all.take(n as int) =~= all);
        while n > 0
            invariant
                n <= self.files@.len(),
                all == self.files@,
                file_in(all.take(n as int), path@) == file_in(all, path@),
            decreases n,
        {
            assert(all.take(n as int).drop_last() =~= all.take(n - 1));
            if text::same(self.files[n - 1].0.as_str(), path) {
                return Some(&self.files[n - 1].1);
            }
            n = n - 1;
        }
        None
    }
}

/// The entries as a map. Of two entries with one key the later one counts.
pub open spec fn entry_map(entries: Seq<(String, String)>) -> Map<Seq<char>, Seq<char>>
    decreases entries.len(),
{
    if entries.len() == 0 {
        Map::empty()
    } else {
        entry_map(entries.drop_last()).insert(entries.last().0@, entries.last().1@)
    }
}

/// The names of `before` that are not in `after`, each once, in the order in which they first
/// occur.
pub open spec fn dropped_names(before: Seq<Seq<char>>, after: Seq<Seq<char>>) -> Seq<Seq<char>>
    decreases before.len(),
{
    if before.len() == 0 {
        Seq::empty()
    } else {
        let earlier = dropped_names(before.drop_last(), after);
        if after.contains(before.last()) || earlier.contains(before.last()) {
            earlier
        } else {
            earlier.push(before.last())
        }
    }
}

/// The exports of a package; none where there is no package.
pub open spec fn exports_of(package: Option<HelperPackageSnapshot>) -> Map<Seq<char>, Seq<char>> {
    match package {
        Some(package) => entry_map(package.exports@),
        None => Map::empty(),
    }
}

/// The implementations of a package; none where there is no package.
pub open spec fn implementations_of(package: Option<HelperPackageSnapshot>) -> Seq<Seq<char>> {
    match package {
        Some(package) => text::views(package.implementations@),
        None => Seq::empty(),
    }
}

/// How a plugin tells of changed packages.
pub struct PackageWords<'a> {
    pub api_kind: ReasonKind,
    pub api_message: &'a str,
    pub break_kind: ReasonKind,
    pub break_message: &'a str,
}

/// What the comparison of a package finds: that its exports changed, and which implementations are
/// gone.
pub open spec fn package_findings(
    words: PackageWords<'_>,
    path: Seq<char>,
    before: Option<HelperPackageSnapshot>,
    after: Option<HelperPackageSnapshot>,
) -> Seq<FindingModel> {
    let dropped = dropped_names(implementations_of(before), implementations_of(after));
    support::found_if(
        exports_of(before) != exports_of(after),
        support::base(path, words.api_kind, words.api_message@),
    ) + support::found_if(
        dropped.len() > 0,
        support::base(
            path,
            words.break_kind,
            words.break_message@ + text::joined(dropped, ", "@),
        ),
    )
}

/// The weight of a change at a nesting depth.
pub open spec fn depth_weight(depth: nat) -> u32 {
    if depth >= 4 {
        35
    } else if depth == 3 {
        30
    } else if depth == 2 {
        25
    } else {
        20
    }
}

/// What comparing two revisions finds, where functions say what is found in a package, in a file
/// and in a test.
pub open spec fn comparison<F>(
    files: Seq<FileModel>,
    paths: Seq<Seq<char>>,
    before: RevisionSnapshot<F>,
    after: RevisionSnapshot<F>,
    in_package: spec_fn(
        Seq<char>,
        Option<HelperPackageSnapshot>,
        Option<HelperPackageSnapshot>,
    ) -> Seq<FindingModel>,
    in_file: spec_fn(Seq<char>, Option<F>, Option<F>) -> Seq<FindingModel>,
    in_test: spec_fn(FileModel) -> Seq<FindingModel>,
) -> Seq<FindingModel> {
    let pairs = runtime::representatives(paths);
    runtime::flat(
        Seq::new(
            pairs.len(),
            |i: int|
                in_package(
                    pairs[i].1,
                    package_in(before.packages@, pairs[i].0),
                    package_in(after.packages@, pairs[i].0),
                ),
        ),
    ) + runtime::flat(
        Seq::new(
            paths.len(),
            |i: int|
                in_file(
                    paths[i],
                    file_in(before.files@, paths[i]),
                    file_in(after.files@, paths[i]),
                ),
        ),
    ) + runtime::flat(Seq::new(files.len(), |i: int| in_test(files[i])))
}

/// The functions that make up a plugin: which paths it looks at, what it finds without its helper,
/// and what it finds in a package, in a file and in a test.
#[verifier::reject_recursive_types(F)]
pub struct PluginParts<F> {
    pub picks: spec_fn(Seq<char>) -> bool,
    pub extra: spec_fn(FileModel) -> Seq<FindingModel>,
    pub in_package: spec_fn(
        Seq<char>,
        Option<HelperPackageSnapshot>,
        Option<HelperPackageSnapshot>,
    ) -> Seq<FindingModel>,
    pub in_file: spec_fn(Seq<char>, Option<F>, Option<F>) -> Seq<FindingModel>,
    pub in_test: spec_fn(FileModel) -> Seq<FindingModel>,
}

/// What the helper of a plugin is to be run on: nothing where the plugin looks at none of the
/// files; where something is missing, the fallback stands in.
pub open spec fn revision_inputs<F>(
    ctx: ContextModel,
    required_files: Seq<RequiredFile>,
    fallback: RevisionHelperFallback<'_>,
    parts: PluginParts<F>,
) -> Result<InputsModel, AnalysisModel> {
    let paths = support::picked_paths(ctx.files, support::picks_of(ctx.files, parts.picks));
    if paths.len() == 0 {
        Ok(helper_process::no_inputs())
    } else {
        match helper_process::gap_of(ctx, required_files) {
            Some(gap) => Err(
                support::plain_fallback(
                    ctx.files,
                    parts.picks,
                    parts.extra,
                    fallback.kind,
                    fallback.reason_for(gap),
                ),
            ),
            None => Ok(helper_process::inputs_for(ctx, paths)),
        }
    }
}

/// The analysis of a plugin: high confidence and no findings where it looks at none of the files;
/// the comparison of the two revisions where the helper told of both; and else the fallback, with
/// the reason why.
pub open spec fn revision_analysis<F>(
    ctx: ContextModel,
    observation: RevisionObservation<F>,
    fallback: RevisionHelperFallback<'_>,
    failure: Seq<char>,
    parts: PluginParts<F>,
) -> AnalysisModel {
    match revision_inputs(ctx, observation.required_files@, fallback, parts) {
        Err(analysis) => analysis,
        Ok(inputs) => if inputs.changed_files.len() == 0 {
            AnalysisModel { confidence: Confidence::High, findings: Seq::empty() }
        } else {
            match (observation.before, observation.after) {
                (Ok(before), Ok(after)) => AnalysisModel {
                    confidence: Confidence::High,
                    findings: comparison(
                        ctx.files,
                        inputs.changed_files,
                        before,
                        after,
                        parts.in_package,
                        parts.in_file,
                        parts.in_test,
                    ),
                },
                (Err(error), _) => support::plain_fallback(
                    ctx.files,
                    parts.picks,
                    parts.extra,
                    fallback.kind,
                    failure + error@,
                ),
                (Ok(_), Err(error)) => support::plain_fallback(
                    ctx.files,
                    parts.picks,
                    parts.extra,
                    fallback.kind,
                    failure + error@,
                ),
            }
        },
    }
}

/// Where the steps of a comparison find what functions say, so does the comparison.
pub proof fn lemma_comparison<
    'a,
    F,
    P: Fn(&str, Option<&HelperPackageSnapshot>, Option<&HelperPackageSnapshot>) -> Vec<
        PluginFinding,
    >,
    A: Fn(&str, Option<&F>, Option<&F>) -> Vec<PluginFinding>,
    T: Fn(&ChangedFile) -> Vec<PluginFinding>,
>(
    analysis: PluginAnalysis,
    ctx: AnalysisContext,
    paths: Seq<Seq<char>>,
    before: &'a RevisionSnapshot<F>,
    after: &'a RevisionSnapshot<F>,
    analyze_package: P,
    analyze_file: A,
    analyze_test: T,
    in_package: spec_fn(
        Seq<char>,
        Option<HelperPackageSnapshot>,
        Option<HelperPackageSnapshot>,
    ) -> Seq<FindingModel>,
    in_file: spec_fn(Seq<char>, Option<F>, Option<F>) -> Seq<FindingModel>,
    in_test: spec_fn(FileModel) -> Seq<FindingModel>,
)
    requires
        runtime::compares::<&'a RevisionSnapshot<F>, P, A, T>(
            analysis,
            ctx,
            paths,
            (before, after),
            analyze_package,
            analyze_file,
            analyze_test,
        ),
        forall|
            p: &str,
            b: Option<&HelperPackageSnapshot>,
            a: Option<&HelperPackageSnapshot>,
            v: Vec<PluginFinding>,
        |
            #[trigger] call_ensures(analyze_package, (p, b, a), v) ==> text::views(v@)
                == in_package(p@, inner(b), inner(a)),
        forall|p: &str, b: Option<&F>, a: Option<&F>, v: Vec<PluginFinding>| #[trigger]
            call_ensures(analyze_file, (p, b, a), v) ==> text::views(v@) == in_file(
                p@,
                inner(b),
                inner(a),
            ),
        support::finds(analyze_test, in_test),
    ensures
        analysis@.findings == comparison(
            ctx@.files,
            paths,
            *before,
            *after,
            in_package,
            in_file,
            in_test,
        ),
{
    let pairs = runtime::representatives(paths);
    let (packages, files, tests) = choose|
        packages: Seq<Seq<FindingModel>>,
        files: Seq<Seq<FindingModel>>,
        tests: Seq<Seq<FindingModel>>,
    |
        #[trigger] runtime::packages_find::<&'a RevisionSnapshot<F>, P>(
            analyze_package,
            (before, after),
            paths,
            packages,
        ) && #[trigger] runtime::files_find::<&'a RevisionSnapshot<F>, A>(
            analyze_file,
            (before, after),
            paths,
            files,
        ) && #[trigger] runtime::tests_find(analyze_test, ctx.files@, tests)
            && analysis@.findings == runtime::flat(packages) + runtime::flat(files) + runtime::flat(
            tests,
        );
    assert(packages =~= Seq::new(
        pairs.len(),
        |i: int|
            in_package(
                pairs[i].1,
                package_in(before.packages@, pairs[i].0),
                package_in(after.packages@, pairs[i].0),
            ),
    )) by {
        assert forall|i: int| 0 <= i < pairs.len() implies packages[i] == in_package(
            pairs[i].1,
            package_in(before.packages@, pairs[i].0),
            package_in(after.packages@, pairs[i].0),
        ) by {
            assert(runtime::package_finds::<&'a RevisionSnapshot<F>, P>(
                analyze_package,
                (before, after),
                pairs[i],
                packages[i],
            ));
        }
    }
    assert(files =~= Seq::new(
        paths.len(),
        |i: int|
            in_file(paths[i], file_in(before.files@, paths[i]), file_in(after.files@, paths[i])),
    )) by {
        assert forall|i: int| 0 <= i < paths.len() implies files[i] == in_file(
            paths[i],
            file_in(before.files@, paths[i]),
            file_in(after.files@, paths[i]),
        ) by {
            assert(runtime::file_finds::<&'a RevisionSnapshot<F>, A>(
                analyze_file,
                (before, after),
                paths[i],
                files[i],
            ));
        }
    }
    assert(tests =~= Seq::new(ctx@.files.len(), |i: int| in_test(ctx@.files[i]))) by {
        assert forall|i: int| 0 <= i < ctx.files@.len() implies tests[i] == in_test(
            ctx@.files[i],
        ) by {
            assert(support::may_find(analyze_test, ctx.files@[i], tests[i]));
        }
    }
}

/// What was observed of a revision, by reference.
pub fn borrow_snapshot<F>(snapshot: &Result<RevisionSnapshot<F>, String>) -> (r: Result<
    &RevisionSnapshot<F>,
    String,
>)
    ensures
        match *snapshot {
            Ok(snapshot) => r is Ok && *r->Ok_0 == snapshot,
            Err(error) => r is Err && r->Err_0 == error,
        },
{
    match snapshot {
        Ok(snapshot) => Ok(snapshot),
        Err(error) => Err(error.clone()),
    }
}

impl<F> RevisionObservation<F> {
    /// Whether nothing was observed: the required file is missing and the helper was not run.
    pub open spec fn is_blank(self) -> bool {
        &&& self.required_files@ == seq![RequiredFile { in_base: false, in_head: false }]
        &&& self.before matches Err(error) && error@ == "helper was not run"@
        &&& self.after matches Err(error) && error@ == "helper was not run"@
    }

    /// The observation of a plugin for which nothing was observed.
    pub fn none() -> (r: RevisionObservation<F>)
        ensures
            r.is_blank(),
    {
        let mut required_files: Vec<RequiredFile> = Vec::new();
        required_files.push(RequiredFile { in_base: false, in_head: false });
        RevisionObservation {
            required_files,
            before: Err("helper was not run".to_string()),
            after: Err("helper was not run".to_string()),
        }
    }
}

/// The weight of a change at a nesting depth.
pub fn weight_at_depth(depth: u128) -> (r: u32)
    ensures
        r == depth_weight(depth as nat),
{
    if depth >= 4 {
        35
    } else if depth == 3 {
        30
    } else if depth == 2 {
        25
    } else {
        20
    }
}

proof fn lemma_entry_map(entries: Seq<(String, String)>, n: int)
    requires
        0 <= n < entries.len(),
    ensures
        entry_map(entries).dom().contains(entries[n].0@),
    decreases entries.len(),
{
    if n < entries.len() - 1 {
        lemma_entry_map(entries.drop_last(), n);
    }
}

proof fn lemma_entry_key(entries: Seq<(String, String)>, key: Seq<char>)
    requires
        entry_map(entries).dom().contains(key),
    ensures
        exists|i: int| 0 <= i < entries.len() && (#[trigger] entries[i]).0@ == key,
    decreases entries.len(),
{
    if entries.last().0@ == key {
        assert(entries[entries.len() - 1].0@ == key);
    } else {
        lemma_entry_key(entries.drop_last(), key);
        let i = choose|i: int|
            0 <= i < entries.len() - 1 && (#[trigger] entries.drop_last()[i]).0@ == key;
        assert(entries[i].0@ == key);
    }
}

fn index_entries(entries: &Vec<(String, String)>) -> (r: StringHashMap<String>)
    ensures
        r@.dom() =~= entry_map(entries@).dom(),
        forall|key: Seq<char>| #[trigger]
            r@.dom().contains(key) ==> r@[key]@ == entry_map(entries@)[key],
{
    let mut r: StringHashMap<String> = StringHashMap::new();
    let mut i: usize = 0;
    assert(entries@.take(0) =~= Seq::empty());
    while i < entries.len()
        invariant
            i <= entries@.len(),
            r@.dom() =~= entry_map(entries@.take(i as int)).dom(),
            forall|key: Seq<char>| #[trigger]
                r@.dom().contains(key) ==> r@[key]@ == entry_map(entries@.take(i as int))[key],
        decreases entries@.len() - i,
    {
        assert(entries@.take(i + 1).drop_last() =~= entries@.take(i as int));
        r.insert(entries[i].0.clone(), entries[i].1.clone());
        i = i + 1;
    }
    assert(entries@.take(i as int) =~= entries@);
    r
}

/// Whether each entry of `entries` has in `other` the value that it has in `own`.
fn agree(
    entries: &Vec<(String, String)>,
    own: &StringHashMap<String>,
    other: &StringHashMap<String>,
) -> (r: bool)
    ensures
        r == (forall|i: int|
            0 <= i < entries@.len() ==> {
                let key = (#[trigger] entries@[i]).0@;
                own@.dom().contains(key) && other@.dom().contains(key) && own@[key]@
                    == other@[key]@
            }),
{
    let mut i: usize = 0;
    while i < entries.len()
        invariant
            i <= entries@.len(),
            forall|k: int|
                0 <= k < i ==> {
                    let key = (#[trigger] entries@[k]).0@;
                    own@.dom().contains(key) && other@.dom().contains(key) && own@[key]@
                        == other@[key]@
                },
        decreases entries@.len() - i,
    {
        let key = entries[i].0.as_str();
        let ghost k = entries@[i as int].0@;
        let fits: bool = match (own.get(key), other.get(key)) {
            (Some(a), Some(b)) => text::same(a.as_str(), b.as_str()),
            _ => false,
        };
        if !fits {
            assert(!(own@.dom().contains(k) && other@.dom().contains(k) && own@[k]@ == other@[k]@));
            assert(entries@[i as int].0@ == k);
            return false;
        }
        i = i + 1;
    }
    true
}

/// Whether the entries make up the same map.
pub fn same_entries(a: &Vec<(String, String)>, b: &Vec<(String, String)>) -> (r: bool)
    ensures
        r == (entry_map(a@) == entry_map(b@)),
{
    let left = index_entries(a);
    let right = index_entries(b);
    let there: bool = agree(a, &left, &right);
    let back: bool = agree(b, &right, &left);
    proof {
        let m = entry_map(a@);
        let n = entry_map(b@);
        assert forall|i: int| 0 <= i < a@.len() implies m.dom().contains(
            (#[trigger] a@[i]).0@,
        ) by {
            lemma_entry_map(a@, i);
        }
        assert forall|i: int| 0 <= i < b@.len() implies n.dom().contains(
            (#[trigger] b@[i]).0@,
        ) by {
            lemma_entry_map(b@, i);
        }
        if there && back {
            assert forall|key: Seq<char>| m.dom().contains(key) implies n.dom().contains(key)
                && m[key] == n[key] by {
                lemma_entry_key(a@, key);
                let i = choose|i: int| 0 <= i < a@.len() && (#[trigger] a@[i]).0@ == key;
                assert(left@.dom().contains(a@[i].0@));
                assert(right@.dom().contains(a@[i].0@));
            }
            assert forall|key: Seq<char>| n.dom().contains(key) implies m.dom().contains(key) by {
                lemma_entry_key(b@, key);
                let i = choose|i: int| 0 <= i < b@.len() && (#[trigger] b@[i]).0@ == key;
                assert(left@.dom().contains(b@[i].0@));
            }
            assert(m =~= n);
        } else if m == n {
            assert(left@.dom() =~= right@.dom());
            assert forall|i: int| 0 <= i < a@.len() implies {
                let key = (#[trigger] a@[i]).0@;
                left@.dom().contains(key) && right@.dom().contains(key) && left@[key]@
                    == right@[key]@
            } by {
                let key = a@[i].0@;
                assert(m.dom().contains(key));
            }
            assert forall|i: int| 0 <= i < b@.len() implies {
                let key = (#[trigger] b@[i]).0@;
                right@.dom().contains(key) && left@.dom().contains(key) && right@[key]@
                    == left@[key]@
            } by {
                let key = b@[i].0@;
                assert(n.dom().contains(key));
            }
        }
    }
    there && back
}

/// The names of `before` that are not in `after`, each once.
pub fn find_dropped(before: &Vec<String>, after: &Vec<String>) -> (r: Vec<String>)
    ensures
        text::views(r@) == dropped_names(text::views(before@), text::views(after@)),
{
    let ghost earlier = text::views(before@);
    let ghost later = text::views(after@);
    let mut known: StringHashMap<bool> = StringHashMap::new();
    let mut i: usize = 0;
    while i < after.len()
        invariant
            i <= after@.len(),
            later == text::views(after@),
            forall|name: Seq<char>| #[trigger]
                known@.dom().contains(name) == later.take(i as int).contains(name),
        decreases after@.len() - i,
    {
        let ghost prefix = later.take(i as int);
        let ghost longer = later.take(i + 1);
        let ghost seen = known@.dom();
        known.insert(after[i].clone(), true);
        proof {
            let name = after@[i as int]@;
            assert(longer =~= prefix.push(name));
            assert forall|x: Seq<char>| #[trigger] known@.dom().contains(x) == longer.contains(
                x,
            ) by {
                assert(seen.contains(x) == prefix.contains(x));
                lemma_push_contains(prefix, name, x);
            }
        }
        i = i + 1;
    }
    assert(later.take(i as int) =~= later);
    let mut r: Vec<String> = Vec::new();
    let mut i: usize = 0;
    assert(earlier.take(0) =~= Seq::empty());
    assert(text::views(r@) =~= dropped_names(earlier.take(0), later));
    while i < before.len()
        invariant
            i <= before@.len(),
            earlier == text::views(before@),
            text::views(r@) =~= dropped_names(earlier.take(i as int), later),
            forall|name: Seq<char>| #[trigger]
                known@.dom().contains(name) == (later.contains(name) || text::views(r@).contains(
                    name,
                )),
        decreases before@.len() - i,
    {
        let ghost done = text::views(r@);
        let ghost seen = known@.dom();
        proof {
            assert(earlier.take(i + 1).drop_last() =~= earlier.take(i as int));
            assert(earlier.take(i + 1).last() == before@[i as int]@);
        }
        if !known.contains_key(before[i].as_str()) {
            known.insert(before[i].clone(), true);
            r.push(before[i].clone());
            proof {
                let name = before@[i as int]@;
                assert(text::views(r@) =~= done.push(name));
                assert forall|x: Seq<char>| #[trigger] known@.dom().contains(x) == (
                later.contains(x) || text::views(r@).contains(x)) by {
                    assert(seen.contains(x) == (later.contains(x) || done.contains(x)));
                    lemma_push_contains(done, name, x);
                }
            }
        }
        i = i + 1;
    }
    assert(earlier.take(i as int) =~= earlier);
    r
}

proof fn lemma_push_contains(s: Seq<Seq<char>>, last: Seq<char>, x: Seq<char>)
    ensures
        s.push(last).contains(x) == (s.contains(x) || x == last),
{
    if s.contains(x) {
        let k = choose|k: int| 0 <= k < s.len() && s[k] == x;
        assert(s.push(last)[k] == x);
    }
    if x == last {
        assert(s.push(last)[s.len() as int] == x);
    }
    if s.push(last).contains(x) && x != last {
        let k = choose|k: int| 0 <= k < s.push(last).len() && s.push(last)[k] == x;
        assert(s[k] == x);
    }
}

/// What the comparison of a package finds.
pub fn compare_packages(
    words: PackageWords<'_>,
    path: &str,
    before: Option<&HelperPackageSnapshot>,
    after: Option<&HelperPackageSnapshot>,
) -> (r: Vec<PluginFinding>)
    ensures
        text::views(r@) == package_findings(words, path@, inner(before), inner(after)),
{
    let no_entries: Vec<(String, String)> = Vec::new();
    let no_names: Vec<String> = Vec::new();
    let (old_exports, old_names) = match before {
        Some(package) => (&package.exports, &package.implementations),
        None => (&no_entries, &no_names),
    };
    let (new_exports, new_names) = match after {
        Some(package) => (&package.exports, &package.implementations),
        None => (&no_entries, &no_names),
    };
    proof {
        assert(text::views(no_names@) =~= Seq::empty());
        assert(entry_map(old_exports@) == exports_of(inner(before)));
        assert(entry_map(new_exports@) == exports_of(inner(after)));
        assert(text::views(old_names@) == implementations_of(inner(before)));
        assert(text::views(new_names@) == implementations_of(inner(after)));
    }
    let mut findings: Vec<PluginFinding> = Vec::new();
    if !same_entries(old_exports, new_exports) {
        findings.push(
            support::base_finding(path.to_owned(), words.api_kind, words.api_message),
        );
    }
    let dropped = find_dropped(old_names, new_names);
    assert(dropped@.len() == text::views(dropped@).len());
    if dropped.len() > 0 {
        let list = text::join(&dropped, ", ");
        findings.push(
            support::base_finding(
                path.to_owned(),
                words.break_kind,
                words.break_message.to_owned().concat(list.as_str()),
            ),
        );
    }
    assert(text::views(findings@) =~= package_findings(words, path@, inner(before), inner(after)));
    findings
}

/// The dropped names are those of `before` that are not in `after`, and none of them twice.
pub proof fn law_dropped_names(before: Seq<Seq<char>>, after: Seq<Seq<char>>)
    ensures
        forall|name: Seq<char>| #[trigger]
            dropped_names(before, after).contains(name) <==> before.contains(name)
                && !after.contains(name),
        dropped_names(before, after).no_duplicates(),
    decreases before.len(),
{
    if before.len() > 0 {
        let shorter = before.drop_last();
        let earlier = dropped_names(shorter, after);
        let last = before.last();
        law_dropped_names(shorter, after);
        assert(before =~= shorter.push(last));
        assert forall|name: Seq<char>| #[trigger]
            dropped_names(before, after).contains(name) <==> before.contains(name)
                && !after.contains(name) by {
            lemma_push_contains(shorter, last, name);
            lemma_push_contains(earlier, last, name);
            assert(earlier.contains(name) <==> shorter.contains(name) && !after.contains(name));
        }
        if !(after.contains(last) || earlier.contains(last)) {
            let now = dropped_names(before, after);
            assert forall|i: int, j: int|
                0 <= i < now.len() && 0 <= j < now.len() && i != j implies now[i] != now[j] by {
                if i < earlier.len() && j < earlier.len() {
                    assert(earlier[i] != earlier[j]);
                } else if i < earlier.len() {
                    assert(earlier.contains(earlier[i]));
                } else if j < earlier.len() {
                    assert(earlier.contains(earlier[j]));
                }
            }
        }
    }
}

proof fn lemma_fallback_tells_of(
    files: Seq<FileModel>,
    picks: Seq<bool>,
    extras: Seq<Seq<FindingModel>>,
    kind: ReasonKind,
    reason: Seq<char>,
    i: int,
)
    requires
        0 <= i < files.len(),
        picks.len() == files.len(),
        extras.len() == files.len(),
        picks[i],
    ensures
        support::fallback_findings(files, picks, extras, kind, reason).contains(
            support::additive(files[i].path, kind, reason),
        ),
    decreases files.len(),
{
    let all = support::fallback_findings(files, picks, extras, kind, reason);
    let before = support::fallback_findings(
        files.drop_last(),
        picks.drop_last(),
        extras.drop_last(),
        kind,
        reason,
    );
    if i < files.len() - 1 {
        lemma_fallback_tells_of(
            files.drop_last(),
            picks.drop_last(),
            extras.drop_last(),
            kind,
            reason,
            i,
        );
        let wanted = support::additive(files[i].path, kind, reason);
        let k = choose|k: int| 0 <= k < before.len() && before[k] == wanted;
        assert(all[k] == wanted);
    } else {
        assert(all[before.len() as int] == support::additive(files[i].path, kind, reason));
    }
}

/// Where a prerequisite is missing, a plugin does not fail: it answers with medium confidence, and
/// tells the reason for each file that it looks at.
pub proof fn law_missing_prerequisite_falls_back<F>(
    ctx: ContextModel,
    observation: RevisionObservation<F>,
    fallback: RevisionHelperFallback<'_>,
    failure: Seq<char>,
    parts: PluginParts<F>,
    i: int,
)
    requires
        0 <= i < ctx.files.len(),
        (parts.picks)(ctx.files[i].path),
        helper_process::gap_of(ctx, observation.required_files@) is Some,
    ensures
        ({
            let analysis = revision_analysis(ctx, observation, fallback, failure, parts);
            let gap = helper_process::gap_of(ctx, observation.required_files@)->0;
            &&& analysis.confidence == Confidence::Medium
            &&& analysis.findings.contains(
                support::additive(ctx.files[i].path, fallback.kind, fallback.reason_for(gap)),
            )
        }),
{
    let picks = support::picks_of(ctx.files, parts.picks);
    let gap = helper_process::gap_of(ctx, observation.required_files@)->0;
    lemma_picked_is_there(ctx.files, picks, i);
    lemma_fallback_tells_of(
        ctx.files,
        picks,
        support::extras_of(ctx.files, parts.extra),
        fallback.kind,
        fallback.reason_for(gap),
        i,
    );
}

/// Where the helper fails on a revision, a plugin answers with medium confidence, and tells the
/// error for each file that it looks at.
pub proof fn law_failed_helper_falls_back<F>(
    ctx: ContextModel,
    observation: RevisionObservation<F>,
    fallback: RevisionHelperFallback<'_>,
    failure: Seq<char>,
    parts: PluginParts<F>,
    i: int,
)
    requires
        0 <= i < ctx.files.len(),
        (parts.picks)(ctx.files[i].path),
        helper_process::gap_of(ctx, observation.required_files@) is None,
        observation.before is Err || observation.after is Err,
    ensures
        ({
            let analysis = revision_analysis(ctx, observation, fallback, failure, parts);
            let error = if observation.before is Err {
                observation.before->Err_0@
            } else {
                observation.after->Err_0@
            };
            &&& analysis.confidence == Confidence::Medium
            &&& analysis.findings.contains(
                support::additive(ctx.files[i].path, fallback.kind, failure + error),
            )
        }),
{
    let picks = support::picks_of(ctx.files, parts.picks);
    let error = if observation.before is Err {
        observation.before->Err_0@
    } else {
        observation.after->Err_0@
    };
    lemma_picked_is_there(ctx.files, picks, i);
    lemma_fallback_tells_of(
        ctx.files,
        picks,
        support::extras_of(ctx.files, parts.extra),
        fallback.kind,
        failure + error,
        i,
    );
}

proof fn lemma_picked_is_there(files: Seq<FileModel>, picks: Seq<bool>, i: int)
    requires
        0 <= i < files.len(),
        picks.len() == files.len(),
        picks[i],
    ensures
        support::picked_paths(files, picks).len() > 0,
    decreases files.len(),
{
    if i < files.len() - 1 {
        lemma_picked_is_there(files.drop_last(), picks.drop_last(), i);
    }
}

/// High confidence needs a revision range whose required files are there and whose revisions the
/// helper told of, unless the plugin looks at none of the files.
pub proof fn law_high_confidence_needs_revisions<F>(
    ctx: ContextModel,
    observation: RevisionObservation<F>,
    fallback: RevisionHelperFallback<'_>,
    failure: Seq<char>,
    parts: PluginParts<F>,
)
    requires
        revision_analysis(ctx, observation, fallback, failure, parts).confidence
            == Confidence::High,
    ensures
        (forall|i: int| 0 <= i < ctx.files.len() ==> !(parts.picks)((#[trigger] ctx.files[i]).path))
            || (ctx.input_kind == InputKind::GitRevisionRange && !helper_process::lacks_file(
            observation.required_files@,
        ) && observation.before is Ok && observation.after is Ok),
{
    let picks = support::picks_of(ctx.files, parts.picks);
    if exists|i: int| 0 <= i < ctx.files.len() && (parts.picks)((#[trigger] ctx.files[i]).path) {
        let i = choose|i: int|
            0 <= i < ctx.files.len() && (parts.picks)((#[trigger] ctx.files[i]).path);
        lemma_picked_is_there(ctx.files, picks, i);
    }
}

/// Whether entries give a name a value: the last entry of the name has that value.
pub open spec fn gives(entries: Seq<(String, String)>, name: Seq<char>, value: Seq<char>) -> bool {
    exists|i: int|
        0 <= i < entries.len() && (#[trigger] entries[i]).0@ == name && entries[i].1@ == value
            && forall|j: int| i < j < entries.len() ==> (#[trigger] entries[j]).0@ != name
}

/// Whether a package, where there is one, exports a name with a signature.
pub open spec fn exports_as(
    package: Option<HelperPackageSnapshot>,
    name: Seq<char>,
    signature: Seq<char>,
) -> bool {
    package matches Some(package) && gives(package.exports@, name, signature)
}

/// Whether a package, where there is one, has an implementation.
pub open spec fn has_implementation(
    package: Option<HelperPackageSnapshot>,
    name: Seq<char>,
) -> bool {
    package matches Some(package) && exists|i: int|
        0 <= i < package.implementations@.len() && (#[trigger] package.implementations@[i])@ == name
}

/// Whether one of the findings is of a kind.
pub open spec fn tells(findings: Seq<FindingModel>, kind: ReasonKind) -> bool {
    exists|i: int| 0 <= i < findings.len() && (#[trigger] findings[i]).kind == kind
}

proof fn lemma_gives(entries: Seq<(String, String)>, name: Seq<char>, value: Seq<char>)
    ensures
        gives(entries, name, value) <==> entry_map(entries).dom().contains(name) && entry_map(
            entries,
        )[name] == value,
    decreases entries.len(),
{
    if entries.len() > 0 {
        let before = entries.drop_last();
        let n = entries.len() - 1;
        lemma_gives(before, name, value);
        if gives(entries, name, value) {
            let i = choose|i: int|
                0 <= i < entries.len() && (#[trigger] entries[i]).0@ == name && entries[i].1@
                    == value && forall|j: int|
                    i < j < entries.len() ==> (#[trigger] entries[j]).0@ != name;
            if i < n {
                assert(entries[n].0@ != name);
                assert(before[i] == entries[i]);
                assert forall|j: int| i < j < before.len() implies (#[trigger] before[j]).0@
                    != name by {
                    assert(before[j] == entries[j]);
                }
                assert(gives(before, name, value));
            }
        }
        if entry_map(entries).dom().contains(name) && entry_map(entries)[name] == value {
            if entries[n].0@ == name {
                assert(entries[n].1@ == value);
                assert(gives(entries, name, value));
            } else {
                let i = choose|i: int|
                    0 <= i < before.len() && (#[trigger] before[i]).0@ == name && before[i].1@
                        == value && forall|j: int|
                        i < j < before.len() ==> (#[trigger] before[j]).0@ != name;
                assert(entries[i] == before[i]);
                assert forall|j: int| i < j < entries.len() implies (#[trigger] entries[j]).0@
                    != name by {
                    if j < n {
                        assert(before[j] == entries[j]);
                    }
                }
                assert(gives(entries, name, value));
            }
        }
    }
}

/// Two lists of entries make up different maps where a name has a value by one of them and not by the
/// other one.
pub proof fn law_maps_differ_by_an_entry(a: Seq<(String, String)>, b: Seq<(String, String)>)
    ensures
        entry_map(a) != entry_map(b) <==> exists|name: Seq<char>, value: Seq<char>| #[trigger]
            gives(a, name, value) != #[trigger] gives(b, name, value),
{
    let m = entry_map(a);
    let n = entry_map(b);
    assert forall|name: Seq<char>, value: Seq<char>|
        m == n implies #[trigger] gives(a, name, value) == #[trigger] gives(b, name, value) by {
        lemma_gives(a, name, value);
        lemma_gives(b, name, value);
    }
    if forall|name: Seq<char>, value: Seq<char>| #[trigger]
        gives(a, name, value) == #[trigger] gives(b, name, value) {
        assert forall|name: Seq<char>| m.dom().contains(name) == n.dom().contains(name) by {
            lemma_gives(a, name, m[name]);
            lemma_gives(b, name, m[name]);
            lemma_gives(a, name, n[name]);
            lemma_gives(b, name, n[name]);
            assert(gives(a, name, m[name]) == gives(b, name, m[name]));
            assert(gives(a, name, n[name]) == gives(b, name, n[name]));
        }
        assert forall|name: Seq<char>| m.dom().contains(name) implies m[name] == n[name] by {
            lemma_gives(a, name, m[name]);
            lemma_gives(b, name, m[name]);
            assert(gives(a, name, m[name]) == gives(b, name, m[name]));
        }
        assert(m =~= n);
    }
}

/// The comparison of two packages tells of a changed interface where some name is exported by one of
/// them and not by the other, or by both with different signatures, and only there; a name that is
/// gone counts like one that is new, so that the direction of the change does not matter. It tells of
/// a broken interface where an implementation is gone, and only there.
pub proof fn law_changed_packages_are_told(
    words: PackageWords<'_>,
    path: Seq<char>,
    before: Option<HelperPackageSnapshot>,
    after: Option<HelperPackageSnapshot>,
)
    requires
        words.api_kind != words.break_kind,
    ensures
        ({
            let found = package_findings(words, path, before, after);
            let back = package_findings(words, path, after, before);
            &&& tells(found, words.api_kind) <==> exists|name: Seq<char>, signature: Seq<char>|
                #[trigger] exports_as(before, name, signature) != #[trigger] exports_as(
                    after,
                    name,
                    signature,
                )
            &&& tells(found, words.api_kind) == tells(back, words.api_kind)
            &&& tells(found, words.break_kind) <==> exists|name: Seq<char>| #[trigger]
                has_implementation(before, name) && !has_implementation(after, name)
            &&& forall|i: int|
                0 <= i < found.len() ==> {
                    let finding = #[trigger] found[i];
                    &&& finding.path == path
                    &&& finding.weight_override is None
                    &&& finding.score_mode == crate::context::PluginScoreMode::Base
                    &&& finding.kind == words.api_kind && finding.message == words.api_message@
                        || finding.kind == words.break_kind && text::has_prefix(
                        finding.message,
                        words.break_message@,
                    )
                }
            &&& found.len() <= 2
        }),
{
    let found = package_findings(words, path, before, after);
    let back = package_findings(words, path, after, before);
    let dropped = dropped_names(implementations_of(before), implementations_of(after));
    let differ = exports_of(before) != exports_of(after);
    lemma_exports_differ(before, after);
    lemma_exports_differ(after, before);
    lemma_dropped(before, after);
    let names = text::joined(dropped, ", "@);
    text::law_parts_of_texts(names, words.break_message@, names, names);
    if differ {
        assert(found[0].kind == words.api_kind);
        assert(back[0].kind == words.api_kind);
    } else {
        assert(forall|i: int| 0 <= i < back.len() ==> (#[trigger] back[i]).kind == words.break_kind);
    }
    if dropped.len() > 0 {
        assert(found[found.len() - 1].kind == words.break_kind);
    }
}

proof fn lemma_exports_differ(
    before: Option<HelperPackageSnapshot>,
    after: Option<HelperPackageSnapshot>,
)
    ensures
        exports_of(before) != exports_of(after) <==> exists|name: Seq<char>, signature: Seq<char>|
            #[trigger] exports_as(before, name, signature) != #[trigger] exports_as(
                after,
                name,
                signature,
            ),
{
    let none: Seq<(String, String)> = Seq::empty();
    let a = match before {
        Some(package) => package.exports@,
        None => none,
    };
    let b = match after {
        Some(package) => package.exports@,
        None => none,
    };
    assert(entry_map(none) =~= Map::empty());
    law_maps_differ_by_an_entry(a, b);
    assert forall|name: Seq<char>, signature: Seq<char>|
        #[trigger] exports_as(before, name, signature) == gives(a, name, signature) by {}
    assert forall|name: Seq<char>, signature: Seq<char>|
        #[trigger] exports_as(after, name, signature) == gives(b, name, signature) by {}
    if exports_of(before) != exports_of(after) {
        let (name, signature) = choose|name: Seq<char>, value: Seq<char>| #[trigger]
            gives(a, name, value) != #[trigger] gives(b, name, value);
        assert(exports_as(before, name, signature) != exports_as(after, name, signature));
    }
    if exists|name: Seq<char>, signature: Seq<char>| #[trigger]
        exports_as(before, name, signature) != #[trigger] exports_as(after, name, signature) {
        let (name, signature) = choose|name: Seq<char>, signature: Seq<char>| #[trigger]
            exports_as(before, name, signature) != #[trigger] exports_as(after, name, signature);
        assert(gives(a, name, signature) != gives(b, name, signature));
    }
}

proof fn lemma_implementation(package: Option<HelperPackageSnapshot>, name: Seq<char>)
    ensures
        implementations_of(package).contains(name) <==> has_implementation(package, name),
{
    let names = implementations_of(package);
    if names.contains(name) {
        let i = choose|i: int| 0 <= i < names.len() && names[i] == name;
        assert(package->0.implementations@[i]@ == name);
    }
    if has_implementation(package, name) {
        let i = choose|i: int|
            0 <= i < package->0.implementations@.len() && (
            #[trigger] package->0.implementations@[i])@ == name;
        assert(names[i] == name);
    }
}

proof fn lemma_dropped(
    before: Option<HelperPackageSnapshot>,
    after: Option<HelperPackageSnapshot>,
)
    ensures
        dropped_names(implementations_of(before), implementations_of(after)).len() > 0 <==> exists|
            name: Seq<char>,
        | #[trigger] has_implementation(before, name) && !has_implementation(after, name),
{
    let dropped = dropped_names(implementations_of(before), implementations_of(after));
    law_dropped_names(implementations_of(before), implementations_of(after));
    if dropped.len() > 0 {
        let name = dropped[0];
        assert(dropped.contains(name));
        lemma_implementation(before, name);
        lemma_implementation(after, name);
        assert(has_implementation(before, name));
    }
    if exists|name: Seq<char>| #[trigger]
        has_implementation(before, name) && !has_implementation(after, name) {
        let name = choose|name: Seq<char>| #[trigger]
            has_implementation(before, name) && !has_implementation(after, name);
        lemma_implementation(before, name);
        lemma_implementation(after, name);
        assert(dropped.contains(name));
    }
}

/// The finding of a broken interface names the implementations that are gone, with a comma between
/// them: each once, in the order in which they first occur.
pub proof fn law_dropped_names_keep_their_order(
    before: Seq<Seq<char>>,
    more: Seq<Seq<char>>,
    after: Seq<Seq<char>>,
)
    ensures
        dropped_names(before, after).len() <= dropped_names(before + more, after).len(),
        dropped_names(before + more, after).take(dropped_names(before, after).len() as int)
            == dropped_names(before, after),
    decreases more.len(),
{
    let first = dropped_names(before, after);
    if more.len() == 0 {
        assert(before + more =~= before);
        assert(first.take(first.len() as int) =~= first);
    } else {
        law_dropped_names_keep_their_order(before, more.drop_last(), after);
        assert((before + more).drop_last() =~= before + more.drop_last());
        let earlier = dropped_names(before + more.drop_last(), after);
        assert(dropped_names(before + more, after).take(first.len() as int) =~= earlier.take(
            first.len() as int,
        ));
    }
}

/// What a broken interface is told with.
pub proof fn law_broken_interfaces_are_named(
    words: PackageWords<'_>,
    path: Seq<char>,
    before: Option<HelperPackageSnapshot>,
    after: Option<HelperPackageSnapshot>,
    i: int,
)
    requires
        words.api_kind != words.break_kind,
        0 <= i < package_findings(words, path, before, after).len(),
        package_findings(words, path, before, after)[i].kind == words.break_kind,
    ensures
        package_findings(words, path, before, after)[i].message == words.break_message@
            + text::joined(
            dropped_names(
                match before {
                    Some(package) => text::views(package.implementations@),
                    None => Seq::empty(),
                },
                match after {
                    Some(package) => text::views(package.implementations@),
                    None => Seq::empty(),
                },
            ),
            ", "@,
        ),
{
}

/// The deeper a change, the more it weighs: 20 at the top and at depth 1, 25 at 2, 30 at 3, and 35
/// from 4 on.
pub proof fn law_depth_weights(depth: nat)
    ensures
        depth_weight(0) == 20 && depth_weight(1) == 20 && depth_weight(2) == 25 && depth_weight(3)
            == 30 && depth_weight(4) == 35,
        depth > 4 ==> depth_weight(depth) == depth_weight(4),
        depth_weight(depth) <= depth_weight(depth + 1),
{
}

/// Of the packages of a directory, and of the entries of a path, the last one counts.
pub proof fn law_last_snapshot_counts<F>(
    packages: Seq<HelperPackageSnapshot>,
    dir: Seq<char>,
    files: Seq<(String, F)>,
    path: Seq<char>,
    i: int,
)
    ensures
        0 <= i < packages.len() && packages[i].dir@ == dir && (forall|j: int|
            i < j < packages.len() ==> (#[trigger] packages[j]).dir@ != dir) ==> package_in(
            packages,
            dir,
        ) == Some(packages[i]),
        (forall|j: int| 0 <= j < packages.len() ==> (#[trigger] packages[j]).dir@ != dir)
            ==> package_in(packages, dir) is None,
        0 <= i < files.len() && files[i].0@ == path && (forall|j: int|
            i < j < files.len() ==> (#[trigger] files[j]).0@ != path) ==> file_in(files, path)
            == Some(files[i].1),
        (forall|j: int| 0 <= j < files.len() ==> (#[trigger] files[j]).0@ != path) ==> file_in(
            files,
            path,
        ) is None,
    decreases packages.len() + files.len(),
{
    if packages.len() > 0 {
        let n = packages.len() - 1;
        let shorter = packages.drop_last();
        law_last_snapshot_counts(shorter, dir, files, path, i);
        assert(forall|j: int| 0 <= j < n ==> shorter[j] == packages[j]);
        assert(packages[n] == packages.last());
    }
    if files.len() > 0 {
        let n = files.len() - 1;
        let shorter = files.drop_last();
        law_last_snapshot_counts(packages, dir, shorter, path, i);
        assert(forall|j: int| 0 <= j < n ==> shorter[j] == files[j]);
        assert(files[n] == files.last());
    }
}

/// Whether a finding is told for one of the changed files that a plugin looks at, in the comparison of
/// two revisions: for its package, where its path stands for the directory, or for the file itself.
pub open spec fn told_of<F>(
    finding: FindingModel,
    paths: Seq<Seq<char>>,
    before: RevisionSnapshot<F>,
    after: RevisionSnapshot<F>,
    parts: PluginParts<F>,
) -> bool {
    ||| exists|i: int|
        0 <= i < runtime::representatives(paths).len() && {
            let (dir, path) = #[trigger] runtime::representatives(paths)[i];
            (parts.in_package)(
                path,
                package_in(before.packages@, dir),
                package_in(after.packages@, dir),
            ).contains(finding)
        }
    ||| exists|i: int|
        0 <= i < paths.len() && (parts.in_file)(
            #[trigger] paths[i],
            file_in(before.files@, paths[i]),
            file_in(after.files@, paths[i]),
        ).contains(finding)
}

/// The comparison of two revisions holds what is found in each package, in each file, and in each test
/// of the changed files, and nothing else.
pub proof fn law_comparisons_are_complete<F>(
    files: Seq<FileModel>,
    paths: Seq<Seq<char>>,
    before: RevisionSnapshot<F>,
    after: RevisionSnapshot<F>,
    parts: PluginParts<F>,
    finding: FindingModel,
)
    ensures
        comparison(
            files,
            paths,
            before,
            after,
            parts.in_package,
            parts.in_file,
            parts.in_test,
        ).contains(finding) <==> told_of(finding, paths, before, after, parts) || exists|i: int|
            0 <= i < files.len() && (parts.in_test)(#[trigger] files[i]).contains(finding),
{
    let pairs = runtime::representatives(paths);
    let a = Seq::new(
        pairs.len(),
        |i: int|
            (parts.in_package)(
                pairs[i].1,
                package_in(before.packages@, pairs[i].0),
                package_in(after.packages@, pairs[i].0),
            ),
    );
    let b = Seq::new(
        paths.len(),
        |i: int|
            (parts.in_file)(
                paths[i],
                file_in(before.files@, paths[i]),
                file_in(after.files@, paths[i]),
            ),
    );
    let c = Seq::new(files.len(), |i: int| (parts.in_test)(files[i]));
    runtime::law_flat_holds_all_parts(a, finding);
    runtime::law_flat_holds_all_parts(b, finding);
    runtime::law_flat_holds_all_parts(c, finding);
    let fa = runtime::flat(a);
    let fb = runtime::flat(b);
    let fc = runtime::flat(c);
    let all = fa + fb + fc;
    assert(all == comparison(
        files,
        paths,
        before,
        after,
        parts.in_package,
        parts.in_file,
        parts.in_test,
    ));
    if all.contains(finding) {
        let k = choose|k: int| 0 <= k < all.len() && all[k] == finding;
        if k < fa.len() {
            assert(fa[k] == finding);
            let i = choose|i: int| 0 <= i < a.len() && (#[trigger] a[i]).contains(finding);
            assert(a[i] == (parts.in_package)(
                pairs[i].1,
                package_in(before.packages@, pairs[i].0),
                package_in(after.packages@, pairs[i].0),
            ));
        } else if k < fa.len() + fb.len() {
            assert(fb[k - fa.len()] == finding);
            let i = choose|i: int| 0 <= i < b.len() && (#[trigger] b[i]).contains(finding);
            assert(paths[i] == paths[i]);
        } else {
            assert(fc[k - fa.len() - fb.len()] == finding);
            let i = choose|i: int| 0 <= i < c.len() && (#[trigger] c[i]).contains(finding);
            assert((parts.in_test)(files[i]).contains(finding));
        }
    }
    if told_of(finding, paths, before, after, parts) {
        if exists|i: int|
            0 <= i < pairs.len() && {
                let (dir, path) = #[trigger] pairs[i];
                (parts.in_package)(
                    path,
                    package_in(before.packages@, dir),
                    package_in(after.packages@, dir),
                ).contains(finding)
            } {
            let i = choose|i: int|
                0 <= i < pairs.len() && {
                    let (dir, path) = #[trigger] pairs[i];
                    (parts.in_package)(
                        path,
                        package_in(before.packages@, dir),
                        package_in(after.packages@, dir),
                    ).contains(finding)
                };
            assert(a[i].contains(finding));
            let k = choose|k: int| 0 <= k < fa.len() && fa[k] == finding;
            assert(all[k] == finding);
        } else {
            let i = choose|i: int|
                0 <= i < paths.len() && (parts.in_file)(
                    #[trigger] paths[i],
                    file_in(before.files@, paths[i]),
                    file_in(after.files@, paths[i]),
                ).contains(finding);
            assert(b[i].contains(finding));
            let k = choose|k: int| 0 <= k < fb.len() && fb[k] == finding;
            assert(all[fa.len() + k] == finding);
        }
    }
    if exists|i: int| 0 <= i < files.len() && (parts.in_test)(#[trigger] files[i]).contains(finding) {
        let i = choose|i: int|
            0 <= i < files.len() && (parts.in_test)(#[trigger] files[i]).contains(finding);
        assert(c[i].contains(finding));
        let k = choose|k: int| 0 <= k < fc.len() && fc[k] == finding;
        assert(all[fa.len() + fb.len() + k] == finding);
    }
}

/// On a revision range whose repository and revisions are known, whose required files are there and
/// whose revisions the helper told of, a plugin compares the revisions on the paths that it looks at,
/// with high confidence.
pub proof fn law_revisions_are_compared<F>(
    ctx: ContextModel,
    observation: RevisionObservation<F>,
    before: RevisionSnapshot<F>,
    after: RevisionSnapshot<F>,
    fallback: RevisionHelperFallback<'_>,
    failure: Seq<char>,
    parts: PluginParts<F>,
    i: int,
)
    requires
        ctx.input_kind == InputKind::GitRevisionRange,
        ctx.repo_root is Some,
        ctx.base_rev is Some,
        ctx.head_rev is Some,
        forall|k: int|
            0 <= k < observation.required_files@.len() ==> (
            #[trigger] observation.required_files@[k]).in_base
                && observation.required_files@[k].in_head,
        observation.before == Ok::<RevisionSnapshot<F>, String>(before),
        observation.after == Ok::<RevisionSnapshot<F>, String>(after),
        0 <= i < ctx.files.len(),
        (parts.picks)(ctx.files[i].path),
    ensures
        ({
            let analysis = revision_analysis(ctx, observation, fallback, failure, parts);
            &&& analysis.confidence == Confidence::High
            &&& analysis.findings == comparison(
                ctx.files,
                support::picked_paths(ctx.files, support::picks_of(ctx.files, parts.picks)),
                before,
                after,
                parts.in_package,
                parts.in_file,
                parts.in_test,
            )
        }),
{
    lemma_picked_is_there(ctx.files, support::picks_of(ctx.files, parts.picks), i);
}

/// Where a plugin looks at none of the files, it finds nothing, with high confidence.
pub proof fn law_other_files_find_nothing<F>(
    ctx: ContextModel,
    observation: RevisionObservation<F>,
    fallback: RevisionHelperFallback<'_>,
    failure: Seq<char>,
    parts: PluginParts<F>,
)
    requires
        forall|i: int| 0 <= i < ctx.files.len() ==> !(parts.picks)((#[trigger] ctx.files[i]).path),
    ensures
        revision_analysis(ctx, observation, fallback, failure, parts).confidence
            == Confidence::High,
        revision_analysis(ctx, observation, fallback, failure, parts).findings.len() == 0,
{
    let picks = support::picks_of(ctx.files, parts.picks);
    assert forall|i: int| 0 <= i < picks.len() implies !(#[trigger] picks[i]) by {
        assert(!(parts.picks)(ctx.files[i].path));
    }
    support::law_nothing_picked(ctx.files, picks);
}

/// An observation of nothing lacks a file that the helper requires, and both its snapshots say that the
/// helper was not run.
pub proof fn law_nothing_observed<F>(observation: RevisionObservation<F>)
    requires
        observation.is_blank(),
    ensures
        observation.required_files@.len() == 1,
        !observation.required_files@[0].in_base && !observation.required_files@[0].in_head,
        observation.before is Err && observation.before->Err_0@ == "helper was not run"@,
        observation.after is Err && observation.after->Err_0@ == "helper was not run"@,
{
    assert(observation.required_files@[0] == seq![
        RequiredFile { in_base: false, in_head: false },
    ][0]);
}

} // verus!
