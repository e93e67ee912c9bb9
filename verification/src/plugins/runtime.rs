//! How a plugin compares two revisions: package by package, file by file, and the tests.

use vstd::hash_map::StringHashMap;
use vstd::prelude::*;

use crate::context::{
    AnalysisContext, ChangedFile, FindingModel, PluginAnalysis, PluginFinding,
};
use crate::plugins::helper_process::RevisionHelperInputs;
use crate::plugins::support;
use crate::report::Confidence;
use crate::text;

verus! {

/// What a helper tells of a package.
pub trait PackageSnapshotView {
    /// The exported names with their signatures.
    fn exports(&self) -> &Vec<(String, String)>;

    /// The interfaces that types of the package implement.
    fn implementations(&self) -> &Vec<String>;
}

/// What a helper tells of a revision.
pub trait RevisionSnapshotView {
    type Package: PackageSnapshotView;
    type File;

    fn package_snapshot(&self, dir: &str) -> Option<&Self::Package>;

    fn file_snapshot(&self, path: &str) -> Option<&Self::File>;
}

/// Whether the segment at `i` is a component of the path: empty segments are not, and `.` is only
/// at the beginning.
pub open spec fn is_component(segments: Seq<Seq<char>>, i: int) -> bool {
    segments[i].len() > 0 && (i == 0 || segments[i] != "."@)
}

/// The position of the last component before `n`; -1 where there is none.
pub open spec fn last_component(segments: Seq<Seq<char>>, n: int) -> int
    decreases n,
{
    if n <= 0 {
        -1
    } else if is_component(segments, n - 1) {
        n - 1
    } else {
        last_component(segments, n - 1)
    }
}

/// The directory of a path: what stands before its last component, up to the end of the component
/// before it; `/` for what stands directly below the root; and `.` where nothing is left.
pub open spec fn directory(path: Seq<char>) -> Seq<char> {
    let segments = text::split_seq(path, '/');
    let last = last_component(segments, segments.len() as int);
    let previous = last_component(segments, last);
    if previous >= 0 {
        text::joined(segments.take(previous + 1), "/"@)
    } else if last >= 0 && segments[0].len() == 0 {
        "/"@
    } else {
        "."@
    }
}

/// Whether a directory is among the pairs.
pub open spec fn has_directory(pairs: Seq<(Seq<char>, Seq<char>)>, dir: Seq<char>) -> bool {
    exists|i: int| 0 <= i < pairs.len() && (#[trigger] pairs[i]).0 == dir
}

/// The directories of the paths, each once, with the first path in it.
pub open spec fn representatives(paths: Seq<Seq<char>>) -> Seq<(Seq<char>, Seq<char>)>
    decreases paths.len(),
{
    if paths.len() == 0 {
        Seq::empty()
    } else {
        let before = representatives(paths.drop_last());
        let dir = directory(paths.last());
        if has_directory(before, dir) {
            before
        } else {
            before.push((dir, paths.last()))
        }
    }
}

/// The texts of a pair.
pub open spec fn pair_views(pairs: Seq<(String, String)>) -> Seq<(Seq<char>, Seq<char>)> {
    Seq::new(pairs.len(), |i: int| (pairs[i].0@, pairs[i].1@))
}

/// Findings one after the other.
pub open spec fn flat(parts: Seq<Seq<FindingModel>>) -> Seq<FindingModel>
    decreases parts.len(),
{
    if parts.len() == 0 {
        Seq::empty()
    } else {
        flat(parts.drop_last()) + parts.last()
    }
}

/// Whether a snapshot may tell this of a package.
pub open spec fn tells_package<S: RevisionSnapshotView>(
    snapshot: S,
    dir: Seq<char>,
    package: Option<&S::Package>,
) -> bool {
    exists|d: &str|
        d@ == dir && #[trigger] call_ensures(S::package_snapshot, (&snapshot, d), package)
}

/// Whether a snapshot may tell this of a file.
pub open spec fn tells_file<S: RevisionSnapshotView>(
    snapshot: S,
    path: Seq<char>,
    file: Option<&S::File>,
) -> bool {
    exists|p: &str| p@ == path && #[trigger] call_ensures(S::file_snapshot, (&snapshot, p), file)
}

/// Whether the comparison of a package may find this.
pub open spec fn package_finds<
    S: RevisionSnapshotView,
    A: Fn(&str, Option<&S::Package>, Option<&S::Package>) -> Vec<PluginFinding>,
>(
    analyze: A,
    snapshots: (S, S),
    pair: (Seq<char>, Seq<char>),
    found: Seq<FindingModel>,
) -> bool {
    exists|p: &str, b: Option<&S::Package>, a: Option<&S::Package>, v: Vec<PluginFinding>|
        p@ == pair.1 && tells_package(snapshots.0, pair.0, b) && tells_package(
            snapshots.1,
            pair.0,
            a,
        ) && #[trigger] call_ensures(analyze, (p, b, a), v) && text::views(v@) == found
}

/// Whether the comparison of a file may find this.
pub open spec fn file_finds<
    S: RevisionSnapshotView,
    A: Fn(&str, Option<&S::File>, Option<&S::File>) -> Vec<PluginFinding>,
>(analyze: A, snapshots: (S, S), path: Seq<char>, found: Seq<FindingModel>) -> bool {
    exists|p: &str, b: Option<&S::File>, a: Option<&S::File>, v: Vec<PluginFinding>|
        p@ == path && tells_file(snapshots.0, path, b) && tells_file(snapshots.1, path, a)
            && #[trigger] call_ensures(analyze, (p, b, a), v) && text::views(v@) == found
}

/// Whether the comparisons of all packages may find this.
pub open spec fn packages_find<
    S: RevisionSnapshotView,
    A: Fn(&str, Option<&S::Package>, Option<&S::Package>) -> Vec<PluginFinding>,
>(analyze: A, snapshots: (S, S), paths: Seq<Seq<char>>, found: Seq<Seq<FindingModel>>) -> bool {
    let pairs = representatives(paths);
    &&& found.len() == pairs.len()
    &&& forall|i: int|
        0 <= i < pairs.len() ==> package_finds::<S, A>(
            analyze,
            snapshots,
            #[trigger] pairs[i],
            found[i],
        )
}

/// Whether the comparisons of all files may find this.
pub open spec fn files_find<
    S: RevisionSnapshotView,
    A: Fn(&str, Option<&S::File>, Option<&S::File>) -> Vec<PluginFinding>,
>(analyze: A, snapshots: (S, S), paths: Seq<Seq<char>>, found: Seq<Seq<FindingModel>>) -> bool {
    &&& found.len() == paths.len()
    &&& forall|i: int|
        0 <= i < paths.len() ==> file_finds::<S, A>(
            analyze,
            snapshots,
            #[trigger] paths[i],
            found[i],
        )
}

/// Whether the look at the tests may find this.
pub open spec fn tests_find<A: Fn(&ChangedFile) -> Vec<PluginFinding>>(
    analyze: A,
    files: Seq<ChangedFile>,
    found: Seq<Seq<FindingModel>>,
) -> bool {
    &&& found.len() == files.len()
    &&& forall|i: int|
        0 <= i < files.len() ==> support::may_find(analyze, #[trigger] files[i], found[i])
}

/// Whether a fallback may answer an error with an analysis.
pub open spec fn may_fall_back<F: Fn(&AnalysisContext, &str) -> PluginAnalysis>(
    fallback: F,
    ctx: &AnalysisContext,
    error: Seq<char>,
    analysis: PluginAnalysis,
) -> bool {
    exists|e: &str| e@ == error && #[trigger] call_ensures(fallback, (ctx, e), analysis)
}

/// Whether an analysis of two snapshots holds what the comparisons of packages, of files and of
/// tests find, in this order.
pub open spec fn compares<
    S: RevisionSnapshotView,
    P: Fn(&str, Option<&S::Package>, Option<&S::Package>) -> Vec<PluginFinding>,
    F: Fn(&str, Option<&S::File>, Option<&S::File>) -> Vec<PluginFinding>,
    T: Fn(&ChangedFile) -> Vec<PluginFinding>,
>(
    analysis: PluginAnalysis,
    ctx: AnalysisContext,
    paths: Seq<Seq<char>>,
    snapshots: (S, S),
    analyze_package: P,
    analyze_file: F,
    analyze_test: T,
) -> bool {
    &&& analysis.confidence == Confidence::High
    &&& exists|
        packages: Seq<Seq<FindingModel>>,
        files: Seq<Seq<FindingModel>>,
        tests: Seq<Seq<FindingModel>>,
    |
        #[trigger] packages_find::<S, P>(analyze_package, snapshots, paths, packages)
            && #[trigger] files_find::<S, F>(analyze_file, snapshots, paths, files)
            && #[trigger] tests_find(analyze_test, ctx.files@, tests) && analysis@.findings == flat(
            packages,
        ) + flat(files) + flat(tests)
}

/// The position of the last component before `n`, plus 1; 0 where there is none.
fn find_component(segments: &Vec<String>, n: usize) -> (r: usize)
    requires
        n <= segments@.len(),
    ensures
        r == last_component(text::views(segments@), n as int) + 1,
        r <= n,
{
    let ghost all = text::views(segments@);
    let mut k: usize = n;
    while k > 0
        invariant
            k <= n <= segments@.len(),
            all == text::views(segments@),
            last_component(all, k as int) == last_component(all, n as int),
        decreases k,
    {
        let segment = segments[k - 1].as_str();
        assert(all[k - 1] == segment@);
        if !segment.is_empty() && (k == 1 || !text::same(segment, ".")) {
            return k;
        }
        k = k - 1;
    }
    0
}

/// The directory of a path.
pub fn directory_of(path: &str) -> (r: String)
    ensures
        r@ == directory(path@),
{
    let segments = text::split(path, '/');
    let ghost all = text::split_seq(path@, '/');
    assert(segments@.len() == all.len());
    let last: usize = find_component(&segments, segments.len());
    if last == 0 {
        assert(last_component(all, -1) == -1);
        return ".".to_string();
    }
    let previous: usize = find_component(&segments, last - 1);
    if previous > 0 {
        let mut kept = segments;
        kept.truncate(previous);
        assert(text::views(kept@) =~= all.take(previous as int));
        return text::join(&kept, "/");
    }
    assert(all[0] == segments@[0]@);
    if segments[0].as_str().is_empty() {
        "/".to_string()
    } else {
        ".".to_string()
    }
}

/// The directories of the paths, each once, with the first path in it.
pub fn representative_paths_by_dir(paths: &Vec<String>) -> (r: Vec<(String, String)>)
    ensures
        pair_views(r@) == representatives(text::views(paths@)),
{
    let ghost all = text::views(paths@);
    let mut seen: StringHashMap<bool> = StringHashMap::new();
    let mut by_dir: Vec<(String, String)> = Vec::new();
    let mut i: usize = 0;
    assert(all.take(0) =~= Seq::empty());
    assert(pair_views(by_dir@) =~= representatives(all.take(0)));
    while i < paths.len()
        invariant
            i <= paths@.len(),
            all == text::views(paths@),
            pair_views(by_dir@) =~= representatives(all.take(i as int)),
            forall|dir: Seq<char>| #[trigger]
                seen@.dom().contains(dir) == has_directory(pair_views(by_dir@), dir),
        decreases paths@.len() - i,
    {
        let ghost before = pair_views(by_dir@);
        proof {
            assert(all.take(i + 1).drop_last() =~= all.take(i as int));
            assert(all.take(i + 1).last() == paths@[i as int]@);
        }
        let dir = directory_of(paths[i].as_str());
        if !seen.contains_key(dir.as_str()) {
            let ghost known = seen@.dom();
            seen.insert(dir.clone(), true);
            by_dir.push((dir, paths[i].clone()));
            proof {
                let after = pair_views(by_dir@);
                assert(after =~= before.push((dir@, paths@[i as int]@)));
                assert forall|d: Seq<char>| #[trigger] seen@.dom().contains(d) == has_directory(
                    after,
                    d,
                ) by {
                    if has_directory(before, d) {
                        let k = choose|k: int| 0 <= k < before.len() && (#[trigger] before[k]).0 == d;
                        assert(after[k].0 == d);
                    }
                    if d == dir@ {
                        assert(after[before.len() as int].0 == d);
                    }
                    if has_directory(after, d) && d != dir@ {
                        let k = choose|k: int| 0 <= k < after.len() && (#[trigger] after[k]).0 == d;
                        assert(before[k].0 == d);
                    }
                    assert(known.contains(d) == has_directory(before, d));
                }
            }
        }
        i = i + 1;
    }
    assert(all.take(i as int) =~= all);
    by_dir
}

proof fn lemma_flat_push(parts: Seq<Seq<FindingModel>>, last: Seq<FindingModel>)
    ensures
        flat(parts.push(last)) == flat(parts) + last,
{
    assert(parts.push(last).drop_last() =~= parts);
}

/// The analysis of a plugin that compares two revisions. `before` and `after` are what its helper
/// told of them, or why it failed.
pub fn analyze_revision_plugin<
    S: RevisionSnapshotView,
    Fallback: Fn(&AnalysisContext, &str) -> PluginAnalysis,
    AnalyzePackage: Fn(&str, Option<&S::Package>, Option<&S::Package>) -> Vec<PluginFinding>,
    AnalyzeFile: Fn(&str, Option<&S::File>, Option<&S::File>) -> Vec<PluginFinding>,
    AnalyzeTest: Fn(&ChangedFile) -> Vec<PluginFinding>,
>(
    ctx: &AnalysisContext,
    helper_inputs: &RevisionHelperInputs,
    before: Result<S, String>,
    after: Result<S, String>,
    fallback_findings: Fallback,
    analyze_package: AnalyzePackage,
    analyze_file: AnalyzeFile,
    analyze_test: AnalyzeTest,
) -> (r: PluginAnalysis)
    requires
        forall|e: &str| #[trigger] call_requires(fallback_findings, (ctx, e)),
        forall|p: &str, b: Option<&S::Package>, a: Option<&S::Package>| #[trigger]
            call_requires(analyze_package, (p, b, a)),
        forall|p: &str, b: Option<&S::File>, a: Option<&S::File>| #[trigger]
            call_requires(analyze_file, (p, b, a)),
        forall|file: &ChangedFile| #[trigger] call_requires(analyze_test, (file,)),
    ensures
        helper_inputs.changed_files@.len() == 0 ==> r.confidence == Confidence::High
            && r.findings@.len() == 0,
        helper_inputs.changed_files@.len() > 0 ==> match (before, after) {
            (Err(error), _) => may_fall_back(fallback_findings, ctx, error@, r),
            (Ok(_), Err(error)) => may_fall_back(fallback_findings, ctx, error@, r),
            (Ok(old_snapshot), Ok(new_snapshot)) => compares::<
                S,
                AnalyzePackage,
                AnalyzeFile,
                AnalyzeTest,
            >(
                r,
                *ctx,
                helper_inputs@.changed_files,
                (old_snapshot, new_snapshot),
                analyze_package,
                analyze_file,
                analyze_test,
            ),
        },
{
    if helper_inputs.changed_files.len() == 0 {
        return PluginAnalysis::new(Confidence::High, Vec::new());
    }
    let before = match before {
        Ok(snapshot) => snapshot,
        Err(error) => {
            return fallback_findings(ctx, error.as_str());
        },
    };
    let after = match after {
        Ok(snapshot) => snapshot,
        Err(error) => {
            return fallback_findings(ctx, error.as_str());
        },
    };
    let ghost paths = helper_inputs@.changed_files;
    let ghost snapshots = (before, after);
    let mut findings: Vec<PluginFinding> = Vec::new();

    let by_dir = representative_paths_by_dir(&helper_inputs.changed_files);
    let ghost pairs = representatives(paths);
    assert(by_dir@.len() == pairs.len());
    let ghost mut packages: Seq<Seq<FindingModel>> = Seq::empty();
    let mut i: usize = 0;
    assert(text::views(findings@) =~= flat(packages));
    while i < by_dir.len()
        invariant
            i <= by_dir@.len(),
            pairs == pair_views(by_dir@),
            snapshots == (before, after),
            packages.len() == i,
            forall|p: &str, b: Option<&S::Package>, a: Option<&S::Package>| #[trigger]
                call_requires(analyze_package, (p, b, a)),
            forall|k: int|
                0 <= k < i ==> package_finds::<S, AnalyzePackage>(
                    analyze_package,
                    snapshots,
                    #[trigger] pairs[k],
                    packages[k],
                ),
            text::views(findings@) == flat(packages),
        decreases by_dir@.len() - i,
    {
        let dir = by_dir[i].0.as_str();
        let path = by_dir[i].1.as_str();
        let b = before.package_snapshot(dir);
        let a = after.package_snapshot(dir);
        let more = analyze_package(path, b, a);
        proof {
            let found = text::views(more@);
            assert(tells_package(before, pairs[i as int].0, b));
            assert(tells_package(after, pairs[i as int].0, a));
            assert(package_finds::<S, AnalyzePackage>(
                analyze_package,
                snapshots,
                pairs[i as int],
                found,
            ));
            lemma_flat_push(packages, found);
            packages = packages.push(found);
        }
        support::append_findings(&mut findings, more);
        i = i + 1;
    }
    assert(packages_find::<S, AnalyzePackage>(analyze_package, snapshots, paths, packages));

    let ghost first = flat(packages);
    let ghost mut files: Seq<Seq<FindingModel>> = Seq::empty();
    let mut i: usize = 0;
    assert(text::views(findings@) =~= first + flat(files));
    while i < helper_inputs.changed_files.len()
        invariant
            i <= helper_inputs.changed_files@.len(),
            paths == text::views(helper_inputs.changed_files@),
            snapshots == (before, after),
            files.len() == i,
            forall|p: &str, b: Option<&S::File>, a: Option<&S::File>| #[trigger]
                call_requires(analyze_file, (p, b, a)),
            forall|k: int|
                0 <= k < i ==> file_finds::<S, AnalyzeFile>(
                    analyze_file,
                    snapshots,
                    #[trigger] paths[k],
                    files[k],
                ),
            text::views(findings@) == first + flat(files),
        decreases helper_inputs.changed_files@.len() - i,
    {
        let path = helper_inputs.changed_files[i].as_str();
        let b = before.file_snapshot(path);
        let a = after.file_snapshot(path);
        let more = analyze_file(path, b, a);
        proof {
            let found = text::views(more@);
            assert(tells_file(before, paths[i as int], b));
            assert(tells_file(after, paths[i as int], a));
            assert(file_finds::<S, AnalyzeFile>(analyze_file, snapshots, paths[i as int], found));
            lemma_flat_push(files, found);
            assert(first + (flat(files) + found) =~= (first + flat(files)) + found);
            files = files.push(found);
        }
        support::append_findings(&mut findings, more);
        i = i + 1;
    }
    assert(files_find::<S, AnalyzeFile>(analyze_file, snapshots, paths, files));

    let ghost second = first + flat(files);
    let ghost mut tests: Seq<Seq<FindingModel>> = Seq::empty();
    let mut i: usize = 0;
    assert(text::views(findings@) =~= second + flat(tests));
    while i < ctx.files.len()
        invariant
            i <= ctx.files@.len(),
            tests.len() == i,
            forall|file: &ChangedFile| #[trigger] call_requires(analyze_test, (file,)),
            forall|k: int|
                0 <= k < i ==> support::may_find(analyze_test, #[trigger] ctx.files@[k], tests[k]),
            text::views(findings@) == second + flat(tests),
        decreases ctx.files@.len() - i,
    {
        let more = analyze_test(&ctx.files[i]);
        proof {
            let found = text::views(more@);
            assert(support::may_find(analyze_test, ctx.files@[i as int], found));
            lemma_flat_push(tests, found);
            assert(second + (flat(tests) + found) =~= (second + flat(tests)) + found);
            tests = tests.push(found);
        }
        support::append_findings(&mut findings, more);
        i = i + 1;
    }
    assert(tests_find(analyze_test, ctx.files@, tests));
    PluginAnalysis::new(Confidence::High, findings)
}

/// Each path has its directory among the representatives, each directory is there once, and its
/// path is one of the paths and lies in it.
pub proof fn law_directories_are_represented_once(paths: Seq<Seq<char>>)
    ensures
        forall|i: int|
            0 <= i < paths.len() ==> has_directory(
                representatives(paths),
                directory(#[trigger] paths[i]),
            ),
        forall|i: int, j: int|
            0 <= i < j < representatives(paths).len() ==> (#[trigger] representatives(paths)[i]).0
                != (#[trigger] representatives(paths)[j]).0,
        forall|i: int|
            0 <= i < representatives(paths).len() ==> {
                let pair = #[trigger] representatives(paths)[i];
                paths.contains(pair.1) && directory(pair.1) == pair.0
            },
    decreases paths.len(),
{
    if paths.len() > 0 {
        let shorter = paths.drop_last();
        let before = representatives(shorter);
        let after = representatives(paths);
        law_directories_are_represented_once(shorter);
        assert forall|dir: Seq<char>| has_directory(before, dir) implies #[trigger] has_directory(
            after,
            dir,
        ) by {
            let k = choose|k: int| 0 <= k < before.len() && (#[trigger] before[k]).0 == dir;
            assert(after[k].0 == dir);
        }
        assert forall|i: int| 0 <= i < paths.len() implies has_directory(
            after,
            directory(#[trigger] paths[i]),
        ) by {
            if i < shorter.len() {
                assert(shorter[i] == paths[i]);
            } else if !has_directory(before, directory(paths.last())) {
                assert(after[before.len() as int].0 == directory(paths[i]));
            }
        }
        assert forall|i: int, j: int| 0 <= i < j < after.len() implies (#[trigger] after[i]).0 != (
        #[trigger] after[j]).0 by {
            assert(after[i] == before[i]);
            if j < before.len() {
                assert(after[j] == before[j]);
            } else if after[i].0 == after[j].0 {
                assert(has_directory(before, after[j].0));
            }
        }
        assert forall|i: int| 0 <= i < after.len() implies {
            let pair = #[trigger] after[i];
            paths.contains(pair.1) && directory(pair.1) == pair.0
        } by {
            if i < before.len() {
                assert(after[i] == before[i]);
                let k = choose|k: int| 0 <= k < shorter.len() && shorter[k] == before[i].1;
                assert(paths[k] == before[i].1);
            } else {
                assert(paths[paths.len() - 1] == paths.last());
            }
        }
    }
}

/// What is found in parts is found in the whole, and nothing else is.
pub proof fn law_flat_holds_all_parts(parts: Seq<Seq<FindingModel>>, finding: FindingModel)
    ensures
        flat(parts).contains(finding) <==> exists|i: int|
            0 <= i < parts.len() && (#[trigger] parts[i]).contains(finding),
    decreases parts.len(),
{
    if parts.len() > 0 {
        let shorter = parts.drop_last();
        let before = flat(shorter);
        let last = parts[parts.len() - 1];
        let all = flat(parts);
        law_flat_holds_all_parts(shorter, finding);
        if all.contains(finding) {
            let k = choose|k: int| 0 <= k < all.len() && all[k] == finding;
            if k < before.len() {
                assert(before[k] == finding);
                let i = choose|i: int|
                    0 <= i < shorter.len() && (#[trigger] shorter[i]).contains(finding);
                assert(parts[i].contains(finding));
            } else {
                assert(last[k - before.len()] == finding);
                assert(parts[parts.len() - 1].contains(finding));
            }
        }
        if exists|i: int| 0 <= i < parts.len() && (#[trigger] parts[i]).contains(finding) {
            let i = choose|i: int|
                0 <= i < parts.len() && (#[trigger] parts[i]).contains(finding);
            if i < shorter.len() {
                assert(shorter[i].contains(finding));
                let k = choose|k: int| 0 <= k < before.len() && before[k] == finding;
                assert(all[k] == finding);
            } else {
                let k = choose|k: int| 0 <= k < last.len() && last[k] == finding;
                assert(all[before.len() + k] == finding);
            }
        }
    }
}

/// Findings come in the order of the parts.
pub proof fn law_flat_keeps_the_order(
    first: Seq<Seq<FindingModel>>,
    second: Seq<Seq<FindingModel>>,
    part: Seq<FindingModel>,
)
    ensures
        flat(first + second) == flat(first) + flat(second),
        flat(seq![part]) == part,
    decreases second.len(),
{
    if second.len() == 0 {
        assert(first + second =~= first);
        assert(flat(first) + flat(second) =~= flat(first));
    } else {
        law_flat_keeps_the_order(first, second.drop_last(), part);
        assert((first + second).drop_last() =~= first + second.drop_last());
        assert(flat(first + second) =~= flat(first) + flat(second));
    }
    reveal_with_fuel(flat, 2);
    assert(seq![part].drop_last() =~= Seq::empty());
    assert(flat(seq![part]) =~= part);
}

proof fn lemma_names_without_slash(name: Seq<char>)
    requires
        name.len() > 0,
        !name.contains('/'),
    ensures
        text::split_seq(name, '/') == seq![name],
{
    text::law_splitting(name, '/', name);
}

proof fn lemma_split_behind(dir: Seq<char>, name: Seq<char>)
    requires
        !name.contains('/'),
    ensures
        text::split_seq(dir + seq!['/'] + name, '/') == text::split_seq(dir, '/').push(name),
    decreases dir.len(),
{
    let n = text::before_first(dir, '/') as int;
    text::lemma_before_first_bound(dir, '/');
    if dir.contains('/') {
        let k = choose|k: int| 0 <= k < dir.len() && dir[k] == '/';
        lemma_first_slash(dir, k);
        let head = dir.take(n);
        let tail = dir.skip(n + 1);
        assert(dir =~= head + seq!['/'] + tail);
        text::law_splitting(head, '/', tail);
        text::law_splitting(head, '/', tail + seq!['/'] + name);
        assert(dir + seq!['/'] + name =~= head + seq!['/'] + (tail + seq!['/'] + name));
        lemma_split_behind(tail, name);
        assert(seq![head] + text::split_seq(tail, '/').push(name) =~= (seq![head] + text::split_seq(
            tail,
            '/',
        )).push(name));
    } else {
        text::law_splitting(dir, '/', name);
        text::law_splitting(name, '/', name);
        assert(seq![dir] + seq![name] =~= seq![dir].push(name));
    }
}

proof fn lemma_first_slash(s: Seq<char>, k: int)
    requires
        0 <= k < s.len(),
        s[k] == '/',
    ensures
        text::before_first(s, '/') <= k,
        s[text::before_first(s, '/') as int] == '/',
        !s.take(text::before_first(s, '/') as int).contains('/'),
    decreases s.len(),
{
    if s[0] == '/' {
        assert(s.take(0) =~= Seq::empty());
    } else {
        lemma_first_slash(s.skip(1), k - 1);
        let m = text::before_first(s.skip(1), '/') as int;
        let t = s.take(m + 1);
        if t.contains('/') {
            let j = choose|j: int| 0 <= j < t.len() && t[j] == '/';
            assert(s.skip(1).take(m)[j - 1] == '/');
        }
    }
}

/// The directory of a path is what stands before its last slash; a path without a slash lies in `.`.
/// The directory does not end with a slash or with a dot between slashes, and the name is neither
/// empty nor a dot.
pub proof fn law_directories(dir: Seq<char>, name: Seq<char>)
    requires
        name.len() > 0,
        name != "."@,
        !name.contains('/'),
    ensures
        directory(name) == "."@,
        ({
            let last = text::split_seq(dir, '/').last();
            last.len() > 0 && last != "."@
        }) ==> directory(dir + "/"@ + name) == dir,
        directory("/"@ + name) == "/"@,
{
    reveal_strlit("/");
    reveal_strlit(".");
    lemma_names_without_slash(name);
    assert(directory(name) == "."@) by {
        reveal_with_fuel(last_component, 3);
    }
    let none: Seq<char> = Seq::empty();
    text::law_splitting(none, '/', name);
    assert("/"@ + name =~= none + seq!['/'] + name);
    assert(seq![none] + seq![name] =~= seq![none, name]);
    assert(directory("/"@ + name) == "/"@) by {
        reveal_with_fuel(last_component, 3);
    }
    let before = text::split_seq(dir, '/');
    if before.last().len() > 0 && before.last() != "."@ {
        text::law_split_joins_back(dir, '/');
        lemma_split_behind(dir, name);
        assert(dir + "/"@ + name =~= dir + seq!['/'] + name);
        let segments = before.push(name);
        let n = segments.len() as int;
        assert(is_component(segments, n - 1));
        assert(last_component(segments, n) == n - 1);
        assert(is_component(segments, n - 2));
        assert(last_component(segments, n - 1) == n - 2);
        assert(segments.take(n - 1) =~= before);
        assert(seq!['/'] =~= "/"@);
    }
}

/// The first path of a directory stands for it, and directories come in the order of those paths:
/// further paths change nothing of what stands for the earlier ones.
pub proof fn law_first_path_represents(paths: Seq<Seq<char>>, more: Seq<Seq<char>>)
    ensures
        representatives(paths).len() <= representatives(paths + more).len(),
        representatives(paths + more).take(representatives(paths).len() as int) == representatives(
            paths,
        ),
    decreases more.len(),
{
    let first = representatives(paths);
    if more.len() == 0 {
        assert(paths + more =~= paths);
        assert(first.take(first.len() as int) =~= first);
    } else {
        law_first_path_represents(paths, more.drop_last());
        assert((paths + more).drop_last() =~= paths + more.drop_last());
        let earlier = representatives(paths + more.drop_last());
        assert(representatives(paths + more).take(first.len() as int) =~= earlier.take(
            first.len() as int,
        ));
    }
}

/// Where the snapshots and the comparisons always answer alike, an analysis of two snapshots holds, in
/// this order, what is found in each directory once, of each path, and in each changed file, and is sure
/// of it. A directory is compared by what both snapshots tell of it, under the path that represents it;
/// a path by what both snapshots tell of the file.
pub proof fn law_comparisons_answer_in_order<
    S: RevisionSnapshotView,
    P: Fn(&str, Option<&S::Package>, Option<&S::Package>) -> Vec<PluginFinding>,
    F: Fn(&str, Option<&S::File>, Option<&S::File>) -> Vec<PluginFinding>,
    T: Fn(&ChangedFile) -> Vec<PluginFinding>,
>(
    analysis: PluginAnalysis,
    ctx: AnalysisContext,
    paths: Seq<Seq<char>>,
    snapshots: (S, S),
    analyze_package: P,
    analyze_file: F,
    analyze_test: T,
    packages: (spec_fn(Seq<char>) -> Option<&S::Package>, spec_fn(Seq<char>) -> Option<&S::Package>),
    files: (spec_fn(Seq<char>) -> Option<&S::File>, spec_fn(Seq<char>) -> Option<&S::File>),
    in_package: spec_fn(Seq<char>, Option<&S::Package>, Option<&S::Package>) -> Seq<FindingModel>,
    in_file: spec_fn(Seq<char>, Option<&S::File>, Option<&S::File>) -> Seq<FindingModel>,
    in_test: spec_fn(ChangedFile) -> Seq<FindingModel>,
)
    requires
        compares(
            analysis,
            ctx,
            paths,
            snapshots,
            analyze_package,
            analyze_file,
            analyze_test,
        ),
        forall|d: &str, r: Option<&S::Package>| #[trigger]
            call_ensures(S::package_snapshot, (&snapshots.0, d), r) ==> r == packages.0(d@),
        forall|d: &str, r: Option<&S::Package>| #[trigger]
            call_ensures(S::package_snapshot, (&snapshots.1, d), r) ==> r == packages.1(d@),
        forall|p: &str, r: Option<&S::File>| #[trigger]
            call_ensures(S::file_snapshot, (&snapshots.0, p), r) ==> r == files.0(p@),
        forall|p: &str, r: Option<&S::File>| #[trigger]
            call_ensures(S::file_snapshot, (&snapshots.1, p), r) ==> r == files.1(p@),
        forall|p: &str, b: Option<&S::Package>, a: Option<&S::Package>, v: Vec<PluginFinding>|
            #[trigger] call_ensures(analyze_package, (p, b, a), v) ==> text::views(v@)
                == in_package(p@, b, a),
        forall|p: &str, b: Option<&S::File>, a: Option<&S::File>, v: Vec<PluginFinding>| #[trigger]
            call_ensures(analyze_file, (p, b, a), v) ==> text::views(v@) == in_file(p@, b, a),
        forall|file: ChangedFile, v: Vec<PluginFinding>| #[trigger]
            call_ensures(analyze_test, (&file,), v) ==> text::views(v@) == in_test(file),
    ensures
        analysis.confidence == Confidence::High,
        analysis@.findings == flat(
            Seq::new(
                representatives(paths).len(),
                |i: int|
                    in_package(
                        representatives(paths)[i].1,
                        packages.0(representatives(paths)[i].0),
                        packages.1(representatives(paths)[i].0),
                    ),
            ),
        ) + flat(
            Seq::new(
                paths.len(),
                |i: int| in_file(paths[i], files.0(paths[i]), files.1(paths[i])),
            ),
        ) + flat(Seq::new(ctx.files@.len(), |i: int| in_test(ctx.files@[i]))),
{
    let (of_packages, of_files, of_tests) = choose|
        of_packages: Seq<Seq<FindingModel>>,
        of_files: Seq<Seq<FindingModel>>,
        of_tests: Seq<Seq<FindingModel>>,
    |
        #[trigger] packages_find::<S, P>(analyze_package, snapshots, paths, of_packages)
            && #[trigger] files_find::<S, F>(analyze_file, snapshots, paths, of_files)
            && #[trigger] tests_find(analyze_test, ctx.files@, of_tests) && analysis@.findings
            == flat(of_packages) + flat(of_files) + flat(of_tests);
    let pairs = representatives(paths);
    assert forall|i: int| 0 <= i < pairs.len() implies #[trigger] of_packages[i] == in_package(
        pairs[i].1,
        packages.0(pairs[i].0),
        packages.1(pairs[i].0),
    ) by {
        assert(package_finds::<S, P>(analyze_package, snapshots, pairs[i], of_packages[i]));
    }
    assert forall|i: int| 0 <= i < paths.len() implies #[trigger] of_files[i] == in_file(
        paths[i],
        files.0(paths[i]),
        files.1(paths[i]),
    ) by {
        assert(file_finds::<S, F>(analyze_file, snapshots, paths[i], of_files[i]));
    }
    assert forall|i: int| 0 <= i < ctx.files@.len() implies #[trigger] of_tests[i] == in_test(
        ctx.files@[i],
    ) by {
        assert(support::may_find(analyze_test, ctx.files@[i], of_tests[i]));
    }
    assert(of_packages =~= Seq::new(
        pairs.len(),
        |i: int| in_package(pairs[i].1, packages.0(pairs[i].0), packages.1(pairs[i].0)),
    ));
    assert(of_files =~= Seq::new(
        paths.len(),
        |i: int| in_file(paths[i], files.0(paths[i]), files.1(paths[i])),
    ));
    assert(of_tests =~= Seq::new(ctx.files@.len(), |i: int| in_test(ctx.files@[i])));
}

} // verus!
