# shiwake

`shiwake` scores code diffs and explains the score. It does not prove that two versions of a program
are equivalent: it estimates whether a diff is important enough to deserve human review.

The scorer is a library written in Rust and verified with [Verus](https://github.com/verus-lang/verus).
The functions of the library have contracts that say what they return, and the promises that hold of
the library as a whole are stated and proved next to it.

## Scoring

1. Each file gets the weight of its strongest reason: a changed public interface, changed control
   flow, changed test expectations, and, lower, generic changes, refactorings, imports and comments.
2. Size and history add to that, up to a cap.
3. The diff gets the score of its top file and a bounded share of the others.

Plugins for Go and TypeScript compare two revisions, by what a helper program tells of them, and fall
back to the changed lines where something is missing. Files that `.gitattributes` marks as generated
are left out; later rules override earlier ones.

## Layout

- `src/`: the verified library
  - `text`, `digits`, `order`, `binary64`: strings, numbers and sorting, with the sequences and
    numbers they compute
  - `patch`, `gitattributes`, `history`: what is read from diffs and from what git prints
  - `signals`, `normalize`, `oracle`: what the lines of a file show
  - `config`, `report`, `context`: scoring models, reports, and what is analyzed
  - `scoring`, `aggregate`, `analyze`, `requests`: from a file to a report on a whole request
  - `plugins`: the plugins, and how they compare revisions
  - `laws`: what holds of reports, scores and plugins as a whole
- `app/`: the command line, which reads files, repositories and configurations, runs helper programs
  and prints reports as JSON
- `tests/`: the library on concrete values

## What is trusted

Glob patterns are compiled and matched by the crate `globset`; the contracts of the three functions
in `gitattributes` that call it are believed. So are the contracts of three functions of std in `text`:
`String::push`, `String::from` from a string slice, and `From::from` from a type to itself. Everything
else in the library is proved from these and from the specifications of `vstd`.

The library does no input or output. What a repository or a helper program tells comes in as values
(`RepositoryEvidence`, `RevisionObservation`), and the contracts hold for every such value.

## Command line

```
shiwake --repo . --patch sample.patch
git diff | shiwake --repo . --patch -
shiwake --repo . --base HEAD~1 --head HEAD --plugin go --plugin ts
shiwake --repo . --patch sample.patch --config custom-score.toml
```

The sources of the helper programs are read from the directory `tools`, or from the one that
`SHIWAKE_TOOLS` names.
