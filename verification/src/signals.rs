//! What the lines of a changed file show: comments, imports, public interfaces, control flow.

use vstd::prelude::*;

use crate::config::{ConfigModel, ScoreConfig};
use crate::context::{ChangedFile, FileModel};
use crate::report::ReasonKind;
use crate::text;

verus! {

/// Whether the line is blank, or begins like a comment.
pub open spec fn comment_or_blank(line: Seq<char>) -> bool {
    let t = text::trimmed(line);
    ||| t.len() == 0
    ||| text::has_prefix(t, "//"@)
    ||| text::has_prefix(t, "#"@)
    ||| text::has_prefix(t, "/*"@)
    ||| text::has_prefix(t, "*"@)
    ||| text::has_prefix(t, "<!--"@)
}

/// Whether the line imports something or declares its package.
pub open spec fn import_line(line: Seq<char>) -> bool {
    let t = text::trimmed(line);
    ||| text::has_prefix(t, "use "@)
    ||| text::has_prefix(t, "import "@)
    ||| text::has_prefix(t, "from "@)
    ||| text::has_prefix(t, "include "@)
    ||| text::has_prefix(t, "package "@)
}

/// Whether each changed line is a comment or blank.
pub open spec fn comment_only(file: FileModel) -> bool {
    forall|i: int| 0 <= i < file.changed().len() ==> comment_or_blank(#[trigger] file.changed()[i])
}

/// Whether each changed line is an import, a comment or blank.
pub open spec fn import_only(file: FileModel) -> bool {
    forall|i: int|
        0 <= i < file.changed().len() ==> import_line(#[trigger] file.changed()[i])
            || comment_or_blank(file.changed()[i])
}

/// Whether a text begins with a value that can be called or constructed.
pub open spec fn callable_value(value: Seq<char>) -> bool {
    let v = text::trimmed(value);
    ||| text::has_prefix(v, "function"@)
    ||| text::has_prefix(v, "async function"@)
    ||| text::has_prefix(v, "class"@)
}

/// Whether what stands behind the keyword of an exported binding makes it a function or a class.
pub open spec fn callable_binding(rest: Seq<char>) -> bool {
    text::has_infix(rest, "=>"@) || match text::split_pair(rest, '=') {
        Some((_name, value)) => callable_value(value),
        None => false,
    }
}

/// Whether a line exports a binding that is a function or a class.
pub open spec fn exported_binding(line: Seq<char>) -> bool {
    if text::has_prefix(line, "export const "@) {
        callable_binding(line.skip("export const "@.len() as int))
    } else if text::has_prefix(line, "export let "@) {
        callable_binding(line.skip("export let "@.len() as int))
    } else if text::has_prefix(line, "export var "@) {
        callable_binding(line.skip("export var "@.len() as int))
    } else {
        false
    }
}

/// Whether a line exports a signature.
pub open spec fn exported_signature(line: Seq<char>) -> bool {
    ||| text::has_prefix(line, "export function "@)
    ||| text::has_prefix(line, "export async function "@)
    ||| text::has_prefix(line, "export class "@)
    ||| text::has_prefix(line, "export interface "@)
    ||| text::has_prefix(line, "export type "@)
    ||| text::has_prefix(line, "export enum "@)
    ||| text::has_prefix(line, "export default function "@)
    ||| text::has_prefix(line, "export default async function "@)
    ||| text::has_prefix(line, "export default class "@)
    ||| exported_binding(line)
}

/// Whether an ASCII upper case letter stands behind the keyword that begins `t`.
pub open spec fn capital_behind(t: Seq<char>, keyword: Seq<char>) -> bool {
    text::has_prefix(t, keyword) && t.len() > keyword.len() && 'A' <= t[keyword.len() as int] <= 'Z'
}

/// Whether the line is a signature that other code can see.
pub open spec fn public_signature(line: Seq<char>) -> bool {
    let t = text::trimmed(line);
    ||| text::has_prefix(t, "pub "@)
    ||| exported_signature(t)
    ||| capital_behind(t, "func "@)
}

/// Whether a path segment marks what is below it as internal.
pub open spec fn internal_segment(segment: Seq<char>) -> bool {
    ||| segment == "internal"@
    ||| segment == "(private)"@
    ||| segment.len() > 1 && segment[0] == '_'
}

/// Whether a path goes through an internal or private directory.
pub open spec fn internal_path(path: Seq<char>) -> bool {
    exists|i: int|
        0 <= i < text::split_seq(path, '/').len() && internal_segment(
            #[trigger] text::split_seq(path, '/')[i],
        )
}

/// Whether a changed line is a public signature, in a file that is not internal.
pub open spec fn public_interface_change(file: FileModel) -> bool {
    !internal_path(file.path) && exists|i: int|
        0 <= i < file.changed().len() && public_signature(#[trigger] file.changed()[i])
}

/// Whether the line begins with a loop, a multiway branch, or a throw.
pub open spec fn heavy_flow(line: Seq<char>) -> bool {
    let t = text::trimmed(line);
    ||| text::has_prefix(t, "throw "@)
    ||| text::has_prefix(t, "for "@)
    ||| text::has_prefix(t, "while "@)
    ||| text::has_prefix(t, "match "@)
    ||| text::has_prefix(t, "switch "@)
}

/// Whether the line begins with a control flow keyword.
pub open spec fn control_flow(line: Seq<char>) -> bool {
    let t = text::trimmed(line);
    ||| heavy_flow(line)
    ||| text::has_prefix(t, "if "@)
    ||| text::has_prefix(t, "if("@)
    ||| text::has_prefix(t, "else if"@)
    ||| text::has_prefix(t, "break"@)
    ||| text::has_prefix(t, "continue"@)
}

/// Whether a trimmed line opens a branch.
pub open spec fn opens_branch(t: Seq<char>) -> bool {
    ||| text::has_prefix(t, "if "@)
    ||| text::has_prefix(t, "if("@)
    ||| text::has_prefix(t, "else if"@)
    ||| text::has_prefix(t, "match "@)
    ||| text::has_prefix(t, "switch "@)
    ||| text::has_prefix(t, "for "@)
    ||| text::has_prefix(t, "while "@)
    ||| text::has_prefix(t, "select "@)
    ||| text::has_prefix(t, "select{"@)
}

/// Whether the line returns a value.
pub open spec fn return_line(line: Seq<char>) -> bool {
    text::has_prefix(text::trimmed(line), "return "@)
}

/// Whether the line opens a branch.
pub open spec fn branch_line(line: Seq<char>) -> bool {
    opens_branch(text::trimmed(line))
}

/// Whether the changed lines hold a branch and a return.
pub open spec fn branch_with_return(file: FileModel) -> bool {
    &&& exists|i: int| 0 <= i < file.changed().len() && return_line(#[trigger] file.changed()[i])
    &&& exists|i: int| 0 <= i < file.changed().len() && branch_line(#[trigger] file.changed()[i])
}

/// Whether the changed lines hold control flow. A return alone is none.
pub open spec fn control_flow_change(file: FileModel) -> bool {
    ||| exists|i: int| 0 <= i < file.changed().len() && control_flow(#[trigger] file.changed()[i])
    ||| branch_with_return(file)
}

/// Whether the change of control flow is a heavy one.
pub open spec fn heavy_flow_change(file: FileModel) -> bool {
    ||| exists|i: int| 0 <= i < file.changed().len() && heavy_flow(#[trigger] file.changed()[i])
    ||| branch_with_return(file)
}

/// The number of braces that are open behind a line, and the depth of the deepest branch so far.
pub struct Nesting {
    pub open: nat,
    pub deepest: nat,
}

/// The nesting behind the lines. The closing braces of a line count before the branch that it may
/// open, its opening braces behind it; braces that close nothing are ignored.
pub open spec fn nesting(lines: Seq<Seq<char>>, opens: spec_fn(Seq<char>) -> bool) -> Nesting
    decreases lines.len(),
{
    if lines.len() == 0 {
        Nesting { open: 0, deepest: 0 }
    } else {
        let before = nesting(lines.drop_last(), opens);
        let t = text::trimmed(lines.last());
        let closing = text::occurrences(t, '}');
        let open = if before.open > closing {
            (before.open - closing) as nat
        } else {
            0
        };
        Nesting {
            open: open + text::occurrences(t, '{'),
            deepest: if opens(t) && open + 1 > before.deepest {
                open + 1
            } else {
                before.deepest
            },
        }
    }
}

/// The test of `opens_branch` as a function.
pub open spec fn branch_test() -> spec_fn(Seq<char>) -> bool {
    |t: Seq<char>| opens_branch(t)
}

/// The depth of the deepest branch that the added lines open.
pub open spec fn branch_depth(file: FileModel) -> nat {
    nesting(file.added, branch_test()).deepest
}

/// The weight of a change of control flow: the full weight where it is a heavy one; else at most
/// 30, with more for nested branches, but never over the full weight.
pub open spec fn flow_weight(file: FileModel, config: ConfigModel) -> Option<u32> {
    let full = config.weight(ReasonKind::ControlFlowChange);
    if !control_flow_change(file) {
        None
    } else if heavy_flow_change(file) {
        Some(full)
    } else {
        let light = (if full < 30 {
            full as int
        } else {
            30
        }) + (if branch_depth(file) >= 3 {
            15int
        } else if branch_depth(file) == 2 {
            10
        } else {
            0
        });
        Some(
            if light < full {
                light as u32
            } else {
                full
            },
        )
    }
}

/// Whether some of the lines passes the test.
pub fn any_line<F: Fn(&str) -> bool>(
    lines: &Vec<String>,
    test: F,
    Ghost(p): Ghost<spec_fn(Seq<char>) -> bool>,
) -> (r: bool)
    requires
        forall|s: &str| #[trigger] call_requires(test, (s,)),
        forall|s: &str, b: bool| #[trigger] call_ensures(test, (s,), b) ==> b == p(s@),
    ensures
        r == (exists|i: int|
            0 <= i < text::views(lines@).len() && p(#[trigger] text::views(lines@)[i])),
{
    let mut i: usize = 0;
    while i < lines.len()
        invariant
            i <= lines@.len(),
            forall|s: &str| #[trigger] call_requires(test, (s,)),
            forall|s: &str, b: bool| #[trigger] call_ensures(test, (s,), b) ==> b == p(s@),
            forall|j: int| 0 <= j < i ==> !p(#[trigger] text::views(lines@)[j]),
        decreases lines@.len() - i,
    {
        let line = lines[i].as_str();
        if test(line) {
            assert(p(text::views(lines@)[i as int]));
            return true;
        }
        i = i + 1;
    }
    false
}

/// Whether some changed line of the file passes the test.
pub fn any_changed<F: Fn(&str) -> bool + Copy>(
    file: &ChangedFile,
    test: F,
    Ghost(p): Ghost<spec_fn(Seq<char>) -> bool>,
) -> (r: bool)
    requires
        forall|s: &str| #[trigger] call_requires(test, (s,)),
        forall|s: &str, b: bool| #[trigger] call_ensures(test, (s,), b) ==> b == p(s@),
    ensures
        r == (exists|i: int|
            0 <= i < file@.changed().len() && p(#[trigger] file@.changed()[i])),
{
    let ghost added = file@.added;
    let ghost removed = file@.removed;
    let ghost changed = file@.changed();
    if any_line(&file.added, test, Ghost(p)) {
        proof {
            let i = choose|i: int| 0 <= i < added.len() && p(#[trigger] added[i]);
            assert(changed[i] == added[i]);
        }
        return true;
    }
    let r = any_line(&file.removed, test, Ghost(p));
    proof {
        if r {
            let i = choose|i: int| 0 <= i < removed.len() && p(#[trigger] removed[i]);
            assert(changed[i + added.len()] == removed[i]);
        } else {
            assert forall|i: int| 0 <= i < changed.len() implies !p(#[trigger] changed[i]) by {
                if i < added.len() {
                    assert(changed[i] == added[i]);
                } else {
                    assert(changed[i] == removed[i - added.len()]);
                }
            }
        }
    }
    r
}

/// Whether the line is blank, or begins like a comment.
pub fn is_comment_or_blank(line: &str) -> (r: bool)
    ensures
        r == comment_or_blank(line@),
{
    let t = text::trim(line);
    t.is_empty() || text::starts_with(t, "//") || text::starts_with(t, "#") || text::starts_with(
        t,
        "/*",
    ) || text::starts_with(t, "*") || text::starts_with(t, "<!--")
}

/// Whether the line imports something or declares its package.
pub fn is_import_line(line: &str) -> (r: bool)
    ensures
        r == import_line(line@),
{
    let t = text::trim(line);
    text::starts_with(t, "use ") || text::starts_with(t, "import ") || text::starts_with(t, "from ")
        || text::starts_with(t, "include ") || text::starts_with(t, "package ")
}

/// Whether the line is neither blank nor a comment.
pub fn is_code_line(line: &str) -> (r: bool)
    ensures
        r == !comment_or_blank(line@),
{
    !is_comment_or_blank(line)
}

fn is_beyond_imports(line: &str) -> (r: bool)
    ensures
        r == !(import_line(line@) || comment_or_blank(line@)),
{
    !(is_import_line(line) || is_comment_or_blank(line))
}

/// Whether each changed line of the file is a comment or blank.
pub fn is_comment_only(file: &ChangedFile) -> (r: bool)
    ensures
        r == comment_only(file@),
{
    !any_changed(file, is_code_line, Ghost(|s: Seq<char>| !comment_or_blank(s)))
}

/// Whether each changed line of the file is an import, a comment or blank.
pub fn is_import_only(file: &ChangedFile) -> (r: bool)
    ensures
        r == import_only(file@),
{
    !any_changed(
        file,
        is_beyond_imports,
        Ghost(|s: Seq<char>| !(import_line(s) || comment_or_blank(s))),
    )
}

fn is_callable_binding(rest: &str) -> (r: bool)
    ensures
        r == callable_binding(rest@),
{
    if text::contains(rest, "=>") {
        return true;
    }
    match text::split_once(rest, '=') {
        Some((_name, value)) => {
            let v = text::trim(value);
            text::starts_with(v, "function") || text::starts_with(v, "async function")
                || text::starts_with(v, "class")
        },
        None => false,
    }
}

/// Whether a line exports a binding that is a function or a class.
pub fn is_function_like_exported_const(line: &str) -> (r: bool)
    ensures
        r == exported_binding(line@),
{
    match text::strip_prefix(line, "export const ") {
        Some(rest) => is_callable_binding(rest),
        None => match text::strip_prefix(line, "export let ") {
            Some(rest) => is_callable_binding(rest),
            None => match text::strip_prefix(line, "export var ") {
                Some(rest) => is_callable_binding(rest),
                None => false,
            },
        },
    }
}

/// Whether a line exports a signature.
pub fn is_public_export_signature_line(line: &str) -> (r: bool)
    ensures
        r == exported_signature(line@),
{
    text::starts_with(line, "export function ") || text::starts_with(line, "export async function ")
        || text::starts_with(line, "export class ") || text::starts_with(line, "export interface ")
        || text::starts_with(line, "export type ") || text::starts_with(line, "export enum ")
        || text::starts_with(line, "export default function ") || text::starts_with(
        line,
        "export default async function ",
    ) || text::starts_with(line, "export default class ") || is_function_like_exported_const(line)
}

/// Whether an ASCII upper case letter stands behind the keyword that begins the text.
pub fn has_capital_behind(t: &str, keyword: &str) -> (r: bool)
    ensures
        r == capital_behind(t@, keyword@),
{
    match text::strip_prefix(t, keyword) {
        Some(rest) => match text::first_char(rest) {
            Some(c) => 'A' <= c && c <= 'Z',
            None => false,
        },
        None => false,
    }
}

/// Whether the line is a signature that other code can see.
pub fn is_public_signature_line(line: &str) -> (r: bool)
    ensures
        r == public_signature(line@),
{
    let t = text::trim(line);
    text::starts_with(t, "pub ") || is_public_export_signature_line(t) || has_capital_behind(
        t,
        "func ",
    )
}

fn is_internal_segment(segment: &str) -> (r: bool)
    ensures
        r == internal_segment(segment@),
{
    text::same(segment, "internal") || text::same(segment, "(private)") || (segment.unicode_len()
        > 1 && segment.get_char(0) == '_')
}

/// Whether a path goes through an internal or private directory.
pub fn is_internal_or_private_path(path: &str) -> (r: bool)
    ensures
        r == internal_path(path@),
{
    let segments = text::split(path, '/');
    any_line(&segments, is_internal_segment, Ghost(|s: Seq<char>| internal_segment(s)))
}

/// Whether the public interface of the file changed.
pub fn has_public_interface_change(file: &ChangedFile) -> (r: bool)
    ensures
        r == public_interface_change(file@),
{
    if is_internal_or_private_path(file.path.as_str()) {
        return false;
    }
    any_changed(file, is_public_signature_line, Ghost(|s: Seq<char>| public_signature(s)))
}

fn is_heavy_flow(line: &str) -> (r: bool)
    ensures
        r == heavy_flow(line@),
{
    let t = text::trim(line);
    text::starts_with(t, "throw ") || text::starts_with(t, "for ") || text::starts_with(t, "while ")
        || text::starts_with(t, "match ") || text::starts_with(t, "switch ")
}

fn is_control_flow(line: &str) -> (r: bool)
    ensures
        r == control_flow(line@),
{
    let t = text::trim(line);
    is_heavy_flow(line) || text::starts_with(t, "if ") || text::starts_with(t, "if(")
        || text::starts_with(t, "else if") || text::starts_with(t, "break") || text::starts_with(
        t,
        "continue",
    )
}

/// Whether a trimmed line opens a branch.
pub fn starts_branch(t: &str) -> (r: bool)
    ensures
        r == opens_branch(t@),
{
    text::starts_with(t, "if ") || text::starts_with(t, "if(") || text::starts_with(t, "else if")
        || text::starts_with(t, "match ") || text::starts_with(t, "switch ") || text::starts_with(
        t,
        "for ",
    ) || text::starts_with(t, "while ") || text::starts_with(t, "select ") || text::starts_with(
        t,
        "select{",
    )
}

fn is_return(line: &str) -> (r: bool)
    ensures
        r == return_line(line@),
{
    text::starts_with(text::trim(line), "return ")
}

fn is_branch(line: &str) -> (r: bool)
    ensures
        r == branch_line(line@),
{
    starts_branch(text::trim(line))
}

fn has_branch_with_return(file: &ChangedFile) -> (r: bool)
    ensures
        r == branch_with_return(file@),
{
    any_changed(file, is_return, Ghost(|s: Seq<char>| return_line(s))) && any_changed(
        file,
        is_branch,
        Ghost(|s: Seq<char>| branch_line(s)),
    )
}

/// The depth of the deepest branch that the lines open, where `opens` tells which lines do.
pub fn deepest_branch<F: Fn(&str) -> bool>(
    lines: &Vec<String>,
    opens: F,
    Ghost(p): Ghost<spec_fn(Seq<char>) -> bool>,
) -> (r: u128)
    requires
        forall|s: &str| #[trigger] call_requires(opens, (s,)),
        forall|s: &str, b: bool| #[trigger] call_ensures(opens, (s,), b) ==> b == p(s@),
    ensures
        r == nesting(text::views(lines@), p).deepest,
{
    let ghost all = text::views(lines@);
    let mut open: u128 = 0;
    let mut deepest: u128 = 0;
    let mut i: usize = 0;
    assert(all.take(0) =~= Seq::empty());
    while i < lines.len()
        invariant
            i <= lines@.len(),
            all == text::views(lines@),
            forall|s: &str| #[trigger] call_requires(opens, (s,)),
            forall|s: &str, b: bool| #[trigger] call_ensures(opens, (s,), b) ==> b == p(s@),
            open == nesting(all.take(i as int), p).open,
            deepest == nesting(all.take(i as int), p).deepest,
            open <= i * 0xffff_ffff_ffff_ffff,
        decreases lines@.len() - i,
    {
        proof {
            assert(all.take(i + 1).drop_last() =~= all.take(i as int));
            assert(all.take(i + 1).last() == lines@[i as int]@);
            assert(i * 0xffff_ffff_ffff_ffff <= 0xffff_ffff_ffff_fffe * 0xffff_ffff_ffff_ffff)
                by (nonlinear_arith)
                requires
                    i <= 0xffff_ffff_ffff_fffe,
            ;
        }
        let t = text::trim(lines[i].as_str());
        let closing: u128 = text::count_char(t, '}') as u128;
        if open > closing {
            open = open - closing;
        } else {
            open = 0;
        }
        if opens(t) && open + 1 > deepest {
            deepest = open + 1;
        }
        let opening: u128 = text::count_char(t, '{') as u128;
        open = open + opening;
        i = i + 1;
    }
    assert(all.take(i as int) =~= all);
    deepest
}

/// The depth of the deepest branch that the added lines open.
pub fn approximate_branch_nesting_depth(file: &ChangedFile) -> (r: u128)
    ensures
        r == branch_depth(file@),
{
    deepest_branch(&file.added, starts_branch, Ghost(branch_test()))
}

/// The weight of the change of control flow in the file, where there is one.
pub fn control_flow_weight(file: &ChangedFile, config: &ScoreConfig) -> (r: Option<u32>)
    ensures
        r == flow_weight(file@, config@),
{
    let exits = has_branch_with_return(file);
    if !exits && !any_changed(file, is_control_flow, Ghost(|s: Seq<char>| control_flow(s))) {
        return None;
    }
    let base_weight: u32 = config.score_for(&ReasonKind::ControlFlowChange);
    if exits || any_changed(file, is_heavy_flow, Ghost(|s: Seq<char>| heavy_flow(s))) {
        return Some(base_weight);
    }
    let depth: u128 = approximate_branch_nesting_depth(file);
    let bonus: u32 = if depth >= 3 {
        15
    } else if depth == 2 {
        10
    } else {
        0
    };
    let light: u32 = (if base_weight < 30 {
        base_weight
    } else {
        30
    }) + bonus;
    Some(
        if light < base_weight {
            light
        } else {
            base_weight
        },
    )
}

/// Whether a line, without the white space around it, begins with a word.
pub open spec fn begins_with(line: Seq<char>, word: Seq<char>) -> bool {
    exists|left: Seq<char>, rest: Seq<char>|
        text::all_space(left) && #[trigger] (left + word + rest) == line && (word.len() > 0
            && !text::is_space(word[0])) && (text::is_space(word.last()) ==> !text::all_space(rest))
}

proof fn lemma_begins_with(line: Seq<char>, word: Seq<char>)
    requires
        word.len() > 0,
        !text::is_space(word[0]),
        text::is_space(word.last()) ==> word.len() > 1,
    ensures
        begins_with(line, word) <==> text::has_prefix(text::trimmed(line), word),
{
    let t = text::trimmed(line);
    lemma_trim_parts(line);
    if text::has_prefix(t, word) {
        let (a, b) = choose|a: Seq<char>, b: Seq<char>|
            text::all_space(a) && text::all_space(b) && #[trigger] (a + t + b) == line;
        lemma_prefix_begins(a, t, b, word);
    }
    if begins_with(line, word) {
        let (left, rest) = choose|left: Seq<char>, rest: Seq<char>|
            text::all_space(left) && #[trigger] (left + word + rest) == line && (word.len() > 0
                && !text::is_space(word[0])) && (text::is_space(word.last()) ==> !text::all_space(
                rest,
            ));
        lemma_core(left, word, rest);
    }
}

proof fn lemma_prefix_begins(a: Seq<char>, t: Seq<char>, b: Seq<char>, word: Seq<char>)
    requires
        text::all_space(a),
        text::has_prefix(t, word),
        !text::is_space(t.last()),
        word.len() > 0,
        !text::is_space(word[0]),
    ensures
        begins_with(a + t + b, word),
{
    let n = word.len() as int;
    let rest = t.skip(n) + b;
    assert(t =~= word + t.skip(n));
    assert(a + t + b =~= a + word + rest);
    if text::is_space(word.last()) {
        assert(t.len() > n) by {
            if t.len() == n {
                assert(t.skip(n) =~= Seq::empty());
                assert(t =~= word);
            }
        }
        assert(rest[t.len() - 1 - n] == t.last());
        assert(!text::is_space(rest[t.len() - 1 - n]));
    }
}

proof fn lemma_trim_parts(s: Seq<char>)
    ensures
        exists|a: Seq<char>, b: Seq<char>|
            text::all_space(a) && text::all_space(b) && #[trigger] (a + text::trimmed(s) + b) == s,
        text::trimmed(s).len() > 0 ==> !text::is_space(text::trimmed(s)[0]) && !text::is_space(
            text::trimmed(s).last(),
        ),
{
    let u = text::trimmed_start(s);
    let t = text::trimmed(s);
    lemma_start_part(s);
    lemma_end_part(u);
    let a = s.take(s.len() - u.len());
    let b = u.skip(t.len() as int);
    assert(s =~= a + u);
    assert(u =~= t + b);
    assert(a + t + b =~= s);
    if t.len() > 0 {
        assert(t[0] == u[0]);
    }
}

proof fn lemma_start_part(s: Seq<char>)
    ensures
        text::trimmed_start(s).len() <= s.len(),
        s == s.take(s.len() - text::trimmed_start(s).len()) + text::trimmed_start(s),
        text::all_space(s.take(s.len() - text::trimmed_start(s).len())),
        text::trimmed_start(s).len() > 0 ==> !text::is_space(text::trimmed_start(s)[0]),
    decreases s.len(),
{
    let u = text::trimmed_start(s);
    if s.len() > 0 && text::is_space(s[0]) {
        let rest = s.skip(1);
        lemma_start_part(rest);
        let n = s.len() - u.len();
        assert(s.take(n) =~= seq![s[0]] + rest.take(n - 1));
        assert(s =~= seq![s[0]] + rest);
        assert(seq![s[0]] + (rest.take(n - 1) + u) =~= s.take(n) + u);
        assert forall|i: int| 0 <= i < n implies text::is_space(#[trigger] s.take(n)[i]) by {
            if i > 0 {
                assert(s.take(n)[i] == rest.take(n - 1)[i - 1]);
            }
        }
    } else {
        assert(s.take(0) + s =~= s);
    }
}

proof fn lemma_end_part(s: Seq<char>)
    ensures
        text::trimmed_end(s).len() <= s.len(),
        s == text::trimmed_end(s) + s.skip(text::trimmed_end(s).len() as int),
        text::all_space(s.skip(text::trimmed_end(s).len() as int)),
        text::trimmed_end(s).len() > 0 ==> !text::is_space(text::trimmed_end(s).last()),
    decreases s.len(),
{
    let t = text::trimmed_end(s);
    if s.len() > 0 && text::is_space(s.last()) {
        let rest = s.drop_last();
        lemma_end_part(rest);
        let n = t.len() as int;
        assert(s.skip(n) =~= rest.skip(n).push(s.last()));
        assert(s =~= rest.push(s.last()));
        assert((t + rest.skip(n)).push(s.last()) =~= t + s.skip(n));
        assert forall|i: int| 0 <= i < s.skip(n).len() implies text::is_space(
            #[trigger] s.skip(n)[i],
        ) by {
            if i < rest.skip(n).len() {
                assert(s.skip(n)[i] == rest.skip(n)[i]);
            }
        }
    } else {
        assert(s + s.skip(s.len() as int) =~= s);
    }
}

proof fn lemma_core(left: Seq<char>, word: Seq<char>, rest: Seq<char>)
    requires
        text::all_space(left),
        word.len() > 0,
        !text::is_space(word[0]),
        text::is_space(word.last()) ==> !text::all_space(rest),
    ensures
        text::has_prefix(text::trimmed(left + word + rest), word),
{
    let whole = word + rest;
    let core = text::trimmed_end(whole);
    lemma_end_part(whole);
    let right = whole.skip(core.len() as int);
    assert(core.len() >= word.len()) by {
        if core.len() < word.len() {
            let n = core.len() as int;
            assert(right[word.len() - 1 - n] == word.last());
            assert(text::is_space(word.last()));
            assert forall|i: int| 0 <= i < rest.len() implies text::is_space(
                #[trigger] rest[i],
            ) by {
                assert(rest[i] == right[word.len() + i - n]);
            }
        }
    }
    assert(whole[0] == word[0]);
    assert(core[0] == whole[0]);
    assert(left + core + right =~= left + (core + right));
    assert(left + word + rest =~= left + whole);
    text::law_trimming(left, core, right);
    assert(whole.take(word.len() as int) =~= word);
    assert((core + right).take(word.len() as int) =~= core.take(word.len() as int));
}

/// Comments and blank lines: a line is blank, or it begins, behind white space, with one of the marks
/// of a comment.
pub proof fn law_comments(line: Seq<char>)
    ensures
        comment_or_blank(line) <==> {
            ||| text::all_space(line)
            ||| begins_with(line, "//"@)
            ||| begins_with(line, "#"@)
            ||| begins_with(line, "/*"@)
            ||| begins_with(line, "*"@)
            ||| begins_with(line, "<!--"@)
        },
{
    reveal_strlit("//");
    reveal_strlit("#");
    reveal_strlit("/*");
    reveal_strlit("*");
    reveal_strlit("<!--");
    lemma_begins_with(line, "//"@);
    lemma_begins_with(line, "#"@);
    lemma_begins_with(line, "/*"@);
    lemma_begins_with(line, "*"@);
    lemma_begins_with(line, "<!--"@);
    lemma_trim_parts(line);
    if text::trimmed(line).len() == 0 {
        let (a, b) = choose|a: Seq<char>, b: Seq<char>|
            text::all_space(a) && text::all_space(b) && #[trigger] (a + text::trimmed(line) + b)
                == line;
        assert forall|i: int| 0 <= i < line.len() implies text::is_space(#[trigger] line[i]) by {
            if i < a.len() {
                assert(line[i] == a[i]);
            } else {
                assert(line[i] == b[i - a.len()]);
            }
        }
    }
    if text::all_space(line) {
        let none: Seq<char> = Seq::empty();
        assert(line =~= line + none + none);
        text::law_trimming(line, none, none);
    }
}

/// Imports: a line begins, behind white space, with one of the words of an import.
pub proof fn law_imports(line: Seq<char>)
    ensures
        import_line(line) <==> {
            ||| begins_with(line, "use "@)
            ||| begins_with(line, "import "@)
            ||| begins_with(line, "from "@)
            ||| begins_with(line, "include "@)
            ||| begins_with(line, "package "@)
        },
{
    reveal_strlit("use ");
    reveal_strlit("import ");
    reveal_strlit("from ");
    reveal_strlit("include ");
    reveal_strlit("package ");
    lemma_begins_with(line, "use "@);
    lemma_begins_with(line, "import "@);
    lemma_begins_with(line, "from "@);
    lemma_begins_with(line, "include "@);
    lemma_begins_with(line, "package "@);
}

/// A change is one of comments alone where no changed line, removed or added, is anything else; and
/// one of imports alone where every changed line is an import, a comment or blank.
pub proof fn law_changes_of_one_kind(file: FileModel)
    ensures
        comment_only(file) <==> (forall|i: int|
            0 <= i < file.added.len() ==> comment_or_blank(#[trigger] file.added[i])) && (forall|
            i: int,
        |
            0 <= i < file.removed.len() ==> comment_or_blank(#[trigger] file.removed[i])),
        import_only(file) <==> (forall|i: int|
            0 <= i < file.added.len() ==> import_line(#[trigger] file.added[i]) || comment_or_blank(
                file.added[i],
            )) && (forall|i: int|
            0 <= i < file.removed.len() ==> import_line(#[trigger] file.removed[i])
                || comment_or_blank(file.removed[i])),
{
    let all = file.changed();
    let n = file.added.len() as int;
    assert forall|i: int| 0 <= i < file.added.len() implies all[i] == #[trigger] file.added[i] by {}
    assert forall|i: int| 0 <= i < file.removed.len() implies all[n + i]
        == #[trigger] file.removed[i] by {}
    assert forall|i: int| n <= i < all.len() implies #[trigger] all[i] == file.removed[i - n] by {}
}

/// Control flow: a line begins, behind white space, with one of its keywords; loops, multiway branches
/// and throws are heavy.
pub proof fn law_control_flow(line: Seq<char>)
    ensures
        heavy_flow(line) <==> {
            ||| begins_with(line, "throw "@)
            ||| begins_with(line, "for "@)
            ||| begins_with(line, "while "@)
            ||| begins_with(line, "match "@)
            ||| begins_with(line, "switch "@)
        },
        control_flow(line) <==> {
            ||| heavy_flow(line)
            ||| begins_with(line, "if "@)
            ||| begins_with(line, "if("@)
            ||| begins_with(line, "else if"@)
            ||| begins_with(line, "break"@)
            ||| begins_with(line, "continue"@)
        },
        branch_line(line) <==> {
            ||| begins_with(line, "if "@)
            ||| begins_with(line, "if("@)
            ||| begins_with(line, "else if"@)
            ||| begins_with(line, "match "@)
            ||| begins_with(line, "switch "@)
            ||| begins_with(line, "for "@)
            ||| begins_with(line, "while "@)
            ||| begins_with(line, "select "@)
            ||| begins_with(line, "select{"@)
        },
        branch_line(line) == opens_branch(text::trimmed(line)),
        return_line(line) <==> begins_with(line, "return "@),
{
    reveal_strlit("throw ");
    reveal_strlit("for ");
    reveal_strlit("while ");
    reveal_strlit("match ");
    reveal_strlit("switch ");
    reveal_strlit("if ");
    reveal_strlit("if(");
    reveal_strlit("else if");
    reveal_strlit("break");
    reveal_strlit("continue");
    reveal_strlit("select ");
    reveal_strlit("select{");
    reveal_strlit("return ");
    lemma_begins_with(line, "throw "@);
    lemma_begins_with(line, "for "@);
    lemma_begins_with(line, "while "@);
    lemma_begins_with(line, "match "@);
    lemma_begins_with(line, "switch "@);
    lemma_begins_with(line, "if "@);
    lemma_begins_with(line, "if("@);
    lemma_begins_with(line, "else if"@);
    lemma_begins_with(line, "break"@);
    lemma_begins_with(line, "continue"@);
    lemma_begins_with(line, "select "@);
    lemma_begins_with(line, "select{"@);
    lemma_begins_with(line, "return "@);
}

/// Whether a property holds of a changed line, removed or added.
pub open spec fn some_line(file: FileModel, p: spec_fn(Seq<char>) -> bool) -> bool {
    ||| exists|i: int| 0 <= i < file.added.len() && p(#[trigger] file.added[i])
    ||| exists|i: int| 0 <= i < file.removed.len() && p(#[trigger] file.removed[i])
}

proof fn lemma_some_line(file: FileModel, p: spec_fn(Seq<char>) -> bool)
    ensures
        some_line(file, p) <==> exists|i: int|
            0 <= i < file.changed().len() && p(#[trigger] file.changed()[i]),
{
    let all = file.changed();
    let n = file.added.len() as int;
    if exists|i: int| 0 <= i < file.added.len() && p(#[trigger] file.added[i]) {
        let i = choose|i: int| 0 <= i < file.added.len() && p(#[trigger] file.added[i]);
        assert(p(all[i]));
    }
    if exists|i: int| 0 <= i < file.removed.len() && p(#[trigger] file.removed[i]) {
        let i = choose|i: int| 0 <= i < file.removed.len() && p(#[trigger] file.removed[i]);
        assert(all[n + i] == file.removed[i]);
        assert(p(all[n + i]));
    }
    if exists|i: int| 0 <= i < all.len() && p(#[trigger] all[i]) {
        let i = choose|i: int| 0 <= i < all.len() && p(#[trigger] all[i]);
        if i < n {
            assert(p(file.added[i]));
        } else {
            assert(p(file.removed[i - n]));
        }
    }
}

/// A file changes control flow where a changed line does, or where changed lines hold both a branch
/// and a return; a return alone is no change of control flow. The change is heavy where a changed line
/// is, or with a branch and a return. Removed lines count like added ones.
pub proof fn law_changes_of_control_flow(file: FileModel)
    ensures
        ({
            let returns_in_branch = some_line(file, |line: Seq<char>| return_line(line))
                && some_line(file, |line: Seq<char>| branch_line(line));
            &&& control_flow_change(file) <==> some_line(file, |line: Seq<char>| control_flow(line))
                || returns_in_branch
            &&& heavy_flow_change(file) <==> some_line(file, |line: Seq<char>| heavy_flow(line))
                || returns_in_branch
        }),
{
    lemma_some_line(file, |line: Seq<char>| return_line(line));
    lemma_some_line(file, |line: Seq<char>| branch_line(line));
    lemma_some_line(file, |line: Seq<char>| control_flow(line));
    lemma_some_line(file, |line: Seq<char>| heavy_flow(line));
}

/// What a change of control flow weighs: the full weight of the rule where it is heavy; else at most
/// 30, and 10 more where the added lines nest branches two deep, 15 more from three on, but never more
/// than the full weight.
pub proof fn law_weights_of_control_flow(file: FileModel, config: ConfigModel)
    ensures
        ({
            let full = config.weight(ReasonKind::ControlFlowChange);
            let depth = nesting(file.added, branch_test()).deepest;
            let light = if depth >= 3 {
                45int
            } else if depth == 2 {
                40
            } else {
                30
            };
            &&& !control_flow_change(file) ==> flow_weight(file, config) is None
            &&& control_flow_change(file) && heavy_flow_change(file) ==> flow_weight(file, config)
                == Some(full)
            &&& control_flow_change(file) && !heavy_flow_change(file) ==> {
                &&& flow_weight(file, config) is Some
                &&& flow_weight(file, config)->0 == if light < full {
                    light
                } else {
                    full as int
                }
            }
        }),
        forall|t: Seq<char>| #[trigger] branch_test()(t) == opens_branch(t),
{
}

/// The depth of a branch is one more than the number of braces that are open before it, where the
/// closing braces of its own line count before it and its opening braces behind it; braces that close
/// nothing are ignored.
pub proof fn law_depths_of_branches(
    lines: Seq<Seq<char>>,
    line: Seq<char>,
    opens: spec_fn(Seq<char>) -> bool,
)
    ensures
        ({
            let before = nesting(lines, opens);
            let after = nesting(lines.push(line), opens);
            let t = text::trimmed(line);
            let left = if before.open > text::occurrences(t, '}') {
                before.open - text::occurrences(t, '}')
            } else {
                0
            };
            &&& after.open == left + text::occurrences(t, '{')
            &&& !opens(t) ==> after.deepest == before.deepest
            &&& opens(t) ==> after.deepest == if left + 1 > before.deepest {
                left + 1
            } else {
                before.deepest as int
            }
            &&& nesting(Seq::<Seq<char>>::empty(), opens).open == 0
            &&& nesting(Seq::<Seq<char>>::empty(), opens).deepest == 0
        }),
{
    assert(lines.push(line).drop_last() =~= lines);
}

/// Whether a binding behind its keyword is a function or a class: it holds an arrow, or its value
/// begins with one of these words.
pub open spec fn binds_callable(rest: Seq<char>) -> bool {
    ||| exists|a: Seq<char>, b: Seq<char>| #[trigger] (a + "=>"@ + b) == rest
    ||| exists|name: Seq<char>, value: Seq<char>|
        !name.contains('=') && #[trigger] (name + "="@ + value) == rest && (begins_with(
            value,
            "function"@,
        ) || begins_with(value, "async function"@) || begins_with(value, "class"@))
}

proof fn lemma_binds_callable(rest: Seq<char>)
    ensures
        callable_binding(rest) == binds_callable(rest),
{
    reveal_strlit("=");
    reveal_strlit("function");
    reveal_strlit("async function");
    reveal_strlit("class");
    assert(seq!['='] =~= "="@);
    let arrow = "=>"@;
    text::law_parts_of_texts(rest, arrow, rest, rest);
    if text::has_infix(rest, arrow) {
        let i = choose|i: int|
            0 <= i <= rest.len() - arrow.len() && rest == #[trigger] rest.take(i) + arrow
                + rest.skip(i + arrow.len());
        assert(rest.take(i) + arrow + rest.skip(i + arrow.len()) == rest);
    }
    if exists|a: Seq<char>, b: Seq<char>| #[trigger] (a + "=>"@ + b) == rest {
        let (a, b) = choose|a: Seq<char>, b: Seq<char>| #[trigger] (a + "=>"@ + b) == rest;
        text::law_parts_of_texts(rest, arrow, a, b);
    }
    if let Some((name, value)) = text::split_pair(rest, '=') {
        lemma_callable_value(value);
        lemma_split_at_first(rest);
        assert(name + "="@ + value == rest);
    }
    if exists|name: Seq<char>, value: Seq<char>|
        !name.contains('=') && #[trigger] (name + "="@ + value) == rest && (begins_with(
            value,
            "function"@,
        ) || begins_with(value, "async function"@) || begins_with(value, "class"@)) {
        let (name, value) = choose|name: Seq<char>, value: Seq<char>|
            !name.contains('=') && #[trigger] (name + "="@ + value) == rest && (begins_with(
                value,
                "function"@,
            ) || begins_with(value, "async function"@) || begins_with(value, "class"@));
        text::law_splitting(name, '=', value);
        lemma_callable_value(value);
    }
}

proof fn lemma_callable_value(value: Seq<char>)
    ensures
        callable_value(value) == (begins_with(value, "function"@) || begins_with(
            value,
            "async function"@,
        ) || begins_with(value, "class"@)),
{
    reveal_strlit("function");
    reveal_strlit("async function");
    reveal_strlit("class");
    lemma_begins_with(value, "function"@);
    lemma_begins_with(value, "async function"@);
    lemma_begins_with(value, "class"@);
}

proof fn lemma_split_at_first(s: Seq<char>)
    ensures
        text::split_pair(s, '=') matches Some((name, value)) ==> s == name + seq!['='] + value
            && !name.contains('='),
{
    let n = text::before_first(s, '=') as int;
    if n < s.len() {
        lemma_first_equals(s);
        assert(s =~= s.take(n) + seq!['='] + s.skip(n + 1));
    }
}

proof fn lemma_first_equals(s: Seq<char>)
    ensures
        text::before_first(s, '=') <= s.len(),
        text::before_first(s, '=') < s.len() ==> s[text::before_first(s, '=') as int] == '=',
        !s.take(text::before_first(s, '=') as int).contains('='),
    decreases s.len(),
{
    if s.len() > 0 && s[0] != '=' {
        lemma_first_equals(s.skip(1));
        let m = text::before_first(s.skip(1), '=') as int;
        let t = s.take(m + 1);
        if t.contains('=') {
            let j = choose|j: int| 0 <= j < t.len() && t[j] == '=';
            assert(s.skip(1).take(m)[j - 1] == '=');
        }
    }
}

/// Public signatures: what is `pub`, what is exported as a function, a class, an interface, a type or
/// an enumeration, a binding that is exported and can be called, and a function whose name begins with
/// a capital letter.
pub proof fn law_public_signatures(line: Seq<char>)
    ensures
        ({
            let t = text::trimmed(line);
            public_signature(line) <==> {
                ||| begins_with(line, "pub "@)
                ||| begins_with(line, "export function "@)
                ||| begins_with(line, "export async function "@)
                ||| begins_with(line, "export class "@)
                ||| begins_with(line, "export interface "@)
                ||| begins_with(line, "export type "@)
                ||| begins_with(line, "export enum "@)
                ||| begins_with(line, "export default function "@)
                ||| begins_with(line, "export default async function "@)
                ||| begins_with(line, "export default class "@)
                ||| exists|rest: Seq<char>|
                    binds_callable(rest) && (t == #[trigger] ("export const "@ + rest) || t
                        == "export let "@ + rest || t == "export var "@ + rest)
                ||| exists|c: char, rest: Seq<char>|
                    65 <= c as int <= 90 && t == #[trigger] ("func "@ + seq![c] + rest)
            }
        }),
{
    reveal_strlit("pub ");
    reveal_strlit("export function ");
    reveal_strlit("export async function ");
    reveal_strlit("export class ");
    reveal_strlit("export interface ");
    reveal_strlit("export type ");
    reveal_strlit("export enum ");
    reveal_strlit("export default function ");
    reveal_strlit("export default async function ");
    reveal_strlit("export default class ");
    lemma_begins_with(line, "pub "@);
    lemma_begins_with(line, "export function "@);
    lemma_begins_with(line, "export async function "@);
    lemma_begins_with(line, "export class "@);
    lemma_begins_with(line, "export interface "@);
    lemma_begins_with(line, "export type "@);
    lemma_begins_with(line, "export enum "@);
    lemma_begins_with(line, "export default function "@);
    lemma_begins_with(line, "export default async function "@);
    lemma_begins_with(line, "export default class "@);
    lemma_exported_binding(text::trimmed(line));
    lemma_capital(text::trimmed(line));
}

proof fn lemma_exported_binding(t: Seq<char>)
    ensures
        exported_binding(t) <==> exists|rest: Seq<char>|
            binds_callable(rest) && (t == #[trigger] ("export const "@ + rest) || t
                == "export let "@ + rest || t == "export var "@ + rest),
{
    reveal_strlit("export const ");
    reveal_strlit("export let ");
    reveal_strlit("export var ");
    text::law_parts_of_texts(t, "export const "@, t, t);
    text::law_parts_of_texts(t, "export let "@, t, t);
    text::law_parts_of_texts(t, "export var "@, t, t);
    if exported_binding(t) {
        let n = if text::has_prefix(t, "export const "@) {
            13int
        } else {
            11
        };
        let rest = t.skip(n);
        lemma_binds_callable(rest);
        assert(binds_callable(rest));
        assert("export const "@ + rest == "export const "@ + rest);
    }
    if exists|rest: Seq<char>|
        binds_callable(rest) && (t == #[trigger] ("export const "@ + rest) || t == "export let "@
            + rest || t == "export var "@ + rest) {
        let rest = choose|rest: Seq<char>|
            binds_callable(rest) && (t == #[trigger] ("export const "@ + rest) || t
                == "export let "@ + rest || t == "export var "@ + rest);
        lemma_binds_callable(rest);
        if t == "export const "@ + rest {
            assert(t.take(13) =~= "export const "@);
            assert(t.skip(13) =~= rest);
        } else if t == "export let "@ + rest {
            assert(t.take(11) =~= "export let "@);
            assert(t.skip(11) =~= rest);
            assert(t[7] == 'l');
            assert(t.len() >= 13 ==> t.take(13)[7] == 'l');
        } else {
            assert(t.take(11) =~= "export var "@);
            assert(t.skip(11) =~= rest);
            assert(t[7] == 'v');
            assert(t.len() >= 13 ==> t.take(13)[7] == 'v');
            assert(t.take(11)[7] == 'v');
        }
    }
}

proof fn lemma_capital(t: Seq<char>)
    ensures
        capital_behind(t, "func "@) <==> exists|c: char, rest: Seq<char>|
            65 <= c as int <= 90 && t == #[trigger] ("func "@ + seq![c] + rest),
{
    reveal_strlit("func ");
    if capital_behind(t, "func "@) {
        let c = t[5];
        let rest = t.skip(6);
        assert(t =~= "func "@ + seq![c] + rest);
    }
    if exists|c: char, rest: Seq<char>|
        65 <= c as int <= 90 && t == #[trigger] ("func "@ + seq![c] + rest) {
        let (c, rest) = choose|c: char, rest: Seq<char>|
            65 <= c as int <= 90 && t == #[trigger] ("func "@ + seq![c] + rest);
        assert(t.take(5) =~= "func "@);
        assert(t[5] == c);
    }
}

/// A path is internal where one of its parts between slashes is `internal` or `(private)`, or begins
/// with an underscore and goes on. The public interface changes where a changed line of any other path
/// is a public signature, be it removed or added.
pub proof fn law_public_interfaces(file: FileModel)
    ensures
        internal_path(file.path) <==> exists|segment: Seq<char>| #[trigger]
            text::split_seq(file.path, '/').contains(segment) && (segment == "internal"@ || segment
                == "(private)"@ || (segment.len() > 1 && segment[0] == '_')),
        public_interface_change(file) <==> !internal_path(file.path) && some_line(
            file,
            |line: Seq<char>| public_signature(line),
        ),
{
    let segments = text::split_seq(file.path, '/');
    lemma_some_line(file, |line: Seq<char>| public_signature(line));
    if internal_path(file.path) {
        let i = choose|i: int|
            0 <= i < segments.len() && internal_segment(#[trigger] segments[i]);
        assert(segments.contains(segments[i]));
    }
    if exists|segment: Seq<char>| #[trigger]
        segments.contains(segment) && (segment == "internal"@ || segment == "(private)"@ || (
        segment.len() > 1 && segment[0] == '_')) {
        let segment = choose|segment: Seq<char>| #[trigger]
            segments.contains(segment) && (segment == "internal"@ || segment == "(private)"@ || (
            segment.len() > 1 && segment[0] == '_'));
        let i = choose|i: int| 0 <= i < segments.len() && segments[i] == segment;
        assert(internal_segment(segments[i]));
    }
}

} // verus!
