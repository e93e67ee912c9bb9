//! What tests expect: the assertions among changed lines, and when they say something else.

use vstd::prelude::*;

use crate::context;
use crate::context::{ChangedFile, FileModel};
use crate::order;
use crate::text;

verus! {

/// Where a reader of an argument list is: how many brackets are open, and whether inside a string.
pub struct Scan {
    pub depth: nat,
    pub in_string: bool,
    pub escaped: bool,
}

/// The state of the reader before position `n`.
pub open spec fn scan(s: Seq<char>, n: nat) -> Scan
    decreases n,
{
    if n == 0 {
        Scan { depth: 0, in_string: false, escaped: false }
    } else {
        let before = scan(s, (n - 1) as nat);
        let c = s[n - 1];
        if before.in_string {
            if before.escaped {
                Scan { escaped: false, ..before }
            } else if c == '\\' {
                Scan { escaped: true, ..before }
            } else if c == '"' {
                Scan { in_string: false, ..before }
            } else {
                before
            }
        } else if c == '"' {
            Scan { in_string: true, ..before }
        } else if c == '(' || c == '[' || c == '{' {
            Scan { depth: before.depth + 1, ..before }
        } else if (c == ')' || c == ']' || c == '}') && before.depth > 0 {
            Scan { depth: (before.depth - 1) as nat, ..before }
        } else {
            before
        }
    }
}

/// Whether the character at `i` is a comma outside of brackets and strings.
pub open spec fn separates(s: Seq<char>, i: int) -> bool {
    s[i] == ',' && !scan(s, i as nat).in_string && scan(s, i as nat).depth == 0
}

/// Where the argument begins that is being read at position `n`.
pub open spec fn argument_start(s: Seq<char>, n: nat) -> nat
    decreases n,
{
    if n == 0 {
        0
    } else if separates(s, n - 1) {
        n
    } else {
        argument_start(s, (n - 1) as nat)
    }
}

/// The arguments that are complete before position `n`.
pub open spec fn complete_arguments(s: Seq<char>, n: nat) -> Seq<Seq<char>>
    decreases n,
{
    if n == 0 {
        Seq::empty()
    } else {
        let before = complete_arguments(s, (n - 1) as nat);
        if separates(s, n - 1) {
            before.push(
                text::trimmed(s.subrange(argument_start(s, (n - 1) as nat) as int, n - 1)),
            )
        } else {
            before
        }
    }
}

/// The arguments of a list, each without the white space around it. A last one that is blank does
/// not count.
pub open spec fn arguments(s: Seq<char>) -> Seq<Seq<char>> {
    let complete = complete_arguments(s, s.len());
    let tail = text::trimmed(s.skip(argument_start(s, s.len()) as int));
    if tail.len() > 0 {
        complete.push(tail)
    } else {
        complete
    }
}

/// Whether a line holds a call: its first opening parenthesis stands before its last closing one.
pub open spec fn is_call(line: Seq<char>) -> bool {
    text::before_first(line, '(') < context::last_position(line, ')')
}

/// What is called: the text before the first opening parenthesis.
pub open spec fn callee(line: Seq<char>) -> Seq<char> {
    text::trimmed(line.take(text::before_first(line, '(') as int))
}

/// The arguments of the call: the list between the first opening and the last closing parenthesis.
pub open spec fn call_arguments(line: Seq<char>) -> Seq<Seq<char>> {
    arguments(
        line.subrange(text::before_first(line, '(') as int + 1, context::last_position(line, ')')),
    )
}

/// A call with at most its first three arguments: those behind are a message. A line that is no
/// call with arguments stays as it is.
pub open spec fn bare_call(line: Seq<char>) -> Seq<char> {
    let args = call_arguments(line);
    if !is_call(line) || args.len() == 0 {
        line
    } else {
        callee(line) + "("@ + text::joined(
            if args.len() <= 3 {
                args
            } else {
                args.take(3)
            },
            ", "@,
        ) + ")"@
    }
}

/// Whether a line calls an assertion library.
pub open spec fn asserts(t: Seq<char>) -> bool {
    text::has_infix(t, "assert."@) || text::has_infix(t, "require."@)
}

/// What a line expects, where it is an expectation at all.
pub open spec fn expectation(line: Seq<char>) -> Option<Seq<char>> {
    let t = text::trimmed(line);
    if asserts(t) {
        Some(bare_call(t))
    } else if text::has_infix(t, "expect("@) || text::has_infix(t, "snapshot"@) || text::has_infix(
        t,
        "cmp.Diff("@,
    ) {
        Some(t)
    } else {
        None
    }
}

/// What the lines expect, in their order.
pub open spec fn expectations(lines: Seq<Seq<char>>) -> Seq<Seq<char>>
    decreases lines.len(),
{
    if lines.len() == 0 {
        Seq::empty()
    } else {
        let before = expectations(lines.drop_last());
        match expectation(lines.last()) {
            Some(e) => before.push(e),
            None => before,
        }
    }
}

/// Whether the added lines expect something else than the removed ones, whatever their order.
pub open spec fn expectation_change(file: FileModel) -> bool {
    expectations(file.removed).to_multiset() != expectations(file.added).to_multiset()
}

/// The arguments of a list.
pub fn split_top_level_args(input: &str) -> (r: Vec<String>)
    ensures
        text::views(r@) == arguments(input@),
{
    let chars = text::chars_of(input);
    let mut args: Vec<String> = Vec::new();
    let mut start: usize = 0;
    let mut depth: usize = 0;
    let mut in_string: bool = false;
    let mut escaped: bool = false;
    let mut i: usize = 0;
    assert(text::views(args@) =~= complete_arguments(input@, 0));
    while i < chars.len()
        invariant
            i <= chars@.len(),
            chars@ == input@,
            start <= i,
            depth <= i,
            start == argument_start(input@, i as nat),
            depth == scan(input@, i as nat).depth,
            in_string == scan(input@, i as nat).in_string,
            escaped == scan(input@, i as nat).escaped,
            text::views(args@) =~= complete_arguments(input@, i as nat),
        decreases chars@.len() - i,
    {
        let c = chars[i];
        let ghost before = text::views(args@);
        if in_string {
            if escaped {
                escaped = false;
            } else if c == '\\' {
                escaped = true;
            } else if c == '"' {
                in_string = false;
            }
        } else if c == '"' {
            in_string = true;
        } else if c == '(' || c == '[' || c == '{' {
            depth = depth + 1;
        } else if c == ')' || c == ']' || c == '}' {
            if depth > 0 {
                depth = depth - 1;
            }
        } else if c == ',' && depth == 0 {
            let piece = input.substring_char(start, i);
            let arg = text::trim(piece).to_owned();
            args.push(arg);
            assert(text::views(args@) =~= before.push(arg@));
            start = i + 1;
        }
        i = i + 1;
    }
    let ghost before = text::views(args@);
    let tail = text::trim(input.substring_char(start, chars.len()));
    assert(input@.subrange(start as int, input@.len() as int) =~= input@.skip(start as int));
    if !tail.is_empty() {
        let arg = tail.to_owned();
        args.push(arg);
        assert(text::views(args@) =~= before.push(tail@));
    }
    args
}

/// The call with at most its first three arguments.
pub fn normalize_assert_like_line(line: &str) -> (r: String)
    ensures
        r@ == bare_call(line@),
{
    let chars = text::chars_of(line);
    let behind: usize = context::find_last(&chars, ')');
    let open: usize = match text::split_once(line, '(') {
        Some((head, _tail)) => head.unicode_len(),
        None => line.unicode_len(),
    };
    assert(open == text::before_first(line@, '(')) by {
        text::lemma_before_first_bound(line@, '(');
    }
    if behind == 0 || behind - 1 <= open {
        return line.to_owned();
    }
    let close: usize = behind - 1;
    let args = split_top_level_args(line.substring_char(open + 1, close));
    let ghost all = arguments(line@.subrange(open + 1, close as int));
    assert(args@.len() == all.len());
    if args.len() == 0 {
        return line.to_owned();
    }
    let callee = text::trim(line.substring_char(0, open));
    assert(line@.subrange(0, open as int) =~= line@.take(open as int));
    let mut kept = args;
    if kept.len() > 3 {
        kept.truncate(3);
        assert(text::views(kept@) =~= all.take(3));
    }
    let list = text::join(&kept, ", ");
    callee.to_owned().concat("(").concat(list.as_str()).concat(")")
}

/// What a line expects, where it is an expectation at all.
pub fn normalize_test_oracle_line(line: &str) -> (r: Option<String>)
    ensures
        text::opt_view(r) == expectation(line@),
{
    let t = text::trim(line);
    if text::contains(t, "assert.") || text::contains(t, "require.") {
        return Some(normalize_assert_like_line(t));
    }
    if text::contains(t, "expect(") || text::contains(t, "snapshot") || text::contains(
        t,
        "cmp.Diff(",
    ) {
        return Some(t.to_owned());
    }
    None
}

fn picked_expectations(lines: &Vec<String>) -> (r: Vec<String>)
    ensures
        text::views(r@) == expectations(text::views(lines@)),
{
    let ghost all = text::views(lines@);
    let mut r: Vec<String> = Vec::new();
    let mut i: usize = 0;
    assert(all.take(0) =~= Seq::empty());
    assert(text::views(r@) =~= expectations(all.take(0)));
    while i < lines.len()
        invariant
            i <= lines@.len(),
            all == text::views(lines@),
            text::views(r@) =~= expectations(all.take(i as int)),
        decreases lines@.len() - i,
    {
        let ghost before = text::views(r@);
        proof {
            assert(all.take(i + 1).drop_last() =~= all.take(i as int));
            assert(all.take(i + 1).last() == lines@[i as int]@);
        }
        if let Some(e) = normalize_test_oracle_line(lines[i].as_str()) {
            r.push(e);
            assert(text::views(r@) =~= before.push(e@));
        }
        i = i + 1;
    }
    assert(all.take(i as int) =~= all);
    r
}

/// What the lines expect, in the order by characters.
pub fn normalized_test_oracle_lines(lines: &Vec<String>) -> (r: Vec<String>)
    ensures
        text::views(r@) == order::in_order(expectations(text::views(lines@))),
{
    order::sort_texts(picked_expectations(lines))
}

/// Whether the added lines expect something else than the removed ones.
pub fn has_test_expectation_change(file: &ChangedFile) -> (r: bool)
    ensures
        r == expectation_change(file@),
{
    proof {
        order::law_order_forgets_positions(
            expectations(file@.removed),
            expectations(file@.added),
        );
    }
    let removed = normalized_test_oracle_lines(&file.removed);
    let added = normalized_test_oracle_lines(&file.added);
    !order::same_texts(&removed, &added)
}

/// The messages of two assertions do not count: where the callees and the first three arguments are
/// the same, so are the expectations.
pub proof fn law_messages_do_not_count(a: Seq<char>, b: Seq<char>)
    requires
        is_call(a),
        is_call(b),
        callee(a) == callee(b),
        call_arguments(a).len() >= 3,
        call_arguments(b).len() >= 3,
        call_arguments(a).take(3) == call_arguments(b).take(3),
    ensures
        bare_call(a) == bare_call(b),
{
    let x = call_arguments(a);
    let y = call_arguments(b);
    assert(x.len() == 3 ==> x.take(3) =~= x);
    assert(y.len() == 3 ==> y.take(3) =~= y);
}

proof fn lemma_expectations_without(lines: Seq<Seq<char>>, i: int)
    requires
        0 <= i < lines.len(),
    ensures
        expectations(lines).to_multiset() == (match expectation(lines[i]) {
            Some(e) => expectations(lines.remove(i)).to_multiset().insert(e),
            None => expectations(lines.remove(i)).to_multiset(),
        }),
    decreases lines.len(),
{
    broadcast use vstd::seq_lib::group_to_multiset_ensures;

    let before = lines.drop_last();
    if i == lines.len() - 1 {
        assert(lines.remove(i) =~= before);
    } else {
        lemma_expectations_without(before, i);
        assert(lines.remove(i).drop_last() =~= before.remove(i));
        assert(lines.remove(i).last() == lines.last());
        assert(before[i] == lines[i]);
        match (expectation(lines[i]), expectation(lines.last())) {
            (Some(e), Some(f)) => {
                let rest = expectations(before.remove(i)).to_multiset();
                assert(rest.insert(e).insert(f) =~= rest.insert(f).insert(e));
            },
            _ => {},
        }
    }
}

proof fn lemma_expectations_of_permutation(a: Seq<Seq<char>>, b: Seq<Seq<char>>)
    requires
        a.to_multiset() == b.to_multiset(),
    ensures
        expectations(a).to_multiset() == expectations(b).to_multiset(),
    decreases a.len(),
{
    broadcast use vstd::seq_lib::group_to_multiset_ensures;

    assert(a.len() == a.to_multiset().len());
    assert(b.len() == b.to_multiset().len());
    if a.len() == 0 {
        assert(a =~= b);
    } else {
        let line = a.last();
        assert(a.contains(line));
        assert(a.to_multiset().count(line) > 0);
        assert(b.contains(line));
        let j = choose|j: int| 0 <= j < b.len() && b[j] == line;
        assert(a.remove(a.len() - 1) =~= a.drop_last());
        assert(a.drop_last().to_multiset() =~= b.remove(j).to_multiset());
        lemma_expectations_of_permutation(a.drop_last(), b.remove(j));
        lemma_expectations_without(a, a.len() - 1);
        lemma_expectations_without(b, j);
    }
}

/// The order of the lines does not count: a change that only moves lines changes no expectation.
pub proof fn law_order_of_expectations_does_not_count(file: FileModel)
    requires
        file.removed.to_multiset() == file.added.to_multiset(),
    ensures
        !expectation_change(file),
{
    lemma_expectations_of_permutation(file.removed, file.added);
}

proof fn lemma_scan_prefix(s: Seq<char>, t: Seq<char>, n: nat)
    requires
        n <= s.len(),
        n <= t.len(),
        forall|i: int| 0 <= i < n ==> #[trigger] s[i] == t[i],
    ensures
        scan(s, n) == scan(t, n),
    decreases n,
{
    if n > 0 {
        assert(s[n - 1] == t[n - 1]);
        lemma_scan_prefix(s, t, (n - 1) as nat);
    }
}

/// How arguments are read: brackets of three kinds nest, closing ones that close nothing are ignored,
/// double quotes begin and end a string, in which nothing else counts, and there a backslash takes the
/// meaning of the character behind it.
pub proof fn law_reading_arguments(s: Seq<char>, c: char)
    ensures
        ({
            let b = scan(s, s.len());
            let a = scan(s.push(c), s.len() + 1);
            &&& !b.in_string ==> {
                &&& a.in_string == (c as int == 34)
                &&& !a.escaped || b.escaped
                &&& c == '(' || c == '[' || c == '{' ==> a.depth == b.depth + 1
                &&& c == ')' || c == ']' || c == '}' ==> a.depth == if b.depth > 0 {
                    b.depth - 1
                } else {
                    0
                }
                &&& !(c == '(' || c == '[' || c == '{' || c == ')' || c == ']' || c == '}')
                    ==> a.depth == b.depth
            }
            &&& b.in_string ==> {
                &&& a.depth == b.depth
                &&& a.escaped == (!b.escaped && c as int == 92)
                &&& a.in_string == (b.escaped || c as int != 34)
            }
            &&& scan(s, 0).depth == 0
            &&& !scan(s, 0).in_string
            &&& !scan(s, 0).escaped
        }),
{
    lemma_scan_prefix(s, s.push(c), s.len());
}

/// Whether no comma of a text separates arguments.
pub open spec fn is_one_argument(s: Seq<char>) -> bool {
    forall|i: int| 0 <= i < s.len() && #[trigger] s[i] == ',' ==> scan(s, i as nat).in_string || scan(
        s,
        i as nat,
    ).depth > 0
}

proof fn lemma_no_separator(s: Seq<char>, n: nat)
    requires
        is_one_argument(s),
        n <= s.len(),
    ensures
        argument_start(s, n) == 0,
        complete_arguments(s, n).len() == 0,
    decreases n,
{
    if n > 0 {
        assert(!separates(s, n - 1)) by {
            if s[n - 1] == ',' {
            }
        }
        lemma_no_separator(s, (n - 1) as nat);
    }
}

proof fn lemma_behind_comma(piece: Seq<char>, rest: Seq<char>, n: nat)
    requires
        scan(piece, piece.len()).depth == 0,
        !scan(piece, piece.len()).in_string,
        !scan(piece, piece.len()).escaped,
        is_one_argument(piece),
        n <= rest.len(),
    ensures
        ({
            let whole = piece + seq![','] + rest;
            let m = piece.len() + 1;
            &&& scan(whole, m + n) == scan(rest, n)
            &&& argument_start(whole, m + n) == m + argument_start(rest, n)
            &&& argument_start(rest, n) <= n
            &&& complete_arguments(whole, m + n) == seq![text::trimmed(piece)] + complete_arguments(
                rest,
                n,
            )
        }),
    decreases n,
{
    let whole = piece + seq![','] + rest;
    let m = piece.len() + 1;
    if n == 0 {
        lemma_scan_prefix(piece, whole, piece.len());
        assert(whole[piece.len() as int] == ',');
        lemma_no_separator(piece, piece.len());
        lemma_same_start(piece, whole, piece.len());
        assert(separates(whole, piece.len() as int));
        assert(whole.subrange(0, piece.len() as int) =~= piece);
        assert(complete_arguments(whole, m) =~= seq![text::trimmed(piece)] + complete_arguments(
            rest,
            0,
        ));
    } else {
        let k = (n - 1) as nat;
        lemma_behind_comma(piece, rest, k);
        assert(whole[(m + k) as int] == rest[k as int]);
        assert(separates(whole, (m + k) as int) == separates(rest, k as int));
        assert(whole.subrange((m + argument_start(rest, k)) as int, (m + k) as int)
            =~= rest.subrange(argument_start(rest, k) as int, k as int));
        assert(complete_arguments(whole, m + n) =~= seq![text::trimmed(piece)] + complete_arguments(
            rest,
            n,
        ));
    }
}

proof fn lemma_same_start(s: Seq<char>, t: Seq<char>, n: nat)
    requires
        n <= s.len(),
        n <= t.len(),
        forall|i: int| 0 <= i < n ==> #[trigger] s[i] == t[i],
    ensures
        argument_start(s, n) == argument_start(t, n),
        complete_arguments(s, n).len() == 0 ==> complete_arguments(t, n).len() == 0,
    decreases n,
{
    if n > 0 {
        assert(s[n - 1] == t[n - 1]);
        lemma_scan_prefix(s, t, (n - 1) as nat);
        lemma_same_start(s, t, (n - 1) as nat);
    }
}

/// Arguments stand between the commas that are neither in brackets nor in a string, without the white
/// space around them. Only behind the last comma may nothing stand: that is no argument.
pub proof fn law_arguments(piece: Seq<char>, rest: Seq<char>)
    requires
        is_one_argument(piece),
    ensures
        scan(piece, piece.len()).depth == 0 && !scan(piece, piece.len()).in_string && !scan(
            piece,
            piece.len(),
        ).escaped ==> arguments(piece + ","@ + rest) == seq![text::trimmed(piece)] + arguments(rest),
        text::trimmed(piece).len() > 0 ==> arguments(piece) == seq![text::trimmed(piece)],
        text::trimmed(piece).len() == 0 ==> arguments(piece).len() == 0,
{
    reveal_strlit(",");
    lemma_no_separator(piece, piece.len());
    assert(piece.skip(0) =~= piece);
    let none: Seq<Seq<char>> = Seq::empty();
    assert(complete_arguments(piece, piece.len()) =~= none);
    assert(none.push(text::trimmed(piece)) =~= seq![text::trimmed(piece)]);
    if scan(piece, piece.len()).depth == 0 && !scan(piece, piece.len()).in_string && !scan(
        piece,
        piece.len(),
    ).escaped {
        let whole = piece + seq![','] + rest;
        assert(piece + ","@ + rest =~= whole);
        let m = piece.len() + 1;
        lemma_behind_comma(piece, rest, rest.len());
        assert(whole.len() == m + rest.len());
        assert(whole.skip((m + argument_start(rest, rest.len())) as int) =~= rest.skip(
            argument_start(rest, rest.len()) as int,
        ));
        let tail = text::trimmed(rest.skip(argument_start(rest, rest.len()) as int));
        let complete = complete_arguments(rest, rest.len());
        assert((seq![text::trimmed(piece)] + complete).push(tail) =~= seq![text::trimmed(piece)]
            + complete.push(tail));
    }
}

proof fn lemma_last_closing(s: Seq<char>, n: int)
    requires
        0 <= n < s.len(),
        s[n] == ')',
        forall|j: int| n < j < s.len() ==> #[trigger] s[j] != ')',
    ensures
        context::last_position(s, ')') == n,
    decreases s.len(),
{
    if n < s.len() - 1 {
        assert(s[s.len() - 1] != ')');
        let t = s.drop_last();
        assert forall|j: int| n < j < t.len() implies #[trigger] t[j] != ')' by {
            assert(t[j] == s[j]);
        }
        lemma_last_closing(t, n);
    }
}

/// An assertion is kept as its callee and its first three arguments, with a comma and a space between
/// them: what stands behind the call, how it is spaced, and its further arguments do not count. The
/// call goes from the first opening bracket to the last closing one. One without arguments stays as it
/// is.
pub proof fn law_assertions_are_normalized(name: Seq<char>, inner: Seq<char>, tail: Seq<char>)
    requires
        !name.contains('('),
        !tail.contains(')'),
    ensures
        ({
            let line = name + "("@ + inner + ")"@ + tail;
            let args = arguments(inner);
            let kept = if args.len() > 3 {
                args.take(3)
            } else {
                args
            };
            &&& args.len() > 0 ==> bare_call(line) == text::trimmed(name) + "("@ + text::joined(
                kept,
                ", "@,
            ) + ")"@
            &&& args.len() == 0 ==> bare_call(line) == line
        }),
{
    reveal_strlit("(");
    reveal_strlit(")");
    let line = name + "("@ + inner + ")"@ + tail;
    let n = name.len() as int;
    let m = n + 1 + inner.len();
    assert(line[n] == '(');
    assert forall|j: int| 0 <= j < n implies line[j] != '(' by {
        assert(line[j] == name[j]);
        assert(name.contains(name[j]));
    }
    text::lemma_before_first(line, '(', n);
    assert(line[m] == ')');
    assert forall|j: int| m < j < line.len() implies #[trigger] line[j] != ')' by {
        assert(line[j] == tail[j - m - 1]);
        assert(tail.contains(tail[j - m - 1]));
    }
    lemma_last_closing(line, m);
    assert(line.take(n) =~= name);
    assert(line.subrange(n + 1, m) =~= inner);
}

/// What a line expects: an assertion of `assert.` or `require.` in its normal form, and any other line
/// with `expect(`, `snapshot` or `cmp.Diff(` as it stands; other lines expect nothing. White space
/// around the line does not count.
pub proof fn law_expectations_of_lines(line: Seq<char>)
    ensures
        ({
            let t = text::trimmed(line);
            let asserts = text::has_infix(t, "assert."@) || text::has_infix(t, "require."@);
            let expects = text::has_infix(t, "expect("@) || text::has_infix(t, "snapshot"@)
                || text::has_infix(t, "cmp.Diff("@);
            &&& asserts ==> expectation(line) == Some(bare_call(t))
            &&& !asserts && expects ==> expectation(line) == Some(t)
            &&& !asserts && !expects ==> expectation(line) is None
        }),
{
}

/// How many of the lines expect something.
pub open spec fn lines_expecting(lines: Seq<Seq<char>>, wanted: Seq<char>) -> nat
    decreases lines.len(),
{
    if lines.len() == 0 {
        0
    } else if expectation(lines[0]) == Some(wanted) {
        1 + lines_expecting(lines.skip(1), wanted)
    } else {
        lines_expecting(lines.skip(1), wanted)
    }
}

proof fn lemma_lines_expecting(lines: Seq<Seq<char>>, last: Seq<char>, wanted: Seq<char>)
    ensures
        lines_expecting(lines.push(last), wanted) == lines_expecting(lines, wanted) + (
        if expectation(last) == Some(wanted) {
            1nat
        } else {
            0nat
        }),
    decreases lines.len(),
{
    let all = lines.push(last);
    if lines.len() == 0 {
        assert(all[0] == last);
        assert(all.skip(1) =~= Seq::empty());
        assert(lines_expecting(Seq::empty(), wanted) == 0);
    } else {
        assert(all[0] == lines[0]);
        assert(all.skip(1) =~= lines.skip(1).push(last));
        lemma_lines_expecting(lines.skip(1), last, wanted);
    }
}

proof fn lemma_expectations_counted(lines: Seq<Seq<char>>, wanted: Seq<char>)
    ensures
        expectations(lines).to_multiset().count(wanted) == lines_expecting(lines, wanted),
    decreases lines.len(),
{
    broadcast use vstd::seq_lib::group_to_multiset_ensures;

    if lines.len() > 0 {
        let before = lines.drop_last();
        let last = lines.last();
        lemma_expectations_counted(before, wanted);
        lemma_lines_expecting(before, last, wanted);
        assert(before.push(last) =~= lines);
    } else {
        assert(expectations(lines) =~= Seq::empty());
        assert(Seq::<Seq<char>>::empty().to_multiset().count(wanted) == 0);
    }
}

/// What a test expects changes where something is expected by another number of removed than of added
/// lines.
pub proof fn law_changed_expectations(file: FileModel)
    ensures
        expectation_change(file) <==> exists|wanted: Seq<char>| #[trigger]
            lines_expecting(file.removed, wanted) != #[trigger] lines_expecting(file.added, wanted),
{
    let r = expectations(file.removed).to_multiset();
    let a = expectations(file.added).to_multiset();
    if expectation_change(file) {
        if forall|wanted: Seq<char>| #[trigger]
            lines_expecting(file.removed, wanted) == #[trigger] lines_expecting(
                file.added,
                wanted,
            ) {
            assert forall|wanted: Seq<char>| #[trigger] r.count(wanted) == a.count(wanted) by {
                lemma_expectations_counted(file.removed, wanted);
                lemma_expectations_counted(file.added, wanted);
                assert(lines_expecting(file.removed, wanted) == lines_expecting(
                    file.added,
                    wanted,
                ));
            }
            assert(r =~= a);
        }
    }
    if exists|wanted: Seq<char>| #[trigger]
        lines_expecting(file.removed, wanted) != #[trigger] lines_expecting(file.added, wanted) {
        let wanted = choose|wanted: Seq<char>| #[trigger]
            lines_expecting(file.removed, wanted) != #[trigger] lines_expecting(file.added, wanted);
        lemma_expectations_counted(file.removed, wanted);
        lemma_expectations_counted(file.added, wanted);
    }
}

} // verus!
