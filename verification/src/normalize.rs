//! The shape of code lines: what is left of a line once names, numbers and strings are alike.

use vstd::prelude::*;

use crate::context::{ChangedFile, FileModel};
use crate::order;
use crate::signals;
use crate::text;

verus! {

pub open spec fn is_ascii_space(c: char) -> bool {
    c == ' ' || c == '\t' || c == '\n' || c == '\u{c}' || c == '\r'
}

pub open spec fn is_number_char(c: char) -> bool {
    '0' <= c <= '9'
}

/// Whether a character can begin a name.
pub open spec fn is_name_start(c: char) -> bool {
    'a' <= c <= 'z' || 'A' <= c <= 'Z' || c == '_'
}

/// Whether a character can stand in a name.
pub open spec fn is_name_char(c: char) -> bool {
    is_name_start(c) || is_number_char(c)
}

/// What stands behind the characters of a name at the beginning of `s`.
pub open spec fn behind_name(s: Seq<char>) -> Seq<char>
    decreases s.len(),
{
    if s.len() > 0 && is_name_char(s[0]) {
        behind_name(s.skip(1))
    } else {
        s
    }
}

/// What stands behind the digits at the beginning of `s`.
pub open spec fn behind_number(s: Seq<char>) -> Seq<char>
    decreases s.len(),
{
    if s.len() > 0 && is_number_char(s[0]) {
        behind_number(s.skip(1))
    } else {
        s
    }
}

/// What stands behind the first `quote` in `s` that no backslash escapes; nothing where there is
/// none.
pub open spec fn behind_string(s: Seq<char>, quote: char) -> Seq<char>
    decreases s.len(),
{
    if s.len() == 0 {
        s
    } else if s[0] == quote {
        s.skip(1)
    } else if s[0] == '\\' && s.len() > 1 {
        behind_string(s.skip(2), quote)
    } else {
        behind_string(s.skip(1), quote)
    }
}

proof fn lemma_behind_name_len(s: Seq<char>)
    ensures
        behind_name(s).len() <= s.len(),
    decreases s.len(),
{
    if s.len() > 0 && is_name_char(s[0]) {
        lemma_behind_name_len(s.skip(1));
    }
}

proof fn lemma_behind_number_len(s: Seq<char>)
    ensures
        behind_number(s).len() <= s.len(),
    decreases s.len(),
{
    if s.len() > 0 && is_number_char(s[0]) {
        lemma_behind_number_len(s.skip(1));
    }
}

proof fn lemma_behind_string_len(s: Seq<char>, quote: char)
    ensures
        behind_string(s, quote).len() <= s.len(),
    decreases s.len(),
{
    if s.len() == 0 || s[0] == quote {
    } else if s[0] == '\\' && s.len() > 1 {
        lemma_behind_string_len(s.skip(2), quote);
    } else {
        lemma_behind_string_len(s.skip(1), quote);
    }
}

/// A text with each name written as `x`, each number as `0`, each quoted string as `"s"`, and
/// without ASCII white space.
pub open spec fn shape(s: Seq<char>) -> Seq<char>
    decreases s.len(),
    via shape_decreases
{
    if s.len() == 0 {
        Seq::empty()
    } else if is_ascii_space(s[0]) {
        shape(s.skip(1))
    } else if s[0] == '"' || s[0] == '\'' {
        seq!['"', 's', '"'] + shape(behind_string(s.skip(1), s[0]))
    } else if is_name_start(s[0]) {
        seq!['x'] + shape(behind_name(s.skip(1)))
    } else if is_number_char(s[0]) {
        seq!['0'] + shape(behind_number(s.skip(1)))
    } else {
        seq![s[0]] + shape(s.skip(1))
    }
}

#[via_fn]
proof fn shape_decreases(s: Seq<char>) {
    if s.len() > 0 {
        lemma_behind_string_len(s.skip(1), s[0]);
        lemma_behind_name_len(s.skip(1));
        lemma_behind_number_len(s.skip(1));
    }
}

/// The shape of a line without the white space around it.
pub open spec fn line_shape(line: Seq<char>) -> Seq<char> {
    shape(text::trimmed(line))
}

/// The shapes, other than the empty one, of the lines that are neither blank nor comments.
pub open spec fn code_shapes(lines: Seq<Seq<char>>) -> Seq<Seq<char>>
    decreases lines.len(),
{
    if lines.len() == 0 {
        Seq::empty()
    } else {
        let before = code_shapes(lines.drop_last());
        if signals::comment_or_blank(lines.last()) || line_shape(lines.last()).len() == 0 {
            before
        } else {
            before.push(line_shape(lines.last()))
        }
    }
}

/// Whether the removed and the added code lines have, in whatever order, the same shapes.
pub open spec fn refactor_like(file: FileModel) -> bool {
    &&& code_shapes(file.removed).len() > 0
    &&& code_shapes(file.added).len() > 0
    &&& code_shapes(file.removed).to_multiset() == code_shapes(file.added).to_multiset()
}

/// The position behind the name that `chars` holds at `from`.
fn pass_name(chars: &Vec<char>, from: usize) -> (r: usize)
    requires
        from <= chars@.len(),
    ensures
        from <= r <= chars@.len(),
        chars@.skip(r as int) == behind_name(chars@.skip(from as int)),
{
    let mut i: usize = from;
    while i < chars.len()
        invariant
            from <= i <= chars@.len(),
            behind_name(chars@.skip(i as int)) == behind_name(chars@.skip(from as int)),
        decreases chars@.len() - i,
    {
        let c = chars[i];
        if !(('a' <= c && c <= 'z') || ('A' <= c && c <= 'Z') || c == '_' || ('0' <= c && c
            <= '9')) {
            return i;
        }
        assert(chars@.skip(i as int).skip(1) =~= chars@.skip(i + 1));
        i = i + 1;
    }
    i
}

/// The position behind the digits that `chars` holds at `from`.
fn pass_number(chars: &Vec<char>, from: usize) -> (r: usize)
    requires
        from <= chars@.len(),
    ensures
        from <= r <= chars@.len(),
        chars@.skip(r as int) == behind_number(chars@.skip(from as int)),
{
    let mut i: usize = from;
    while i < chars.len()
        invariant
            from <= i <= chars@.len(),
            behind_number(chars@.skip(i as int)) == behind_number(chars@.skip(from as int)),
        decreases chars@.len() - i,
    {
        let c = chars[i];
        if !('0' <= c && c <= '9') {
            return i;
        }
        assert(chars@.skip(i as int).skip(1) =~= chars@.skip(i + 1));
        i = i + 1;
    }
    i
}

/// The position behind the string that `chars` holds at `from`, behind its opening quote.
fn pass_string(chars: &Vec<char>, from: usize, quote: char) -> (r: usize)
    requires
        from <= chars@.len(),
    ensures
        from <= r <= chars@.len(),
        chars@.skip(r as int) == behind_string(chars@.skip(from as int), quote),
{
    let mut i: usize = from;
    while i < chars.len()
        invariant
            from <= i <= chars@.len(),
            behind_string(chars@.skip(i as int), quote) == behind_string(
                chars@.skip(from as int),
                quote,
            ),
        decreases chars@.len() - i,
    {
        let c = chars[i];
        assert(chars@.skip(i as int).skip(1) =~= chars@.skip(i + 1));
        if c == quote {
            return i + 1;
        }
        if c == '\\' && chars.len() - i > 1 {
            assert(chars@.skip(i as int).skip(2) =~= chars@.skip(i + 2));
            i = i + 2;
        } else {
            i = i + 1;
        }
    }
    i
}

/// The shape of a line.
pub fn normalize_line(line: &str) -> (r: String)
    ensures
        r@ == line_shape(line@),
{
    let trimmed = text::trim(line);
    let chars = text::chars_of(trimmed);
    let ghost whole = trimmed@;
    let mut r = String::new();
    let mut i: usize = 0;
    proof {
        assert(whole.skip(0) =~= whole);
        assert(r@ + shape(whole) =~= shape(whole));
    }
    while i < chars.len()
        invariant
            i <= chars@.len(),
            chars@ == whole,
            r@ + shape(whole.skip(i as int)) == shape(whole),
        decreases chars@.len() - i,
    {
        let c = chars[i];
        let ghost rest = whole.skip(i as int);
        let ghost done = r@;
        assert(rest.skip(1) =~= whole.skip(i + 1));
        if c == ' ' || c == '\t' || c == '\n' || c == '\u{c}' || c == '\r' {
            i = i + 1;
        } else if c == '"' || c == '\'' {
            r.push('"');
            r.push('s');
            r.push('"');
            i = pass_string(&chars, i + 1, c);
            assert(r@ + shape(whole.skip(i as int)) =~= done + (seq!['"', 's', '"'] + shape(
                whole.skip(i as int),
            )));
        } else if ('a' <= c && c <= 'z') || ('A' <= c && c <= 'Z') || c == '_' {
            r.push('x');
            i = pass_name(&chars, i + 1);
            assert(r@ + shape(whole.skip(i as int)) =~= done + (seq!['x'] + shape(
                whole.skip(i as int),
            )));
        } else if '0' <= c && c <= '9' {
            r.push('0');
            i = pass_number(&chars, i + 1);
            assert(r@ + shape(whole.skip(i as int)) =~= done + (seq!['0'] + shape(
                whole.skip(i as int),
            )));
        } else {
            r.push(c);
            i = i + 1;
            assert(r@ + shape(whole.skip(i as int)) =~= done + (seq![c] + shape(
                whole.skip(i as int),
            )));
        }
    }
    assert(r@ + shape(whole.skip(i as int)) =~= r@);
    r
}

/// The shapes of the code lines.
pub fn normalized_code_lines(lines: &Vec<String>) -> (r: Vec<String>)
    ensures
        text::views(r@) == code_shapes(text::views(lines@)),
{
    let ghost all = text::views(lines@);
    let mut r: Vec<String> = Vec::new();
    let mut i: usize = 0;
    assert(all.take(0) =~= Seq::empty());
    assert(text::views(r@) =~= code_shapes(all.take(0)));
    while i < lines.len()
        invariant
            i <= lines@.len(),
            all == text::views(lines@),
            text::views(r@) =~= code_shapes(all.take(i as int)),
        decreases lines@.len() - i,
    {
        let line = lines[i].as_str();
        let ghost before = text::views(r@);
        proof {
            assert(all.take(i + 1).drop_last() =~= all.take(i as int));
            assert(all.take(i + 1).last() == line@);
        }
        if signals::is_code_line(line) {
            let shape = normalize_line(line);
            if !shape.as_str().is_empty() {
                r.push(shape);
                assert(text::views(r@) =~= before.push(line_shape(line@)));
            }
        }
        i = i + 1;
    }
    assert(all.take(i as int) =~= all);
    r
}

/// Whether the change keeps the shapes of the code lines.
pub fn is_refactor_like(file: &ChangedFile) -> (r: bool)
    ensures
        r == refactor_like(file@),
{
    let removed = normalized_code_lines(&file.removed);
    let added = normalized_code_lines(&file.added);
    if removed.len() == 0 || added.len() == 0 {
        return false;
    }
    proof {
        order::law_order_forgets_positions(text::views(removed@), text::views(added@));
    }
    let left = order::sort_texts(removed);
    let right = order::sort_texts(added);
    order::same_texts(&left, &right)
}

proof fn lemma_behind_name(name: Seq<char>, rest: Seq<char>)
    requires
        forall|i: int| 0 <= i < name.len() ==> is_name_char(#[trigger] name[i]),
        rest.len() > 0 ==> !is_name_char(rest[0]),
    ensures
        behind_name(name + rest) == rest,
    decreases name.len(),
{
    if name.len() == 0 {
        assert(name + rest =~= rest);
    } else {
        let tail = name.skip(1);
        assert forall|i: int| 0 <= i < tail.len() implies is_name_char(#[trigger] tail[i]) by {
            assert(tail[i] == name[i + 1]);
        }
        assert((name + rest)[0] == name[0]);
        assert((name + rest).skip(1) =~= tail + rest);
        lemma_behind_name(tail, rest);
    }
}

/// Whether a text is a name.
pub open spec fn is_name(name: Seq<char>) -> bool {
    &&& name.len() > 0
    &&& is_name_start(name[0])
    &&& forall|i: int| 0 <= i < name.len() ==> is_name_char(#[trigger] name[i])
}

/// A name can be replaced by another one without a change of shape.
pub proof fn law_shape_ignores_names(name: Seq<char>, other: Seq<char>, rest: Seq<char>)
    requires
        is_name(name),
        is_name(other),
        rest.len() > 0 ==> !is_name_char(rest[0]),
    ensures
        shape(name + rest) == shape(other + rest),
        shape(name + rest) == seq!['x'] + shape(rest),
{
    lemma_shape_of_name(name, rest);
    lemma_shape_of_name(other, rest);
}

proof fn lemma_shape_of_name(name: Seq<char>, rest: Seq<char>)
    requires
        is_name(name),
        rest.len() > 0 ==> !is_name_char(rest[0]),
    ensures
        shape(name + rest) == seq!['x'] + shape(rest),
{
    let tail = name.skip(1);
    assert forall|i: int| 0 <= i < tail.len() implies is_name_char(#[trigger] tail[i]) by {
        assert(tail[i] == name[i + 1]);
    }
    assert((name + rest)[0] == name[0]);
    assert((name + rest).skip(1) =~= tail + rest);
    lemma_behind_name(tail, rest);
}

/// The shape keeps every character that is neither ASCII white space, nor a quote, nor part of a name
/// or a number, where it stands: operators and brackets stay in their order. White space is left out.
pub proof fn law_shape_keeps_punctuation(c: char, rest: Seq<char>)
    ensures
        shape(Seq::<char>::empty()).len() == 0,
        c as int == 32 || c as int == 9 || c as int == 10 || c as int == 12 || c as int == 13
            ==> shape(seq![c] + rest) == shape(rest),
        !(c as int == 32 || c as int == 9 || c as int == 10 || c as int == 12 || c as int == 13
            || c as int == 34 || c as int == 39 || 48 <= c as int <= 57 || 65 <= c as int <= 90
            || 97 <= c as int <= 122 || c as int == 95) ==> shape(seq![c] + rest) == seq![c]
            + shape(rest),
{
    let s = seq![c] + rest;
    assert(s[0] == c);
    assert(s.skip(1) =~= rest);
}

proof fn lemma_behind_number(number: Seq<char>, rest: Seq<char>)
    requires
        forall|i: int| 0 <= i < number.len() ==> 48 <= (#[trigger] number[i]) as int <= 57,
        rest.len() > 0 ==> !(48 <= rest[0] as int <= 57),
    ensures
        behind_number(number + rest) == rest,
    decreases number.len(),
{
    if number.len() == 0 {
        assert(number + rest =~= rest);
    } else {
        let tail = number.skip(1);
        assert forall|i: int| 0 <= i < tail.len() implies 48 <= (#[trigger] tail[i]) as int
            <= 57 by {
            assert(tail[i] == number[i + 1]);
        }
        assert(48 <= number[0] as int <= 57);
        assert((number + rest)[0] == number[0]);
        assert((number + rest).skip(1) =~= tail + rest);
        lemma_behind_number(tail, rest);
    }
}

/// Each run of digits is one number, whatever it is: it becomes `0`.
pub proof fn law_shape_ignores_numbers(number: Seq<char>, rest: Seq<char>)
    requires
        number.len() > 0,
        forall|i: int| 0 <= i < number.len() ==> 48 <= (#[trigger] number[i]) as int <= 57,
        rest.len() > 0 ==> !(48 <= rest[0] as int <= 57),
    ensures
        shape(number + rest) == seq!['0'] + shape(rest),
{
    let tail = number.skip(1);
    assert forall|i: int| 0 <= i < tail.len() implies 48 <= (#[trigger] tail[i]) as int <= 57 by {
        assert(tail[i] == number[i + 1]);
    }
    assert(48 <= number[0] as int <= 57);
    assert((number + rest)[0] == number[0]);
    assert((number + rest).skip(1) =~= tail + rest);
    lemma_behind_number(tail, rest);
}

/// A name begins with an ASCII letter or an underscore, and goes on with these and with digits: it
/// becomes `x`.
pub proof fn law_shape_of_names(name: Seq<char>, rest: Seq<char>)
    requires
        name.len() > 0,
        65 <= name[0] as int <= 90 || 97 <= name[0] as int <= 122 || name[0] == '_',
        forall|i: int|
            0 <= i < name.len() ==> {
                let n = (#[trigger] name[i]) as int;
                65 <= n <= 90 || 97 <= n <= 122 || n == 95 || 48 <= n <= 57
            },
        rest.len() > 0 ==> {
            let n = rest[0] as int;
            !(65 <= n <= 90 || 97 <= n <= 122 || n == 95 || 48 <= n <= 57)
        },
    ensures
        shape(name + rest) == seq!['x'] + shape(rest),
{
    assert forall|i: int| 0 <= i < name.len() implies is_name_char(#[trigger] name[i]) by {
        let n = name[i] as int;
        assert(65 <= n <= 90 || 97 <= n <= 122 || n == 95 || 48 <= n <= 57);
    }
    lemma_shape_of_name(name, rest);
}

/// Whether a text can stand between two quotes: no quote of the kind closes the string early, where a
/// backslash escapes the character behind it.
pub open spec fn is_string_body(body: Seq<char>, quote: char) -> bool
    decreases body.len(),
{
    if body.len() == 0 {
        true
    } else if body[0] == '\\' {
        body.len() >= 2 && is_string_body(body.skip(2), quote)
    } else {
        body[0] != quote && is_string_body(body.skip(1), quote)
    }
}

proof fn lemma_behind_body(body: Seq<char>, quote: char, rest: Seq<char>)
    requires
        quote == '"' || quote == '\'',
        is_string_body(body, quote),
    ensures
        behind_string(body + seq![quote] + rest, quote) == rest,
    decreases body.len(),
{
    let s = body + seq![quote] + rest;
    if body.len() == 0 {
        assert(s[0] == quote);
        assert(s.skip(1) =~= rest);
    } else {
        assert(s[0] == body[0]);
        if body[0] == '\\' {
            assert(s.skip(2) =~= body.skip(2) + seq![quote] + rest);
            lemma_behind_body(body.skip(2), quote, rest);
        } else {
            assert(s.skip(1) =~= body.skip(1) + seq![quote] + rest);
            lemma_behind_body(body.skip(1), quote, rest);
        }
    }
}

proof fn lemma_unclosed_body(body: Seq<char>, quote: char)
    requires
        quote == '"' || quote == '\'',
        is_string_body(body, quote),
    ensures
        behind_string(body, quote).len() == 0,
    decreases body.len(),
{
    if body.len() > 0 {
        if body[0] == '\\' {
            lemma_unclosed_body(body.skip(2), quote);
        } else {
            lemma_unclosed_body(body.skip(1), quote);
        }
    }
}

/// A string between double or between single quotes becomes `"s"`, whatever it says; one that is not
/// closed takes the rest of the line.
pub proof fn law_shape_ignores_strings(quote: char, body: Seq<char>, rest: Seq<char>)
    requires
        quote as int == 34 || quote as int == 39,
        is_string_body(body, quote),
    ensures
        shape(seq![quote] + body + seq![quote] + rest) == seq!['"', 's', '"'] + shape(rest),
        shape(seq![quote] + body) == seq!['"', 's', '"'],
{
    let s = seq![quote] + body + seq![quote] + rest;
    assert(s[0] == quote);
    assert(s.skip(1) =~= body + seq![quote] + rest);
    lemma_behind_body(body, quote, rest);
    let t = seq![quote] + body;
    assert(t[0] == quote);
    assert(t.skip(1) =~= body);
    lemma_unclosed_body(body, quote);
    assert(shape(behind_string(body, quote)) =~= Seq::empty());
    assert(seq!['"', 's', '"'] + shape(behind_string(body, quote)) =~= seq!['"', 's', '"']);
}

/// Whether a line is code with the given shape, which is not empty.
pub open spec fn has_shape(line: Seq<char>, wanted: Seq<char>) -> bool {
    !signals::comment_or_blank(line) && wanted.len() > 0 && line_shape(line) == wanted
}

/// How many of the lines are code with the given shape.
pub open spec fn lines_of_shape(lines: Seq<Seq<char>>, wanted: Seq<char>) -> nat
    decreases lines.len(),
{
    if lines.len() == 0 {
        0
    } else if has_shape(lines[0], wanted) {
        1 + lines_of_shape(lines.skip(1), wanted)
    } else {
        lines_of_shape(lines.skip(1), wanted)
    }
}

proof fn lemma_lines_of_shape(lines: Seq<Seq<char>>, last: Seq<char>, wanted: Seq<char>)
    ensures
        lines_of_shape(lines.push(last), wanted) == lines_of_shape(lines, wanted) + (if has_shape(
            last,
            wanted,
        ) {
            1nat
        } else {
            0nat
        }),
    decreases lines.len(),
{
    let all = lines.push(last);
    if lines.len() == 0 {
        assert(all[0] == last);
        assert(all.skip(1) =~= Seq::empty());
        assert(lines_of_shape(Seq::empty(), wanted) == 0);
    } else {
        assert(all[0] == lines[0]);
        assert(all.skip(1) =~= lines.skip(1).push(last));
        lemma_lines_of_shape(lines.skip(1), last, wanted);
    }
}

proof fn lemma_shapes_counted(lines: Seq<Seq<char>>, wanted: Seq<char>)
    ensures
        code_shapes(lines).to_multiset().count(wanted) == lines_of_shape(lines, wanted),
    decreases lines.len(),
{
    broadcast use vstd::seq_lib::group_to_multiset_ensures;

    if lines.len() > 0 {
        let before = lines.drop_last();
        let last = lines.last();
        lemma_shapes_counted(before, wanted);
        lemma_lines_of_shape(before, last, wanted);
        assert(before.push(last) =~= lines);
    } else {
        assert(code_shapes(lines) =~= Seq::empty());
        assert(Seq::<Seq<char>>::empty().to_multiset().count(wanted) == 0);
    }
}

/// A change is a refactoring where as many code lines of each shape are removed as are added, and at
/// least one is.
pub proof fn law_refactorings_keep_shapes(file: FileModel)
    ensures
        refactor_like(file) <==> (forall|wanted: Seq<char>| #[trigger]
            lines_of_shape(file.removed, wanted) == lines_of_shape(file.added, wanted)) && exists|
            wanted: Seq<char>,
        | #[trigger] lines_of_shape(file.removed, wanted) > 0,
{
    broadcast use vstd::seq_lib::group_to_multiset_ensures;

    let r = code_shapes(file.removed);
    let a = code_shapes(file.added);
    if refactor_like(file) {
        assert forall|wanted: Seq<char>| #[trigger]
            lines_of_shape(file.removed, wanted) == lines_of_shape(file.added, wanted) by {
            lemma_shapes_counted(file.removed, wanted);
            lemma_shapes_counted(file.added, wanted);
        }
        lemma_shapes_counted(file.removed, r[0]);
        assert(r.contains(r[0]));
        assert(r.to_multiset().count(r[0]) > 0);
        assert(lines_of_shape(file.removed, r[0]) > 0);
    }
    if (forall|wanted: Seq<char>| #[trigger]
        lines_of_shape(file.removed, wanted) == lines_of_shape(file.added, wanted)) && exists|
        wanted: Seq<char>,
    | #[trigger] lines_of_shape(file.removed, wanted) > 0 {
        assert forall|wanted: Seq<char>| #[trigger]
            r.to_multiset().count(wanted) == a.to_multiset().count(wanted) by {
            lemma_shapes_counted(file.removed, wanted);
            lemma_shapes_counted(file.added, wanted);
            assert(lines_of_shape(file.removed, wanted) == lines_of_shape(file.added, wanted));
        }
        assert(r.to_multiset() =~= a.to_multiset());
        let wanted = choose|wanted: Seq<char>| #[trigger]
            lines_of_shape(file.removed, wanted) > 0;
        lemma_shapes_counted(file.removed, wanted);
        assert(r.contains(wanted));
        lemma_shapes_counted(file.added, wanted);
        assert(lines_of_shape(file.removed, wanted) == lines_of_shape(file.added, wanted));
        assert(a.contains(wanted));
    }
}

/// The shape of a line does not depend on how far it is indented.
pub proof fn law_shape_ignores_indentation(left: Seq<char>, core: Seq<char>, right: Seq<char>)
    requires
        text::all_space(left),
        text::all_space(right),
        core.len() > 0 ==> !text::is_space(core[0]) && !text::is_space(core.last()),
    ensures
        line_shape(left + core + right) == shape(core),
{
    text::law_trimming(left, core, right);
}

} // verus!
