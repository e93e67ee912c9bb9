//! Text as sequences of characters: the string operations that the scorer needs, each with the
//! sequence that it computes.

use vstd::prelude::*;

verus! {

/// The views of the elements of a sequence.
pub open spec fn views<T: View>(items: Seq<T>) -> Seq<T::V> {
    Seq::new(items.len(), |i: int| items[i]@)
}

/// The view of an optional value.
pub open spec fn opt_view<T: View>(item: Option<T>) -> Option<T::V> {
    match item {
        Some(value) => Some(value@),
        None => None,
    }
}

/// The characters with the Unicode property `White_Space`.
pub open spec fn is_space(c: char) -> bool {
    ||| '\t' <= c <= '\r'
    ||| c == ' '
    ||| c == '\u{85}'
    ||| c == '\u{a0}'
    ||| c == '\u{1680}'
    ||| '\u{2000}' <= c <= '\u{200a}'
    ||| c == '\u{2028}'
    ||| c == '\u{2029}'
    ||| c == '\u{202f}'
    ||| c == '\u{205f}'
    ||| c == '\u{3000}'
}

/// A text without its leading white space.
pub open spec fn trimmed_start(s: Seq<char>) -> Seq<char>
    decreases s.len(),
{
    if s.len() > 0 && is_space(s[0]) {
        trimmed_start(s.skip(1))
    } else {
        s
    }
}

/// A text without its trailing white space.
pub open spec fn trimmed_end(s: Seq<char>) -> Seq<char>
    decreases s.len(),
{
    if s.len() > 0 && is_space(s.last()) {
        trimmed_end(s.drop_last())
    } else {
        s
    }
}

/// A text without white space at either end.
pub open spec fn trimmed(s: Seq<char>) -> Seq<char> {
    trimmed_end(trimmed_start(s))
}

/// Whether `s` begins with `p`.
pub open spec fn has_prefix(s: Seq<char>, p: Seq<char>) -> bool {
    p.len() <= s.len() && s.take(p.len() as int) == p
}

/// Whether `s` ends with `p`.
pub open spec fn has_suffix(s: Seq<char>, p: Seq<char>) -> bool {
    p.len() <= s.len() && s.skip(s.len() - p.len()) == p
}

/// Whether `p` occurs somewhere in `s`.
pub open spec fn has_infix(s: Seq<char>, p: Seq<char>) -> bool {
    exists|i: int|
        0 <= i <= s.len() - p.len() && #[trigger] s.subrange(i, i + p.len()) == p
}

/// How many characters stand before the first `c` in `s`: all of them where `c` does not occur.
pub open spec fn before_first(s: Seq<char>, c: char) -> nat
    decreases s.len(),
{
    if s.len() == 0 || s[0] == c {
        0
    } else {
        1 + before_first(s.skip(1), c)
    }
}

/// The pieces of `s` between the occurrences of `c`.
pub open spec fn split_seq(s: Seq<char>, c: char) -> Seq<Seq<char>>
    decreases s.len(),
{
    let n = before_first(s, c) as int;
    if n < s.len() {
        seq![s.take(n)] + split_seq(s.skip(n + 1), c)
    } else {
        seq![s]
    }
}

/// The texts before and after the first `c` in `s`.
pub open spec fn split_pair(s: Seq<char>, c: char) -> Option<(Seq<char>, Seq<char>)> {
    let n = before_first(s, c) as int;
    if n < s.len() {
        Some((s.take(n), s.skip(n + 1)))
    } else {
        None
    }
}

/// A terminated line without the carriage return that may stand before its line feed.
pub open spec fn without_return(s: Seq<char>) -> Seq<char> {
    if s.len() > 0 && s.last() == '\r' {
        s.drop_last()
    } else {
        s
    }
}

/// The lines of a text. A line ends at a line feed or at the end of the text; the line feed, and a
/// carriage return before it, do not belong to the line.
pub open spec fn line_seq(s: Seq<char>) -> Seq<Seq<char>>
    decreases s.len(),
{
    if s.len() == 0 {
        Seq::empty()
    } else {
        let n = before_first(s, '\n') as int;
        if n < s.len() {
            seq![without_return(s.take(n))] + line_seq(s.skip(n + 1))
        } else {
            seq![s]
        }
    }
}

/// How many characters stand before the first white space in `s`.
pub open spec fn before_space(s: Seq<char>) -> nat
    decreases s.len(),
{
    if s.len() == 0 || is_space(s[0]) {
        0
    } else {
        1 + before_space(s.skip(1))
    }
}

pub proof fn lemma_before_space_bound(s: Seq<char>)
    ensures
        before_space(s) <= s.len(),
    decreases s.len(),
{
    if s.len() > 0 && !is_space(s[0]) {
        lemma_before_space_bound(s.skip(1));
    }
}

pub proof fn lemma_trimmed_start_len(s: Seq<char>)
    ensures
        trimmed_start(s).len() <= s.len(),
        trimmed_start(s).len() > 0 ==> !is_space(trimmed_start(s)[0]),
    decreases s.len(),
{
    if s.len() > 0 && is_space(s[0]) {
        lemma_trimmed_start_len(s.skip(1));
    }
}

/// The maximal runs of `s` that hold no white space.
pub open spec fn word_seq(s: Seq<char>) -> Seq<Seq<char>>
    decreases s.len(),
    via word_seq_decreases
{
    let t = trimmed_start(s);
    if t.len() == 0 {
        Seq::empty()
    } else {
        let n = before_space(t) as int;
        seq![t.take(n)] + word_seq(t.skip(n))
    }
}

#[via_fn]
proof fn word_seq_decreases(s: Seq<char>) {
    let t = trimmed_start(s);
    lemma_trimmed_start_len(s);
    lemma_before_space_bound(t);
}

/// An ASCII upper case letter as its lower case letter; any other character as it is.
pub open spec fn lowered_char(c: char) -> char {
    if 'A' <= c <= 'Z' {
        (c as u32 + 32) as char
    } else {
        c
    }
}

/// A text with its ASCII letters in lower case.
pub open spec fn lowered(s: Seq<char>) -> Seq<char> {
    Seq::new(s.len(), |i: int| lowered_char(s[i]))
}

/// A text with each `from` replaced by `to`.
pub open spec fn replaced(s: Seq<char>, from: char, to: char) -> Seq<char> {
    Seq::new(s.len(), |i: int| if s[i] == from { to } else { s[i] })
}

/// How often `c` occurs in `s`.
pub open spec fn occurrences(s: Seq<char>, c: char) -> nat
    decreases s.len(),
{
    if s.len() == 0 {
        0
    } else {
        occurrences(s.drop_last(), c) + if s.last() == c { 1nat } else { 0nat }
    }
}

/// The texts of `parts` one after the other, with `sep` between them.
pub open spec fn joined(parts: Seq<Seq<char>>, sep: Seq<char>) -> Seq<char>
    decreases parts.len(),
{
    if parts.len() == 0 {
        Seq::empty()
    } else if parts.len() == 1 {
        parts[0]
    } else {
        joined(parts.drop_last(), sep) + sep + parts.last()
    }
}

/// `String::push` of std: the character goes to the end of the string.
pub assume_specification[ String::push ](string: &mut String, ch: char)
    ensures
        final(string)@ == old(string)@.push(ch),
;

/// `String::from` of std, from a string slice: the string holds the characters of the slice.
pub assume_specification<'a>[ <String as From<&'a str>>::from ](s: &str) -> (r: String)
    ensures
        r@ == s@,
;

/// `From::from` of std, from a type to itself: the value is handed back.
pub assume_specification<Value>[ <Value as From<Value>>::from ](t: Value) -> (r: Value)
    ensures
        r == t,
;

/// The characters of a text.
pub fn chars_of(s: &str) -> (r: Vec<char>)
    ensures
        r@ == s@,
{
    let mut r: Vec<char> = Vec::new();
    for c in it: s.chars()
        invariant
            r@ == it.seq().take(it.index()),
            it.seq() == s@,
    {
        r.push(c);
    }
    r
}

/// The text of `chars` from `from` up to, but not with, `to`.
pub fn string_of(chars: &Vec<char>, from: usize, to: usize) -> (r: String)
    requires
        from <= to <= chars@.len(),
    ensures
        r@ == chars@.subrange(from as int, to as int),
{
    let mut r = String::new();
    let mut i: usize = from;
    while i < to
        invariant
            from <= i <= to <= chars@.len(),
            r@ == chars@.subrange(from as int, i as int),
        decreases to - i,
    {
        r.push(chars[i]);
        i = i + 1;
    }
    r
}

pub proof fn lemma_before_first_bound(s: Seq<char>, c: char)
    ensures
        before_first(s, c) <= s.len(),
    decreases s.len(),
{
    if s.len() > 0 && s[0] != c {
        lemma_before_first_bound(s.skip(1), c);
    }
}

pub proof fn lemma_before_first(s: Seq<char>, c: char, n: int)
    requires
        0 <= n <= s.len(),
        forall|j: int| 0 <= j < n ==> s[j] != c,
        n < s.len() ==> s[n] == c,
    ensures
        before_first(s, c) == n,
    decreases n,
{
    if n > 0 {
        lemma_before_first(s.skip(1), c, n - 1);
    }
}

proof fn lemma_before_space(s: Seq<char>, n: int)
    requires
        0 <= n <= s.len(),
        forall|j: int| 0 <= j < n ==> !is_space(#[trigger] s[j]),
        n < s.len() ==> is_space(s[n]),
    ensures
        before_space(s) == n,
    decreases n,
{
    if n > 0 {
        lemma_before_space(s.skip(1), n - 1);
    }
}

proof fn lemma_trimmed_start(s: Seq<char>, n: int)
    requires
        0 <= n <= s.len(),
        forall|j: int| 0 <= j < n ==> is_space(#[trigger] s[j]),
        n < s.len() ==> !is_space(s[n]),
    ensures
        trimmed_start(s) == s.skip(n),
    decreases n,
{
    if n > 0 {
        assert forall|j: int| 0 <= j < n - 1 implies is_space(#[trigger] s.skip(1)[j]) by {
            assert(s.skip(1)[j] == s[j + 1]);
        }
        lemma_trimmed_start(s.skip(1), n - 1);
        assert(s.skip(1).skip(n - 1) =~= s.skip(n));
    } else {
        assert(s.skip(0) =~= s);
    }
}

proof fn lemma_trimmed_end(s: Seq<char>, n: int)
    requires
        0 <= n <= s.len(),
        forall|j: int| n <= j < s.len() ==> is_space(#[trigger] s[j]),
        n > 0 ==> !is_space(s[n - 1]),
    ensures
        trimmed_end(s) == s.take(n),
    decreases s.len(),
{
    if n < s.len() {
        lemma_trimmed_end(s.drop_last(), n);
        assert(s.drop_last().take(n) =~= s.take(n));
    } else {
        assert(s.take(n) =~= s);
    }
}

/// Whether the character is white space.
pub fn space(c: char) -> (r: bool)
    ensures
        r == is_space(c),
{
    ('\t' <= c && c <= '\r') || c == ' ' || c == '\u{85}' || c == '\u{a0}' || c == '\u{1680}' || (
    '\u{2000}' <= c && c <= '\u{200a}') || c == '\u{2028}' || c == '\u{2029}' || c == '\u{202f}' || c
        == '\u{205f}' || c == '\u{3000}'
}

/// The text without its leading white space.
pub fn trim_start(s: &str) -> (r: &str)
    ensures
        r@ == trimmed_start(s@),
{
    let chars = chars_of(s);
    let mut n: usize = 0;
    while n < chars.len() && space(chars[n])
        invariant
            n <= chars@.len(),
            forall|j: int| 0 <= j < n ==> is_space(#[trigger] chars@[j]),
        decreases chars@.len() - n,
    {
        n = n + 1;
    }
    proof {
        lemma_trimmed_start(s@, n as int);
        assert(s@.skip(n as int) =~= s@.subrange(n as int, s@.len() as int));
    }
    s.substring_char(n, chars.len())
}

/// The text without white space at either end.
pub fn trim(s: &str) -> (r: &str)
    ensures
        r@ == trimmed(s@),
{
    let chars = chars_of(s);
    let mut n: usize = 0;
    while n < chars.len() && space(chars[n])
        invariant
            n <= chars@.len(),
            forall|j: int| 0 <= j < n ==> is_space(#[trigger] chars@[j]),
        decreases chars@.len() - n,
    {
        n = n + 1;
    }
    let mut m: usize = chars.len();
    while n < m && space(chars[m - 1])
        invariant
            n <= m <= chars@.len(),
            forall|j: int| m <= j < chars@.len() ==> is_space(#[trigger] chars@[j]),
        decreases m,
    {
        m = m - 1;
    }
    proof {
        lemma_trimmed_start(s@, n as int);
        let t = s@.skip(n as int);
        assert forall|j: int| m - n <= j < t.len() implies is_space(#[trigger] t[j]) by {
            assert(t[j] == s@[j + n]);
        }
        lemma_trimmed_end(t, m - n);
        assert(t.take(m - n) =~= s@.subrange(n as int, m as int));
    }
    s.substring_char(n, m)
}

/// Whether `chars` holds the characters of `p` from position `at` on.
fn holds_at(chars: &Vec<char>, p: &Vec<char>, at: usize) -> (r: bool)
    requires
        at + p@.len() <= chars@.len(),
    ensures
        r == (chars@.subrange(at as int, at + p@.len()) == p@),
{
    let end: usize = chars.len();
    let mut i: usize = 0;
    while i < p.len()
        invariant
            i <= p@.len(),
            end == chars@.len(),
            at + p@.len() <= end,
            forall|j: int| 0 <= j < i ==> chars@[at + j] == #[trigger] p@[j],
        decreases p@.len() - i,
    {
        if chars[at + i] != p[i] {
            assert(chars@.subrange(at as int, at + p@.len())[i as int] != p@[i as int]);
            return false;
        }
        i = i + 1;
    }
    assert(chars@.subrange(at as int, at + p@.len()) =~= p@);
    true
}

/// Whether the text begins with `p`.
pub fn starts_with(s: &str, p: &str) -> (r: bool)
    ensures
        r == has_prefix(s@, p@),
{
    let chars = chars_of(s);
    let prefix = chars_of(p);
    assert(p@.len() <= s@.len() ==> s@.take(p@.len() as int) =~= s@.subrange(0, p@.len() as int));
    prefix.len() <= chars.len() && holds_at(&chars, &prefix, 0)
}

/// Whether the text ends with `p`.
pub fn ends_with(s: &str, p: &str) -> (r: bool)
    ensures
        r == has_suffix(s@, p@),
{
    let chars = chars_of(s);
    let suffix = chars_of(p);
    assert(p@.len() <= s@.len() ==> s@.skip(s@.len() - p@.len()) =~= s@.subrange(
        s@.len() - p@.len(),
        s@.len() as int,
    ));
    suffix.len() <= chars.len() && holds_at(&chars, &suffix, chars.len() - suffix.len())
}

/// Whether `p` occurs in the text.
pub fn contains(s: &str, p: &str) -> (r: bool)
    ensures
        r == has_infix(s@, p@),
{
    let chars = chars_of(s);
    let part = chars_of(p);
    if part.len() > chars.len() {
        return false;
    }
    let mut i: usize = 0;
    let last: usize = chars.len() - part.len();
    while i <= last
        invariant
            chars@ == s@,
            part@ == p@,
            last == chars@.len() - part@.len(),
            i <= last + 1,
            forall|j: int| 0 <= j < i ==> #[trigger] s@.subrange(j, j + p@.len()) != p@,
        decreases last + 1 - i,
    {
        if holds_at(&chars, &part, i) {
            assert(s@.subrange(i as int, i + p@.len()) == p@);
            return true;
        }
        if i == last {
            return false;
        }
        i = i + 1;
    }
    false
}

/// Whether the two texts are the same.
pub fn same(s: &str, t: &str) -> (r: bool)
    ensures
        r == (s@ == t@),
{
    let left = chars_of(s);
    let right = chars_of(t);
    assert(s@.len() == t@.len() ==> s@.subrange(0, t@.len() as int) =~= s@);
    left.len() == right.len() && holds_at(&left, &right, 0)
}

/// Whether `c` occurs in the text.
pub fn contains_char(s: &str, c: char) -> (r: bool)
    ensures
        r == s@.contains(c),
{
    let chars = chars_of(s);
    let mut i: usize = 0;
    while i < chars.len()
        invariant
            chars@ == s@,
            i <= chars@.len(),
            forall|j: int| 0 <= j < i ==> chars@[j] != c,
        decreases chars@.len() - i,
    {
        if chars[i] == c {
            assert(s@[i as int] == c);
            return true;
        }
        i = i + 1;
    }
    false
}

/// The text behind the prefix `p`.
pub fn strip_prefix<'a>(s: &'a str, p: &str) -> (r: Option<&'a str>)
    ensures
        has_prefix(s@, p@) ==> r is Some && r->0@ == s@.skip(p@.len() as int),
        !has_prefix(s@, p@) ==> r is None,
{
    if starts_with(s, p) {
        let from: usize = p.unicode_len();
        let to: usize = s.unicode_len();
        assert(s@.skip(from as int) =~= s@.subrange(from as int, to as int));
        Some(s.substring_char(from, to))
    } else {
        None
    }
}

/// The first character of the text.
pub fn first_char(s: &str) -> (r: Option<char>)
    ensures
        r == (if s@.len() > 0 {
            Some(s@[0])
        } else {
            None
        }),
{
    if s.is_empty() {
        None
    } else {
        Some(s.get_char(0))
    }
}

/// The position of the first `c` in `chars` from `from` on: their number where there is none.
fn find_from(chars: &Vec<char>, c: char, from: usize) -> (r: usize)
    requires
        from <= chars@.len(),
    ensures
        from <= r <= chars@.len(),
        r - from == before_first(chars@.skip(from as int), c),
{
    let mut i: usize = from;
    while i < chars.len() && chars[i] != c
        invariant
            from <= i <= chars@.len(),
            forall|j: int| from <= j < i ==> chars@[j] != c,
        decreases chars@.len() - i,
    {
        i = i + 1;
    }
    proof {
        lemma_before_first(chars@.skip(from as int), c, i - from);
    }
    i
}

/// The pieces of the text between the occurrences of `c`.
pub fn split(s: &str, c: char) -> (r: Vec<String>)
    ensures
        views(r@) == split_seq(s@, c),
{
    let chars = chars_of(s);
    let mut r: Vec<String> = Vec::new();
    let mut from: usize = 0;
    proof {
        assert(s@.skip(0) =~= s@);
        assert(views(r@) + split_seq(s@, c) =~= split_seq(s@, c));
    }
    loop
        invariant
            chars@ == s@,
            from <= chars@.len(),
            views(r@) + split_seq(s@.skip(from as int), c) == split_seq(s@, c),
        decreases chars@.len() - from,
    {
        let ghost rest = s@.skip(from as int);
        let ghost done = views(r@);
        let end: usize = find_from(&chars, c, from);
        let piece = string_of(&chars, from, end);
        assert(piece@ =~= rest.take(end - from));
        r.push(piece);
        assert(views(r@) =~= done.push(piece@));
        if end == chars.len() {
            assert(rest.take(end - from) =~= rest);
            assert(views(r@) =~= done + seq![rest]);
            return r;
        }
        proof {
            assert(rest.skip(end - from + 1) =~= s@.skip(end + 1));
            assert(views(r@) + split_seq(s@.skip(end + 1), c) =~= done + (seq![piece@] + split_seq(
                s@.skip(end + 1),
                c,
            )));
        }
        from = end + 1;
    }
}

/// The texts before and after the first `c`.
pub fn split_once<'a>(s: &'a str, c: char) -> (r: Option<(&'a str, &'a str)>)
    ensures
        match split_pair(s@, c) {
            Some((head, tail)) => r matches Some((h, t)) && h@ == head && t@ == tail,
            None => r is None,
        },
{
    let chars = chars_of(s);
    let n: usize = find_from(&chars, c, 0);
    assert(s@.skip(0) =~= s@);
    if n < chars.len() {
        assert(s@.take(n as int) =~= s@.subrange(0, n as int));
        assert(s@.skip(n + 1) =~= s@.subrange(n + 1, s@.len() as int));
        Some((s.substring_char(0, n), s.substring_char(n + 1, chars.len())))
    } else {
        None
    }
}

/// The lines of the text.
pub fn lines(s: &str) -> (r: Vec<String>)
    ensures
        views(r@) == line_seq(s@),
{
    let chars = chars_of(s);
    let mut r: Vec<String> = Vec::new();
    let mut from: usize = 0;
    proof {
        assert(s@.skip(0) =~= s@);
        assert(views(r@) + line_seq(s@) =~= line_seq(s@));
    }
    while from < chars.len()
        invariant
            chars@ == s@,
            from <= chars@.len(),
            views(r@) + line_seq(s@.skip(from as int)) == line_seq(s@),
        decreases chars@.len() - from,
    {
        let ghost rest = s@.skip(from as int);
        let ghost done = views(r@);
        let end: usize = find_from(&chars, '\n', from);
        if end == chars.len() {
            let line = string_of(&chars, from, end);
            assert(line@ =~= rest);
            r.push(line);
            assert(views(r@) =~= done.push(line@));
            assert(views(r@) =~= done + seq![rest]);
            return r;
        }
        let to: usize = if from < end && chars[end - 1] == '\r' {
            end - 1
        } else {
            end
        };
        let line = string_of(&chars, from, to);
        r.push(line);
        proof {
            assert(line@ =~= without_return(rest.take(end - from)));
            assert(views(r@) =~= done.push(line@));
            assert(rest.skip(end - from + 1) =~= s@.skip(end + 1));
            assert(views(r@) + line_seq(s@.skip(end + 1)) =~= done + (seq![line@] + line_seq(
                s@.skip(end + 1),
            )));
        }
        from = end + 1;
    }
    assert(views(r@) + line_seq(s@.skip(from as int)) =~= views(r@));
    r
}

/// The words of the text: its maximal runs without white space.
pub fn words(s: &str) -> (r: Vec<String>)
    ensures
        views(r@) == word_seq(s@),
{
    let chars = chars_of(s);
    let mut r: Vec<String> = Vec::new();
    let mut from: usize = 0;
    proof {
        assert(s@.skip(0) =~= s@);
        assert(views(r@) + word_seq(s@) =~= word_seq(s@));
    }
    loop
        invariant
            chars@ == s@,
            from <= chars@.len(),
            views(r@) + word_seq(s@.skip(from as int)) == word_seq(s@),
        decreases chars@.len() - from,
    {
        let ghost rest = s@.skip(from as int);
        let ghost done = views(r@);
        let mut start: usize = from;
        while start < chars.len() && space(chars[start])
            invariant
                from <= start <= chars@.len(),
                forall|j: int| from <= j < start ==> is_space(#[trigger] chars@[j]),
            decreases chars@.len() - start,
        {
            start = start + 1;
        }
        proof {
            assert forall|j: int| 0 <= j < start - from implies is_space(#[trigger] rest[j]) by {
                assert(rest[j] == chars@[j + from]);
            }
            lemma_trimmed_start(rest, start - from);
            assert(rest.skip(start - from) =~= s@.skip(start as int));
        }
        if start == chars.len() {
            assert(views(r@) + word_seq(rest) =~= views(r@));
            return r;
        }
        let ghost t = s@.skip(start as int);
        let mut end: usize = start;
        while end < chars.len() && !space(chars[end])
            invariant
                start <= end <= chars@.len(),
                forall|j: int| start <= j < end ==> !is_space(#[trigger] chars@[j]),
            decreases chars@.len() - end,
        {
            end = end + 1;
        }
        proof {
            assert forall|j: int| 0 <= j < end - start implies !is_space(#[trigger] t[j]) by {
                assert(t[j] == chars@[j + start]);
            }
            lemma_before_space(t, end - start);
        }
        let word = string_of(&chars, start, end);
        r.push(word);
        proof {
            assert(word@ =~= t.take(end - start));
            assert(views(r@) =~= done.push(word@));
            assert(t.skip(end - start) =~= s@.skip(end as int));
            assert(views(r@) + word_seq(s@.skip(end as int)) =~= done + (seq![word@] + word_seq(
                s@.skip(end as int),
            )));
        }
        from = end;
    }
}

/// The text with its ASCII letters in lower case.
pub fn to_lower(s: &str) -> (r: String)
    ensures
        r@ == lowered(s@),
{
    let chars = chars_of(s);
    let mut r = String::new();
    let mut i: usize = 0;
    while i < chars.len()
        invariant
            i <= chars@.len(),
            r@ =~= lowered(chars@.take(i as int)),
        decreases chars@.len() - i,
    {
        let c = chars[i];
        if 'A' <= c && c <= 'Z' {
            let lower = (c as u8 + 32) as char;
            r.push(lower);
        } else {
            r.push(c);
        }
        i = i + 1;
    }
    assert(chars@.take(i as int) =~= chars@);
    r
}

/// The text with each `from` replaced by `to`.
pub fn replace_char(s: &str, from: char, to: char) -> (r: String)
    ensures
        r@ == replaced(s@, from, to),
{
    let chars = chars_of(s);
    let mut r = String::new();
    let mut i: usize = 0;
    while i < chars.len()
        invariant
            i <= chars@.len(),
            r@ =~= replaced(chars@.take(i as int), from, to),
        decreases chars@.len() - i,
    {
        let c = chars[i];
        if c == from {
            r.push(to);
        } else {
            r.push(c);
        }
        i = i + 1;
    }
    assert(chars@.take(i as int) =~= chars@);
    r
}

/// How often `c` occurs in the text.
pub fn count_char(s: &str, c: char) -> (r: usize)
    ensures
        r == occurrences(s@, c),
{
    let chars = chars_of(s);
    let mut n: usize = 0;
    let mut i: usize = 0;
    while i < chars.len()
        invariant
            i <= chars@.len(),
            n <= i,
            n == occurrences(chars@.take(i as int), c),
        decreases chars@.len() - i,
    {
        assert(chars@.take(i + 1).drop_last() =~= chars@.take(i as int));
        if chars[i] == c {
            n = n + 1;
        }
        i = i + 1;
    }
    assert(chars@.take(i as int) =~= chars@);
    n
}

/// The texts one after the other, with `sep` between them.
pub fn join(parts: &Vec<String>, sep: &str) -> (r: String)
    ensures
        r@ == joined(views(parts@), sep@),
{
    let mut r = String::new();
    let mut i: usize = 0;
    while i < parts.len()
        invariant
            i <= parts@.len(),
            r@ == joined(views(parts@).take(i as int), sep@),
        decreases parts@.len() - i,
    {
        assert(views(parts@).take(i + 1).drop_last() =~= views(parts@).take(i as int));
        if i > 0 {
            r.append(sep);
        }
        r.append(parts[i].as_str());
        assert(r@ =~= joined(views(parts@).take(i + 1), sep@));
        i = i + 1;
    }
    assert(views(parts@).take(i as int) =~= views(parts@));
    r
}

proof fn lemma_joined_cons(first: Seq<char>, rest: Seq<Seq<char>>, sep: Seq<char>)
    requires
        rest.len() > 0,
    ensures
        joined(seq![first] + rest, sep) == first + sep + joined(rest, sep),
    decreases rest.len(),
{
    let all = seq![first] + rest;
    assert(all.drop_last() =~= seq![first] + rest.drop_last());
    assert(all.last() == rest.last());
    if rest.len() == 1 {
        assert(all.drop_last() =~= seq![first]);
        assert(joined(seq![first], sep) == first);
    } else {
        lemma_joined_cons(first, rest.drop_last(), sep);
        assert(first + sep + joined(rest.drop_last(), sep) + sep + rest.last() =~= first + sep + (
        joined(rest.drop_last(), sep) + sep + rest.last()));
    }
}

/// The first word of a text that begins with one.
pub proof fn lemma_first_word(s: Seq<char>, n: int)
    requires
        0 < n <= s.len(),
        forall|j: int| 0 <= j < n ==> !is_space(#[trigger] s[j]),
        n < s.len() ==> is_space(s[n]),
    ensures
        word_seq(s) == seq![s.take(n)] + word_seq(s.skip(n)),
{
    assert(!is_space(s[0]));
    lemma_before_space(s, n);
}

/// The pieces of a text, joined by the character that they were split at, are the text.
pub proof fn law_split_joins_back(s: Seq<char>, c: char)
    ensures
        split_seq(s, c).len() > 0,
        joined(split_seq(s, c), seq![c]) == s,
    decreases s.len(),
{
    let n = before_first(s, c) as int;
    lemma_before_first_bound(s, c);
    if n < s.len() {
        lemma_before_first_stop(s, c);
        law_split_joins_back(s.skip(n + 1), c);
        lemma_joined_cons(s.take(n), split_seq(s.skip(n + 1), c), seq![c]);
        assert(s.take(n) + seq![c] + s.skip(n + 1) =~= s);
    } else {
        let one = seq![s];
        assert(one.len() == 1);
    }
}

proof fn lemma_before_first_stop(s: Seq<char>, c: char)
    ensures
        before_first(s, c) < s.len() ==> s[before_first(s, c) as int] == c,
        forall|j: int| 0 <= j < before_first(s, c) ==> #[trigger] s[j] != c,
    decreases s.len(),
{
    if s.len() > 0 && s[0] != c {
        let t = s.skip(1);
        lemma_before_first_stop(t, c);
        lemma_before_first_bound(t, c);
        assert forall|j: int| 0 <= j < before_first(s, c) implies #[trigger] s[j] != c by {
            if j > 0 {
                assert(s[j] == t[j - 1]);
            }
        }
    }
}

/// Lines, each with a line feed behind it.
pub open spec fn terminated(lines: Seq<Seq<char>>) -> Seq<char>
    decreases lines.len(),
{
    if lines.len() == 0 {
        Seq::empty()
    } else {
        lines[0] + seq!['\n'] + terminated(lines.skip(1))
    }
}

/// Whether a text can stand on a line: it holds no line feed and does not end with a carriage
/// return.
pub open spec fn fits_a_line(line: Seq<char>) -> bool {
    !line.contains('\n') && (line.len() > 0 ==> line.last() != '\r')
}

/// Lines that are written with a line feed behind each are read back.
pub proof fn law_lines_read_back(lines: Seq<Seq<char>>)
    requires
        forall|i: int| 0 <= i < lines.len() ==> fits_a_line(#[trigger] lines[i]),
    ensures
        line_seq(terminated(lines)) == lines,
    decreases lines.len(),
{
    if lines.len() == 0 {
        assert(lines =~= Seq::empty());
    } else {
        let rest = lines.skip(1);
        assert forall|i: int| 0 <= i < rest.len() implies fits_a_line(#[trigger] rest[i]) by {
            assert(rest[i] == lines[i + 1]);
        }
        law_lines_read_back(rest);
        let first = lines[0];
        let s = terminated(lines);
        assert(fits_a_line(first));
        assert forall|j: int| 0 <= j < first.len() implies s[j] != '\n' by {
            assert(s[j] == first[j]);
            assert(first.contains(first[j]));
        }
        assert(s[first.len() as int] == '\n');
        lemma_before_first(s, '\n', first.len() as int);
        assert(s.take(first.len() as int) =~= first);
        assert(s.skip(first.len() as int + 1) =~= terminated(rest));
        assert(lines =~= seq![first] + rest);
    }
}

/// White space: the characters from tab to carriage return, the space, and the others that Unicode
/// counts as white space.
pub proof fn law_white_space(c: char)
    ensures
        is_space(c) <==> {
            let n = c as u32;
            ||| 9 <= n <= 13
            ||| n == 32
            ||| n == 0x85
            ||| n == 0xa0
            ||| n == 0x1680
            ||| 0x2000 <= n <= 0x200a
            ||| n == 0x2028
            ||| n == 0x2029
            ||| n == 0x202f
            ||| n == 0x205f
            ||| n == 0x3000
        },
{
}

/// Whether a text holds nothing but white space.
pub open spec fn all_space(s: Seq<char>) -> bool {
    forall|i: int| 0 <= i < s.len() ==> is_space(#[trigger] s[i])
}

/// Trimming takes the white space around a core away, and nothing else: a text of white space alone
/// becomes empty, and a core that begins and ends with something else stays as it is.
pub proof fn law_trimming(left: Seq<char>, core: Seq<char>, right: Seq<char>)
    requires
        all_space(left),
        all_space(right),
        core.len() > 0 ==> !is_space(core[0]) && !is_space(core.last()),
    ensures
        trimmed(left + core + right) == core,
        core.len() > 0 ==> trimmed_start(left + core + right) == core + right,
        core.len() == 0 ==> trimmed_start(left + core + right).len() == 0,
{
    let s = left + core + right;
    if core.len() > 0 {
        assert forall|j: int| 0 <= j < left.len() implies is_space(#[trigger] s[j]) by {
            assert(s[j] == left[j]);
        }
        assert(s[left.len() as int] == core[0]);
        lemma_trimmed_start(s, left.len() as int);
        let t = s.skip(left.len() as int);
        assert(t =~= core + right);
        assert forall|j: int| core.len() <= j < t.len() implies is_space(#[trigger] t[j]) by {
            assert(t[j] == right[j - core.len()]);
        }
        assert(t[core.len() - 1] == core.last());
        lemma_trimmed_end(t, core.len() as int);
        assert(t.take(core.len() as int) =~= core);
    } else {
        assert forall|j: int| 0 <= j < s.len() implies is_space(#[trigger] s[j]) by {
            if j < left.len() {
                assert(s[j] == left[j]);
            } else {
                assert(s[j] == right[j - left.len()]);
            }
        }
        lemma_trimmed_start(s, s.len() as int);
        assert(s.skip(s.len() as int) =~= Seq::empty());
        assert(trimmed_end(Seq::<char>::empty()) =~= Seq::empty());
        assert(core =~= Seq::empty());
    }
}

/// A text begins with what is put in front of it, ends with what is put behind it, and holds what is
/// put between; and what it begins with, ends with or holds can be taken out of it.
pub proof fn law_parts_of_texts(s: Seq<char>, p: Seq<char>, left: Seq<char>, right: Seq<char>)
    ensures
        has_prefix(p + right, p),
        has_suffix(left + p, p),
        has_infix(left + p + right, p),
        has_prefix(s, p) ==> s == p + s.skip(p.len() as int),
        has_suffix(s, p) ==> s == s.take(s.len() - p.len()) + p,
        has_infix(s, p) ==> exists|i: int|
            0 <= i <= s.len() - p.len() && s == #[trigger] s.take(i) + p + s.skip(i + p.len()),
{
    assert((p + right).take(p.len() as int) =~= p);
    assert((left + p).skip(left.len() as int) =~= p);
    let whole = left + p + right;
    let n = left.len() as int;
    assert(whole.subrange(n, n + p.len()) =~= p);
    if has_prefix(s, p) {
        assert(s =~= s.take(p.len() as int) + s.skip(p.len() as int));
    }
    if has_suffix(s, p) {
        assert(s =~= s.take(s.len() - p.len()) + s.skip(s.len() - p.len()));
    }
    if has_infix(s, p) {
        let i = choose|i: int|
            0 <= i <= s.len() - p.len() && #[trigger] s.subrange(i, i + p.len()) == p;
        assert(s =~= s.take(i) + s.subrange(i, i + p.len()) + s.skip(i + p.len()));
    }
}

/// A line ends at the first line feed; a carriage return before the line feed belongs to the end of
/// the line. What stands behind the last line feed is a line too, where it is not empty.
pub proof fn law_first_line(line: Seq<char>, rest: Seq<char>)
    requires
        !line.contains('\n'),
    ensures
        line.len() > 0 ==> line_seq(line) == seq![line],
        line.len() == 0 ==> line_seq(line).len() == 0,
        line.len() == 0 || line.last() != '\r' ==> line_seq(line + seq!['\n'] + rest) == seq![line]
            + line_seq(rest),
        line_seq(line + seq!['\r', '\n'] + rest) == seq![line] + line_seq(rest),
{
    assert forall|j: int| 0 <= j < line.len() implies #[trigger] line[j] != '\n' by {
        assert(line.contains(line[j]));
    }
    lemma_before_first_bound(line, '\n');
    lemma_before_first_stop(line, '\n');
    let s = line + seq!['\n'] + rest;
    let n = line.len() as int;
    assert(s[n] == '\n');
    assert forall|j: int| 0 <= j < n implies s[j] != '\n' by {
        assert(s[j] == line[j]);
    }
    lemma_before_first(s, '\n', n);
    assert(s.take(n) =~= line);
    assert(s.skip(n + 1) =~= rest);
    let w = line + seq!['\r', '\n'] + rest;
    assert(w[n + 1] == '\n');
    assert forall|j: int| 0 <= j < n + 1 implies w[j] != '\n' by {
        if j < n {
            assert(w[j] == line[j]);
        } else {
            assert(w[j] == '\r');
        }
    }
    lemma_before_first(w, '\n', n + 1);
    assert(w.take(n + 1) =~= line.push('\r'));
    assert(line.push('\r').drop_last() =~= line);
    assert(w.skip(n + 2) =~= rest);
}

/// Words stand between white space: the first one is what stands before the first white space behind
/// it, and white space alone holds no word.
pub proof fn law_first_of_words(gap: Seq<char>, word: Seq<char>, rest: Seq<char>)
    requires
        all_space(gap),
        forall|i: int| 0 <= i < word.len() ==> !is_space(#[trigger] word[i]),
        rest.len() > 0 ==> is_space(rest[0]),
    ensures
        word.len() > 0 ==> word_seq(gap + word + rest) == seq![word] + word_seq(rest),
        word_seq(gap).len() == 0,
{
    lemma_trimmed_start(gap, gap.len() as int);
    assert(gap.skip(gap.len() as int) =~= Seq::empty());
    if word.len() > 0 {
        let s = gap + word + rest;
        let n = gap.len() as int;
        assert forall|j: int| 0 <= j < n implies is_space(#[trigger] s[j]) by {
            assert(s[j] == gap[j]);
        }
        assert(s[n] == word[0]);
        lemma_trimmed_start(s, n);
        let t = s.skip(n);
        assert(t =~= word + rest);
        let m = word.len() as int;
        assert forall|j: int| 0 <= j < m implies !is_space(#[trigger] t[j]) by {
            assert(t[j] == word[j]);
        }
        lemma_before_space(t, m);
        assert(t.take(m) =~= word);
        assert(t.skip(m) =~= rest);
    }
}

/// A text is split at each occurrence of a character, and into a pair at the first one.
pub proof fn law_splitting(head: Seq<char>, c: char, tail: Seq<char>)
    requires
        !head.contains(c),
    ensures
        split_seq(head + seq![c] + tail, c) == seq![head] + split_seq(tail, c),
        split_seq(head, c) == seq![head],
        split_pair(head + seq![c] + tail, c) == Some((head, tail)),
        split_pair(head, c) is None,
{
    assert forall|j: int| 0 <= j < head.len() implies #[trigger] head[j] != c by {
        assert(head.contains(head[j]));
    }
    lemma_before_first_bound(head, c);
    lemma_before_first_stop(head, c);
    let s = head + seq![c] + tail;
    let n = head.len() as int;
    assert(s[n] == c);
    assert forall|j: int| 0 <= j < n implies s[j] != c by {
        assert(s[j] == head[j]);
    }
    lemma_before_first(s, c, n);
    assert(s.take(n) =~= head);
    assert(s.skip(n + 1) =~= tail);
}

/// Joining puts the separator between neighbours alone.
pub proof fn law_joining(first: Seq<char>, rest: Seq<Seq<char>>, sep: Seq<char>)
    ensures
        joined(seq![first], sep) == first,
        joined(Seq::<Seq<char>>::empty(), sep).len() == 0,
        rest.len() > 0 ==> joined(seq![first] + rest, sep) == first + sep + joined(rest, sep),
{
    if rest.len() > 0 {
        lemma_joined_cons(first, rest, sep);
    }
}

/// Occurrences add up, and each character counts for itself alone.
pub proof fn law_occurrences_add_up(a: Seq<char>, b: Seq<char>, c: char, d: char)
    ensures
        occurrences(a + b, c) == occurrences(a, c) + occurrences(b, c),
        occurrences(seq![c], c) == 1,
        d != c ==> occurrences(seq![d], c) == 0,
        occurrences(Seq::<char>::empty(), c) == 0,
    decreases b.len(),
{
    if b.len() == 0 {
        assert(a + b =~= a);
    } else {
        assert((a + b).drop_last() =~= a + b.drop_last());
        law_occurrences_add_up(a, b.drop_last(), c, d);
    }
    reveal_with_fuel(occurrences, 2);
    assert(seq![c].drop_last() =~= Seq::empty());
    assert(seq![d].drop_last() =~= Seq::empty());
}

/// Lower case letters stand for the twenty-six upper case ones of ASCII, and all else stays; one
/// character can be put in the place of another one.
pub proof fn law_characters_are_mapped(s: Seq<char>, from: char, to: char, i: int)
    requires
        0 <= i < s.len(),
    ensures
        lowered(s).len() == s.len(),
        65 <= s[i] as u32 <= 90 ==> lowered(s)[i] as u32 == s[i] as u32 + 32,
        !(65 <= s[i] as u32 <= 90) ==> lowered(s)[i] == s[i],
        replaced(s, from, to).len() == s.len(),
        s[i] == from ==> replaced(s, from, to)[i] == to,
        s[i] != from ==> replaced(s, from, to)[i] == s[i],
{
}

} // verus!
