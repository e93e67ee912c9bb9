//! Numbers written as digits, and read back.

use vstd::prelude::*;

use crate::text;

verus! {

/// The digit that stands for `d`: `0` to `9`, then `a` to `f`.
pub open spec fn digit(d: nat) -> char {
    if d < 10 {
        (48 + d) as char
    } else {
        (87 + d) as char
    }
}

/// The digits of `n` to the given base, without leading zeros.
pub open spec fn numeral(n: nat, base: nat) -> Seq<char>
    decreases n,
{
    if base < 2 || n < base {
        seq![digit(n)]
    } else {
        proof {
            assert(n / base < n) by (nonlinear_arith)
                requires
                    2 <= base <= n,
            ;
        }
        numeral(n / base, base).push(digit(n % base))
    }
}

/// The decimal digits of `n`.
pub open spec fn decimal(n: nat) -> Seq<char> {
    numeral(n, 10)
}

/// Whether the character is one of `0` to `9`.
pub open spec fn is_digit(c: char) -> bool {
    '0' <= c <= '9'
}

/// The number that one digit stands for.
pub open spec fn digit_value(c: char) -> nat {
    if is_digit(c) {
        (c as int - 48) as nat
    } else {
        0
    }
}

/// The number that decimal digits write.
pub open spec fn value(s: Seq<char>) -> nat
    decreases s.len(),
{
    if s.len() == 0 {
        0
    } else {
        value(s.drop_last()) * 10 + digit_value(s.last())
    }
}

/// The digits of a number that may have a plus sign in front.
pub open spec fn unsigned_digits(s: Seq<char>) -> Seq<char> {
    if s.len() > 0 && s[0] == '+' {
        s.skip(1)
    } else {
        s
    }
}

/// The number that a text writes in decimal digits, where it is nothing but such a number and the
/// number fits in `usize`.
pub open spec fn parsed(s: Seq<char>) -> Option<usize> {
    let d = unsigned_digits(s);
    if d.len() > 0 && (forall|i: int| 0 <= i < d.len() ==> is_digit(#[trigger] d[i])) && value(d)
        <= usize::MAX {
        Some(value(d) as usize)
    } else {
        None
    }
}

proof fn lemma_value_step(s: Seq<char>, i: int)
    requires
        0 <= i < s.len(),
    ensures
        value(s.take(i + 1)) == value(s.take(i)) * 10 + digit_value(s[i]),
        value(s.take(i)) <= value(s.take(i + 1)),
{
    assert(s.take(i + 1).drop_last() =~= s.take(i));
}

proof fn lemma_value_grows(s: Seq<char>, i: int)
    requires
        0 <= i <= s.len(),
    ensures
        value(s.take(i)) <= value(s),
    decreases s.len() - i,
{
    if i < s.len() {
        lemma_value_step(s, i);
        lemma_value_grows(s, i + 1);
    } else {
        assert(s.take(i) =~= s);
    }
}

fn digit_char(d: u128) -> (r: char)
    requires
        d < 16,
    ensures
        r == digit(d as nat),
{
    if d < 10 {
        (48 + d as u8) as char
    } else {
        (87 + d as u8) as char
    }
}

/// The digits of `n` to a base of at most 16.
pub fn write(n: u128, base: u128) -> (r: String)
    requires
        2 <= base <= 16,
    ensures
        r@ == numeral(n as nat, base as nat),
    decreases n,
{
    if n < base {
        let mut r = String::new();
        r.push(digit_char(n));
        assert(r@ =~= seq![digit(n as nat)]);
        r
    } else {
        assert(n / base < n) by (nonlinear_arith)
            requires
                2 <= base <= n,
        ;
        let mut r = write(n / base, base);
        assert(n % base < base) by (nonlinear_arith)
            requires
                2 <= base,
        ;
        r.push(digit_char(n % base));
        r
    }
}

/// The number that the text writes in decimal digits.
pub fn parse(s: &str) -> (r: Option<usize>)
    ensures
        r == parsed(s@),
{
    let chars = text::chars_of(s);
    let start: usize = if chars.len() > 0 && chars[0] == '+' {
        1
    } else {
        0
    };
    let ghost d = unsigned_digits(s@);
    assert(d =~= s@.skip(start as int));
    if start == chars.len() {
        return None;
    }
    let mut checked: usize = start;
    while checked < chars.len()
        invariant
            start <= checked <= chars@.len(),
            chars@ == s@,
            d == s@.skip(start as int),
            d == unsigned_digits(s@),
            forall|j: int| 0 <= j < checked - start ==> is_digit(#[trigger] d[j]),
        decreases chars@.len() - checked,
    {
        let c = chars[checked];
        if !('0' <= c && c <= '9') {
            assert(!is_digit(d[checked - start]));
            return None;
        }
        checked = checked + 1;
    }
    let mut n: usize = 0;
    let mut i: usize = start;
    while i < chars.len()
        invariant
            start <= i <= chars@.len(),
            chars@ == s@,
            d == s@.skip(start as int),
            d == unsigned_digits(s@),
            forall|j: int| 0 <= j < d.len() ==> is_digit(#[trigger] d[j]),
            n == value(d.take(i - start)),
        decreases chars@.len() - i,
    {
        let c = chars[i];
        assert(c == d[i - start]);
        let k: usize = c as usize - 48;
        proof {
            lemma_value_step(d, i - start);
            lemma_value_grows(d, i - start + 1);
        }
        if n > (usize::MAX - k) / 10 {
            assert(n * 10 + k > usize::MAX);
            return None;
        }
        n = n * 10 + k;
        i = i + 1;
    }
    assert(d.take(i - start) =~= d);
    Some(n)
}

proof fn lemma_numeral_digits(n: nat)
    ensures
        decimal(n).len() > 0,
        forall|i: int| 0 <= i < decimal(n).len() ==> is_digit(#[trigger] decimal(n)[i]),
        value(decimal(n)) == n,
    decreases n,
{
    if n < 10 {
        let d = seq![digit(n)];
        assert(d.drop_last() =~= Seq::empty());
        assert(value(Seq::<char>::empty()) == 0);
    } else {
        lemma_numeral_digits(n / 10);
        let head = decimal(n / 10);
        let whole = head.push(digit(n % 10));
        assert(whole.drop_last() =~= head);
        assert forall|i: int| 0 <= i < whole.len() implies is_digit(#[trigger] whole[i]) by {
            if i < head.len() {
                assert(whole[i] == head[i]);
            }
        }
    }
}

/// What the digits of a number write is the number.
pub proof fn law_written_numbers_read_back(n: usize)
    ensures
        parsed(decimal(n as nat)) == Some(n),
{
    let d = decimal(n as nat);
    lemma_numeral_digits(n as nat);
    assert(is_digit(d[0]));
    assert(unsigned_digits(d) == d);
}

/// A number is written with the ten digits alone, and with at least one; its last digit is what is
/// left of it by ten, and the others write the rest.
pub proof fn law_decimals_are_digits(n: nat)
    ensures
        decimal(n).len() > 0,
        forall|i: int| 0 <= i < decimal(n).len() ==> 48 <= (#[trigger] decimal(n)[i]) as int <= 57,
        n < 10 ==> decimal(n).len() == 1 && decimal(n)[0] as int == 48 + n,
        n >= 10 ==> decimal(n) == decimal(n / 10) + decimal(n % 10),
{
    lemma_numeral_digits(n);
    lemma_numeral_digits(n % 10);
    let d = decimal(n);
    assert forall|i: int| 0 <= i < d.len() implies 48 <= (#[trigger] d[i]) as int <= 57 by {
        assert(is_digit(d[i]));
    }
    if n >= 10 {
        assert(decimal(n % 10) =~= seq![digit(n % 10)]);
        assert(d =~= decimal(n / 10) + decimal(n % 10));
    }
}

/// What can be read as a number: digits alone, with at most a plus sign before them, and not more than
/// the greatest number.
pub proof fn law_what_can_be_read(s: Seq<char>)
    ensures
        parsed(s) is Some ==> {
            let d = if s.len() > 0 && s[0] == '+' {
                s.skip(1)
            } else {
                s
            };
            &&& d.len() > 0
            &&& forall|i: int| 0 <= i < d.len() ==> 48 <= (#[trigger] d[i]) as int <= 57
        },
        s.len() == 0 ==> parsed(s) is None,
{
}

/// A plus sign and zeros before a number change nothing of it.
pub proof fn law_signs_and_zeros_do_not_count(n: usize)
    ensures
        parsed("+"@ + decimal(n as nat)) == Some(n),
        parsed("0"@ + decimal(n as nat)) == Some(n),
{
    reveal_strlit("+");
    reveal_strlit("0");
    let d = decimal(n as nat);
    lemma_numeral_digits(n as nat);
    assert(("+"@ + d)[0] == '+');
    assert(("+"@ + d).skip(1) =~= d);
    let z = "0"@ + d;
    assert(z[0] == '0');
    assert forall|i: int| 0 <= i < z.len() implies is_digit(#[trigger] z[i]) by {
        if i > 0 {
            assert(z[i] == d[i - 1]);
        }
    }
    lemma_zero_in_front(d);
}

proof fn lemma_zero_in_front(d: Seq<char>)
    ensures
        value("0"@ + d) == value(d),
    decreases d.len(),
{
    reveal_strlit("0");
    let z = "0"@ + d;
    if d.len() == 0 {
        assert(z.drop_last() =~= Seq::empty());
        assert(value(Seq::<char>::empty()) == 0);
        assert(value(z) == value(z.drop_last()) * 10 + digit_value(z.last()));
        assert(z.last() == '0');
    } else {
        assert(z.drop_last() =~= "0"@ + d.drop_last());
        assert(z.last() == d.last());
        lemma_zero_in_front(d.drop_last());
    }
}

/// In any base a number below it is one digit, of the ten digits and then of the letters from `a` on,
/// and another number is the digits of its quotient and then that of its remainder.
pub proof fn law_numerals(n: nat, base: nat)
    requires
        2 <= base <= 16,
    ensures
        n < base ==> numeral(n, base).len() == 1 && numeral(n, base)[0] as int == if n < 10 {
            48 + n
        } else {
            87 + n
        },
        n >= base ==> numeral(n, base) == numeral(n / base, base) + numeral(n % base, base),
{
    if n >= base {
        vstd::arithmetic::div_mod::lemma_mod_bound(n as int, base as int);
        assert(numeral(n % base, base) =~= seq![digit(n % base)]);
        assert(numeral(n, base) =~= numeral(n / base, base) + numeral(n % base, base));
    }
}

} // verus!
