//! The order of texts by their characters, and lists of texts brought into that order.

use vstd::prelude::*;

use crate::text;

verus! {

/// Whether `a` does not stand behind `b` in the order by characters.
pub open spec fn not_after(a: Seq<char>, b: Seq<char>) -> bool
    decreases a.len(),
{
    if a.len() == 0 {
        true
    } else if b.len() == 0 {
        false
    } else if a[0] == b[0] {
        not_after(a.skip(1), b.skip(1))
    } else {
        a[0] < b[0]
    }
}

/// The order by characters as a relation.
pub open spec fn text_order() -> spec_fn(Seq<char>, Seq<char>) -> bool {
    |a: Seq<char>, b: Seq<char>| not_after(a, b)
}

/// The texts in the order by characters.
pub open spec fn in_order(texts: Seq<Seq<char>>) -> Seq<Seq<char>> {
    texts.sort_by(text_order())
}

proof fn lemma_reflexive(a: Seq<char>)
    ensures
        not_after(a, a),
    decreases a.len(),
{
    if a.len() > 0 {
        lemma_reflexive(a.skip(1));
    }
}

proof fn lemma_antisymmetric(a: Seq<char>, b: Seq<char>)
    requires
        not_after(a, b),
        not_after(b, a),
    ensures
        a == b,
    decreases a.len(),
{
    if a.len() > 0 && b.len() > 0 {
        lemma_antisymmetric(a.skip(1), b.skip(1));
        assert(a =~= seq![a[0]] + a.skip(1));
        assert(b =~= seq![b[0]] + b.skip(1));
    } else {
        assert(a =~= b);
    }
}

proof fn lemma_transitive(a: Seq<char>, b: Seq<char>, c: Seq<char>)
    requires
        not_after(a, b),
        not_after(b, c),
    ensures
        not_after(a, c),
    decreases a.len(),
{
    if a.len() > 0 && b.len() > 0 && c.len() > 0 && a[0] == b[0] && b[0] == c[0] {
        lemma_transitive(a.skip(1), b.skip(1), c.skip(1));
    }
}

proof fn lemma_total(a: Seq<char>, b: Seq<char>)
    ensures
        not_after(a, b) || not_after(b, a),
    decreases a.len(),
{
    if a.len() > 0 && b.len() > 0 && a[0] == b[0] {
        lemma_total(a.skip(1), b.skip(1));
    }
}

/// The order by characters is a total one.
pub proof fn law_order_is_total()
    ensures
        vstd::relations::total_ordering(text_order()),
{
    let leq = text_order();
    assert forall|x: Seq<char>| #[trigger] leq(x, x) by {
        lemma_reflexive(x);
    }
    assert forall|x: Seq<char>, y: Seq<char>| #[trigger] leq(x, y) && #[trigger] leq(y, x) implies x
        == y by {
        lemma_antisymmetric(x, y);
    }
    assert forall|x: Seq<char>, y: Seq<char>, z: Seq<char>| #[trigger]
        leq(x, y) && #[trigger] leq(y, z) implies leq(x, z) by {
        lemma_transitive(x, y, z);
    }
    assert forall|x: Seq<char>, y: Seq<char>| #[trigger] leq(x, y) || #[trigger] leq(y, x) by {
        lemma_total(x, y);
    }
}

/// Two lists of texts are the same in order exactly where they hold the same texts equally often.
pub proof fn law_order_forgets_positions(a: Seq<Seq<char>>, b: Seq<Seq<char>>)
    ensures
        (in_order(a) == in_order(b)) == (a.to_multiset() == b.to_multiset()),
{
    law_order_is_total();
    a.lemma_sort_by_ensures(text_order());
    b.lemma_sort_by_ensures(text_order());
    if a.to_multiset() == b.to_multiset() {
        vstd::seq_lib::lemma_sorted_unique(in_order(a), in_order(b), text_order());
    }
}

/// Whether the first text does not stand behind the second.
fn precedes(s: &str, t: &str) -> (r: bool)
    ensures
        r == not_after(s@, t@),
{
    let a = text::chars_of(s);
    let b = text::chars_of(t);
    let mut i: usize = 0;
    assert(a@.skip(0) =~= a@);
    assert(b@.skip(0) =~= b@);
    loop
        invariant
            i <= a@.len(),
            i <= b@.len(),
            a@ == s@,
            b@ == t@,
            not_after(a@.skip(i as int), b@.skip(i as int)) == not_after(s@, t@),
        decreases a@.len() - i,
    {
        if i == a.len() {
            return true;
        }
        if i == b.len() {
            return false;
        }
        if a[i] != b[i] {
            return a[i] < b[i];
        }
        proof {
            assert(a@.skip(i as int).skip(1) =~= a@.skip(i + 1));
            assert(b@.skip(i as int).skip(1) =~= b@.skip(i + 1));
        }
        i = i + 1;
    }
}

/// Whether the two lists hold the same texts in the same order.
pub fn same_texts(a: &Vec<String>, b: &Vec<String>) -> (r: bool)
    ensures
        r == (text::views(a@) == text::views(b@)),
{
    if a.len() != b.len() {
        assert(text::views(a@).len() != text::views(b@).len());
        return false;
    }
    let mut i: usize = 0;
    while i < a.len()
        invariant
            a@.len() == b@.len(),
            i <= a@.len(),
            forall|j: int| 0 <= j < i ==> #[trigger] text::views(a@)[j] == text::views(b@)[j],
        decreases a@.len() - i,
    {
        if !text::same(a[i].as_str(), b[i].as_str()) {
            assert(text::views(a@)[i as int] != text::views(b@)[i as int]);
            return false;
        }
        i = i + 1;
    }
    assert(text::views(a@) =~= text::views(b@));
    true
}

proof fn lemma_sorted_push(s: Seq<Seq<char>>, x: Seq<char>)
    requires
        vstd::relations::sorted_by(s, text_order()),
        forall|k: int| 0 <= k < s.len() ==> not_after(#[trigger] s[k], x),
    ensures
        vstd::relations::sorted_by(s.push(x), text_order()),
{
    let leq = text_order();
    assert forall|i: int, j: int| 0 <= i < j < s.push(x).len() implies #[trigger] leq(
        s.push(x)[i],
        s.push(x)[j],
    ) by {
        if j < s.len() {
            assert(leq(s[i], s[j]));
        } else {
            assert(not_after(s[i], x));
        }
    }
}

fn merge(a: &Vec<String>, b: &Vec<String>) -> (r: Vec<String>)
    requires
        vstd::relations::sorted_by(text::views(a@), text_order()),
        vstd::relations::sorted_by(text::views(b@), text_order()),
    ensures
        vstd::relations::sorted_by(text::views(r@), text_order()),
        text::views(r@).to_multiset() == text::views(a@).to_multiset().add(
            text::views(b@).to_multiset(),
        ),
{
    let ghost left = text::views(a@);
    let ghost right = text::views(b@);
    let mut out: Vec<String> = Vec::new();
    let mut i: usize = 0;
    let mut j: usize = 0;
    proof {
        assert(left.take(0) =~= Seq::empty());
        assert(right.take(0) =~= Seq::empty());
        assert(text::views(out@) =~= Seq::empty());
        broadcast use vstd::seq_lib::group_to_multiset_ensures;

        assert(Seq::<Seq<char>>::empty().to_multiset() =~= Seq::<Seq<char>>::empty().to_multiset().add(
            Seq::<Seq<char>>::empty().to_multiset(),
        ));
    }
    while i < a.len() || j < b.len()
        invariant
            i <= a@.len(),
            j <= b@.len(),
            left == text::views(a@),
            right == text::views(b@),
            vstd::relations::sorted_by(left, text_order()),
            vstd::relations::sorted_by(right, text_order()),
            vstd::relations::sorted_by(text::views(out@), text_order()),
            text::views(out@).to_multiset() == left.take(i as int).to_multiset().add(
                right.take(j as int).to_multiset(),
            ),
            forall|k: int, m: int|
                0 <= k < out@.len() && i <= m < left.len() ==> not_after(
                    #[trigger] text::views(out@)[k],
                    #[trigger] left[m],
                ),
            forall|k: int, m: int|
                0 <= k < out@.len() && j <= m < right.len() ==> not_after(
                    #[trigger] text::views(out@)[k],
                    #[trigger] right[m],
                ),
        decreases a@.len() - i + b@.len() - j,
    {
        let ghost before = text::views(out@);
        let from_left: bool = if i == a.len() {
            false
        } else if j == b.len() {
            true
        } else {
            precedes(a[i].as_str(), b[j].as_str())
        };
        let ghost leq = text_order();
        proof {
            law_order_is_total();
        }
        if from_left {
            out.push(a[i].clone());
            proof {
                let x = left[i as int];
                assert(text::views(out@) =~= before.push(x));
                lemma_sorted_push(before, x);
                assert(left.take(i + 1) =~= left.take(i as int).push(x));
                broadcast use vstd::seq_lib::to_multiset_build;

                assert(text::views(out@).to_multiset() =~= left.take(i + 1).to_multiset().add(
                    right.take(j as int).to_multiset(),
                ));
                assert forall|k: int, m: int|
                    0 <= k < out@.len() && i + 1 <= m < left.len() implies not_after(
                    #[trigger] text::views(out@)[k],
                    #[trigger] left[m],
                ) by {
                    if k == before.len() {
                        assert(leq(left[i as int], left[m]));
                    } else {
                        assert(text::views(out@)[k] == before[k]);
                    }
                }
                assert forall|k: int, m: int|
                    0 <= k < out@.len() && j <= m < right.len() implies not_after(
                    #[trigger] text::views(out@)[k],
                    #[trigger] right[m],
                ) by {
                    if k == before.len() {
                        assert(leq(x, right[j as int]));
                        if m > j {
                            assert(leq(right[j as int], right[m]));
                            assert(leq(x, right[m]));
                        }
                    } else {
                        assert(text::views(out@)[k] == before[k]);
                    }
                }
            }
            i = i + 1;
        } else {
            out.push(b[j].clone());
            proof {
                let x = right[j as int];
                assert(text::views(out@) =~= before.push(x));
                lemma_sorted_push(before, x);
                assert(right.take(j + 1) =~= right.take(j as int).push(x));
                broadcast use vstd::seq_lib::to_multiset_build;

                assert(text::views(out@).to_multiset() =~= left.take(i as int).to_multiset().add(
                    right.take(j + 1).to_multiset(),
                ));
                assert forall|k: int, m: int|
                    0 <= k < out@.len() && i <= m < left.len() implies not_after(
                    #[trigger] text::views(out@)[k],
                    #[trigger] left[m],
                ) by {
                    if k == before.len() {
                        lemma_total(left[i as int], x);
                        assert(leq(x, left[i as int]));
                        if m > i {
                            assert(leq(left[i as int], left[m]));
                            assert(leq(x, left[m]));
                        }
                    } else {
                        assert(text::views(out@)[k] == before[k]);
                    }
                }
                assert forall|k: int, m: int|
                    0 <= k < out@.len() && j + 1 <= m < right.len() implies not_after(
                    #[trigger] text::views(out@)[k],
                    #[trigger] right[m],
                ) by {
                    if k == before.len() {
                        assert(leq(right[j as int], right[m]));
                    } else {
                        assert(text::views(out@)[k] == before[k]);
                    }
                }
            }
            j = j + 1;
        }
    }
    proof {
        assert(left.take(i as int) =~= left);
        assert(right.take(j as int) =~= right);
    }
    out
}

/// The texts in the order by characters.
pub fn sort_texts(texts: Vec<String>) -> (r: Vec<String>)
    ensures
        text::views(r@) == in_order(text::views(texts@)),
    decreases texts@.len(),
{
    let ghost all = text::views(texts@);
    proof {
        law_order_is_total();
        all.lemma_sort_by_ensures(text_order());
    }
    if texts.len() <= 1 {
        proof {
            vstd::seq_lib::lemma_sorted_unique(all, in_order(all), text_order());
        }
        return texts;
    }
    let mut head = texts;
    let half: usize = head.len() / 2;
    let tail = head.split_off(half);
    let ghost left = text::views(head@);
    let ghost right = text::views(tail@);
    proof {
        assert(all =~= left + right);
        vstd::seq_lib::lemma_multiset_commutative(left, right);
        left.lemma_sort_by_ensures(text_order());
        right.lemma_sort_by_ensures(text_order());
    }
    let a = sort_texts(head);
    let b = sort_texts(tail);
    let r = merge(&a, &b);
    proof {
        vstd::seq_lib::lemma_sorted_unique(text::views(r@), in_order(all), text_order());
    }
    r
}

} // verus!
