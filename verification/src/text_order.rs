//! The order of texts, character by character, and sorting by it.

use vstd::prelude::*;

use crate::text;

verus! {

/// Whether a text does not come after another, from position `i` on, up to
/// which they agree.
pub open spec fn not_after_from(a: Seq<char>, b: Seq<char>, i: int) -> bool
    decreases a.len() - i,
{
    if i < 0 || i >= a.len() {
        true
    } else if i >= b.len() {
        false
    } else if a[i] != b[i] {
        a[i] < b[i]
    } else {
        not_after_from(a, b, i + 1)
    }
}

/// Whether a text does not come after another.
pub open spec fn not_after(a: Seq<char>, b: Seq<char>) -> bool {
    not_after_from(a, b, 0)
}

/// Whether a text comes before another.
pub open spec fn before(a: Seq<char>, b: Seq<char>) -> bool {
    not_after(a, b) && a != b
}

/// Whether texts are in order.
pub open spec fn in_order(items: Seq<Seq<char>>) -> bool {
    forall|i: int, j: int|
        0 <= i < j < items.len() ==> not_after(#[trigger] items[i], #[trigger] items[j])
}

/// Whether texts are in order, each once.
pub open spec fn strictly_in_order(items: Seq<Seq<char>>) -> bool {
    forall|i: int, j: int|
        0 <= i < j < items.len() ==> before(#[trigger] items[i], #[trigger] items[j])
}

proof fn lemma_total_from(a: Seq<char>, b: Seq<char>, i: int)
    requires
        0 <= i,
    ensures
        not_after_from(a, b, i) || not_after_from(b, a, i),
    decreases a.len() - i,
{
    if i < a.len() && i < b.len() && a[i] == b[i] {
        lemma_total_from(a, b, i + 1);
    }
}

/// Of two texts, one does not come after the other.
pub proof fn lemma_total(a: Seq<char>, b: Seq<char>)
    ensures
        not_after(a, b) || not_after(b, a),
{
    lemma_total_from(a, b, 0);
}

proof fn lemma_antisymmetric_from(a: Seq<char>, b: Seq<char>, i: int)
    requires
        0 <= i,
        i <= a.len(),
        i <= b.len(),
        not_after_from(a, b, i),
        not_after_from(b, a, i),
    ensures
        a.skip(i) == b.skip(i),
    decreases a.len() - i,
{
    if i < a.len() {
        lemma_antisymmetric_from(a, b, i + 1);
        assert(a.skip(i) =~= seq![a[i]] + a.skip(i + 1));
        assert(b.skip(i) =~= seq![b[i]] + b.skip(i + 1));
    } else {
        assert(a.skip(i) =~= b.skip(i));
    }
}

/// Two texts of which neither comes after the other are equal.
pub proof fn lemma_antisymmetric(a: Seq<char>, b: Seq<char>)
    requires
        not_after(a, b),
        not_after(b, a),
    ensures
        a == b,
{
    lemma_antisymmetric_from(a, b, 0);
    assert(a.skip(0) =~= a);
    assert(b.skip(0) =~= b);
}

proof fn lemma_transitive_from(a: Seq<char>, b: Seq<char>, c: Seq<char>, i: int)
    requires
        0 <= i,
        not_after_from(a, b, i),
        not_after_from(b, c, i),
    ensures
        not_after_from(a, c, i),
    decreases a.len() - i,
{
    if i < a.len() && i < b.len() && i < c.len() && a[i] == b[i] && b[i] == c[i] {
        lemma_transitive_from(a, b, c, i + 1);
    }
}

/// The order is transitive.
pub proof fn lemma_transitive(a: Seq<char>, b: Seq<char>, c: Seq<char>)
    requires
        not_after(a, b),
        not_after(b, c),
    ensures
        not_after(a, c),
{
    lemma_transitive_from(a, b, c, 0);
}

/// A text that comes before one that does not come after a third comes before
/// the third.
pub proof fn lemma_before_transitive(a: Seq<char>, b: Seq<char>, c: Seq<char>)
    requires
        before(a, b),
        before(b, c),
    ensures
        before(a, c),
{
    lemma_transitive(a, b, c);
    if a == c {
        lemma_antisymmetric(a, b);
    }
}

/// Whether a text does not come after another.
pub fn text_not_after(a: &str, b: &str) -> (r: bool)
    ensures
        r == not_after(a@, b@),
{
    let left = text::chars_of(a);
    let right = text::chars_of(b);
    let mut i: usize = 0;
    while i < left.len()
        invariant
            i <= left@.len(),
            left@ == a@,
            right@ == b@,
            not_after(a@, b@) == not_after_from(a@, b@, i as int),
        decreases left@.len() - i,
    {
        if i >= right.len() {
            return false;
        }
        if left[i] != right[i] {
            return left[i] < right[i];
        }
        i += 1;
    }
    true
}

proof fn lemma_added(items: Seq<Seq<char>>, k: int, item: Seq<char>)
    requires
        0 <= k <= items.len(),
    ensures
        items.insert(k, item).to_multiset() == items.to_multiset().insert(item),
        items.push(item).to_multiset() == items.to_multiset().insert(item),
{
    broadcast use vstd::seq_lib::group_to_multiset_ensures;

    items.insert_ensures(k, item);
}

/// Sorts texts.
pub fn sort_texts(items: &[String]) -> (out: Vec<String>)
    ensures
        in_order(text::texts(out@)),
        text::texts(out@).to_multiset() == text::texts(items@).to_multiset(),
{
    let mut out: Vec<String> = Vec::new();
    let mut i: usize = 0;
    let ghost all = text::texts(items@);
    proof {
        assert(text::texts(out@) =~= all.take(0));
    }
    while i < items.len()
        invariant
            i <= items@.len(),
            all == text::texts(items@),
            in_order(text::texts(out@)),
            text::texts(out@).to_multiset() == all.take(i as int).to_multiset(),
        decreases items@.len() - i,
    {
        let ghost sorted = text::texts(out@);
        let ghost added = items@[i as int]@;
        let mut k: usize = out.len();
        while k > 0 && !text_not_after(out[k - 1].as_str(), items[i].as_str())
            invariant
                k <= out@.len(),
                i < items@.len(),
                sorted == text::texts(out@),
                added == items@[i as int]@,
                forall|j: int|
                    k <= j < sorted.len() ==> not_after(added, #[trigger] sorted[j]),
            decreases k,
        {
            proof {
                assert(sorted[k - 1] == out@[k - 1]@);
                lemma_total(sorted[k - 1], added);
            }
            k -= 1;
        }
        out.insert(k, items[i].clone());
        proof {
            let after = text::texts(out@);
            assert(after =~= sorted.insert(k as int, added));
            if k > 0 {
                assert(sorted[k - 1] == after[k - 1]);
            }
            assert forall|p: int, q: int| 0 <= p < q < after.len() implies not_after(
                #[trigger] after[p],
                #[trigger] after[q],
            ) by {
                if p < k && q == k {
                    if p < k - 1 {
                        assert(not_after(sorted[p], sorted[k - 1]));
                        lemma_transitive(sorted[p], sorted[k - 1], added);
                    }
                } else if p == k {
                    assert(after[q] == sorted[q - 1]);
                } else {
                    let a = if p < k {
                        p
                    } else {
                        p - 1
                    };
                    let b = if q < k {
                        q
                    } else {
                        q - 1
                    };
                    assert(after[p] == sorted[a]);
                    assert(after[q] == sorted[b]);
                }
            }
            lemma_added(sorted, k as int, added);
            lemma_added(all.take(i as int), 0, added);
            assert(all.take(i + 1) =~= all.take(i as int).push(added));
        }
        i += 1;
    }
    proof {
        assert(all.take(items@.len() as int) =~= all);
    }
    out
}

// ---------------------------------------------------------------------------
// Sorted sets.

/// The list with a text put in its place, unless it is there already.
pub open spec fn inserted(items: Seq<Seq<char>>, s: Seq<char>) -> Seq<Seq<char>>
    decreases items.len(),
{
    if items.len() == 0 {
        seq![s]
    } else if s == items[0] {
        items
    } else if before(s, items[0]) {
        seq![s] + items
    } else {
        seq![items[0]] + inserted(items.skip(1), s)
    }
}

/// The texts in order, each once.
pub open spec fn sorted_set(items: Seq<Seq<char>>) -> Seq<Seq<char>>
    decreases items.len(),
{
    if items.len() == 0 {
        seq![]
    } else {
        inserted(sorted_set(items.drop_last()), items.last())
    }
}

proof fn lemma_inserted_at(items: Seq<Seq<char>>, s: Seq<char>, at: int)
    requires
        0 <= at <= items.len(),
        forall|k: int|
            0 <= k < at ==> (#[trigger] items[k]) != s && !before(s, items[k]),
        at < items.len() ==> before(s, items[at]) || s == items[at],
    ensures
        inserted(items, s) == if at < items.len() && s == items[at] {
            items
        } else {
            items.insert(at, s)
        },
    decreases items.len(),
{
    if items.len() == 0 {
        assert(items.insert(0, s) =~= seq![s]);
    } else if at == 0 {
        if s != items[0] {
            assert(items.insert(0, s) =~= seq![s] + items);
        }
    } else {
        let rest = items.skip(1);
        assert forall|k: int| 0 <= k < at - 1 implies (#[trigger] rest[k]) != s && !before(
            s,
            rest[k],
        ) by {
            assert(rest[k] == items[k + 1]);
        }
        if at < items.len() {
            assert(rest[at - 1] == items[at]);
        }
        lemma_inserted_at(rest, s, at - 1);
        assert(items[0] != s && !before(s, items[0]));
        if at < items.len() && s == items[at] {
            assert(seq![items[0]] + rest =~= items);
        } else {
            assert(seq![items[0]] + rest.insert(at - 1, s) =~= items.insert(at, s));
        }
    }
}

proof fn lemma_inserted(items: Seq<Seq<char>>, s: Seq<char>)
    requires
        strictly_in_order(items),
    ensures
        strictly_in_order(inserted(items, s)),
        forall|t: Seq<char>| #[trigger]
            inserted(items, s).contains(t) <==> (items.contains(t) || t == s),
        inserted(items, s).len() > 0,
        inserted(items, s)[0] == s || (items.len() > 0 && inserted(items, s)[0] == items[0]),
    decreases items.len(),
{
    let out = inserted(items, s);
    if items.len() == 0 {
        assert(out[0] == s);
    } else if s == items[0] {
    } else if before(s, items[0]) {
        assert forall|i: int, j: int| 0 <= i < j < out.len() implies before(
            #[trigger] out[i],
            #[trigger] out[j],
        ) by {
            if i == 0 {
                assert(out[j] == items[j - 1]);
                if j > 1 {
                    assert(before(items[0], items[j - 1]));
                    lemma_before_transitive(s, items[0], items[j - 1]);
                }
            } else {
                assert(before(items[i - 1], items[j - 1]));
            }
        }
        assert forall|t: Seq<char>| #[trigger] out.contains(t) <==> (items.contains(t) || t
            == s) by {
            if items.contains(t) {
                let k = choose|k: int| 0 <= k < items.len() && items[k] == t;
                assert(out[k + 1] == t);
            }
            if t == s {
                assert(out[0] == t);
            }
            if out.contains(t) {
                let k = choose|k: int| 0 <= k < out.len() && out[k] == t;
                if k > 0 {
                    assert(items[k - 1] == t);
                }
            }
        }
    } else {
        let rest = items.skip(1);
        assert forall|i: int, j: int| 0 <= i < j < rest.len() implies before(
            #[trigger] rest[i],
            #[trigger] rest[j],
        ) by {
            assert(before(items[i + 1], items[j + 1]));
        }
        lemma_inserted(rest, s);
        let tail = inserted(rest, s);
        lemma_total(items[0], s);
        assert(before(items[0], s));
        assert forall|i: int, j: int| 0 <= i < j < out.len() implies before(
            #[trigger] out[i],
            #[trigger] out[j],
        ) by {
            assert(out[j] == tail[j - 1]);
            if i == 0 {
                assert(tail.contains(tail[j - 1]));
                if tail[j - 1] != s {
                    let k = choose|k: int| 0 <= k < rest.len() && rest[k] == tail[j - 1];
                    assert(before(items[0], items[k + 1]));
                }
            } else {
                assert(out[i] == tail[i - 1]);
            }
        }
        assert forall|t: Seq<char>| #[trigger] out.contains(t) <==> (items.contains(t) || t
            == s) by {
            if items.contains(t) {
                let k = choose|k: int| 0 <= k < items.len() && items[k] == t;
                if k == 0 {
                    assert(out[0] == t);
                } else {
                    assert(rest[k - 1] == t);
                    assert(tail.contains(t));
                    let m = choose|m: int| 0 <= m < tail.len() && tail[m] == t;
                    assert(out[m + 1] == t);
                }
            }
            if t == s {
                assert(tail.contains(t));
                let m = choose|m: int| 0 <= m < tail.len() && tail[m] == t;
                assert(out[m + 1] == t);
            }
            if out.contains(t) {
                let k = choose|k: int| 0 <= k < out.len() && out[k] == t;
                if k == 0 {
                    assert(items[0] == t);
                } else {
                    assert(tail[k - 1] == t);
                    assert(tail.contains(t));
                    if t != s {
                        let m = choose|m: int| 0 <= m < rest.len() && rest[m] == t;
                        assert(items[m + 1] == t);
                    }
                }
            }
        }
        assert(out[0] == items[0]);
    }
}

/// A sorted set is in order, holds nothing twice, and holds just what it was
/// made of.
pub proof fn sorted_sets_hold_their_texts(items: Seq<Seq<char>>)
    ensures
        strictly_in_order(sorted_set(items)),
        forall|t: Seq<char>| #[trigger] sorted_set(items).contains(t) <==> items.contains(t),
    decreases items.len(),
{
    if items.len() > 0 {
        let front = items.drop_last();
        sorted_sets_hold_their_texts(front);
        lemma_inserted(sorted_set(front), items.last());
        assert forall|t: Seq<char>| #[trigger] sorted_set(items).contains(t) <==> items.contains(
            t,
        ) by {
            if items.contains(t) {
                let k = choose|k: int| 0 <= k < items.len() && items[k] == t;
                if k < front.len() {
                    assert(front[k] == t);
                }
            }
            if front.contains(t) {
                let k = choose|k: int| 0 <= k < front.len() && front[k] == t;
                assert(items[k] == t);
            }
            assert(items[items.len() - 1] == items.last());
        }
    }
}

/// Sorts texts, keeping each once.
pub fn sort_set(items: &[String]) -> (out: Vec<String>)
    ensures
        text::texts(out@) == sorted_set(text::texts(items@)),
{
    let mut out: Vec<String> = Vec::new();
    let ghost all = text::texts(items@);
    let mut i: usize = 0;
    proof {
        assert(text::texts(out@) =~= sorted_set(all.take(0)));
    }
    while i < items.len()
        invariant
            i <= items@.len(),
            all == text::texts(items@),
            text::texts(out@) == sorted_set(all.take(i as int)),
        decreases items@.len() - i,
    {
        let ghost held = text::texts(out@);
        let item = items[i].as_str();
        let mut at: usize = 0;
        while at < out.len() && !text::same_text(out[at].as_str(), item) && !text_not_after(
            item,
            out[at].as_str(),
        )
            invariant
                at <= out@.len(),
                held == text::texts(out@),
                forall|k: int|
                    0 <= k < at ==> (#[trigger] held[k]) != item@ && !before(item@, held[k]),
            decreases out@.len() - at,
        {
            proof {
                assert(held[at as int] == out@[at as int]@);
            }
            at += 1;
        }
        proof {
            if at < out@.len() {
                assert(held[at as int] == out@[at as int]@);
            }
            lemma_inserted_at(held, item@, at as int);
            assert(all.take(i + 1).drop_last() =~= all.take(i as int));
            assert(all.take(i + 1).last() == item@);
        }
        if at >= out.len() || !text::same_text(out[at].as_str(), item) {
            out.insert(at, items[i].clone());
            proof {
                assert(text::texts(out@) =~= held.insert(at as int, item@));
            }
        }
        i += 1;
    }
    proof {
        assert(all.take(i as int) =~= all);
    }
    out
}

} // verus!
