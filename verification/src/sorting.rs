//! Stable sorting, stated as insertion: each element goes before the first
//! element of the sorted rest that it may precede, so elements that compare
//! equal keep their order.
use vstd::prelude::*;

verus! {

/// `s` (already sorted) with `x` put before the first element it may precede.
pub open spec fn insert_sorted<T>(x: T, s: Seq<T>, before: spec_fn(T, T) -> bool) -> Seq<T>
    decreases s.len(),
{
    if s.len() == 0 {
        seq![x]
    } else if before(x, s[0]) {
        seq![x] + s
    } else {
        seq![s[0]] + insert_sorted(x, s.drop_first(), before)
    }
}

/// The stable sort of `s` under `before` (`before(a, b)`: `a` may stand
/// before `b`).
pub open spec fn sort_by<T>(s: Seq<T>, before: spec_fn(T, T) -> bool) -> Seq<T>
    decreases s.len(),
{
    if s.len() == 0 {
        s
    } else {
        insert_sorted(s[0], sort_by(s.drop_first(), before), before)
    }
}

/// Inserting `x` at the first position `j` whose element it may precede.
pub proof fn lemma_insert_sorted_at<T>(x: T, s: Seq<T>, before: spec_fn(T, T) -> bool, j: int)
    requires
        0 <= j <= s.len(),
        forall|k: int| 0 <= k < j ==> !before(x, #[trigger] s[k]),
        j < s.len() ==> before(x, s[j]),
    ensures
        insert_sorted(x, s, before) == s.insert(j, x),
    decreases s.len(),
{
    if s.len() == 0 {
        assert(s.insert(0, x) =~= seq![x]);
    } else if j == 0 {
        assert(s.insert(0, x) =~= seq![x] + s);
    } else {
        assert(!before(x, s[0]));
        let t = s.drop_first();
        assert forall|k: int| 0 <= k < j - 1 implies !before(x, #[trigger] t[k]) by {
            assert(t[k] == s[k + 1]);
        }
        if j - 1 < t.len() {
            assert(t[j - 1] == s[j]);
        }
        lemma_insert_sorted_at(x, t, before, j - 1);
        assert(s.insert(j, x) =~= seq![s[0]] + t.insert(j - 1, x));
    }
}

/// One step of sorting from the back: the sort of `s.skip(i - 1)` is the sort
/// of `s.skip(i)` with `s[i - 1]` inserted.
pub proof fn lemma_sort_step<T>(s: Seq<T>, before: spec_fn(T, T) -> bool, i: int)
    requires
        0 < i <= s.len(),
    ensures
        sort_by(s.skip(i - 1), before) == insert_sorted(s[i - 1], sort_by(s.skip(i), before), before),
{
    let t = s.skip(i - 1);
    assert(t.drop_first() =~= s.skip(i));
    assert(t[0] == s[i - 1]);
}

/// Every element of a sorted sequence may stand before every later one,
/// when `before` is total and transitive.
pub open spec fn is_sorted_by<T>(s: Seq<T>, before: spec_fn(T, T) -> bool) -> bool {
    forall|a: int, b: int| 0 <= a < b < s.len() ==> before(#[trigger] s[a], #[trigger] s[b])
}

/// The first `n` elements of `s`, or all of them when there are fewer.
pub open spec fn at_most<T>(s: Seq<T>, n: nat) -> Seq<T> {
    if s.len() <= n {
        s
    } else {
        s.take(n as int)
    }
}

/// Any two elements can be put in some order.
pub open spec fn is_total<T>(before: spec_fn(T, T) -> bool) -> bool {
    forall|a: T, b: T| #[trigger] before(a, b) || before(b, a)
}

pub open spec fn is_transitive<T>(before: spec_fn(T, T) -> bool) -> bool {
    forall|a: T, b: T, c: T| #![trigger before(a, b), before(b, c)]
        before(a, b) && before(b, c) ==> before(a, c)
}

/// Inserting puts `x` among the elements of `s`, and nothing else.
pub proof fn lemma_insert_sorted_elements<T>(x: T, s: Seq<T>, before: spec_fn(T, T) -> bool)
    ensures
        insert_sorted(x, s, before).len() == s.len() + 1,
        forall|k: int|
            0 <= k < s.len() + 1 ==> #[trigger] insert_sorted(x, s, before)[k] == x || s.contains(
                insert_sorted(x, s, before)[k],
            ),
    decreases s.len(),
{
    if s.len() > 0 && !before(x, s[0]) {
        let t = s.drop_first();
        lemma_insert_sorted_elements(x, t, before);
        let r = insert_sorted(x, s, before);
        assert forall|k: int| 0 <= k < s.len() + 1 implies #[trigger] r[k] == x || s.contains(r[k]) by {
            if k == 0 {
                assert(r[0] == s[0]);
            } else {
                assert(r[k] == insert_sorted(x, t, before)[k - 1]);
                if t.contains(r[k]) {
                    let j = choose|j: int| 0 <= j < t.len() && t[j] == r[k];
                    assert(s[j + 1] == r[k]);
                }
            }
        }
    } else if s.len() > 0 {
        let r = insert_sorted(x, s, before);
        assert forall|k: int| 0 <= k < s.len() + 1 implies #[trigger] r[k] == x || s.contains(r[k]) by {
            if k > 0 {
                assert(r[k] == s[k - 1]);
            }
        }
    }
}

pub proof fn lemma_insert_keeps_sorted<T>(x: T, s: Seq<T>, before: spec_fn(T, T) -> bool)
    requires
        is_total(before),
        is_transitive(before),
        is_sorted_by(s, before),
    ensures
        is_sorted_by(insert_sorted(x, s, before), before),
    decreases s.len(),
{
    let r = insert_sorted(x, s, before);
    if s.len() == 0 {
    } else if before(x, s[0]) {
        assert forall|a: int, b: int| 0 <= a < b < r.len() implies before(#[trigger] r[a], #[trigger] r[b]) by {
            if a == 0 {
                assert(r[b] == s[b - 1]);
                if b - 1 > 0 {
                    assert(before(s[0], s[b - 1]));
                }
            } else {
                assert(r[a] == s[a - 1] && r[b] == s[b - 1]);
            }
        }
    } else {
        let t = s.drop_first();
        assert(is_sorted_by(t, before)) by {
            assert forall|a: int, b: int| 0 <= a < b < t.len() implies before(#[trigger] t[a], #[trigger] t[b]) by {
                assert(t[a] == s[a + 1] && t[b] == s[b + 1]);
            }
        }
        lemma_insert_keeps_sorted(x, t, before);
        lemma_insert_sorted_elements(x, t, before);
        let rt = insert_sorted(x, t, before);
        assert(before(x, s[0]) || before(s[0], x));
        assert forall|a: int, b: int| 0 <= a < b < r.len() implies before(#[trigger] r[a], #[trigger] r[b]) by {
            if a == 0 {
                assert(r[0] == s[0]);
                assert(r[b] == rt[b - 1]);
                if rt[b - 1] != x {
                    assert(t.contains(rt[b - 1]));
                    let j = choose|j: int| 0 <= j < t.len() && t[j] == rt[b - 1];
                    assert(s[j + 1] == t[j]);
                    assert(before(s[0], s[j + 1]));
                }
            } else {
                assert(r[a] == rt[a - 1] && r[b] == rt[b - 1]);
            }
        }
    }
}

/// A stable sort under a total, transitive order is sorted.
pub proof fn lemma_sort_by_sorted<T>(s: Seq<T>, before: spec_fn(T, T) -> bool)
    requires
        is_total(before),
        is_transitive(before),
    ensures
        is_sorted_by(sort_by(s, before), before),
    decreases s.len(),
{
    if s.len() > 0 {
        lemma_sort_by_sorted(s.drop_first(), before);
        lemma_insert_keeps_sorted(s[0], sort_by(s.drop_first(), before), before);
    }
}

/// Sorting keeps the elements: whatever the sorted sequence holds, the
/// sequence held.
pub proof fn lemma_sort_by_elements<T>(s: Seq<T>, before: spec_fn(T, T) -> bool, x: T)
    requires
        sort_by(s, before).contains(x),
    ensures
        s.contains(x),
    decreases s.len(),
{
    if s.len() > 0 {
        let t = s.drop_first();
        let rest = sort_by(t, before);
        let r = sort_by(s, before);
        lemma_insert_sorted_elements(s[0], rest, before);
        let k = choose|k: int| 0 <= k < r.len() && r[k] == x;
        if r[k] != s[0] {
            assert(rest.contains(r[k]));
            lemma_sort_by_elements(t, before, x);
            let j = choose|j: int| 0 <= j < t.len() && t[j] == x;
            assert(s[j + 1] == x);
        } else {
            assert(s[0] == x);
        }
    }
}

/// Inserting keeps every element and adds `x`.
pub proof fn lemma_insert_sorted_keeps<T>(x: T, s: Seq<T>, before: spec_fn(T, T) -> bool, y: T)
    requires
        y == x || s.contains(y),
    ensures
        insert_sorted(x, s, before).contains(y),
    decreases s.len(),
{
    let r = insert_sorted(x, s, before);
    if s.len() == 0 {
        assert(r[0] == x);
    } else if before(x, s[0]) {
        if y == x {
            assert(r[0] == x);
        } else {
            let j = choose|j: int| 0 <= j < s.len() && s[j] == y;
            assert(r[j + 1] == y);
        }
    } else {
        let t = s.drop_first();
        if y == s[0] {
            assert(r[0] == y);
        } else {
            if y != x {
                let j = choose|j: int| 0 <= j < s.len() && s[j] == y;
                assert(t[j - 1] == y);
            }
            lemma_insert_sorted_keeps(x, t, before, y);
            let i = choose|i: int|
                0 <= i < insert_sorted(x, t, before).len() && insert_sorted(x, t, before)[i] == y;
            assert(r[i + 1] == y);
        }
    }
}

/// Sorting loses no element.
pub proof fn lemma_sort_by_keeps<T>(s: Seq<T>, before: spec_fn(T, T) -> bool, x: T)
    requires
        s.contains(x),
    ensures
        sort_by(s, before).contains(x),
    decreases s.len(),
{
    let t = s.drop_first();
    if x != s[0] {
        let j = choose|j: int| 0 <= j < s.len() && s[j] == x;
        assert(t[j - 1] == x);
        lemma_sort_by_keeps(t, before, x);
    }
    lemma_insert_sorted_keeps(s[0], sort_by(t, before), before, x);
}

} // verus!
