//! Measures of how far a sequence is from non-decreasing order: the number
//! of its inversions, and a weighted sum that every exchange of a pair that
//! is out of order brings down.

use super::exchange;
use vstd::prelude::*;

verus! {

/// The number of values of `t` that are greater than `x`.
pub open spec fn count_greater(t: Seq<usize>, x: usize) -> nat
    decreases t.len(),
{
    if t.len() == 0 {
        0
    } else {
        count_greater(t.drop_last(), x) + if t.last() > x {
            1nat
        } else {
            0nat
        }
    }
}

/// The number of inversions of `s`: the pairs of positions of which the
/// earlier holds the greater value.
pub open spec fn inversions(s: Seq<usize>) -> nat
    decreases s.len(),
{
    if s.len() == 0 {
        0
    } else {
        inversions(s.drop_last()) + count_greater(s.drop_last(), s.last())
    }
}

/// What a new value at one position does to the number of values greater
/// than `x`.
pub proof fn lemma_count_greater_update(t: Seq<usize>, i: int, v: usize, x: usize)
    requires
        0 <= i < t.len(),
    ensures
        count_greater(t.update(i, v), x) + if t[i] > x {
            1int
        } else {
            0int
        } == count_greater(t, x) + if v > x {
            1int
        } else {
            0int
        },
    decreases t.len(),
{
    let u = t.update(i, v);
    if i == t.len() - 1 {
        assert(u.drop_last() =~= t.drop_last());
    } else {
        assert(u.drop_last() =~= t.drop_last().update(i, v));
        lemma_count_greater_update(t.drop_last(), i, v, x);
    }
}

/// An exchange of two positions keeps the number of values greater than
/// `x`.
pub proof fn lemma_count_greater_exchange(t: Seq<usize>, a: int, b: int, x: usize)
    requires
        0 <= a < t.len(),
        0 <= b < t.len(),
    ensures
        count_greater(exchange(t, a, b), x) == count_greater(t, x),
{
    let u = t.update(a, t[b]);
    lemma_count_greater_update(t, a, t[b], x);
    lemma_count_greater_update(u, b, t[a], x);
    assert(u[b] == t[b]);
}

/// No value of a sequence whose values are all at most `x` is greater
/// than `x`.
pub proof fn lemma_count_greater_none(t: Seq<usize>, x: usize)
    requires
        forall|i: int| 0 <= i < t.len() ==> t[i] <= x,
    ensures
        count_greater(t, x) == 0,
    decreases t.len(),
{
    if t.len() > 0 {
        let p = t.drop_last();
        assert forall|i: int| 0 <= i < p.len() implies p[i] <= x by {
            assert(p[i] == t[i]);
        }
        lemma_count_greater_none(p, x);
    }
}

/// A sequence in non-decreasing order has no inversion.
pub proof fn lemma_sorted_no_inversions(s: Seq<usize>)
    requires
        super::sorted(s),
    ensures
        inversions(s) == 0,
    decreases s.len(),
{
    if s.len() > 0 {
        let p = s.drop_last();
        assert forall|i: int, j: int| 0 <= i <= j < p.len() implies p[i] <= p[j] by {
            assert(p[i] == s[i] && p[j] == s[j]);
        }
        lemma_sorted_no_inversions(p);
        assert forall|i: int| 0 <= i < p.len() implies p[i] <= s.last() by {
            assert(p[i] == s[i]);
        }
        lemma_count_greater_none(p, s.last());
    }
}

/// An exchange of two neighbours changes the number of inversions by one:
/// down where they were out of order, up where they were in order and not
/// equal.
pub proof fn lemma_neighbours_exchange_inversions(s: Seq<usize>, i: int)
    requires
        0 <= i,
        i + 1 < s.len(),
    ensures
        inversions(exchange(s, i, i + 1)) + if s[i] > s[i + 1] {
            1int
        } else {
            0int
        } == inversions(s) + if s[i + 1] > s[i] {
            1int
        } else {
            0int
        },
    decreases s.len(),
{
    let s2 = exchange(s, i, i + 1);
    let q = s.drop_last();
    let q2 = s2.drop_last();
    if i + 1 == s.len() - 1 {
        let p = q.drop_last();
        assert(q2.drop_last() =~= p);
        assert(q2.last() == s[i + 1]);
        assert(q.last() == s[i]);
        assert(s2.last() == s[i]);
        assert(inversions(q2) == inversions(p) + count_greater(p, s[i + 1]));
        assert(inversions(q) == inversions(p) + count_greater(p, s[i]));
        assert(count_greater(q2, s[i]) == count_greater(p, s[i]) + if s[i + 1] > s[i] {
            1nat
        } else {
            0nat
        });
        assert(count_greater(q, s[i + 1]) == count_greater(p, s[i + 1]) + if s[i] > s[i + 1] {
            1nat
        } else {
            0nat
        });
    } else {
        assert(q2 =~= exchange(q, i, i + 1));
        assert(s2.last() == s.last());
        lemma_neighbours_exchange_inversions(q, i);
        lemma_count_greater_exchange(q, i, i + 1, s.last());
    }
}

/// The sum, over the positions `k` of `s`, of `k` times what the value at
/// `k` lacks to the largest `usize`. Among the orders of the same values
/// the non-decreasing one has the least such sum.
pub open spec fn disorder(s: Seq<usize>) -> int
    decreases s.len(),
{
    if s.len() == 0 {
        0
    } else {
        disorder(s.drop_last()) + (s.len() - 1) * (usize::MAX - s.last())
    }
}

/// The disorder of a sequence is not negative and at most the square of
/// its length times the largest `usize`.
pub proof fn lemma_disorder_bounds(s: Seq<usize>)
    ensures
        0 <= disorder(s) <= s.len() * s.len() * usize::MAX,
    decreases s.len(),
{
    if s.len() > 0 {
        let n = s.len() as int;
        let d = disorder(s.drop_last());
        let x = usize::MAX - s.last();
        lemma_disorder_bounds(s.drop_last());
        assert(0 <= (n - 1) * x <= (n - 1) * usize::MAX) by (nonlinear_arith)
            requires
                0 <= x <= usize::MAX,
                n >= 1,
        ;
        assert((n - 1) * (n - 1) * usize::MAX + (n - 1) * usize::MAX <= n * n * usize::MAX)
            by (nonlinear_arith)
            requires
                n >= 1,
        ;
    } else {
        assert(s.len() * s.len() * usize::MAX == 0) by (nonlinear_arith)
            requires
                s.len() == 0,
        ;
    }
}

/// What a new value at one position does to the disorder.
pub proof fn lemma_disorder_update(s: Seq<usize>, i: int, v: usize)
    requires
        0 <= i < s.len(),
    ensures
        disorder(s.update(i, v)) == disorder(s) - i * (usize::MAX - s[i]) + i * (usize::MAX - v),
    decreases s.len(),
{
    let t = s.update(i, v);
    if i == s.len() - 1 {
        assert(t.drop_last() =~= s.drop_last());
    } else {
        assert(t.drop_last() =~= s.drop_last().update(i, v));
        lemma_disorder_update(s.drop_last(), i, v);
    }
}

/// An exchange of two positions changes the disorder by their distance
/// times the difference of their values.
pub proof fn lemma_disorder_exchange(s: Seq<usize>, a: int, b: int)
    requires
        0 <= a < s.len(),
        0 <= b < s.len(),
    ensures
        disorder(exchange(s, a, b)) == disorder(s) - (b - a) * (s[a] - s[b]),
{
    let t = s.update(a, s[b]);
    lemma_disorder_update(s, a, s[b]);
    lemma_disorder_update(t, b, s[a]);
    let x = s[a] as int;
    let y = s[b] as int;
    let m = usize::MAX as int;
    let d0 = disorder(s);
    let d1 = disorder(t);
    let d2 = disorder(exchange(s, a, b));
    assert(t[b] == s[b]);
    assert(d1 == d0 - a * (m - x) + a * (m - y));
    assert(d2 == d1 - b * (m - y) + b * (m - x));
    assert(d2 == d0 - (b - a) * (x - y)) by (nonlinear_arith)
        requires
            d1 == d0 - a * (m - x) + a * (m - y),
            d2 == d1 - b * (m - y) + b * (m - x),
    ;
}

/// A product with a factor that is not negative grows with the other
/// factor, by that factor for each unit.
pub proof fn lemma_products(a: int, b: int, k: int)
    by (nonlinear_arith)
    requires
        0 <= k,
        a <= b,
    ensures
        a * k <= b * k,
        (a - 1) * k == a * k - k,
        a <= b - 1 ==> a * k <= b * k - k,
        0 <= a ==> 0 <= a * k,
        1 <= a ==> k <= a * k,
{
}

/// An exchange of two values of which the earlier is the larger brings the
/// disorder down.
pub proof fn lemma_exchange_lowers_disorder(s: Seq<usize>, a: int, b: int)
    requires
        0 <= a < b < s.len(),
        s[a] > s[b],
    ensures
        disorder(exchange(s, a, b)) < disorder(s),
{
    lemma_disorder_exchange(s, a, b);
    let x = s[a] as int;
    let y = s[b] as int;
    assert((b - a) * (x - y) >= 1) by (nonlinear_arith)
        requires
            a < b,
            x > y,
    ;
}

/// An exchange of two values of which the earlier is the smaller raises
/// the disorder.
pub proof fn lemma_exchange_raises_disorder(s: Seq<usize>, a: int, b: int)
    requires
        0 <= a < b < s.len(),
        s[a] < s[b],
    ensures
        disorder(exchange(s, a, b)) > disorder(s),
{
    lemma_disorder_exchange(s, a, b);
    let x = s[a] as int;
    let y = s[b] as int;
    assert((b - a) * (x - y) <= -1) by (nonlinear_arith)
        requires
            a < b,
            x < y,
    ;
}

} // verus!
