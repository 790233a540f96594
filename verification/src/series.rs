//! Finite sums of scalars, summed from zero in increasing order of the index,
//! and what holds of them over a ring.
use crate::scalar::{Ring, Scalar, Unital};
use vstd::prelude::*;

verus! {

/// `f(0) + f(1) + ... + f(n - 1)`, summed from zero.
pub open spec fn series<T: Scalar>(f: spec_fn(int) -> T, n: nat) -> T
    decreases n,
{
    if n == 0 {
        T::zero_spec()
    } else {
        series(f, (n - 1) as nat).plus_spec(f(n - 1))
    }
}

/// The function `k -> g(j, k)`.
pub open spec fn along_row<T>(g: spec_fn(int, int) -> T, j: int) -> spec_fn(int) -> T {
    |k: int| g(j, k)
}

/// The function `j -> g(j, k)`.
pub open spec fn along_column<T>(g: spec_fn(int, int) -> T, k: int) -> spec_fn(int) -> T {
    |j: int| g(j, k)
}

/// The function `j -> g(j, 0) + ... + g(j, p - 1)`.
pub open spec fn row_sums<T: Scalar>(g: spec_fn(int, int) -> T, p: nat) -> spec_fn(int) -> T {
    |j: int| series(along_row(g, j), p)
}

/// The function `k -> g(0, k) + ... + g(n - 1, k)`.
pub open spec fn column_sums<T: Scalar>(g: spec_fn(int, int) -> T, n: nat) -> spec_fn(int) -> T {
    |k: int| series(along_column(g, k), n)
}

/// Sums of functions that agree below `n` are equal.
pub proof fn lemma_series_congruence<T: Scalar>(f: spec_fn(int) -> T, g: spec_fn(int) -> T, n: nat)
    requires
        forall|t: int| 0 <= t < n ==> #[trigger] f(t) == g(t),
    ensures
        series(f, n) == series(g, n),
    decreases n,
{
    if n > 0 {
        lemma_series_congruence(f, g, (n - 1) as nat);
    }
}

/// A sum of zeros is zero.
pub proof fn lemma_series_zero<T: Unital>(f: spec_fn(int) -> T, n: nat)
    requires
        forall|t: int| 0 <= t < n ==> #[trigger] f(t) == T::zero_spec(),
    ensures
        series(f, n) == T::zero_spec(),
    decreases n,
{
    if n > 0 {
        lemma_series_zero(f, (n - 1) as nat);
        T::lemma_plus_zero(T::zero_spec());
    }
}

/// `(a + b) + (c + d) == (a + c) + (b + d)`.
pub proof fn lemma_plus_interchange<T: Ring>(a: T, b: T, c: T, d: T)
    ensures
        a.plus_spec(b).plus_spec(c.plus_spec(d)) == a.plus_spec(c).plus_spec(b.plus_spec(d)),
{
    T::lemma_plus_associative(a, b, c.plus_spec(d));
    T::lemma_plus_associative(b, c, d);
    T::lemma_plus_commutative(b, c);
    T::lemma_plus_associative(c, b, d);
    T::lemma_plus_associative(a, c, b.plus_spec(d));
}

/// The sum of two sums is the sum of the sums of their terms.
pub proof fn lemma_series_plus<T: Ring>(
    f: spec_fn(int) -> T,
    g: spec_fn(int) -> T,
    h: spec_fn(int) -> T,
    n: nat,
)
    requires
        forall|t: int| 0 <= t < n ==> #[trigger] h(t) == f(t).plus_spec(g(t)),
    ensures
        series(h, n) == series(f, n).plus_spec(series(g, n)),
    decreases n,
{
    if n == 0 {
        T::lemma_plus_zero(T::zero_spec());
    } else {
        let m = (n - 1) as nat;
        lemma_series_plus(f, g, h, m);
        lemma_plus_interchange(series(f, m), f(n - 1), series(g, m), g(n - 1));
    }
}

/// A sum times `c` is the sum of its terms times `c`.
pub proof fn lemma_series_times_right<T: Ring>(
    f: spec_fn(int) -> T,
    h: spec_fn(int) -> T,
    c: T,
    n: nat,
)
    requires
        forall|t: int| 0 <= t < n ==> #[trigger] h(t) == f(t).times_spec(c),
    ensures
        series(h, n) == series(f, n).times_spec(c),
    decreases n,
{
    if n == 0 {
        T::lemma_times_zero(c);
    } else {
        let m = (n - 1) as nat;
        lemma_series_times_right(f, h, c, m);
        T::lemma_distributive(series(f, m), f(n - 1), c);
    }
}

/// `c` times a sum is the sum of `c` times its terms.
pub proof fn lemma_series_times_left<T: Ring>(
    f: spec_fn(int) -> T,
    h: spec_fn(int) -> T,
    c: T,
    n: nat,
)
    requires
        forall|t: int| 0 <= t < n ==> #[trigger] h(t) == c.times_spec(f(t)),
    ensures
        series(h, n) == c.times_spec(series(f, n)),
    decreases n,
{
    if n == 0 {
        T::lemma_times_zero(c);
    } else {
        let m = (n - 1) as nat;
        lemma_series_times_left(f, h, c, m);
        T::lemma_distributive(c, series(f, m), f(n - 1));
    }
}

/// A sum with one term that may differ from zero is that term.
pub proof fn lemma_series_single<T: Unital>(f: spec_fn(int) -> T, at: int, n: nat)
    requires
        forall|t: int| 0 <= t < n && t != at ==> #[trigger] f(t) == T::zero_spec(),
    ensures
        series(f, n) == if 0 <= at < n {
            f(at)
        } else {
            T::zero_spec()
        },
    decreases n,
{
    if n > 0 {
        lemma_series_single(f, at, (n - 1) as nat);
        T::lemma_plus_zero(f(n - 1));
        T::lemma_plus_zero(f(at));
        T::lemma_plus_zero(T::zero_spec());
    }
}

/// A double sum may be taken row by row or column by column.
pub proof fn lemma_series_exchange<T: Ring>(g: spec_fn(int, int) -> T, n: nat, p: nat)
    ensures
        series(row_sums(g, p), n) == series(column_sums(g, n), p),
    decreases n,
{
    if n == 0 {
        lemma_series_zero(column_sums(g, 0), p);
    } else {
        let m = (n - 1) as nat;
        lemma_series_exchange(g, m, p);
        lemma_series_plus(column_sums(g, m), along_row(g, n - 1), column_sums(g, n), p);
    }
}

} // verus!
