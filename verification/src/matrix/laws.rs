//! What holds of the matrix operations: the transpose is an involution, the
//! identity is neutral for the product over scalars with exact constants,
//! and over a ring the product is associative and powers add their
//! exponents.
use super::model::{lemma_build_at, lemma_equal_by_entries, MatrixView};
use crate::scalar::{Ring, Scalar, Unital};
use crate::series::{
    along_column, along_row, column_sums, lemma_series_congruence, lemma_series_exchange,
    lemma_series_single, lemma_series_times_left, lemma_series_times_right, row_sums, series,
};
use vstd::prelude::*;

verus! {

/// `build` yields a well-formed matrix of the shape asked for whose entries
/// are those of `f`.
pub proof fn lemma_build<T>(rows: nat, cols: nat, f: spec_fn(int, int) -> T)
    ensures
        MatrixView::build(rows, cols, f).wf(),
        MatrixView::build(rows, cols, f).rows == rows,
        MatrixView::build(rows, cols, f).cols == cols,
        forall|r: int, c: int|
            0 <= r < rows && 0 <= c < cols ==> #[trigger] MatrixView::build(rows, cols, f).at(r, c)
                == f(r, c),
{
    assert forall|r: int, c: int| 0 <= r < rows && 0 <= c < cols implies #[trigger] MatrixView::build(
        rows,
        cols,
        f,
    ).at(r, c) == f(r, c) by {
        lemma_build_at(rows, cols, f, r, c);
    }
}

/// Transposing twice gives the matrix back.
pub proof fn lemma_transpose_involution<T>(a: MatrixView<T>)
    requires
        a.wf(),
    ensures
        a.transpose().transpose() == a,
{
    let t = a.transpose();
    let tt = t.transpose();
    lemma_build(a.cols, a.rows, |r: int, c: int| a.at(c, r));
    lemma_build(t.cols, t.rows, |r: int, c: int| t.at(c, r));
    assert forall|r: int, c: int| tt.in_bounds(r, c) implies tt.at(r, c) == a.at(r, c) by {
        assert(tt.at(r, c) == t.at(c, r));
        assert(t.at(c, r) == a.at(r, c));
    }
    lemma_equal_by_entries(tt, a);
}

/// The function `t -> a[i, t] * b[t, j]`.
pub open spec fn term<T: Scalar>(a: MatrixView<T>, b: MatrixView<T>, i: int, j: int) -> spec_fn(
    int,
) -> T {
    |t: int| a.at(i, t).times_spec(b.at(t, j))
}

/// The inner sum of the product is a finite sum of the terms.
pub proof fn lemma_inner_series<T: Scalar>(
    a: MatrixView<T>,
    b: MatrixView<T>,
    i: int,
    j: int,
    k: nat,
)
    ensures
        a.inner(b, i, j, k) == series(term(a, b, i, j), k),
    decreases k,
{
    if k > 0 {
        lemma_inner_series(a, b, i, j, (k - 1) as nat);
    }
}

/// A product is well-formed, has the rows of its left and the columns of its
/// right operand, and its entries are the inner sums.
pub proof fn lemma_product<T: Scalar>(a: MatrixView<T>, b: MatrixView<T>)
    ensures
        a.product(b).wf(),
        a.product(b).rows == a.rows,
        a.product(b).cols == b.cols,
        forall|i: int, j: int|
            0 <= i < a.rows && 0 <= j < b.cols ==> #[trigger] a.product(b).at(i, j) == series(
                term(a, b, i, j),
                a.cols,
            ),
{
    lemma_build(a.rows, b.cols, |i: int, j: int| a.inner(b, i, j, a.cols));
    assert forall|i: int, j: int| 0 <= i < a.rows && 0 <= j < b.cols implies #[trigger] a.product(
        b,
    ).at(i, j) == series(term(a, b, i, j), a.cols) by {
        lemma_inner_series(a, b, i, j, a.cols);
    }
}

/// The identity is well-formed and square, with one on the diagonal and
/// zero elsewhere.
pub proof fn lemma_identity<T: Scalar>(size: nat)
    ensures
        MatrixView::<T>::identity(size).wf(),
        MatrixView::<T>::identity(size).rows == size,
        MatrixView::<T>::identity(size).cols == size,
        forall|r: int, c: int|
            0 <= r < size && 0 <= c < size ==> #[trigger] MatrixView::<T>::identity(size).at(r, c)
                == if r == c {
                T::one_spec()
            } else {
                T::zero_spec()
            },
{
    lemma_build(
        size,
        size,
        |r: int, c: int|
            if r == c {
                T::one_spec()
            } else {
                T::zero_spec()
            },
    );
}

/// Multiplying by the identity, from either side, gives the matrix back.
pub proof fn lemma_product_identity<T: Unital>(a: MatrixView<T>)
    requires
        a.wf(),
    ensures
        a.product(MatrixView::identity(a.cols)) == a,
        MatrixView::identity(a.rows).product(a) == a,
{
    let right = MatrixView::<T>::identity(a.cols);
    let left = MatrixView::<T>::identity(a.rows);
    lemma_identity::<T>(a.cols);
    lemma_identity::<T>(a.rows);
    lemma_product(a, right);
    lemma_product(left, a);
    assert forall|i: int, j: int| a.in_bounds(i, j) implies a.product(right).at(i, j) == a.at(
        i,
        j,
    ) by {
        let f = term(a, right, i, j);
        assert forall|t: int| 0 <= t < a.cols && t != j implies #[trigger] f(t)
            == T::zero_spec() by {
            T::lemma_times_zero(a.at(i, t));
        }
        lemma_series_single(f, j, a.cols);
        T::lemma_times_one(a.at(i, j));
    }
    lemma_equal_by_entries(a.product(right), a);
    assert forall|i: int, j: int| a.in_bounds(i, j) implies left.product(a).at(i, j) == a.at(
        i,
        j,
    ) by {
        let f = term(left, a, i, j);
        assert forall|t: int| 0 <= t < a.rows && t != i implies #[trigger] f(t)
            == T::zero_spec() by {
            T::lemma_times_zero(a.at(t, j));
        }
        lemma_series_single(f, i, a.rows);
        T::lemma_times_one(a.at(i, j));
    }
    lemma_equal_by_entries(left.product(a), a);
}

/// Without its first row and column the identity is the identity of the
/// next smaller size.
pub proof fn lemma_identity_minor<T: Scalar>(size: nat)
    requires
        size >= 1,
    ensures
        MatrixView::<T>::identity(size).minor(0, 0) == MatrixView::<T>::identity(
            (size - 1) as nat,
        ),
{
    let whole = MatrixView::<T>::identity(size);
    let rest = MatrixView::<T>::identity((size - 1) as nat);
    let minor = whole.minor(0, 0);
    lemma_identity::<T>(size);
    lemma_identity::<T>((size - 1) as nat);
    lemma_build(
        (size - 1) as nat,
        (size - 1) as nat,
        |r: int, c: int|
            whole.at(
                if r < 0 {
                    r
                } else {
                    r + 1
                },
                if c < 0 {
                    c
                } else {
                    c + 1
                },
            ),
    );
    assert forall|r: int, c: int| minor.in_bounds(r, c) implies minor.at(r, c) == rest.at(r, c) by {
        assert(minor.at(r, c) == whole.at(r + 1, c + 1));
    }
    lemma_equal_by_entries(minor, rest);
}

/// The first `k` terms of the expansion of the determinant of an identity
/// with at least two rows sum to one.
proof fn lemma_identity_expansion<T: Unital>(size: nat, k: nat)
    requires
        size >= 2,
        1 <= k <= size,
        MatrixView::<T>::identity((size - 1) as nat).determinant() == T::one_spec(),
    ensures
        MatrixView::<T>::identity(size).expansion(k) == T::one_spec(),
    decreases k,
{
    let whole = MatrixView::<T>::identity(size);
    lemma_identity::<T>(size);
    if k == 1 {
        lemma_identity_minor::<T>(size);
        assert(whole.expansion(0) == T::zero_spec());
        assert(whole.at(0, 0) == T::one_spec());
        assert(whole.cofactor(0, 0) == T::one_spec().times_spec(T::one_spec()));
        T::lemma_times_one(T::one_spec());
        T::lemma_plus_zero(T::one_spec());
    } else {
        lemma_identity_expansion::<T>(size, (k - 1) as nat);
        assert(whole.at(0, k - 1) == T::zero_spec());
        T::lemma_times_zero(whole.cofactor(0, k - 1));
        T::lemma_plus_zero(T::one_spec());
    }
}

/// The determinant of an identity with at least one row is one.
pub proof fn lemma_identity_determinant<T: Unital>(size: nat)
    requires
        size >= 1,
    ensures
        MatrixView::<T>::identity(size).determinant() == T::one_spec(),
    decreases size,
{
    lemma_identity::<T>(size);
    if size == 1 {
        assert(MatrixView::<T>::identity(1).at(0, 0) == T::one_spec());
    } else {
        lemma_identity_determinant::<T>((size - 1) as nat);
        lemma_identity_expansion::<T>(size, size);
    }
}

/// The function `(j, k) -> a[i, j] * (b[j, k] * c[k, l])`.
pub open spec fn triple_term<T: Scalar>(
    a: MatrixView<T>,
    b: MatrixView<T>,
    c: MatrixView<T>,
    i: int,
    l: int,
) -> spec_fn(int, int) -> T {
    |j: int, k: int| a.at(i, j).times_spec(b.at(j, k).times_spec(c.at(k, l)))
}

/// Entry `(i, l)` of `(a * b) * c` and of `a * (b * c)` is the same double
/// sum, taken column by column and row by row.
proof fn lemma_associative_entry<T: Ring>(
    a: MatrixView<T>,
    b: MatrixView<T>,
    c: MatrixView<T>,
    i: int,
    l: int,
)
    requires
        a.wf(),
        b.wf(),
        c.wf(),
        a.cols == b.rows,
        b.cols == c.rows,
        0 <= i < a.rows,
        0 <= l < c.cols,
    ensures
        a.product(b).product(c).at(i, l) == a.product(b.product(c)).at(i, l),
{
    let n = a.cols;
    let p = b.cols;
    let ab = a.product(b);
    let bc = b.product(c);
    let g = triple_term(a, b, c, i, l);
    lemma_product(a, b);
    lemma_product(b, c);
    lemma_product(ab, c);
    lemma_product(a, bc);
    assert forall|k: int| 0 <= k < p implies #[trigger] term(ab, c, i, l)(k) == column_sums(g, n)(
        k,
    ) by {
        let f = term(a, b, i, k);
        let h = along_column(g, k);
        assert forall|j: int| 0 <= j < n implies #[trigger] h(j) == f(j).times_spec(
            c.at(k, l),
        ) by {
            T::lemma_times_associative(a.at(i, j), b.at(j, k), c.at(k, l));
        }
        lemma_series_times_right(f, h, c.at(k, l), n);
        assert(ab.at(i, k) == series(f, n));
    }
    lemma_series_congruence(term(ab, c, i, l), column_sums(g, n), p);
    assert forall|j: int| 0 <= j < n implies #[trigger] term(a, bc, i, l)(j) == row_sums(g, p)(
        j,
    ) by {
        let f = term(b, c, j, l);
        let h = along_row(g, j);
        assert forall|k: int| 0 <= k < p implies #[trigger] h(k) == a.at(i, j).times_spec(
            f(k),
        ) by {}
        lemma_series_times_left(f, h, a.at(i, j), p);
        assert(bc.at(j, l) == series(f, p));
    }
    lemma_series_congruence(term(a, bc, i, l), row_sums(g, p), n);
    lemma_series_exchange(g, n, p);
}

/// Over a ring the matrix product is associative.
pub proof fn lemma_product_associative<T: Ring>(
    a: MatrixView<T>,
    b: MatrixView<T>,
    c: MatrixView<T>,
)
    requires
        a.wf(),
        b.wf(),
        c.wf(),
        a.cols == b.rows,
        b.cols == c.rows,
    ensures
        a.product(b).product(c) == a.product(b.product(c)),
{
    let left = a.product(b).product(c);
    let right = a.product(b.product(c));
    lemma_product(a, b);
    lemma_product(b, c);
    lemma_product(a.product(b), c);
    lemma_product(a, b.product(c));
    assert forall|i: int, l: int| left.in_bounds(i, l) implies left.at(i, l) == right.at(i, l) by {
        lemma_associative_entry(a, b, c, i, l);
    }
    lemma_equal_by_entries(left, right);
}

/// `a` multiplied `exponent` times onto the identity, one factor at a time.
pub open spec fn repeated<T: Scalar>(a: MatrixView<T>, exponent: nat) -> MatrixView<T>
    decreases exponent,
{
    if exponent == 0 {
        MatrixView::identity(a.rows)
    } else {
        repeated(a, (exponent - 1) as nat).product(a)
    }
}

/// A repeated product of a square matrix is well-formed and has its shape.
pub proof fn lemma_repeated_shape<T: Scalar>(a: MatrixView<T>, exponent: nat)
    requires
        a.wf(),
        a.is_quadratic(),
    ensures
        repeated(a, exponent).wf(),
        repeated(a, exponent).rows == a.rows,
        repeated(a, exponent).cols == a.cols,
    decreases exponent,
{
    if exponent == 0 {
        lemma_identity::<T>(a.rows);
    } else {
        lemma_repeated_shape(a, (exponent - 1) as nat);
        lemma_product(repeated(a, (exponent - 1) as nat), a);
    }
}

/// Over a ring repeated products add their exponents.
pub proof fn lemma_repeated_sum<T: Ring>(a: MatrixView<T>, p: nat, q: nat)
    requires
        a.wf(),
        a.is_quadratic(),
    ensures
        repeated(a, p).product(repeated(a, q)) == repeated(a, p + q),
    decreases q,
{
    lemma_repeated_shape(a, p);
    if q == 0 {
        lemma_product_identity(repeated(a, p));
    } else {
        let before = (q - 1) as nat;
        lemma_repeated_shape(a, before);
        lemma_repeated_sum(a, p, before);
        lemma_product_associative(repeated(a, p), repeated(a, before), a);
        assert(repeated(a, p + q) == repeated(a, (p + q - 1) as nat).product(a));
    }
}

/// Over a ring the power by repeated squaring is the repeated product.
pub proof fn lemma_power_repeated<T: Ring>(a: MatrixView<T>, exponent: nat)
    requires
        a.wf(),
        a.is_quadratic(),
    ensures
        a.power(exponent) == repeated(a, exponent),
    decreases exponent,
{
    if exponent == 0 {
    } else if exponent == 1 {
        lemma_product_identity(a);
        assert(repeated(a, 1) == repeated(a, 0).product(a));
    } else {
        let half = exponent / 2;
        lemma_power_repeated(a, half);
        lemma_repeated_sum(a, half, half);
        if exponent % 2 == 1 {
            assert(repeated(a, exponent) == repeated(a, (exponent - 1) as nat).product(a));
        }
    }
}

/// Over a ring the powers of a square matrix add their exponents, and the
/// power zero is the identity.
pub proof fn lemma_power_sum<T: Ring>(a: MatrixView<T>, p: nat, q: nat)
    requires
        a.wf(),
        a.is_quadratic(),
    ensures
        a.power(p + q) == a.power(p).product(a.power(q)),
        a.power(0) == MatrixView::<T>::identity(a.rows),
{
    lemma_power_repeated(a, p);
    lemma_power_repeated(a, q);
    lemma_power_repeated(a, p + q);
    lemma_repeated_sum(a, p, q);
}

} // verus!
