use vstd::prelude::*;

verus! {

/// The `n`-th of eight values (the last one for any `n` past 6).
pub open spec fn pick8(
    n: int,
    a0: int,
    a1: int,
    a2: int,
    a3: int,
    a4: int,
    a5: int,
    a6: int,
    a7: int,
) -> int {
    if n == 0 {
        a0
    } else if n == 1 {
        a1
    } else if n == 2 {
        a2
    } else if n == 3 {
        a3
    } else if n == 4 {
        a4
    } else if n == 5 {
        a5
    } else if n == 6 {
        a6
    } else {
        a7
    }
}

/// The transform matrix: row `k`, column `n` is the weight of input sample
/// `n` in output coefficient `k` of the forward transform.
pub open spec fn mat(k: int, n: int) -> int {
    if k == 0 {
        pick8(n, 5, 10, 14, 16, 16, 14, 10, 5)
    } else if k == 1 {
        pick8(n, 10, 16, 14, 5, -5, -14, -16, -10)
    } else if k == 2 {
        pick8(n, 14, 14, 0, -14, -14, 0, 14, 14)
    } else if k == 3 {
        pick8(n, 16, 5, -14, -10, 10, 14, -5, -16)
    } else if k == 4 {
        pick8(n, 16, -5, -14, 10, 10, -14, -5, 16)
    } else if k == 5 {
        pick8(n, 14, -14, 0, 14, -14, 0, 14, -14)
    } else if k == 6 {
        pick8(n, 10, -16, 14, -5, -5, 14, -16, 10)
    } else {
        pick8(n, 5, -10, 14, -16, 16, -14, 10, -5)
    }
}

/// Entry `(k, n)` of the transform matrix.
pub fn mat_entry(k: usize, n: usize) -> (r: i32)
    requires
        k < 8,
        n < 8,
    ensures
        r == mat(k as int, n as int),
        -16 <= r <= 16,
{
    let row: [i32; 8] = if k == 0 {
        [5, 10, 14, 16, 16, 14, 10, 5]
    } else if k == 1 {
        [10, 16, 14, 5, -5, -14, -16, -10]
    } else if k == 2 {
        [14, 14, 0, -14, -14, 0, 14, 14]
    } else if k == 3 {
        [16, 5, -14, -10, 10, 14, -5, -16]
    } else if k == 4 {
        [16, -5, -14, 10, 10, -14, -5, 16]
    } else if k == 5 {
        [14, -14, 0, 14, -14, 0, 14, -14]
    } else if k == 6 {
        [10, -16, 14, -5, -5, 14, -16, 10]
    } else {
        [5, -10, 14, -16, 16, -14, 10, -5]
    };
    row[n]
}

/// Every matrix entry lies in `[-16, 16]`.
pub proof fn lemma_mat_bound(k: int, n: int)
    ensures
        -16 <= mat(k, n) <= 16,
{
}

/// Dot product of matrix rows `k` and `j`.
pub open spec fn row_dot(k: int, j: int) -> int {
    mat(k, 0) * mat(j, 0) + mat(k, 1) * mat(j, 1) + mat(k, 2) * mat(j, 2) + mat(k, 3) * mat(j, 3)
        + mat(k, 4) * mat(j, 4) + mat(k, 5) * mat(j, 5) + mat(k, 6) * mat(j, 6) + mat(k, 7) * mat(
        j,
        7,
    )
}

/// The matrix rows are near-orthogonal: each row's squared norm is at least
/// 1154, while the dot product of two distinct rows is at most 28 in
/// magnitude.
pub proof fn lemma_rows_near_orthogonal(k: int, j: int)
    requires
        0 <= k < 8,
        0 <= j < 8,
    ensures
        k == j ==> 1154 <= row_dot(k, j) <= 1176,
        k != j ==> -28 <= row_dot(k, j) <= 28,
{
    assert(k == 0 || k == 1 || k == 2 || k == 3 || k == 4 || k == 5 || k == 6 || k == 7);
    assert(j == 0 || j == 1 || j == 2 || j == 3 || j == 4 || j == 5 || j == 6 || j == 7);
}

} // verus!
