//! Matrix layouts. R stores an `n x 3` matrix column by column; the
//! algorithm works on one `[L, a, b]` triple per row, and keeps larger tables
//! (such as association probabilities) row by row.

use vstd::prelude::*;
use vstd::arithmetic::div_mod::{lemma_fundamental_div_mod, lemma_fundamental_div_mod_converse};

verus! {

/// The rows of an `n x 3` matrix stored column by column in `data`.
pub open spec fn rows_of<T>(data: Seq<T>, n: nat) -> Seq<Seq<T>> {
    Seq::new(n, |i: int| seq![data[i], data[n + i], data[2 * n + i]])
}

/// The column-by-column storage of the matrix whose rows are `rows`.
pub open spec fn columns_of<T>(rows: Seq<Seq<T>>) -> Seq<T> {
    Seq::new(3 * rows.len(), |j: int| rows[j % (rows.len() as int)][j / (rows.len() as int)])
}

/// The views of a list of triples.
pub open spec fn triple_views<T>(rows: Seq<[T; 3]>) -> Seq<Seq<T>> {
    rows.map_values(|r: [T; 3]| r@)
}

/// The entry in row `r`, column `c` of a `nrows x ncols` table stored row
/// by row sits at index `c * nrows + r` once the table is stored column by
/// column.
pub open spec fn is_transpose<T>(src: Seq<T>, dst: Seq<T>, nrows: int, ncols: int) -> bool {
    &&& dst.len() == nrows * ncols
    &&& forall|r: int, c: int|
        0 <= r < nrows && 0 <= c < ncols ==> #[trigger] dst[c * nrows + r] == src[r * ncols + c]
}

/// The `[L, a, b]` rows of an `nrows x 3` matrix stored column by column.
pub fn columns_to_rows<T: Copy>(data: &[T], nrows: usize) -> (rows: Vec<[T; 3]>)
    requires
        data@.len() == 3 * nrows,
    ensures
        triple_views(rows@) == rows_of(data@, nrows as nat),
        rows.len() == nrows,
        forall|i: int|
            0 <= i < nrows ==> {
                &&& (#[trigger] rows@[i])@[0] == data@[i]
                &&& rows@[i]@[1] == data@[nrows + i]
                &&& rows@[i]@[2] == data@[2 * nrows + i]
            },
{
    let mut rows: Vec<[T; 3]> = Vec::new();
    let mut i: usize = 0;
    while i < nrows
        invariant
            data@.len() == 3 * nrows,
            i <= nrows,
            triple_views(rows@) == rows_of(data@, nrows as nat).take(i as int),
        decreases nrows - i,
    {
        let row: [T; 3] = [data[i], data[i + nrows], data[i + 2 * nrows]];
        assert(row@ == seq![data@[i as int], data@[nrows + i], data@[2 * nrows + i]]);
        let ghost tv0 = triple_views(rows@);
        rows.push(row);
        assert(triple_views(rows@) == tv0.push(row@));
        assert(rows_of(data@, nrows as nat).take(i + 1) == rows_of(data@, nrows as nat).take(i as int).push(
            rows_of(data@, nrows as nat)[i as int],
        ));
        i += 1;
    }
    assert(rows_of(data@, nrows as nat).take(nrows as int) == rows_of(data@, nrows as nat));
    assert forall|i: int| 0 <= i < nrows implies {
        &&& (#[trigger] rows@[i])@[0] == data@[i]
        &&& rows@[i]@[1] == data@[nrows + i]
        &&& rows@[i]@[2] == data@[2 * nrows + i]
    } by {
        assert(triple_views(rows@)[i] == rows@[i]@);
    }
    rows
}

/// The column-by-column storage of the `rows.len() x 3` matrix with the
/// given rows.
pub fn rows_to_columns<T: Copy>(rows: &[[T; 3]]) -> (data: Vec<T>)
    requires
        3 * rows@.len() <= usize::MAX,
    ensures
        data@ == columns_of(triple_views(rows@)),
        data@.len() == 3 * rows@.len(),
        forall|r: int, c: int|
            0 <= r < rows@.len() && 0 <= c < 3 ==> #[trigger] data@[c * rows@.len() + r] == rows@[r]@[c],
{
    let n = rows.len();
    let mut data: Vec<T> = Vec::new();
    let ghost tv = triple_views(rows@);
    let mut c: usize = 0;
    while c < 3
        invariant
            n == rows@.len(),
            3 * n <= usize::MAX,
            tv == triple_views(rows@),
            c <= 3,
            data@.len() == c * n,
            forall|j: int| 0 <= j < data@.len() ==> #[trigger] data@[j] == columns_of(tv)[j],
        decreases 3 - c,
    {
        let mut r: usize = 0;
        while r < n
            invariant
                n == rows@.len(),
                3 * n <= usize::MAX,
                tv == triple_views(rows@),
                c < 3,
                r <= n,
                data@.len() == c * n + r,
                forall|j: int| 0 <= j < data@.len() ==> #[trigger] data@[j] == columns_of(tv)[j],
            decreases n - r,
        {
            let v = rows[r][c];
            proof {
                lemma_fundamental_div_mod_converse((c * n + r) as int, n as int, c as int, r as int);
                assert(c * n + r < 3 * n) by (nonlinear_arith)
                    requires c < 3, r < n;
                assert(tv[r as int] == rows@[r as int]@);
            }
            data.push(v);
            r += 1;
        }
        assert(data@.len() == (c + 1) * n) by (nonlinear_arith)
            requires data@.len() == c * n + n;
        c += 1;
    }
    assert(data@ == columns_of(tv));
    assert forall|r: int, c: int|
        0 <= r < n && 0 <= c < 3 implies #[trigger] data@[c * n + r] == rows@[r]@[c] by {
        lemma_fundamental_div_mod_converse(c * n + r, n as int, c, r);
        assert(c * n + r < 3 * n) by (nonlinear_arith)
            requires c < 3, r < n, 0 <= r;
        assert(tv[r] == rows@[r]@);
    }
    data
}

/// Reading the rows of a column-by-column matrix and storing them column by
/// column again gives back the matrix.
pub proof fn lemma_columns_rows_columns<T>(data: Seq<T>, n: nat)
    requires
        data.len() == 3 * n,
    ensures
        columns_of(rows_of(data, n)) == data,
{
    let rows = rows_of(data, n);
    let cols = columns_of(rows);
    assert forall|j: int| 0 <= j < data.len() implies #[trigger] cols[j] == data[j] by {
        let q = j / (n as int);
        let r = j % (n as int);
        lemma_fundamental_div_mod(j, n as int);
        assert(0 <= r < n);
        assert(0 <= q < 3) by (nonlinear_arith)
            requires j == n * q + r, 0 <= r < n, 0 <= j < 3 * n;
        assert(n * q == q * n) by (nonlinear_arith);
        assert(rows[r] == seq![data[r], data[n + r], data[2 * n + r]]);
        assert(cols[j] == rows[r][q]);
        if q == 0 {
            assert(j == r) by (nonlinear_arith)
                requires j == n * q + r, q == 0;
        } else if q == 1 {
            assert(j == n + r) by (nonlinear_arith)
                requires j == n * q + r, q == 1;
        } else {
            assert(j == 2 * n + r) by (nonlinear_arith)
                requires j == n * q + r, q == 2;
        }
    }
    assert(cols == data);
}

/// Storing rows of three entries column by column and reading the rows back
/// gives the same rows.
pub proof fn lemma_rows_columns_rows<T>(rows: Seq<Seq<T>>)
    requires
        forall|i: int| 0 <= i < rows.len() ==> #[trigger] rows[i].len() == 3,
    ensures
        rows_of(columns_of(rows), rows.len()) == rows,
{
    let n = rows.len() as int;
    let cols = columns_of(rows);
    let back = rows_of(cols, rows.len());
    assert forall|i: int| 0 <= i < n implies #[trigger] back[i] == rows[i] by {
        lemma_fundamental_div_mod_converse(i, n, 0, i);
        lemma_fundamental_div_mod_converse(n + i, n, 1, i);
        lemma_fundamental_div_mod_converse(2 * n + i, n, 2, i);
        assert(back[i] == seq![rows[i][0], rows[i][1], rows[i][2]]);
        assert(back[i] == rows[i]);
    }
    assert(back == rows);
}

/// The column-by-column storage of a `nrows x ncols` table stored row by
/// row in `data`.
pub fn transpose<T: Copy>(data: &[T], nrows: usize, ncols: usize) -> (out: Vec<T>)
    requires
        data@.len() == nrows * ncols,
    ensures
        is_transpose(data@, out@, nrows as int, ncols as int),
        out@.len() == nrows * ncols,
        forall|r: int, c: int|
            0 <= r < nrows && 0 <= c < ncols ==> #[trigger] out@[c * nrows + r] == data@[r * ncols + c],
{
    let len = data.len();
    let mut out: Vec<T> = Vec::new();
    let mut c: usize = 0;
    while c < ncols
        invariant
            data@.len() == nrows * ncols,
            len == data@.len(),
            c <= ncols,
            out@.len() == c * nrows,
            forall|r: int, c2: int|
                0 <= r < nrows && 0 <= c2 < c ==> #[trigger] out@[c2 * nrows + r] == data@[r * ncols + c2],
        decreases ncols - c,
    {
        let mut r: usize = 0;
        while r < nrows
            invariant
                data@.len() == nrows * ncols,
                len == data@.len(),
                c < ncols,
                r <= nrows,
                out@.len() == c * nrows + r,
                forall|r2: int, c2: int|
                    0 <= r2 < nrows && 0 <= c2 < c ==> #[trigger] out@[c2 * nrows + r2] == data@[r2 * ncols + c2],
                forall|r2: int| 0 <= r2 < r ==> #[trigger] out@[c * nrows + r2] == data@[r2 * ncols + c],
            decreases nrows - r,
        {
            assert(r * ncols + c < nrows * ncols && r * ncols <= r * ncols + c) by (nonlinear_arith)
                requires r < nrows, c < ncols;
            let v = data[r * ncols + c];
            let ghost before = out@;
            out.push(v);
            assert forall|r2: int, c2: int|
                0 <= r2 < nrows && 0 <= c2 < c implies #[trigger] out@[c2 * nrows + r2] == data@[r2 * ncols + c2] by {
                assert(c2 * nrows + r2 < c * nrows) by (nonlinear_arith)
                    requires c2 < c, r2 < nrows, c2 >= 0, r2 >= 0;
                assert(out@[c2 * nrows + r2] == before[c2 * nrows + r2]);
            }
            r += 1;
        }
        assert(out@.len() == (c + 1) * nrows) by (nonlinear_arith)
            requires out@.len() == c * nrows + nrows;
        assert forall|r2: int, c2: int|
            0 <= r2 < nrows && 0 <= c2 < c + 1 implies #[trigger] out@[c2 * nrows + r2] == data@[r2 * ncols + c2] by {
            if c2 == c {
                assert(out@[c * nrows + r2] == data@[r2 * ncols + c]);
            }
        }
        c += 1;
    }
    assert(out@.len() == nrows * ncols) by (nonlinear_arith)
        requires out@.len() == c * nrows, c == ncols;
    out
}

/// Switching the storage order of a table twice gives back the table.
pub proof fn lemma_transpose_twice<T>(a: Seq<T>, b: Seq<T>, x: Seq<T>, nrows: int, ncols: int)
    requires
        nrows >= 0,
        ncols >= 0,
        a.len() == nrows * ncols,
        is_transpose(a, b, nrows, ncols),
        is_transpose(b, x, ncols, nrows),
    ensures
        x == a,
{
    assert(x.len() == a.len()) by (nonlinear_arith)
        requires x.len() == ncols * nrows, a.len() == nrows * ncols;
    assert forall|j: int| 0 <= j < a.len() implies #[trigger] x[j] == a[j] by {
        lemma_fundamental_div_mod(j, ncols);
        let row = j / ncols;
        let col = j % ncols;
        assert(0 <= row < nrows) by (nonlinear_arith)
            requires j == ncols * row + col, 0 <= col < ncols, 0 <= j < nrows * ncols;
        assert(ncols * row == row * ncols) by (nonlinear_arith);
        assert(x[row * ncols + col] == b[col * nrows + row]);
        assert(b[col * nrows + row] == a[row * ncols + col]);
    }
    assert(x == a);
}

/// One-based R indices of zero-based indices.
pub fn one_based(indices: &[usize]) -> (out: Vec<i32>)
    requires
        forall|i: int| 0 <= i < indices@.len() ==> #[trigger] indices@[i] < i32::MAX,
    ensures
        out@.len() == indices@.len(),
        forall|i: int| 0 <= i < indices@.len() ==> #[trigger] out@[i] == indices@[i] + 1,
{
    let mut out: Vec<i32> = Vec::new();
    let mut i: usize = 0;
    while i < indices.len()
        invariant
            forall|k: int| 0 <= k < indices@.len() ==> #[trigger] indices@[k] < i32::MAX,
            i <= indices@.len(),
            out@.len() == i,
            forall|k: int| 0 <= k < i ==> #[trigger] out@[k] == indices@[k] + 1,
        decreases indices@.len() - i,
    {
        let v = indices[i];
        out.push(v as i32 + 1);
        i += 1;
    }
    out
}

} // verus!
