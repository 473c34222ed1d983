use vstd::prelude::*;
use crate::random::random_i64_values;

verus! {

/// A matrix stored as a vector of rows.
pub struct Matrix<T>(pub Vec<Vec<T>>);

/// The `rows` x `columns` matrix whose rows are consecutive runs of
/// `columns` entries of `v`.
pub open spec fn spec_vec_to_matrix<T>(v: Seq<T>, rows: int, columns: int) -> Seq<Seq<T>> {
    Seq::new(rows as nat, |i: int| Seq::new(columns as nat, |j: int| v[i * columns + j]))
}

/// A vector of `n` copies of `value`.
pub fn filled<T: Copy>(n: usize, value: T) -> (res: Vec<T>)
    ensures
        res@ == Seq::new(n as nat, |i: int| value),
{
    let mut res: Vec<T> = Vec::new();
    let mut i: usize = 0;
    while i < n
        invariant
            i <= n,
            res@ =~= Seq::new(i as nat, |k: int| value),
        decreases n - i,
    {
        res.push(value);
        i = i + 1;
    }
    res
}

/// Cuts a row-major vector into a `rows` x `columns` matrix: entry `(i, j)`
/// of the result is entry `i * columns + j` of `vec`.
pub fn vec_to_matrix<T: Copy>(vec: Vec<T>, rows: usize, columns: usize) -> (res: Vec<Vec<T>>)
    requires
        rows * columns <= vec.len(),
    ensures
        res@.map_values(|row: Vec<T>| row@) == spec_vec_to_matrix(
            vec@,
            rows as int,
            columns as int,
        ),
{
    let mut res: Vec<Vec<T>> = Vec::new();
    let mut i: usize = 0;
    while i < rows
        invariant
            i <= rows,
            rows * columns <= vec.len(),
            res@.map_values(|row: Vec<T>| row@) =~= spec_vec_to_matrix(
                vec@,
                i as int,
                columns as int,
            ),
        decreases rows - i,
    {
        let mut row: Vec<T> = Vec::new();
        let mut j: usize = 0;
        proof {
            assert(i * columns + columns <= rows * columns) by (nonlinear_arith)
                requires
                    i < rows,
            ;
        }
        let base: usize = i * columns;
        while j < columns
            invariant
                i < rows,
                j <= columns,
                base == i * columns,
                base + columns <= vec.len(),
                row@ =~= Seq::new(j as nat, |k: int| vec@[i * columns + k]),
            decreases columns - j,
        {
            row.push(vec[base + j]);
            j = j + 1;
        }
        let ghost prev = res@;
        res.push(row);
        proof {
            assert(res@.map_values(|row: Vec<T>| row@) =~= prev.map_values(|row: Vec<T>| row@).push(
                row@,
            ));
        }
        i = i + 1;
    }
    res
}

/// Reading the rows of `vec_to_matrix` one after the other gives back the
/// first `rows * columns` entries of the vector it was cut from.
pub proof fn lemma_vec_to_matrix_flatten<T>(v: Seq<T>, rows: int, columns: int)
    requires
        0 <= rows,
        0 <= columns,
        rows * columns <= v.len(),
    ensures
        spec_vec_to_matrix(v, rows, columns).flatten() =~= v.subrange(0, rows * columns),
    decreases rows,
{
    let m = spec_vec_to_matrix(v, rows, columns);
    if rows == 0 {
        assert(0 * columns == 0) by (nonlinear_arith);
    } else {
        assert(rows * columns == columns + (rows - 1) * columns) by (nonlinear_arith);
        assert((rows - 1) * columns >= 0) by (nonlinear_arith)
            requires
                rows >= 1,
                columns >= 0,
        ;
        let rest = v.subrange(columns, v.len() as int);
        lemma_vec_to_matrix_flatten(rest, rows - 1, columns);
        let tail = spec_vec_to_matrix(rest, rows - 1, columns);
        assert forall|i: int| 0 <= i < rows - 1 implies #[trigger] m.drop_first()[i] =~= tail[i] by {
            assert forall|j: int| 0 <= j < columns implies m.drop_first()[i][j] == tail[i][j] by {
                assert((i + 1) * columns + j == i * columns + j + columns) by (nonlinear_arith);
                assert(0 <= i * columns + j < (rows - 1) * columns) by (nonlinear_arith)
                    requires
                        0 <= i < rows - 1,
                        0 <= j < columns,
                ;
            }
        }
        assert(m.drop_first() =~= spec_vec_to_matrix(rest, rows - 1, columns));
        assert(m.first() =~= v.subrange(0, columns)) by {
            assert forall|j: int| 0 <= j < columns implies m.first()[j] == v[j] by {
                assert(0 * columns + j == j) by (nonlinear_arith);
            }
        }
        assert(m.flatten() == m.first() + m.drop_first().flatten());
    }
}

/// Test input for a matrix-matrix product: on process 0 two
/// `rows * columns` vectors, random ones or filled with 1 and 2; on any
/// other process an empty vector and `columns` zeros.
pub fn generate_test_matrix_data(rows: usize, columns: usize, randomize: bool, rank: i32) -> (res: (
    Vec<i64>,
    Vec<i64>,
))
    requires
        rank == 0 ==> rows * columns <= usize::MAX,
    ensures
        rank == 0 && randomize ==> res.0.len() == rows * columns && res.1.len() == rows * columns,
        rank == 0 && !randomize ==> res.0@ == Seq::new((rows * columns) as nat, |i: int| 1i64)
            && res.1@ == Seq::new((rows * columns) as nat, |i: int| 2i64),
        rank != 0 ==> res.0@ == Seq::<i64>::empty() && res.1@ == Seq::new(
            columns as nat,
            |i: int| 0i64,
        ),
{
    if rank == 0 {
        if randomize {
            (random_i64_values(rows * columns), random_i64_values(columns * rows))
        } else {
            (filled(columns * rows, 1i64), filled(columns * rows, 2i64))
        }
    } else {
        (Vec::new(), filled(columns, 0i64))
    }
}

} // verus!
