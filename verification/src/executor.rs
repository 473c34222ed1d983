use vstd::prelude::*;
use crate::matrix::filled;
use crate::random::random_i64_values;
use vstd::arithmetic::div_mod::{lemma_fundamental_div_mod, lemma_fundamental_div_mod_converse};

verus! {

/// Number of matrix entries that process `index` of a group of `size`
/// processes is given when `rows` rows of `columns` entries are split by
/// rows: every process gets `rows / size` rows, the last one also gets the
/// `rows % size` rows that are left over.
pub open spec fn distribution_entry(rows: int, columns: int, size: int, index: int) -> int {
    if index == size - 1 {
        (rows / size + rows % size) * columns
    } else {
        (rows / size) * columns
    }
}

/// Sum of a sequence of counts.
pub open spec fn sum_counts(s: Seq<i32>) -> int
    decreases s.len(),
{
    if s.len() == 0 {
        0
    } else {
        sum_counts(s.drop_last()) + s.last()
    }
}

/// Start and end (exclusive) of the run of flattened matrix entries that
/// process `rank` works on, given the per-process counts: process 0 keeps the
/// first `counts[0]` entries, a process of rank `r >= 1` is sent the entries
/// from `counts[r - 1]` up to `2 * counts[r - 1]`.
pub open spec fn spec_block_bounds(counts: Seq<i32>, rank: int) -> (int, int) {
    if rank == 0 {
        (0, counts[0] as int)
    } else {
        (counts[rank - 1] as int, 2 * counts[rank - 1])
    }
}

/// Running sum, over the first `n` flattened matrix entries, of the products
/// `vector[j] * matrix[k]` for the entries `k` that lie in column `j`.
pub open spec fn column_partial(matrix: Seq<i64>, vector: Seq<i64>, columns: int, n: int, j: int) -> int
    decreases n,
{
    if n <= 0 {
        0
    } else {
        column_partial(matrix, vector, columns, n - 1, j) + (if (n - 1) % columns == j {
            vector[j] * matrix[n - 1]
        } else {
            0
        })
    }
}

/// Sum over the first `r` full rows of a row-major block of the products
/// `vector[j] * matrix[i * columns + j]`: the column sum that the local step
/// of the matrix-vector product forms for column `j`, written row by row.
pub open spec fn block_column_sum(matrix: Seq<i64>, vector: Seq<i64>, columns: int, r: int, j: int) -> int
    decreases r,
{
    if r <= 0 {
        0
    } else {
        block_column_sum(matrix, vector, columns, r - 1, j) + vector[j] * matrix[(r - 1) * columns
            + j]
    }
}

/// Whether every product and every running sum that the column
/// accumulation forms stays within `i64`.
pub open spec fn column_sums_fit(matrix: Seq<i64>, vector: Seq<i64>, columns: int) -> bool {
    forall|k: int|
        0 <= k < matrix.len() ==> {
            &&& i64::MIN <= vector[k % columns] * #[trigger] matrix[k] <= i64::MAX
            &&& i64::MIN <= column_partial(matrix, vector, columns, k + 1, k % columns) <= i64::MAX
        }
}

/// The place of one process in a group of cooperating processes: how many
/// processes the group has and which one of them this is.
pub struct Executor {
    size: i32,
    rank: i32,
}

impl Executor {
    #[verifier::type_invariant]
    closed spec fn inv(self) -> bool {
        0 < self.size && 0 <= self.rank < self.size
    }

    /// Number of processes in the group.
    pub closed spec fn spec_size(self) -> int {
        self.size as int
    }

    /// Index of this process in the group.
    pub closed spec fn spec_rank(self) -> int {
        self.rank as int
    }

    /// The executor of process `rank` in a group of `size` processes.
    pub fn new(size: i32, rank: i32) -> (e: Executor)
        requires
            0 < size,
            0 <= rank < size,
        ensures
            e.spec_size() == size,
            e.spec_rank() == rank,
    {
        Executor { size, rank }
    }

    pub fn size(&self) -> (s: i32)
        ensures
            s == self.spec_size(),
            0 < s,
    {
        proof {
            use_type_invariant(self);
        }
        self.size
    }

    pub fn rank(&self) -> (r: i32)
        ensures
            r == self.spec_rank(),
            0 <= r < self.spec_size(),
    {
        proof {
            use_type_invariant(self);
        }
        self.rank
    }

    /// How many entries of a `rows` x `columns` matrix each process of the
    /// group receives when the matrix is split by whole rows. The counts are
    /// `i32` values; the row number is read as an `i32` too, so it must fit
    /// there unless the rows are empty.
    pub fn get_distribution(&self, rows: usize, columns: usize) -> (res: Vec<i32>)
        requires
            columns == 0 || rows <= i32::MAX,
            (rows as int / self.spec_size() + rows as int % self.spec_size()) * columns <= i32::MAX,
        ensures
            res.len() == self.spec_size(),
            forall|i: int|
                0 <= i < res.len() ==> #[trigger] res[i] == distribution_entry(
                    rows as int,
                    columns as int,
                    self.spec_size(),
                    i,
                ),
            sum_counts(res@) == rows * columns,
    {
        proof {
            use_type_invariant(self);
        }
        let size = self.size as usize;
        let q: usize = rows / size;
        let r: usize = rows % size;
        proof {
            assert(q + r <= rows) by (nonlinear_arith)
                requires
                    q == rows as int / size as int,
                    r == rows as int % size as int,
                    0 < size,
                    0 <= rows,
            ;
            lemma_share_bounds(q as int, r as int, columns as int);
        }
        let share: i32 = (q * columns) as i32;
        let last: i32 = ((q + r) * columns) as i32;
        let mut res: Vec<i32> = Vec::new();
        let mut i: usize = 0;
        while i + 1 < size
            invariant
                size == self.spec_size(),
                0 < size,
                i + 1 <= size,
                q == rows as int / size as int,
                r == rows as int % size as int,
                share == q * columns,
                res.len() == i,
                forall|k: int|
                    0 <= k < i ==> #[trigger] res[k] == distribution_entry(
                        rows as int,
                        columns as int,
                        size as int,
                        k,
                    ),
                sum_counts(res@) == i * share,
            decreases size - i,
        {
            let ghost prev = res@;
            res.push(share);
            proof {
                assert(res@.drop_last() =~= prev);
                assert(i * share + share == (i + 1) * share) by (nonlinear_arith);
            }
            i = i + 1;
        }
        let ghost prev = res@;
        res.push(last);
        proof {
            assert(res@.drop_last() =~= prev);
            lemma_distribution_total(rows as int, columns as int, size as int);
        }
        res
    }

    /// Test input for a matrix-vector product: on process 0 a
    /// `rows * columns` matrix and a `columns` vector, random ones or filled
    /// with 1 and 2; on any other process an empty matrix and `columns` zeros.
    pub fn generate_test_data(rows: usize, columns: usize, randomize: bool, rank: i32) -> (res: (
        Vec<i64>,
        Vec<i64>,
    ))
        requires
            rank == 0 ==> rows * columns <= usize::MAX,
        ensures
            rank == 0 && randomize ==> res.0.len() == rows * columns && res.1.len() == columns,
            rank == 0 && !randomize ==> res.0@ == Seq::new((rows * columns) as nat, |i: int| 1i64)
                && res.1@ == Seq::new(columns as nat, |i: int| 2i64),
            rank != 0 ==> res.0@ == Seq::<i64>::empty() && res.1@ == Seq::new(
                columns as nat,
                |i: int| 0i64,
            ),
    {
        if rank == 0 {
            if randomize {
                (random_i64_values(rows * columns), random_i64_values(columns))
            } else {
                (filled(columns * rows, 1i64), filled(columns, 2i64))
            }
        } else {
            (Vec::new(), filled(columns, 0i64))
        }
    }
}

/// The run of flattened matrix entries that process `rank` works on in the
/// distributed matrix-vector product.
pub fn block_bounds(counts: &Vec<i32>, rank: usize) -> (res: (usize, usize))
    requires
        rank < counts.len(),
        rank == 0 ==> counts[0] >= 0,
        rank > 0 ==> counts[rank - 1] >= 0,
    ensures
        res.0 == spec_block_bounds(counts@, rank as int).0,
        res.1 == spec_block_bounds(counts@, rank as int).1,
{
    if rank == 0 {
        (0, counts[0] as usize)
    } else {
        let prev = counts[rank - 1] as usize;
        (prev, prev + prev)
    }
}

/// The local step of the distributed matrix-vector product: entry `j` of
/// the result is the sum, over the entries `k` of the row-major block
/// `matrix` that lie in column `j`, of `vector[j] * matrix[k]`.
pub fn local_column_products(matrix: &Vec<i64>, vector: &Vec<i64>, columns: usize) -> (res: Vec<i64>)
    requires
        matrix.len() == 0 || (0 < columns && (columns <= vector.len() || matrix.len() <= vector.len())),
        column_sums_fit(matrix@, vector@, columns as int),
    ensures
        res.len() == columns,
        forall|j: int|
            0 <= j < columns ==> #[trigger] res[j] == column_partial(
                matrix@,
                vector@,
                columns as int,
                matrix.len() as int,
                j,
            ),
        columns > 0 && matrix.len() as int % columns as int == 0 ==> forall|j: int|
            0 <= j < columns ==> #[trigger] res[j] == block_column_sum(
                matrix@,
                vector@,
                columns as int,
                matrix.len() as int / columns as int,
                j,
            ),
{
    let mut res: Vec<i64> = filled(columns, 0i64);
    let mut column: usize = 0;
    let mut k: usize = 0;
    while k < matrix.len()
        invariant
            matrix.len() == 0 || (0 < columns && (columns <= vector.len() || matrix.len()
                <= vector.len())),
            column_sums_fit(matrix@, vector@, columns as int),
            k <= matrix.len(),
            res.len() == columns,
            k < matrix.len() ==> column == k as int % columns as int,
            k < matrix.len() ==> column < columns,
            forall|j: int|
                0 <= j < columns ==> #[trigger] res[j] == column_partial(
                    matrix@,
                    vector@,
                    columns as int,
                    k as int,
                    j,
                ),
        decreases matrix.len() - k,
    {
        proof {
            assert(column < vector.len()) by {
                if !(columns <= vector.len()) {
                    assert(k < vector.len());
                    assert(column <= k) by (nonlinear_arith)
                        requires
                            column == k as int % columns as int,
                            0 < columns,
                    ;
                }
            }
            let kk = k as int;
            assert(i64::MIN <= vector[kk % columns as int] * matrix[kk] <= i64::MAX);
            assert(i64::MIN <= column_partial(matrix@, vector@, columns as int, kk + 1, kk % columns as int) <= i64::MAX);
        }
        let value = vector[column] * matrix[k];
        let sum = res[column] + value;
        res.set(column, sum);
        proof {
            assert forall|j: int| 0 <= j < columns implies #[trigger] res[j] == column_partial(
                matrix@,
                vector@,
                columns as int,
                k + 1,
                j,
            ) by {}
        }
        column = column + 1;
        if column == columns {
            column = 0;
        }
        proof {
            let kk = k as int;
            let c = columns as int;
            if kk + 1 < matrix.len() {
                assert((kk + 1) % c == if kk % c + 1 == c { 0 } else { kk % c + 1 }) by (nonlinear_arith)
                    requires
                        0 < c,
                        0 <= kk,
                ;
            }
        }
        k = k + 1;
    }
    proof {
        if columns > 0 && matrix.len() as int % columns as int == 0 {
            let c = columns as int;
            let r = matrix.len() as int / c;
            lemma_fundamental_div_mod(matrix.len() as int, c);
            assert(matrix.len() == r * c) by (nonlinear_arith)
                requires
                    matrix.len() == c * r + 0,
            ;
            assert forall|j: int| 0 <= j < columns implies #[trigger] res[j] == block_column_sum(
                matrix@,
                vector@,
                c,
                r,
                j,
            ) by {
                lemma_block_column_sums(matrix@, vector@, c, r, j);
            }
        }
    }
    res
}


proof fn lemma_share_bounds(q: int, r: int, c: int)
    requires
        0 <= q,
        0 <= r,
        0 <= c,
        (q + r) * c <= i32::MAX,
    ensures
        0 <= q * c <= (q + r) * c,
{
    assert(0 <= q * c <= (q + r) * c) by (nonlinear_arith)
        requires
            0 <= q,
            0 <= r,
            0 <= c,
    ;
}

/// The counts of all processes together cover the matrix exactly once:
/// `size - 1` equal shares and a last share holding the left-over rows add
/// up to `rows * columns`.
pub proof fn lemma_distribution_total(rows: int, columns: int, size: int)
    requires
        0 <= rows,
        0 <= columns,
        0 < size,
    ensures
        (size - 1) * ((rows / size) * columns) + (rows / size + rows % size) * columns == rows
            * columns,
{
    let q = rows / size;
    let r = rows % size;
    assert(rows == size * q + r) by (nonlinear_arith)
        requires
            0 < size,
            q == rows / size,
            r == rows % size,
    ;
    assert((size - 1) * (q * columns) + (q + r) * columns == (size * q + r) * columns)
        by (nonlinear_arith);
}


/// With the counts that `get_distribution` hands out, the run of entries
/// that every process works on lies inside the flattened `rows` x `columns`
/// matrix, so cutting out the blocks never reads past its end.
pub proof fn lemma_blocks_within_matrix(
    counts: Seq<i32>,
    rows: int,
    columns: int,
    size: int,
    rank: int,
)
    requires
        0 <= rows,
        0 <= columns,
        0 < size,
        0 <= rank < size,
        counts.len() == size,
        forall|i: int|
            0 <= i < size ==> #[trigger] counts[i] == distribution_entry(rows, columns, size, i),
    ensures
        0 <= spec_block_bounds(counts, rank).0 <= spec_block_bounds(counts, rank).1 <= rows
            * columns,
{
    let q = rows / size;
    let r = rows % size;
    lemma_distribution_total(rows, columns, size);
    assert(0 <= q * columns && 0 <= r * columns && 0 <= (size - 1) * (q * columns))
        by (nonlinear_arith)
        requires
            0 <= q,
            0 <= r,
            0 <= columns,
            1 <= size,
    ;
    assert((q + r) * columns == q * columns + r * columns) by (nonlinear_arith);
    if rank > 0 {
        assert(counts[rank - 1] == q * columns);
        assert(2 * (q * columns) <= (size - 1) * (q * columns) + (q + r) * columns)
            by (nonlinear_arith)
            requires
                2 <= size,
                0 <= q * columns,
                0 <= r * columns,
                (q + r) * columns == q * columns + r * columns,
        ;
    } else {
        assert(counts[0] <= (size - 1) * (q * columns) + (q + r) * columns);
    }
}


/// Which entries the blocks of all processes cover together, for a group of
/// at least two processes: process 0 keeps the first `(rows / size) *
/// columns` entries and every other process is sent the next run of the same
/// length. So the blocks together cover exactly the first
/// `2 * (rows / size) * columns` entries; the rest of the matrix lies in no
/// block.
pub proof fn lemma_blocks_cover(counts: Seq<i32>, rows: int, columns: int, size: int)
    requires
        0 <= rows,
        0 <= columns,
        2 <= size,
        counts.len() == size,
        forall|i: int|
            0 <= i < size ==> #[trigger] counts[i] == distribution_entry(rows, columns, size, i),
    ensures
        spec_block_bounds(counts, 0) == (0int, (rows / size) * columns),
        forall|r: int|
            1 <= r < size ==> #[trigger] spec_block_bounds(counts, r) == ((rows / size) * columns,
                2 * ((rows / size) * columns)),
{
    assert(counts[0] == distribution_entry(rows, columns, size, 0));
    assert forall|r: int| 1 <= r < size implies #[trigger] spec_block_bounds(counts, r) == (
        (rows / size) * columns,
        2 * ((rows / size) * columns),
    ) by {
        assert(counts[r - 1] == distribution_entry(rows, columns, size, r - 1));
    }
}


/// One more full row of the block adds exactly one product to every column:
/// when the first `n` entries are whole rows, column `j` of the first
/// `n + columns` entries is that of the first `n` plus
/// `vector[j] * matrix[n + j]`.
pub proof fn lemma_column_partial_row_step(
    matrix: Seq<i64>,
    vector: Seq<i64>,
    columns: int,
    n: int,
    j: int,
)
    requires
        0 < columns,
        0 <= n,
        n % columns == 0,
        0 <= j < columns,
    ensures
        column_partial(matrix, vector, columns, n + columns, j) == column_partial(
            matrix,
            vector,
            columns,
            n,
            j,
        ) + vector[j] * matrix[n + j],
{
    lemma_column_partial_within_row(matrix, vector, columns, n, j, columns);
}

proof fn lemma_column_partial_within_row(
    matrix: Seq<i64>,
    vector: Seq<i64>,
    columns: int,
    n: int,
    j: int,
    t: int,
)
    requires
        0 < columns,
        0 <= n,
        n % columns == 0,
        0 <= j < columns,
        0 <= t <= columns,
    ensures
        column_partial(matrix, vector, columns, n + t, j) == column_partial(
            matrix,
            vector,
            columns,
            n,
            j,
        ) + (if j < t { vector[j] * matrix[n + j] } else { 0 }),
    decreases t,
{
    if t > 0 {
        lemma_column_partial_within_row(matrix, vector, columns, n, j, t - 1);
        let q = n / columns;
        lemma_fundamental_div_mod(n, columns);
        assert(n + (t - 1) == q * columns + (t - 1)) by (nonlinear_arith)
            requires
                n == columns * q + n % columns,
                n % columns == 0,
        ;
        lemma_fundamental_div_mod_converse(n + (t - 1), columns, q, t - 1);
    }
}

/// For a block of `r` full rows, the column sums that the local step of the
/// matrix-vector product forms are the sums over all rows of the block:
/// column `j` of the first `r * columns` entries is
/// `sum_{i < r} vector[j] * matrix[i * columns + j]`.
pub proof fn lemma_block_column_sums(
    matrix: Seq<i64>,
    vector: Seq<i64>,
    columns: int,
    r: int,
    j: int,
)
    requires
        0 < columns,
        0 <= r,
        0 <= j < columns,
    ensures
        column_partial(matrix, vector, columns, r * columns, j) == block_column_sum(
            matrix,
            vector,
            columns,
            r,
            j,
        ),
    decreases r,
{
    if r == 0 {
        assert(0 * columns == 0) by (nonlinear_arith);
    } else {
        lemma_block_column_sums(matrix, vector, columns, r - 1, j);
        let n = (r - 1) * columns;
        assert(n >= 0 && n + columns == r * columns) by (nonlinear_arith)
            requires
                n == (r - 1) * columns,
                r >= 1,
                columns > 0,
        ;
        lemma_fundamental_div_mod_converse(n, columns, r - 1, 0);
        lemma_column_partial_row_step(matrix, vector, columns, n, j);
    }
}

} // verus!
