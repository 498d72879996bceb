use vstd::prelude::*;

use vstd::string::StringExecFns;

use crate::error::MatrixError;
use crate::text::{append_decimal, append_digits, decimal, digits};
use crate::vector::{dot, dot_product, lemma_dot_exact, sum_of_products, Vector};

verus! {

/// How many workers the output cells are spread over.
pub const POOL_SIZE: usize = 4;

/// Row `i` of a `rows × cols` grid lies inside it.
proof fn lemma_row_in_grid(i: int, rows: int, cols: int)
    requires
        0 <= i < rows,
        0 <= cols,
    ensures
        0 <= i * cols,
        i * cols + cols <= rows * cols,
{
    assert(i * cols + cols <= rows * cols) by (nonlinear_arith)
        requires
            0 <= i < rows,
            0 <= cols,
    ;
    assert(0 <= i * cols) by (nonlinear_arith)
        requires
            0 <= i,
            0 <= cols,
    ;
}

/// `i * cols + j` addresses a cell inside a `rows × cols` grid.
proof fn lemma_cell_in_grid(i: int, j: int, rows: int, cols: int)
    requires
        0 <= i < rows,
        0 <= j < cols,
    ensures
        0 <= i * cols + j < rows * cols,
{
    lemma_row_in_grid(i, rows, cols);
}

/// Two different cells of a grid with `cols` columns have different flat
/// indices.
proof fn lemma_cells_apart(i1: int, j1: int, i2: int, j2: int, cols: int)
    requires
        0 <= i1,
        0 <= i2,
        0 <= j1 < cols,
        0 <= j2 < cols,
        i1 != i2 || j1 != j2,
    ensures
        i1 * cols + j1 != i2 * cols + j2,
{
    if i1 < i2 {
        assert(i1 * cols + cols <= i2 * cols) by (nonlinear_arith)
            requires
                i1 < i2,
                0 <= cols,
        ;
    } else if i2 < i1 {
        assert(i2 * cols + cols <= i1 * cols) by (nonlinear_arith)
            requires
                i2 < i1,
                0 <= cols,
        ;
    }
}

/// A dense matrix of `i64`, stored row by row in one flat sequence.
#[derive(Debug)]
pub struct Matrix {
    data: Vec<i64>,
    row: usize,
    col: usize,
}

impl Matrix {
    #[verifier::type_invariant]
    spec fn shaped(&self) -> bool {
        self.data@.len() == self.row * self.col
    }

    pub closed spec fn rows(&self) -> nat {
        self.row as nat
    }

    pub closed spec fn cols(&self) -> nat {
        self.col as nat
    }

    /// The elements, row after row.
    pub closed spec fn entries(&self) -> Seq<i64> {
        self.data@
    }

    /// The flat sequence holds exactly `rows × cols` elements.
    pub open spec fn wf(&self) -> bool {
        self.entries().len() == self.rows() * self.cols()
    }

    /// The element in row `i`, column `j`.
    pub open spec fn at(&self, i: int, j: int) -> i64 {
        self.entries()[i * self.cols() + j]
    }

    /// Row `i`, left to right.
    pub open spec fn row_of(&self, i: int) -> Seq<i64> {
        Seq::new(self.cols(), |t: int| self.at(i, t))
    }

    /// Column `j`, top to bottom.
    pub open spec fn col_of(&self, j: int) -> Seq<i64> {
        Seq::new(self.rows(), |t: int| self.at(t, j))
    }

    /// Views `data` as `row` rows of `col` elements each.
    pub fn new(data: Vec<i64>, row: usize, col: usize) -> (m: Matrix)
        requires
            data@.len() == row * col,
        ensures
            m.rows() == row,
            m.cols() == col,
            m.entries() == data@,
            m.wf(),
    {
        Matrix { data, row, col }
    }

    pub fn row_count(&self) -> (r: usize)
        ensures
            r == self.rows(),
    {
        self.row
    }

    pub fn col_count(&self) -> (r: usize)
        ensures
            r == self.cols(),
    {
        self.col
    }

    /// The elements, row after row.
    pub fn as_vec(&self) -> (r: &Vec<i64>)
        ensures
            r@ == self.entries(),
            r@.len() == self.rows() * self.cols(),
    {
        proof {
            use_type_invariant(self);
        }
        &self.data
    }
}

/// `a * b` is `multiply(&a, &b)`, with `None` in place of the error.
impl std::ops::Mul for Matrix {
    type Output = Option<Matrix>;

    fn mul(self, rhs: Matrix) -> (r: Option<Matrix>)
        ensures
            r is Some <==> self.cols() == rhs.rows(),
            r matches Some(c) ==> is_product(&self, &rhs, &c),
    {
        match multiply(&self, &rhs) {
            Ok(c) => Some(c),
            Err(_) => None,
        }
    }
}

impl vstd::std_specs::ops::MulSpecImpl for Matrix {
    open spec fn obeys_mul_spec() -> bool {
        false
    }

    open spec fn mul_req(self, rhs: Matrix) -> bool {
        self.cols() == rhs.rows() ==> self.rows() * rhs.cols() <= usize::MAX
    }

    open spec fn mul_spec(self, rhs: Matrix) -> Option<Matrix> {
        None
    }
}

/// One output cell's work: the flat index it fills, and the row of the left
/// matrix and the column of the right matrix whose dot product it needs.
pub struct Task {
    pub index: usize,
    pub row: Vector,
    pub col: Vector,
}

/// What a worker hands back for a task: the value of the cell at `index`.
pub struct Reply {
    pub index: usize,
    pub value: i64,
}

/// The value of cell `(i, j)` of the product of `a` and `b`.
pub open spec fn product_cell(a: &Matrix, b: &Matrix, i: int, j: int) -> i64 {
    dot(a.row_of(i), b.col_of(j))
}

/// `c` is the product of `a` and `b`: it has `a`'s rows, `b`'s columns, and
/// each cell is the dot product of the matching row and column.
pub open spec fn is_product(a: &Matrix, b: &Matrix, c: &Matrix) -> bool {
    &&& a.cols() == b.rows()
    &&& c.rows() == a.rows()
    &&& c.cols() == b.cols()
    &&& c.wf()
    &&& forall|i: int, j: int|
        0 <= i < c.rows() && 0 <= j < c.cols() ==> #[trigger] c.at(i, j) == product_cell(a, b, i, j)
}

/// The exact value of cell `(i, j)` of `a × b`: the integer sum of
/// `a[i][t] * b[t][j]` over `t`.
pub open spec fn exact_cell(a: &Matrix, b: &Matrix, i: int, j: int) -> int {
    sum_of_products(a.row_of(i), b.col_of(j), a.cols())
}

/// `m` is the `n × n` identity matrix.
pub open spec fn is_identity(m: &Matrix, n: nat) -> bool {
    &&& m.rows() == n
    &&& m.cols() == n
    &&& forall|i: int, j: int|
        0 <= i < n && 0 <= j < n ==> #[trigger] m.at(i, j) == (if i == j {
            1i64
        } else {
            0i64
        })
}

/// Two well-formed matrices of the same shape that agree on every cell have
/// the same entries.
proof fn lemma_same_cells(x: &Matrix, y: &Matrix)
    requires
        x.wf(),
        y.wf(),
        x.rows() == y.rows(),
        x.cols() == y.cols(),
        forall|i: int, j: int|
            0 <= i < x.rows() && 0 <= j < x.cols() ==> #[trigger] x.at(i, j) == y.at(i, j),
    ensures
        x.entries() == y.entries(),
{
    let rows = x.rows() as int;
    let cols = x.cols() as int;
    assert forall|k: int| 0 <= k < x.entries().len() implies x.entries()[k] == y.entries()[k] by {
        let i = k / cols;
        let j = k % cols;
        assert(cols > 0) by (nonlinear_arith)
            requires
                0 <= k < rows * cols,
                rows >= 0,
        ;
        vstd::arithmetic::div_mod::lemma_fundamental_div_mod(k, cols);
        assert(0 <= j < cols);
        assert(0 <= i < rows) by (nonlinear_arith)
            requires
                k == cols * i + j,
                0 <= j < cols,
                0 <= k < rows * cols,
        ;
        assert(i * cols + j == k) by (nonlinear_arith)
            requires
                k == cols * i + j,
        ;
        assert(x.at(i, j) == y.at(i, j));
    }
    assert(x.entries() =~= y.entries());
}

/// Every cell of a product of `a` and `b` equals the exact sum
/// `a[i][0] * b[0][j] + ... + a[i][k-1] * b[k-1][j]` whenever that sum fits
/// in `i64`.
pub proof fn lemma_product_exact(a: &Matrix, b: &Matrix, c: &Matrix, i: int, j: int)
    requires
        is_product(a, b, c),
        0 <= i < c.rows(),
        0 <= j < c.cols(),
        i64::MIN <= exact_cell(a, b, i, j) <= i64::MAX,
    ensures
        c.at(i, j) == exact_cell(a, b, i, j),
{
    lemma_dot_exact(a.row_of(i), b.col_of(j));
}

/// The sum of products of `r` with a sequence that is one at `j` and zero
/// elsewhere picks out `r[j]`.
proof fn lemma_sum_with_unit(r: Seq<i64>, e: Seq<i64>, j: int, n: nat)
    requires
        n <= r.len(),
        e.len() == r.len(),
        0 <= j < r.len(),
        forall|t: int| 0 <= t < e.len() ==> #[trigger] e[t] == (if t == j {
            1i64
        } else {
            0i64
        }),
    ensures
        sum_of_products(r, e, n) == (if n > j {
            r[j] as int
        } else {
            0
        }),
    decreases n,
{
    if n > 0 {
        let t = n - 1;
        lemma_sum_with_unit(r, e, j, t as nat);
        if t == j {
            assert(e[t] == 1);
            assert(r[t] * e[t] == r[t]);
        } else {
            assert(e[t] == 0);
            assert(r[t] * e[t] == 0);
        }
    }
}

/// Multiplying by the identity matrix on the right gives back the left
/// matrix unchanged.
pub proof fn lemma_right_identity(a: &Matrix, id: &Matrix, c: &Matrix)
    requires
        a.wf(),
        is_identity(id, a.cols()),
        is_product(a, id, c),
    ensures
        c.rows() == a.rows(),
        c.cols() == a.cols(),
        c.entries() == a.entries(),
{
    assert forall|i: int, j: int| 0 <= i < c.rows() && 0 <= j < c.cols() implies #[trigger] c.at(
        i,
        j,
    ) == a.at(i, j) by {
        let r = a.row_of(i);
        let e = id.col_of(j);
        assert forall|t: int| 0 <= t < e.len() implies #[trigger] e[t] == (if t == j {
            1i64
        } else {
            0i64
        }) by {
            assert(id.at(t, j) == (if t == j {
                1i64
            } else {
                0i64
            }));
        }
        lemma_sum_with_unit(r, e, j, r.len());
        lemma_product_exact(a, id, c, i, j);
    }
    lemma_same_cells(c, a);
}

/// The product of two matrices is unique: any two results of multiplying
/// the same `a` and `b` are identical, element for element.
pub proof fn lemma_product_unique(a: &Matrix, b: &Matrix, c1: &Matrix, c2: &Matrix)
    requires
        is_product(a, b, c1),
        is_product(a, b, c2),
    ensures
        c1.rows() == c2.rows(),
        c1.cols() == c2.cols(),
        c1.entries() == c2.entries(),
{
    assert forall|i: int, j: int| 0 <= i < c1.rows() && 0 <= j < c1.cols() implies #[trigger] c1.at(
        i,
        j,
    ) == c2.at(i, j) by {
        assert(c1.at(i, j) == product_cell(a, b, i, j));
        assert(c2.at(i, j) == product_cell(a, b, i, j));
    }
    lemma_same_cells(c1, c2);
}

/// A product with no rows or no columns has no elements at all.
pub proof fn lemma_empty_product(a: &Matrix, b: &Matrix, c: &Matrix)
    requires
        is_product(a, b, c),
        a.rows() == 0 || b.cols() == 0,
    ensures
        c.entries().len() == 0,
{
}

/// The product of a `1 × 1` and a `1 × 1` matrix holds the product of their
/// single elements.
pub proof fn lemma_scalar_product(a: &Matrix, b: &Matrix, c: &Matrix)
    requires
        is_product(a, b, c),
        a.rows() == 1,
        a.cols() == 1,
        b.cols() == 1,
    ensures
        c.entries().len() == 1,
        c.at(0, 0) == a.at(0, 0).wrapping_mul(b.at(0, 0)),
{
    let r = a.row_of(0);
    let k = b.col_of(0);
    assert(r[0] == a.at(0, 0));
    assert(k[0] == b.at(0, 0));
    assert(crate::vector::dot_upto(r, k, 0) == 0);
    assert(dot(r, k) == (0i64).wrapping_add(r[0].wrapping_mul(k[0])));
}

/// The worker that the task filling flat index `index` is sent to.
pub fn worker_for(index: usize) -> (w: usize)
    ensures
        w == index % POOL_SIZE,
        w < POOL_SIZE,
{
    index % POOL_SIZE
}

/// Builds the task for output cell `(i, j)` of `a × b`: row `i` of `a` as a
/// slice copy, column `j` of `b` gathered with stride `b`'s column count.
pub fn make_task(a: &Matrix, b: &Matrix, i: usize, j: usize) -> (t: Task)
    requires
        a.cols() == b.rows(),
        i < a.rows(),
        j < b.cols(),
        a.rows() * b.cols() <= usize::MAX,
    ensures
        t.index == i * b.cols() + j,
        t.row@ == a.row_of(i as int),
        t.col@ == b.col_of(j as int),
{
    proof {
        use_type_invariant(a);
        use_type_invariant(b);
        lemma_row_in_grid(i as int, a.rows() as int, a.cols() as int);
        lemma_cell_in_grid(i as int, j as int, a.rows() as int, b.cols() as int);
    }
    let a_len = a.data.len();
    let b_len = b.data.len();
    let k = a.col;
    let n = b.col;
    let start = i * k;
    let mut row: Vec<i64> = Vec::new();
    let mut t: usize = 0;
    while t < k
        invariant
            k == a.cols(),
            start == i * k,
            i < a.rows(),
            a.data@.len() == a.rows() * a.cols(),
            a_len == a.data@.len(),
            start + k <= a.data@.len(),
            t <= k,
            row@ == a.row_of(i as int).take(t as int),
        decreases k - t,
    {
        row.push(a.data[start + t]);
        t = t + 1;
        assert(row@ =~= a.row_of(i as int).take(t as int));
    }
    let mut col: Vec<i64> = Vec::new();
    let mut t: usize = 0;
    while t < k
        invariant
            k == b.rows(),
            n == b.cols(),
            j < n,
            b.data@.len() == b.rows() * b.cols(),
            b_len == b.data@.len(),
            t <= k,
            col@ == b.col_of(j as int).take(t as int),
        decreases k - t,
    {
        proof {
            lemma_cell_in_grid(t as int, j as int, k as int, n as int);
        }
        col.push(b.data[t * n + j]);
        t = t + 1;
        assert(col@ =~= b.col_of(j as int).take(t as int));
    }
    assert(row@ =~= a.row_of(i as int));
    assert(col@ =~= b.col_of(j as int));
    Task { index: i * n + j, row: Vector::new(row), col: Vector::new(col) }
}

/// Runs one task: the dot product of its row and column, tagged with its
/// index. Fails only when the row and column lengths differ.
pub fn run_task(task: Task) -> (r: Result<Reply, MatrixError>)
    ensures
        r is Ok <==> task.row@.len() == task.col@.len(),
        r matches Ok(reply) ==> reply.index == task.index && reply.value == dot(
            task.row@,
            task.col@,
        ),
        r matches Err(e) ==> e == MatrixError::DimensionMismatch,
{
    let index = task.index;
    match dot_product(task.row, task.col) {
        Ok(value) => Ok(Reply { index, value }),
        Err(e) => Err(e),
    }
}

/// Multiplies `a` (`m × k`) by `b` (`k × n`): one task per output cell,
/// enumerated row by row, each reply written at the index it carries.
/// Fails with `DimensionMismatch` when `a`'s column count differs from
/// `b`'s row count.
pub fn multiply(a: &Matrix, b: &Matrix) -> (r: Result<Matrix, MatrixError>)
    requires
        a.cols() == b.rows() ==> a.rows() * b.cols() <= usize::MAX,
    ensures
        r is Ok <==> a.cols() == b.rows(),
        r matches Ok(c) ==> is_product(a, b, &c),
        r matches Err(e) ==> e == MatrixError::DimensionMismatch,
{
    if a.col != b.row {
        return Err(MatrixError::DimensionMismatch);
    }
    let m = a.row;
    let n = b.col;
    let size = m * n;
    let mut data: Vec<i64> = Vec::new();
    while data.len() < size
        invariant
            data@.len() <= size,
        decreases size - data@.len(),
    {
        data.push(0);
    }
    let mut i: usize = 0;
    while i < m
        invariant
            m == a.rows(),
            n == b.cols(),
            size == m * n,
            a.cols() == b.rows(),
            m * n <= usize::MAX,
            i <= m,
            data@.len() == size,
            forall|ii: int, jj: int|
                0 <= ii < i && 0 <= jj < n ==> #[trigger] data@[ii * n + jj] == product_cell(
                    a,
                    b,
                    ii,
                    jj,
                ),
        decreases m - i,
    {
        let mut j: usize = 0;
        while j < n
            invariant
                m == a.rows(),
                n == b.cols(),
                size == m * n,
                a.cols() == b.rows(),
                m * n <= usize::MAX,
                i < m,
                j <= n,
                data@.len() == size,
                forall|ii: int, jj: int|
                    0 <= ii < i && 0 <= jj < n ==> #[trigger] data@[ii * n + jj]
                        == product_cell(a, b, ii, jj),
                forall|jj: int|
                    0 <= jj < j ==> #[trigger] data@[i * n + jj] == product_cell(
                        a,
                        b,
                        i as int,
                        jj,
                    ),
            decreases n - j,
        {
            proof {
                lemma_cell_in_grid(i as int, j as int, m as int, n as int);
            }
            let task = make_task(a, b, i, j);
            let reply = match run_task(task) {
                Ok(reply) => reply,
                Err(e) => return Err(e),
            };
            let ghost before = data@;
            data.set(reply.index, reply.value);
            proof {
                assert forall|ii: int, jj: int|
                    0 <= ii < i && 0 <= jj < n implies #[trigger] data@[ii * n + jj]
                        == product_cell(a, b, ii, jj) by {
                    lemma_cells_apart(ii, jj, i as int, j as int, n as int);
                    lemma_cell_in_grid(ii, jj, m as int, n as int);
                    assert(data@[ii * n + jj] == before[ii * n + jj]);
                }
                assert forall|jj: int| 0 <= jj < j + 1 implies #[trigger] data@[i * n + jj]
                    == product_cell(a, b, i as int, jj) by {
                    if jj < j {
                        lemma_cells_apart(i as int, jj, i as int, j as int, n as int);
                        lemma_cell_in_grid(i as int, jj, m as int, n as int);
                        assert(data@[i * n + jj] == before[i * n + jj]);
                    }
                }
            }
            j = j + 1;
        }
        i = i + 1;
    }
    let c = Matrix { data, row: m, col: n };
    assert(c.wf());
    assert forall|i: int, j: int| 0 <= i < c.rows() && 0 <= j < c.cols() implies #[trigger] c.at(
        i,
        j,
    ) == product_cell(a, b, i, j) by {
        lemma_cell_in_grid(i, j, m as int, n as int);
        assert(data@[i * n + j] == product_cell(a, b, i, j));
    }
    Ok(c)
}

impl Matrix {
    /// The first `n` elements of row `i`, each in decimal, separated by
    /// single spaces.
    pub open spec fn row_text(&self, i: int, n: nat) -> Seq<char>
        decreases n,
    {
        if n == 0 {
            seq![]
        } else if n == 1 {
            decimal(self.at(i, 0) as int)
        } else {
            self.row_text(i, (n - 1) as nat) + seq![' '] + decimal(self.at(i, n - 1) as int)
        }
    }

    /// The first `n` rows, each as `row_text`, separated by `", "`.
    pub open spec fn rows_text(&self, n: nat) -> Seq<char>
        decreases n,
    {
        if n == 0 {
            seq![]
        } else if n == 1 {
            self.row_text(0, self.cols())
        } else {
            self.rows_text((n - 1) as nat) + seq![',', ' '] + self.row_text(n - 1, self.cols())
        }
    }

    /// The matrix as text: its rows, comma separated, inside braces.
    pub open spec fn text(&self) -> Seq<char> {
        seq!['{'] + self.rows_text(self.rows()) + seq!['}']
    }

    /// Renders the matrix as `{1 2 3, 4 5 6}`.
    pub fn to_string(&self) -> (r: String)
        ensures
            r@ == self.text(),
    {
        proof {
            use_type_invariant(self);
            reveal_strlit("{");
            reveal_strlit("}");
        }
        let len = self.data.len();
        let rows = self.row;
        let cols = self.col;
        let mut s = String::from_str("{");
        let mut i: usize = 0;
        while i < rows
            invariant
                rows == self.rows(),
                cols == self.cols(),
                self.data@.len() == self.rows() * self.cols(),
                len == self.data@.len(),
                i <= rows,
                s@ == seq!['{'] + self.rows_text(i as nat),
            decreases rows - i,
        {
            let ghost before = s@;
            proof {
                reveal_strlit(", ");
            }
            if i > 0 {
                s = s.concat(", ");
            }
            assert(i > 0 ==> s@ == before + seq![',', ' ']);
            assert(i == 0 ==> s@ == before);
            let ghost line_start = s@;
            let mut j: usize = 0;
            while j < cols
                invariant
                    rows == self.rows(),
                    cols == self.cols(),
                    self.data@.len() == self.rows() * self.cols(),
                    len == self.data@.len(),
                    i < rows,
                    j <= cols,
                    s@ == line_start + self.row_text(i as int, j as nat),
                decreases cols - j,
            {
                proof {
                    lemma_cell_in_grid(i as int, j as int, rows as int, cols as int);
                }
                proof {
                    reveal_strlit(" ");
                }
                if j > 0 {
                    s = s.concat(" ");
                }
                s = append_decimal(s, self.data[i * cols + j]);
                assert(s@ =~= line_start + self.row_text(i as int, (j + 1) as nat));
                j = j + 1;
            }
            assert(s@ =~= seq!['{'] + self.rows_text((i + 1) as nat));
            i = i + 1;
        }
        let r = s.concat("}");
        assert(r@ =~= self.text());
        r
    }

    /// Renders the matrix with its shape, as `Matrix(row=2,col=2,{22 28, 49 64}`.
    pub fn debug_string(&self) -> (r: String)
        ensures
            r@ == "Matrix(row="@ + digits(self.rows()) + ",col="@ + digits(self.cols()) + ","@
                + self.text(),
    {
        let s = String::from_str("Matrix(row=");
        let s = append_digits(s, self.row as u64);
        let s = s.concat(",col=");
        let s = append_digits(s, self.col as u64);
        let s = s.concat(",");
        let r = s.concat(self.to_string().as_str());
        r
    }
}

} // verus!
