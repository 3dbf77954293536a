//! Dense row-major matrices over 64-bit integers.
//!
//! Every arithmetic operation returns a fresh matrix; nothing mutates `self`.
//! Element arithmetic wraps around on overflow, and each contract states the
//! result exactly in terms of the wrapping operations, so all operations are
//! total over well-formed matrices of compatible shapes.

use vstd::prelude::*;

verus! {

/// Wrapping addition on elements, as specified by vstd for `i64::wrapping_add`.
pub open spec fn wadd(x: i64, y: i64) -> i64 {
    vstd::wrapping::i64_specs::wrapping_add(x, y)
}

/// Wrapping subtraction on elements.
pub open spec fn wsub(x: i64, y: i64) -> i64 {
    vstd::wrapping::i64_specs::wrapping_sub(x, y)
}

/// Wrapping multiplication on elements.
pub open spec fn wmul(x: i64, y: i64) -> i64 {
    vstd::wrapping::i64_specs::wrapping_mul(x, y)
}

/// Elementwise sum of two flat element sequences.
pub open spec fn ew_add(a: Seq<i64>, b: Seq<i64>) -> Seq<i64> {
    Seq::new(a.len(), |k: int| wadd(a[k], b[k]))
}

/// Elementwise difference (`a - b`) of two flat element sequences.
pub open spec fn ew_sub(a: Seq<i64>, b: Seq<i64>) -> Seq<i64> {
    Seq::new(a.len(), |k: int| wsub(a[k], b[k]))
}

/// Elementwise (Hadamard) product of two flat element sequences.
pub open spec fn ew_mul(a: Seq<i64>, b: Seq<i64>) -> Seq<i64> {
    Seq::new(a.len(), |k: int| wmul(a[k], b[k]))
}

/// Every element multiplied by the scalar `s`.
pub open spec fn ew_scale(a: Seq<i64>, s: i64) -> Seq<i64> {
    Seq::new(a.len(), |k: int| wmul(a[k], s))
}

/// The flat data of the transpose of a `rows x cols` matrix stored in `d`.
pub open spec fn trans_of(rows: int, cols: int, d: Seq<i64>) -> Seq<i64> {
    Seq::new((rows * cols) as nat, |p: int| d[(p % rows) * cols + p / rows])
}

/// Partial inner product of row `i` of `a` (row length `ac`) with column `j`
/// of `b` (row length `bc`), over the first `n` terms, accumulated with
/// wrapping arithmetic in index order.
pub open spec fn dot_at(a: Seq<i64>, ac: int, b: Seq<i64>, bc: int, i: int, j: int, n: int) -> i64
    decreases n,
{
    if n <= 0 {
        0
    } else {
        wadd(dot_at(a, ac, b, bc, i, j, n - 1), wmul(a[i * ac + (n - 1)], b[(n - 1) * bc + j]))
    }
}

/// The flat data of the matrix product of an `ar x ac` matrix `a` with an
/// `ac x bc` matrix `b`.
pub open spec fn mat_mul_flat(a: Seq<i64>, ar: int, ac: int, b: Seq<i64>, bc: int) -> Seq<i64> {
    Seq::new((ar * bc) as nat, |p: int| dot_at(a, ac, b, bc, p / bc, p % bc, ac))
}

/// Wrapping sum of the first `n` elements of `s`.
pub open spec fn wsum(s: Seq<i64>, n: int) -> i64
    decreases n,
{
    if n <= 0 {
        0
    } else {
        wadd(wsum(s, n - 1), s[n - 1])
    }
}

/// Row-major position of cell `(i, j)` lies inside the matrix and decomposes
/// back into `(i, j)` by division and remainder.
pub proof fn lemma_flat_index(i: int, j: int, rows: int, cols: int)
    requires
        0 <= i < rows,
        0 <= j < cols,
    ensures
        0 <= i * cols + j < rows * cols,
        (i * cols + j) / cols == i,
        (i * cols + j) % cols == j,
{
    assert(0 <= i * cols + j < rows * cols) by (nonlinear_arith)
        requires
            0 <= i < rows,
            0 <= j < cols,
    ;
    vstd::arithmetic::div_mod::lemma_fundamental_div_mod_converse(i * cols + j, cols, i, j);
}

/// Any flat position splits into a valid row and column index.
pub proof fn lemma_flat_split(p: int, rows: int, cols: int)
    requires
        0 < cols,
        0 <= p < rows * cols,
    ensures
        0 <= p / cols < rows,
        0 <= p % cols < cols,
        p == (p / cols) * cols + p % cols,
{
    vstd::arithmetic::div_mod::lemma_fundamental_div_mod(p, cols);
    vstd::arithmetic::mul::lemma_mul_is_commutative(cols, p / cols);
    assert(0 <= p / cols < rows) by (nonlinear_arith)
        requires
            0 < cols,
            0 <= p < rows * cols,
            p == cols * (p / cols) + p % cols,
            0 <= p % cols < cols,
    ;
}

#[verifier::external_type_specification]
#[verifier::external_body]
pub struct ExThreadRng(rand::rngs::ThreadRng);

/// Relies on rand::thread_rng: a handle to the thread-local random generator.
#[verifier::external_body]
fn fresh_rng() -> rand::rngs::ThreadRng {
    rand::thread_rng()
}

/// Relies on rand::Rng::gen_range: a value drawn uniformly from the given
/// half-open range, which must not be empty.
#[verifier::external_body]
fn sample_range(rng: &mut rand::rngs::ThreadRng, lo: i64, hi: i64) -> (r: i64)
    requires
        lo < hi,
    ensures
        lo <= r < hi,
{
    rand::Rng::gen_range(rng, lo..hi)
}

/// An owned, row-major dense matrix of `i64` elements.
///
/// The cell `(i, j)` is stored at flat offset `i * cols + j`.
pub struct Matrix {
    pub rows: usize,
    pub cols: usize,
    pub data: Vec<i64>,
}

impl Matrix {
    /// The stored data covers exactly `rows * cols` cells.
    pub open spec fn wf(self) -> bool {
        self.data@.len() == self.rows * self.cols
    }

    /// The element at cell `(i, j)`.
    pub open spec fn ent(self, i: int, j: int) -> i64 {
        self.data@[i * self.cols + j]
    }

    /// Construction from a rectangular literal of rows: at least one row,
    /// and every row of the same length as the first.
    pub fn from(cells: Vec<Vec<i64>>) -> (r: Matrix)
        requires
            cells@.len() >= 1,
            forall|i: int| 0 <= i < cells@.len() ==> (#[trigger] cells@[i])@.len() == cells@[0]@.len(),
        ensures
            r.wf(),
            r.rows == cells@.len(),
            r.cols == cells@[0]@.len(),
            forall|i: int, j: int|
                0 <= i < r.rows && 0 <= j < r.cols ==> #[trigger] r.ent(i, j) == cells@[i]@[j],
    {
        let rows = cells.len();
        let cols = cells[0].len();
        let mut d: Vec<i64> = Vec::new();
        let mut i: usize = 0;
        while i < rows
            invariant
                rows == cells@.len(),
                cols == cells@[0]@.len(),
                forall|k: int| 0 <= k < rows ==> (#[trigger] cells@[k])@.len() == cols,
                i <= rows,
                d@.len() == i * cols,
                forall|p: int| 0 <= p < d@.len() ==> #[trigger] d@[p] == cells@[p / cols as int]@[p % cols as int],
            decreases rows - i,
        {
            let mut j: usize = 0;
            while j < cols
                invariant
                    rows == cells@.len(),
                    cols == cells@[0]@.len(),
                    forall|k: int| 0 <= k < rows ==> (#[trigger] cells@[k])@.len() == cols,
                    i < rows,
                    j <= cols,
                    d@.len() == i * cols + j,
                    forall|p: int| 0 <= p < d@.len() ==> #[trigger] d@[p] == cells@[p / cols as int]@[p % cols as int],
                decreases cols - j,
            {
                proof {
                    lemma_flat_index(i as int, j as int, rows as int, cols as int);
                }
                d.push(cells[i][j]);
                j += 1;
            }
            proof {
                assert((i + 1) * (cols as int) == i * (cols as int) + cols as int) by (nonlinear_arith);
            }
            i += 1;
        }
        proof {
            assert forall|i0: int, j0: int| #![trigger cells@[i0]@[j0]] 0 <= i0 < rows && 0 <= j0 < cols
                implies d@[i0 * cols as int + j0] == cells@[i0]@[j0] by {
                lemma_flat_index(i0, j0, rows as int, cols as int);
            }
        }
        Matrix { rows, cols, data: d }
    }

    /// Construction from a flat vector, read as a single column.
    pub fn from_vec(data: Vec<i64>) -> (r: Matrix)
        ensures
            r.wf(),
            r.rows == data@.len(),
            r.cols == 1,
            r.data@ == data@,
    {
        let rows = data.len();
        Matrix { rows, cols: 1, data }
    }

    /// Bounds-checked element access.
    pub fn get(&self, i: usize, j: usize) -> (r: i64)
        requires
            self.wf(),
            i < self.rows,
            j < self.cols,
        ensures
            r == self.ent(i as int, j as int),
    {
        let n = self.data.len();
        proof {
            lemma_flat_index(i as int, j as int, self.rows as int, self.cols as int);
            assert(i * self.cols + j < n);
        }
        self.data[i * self.cols + j]
    }

    /// Elementwise sum; both matrices must share one shape.
    pub fn add(&self, other: &Matrix) -> (r: Matrix)
        requires
            self.wf(),
            other.wf(),
            self.rows == other.rows,
            self.cols == other.cols,
        ensures
            r.wf(),
            r.rows == self.rows,
            r.cols == self.cols,
            r.data@ == ew_add(self.data@, other.data@),
    {
        let n = self.data.len();
        let mut data: Vec<i64> = Vec::new();
        let mut k: usize = 0;
        while k < n
            invariant
                n == self.data@.len(),
                other.data@.len() == n,
                k <= n,
                data@.len() == k,
                forall|p: int| 0 <= p < k ==> #[trigger] data@[p] == wadd(self.data@[p], other.data@[p]),
            decreases n - k,
        {
            data.push(self.data[k].wrapping_add(other.data[k]));
            k += 1;
        }
        proof {
            assert(data@ =~= ew_add(self.data@, other.data@));
        }
        Matrix { rows: self.rows, cols: self.cols, data }
    }

    /// Elementwise difference (`self - other`); both matrices must share one shape.
    pub fn sub(&self, other: &Matrix) -> (r: Matrix)
        requires
            self.wf(),
            other.wf(),
            self.rows == other.rows,
            self.cols == other.cols,
        ensures
            r.wf(),
            r.rows == self.rows,
            r.cols == self.cols,
            r.data@ == ew_sub(self.data@, other.data@),
    {
        let n = self.data.len();
        let mut data: Vec<i64> = Vec::new();
        let mut k: usize = 0;
        while k < n
            invariant
                n == self.data@.len(),
                other.data@.len() == n,
                k <= n,
                data@.len() == k,
                forall|p: int| 0 <= p < k ==> #[trigger] data@[p] == wsub(self.data@[p], other.data@[p]),
            decreases n - k,
        {
            data.push(self.data[k].wrapping_sub(other.data[k]));
            k += 1;
        }
        proof {
            assert(data@ =~= ew_sub(self.data@, other.data@));
        }
        Matrix { rows: self.rows, cols: self.cols, data }
    }

    /// Elementwise (Hadamard) product; both matrices must share one shape.
    pub fn hadamard(&self, other: &Matrix) -> (r: Matrix)
        requires
            self.wf(),
            other.wf(),
            self.rows == other.rows,
            self.cols == other.cols,
        ensures
            r.wf(),
            r.rows == self.rows,
            r.cols == self.cols,
            r.data@ == ew_mul(self.data@, other.data@),
    {
        let n = self.data.len();
        let mut data: Vec<i64> = Vec::new();
        let mut k: usize = 0;
        while k < n
            invariant
                n == self.data@.len(),
                other.data@.len() == n,
                k <= n,
                data@.len() == k,
                forall|p: int| 0 <= p < k ==> #[trigger] data@[p] == wmul(self.data@[p], other.data@[p]),
            decreases n - k,
        {
            data.push(self.data[k].wrapping_mul(other.data[k]));
            k += 1;
        }
        proof {
            assert(data@ =~= ew_mul(self.data@, other.data@));
        }
        Matrix { rows: self.rows, cols: self.cols, data }
    }

    /// Every element multiplied by the scalar.
    pub fn mul(&self, scalar: i64) -> (r: Matrix)
        requires
            self.wf(),
        ensures
            r.wf(),
            r.rows == self.rows,
            r.cols == self.cols,
            r.data@ == ew_scale(self.data@, scalar),
    {
        let n = self.data.len();
        let mut data: Vec<i64> = Vec::new();
        let mut k: usize = 0;
        while k < n
            invariant
                n == self.data@.len(),
                k <= n,
                data@.len() == k,
                forall|p: int| 0 <= p < k ==> #[trigger] data@[p] == wmul(self.data@[p], scalar),
            decreases n - k,
        {
            data.push(self.data[k].wrapping_mul(scalar));
            k += 1;
        }
        proof {
            assert(data@ =~= ew_scale(self.data@, scalar));
        }
        Matrix { rows: self.rows, cols: self.cols, data }
    }

    /// Elementwise application of `func`, shape preserved.
    pub fn map<F: Fn(i64) -> i64>(&self, func: F) -> (r: Matrix)
        requires
            self.wf(),
            forall|x: i64| #[trigger] call_requires(func, (x,)),
        ensures
            r.wf(),
            r.rows == self.rows,
            r.cols == self.cols,
            r.data@.len() == self.data@.len(),
            forall|p: int|
                0 <= p < self.data@.len() ==> call_ensures(func, (self.data@[p],), #[trigger] r.data@[p]),
    {
        let n = self.data.len();
        let mut data: Vec<i64> = Vec::new();
        let mut k: usize = 0;
        while k < n
            invariant
                n == self.data@.len(),
                k <= n,
                data@.len() == k,
                forall|x: i64| #[trigger] call_requires(func, (x,)),
                forall|p: int| 0 <= p < k ==> call_ensures(func, (self.data@[p],), #[trigger] data@[p]),
            decreases n - k,
        {
            data.push(func(self.data[k]));
            k += 1;
        }
        Matrix { rows: self.rows, cols: self.cols, data }
    }

    /// The transpose: cell `(j, i)` of the result is cell `(i, j)` of `self`.
    pub fn transpose(&self) -> (r: Matrix)
        requires
            self.wf(),
        ensures
            r.wf(),
            r.rows == self.cols,
            r.cols == self.rows,
            r.data@ == trans_of(self.rows as int, self.cols as int, self.data@),
    {
        let n = self.data.len();
        let mut data: Vec<i64> = Vec::new();
        let mut i: usize = 0;
        while i < self.cols
            invariant
                self.wf(),
                n == self.data@.len(),
                i <= self.cols,
                data@.len() == i * self.rows,
                forall|p: int|
                    0 <= p < data@.len() ==> #[trigger] data@[p] == self.data@[
                        (p % self.rows as int) * self.cols + p / self.rows as int
                    ],
            decreases self.cols - i,
        {
            let mut j: usize = 0;
            while j < self.rows
                invariant
                    self.wf(),
                    n == self.data@.len(),
                    i < self.cols,
                    j <= self.rows,
                    data@.len() == i * self.rows + j,
                    forall|p: int|
                        0 <= p < data@.len() ==> #[trigger] data@[p] == self.data@[
                            (p % self.rows as int) * self.cols + p / self.rows as int
                        ],
                decreases self.rows - j,
            {
                proof {
                    lemma_flat_index(i as int, j as int, self.cols as int, self.rows as int);
                    lemma_flat_index(j as int, i as int, self.rows as int, self.cols as int);
                }
                let v = self.data[j * self.cols + i];
                data.push(v);
                j += 1;
            }
            proof {
                assert((i + 1) * (self.rows as int) == i * (self.rows as int) + self.rows as int)
                    by (nonlinear_arith);
            }
            i += 1;
        }
        proof {
            vstd::arithmetic::mul::lemma_mul_is_commutative(self.rows as int, self.cols as int);
            assert(data@ =~= trans_of(self.rows as int, self.cols as int, self.data@));
        }
        Matrix { rows: self.cols, cols: self.rows, data }
    }

    /// The matrix product; the inner dimensions must agree. Each cell is the
    /// inner product of a row of `self` with a column of `other`, accumulated
    /// with wrapping arithmetic.
    pub fn dot(&self, other: &Matrix) -> (r: Matrix)
        requires
            self.wf(),
            other.wf(),
            self.cols == other.rows,
        ensures
            r.wf(),
            r.rows == self.rows,
            r.cols == other.cols,
            r.data@ == mat_mul_flat(
                self.data@, self.rows as int, self.cols as int, other.data@, other.cols as int
            ),
            forall|i: int, j: int|
                0 <= i < self.rows && 0 <= j < other.cols ==> #[trigger] r.ent(i, j) == dot_at(
                    self.data@, self.cols as int, other.data@, other.cols as int, i, j, self.cols as int
                ),
    {
        let bc = other.cols;
        let mut data: Vec<i64> = Vec::new();
        let mut i: usize = 0;
        while i < self.rows
            invariant
                self.wf(),
                other.wf(),
                self.cols == other.rows,
                bc == other.cols,
                i <= self.rows,
                data@.len() == i * bc,
                forall|p: int|
                    0 <= p < data@.len() ==> #[trigger] data@[p] == dot_at(
                        self.data@, self.cols as int, other.data@, bc as int,
                        p / bc as int, p % bc as int, self.cols as int
                    ),
            decreases self.rows - i,
        {
            let mut j: usize = 0;
            while j < bc
                invariant
                    self.wf(),
                    other.wf(),
                    self.cols == other.rows,
                    bc == other.cols,
                    i < self.rows,
                    j <= bc,
                    data@.len() == i * bc + j,
                    forall|p: int|
                        0 <= p < data@.len() ==> #[trigger] data@[p] == dot_at(
                            self.data@, self.cols as int, other.data@, bc as int,
                            p / bc as int, p % bc as int, self.cols as int
                        ),
                decreases bc - j,
            {
                let mut sum: i64 = 0;
                let mut k: usize = 0;
                while k < self.cols
                    invariant
                        self.wf(),
                        other.wf(),
                        self.cols == other.rows,
                        bc == other.cols,
                        i < self.rows,
                        j < bc,
                        k <= self.cols,
                        sum == dot_at(
                            self.data@, self.cols as int, other.data@, bc as int,
                            i as int, j as int, k as int
                        ),
                    decreases self.cols - k,
                {
                    sum = sum.wrapping_add(self.get(i, k).wrapping_mul(other.get(k, j)));
                    k += 1;
                }
                proof {
                    lemma_flat_index(i as int, j as int, self.rows as int, bc as int);
                }
                data.push(sum);
                j += 1;
            }
            proof {
                assert((i + 1) * (bc as int) == i * (bc as int) + bc as int) by (nonlinear_arith);
            }
            i += 1;
        }
        proof {
            assert(data@ =~= mat_mul_flat(
                self.data@, self.rows as int, self.cols as int, other.data@, bc as int
            ));
            assert forall|i0: int, j0: int| #![trigger dot_at(self.data@, self.cols as int, other.data@, bc as int, i0, j0, self.cols as int)]
                0 <= i0 < self.rows && 0 <= j0 < bc
                implies data@[i0 * bc as int + j0] == dot_at(
                    self.data@, self.cols as int, other.data@, bc as int, i0, j0, self.cols as int
                ) by {
                lemma_flat_index(i0, j0, self.rows as int, bc as int);
            }
        }
        Matrix { rows: self.rows, cols: bc, data }
    }

    /// A matrix of the given shape whose every entry is drawn independently
    /// and uniformly from the half-open range `lo..hi`.
    pub fn random(rows: usize, cols: usize, lo: i64, hi: i64) -> (r: Matrix)
        requires
            lo < hi,
        ensures
            r.wf(),
            r.rows == rows,
            r.cols == cols,
            forall|p: int| 0 <= p < r.data@.len() ==> lo <= #[trigger] r.data@[p] < hi,
    {
        let mut rng = fresh_rng();
        let mut data: Vec<i64> = Vec::new();
        let mut i: usize = 0;
        while i < rows
            invariant
                lo < hi,
                i <= rows,
                data@.len() == i * cols,
                forall|p: int| 0 <= p < data@.len() ==> lo <= #[trigger] data@[p] < hi,
            decreases rows - i,
        {
            let mut j: usize = 0;
            while j < cols
                invariant
                    lo < hi,
                    i < rows,
                    j <= cols,
                    data@.len() == i * cols + j,
                    forall|p: int| 0 <= p < data@.len() ==> lo <= #[trigger] data@[p] < hi,
                decreases cols - j,
            {
                data.push(sample_range(&mut rng, lo, hi));
                j += 1;
            }
            proof {
                assert((i + 1) * (cols as int) == i * (cols as int) + cols as int)
                    by (nonlinear_arith);
            }
            i += 1;
        }
        Matrix { rows, cols, data }
    }

    /// The human-readable text of the matrix: one line per row, elements
    /// space-separated, each element followed by a space and each row closed
    /// by a newline.
    pub fn render(&self) -> (r: String)
        requires
            self.wf(),
        ensures
            r@ == render_of(self.rows as int, self.cols as int, self.data@),
    {
        let mut out = String::new();
        proof {
            assert(out@ =~= text_upto(self.data@, self.cols as int, 0));
        }
        let mut i: usize = 0;
        while i < self.rows
            invariant
                self.wf(),
                i <= self.rows,
                out@ == text_upto(self.data@, self.cols as int, i as int),
            decreases self.rows - i,
        {
            let mut j: usize = 0;
            proof {
                assert(out@ =~= text_upto(self.data@, self.cols as int, i as int) + row_text(
                    self.data@, self.cols as int, i as int, 0));
            }
            while j < self.cols
                invariant
                    self.wf(),
                    i < self.rows,
                    j <= self.cols,
                    out@ == text_upto(self.data@, self.cols as int, i as int) + row_text(
                        self.data@, self.cols as int, i as int, j as int),
                decreases self.cols - j,
            {
                let v = self.get(i, j);
                let t = int_text(v);
                push_text(&mut out, t.as_str());
                push_text(&mut out, " ");
                proof {
                    reveal_strlit(" ");
                    assert(" "@ =~= seq![' ']);
                    assert(out@ =~= text_upto(self.data@, self.cols as int, i as int) + row_text(
                        self.data@, self.cols as int, i as int, j + 1));
                }
                j += 1;
            }
            push_text(&mut out, "\n");
            proof {
                reveal_strlit("\n");
                assert("\n"@ =~= seq!['\n']);
                assert(out@ =~= text_upto(self.data@, self.cols as int, i + 1));
            }
            i += 1;
        }
        out
    }

    /// Wrapping sum of all elements, accumulated in row-major order.
    pub fn sum(&self) -> (r: i64)
        requires
            self.wf(),
        ensures
            r == wsum(self.data@, self.data@.len() as int),
    {
        let n = self.data.len();
        let mut acc: i64 = 0;
        let mut k: usize = 0;
        while k < n
            invariant
                n == self.data@.len(),
                k <= n,
                acc == wsum(self.data@, k as int),
            decreases n - k,
        {
            acc = acc.wrapping_add(self.data[k]);
            k += 1;
        }
        acc
    }
}

impl Clone for Matrix {
    /// An exact copy: same shape, same elements.
    fn clone(&self) -> (r: Matrix)
        ensures
            r.rows == self.rows,
            r.cols == self.cols,
            r.data@ == self.data@,
    {
        let n = self.data.len();
        let mut data: Vec<i64> = Vec::new();
        let mut k: usize = 0;
        while k < n
            invariant
                n == self.data@.len(),
                k <= n,
                data@.len() == k,
                forall|p: int| 0 <= p < k ==> #[trigger] data@[p] == self.data@[p],
            decreases n - k,
        {
            data.push(self.data[k]);
            k += 1;
        }
        proof {
            assert(data@ =~= self.data@);
        }
        Matrix { rows: self.rows, cols: self.cols, data }
    }
}

impl PartialEq for Matrix {
    /// Matrices are equal when they share a shape and hold the same elements.
    fn eq(&self, other: &Matrix) -> (r: bool) {
        if self.rows != other.rows || self.cols != other.cols {
            return false;
        }
        if self.data.len() != other.data.len() {
            return false;
        }
        let n = self.data.len();
        let mut k: usize = 0;
        while k < n
            invariant
                n == self.data@.len(),
                other.data@.len() == n,
                k <= n,
                forall|p: int| 0 <= p < k ==> #[trigger] self.data@[p] == other.data@[p],
            decreases n - k,
        {
            if self.data[k] != other.data[k] {
                return false;
            }
            k += 1;
        }
        proof {
            assert(self.data@ =~= other.data@);
        }
        true
    }
}

impl vstd::std_specs::cmp::PartialEqSpecImpl for Matrix {
    open spec fn obeys_eq_spec() -> bool {
        true
    }

    open spec fn eq_spec(&self, other: &Matrix) -> bool {
        self.rows == other.rows && self.cols == other.cols && self.data@ == other.data@
    }
}

/// Wrapping subtraction undoes wrapping addition of the same operand.
pub proof fn lemma_wadd_wsub_cancel(x: i64, y: i64)
    ensures
        wsub(wadd(x, y), y) == x,
{
}

/// For matrices of one shape, adding `b` and then subtracting `b` again
/// restores `a` exactly, element for element.
pub proof fn lemma_add_then_sub(a: Matrix, b: Matrix)
    requires
        a.wf(),
        b.wf(),
        a.rows == b.rows,
        a.cols == b.cols,
    ensures
        ew_sub(ew_add(a.data@, b.data@), b.data@) == a.data@,
{
    assert forall|p: int| 0 <= p < a.data@.len()
        implies ew_sub(ew_add(a.data@, b.data@), b.data@)[p] == a.data@[p] by {
        lemma_wadd_wsub_cancel(a.data@[p], b.data@[p]);
    }
    assert(ew_sub(ew_add(a.data@, b.data@), b.data@) =~= a.data@);
}

/// The character for one decimal digit value.
pub open spec fn digit_char(n: int) -> char {
    if n == 0 {
        '0'
    } else if n == 1 {
        '1'
    } else if n == 2 {
        '2'
    } else if n == 3 {
        '3'
    } else if n == 4 {
        '4'
    } else if n == 5 {
        '5'
    } else if n == 6 {
        '6'
    } else if n == 7 {
        '7'
    } else if n == 8 {
        '8'
    } else {
        '9'
    }
}

/// The decimal digits of a nonnegative integer, most significant first.
pub open spec fn dec_digits(n: int) -> Seq<char>
    decreases n,
{
    if n < 10 {
        seq![digit_char(n)]
    } else {
        dec_digits(n / 10).push(digit_char(n % 10))
    }
}

/// The decimal rendering of an element: its digits, with a leading '-' when
/// it is negative.
pub open spec fn dec_str(x: int) -> Seq<char> {
    if x < 0 {
        seq!['-'] + dec_digits(-x)
    } else {
        dec_digits(x)
    }
}

/// The text of row `i`, up to column `j`: each element followed by one space.
pub open spec fn row_text(d: Seq<i64>, cols: int, i: int, j: int) -> Seq<char>
    decreases j,
{
    if j <= 0 {
        Seq::empty()
    } else {
        row_text(d, cols, i, j - 1) + dec_str(d[i * cols + (j - 1)] as int) + seq![' ']
    }
}

/// The text of the first `i` rows, each terminated by a newline.
pub open spec fn text_upto(d: Seq<i64>, cols: int, i: int) -> Seq<char>
    decreases i,
{
    if i <= 0 {
        Seq::empty()
    } else {
        text_upto(d, cols, i - 1) + row_text(d, cols, i - 1, cols) + seq!['\n']
    }
}

/// The full rendering of a matrix: one line per row, the elements separated
/// and terminated by single spaces, each line closed by a newline.
pub open spec fn render_of(rows: int, cols: int, d: Seq<i64>) -> Seq<char> {
    text_upto(d, cols, rows)
}

/// Relies on i64's Display implementation: the decimal digits of the value,
/// preceded by '-' when it is negative.
#[verifier::external_body]
fn int_text(x: i64) -> (r: String)
    ensures
        r@ == dec_str(x as int),
{
    x.to_string()
}

/// Relies on String::push_str: appends the slice to the end of the string.
#[verifier::external_body]
fn push_text(s: &mut String, t: &str)
    ensures
        final(s)@ == old(s)@ + t@,
{
    s.push_str(t)
}

/// The modulus of the wrapping element arithmetic.
pub open spec fn two_to_64() -> int {
    0x1_0000_0000_0000_0000
}

/// Wrapping addition is addition modulo `2^64`.
proof fn lemma_wadd_mod(x: i64, y: i64)
    ensures
        (wadd(x, y) as int) % two_to_64() == (x + y) % two_to_64(),
{
    let m = two_to_64();
    if x + y > i64::MAX {
        vstd::arithmetic::div_mod::lemma_mod_multiples_vanish(-1, x + y, m);
    } else if x + y < i64::MIN {
        vstd::arithmetic::div_mod::lemma_mod_multiples_vanish(1, x + y, m);
    }
}

/// Wrapping multiplication is multiplication modulo `2^64`.
proof fn lemma_wmul_mod(x: i64, y: i64)
    ensures
        (wmul(x, y) as int) % two_to_64() == (x * y) % two_to_64(),
{
    let m = two_to_64();
    vstd::arithmetic::div_mod::lemma_mod_bound(x * y, m);
    vstd::arithmetic::div_mod::lemma_mod_twice(x * y, m);
    if (x * y) % m > i64::MAX {
        vstd::arithmetic::div_mod::lemma_mod_multiples_vanish(-1, (x * y) % m, m);
    }
}

/// Two elements congruent modulo `2^64` are the same element.
proof fn lemma_cong_equal(x: i64, y: i64)
    requires
        (x as int) % two_to_64() == (y as int) % two_to_64(),
    ensures
        x == y,
{
    let m = two_to_64();
    vstd::arithmetic::div_mod::lemma_mod_equivalence(x as int, y as int, m);
    let d = x - y;
    if d < 0 {
        vstd::arithmetic::div_mod::lemma_mod_multiples_vanish(1, d, m);
        vstd::arithmetic::div_mod::lemma_small_mod((m + d) as nat, m as nat);
    } else {
        vstd::arithmetic::div_mod::lemma_small_mod(d as nat, m as nat);
    }
}

/// The exact inner product over the unbounded integers.
spec fn int_dot(a: Seq<i64>, ac: int, b: Seq<i64>, bc: int, i: int, j: int, n: int) -> int
    decreases n,
{
    if n <= 0 {
        0
    } else {
        int_dot(a, ac, b, bc, i, j, n - 1) + (a[i * ac + (n - 1)] as int) * (b[(n - 1) * bc + j] as int)
    }
}

/// The wrapping inner product is congruent to the exact one modulo `2^64`.
proof fn lemma_dot_at_mod(a: Seq<i64>, ac: int, b: Seq<i64>, bc: int, i: int, j: int, n: int)
    requires
        n >= 0,
    ensures
        (dot_at(a, ac, b, bc, i, j, n) as int) % two_to_64() == int_dot(a, ac, b, bc, i, j, n)
            % two_to_64(),
    decreases n,
{
    let m = two_to_64();
    if n > 0 {
        lemma_dot_at_mod(a, ac, b, bc, i, j, n - 1);
        let s = dot_at(a, ac, b, bc, i, j, n - 1);
        let x = a[i * ac + (n - 1)];
        let y = b[(n - 1) * bc + j];
        lemma_wmul_mod(x, y);
        lemma_wadd_mod(s, wmul(x, y));
        vstd::arithmetic::div_mod::lemma_add_mod_noop(s as int, wmul(x, y) as int, m);
        vstd::arithmetic::div_mod::lemma_add_mod_noop(
            int_dot(a, ac, b, bc, i, j, n - 1),
            x * y,
            m,
        );
    }
}

/// The wrapping inner product of the scaled row is congruent to `k` times
/// the exact inner product modulo `2^64`.
proof fn lemma_dot_at_scaled_mod(
    a: Seq<i64>,
    ac: int,
    b: Seq<i64>,
    bc: int,
    k: i64,
    i: int,
    j: int,
    n: int,
)
    requires
        n >= 0,
        0 <= i * ac,
        i * ac + n <= a.len(),
    ensures
        (dot_at(ew_scale(a, k), ac, b, bc, i, j, n) as int) % two_to_64() == (k * int_dot(
            a,
            ac,
            b,
            bc,
            i,
            j,
            n,
        )) % two_to_64(),
    decreases n,
{
    let m = two_to_64();
    if n > 0 {
        lemma_dot_at_scaled_mod(a, ac, b, bc, k, i, j, n - 1);
        let a2 = ew_scale(a, k);
        let s2 = dot_at(a2, ac, b, bc, i, j, n - 1);
        let idx = i * ac + (n - 1);
        let x = a[idx];
        let y = b[(n - 1) * bc + j];
        let d1 = int_dot(a, ac, b, bc, i, j, n - 1);
        assert(a2[idx] == wmul(x, k));
        lemma_wadd_mod(s2, wmul(a2[idx], y));
        lemma_wmul_mod(a2[idx], y);
        lemma_wmul_mod(x, k);
        vstd::arithmetic::div_mod::lemma_mul_mod_noop_left(a2[idx] as int, y as int, m);
        vstd::arithmetic::div_mod::lemma_mul_mod_noop_left(x * k, y as int, m);
        vstd::arithmetic::mul::lemma_mul_is_associative(x as int, k as int, y as int);
        vstd::arithmetic::mul::lemma_mul_is_commutative(x as int, k as int);
        vstd::arithmetic::mul::lemma_mul_is_associative(k as int, x as int, y as int);
        vstd::arithmetic::div_mod::lemma_add_mod_noop(s2 as int, wmul(a2[idx], y) as int, m);
        vstd::arithmetic::div_mod::lemma_add_mod_noop(k * d1, k * (x * y), m);
        vstd::arithmetic::mul::lemma_mul_is_distributive_add(k as int, d1, x * y);
    } else {
        assert(k * 0 == 0) by (nonlinear_arith);
    }
}

/// Scaling a matrix product by `k` equals taking the product with the left
/// factor scaled by `k`: the scalar commutes through the multiplication.
pub proof fn lemma_scale_dot(a: Matrix, b: Matrix, k: i64)
    requires
        a.wf(),
        b.wf(),
        a.cols == b.rows,
    ensures
        ew_scale(
            mat_mul_flat(a.data@, a.rows as int, a.cols as int, b.data@, b.cols as int),
            k,
        ) == mat_mul_flat(ew_scale(a.data@, k), a.rows as int, a.cols as int, b.data@, b.cols as int),
{
    let m = two_to_64();
    let ar = a.rows as int;
    let ac = a.cols as int;
    let bc = b.cols as int;
    let lhs = ew_scale(mat_mul_flat(a.data@, ar, ac, b.data@, bc), k);
    let rhs = mat_mul_flat(ew_scale(a.data@, k), ar, ac, b.data@, bc);
    assert forall|p: int| 0 <= p < lhs.len() implies lhs[p] == rhs[p] by {
        assert(0 < ar && 0 < bc) by (nonlinear_arith)
            requires
                0 <= ar,
                0 <= bc,
                0 <= p < ar * bc,
        ;
        lemma_flat_split(p, ar, bc);
        let i = p / bc;
        let j = p % bc;
        assert(0 <= i * ac && i * ac + ac <= ar * ac) by (nonlinear_arith)
            requires
                0 <= i < ar,
                0 <= ac,
        ;
        lemma_dot_at_mod(a.data@, ac, b.data@, bc, i, j, ac);
        lemma_dot_at_scaled_mod(a.data@, ac, b.data@, bc, k, i, j, ac);
        let dv = dot_at(a.data@, ac, b.data@, bc, i, j, ac);
        let idv = int_dot(a.data@, ac, b.data@, bc, i, j, ac);
        lemma_wmul_mod(dv, k);
        vstd::arithmetic::div_mod::lemma_mul_mod_noop_left(dv as int, k as int, m);
        vstd::arithmetic::div_mod::lemma_mul_mod_noop_left(idv, k as int, m);
        vstd::arithmetic::mul::lemma_mul_is_commutative(idv, k as int);
        lemma_cong_equal(lhs[p], rhs[p]);
    }
    assert(lhs =~= rhs);
}

/// Transposing a matrix twice restores it exactly.
pub proof fn lemma_transpose_involutive(a: Matrix)
    requires
        a.wf(),
    ensures
        trans_of(a.cols as int, a.rows as int, trans_of(a.rows as int, a.cols as int, a.data@))
            == a.data@,
{
    let r = a.rows as int;
    let c = a.cols as int;
    let t = trans_of(r, c, a.data@);
    let tt = trans_of(c, r, t);
    vstd::arithmetic::mul::lemma_mul_is_commutative(r, c);
    assert forall|p: int| 0 <= p < a.data@.len() implies tt[p] == a.data@[p] by {
        assert(0 < r && 0 < c) by (nonlinear_arith)
            requires
                0 <= r,
                0 <= c,
                0 <= p < r * c,
        ;
        lemma_flat_split(p, r, c);
        let i = p / c;
        let j = p % c;
        lemma_flat_index(j, i, c, r);
        assert(tt[p] == t[j * r + i]);
        assert(t[j * r + i] == a.data@[i * c + j]);
    }
    assert(tt =~= a.data@);
}

} // verus!

