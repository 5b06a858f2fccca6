//! Row-major integer matrices with a verified product. The text form
//! lists the rows between braces, separated by commas.

use crate::ascii::{ascii_chars_of, ascii_to_string};
use vstd::arithmetic::mul::{lemma_mul_inequality, lemma_mul_is_distributive_add_other_way};
use vstd::prelude::*;

verus! {

/// A matrix stored row-major: entry `(i, j)` sits at `i * cols + j`.
#[derive(Debug)]
pub struct Matrix {
    data: Vec<i64>,
    rows: usize,
    cols: usize,
}

impl Matrix {
    pub closed spec fn rows_spec(&self) -> int {
        self.rows as int
    }

    pub closed spec fn cols_spec(&self) -> int {
        self.cols as int
    }

    pub closed spec fn data_spec(&self) -> Seq<i64> {
        self.data@
    }

    /// The backing vector holds at least one entry per cell; extra
    /// trailing elements are tolerated and never read.
    pub open spec fn wf(&self) -> bool {
        self.data_spec().len() >= self.rows_spec() * self.cols_spec()
    }

    pub open spec fn entry(&self, i: int, j: int) -> i64 {
        self.data_spec()[i * self.cols_spec() + j]
    }

    pub fn new(data: Vec<i64>, rows: usize, cols: usize) -> (r: Self)
        ensures
            r.data_spec() == data@,
            r.rows_spec() == rows as int,
            r.cols_spec() == cols as int,
    {
        Self { data, rows, cols }
    }

    pub fn rows(&self) -> (r: usize)
        ensures
            r as int == self.rows_spec(),
    {
        self.rows
    }

    pub fn cols(&self) -> (r: usize)
        ensures
            r as int == self.cols_spec(),
    {
        self.cols
    }
}

/// Row `i` of a matrix as a sequence.
pub open spec fn row_seq(a: &Matrix, i: int) -> Seq<i64> {
    Seq::new(a.cols_spec() as nat, |k: int| a.entry(i, k))
}

/// Column `j` of a matrix as a sequence.
pub open spec fn col_seq(b: &Matrix, j: int) -> Seq<i64> {
    Seq::new(b.rows_spec() as nat, |k: int| b.entry(k, j))
}

/// The dot product of the first `k` components.
pub open spec fn dot_prefix(r: Seq<i64>, c: Seq<i64>, k: int) -> int
    decreases k,
{
    if k <= 0 {
        0
    } else {
        dot_prefix(r, c, k - 1) + r[k - 1] * c[k - 1]
    }
}

/// One addend of the product entry `(i, j)`.
pub open spec fn product_term(a: &Matrix, b: &Matrix, i: int, j: int, k: int) -> int {
    row_seq(a, i)[k] * col_seq(b, j)[k]
}

/// The partial product entry `(i, j)` over the first `k` addends.
pub open spec fn partial_dot(a: &Matrix, b: &Matrix, i: int, j: int, k: int) -> int {
    dot_prefix(row_seq(a, i), col_seq(b, j), k)
}

/// No addend and no partial sum of the product leaves the machine
/// integer range: the condition the hardware forces on the product.
pub open spec fn multiply_fits(a: &Matrix, b: &Matrix) -> bool {
    &&& forall|i: int, j: int, k: int|
        0 <= i < a.rows_spec() && 0 <= j < b.cols_spec() && 0 <= k < a.cols_spec()
            ==> i64::MIN <= #[trigger] product_term(a, b, i, j, k) <= i64::MAX
    &&& forall|i: int, j: int, k: int|
        0 <= i < a.rows_spec() && 0 <= j < b.cols_spec() && 0 <= k <= a.cols_spec()
            ==> i64::MIN <= #[trigger] partial_dot(a, b, i, j, k) <= i64::MAX
}

/// A row-major index below row `i` stays below the start of row `i`.
proof fn lemma_flat_index(i2: int, j2: int, i: int, c: int)
    requires
        0 <= i2 < i,
        0 <= j2 < c,
    ensures
        i2 * c + j2 < i * c,
        0 <= i2 * c + j2,
{
    lemma_mul_is_distributive_add_other_way(c, i2, 1);
    lemma_mul_inequality(i2 + 1, i, c);
    vstd::arithmetic::mul::lemma_mul_nonnegative(i2, c);
}

/// The matrix product. The dimensions must agree: the width of the
/// left factor must be the height of the right one, else a
/// descriptive error text is returned.
pub fn multiply(a: &Matrix, b: &Matrix) -> (r: Result<Matrix, &'static str>)
    requires
        a.wf(),
        b.wf(),
        multiply_fits(a, b),
    ensures
        a.cols_spec() != b.rows_spec() ==> (r matches Err(e) && e@
            == "Matrix dimensions do not match"@),
        a.cols_spec() == b.rows_spec() ==> (r matches Ok(m) && {
            &&& m.wf()
            &&& m.rows_spec() == a.rows_spec()
            &&& m.cols_spec() == b.cols_spec()
            &&& forall|i: int, j: int|
                0 <= i < m.rows_spec() && 0 <= j < m.cols_spec() ==> m.entry(i, j)
                    == partial_dot(a, b, i, j, a.cols_spec())
        }),
{
    if a.cols != b.rows {
        return Err("Matrix dimensions do not match");
    }
    let rows = a.rows;
    let inner = a.cols;
    let cols = b.cols;
    let a_len = a.data.len();
    let b_len = b.data.len();
    let mut data: Vec<i64> = Vec::new();
    let mut i: usize = 0;
    while i < rows
        invariant
            i <= rows,
            a_len as int == a.data_spec().len(),
            b_len as int == b.data_spec().len(),
            a.wf(),
            b.wf(),
            multiply_fits(a, b),
            rows as int == a.rows_spec(),
            inner as int == a.cols_spec(),
            inner as int == b.rows_spec(),
            cols as int == b.cols_spec(),
            data@.len() == i * cols as int,
            forall|i2: int, j2: int|
                0 <= i2 < i && 0 <= j2 < cols ==> data@[i2 * cols as int + j2] as int
                    == partial_dot(a, b, i2, j2, inner as int),
        decreases rows - i,
    {
        let mut j: usize = 0;
        while j < cols
            invariant
                i < rows,
                j <= cols,
                a_len as int == a.data_spec().len(),
                b_len as int == b.data_spec().len(),
                a.wf(),
                b.wf(),
                multiply_fits(a, b),
                rows as int == a.rows_spec(),
                inner as int == a.cols_spec(),
                inner as int == b.rows_spec(),
                cols as int == b.cols_spec(),
                data@.len() == i * cols as int + j,
                forall|i2: int, j2: int|
                    0 <= i2 < i && 0 <= j2 < cols ==> data@[i2 * cols as int + j2] as int
                        == partial_dot(a, b, i2, j2, inner as int),
                forall|j2: int|
                    0 <= j2 < j ==> data@[i as int * cols as int + j2] as int == partial_dot(
                        a,
                        b,
                        i as int,
                        j2,
                        inner as int,
                    ),
            decreases cols - j,
        {
            let mut sum: i64 = 0;
            let mut k: usize = 0;
            while k < inner
                invariant
                    i < rows,
                    j < cols,
                    k <= inner,
                    a_len as int == a.data_spec().len(),
                    b_len as int == b.data_spec().len(),
                    a.wf(),
                    b.wf(),
                    multiply_fits(a, b),
                    rows as int == a.rows_spec(),
                    inner as int == a.cols_spec(),
                    inner as int == b.rows_spec(),
                    cols as int == b.cols_spec(),
                    sum as int == partial_dot(a, b, i as int, j as int, k as int),
                decreases inner - k,
            {
                proof {
                    lemma_flat_index(i as int, k as int, rows as int, inner as int);
                    lemma_flat_index(k as int, j as int, inner as int, cols as int);
                    assert(i as int * inner as int + k < a_len as int);
                    assert(k as int * cols as int + j < b_len as int);
                    assert(row_seq(a, i as int)[k as int] == a.entry(i as int, k as int));
                    assert(col_seq(b, j as int)[k as int] == b.entry(k as int, j as int));
                    assert(i64::MIN <= product_term(a, b, i as int, j as int, k as int)
                        <= i64::MAX);
                    assert(i64::MIN <= partial_dot(a, b, i as int, j as int, k as int + 1)
                        <= i64::MAX);
                }
                let va = a.data[i * inner + k];
                let vb = b.data[k * cols + j];
                let prod = va * vb;
                sum = sum + prod;
                k = k + 1;
            }
            proof {
                lemma_flat_index(i as int, j as int, rows as int, cols as int);
            }
            let ghost old_data = data@;
            data.push(sum);
            proof {
                assert forall|i2: int, j2: int| 0 <= i2 < i && 0 <= j2 < cols implies data@[i2
                    * cols as int + j2] as int == partial_dot(a, b, i2, j2, inner as int) by {
                    lemma_flat_index(i2, j2, i as int, cols as int);
                    assert(data@[i2 * cols as int + j2] == old_data[i2 * cols as int + j2]);
                }
                assert forall|j2: int| 0 <= j2 < j + 1 implies data@[i as int * cols as int
                    + j2] as int == partial_dot(a, b, i as int, j2, inner as int) by {
                    if j2 < j {
                        assert(data@[i as int * cols as int + j2] == old_data[i as int
                            * cols as int + j2]);
                    } else {
                        assert(i as int * cols as int + j2 == old_data.len());
                    }
                }
            }
            j = j + 1;
        }
        proof {
            lemma_mul_is_distributive_add_other_way(cols as int, i as int, 1);
        }
        i = i + 1;
    }
    let m = Matrix::new(data, rows, cols);
    proof {
        assert forall|i2: int, j2: int| 0 <= i2 < m.rows_spec() && 0 <= j2 < m.cols_spec() implies
            m.entry(i2, j2) == partial_dot(a, b, i2, j2, a.cols_spec()) by {
            lemma_flat_index(i2, j2, rows as int, cols as int);
        }
    }
    Ok(m)
}

/// The decimal digits of a nonnegative number, most significant
/// first.
pub open spec fn dec_digits(n: nat) -> Seq<u8>
    decreases n,
{
    if n < 10 {
        seq![(48 + n) as u8]
    } else {
        dec_digits(n / 10) + seq![(48 + n % 10) as u8]
    }
}

/// The decimal text of a signed number.
pub open spec fn dec_i64(v: int) -> Seq<u8> {
    if v < 0 {
        seq![45u8] + dec_digits((-v) as nat)
    } else {
        dec_digits(v as nat)
    }
}

proof fn lemma_dec_digits_ascii(n: nat)
    ensures
        forall|t: int|
            0 <= t < dec_digits(n).len() ==> 48 <= #[trigger] dec_digits(n)[t] <= 57,
    decreases n,
{
    if n >= 10 {
        lemma_dec_digits_ascii(n / 10);
        let s = dec_digits(n);
        let head = dec_digits(n / 10);
        assert forall|t: int| 0 <= t < s.len() implies 48 <= #[trigger] s[t] <= 57 by {
            if t < head.len() {
                assert(s[t] == head[t]);
            }
        }
    }
}

/// Every byte of a rendered number is ASCII.
proof fn lemma_dec_i64_ascii(v: int)
    requires
        i64::MIN <= v <= i64::MAX,
    ensures
        forall|t: int| 0 <= t < dec_i64(v).len() ==> #[trigger] dec_i64(v)[t] < 128,
{
    if v < 0 {
        lemma_dec_digits_ascii((-v) as nat);
        let s = dec_i64(v);
        let m = dec_digits((-v) as nat);
        assert forall|t: int| 0 <= t < s.len() implies s[t] < 128 by {
            if t >= 1 {
                assert(s[t] == m[t - 1]);
            }
        }
    } else {
        lemma_dec_digits_ascii(v as nat);
    }
}

/// Appends the decimal digits of an unsigned number.
fn push_u64_decimal(out: &mut Vec<u8>, v: u64)
    ensures
        final (out)@ == old(out)@ + dec_digits(v as nat),
{
    let ghost base = out@;
    let mut tmp: Vec<u8> = Vec::new();
    if v == 0 {
        out.push(48);
        proof {
            assert(out@ =~= base + dec_digits(0));
        }
        return ;
    }
    let mut x = v;
    while x > 0
        invariant
            x > 0 ==> dec_digits(v as nat) == dec_digits(x as nat) + tmp@.reverse(),
            x == 0 ==> dec_digits(v as nat) == tmp@.reverse(),
        decreases x,
    {
        let d: u8 = (x % 10) as u8 + 48;
        let ghost t0 = tmp@;
        tmp.push(d);
        proof {
            assert(tmp@.reverse() =~= seq![d] + t0.reverse());
            if x >= 10 {
                assert(dec_digits(x as nat) == dec_digits((x / 10) as nat) + seq![d]);
                assert(dec_digits((x / 10) as nat) + (seq![d] + t0.reverse()) =~= (dec_digits(
                    (x / 10) as nat,
                ) + seq![d]) + t0.reverse());
            } else {
                assert(dec_digits(x as nat) =~= seq![d]);
            }
        }
        x = x / 10;
    }
    while tmp.len() > 0
        invariant
            out@ + tmp@.reverse() == base + dec_digits(v as nat),
        decreases tmp@.len(),
    {
        let ghost t0 = tmp@;
        let ghost o0 = out@;
        let d = tmp.pop().unwrap();
        out.push(d);
        proof {
            assert(t0.reverse() =~= seq![d] + tmp@.reverse());
            assert(out@ + tmp@.reverse() =~= o0 + t0.reverse());
        }
    }
    proof {
        assert(out@ =~= out@ + tmp@.reverse());
        assert(out@ =~= base + dec_digits(v as nat));
    }
}

/// Appends the decimal text of a signed number.
fn push_i64_decimal(out: &mut Vec<u8>, v: i64)
    ensures
        final (out)@ == old(out)@ + dec_i64(v as int),
{
    let ghost base = out@;
    if v >= 0 {
        push_u64_decimal(out, v as u64);
        return ;
    }
    out.push(45);
    let mag: u64 = if v == i64::MIN {
        9223372036854775808u64
    } else {
        (-v) as u64
    };
    push_u64_decimal(out, mag);
    proof {
        assert(out@ =~= base + dec_i64(v as int));
    }
}

/// The cells of row `i` from column `j` on, space separated.
pub open spec fn render_cells(m: &Matrix, i: int, j: int) -> Seq<u8>
    decreases m.cols_spec() - j,
{
    if j < 0 || j >= m.cols_spec() {
        Seq::empty()
    } else {
        (if j == 0 {
            Seq::empty()
        } else {
            seq![32u8]
        }) + dec_i64(m.entry(i, j) as int) + render_cells(m, i, j + 1)
    }
}

/// What opens row `i`: a brace for the first row, a space after.
pub open spec fn row_lead(i: int) -> Seq<u8> {
    if i == 0 {
        seq![123u8]
    } else {
        seq![32u8]
    }
}

/// What closes row `i`: a brace for the last row, a comma before.
pub open spec fn row_closer(m: &Matrix, i: int) -> Seq<u8> {
    if i == m.rows_spec() - 1 {
        seq![125u8]
    } else {
        seq![44u8]
    }
}

/// The rows from `i` on: the first row opens with `{`, later rows
/// with a space; every row but the last closes with `,`, the last
/// with `}`.
pub open spec fn render_rows(m: &Matrix, i: int) -> Seq<u8>
    decreases m.rows_spec() - i,
{
    if i < 0 || i >= m.rows_spec() {
        Seq::empty()
    } else {
        row_lead(i) + render_cells(m, i, 0) + row_closer(m, i) + render_rows(m, i + 1)
    }
}

/// The full text form of a matrix.
pub open spec fn render_matrix(m: &Matrix) -> Seq<u8> {
    render_rows(m, 0)
}

proof fn lemma_render_cells_ascii(m: &Matrix, i: int, j: int)
    ensures
        forall|t: int|
            0 <= t < render_cells(m, i, j).len() ==> #[trigger] render_cells(m, i, j)[t] < 128,
    decreases m.cols_spec() - j,
{
    if 0 <= j < m.cols_spec() {
        lemma_dec_i64_ascii(m.entry(i, j) as int);
        lemma_render_cells_ascii(m, i, j + 1);
        let lead: Seq<u8> = if j == 0 {
            Seq::empty()
        } else {
            seq![32u8]
        };
        let num = dec_i64(m.entry(i, j) as int);
        let rest = render_cells(m, i, j + 1);
        assert forall|t: int| 0 <= t < render_cells(m, i, j).len() implies #[trigger] render_cells(
            m,
            i,
            j,
        )[t] < 128 by {
            if t < lead.len() {
                assert(render_cells(m, i, j)[t] == lead[t]);
            } else if t < lead.len() + num.len() {
                assert(render_cells(m, i, j)[t] == num[t - lead.len()]);
            } else {
                assert(render_cells(m, i, j)[t] == rest[t - lead.len() - num.len()]);
            }
        }
    }
}

proof fn lemma_render_rows_ascii(m: &Matrix, i: int)
    ensures
        forall|t: int|
            0 <= t < render_rows(m, i).len() ==> #[trigger] render_rows(m, i)[t] < 128,
    decreases m.rows_spec() - i,
{
    if 0 <= i < m.rows_spec() {
        lemma_render_cells_ascii(m, i, 0);
        lemma_render_rows_ascii(m, i + 1);
        let lead: Seq<u8> = if i == 0 {
            seq![123u8]
        } else {
            seq![32u8]
        };
        let cells = render_cells(m, i, 0);
        let closer: Seq<u8> = if i == m.rows_spec() - 1 {
            seq![125u8]
        } else {
            seq![44u8]
        };
        let rest = render_rows(m, i + 1);
        assert forall|t: int| 0 <= t < render_rows(m, i).len() implies #[trigger] render_rows(
            m,
            i,
        )[t] < 128 by {
            if t < lead.len() {
                assert(render_rows(m, i)[t] == lead[t]);
            } else if t < lead.len() + cells.len() {
                assert(render_rows(m, i)[t] == cells[t - lead.len()]);
            } else if t < lead.len() + cells.len() + closer.len() {
                assert(render_rows(m, i)[t] == closer[t - lead.len() - cells.len()]);
            } else {
                assert(render_rows(m, i)[t] == rest[t - lead.len() - cells.len() - closer.len()]);
            }
        }
    }
}

impl Matrix {
    /// The text form: rows between braces, cells separated by
    /// spaces, rows separated by commas.
    pub fn to_text(&self) -> (r: String)
        requires
            self.wf(),
        ensures
            r@ == ascii_chars_of(render_matrix(self)),
    {
        let rows = self.rows;
        let cols = self.cols;
        let d_len = self.data.len();
        let mut out: Vec<u8> = Vec::new();
        proof {
            assert(render_matrix(self) =~= out@ + render_rows(self, 0));
        }
        let mut i: usize = 0;
        while i < rows
            invariant
                i <= rows,
                d_len as int == self.data_spec().len(),
                self.wf(),
                rows as int == self.rows_spec(),
                cols as int == self.cols_spec(),
                render_matrix(self) == out@ + render_rows(self, i as int),
            decreases rows - i,
        {
            let lead: u8 = if i == 0 {
                123
            } else {
                32
            };
            let ghost out0 = out@;
            out.push(lead);
            proof {
                assert(out@ =~= out0 + row_lead(i as int));
                assert(render_matrix(self) =~= out@ + render_cells(self, i as int, 0)
                    + row_closer(self, i as int) + render_rows(self, i as int + 1));
            }
            let mut j: usize = 0;
            while j < cols
                invariant
                    i < rows,
                    j <= cols,
                    d_len as int == self.data_spec().len(),
                    self.wf(),
                    rows as int == self.rows_spec(),
                    cols as int == self.cols_spec(),
                    render_matrix(self) == out@ + render_cells(self, i as int, j as int)
                        + row_closer(self, i as int) + render_rows(self, i as int + 1),
                decreases cols - j,
            {
                let ghost out1 = out@;
                let ghost sep: Seq<u8> = if j == 0 {
                    Seq::empty()
                } else {
                    seq![32u8]
                };
                if j > 0 {
                    out.push(32);
                }
                proof {
                    lemma_flat_index(i as int, j as int, rows as int, cols as int);
                    assert(i as int * cols as int + j < d_len as int);
                    assert(out@ =~= out1 + sep);
                }
                let v = self.data[i * cols + j];
                let ghost out2 = out@;
                push_i64_decimal(&mut out, v);
                proof {
                    assert(v == self.entry(i as int, j as int));
                    assert(render_cells(self, i as int, j as int) == sep + dec_i64(v as int)
                        + render_cells(self, i as int, j + 1));
                    assert(out@ + render_cells(self, i as int, j + 1) =~= out1 + render_cells(
                        self,
                        i as int,
                        j as int,
                    ));
                    assert(render_matrix(self) =~= out@ + render_cells(self, i as int, j + 1)
                        + row_closer(self, i as int) + render_rows(self, i as int + 1));
                }
                j = j + 1;
            }
            let closer: u8 = if i + 1 == rows {
                125
            } else {
                44
            };
            let ghost out3 = out@;
            out.push(closer);
            proof {
                assert(render_cells(self, i as int, cols as int) =~= Seq::<u8>::empty());
                assert(out@ =~= out3 + row_closer(self, i as int));
                assert(render_matrix(self) =~= out@ + render_rows(self, i as int + 1));
            }
            i = i + 1;
        }
        proof {
            assert(render_rows(self, rows as int) =~= Seq::<u8>::empty());
            assert(out@ =~= render_matrix(self));
            lemma_render_rows_ascii(self, 0);
        }
        ascii_to_string(out)
    }
}

} // verus!
