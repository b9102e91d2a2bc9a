use vstd::prelude::*;
use crate::vec::Vec4;

verus! {

/// Entry `(row, col)` of a 4×4 matrix stored column by column.
pub open spec fn entry(m: Seq<int>, row: int, col: int) -> int {
    m[col * 4 + row]
}

/// Row `row` of `a` times column `col` of `b`.
pub open spec fn row_times_col(a: Seq<int>, b: Seq<int>, row: int, col: int) -> int {
    entry(a, row, 0) * entry(b, 0, col) + entry(a, row, 1) * entry(b, 1, col) + entry(a, row, 2)
        * entry(b, 2, col) + entry(a, row, 3) * entry(b, 3, col)
}

/// The matrix product `a * b`.
pub open spec fn mat_mul(a: Seq<int>, b: Seq<int>) -> Seq<int> {
    Seq::new(16, |k: int| row_times_col(a, b, k % 4, k / 4))
}

/// The entrywise sum `a + b`.
pub open spec fn mat_add(a: Seq<int>, b: Seq<int>) -> Seq<int> {
    Seq::new(16, |k: int| a[k] + b[k])
}

/// The entrywise difference `a - b`.
pub open spec fn mat_sub(a: Seq<int>, b: Seq<int>) -> Seq<int> {
    Seq::new(16, |k: int| a[k] - b[k])
}

pub open spec fn identity_spec() -> Seq<int> {
    seq![1, 0, 0, 0, 0, 1, 0, 0, 0, 0, 1, 0, 0, 0, 0, 1]
}

pub open spec fn zero_spec() -> Seq<int> {
    Seq::new(16, |k: int| 0)
}

/// The entries of an integer matrix as mathematical integers.
pub open spec fn ints(m: Seq<i64>) -> Seq<int> {
    m.map_values(|x: i64| x as int)
}

pub open spec fn fits_i64(v: int) -> bool {
    i64::MIN <= v <= i64::MAX
}

/// Every product and partial sum of row `row` times column `col` fits in an `i64`.
pub open spec fn row_times_col_fits(a: Seq<int>, b: Seq<int>, row: int, col: int) -> bool {
    let t0 = entry(a, row, 0) * entry(b, 0, col);
    let t1 = entry(a, row, 1) * entry(b, 1, col);
    let t2 = entry(a, row, 2) * entry(b, 2, col);
    let t3 = entry(a, row, 3) * entry(b, 3, col);
    &&& fits_i64(t0) &&& fits_i64(t1) &&& fits_i64(t2) &&& fits_i64(t3)
    &&& fits_i64(t0 + t1) &&& fits_i64(t0 + t1 + t2) &&& fits_i64(t0 + t1 + t2 + t3)
}

/// `a * b` can be computed in `i64` arithmetic.
pub open spec fn mul_fits(a: Seq<int>, b: Seq<int>) -> bool {
    forall|row: int, col: int|
        0 <= row < 4 && 0 <= col < 4 ==> #[trigger] row_times_col_fits(a, b, row, col)
}

/// An entry of a product is the row of the left factor times the column of
/// the right one.
pub proof fn lemma_mat_mul_entry(a: Seq<int>, b: Seq<int>, row: int, col: int)
    requires
        0 <= row < 4,
        0 <= col < 4,
    ensures
        entry(mat_mul(a, b), row, col) == row_times_col(a, b, row, col),
{
    let k = col * 4 + row;
    assert(k % 4 == row && k / 4 == col);
}

proof fn lemma_seq16_ext(m: Seq<int>, n: Seq<int>)
    requires
        m.len() == 16,
        n.len() == 16,
        forall|row: int, col: int|
            0 <= row < 4 && 0 <= col < 4 ==> #[trigger] entry(m, row, col) == entry(n, row, col),
    ensures
        m == n,
{
    assert forall|k: int| 0 <= k < 16 implies m[k] == n[k] by {
        assert(entry(m, k % 4, k / 4) == entry(n, k % 4, k / 4));
        assert((k / 4) * 4 + k % 4 == k);
    }
    assert(m =~= n);
}

/// The identity matrix is neutral on both sides of the product.
pub proof fn lemma_identity_neutral(m: Seq<int>)
    requires
        m.len() == 16,
    ensures
        mat_mul(identity_spec(), m) == m,
        mat_mul(m, identity_spec()) == m,
{
    let id = identity_spec();
    assert forall|row: int, col: int| 0 <= row < 4 && 0 <= col < 4 implies #[trigger] entry(
        mat_mul(id, m),
        row,
        col,
    ) == entry(m, row, col) && entry(mat_mul(m, id), row, col) == entry(m, row, col) by {
        lemma_mat_mul_entry(id, m, row, col);
        lemma_mat_mul_entry(m, id, row, col);
        lemma_identity_column(m, id, row, col);
    }
    lemma_seq16_ext(mat_mul(id, m), m);
    lemma_seq16_ext(mat_mul(m, id), m);
}

proof fn lemma_unit_dot(e0: int, e1: int, e2: int, e3: int, x0: int, x1: int, x2: int, x3: int, i: int)
    requires
        0 <= i < 4,
        e0 == (if i == 0 { 1int } else { 0int }),
        e1 == (if i == 1 { 1int } else { 0int }),
        e2 == (if i == 2 { 1int } else { 0int }),
        e3 == (if i == 3 { 1int } else { 0int }),
    ensures
        e0 * x0 + e1 * x1 + e2 * x2 + e3 * x3 == (if i == 0 {
            x0
        } else if i == 1 {
            x1
        } else if i == 2 {
            x2
        } else {
            x3
        }),
        x0 * e0 + x1 * e1 + x2 * e2 + x3 * e3 == (if i == 0 {
            x0
        } else if i == 1 {
            x1
        } else if i == 2 {
            x2
        } else {
            x3
        }),
{
    if i == 0 {
        assert(e0 * x0 + e1 * x1 + e2 * x2 + e3 * x3 == x0 && x0 * e0 + x1 * e1 + x2 * e2 + x3 * e3 == x0)
            by (nonlinear_arith)
            requires
                e0 == 1 && e1 == 0 && e2 == 0 && e3 == 0,
        ;
    } else if i == 1 {
        assert(e0 * x0 + e1 * x1 + e2 * x2 + e3 * x3 == x1 && x0 * e0 + x1 * e1 + x2 * e2 + x3 * e3 == x1)
            by (nonlinear_arith)
            requires
                e0 == 0 && e1 == 1 && e2 == 0 && e3 == 0,
        ;
    } else if i == 2 {
        assert(e0 * x0 + e1 * x1 + e2 * x2 + e3 * x3 == x2 && x0 * e0 + x1 * e1 + x2 * e2 + x3 * e3 == x2)
            by (nonlinear_arith)
            requires
                e0 == 0 && e1 == 0 && e2 == 1 && e3 == 0,
        ;
    } else {
        assert(e0 * x0 + e1 * x1 + e2 * x2 + e3 * x3 == x3 && x0 * e0 + x1 * e1 + x2 * e2 + x3 * e3 == x3)
            by (nonlinear_arith)
            requires
                e0 == 0 && e1 == 0 && e2 == 0 && e3 == 1,
        ;
    }
}

proof fn lemma_identity_column(m: Seq<int>, id: Seq<int>, row: int, col: int)
    requires
        id == identity_spec(),
        0 <= row < 4,
        0 <= col < 4,
    ensures
        row_times_col(id, m, row, col) == entry(m, row, col),
        row_times_col(m, id, row, col) == entry(m, row, col),
{
    assert(id[0] == 1 && id[1] == 0 && id[2] == 0 && id[3] == 0);
    assert(id[4] == 0 && id[5] == 1 && id[6] == 0 && id[7] == 0);
    assert(id[8] == 0 && id[9] == 0 && id[10] == 1 && id[11] == 0);
    assert(id[12] == 0 && id[13] == 0 && id[14] == 0 && id[15] == 1);
    lemma_unit_dot(
        entry(id, row, 0), entry(id, row, 1), entry(id, row, 2), entry(id, row, 3),
        entry(m, 0, col), entry(m, 1, col), entry(m, 2, col), entry(m, 3, col),
        row,
    );
    lemma_unit_dot(
        entry(id, 0, col), entry(id, 1, col), entry(id, 2, col), entry(id, 3, col),
        entry(m, row, 0), entry(m, row, 1), entry(m, row, 2), entry(m, row, 3),
        col,
    );
}

proof fn lemma_distribute(x0: int, x1: int, x2: int, x3: int, y: int)
    ensures
        (x0 + x1 + x2 + x3) * y == x0 * y + x1 * y + x2 * y + x3 * y,
        y * (x0 + x1 + x2 + x3) == y * x0 + y * x1 + y * x2 + y * x3,
{
    assert((x0 + x1 + x2 + x3) * y == x0 * y + x1 * y + x2 * y + x3 * y) by (nonlinear_arith);
    assert(y * (x0 + x1 + x2 + x3) == y * x0 + y * x1 + y * x2 + y * x3) by (nonlinear_arith);
}

proof fn lemma_regroup(a: int, b: int, c: int)
    ensures
        a * (b * c) == (a * b) * c,
{
    assert(a * (b * c) == (a * b) * c) by (nonlinear_arith);
}

proof fn lemma_regroup_row(a: int, b0: int, b1: int, b2: int, b3: int, c0: int, c1: int, c2: int, c3: int)
    ensures
        a * (b0 * c0 + b1 * c1 + b2 * c2 + b3 * c3) == (a * b0) * c0 + (a * b1) * c1 + (a * b2) * c2
            + (a * b3) * c3,
{
    lemma_distribute(b0 * c0, b1 * c1, b2 * c2, b3 * c3, a);
    lemma_regroup(a, b0, c0);
    lemma_regroup(a, b1, c1);
    lemma_regroup(a, b2, c2);
    lemma_regroup(a, b3, c3);
}

proof fn lemma_assoc_sum(
    a0: int, a1: int, a2: int, a3: int,
    b00: int, b01: int, b02: int, b03: int,
    b10: int, b11: int, b12: int, b13: int,
    b20: int, b21: int, b22: int, b23: int,
    b30: int, b31: int, b32: int, b33: int,
    c0: int, c1: int, c2: int, c3: int,
)
    ensures
        (a0 * b00 + a1 * b10 + a2 * b20 + a3 * b30) * c0
            + (a0 * b01 + a1 * b11 + a2 * b21 + a3 * b31) * c1
            + (a0 * b02 + a1 * b12 + a2 * b22 + a3 * b32) * c2
            + (a0 * b03 + a1 * b13 + a2 * b23 + a3 * b33) * c3
        == a0 * (b00 * c0 + b01 * c1 + b02 * c2 + b03 * c3)
            + a1 * (b10 * c0 + b11 * c1 + b12 * c2 + b13 * c3)
            + a2 * (b20 * c0 + b21 * c1 + b22 * c2 + b23 * c3)
            + a3 * (b30 * c0 + b31 * c1 + b32 * c2 + b33 * c3),
{
    lemma_distribute(a0 * b00, a1 * b10, a2 * b20, a3 * b30, c0);
    lemma_distribute(a0 * b01, a1 * b11, a2 * b21, a3 * b31, c1);
    lemma_distribute(a0 * b02, a1 * b12, a2 * b22, a3 * b32, c2);
    lemma_distribute(a0 * b03, a1 * b13, a2 * b23, a3 * b33, c3);
    lemma_regroup_row(a0, b00, b01, b02, b03, c0, c1, c2, c3);
    lemma_regroup_row(a1, b10, b11, b12, b13, c0, c1, c2, c3);
    lemma_regroup_row(a2, b20, b21, b22, b23, c0, c1, c2, c3);
    lemma_regroup_row(a3, b30, b31, b32, b33, c0, c1, c2, c3);
}

/// The matrix product is associative: `(a * b) * c == a * (b * c)`.
pub proof fn lemma_mul_associative(a: Seq<int>, b: Seq<int>, c: Seq<int>)
    requires
        a.len() == 16,
        b.len() == 16,
        c.len() == 16,
    ensures
        mat_mul(mat_mul(a, b), c) == mat_mul(a, mat_mul(b, c)),
{
    let ab = mat_mul(a, b);
    let bc = mat_mul(b, c);
    assert forall|row: int, col: int| 0 <= row < 4 && 0 <= col < 4 implies #[trigger] entry(
        mat_mul(ab, c),
        row,
        col,
    ) == entry(mat_mul(a, bc), row, col) by {
        lemma_mat_mul_entry(ab, c, row, col);
        lemma_mat_mul_entry(a, bc, row, col);
        lemma_mat_mul_entry(a, b, row, 0);
        lemma_mat_mul_entry(a, b, row, 1);
        lemma_mat_mul_entry(a, b, row, 2);
        lemma_mat_mul_entry(a, b, row, 3);
        lemma_mat_mul_entry(b, c, 0, col);
        lemma_mat_mul_entry(b, c, 1, col);
        lemma_mat_mul_entry(b, c, 2, col);
        lemma_mat_mul_entry(b, c, 3, col);
        lemma_assoc_sum(
            entry(a, row, 0), entry(a, row, 1), entry(a, row, 2), entry(a, row, 3),
            entry(b, 0, 0), entry(b, 0, 1), entry(b, 0, 2), entry(b, 0, 3),
            entry(b, 1, 0), entry(b, 1, 1), entry(b, 1, 2), entry(b, 1, 3),
            entry(b, 2, 0), entry(b, 2, 1), entry(b, 2, 2), entry(b, 2, 3),
            entry(b, 3, 0), entry(b, 3, 1), entry(b, 3, 2), entry(b, 3, 3),
            entry(c, 0, col), entry(c, 1, col), entry(c, 2, col), entry(c, 3, col),
        );
    }
    lemma_seq16_ext(mat_mul(ab, c), mat_mul(a, bc));
}

/// The components of a vector as mathematical integers.
pub open spec fn vec4_ints(v: Vec4<i64>) -> Seq<int> {
    seq![v.x as int, v.y as int, v.z as int, v.w as int]
}

/// Row `row` of `m` times the column vector `v`.
pub open spec fn row_times_vec(m: Seq<int>, v: Seq<int>, row: int) -> int {
    entry(m, row, 0) * v[0] + entry(m, row, 1) * v[1] + entry(m, row, 2) * v[2] + entry(m, row, 3) * v[3]
}

/// The product `m * v` of a matrix and a column vector.
pub open spec fn mat_vec(m: Seq<int>, v: Seq<int>) -> Seq<int> {
    Seq::new(4, |row: int| row_times_vec(m, v, row))
}

/// Every product and partial sum of `m * v` fits in an `i64`.
pub open spec fn mat_vec_fits(m: Seq<int>, v: Seq<int>) -> bool {
    forall|row: int|
        0 <= row < 4 ==> {
            let t0 = entry(m, row, 0) * v[0];
            let t1 = entry(m, row, 1) * v[1];
            let t2 = entry(m, row, 2) * v[2];
            let t3 = entry(m, row, 3) * v[3];
            &&& fits_i64(t0) &&& fits_i64(t1) &&& fits_i64(t2) &&& fits_i64(t3)
            &&& fits_i64(t0 + t1) &&& fits_i64(t0 + t1 + t2) &&& fits_i64(#[trigger] row_times_vec(m, v, row))
        }
}

/// Transforming by a product is transforming by each factor in turn, the
/// right one first: `(a * b) * v == a * (b * v)`.
pub proof fn lemma_mat_vec_compose(a: Seq<int>, b: Seq<int>, v: Seq<int>)
    requires
        a.len() == 16,
        b.len() == 16,
        v.len() == 4,
    ensures
        mat_vec(mat_mul(a, b), v) == mat_vec(a, mat_vec(b, v)),
{
    let ab = mat_mul(a, b);
    let bv = mat_vec(b, v);
    assert forall|row: int| 0 <= row < 4 implies #[trigger] mat_vec(ab, v)[row] == mat_vec(a, bv)[row] by {
        lemma_mat_mul_entry(a, b, row, 0);
        lemma_mat_mul_entry(a, b, row, 1);
        lemma_mat_mul_entry(a, b, row, 2);
        lemma_mat_mul_entry(a, b, row, 3);
        lemma_assoc_sum(
            entry(a, row, 0), entry(a, row, 1), entry(a, row, 2), entry(a, row, 3),
            entry(b, 0, 0), entry(b, 0, 1), entry(b, 0, 2), entry(b, 0, 3),
            entry(b, 1, 0), entry(b, 1, 1), entry(b, 1, 2), entry(b, 1, 3),
            entry(b, 2, 0), entry(b, 2, 1), entry(b, 2, 2), entry(b, 2, 3),
            entry(b, 3, 0), entry(b, 3, 1), entry(b, 3, 2), entry(b, 3, 3),
            v[0], v[1], v[2], v[3],
        );
    }
    assert(mat_vec(ab, v) =~= mat_vec(a, bv));
}

/// A 4×4 matrix, stored in column-major order.
pub struct Matrix4x4<T> {
    data: Vec<T>,
}

impl<T> View for Matrix4x4<T> {
    type V = Seq<T>;

    closed spec fn view(&self) -> Seq<T> {
        self.data@
    }
}

impl<T> Matrix4x4<T> {
    /// A matrix has sixteen entries.
    pub open spec fn wf(&self) -> bool {
        self@.len() == 16
    }
}

impl<T: Copy> Matrix4x4<T> {
    /// The storage position of entry `(row, col)`.
    fn index(&self, row: usize, col: usize) -> (r: usize)
        requires
            row < 4,
            col < 4,
        ensures
            r == col * 4 + row,
    {
        col * 4 + row
    }

    /// Replaces entry `(row, col)` by `val`.
    pub fn set(&mut self, row: usize, col: usize, val: T)
        requires
            old(self).wf(),
            row < 4,
            col < 4,
        ensures
            final(self).wf(),
            final(self)@ == old(self)@.update(col * 4 + row, val),
    {
        let index = self.index(row, col);
        self.data.set(index, val);
    }

    /// Entry `(row, col)`.
    pub fn get(&self, row: usize, col: usize) -> (r: T)
        requires
            self.wf(),
            row < 4,
            col < 4,
        ensures
            r == self@[col * 4 + row],
    {
        self.data[self.index(row, col)]
    }
}

impl Matrix4x4<i64> {
    /// The zero matrix.
    pub fn new() -> (r: Matrix4x4<i64>)
        ensures
            r.wf(),
            ints(r@) == zero_spec(),
    {
        let mut data: Vec<i64> = Vec::with_capacity(16);
        data.resize(16, 0);
        let r = Matrix4x4 { data };
        assert(ints(r@) =~= zero_spec());
        r
    }

    /// The identity matrix.
    pub fn identity() -> (r: Matrix4x4<i64>)
        ensures
            r.wf(),
            ints(r@) == identity_spec(),
    {
        let mut mat = Matrix4x4::new();
        assert forall|k: int| 0 <= k < 16 implies mat@[k] == 0i64 by {
            assert(ints(mat@)[k] == zero_spec()[k]);
        }
        let mut i: usize = 0;
        while i < 4
            invariant
                0 <= i <= 4,
                mat.wf(),
                forall|k: int|
                    0 <= k < 16 ==> #[trigger] mat@[k] == (if k % 4 == k / 4 && k / 4 < i {
                        1i64
                    } else {
                        0i64
                    }),
            decreases 4 - i,
        {
            mat.set(i, i, 1);
            i = i + 1;
        }
        assert(ints(mat@) =~= identity_spec());
        mat
    }

    /// One entry of the product: row `row` of `self` times column `col` of `rhs`.
    fn row_times_col(&self, rhs: &Matrix4x4<i64>, row: usize, col: usize) -> (r: i64)
        requires
            row < 4,
            col < 4,
            self.wf(),
            rhs.wf(),
            row_times_col_fits(ints(self@), ints(rhs@), row as int, col as int),
        ensures
            r == row_times_col(ints(self@), ints(rhs@), row as int, col as int),
    {
        let t0 = self.get(row, 0) * rhs.get(0, col);
        let t1 = self.get(row, 1) * rhs.get(1, col);
        let t2 = self.get(row, 2) * rhs.get(2, col);
        let t3 = self.get(row, 3) * rhs.get(3, col);
        t0 + t1 + t2 + t3
    }

    /// The matrix product `self * rhs`.
    pub fn mul(&self, rhs: &Matrix4x4<i64>) -> (r: Matrix4x4<i64>)
        requires
            self.wf(),
            rhs.wf(),
            mul_fits(ints(self@), ints(rhs@)),
        ensures
            r.wf(),
            ints(r@) == mat_mul(ints(self@), ints(rhs@)),
    {
        let mut data: Vec<i64> = Vec::with_capacity(16);
        let mut k: usize = 0;
        while k < 16
            invariant
                0 <= k <= 16,
                data@.len() == k,
                self.wf(),
                rhs.wf(),
                mul_fits(ints(self@), ints(rhs@)),
                forall|n: int|
                    0 <= n < k ==> #[trigger] data@[n] as int == mat_mul(ints(self@), ints(rhs@))[n],
            decreases 16 - k,
        {
            assert(row_times_col_fits(ints(self@), ints(rhs@), (k % 4) as int, (k / 4) as int));
            let val = self.row_times_col(rhs, k % 4, k / 4);
            data.push(val);
            k = k + 1;
        }
        let r = Matrix4x4 { data };
        assert(ints(r@) =~= mat_mul(ints(self@), ints(rhs@)));
        r
    }

    /// The entrywise sum `self + rhs`.
    pub fn add(&self, rhs: &Matrix4x4<i64>) -> (r: Matrix4x4<i64>)
        requires
            self.wf(),
            rhs.wf(),
            forall|k: int| 0 <= k < 16 ==> fits_i64(#[trigger] ints(self@)[k] + ints(rhs@)[k]),
        ensures
            r.wf(),
            ints(r@) == mat_add(ints(self@), ints(rhs@)),
    {
        let mut data: Vec<i64> = Vec::with_capacity(16);
        let mut k: usize = 0;
        while k < 16
            invariant
                0 <= k <= 16,
                data@.len() == k,
                self@.len() == 16,
                rhs@.len() == 16,
                forall|k: int| 0 <= k < 16 ==> fits_i64(#[trigger] ints(self@)[k] + ints(rhs@)[k]),
                forall|n: int|
                    0 <= n < k ==> #[trigger] data@[n] as int == mat_add(ints(self@), ints(rhs@))[n],
            decreases 16 - k,
        {
            assert(fits_i64(ints(self@)[k as int] + ints(rhs@)[k as int]));
            data.push(self.get(k % 4, k / 4) + rhs.get(k % 4, k / 4));
            k = k + 1;
        }
        let r = Matrix4x4 { data };
        assert(ints(r@) =~= mat_add(ints(self@), ints(rhs@)));
        r
    }

    /// The entrywise difference `self - rhs`.
    pub fn sub(&self, rhs: &Matrix4x4<i64>) -> (r: Matrix4x4<i64>)
        requires
            self.wf(),
            rhs.wf(),
            forall|k: int| 0 <= k < 16 ==> fits_i64(#[trigger] ints(self@)[k] - ints(rhs@)[k]),
        ensures
            r.wf(),
            ints(r@) == mat_sub(ints(self@), ints(rhs@)),
    {
        let mut data: Vec<i64> = Vec::with_capacity(16);
        let mut k: usize = 0;
        while k < 16
            invariant
                0 <= k <= 16,
                data@.len() == k,
                self@.len() == 16,
                rhs@.len() == 16,
                forall|k: int| 0 <= k < 16 ==> fits_i64(#[trigger] ints(self@)[k] - ints(rhs@)[k]),
                forall|n: int|
                    0 <= n < k ==> #[trigger] data@[n] as int == mat_sub(ints(self@), ints(rhs@))[n],
            decreases 16 - k,
        {
            assert(fits_i64(ints(self@)[k as int] - ints(rhs@)[k as int]));
            data.push(self.get(k % 4, k / 4) - rhs.get(k % 4, k / 4));
            k = k + 1;
        }
        let r = Matrix4x4 { data };
        assert(ints(r@) =~= mat_sub(ints(self@), ints(rhs@)));
        r
    }

    /// Row `row` of the matrix times the column vector `v`.
    fn row_times_vec(&self, v: &Vec4<i64>, row: usize) -> (r: i64)
        requires
            self.wf(),
            row < 4,
            mat_vec_fits(ints(self@), vec4_ints(*v)),
        ensures
            r == row_times_vec(ints(self@), vec4_ints(*v), row as int),
    {
        let ghost vi = vec4_ints(*v);
        assert(vi[0] == v.x && vi[1] == v.y && vi[2] == v.z && vi[3] == v.w);
        assert(fits_i64(row_times_vec(ints(self@), vi, row as int)));
        let t0 = self.get(row, 0) * v.x;
        let t1 = self.get(row, 1) * v.y;
        let t2 = self.get(row, 2) * v.z;
        let t3 = self.get(row, 3) * v.w;
        t0 + t1 + t2 + t3
    }

    /// The product `self * v` of the matrix and a column vector.
    pub fn mul_vec(&self, v: &Vec4<i64>) -> (r: Vec4<i64>)
        requires
            self.wf(),
            mat_vec_fits(ints(self@), vec4_ints(*v)),
        ensures
            vec4_ints(r) == mat_vec(ints(self@), vec4_ints(*v)),
    {
        let r = Vec4 {
            x: self.row_times_vec(v, 0),
            y: self.row_times_vec(v, 1),
            z: self.row_times_vec(v, 2),
            w: self.row_times_vec(v, 3),
        };
        assert(vec4_ints(r) =~= mat_vec(ints(self@), vec4_ints(*v)));
        r
    }
}

} // verus!
