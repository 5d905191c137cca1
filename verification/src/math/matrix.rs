use vstd::prelude::*;

use vstd::arithmetic::mul::{lemma_mul_basics_4, lemma_mul_is_associative, lemma_mul_is_commutative, lemma_mul_is_distributive_add, lemma_mul_is_distributive_sub, lemma_mul_unary_negation};

use crate::math::vector::{Vector, spec_dot, spec_dot_abs};

verus! {

/// An R x C matrix of integer scalars, stored as R row vectors of C entries.
#[derive(Debug, Clone, PartialEq, Eq)]
pub struct Matrix<const R: usize, const C: usize> {
    pub rows: Vec<Vector<C>>,
}

impl<const R: usize, const C: usize> Matrix<R, C> {
    /// The matrix holds exactly R rows of C entries each.
    pub open spec fn wf(&self) -> bool {
        self.rows@.len() == R && forall|i: int| 0 <= i < R ==> (#[trigger] self.rows@[i]).wf()
    }

    /// The entry in row `i`, column `j`.
    pub open spec fn at(&self, i: int, j: int) -> i64 {
        self.rows@[i].data@[j]
    }

    /// Row `i` as a sequence of scalars.
    pub open spec fn row(&self, i: int) -> Seq<i64> {
        self.rows@[i].data@
    }

    /// Column `j` as a sequence of scalars.
    pub open spec fn col(&self, j: int) -> Seq<i64> {
        Seq::new(R as nat, |i: int| self.at(i, j))
    }

    /// The zero matrix.
    pub fn new() -> (r: Self)
        ensures
            r.wf(),
            forall|i: int, j: int| 0 <= i < R && 0 <= j < C ==> r.at(i, j) == 0,
    {
        let mut rows: Vec<Vector<C>> = Vec::new();
        let mut i: usize = 0;
        while i < R
            invariant
                i <= R,
                rows@.len() == i,
                forall|k: int| 0 <= k < i ==> (#[trigger] rows@[k]).wf(),
                forall|k: int, j: int|
                    0 <= k < i && 0 <= j < C ==> rows@[k].data@[j] == 0,
            decreases R - i,
        {
            rows.push(Vector::<C>::new());
            i = i + 1;
        }
        Matrix { rows }
    }

    /// The entry in row `i`, column `j`.
    pub fn get(&self, i: usize, j: usize) -> (r: i64)
        requires
            self.wf(),
            i < R,
            j < C,
        ensures
            r == self.at(i as int, j as int),
    {
        self.rows[i].get(j)
    }

    /// Replaces the entry in row `i`, column `j`.
    pub fn set(&mut self, i: usize, j: usize, value: i64)
        requires
            old(self).wf(),
            i < R,
            j < C,
        ensures
            final (self).wf(),
            final (self).at(i as int, j as int) == value,
            forall|i_: int, j_: int|
                0 <= i_ < R && 0 <= j_ < C && !(i_ == i && j_ == j) ==> final (self).at(i_, j_)
                    == old(self).at(i_, j_),
    {
        self.rows[i].set(j, value);
    }

    /// Column `j` as a vector.
    pub fn get_col(&self, j: usize) -> (r: Vector<R>)
        requires
            self.wf(),
            j < C,
        ensures
            r.wf(),
            forall|i: int| 0 <= i < R ==> r.at(i) == self.at(i, j as int),
            r.data@ == self.col(j as int),
    {
        let mut data: Vec<i64> = Vec::new();
        let mut i: usize = 0;
        while i < R
            invariant
                i <= R,
                j < C,
                self.wf(),
                data@.len() == i,
                forall|k: int| 0 <= k < i ==> data@[k] == self.at(k, j as int),
            decreases R - i,
        {
            let v = self.rows[i].get(j);
            data.push(v);
            i = i + 1;
        }
        let r = Vector { data };
        proof {
            assert(r.data@ =~= self.col(j as int));
        }
        r
    }

    /// Overwrites column `j` with the entries of `col`.
    pub fn set_col(&mut self, j: usize, col: &Vector<R>)
        requires
            old(self).wf(),
            col.wf(),
            j < C,
        ensures
            final (self).wf(),
            forall|i: int| 0 <= i < R ==> final (self).at(i, j as int) == col.at(i),
            forall|i: int, j_: int|
                0 <= i < R && 0 <= j_ < C && j_ != j ==> final (self).at(i, j_) == old(self).at(
                    i,
                    j_,
                ),
    {
        let ghost orig = *self;
        let mut i: usize = 0;
        while i < R
            invariant
                i <= R,
                j < C,
                col.wf(),
                self.wf(),
                forall|k: int| 0 <= k < i ==> self.at(k, j as int) == col.at(k),
                forall|k: int, j_: int|
                    0 <= k < R && 0 <= j_ < C && !(k < i && j_ == j) ==> self.at(k, j_) == orig.at(
                        k,
                        j_,
                    ),
            decreases R - i,
        {
            let v = col.get(i);
            self.set(i, j, v);
            i = i + 1;
        }
    }

    /// The transposed matrix: rows become columns.
    pub fn transpose(&self) -> (r: Matrix<C, R>)
        requires
            self.wf(),
        ensures
            r.wf(),
            forall|i: int, j: int| 0 <= i < C && 0 <= j < R ==> r.at(i, j) == self.at(j, i),
    {
        let mut rows: Vec<Vector<R>> = Vec::new();
        let mut i: usize = 0;
        while i < C
            invariant
                i <= C,
                self.wf(),
                rows@.len() == i,
                forall|k: int| 0 <= k < i ==> (#[trigger] rows@[k]).wf(),
                forall|k: int, j: int|
                    0 <= k < i && 0 <= j < R ==> rows@[k].data@[j] == self.at(j, k),
            decreases C - i,
        {
            let col = self.get_col(i);
            rows.push(col);
            i = i + 1;
        }
        Matrix { rows }
    }

    /// Componentwise sum.
    pub fn add(&self, rhs: &Self) -> (r: Self)
        requires
            self.wf(),
            rhs.wf(),
            forall|i: int, j: int|
                0 <= i < R && 0 <= j < C ==> i64::MIN <= #[trigger] self.at(i, j) + rhs.at(i, j)
                    <= i64::MAX,
        ensures
            r.wf(),
            forall|i: int, j: int|
                0 <= i < R && 0 <= j < C ==> r.at(i, j) == self.at(i, j) + rhs.at(i, j),
    {
        let mut rows: Vec<Vector<C>> = Vec::new();
        let mut i: usize = 0;
        while i < R
            invariant
                i <= R,
                self.wf(),
                rhs.wf(),
                forall|k: int, j: int|
                    0 <= k < R && 0 <= j < C ==> i64::MIN <= #[trigger] self.at(k, j) + rhs.at(
                        k,
                        j,
                    ) <= i64::MAX,
                rows@.len() == i,
                forall|k: int| 0 <= k < i ==> (#[trigger] rows@[k]).wf(),
                forall|k: int, j: int|
                    0 <= k < i && 0 <= j < C ==> rows@[k].data@[j] == self.at(k, j) + rhs.at(k, j),
            decreases R - i,
        {
            let mut data: Vec<i64> = Vec::new();
            let mut j: usize = 0;
            while j < C
                invariant
                    j <= C,
                    i < R,
                    self.wf(),
                    rhs.wf(),
                    forall|k: int, j_: int|
                        0 <= k < R && 0 <= j_ < C ==> i64::MIN <= #[trigger] self.at(k, j_)
                            + rhs.at(k, j_) <= i64::MAX,
                    data@.len() == j,
                    forall|j_: int| 0 <= j_ < j ==> data@[j_] == self.at(i as int, j_) + rhs.at(
                        i as int,
                        j_,
                    ),
                decreases C - j,
            {
                assert(i64::MIN <= self.at(i as int, j as int) + rhs.at(i as int, j as int)
                    <= i64::MAX);
                let v = self.rows[i].get(j) + rhs.rows[i].get(j);
                data.push(v);
                j = j + 1;
            }
            rows.push(Vector { data });
            i = i + 1;
        }
        Matrix { rows }
    }

    /// Componentwise difference.
    pub fn sub(&self, rhs: &Self) -> (r: Self)
        requires
            self.wf(),
            rhs.wf(),
            forall|i: int, j: int|
                0 <= i < R && 0 <= j < C ==> i64::MIN <= #[trigger] self.at(i, j) - rhs.at(i, j)
                    <= i64::MAX,
        ensures
            r.wf(),
            forall|i: int, j: int|
                0 <= i < R && 0 <= j < C ==> r.at(i, j) == self.at(i, j) - rhs.at(i, j),
    {
        let mut rows: Vec<Vector<C>> = Vec::new();
        let mut i: usize = 0;
        while i < R
            invariant
                i <= R,
                self.wf(),
                rhs.wf(),
                forall|k: int, j: int|
                    0 <= k < R && 0 <= j < C ==> i64::MIN <= #[trigger] self.at(k, j) - rhs.at(
                        k,
                        j,
                    ) <= i64::MAX,
                rows@.len() == i,
                forall|k: int| 0 <= k < i ==> (#[trigger] rows@[k]).wf(),
                forall|k: int, j: int|
                    0 <= k < i && 0 <= j < C ==> rows@[k].data@[j] == self.at(k, j) - rhs.at(k, j),
            decreases R - i,
        {
            let mut data: Vec<i64> = Vec::new();
            let mut j: usize = 0;
            while j < C
                invariant
                    j <= C,
                    i < R,
                    self.wf(),
                    rhs.wf(),
                    forall|k: int, j_: int|
                        0 <= k < R && 0 <= j_ < C ==> i64::MIN <= #[trigger] self.at(k, j_)
                            - rhs.at(k, j_) <= i64::MAX,
                    data@.len() == j,
                    forall|j_: int| 0 <= j_ < j ==> data@[j_] == self.at(i as int, j_) - rhs.at(
                        i as int,
                        j_,
                    ),
                decreases C - j,
            {
                assert(i64::MIN <= self.at(i as int, j as int) - rhs.at(i as int, j as int)
                    <= i64::MAX);
                let v = self.rows[i].get(j) - rhs.rows[i].get(j);
                data.push(v);
                j = j + 1;
            }
            rows.push(Vector { data });
            i = i + 1;
        }
        Matrix { rows }
    }

    /// The matrix product, by the standard row-times-column triple loop.
    pub fn mul<const K: usize>(&self, rhs: &Matrix<C, K>) -> (r: Matrix<R, K>)
        requires
            self.wf(),
            rhs.wf(),
            forall|i: int, j: int|
                0 <= i < R && 0 <= j < K ==> #[trigger] spec_dot_abs(
                    self.row(i),
                    rhs.col(j),
                    C as int,
                ) <= i64::MAX,
        ensures
            r.wf(),
            forall|i: int, j: int|
                0 <= i < R && 0 <= j < K ==> r.at(i, j) == spec_dot(
                    self.row(i),
                    rhs.col(j),
                    C as int,
                ),
    {
        let mut rows: Vec<Vector<K>> = Vec::new();
        let mut i: usize = 0;
        while i < R
            invariant
                i <= R,
                self.wf(),
                rhs.wf(),
                forall|k: int, j: int|
                    0 <= k < R && 0 <= j < K ==> #[trigger] spec_dot_abs(
                        self.row(k),
                        rhs.col(j),
                        C as int,
                    ) <= i64::MAX,
                rows@.len() == i,
                forall|k: int| 0 <= k < i ==> (#[trigger] rows@[k]).wf(),
                forall|k: int, j: int|
                    0 <= k < i && 0 <= j < K ==> rows@[k].data@[j] == spec_dot(
                        self.row(k),
                        rhs.col(j),
                        C as int,
                    ),
            decreases R - i,
        {
            let mut data: Vec<i64> = Vec::new();
            let mut j: usize = 0;
            while j < K
                invariant
                    j <= K,
                    i < R,
                    self.wf(),
                    rhs.wf(),
                    forall|k: int, j_: int|
                        0 <= k < R && 0 <= j_ < K ==> #[trigger] spec_dot_abs(
                            self.row(k),
                            rhs.col(j_),
                            C as int,
                        ) <= i64::MAX,
                    data@.len() == j,
                    forall|j_: int| 0 <= j_ < j ==> data@[j_] == spec_dot(
                        self.row(i as int),
                        rhs.col(j_),
                        C as int,
                    ),
                decreases K - j,
            {
                let colj = rhs.get_col(j);
                assert(spec_dot_abs(self.row(i as int), rhs.col(j as int), C as int) <= i64::MAX);
                let v = self.rows[i].dot(&colj);
                data.push(v);
                j = j + 1;
            }
            rows.push(Vector { data });
            i = i + 1;
        }
        Matrix { rows }
    }

    /// The matrix-vector product.
    pub fn mul_vec(&self, rhs: &Vector<C>) -> (r: Vector<R>)
        requires
            self.wf(),
            rhs.wf(),
            forall|i: int|
                0 <= i < R ==> #[trigger] spec_dot_abs(self.row(i), rhs.data@, C as int)
                    <= i64::MAX,
        ensures
            r.wf(),
            forall|i: int|
                0 <= i < R ==> r.at(i) == spec_dot(self.row(i), rhs.data@, C as int),
    {
        let mut data: Vec<i64> = Vec::new();
        let mut i: usize = 0;
        while i < R
            invariant
                i <= R,
                self.wf(),
                rhs.wf(),
                forall|k: int|
                    0 <= k < R ==> #[trigger] spec_dot_abs(self.row(k), rhs.data@, C as int)
                        <= i64::MAX,
                data@.len() == i,
                forall|k: int| 0 <= k < i ==> data@[k] == spec_dot(self.row(k), rhs.data@, C as int),
            decreases R - i,
        {
            assert(spec_dot_abs(self.row(i as int), rhs.data@, C as int) <= i64::MAX);
            let v = self.rows[i].dot(rhs);
            data.push(v);
            i = i + 1;
        }
        Vector { data }
    }
}


/// Entry bound under which a 2x2 determinant cannot overflow.
pub const DET2_LIMIT: i64 = 2_000_000_000;

/// Entry bound under which a 3x3 determinant cannot overflow.
pub const DET3_LIMIT: i64 = 1_000_000;

/// Entry bound under which a 4x4 determinant cannot overflow.
pub const DET4_LIMIT: i64 = 20_000;

/// The cofactor sign (-1)^(i+j).
pub open spec fn spec_sign(i: int, j: int) -> int {
    if (i + j) % 2 == 0 {
        1
    } else {
        -1
    }
}

/// The row or column index of the full matrix that row or column `k` of a
/// minor refers to, when row or column `cut` was removed.
pub open spec fn skip_idx(k: int, cut: int) -> int {
    if k < cut {
        k
    } else {
        k + 1
    }
}

/// The determinant of a 1x1 matrix.
pub open spec fn spec_det1(m: Matrix<1, 1>) -> int {
    m.at(0, 0) as int
}

/// The determinant of a 2x2 matrix.
pub open spec fn spec_det2(m: Matrix<2, 2>) -> int {
    m.at(0, 0) * m.at(1, 1) - m.at(0, 1) * m.at(1, 0)
}

/// The cofactor of entry (i, j) of a 2x2 matrix.
pub open spec fn spec_cof2(m: Matrix<2, 2>, i: int, j: int) -> int {
    spec_sign(i, j) * m.at(1 - i, 1 - j)
}

/// The determinant of a 3x3 matrix from its nine entries.
pub open spec fn spec_det3_gen(
    a00: int,
    a01: int,
    a02: int,
    a10: int,
    a11: int,
    a12: int,
    a20: int,
    a21: int,
    a22: int,
) -> int {
    a00 * a11 * a22 + a01 * a12 * a20 + a02 * a10 * a21 - a00 * a12 * a21 - a01 * a10 * a22 - a02
        * a11 * a20
}

/// The determinant of a 3x3 matrix.
pub open spec fn spec_det3(m: Matrix<3, 3>) -> int {
    spec_det3_gen(
        m.at(0, 0) as int,
        m.at(0, 1) as int,
        m.at(0, 2) as int,
        m.at(1, 0) as int,
        m.at(1, 1) as int,
        m.at(1, 2) as int,
        m.at(2, 0) as int,
        m.at(2, 1) as int,
        m.at(2, 2) as int,
    )
}

/// Entry (r, c) of the minor of a 3x3 matrix obtained by removing row `i`
/// and column `j`.
pub open spec fn spec_minor3_at(m: Matrix<3, 3>, i: int, j: int, r: int, c: int) -> int {
    m.at(skip_idx(r, i), skip_idx(c, j)) as int
}

/// The cofactor of entry (i, j) of a 3x3 matrix.
pub open spec fn spec_cof3(m: Matrix<3, 3>, i: int, j: int) -> int {
    spec_sign(i, j) * (spec_minor3_at(m, i, j, 0, 0) * spec_minor3_at(m, i, j, 1, 1)
        - spec_minor3_at(m, i, j, 0, 1) * spec_minor3_at(m, i, j, 1, 0))
}

/// Entry (r, c) of the minor of a 4x4 matrix obtained by removing row `i`
/// and column `j`.
pub open spec fn spec_minor4_at(m: Matrix<4, 4>, i: int, j: int, r: int, c: int) -> int {
    m.at(skip_idx(r, i), skip_idx(c, j)) as int
}

/// The cofactor of entry (i, j) of a 4x4 matrix.
pub open spec fn spec_cof4(m: Matrix<4, 4>, i: int, j: int) -> int {
    spec_sign(i, j) * spec_det3_gen(
        spec_minor4_at(m, i, j, 0, 0),
        spec_minor4_at(m, i, j, 0, 1),
        spec_minor4_at(m, i, j, 0, 2),
        spec_minor4_at(m, i, j, 1, 0),
        spec_minor4_at(m, i, j, 1, 1),
        spec_minor4_at(m, i, j, 1, 2),
        spec_minor4_at(m, i, j, 2, 0),
        spec_minor4_at(m, i, j, 2, 1),
        spec_minor4_at(m, i, j, 2, 2),
    )
}

/// The determinant of a 4x4 matrix, by Laplace expansion along the first row.
pub open spec fn spec_det4(m: Matrix<4, 4>) -> int {
    m.at(0, 0) * spec_cof4(m, 0, 0) + m.at(0, 1) * spec_cof4(m, 0, 1) + m.at(0, 2) * spec_cof4(
        m,
        0,
        2,
    ) + m.at(0, 3) * spec_cof4(m, 0, 3)
}

/// Every entry of a 2x2 matrix lies within [-b, b].
pub open spec fn spec_entries_bounded2(m: Matrix<2, 2>, b: int) -> bool {
    &&& -b <= m.at(0, 0) <= b
    &&& -b <= m.at(0, 1) <= b
    &&& -b <= m.at(1, 0) <= b
    &&& -b <= m.at(1, 1) <= b
}

/// Every entry of a 3x3 matrix lies within [-b, b].
pub open spec fn spec_entries_bounded3(m: Matrix<3, 3>, b: int) -> bool {
    &&& -b <= m.at(0, 0) <= b
    &&& -b <= m.at(0, 1) <= b
    &&& -b <= m.at(0, 2) <= b
    &&& -b <= m.at(1, 0) <= b
    &&& -b <= m.at(1, 1) <= b
    &&& -b <= m.at(1, 2) <= b
    &&& -b <= m.at(2, 0) <= b
    &&& -b <= m.at(2, 1) <= b
    &&& -b <= m.at(2, 2) <= b
}

/// Every entry of a 4x4 matrix lies within [-b, b].
pub open spec fn spec_entries_bounded4(m: Matrix<4, 4>, b: int) -> bool {
    &&& -b <= m.at(0, 0) <= b
    &&& -b <= m.at(0, 1) <= b
    &&& -b <= m.at(0, 2) <= b
    &&& -b <= m.at(0, 3) <= b
    &&& -b <= m.at(1, 0) <= b
    &&& -b <= m.at(1, 1) <= b
    &&& -b <= m.at(1, 2) <= b
    &&& -b <= m.at(1, 3) <= b
    &&& -b <= m.at(2, 0) <= b
    &&& -b <= m.at(2, 1) <= b
    &&& -b <= m.at(2, 2) <= b
    &&& -b <= m.at(2, 3) <= b
    &&& -b <= m.at(3, 0) <= b
    &&& -b <= m.at(3, 1) <= b
    &&& -b <= m.at(3, 2) <= b
    &&& -b <= m.at(3, 3) <= b
}

/// A product of two bounded factors is bounded by the product of the bounds.
pub proof fn lemma_mul_bound(x: int, y: int, b1: int, b2: int) by (nonlinear_arith)
    requires
        0 <= b1,
        0 <= b2,
        -b1 <= x <= b1,
        -b2 <= y <= b2,
    ensures
        -(b1 * b2) <= x * y <= b1 * b2,
{
}

/// A 3x3 determinant of entries bounded by `b` is bounded by 6 b^3.
pub proof fn lemma_det3_gen_bound(
    a00: int,
    a01: int,
    a02: int,
    a10: int,
    a11: int,
    a12: int,
    a20: int,
    a21: int,
    a22: int,
    b: int,
)
    requires
        0 <= b,
        -b <= a00 <= b,
        -b <= a01 <= b,
        -b <= a02 <= b,
        -b <= a10 <= b,
        -b <= a11 <= b,
        -b <= a12 <= b,
        -b <= a20 <= b,
        -b <= a21 <= b,
        -b <= a22 <= b,
    ensures
        -6 * (b * b * b) <= spec_det3_gen(a00, a01, a02, a10, a11, a12, a20, a21, a22) <= 6 * (b * b
            * b),
{
    lemma_mul_bound(a00, a11, b, b);
    lemma_mul_bound(a00 * a11, a22, b * b, b);
    lemma_mul_bound(a01, a12, b, b);
    lemma_mul_bound(a01 * a12, a20, b * b, b);
    lemma_mul_bound(a02, a10, b, b);
    lemma_mul_bound(a02 * a10, a21, b * b, b);
    lemma_mul_bound(a00, a12, b, b);
    lemma_mul_bound(a00 * a12, a21, b * b, b);
    lemma_mul_bound(a01, a10, b, b);
    lemma_mul_bound(a01 * a10, a22, b * b, b);
    lemma_mul_bound(a02, a11, b, b);
    lemma_mul_bound(a02 * a11, a20, b * b, b);
}

impl Matrix<1, 1> {
    /// The determinant of a 1x1 matrix: its only entry.
    pub fn det(&self) -> (r: i64)
        requires
            self.wf(),
        ensures
            r == spec_det1(*self),
    {
        self.get(0, 0)
    }
}

impl Matrix<2, 2> {
    /// The determinant, by the closed 2x2 formula.
    pub fn det(&self) -> (r: i64)
        requires
            self.wf(),
            spec_entries_bounded2(*self, DET2_LIMIT as int),
        ensures
            r == spec_det2(*self),
    {
        let a = self.get(0, 0);
        let b = self.get(0, 1);
        let c = self.get(1, 0);
        let d = self.get(1, 1);
        proof {
            lemma_mul_bound(a as int, d as int, DET2_LIMIT as int, DET2_LIMIT as int);
            lemma_mul_bound(b as int, c as int, DET2_LIMIT as int, DET2_LIMIT as int);
        }
        a * d - b * c
    }

    /// The adjugate: the transposed matrix of cofactors.
    pub fn adj(&self) -> (r: Matrix<2, 2>)
        requires
            self.wf(),
            spec_entries_bounded2(*self, i64::MAX as int),
        ensures
            r.wf(),
            forall|i: int, j: int|
                0 <= i < 2 && 0 <= j < 2 ==> r.at(i, j) == spec_cof2(*self, j, i),
    {
        let mut out = Matrix::<2, 2>::new();
        let v00 = self.get(1, 1);
        let v01 = self.get(0, 1);
        let v10 = self.get(1, 0);
        let v11 = self.get(0, 0);
        out.set(0, 0, v00);
        out.set(0, 1, -v01);
        out.set(1, 0, -v10);
        out.set(1, 1, v11);
        out
    }
}

impl Matrix<3, 3> {
    /// The 2x2 minor obtained by removing row `i` and column `j`.
    pub fn minor(&self, i: usize, j: usize) -> (r: Matrix<2, 2>)
        requires
            self.wf(),
            i < 3,
            j < 3,
        ensures
            r.wf(),
            forall|r_: int, c_: int|
                0 <= r_ < 2 && 0 <= c_ < 2 ==> r.at(r_, c_) == spec_minor3_at(
                    *self,
                    i as int,
                    j as int,
                    r_,
                    c_,
                ),
    {
        let mut out = Matrix::<2, 2>::new();
        let mut r_: usize = 0;
        while r_ < 2
            invariant
                r_ <= 2,
                i < 3,
                j < 3,
                self.wf(),
                out.wf(),
                forall|a: int, b: int|
                    0 <= a < r_ && 0 <= b < 2 ==> out.at(a, b) == spec_minor3_at(
                        *self,
                        i as int,
                        j as int,
                        a,
                        b,
                    ),
            decreases 2 - r_,
        {
            let sr = if r_ < i {
                r_
            } else {
                r_ + 1
            };
            let mut c_: usize = 0;
            while c_ < 2
                invariant
                    c_ <= 2,
                    r_ < 2,
                    i < 3,
                    j < 3,
                    sr == skip_idx(r_ as int, i as int),
                    self.wf(),
                    out.wf(),
                    forall|a: int, b: int|
                        0 <= a < r_ && 0 <= b < 2 ==> out.at(a, b) == spec_minor3_at(
                            *self,
                            i as int,
                            j as int,
                            a,
                            b,
                        ),
                    forall|b: int|
                        0 <= b < c_ ==> out.at(r_ as int, b) == spec_minor3_at(
                            *self,
                            i as int,
                            j as int,
                            r_ as int,
                            b,
                        ),
                decreases 2 - c_,
            {
                let sc = if c_ < j {
                    c_
                } else {
                    c_ + 1
                };
                let v = self.get(sr, sc);
                out.set(r_, c_, v);
                c_ = c_ + 1;
            }
            r_ = r_ + 1;
        }
        out
    }

    /// The cofactor of entry (i, j): the signed determinant of its minor.
    pub fn cofactor(&self, i: usize, j: usize) -> (r: i64)
        requires
            self.wf(),
            i < 3,
            j < 3,
            spec_entries_bounded3(*self, DET3_LIMIT as int),
        ensures
            r == spec_cof3(*self, i as int, j as int),
    {
        let minor = self.minor(i, j);
        proof {
            lemma_mul_bound(
                minor.at(0, 0) as int,
                minor.at(1, 1) as int,
                DET3_LIMIT as int,
                DET3_LIMIT as int,
            );
            lemma_mul_bound(
                minor.at(0, 1) as int,
                minor.at(1, 0) as int,
                DET3_LIMIT as int,
                DET3_LIMIT as int,
            );
        }
        let res = minor.det();
        if (i + j) % 2 == 0 {
            res
        } else {
            -res
        }
    }

    /// The determinant, by the closed 3x3 formula.
    pub fn det(&self) -> (r: i64)
        requires
            self.wf(),
            spec_entries_bounded3(*self, DET3_LIMIT as int),
        ensures
            r == spec_det3(*self),
    {
        let a00 = self.get(0, 0);
        let a01 = self.get(0, 1);
        let a02 = self.get(0, 2);
        let a10 = self.get(1, 0);
        let a11 = self.get(1, 1);
        let a12 = self.get(1, 2);
        let a20 = self.get(2, 0);
        let a21 = self.get(2, 1);
        let a22 = self.get(2, 2);
        proof {
            let b = DET3_LIMIT as int;
            lemma_mul_bound(a00 as int, a11 as int, b, b);
            lemma_mul_bound(a00 as int * a11 as int, a22 as int, b * b, b);
            lemma_mul_bound(a01 as int, a12 as int, b, b);
            lemma_mul_bound(a01 as int * a12 as int, a20 as int, b * b, b);
            lemma_mul_bound(a02 as int, a10 as int, b, b);
            lemma_mul_bound(a02 as int * a10 as int, a21 as int, b * b, b);
            lemma_mul_bound(a00 as int, a12 as int, b, b);
            lemma_mul_bound(a00 as int * a12 as int, a21 as int, b * b, b);
            lemma_mul_bound(a01 as int, a10 as int, b, b);
            lemma_mul_bound(a01 as int * a10 as int, a22 as int, b * b, b);
            lemma_mul_bound(a02 as int, a11 as int, b, b);
            lemma_mul_bound(a02 as int * a11 as int, a20 as int, b * b, b);
        }
        a00 * a11 * a22 + a01 * a12 * a20 + a02 * a10 * a21 - a00 * a12 * a21 - a01 * a10 * a22
            - a02 * a11 * a20
    }

    /// The adjugate: the transposed matrix of cofactors.
    pub fn adj(&self) -> (r: Matrix<3, 3>)
        requires
            self.wf(),
            spec_entries_bounded3(*self, DET3_LIMIT as int),
        ensures
            r.wf(),
            forall|i: int, j: int|
                0 <= i < 3 && 0 <= j < 3 ==> r.at(i, j) == spec_cof3(*self, j, i),
    {
        let mut out = Matrix::<3, 3>::new();
        let mut i: usize = 0;
        while i < 3
            invariant
                i <= 3,
                self.wf(),
                out.wf(),
                spec_entries_bounded3(*self, DET3_LIMIT as int),
                forall|a: int, b: int|
                    0 <= a < i && 0 <= b < 3 ==> out.at(a, b) == spec_cof3(*self, a, b),
            decreases 3 - i,
        {
            let mut j: usize = 0;
            while j < 3
                invariant
                    j <= 3,
                    i < 3,
                    self.wf(),
                    out.wf(),
                    spec_entries_bounded3(*self, DET3_LIMIT as int),
                    forall|a: int, b: int|
                        0 <= a < i && 0 <= b < 3 ==> out.at(a, b) == spec_cof3(*self, a, b),
                    forall|b: int|
                        0 <= b < j ==> out.at(i as int, b) == spec_cof3(*self, i as int, b),
                decreases 3 - j,
            {
                let v = self.cofactor(i, j);
                out.set(i, j, v);
                j = j + 1;
            }
            i = i + 1;
        }
        out.transpose()
    }
}

impl Matrix<4, 4> {
    /// The 3x3 minor obtained by removing row `i` and column `j`.
    pub fn minor(&self, i: usize, j: usize) -> (r: Matrix<3, 3>)
        requires
            self.wf(),
            i < 4,
            j < 4,
        ensures
            r.wf(),
            forall|r_: int, c_: int|
                0 <= r_ < 3 && 0 <= c_ < 3 ==> r.at(r_, c_) == spec_minor4_at(
                    *self,
                    i as int,
                    j as int,
                    r_,
                    c_,
                ),
    {
        let mut out = Matrix::<3, 3>::new();
        let mut r_: usize = 0;
        while r_ < 3
            invariant
                r_ <= 3,
                i < 4,
                j < 4,
                self.wf(),
                out.wf(),
                forall|a: int, b: int|
                    0 <= a < r_ && 0 <= b < 3 ==> out.at(a, b) == spec_minor4_at(
                        *self,
                        i as int,
                        j as int,
                        a,
                        b,
                    ),
            decreases 3 - r_,
        {
            let sr = if r_ < i {
                r_
            } else {
                r_ + 1
            };
            let mut c_: usize = 0;
            while c_ < 3
                invariant
                    c_ <= 3,
                    r_ < 3,
                    i < 4,
                    j < 4,
                    sr == skip_idx(r_ as int, i as int),
                    self.wf(),
                    out.wf(),
                    forall|a: int, b: int|
                        0 <= a < r_ && 0 <= b < 3 ==> out.at(a, b) == spec_minor4_at(
                            *self,
                            i as int,
                            j as int,
                            a,
                            b,
                        ),
                    forall|b: int|
                        0 <= b < c_ ==> out.at(r_ as int, b) == spec_minor4_at(
                            *self,
                            i as int,
                            j as int,
                            r_ as int,
                            b,
                        ),
                decreases 3 - c_,
            {
                let sc = if c_ < j {
                    c_
                } else {
                    c_ + 1
                };
                let v = self.get(sr, sc);
                out.set(r_, c_, v);
                c_ = c_ + 1;
            }
            r_ = r_ + 1;
        }
        out
    }

    /// The cofactor of entry (i, j): the signed determinant of its minor.
    pub fn cofactor(&self, i: usize, j: usize) -> (r: i64)
        requires
            self.wf(),
            i < 4,
            j < 4,
            spec_entries_bounded4(*self, DET4_LIMIT as int),
        ensures
            r == spec_cof4(*self, i as int, j as int),
            -6 * (DET4_LIMIT as int * DET4_LIMIT as int * DET4_LIMIT as int) <= r <= 6 * (
            DET4_LIMIT as int * DET4_LIMIT as int * DET4_LIMIT as int),
    {
        let minor = self.minor(i, j);
        proof {
            lemma_det3_gen_bound(
                minor.at(0, 0) as int,
                minor.at(0, 1) as int,
                minor.at(0, 2) as int,
                minor.at(1, 0) as int,
                minor.at(1, 1) as int,
                minor.at(1, 2) as int,
                minor.at(2, 0) as int,
                minor.at(2, 1) as int,
                minor.at(2, 2) as int,
                DET4_LIMIT as int,
            );
        }
        let res = minor.det();
        if (i + j) % 2 == 0 {
            res
        } else {
            -res
        }
    }

    /// The determinant, by Laplace expansion along the first row.
    pub fn det(&self) -> (r: i64)
        requires
            self.wf(),
            spec_entries_bounded4(*self, DET4_LIMIT as int),
        ensures
            r == spec_det4(*self),
    {
        let c0 = self.cofactor(0, 0);
        let c1 = self.cofactor(0, 1);
        let c2 = self.cofactor(0, 2);
        let c3 = self.cofactor(0, 3);
        let a0 = self.get(0, 0);
        let a1 = self.get(0, 1);
        let a2 = self.get(0, 2);
        let a3 = self.get(0, 3);
        proof {
            let b = DET4_LIMIT as int;
            let cb = 6 * (b * b * b);
            lemma_mul_bound(a0 as int, c0 as int, b, cb);
            lemma_mul_bound(a1 as int, c1 as int, b, cb);
            lemma_mul_bound(a2 as int, c2 as int, b, cb);
            lemma_mul_bound(a3 as int, c3 as int, b, cb);
        }
        a0 * c0 + a1 * c1 + a2 * c2 + a3 * c3
    }

    /// The adjugate: the transposed matrix of cofactors.
    pub fn adj(&self) -> (r: Matrix<4, 4>)
        requires
            self.wf(),
            spec_entries_bounded4(*self, DET4_LIMIT as int),
        ensures
            r.wf(),
            forall|i: int, j: int|
                0 <= i < 4 && 0 <= j < 4 ==> r.at(i, j) == spec_cof4(*self, j, i),
    {
        let mut out = Matrix::<4, 4>::new();
        let mut i: usize = 0;
        while i < 4
            invariant
                i <= 4,
                self.wf(),
                out.wf(),
                spec_entries_bounded4(*self, DET4_LIMIT as int),
                forall|a: int, b: int|
                    0 <= a < i && 0 <= b < 4 ==> out.at(a, b) == spec_cof4(*self, a, b),
            decreases 4 - i,
        {
            let mut j: usize = 0;
            while j < 4
                invariant
                    j <= 4,
                    i < 4,
                    self.wf(),
                    out.wf(),
                    spec_entries_bounded4(*self, DET4_LIMIT as int),
                    forall|a: int, b: int|
                        0 <= a < i && 0 <= b < 4 ==> out.at(a, b) == spec_cof4(*self, a, b),
                    forall|b: int|
                        0 <= b < j ==> out.at(i as int, b) == spec_cof4(*self, i as int, b),
                decreases 4 - j,
            {
                let v = self.cofactor(i, j);
                out.set(i, j, v);
                j = j + 1;
            }
            i = i + 1;
        }
        out.transpose()
    }
}





proof fn lemma_cofactor_expansion2_0_0(m: Matrix<2, 2>)
    requires
    m.wf(),
    ensures
    m.at(0, 0) * spec_cof2(m, 0, 0) + m.at(0, 1) * spec_cof2(m, 0, 1) == spec_det2(m),
{
    let a00 = m.at(0, 0) as int;
    let a01 = m.at(0, 1) as int;
    let a10 = m.at(1, 0) as int;
    let a11 = m.at(1, 1) as int;
    assert(spec_cof2(m, 0, 0) == a11) by {
        lemma_mul_basics_4(a11);
    }
    assert(spec_cof2(m, 0, 1) == -(a10)) by {
        lemma_mul_unary_negation(1, a10);
        lemma_mul_basics_4(a10);
    }
    assert(a01 * (-(a10)) == -(a01 * a10)) by {
        lemma_mul_unary_negation(a01, a10);
    }
}

proof fn lemma_cofactor_expansion2_0_1(m: Matrix<2, 2>)
    requires
    m.wf(),
    ensures
    m.at(0, 0) * spec_cof2(m, 1, 0) + m.at(0, 1) * spec_cof2(m, 1, 1) == 0,
{
    let a00 = m.at(0, 0) as int;
    let a01 = m.at(0, 1) as int;
    let a10 = m.at(1, 0) as int;
    let a11 = m.at(1, 1) as int;
    assert(spec_cof2(m, 1, 0) == -(a01)) by {
        lemma_mul_unary_negation(1, a01);
        lemma_mul_basics_4(a01);
    }
    assert(spec_cof2(m, 1, 1) == a00) by {
        lemma_mul_basics_4(a00);
    }
    assert(a00 * (-(a01)) == -(a00 * a01)) by {
        lemma_mul_unary_negation(a00, a01);
    }
    assert(a01 * a00 == a00 * a01) by {
        lemma_mul_is_commutative(a01, a00);
    }
}

proof fn lemma_cofactor_expansion2_1_0(m: Matrix<2, 2>)
    requires
    m.wf(),
    ensures
    m.at(1, 0) * spec_cof2(m, 0, 0) + m.at(1, 1) * spec_cof2(m, 0, 1) == 0,
{
    let a00 = m.at(0, 0) as int;
    let a01 = m.at(0, 1) as int;
    let a10 = m.at(1, 0) as int;
    let a11 = m.at(1, 1) as int;
    assert(spec_cof2(m, 0, 0) == a11) by {
        lemma_mul_basics_4(a11);
    }
    assert(spec_cof2(m, 0, 1) == -(a10)) by {
        lemma_mul_unary_negation(1, a10);
        lemma_mul_basics_4(a10);
    }
    assert(a11 * (-(a10)) == -(a11 * a10)) by {
        lemma_mul_unary_negation(a11, a10);
    }
    assert(a11 * a10 == a10 * a11) by {
        lemma_mul_is_commutative(a11, a10);
    }
}

proof fn lemma_cofactor_expansion2_1_1(m: Matrix<2, 2>)
    requires
    m.wf(),
    ensures
    m.at(1, 0) * spec_cof2(m, 1, 0) + m.at(1, 1) * spec_cof2(m, 1, 1) == spec_det2(m),
{
    let a00 = m.at(0, 0) as int;
    let a01 = m.at(0, 1) as int;
    let a10 = m.at(1, 0) as int;
    let a11 = m.at(1, 1) as int;
    assert(spec_cof2(m, 1, 0) == -(a01)) by {
        lemma_mul_unary_negation(1, a01);
        lemma_mul_basics_4(a01);
    }
    assert(spec_cof2(m, 1, 1) == a00) by {
        lemma_mul_basics_4(a00);
    }
    assert(a10 * (-(a01)) == -(a10 * a01)) by {
        lemma_mul_unary_negation(a10, a01);
    }
    assert(a10 * a01 == a01 * a10) by {
        lemma_mul_is_commutative(a10, a01);
    }
    assert(a11 * a00 == a00 * a11) by {
        lemma_mul_is_commutative(a11, a00);
    }
}

/// Expanding row `i` of a 2x2 matrix against the cofactors of row `j`
/// gives the determinant when i == j and zero otherwise.
pub proof fn lemma_cofactor_expansion2(m: Matrix<2, 2>, i: int, j: int)
    requires
        m.wf(),
        0 <= i < 2,
        0 <= j < 2,
    ensures
        m.at(i, 0) * spec_cof2(m, j, 0) + m.at(i, 1) * spec_cof2(m, j, 1) == if i == j {
            spec_det2(m)
        } else {
            0
        },
{
    if i == 0 && j == 0 {
        lemma_cofactor_expansion2_0_0(m);
    }
    if i == 0 && j == 1 {
        lemma_cofactor_expansion2_0_1(m);
    }
    if i == 1 && j == 0 {
        lemma_cofactor_expansion2_1_0(m);
    }
    if i == 1 && j == 1 {
        lemma_cofactor_expansion2_1_1(m);
    }
}

proof fn lemma_cofactor_expansion3_0_0(m: Matrix<3, 3>)
    requires
    m.wf(),
    ensures
    m.at(0, 0) * spec_cof3(m, 0, 0) + m.at(0, 1) * spec_cof3(m, 0, 1) + m.at(0, 2) * spec_cof3(m, 0, 2) == spec_det3(m),
{
    let a00 = m.at(0, 0) as int;
    let a01 = m.at(0, 1) as int;
    let a02 = m.at(0, 2) as int;
    let a10 = m.at(1, 0) as int;
    let a11 = m.at(1, 1) as int;
    let a12 = m.at(1, 2) as int;
    let a20 = m.at(2, 0) as int;
    let a21 = m.at(2, 1) as int;
    let a22 = m.at(2, 2) as int;
    assert(spec_cof3(m, 0, 0) == a11 * a22 - a12 * a21) by {
        lemma_mul_basics_4(a11 * a22 - a12 * a21);
    }
    assert(spec_cof3(m, 0, 1) == -(a10 * a22 - a12 * a20)) by {
        lemma_mul_unary_negation(1, a10 * a22 - a12 * a20);
        lemma_mul_basics_4(a10 * a22 - a12 * a20);
    }
    assert(spec_cof3(m, 0, 2) == a10 * a21 - a11 * a20) by {
        lemma_mul_basics_4(a10 * a21 - a11 * a20);
    }
    assert(a00 * (a11 * a22 - a12 * a21) == (a00 * (a11 * a22)) - (a00 * (a12 * a21))) by {
        lemma_mul_is_distributive_sub(a00, a11 * a22, a12 * a21);
    }
    assert(a01 * (-(a10 * a22 - a12 * a20)) == a01 * (a12 * a20 - a10 * a22)) by {
        lemma_mul_unary_negation(a01, a10 * a22 - a12 * a20);
    }
    assert(a01 * (a12 * a20 - a10 * a22) == (a01 * (a12 * a20)) - (a01 * (a10 * a22))) by {
        lemma_mul_is_distributive_sub(a01, a12 * a20, a10 * a22);
    }
    assert(a02 * (a10 * a21 - a11 * a20) == (a02 * (a10 * a21)) - (a02 * (a11 * a20))) by {
        lemma_mul_is_distributive_sub(a02, a10 * a21, a11 * a20);
    }
    assert((a00 * a11) * a22 == a00 * (a11 * a22)) by {
        lemma_mul_is_associative(a00, a11, a22);
    }
    assert((a01 * a12) * a20 == a01 * (a12 * a20)) by {
        lemma_mul_is_associative(a01, a12, a20);
    }
    assert((a02 * a10) * a21 == a02 * (a10 * a21)) by {
        lemma_mul_is_associative(a02, a10, a21);
    }
    assert((a00 * a12) * a21 == a00 * (a12 * a21)) by {
        lemma_mul_is_associative(a00, a12, a21);
    }
    assert((a01 * a10) * a22 == a01 * (a10 * a22)) by {
        lemma_mul_is_associative(a01, a10, a22);
    }
    assert((a02 * a11) * a20 == a02 * (a11 * a20)) by {
        lemma_mul_is_associative(a02, a11, a20);
    }
}

proof fn lemma_cofactor_expansion3_0_1(m: Matrix<3, 3>)
    requires
    m.wf(),
    ensures
    m.at(0, 0) * spec_cof3(m, 1, 0) + m.at(0, 1) * spec_cof3(m, 1, 1) + m.at(0, 2) * spec_cof3(m, 1, 2) == 0,
{
    let a00 = m.at(0, 0) as int;
    let a01 = m.at(0, 1) as int;
    let a02 = m.at(0, 2) as int;
    let a10 = m.at(1, 0) as int;
    let a11 = m.at(1, 1) as int;
    let a12 = m.at(1, 2) as int;
    let a20 = m.at(2, 0) as int;
    let a21 = m.at(2, 1) as int;
    let a22 = m.at(2, 2) as int;
    assert(spec_cof3(m, 1, 0) == -(a01 * a22 - a02 * a21)) by {
        lemma_mul_unary_negation(1, a01 * a22 - a02 * a21);
        lemma_mul_basics_4(a01 * a22 - a02 * a21);
    }
    assert(spec_cof3(m, 1, 1) == a00 * a22 - a02 * a20) by {
        lemma_mul_basics_4(a00 * a22 - a02 * a20);
    }
    assert(spec_cof3(m, 1, 2) == -(a00 * a21 - a01 * a20)) by {
        lemma_mul_unary_negation(1, a00 * a21 - a01 * a20);
        lemma_mul_basics_4(a00 * a21 - a01 * a20);
    }
    assert(a00 * (-(a01 * a22 - a02 * a21)) == a00 * (a02 * a21 - a01 * a22)) by {
        lemma_mul_unary_negation(a00, a01 * a22 - a02 * a21);
    }
    assert(a00 * (a02 * a21 - a01 * a22) == (a00 * (a02 * a21)) - (a00 * (a01 * a22))) by {
        lemma_mul_is_distributive_sub(a00, a02 * a21, a01 * a22);
    }
    assert(a01 * (a00 * a22 - a02 * a20) == (a01 * (a00 * a22)) - (a01 * (a02 * a20))) by {
        lemma_mul_is_distributive_sub(a01, a00 * a22, a02 * a20);
    }
    assert(a01 * (a00 * a22) == a00 * (a01 * a22)) by {
        lemma_mul_is_associative(a01, a00, a22);
        lemma_mul_is_commutative(a01, a00);
        lemma_mul_is_associative(a00, a01, a22);
    }
    assert(a02 * (-(a00 * a21 - a01 * a20)) == a02 * (a01 * a20 - a00 * a21)) by {
        lemma_mul_unary_negation(a02, a00 * a21 - a01 * a20);
    }
    assert(a02 * (a01 * a20 - a00 * a21) == (a02 * (a01 * a20)) - (a02 * (a00 * a21))) by {
        lemma_mul_is_distributive_sub(a02, a01 * a20, a00 * a21);
    }
    assert(a02 * (a00 * a21) == a00 * (a02 * a21)) by {
        lemma_mul_is_associative(a02, a00, a21);
        lemma_mul_is_commutative(a02, a00);
        lemma_mul_is_associative(a00, a02, a21);
    }
    assert(a02 * (a01 * a20) == a01 * (a02 * a20)) by {
        lemma_mul_is_associative(a02, a01, a20);
        lemma_mul_is_commutative(a02, a01);
        lemma_mul_is_associative(a01, a02, a20);
    }
}

proof fn lemma_cofactor_expansion3_0_2(m: Matrix<3, 3>)
    requires
    m.wf(),
    ensures
    m.at(0, 0) * spec_cof3(m, 2, 0) + m.at(0, 1) * spec_cof3(m, 2, 1) + m.at(0, 2) * spec_cof3(m, 2, 2) == 0,
{
    let a00 = m.at(0, 0) as int;
    let a01 = m.at(0, 1) as int;
    let a02 = m.at(0, 2) as int;
    let a10 = m.at(1, 0) as int;
    let a11 = m.at(1, 1) as int;
    let a12 = m.at(1, 2) as int;
    let a20 = m.at(2, 0) as int;
    let a21 = m.at(2, 1) as int;
    let a22 = m.at(2, 2) as int;
    assert(spec_cof3(m, 2, 0) == a01 * a12 - a02 * a11) by {
        lemma_mul_basics_4(a01 * a12 - a02 * a11);
    }
    assert(spec_cof3(m, 2, 1) == -(a00 * a12 - a02 * a10)) by {
        lemma_mul_unary_negation(1, a00 * a12 - a02 * a10);
        lemma_mul_basics_4(a00 * a12 - a02 * a10);
    }
    assert(spec_cof3(m, 2, 2) == a00 * a11 - a01 * a10) by {
        lemma_mul_basics_4(a00 * a11 - a01 * a10);
    }
    assert(a00 * (a01 * a12 - a02 * a11) == (a00 * (a01 * a12)) - (a00 * (a02 * a11))) by {
        lemma_mul_is_distributive_sub(a00, a01 * a12, a02 * a11);
    }
    assert(a01 * (-(a00 * a12 - a02 * a10)) == a01 * (a02 * a10 - a00 * a12)) by {
        lemma_mul_unary_negation(a01, a00 * a12 - a02 * a10);
    }
    assert(a01 * (a02 * a10 - a00 * a12) == (a01 * (a02 * a10)) - (a01 * (a00 * a12))) by {
        lemma_mul_is_distributive_sub(a01, a02 * a10, a00 * a12);
    }
    assert(a01 * (a00 * a12) == a00 * (a01 * a12)) by {
        lemma_mul_is_associative(a01, a00, a12);
        lemma_mul_is_commutative(a01, a00);
        lemma_mul_is_associative(a00, a01, a12);
    }
    assert(a02 * (a00 * a11 - a01 * a10) == (a02 * (a00 * a11)) - (a02 * (a01 * a10))) by {
        lemma_mul_is_distributive_sub(a02, a00 * a11, a01 * a10);
    }
    assert(a02 * (a00 * a11) == a00 * (a02 * a11)) by {
        lemma_mul_is_associative(a02, a00, a11);
        lemma_mul_is_commutative(a02, a00);
        lemma_mul_is_associative(a00, a02, a11);
    }
    assert(a02 * (a01 * a10) == a01 * (a02 * a10)) by {
        lemma_mul_is_associative(a02, a01, a10);
        lemma_mul_is_commutative(a02, a01);
        lemma_mul_is_associative(a01, a02, a10);
    }
}

proof fn lemma_cofactor_expansion3_1_0(m: Matrix<3, 3>)
    requires
    m.wf(),
    ensures
    m.at(1, 0) * spec_cof3(m, 0, 0) + m.at(1, 1) * spec_cof3(m, 0, 1) + m.at(1, 2) * spec_cof3(m, 0, 2) == 0,
{
    let a00 = m.at(0, 0) as int;
    let a01 = m.at(0, 1) as int;
    let a02 = m.at(0, 2) as int;
    let a10 = m.at(1, 0) as int;
    let a11 = m.at(1, 1) as int;
    let a12 = m.at(1, 2) as int;
    let a20 = m.at(2, 0) as int;
    let a21 = m.at(2, 1) as int;
    let a22 = m.at(2, 2) as int;
    assert(spec_cof3(m, 0, 0) == a11 * a22 - a12 * a21) by {
        lemma_mul_basics_4(a11 * a22 - a12 * a21);
    }
    assert(spec_cof3(m, 0, 1) == -(a10 * a22 - a12 * a20)) by {
        lemma_mul_unary_negation(1, a10 * a22 - a12 * a20);
        lemma_mul_basics_4(a10 * a22 - a12 * a20);
    }
    assert(spec_cof3(m, 0, 2) == a10 * a21 - a11 * a20) by {
        lemma_mul_basics_4(a10 * a21 - a11 * a20);
    }
    assert(a10 * (a11 * a22 - a12 * a21) == (a10 * (a11 * a22)) - (a10 * (a12 * a21))) by {
        lemma_mul_is_distributive_sub(a10, a11 * a22, a12 * a21);
    }
    assert(a11 * (-(a10 * a22 - a12 * a20)) == a11 * (a12 * a20 - a10 * a22)) by {
        lemma_mul_unary_negation(a11, a10 * a22 - a12 * a20);
    }
    assert(a11 * (a12 * a20 - a10 * a22) == (a11 * (a12 * a20)) - (a11 * (a10 * a22))) by {
        lemma_mul_is_distributive_sub(a11, a12 * a20, a10 * a22);
    }
    assert(a11 * (a10 * a22) == a10 * (a11 * a22)) by {
        lemma_mul_is_associative(a11, a10, a22);
        lemma_mul_is_commutative(a11, a10);
        lemma_mul_is_associative(a10, a11, a22);
    }
    assert(a12 * (a10 * a21 - a11 * a20) == (a12 * (a10 * a21)) - (a12 * (a11 * a20))) by {
        lemma_mul_is_distributive_sub(a12, a10 * a21, a11 * a20);
    }
    assert(a12 * (a10 * a21) == a10 * (a12 * a21)) by {
        lemma_mul_is_associative(a12, a10, a21);
        lemma_mul_is_commutative(a12, a10);
        lemma_mul_is_associative(a10, a12, a21);
    }
    assert(a12 * (a11 * a20) == a11 * (a12 * a20)) by {
        lemma_mul_is_associative(a12, a11, a20);
        lemma_mul_is_commutative(a12, a11);
        lemma_mul_is_associative(a11, a12, a20);
    }
}

proof fn lemma_cofactor_expansion3_1_1(m: Matrix<3, 3>)
    requires
    m.wf(),
    ensures
    m.at(1, 0) * spec_cof3(m, 1, 0) + m.at(1, 1) * spec_cof3(m, 1, 1) + m.at(1, 2) * spec_cof3(m, 1, 2) == spec_det3(m),
{
    let a00 = m.at(0, 0) as int;
    let a01 = m.at(0, 1) as int;
    let a02 = m.at(0, 2) as int;
    let a10 = m.at(1, 0) as int;
    let a11 = m.at(1, 1) as int;
    let a12 = m.at(1, 2) as int;
    let a20 = m.at(2, 0) as int;
    let a21 = m.at(2, 1) as int;
    let a22 = m.at(2, 2) as int;
    assert(spec_cof3(m, 1, 0) == -(a01 * a22 - a02 * a21)) by {
        lemma_mul_unary_negation(1, a01 * a22 - a02 * a21);
        lemma_mul_basics_4(a01 * a22 - a02 * a21);
    }
    assert(spec_cof3(m, 1, 1) == a00 * a22 - a02 * a20) by {
        lemma_mul_basics_4(a00 * a22 - a02 * a20);
    }
    assert(spec_cof3(m, 1, 2) == -(a00 * a21 - a01 * a20)) by {
        lemma_mul_unary_negation(1, a00 * a21 - a01 * a20);
        lemma_mul_basics_4(a00 * a21 - a01 * a20);
    }
    assert(a10 * (-(a01 * a22 - a02 * a21)) == a10 * (a02 * a21 - a01 * a22)) by {
        lemma_mul_unary_negation(a10, a01 * a22 - a02 * a21);
    }
    assert(a10 * (a02 * a21 - a01 * a22) == (a10 * (a02 * a21)) - (a10 * (a01 * a22))) by {
        lemma_mul_is_distributive_sub(a10, a02 * a21, a01 * a22);
    }
    assert(a10 * (a01 * a22) == a01 * (a10 * a22)) by {
        lemma_mul_is_associative(a10, a01, a22);
        lemma_mul_is_commutative(a10, a01);
        lemma_mul_is_associative(a01, a10, a22);
    }
    assert(a10 * (a02 * a21) == a02 * (a10 * a21)) by {
        lemma_mul_is_associative(a10, a02, a21);
        lemma_mul_is_commutative(a10, a02);
        lemma_mul_is_associative(a02, a10, a21);
    }
    assert(a11 * (a00 * a22 - a02 * a20) == (a11 * (a00 * a22)) - (a11 * (a02 * a20))) by {
        lemma_mul_is_distributive_sub(a11, a00 * a22, a02 * a20);
    }
    assert(a11 * (a00 * a22) == a00 * (a11 * a22)) by {
        lemma_mul_is_associative(a11, a00, a22);
        lemma_mul_is_commutative(a11, a00);
        lemma_mul_is_associative(a00, a11, a22);
    }
    assert(a11 * (a02 * a20) == a02 * (a11 * a20)) by {
        lemma_mul_is_associative(a11, a02, a20);
        lemma_mul_is_commutative(a11, a02);
        lemma_mul_is_associative(a02, a11, a20);
    }
    assert(a12 * (-(a00 * a21 - a01 * a20)) == a12 * (a01 * a20 - a00 * a21)) by {
        lemma_mul_unary_negation(a12, a00 * a21 - a01 * a20);
    }
    assert(a12 * (a01 * a20 - a00 * a21) == (a12 * (a01 * a20)) - (a12 * (a00 * a21))) by {
        lemma_mul_is_distributive_sub(a12, a01 * a20, a00 * a21);
    }
    assert(a12 * (a00 * a21) == a00 * (a12 * a21)) by {
        lemma_mul_is_associative(a12, a00, a21);
        lemma_mul_is_commutative(a12, a00);
        lemma_mul_is_associative(a00, a12, a21);
    }
    assert(a12 * (a01 * a20) == a01 * (a12 * a20)) by {
        lemma_mul_is_associative(a12, a01, a20);
        lemma_mul_is_commutative(a12, a01);
        lemma_mul_is_associative(a01, a12, a20);
    }
    assert((a00 * a11) * a22 == a00 * (a11 * a22)) by {
        lemma_mul_is_associative(a00, a11, a22);
    }
    assert((a01 * a12) * a20 == a01 * (a12 * a20)) by {
        lemma_mul_is_associative(a01, a12, a20);
    }
    assert((a02 * a10) * a21 == a02 * (a10 * a21)) by {
        lemma_mul_is_associative(a02, a10, a21);
    }
    assert((a00 * a12) * a21 == a00 * (a12 * a21)) by {
        lemma_mul_is_associative(a00, a12, a21);
    }
    assert((a01 * a10) * a22 == a01 * (a10 * a22)) by {
        lemma_mul_is_associative(a01, a10, a22);
    }
    assert((a02 * a11) * a20 == a02 * (a11 * a20)) by {
        lemma_mul_is_associative(a02, a11, a20);
    }
}

proof fn lemma_cofactor_expansion3_1_2(m: Matrix<3, 3>)
    requires
    m.wf(),
    ensures
    m.at(1, 0) * spec_cof3(m, 2, 0) + m.at(1, 1) * spec_cof3(m, 2, 1) + m.at(1, 2) * spec_cof3(m, 2, 2) == 0,
{
    let a00 = m.at(0, 0) as int;
    let a01 = m.at(0, 1) as int;
    let a02 = m.at(0, 2) as int;
    let a10 = m.at(1, 0) as int;
    let a11 = m.at(1, 1) as int;
    let a12 = m.at(1, 2) as int;
    let a20 = m.at(2, 0) as int;
    let a21 = m.at(2, 1) as int;
    let a22 = m.at(2, 2) as int;
    assert(spec_cof3(m, 2, 0) == a01 * a12 - a02 * a11) by {
        lemma_mul_basics_4(a01 * a12 - a02 * a11);
    }
    assert(spec_cof3(m, 2, 1) == -(a00 * a12 - a02 * a10)) by {
        lemma_mul_unary_negation(1, a00 * a12 - a02 * a10);
        lemma_mul_basics_4(a00 * a12 - a02 * a10);
    }
    assert(spec_cof3(m, 2, 2) == a00 * a11 - a01 * a10) by {
        lemma_mul_basics_4(a00 * a11 - a01 * a10);
    }
    assert(a10 * (a01 * a12 - a02 * a11) == (a10 * (a01 * a12)) - (a10 * (a02 * a11))) by {
        lemma_mul_is_distributive_sub(a10, a01 * a12, a02 * a11);
    }
    assert(a10 * (a01 * a12) == a01 * (a10 * a12)) by {
        lemma_mul_is_associative(a10, a01, a12);
        lemma_mul_is_commutative(a10, a01);
        lemma_mul_is_associative(a01, a10, a12);
    }
    assert(a10 * (a02 * a11) == a02 * (a10 * a11)) by {
        lemma_mul_is_associative(a10, a02, a11);
        lemma_mul_is_commutative(a10, a02);
        lemma_mul_is_associative(a02, a10, a11);
    }
    assert(a11 * (-(a00 * a12 - a02 * a10)) == a11 * (a02 * a10 - a00 * a12)) by {
        lemma_mul_unary_negation(a11, a00 * a12 - a02 * a10);
    }
    assert(a11 * (a02 * a10 - a00 * a12) == (a11 * (a02 * a10)) - (a11 * (a00 * a12))) by {
        lemma_mul_is_distributive_sub(a11, a02 * a10, a00 * a12);
    }
    assert(a11 * (a00 * a12) == a00 * (a11 * a12)) by {
        lemma_mul_is_associative(a11, a00, a12);
        lemma_mul_is_commutative(a11, a00);
        lemma_mul_is_associative(a00, a11, a12);
    }
    assert(a11 * (a02 * a10) == a02 * (a10 * a11)) by {
        lemma_mul_is_associative(a11, a02, a10);
        lemma_mul_is_commutative(a11, a02);
        lemma_mul_is_associative(a02, a11, a10);
        lemma_mul_is_commutative(a11, a10);
    }
    assert(a12 * (a00 * a11 - a01 * a10) == (a12 * (a00 * a11)) - (a12 * (a01 * a10))) by {
        lemma_mul_is_distributive_sub(a12, a00 * a11, a01 * a10);
    }
    assert(a12 * (a00 * a11) == a00 * (a11 * a12)) by {
        lemma_mul_is_associative(a12, a00, a11);
        lemma_mul_is_commutative(a12, a00);
        lemma_mul_is_associative(a00, a12, a11);
        lemma_mul_is_commutative(a12, a11);
    }
    assert(a12 * (a01 * a10) == a01 * (a10 * a12)) by {
        lemma_mul_is_associative(a12, a01, a10);
        lemma_mul_is_commutative(a12, a01);
        lemma_mul_is_associative(a01, a12, a10);
        lemma_mul_is_commutative(a12, a10);
    }
}

proof fn lemma_cofactor_expansion3_2_0(m: Matrix<3, 3>)
    requires
    m.wf(),
    ensures
    m.at(2, 0) * spec_cof3(m, 0, 0) + m.at(2, 1) * spec_cof3(m, 0, 1) + m.at(2, 2) * spec_cof3(m, 0, 2) == 0,
{
    let a00 = m.at(0, 0) as int;
    let a01 = m.at(0, 1) as int;
    let a02 = m.at(0, 2) as int;
    let a10 = m.at(1, 0) as int;
    let a11 = m.at(1, 1) as int;
    let a12 = m.at(1, 2) as int;
    let a20 = m.at(2, 0) as int;
    let a21 = m.at(2, 1) as int;
    let a22 = m.at(2, 2) as int;
    assert(spec_cof3(m, 0, 0) == a11 * a22 - a12 * a21) by {
        lemma_mul_basics_4(a11 * a22 - a12 * a21);
    }
    assert(spec_cof3(m, 0, 1) == -(a10 * a22 - a12 * a20)) by {
        lemma_mul_unary_negation(1, a10 * a22 - a12 * a20);
        lemma_mul_basics_4(a10 * a22 - a12 * a20);
    }
    assert(spec_cof3(m, 0, 2) == a10 * a21 - a11 * a20) by {
        lemma_mul_basics_4(a10 * a21 - a11 * a20);
    }
    assert(a20 * (a11 * a22 - a12 * a21) == (a20 * (a11 * a22)) - (a20 * (a12 * a21))) by {
        lemma_mul_is_distributive_sub(a20, a11 * a22, a12 * a21);
    }
    assert(a20 * (a11 * a22) == a11 * (a20 * a22)) by {
        lemma_mul_is_associative(a20, a11, a22);
        lemma_mul_is_commutative(a20, a11);
        lemma_mul_is_associative(a11, a20, a22);
    }
    assert(a20 * (a12 * a21) == a12 * (a20 * a21)) by {
        lemma_mul_is_associative(a20, a12, a21);
        lemma_mul_is_commutative(a20, a12);
        lemma_mul_is_associative(a12, a20, a21);
    }
    assert(a21 * (-(a10 * a22 - a12 * a20)) == a21 * (a12 * a20 - a10 * a22)) by {
        lemma_mul_unary_negation(a21, a10 * a22 - a12 * a20);
    }
    assert(a21 * (a12 * a20 - a10 * a22) == (a21 * (a12 * a20)) - (a21 * (a10 * a22))) by {
        lemma_mul_is_distributive_sub(a21, a12 * a20, a10 * a22);
    }
    assert(a21 * (a10 * a22) == a10 * (a21 * a22)) by {
        lemma_mul_is_associative(a21, a10, a22);
        lemma_mul_is_commutative(a21, a10);
        lemma_mul_is_associative(a10, a21, a22);
    }
    assert(a21 * (a12 * a20) == a12 * (a20 * a21)) by {
        lemma_mul_is_associative(a21, a12, a20);
        lemma_mul_is_commutative(a21, a12);
        lemma_mul_is_associative(a12, a21, a20);
        lemma_mul_is_commutative(a21, a20);
    }
    assert(a22 * (a10 * a21 - a11 * a20) == (a22 * (a10 * a21)) - (a22 * (a11 * a20))) by {
        lemma_mul_is_distributive_sub(a22, a10 * a21, a11 * a20);
    }
    assert(a22 * (a10 * a21) == a10 * (a21 * a22)) by {
        lemma_mul_is_associative(a22, a10, a21);
        lemma_mul_is_commutative(a22, a10);
        lemma_mul_is_associative(a10, a22, a21);
        lemma_mul_is_commutative(a22, a21);
    }
    assert(a22 * (a11 * a20) == a11 * (a20 * a22)) by {
        lemma_mul_is_associative(a22, a11, a20);
        lemma_mul_is_commutative(a22, a11);
        lemma_mul_is_associative(a11, a22, a20);
        lemma_mul_is_commutative(a22, a20);
    }
}

proof fn lemma_cofactor_expansion3_2_1(m: Matrix<3, 3>)
    requires
    m.wf(),
    ensures
    m.at(2, 0) * spec_cof3(m, 1, 0) + m.at(2, 1) * spec_cof3(m, 1, 1) + m.at(2, 2) * spec_cof3(m, 1, 2) == 0,
{
    let a00 = m.at(0, 0) as int;
    let a01 = m.at(0, 1) as int;
    let a02 = m.at(0, 2) as int;
    let a10 = m.at(1, 0) as int;
    let a11 = m.at(1, 1) as int;
    let a12 = m.at(1, 2) as int;
    let a20 = m.at(2, 0) as int;
    let a21 = m.at(2, 1) as int;
    let a22 = m.at(2, 2) as int;
    assert(spec_cof3(m, 1, 0) == -(a01 * a22 - a02 * a21)) by {
        lemma_mul_unary_negation(1, a01 * a22 - a02 * a21);
        lemma_mul_basics_4(a01 * a22 - a02 * a21);
    }
    assert(spec_cof3(m, 1, 1) == a00 * a22 - a02 * a20) by {
        lemma_mul_basics_4(a00 * a22 - a02 * a20);
    }
    assert(spec_cof3(m, 1, 2) == -(a00 * a21 - a01 * a20)) by {
        lemma_mul_unary_negation(1, a00 * a21 - a01 * a20);
        lemma_mul_basics_4(a00 * a21 - a01 * a20);
    }
    assert(a20 * (-(a01 * a22 - a02 * a21)) == a20 * (a02 * a21 - a01 * a22)) by {
        lemma_mul_unary_negation(a20, a01 * a22 - a02 * a21);
    }
    assert(a20 * (a02 * a21 - a01 * a22) == (a20 * (a02 * a21)) - (a20 * (a01 * a22))) by {
        lemma_mul_is_distributive_sub(a20, a02 * a21, a01 * a22);
    }
    assert(a20 * (a01 * a22) == a01 * (a20 * a22)) by {
        lemma_mul_is_associative(a20, a01, a22);
        lemma_mul_is_commutative(a20, a01);
        lemma_mul_is_associative(a01, a20, a22);
    }
    assert(a20 * (a02 * a21) == a02 * (a20 * a21)) by {
        lemma_mul_is_associative(a20, a02, a21);
        lemma_mul_is_commutative(a20, a02);
        lemma_mul_is_associative(a02, a20, a21);
    }
    assert(a21 * (a00 * a22 - a02 * a20) == (a21 * (a00 * a22)) - (a21 * (a02 * a20))) by {
        lemma_mul_is_distributive_sub(a21, a00 * a22, a02 * a20);
    }
    assert(a21 * (a00 * a22) == a00 * (a21 * a22)) by {
        lemma_mul_is_associative(a21, a00, a22);
        lemma_mul_is_commutative(a21, a00);
        lemma_mul_is_associative(a00, a21, a22);
    }
    assert(a21 * (a02 * a20) == a02 * (a20 * a21)) by {
        lemma_mul_is_associative(a21, a02, a20);
        lemma_mul_is_commutative(a21, a02);
        lemma_mul_is_associative(a02, a21, a20);
        lemma_mul_is_commutative(a21, a20);
    }
    assert(a22 * (-(a00 * a21 - a01 * a20)) == a22 * (a01 * a20 - a00 * a21)) by {
        lemma_mul_unary_negation(a22, a00 * a21 - a01 * a20);
    }
    assert(a22 * (a01 * a20 - a00 * a21) == (a22 * (a01 * a20)) - (a22 * (a00 * a21))) by {
        lemma_mul_is_distributive_sub(a22, a01 * a20, a00 * a21);
    }
    assert(a22 * (a00 * a21) == a00 * (a21 * a22)) by {
        lemma_mul_is_associative(a22, a00, a21);
        lemma_mul_is_commutative(a22, a00);
        lemma_mul_is_associative(a00, a22, a21);
        lemma_mul_is_commutative(a22, a21);
    }
    assert(a22 * (a01 * a20) == a01 * (a20 * a22)) by {
        lemma_mul_is_associative(a22, a01, a20);
        lemma_mul_is_commutative(a22, a01);
        lemma_mul_is_associative(a01, a22, a20);
        lemma_mul_is_commutative(a22, a20);
    }
}

proof fn lemma_cofactor_expansion3_2_2(m: Matrix<3, 3>)
    requires
    m.wf(),
    ensures
    m.at(2, 0) * spec_cof3(m, 2, 0) + m.at(2, 1) * spec_cof3(m, 2, 1) + m.at(2, 2) * spec_cof3(m, 2, 2) == spec_det3(m),
{
    let a00 = m.at(0, 0) as int;
    let a01 = m.at(0, 1) as int;
    let a02 = m.at(0, 2) as int;
    let a10 = m.at(1, 0) as int;
    let a11 = m.at(1, 1) as int;
    let a12 = m.at(1, 2) as int;
    let a20 = m.at(2, 0) as int;
    let a21 = m.at(2, 1) as int;
    let a22 = m.at(2, 2) as int;
    assert(spec_cof3(m, 2, 0) == a01 * a12 - a02 * a11) by {
        lemma_mul_basics_4(a01 * a12 - a02 * a11);
    }
    assert(spec_cof3(m, 2, 1) == -(a00 * a12 - a02 * a10)) by {
        lemma_mul_unary_negation(1, a00 * a12 - a02 * a10);
        lemma_mul_basics_4(a00 * a12 - a02 * a10);
    }
    assert(spec_cof3(m, 2, 2) == a00 * a11 - a01 * a10) by {
        lemma_mul_basics_4(a00 * a11 - a01 * a10);
    }
    assert(a20 * (a01 * a12 - a02 * a11) == (a20 * (a01 * a12)) - (a20 * (a02 * a11))) by {
        lemma_mul_is_distributive_sub(a20, a01 * a12, a02 * a11);
    }
    assert(a20 * (a01 * a12) == a01 * (a12 * a20)) by {
        lemma_mul_is_associative(a20, a01, a12);
        lemma_mul_is_commutative(a20, a01);
        lemma_mul_is_associative(a01, a20, a12);
        lemma_mul_is_commutative(a20, a12);
    }
    assert(a20 * (a02 * a11) == a02 * (a11 * a20)) by {
        lemma_mul_is_associative(a20, a02, a11);
        lemma_mul_is_commutative(a20, a02);
        lemma_mul_is_associative(a02, a20, a11);
        lemma_mul_is_commutative(a20, a11);
    }
    assert(a21 * (-(a00 * a12 - a02 * a10)) == a21 * (a02 * a10 - a00 * a12)) by {
        lemma_mul_unary_negation(a21, a00 * a12 - a02 * a10);
    }
    assert(a21 * (a02 * a10 - a00 * a12) == (a21 * (a02 * a10)) - (a21 * (a00 * a12))) by {
        lemma_mul_is_distributive_sub(a21, a02 * a10, a00 * a12);
    }
    assert(a21 * (a00 * a12) == a00 * (a12 * a21)) by {
        lemma_mul_is_associative(a21, a00, a12);
        lemma_mul_is_commutative(a21, a00);
        lemma_mul_is_associative(a00, a21, a12);
        lemma_mul_is_commutative(a21, a12);
    }
    assert(a21 * (a02 * a10) == a02 * (a10 * a21)) by {
        lemma_mul_is_associative(a21, a02, a10);
        lemma_mul_is_commutative(a21, a02);
        lemma_mul_is_associative(a02, a21, a10);
        lemma_mul_is_commutative(a21, a10);
    }
    assert(a22 * (a00 * a11 - a01 * a10) == (a22 * (a00 * a11)) - (a22 * (a01 * a10))) by {
        lemma_mul_is_distributive_sub(a22, a00 * a11, a01 * a10);
    }
    assert(a22 * (a00 * a11) == a00 * (a11 * a22)) by {
        lemma_mul_is_associative(a22, a00, a11);
        lemma_mul_is_commutative(a22, a00);
        lemma_mul_is_associative(a00, a22, a11);
        lemma_mul_is_commutative(a22, a11);
    }
    assert(a22 * (a01 * a10) == a01 * (a10 * a22)) by {
        lemma_mul_is_associative(a22, a01, a10);
        lemma_mul_is_commutative(a22, a01);
        lemma_mul_is_associative(a01, a22, a10);
        lemma_mul_is_commutative(a22, a10);
    }
    assert((a00 * a11) * a22 == a00 * (a11 * a22)) by {
        lemma_mul_is_associative(a00, a11, a22);
    }
    assert((a01 * a12) * a20 == a01 * (a12 * a20)) by {
        lemma_mul_is_associative(a01, a12, a20);
    }
    assert((a02 * a10) * a21 == a02 * (a10 * a21)) by {
        lemma_mul_is_associative(a02, a10, a21);
    }
    assert((a00 * a12) * a21 == a00 * (a12 * a21)) by {
        lemma_mul_is_associative(a00, a12, a21);
    }
    assert((a01 * a10) * a22 == a01 * (a10 * a22)) by {
        lemma_mul_is_associative(a01, a10, a22);
    }
    assert((a02 * a11) * a20 == a02 * (a11 * a20)) by {
        lemma_mul_is_associative(a02, a11, a20);
    }
}

/// Expanding row `i` of a 3x3 matrix against the cofactors of row `j`
/// gives the determinant when i == j and zero otherwise.
pub proof fn lemma_cofactor_expansion3(m: Matrix<3, 3>, i: int, j: int)
    requires
        m.wf(),
        0 <= i < 3,
        0 <= j < 3,
    ensures
        m.at(i, 0) * spec_cof3(m, j, 0) + m.at(i, 1) * spec_cof3(m, j, 1) + m.at(i, 2) * spec_cof3(m, j, 2) == if i == j {
            spec_det3(m)
        } else {
            0
        },
{
    if i == 0 && j == 0 {
        lemma_cofactor_expansion3_0_0(m);
    }
    if i == 0 && j == 1 {
        lemma_cofactor_expansion3_0_1(m);
    }
    if i == 0 && j == 2 {
        lemma_cofactor_expansion3_0_2(m);
    }
    if i == 1 && j == 0 {
        lemma_cofactor_expansion3_1_0(m);
    }
    if i == 1 && j == 1 {
        lemma_cofactor_expansion3_1_1(m);
    }
    if i == 1 && j == 2 {
        lemma_cofactor_expansion3_1_2(m);
    }
    if i == 2 && j == 0 {
        lemma_cofactor_expansion3_2_0(m);
    }
    if i == 2 && j == 1 {
        lemma_cofactor_expansion3_2_1(m);
    }
    if i == 2 && j == 2 {
        lemma_cofactor_expansion3_2_2(m);
    }
}

/// The product of a 2x2 matrix with its adjugate is its determinant times
/// the identity matrix: for `a` holding the entries `adj` returns and `p`
/// holding the entries `mul` returns for the product of `m` and `a`, every
/// diagonal entry of `p` is the determinant of `m` and every other entry is
/// zero.
pub proof fn lemma_mul_adjugate2(m: Matrix<2, 2>, a: Matrix<2, 2>, p: Matrix<2, 2>)
    requires
        m.wf(),
        a.wf(),
        p.wf(),
        forall|i: int, j: int|
            0 <= i < 2 && 0 <= j < 2 ==> #[trigger] a.at(i, j) == spec_cof2(m, j, i),
        forall|i: int, j: int|
            0 <= i < 2 && 0 <= j < 2 ==> #[trigger] p.at(i, j) == spec_dot(
                m.row(i),
                a.col(j),
                2,
            ),
    ensures
        forall|i: int, j: int|
            0 <= i < 2 && 0 <= j < 2 ==> #[trigger] p.at(i, j) == if i == j {
                spec_det2(m)
            } else {
                0
            },
{
    assert forall|i: int, j: int| 0 <= i < 2 && 0 <= j < 2 implies #[trigger] p.at(i, j) == (
    if i == j {
        spec_det2(m)
    } else {
        0
    }) by {
        reveal_with_fuel(spec_dot, 3);
        assert(a.col(j)[0] == spec_cof2(m, j, 0));
        assert(a.col(j)[1] == spec_cof2(m, j, 1));
        lemma_cofactor_expansion2(m, i, j);
    }
}

/// The product of a 3x3 matrix with its adjugate is its determinant times
/// the identity matrix: for `a` holding the entries `adj` returns and `p`
/// holding the entries `mul` returns for the product of `m` and `a`, every
/// diagonal entry of `p` is the determinant of `m` and every other entry is
/// zero.
pub proof fn lemma_mul_adjugate3(m: Matrix<3, 3>, a: Matrix<3, 3>, p: Matrix<3, 3>)
    requires
        m.wf(),
        a.wf(),
        p.wf(),
        forall|i: int, j: int|
            0 <= i < 3 && 0 <= j < 3 ==> #[trigger] a.at(i, j) == spec_cof3(m, j, i),
        forall|i: int, j: int|
            0 <= i < 3 && 0 <= j < 3 ==> #[trigger] p.at(i, j) == spec_dot(
                m.row(i),
                a.col(j),
                3,
            ),
    ensures
        forall|i: int, j: int|
            0 <= i < 3 && 0 <= j < 3 ==> #[trigger] p.at(i, j) == if i == j {
                spec_det3(m)
            } else {
                0
            },
{
    assert forall|i: int, j: int| 0 <= i < 3 && 0 <= j < 3 implies #[trigger] p.at(i, j) == (
    if i == j {
        spec_det3(m)
    } else {
        0
    }) by {
        reveal_with_fuel(spec_dot, 4);
        assert(a.col(j)[0] == spec_cof3(m, j, 0));
        assert(a.col(j)[1] == spec_cof3(m, j, 1));
        assert(a.col(j)[2] == spec_cof3(m, j, 2));
        lemma_cofactor_expansion3(m, i, j);
    }
}

} // verus!
