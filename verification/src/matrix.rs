//! Dense matrices of exact rationals, stored row-major.

use vstd::prelude::*;

use crate::rational::{q_fits, q_zero, Q, Rat};

verus! {

/// A dense `rows x cols` matrix of rationals.
pub struct Mat {
    rows: usize,
    cols: usize,
    data: Vec<Rat>,
}

/// Row-major indices are within bounds and distinct cells have distinct
/// indices.
pub proof fn lemma_row_major_index(cols: int, r: int, c: int, r2: int, c2: int)
    by (nonlinear_arith)
    requires
        0 <= c < cols,
        0 <= c2 < cols,
        0 <= r,
        0 <= r2,
    ensures
        r * cols + c < (r + 1) * cols,
        (r != r2 || c != c2) ==> r * cols + c != r2 * cols + c2,
{
}

/// A full row fits under the total size.
pub proof fn lemma_row_major_bound(rows: int, cols: int, r: int, c: int)
    by (nonlinear_arith)
    requires
        0 <= c < cols,
        0 <= r < rows,
    ensures
        0 <= r * cols + c < rows * cols,
{
}

impl Mat {
    pub closed spec fn spec_rows(self) -> int {
        self.rows as int
    }

    pub closed spec fn spec_cols(self) -> int {
        self.cols as int
    }

    pub closed spec fn spec_data(self) -> Seq<Rat> {
        self.data@
    }

    /// Well-formed: the stored data is exactly one row-major block that
    /// fits the address space, and every stored rational fits the machine
    /// range. Every matrix built by this module is well-formed and every
    /// operation keeps it so.
    pub open spec fn wf(self) -> bool {
        &&& self.spec_data().len() == self.spec_rows() * self.spec_cols()
        &&& self.spec_rows() * self.spec_cols() <= usize::MAX
        &&& forall|j: int|
            0 <= j < self.spec_data().len() ==> q_fits(#[trigger] self.spec_data()[j]@)
    }

    /// The value stored at row `r`, column `c`.
    pub open spec fn entry(self, r: int, c: int) -> Q
        recommends
            0 <= r < self.spec_rows(),
            0 <= c < self.spec_cols(),
    {
        self.spec_data()[r * self.spec_cols() + c]@
    }

    /// The empty 0 x 0 matrix.
    pub fn empty() -> (m: Mat)
        ensures
            m.spec_rows() == 0,
            m.spec_cols() == 0,
            m.wf(),
    {
        Mat { rows: 0, cols: 0, data: Vec::new() }
    }

    /// An all-zero matrix, or `None` when `rows * cols` does not fit.
    pub fn zero(rows: usize, cols: usize) -> (m: Option<Mat>)
        ensures
            match m {
                Some(mm) => {
                    &&& mm.spec_rows() == rows
                    &&& mm.spec_cols() == cols
                    &&& mm.wf()
                    &&& forall|r: int, c: int|
                        0 <= r < rows && 0 <= c < cols ==> #[trigger] mm.entry(r, c) == q_zero()
                },
                None => rows * cols > usize::MAX,
            },
    {
        let total = match rows.checked_mul(cols) {
            Some(t) => t,
            None => {
                return None;
            },
        };
        let mut data: Vec<Rat> = Vec::new();
        let mut i: usize = 0;
        while i < total
            invariant
                i <= total,
                data@.len() == i,
                forall|k: int| 0 <= k < i ==> #[trigger] data@[k]@ == q_zero(),
            decreases total - i,
        {
            data.push(Rat::zero());
            i += 1;
        }
        let m = Mat { rows, cols, data };
        proof {
            assert forall|r: int, c: int|
                0 <= r < rows && 0 <= c < cols implies #[trigger] m.entry(r, c) == q_zero() by {
                lemma_row_major_bound(rows as int, cols as int, r, c);
            }
        }
        Some(m)
    }

    pub fn nrows(&self) -> (r: usize)
        ensures
            r as int == self.spec_rows(),
    {
        self.rows
    }

    pub fn ncols(&self) -> (r: usize)
        ensures
            r as int == self.spec_cols(),
    {
        self.cols
    }

    pub fn get(&self, r: usize, c: usize) -> (v: Rat)
        requires
            self.wf(),
            r < self.spec_rows(),
            c < self.spec_cols(),
        ensures
            v == self.spec_data()[r * self.spec_cols() + c],
            v@ == self.entry(r as int, c as int),
            q_fits(v@),
    {
        proof {
            lemma_row_major_bound(self.spec_rows(), self.spec_cols(), r as int, c as int);
        }
        self.data[r * self.cols + c]
    }

    pub fn set(&mut self, r: usize, c: usize, v: Rat)
        requires
            old(self).wf(),
            r < old(self).spec_rows(),
            c < old(self).spec_cols(),
            q_fits(v@),
        ensures
            final(self).wf(),
            final(self).spec_rows() == old(self).spec_rows(),
            final(self).spec_cols() == old(self).spec_cols(),
            final(self).spec_data() == old(self).spec_data().update(
                r * old(self).spec_cols() + c,
                v,
            ),
            final(self).entry(r as int, c as int) == v@,
            forall|r2: int, c2: int|
                0 <= r2 < old(self).spec_rows() && 0 <= c2 < old(self).spec_cols() && (r2 != r
                    || c2 != c) ==> #[trigger] final(self).entry(r2, c2) == old(self).entry(r2, c2),
    {
        proof {
            lemma_row_major_bound(self.spec_rows(), self.spec_cols(), r as int, c as int);
        }
        let idx = r * self.cols + c;
        self.data[idx] = v;
        proof {
            assert forall|r2: int, c2: int|
                0 <= r2 < old(self).spec_rows() && 0 <= c2 < old(self).spec_cols() && (r2 != r
                    || c2 != c) implies #[trigger] self.entry(r2, c2) == old(self).entry(
                r2,
                c2,
            ) by {
                lemma_row_major_bound(self.spec_rows(), self.spec_cols(), r2, c2);
                lemma_row_major_index(self.spec_cols(), r as int, c as int, r2, c2);
            }
        }
    }

    /// Exchange two whole rows.
    pub fn swap_rows(&mut self, r1: usize, r2: usize)
        requires
            old(self).wf(),
            r1 < old(self).spec_rows(),
            r2 < old(self).spec_rows(),
        ensures
            final(self).wf(),
            final(self).spec_rows() == old(self).spec_rows(),
            final(self).spec_cols() == old(self).spec_cols(),
            forall|cc: int|
                0 <= cc < old(self).spec_cols() ==> #[trigger] final(self).entry(r1 as int, cc)
                    == old(self).entry(r2 as int, cc) && final(self).entry(r2 as int, cc) == old(
                    self,
                ).entry(r1 as int, cc),
            forall|rr: int, cc: int|
                0 <= rr < old(self).spec_rows() && 0 <= cc < old(self).spec_cols() && rr != r1
                    && rr != r2 ==> #[trigger] final(self).entry(rr, cc) == old(self).entry(rr, cc),
    {
        let cols = self.ncols();
        let mut c: usize = 0;
        while c < cols
            invariant
                self.wf(),
                c <= cols,
                cols as int == self.spec_cols(),
                r1 < self.spec_rows(),
                r2 < self.spec_rows(),
                self.spec_rows() == old(self).spec_rows(),
                self.spec_cols() == old(self).spec_cols(),
                forall|cc: int|
                    0 <= cc < c ==> #[trigger] self.entry(r1 as int, cc) == old(self).entry(
                        r2 as int,
                        cc,
                    ) && self.entry(r2 as int, cc) == old(self).entry(r1 as int, cc),
                forall|cc: int|
                    c <= cc < cols ==> #[trigger] self.entry(r1 as int, cc) == old(self).entry(
                        r1 as int,
                        cc,
                    ) && self.entry(r2 as int, cc) == old(self).entry(r2 as int, cc),
                forall|rr: int, cc: int|
                    0 <= rr < self.spec_rows() && 0 <= cc < self.spec_cols() && rr != r1 && rr != r2
                        ==> #[trigger] self.entry(rr, cc) == old(self).entry(rr, cc),
            decreases cols - c,
        {
            let a = self.get(r1, c);
            let b = self.get(r2, c);
            self.set(r1, c, b);
            self.set(r2, c, a);
            c += 1;
        }
    }

    /// An identical copy.
    pub fn duplicate(&self) -> (m: Mat)
        requires
            self.wf(),
        ensures
            m.spec_rows() == self.spec_rows(),
            m.spec_cols() == self.spec_cols(),
            m.spec_data() == self.spec_data(),
            m.wf(),
    {
        let mut data: Vec<Rat> = Vec::new();
        let mut i: usize = 0;
        let len = self.data.len();
        while i < len
            invariant
                i <= len,
                len == self.data@.len(),
                data@ =~= self.data@.take(i as int),
            decreases len - i,
        {
            data.push(self.data[i]);
            i += 1;
        }
        proof {
            assert(data@ =~= self.data@);
        }
        Mat { rows: self.rows, cols: self.cols, data }
    }

    /// A single-column matrix holding the given values.
    pub fn from_column(v: Vec<Rat>) -> (m: Mat)
        requires
            forall|j: int| 0 <= j < v@.len() ==> q_fits(#[trigger] v@[j]@),
        ensures
            m.spec_rows() == v@.len(),
            m.spec_cols() == 1,
            m.spec_data() == v@,
            m.wf(),
    {
        let rows = v.len();
        Mat { rows, cols: 1, data: v }
    }

    /// Whether two matrices have the same shape and identical entries.
    pub fn mat_eq(&self, other: &Mat) -> (r: bool)
        requires
            self.wf(),
            other.wf(),
        ensures
            r == (self.spec_rows() == other.spec_rows() && self.spec_cols() == other.spec_cols()
                && self.spec_data() == other.spec_data()),
    {
        if self.rows != other.rows || self.cols != other.cols {
            return false;
        }
        let len = self.data.len();
        let mut i: usize = 0;
        while i < len
            invariant
                i <= len,
                len == self.data@.len(),
                len == other.data@.len(),
                forall|k: int| 0 <= k < i ==> self.data@[k] == other.data@[k],
            decreases len - i,
        {
            if !(self.data[i] == other.data[i]) {
                assert(self.data@[i as int] != other.data@[i as int]);
                return false;
            }
            i += 1;
        }
        proof {
            assert(self.data@ =~= other.data@);
        }
        true
    }
}

} // verus!
