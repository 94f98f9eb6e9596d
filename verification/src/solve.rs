//! Direct solution of the assembled system.
//!
//! The candidate vector comes from Gaussian elimination with row pivoting
//! over exact rationals; it is then certified row by row against the
//! untouched system, so the solver's contract rests on the certified
//! equality `A * x = Z` and not on the elimination itself.

use vstd::prelude::*;

use crate::matrix::{lemma_row_major_bound, Mat};
use crate::netlist::SolveError;
use crate::rational::{
    lemma_q_add_assoc, lemma_q_add_congr, lemma_q_den_pos, lemma_q_eq_sym, lemma_q_eq_trans,
    lemma_q_norm_equiv, q_add, q_eq, q_fits, q_mul, q_zero, Q, Rat,
};

verus! {

/// The dot product of row `i` of `a` with `x`, summed from column `k` on.
pub open spec fn row_dot_from(a: Mat, x: Seq<Rat>, i: int, k: int) -> Q
    decreases a.spec_cols() - k,
{
    if k < 0 || k >= a.spec_cols() {
        q_zero()
    } else {
        q_add(q_mul(a.entry(i, k), x[k]@), row_dot_from(a, x, i, k + 1))
    }
}

/// The dot product of row `i` of `a` with `x`.
pub open spec fn row_dot(a: Mat, x: Seq<Rat>, i: int) -> Q {
    row_dot_from(a, x, i, 0)
}

/// Every partial dot product of well-formed values has a meaningful
/// denominator.
pub proof fn lemma_row_dot_den_pos(a: Mat, x: Seq<Rat>, i: int, k: int)
    requires
        a.wf(),
        0 <= i < a.spec_rows(),
        x.len() == a.spec_cols(),
        forall|j: int| 0 <= j < x.len() ==> q_fits((#[trigger] x[j])@),
    ensures
        row_dot_from(a, x, i, k).d > 0,
    decreases a.spec_cols() - k,
{
    if k < 0 || k >= a.spec_cols() {
    } else {
        lemma_row_dot_den_pos(a, x, i, k + 1);
        lemma_row_major_bound(a.spec_rows(), a.spec_cols(), i, k);
        lemma_q_den_pos(a.entry(i, k), x[k]@);
        lemma_q_den_pos(q_mul(a.entry(i, k), x[k]@), row_dot_from(a, x, i, k + 1));
    }
}

/// Whether row `i` of `a * x = z` holds, decided exactly.
fn check_row(a: &Mat, x: &Vec<Rat>, z: &Mat, i: usize) -> (res: Result<bool, SolveError>)
    requires
        a.wf(),
        z.wf(),
        a.spec_rows() == a.spec_cols(),
        z.spec_rows() == a.spec_rows(),
        z.spec_cols() == 1,
        x@.len() == a.spec_cols(),
        forall|j: int| 0 <= j < x@.len() ==> q_fits((#[trigger] x@[j])@),
        i < a.spec_rows(),
    ensures
        match res {
            Ok(b) => b == q_eq(row_dot(*a, x@, i as int), z.entry(i as int, 0)),
            Err(e) => e == SolveError::Overflow,
        },
{
    let ghost total = row_dot(*a, x@, i as int);
    let cols = a.ncols();
    let mut acc = Rat::zero();
    let mut k: usize = 0;
    while k < cols
        invariant
            a.wf(),
            a.spec_rows() == a.spec_cols(),
            i < a.spec_rows(),
            x@.len() == a.spec_cols(),
            cols as int == a.spec_cols(),
            k <= cols,
            forall|j: int| 0 <= j < x@.len() ==> q_fits((#[trigger] x@[j])@),
            q_fits(acc@),
            total == row_dot(*a, x@, i as int),
            q_eq(q_add(acc@, row_dot_from(*a, x@, i as int, k as int)), total),
        decreases cols - k,
    {
        let av = a.get(i, k);
        let xv = x[k];
        let p = match av.mul(xv) {
            Some(p) => p,
            None => {
                return Err(SolveError::Overflow);
            },
        };
        let newacc = match acc.add(p) {
            Some(s) => s,
            None => {
                return Err(SolveError::Overflow);
            },
        };
        proof {
            use_type_invariant(p);
            use_type_invariant(newacc);
            let av_q = a.entry(i as int, k as int);
            let xv_q = x@[k as int]@;
            let pu = q_mul(av_q, xv_q);
            let rest = row_dot_from(*a, x@, i as int, k as int + 1);
            lemma_q_den_pos(av_q, xv_q);
            lemma_row_dot_den_pos(*a, x@, i as int, k as int + 1);
            // the step of the suffix sum
            assert(row_dot_from(*a, x@, i as int, k as int) == q_add(pu, rest));
            // the normalized product keeps the value
            lemma_q_norm_equiv(pu);
            // the normalized sum keeps the value
            lemma_q_den_pos(acc@, p@);
            lemma_q_norm_equiv(q_add(acc@, p@));
            // newacc == acc + pu, as values
            lemma_q_add_congr(acc@, acc@, p@, pu);
            lemma_q_eq_trans(newacc@, q_add(acc@, p@), q_add(acc@, pu));
            // fold the step into the running sum
            lemma_q_den_pos(acc@, pu);
            lemma_q_add_congr(newacc@, q_add(acc@, pu), rest, rest);
            lemma_q_add_assoc(acc@, pu, rest);
            lemma_q_den_pos(q_add(acc@, pu), rest);
            lemma_q_eq_trans(
                q_add(newacc@, rest),
                q_add(q_add(acc@, pu), rest),
                q_add(acc@, q_add(pu, rest)),
            );
            lemma_q_den_pos(acc@, q_add(pu, rest));
            lemma_q_eq_trans(
                q_add(newacc@, rest),
                q_add(acc@, q_add(pu, rest)),
                total,
            );
        }
        acc = newacc;
        k += 1;
    }
    let zv = z.get(i, 0);
    proof {
        assert(row_dot_from(*a, x@, i as int, cols as int) == q_zero());
        assert(q_add(acc@, q_zero()) == acc@);
        lemma_row_dot_den_pos(*a, x@, i as int, 0);
        if q_eq(acc@, zv@) {
            lemma_q_eq_sym(acc@, total);
            lemma_q_eq_trans(total, acc@, zv@);
        }
        if q_eq(total, zv@) {
            lemma_q_eq_trans(acc@, total, zv@);
        }
    }
    Ok(acc.eq_value(&zv))
}

/// Solve `a * x = z` by elimination with row pivoting, then certify the
/// candidate against the untouched system. `Ok` carries a vector that
/// satisfies every row of the system exactly; a system without a full set
/// of pivots is reported as singular.
///
/// The certificate runs one way: success proves a solution, while the
/// singular and overflow reports are not themselves certified against a
/// stated property of `a` — that converse would need the row operations'
/// preservation of solution sets, which is not formalized here.
pub fn solve_system(a: &Mat, z: &Mat) -> (res: Result<Vec<Rat>, SolveError>)
    requires
        a.wf(),
        z.wf(),
        a.spec_rows() == a.spec_cols(),
        z.spec_rows() == a.spec_rows(),
        z.spec_cols() == 1,
    ensures
        match res {
            Ok(x) => {
                &&& x@.len() == a.spec_rows()
                &&& forall|j: int| 0 <= j < x@.len() ==> q_fits((#[trigger] x@[j])@)
                &&& forall|i: int|
                    0 <= i < a.spec_rows() ==> q_eq(
                        #[trigger] row_dot(*a, x@, i),
                        z.entry(i, 0),
                    )
            },
            Err(e) => e == SolveError::SingularSystem || e == SolveError::Overflow,
        },
{
    let t = a.nrows();
    let mut u = a.duplicate();
    let mut w = z.duplicate();
    // Forward elimination with row pivoting.
    let mut col: usize = 0;
    while col < t
        invariant
            a.wf(),
            z.wf(),
            u.wf(),
            w.wf(),
            t as int == a.spec_rows(),
            a.spec_rows() == a.spec_cols(),
            z.spec_rows() == a.spec_rows(),
            z.spec_cols() == 1,
            u.spec_rows() == t,
            u.spec_cols() == t,
            w.spec_rows() == t,
            w.spec_cols() == 1,
            col <= t,
        decreases t - col,
    {
        let mut p: usize = col;
        let mut found = false;
        let mut r: usize = col;
        while r < t
            invariant
                u.wf(),
                u.spec_rows() == t,
                u.spec_cols() == t,
                col < t,
                col <= r,
                found ==> col <= p < t,
            decreases t - r,
        {
            if !found && !u.get(r, col).is_zero() {
                p = r;
                found = true;
            }
            r += 1;
        }
        if !found {
            return Err(SolveError::SingularSystem);
        }
        u.swap_rows(col, p);
        w.swap_rows(col, p);
        let pivot = u.get(col, col);
        if pivot.is_zero() {
            // With exact arithmetic the swapped-in pivot is the nonzero
            // entry found above; this re-check keeps the division total.
            return Err(SolveError::SingularSystem);
        }
        let mut row: usize = col + 1;
        while row < t
            invariant
                u.wf(),
                w.wf(),
                u.spec_rows() == t,
                u.spec_cols() == t,
                w.spec_rows() == t,
                w.spec_cols() == 1,
                col < t,
                col < row,
                pivot@.n != 0,
            decreases t - row,
        {
            let lead = u.get(row, col);
            let factor = match lead.div(pivot) {
                Some(f) => f,
                None => {
                    return Err(SolveError::Overflow);
                },
            };
            let mut k: usize = col;
            while k < t
                invariant
                    u.wf(),
                    u.spec_rows() == t,
                    u.spec_cols() == t,
                    col < t,
                    col < row < t,
                    col <= k,
                decreases t - k,
            {
                let prod = match factor.mul(u.get(col, k)) {
                    Some(v) => v,
                    None => {
                        return Err(SolveError::Overflow);
                    },
                };
                let nv = match u.get(row, k).sub(prod) {
                    Some(v) => v,
                    None => {
                        return Err(SolveError::Overflow);
                    },
                };
                proof {
                    use_type_invariant(nv);
                }
                u.set(row, k, nv);
                k += 1;
            }
            let prodz = match factor.mul(w.get(col, 0)) {
                Some(v) => v,
                None => {
                    return Err(SolveError::Overflow);
                },
            };
            let nz = match w.get(row, 0).sub(prodz) {
                Some(v) => v,
                None => {
                    return Err(SolveError::Overflow);
                },
            };
            proof {
                use_type_invariant(nz);
            }
            w.set(row, 0, nz);
            row += 1;
        }
        col += 1;
    }
    // Back substitution on the triangular system.
    let mut xs: Vec<Rat> = Vec::new();
    let mut f: usize = 0;
    while f < t
        invariant
            f <= t,
            xs@.len() == f,
            forall|j: int| 0 <= j < xs@.len() ==> q_fits((#[trigger] xs@[j])@),
        decreases t - f,
    {
        let zr = Rat::zero();
        proof {
            use_type_invariant(zr);
        }
        xs.push(zr);
        f += 1;
    }
    let mut ii: usize = t;
    while ii > 0
        invariant
            a.wf(),
            z.wf(),
            u.wf(),
            w.wf(),
            t as int == a.spec_rows(),
            u.spec_rows() == t,
            u.spec_cols() == t,
            w.spec_rows() == t,
            w.spec_cols() == 1,
            ii <= t,
            xs@.len() == t,
            forall|j: int| 0 <= j < xs@.len() ==> q_fits((#[trigger] xs@[j])@),
        decreases ii,
    {
        let row = ii - 1;
        let mut s = w.get(row, 0);
        let mut k: usize = row + 1;
        while k < t
            invariant
                u.wf(),
                u.spec_rows() == t,
                u.spec_cols() == t,
                row < t,
                row < k,
                xs@.len() == t,
                forall|j: int| 0 <= j < xs@.len() ==> q_fits((#[trigger] xs@[j])@),
                q_fits(s@),
            decreases t - k,
        {
            let prod = match u.get(row, k).mul(xs[k]) {
                Some(v) => v,
                None => {
                    return Err(SolveError::Overflow);
                },
            };
            s = match s.sub(prod) {
                Some(v) => v,
                None => {
                    return Err(SolveError::Overflow);
                },
            };
            proof {
                use_type_invariant(s);
            }
            k += 1;
        }
        let piv = u.get(row, row);
        if piv.is_zero() {
            return Err(SolveError::SingularSystem);
        }
        let xr = match s.div(piv) {
            Some(v) => v,
            None => {
                return Err(SolveError::Overflow);
            },
        };
        proof {
            use_type_invariant(xr);
            let nx = xs@.update(row as int, xr);
            assert(forall|j: int| 0 <= j < nx.len() ==> q_fits((#[trigger] nx[j])@));
        }
        xs[row] = xr;
        ii -= 1;
    }
    // Certify the candidate against the untouched system.
    let mut i: usize = 0;
    while i < t
        invariant
            a.wf(),
            z.wf(),
            t as int == a.spec_rows(),
            a.spec_rows() == a.spec_cols(),
            z.spec_rows() == a.spec_rows(),
            z.spec_cols() == 1,
            i <= t,
            xs@.len() == t,
            forall|j: int| 0 <= j < xs@.len() ==> q_fits((#[trigger] xs@[j])@),
            forall|r: int| 0 <= r < i ==> q_eq(#[trigger] row_dot(*a, xs@, r), z.entry(r, 0)),
        decreases t - i,
    {
        match check_row(a, &xs, z, i) {
            Ok(true) => {},
            Ok(false) => {
                return Err(SolveError::SingularSystem);
            },
            Err(_) => {
                return Err(SolveError::Overflow);
            },
        }
        i += 1;
    }
    Ok(xs)
}

} // verus!
