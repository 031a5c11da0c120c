//! The graph renderer's core: sampling the evaluator over a domain, ranging
//! the samples, and turning dot rows into braille cells.
//!
//! The front end maps sample indices into the domain and dot rows (that is
//! floating-point interpolation); everything structural — the sampling loop
//! with its rebinding of `x`, the finite-only minimum/maximum reduction, and
//! the pairing of samples into 2-dot braille columns — is verified here.

use itertools::Itertools;
use vstd::map::*;
use vstd::prelude::*;

use crate::bindings::Bindings;
use crate::error::InvalidExpressionError;
use crate::eval::{calc_model, Scalar, ScalarHost};
use crate::expr::Expr;

verus! {

// ---------------------------------------------------------------------------
// Sampling
// ---------------------------------------------------------------------------

/// The bindings a sample is evaluated under: the single variable `x` bound
/// to the sample's domain value.
pub open spec fn sample_env(x: Scalar) -> Map<Seq<char>, Scalar> {
    Map::<Seq<char>, Scalar>::empty().insert("x"@, x)
}

/// Evaluates `expr` once per domain value in `xs`, rewriting the single
/// binding `x` between evaluations.  On success every sample is exactly the
/// model's value for its domain point; the first failing evaluation aborts
/// the whole render with its error (which, the bindings' domain never
/// changing, is already the first sample's error).
pub fn sample_curve<H: ScalarHost>(expr: &Expr, xs: &Vec<Scalar>, host: &H) -> (r: Result<
    Vec<Scalar>,
    InvalidExpressionError,
>)
    ensures
        match r {
            Ok(points) => points@.len() == xs@.len() && (forall|i: int|
                0 <= i < xs@.len() ==> calc_model(expr@, sample_env(xs@[i]), host) == Ok::<
                    Scalar,
                    crate::error::ErrorModel,
                >(#[trigger] points@[i])),
            Err(e) => xs@.len() > 0 && calc_model(expr@, sample_env(xs@[0]), host) == Err::<
                Scalar,
                crate::error::ErrorModel,
            >(e@),
        },
{
    let mut variables = Bindings::new();
    let mut points: Vec<Scalar> = Vec::new();
    let n = xs.len();
    let mut i: usize = 0;
    while i < n
        invariant
            i <= n == xs@.len(),
            points@.len() == i,
            forall|nm: Seq<char>| variables@.dom().contains(nm) ==> nm == "x"@,
            forall|m: int|
                0 <= m < i as int ==> calc_model(expr@, sample_env(xs@[m]), host) == Ok::<
                    Scalar,
                    crate::error::ErrorModel,
                >(#[trigger] points@[m]),
        decreases n - i,
    {
        let x = xs[i];
        variables.set("x".to_owned(), x);
        proof {
            let mcur = variables@;
            let menv = sample_env(x);
            assert_maps_equal!(mcur, menv, nm => {});
        }
        match expr.calc(&variables, host) {
            Ok(v) => {
                let ghost points_old = points@;
                points.push(v);
                proof {
                    assert forall|m: int| 0 <= m < i as int + 1 implies calc_model(
                        expr@,
                        sample_env(xs@[m]),
                        host,
                    ) == Ok::<Scalar, crate::error::ErrorModel>(#[trigger] points@[m]) by {
                        if m < i as int {
                            assert(points@[m] == points_old[m]);
                        } else {
                            assert(points@[m] == v);
                        }
                    }
                }
            },
            Err(e) => {
                proof {
                    assert(sample_env(xs@[i as int]).dom() =~= sample_env(xs@[0]).dom());
                    crate::eval::lemma_calc_err_dom(
                        expr@,
                        sample_env(xs@[i as int]),
                        sample_env(xs@[0]),
                        host,
                    );
                }
                return Err(e);
            },
        }
        i = i + 1;
    }
    Ok(points)
}

/// Sampling the identity expression gives back the domain values themselves:
/// each sample of the expression `x` is exactly the value bound to `x`, so
/// the sampled curve of `x` is as monotone as the domain values are.
pub proof fn lemma_identity_sampling<H: ScalarHost>(x: Scalar, host: &H)
    ensures
        calc_model(crate::expr::ExprModel::Variable("x"@), sample_env(x), host) == Ok::<
            Scalar,
            crate::error::ErrorModel,
        >(x),
{
}

// ---------------------------------------------------------------------------
// Ranging: the finite-only minimum and maximum
// ---------------------------------------------------------------------------

/// The running minimum from position `i` on: a sample replaces the current
/// value only when the host calls it finite and orders it strictly below the
/// current value, or when the current value is not finite — so non-finite
/// samples never win the reduction.
pub open spec fn min_from<H: ScalarHost>(points: Seq<Scalar>, i: int, cur: Scalar, host: &H) -> Scalar
    decreases points.len() - i,
{
    if i < 0 || i >= points.len() {
        cur
    } else {
        let cand = points[i];
        let next = if host.finite_model(cand) && (!host.finite_model(cur) || host.lt_model(
            cand,
            cur,
        )) {
            cand
        } else {
            cur
        };
        min_from(points, i + 1, next, host)
    }
}

/// The running maximum from position `i` on, mirror of [`min_from`].
pub open spec fn max_from<H: ScalarHost>(points: Seq<Scalar>, i: int, cur: Scalar, host: &H) -> Scalar
    decreases points.len() - i,
{
    if i < 0 || i >= points.len() {
        cur
    } else {
        let cand = points[i];
        let next = if host.finite_model(cand) && (!host.finite_model(cur) || host.lt_model(
            cur,
            cand,
        )) {
            cand
        } else {
            cur
        };
        max_from(points, i + 1, next, host)
    }
}

/// The vertical range the plot is scaled by: the least and greatest finite
/// samples.  Non-finite samples (a singularity in range) are ignored by the
/// reduction; only when no sample is finite does the first sample come back.
pub fn plot_range<H: ScalarHost>(points: &Vec<Scalar>, host: &H) -> (r: (Scalar, Scalar))
    requires
        points@.len() > 0,
    ensures
        r.0 == min_from(points@, 1, points@[0], host),
        r.1 == max_from(points@, 1, points@[0], host),
{
    let mut mn = points[0];
    let mut mx = points[0];
    let n = points.len();
    let mut i: usize = 1;
    while i < n
        invariant
            1 <= i <= n == points@.len(),
            min_from(points@, 1, points@[0], host) == min_from(points@, i as int, mn, host),
            max_from(points@, 1, points@[0], host) == max_from(points@, i as int, mx, host),
        decreases n - i,
    {
        let p = points[i];
        if host.is_finite(p) && (!host.is_finite(mn) || host.lt(p, mn)) {
            mn = p;
        }
        if host.is_finite(p) && (!host.is_finite(mx) || host.lt(mx, p)) {
            mx = p;
        }
        i = i + 1;
    }
    (mn, mx)
}

/// A non-finite value never survives the minimum reduction past a finite
/// one: with a finite start value or any finite sample left, the result is
/// finite.
pub proof fn lemma_min_from_finite<H: ScalarHost>(
    points: Seq<Scalar>,
    i: int,
    cur: Scalar,
    host: &H,
)
    requires
        0 <= i,
        host.finite_model(cur) || (exists|j: int|
            i <= j < points.len() && host.finite_model(#[trigger] points[j])),
    ensures
        host.finite_model(min_from(points, i, cur, host)),
    decreases points.len() - i,
{
    if i < points.len() {
        let cand = points[i];
        let next = if host.finite_model(cand) && (!host.finite_model(cur) || host.lt_model(
            cand,
            cur,
        )) {
            cand
        } else {
            cur
        };
        lemma_min_from_finite(points, i + 1, next, host);
    }
}

/// Mirror of [`lemma_min_from_finite`] for the maximum reduction.
pub proof fn lemma_max_from_finite<H: ScalarHost>(
    points: Seq<Scalar>,
    i: int,
    cur: Scalar,
    host: &H,
)
    requires
        0 <= i,
        host.finite_model(cur) || (exists|j: int|
            i <= j < points.len() && host.finite_model(#[trigger] points[j])),
    ensures
        host.finite_model(max_from(points, i, cur, host)),
    decreases points.len() - i,
{
    if i < points.len() {
        let cand = points[i];
        let next = if host.finite_model(cand) && (!host.finite_model(cur) || host.lt_model(
            cur,
            cand,
        )) {
            cand
        } else {
            cur
        };
        lemma_max_from_finite(points, i + 1, next, host);
    }
}

/// The minimum reduction only ever hands back its start value or one of the
/// samples.
pub proof fn lemma_min_from_element<H: ScalarHost>(
    points: Seq<Scalar>,
    i: int,
    cur: Scalar,
    host: &H,
)
    ensures
        min_from(points, i, cur, host) == cur || (exists|j: int|
            i <= j < points.len() && #[trigger] points[j] == min_from(points, i, cur, host)),
    decreases points.len() - i,
{
    if 0 <= i < points.len() {
        let cand = points[i];
        let next = if host.finite_model(cand) && (!host.finite_model(cur) || host.lt_model(
            cand,
            cur,
        )) {
            cand
        } else {
            cur
        };
        lemma_min_from_element(points, i + 1, next, host);
    }
}

/// Mirror of [`lemma_min_from_element`] for the maximum reduction.
pub proof fn lemma_max_from_element<H: ScalarHost>(
    points: Seq<Scalar>,
    i: int,
    cur: Scalar,
    host: &H,
)
    ensures
        max_from(points, i, cur, host) == cur || (exists|j: int|
            i <= j < points.len() && #[trigger] points[j] == max_from(points, i, cur, host)),
    decreases points.len() - i,
{
    if 0 <= i < points.len() {
        let cand = points[i];
        let next = if host.finite_model(cand) && (!host.finite_model(cur) || host.lt_model(
            cur,
            cand,
        )) {
            cand
        } else {
            cur
        };
        lemma_max_from_element(points, i + 1, next, host);
    }
}

/// Finite samples alone determine the plotted range: as soon as one sample
/// is finite, both ends of the range are finite — whatever non-finite values
/// the other samples took — and each end is itself one of the samples.
pub proof fn lemma_plot_range_finite<H: ScalarHost>(points: Seq<Scalar>, host: &H)
    requires
        points.len() > 0,
        exists|j: int| 0 <= j < points.len() && host.finite_model(#[trigger] points[j]),
    ensures
        host.finite_model(min_from(points, 1, points[0], host)),
        host.finite_model(max_from(points, 1, points[0], host)),
        exists|j: int|
            0 <= j < points.len() && #[trigger] points[j] == min_from(points, 1, points[0], host),
        exists|j: int|
            0 <= j < points.len() && #[trigger] points[j] == max_from(points, 1, points[0], host),
{
    lemma_min_from_finite(points, 1, points[0], host);
    lemma_max_from_finite(points, 1, points[0], host);
    lemma_min_from_element(points, 1, points[0], host);
    lemma_max_from_element(points, 1, points[0], host);
}

// ---------------------------------------------------------------------------
// Braille cells
// ---------------------------------------------------------------------------

/// One character cell of the plotted curve: the sample-pair column it sits
/// in, how many cells it sits above the baseline, and the dot bits of the
/// cell (the braille character is `0x2800` plus the mask).
#[derive(Clone, Copy, Debug, PartialEq, Eq, Structural)]
pub struct DotCell {
    /// Index of the sample pair: the cell's column.
    pub col: usize,
    /// Cells above the baseline.
    pub up: u16,
    /// The braille dot bitmask.
    pub mask: u8,
}

/// The left-column dot bit for dot-row `p`: braille dots count downward
/// while larger values draw higher, so the bit within the cell is inverted
/// (`1 << (2 - p % 3)`).
pub open spec fn left_dot(p: u16) -> u8 {
    if p % 3 == 0 {
        4u8
    } else if p % 3 == 1 {
        2u8
    } else {
        1u8
    }
}

/// The right-column dot bit for dot-row `p` (`1 << (5 - p % 3)`).
pub open spec fn right_dot(p: u16) -> u8 {
    if p % 3 == 0 {
        32u8
    } else if p % 3 == 1 {
        16u8
    } else {
        8u8
    }
}

/// The cells a sample pair adds in column `k`: one cell carrying both dots
/// when the samples share a cell row, otherwise one single-dot cell each.
pub open spec fn pair_cells(p1: u16, p2: u16, k: int) -> Seq<DotCell> {
    if p1 / 3 == p2 / 3 {
        seq![
            DotCell {
                col: k as usize,
                up: (p1 / 3) as u16,
                mask: (left_dot(p1) + right_dot(p2)) as u8,
            },
        ]
    } else {
        seq![
            DotCell { col: k as usize, up: (p1 / 3) as u16, mask: left_dot(p1) },
            DotCell { col: k as usize, up: (p2 / 3) as u16, mask: right_dot(p2) },
        ]
    }
}

/// The cells of all sample pairs from pair index `k` on; a trailing unpaired
/// sample is dropped.
pub open spec fn cells_from(rows: Seq<u16>, k: int) -> Seq<DotCell>
    decreases rows.len() - 2 * k,
{
    if k < 0 || 2 * k + 1 >= rows.len() {
        Seq::empty()
    } else {
        pair_cells(rows[2 * k], rows[2 * k + 1], k) + cells_from(rows, k + 1)
    }
}

/// Relies on itertools' `tuples` over a pair type: it yields the adjacent
/// disjoint pairs of the iterator in order and drops a trailing unpaired
/// element.
#[verifier::external_body]
fn pair_up(rows: &Vec<u16>) -> (r: Vec<(u16, u16)>)
    ensures
        r@.len() == rows@.len() / 2,
        forall|k: int|
            0 <= k < r@.len() ==> (#[trigger] r@[k]).0 == rows@[2 * k] && r@[k].1 == rows@[2 * k
                + 1],
{
    let pairs: Vec<(u16, u16)> = rows.iter().copied().tuples().collect();
    pairs
}

fn left_bit(p: u16) -> (b: u8)
    ensures
        b == left_dot(p),
{
    let m = p % 3;
    if m == 0 {
        4
    } else if m == 1 {
        2
    } else {
        1
    }
}

fn right_bit(p: u16) -> (b: u8)
    ensures
        b == right_dot(p),
{
    let m = p % 3;
    if m == 0 {
        32
    } else if m == 1 {
        16
    } else {
        8
    }
}

/// Walks the dot rows two at a time and emits the braille cells of the
/// curve: exactly the model [`cells_from`] gives, pair by pair.
pub fn plot_cells(rows: &Vec<u16>) -> (r: Vec<DotCell>)
    ensures
        r@ == cells_from(rows@, 0),
{
    let pairs = pair_up(rows);
    let mut r: Vec<DotCell> = Vec::new();
    let n = pairs.len();
    let mut k: usize = 0;
    while k < n
        invariant
            k <= n == pairs@.len(),
            pairs@.len() == rows@.len() / 2,
            forall|m: int|
                0 <= m < pairs@.len() ==> (#[trigger] pairs@[m]).0 == rows@[2 * m] && pairs@[m].1
                    == rows@[2 * m + 1],
            cells_from(rows@, 0) == r@ + cells_from(rows@, k as int),
        decreases n - k,
    {
        let ghost r_old = r@;
        let pair = pairs[k];
        let p1 = pair.0;
        let p2 = pair.1;
        if p1 / 3 == p2 / 3 {
            r.push(DotCell { col: k, up: p1 / 3, mask: left_bit(p1) + right_bit(p2) });
        } else {
            r.push(DotCell { col: k, up: p1 / 3, mask: left_bit(p1) });
            r.push(DotCell { col: k, up: p2 / 3, mask: right_bit(p2) });
        }
        proof {
            assert(r@ =~= r_old + pair_cells(rows@[2 * k], rows@[2 * k + 1], k as int));
            assert((r_old + pair_cells(rows@[2 * k], rows@[2 * k + 1], k as int)) + cells_from(
                rows@,
                k + 1,
            ) =~= r_old + (pair_cells(rows@[2 * k], rows@[2 * k + 1], k as int) + cells_from(
                rows@,
                k + 1,
            )));
        }
        k = k + 1;
    }
    proof {
        assert(r@ + Seq::<DotCell>::empty() =~= r@);
    }
    r
}

} // verus!
