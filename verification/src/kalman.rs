//! The scalar Kalman recursion.
//!
//! One step of the filter predicts the state and its variance through
//! caller-supplied models, blends the predicted state with the new
//! measurement by the Kalman gain, and shrinks the variance
//! accordingly.  Everything is exact rational arithmetic, so the
//! contracts pin the produced scalars down to the textbook formulas:
//! with predicted state `x`, predicted variance `p`, measurement `z`
//! and measurement variance `r`,
//!
//! ```text
//! gain g = p / (p + r)
//! new state    = x + g * (z - x)
//! new variance = (1 - g) * p
//! ```
//!
//! expressed through cross multiplication over the components of the
//! inputs (`gain_num` / `gain_den` and friends below).

use vstd::prelude::*;

verus! {

use crate::ratio::Ratio;
use crate::ratio::{
    lemma_add_ratio,
    lemma_sub_ratio,
    lemma_mul_ratio,
    lemma_div_ratio,
    lemma_ratio_scale,
    lemma_ratio_value_unique,
    lemma_assoc4,
    lemma_distr,
};
use vstd::math::abs;

/// Numerator of the Kalman gain `p / (p + r)` over the components of
/// the predicted variance `p` and the measurement variance `r` (a
/// common factor `p@.1` has been cancelled).
pub open spec fn gain_num(pred_p: Ratio, r: Ratio) -> int {
    pred_p@.0 * r@.1
}

/// Denominator of the Kalman gain `p / (p + r)`.
pub open spec fn gain_den(pred_p: Ratio, r: Ratio) -> int {
    pred_p@.0 * r@.1 + r@.0 * pred_p@.1
}

/// Numerator of the refined estimate `x + g * (z - x)`.
pub open spec fn est_num(pred_x: Ratio, pred_p: Ratio, z: Ratio, r: Ratio) -> int {
    pred_x@.0 * gain_den(pred_p, r) * z@.1 + gain_num(pred_p, r) * (z@.0 * pred_x@.1 - pred_x@.0
        * z@.1)
}

/// Denominator of the refined estimate `x + g * (z - x)`.
pub open spec fn est_den(pred_x: Ratio, pred_p: Ratio, z: Ratio, r: Ratio) -> int {
    pred_x@.1 * gain_den(pred_p, r) * z@.1
}

/// Numerator of the refined variance `(1 - g) * p`.
pub open spec fn var_num(pred_p: Ratio, r: Ratio) -> int {
    (gain_den(pred_p, r) - gain_num(pred_p, r)) * pred_p@.0
}

/// Denominator of the refined variance `(1 - g) * p`.
pub open spec fn var_den(pred_p: Ratio, r: Ratio) -> int {
    gain_den(pred_p, r) * pred_p@.1
}

/// Components small enough (up to 1024 in numerator magnitude and
/// denominator) that one whole update step stays exactly representable
/// in 64 bits: on such inputs `gain` and `update` owe a result
/// whenever the gain is defined.
pub open spec fn modest(v: Ratio) -> bool {
    -1024 <= v@.0 && v@.0 <= 1024 && v@.1 <= 1024
}

/// A product is bounded by the product of the bounds.
proof fn lemma_abs_mul(a: int, b: int, ba: int, bb: int)
    requires
        -ba <= a,
        a <= ba,
        -bb <= b,
        b <= bb,
        0 <= ba,
        0 <= bb,
    ensures
        -(ba * bb) <= a * b,
        a * b <= ba * bb,
{
    assert(-(ba * bb) <= a * b && a * b <= ba * bb) by (nonlinear_arith)
        requires
            -ba <= a <= ba,
            -bb <= b <= bb,
            0 <= ba,
            0 <= bb;
}

/// A product of two positives within bounds is positive and bounded.
proof fn lemma_pos_mul(a: int, b: int, ba: int, bb: int)
    requires
        0 < a,
        a <= ba,
        0 < b,
        b <= bb,
    ensures
        0 < a * b,
        a * b <= ba * bb,
{
    assert(0 < a * b && a * b <= ba * bb) by (nonlinear_arith)
        requires
            0 < a <= ba,
            0 < b <= bb;
}

/// Single dimension linear Kalman filter.
///
/// Holds the most recent state estimate and the variance (uncertainty)
/// attached to it; `filter` advances both by one measurement.
pub struct Kalman1D {
    /// The current best estimate of the tracked value.
    pub state_estimate: Ratio,
    /// The error variance of `state_estimate`; the update rule keeps it
    /// non-negative whenever the supplied variances are non-negative.
    pub state_variance: Ratio,
}

impl Kalman1D {
    /// Both scalars have positive denominators.
    pub open spec fn wf(self) -> bool {
        self.state_estimate.wf() && self.state_variance.wf()
    }

    /// Initialises a Kalman filter.
    ///
    /// `state_est` is the initial guess at the state; `est_uncertainty`
    /// is the variance of that guess (the filter converges more slowly
    /// when it is large).
    pub fn new(state_est: Ratio, est_uncertainty: Ratio) -> (r: Self)
        ensures
            r.state_estimate == state_est,
            r.state_variance == est_uncertainty,
    {
        Kalman1D { state_estimate: state_est, state_variance: est_uncertainty }
    }

    /// The Kalman gain `p / (p + r)`: the weight the measurement
    /// receives against the prediction.
    ///
    /// `None` when the gain is undefined (`p + r` is zero, the
    /// degenerate configuration) or the exact result leaves the 64-bit
    /// representation.
    pub fn gain(pred_p: Ratio, r: Ratio) -> (g: Option<Ratio>)
        requires
            pred_p.wf(),
            r.wf(),
        ensures
            gain_den(pred_p, r) == 0 ==> g.is_none(),
            g.is_some() ==> g.unwrap().wf() && g.unwrap().is_ratio(
                gain_num(pred_p, r),
                gain_den(pred_p, r),
            ),
            modest(pred_p) && modest(r) && gain_den(pred_p, r) != 0 ==> g.is_some(),
            g.is_some() && modest(pred_p) && modest(r) ==> -1073741824 <= g.unwrap()@.0
                && g.unwrap()@.0 <= 1073741824 && g.unwrap()@.1 <= 2147483648,
    {
        let s = match pred_p.add(r) {
            Some(v) => v,
            None => {
                proof {
                    if modest(pred_p) && modest(r) {
                        lemma_abs_mul(pred_p@.0, r@.1, 1024, 1024);
                        lemma_abs_mul(r@.0, pred_p@.1, 1024, 1024);
                        lemma_pos_mul(pred_p@.1, r@.1, 1024, 1024);
                        crate::ratio::lemma_reduced_fits_when_small(
                            pred_p@.0 * r@.1 + r@.0 * pred_p@.1,
                            pred_p@.1 * r@.1,
                        );
                        assert(false);
                    }
                }
                return None;
            },
        };
        proof {
            if gain_den(pred_p, r) == 0 {
                assert(s@.0 == 0) by (nonlinear_arith)
                    requires
                        s@.0 * (pred_p@.1 * r@.1) == (pred_p@.0 * r@.1 + r@.0 * pred_p@.1) * s@.1,
                        pred_p@.0 * r@.1 + r@.0 * pred_p@.1 == 0,
                        pred_p@.1 > 0,
                        r@.1 > 0;
            }
        }
        let g = pred_p.div(s);
        proof {
            if g.is_some() {
                let gv = g.unwrap();
                lemma_div_ratio(
                    gv,
                    pred_p,
                    s,
                    pred_p@.0,
                    pred_p@.1,
                    gain_den(pred_p, r),
                    pred_p@.1 * r@.1,
                );
                assert(pred_p@.0 * (pred_p@.1 * r@.1) == (gain_num(pred_p, r)) * pred_p@.1
                    && pred_p@.1 * gain_den(pred_p, r) == gain_den(pred_p, r) * pred_p@.1)
                    by (nonlinear_arith);
                lemma_ratio_scale(gv, gain_num(pred_p, r), gain_den(pred_p, r), pred_p@.1);
            }
            if modest(pred_p) && modest(r) {
                lemma_abs_mul(pred_p@.0, r@.1, 1024, 1024);
                lemma_abs_mul(r@.0, pred_p@.1, 1024, 1024);
                lemma_pos_mul(pred_p@.1, r@.1, 1024, 1024);
                assert(-2097152 <= s@.0 && s@.0 <= 2097152 && 0 < s@.1 && s@.1 <= 1048576);
                lemma_abs_mul(pred_p@.0, s@.1, 1024, 1048576);
                lemma_abs_mul(pred_p@.1, s@.0, 1024, 2097152);
                if g.is_none() && gain_den(pred_p, r) != 0 {
                    assert(s@.0 != 0) by (nonlinear_arith)
                        requires
                            s@.0 * (pred_p@.1 * r@.1) == gain_den(pred_p, r) * s@.1,
                            gain_den(pred_p, r) != 0,
                            s@.1 > 0;
                    assert(pred_p@.1 * s@.0 != 0) by (nonlinear_arith)
                        requires
                            pred_p@.1 > 0,
                            s@.0 != 0;
                    let n0: int = pred_p@.0 * s@.1;
                    let d0: int = pred_p@.1 * s@.0;
                    if d0 < 0 {
                        crate::ratio::lemma_reduced_fits_when_small(-n0, abs(d0) as int);
                    } else {
                        crate::ratio::lemma_reduced_fits_when_small(n0, abs(d0) as int);
                    }
                    assert(false);
                }
            }
        }
        g
    }

    /// One correction step on already-predicted values: blends the
    /// predicted state `pred_x` (variance `pred_p`) with the
    /// measurement `z` (variance `r`) by the Kalman gain and returns
    /// the refined `(state, variance)` pair.
    ///
    /// `None` when the gain is undefined (`pred_p + r` is zero) or an
    /// exact intermediate leaves the 64-bit representation; otherwise
    /// the results are exactly `x + g (z - x)` and `(1 - g) p`.
    pub fn update(pred_x: Ratio, pred_p: Ratio, z: Ratio, r: Ratio) -> (res: Option<
        (Ratio, Ratio),
    >)
        requires
            pred_x.wf(),
            pred_p.wf(),
            z.wf(),
            r.wf(),
        ensures
            gain_den(pred_p, r) == 0 ==> res.is_none(),
            modest(pred_x) && modest(pred_p) && modest(z) && modest(r) && gain_den(pred_p, r)
                != 0 ==> res.is_some(),
            res.is_some() ==> res.unwrap().0.wf() && res.unwrap().0.is_ratio(
                est_num(pred_x, pred_p, z, r),
                est_den(pred_x, pred_p, z, r),
            ),
            res.is_some() ==> res.unwrap().1.wf() && res.unwrap().1.is_ratio(
                var_num(pred_p, r),
                var_den(pred_p, r),
            ),
    {
        let gv = match Self::gain(pred_p, r) {
            Some(v) => v,
            None => {
                return None;
            },
        };
        let innov = match z.sub(pred_x) {
            Some(v) => v,
            None => {
                proof {
                    if modest(pred_x) && modest(z) {
                        lemma_abs_mul(z@.0, pred_x@.1, 1024, 1024);
                        lemma_abs_mul(pred_x@.0, z@.1, 1024, 1024);
                        lemma_pos_mul(z@.1, pred_x@.1, 1024, 1024);
                        crate::ratio::lemma_reduced_fits_when_small(
                            z@.0 * pred_x@.1 - pred_x@.0 * z@.1,
                            z@.1 * pred_x@.1,
                        );
                        assert(false);
                    }
                }
                return None;
            },
        };
        let corr = match gv.mul(innov) {
            Some(v) => v,
            None => {
                proof {
                    if modest(pred_x) && modest(pred_p) && modest(z) && modest(r) {
                        lemma_abs_mul(z@.0, pred_x@.1, 1024, 1024);
                        lemma_abs_mul(pred_x@.0, z@.1, 1024, 1024);
                        lemma_pos_mul(z@.1, pred_x@.1, 1024, 1024);
                        assert(-2097152 <= innov@.0 && innov@.0 <= 2097152 && 0 < innov@.1
                            && innov@.1 <= 1048576);
                        lemma_abs_mul(gv@.0, innov@.0, 1073741824, 2097152);
                        lemma_pos_mul(gv@.1, innov@.1, 2147483648, 1048576);
                        crate::ratio::lemma_reduced_fits_when_small(
                            gv@.0 * innov@.0,
                            gv@.1 * innov@.1,
                        );
                        assert(false);
                    }
                }
                return None;
            },
        };
        let nx = match pred_x.add(corr) {
            Some(v) => v,
            None => {
                proof {
                    if modest(pred_x) && modest(pred_p) && modest(z) && modest(r) {
                        lemma_abs_mul(z@.0, pred_x@.1, 1024, 1024);
                        lemma_abs_mul(pred_x@.0, z@.1, 1024, 1024);
                        lemma_pos_mul(z@.1, pred_x@.1, 1024, 1024);
                        assert(-2097152 <= innov@.0 && innov@.0 <= 2097152 && 0 < innov@.1
                            && innov@.1 <= 1048576);
                        lemma_abs_mul(gv@.0, innov@.0, 1073741824, 2097152);
                        lemma_pos_mul(gv@.1, innov@.1, 2147483648, 1048576);
                        assert(-2251799813685248 <= corr@.0 && corr@.0 <= 2251799813685248 && 0
                            < corr@.1 && corr@.1 <= 2251799813685248);
                        lemma_abs_mul(pred_x@.0, corr@.1, 1024, 2251799813685248);
                        lemma_abs_mul(corr@.0, pred_x@.1, 2251799813685248, 1024);
                        lemma_pos_mul(pred_x@.1, corr@.1, 1024, 2251799813685248);
                        crate::ratio::lemma_reduced_fits_when_small(
                            pred_x@.0 * corr@.1 + corr@.0 * pred_x@.1,
                            pred_x@.1 * corr@.1,
                        );
                        assert(false);
                    }
                }
                return None;
            },
        };
        let one = Ratio::from_int(1);
        let om = match one.sub(gv) {
            Some(v) => v,
            None => {
                proof {
                    if modest(pred_p) && modest(r) {
                        crate::ratio::lemma_reduced_fits_when_small(
                            one@.0 * gv@.1 - gv@.0 * one@.1,
                            one@.1 * gv@.1,
                        );
                        assert(false);
                    }
                }
                return None;
            },
        };
        let np = match om.mul(pred_p) {
            Some(v) => v,
            None => {
                proof {
                    if modest(pred_p) && modest(r) {
                        assert(-3221225472 <= om@.0 && om@.0 <= 3221225472 && 0 < om@.1 && om@.1
                            <= 2147483648);
                        lemma_abs_mul(om@.0, pred_p@.0, 3221225472, 1024);
                        lemma_pos_mul(om@.1, pred_p@.1, 2147483648, 1024);
                        crate::ratio::lemma_reduced_fits_when_small(
                            om@.0 * pred_p@.0,
                            om@.1 * pred_p@.1,
                        );
                        assert(false);
                    }
                }
                return None;
            },
        };
        proof {
            let gn: int = gain_num(pred_p, r);
            let gd: int = gain_den(pred_p, r);
            let i_num: int = z@.0 * pred_x@.1 - pred_x@.0 * z@.1;
            let i_den: int = z@.1 * pred_x@.1;
            lemma_mul_ratio(corr, gv, innov, gn, gd, i_num, i_den);
            lemma_add_ratio(nx, pred_x, corr, pred_x@.0, pred_x@.1, gn * i_num, gd * i_den);
            lemma_assoc4(pred_x@.0, gd, z@.1, pred_x@.1);
            lemma_assoc4(pred_x@.1, gd, z@.1, pred_x@.1);
            lemma_distr(pred_x@.0 * gd * z@.1, gn * i_num, pred_x@.1);
            assert(nx.is_ratio(
                est_num(pred_x, pred_p, z, r) * pred_x@.1,
                est_den(pred_x, pred_p, z, r) * pred_x@.1,
            ));
            lemma_ratio_scale(
                nx,
                est_num(pred_x, pred_p, z, r),
                est_den(pred_x, pred_p, z, r),
                pred_x@.1,
            );
            lemma_sub_ratio(om, one, gv, 1, 1, gn, gd);
            assert(om.is_ratio(gd - gn, gd));
            lemma_mul_ratio(np, om, pred_p, gd - gn, gd, pred_p@.0, pred_p@.1);
        }
        Some((nx, np))
    }

    /// Estimates the current state of the system given a measurement.
    ///
    /// Performs both the predict and the update step of the filter:
    /// `state_est_fn` is the dynamic model of the state (identity for a
    /// system that does not change), `var_est_fn` models how the
    /// variance grows over one time step (`prev + q` for constant
    /// dynamics with process noise `q`); `z` is the measured value and
    /// `r` its variance.  The models may report `None` when their own
    /// arithmetic leaves the representable range.
    ///
    /// On success the new estimate is returned and both fields are
    /// exactly the textbook update of the predicted values; on `None`
    /// (a model failed, the gain was undefined, or an exact
    /// intermediate left the 64-bit range) the state is unchanged.
    pub fn filter<Sf: Fn(Ratio) -> Option<Ratio>, Pf: Fn(Ratio) -> Option<Ratio>>(
        &mut self,
        z: Ratio,
        r: Ratio,
        state_est_fn: Sf,
        var_est_fn: Pf,
    ) -> (est: Option<Ratio>)
        requires
            old(self).wf(),
            z.wf(),
            r.wf(),
            call_requires(state_est_fn, (old(self).state_estimate,)),
            call_requires(var_est_fn, (old(self).state_variance,)),
            forall|x: Ratio, y: Option<Ratio>|
                #[trigger] call_ensures(state_est_fn, (x,), y) && y.is_some() ==> y.unwrap().wf(),
            forall|x: Ratio, y: Option<Ratio>|
                #[trigger] call_ensures(var_est_fn, (x,), y) && y.is_some() ==> y.unwrap().wf(),
        ensures
            est.is_none() ==> *final(self) == *old(self),
            est.is_some() ==> final(self).wf() && est == Some(final(self).state_estimate),
            ({
                &&& modest(z)
                &&& modest(r)
                &&& 0 < r@.0
                &&& (forall|x: Ratio, y: Option<Ratio>|
                    #[trigger] call_ensures(state_est_fn, (x,), y) ==> y.is_some() && modest(
                        y.unwrap(),
                    ))
                &&& (forall|x: Ratio, y: Option<Ratio>|
                    #[trigger] call_ensures(var_est_fn, (x,), y) ==> y.is_some() && modest(
                        y.unwrap(),
                    ) && 0 <= y.unwrap()@.0)
            }) ==> est.is_some(),
            est.is_some() ==> exists|px: Ratio, pp: Ratio|
                {
                    &&& #[trigger] call_ensures(state_est_fn, (old(self).state_estimate,), Some(px))
                    &&& #[trigger] call_ensures(var_est_fn, (old(self).state_variance,), Some(pp))
                    &&& px.wf()
                    &&& pp.wf()
                    &&& gain_den(pp, r) != 0
                    &&& final(self).state_estimate.is_ratio(
                        est_num(px, pp, z, r),
                        est_den(px, pp, z, r),
                    )
                    &&& final(self).state_variance.is_ratio(var_num(pp, r), var_den(pp, r))
                },
    {
        let px = match state_est_fn(self.state_estimate) {
            Some(v) => v,
            None => {
                return None;
            },
        };
        let pp = match var_est_fn(self.state_variance) {
            Some(v) => v,
            None => {
                return None;
            },
        };
        match Self::update(px, pp, z, r) {
            Some((nx, np)) => {
                self.state_estimate = nx;
                self.state_variance = np;
                Some(nx)
            },
            None => {
                proof {
                    if modest(px) && modest(pp) && modest(z) && modest(r) && 0 <= pp@.0 && 0
                        < r@.0 {
                        assert(gain_den(pp, r) != 0) by (nonlinear_arith)
                            requires
                                gain_den(pp, r) == pp@.0 * r@.1 + r@.0 * pp@.1,
                                0 <= pp@.0,
                                0 < pp@.1,
                                0 < r@.0,
                                0 < r@.1;
                        assert(false);
                    }
                }
                None
            },
        }
    }
}

/// Gain bounds: for non-negative predicted and measurement variances
/// with at least one of them non-zero, the Kalman gain lies between 0
/// and 1.
pub proof fn lemma_gain_bounds(pred_p: Ratio, r: Ratio, g: Ratio)
    requires
        pred_p.wf(),
        r.wf(),
        g.wf(),
        0 <= pred_p@.0,
        0 <= r@.0,
        pred_p@.0 != 0 || r@.0 != 0,
        g.is_ratio(gain_num(pred_p, r), gain_den(pred_p, r)),
    ensures
        0 <= g@.0,
        g@.0 <= g@.1,
{
    let gn: int = gain_num(pred_p, r);
    let gd: int = gain_den(pred_p, r);
    assert(0 <= gn && gn <= gd && 0 < gd) by (nonlinear_arith)
        requires
            gn == pred_p@.0 * r@.1,
            gd == pred_p@.0 * r@.1 + r@.0 * pred_p@.1,
            0 <= pred_p@.0,
            0 <= r@.0,
            pred_p@.0 != 0 || r@.0 != 0,
            pred_p@.1 > 0,
            r@.1 > 0;
    assert(0 <= g@.0 && g@.0 <= g@.1) by (nonlinear_arith)
        requires
            g@.0 * gd == gn * g@.1,
            0 <= gn,
            gn <= gd,
            0 < gd,
            0 < g@.1;
}

/// Zero measurement noise: when the measurement variance is zero (and
/// the gain is defined, so the predicted variance is not zero too) the
/// refined estimate adopts the measurement exactly.
pub proof fn lemma_zero_measurement_noise(pred_x: Ratio, pred_p: Ratio, z: Ratio, r: Ratio, nx: Ratio)
    requires
        pred_x.wf(),
        pred_p.wf(),
        z.wf(),
        r.wf(),
        nx.wf(),
        r@.0 == 0,
        gain_den(pred_p, r) != 0,
        nx.is_ratio(est_num(pred_x, pred_p, z, r), est_den(pred_x, pred_p, z, r)),
    ensures
        nx.eq_rat(z),
{
    let gn: int = gain_num(pred_p, r);
    let gd: int = gain_den(pred_p, r);
    assert(gn == gd);
    assert(est_num(pred_x, pred_p, z, r) == gd * (z@.0 * pred_x@.1)) by (nonlinear_arith)
        requires
            est_num(pred_x, pred_p, z, r) == pred_x@.0 * gd * z@.1 + gd * (z@.0 * pred_x@.1
                - pred_x@.0 * z@.1);
    assert(nx@.0 * (pred_x@.1 * gd * z@.1) == (gd * (z@.0 * pred_x@.1)) * nx@.1);
    assert(nx@.0 * (pred_x@.1 * gd * z@.1) == (nx@.0 * z@.1) * (pred_x@.1 * gd))
        by (nonlinear_arith);
    assert((gd * (z@.0 * pred_x@.1)) * nx@.1 == (z@.0 * nx@.1) * (pred_x@.1 * gd))
        by (nonlinear_arith);
    assert(pred_x@.1 * gd != 0) by (nonlinear_arith)
        requires
            pred_x@.1 > 0,
            gd != 0;
    crate::ratio::lemma_mul_cancel(nx@.0 * z@.1, z@.0 * nx@.1, pred_x@.1 * gd);
}

/// Large measurement noise: when the measurement variance is at least
/// `k` times the predicted variance (`k >= 1`), the gain is at most
/// `1/k`, so the refined estimate stays close to the prediction.
pub proof fn lemma_gain_vanishes(pred_p: Ratio, r: Ratio, g: Ratio, k: int)
    requires
        pred_p.wf(),
        r.wf(),
        g.wf(),
        0 <= pred_p@.0,
        k >= 1,
        r@.0 * pred_p@.1 >= k * (pred_p@.0 * r@.1),
        gain_den(pred_p, r) != 0,
        g.is_ratio(gain_num(pred_p, r), gain_den(pred_p, r)),
    ensures
        k * g@.0 <= g@.1,
{
    let gn: int = gain_num(pred_p, r);
    let gd: int = gain_den(pred_p, r);
    assert(0 <= gn && k * gn <= gd && 0 < gd) by (nonlinear_arith)
        requires
            gn == pred_p@.0 * r@.1,
            gd == pred_p@.0 * r@.1 + r@.0 * pred_p@.1,
            r@.0 * pred_p@.1 >= k * (pred_p@.0 * r@.1),
            0 <= pred_p@.0,
            k >= 1,
            gd != 0,
            pred_p@.1 > 0,
            r@.1 > 0;
    assert(k * g@.0 <= g@.1) by (nonlinear_arith)
        requires
            g@.0 * gd == gn * g@.1,
            0 <= gn,
            k * gn <= gd,
            0 < gd,
            0 < g@.1,
            k >= 1;
}

/// The other noise limit: with zero predicted variance (and a defined
/// gain, so a non-zero measurement variance) the gain is zero and the
/// refined estimate keeps the prediction exactly — the limit that an
/// ever larger measurement variance approaches.
pub proof fn lemma_zero_predicted_variance(pred_x: Ratio, pred_p: Ratio, z: Ratio, r: Ratio, nx: Ratio)
    requires
        pred_x.wf(),
        pred_p.wf(),
        z.wf(),
        r.wf(),
        nx.wf(),
        pred_p@.0 == 0,
        gain_den(pred_p, r) != 0,
        nx.is_ratio(est_num(pred_x, pred_p, z, r), est_den(pred_x, pred_p, z, r)),
    ensures
        nx.eq_rat(pred_x),
{
    let gn: int = gain_num(pred_p, r);
    let gd: int = gain_den(pred_p, r);
    assert(gn == 0);
    assert(gn * (z@.0 * pred_x@.1 - pred_x@.0 * z@.1) == 0) by (nonlinear_arith)
        requires
            gn == 0;
    assert(nx@.0 * (pred_x@.1 * gd * z@.1) == (pred_x@.0 * gd * z@.1) * nx@.1);
    assert(nx@.0 * (pred_x@.1 * gd * z@.1) == (nx@.0 * pred_x@.1) * (gd * z@.1))
        by (nonlinear_arith);
    assert((pred_x@.0 * gd * z@.1) * nx@.1 == (pred_x@.0 * nx@.1) * (gd * z@.1))
        by (nonlinear_arith);
    assert(gd * z@.1 != 0) by (nonlinear_arith)
        requires
            z@.1 > 0,
            gd != 0;
    crate::ratio::lemma_mul_cancel(nx@.0 * pred_x@.1, pred_x@.0 * nx@.1, gd * z@.1);
}

/// Variance contraction: with non-negative predicted and measurement
/// variances, the refined variance is non-negative and no larger than
/// the predicted one.  With identity variance growth this makes the
/// tracked variance monotonically non-increasing over repeated calls.
pub proof fn lemma_variance_contracts(pred_p: Ratio, r: Ratio, np: Ratio)
    requires
        pred_p.wf(),
        r.wf(),
        np.wf(),
        0 <= pred_p@.0,
        0 <= r@.0,
        gain_den(pred_p, r) != 0,
        np.is_ratio(var_num(pred_p, r), var_den(pred_p, r)),
    ensures
        0 <= np@.0,
        np.le_rat(pred_p),
{
    let gn: int = gain_num(pred_p, r);
    let gd: int = gain_den(pred_p, r);
    let vn: int = var_num(pred_p, r);
    let vd: int = var_den(pred_p, r);
    assert(0 <= gn && gn <= gd && 0 < gd && 0 <= vn && 0 < vd && vn <= gd * pred_p@.0)
        by (nonlinear_arith)
        requires
            gn == pred_p@.0 * r@.1,
            gd == pred_p@.0 * r@.1 + r@.0 * pred_p@.1,
            vn == (gd - gn) * pred_p@.0,
            vd == gd * pred_p@.1,
            0 <= pred_p@.0,
            0 <= r@.0,
            gd != 0,
            pred_p@.1 > 0,
            r@.1 > 0;
    assert(0 <= np@.0) by (nonlinear_arith)
        requires
            np@.0 * vd == vn * np@.1,
            0 <= vn,
            0 < vd,
            0 < np@.1;
    assert(np@.0 * pred_p@.1 <= pred_p@.0 * np@.1) by (nonlinear_arith)
        requires
            np@.0 * vd == vn * np@.1,
            vd == gd * pred_p@.1,
            vn <= gd * pred_p@.0,
            0 < gd,
            0 < np@.1,
            0 < pred_p@.1;
}

/// Multiplying an inequality by a non-negative factor, and cancelling
/// a positive one.
proof fn lemma_le_mul(a: int, b: int, c: int)
    requires
        0 <= c,
        a <= b,
    ensures
        a * c <= b * c,
{
    assert(a * c <= b * c) by (nonlinear_arith)
        requires
            0 <= c,
            a <= b;
}

/// Cancelling a positive common factor in an inequality.
proof fn lemma_le_cancel(a: int, b: int, c: int)
    requires
        0 < c,
        a * c <= b * c,
    ensures
        a <= b,
{
    assert(a <= b) by (nonlinear_arith)
        requires
            0 < c,
            a * c <= b * c;
}

/// Convex blend: with non-negative variances and a defined gain, the
/// refined estimate lies between the prediction and the measurement.
/// Repeated measurements of a constant value therefore pull the
/// estimate monotonically toward it, never past it.
pub proof fn lemma_estimate_between(pred_x: Ratio, pred_p: Ratio, z: Ratio, r: Ratio, nx: Ratio)
    requires
        pred_x.wf(),
        pred_p.wf(),
        z.wf(),
        r.wf(),
        nx.wf(),
        0 <= pred_p@.0,
        0 <= r@.0,
        gain_den(pred_p, r) != 0,
        nx.is_ratio(est_num(pred_x, pred_p, z, r), est_den(pred_x, pred_p, z, r)),
        pred_x.le_rat(z),
    ensures
        pred_x.le_rat(nx),
        nx.le_rat(z),
{
    let x0: int = pred_x@.0;
    let x1: int = pred_x@.1;
    let z0: int = z@.0;
    let z1: int = z@.1;
    let gn: int = gain_num(pred_p, r);
    let gd: int = gain_den(pred_p, r);
    let dz: int = z0 * x1 - x0 * z1;
    let dd: int = est_den(pred_x, pred_p, z, r);
    let en: int = est_num(pred_x, pred_p, z, r);
    assert(0 <= gn && gn <= gd && 0 < gd) by (nonlinear_arith)
        requires
            gn == pred_p@.0 * r@.1,
            gd == pred_p@.0 * r@.1 + r@.0 * pred_p@.1,
            0 <= pred_p@.0,
            0 <= r@.0,
            gd != 0,
            pred_p@.1 > 0,
            r@.1 > 0;
    assert(0 < dd) by (nonlinear_arith)
        requires
            dd == x1 * gd * z1,
            0 < x1,
            0 < gd,
            0 < z1;
    // prediction <= estimate: en * x1 - x0 * dd is (gn * dz) * x1 >= 0
    assert(en * x1 - x0 * dd == (gn * dz) * x1) by (nonlinear_arith)
        requires
            en == x0 * gd * z1 + gn * dz,
            dd == x1 * gd * z1;
    assert(0 <= (gn * dz) * x1) by (nonlinear_arith)
        requires
            0 <= gn,
            0 <= dz,
            0 < x1;
    lemma_le_mul(x0 * dd, en * x1, nx@.1);
    assert((en * x1) * nx@.1 == (nx@.0 * dd) * x1) by (nonlinear_arith)
        requires
            nx@.0 * dd == en * nx@.1;
    assert((x0 * dd) * nx@.1 == (x0 * nx@.1) * dd && (nx@.0 * dd) * x1 == (nx@.0 * x1) * dd)
        by (nonlinear_arith);
    lemma_le_cancel(x0 * nx@.1, nx@.0 * x1, dd);
    // estimate <= measurement: z0 * dd - en * z1 is ((gd - gn) * dz) * z1 >= 0
    assert(z0 * dd == (z0 * x1) * (gd * z1)) by (nonlinear_arith)
        requires
            dd == x1 * gd * z1;
    lemma_distr(x0 * gd * z1, gn * dz, z1);
    assert((x0 * gd * z1) * z1 == (x0 * z1) * (gd * z1)) by (nonlinear_arith);
    lemma_distr(z0 * x1, x0 * z1, gd * z1);
    assert(dz * (gd * z1) == (gd * dz) * z1) by (nonlinear_arith);
    lemma_distr(gd, gn, dz);
    lemma_distr(gd * dz, gn * dz, z1);
    assert(z0 * dd - en * z1 == ((gd - gn) * dz) * z1);
    assert(0 <= ((gd - gn) * dz) * z1) by (nonlinear_arith)
        requires
            gn <= gd,
            0 <= dz,
            0 < z1;
    lemma_le_mul(en * z1, z0 * dd, nx@.1);
    assert((en * z1) * nx@.1 == (nx@.0 * dd) * z1) by (nonlinear_arith)
        requires
            nx@.0 * dd == en * nx@.1;
    assert((nx@.0 * dd) * z1 == (nx@.0 * z1) * dd && (z0 * dd) * nx@.1 == (z0 * nx@.1) * dd)
        by (nonlinear_arith);
    lemma_le_cancel(nx@.0 * z1, z0 * nx@.1, dd);
}

/// Determinism: any two results that satisfy the exact update contract
/// for the same inputs denote the same rationals.  Together with the
/// contract of `update` this pins the whole estimate sequence of two
/// identically driven filters to the same values.
pub proof fn lemma_update_deterministic(
    pred_x: Ratio,
    pred_p: Ratio,
    z: Ratio,
    r: Ratio,
    nx1: Ratio,
    np1: Ratio,
    nx2: Ratio,
    np2: Ratio,
)
    requires
        pred_x.wf(),
        pred_p.wf(),
        z.wf(),
        r.wf(),
        nx1.wf(),
        np1.wf(),
        nx2.wf(),
        np2.wf(),
        gain_den(pred_p, r) != 0,
        nx1.is_ratio(est_num(pred_x, pred_p, z, r), est_den(pred_x, pred_p, z, r)),
        nx2.is_ratio(est_num(pred_x, pred_p, z, r), est_den(pred_x, pred_p, z, r)),
        np1.is_ratio(var_num(pred_p, r), var_den(pred_p, r)),
        np2.is_ratio(var_num(pred_p, r), var_den(pred_p, r)),
    ensures
        nx1.eq_rat(nx2),
        np1.eq_rat(np2),
{
    assert(est_den(pred_x, pred_p, z, r) != 0 && var_den(pred_p, r) != 0) by (nonlinear_arith)
        requires
            est_den(pred_x, pred_p, z, r) == pred_x@.1 * gain_den(pred_p, r) * z@.1,
            var_den(pred_p, r) == gain_den(pred_p, r) * pred_p@.1,
            pred_x@.1 > 0,
            z@.1 > 0,
            pred_p@.1 > 0,
            gain_den(pred_p, r) != 0;
    lemma_ratio_value_unique(nx1, nx2, est_num(pred_x, pred_p, z, r), est_den(pred_x, pred_p, z, r));
    lemma_ratio_value_unique(np1, np2, var_num(pred_p, r), var_den(pred_p, r));
}

} // verus!
