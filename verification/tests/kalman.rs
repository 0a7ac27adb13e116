use kalman1d::kalman::Kalman1D;
use kalman1d::ratio::Ratio;

fn rat(n: i64, d: i64) -> Ratio {
    Ratio::from_parts(n, d).unwrap()
}

fn whole(n: i64) -> Ratio {
    Ratio::from_int(n)
}

/// The scenario of the classic gold-bar example: prior 2000 with
/// variance 67.4^2 = 4542.76, one measurement 2050 with variance
/// 191.93^2 = 36836.52, identity dynamics, variance growth v + 0.001.
#[test]
fn concrete_scenario() {
    let q = rat(1, 1000);
    let mut filter = Kalman1D::new(whole(2000), rat(454276, 100));
    let est = filter
        .filter(whole(2050), rat(3683652, 100), |x| Some(x), move |v| v.add(q))
        .unwrap();
    // exact: gain 4542761/41379281 ~ 0.10978, estimate ~ 2005.489
    assert!(est.equals(rat(82985700050, 41379281)));
    assert!(filter.state_estimate.equals(rat(82985700050, 41379281)));
    // exact variance: (1 - gain) * 4542.761 ~ 4044.04
    assert!(filter.state_variance.equals(rat(4183487660793, 1034482025)));
}

/// The gain of the same scenario, checked against 0 <= g <= 1 and its
/// exact value.
#[test]
fn gain_concrete_and_bounded() {
    let g = Kalman1D::gain(rat(4542761, 1000), rat(3683652, 100)).unwrap();
    assert!(g.equals(rat(4542761, 41379281)));
    assert!(whole(0).le(g));
    assert!(g.le(whole(1)));
    // equal variances give gain one half
    let h = Kalman1D::gain(rat(3, 7), rat(3, 7)).unwrap();
    assert!(h.equals(rat(1, 2)));
    assert!(whole(0).le(h));
    assert!(h.le(whole(1)));
}

#[test]
fn gain_undefined_when_both_variances_zero() {
    assert!(Kalman1D::gain(whole(0), whole(0)).is_none());
    assert!(Kalman1D::update(whole(5), whole(0), whole(7), whole(0)).is_none());
}

/// Repeated measurements of a constant value: the variance must fall
/// monotonically and the estimate approach the true value.  With prior
/// (0, 1), measurements 1 with variance 1 and no process noise, step k
/// gives exactly estimate k/(k+1) and variance 1/(k+1).
#[test]
fn convergence_toward_constant_truth() {
    let mut filter = Kalman1D::new(whole(0), whole(1));
    for k in 1..=5i64 {
        let prev_var = filter.state_variance;
        let est = filter.filter(whole(1), whole(1), |x| Some(x), |v| Some(v)).unwrap();
        assert!(est.equals(rat(k, k + 1)));
        assert!(filter.state_variance.equals(rat(1, k + 1)));
        assert!(filter.state_variance.le(prev_var));
    }
}

/// A measurement with zero variance is adopted exactly (gain 1).
#[test]
fn zero_measurement_noise_adopts_measurement() {
    let mut filter = Kalman1D::new(whole(10), rat(1, 2));
    let est = filter.filter(rat(17, 3), whole(0), |x| Some(x), |v| Some(v)).unwrap();
    assert!(est.equals(rat(17, 3)));
    assert!(filter.state_variance.equals(whole(0)));
}

/// A measurement with overwhelming variance barely moves the estimate;
/// with zero predicted variance it does not move it at all (gain 0).
#[test]
fn huge_measurement_noise_keeps_prediction() {
    let mut filter = Kalman1D::new(whole(0), whole(1));
    let est = filter.filter(whole(1), whole(1000000), |x| Some(x), |v| Some(v)).unwrap();
    // exact: 1/1000001, within 1/1000 of the prediction 0
    assert!(est.equals(rat(1, 1000001)));
    assert!(est.le(rat(1, 1000)));
    let mut certain = Kalman1D::new(rat(42, 5), whole(0));
    let kept = certain.filter(whole(100), whole(3), |x| Some(x), |v| Some(v)).unwrap();
    assert!(kept.equals(rat(42, 5)));
}

/// Identical construction and measurements give identical estimates.
#[test]
fn determinism_of_two_instances() {
    let q = rat(1, 100);
    let mut a = Kalman1D::new(whole(50), rat(9, 4));
    let mut b = Kalman1D::new(whole(50), rat(9, 4));
    let measurements: [(i64, i64); 4] = [(52, 1), (49, 2), (51, 1), (48, 3)];
    for (z, r) in measurements {
        let ea = a.filter(whole(z), whole(r), |x| Some(x), move |v| v.add(q)).unwrap();
        let eb = b.filter(whole(z), whole(r), |x| Some(x), move |v| v.add(q)).unwrap();
        assert_eq!((ea.num(), ea.den()), (eb.num(), eb.den()));
        assert_eq!(
            (a.state_variance.num(), a.state_variance.den()),
            (b.state_variance.num(), b.state_variance.den())
        );
    }
}

/// A kinematic model: the dynamics advance the state by a constant
/// velocity each step.
#[test]
fn moving_state_model() {
    let velocity = whole(2);
    let noise = whole(1);
    let mut filter = Kalman1D::new(whole(0), whole(1));
    // perfect measurements track the motion exactly; process noise
    // keeps the predicted variance positive
    let est = filter
        .filter(whole(2), whole(0), move |x| x.add(velocity), move |v| v.add(noise))
        .unwrap();
    assert!(est.equals(whole(2)));
    let est = filter
        .filter(whole(4), whole(0), move |x| x.add(velocity), move |v| v.add(noise))
        .unwrap();
    assert!(est.equals(whole(4)));
}

/// A failing model leaves the state untouched.
#[test]
fn failed_step_keeps_state() {
    let mut filter = Kalman1D::new(whole(3), rat(1, 2));
    let est = filter.filter(whole(4), whole(1), |_x| None, |v| Some(v));
    assert!(est.is_none());
    assert_eq!((filter.state_estimate.num(), filter.state_estimate.den()), (3, 1));
    assert_eq!((filter.state_variance.num(), filter.state_variance.den()), (1, 2));
}

/// The refined estimate never overshoots: it lies between the
/// prediction and the measurement, whichever is larger.
#[test]
fn estimate_between_prediction_and_measurement() {
    let mut up = Kalman1D::new(whole(0), whole(1));
    let e = up.filter(whole(10), whole(3), |x| Some(x), |v| Some(v)).unwrap();
    assert!(whole(0).le(e) && e.le(whole(10)));
    let mut down = Kalman1D::new(whole(10), whole(1));
    let e = down.filter(whole(0), whole(3), |x| Some(x), |v| Some(v)).unwrap();
    assert!(whole(0).le(e) && e.le(whole(10)));
}

/// The update step alone, against the textbook formulas.
#[test]
fn update_step_exact_values() {
    // x = 1, p = 1/2, z = 2, r = 1/2: gain 1/2, estimate 3/2, variance 1/4
    let (nx, np) = Kalman1D::update(whole(1), rat(1, 2), whole(2), rat(1, 2)).unwrap();
    assert!(nx.equals(rat(3, 2)));
    assert!(np.equals(rat(1, 4)));
}
