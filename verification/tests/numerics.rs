use lather::config::parse_fx;
use lather::fx::{fx_div, fx_mul, fx_sqrt, half, isqrt_u64, FX_ONE};
use lather::line::{bisector, centroid, normalize};
use lather::star::{limb_integral, min, Star};
use lather::trig::{atan_ratio, cos_deg, sin_deg, HALF_PI_FX};
use lather::profile::Profile;

#[test]
fn fixed_point_products_and_quotients() {
    assert_eq!(fx_mul(2_000_000, 500_000), 1_000_000);
    assert_eq!(fx_mul(-2_000_000, 500_000), -1_000_000);
    assert_eq!(fx_mul(1_500_000, 1_500_000), 2_250_000);
    assert_eq!(fx_div(1_000_000, 2_000_000), 500_000);
    assert_eq!(fx_div(-1_000_000, 2_000_000), -500_000);
    assert_eq!(half(7), 3);
    assert_eq!(half(-7), -3);
}

#[test]
fn integer_square_roots() {
    assert_eq!(isqrt_u64(0), 0);
    assert_eq!(isqrt_u64(1), 1);
    assert_eq!(isqrt_u64(99), 9);
    assert_eq!(isqrt_u64(100), 10);
    assert_eq!(isqrt_u64(10_000_000_000_000_000_000), 3_162_277_660);
    // sqrt(1.0) and sqrt(0.25) in fixed point.
    assert_eq!(fx_sqrt(FX_ONE), 1_000_000);
    assert_eq!(fx_sqrt(250_000), 500_000);
}

#[test]
fn trigonometry_at_reference_angles() {
    assert_eq!(sin_deg(0), 0);
    assert_eq!(sin_deg(90_000_000), 1_000_000);
    assert_eq!(sin_deg(180_000_000), 0);
    assert_eq!(cos_deg(0), 1_000_000);
    assert_eq!(cos_deg(180_000_000), -1_000_000);
    assert_eq!(cos_deg(-90_000_000), 0);
    // atan of a vertical ray is a right angle.
    assert_eq!(atan_ratio(1_000_000, 0), HALF_PI_FX);
    assert_eq!(atan_ratio(-1_000_000, 0), -HALF_PI_FX);
    assert_eq!(atan_ratio(0, 1_000_000), 0);
}

#[test]
fn parse_fixed_point_decimals() {
    assert_eq!(parse_fx(b"1.25"), Some(1_250_000));
    assert_eq!(parse_fx(b"-0.5"), Some(-500_000));
    assert_eq!(parse_fx(b"5778.0"), Some(5_778_000_000));
    assert_eq!(parse_fx(b"101"), Some(101_000_000));
    assert_eq!(parse_fx(b".5"), Some(500_000));
    assert_eq!(parse_fx(b"7."), Some(7_000_000));
    assert_eq!(parse_fx(b"0.000001"), Some(1));
    assert_eq!(parse_fx(b""), None);
    assert_eq!(parse_fx(b"-"), None);
    assert_eq!(parse_fx(b"ten"), None);
    assert_eq!(parse_fx(b"1.2.3"), None);
    assert_eq!(parse_fx(b"0.1234567"), None);
    assert_eq!(parse_fx(b"1234567890123"), None);
}

#[test]
fn degenerate_chord_integral_is_zero() {
    assert_eq!(limb_integral(300_000, 300_000, 0, 290_000, 340_000), 0);
    assert!(limb_integral(-500_000, 500_000, 0, 290_000, 340_000) > 0);
    assert_eq!(min(3, 5), 3);
    assert_eq!(min(5, 3), 3);
}

#[test]
fn centroid_of_a_symmetric_dip_is_the_center() {
    let rv: Vec<i64> = (0..11).map(|i| (i - 5) * 1_000_000).collect();
    let p = vec![
        1_000_000, 1_000_000, 900_000, 700_000, 600_000, 500_000, 600_000, 700_000, 900_000,
        1_000_000, 1_000_000,
    ];
    let n = normalize(&p);
    assert_eq!(centroid(&rv, &n), 0);
    let b = bisector(&rv, &n);
    assert_eq!(b.len(), 5);
    for v in b {
        assert_eq!(v, 0);
    }
}

#[test]
fn disk_construction_is_deterministic() {
    let rv: Vec<i64> = (0..11).map(|i| (i - 5) * 1_000_000).collect();
    let ccf = vec![
        1_000_000, 1_000_000, 900_000, 700_000, 600_000, 500_000, 600_000, 700_000, 900_000,
        1_000_000, 1_000_000,
    ];
    let mk = || {
        let pq = Profile::new(rv.clone(), ccf.clone()).unwrap();
        let pa = Profile::new(rv.clone(), ccf.clone()).unwrap();
        Star::new(
            1_000_000,
            10_000_000,
            90_000_000,
            5_778_000_000,
            505_000_000,
            290_000,
            340_000,
            101,
            pq,
            pa,
        )
        .unwrap()
    };
    let a = mk();
    let b = mk();
    assert_eq!(a.flux_quiet, b.flux_quiet);
    assert_eq!(a.zero_rv, b.zero_rv);
    assert_eq!(a.equatorial_velocity, b.equatorial_velocity);
    assert_eq!(a.integrated_ccf, b.integrated_ccf);
    assert!(a.flux_quiet > 0);
}
