use lather::config::from_config;
use lather::config::ConfigErrorKind;
use lather::fx::FX_ONE;

fn profile_rv() -> Vec<i64> {
    (0..11).map(|i| (i - 5) * 1_000_000).collect()
}

fn profile_quiet() -> Vec<i64> {
    vec![
        1_000_000, 1_000_000, 900_000, 700_000, 600_000, 500_000, 600_000, 700_000, 900_000,
        1_000_000, 1_000_000,
    ]
}

fn profile_active() -> Vec<i64> {
    vec![
        1_000_000, 1_000_000, 920_000, 750_000, 650_000, 560_000, 650_000, 750_000, 920_000,
        1_000_000, 1_000_000,
    ]
}

fn base_config() -> String {
    [
        "[star]",
        "radius = 1.0",
        "period = 10.0",
        "inclination = 90.0",
        "Tstar = 5778.0",
        "Tdiff_spot = 505.0",
        "limb1 = 0.29",
        "limb2 = 0.34",
        "fillfactor = 0.0",
        "grid_resolution = 101",
    ]
    .join("\n")
}

fn spot_config() -> String {
    let mut c = base_config();
    c.push_str("\n[spot1]\nlatitude = 0.0\nlongitude = 0.0\nsize = 0.01\nplage = false\n");
    c
}

#[test]
fn load_config() {
    let sim = from_config(&base_config(), profile_rv(), profile_quiet(), profile_active())
        .expect("config should load");
    assert_eq!(sim.dynamic_fill_factor, 0);
    assert_eq!(sim.star.period, 10_000_000);
    assert_eq!(sim.star.temperature, 5_778_000_000);
    assert_eq!(sim.star.spot_temp_diff, 505_000_000);
    assert_eq!(sim.star.limb_linear, 290_000);
    assert_eq!(sim.star.limb_quadratic, 340_000);
    assert_eq!(sim.star.grid_size, 101);
    assert!(sim.spots.is_empty());
}

#[test]
fn empty_times_give_empty_results() {
    let mut sim = from_config(&spot_config(), profile_rv(), profile_quiet(), profile_active())
        .expect("config should load");
    let flux = sim.observe_flux(&Vec::new(), 400_000_000, 700_000_000);
    assert!(flux.is_empty());
    let obs = sim.observe_rv(&Vec::new(), 400_000_000, 700_000_000);
    assert!(obs.is_empty());
}

#[test]
fn quiet_star_flux_is_one() {
    let mut sim = from_config(&base_config(), profile_rv(), profile_quiet(), profile_active())
        .expect("config should load");
    let times = vec![0, 1_000_000, 2_000_000];
    let flux = sim.observe_flux(&times, 400_000_000, 700_000_000);
    assert_eq!(flux.len(), 3);
    for f in flux {
        assert_eq!(f, FX_ONE);
    }
}

#[test]
fn observe_flux_is_idempotent_without_growth() {
    let mut sim = from_config(&spot_config(), profile_rv(), profile_quiet(), profile_active())
        .expect("config should load");
    let times = vec![0, 1_000_000, 2_500_000, 5_000_000];
    let first = sim.observe_flux(&times, 400_000_000, 700_000_000);
    let second = sim.observe_flux(&times, 400_000_000, 700_000_000);
    assert_eq!(first, second);
}

#[test]
fn quiet_star_rv_is_zero() {
    let mut sim = from_config(&base_config(), profile_rv(), profile_quiet(), profile_active())
        .expect("config should load");
    let times = vec![0, 3_000_000, 7_000_000];
    let obs = sim.observe_rv(&times, 400_000_000, 700_000_000);
    assert_eq!(obs.len(), 3);
    for o in &obs {
        assert_eq!(o.rv, 0);
    }
}

#[test]
fn transit_dims_the_star() {
    // One dark region at latitude 0, longitude 0: in transit at time 0,
    // hidden behind the limb half a rotation later.
    let mut sim = from_config(&spot_config(), profile_rv(), profile_quiet(), profile_active())
        .expect("config should load");
    let times = vec![0, 5_000_000];
    let flux = sim.observe_flux(&times, 400_000_000, 700_000_000);
    assert!(flux[0] < FX_ONE);
    assert_eq!(flux[1], FX_ONE);
    assert!(flux[0] < flux[1]);
}

#[test]
fn fill_factor_growth_reaches_target() {
    let mut c = base_config();
    c = c.replace("fillfactor = 0.0", "fillfactor = 0.0001");
    let mut sim =
        from_config(&c, profile_rv(), profile_quiet(), profile_active()).expect("config");
    let reached = sim.check_fill_factor(0);
    assert!(reached);
    let covered: i128 = sim
        .spots
        .iter()
        .filter(|s| s.alive(0))
        .map(|s| (s.size as i128) * (s.size as i128) / 2)
        .sum();
    // fillfactor 0.0001 in squared fixed-point units.
    assert!(covered >= 100_000_000);
    // Processing a later time keeps the target satisfied.
    let reached2 = sim.check_fill_factor(1_000_000);
    assert!(reached2);
    let covered2: i128 = sim
        .spots
        .iter()
        .filter(|s| s.alive(1_000_000))
        .map(|s| (s.size as i128) * (s.size as i128) / 2)
        .sum();
    assert!(covered2 >= 100_000_000);
}

#[test]
fn grown_regions_never_overlap() {
    let mut c = base_config();
    c = c.replace("fillfactor = 0.0", "fillfactor = 0.0001");
    let mut sim =
        from_config(&c, profile_rv(), profile_quiet(), profile_active()).expect("config");
    sim.check_fill_factor(0);
    sim.check_fill_factor(2_000_000);
    let n = sim.spots.len();
    for i in 0..n {
        for j in 0..i {
            let a = &sim.spots[i];
            let b = &sim.spots[j];
            let windows_overlap =
                a.time_appear < b.time_disappear && b.time_appear < a.time_disappear;
            if windows_overlap {
                assert!(!a.collides_with(b));
            }
        }
    }
}

#[test]
fn spotted_rv_differs_from_quiet() {
    // A visible dark region distorts the line profile; the reported
    // radial velocity and bisector come from the distorted profile.
    let mut sim = from_config(&spot_config(), profile_rv(), profile_quiet(), profile_active())
        .expect("config should load");
    let times = vec![0, 5_000_000];
    let obs = sim.observe_rv(&times, 400_000_000, 700_000_000);
    assert_eq!(obs.len(), 2);
    // Half a rotation later the region is hidden: quiet profile, rv zero.
    assert_eq!(obs[1].rv, 0);
    assert_eq!(obs[0].bisector.len(), profile_rv().len() / 2);
}

#[test]
fn missing_field_is_collected() {
    let c = [
        "[star]",
        "radius = 1.0",
        "period = 10.0",
        "inclination = 90.0",
        "Tstar = 5778.0",
        "Tdiff_spot = 505.0",
        "limb1 = 0.29",
        "limb2 = 0.34",
        "fillfactor = 0.0",
    ]
    .join("\n");
    let r = from_config(&c, profile_rv(), profile_quiet(), profile_active());
    let errs = r.err().expect("grid_resolution is missing");
    assert!(errs.iter().any(|e| e.field == "grid_resolution"
        && matches!(e.kind, ConfigErrorKind::Missing)));
}

#[test]
fn unparsable_field_is_collected() {
    let c = base_config().replace("period = 10.0", "period = ten");
    let r = from_config(&c, profile_rv(), profile_quiet(), profile_active());
    let errs = r.err().expect("period is unparsable");
    assert!(errs
        .iter()
        .any(|e| e.field == "period" && matches!(e.kind, ConfigErrorKind::Unparsable)));
}

#[test]
fn errors_are_batched() {
    let c = [
        "[star]",
        "radius = 1.0",
        "period = ten",
        "inclination = 90.0",
        "Tstar = 5778.0",
        "limb1 = 0.29",
        "limb2 = 0.34",
        "fillfactor = 0.0",
        "grid_resolution = 101",
    ]
    .join("\n");
    let r = from_config(&c, profile_rv(), profile_quiet(), profile_active());
    let errs = r.err().expect("two problems at once");
    assert!(errs.len() >= 2);
}

#[test]
fn missing_star_section_is_fatal() {
    let r = from_config("[spot1]\nlatitude = 0.0\n", profile_rv(), profile_quiet(),
        profile_active());
    let errs = r.err().expect("star section is missing");
    assert!(errs
        .iter()
        .any(|e| e.section == "star" && matches!(e.kind, ConfigErrorKind::Missing)));
}

#[test]
fn overlapping_static_regions_are_rejected() {
    let mut c = base_config();
    c.push_str("\n[spot1]\nlatitude = 0.0\nlongitude = 0.0\nsize = 0.01\nplage = false\n");
    c.push_str("\n[spot2]\nlatitude = 0.0\nlongitude = 0.0\nsize = 0.01\nplage = false\n");
    let r = from_config(&c, profile_rv(), profile_quiet(), profile_active());
    let errs = r.err().expect("the two regions coincide");
    assert!(errs
        .iter()
        .any(|e| matches!(e.kind, ConfigErrorKind::OutOfRange)));
}

#[test]
fn draw_stamps_the_transit_pixel() {
    let mut sim = from_config(&spot_config(), profile_rv(), profile_quiet(), profile_active())
        .expect("config should load");
    let mut image: Vec<u8> = vec![7u8; 4_000_000];
    sim.draw_rgba(0, &mut image);
    assert_eq!(image.len(), 4_000_000);
    // Some pixel in the block around the disk center is covered by the
    // region in transit and carries the color ramp.
    let mut stamped = 0usize;
    for row in 490..511usize {
        for col in 490..511usize {
            let p = row * 1_000 + col;
            if image[4 * p + 3] == 255 {
                assert_eq!(image[4 * p + 2], 0);
                stamped += 1;
            }
        }
    }
    assert!(stamped > 0);
    // A corner pixel lies outside every region and is untouched.
    assert_eq!(image[0], 7);
    assert_eq!(image[3], 7);
}
