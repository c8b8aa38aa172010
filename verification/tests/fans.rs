use machctrl::fancontrol::{fan_step, pct_to_pwm, FanMode, FanStep};
use machctrl::hwmon::{fan_sensor, pwm_to_pct, sensor_channel, speed_to_pwm, temp_label, unique_chip_names};

fn float_pct_to_pwm(pct: i32) -> i32 {
    ((pct.clamp(0, 100) as f64) * 2.55).round() as i32
}

fn float_speed_to_pwm(speed: i32) -> i32 {
    let v = ((speed.clamp(0, 100) as f64) * 255.0 / 100.0).round() as i32;
    v.clamp(0, 255)
}

#[test]
fn pct_to_pwm_matches_float_formula() {
    for p in -20..=130 {
        assert_eq!(pct_to_pwm(p), float_pct_to_pwm(p), "pct {p}");
    }
}

#[test]
fn pct_to_pwm_known_values() {
    assert_eq!(pct_to_pwm(0), 0);
    assert_eq!(pct_to_pwm(100), 255);
    assert_eq!(pct_to_pwm(50), 127);
    assert_eq!(pct_to_pwm(10), 26);
    assert_eq!(pct_to_pwm(-5), 0);
    assert_eq!(pct_to_pwm(250), 255);
}

#[test]
fn speed_to_pwm_matches_float_formula() {
    for p in -20..=130 {
        assert_eq!(speed_to_pwm(p), float_speed_to_pwm(p), "speed {p}");
    }
    assert_eq!(speed_to_pwm(50), 128);
}

#[test]
fn fan_steps_follow_mode() {
    assert_eq!(fan_step(FanMode::Max, 0, false, 0, false, false), FanStep::Write(255));
    assert_eq!(fan_step(FanMode::Manual, 40, false, 0, false, false), FanStep::Write(102));
    assert_eq!(fan_step(FanMode::Curve, 0, true, 3, false, true), FanStep::FollowCurve);
    assert_eq!(fan_step(FanMode::Curve, 0, true, 0, true, true), FanStep::Leave);
    assert_eq!(fan_step(FanMode::Curve, 0, false, 2, false, true), FanStep::Leave);
    assert_eq!(fan_step(FanMode::Auto, 0, true, 0, false, true), FanStep::GpuDefault);
    assert_eq!(fan_step(FanMode::Auto, 0, false, 0, true, false), FanStep::CpuDefault);
    assert_eq!(fan_step(FanMode::Auto, 0, false, 0, false, true), FanStep::Leave);
}

#[test]
fn chip_names_get_occurrence_suffix() {
    let names: Vec<String> = ["nct6775", "coretemp", "nct6775", "coretemp", "nct6775"]
        .iter()
        .map(|s| s.to_string())
        .collect();
    let keys = unique_chip_names(&names);
    assert_eq!(keys, vec!["nct6775", "coretemp", "nct6775_1", "coretemp_1", "nct6775_2"]);
}

#[test]
fn sensor_channel_names() {
    assert_eq!(sensor_channel("temp12_input", "temp"), Some("12".to_string()));
    assert_eq!(sensor_channel("fan2_input", "fan"), Some("2".to_string()));
    assert_eq!(sensor_channel("fan2_label", "fan"), None);
    assert_eq!(sensor_channel("pwm1", "fan"), None);
}

#[test]
fn fan_sensor_defaults() {
    let f = fan_sensor("nct6779", "3", None, None, 40, "/sys/x/pwm3".to_string(), None);
    assert_eq!(f.id, "nct6779_fan3");
    assert_eq!(f.label, "Fan 3");
    assert_eq!(f.rpm, 0);
    assert_eq!(f.pct, 40);
    assert_eq!(f.pwm_enable_path, None);
    let g = fan_sensor("k", "1", Some(900), Some(" CPU\n"), 10, "p".to_string(), Some("e".to_string()));
    assert_eq!(g.label, "CPU");
    assert_eq!(g.rpm, 900);
}

#[test]
fn temperature_labels() {
    assert_eq!(temp_label("1", Some("Package id 0\n")), "Package id 0");
    assert_eq!(temp_label("3", None), "Temp 3");
}

fn float_pwm_to_pct(v: i64) -> i32 {
    ((v as f64 / 255.0) * 100.0).round() as i32
}

#[test]
fn pwm_to_pct_matches_float_formula() {
    for v in -600..=600i64 {
        assert_eq!(pwm_to_pct(v), float_pwm_to_pct(v), "pwm {v}");
    }
    for v in [i64::MAX, i64::MIN, 5_475_000_000, -5_475_000_000, 5_476_000_000, 1 << 40] {
        assert_eq!(pwm_to_pct(v), float_pwm_to_pct(v), "pwm {v}");
    }
    assert_eq!(pwm_to_pct(0), 0);
    assert_eq!(pwm_to_pct(128), 50);
    assert_eq!(pwm_to_pct(255), 100);
}

#[test]
fn pwm_grows_with_speed_and_stays_in_range() {
    let mut last = pct_to_pwm(-1000);
    for p in -50..=150 {
        let v = pct_to_pwm(p);
        assert!((0..=255).contains(&v));
        assert!(v >= last, "pct {p}");
        last = v;
    }
}

#[test]
fn chip_keys_are_distinct() {
    let names: Vec<String> = ["nct6775", "coretemp", "nct6775", "acpitz", "nct6775", "coretemp"]
        .iter()
        .map(|s| s.to_string())
        .collect();
    let keys = unique_chip_names(&names);
    for i in 0..keys.len() {
        for j in i + 1..keys.len() {
            assert_ne!(keys[i], keys[j]);
        }
    }
    // a chip already named like a suffixed key collides with it
    let names: Vec<String> = ["a", "a", "a_1"].iter().map(|s| s.to_string()).collect();
    assert_eq!(unique_chip_names(&names), vec!["a", "a_1", "a_1"]);
}
