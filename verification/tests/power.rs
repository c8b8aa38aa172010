use machctrl::power::{
    energy_delta, is_top_rapl_domain, names_package, sort_packages, RaplPackage, RaplReader,
};

fn pkg(domain: &str, max: Option<u64>) -> RaplPackage {
    RaplPackage {
        domain: domain.to_string(),
        energy_path: format!("/sys/class/powercap/{domain}/energy_uj"),
        max_range_uj: max,
    }
}

#[test]
fn rapl_domain_names() {
    assert!(is_top_rapl_domain("intel-rapl:0"));
    assert!(is_top_rapl_domain("intel-rapl:12"));
    assert!(!is_top_rapl_domain("intel-rapl:0:1"));
    assert!(!is_top_rapl_domain("intel-rapl"));
    assert!(!is_top_rapl_domain("amd-rapl:0"));
    assert!(names_package("package-0\n"));
    assert!(names_package("  package-1"));
    assert!(!names_package("dram\n"));
    assert!(!names_package("core"));
}

#[test]
fn energy_deltas_and_wraparound() {
    assert_eq!(energy_delta(1_000, 5_000, None), 4_000);
    assert_eq!(energy_delta(7, 7, Some(10)), 0);
    // wraparound against the counter's maximum
    assert_eq!(energy_delta(9_000, 500, Some(10_000)), 1_500);
    // unknown maximum: u32::MAX
    assert_eq!(energy_delta(u32::MAX as u64 - 10, 5, None), 15);
}

#[test]
fn packages_sorted_by_domain() {
    let sorted = sort_packages(vec![pkg("intel-rapl:1", None), pkg("intel-rapl:10", Some(5)), pkg("intel-rapl:0", Some(9))]);
    let names: Vec<&str> = sorted.iter().map(|p| p.domain.as_str()).collect();
    assert_eq!(names, vec!["intel-rapl:0", "intel-rapl:1", "intel-rapl:10"]);
    assert_eq!(sorted[0].max_range_uj, Some(9));
    assert!(sort_packages(Vec::new()).is_empty());
}

#[test]
fn reader_records_energy_per_package() {
    let mut r = RaplReader::new(vec![pkg("intel-rapl:1", Some(1_000)), pkg("intel-rapl:0", None)]);
    assert!(r.available());
    assert_eq!(r.package_count(), 2);
    assert_eq!(r.package_path(0), "/sys/class/powercap/intel-rapl:0/energy_uj");
    assert_eq!(r.package_path(1), "/sys/class/powercap/intel-rapl:1/energy_uj");

    // first reading: nothing to compare with
    assert!(r.can_record(&[Some(100), Some(900)]));
    assert!(r.record(&[Some(100), Some(900)]).is_empty());
    // package 1 wraps at its maximum of 1000
    assert!(r.can_record(&[Some(400), Some(50)]));
    assert_eq!(r.record(&[Some(400), Some(50)]), vec![300, 150]);
    // a package that cannot be read is skipped and keeps its previous reading
    assert_eq!(r.record(&[None, Some(60)]), vec![10]);
    assert_eq!(r.record(&[Some(450), None]), vec![50]);
    assert_eq!(r.record(&[Some(460), Some(70)]), vec![10, 10]);
    // wrong number of readings
    assert!(!r.can_record(&[Some(1)]));
}

#[test]
fn reader_refuses_readings_that_overflow() {
    let mut r = RaplReader::new(vec![pkg("intel-rapl:0", Some(100))]);
    assert!(r.record(&[Some(500)]).is_empty());
    // the previous reading is above the maximum: the wraparound difference would be negative
    assert!(!r.can_record(&[Some(10)]));
    assert!(r.can_record(&[Some(600)]));
}

#[test]
fn reader_without_packages() {
    let mut r = RaplReader::new(Vec::new());
    assert!(!r.available());
    assert_eq!(r.package_count(), 0);
    assert!(r.record(&[]).is_empty());
}

#[test]
fn repeated_reading_reports_nothing() {
    let mut r = RaplReader::new(vec![pkg("intel-rapl:0", None), pkg("intel-rapl:1", Some(50))]);
    assert!(r.record(&[Some(10), Some(20)]).is_empty());
    assert_eq!(r.record(&[Some(30), None]), vec![20]);
    assert_eq!(r.record(&[Some(30), None]), vec![0]);
    assert_eq!(r.record(&[Some(31), Some(20)]), vec![1, 0]);
    assert_eq!(r.record(&[Some(31), Some(20)]), vec![0, 0]);
}
