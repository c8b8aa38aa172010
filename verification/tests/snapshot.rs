use machctrl::procstat::NetAdapter;
use machctrl::snapshot::{
    build_core_temp_map, core_number_exec, core_temp_list, cpu_package_temp, net_deltas,
    is_coretemp_chip, is_package_label, push_history, TempSensor, HISTORY_LEN,
};
use machctrl::topology::SocketInfo;
use std::collections::{HashMap, VecDeque};

fn adapter(name: &str, rx: u64, tx: u64) -> NetAdapter {
    NetAdapter { name: name.to_string(), rx_bytes: rx, tx_bytes: tx }
}

#[test]
fn network_deltas_against_previous_reading() {
    let prev = vec![adapter("eth0", 1000, 500), adapter("wlan0", 10, 10)];
    let cur = vec![adapter("eth0", 4000, 600), adapter("wlan0", 5, 20), adapter("usb0", 77, 88)];
    let d = net_deltas(&cur, &prev);
    assert_eq!(d.len(), 3);
    assert_eq!((d[0].name.as_str(), d[0].rx_delta, d[0].tx_delta), ("eth0", 3000, 100));
    // a counter that went back gives 0
    assert_eq!((d[1].name.as_str(), d[1].rx_delta, d[1].tx_delta), ("wlan0", 0, 10));
    // an adapter absent from the previous reading shows no transfer
    assert_eq!((d[2].name.as_str(), d[2].rx_delta, d[2].tx_delta), ("usb0", 0, 0));
}

fn sensor(label: &str, value: f64, chip: &str) -> TempSensor<f64> {
    TempSensor { label: label.to_string(), value_c: value, chip: chip.to_string() }
}

#[test]
fn package_temperature_choice() {
    let temps = vec![sensor("Core 0", 40.0, "coretemp"), sensor("Package id 0", 55.0, "coretemp")];
    assert_eq!(cpu_package_temp(&temps), Some(55.0));
    let temps = vec![sensor("edge", 30.0, "amdgpu"), sensor("TCTL", 61.5, "k10temp"), sensor("Tdie", 60.0, "k10temp")];
    assert_eq!(cpu_package_temp(&temps), Some(61.5));
    let temps = vec![sensor("Core 0", 40.0, "coretemp"), sensor("Core 1", 42.0, "coretemp")];
    assert_eq!(cpu_package_temp(&temps), Some(40.0));
    assert_eq!(cpu_package_temp::<f64>(&[]), None);
}

#[test]
fn core_numbers_of_labels() {
    assert_eq!(core_number_exec("Core 3"), Some(3));
    assert_eq!(core_number_exec("CORE  12 "), Some(12));
    assert_eq!(core_number_exec("Core"), None);
    assert_eq!(core_number_exec("Corex 1"), None);
    assert_eq!(core_number_exec("Package id 0"), None);
}

fn socket(id: usize, logical: Vec<usize>) -> SocketInfo {
    SocketInfo { socket_id: id, model: "M".to_string(), logical_ids: logical, freq_mhz: 0 }
}

#[test]
fn core_temperatures_per_socket() {
    // two chips, two sockets with two threads per core
    let temps = vec![
        sensor("Core 1", 51.0, "coretemp-isa-0001"),
        sensor("Core 0", 50.0, "coretemp-isa-0001"),
        sensor("Core 0", 40.0, "coretemp-isa-0000"),
        sensor("Package id 0", 45.0, "coretemp-isa-0000"),
        sensor("Core 1", 41.0, "coretemp-isa-0000"),
    ];
    let sockets = vec![socket(0, vec![0, 1, 2, 3]), socket(1, vec![4, 5, 6, 7])];
    let a = build_core_temp_map(&temps, &sockets);
    // chips in name order; each chip's cores in core order
    let expected: HashMap<usize, f64> =
        [(0, 40.0), (1, 40.0), (2, 41.0), (3, 41.0), (4, 50.0), (5, 50.0), (6, 51.0), (7, 51.0)].into_iter().collect();
    assert_eq!(a, expected);
}

#[test]
fn core_temperatures_edge_cases() {
    let sockets = vec![socket(0, vec![0, 1, 2])];
    assert!(build_core_temp_map(&[sensor("edge", 1.0, "x")], &sockets).is_empty());
    assert!(build_core_temp_map(&[sensor("Core 0", 1.0, "x")], &[]).is_empty());
    // more chips than sockets: the extra chip uses the first socket, and as the later
    // chip it overwrites the first one's readings
    let temps = vec![sensor("Core 0", 1.0, "a"), sensor("Core 0", 2.0, "b")];
    let a = build_core_temp_map(&temps, &sockets);
    let expected: HashMap<usize, f64> = [(0, 2.0), (1, 2.0), (2, 2.0)].into_iter().collect();
    assert_eq!(a, expected);
    // more cores than CPUs: one thread per core, the rest left out
    let temps = vec![sensor("Core 0", 1.0, "a"), sensor("Core 1", 2.0, "a"), sensor("Core 2", 3.0, "a"), sensor("Core 3", 4.0, "a")];
    let a = build_core_temp_map(&temps, &sockets);
    let expected: HashMap<usize, f64> = [(0, 1.0), (1, 2.0), (2, 3.0)].into_iter().collect();
    assert_eq!(a, expected);
}

#[test]
fn core_temperature_list_for_logical_cpus() {
    let temps = vec![sensor("Core 1", 41.0, "c"), sensor("Core 0", 40.0, "c"), sensor("Package id 0", 45.0, "c")];
    assert_eq!(core_temp_list(&temps, 4), vec![Some(40.0), Some(40.0), Some(41.0), Some(41.0)]);
    assert_eq!(core_temp_list(&temps, 5), vec![Some(40.0), Some(40.0), Some(41.0), Some(41.0), None]);
    // cores are taken by rank in number order, so gaps in the numbering do not matter
    let temps = vec![sensor("Core 0", 50.0, "coretemp"), sensor("Core 4", 60.0, "coretemp")];
    assert_eq!(core_temp_list(&temps, 4), vec![Some(50.0), Some(50.0), Some(60.0), Some(60.0)]);
    // readings of the same core number from two chips are two cores, in sensor order
    let temps = vec![sensor("Core 0", 1.0, "a"), sensor("Core 0", 2.0, "b")];
    assert_eq!(core_temp_list(&temps, 2), vec![Some(1.0), Some(2.0)]);
    // more cores with a sensor than logical CPUs: one per CPU, the rest unused
    let temps = vec![sensor("Core 2", 3.0, "a"), sensor("Core 1", 2.0, "a"), sensor("Core 0", 1.0, "a")];
    assert_eq!(core_temp_list(&temps, 2), vec![Some(1.0), Some(2.0)]);
    // an odd split: 5 CPUs, 2 cores, 2 threads each, the fifth CPU uncovered
    let temps = vec![sensor("Core 9", 9.0, "a"), sensor("Core 3", 3.0, "a")];
    assert_eq!(core_temp_list(&temps, 5), vec![Some(3.0), Some(3.0), Some(9.0), Some(9.0), None]);
    assert_eq!(core_temp_list::<f64>(&[], 3), vec![None, None, None]);
}

#[test]
fn history_is_bounded() {
    let mut h: VecDeque<u32> = VecDeque::new();
    for v in 0..100u32 {
        push_history(&mut h, v);
        assert!(h.len() <= HISTORY_LEN);
        assert_eq!(h.back(), Some(&v));
    }
    assert_eq!(h.len(), 40);
    assert_eq!(h.front(), Some(&60));
    let mut small: VecDeque<u32> = VecDeque::from(vec![1, 2]);
    push_history(&mut small, 3);
    assert_eq!(small, VecDeque::from(vec![1, 2, 3]));
}

#[test]
fn a_reading_against_itself_shows_no_transfer() {
    let r = vec![adapter("eth0", 4000, 600), adapter("wlan0", 5, 20)];
    for d in net_deltas(&r, &r) {
        assert_eq!((d.rx_delta, d.tx_delta), (0, 0));
    }
    let later = vec![adapter("eth0", 4100, 650), adapter("wlan0", 5, 21)];
    let d = net_deltas(&later, &r);
    assert_eq!((d[0].rx_delta, d[0].tx_delta, d[1].rx_delta, d[1].tx_delta), (100, 50, 0, 1));
}

#[test]
fn package_labels_and_coretemp_chips() {
    assert!(is_package_label("Package id 0"));
    assert!(is_package_label("Tctl"));
    assert!(is_package_label("TDIE"));
    assert!(!is_package_label("Core 0"));
    assert!(is_coretemp_chip("coretemp"));
    assert!(is_coretemp_chip("CoreTemp_1"));
    assert!(!is_coretemp_chip("k10temp"));
}
