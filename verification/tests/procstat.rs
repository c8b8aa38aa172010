use machctrl::procstat::{
    cpu_core_count_from, cpu_cores_for_socket_from, cpu_model_from, cpuinfo_value, distro_name_from,
    freq_mhz_from_khz, meminfo_kb, parse_cpu_line, parse_net_dev, parse_proc_stat,
    parse_proc_stat_fields, parse_rss_kb, proc_info_from, stat_line_is_readable,
    top_processes_by_ram, usage_deltas, CpuTimes, ProcInfo,
};

fn times(v: [u64; 8]) -> CpuTimes {
    CpuTimes {
        user: v[0],
        nice: v[1],
        system: v[2],
        idle: v[3],
        iowait: v[4],
        irq: v[5],
        softirq: v[6],
        steal: v[7],
    }
}

const STAT: &str = "cpu  100 5 50 800 20 3 2 0 0 0\n\
cpu0 60 2 30 400 10 1 1 0 0 0\n\
cpu1 40 3 20 400 10 2 1 0 0 0\n\
intr 12345 0 0\n\
ctxt 999\n\
cpux 1 2 3\n\
cpu7 9\n";

#[test]
fn proc_stat_overall_and_cores() {
    let (overall, cores) = parse_proc_stat(STAT);
    assert_eq!(overall, times([100, 5, 50, 800, 20, 3, 2, 0]));
    assert_eq!(cores.len(), 3);
    assert_eq!(cores[&0], times([60, 2, 30, 400, 10, 1, 1, 0]));
    assert_eq!(cores[&1], times([40, 3, 20, 400, 10, 2, 1, 0]));
    // missing counters read as 0
    assert_eq!(cores[&7], times([9, 0, 0, 0, 0, 0, 0, 0]));
}

#[test]
fn proc_stat_later_core_line_wins() {
    let (_, cores) = parse_proc_stat("cpu1 1 1 1 1\ncpu1 2 2 2 2\ncpu0 3\n");
    assert_eq!(cores.len(), 2);
    assert_eq!(cores[&1], times([2, 2, 2, 2, 0, 0, 0, 0]));
    assert_eq!(cores[&0], times([3, 0, 0, 0, 0, 0, 0, 0]));
}

#[test]
fn proc_stat_without_cpu_lines() {
    let (overall, cores) = parse_proc_stat("intr 1\nctxt 2\n");
    assert_eq!(overall, CpuTimes::default());
    assert!(cores.is_empty());
    let (overall, cores) = parse_proc_stat("");
    assert_eq!(overall, times([0; 8]));
    assert!(cores.is_empty());
}

#[test]
fn cpu_line_fields() {
    assert_eq!(parse_cpu_line(&["1", "2", "3", "4", "5", "6", "7", "8", "9"]), times([1, 2, 3, 4, 5, 6, 7, 8]));
    assert_eq!(parse_cpu_line(&["1", "x", "+3", "-4"]), times([1, 0, 3, 0, 0, 0, 0, 0]));
    assert_eq!(parse_cpu_line(&[]), times([0; 8]));
}

#[test]
fn totals_and_usage_deltas() {
    let prev = times([100, 5, 50, 800, 20, 3, 2, 0]);
    let cur = times([150, 5, 70, 900, 30, 3, 2, 0]);
    assert_eq!(prev.total(), 980);
    assert_eq!(prev.busy(), 160);
    assert_eq!(usage_deltas(&prev, &cur), (70, 180));
    // counters that went back count as nothing
    assert_eq!(usage_deltas(&cur, &prev), (0, 0));
    assert_eq!(usage_deltas(&prev, &prev), (0, 0));
}

const CPUINFO: &str = "processor\t: 0\n\
physical id\t: 0\n\
model name\t: Intel(R) Xeon(R) CPU E5-2680 v4 @ 2.40GHz\n\
cpu MHz\t\t: 1200.000\n\
cpu cores\t: 14\n\
\n\
processor\t: 1\n\
physical id\t: 0\n\
model name\t: Intel(R) Xeon(R) CPU E5-2680 v4 @ 2.40GHz\n\
cpu cores\t: 14\n\
\n\
processor\t: 2\n\
physical id\t: 1\n\
model name\t: Intel(R) Xeon(R) CPU E5-2680 v4 @ 2.40GHz\n\
cpu cores\t: 12\n";

#[test]
fn cpu_model_and_values() {
    assert_eq!(cpu_model_from(Some(CPUINFO)), "Intel(R) Xeon(R) CPU E5-2680 v4 @ 2.40GHz");
    assert_eq!(cpu_model_from(Some("processor : 0\n")), "CPU desconhecida");
    assert_eq!(cpu_model_from(None), "CPU desconhecida");
    assert_eq!(cpuinfo_value(CPUINFO, "cpu MHz"), Some("1200.000".to_string()));
    assert_eq!(cpuinfo_value(CPUINFO, "flags"), None);
    // the value is the text between the first and second colon
    assert_eq!(cpuinfo_value("model name : a:b\n", "model name"), Some("a".to_string()));
}

#[test]
fn core_counts() {
    assert_eq!(cpu_core_count_from(Some(CPUINFO)), 3);
    assert_eq!(cpu_core_count_from(Some("")), 1);
    assert_eq!(cpu_core_count_from(None), 1);
}

#[test]
fn cores_for_socket() {
    assert_eq!(cpu_cores_for_socket_from(Some(CPUINFO), &[0, 1]), 14);
    assert_eq!(cpu_cores_for_socket_from(Some(CPUINFO), &[2]), 12);
    // no block lists a processor of the socket: the socket's own count
    assert_eq!(cpu_cores_for_socket_from(Some(CPUINFO), &[5, 6, 7]), 3);
    assert_eq!(cpu_cores_for_socket_from(Some(CPUINFO), &[]), 1);
    assert_eq!(cpu_cores_for_socket_from(None, &[0, 1]), 2);
}

#[test]
fn frequency_from_khz() {
    assert_eq!(freq_mhz_from_khz("2400000\n"), Some(2400));
    assert_eq!(freq_mhz_from_khz("  999 "), Some(0));
    assert_eq!(freq_mhz_from_khz("n/a"), None);
    assert_eq!(freq_mhz_from_khz(""), None);
}

#[test]
fn meminfo_totals() {
    let m = "MemTotal:       32768000 kB\nMemFree:        1000 kB\nMemAvailable:   16384000 kB\n";
    assert_eq!(meminfo_kb(m), (32_768_000, 16_384_000));
    assert_eq!(meminfo_kb("MemFree: 5 kB\n"), (0, 0));
    assert_eq!(meminfo_kb("MemTotal: x kB\nMemAvailable: 7 kB\n"), (0, 7));
}

#[test]
fn net_dev_adapters() {
    let content = "Inter-|   Receive                                                |  Transmit\n \
face |bytes    packets errs drop fifo frame compressed multicast|bytes    packets errs drop fifo colls carrier compressed\n    \
lo: 1000 10 0 0 0 0 0 0 1000 10 0 0 0 0 0 0\n  \
eth0: 123456 100 0 0 0 0 0 0 654321 90 0 0 0 0 0 0\n\
wlan0:5 1 0 0 0 0 0 0 7 1 0 0 0 0 0 0\n\
short: 1 2 3\n";
    let a = parse_net_dev(content);
    assert_eq!(a.len(), 2);
    assert_eq!(a[0].name, "eth0");
    assert_eq!(a[0].rx_bytes, 123_456);
    assert_eq!(a[0].tx_bytes, 654_321);
    assert_eq!(a[1].name, "wlan0");
    assert_eq!((a[1].rx_bytes, a[1].tx_bytes), (5, 7));
    // only headers
    assert!(parse_net_dev("a\nb\n").is_empty());
    assert!(parse_net_dev("").is_empty());
}

const PID_STAT: &str = "1234 (Web Content (x)) S 1 1234 1234 0 -1 4194560 100 0 0 0 250 75 0 0 20 0 30 0 5000 1000000 2000 0\n";

#[test]
fn stat_fields_with_parens_in_name() {
    assert!(stat_line_is_readable(PID_STAT));
    assert_eq!(parse_proc_stat_fields(PID_STAT), Some(("Web Content (x)".to_string(), 325)));
    // too few fields after the name
    assert!(stat_line_is_readable("1 (a) S 1 2 3\n"));
    assert_eq!(parse_proc_stat_fields("1 (a) S 1 2 3\n"), None);
    // no parentheses at all
    assert_eq!(parse_proc_stat_fields("garbage"), None);
}

#[test]
fn stat_lines_the_reader_cannot_take() {
    // ')' is the last character, or comes before '('
    assert!(!stat_line_is_readable("1 (a)"));
    assert!(!stat_line_is_readable(") x ( y"));
    // utime + stime overflow
    let big = format!("1 (a) S 1 1 1 0 -1 0 0 0 0 0 {} {} 0\n", u64::MAX, 1);
    assert!(!stat_line_is_readable(&big));
}

#[test]
fn rss_from_status() {
    let status = "Name:\tfirefox\nVmPeak:\t 100 kB\nVmRSS:\t  204800 kB\n";
    assert_eq!(parse_rss_kb(status), Some(204_800));
    assert_eq!(parse_rss_kb("Name: x\n"), None);
    assert_eq!(parse_rss_kb("VmRSS:\n"), None);
}

#[test]
fn process_info_from_files() {
    let p = proc_info_from(1234, Some(PID_STAT), Some("VmRSS: 512 kB\n")).unwrap();
    assert_eq!(p.pid, 1234);
    assert_eq!(p.name, "Web Content (x)");
    assert_eq!(p.rss_kb, 512);
    assert_eq!(p.cpu_ticks, 325);
    let p = proc_info_from(7, Some(PID_STAT), None).unwrap();
    assert_eq!(p.rss_kb, 0);
    assert!(proc_info_from(7, None, Some("VmRSS: 1 kB\n")).is_none());
    assert!(proc_info_from(7, Some("1 (a) S\n"), None).is_none());
}

fn proc(pid: u32, rss: u64) -> ProcInfo {
    ProcInfo { pid, name: format!("p{pid}"), rss_kb: rss, cpu_ticks: 0 }
}

#[test]
fn top_processes_largest_first_stable() {
    let procs = vec![proc(1, 10), proc(2, 50), proc(3, 10), proc(4, 70), proc(5, 50), proc(6, 0)];
    let top: Vec<u32> = top_processes_by_ram(procs, 4).iter().map(|p| p.pid).collect();
    assert_eq!(top, vec![4, 2, 5, 1]);
    let procs = vec![proc(1, 10), proc(2, 50)];
    let all: Vec<u32> = top_processes_by_ram(procs, 10).iter().map(|p| p.pid).collect();
    assert_eq!(all, vec![2, 1]);
    assert!(top_processes_by_ram(vec![proc(1, 1)], 0).is_empty());
    assert!(top_processes_by_ram(Vec::new(), 3).is_empty());
}

#[test]
fn distro_names() {
    let os = "NAME=\"Arch Linux\"\nPRETTY_NAME=\"Arch Linux\"\nID=arch\n";
    assert_eq!(distro_name_from(Some(os)), "Arch Linux");
    assert_eq!(distro_name_from(Some("PRETTY_NAME=Debian\n")), "Debian");
    assert_eq!(distro_name_from(Some("ID=x\n")), "Linux");
    assert_eq!(distro_name_from(None), "Linux");
    assert_eq!(distro_name_from(Some("PRETTY_NAME=\"\"\n")), "");
}

#[test]
fn counters_that_fit() {
    assert!(times([1, 2, 3, 4, 5, 6, 7, 8]).counters_fit());
    assert!(times([u64::MAX, 0, 0, 0, 0, 0, 0, 0]).counters_fit());
    assert!(!times([u64::MAX, 0, 0, 0, 0, 0, 0, 1]).counters_fit());
    assert!(!times([u64::MAX / 2, u64::MAX / 2, 0, 0, 0, 0, 2, 0]).counters_fit());
}
