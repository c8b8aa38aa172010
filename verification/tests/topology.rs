use machctrl::topology::{cpuinfo_blocks, group_sockets, CpuEntry};

const CPUINFO: &str = "processor\t: 0\n\
physical id\t: 1\n\
model name\t: Xeon B\n\
cpu MHz\t\t: 0.000\n\
\n\
processor\t: 1\n\
physical id\t: 0\n\
model name\t: Xeon A\n\
cpu MHz\t\t: 2400.123\n\
\n\
processor\t: x\n\
physical id\t: 0\n\
\n\
processor\t: 3\n\
\n\
processor\t: 2\n\
physical id\t: 1\n\
model name\t: Xeon B2\n\
cpu MHz\t\t: 1800.5\n";

#[test]
fn blocks_of_cpuinfo() {
    let b = cpuinfo_blocks(CPUINFO);
    assert_eq!(b.len(), 4);
    assert_eq!((b[0].processor, b[0].physical_id), (0, 1));
    assert_eq!(b[0].model, "Xeon B");
    assert_eq!(b[0].mhz_text.as_deref(), Some("0.000"));
    assert_eq!((b[1].processor, b[1].physical_id), (1, 0));
    assert_eq!(b[1].mhz_text.as_deref(), Some("2400.123"));
    // a block without physical id or model gets the defaults
    assert_eq!((b[2].processor, b[2].physical_id), (3, 0));
    assert_eq!(b[2].model, "CPU desconhecida");
    assert_eq!(b[2].mhz_text, None);
    assert_eq!(b[3].processor, 2);
    assert!(cpuinfo_blocks("").is_empty());
    assert!(cpuinfo_blocks("flags : fpu\n").is_empty());
}

fn entry(processor: usize, physical_id: usize, model: &str, freq_mhz: u64) -> CpuEntry {
    CpuEntry { processor, physical_id, model: model.to_string(), freq_mhz }
}

#[test]
fn sockets_grouped_and_sorted() {
    let s = group_sockets(vec![
        entry(5, 1, "B", 0),
        entry(3, 0, "A", 2400),
        entry(1, 1, "B2", 1800),
        entry(0, 0, "A2", 1000),
        entry(4, 1, "B3", 900),
    ]);
    assert_eq!(s.len(), 2);
    assert_eq!(s[0].socket_id, 0);
    assert_eq!(s[0].model, "A");
    assert_eq!(s[0].logical_ids, vec![0, 3]);
    assert_eq!(s[0].freq_mhz, 2400);
    assert_eq!(s[1].socket_id, 1);
    assert_eq!(s[1].model, "B");
    assert_eq!(s[1].logical_ids, vec![1, 4, 5]);
    // the first socket CPU had no frequency, the next one with a frequency gives it
    assert_eq!(s[1].freq_mhz, 1800);
    assert!(group_sockets(Vec::new()).is_empty());
}

#[test]
fn socket_keeps_repeated_cpu_numbers() {
    let s = group_sockets(vec![entry(2, 7, "M", 0), entry(2, 7, "M", 0), entry(1, 7, "M", 0)]);
    assert_eq!(s.len(), 1);
    assert_eq!(s[0].socket_id, 7);
    assert_eq!(s[0].logical_ids, vec![1, 2, 2]);
    assert_eq!(s[0].freq_mhz, 0);
}
