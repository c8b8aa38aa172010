//! Reading the text files of `/proc` and `/sys` that describe the CPU, memory,
//! network adapters, processes and the system: each function here takes the text
//! that was read and computes what the monitor shows.
use vstd::prelude::*;
use std::collections::HashMap;
use crate::text::{
    chars_eq_str, chars_of, colon_value, colon_value_exec, copy_chars, first_index,
    lemma_first_index_at, lemma_first_index_none, line_starting, line_starting_exec, lines,
    parse_u64, parse_u64_chars, parse_usize, parse_usize_chars, slice_chars, split_lines,
    split_nth, split_tokens, starts_with, starts_with_str, string_of, token_nth,
    token_nth_chars, tokens, trim, trim_chars, views,
};

verus! {

/// Cumulative CPU time counters of one line of `/proc/stat`, in clock ticks.
#[derive(Clone, Copy, Debug, PartialEq, Eq, Structural)]
pub struct CpuTimes {
    pub user: u64,
    pub nice: u64,
    pub system: u64,
    pub idle: u64,
    pub iowait: u64,
    pub irq: u64,
    pub softirq: u64,
    pub steal: u64,
}

impl Default for CpuTimes {
    fn default() -> (t: CpuTimes)
        ensures
            t == zero_times(),
    {
        CpuTimes { user: 0, nice: 0, system: 0, idle: 0, iowait: 0, irq: 0, softirq: 0, steal: 0 }
    }
}

pub open spec fn zero_times() -> CpuTimes {
    CpuTimes { user: 0, nice: 0, system: 0, idle: 0, iowait: 0, irq: 0, softirq: 0, steal: 0 }
}

/// Sum of all the counters.
pub open spec fn total_ticks(t: CpuTimes) -> int {
    t.user + t.nice + t.system + t.idle + t.iowait + t.irq + t.softirq + t.steal
}

/// Ticks spent neither idle nor waiting for I/O.
pub open spec fn busy_ticks(t: CpuTimes) -> int {
    total_ticks(t) - t.idle - t.iowait
}

impl CpuTimes {
    /// Whether the sum of the counters fits in `u64` (what `total` and `busy` need).
    pub fn counters_fit(&self) -> (b: bool)
        ensures
            b == (total_ticks(*self) <= u64::MAX),
    {
        let mut acc: u64 = self.user;
        let parts: [u64; 7] = [self.nice, self.system, self.idle, self.iowait, self.irq, self.softirq, self.steal];
        let mut i: usize = 0;
        while i < 7
            invariant
                i <= 7,
                parts@ == seq![self.nice, self.system, self.idle, self.iowait, self.irq, self.softirq, self.steal],
                acc == self.user + (if i > 0 { parts@[0] as int } else { 0 }) + (if i > 1 { parts@[1] as int } else { 0 })
                    + (if i > 2 { parts@[2] as int } else { 0 }) + (if i > 3 { parts@[3] as int } else { 0 })
                    + (if i > 4 { parts@[4] as int } else { 0 }) + (if i > 5 { parts@[5] as int } else { 0 })
                    + (if i > 6 { parts@[6] as int } else { 0 }),
            decreases 7 - i,
        {
            if parts[i] > u64::MAX - acc {
                return false;
            }
            acc = acc + parts[i];
            i = i + 1;
        }
        true
    }

    pub fn total(&self) -> (r: u64)
        requires
            total_ticks(*self) <= u64::MAX,
        ensures
            r == total_ticks(*self),
    {
        self.user + self.nice + self.system + self.idle + self.iowait + self.irq + self.softirq
            + self.steal
    }

    pub fn busy(&self) -> (r: u64)
        requires
            total_ticks(*self) <= u64::MAX,
        ensures
            r == busy_ticks(*self),
    {
        self.total() - self.idle - self.iowait
    }
}

/// Busy and total ticks elapsed between two readings; a counter that went back
/// counts as 0.
pub open spec fn usage_deltas_spec(prev: CpuTimes, cur: CpuTimes) -> (u64, u64) {
    let total = if total_ticks(cur) >= total_ticks(prev) {
        total_ticks(cur) - total_ticks(prev)
    } else {
        0
    };
    let busy = if busy_ticks(cur) >= busy_ticks(prev) {
        busy_ticks(cur) - busy_ticks(prev)
    } else {
        0
    };
    (busy as u64, total as u64)
}

/// Busy and total ticks between two readings (the integer part of the usage
/// percentage: usage is busy / total, 0 when total is 0).
pub fn usage_deltas(prev: &CpuTimes, cur: &CpuTimes) -> (r: (u64, u64))
    requires
        total_ticks(*prev) <= u64::MAX,
        total_ticks(*cur) <= u64::MAX,
    ensures
        r == usage_deltas_spec(*prev, *cur),
{
    let total = cur.total().saturating_sub(prev.total());
    let busy = cur.busy().saturating_sub(prev.busy());
    (busy, total)
}

/// Every counter of `cur` is at least the same counter of `prev`.
pub open spec fn counters_grew(prev: CpuTimes, cur: CpuTimes) -> bool {
    &&& prev.user <= cur.user
    &&& prev.nice <= cur.nice
    &&& prev.system <= cur.system
    &&& prev.idle <= cur.idle
    &&& prev.iowait <= cur.iowait
    &&& prev.irq <= cur.irq
    &&& prev.softirq <= cur.softirq
    &&& prev.steal <= cur.steal
}

/// Between two readings whose counters only grew, the busy ticks are the busy part
/// of the elapsed ticks: usage stays within 0..100 %, and it is 0 % exactly when no
/// busy tick passed.
pub proof fn law_usage_within_bounds(prev: CpuTimes, cur: CpuTimes)
    requires
        counters_grew(prev, cur),
        total_ticks(cur) <= u64::MAX,
    ensures
        usage_deltas_spec(prev, cur).0 <= usage_deltas_spec(prev, cur).1,
        usage_deltas_spec(prev, cur).0 == busy_ticks(cur) - busy_ticks(prev),
        usage_deltas_spec(prev, cur).1 == total_ticks(cur) - total_ticks(prev),
{
}

/// The `i`-th field parsed as `u64`, 0 when it is missing or not a number.
pub open spec fn u64_field(fs: Seq<Seq<char>>, i: int) -> u64 {
    if 0 <= i < fs.len() {
        match parse_u64(fs[i]) {
            Some(v) => v,
            None => 0,
        }
    } else {
        0
    }
}

/// The counters of a `/proc/stat` CPU line, from its fields after the tag.
pub open spec fn times_from_fields(fs: Seq<Seq<char>>) -> CpuTimes {
    CpuTimes {
        user: u64_field(fs, 0),
        nice: u64_field(fs, 1),
        system: u64_field(fs, 2),
        idle: u64_field(fs, 3),
        iowait: u64_field(fs, 4),
        irq: u64_field(fs, 5),
        softirq: u64_field(fs, 6),
        steal: u64_field(fs, 7),
    }
}

pub open spec fn str_views(fields: Seq<&str>) -> Seq<Seq<char>> {
    Seq::new(fields.len(), |i: int| fields[i]@)
}

fn u64_field_exec(fs: &Vec<Vec<char>>, i: usize) -> (r: u64)
    ensures
        r == u64_field(views(fs@), i as int),
{
    if i < fs.len() {
        assert(views(fs@)[i as int] == fs@[i as int]@);
        match parse_u64_chars(fs[i].as_slice()) {
            Some(v) => v,
            None => 0,
        }
    } else {
        0
    }
}

fn times_from_tokens(fs: &Vec<Vec<char>>) -> (t: CpuTimes)
    ensures
        t == times_from_fields(views(fs@)),
{
    CpuTimes {
        user: u64_field_exec(fs, 0),
        nice: u64_field_exec(fs, 1),
        system: u64_field_exec(fs, 2),
        idle: u64_field_exec(fs, 3),
        iowait: u64_field_exec(fs, 4),
        irq: u64_field_exec(fs, 5),
        softirq: u64_field_exec(fs, 6),
        steal: u64_field_exec(fs, 7),
    }
}

/// The counters of a `/proc/stat` CPU line from its fields after the tag: user,
/// nice, system, idle, iowait, irq, softirq, steal; a missing or malformed field is 0.
pub fn parse_cpu_line(fields: &[&str]) -> (t: CpuTimes)
    ensures
        t == times_from_fields(str_views(fields@)),
{
    let mut fs: Vec<Vec<char>> = Vec::new();
    let mut i: usize = 0;
    while i < fields.len()
        invariant
            i <= fields.len(),
            views(fs@) == str_views(fields@).take(i as int),
        decreases fields.len() - i,
    {
        let c = chars_of(fields[i]);
        let ghost before = views(fs@);
        fs.push(c);
        assert(views(fs@) =~= before.push(fields@[i as int]@));
        i = i + 1;
        assert(views(fs@) =~= str_views(fields@).take(i as int));
    }
    assert(str_views(fields@).take(fields.len() as int) =~= str_views(fields@));
    times_from_tokens(&fs)
}

/// A line of `/proc/stat` that holds CPU counters: it starts with `"cpu"`.
pub open spec fn is_cpu_line(l: Seq<char>) -> bool {
    starts_with(l, "cpu"@)
}

/// The aggregate counters: those of the last line tagged exactly `cpu`, zero when
/// there is none.
pub open spec fn stat_overall(ls: Seq<Seq<char>>) -> CpuTimes
    decreases ls.len(),
{
    if ls.len() == 0 {
        zero_times()
    } else if is_cpu_line(ls.last()) && tokens(ls.last()).len() > 0 && tokens(ls.last())[0]
        == "cpu"@ {
        times_from_fields(tokens(ls.last()).skip(1))
    } else {
        stat_overall(ls.drop_last())
    }
}

/// The core number of a tag `cpuN`.
pub open spec fn core_index(tag: Seq<char>) -> Option<usize> {
    if starts_with(tag, "cpu"@) {
        parse_usize(tag.skip(3))
    } else {
        None
    }
}

/// The per-core entry of a line, if it is a `cpuN` line.
pub open spec fn core_entry(l: Seq<char>) -> Option<(usize, CpuTimes)> {
    if is_cpu_line(l) && tokens(l).len() > 0 && tokens(l)[0] != "cpu"@ {
        match core_index(tokens(l)[0]) {
            Some(n) => Some((n, times_from_fields(tokens(l).skip(1)))),
            None => None,
        }
    } else {
        None
    }
}

/// The per-core counters, in the order of the lines.
pub open spec fn stat_cores(ls: Seq<Seq<char>>) -> Seq<(usize, CpuTimes)>
    decreases ls.len(),
{
    if ls.len() == 0 {
        seq![]
    } else {
        let p = stat_cores(ls.drop_last());
        match core_entry(ls.last()) {
            Some(e) => p.push(e),
            None => p,
        }
    }
}

/// The counters of each core, a later entry for the same core replacing an earlier one.
pub open spec fn core_map(s: Seq<(usize, CpuTimes)>) -> Map<usize, CpuTimes>
    decreases s.len(),
{
    if s.len() == 0 {
        Map::empty()
    } else {
        core_map(s.drop_last()).insert(s.last().0, s.last().1)
    }
}

/// `/proc/stat`: the aggregate `cpu` counters, and the `cpuN` counters by core number
/// (a later line for the same core replaces an earlier one).
pub fn parse_proc_stat(content: &str) -> (r: (CpuTimes, HashMap<usize, CpuTimes>))
    ensures
        r.0 == stat_overall(lines(content@)),
        r.1@ == core_map(stat_cores(lines(content@))),
{
    broadcast use vstd::std_specs::hash::group_hash_axioms;
    let cs = chars_of(content);
    let ls = split_lines(cs.as_slice());
    let mut overall = CpuTimes { user: 0, nice: 0, system: 0, idle: 0, iowait: 0, irq: 0, softirq: 0, steal: 0 };
    let mut cores: HashMap<usize, CpuTimes> = HashMap::new();
    let mut i: usize = 0;
    proof {
        reveal_strlit("cpu");
        assert(views(ls@).take(0) =~= Seq::<Seq<char>>::empty());
    }
    while i < ls.len()
        invariant
            i <= ls.len(),
            overall == stat_overall(views(ls@).take(i as int)),
            cores@ == core_map(stat_cores(views(ls@).take(i as int))),
        decreases ls.len() - i,
    {
        let ghost prev = views(ls@).take(i as int);
        let ghost l = ls@[i as int]@;
        assert(views(ls@).take(i + 1).drop_last() =~= prev);
        assert(views(ls@).take(i + 1).last() == l);
        proof {
            reveal_strlit("cpu");
        }
        let line = ls[i].as_slice();
        if starts_with_str(line, "cpu") {
            let toks = split_tokens(line);
            if toks.len() > 0 {
                assert(views(toks@)[0] == toks@[0]@);
                let rest_toks = tail_tokens(&toks);
                if chars_eq_str(toks[0].as_slice(), "cpu") {
                    overall = times_from_tokens(&rest_toks);
                } else {
                    let tag = toks[0].as_slice();
                    let ghost tagv = tag@;
                    if starts_with_str(tag, "cpu") {
                        let num = slice_chars(tag, 3, tag.len());
                        assert(num@ =~= tagv.skip(3));
                        match parse_usize_chars(num.as_slice()) {
                            Some(n) => {
                                let t = times_from_tokens(&rest_toks);
                                cores.insert(n, t);
                                proof {
                                    assert(stat_cores(views(ls@).take(i + 1)) == stat_cores(prev).push((n, t)));
                                    assert(stat_cores(prev).push((n, t)).drop_last() =~= stat_cores(prev));
                                }
                            },
                            None => {},
                        }
                    }
                }
            }
        }
        i = i + 1;
    }
    assert(views(ls@).take(ls.len() as int) =~= views(ls@));
    (overall, cores)
}

/// All the words but the first.
fn tail_tokens(toks: &Vec<Vec<char>>) -> (r: Vec<Vec<char>>)
    requires
        toks.len() > 0,
    ensures
        views(r@) == views(toks@).skip(1),
{
    let mut r: Vec<Vec<char>> = Vec::new();
    let mut i: usize = 1;
    while i < toks.len()
        invariant
            1 <= i <= toks.len(),
            views(r@) == views(toks@).subrange(1, i as int),
        decreases toks.len() - i,
    {
        let c = copy_chars(toks[i].as_slice());
        let ghost before = views(r@);
        r.push(c);
        assert(views(r@) =~= before.push(toks@[i as int]@));
        i = i + 1;
        assert(views(r@) =~= views(toks@).subrange(1, i as int));
    }
    assert(views(toks@).subrange(1, toks.len() as int) =~= views(toks@).skip(1));
    r
}

/// The text after the first `':'` of the first line starting with `key`, or
/// `default` when there is no such line, no `':'` or no text at all.
pub open spec fn colon_value_or(content: Option<Seq<char>>, key: Seq<char>, default: Seq<char>) -> Seq<char> {
    match content {
        Some(c) => match colon_value(c, key) {
            Some(v) => v,
            None => default,
        },
        None => default,
    }
}

/// The CPU model named by `/proc/cpuinfo` (its first `model name` line), or
/// `"CPU desconhecida"` when the file could not be read or names none.
pub fn cpu_model_from(cpuinfo: Option<&str>) -> (m: String)
    ensures
        m@ == colon_value_or(
            match cpuinfo {
                Some(c) => Some(c@),
                None => None,
            },
            "model name"@,
            "CPU desconhecida"@,
        ),
{
    match cpuinfo {
        Some(c) => {
            let cs = chars_of(c);
            match colon_value_exec(cs.as_slice(), "model name") {
                Some(v) => string_of(v.as_slice()),
                None => "CPU desconhecida".to_string(),
            }
        },
        None => "CPU desconhecida".to_string(),
    }
}

/// The text of the first `key` line of `/proc/cpuinfo`, after its `':'`, trimmed
/// (such as the `cpu MHz` value).
pub fn cpuinfo_value(cpuinfo: &str, key: &str) -> (r: Option<String>)
    ensures
        r matches Some(v) ==> colon_value(cpuinfo@, key@) == Some(v@),
        r is None ==> colon_value(cpuinfo@, key@) is None,
{
    let cs = chars_of(cpuinfo);
    match colon_value_exec(cs.as_slice(), key) {
        Some(v) => Some(string_of(v.as_slice())),
        None => None,
    }
}

/// The current frequency in MHz from a `scaling_cur_freq` file (kHz).
pub open spec fn mhz_from_khz_text(text: Seq<char>) -> Option<u64> {
    match parse_u64(trim(text)) {
        Some(khz) => Some((khz / 1000) as u64),
        None => None,
    }
}

pub fn freq_mhz_from_khz(text: &str) -> (r: Option<u64>)
    ensures
        r == mhz_from_khz_text(text@),
{
    let cs = chars_of(text);
    let t = trim_chars(cs.as_slice());
    match parse_u64_chars(t.as_slice()) {
        Some(khz) => Some(khz / 1000),
        None => None,
    }
}

/// Number of lines of `ls` that start with `key`.
pub open spec fn count_starting(ls: Seq<Seq<char>>, key: Seq<char>) -> nat
    decreases ls.len(),
{
    if ls.len() == 0 {
        0
    } else {
        count_starting(ls.drop_last(), key) + if starts_with(ls.last(), key) {
            1nat
        } else {
            0nat
        }
    }
}

pub proof fn lemma_count_starting_le(ls: Seq<Seq<char>>, key: Seq<char>)
    ensures
        count_starting(ls, key) <= ls.len(),
    decreases ls.len(),
{
    if ls.len() > 0 {
        lemma_count_starting_le(ls.drop_last(), key);
    }
}

/// Number of logical CPUs: the `processor` lines of `/proc/cpuinfo`, at least 1;
/// 1 when the file could not be read.
pub open spec fn core_count_spec(cpuinfo: Option<Seq<char>>) -> nat {
    match cpuinfo {
        Some(c) => {
            let n = count_starting(lines(c), "processor"@);
            if n >= 1 {
                n
            } else {
                1
            }
        },
        None => 1,
    }
}

pub fn cpu_core_count_from(cpuinfo: Option<&str>) -> (n: usize)
    ensures
        n == core_count_spec(match cpuinfo {
            Some(c) => Some(c@),
            None => None,
        }),
{
    match cpuinfo {
        Some(c) => {
            let cs = chars_of(c);
            let ls = split_lines(cs.as_slice());
            let mut n: usize = 0;
            let mut i: usize = 0;
            proof {
                assert(views(ls@).take(0) =~= Seq::<Seq<char>>::empty());
            }
            while i < ls.len()
                invariant
                    i <= ls.len(),
                    n == count_starting(views(ls@).take(i as int), "processor"@),
                    n <= i,
                decreases ls.len() - i,
            {
                assert(views(ls@).take(i + 1).drop_last() =~= views(ls@).take(i as int));
                assert(views(ls@).take(i + 1).last() == ls@[i as int]@);
                if starts_with_str(ls[i].as_slice(), "processor") {
                    n = n + 1;
                }
                i = i + 1;
            }
            assert(views(ls@).take(ls.len() as int) =~= views(ls@));
            if n >= 1 {
                n
            } else {
                1
            }
        },
        None => 1,
    }
}

/// The number in the second word of a `Name: value kB` line, 0 when missing.
pub open spec fn second_word_u64(l: Seq<char>) -> u64 {
    match token_nth(l, 1) {
        Some(t) => match parse_u64(t) {
            Some(v) => v,
            None => 0,
        },
        None => 0,
    }
}

/// The `MemTotal:` value (kB) of the last such line, 0 when none.
pub open spec fn mem_total_kb(ls: Seq<Seq<char>>) -> u64
    decreases ls.len(),
{
    if ls.len() == 0 {
        0
    } else if starts_with(ls.last(), "MemTotal:"@) {
        second_word_u64(ls.last())
    } else {
        mem_total_kb(ls.drop_last())
    }
}

/// The `MemAvailable:` value (kB) of the last such line, 0 when none.
pub open spec fn mem_available_kb(ls: Seq<Seq<char>>) -> u64
    decreases ls.len(),
{
    if ls.len() == 0 {
        0
    } else if !starts_with(ls.last(), "MemTotal:"@) && starts_with(ls.last(), "MemAvailable:"@) {
        second_word_u64(ls.last())
    } else {
        mem_available_kb(ls.drop_last())
    }
}

fn second_word_u64_exec(l: &[char]) -> (r: u64)
    ensures
        r == second_word_u64(l@),
{
    match token_nth_chars(l, 1) {
        Some(t) => match parse_u64_chars(t.as_slice()) {
            Some(v) => v,
            None => 0,
        },
        None => 0,
    }
}

/// `/proc/meminfo`: total and available memory in kB.
pub fn meminfo_kb(content: &str) -> (r: (u64, u64))
    ensures
        r == (mem_total_kb(lines(content@)), mem_available_kb(lines(content@))),
{
    let cs = chars_of(content);
    let ls = split_lines(cs.as_slice());
    let mut total: u64 = 0;
    let mut avail: u64 = 0;
    let mut i: usize = 0;
    proof {
        assert(views(ls@).take(0) =~= Seq::<Seq<char>>::empty());
    }
    while i < ls.len()
        invariant
            i <= ls.len(),
            total == mem_total_kb(views(ls@).take(i as int)),
            avail == mem_available_kb(views(ls@).take(i as int)),
        decreases ls.len() - i,
    {
        assert(views(ls@).take(i + 1).drop_last() =~= views(ls@).take(i as int));
        assert(views(ls@).take(i + 1).last() == ls@[i as int]@);
        let l = ls[i].as_slice();
        if starts_with_str(l, "MemTotal:") {
            total = second_word_u64_exec(l);
        } else if starts_with_str(l, "MemAvailable:") {
            avail = second_word_u64_exec(l);
        }
        i = i + 1;
    }
    assert(views(ls@).take(ls.len() as int) =~= views(ls@));
    (total, avail)
}

/// Byte counters of one network adapter from `/proc/net/dev`.
#[derive(Clone, Debug)]
pub struct NetAdapter {
    pub name: String,
    pub rx_bytes: u64,
    pub tx_bytes: u64,
}

pub struct NetAdapterView {
    pub name: Seq<char>,
    pub rx_bytes: u64,
    pub tx_bytes: u64,
}

impl View for NetAdapter {
    type V = NetAdapterView;

    open spec fn view(&self) -> NetAdapterView {
        NetAdapterView { name: self.name@, rx_bytes: self.rx_bytes, tx_bytes: self.tx_bytes }
    }
}

pub open spec fn adapter_views(v: Seq<NetAdapter>) -> Seq<NetAdapterView> {
    Seq::new(v.len(), |i: int| v[i]@)
}

/// The adapter of one line of `/proc/net/dev` (`name: rx_bytes ... tx_bytes ...`):
/// none for a line without `':'`, for the loopback `lo`, or when the 1st or 9th
/// counter is missing or not a number.
pub open spec fn net_line(l: Seq<char>) -> Option<NetAdapterView> {
    match crate::text::find(l, seq![':']) {
        Some(i) => {
            let name = trim(l.take(i));
            let fs = tokens(l.skip(i + 1));
            if name == "lo"@ || fs.len() < 9 {
                None
            } else {
                match (parse_u64(fs[0]), parse_u64(fs[8])) {
                    (Some(rx), Some(tx)) => Some(NetAdapterView { name, rx_bytes: rx, tx_bytes: tx }),
                    _ => None,
                }
            }
        },
        None => None,
    }
}

/// The adapters of the lines of `ls`, in order.
pub open spec fn net_lines(ls: Seq<Seq<char>>) -> Seq<NetAdapterView>
    decreases ls.len(),
{
    if ls.len() == 0 {
        seq![]
    } else {
        let p = net_lines(ls.drop_last());
        match net_line(ls.last()) {
            Some(a) => p.push(a),
            None => p,
        }
    }
}

fn net_line_exec(l: &[char]) -> (r: Option<NetAdapter>)
    ensures
        r matches Some(a) ==> net_line(l@) == Some(a@),
        r is None ==> net_line(l@) is None,
{
    let colon: Vec<char> = vec![':'];
    assert(colon@ =~= seq![':']);
    match crate::text::find_chars(l, colon.as_slice()) {
        Some(i) => {
            assert(crate::text::occurs_at(l@, colon@, i as int));
            assert(i + 1 <= l.len());
            let before = slice_chars(l, 0, i);
            let name = trim_chars(before.as_slice());
            let after = slice_chars(l, i + 1, l.len());
            assert(after@ =~= l@.skip(i + 1));
            let fs = split_tokens(after.as_slice());
            if chars_eq_str(name.as_slice(), "lo") || fs.len() < 9 {
                return None;
            }
            assert(views(fs@)[0] == fs@[0]@);
            assert(views(fs@)[8] == fs@[8]@);
            match (parse_u64_chars(fs[0].as_slice()), parse_u64_chars(fs[8].as_slice())) {
                (Some(rx), Some(tx)) => Some(
                    NetAdapter { name: string_of(name.as_slice()), rx_bytes: rx, tx_bytes: tx },
                ),
                _ => None,
            }
        },
        None => None,
    }
}

/// The lines after the two header lines.
pub open spec fn after_headers(ls: Seq<Seq<char>>) -> Seq<Seq<char>> {
    if ls.len() <= 2 {
        seq![]
    } else {
        ls.skip(2)
    }
}

/// `/proc/net/dev`: the adapters listed after the two header lines, loopback left out.
pub fn parse_net_dev(content: &str) -> (r: Vec<NetAdapter>)
    ensures
        adapter_views(r@) == net_lines(after_headers(lines(content@))),
{
    let cs = chars_of(content);
    let ls = split_lines(cs.as_slice());
    let mut out: Vec<NetAdapter> = Vec::new();
    if ls.len() <= 2 {
        return out;
    }
    let ghost body = views(ls@).skip(2);
    let mut i: usize = 2;
    assert(body.take(0) =~= Seq::<Seq<char>>::empty());
    while i < ls.len()
        invariant
            2 <= i <= ls.len(),
            body == views(ls@).skip(2),
            adapter_views(out@) == net_lines(body.take(i - 2)),
        decreases ls.len() - i,
    {
        assert(body.take(i - 1).drop_last() =~= body.take(i - 2));
        assert(body.take(i - 1).last() == ls@[i as int]@);
        let ghost before = adapter_views(out@);
        match net_line_exec(ls[i].as_slice()) {
            Some(a) => {
                out.push(a);
                assert(adapter_views(out@) =~= before.push(net_line(ls@[i as int]@)->0));
            },
            None => {},
        }
        i = i + 1;
    }
    assert(body.take(ls.len() - 2) =~= body);
    out
}

/// Index of the first `c` in `s`.
#[verifier::opaque]
pub open spec fn first_pos(s: Seq<char>, c: char) -> Option<int> {
    first_index(s, |x: char| x == c)
}

/// Index of the last `c` in `s`.
#[verifier::opaque]
pub open spec fn last_pos(s: Seq<char>, c: char) -> Option<int> {
    if exists|i: int| 0 <= i < s.len() && s[i] == c {
        Some(choose|i: int| 0 <= i < s.len() && s[i] == c && forall|j: int| i < j < s.len() ==> s[j] != c)
    } else {
        None
    }
}

/// utime and stime: the 12th and 13th words after the character that follows the
/// `')'` at index `c`.
pub open spec fn stat_counters(s: Seq<char>, c: int) -> Option<(u64, u64)> {
    let rest = tokens(s.skip(c + 2));
    if rest.len() < 13 {
        None
    } else {
        match (parse_u64(rest[11]), parse_u64(rest[12])) {
            (Some(u), Some(t)) => Some((u, t)),
            _ => None,
        }
    }
}

/// Name and utime + stime of a `/proc/PID/stat` line: the name is between the first
/// `'('` and the last `')'`; the counters are the 12th and 13th words after the
/// character that follows that `')'`.
pub open spec fn stat_fields(s: Seq<char>) -> Option<(Seq<char>, nat)> {
    match (last_pos(s, ')'), first_pos(s, '(')) {
        (Some(c), Some(o)) => match stat_counters(s, c) {
            Some((u, t)) => Some((s.subrange(o + 1, c), (u + t) as nat)),
            None => None,
        },
        _ => None,
    }
}

fn stat_counters_exec(s: &[char], c: usize) -> (r: Option<(u64, u64)>)
    requires
        c + 2 <= s.len(),
    ensures
        r == stat_counters(s@, c as int),
{
    let tail = slice_chars(s, c + 2, s.len());
    assert(tail@ =~= s@.skip(c + 2));
    let rest = split_tokens(tail.as_slice());
    if rest.len() < 13 {
        return None;
    }
    assert(views(rest@)[11] == rest@[11]@);
    assert(views(rest@)[12] == rest@[12]@);
    match (parse_u64_chars(rest[11].as_slice()), parse_u64_chars(rest[12].as_slice())) {
        (Some(u), Some(t)) => Some((u, t)),
        _ => None,
    }
}

/// The inputs on which reading the stat line stays within the text: with both
/// parentheses present, the `'('` comes before the `')'` and the `')'` is followed
/// by an ASCII character; and the sum of the two counters fits in `u64`.
pub open spec fn stat_line_readable(s: Seq<char>) -> bool {
    &&& match (last_pos(s, ')'), first_pos(s, '(')) {
        (Some(c), Some(o)) => o + 1 <= c && c + 1 < s.len() && (s[c + 1] as u32) < 128,
        _ => true,
    }
    &&& match stat_fields(s) {
        Some((_, t)) => t <= u64::MAX,
        None => true,
    }
}

fn first_pos_exec(s: &[char], c: char) -> (r: Option<usize>)
    ensures
        r matches Some(i) ==> first_pos(s@, c) == Some(i as int) && i < s@.len() && s@[i as int] == c,
        r is None ==> first_pos(s@, c) is None,
{
    reveal(first_pos);
    let ghost p = |x: char| x == c;
    let mut i: usize = 0;
    while i < s.len()
        invariant
            i <= s.len(),
            p == (|x: char| x == c),
            forall|j: int| 0 <= j < i ==> !p(#[trigger] s@[j]),
        decreases s.len() - i,
    {
        if s[i] == c {
            proof {
                reveal(first_pos);
                lemma_first_index_at(s@, p, i as int);
            }
            return Some(i);
        }
        i = i + 1;
    }
    proof {
        reveal(first_pos);
        lemma_first_index_none(s@, p);
    }
    None
}

fn last_pos_exec(s: &[char], c: char) -> (r: Option<usize>)
    ensures
        r matches Some(i) ==> last_pos(s@, c) == Some(i as int) && i < s@.len() && s@[i as int] == c,
        r is None ==> last_pos(s@, c) is None,
{
    reveal(last_pos);
    let mut k: usize = s.len();
    while k > 0
        invariant
            k <= s.len(),
            forall|j: int| k <= j < s.len() ==> s@[j] != c,
        decreases k,
    {
        if s[k - 1] == c {
            proof {
                reveal(last_pos);
                let i = (k - 1) as int;
                let w = choose|w: int|
                    0 <= w < s@.len() && s@[w] == c && forall|j: int| w < j < s@.len() ==> s@[j] != c;
                assert(0 <= w < s@.len() && s@[w] == c && forall|j: int| w < j < s@.len() ==> s@[j] != c);
                if w < i {
                    assert(s@[i] != c);
                } else if w > i {
                }
            }
            return Some(k - 1);
        }
        k = k - 1;
    }
    None
}

/// Whether `stat_line_readable` holds of `content`; a caller that gets `false` is
/// holding text that the stat reader cannot take.
pub fn stat_line_is_readable(content: &str) -> (r: bool)
    ensures
        r == stat_line_readable(content@),
{
    let s = chars_of(content);
    match (last_pos_exec(s.as_slice(), ')'), first_pos_exec(s.as_slice(), '(')) {
        (Some(c), Some(o)) => {
            if !(o < c && c < s.len() - 1 && (s[c + 1] as u32) < 128) {
                return false;
            }
            match stat_counters_exec(s.as_slice(), c) {
                Some((u, t)) => u <= u64::MAX - t,
                None => true,
            }
        },
        _ => true,
    }
}

/// Name and accumulated CPU ticks (utime + stime) of a `/proc/PID/stat` line.
pub fn parse_proc_stat_fields(content: &str) -> (r: Option<(String, u64)>)
    requires
        stat_line_readable(content@),
    ensures
        r matches Some((n, t)) ==> stat_fields(content@) == Some((n@, t as nat)),
        r is None ==> stat_fields(content@) is None,
{
    let s = chars_of(content);
    let c = match last_pos_exec(s.as_slice(), ')') {
        Some(c) => c,
        None => return None,
    };
    let o = match first_pos_exec(s.as_slice(), '(') {
        Some(o) => o,
        None => return None,
    };
    let name = slice_chars(s.as_slice(), o + 1, c);
    match stat_counters_exec(s.as_slice(), c) {
        Some((u, t)) => Some((string_of(name.as_slice()), u + t)),
        None => None,
    }
}

/// The resident set size (kB) of a `/proc/PID/status` text: the second word of its
/// first `VmRSS:` line.
pub open spec fn rss_kb_spec(s: Seq<char>) -> Option<u64> {
    match line_starting(lines(s), "VmRSS:"@) {
        Some(i) => match token_nth(lines(s)[i], 1) {
            Some(t) => parse_u64(t),
            None => None,
        },
        None => None,
    }
}

pub fn parse_rss_kb(content: &str) -> (r: Option<u64>)
    ensures
        r == rss_kb_spec(content@),
{
    let cs = chars_of(content);
    let ls = split_lines(cs.as_slice());
    match line_starting_exec(&ls, "VmRSS:") {
        Some(i) => {
            assert(views(ls@)[i as int] == ls@[i as int]@);
            match token_nth_chars(ls[i].as_slice(), 1) {
                Some(t) => parse_u64_chars(t.as_slice()),
                None => None,
            }
        },
        None => None,
    }
}

/// One process: pid, name, resident memory (kB) and accumulated CPU ticks.
pub struct ProcInfo {
    pub pid: u32,
    pub name: String,
    pub rss_kb: u64,
    pub cpu_ticks: u64,
}

pub struct ProcInfoView {
    pub pid: u32,
    pub name: Seq<char>,
    pub rss_kb: u64,
    pub cpu_ticks: u64,
}

impl View for ProcInfo {
    type V = ProcInfoView;

    open spec fn view(&self) -> ProcInfoView {
        ProcInfoView { pid: self.pid, name: self.name@, rss_kb: self.rss_kb, cpu_ticks: self.cpu_ticks }
    }
}

pub open spec fn proc_views(v: Seq<ProcInfo>) -> Seq<ProcInfoView> {
    Seq::new(v.len(), |i: int| v[i]@)
}

pub open spec fn opt_str(o: Option<&str>) -> Option<Seq<char>> {
    match o {
        Some(s) => Some(s@),
        None => None,
    }
}

/// The process described by the texts of `/proc/PID/stat` and `/proc/PID/status`
/// (`None` for a text that could not be read): none without a readable stat line;
/// the resident size is 0 when the status text gives none.
pub open spec fn proc_info_spec(pid: u32, stat: Option<Seq<char>>, status: Option<Seq<char>>) -> Option<ProcInfoView> {
    match stat {
        Some(st) => match stat_fields(st) {
            Some((name, ticks)) => Some(
                ProcInfoView {
                    pid,
                    name,
                    rss_kb: match status {
                        Some(ss) => match rss_kb_spec(ss) {
                            Some(v) => v,
                            None => 0,
                        },
                        None => 0,
                    },
                    cpu_ticks: ticks as u64,
                },
            ),
            None => None,
        },
        None => None,
    }
}

pub fn proc_info_from(pid: u32, stat: Option<&str>, status: Option<&str>) -> (r: Option<ProcInfo>)
    requires
        stat matches Some(st) ==> stat_line_readable(st@),
    ensures
        r matches Some(p) ==> proc_info_spec(pid, opt_str(stat), opt_str(status)) == Some(p@),
        r is None ==> proc_info_spec(pid, opt_str(stat), opt_str(status)) is None,
{
    let st = match stat {
        Some(st) => st,
        None => return None,
    };
    let (name, cpu_ticks) = match parse_proc_stat_fields(st) {
        Some(x) => x,
        None => return None,
    };
    let rss_kb = match status {
        Some(ss) => match parse_rss_kb(ss) {
            Some(v) => v,
            None => 0,
        },
        None => 0,
    };
    Some(ProcInfo { pid, name, rss_kb, cpu_ticks })
}

/// Length of the leading run of `s` whose resident size is at least `k`.
pub open spec fn count_at_least(s: Seq<ProcInfoView>, k: u64) -> nat
    decreases s.len(),
{
    if s.len() == 0 || s[0].rss_kb < k {
        0
    } else {
        1 + count_at_least(s.drop_first(), k)
    }
}

/// `p` placed into the list sorted by decreasing resident size, after every entry
/// that is at least as large.
pub open spec fn insert_by_ram(s: Seq<ProcInfoView>, p: ProcInfoView) -> Seq<ProcInfoView> {
    let k = count_at_least(s, p.rss_kb) as int;
    s.take(k).push(p) + s.skip(k)
}

/// `s` sorted by decreasing resident size, keeping the order of equal sizes (the
/// stable sort of `sort_by(|a, b| b.rss_kb.cmp(&a.rss_kb))`).
pub open spec fn sort_by_ram(s: Seq<ProcInfoView>) -> Seq<ProcInfoView>
    decreases s.len(),
{
    if s.len() == 0 {
        seq![]
    } else {
        insert_by_ram(sort_by_ram(s.drop_last()), s.last())
    }
}

/// The `n` processes using the most memory, largest first.
pub open spec fn top_by_ram(s: Seq<ProcInfoView>, n: nat) -> Seq<ProcInfoView> {
    let r = sort_by_ram(s);
    if n < r.len() {
        r.take(n as int)
    } else {
        r
    }
}

pub proof fn lemma_count_at_least_le(s: Seq<ProcInfoView>, k: u64)
    ensures
        count_at_least(s, k) <= s.len(),
    decreases s.len(),
{
    if s.len() > 0 && s[0].rss_kb >= k {
        lemma_count_at_least_le(s.drop_first(), k);
    }
}

pub proof fn lemma_sort_by_ram_len(s: Seq<ProcInfoView>)
    ensures
        sort_by_ram(s).len() == s.len(),
    decreases s.len(),
{
    if s.len() > 0 {
        lemma_sort_by_ram_len(s.drop_last());
        lemma_count_at_least_le(sort_by_ram(s.drop_last()), s.last().rss_kb);
    }
}

/// Where `p` goes in `sorted`.
fn ram_insert_position(sorted: &Vec<ProcInfo>, k: u64) -> (r: usize)
    ensures
        r == count_at_least(proc_views(sorted@), k),
        r <= sorted@.len(),
{
    let ghost s = proc_views(sorted@);
    let mut j: usize = 0;
    assert(s.skip(0) =~= s);
    while j < sorted.len() && sorted[j].rss_kb >= k
        invariant
            j <= sorted@.len(),
            s == proc_views(sorted@),
            count_at_least(s, k) == j + count_at_least(s.skip(j as int), k),
        decreases sorted@.len() - j,
    {
        assert(s.skip(j as int).drop_first() =~= s.skip(j + 1));
        assert(s.skip(j as int)[0] == sorted@[j as int]@);
        j = j + 1;
    }
    if j < sorted.len() {
        assert(s.skip(j as int)[0] == sorted@[j as int]@);
    }
    j
}

/// The `n` processes using the most resident memory, largest first; processes with
/// the same size keep their order.
pub fn top_processes_by_ram(procs: Vec<ProcInfo>, n: usize) -> (r: Vec<ProcInfo>)
    ensures
        proc_views(r@) == top_by_ram(proc_views(procs@), n as nat),
{
    let ghost input = proc_views(procs@);
    // reverse the input by popping, then pop again to take the items in order
    let mut procs = procs;
    let mut rev: Vec<ProcInfo> = Vec::new();
    while procs.len() > 0
        invariant
            proc_views(procs@) + proc_views(rev@).reverse() == input,
        decreases procs.len(),
    {
        let ghost before_p = proc_views(procs@);
        let ghost before_r = proc_views(rev@);
        let x = procs.pop().unwrap();
        rev.push(x);
        assert(proc_views(procs@) =~= before_p.drop_last());
        assert(proc_views(rev@) =~= before_r.push(x@));
        assert(proc_views(procs@) + proc_views(rev@).reverse() =~= before_p + before_r.reverse());
    }
    assert(proc_views(rev@).reverse() =~= input);
    let mut out: Vec<ProcInfo> = Vec::new();
    let ghost total = rev@.len();
    assert(input.take(0) =~= Seq::<ProcInfoView>::empty());
    while rev.len() > 0
        invariant
            total == input.len(),
            rev@.len() <= total,
            proc_views(rev@).reverse() == input.skip(total - rev@.len()),
            proc_views(out@) == sort_by_ram(input.take(total - rev@.len())),
        decreases rev.len(),
    {
        let ghost done = total - rev@.len();
        let ghost before_r = proc_views(rev@);
        let x = rev.pop().unwrap();
        assert(x@ == input[done]) by {
            assert(before_r.reverse()[0] == before_r[before_r.len() - 1]);
        }
        assert(proc_views(rev@) =~= before_r.drop_last());
        assert(proc_views(rev@).reverse() =~= input.skip(done + 1)) by {
            assert forall|k: int| 0 <= k < proc_views(rev@).len() implies proc_views(rev@).reverse()[k] == input.skip(done + 1)[k] by {
                assert(before_r.reverse()[k + 1] == input.skip(done)[k + 1]);
            }
        }
        let pos = ram_insert_position(&out, x.rss_kb);
        let ghost before_o = proc_views(out@);
        out.insert(pos, x);
        assert(input.take(done + 1).drop_last() =~= input.take(done));
        assert(input.take(done + 1).last() == input[done]);
        assert(proc_views(out@) =~= insert_by_ram(before_o, x@));
    }
    assert(input.take(total as int) =~= input);
    proof {
        lemma_sort_by_ram_len(input);
    }
    if n < out.len() {
        out.truncate(n);
        assert(proc_views(out@) =~= sort_by_ram(input).take(n as int));
    }
    out
}

/// `s` is in decreasing order of resident size.
pub open spec fn ram_sorted(s: Seq<ProcInfoView>) -> bool {
    forall|i: int, j: int| 0 <= i < j < s.len() ==> s[i].rss_kb >= s[j].rss_kb
}

proof fn lemma_count_at_least_bounds(s: Seq<ProcInfoView>, k: u64)
    requires
        ram_sorted(s),
    ensures
        forall|i: int| 0 <= i < count_at_least(s, k) ==> s[i].rss_kb >= k,
        count_at_least(s, k) < s.len() ==> s[count_at_least(s, k) as int].rss_kb < k,
    decreases s.len(),
{
    if s.len() > 0 && s[0].rss_kb >= k {
        let t = s.drop_first();
        assert(ram_sorted(t));
        lemma_count_at_least_bounds(t, k);
        lemma_count_at_least_le(t, k);
        assert forall|i: int| 0 <= i < count_at_least(s, k) implies s[i].rss_kb >= k by {
            if i > 0 {
                assert(s[i] == t[i - 1]);
            }
        }
    }
}

proof fn lemma_insert_sorted(s: Seq<ProcInfoView>, p: ProcInfoView)
    requires
        ram_sorted(s),
    ensures
        ram_sorted(insert_by_ram(s, p)),
        insert_by_ram(s, p).to_multiset() == s.to_multiset().insert(p),
{
    let k = count_at_least(s, p.rss_kb) as int;
    lemma_count_at_least_le(s, p.rss_kb);
    lemma_count_at_least_bounds(s, p.rss_kb);
    let r = insert_by_ram(s, p);
    assert forall|i: int, j: int| 0 <= i < j < r.len() implies r[i].rss_kb >= r[j].rss_kb by {
        if j < k {
            assert(r[i] == s[i] && r[j] == s[j]);
        } else if j == k {
            assert(r[j] == p);
            assert(r[i] == s[i]);
        } else {
            assert(r[j] == s[j - 1]);
            if i < k {
                assert(r[i] == s[i]);
            } else if i == k {
                assert(r[i] == p);
                assert(s[k].rss_kb < p.rss_kb);
                assert(s[k].rss_kb >= s[j - 1].rss_kb || k == j - 1);
            } else {
                assert(r[i] == s[i - 1]);
            }
        }
    }
    broadcast use vstd::seq_lib::group_to_multiset_ensures;
    vstd::seq_lib::lemma_multiset_commutative(s.take(k).push(p), s.skip(k));
    vstd::seq_lib::lemma_multiset_commutative(s.take(k), s.skip(k));
    assert(s.take(k) + s.skip(k) =~= s);
    assert(r.to_multiset() =~= s.to_multiset().insert(p));
}

proof fn lemma_sort_by_ram_props(s: Seq<ProcInfoView>)
    ensures
        ram_sorted(sort_by_ram(s)),
        sort_by_ram(s).to_multiset() == s.to_multiset(),
    decreases s.len(),
{
    broadcast use vstd::seq_lib::group_to_multiset_ensures;
    if s.len() == 0 {
        assert(sort_by_ram(s).to_multiset() =~= s.to_multiset());
    } else {
        lemma_sort_by_ram_props(s.drop_last());
        lemma_insert_sorted(sort_by_ram(s.drop_last()), s.last());
        assert(s.drop_last().push(s.last()) =~= s);
    }
}

/// The processes reported by `top_processes_by_ram` are the first `min(n, len)` of
/// an ordering of all the processes (the same processes, each as often) by
/// decreasing resident size: none left out uses more memory than one reported.
pub proof fn law_top_processes_are_largest(procs: Seq<ProcInfoView>, n: nat)
    ensures
        sort_by_ram(procs).to_multiset() == procs.to_multiset(),
        ram_sorted(sort_by_ram(procs)),
        top_by_ram(procs, n) == sort_by_ram(procs).take(
            if n < procs.len() {
                n as int
            } else {
                procs.len() as int
            },
        ),
{
    lemma_sort_by_ram_props(procs);
    lemma_sort_by_ram_len(procs);
    let r = sort_by_ram(procs);
    if n >= procs.len() {
        assert(r.take(procs.len() as int) =~= r);
    }
}

/// `s` without leading `'"'` characters.
pub open spec fn strip_quotes_start(s: Seq<char>) -> Seq<char>
    decreases s.len(),
{
    if s.len() > 0 && s[0] == '"' {
        strip_quotes_start(s.drop_first())
    } else {
        s
    }
}

/// `s` without trailing `'"'` characters.
pub open spec fn strip_quotes_end(s: Seq<char>) -> Seq<char>
    decreases s.len(),
{
    if s.len() > 0 && s.last() == '"' {
        strip_quotes_end(s.drop_last())
    } else {
        s
    }
}

fn strip_quotes(s: &[char]) -> (r: Vec<char>)
    ensures
        r@ == strip_quotes_end(strip_quotes_start(s@)),
{
    let mut i: usize = 0;
    assert(s@.skip(0) =~= s@);
    while i < s.len() && s[i] == '"'
        invariant
            i <= s.len(),
            strip_quotes_start(s@) == strip_quotes_start(s@.skip(i as int)),
        decreases s.len() - i,
    {
        assert(s@.skip(i as int).drop_first() =~= s@.skip(i + 1));
        i = i + 1;
    }
    let mut n: usize = s.len();
    let ghost a = s@.skip(i as int);
    assert(a.take(a.len() as int) =~= a);
    while n > i && s[n - 1] == '"'
        invariant
            i <= n <= s.len(),
            a == s@.skip(i as int),
            strip_quotes_end(a) == strip_quotes_end(a.take(n - i)),
        decreases n,
    {
        assert(a.take(n - i).drop_last() =~= a.take(n - 1 - i));
        n = n - 1;
    }
    let r = slice_chars(s, i, n);
    assert(r@ =~= a.take(n - i));
    r
}

/// The distribution name: the value of the first `PRETTY_NAME=` line of
/// `/etc/os-release` without its quotes, or `"Linux"`.
pub open spec fn distro_spec(content: Option<Seq<char>>) -> Seq<char> {
    match content {
        Some(c) => match line_starting(lines(c), "PRETTY_NAME="@) {
            Some(i) => strip_quotes_end(strip_quotes_start(lines(c)[i].skip(12))),
            None => "Linux"@,
        },
        None => "Linux"@,
    }
}

pub fn distro_name_from(os_release: Option<&str>) -> (r: String)
    ensures
        r@ == distro_spec(opt_str(os_release)),
{
    match os_release {
        Some(c) => {
            let cs = chars_of(c);
            let ls = split_lines(cs.as_slice());
            match line_starting_exec(&ls, "PRETTY_NAME=") {
                Some(i) => {
                    proof {
                        reveal_strlit("PRETTY_NAME=");
                    }
                    assert(views(ls@)[i as int] == ls@[i as int]@);
                    let l = ls[i].as_slice();
                    let v = slice_chars(l, 12, l.len());
                    assert(v@ =~= l@.skip(12));
                    string_of(strip_quotes(v.as_slice()).as_slice())
                },
                None => "Linux".to_string(),
            }
        },
        None => "Linux".to_string(),
    }
}

/// The logical CPU number of a `processor : N` line.
pub open spec fn processor_id(l: Seq<char>) -> Option<usize> {
    if starts_with(l, "processor"@) {
        match split_nth(l, ':', 1) {
            Some(v) => parse_usize(trim(v)),
            None => None,
        }
    } else {
        None
    }
}

/// The block lists one of the logical CPUs `ids`.
pub open spec fn block_lists_any(b: Seq<char>, ids: Seq<usize>) -> bool {
    exists|i: int|
        0 <= i < lines(b).len() && match processor_id(#[trigger] lines(b)[i]) {
            Some(id) => ids.contains(id),
            None => false,
        }
}

/// Physical cores of the socket with logical CPUs `ids`: the `cpu cores` value of the
/// first `/proc/cpuinfo` block that lists one of them; otherwise the number of
/// logical CPUs (at least 1).
pub open spec fn socket_cores_spec(cpuinfo: Option<Seq<char>>, ids: Seq<usize>) -> nat {
    let default: nat = if ids.len() >= 1 {
        ids.len()
    } else {
        1
    };
    match cpuinfo {
        Some(c) => {
            let bs = crate::text::split_str(c, "\n\n"@);
            match first_index(bs, |b: Seq<char>| block_lists_any(b, ids)) {
                Some(k) => match colon_value(bs[k], "cpu cores"@) {
                    Some(v) => match parse_usize(v) {
                        Some(n) => n as nat,
                        None => default,
                    },
                    None => default,
                },
                None => default,
            }
        },
        None => default,
    }
}

fn processor_id_exec(l: &[char]) -> (r: Option<usize>)
    ensures
        r == processor_id(l@),
{
    if starts_with_str(l, "processor") {
        match crate::text::split_nth_chars(l, ':', 1) {
            Some(v) => {
                let t = trim_chars(v.as_slice());
                parse_usize_chars(t.as_slice())
            },
            None => None,
        }
    } else {
        None
    }
}

fn usize_slice_contains(ids: &[usize], x: usize) -> (r: bool)
    ensures
        r == ids@.contains(x),
{
    let mut i: usize = 0;
    while i < ids.len()
        invariant
            i <= ids.len(),
            forall|j: int| 0 <= j < i ==> ids@[j] != x,
        decreases ids.len() - i,
    {
        if ids[i] == x {
            assert(ids@[i as int] == x);
            return true;
        }
        i = i + 1;
    }
    false
}

fn block_lists_any_exec(b: &[char], ids: &[usize]) -> (r: bool)
    ensures
        r == block_lists_any(b@, ids@),
{
    let ls = split_lines(b);
    let mut i: usize = 0;
    while i < ls.len()
        invariant
            i <= ls.len(),
            views(ls@) == lines(b@),
            forall|j: int|
                0 <= j < i ==> !(match processor_id(#[trigger] lines(b@)[j]) {
                    Some(id) => ids@.contains(id),
                    None => false,
                }),
        decreases ls.len() - i,
    {
        assert(views(ls@)[i as int] == ls@[i as int]@);
        match processor_id_exec(ls[i].as_slice()) {
            Some(id) => {
                if usize_slice_contains(ids, id) {
                    return true;
                }
            },
            None => {},
        }
        i = i + 1;
    }
    false
}

pub fn cpu_cores_for_socket_from(cpuinfo: Option<&str>, socket_logical_ids: &[usize]) -> (n: usize)
    ensures
        n == socket_cores_spec(opt_str(cpuinfo), socket_logical_ids@),
{
    let ids = socket_logical_ids;
    let default: usize = if ids.len() >= 1 {
        ids.len()
    } else {
        1
    };
    let c = match cpuinfo {
        Some(c) => c,
        None => return default,
    };
    let cs = chars_of(c);
    let pat = chars_of("\n\n");
    proof {
        reveal_strlit("\n\n");
    }
    let bs = crate::text::split_str_chars(cs.as_slice(), pat.as_slice());
    match first_block_listing(&bs, ids) {
        Some(k) => {
            assert(views(bs@)[k as int] == bs@[k as int]@);
            match colon_value_exec(bs[k].as_slice(), "cpu cores") {
                Some(v) => match parse_usize_chars(v.as_slice()) {
                    Some(n) => n,
                    None => default,
                },
                None => default,
            }
        },
        None => default,
    }
}

fn first_block_listing(bs: &Vec<Vec<char>>, ids: &[usize]) -> (r: Option<usize>)
    ensures
        r matches Some(k) ==> k < bs@.len() && first_index(
            views(bs@),
            |b: Seq<char>| block_lists_any(b, ids@),
        ) == Some(k as int),
        r is None ==> first_index(views(bs@), |b: Seq<char>| block_lists_any(b, ids@)) is None,
{
    let ghost p = |b: Seq<char>| block_lists_any(b, ids@);
    let mut k: usize = 0;
    while k < bs.len()
        invariant
            k <= bs.len(),
            p == (|b: Seq<char>| block_lists_any(b, ids@)),
            forall|j: int| 0 <= j < k ==> !p(#[trigger] views(bs@)[j]),
        decreases bs.len() - k,
    {
        assert(views(bs@)[k as int] == bs@[k as int]@);
        if block_lists_any_exec(bs[k].as_slice(), ids) {
            proof {
                lemma_first_index_at(views(bs@), p, k as int);
            }
            return Some(k);
        }
        k = k + 1;
    }
    proof {
        lemma_first_index_none(views(bs@), p);
    }
    None
}

} // verus!
