//! The parts of a system snapshot that compare two readings or pick among sensors:
//! network transfer since the previous reading, and the CPU package temperature.
use vstd::prelude::*;
use crate::procstat::{adapter_views, NetAdapter, NetAdapterView};
use crate::text::{
    chars_eq, chars_of, contains, contains_str, copy_chars, lex_lt, lex_lt_exec, lowercase,
    lowercase_chars, parse_usize, parse_usize_chars, slice_chars, starts_with, starts_with_str,
    string_of, trim, trim_chars,
};
use crate::topology::{socket_views, SocketInfo};
use std::collections::{HashMap, VecDeque};

verus! {

/// Bytes received and sent by an adapter since the previous reading.
pub struct NetDelta {
    pub name: String,
    pub rx_delta: u64,
    pub tx_delta: u64,
}

pub struct NetDeltaView {
    pub name: Seq<char>,
    pub rx_delta: u64,
    pub tx_delta: u64,
}

impl View for NetDelta {
    type V = NetDeltaView;

    open spec fn view(&self) -> NetDeltaView {
        NetDeltaView { name: self.name@, rx_delta: self.rx_delta, tx_delta: self.tx_delta }
    }
}

pub open spec fn delta_views(v: Seq<NetDelta>) -> Seq<NetDeltaView> {
    Seq::new(v.len(), |i: int| v[i]@)
}

/// Index of the first adapter of `prev` named `name`.
pub open spec fn prev_index(prev: Seq<NetAdapterView>, name: Seq<char>) -> Option<int> {
    crate::text::first_index(prev, |p: NetAdapterView| p.name == name)
}

pub open spec fn sat_sub(a: u64, b: u64) -> u64 {
    if a >= b {
        (a - b) as u64
    } else {
        0
    }
}

/// The transfer of one adapter: its counters minus those of the first previous
/// adapter with the same name (a counter that went back gives 0); 0 for an adapter
/// that was not there before.
pub open spec fn net_delta(a: NetAdapterView, prev: Seq<NetAdapterView>) -> NetDeltaView {
    match prev_index(prev, a.name) {
        Some(j) => NetDeltaView {
            name: a.name,
            rx_delta: sat_sub(a.rx_bytes, prev[j].rx_bytes),
            tx_delta: sat_sub(a.tx_bytes, prev[j].tx_bytes),
        },
        None => NetDeltaView { name: a.name, rx_delta: 0, tx_delta: 0 },
    }
}

/// Each adapter is named once.
pub open spec fn names_unique(s: Seq<NetAdapterView>) -> bool {
    forall|i: int, j: int| 0 <= i < j < s.len() ==> (#[trigger] s[i]).name != (#[trigger] s[j]).name
}

/// A reading compared with itself shows no transfer on any adapter, when every
/// adapter is named once; compared with an earlier reading of the same adapters whose
/// counters only grew, it shows exactly the growth.
pub proof fn law_transfer_is_counter_growth(prev: Seq<NetAdapterView>, cur: Seq<NetAdapterView>)
    requires
        names_unique(prev),
        prev.len() == cur.len(),
        forall|i: int| 0 <= i < cur.len() ==> (#[trigger] cur[i]).name == prev[i].name,
    ensures
        forall|i: int|
            0 <= i < cur.len() && prev[i].rx_bytes <= cur[i].rx_bytes ==> (#[trigger] net_delta(
                cur[i],
                prev,
            )).rx_delta == cur[i].rx_bytes - prev[i].rx_bytes,
        forall|i: int|
            0 <= i < cur.len() && prev[i].tx_bytes <= cur[i].tx_bytes ==> (#[trigger] net_delta(
                cur[i],
                prev,
            )).tx_delta == cur[i].tx_bytes - prev[i].tx_bytes,
        forall|i: int| 0 <= i < prev.len() ==> (#[trigger] net_delta(prev[i], prev)).rx_delta == 0,
        forall|i: int| 0 <= i < prev.len() ==> (#[trigger] net_delta(prev[i], prev)).tx_delta == 0,
{
    assert forall|i: int| 0 <= i < prev.len() implies prev_index(prev, #[trigger] prev[i].name) == Some(i) by {
        let p = |x: NetAdapterView| x.name == prev[i].name;
        assert forall|j: int| 0 <= j < i implies !p(prev[j]) by {
            assert(prev[j].name != prev[i].name);
        }
        crate::text::lemma_first_index_at(prev, p, i);
    }
    assert forall|i: int| 0 <= i < cur.len() implies prev_index(prev, #[trigger] cur[i].name) == Some(i) by {
        assert(prev_index(prev, prev[i].name) == Some(i));
    }
}

fn find_prev(prev: &[NetAdapter], name: &[char]) -> (r: Option<usize>)
    ensures
        r matches Some(j) ==> j < prev@.len() && prev_index(adapter_views(prev@), name@) == Some(j as int),
        r is None ==> prev_index(adapter_views(prev@), name@) is None,
{
    let ghost p = |x: NetAdapterView| x.name == name@;
    let mut j: usize = 0;
    while j < prev.len()
        invariant
            j <= prev.len(),
            p == (|x: NetAdapterView| x.name == name@),
            forall|k: int| 0 <= k < j ==> !p(#[trigger] adapter_views(prev@)[k]),
        decreases prev.len() - j,
    {
        assert(adapter_views(prev@)[j as int] == prev@[j as int]@);
        let c = chars_of(prev[j].name.as_str());
        if chars_eq(c.as_slice(), name) {
            proof {
                crate::text::lemma_first_index_at(adapter_views(prev@), p, j as int);
            }
            return Some(j);
        }
        j = j + 1;
    }
    proof {
        crate::text::lemma_first_index_none(adapter_views(prev@), p);
    }
    None
}

/// The transfer of every current adapter since the previous reading, in the order of
/// the current reading.
pub fn net_deltas(cur: &[NetAdapter], prev: &[NetAdapter]) -> (r: Vec<NetDelta>)
    ensures
        delta_views(r@) == Seq::new(
            cur@.len(),
            |i: int| net_delta(adapter_views(cur@)[i], adapter_views(prev@)),
        ),
{
    let mut out: Vec<NetDelta> = Vec::new();
    let mut i: usize = 0;
    while i < cur.len()
        invariant
            i <= cur.len(),
            delta_views(out@) == Seq::new(
                i as nat,
                |k: int| net_delta(adapter_views(cur@)[k], adapter_views(prev@)),
            ),
        decreases cur.len() - i,
    {
        let a = &cur[i];
        assert(adapter_views(cur@)[i as int] == a@);
        let name = chars_of(a.name.as_str());
        let d = match find_prev(prev, name.as_slice()) {
            Some(j) => {
                assert(adapter_views(prev@)[j as int] == prev@[j as int]@);
                NetDelta {
                    name: string_of(name.as_slice()),
                    rx_delta: a.rx_bytes.saturating_sub(prev[j].rx_bytes),
                    tx_delta: a.tx_bytes.saturating_sub(prev[j].tx_bytes),
                }
            },
            None => NetDelta { name: string_of(name.as_slice()), rx_delta: 0, tx_delta: 0 },
        };
        let ghost before = delta_views(out@);
        out.push(d);
        assert(delta_views(out@) =~= before.push(net_delta(a@, adapter_views(prev@))));
        i = i + 1;
        assert(delta_views(out@) =~= Seq::new(
            i as nat,
            |k: int| net_delta(adapter_views(cur@)[k], adapter_views(prev@)),
        ));
    }
    out
}

/// A temperature sensor of a hwmon chip; the reading is of any type `T`.
#[derive(Clone, Debug)]
pub struct TempSensor<T> {
    pub label: String,
    pub value_c: T,
    pub chip: String,
}

/// The label names the CPU package temperature (`Tctl`, `Tdie` or `Package ...` in
/// any letter case).
pub open spec fn package_label(label: Seq<char>) -> bool {
    let l = lowercase(label);
    contains(l, "tctl"@) || contains(l, "tdie"@) || contains(l, "package"@)
}

/// Whether a sensor label names the CPU package.
pub fn is_package_label(label: &str) -> (b: bool)
    ensures
        b == package_label(label@),
{
    let c = chars_of(label);
    let l = lowercase_chars(c.as_slice());
    contains_str(l.as_slice(), "tctl") || contains_str(l.as_slice(), "tdie") || contains_str(
        l.as_slice(),
        "package",
    )
}

/// Whether a hwmon chip is a `coretemp` chip (any letter case).
pub fn is_coretemp_chip(chip: &str) -> (b: bool)
    ensures
        b == contains(lowercase(chip@), "coretemp"@),
{
    let c = chars_of(chip);
    let l = lowercase_chars(c.as_slice());
    contains_str(l.as_slice(), "coretemp")
}

/// The CPU package temperature: the reading of the first sensor whose label names
/// the package, or of the first sensor when none does; none without sensors.
pub open spec fn package_temp_spec<T>(labels: Seq<Seq<char>>, values: Seq<T>) -> Option<T> {
    match crate::text::first_index(labels, |l: Seq<char>| package_label(l)) {
        Some(i) => Some(values[i]),
        None => if values.len() > 0 {
            Some(values[0])
        } else {
            None
        },
    }
}

pub open spec fn sensor_labels<T>(temps: Seq<TempSensor<T>>) -> Seq<Seq<char>> {
    Seq::new(temps.len(), |i: int| temps[i].label@)
}

pub open spec fn sensor_values<T>(temps: Seq<TempSensor<T>>) -> Seq<T> {
    Seq::new(temps.len(), |i: int| temps[i].value_c)
}

pub fn cpu_package_temp<T: Copy>(temps: &[TempSensor<T>]) -> (r: Option<T>)
    ensures
        r == package_temp_spec(sensor_labels(temps@), sensor_values(temps@)),
        r is Some <==> temps@.len() > 0,
{
    let ghost p = |l: Seq<char>| package_label(l);
    let mut i: usize = 0;
    while i < temps.len()
        invariant
            i <= temps.len(),
            p == (|l: Seq<char>| package_label(l)),
            forall|k: int| 0 <= k < i ==> !p(#[trigger] sensor_labels(temps@)[k]),
        decreases temps.len() - i,
    {
        let c = chars_of(temps[i].label.as_str());
        let l = lowercase_chars(c.as_slice());
        assert(sensor_labels(temps@)[i as int] == temps@[i as int].label@);
        if contains_str(l.as_slice(), "tctl") || contains_str(l.as_slice(), "tdie")
            || contains_str(l.as_slice(), "package") {
            proof {
                crate::text::lemma_first_index_at(sensor_labels(temps@), p, i as int);
            }
            return Some(temps[i].value_c);
        }
        i = i + 1;
    }
    proof {
        crate::text::lemma_first_index_none(sensor_labels(temps@), p);
    }
    if temps.len() > 0 {
        Some(temps[0].value_c)
    } else {
        None
    }
}

// ---------------------------------------------------------------------------
// Core temperatures per logical CPU
// ---------------------------------------------------------------------------

/// The core number of a `Core N` label (any letter case).
pub open spec fn core_number(label: Seq<char>) -> Option<usize> {
    let l = lowercase(label);
    if starts_with(l, "core "@) {
        parse_usize(trim(l.skip(5)))
    } else {
        None
    }
}

pub fn core_number_exec(label: &str) -> (r: Option<usize>)
    ensures
        r == core_number(label@),
        crate::text::all_ascii(label@) ==> lowercase(label@) == crate::text::ascii_lower(label@),
{
    let c = chars_of(label);
    let l = lowercase_chars(c.as_slice());
    if starts_with_str(l.as_slice(), "core ") {
        proof {
            reveal_strlit("core ");
        }
        let rest = slice_chars(l.as_slice(), 5, l.len());
        assert(rest@ =~= l@.skip(5));
        let t = trim_chars(rest.as_slice());
        parse_usize_chars(t.as_slice())
    } else {
        None
    }
}

/// The core readings of the sensors, in order: chip, core number and reading.
pub open spec fn core_readings<T>(temps: Seq<TempSensor<T>>) -> Seq<(Seq<char>, usize, T)>
    decreases temps.len(),
{
    if temps.len() == 0 {
        seq![]
    } else {
        let p = core_readings(temps.drop_last());
        let t = temps.last();
        match core_number(t.label@) {
            Some(n) => p.push((t.chip@, n, t.value_c)),
            None => p,
        }
    }
}

/// Number of leading names of `list` that sort before `c`.
pub open spec fn count_before(list: Seq<Seq<char>>, c: Seq<char>) -> nat
    decreases list.len(),
{
    if list.len() == 0 || !lex_lt(list[0], c) {
        0
    } else {
        1 + count_before(list.drop_first(), c)
    }
}

/// `list` with `c` added in order, unless it is already there.
pub open spec fn insert_chip(list: Seq<Seq<char>>, c: Seq<char>) -> Seq<Seq<char>> {
    if list.contains(c) {
        list
    } else {
        let k = count_before(list, c) as int;
        list.take(k).push(c) + list.skip(k)
    }
}

/// The chips that have core readings, in `String` order, each once.
pub open spec fn chips_of<T>(rs: Seq<(Seq<char>, usize, T)>) -> Seq<Seq<char>>
    decreases rs.len(),
{
    if rs.len() == 0 {
        seq![]
    } else {
        insert_chip(chips_of(rs.drop_last()), rs.last().0)
    }
}

/// The core readings of chip `c`, in order.
pub open spec fn readings_of<T>(rs: Seq<(Seq<char>, usize, T)>, c: Seq<char>) -> Seq<(usize, T)>
    decreases rs.len(),
{
    if rs.len() == 0 {
        seq![]
    } else {
        let p = readings_of(rs.drop_last(), c);
        if rs.last().0 == c {
            p.push((rs.last().1, rs.last().2))
        } else {
            p
        }
    }
}

/// Number of leading readings whose core number is at most `n`.
pub open spec fn count_core_le<T>(s: Seq<(usize, T)>, n: usize) -> nat
    decreases s.len(),
{
    if s.len() == 0 || s[0].0 > n {
        0
    } else {
        1 + count_core_le(s.drop_first(), n)
    }
}

/// Readings sorted by core number, equal numbers in their order (a stable sort).
pub open spec fn sort_by_core<T>(s: Seq<(usize, T)>) -> Seq<(usize, T)>
    decreases s.len(),
{
    if s.len() == 0 {
        seq![]
    } else {
        let r = sort_by_core(s.drop_last());
        let k = count_core_le(r, s.last().0) as int;
        r.take(k).push(s.last()) + r.skip(k)
    }
}

/// Hardware threads per core: logical CPUs of the socket over cores with a reading,
/// at least 1.
pub open spec fn threads_per_core(logical: nat, cores: nat) -> nat {
    if cores > 0 && logical / cores >= 1 {
        logical / cores
    } else {
        1
    }
}

/// The temperatures a chip gives to its socket's logical CPUs: the `i`-th logical
/// CPU gets the reading of core `i / threads_per_core`, for as many logical CPUs as
/// there are and the cores cover.
pub open spec fn chip_inserts<T>(ct: Seq<(usize, T)>, logical: Seq<usize>) -> Seq<(usize, T)> {
    if ct.len() == 0 {
        seq![]
    } else {
        let tpc = threads_per_core(logical.len(), ct.len());
        let n = if ct.len() * tpc <= logical.len() {
            ct.len() * tpc
        } else {
            logical.len()
        };
        Seq::new(n, |i: int| (logical[i], ct[i / tpc as int].1))
    }
}

/// The socket that chip number `k` (in chip order) belongs to: socket `k`, or the
/// first socket when there are fewer sockets than chips.
pub open spec fn socket_for<S>(sockets: Seq<S>, k: int) -> S {
    if k < sockets.len() {
        sockets[k]
    } else {
        sockets[0]
    }
}

/// The assignments made for the first `k` chips, in order.
pub open spec fn inserts_upto<T>(
    rs: Seq<(Seq<char>, usize, T)>,
    chips: Seq<Seq<char>>,
    logicals: Seq<Seq<usize>>,
    k: int,
) -> Seq<(usize, T)>
    decreases k,
{
    if k <= 0 {
        seq![]
    } else {
        inserts_upto(rs, chips, logicals, k - 1) + chip_inserts(
            sort_by_core(readings_of(rs, chips[k - 1])),
            socket_for(logicals, k - 1),
        )
    }
}

/// The per-logical-CPU temperatures, as the sequence of assignments made (a later one
/// for the same CPU replaces an earlier one): chips with `Core N` sensors, in name
/// order, are matched to the sockets in order, and each chip's cores, in order of
/// their number, cover the socket's logical CPUs in turn.
pub open spec fn core_temp_assignments<T>(temps: Seq<TempSensor<T>>, logicals: Seq<Seq<usize>>) -> Seq<(usize, T)> {
    let rs = core_readings(temps);
    if rs.len() == 0 || logicals.len() == 0 {
        seq![]
    } else {
        let chips = chips_of(rs);
        inserts_upto(rs, chips, logicals, chips.len() as int)
    }
}

/// `id` is a logical CPU of one of the sockets.
pub open spec fn on_some_socket(logicals: Seq<Seq<usize>>, id: usize) -> bool {
    exists|s: int, i: int| 0 <= s < logicals.len() && 0 <= i < logicals[s].len() && logicals[s][i] == id
}

proof fn lemma_inserts_on_sockets<T>(
    rs: Seq<(Seq<char>, usize, T)>,
    chips: Seq<Seq<char>>,
    logicals: Seq<Seq<usize>>,
    k: int,
)
    requires
        logicals.len() > 0,
        k <= chips.len(),
    ensures
        forall|j: int|
            0 <= j < inserts_upto(rs, chips, logicals, k).len() ==> on_some_socket(
                logicals,
                (#[trigger] inserts_upto(rs, chips, logicals, k)[j]).0,
            ),
    decreases k,
{
    if k > 0 {
        lemma_inserts_on_sockets(rs, chips, logicals, k - 1);
        let prev = inserts_upto(rs, chips, logicals, k - 1);
        let sock = if k - 1 < logicals.len() {
            k - 1
        } else {
            0
        };
        let ct = sort_by_core(readings_of(rs, chips[k - 1]));
        let add = chip_inserts(ct, socket_for(logicals, k - 1));
        assert(socket_for(logicals, k - 1) == logicals[sock]);
        let all = inserts_upto(rs, chips, logicals, k);
        assert(all == prev + add);
        assert forall|j: int| 0 <= j < all.len() implies on_some_socket(logicals, (#[trigger] all[j]).0) by {
            if j < prev.len() {
                assert(all[j] == prev[j]);
            } else {
                let i = j - prev.len();
                assert(all[j] == add[i]);
                if ct.len() > 0 {
                    assert(add[i].0 == logicals[sock][i]);
                }
            }
        }
    }
}

proof fn lemma_assignments_map_keys<T>(s: Seq<(usize, T)>, id: usize)
    requires
        assignments_map(s).dom().contains(id),
    ensures
        exists|j: int| 0 <= j < s.len() && (#[trigger] s[j]).0 == id,
    decreases s.len(),
{
    if s.len() > 0 && s.last().0 != id {
        lemma_assignments_map_keys(s.drop_last(), id);
        let j = choose|j: int| 0 <= j < s.drop_last().len() && (#[trigger] s.drop_last()[j]).0 == id;
        assert(s[j] == s.drop_last()[j]);
    }
}

/// Every logical CPU that is given a temperature belongs to one of the sockets.
pub proof fn law_temperatures_only_for_socket_cpus<T>(temps: Seq<TempSensor<T>>, logicals: Seq<Seq<usize>>)
    ensures
        forall|id: usize|
            #[trigger] assignments_map(core_temp_assignments(temps, logicals)).dom().contains(id)
                ==> on_some_socket(logicals, id),
{
    let rs = core_readings(temps);
    let a = core_temp_assignments(temps, logicals);
    if rs.len() > 0 && logicals.len() > 0 {
        lemma_inserts_on_sockets(rs, chips_of(rs), logicals, chips_of(rs).len() as int);
    }
    assert forall|id: usize| #[trigger] assignments_map(a).dom().contains(id) implies on_some_socket(logicals, id) by {
        lemma_assignments_map_keys(a, id);
        let j = choose|j: int| 0 <= j < a.len() && (#[trigger] a[j]).0 == id;
        assert(on_some_socket(logicals, a[j].0));
    }
}

pub open spec fn reading_views<T>(v: Seq<(Vec<char>, usize, T)>) -> Seq<(Seq<char>, usize, T)> {
    Seq::new(v.len(), |i: int| (v[i].0@, v[i].1, v[i].2))
}

fn core_readings_exec<T: Copy>(temps: &[TempSensor<T>]) -> (r: Vec<(Vec<char>, usize, T)>)
    ensures
        reading_views(r@) == core_readings(temps@),
{
    let mut out: Vec<(Vec<char>, usize, T)> = Vec::new();
    let mut i: usize = 0;
    assert(temps@.take(0) =~= Seq::<TempSensor<T>>::empty());
    while i < temps.len()
        invariant
            i <= temps.len(),
            reading_views(out@) == core_readings(temps@.take(i as int)),
        decreases temps.len() - i,
    {
        assert(temps@.take(i + 1).drop_last() =~= temps@.take(i as int));
        assert(temps@.take(i + 1).last() == temps@[i as int]);
        let t = &temps[i];
        let ghost before = reading_views(out@);
        match core_number_exec(t.label.as_str()) {
            Some(n) => {
                out.push((chars_of(t.chip.as_str()), n, t.value_c));
                assert(reading_views(out@) =~= before.push((t.chip@, n, t.value_c)));
            },
            None => {},
        }
        i = i + 1;
    }
    assert(temps@.take(temps.len() as int) =~= temps@);
    out
}

fn contains_name(list: &Vec<Vec<char>>, c: &[char]) -> (r: bool)
    ensures
        r == crate::text::views(list@).contains(c@),
{
    let mut j: usize = 0;
    while j < list.len()
        invariant
            j <= list.len(),
            forall|k: int| 0 <= k < j ==> crate::text::views(list@)[k] != c@,
        decreases list.len() - j,
    {
        assert(crate::text::views(list@)[j as int] == list@[j as int]@);
        if chars_eq(list[j].as_slice(), c) {
            return true;
        }
        j = j + 1;
    }
    false
}

proof fn lemma_count_before_le(list: Seq<Seq<char>>, c: Seq<char>)
    ensures
        count_before(list, c) <= list.len(),
    decreases list.len(),
{
    if list.len() > 0 && lex_lt(list[0], c) {
        lemma_count_before_le(list.drop_first(), c);
    }
}

fn chips_of_exec<T: Copy>(rs: &Vec<(Vec<char>, usize, T)>) -> (r: Vec<Vec<char>>)
    ensures
        crate::text::views(r@) == chips_of(reading_views(rs@)),
{
    let ghost rv = reading_views(rs@);
    let mut list: Vec<Vec<char>> = Vec::new();
    let mut i: usize = 0;
    assert(rv.take(0) =~= Seq::<(Seq<char>, usize, T)>::empty());
    while i < rs.len()
        invariant
            i <= rs.len(),
            rv == reading_views(rs@),
            crate::text::views(list@) == chips_of(rv.take(i as int)),
        decreases rs.len() - i,
    {
        assert(rv.take(i + 1).drop_last() =~= rv.take(i as int));
        assert(rv.take(i + 1).last() == rv[i as int]);
        let c = rs[i].0.as_slice();
        let ghost lv = crate::text::views(list@);
        if !contains_name(&list, c) {
            let ghost s = lv;
            let mut j: usize = 0;
            assert(s.skip(0) =~= s);
            while j < list.len() && lex_lt_exec(list[j].as_slice(), c)
                invariant
                    j <= list@.len(),
                    s == crate::text::views(list@),
                    count_before(s, c@) == j + count_before(s.skip(j as int), c@),
                decreases list@.len() - j,
            {
                assert(s.skip(j as int).drop_first() =~= s.skip(j + 1));
                assert(s.skip(j as int)[0] == list@[j as int]@);
                j = j + 1;
            }
            if j < list.len() {
                assert(s.skip(j as int)[0] == list@[j as int]@);
            }
            list.insert(j, copy_chars(c));
            assert(crate::text::views(list@) =~= s.take(j as int).push(c@) + s.skip(j as int));
        }
        i = i + 1;
    }
    assert(rv.take(rs.len() as int) =~= rv);
    list
}

fn readings_of_exec<T: Copy>(rs: &Vec<(Vec<char>, usize, T)>, c: &[char]) -> (r: Vec<(usize, T)>)
    ensures
        r@ == readings_of(reading_views(rs@), c@),
{
    let ghost rv = reading_views(rs@);
    let mut out: Vec<(usize, T)> = Vec::new();
    let mut i: usize = 0;
    assert(rv.take(0) =~= Seq::<(Seq<char>, usize, T)>::empty());
    while i < rs.len()
        invariant
            i <= rs.len(),
            rv == reading_views(rs@),
            out@ == readings_of(rv.take(i as int), c@),
        decreases rs.len() - i,
    {
        assert(rv.take(i + 1).drop_last() =~= rv.take(i as int));
        assert(rv.take(i + 1).last() == rv[i as int]);
        if chars_eq(rs[i].0.as_slice(), c) {
            out.push((rs[i].1, rs[i].2));
        }
        i = i + 1;
    }
    assert(rv.take(rs.len() as int) =~= rv);
    out
}

proof fn lemma_count_core_le_le<T>(s: Seq<(usize, T)>, n: usize)
    ensures
        count_core_le(s, n) <= s.len(),
    decreases s.len(),
{
    if s.len() > 0 && s[0].0 <= n {
        lemma_count_core_le_le(s.drop_first(), n);
    }
}

proof fn lemma_sort_by_core_len<T>(s: Seq<(usize, T)>)
    ensures
        sort_by_core(s).len() == s.len(),
    decreases s.len(),
{
    if s.len() > 0 {
        lemma_sort_by_core_len(s.drop_last());
        lemma_count_core_le_le(sort_by_core(s.drop_last()), s.last().0);
    }
}

fn sort_by_core_exec<T: Copy>(v: Vec<(usize, T)>) -> (r: Vec<(usize, T)>)
    ensures
        r@ == sort_by_core(v@),
{
    let mut out: Vec<(usize, T)> = Vec::new();
    let mut i: usize = 0;
    assert(v@.take(0) =~= Seq::<(usize, T)>::empty());
    while i < v.len()
        invariant
            i <= v.len(),
            out@ == sort_by_core(v@.take(i as int)),
        decreases v.len() - i,
    {
        let x = v[i];
        let ghost s = out@;
        let mut j: usize = 0;
        assert(s.skip(0) =~= s);
        while j < out.len() && out[j].0 <= x.0
            invariant
                j <= out@.len(),
                s == out@,
                count_core_le(s, x.0) == j + count_core_le(s.skip(j as int), x.0),
            decreases out@.len() - j,
        {
            assert(s.skip(j as int).drop_first() =~= s.skip(j + 1));
            j = j + 1;
        }
        assert(v@.take(i + 1).drop_last() =~= v@.take(i as int));
        assert(v@.take(i + 1).last() == x);
        out.insert(j, x);
        assert(out@ =~= s.take(j as int).push(x) + s.skip(j as int));
        i = i + 1;
    }
    assert(v@.take(v.len() as int) =~= v@);
    out
}

fn chip_inserts_exec<T: Copy>(ct: &Vec<(usize, T)>, logical: &Vec<usize>, out: &mut Vec<(usize, T)>)
    ensures
        final(out)@ == old(out)@ + chip_inserts(ct@, logical@),
{
    if ct.len() == 0 {
        assert(old(out)@ + chip_inserts(ct@, logical@) =~= old(out)@);
        return;
    }
    let cores = ct.len();
    let lg = logical.len();
    let tpc: usize = if lg / cores >= 1 {
        lg / cores
    } else {
        1
    };
    assert(tpc == threads_per_core(lg as nat, cores as nat));
    assert(cores * tpc <= if lg >= cores { lg } else { cores }) by (nonlinear_arith)
        requires
            cores > 0,
            tpc == (if lg / cores >= 1 {
                lg / cores
            } else {
                1
            }),
    ;
    let n: usize = if cores * tpc <= lg {
        cores * tpc
    } else {
        lg
    };
    let ghost o = out@;
    let mut i: usize = 0;
    while i < n
        invariant
            i <= n <= lg,
            n <= cores * tpc,
            tpc >= 1,
            cores == ct@.len(),
            lg == logical@.len(),
            out@ == o + Seq::new(i as nat, |k: int| (logical@[k], ct@[k / tpc as int].1)),
        decreases n - i,
    {
        assert(i / tpc < cores) by (nonlinear_arith)
            requires
                i < cores * tpc,
                tpc >= 1,
        ;
        let q = i / tpc;
        out.push((logical[i], ct[q].1));
        i = i + 1;
        assert(out@ =~= o + Seq::new(i as nat, |k: int| (logical@[k], ct@[k / tpc as int].1)));
    }
    assert(chip_inserts(ct@, logical@) =~= Seq::new(n as nat, |k: int| (logical@[k], ct@[k / tpc as int].1)));
}

pub open spec fn logical_ids_of(sockets: Seq<SocketInfo>) -> Seq<Seq<usize>> {
    Seq::new(sockets.len(), |i: int| sockets[i].logical_ids@)
}

/// The temperature of each logical CPU, as the assignments to make in order (a later
/// one for the same CPU replaces an earlier one).
pub fn build_core_temp_map<T: Copy>(temps: &[TempSensor<T>], sockets: &[SocketInfo]) -> (r: HashMap<usize, T>)
    ensures
        r@ == assignments_map(core_temp_assignments(temps@, logical_ids_of(sockets@))),
{
    let a = core_temp_assignment_list(temps, sockets);
    assignments_into_map(&a)
}

/// The map that a sequence of assignments leaves: a later one for the same CPU
/// replaces an earlier one.
pub open spec fn assignments_map<T>(s: Seq<(usize, T)>) -> Map<usize, T>
    decreases s.len(),
{
    if s.len() == 0 {
        Map::empty()
    } else {
        assignments_map(s.drop_last()).insert(s.last().0, s.last().1)
    }
}

fn assignments_into_map<T: Copy>(a: &Vec<(usize, T)>) -> (m: HashMap<usize, T>)
    ensures
        m@ == assignments_map(a@),
{
    broadcast use vstd::std_specs::hash::group_hash_axioms;
    let mut m: HashMap<usize, T> = HashMap::new();
    let mut i: usize = 0;
    assert(a@.take(0) =~= Seq::<(usize, T)>::empty());
    while i < a.len()
        invariant
            i <= a.len(),
            m@ == assignments_map(a@.take(i as int)),
        decreases a.len() - i,
    {
        assert(a@.take(i + 1).drop_last() =~= a@.take(i as int));
        assert(a@.take(i + 1).last() == a@[i as int]);
        let (id, t) = a[i];
        m.insert(id, t);
        i = i + 1;
    }
    assert(a@.take(a.len() as int) =~= a@);
    m
}

fn core_temp_assignment_list<T: Copy>(temps: &[TempSensor<T>], sockets: &[SocketInfo]) -> (r: Vec<(usize, T)>)
    ensures
        r@ == core_temp_assignments(temps@, logical_ids_of(sockets@)),
{
    let rs = core_readings_exec(temps);
    let mut out: Vec<(usize, T)> = Vec::new();
    if rs.len() == 0 || sockets.len() == 0 {
        return out;
    }
    let chips = chips_of_exec(&rs);
    let ghost rv = reading_views(rs@);
    let ghost cv = crate::text::views(chips@);
    let ghost lv = logical_ids_of(sockets@);
    let mut k: usize = 0;
    while k < chips.len()
        invariant
            k <= chips.len(),
            sockets@.len() > 0,
            rv == reading_views(rs@),
            cv == crate::text::views(chips@),
            lv == logical_ids_of(sockets@),
            out@ == inserts_upto(rv, cv, lv, k as int),
        decreases chips.len() - k,
    {
        assert(cv[k as int] == chips@[k as int]@);
        let g = readings_of_exec(&rs, chips[k].as_slice());
        let ct = sort_by_core_exec(g);
        let socket = if k < sockets.len() {
            &sockets[k]
        } else {
            &sockets[0]
        };
        assert(socket.logical_ids@ == socket_for(lv, k as int));
        chip_inserts_exec(&ct, &socket.logical_ids, &mut out);
        k = k + 1;
    }
    out
}

/// The core readings of the sensors of every chip, in sensor order: core number and
/// reading.
pub open spec fn core_pairs<T>(temps: Seq<TempSensor<T>>) -> Seq<(usize, T)> {
    let rs = core_readings(temps);
    Seq::new(rs.len(), |k: int| (rs[k].1, rs[k].2))
}

/// The temperature of each of `core_count` logical CPUs, assuming uniform SMT: the
/// `Core N` readings (of any chip) are ranked by core number, equal numbers in sensor
/// order; with `t` = logical CPUs / cores with a sensor (at least 1), logical CPU `i`
/// gets the reading of the core ranked `i / t`; CPUs beyond the ranked cores get none.
pub open spec fn core_temp_list_spec<T>(temps: Seq<TempSensor<T>>, core_count: nat) -> Seq<Option<T>> {
    let ct = sort_by_core(core_pairs(temps));
    let tpc = threads_per_core(core_count, ct.len());
    Seq::new(
        core_count,
        |i: int|
            if i < ct.len() * tpc {
                Some(ct[i / tpc as int].1)
            } else {
                None
            },
    )
}

fn core_pairs_exec<T: Copy>(temps: &[TempSensor<T>]) -> (r: Vec<(usize, T)>)
    ensures
        r@ == core_pairs(temps@),
{
    let rs = core_readings_exec(temps);
    let ghost rv = reading_views(rs@);
    let mut out: Vec<(usize, T)> = Vec::new();
    let mut k: usize = 0;
    while k < rs.len()
        invariant
            k <= rs.len(),
            rv == reading_views(rs@),
            rv == core_readings(temps@),
            out@ == Seq::new(k as nat, |j: int| (rv[j].1, rv[j].2)),
        decreases rs.len() - k,
    {
        out.push((rs[k].1, rs[k].2));
        k = k + 1;
        assert(out@ =~= Seq::new(k as nat, |j: int| (rv[j].1, rv[j].2)));
    }
    out
}

/// Temperatures for `core_count` logical CPUs from the `Core N` sensors of any chip.
pub fn core_temp_list<T: Copy>(temps: &[TempSensor<T>], core_count: usize) -> (r: Vec<Option<T>>)
    ensures
        r@ == core_temp_list_spec(temps@, core_count as nat),
{
    let pairs = core_pairs_exec(temps);
    let ghost pv = pairs@;
    let ct = sort_by_core_exec(pairs);
    proof {
        lemma_sort_by_core_len(pv);
    }
    let cores = ct.len();
    let tpc: usize = if cores > 0 && core_count / cores >= 1 {
        core_count / cores
    } else {
        1
    };
    assert(tpc == threads_per_core(core_count as nat, cores as nat));
    let mut out: Vec<Option<T>> = Vec::new();
    let mut i: usize = 0;
    while i < core_count
        invariant
            i <= core_count,
            ct@ == sort_by_core(core_pairs(temps@)),
            cores == ct@.len(),
            tpc == threads_per_core(core_count as nat, cores as nat),
            tpc >= 1,
            out@ == Seq::new(
                i as nat,
                |k: int|
                    if k < cores * tpc {
                        Some(ct@[k / tpc as int].1)
                    } else {
                        None
                    },
            ),
        decreases core_count - i,
    {
        let rank = i / tpc;
        if rank < cores {
            assert(i < cores * tpc) by (nonlinear_arith)
                requires
                    rank == i / tpc,
                    rank < cores,
                    tpc >= 1,
            ;
            out.push(Some(ct[rank].1));
        } else {
            assert(!(i < cores * tpc)) by (nonlinear_arith)
                requires
                    rank == i / tpc,
                    rank >= cores,
                    tpc >= 1,
            ;
            out.push(None);
        }
        i = i + 1;
        assert(out@ =~= Seq::new(
            i as nat,
            |k: int|
                if k < cores * tpc {
                    Some(ct@[k / tpc as int].1)
                } else {
                    None
                },
        ));
    }
    out
}

/// How many readings a usage history keeps.
pub const HISTORY_LEN: usize = 40;

/// The history after `v` is recorded: `v` goes to the back, and the oldest reading
/// leaves once more than `HISTORY_LEN` are held.
pub open spec fn history_after<T>(h: Seq<T>, v: T) -> Seq<T> {
    let pushed = h.push(v);
    if pushed.len() > HISTORY_LEN {
        pushed.drop_first()
    } else {
        pushed
    }
}

/// Records a reading in a bounded history.
pub fn push_history<T>(h: &mut VecDeque<T>, v: T)
    ensures
        final(h)@ == history_after(old(h)@, v),
        old(h)@.len() <= HISTORY_LEN ==> final(h)@.len() <= HISTORY_LEN,
        final(h)@.len() > 0 && final(h)@.last() == v,
{
    h.push_back(v);
    if h.len() > HISTORY_LEN {
        let _ = h.pop_front();
    }
}

} // verus!
