//! Reading the text that `dmidecode -t 17` prints: one "Memory Device" block per
//! DIMM slot, made of `Name: value` lines.
use vstd::prelude::*;
use crate::text::{
    chars_eq_str, chars_of, contains, contains_str, first_index, lemma_first_index_at,
    lemma_first_index_none, lines, lowercase, lowercase_chars, parse_i64, parse_i64_chars,
    slice_chars, split_lines, split_str, split_str_chars, split_tokens, starts_with,
    starts_with_str, string_of, tokens, trim, trim_chars, trim_start, trim_start_chars, views,
};
use crate::smbios::manufacturer_label;

verus! {

/// `line` is a `name: value` line (leading whitespace allowed).
pub open spec fn field_match(line: Seq<char>, name: Seq<char>) -> bool {
    let t = trim_start(line);
    starts_with(t, name) && t.len() > name.len() && t[name.len() as int] == ':'
}

/// The trimmed value of a `name: value` line.
pub open spec fn field_value_of(line: Seq<char>, name: Seq<char>) -> Seq<char> {
    trim(trim_start(line).skip(name.len() as int + 1))
}

/// The value of the first `name: value` line among `ls`.
pub open spec fn field_in_lines(ls: Seq<Seq<char>>, name: Seq<char>) -> Option<Seq<char>> {
    match first_index(ls, |l: Seq<char>| field_match(l, name)) {
        Some(i) => Some(field_value_of(ls[i], name)),
        None => None,
    }
}

/// The value of the first `name: value` line of `block`.
pub open spec fn field_spec(block: Seq<char>, name: Seq<char>) -> Option<Seq<char>> {
    field_in_lines(lines(block), name)
}

pub fn field_in_lines_exec(ls: &Vec<Vec<char>>, name: &str) -> (r: Option<Vec<char>>)
    ensures
        r matches Some(v) ==> field_in_lines(views(ls@), name@) == Some(v@),
        r is None ==> field_in_lines(views(ls@), name@) is None,
{
    let n = chars_of(name);
    let ghost p = |l: Seq<char>| field_match(l, name@);
    let mut i: usize = 0;
    while i < ls.len()
        invariant
            i <= ls.len(),
            n@ == name@,
            p == (|l: Seq<char>| field_match(l, name@)),
            forall|j: int| 0 <= j < i ==> !p(#[trigger] views(ls@)[j]),
        decreases ls.len() - i,
    {
        let t = trim_start_chars(ls[i].as_slice());
        assert(views(ls@)[i as int] == ls@[i as int]@);
        if starts_with_str(t.as_slice(), name) && t.len() > n.len() && t[n.len()] == ':' {
            proof {
                lemma_first_index_at(views(ls@), p, i as int);
            }
            let rest = slice_chars(t.as_slice(), n.len() + 1, t.len());
            assert(rest@ =~= t@.skip(n@.len() as int + 1));
            return Some(trim_chars(rest.as_slice()));
        }
        i = i + 1;
    }
    proof {
        lemma_first_index_none(views(ls@), p);
    }
    None
}

/// The value of the first `name: value` line of `block`.
pub fn field(block: &[char], name: &str) -> (r: Option<Vec<char>>)
    ensures
        r matches Some(v) ==> field_spec(block@, name@) == Some(v@),
        r is None ==> field_spec(block@, name@) is None,
{
    let ls = split_lines(block);
    field_in_lines_exec(&ls, name)
}

/// Unit of a module size as written by dmidecode.
#[derive(PartialEq, Eq, Structural, Clone, Copy, Debug)]
pub enum SizeUnit {
    Kib,
    Mib,
    Gib,
    Tib,
}

/// The unit named by a lowercased unit word; anything unknown counts as GiB.
pub open spec fn unit_of(low: Seq<char>) -> SizeUnit {
    if low == "kb"@ || low == "kib"@ {
        SizeUnit::Kib
    } else if low == "mb"@ || low == "mib"@ {
        SizeUnit::Mib
    } else if low == "tb"@ || low == "tib"@ {
        SizeUnit::Tib
    } else {
        SizeUnit::Gib
    }
}

/// The `Size:` value of an empty slot.
pub open spec fn empty_slot_size(t: Seq<char>) -> bool {
    contains(t, "No Module"@) || contains(t, "Not Installed"@) || t == "0"@
}

/// Number word and unit of a `Size:` value; `None` for an empty slot or a value
/// without two words.
pub open spec fn size_parts(t: Seq<char>) -> Option<(Seq<char>, SizeUnit)> {
    if empty_slot_size(t) || tokens(t).len() < 2 {
        None
    } else {
        Some((tokens(t)[0], unit_of(lowercase(tokens(t)[1]))))
    }
}

fn unit_of_exec(low: &[char]) -> (u: SizeUnit)
    ensures
        u == unit_of(low@),
{
    if chars_eq_str(low, "kb") || chars_eq_str(low, "kib") {
        SizeUnit::Kib
    } else if chars_eq_str(low, "mb") || chars_eq_str(low, "mib") {
        SizeUnit::Mib
    } else if chars_eq_str(low, "tb") || chars_eq_str(low, "tib") {
        SizeUnit::Tib
    } else {
        SizeUnit::Gib
    }
}

pub fn size_parts_exec(t: &[char]) -> (r: Option<(Vec<char>, SizeUnit)>)
    ensures
        r matches Some((v, u)) ==> size_parts(t@) == Some((v@, u)),
        r is None ==> size_parts(t@) is None,
{
    if contains_str(t, "No Module") || contains_str(t, "Not Installed") || chars_eq_str(t, "0") {
        return None;
    }
    let toks = split_tokens(t);
    if toks.len() < 2 {
        return None;
    }
    assert(views(toks@)[0] == toks@[0]@);
    assert(views(toks@)[1] == toks@[1]@);
    let low = lowercase_chars(toks[1].as_slice());
    let u = unit_of_exec(low.as_slice());
    Some((slice_chars(toks[0].as_slice(), 0, toks[0].len()), u))
}

/// One "Memory Device" block, with the number fields that are integers parsed and
/// the ones that are decimals kept as written.
pub struct DmiMemoryDevice {
    /// Number word and unit of `Size:`, when it names an installed module.
    pub size: Option<(String, SizeUnit)>,
    pub speed_mhz: i64,
    pub configured_speed_mhz: i64,
    /// First word of `Configured Voltage:` (or `Minimum Voltage:`).
    pub voltage_text: Option<String>,
    pub mem_type: String,
    pub locator: String,
    pub bank: String,
    pub manufacturer: String,
    pub part_number: String,
    pub serial: String,
    pub rank: i64,
}

pub struct DmiDeviceView {
    pub size: Option<(Seq<char>, SizeUnit)>,
    pub speed_mhz: int,
    pub configured_speed_mhz: int,
    pub voltage_text: Option<Seq<char>>,
    pub mem_type: Seq<char>,
    pub locator: Seq<char>,
    pub bank: Seq<char>,
    pub manufacturer: Seq<char>,
    pub part_number: Seq<char>,
    pub serial: Seq<char>,
    pub rank: int,
}

impl View for DmiMemoryDevice {
    type V = DmiDeviceView;

    open spec fn view(&self) -> DmiDeviceView {
        DmiDeviceView {
            size: match self.size {
                Some((v, u)) => Some((v@, u)),
                None => None,
            },
            speed_mhz: self.speed_mhz as int,
            configured_speed_mhz: self.configured_speed_mhz as int,
            voltage_text: match self.voltage_text {
                Some(v) => Some(v@),
                None => None,
            },
            mem_type: self.mem_type@,
            locator: self.locator@,
            bank: self.bank@,
            manufacturer: self.manufacturer@,
            part_number: self.part_number@,
            serial: self.serial@,
            rank: self.rank as int,
        }
    }
}

/// First word of an optional value.
pub open spec fn first_word(v: Option<Seq<char>>) -> Option<Seq<char>> {
    match v {
        Some(t) => if tokens(t).len() > 0 {
            Some(tokens(t)[0])
        } else {
            None
        },
        None => None,
    }
}

/// An optional value parsed as `i64`, 0 when missing or not a number.
pub open spec fn i64_or_zero(v: Option<Seq<char>>) -> int {
    match v {
        Some(t) => match parse_i64(t) {
            Some(x) => x as int,
            None => 0,
        },
        None => 0,
    }
}

/// `a`, or `b` when `a` is missing.
pub open spec fn or_else(a: Option<Seq<char>>, b: Option<Seq<char>>) -> Option<Seq<char>> {
    match a {
        Some(x) => Some(x),
        None => b,
    }
}

/// The value, or `d` when missing.
pub open spec fn or_default(a: Option<Seq<char>>, d: Seq<char>) -> Seq<char> {
    match a {
        Some(x) => x,
        None => d,
    }
}

/// What a "Memory Device" block says of its slot.
pub open spec fn block_device(b: Seq<char>) -> DmiDeviceView {
    DmiDeviceView {
        size: match field_spec(b, "Size"@) {
            Some(t) => size_parts(t),
            None => None,
        },
        speed_mhz: i64_or_zero(first_word(field_spec(b, "Speed"@))),
        configured_speed_mhz: i64_or_zero(
            first_word(or_else(field_spec(b, "Configured Memory Speed"@), field_spec(b, "Configured Clock Speed"@))),
        ),
        voltage_text: first_word(or_else(field_spec(b, "Configured Voltage"@), field_spec(b, "Minimum Voltage"@))),
        mem_type: or_default(first_word(Some(or_default(field_spec(b, "Type"@), "?"@))), "?"@),
        locator: or_default(field_spec(b, "Locator"@), "?"@),
        bank: or_default(field_spec(b, "Bank Locator"@), Seq::empty()),
        manufacturer: manufacturer_label(or_default(field_spec(b, "Manufacturer"@), "?"@)),
        part_number: or_default(field_spec(b, "Part Number"@), "?"@),
        serial: or_default(field_spec(b, "Serial Number"@), Seq::empty()),
        rank: i64_or_zero(field_spec(b, "Rank"@)),
    }
}

/// The first word of a value, if it has one.
pub open spec fn word0(t: Seq<char>) -> Option<Seq<char>> {
    if tokens(t).len() > 0 {
        Some(tokens(t)[0])
    } else {
        None
    }
}

/// The voltage shown is the first word of the block's `Configured Voltage` value; the
/// `Minimum Voltage` value serves only when the block has no `Configured Voltage`
/// line. The configured speed likewise prefers `Configured Memory Speed` over
/// `Configured Clock Speed`.
pub proof fn law_configured_values_preferred(b: Seq<char>)
    ensures
        field_spec(b, "Configured Voltage"@) matches Some(v) ==> block_device(b).voltage_text == word0(v),
        field_spec(b, "Configured Voltage"@) is None ==> block_device(b).voltage_text == match field_spec(
            b,
            "Minimum Voltage"@,
        ) {
            Some(v) => word0(v),
            None => None,
        },
        field_spec(b, "Configured Memory Speed"@) matches Some(v) ==> block_device(b).configured_speed_mhz
            == match word0(v) {
            Some(w) => match parse_i64(w) {
                Some(x) => x as int,
                None => 0,
            },
            None => 0,
        },
{
}

/// Missing or placeholder values: a missing locator, part number or memory type shows
/// `?`, a missing bank or serial shows nothing, a present locator shows as written, and
/// a manufacturer that is missing, empty, `Unknown`, `Not Specified` or `Undefined`
/// shows `?`.
pub proof fn law_memory_block_placeholders(b: Seq<char>)
    ensures
        ({
            let d = block_device(b);
            &&& field_spec(b, "Locator"@) is None ==> d.locator == "?"@
            &&& field_spec(b, "Locator"@) matches Some(v) ==> d.locator == v
            &&& field_spec(b, "Part Number"@) is None ==> d.part_number == "?"@
            &&& field_spec(b, "Bank Locator"@) is None ==> d.bank.len() == 0
            &&& field_spec(b, "Serial Number"@) is None ==> d.serial.len() == 0
            &&& field_spec(b, "Type"@) is None ==> d.mem_type == "?"@
            &&& field_spec(b, "Manufacturer"@) matches Some(m) ==> (d.manufacturer == (if m.len() == 0 || m
                == "Unknown"@ || m == "Not Specified"@ || m == "Undefined"@ {
                "?"@
            } else {
                m
            }))
            &&& field_spec(b, "Manufacturer"@) is None ==> d.manufacturer == "?"@
        }),
{
    reveal_strlit("?");
    reveal_strlit("Unknown");
    reveal_strlit("Not Specified");
    reveal_strlit("Undefined");
    let q = "?"@;
    assert(q.drop_last() =~= Seq::<char>::empty());
    assert(tokens(q.drop_last()) == Seq::<Seq<char>>::empty());
    assert(!crate::text::is_ws(q.last()));
    assert(tokens(q) == seq![seq![q.last()]]);
    assert(seq![q.last()] =~= q);
}

fn first_word_exec(v: &Option<Vec<char>>) -> (r: Option<Vec<char>>)
    ensures
        r matches Some(w) ==> first_word(match v {
            Some(t) => Some(t@),
            None => None,
        }) == Some(w@),
        r is None ==> first_word(match v {
            Some(t) => Some(t@),
            None => None,
        }) is None,
{
    match v {
        Some(t) => {
            let toks = split_tokens(t.as_slice());
            if toks.len() > 0 {
                assert(views(toks@)[0] == toks@[0]@);
                Some(slice_chars(toks[0].as_slice(), 0, toks[0].len()))
            } else {
                None
            }
        },
        None => None,
    }
}

spec fn opt_view(v: Option<Vec<char>>) -> Option<Seq<char>> {
    match v {
        Some(t) => Some(t@),
        None => None,
    }
}

fn i64_or_zero_exec(v: &Option<Vec<char>>) -> (r: i64)
    ensures
        r as int == i64_or_zero(opt_view(*v)),
{
    match v {
        Some(t) => match parse_i64_chars(t.as_slice()) {
            Some(x) => x,
            None => 0,
        },
        None => 0,
    }
}

fn or_else_exec(a: Option<Vec<char>>, b: Option<Vec<char>>) -> (r: Option<Vec<char>>)
    ensures
        opt_view(r) == or_else(opt_view(a), opt_view(b)),
{
    match a {
        Some(x) => Some(x),
        None => b,
    }
}

fn or_default_exec(a: Option<Vec<char>>, d: &str) -> (r: Vec<char>)
    ensures
        r@ == or_default(opt_view(a), d@),
{
    match a {
        Some(x) => x,
        None => chars_of(d),
    }
}

fn field_of(b: &[char], name: &str) -> (r: Option<Vec<char>>)
    ensures
        opt_view(r) == field_spec(b@, name@),
{
    field(b, name)
}

fn opt_string(v: Option<Vec<char>>) -> (r: Option<String>)
    ensures
        r matches Some(s) ==> opt_view(v) == Some(s@),
        r is None ==> v is None,
{
    match v {
        Some(t) => Some(string_of(t.as_slice())),
        None => None,
    }
}

/// What a "Memory Device" block says of its slot.
pub fn parse_memory_block(b: &[char]) -> (d: DmiMemoryDevice)
    ensures
        d@ == block_device(b@),
{
    let size = match field_of(b, "Size") {
        Some(t) => match size_parts_exec(t.as_slice()) {
            Some((v, u)) => Some((string_of(v.as_slice()), u)),
            None => None,
        },
        None => None,
    };
    let speed_mhz = i64_or_zero_exec(&first_word_exec(&field_of(b, "Speed")));
    let cfg = or_else_exec(field_of(b, "Configured Memory Speed"), field_of(b, "Configured Clock Speed"));
    let configured_speed_mhz = i64_or_zero_exec(&first_word_exec(&cfg));
    let volt = or_else_exec(field_of(b, "Configured Voltage"), field_of(b, "Minimum Voltage"));
    let voltage_text = opt_string(first_word_exec(&volt));
    let ty = or_default_exec(field_of(b, "Type"), "?");
    let mem_type = or_default_exec(first_word_exec(&Some(ty)), "?");
    let locator = or_default_exec(field_of(b, "Locator"), "?");
    let bank = or_default_exec(field_of(b, "Bank Locator"), "");
    let m = or_default_exec(field_of(b, "Manufacturer"), "?");
    let manufacturer = if m.len() == 0 || chars_eq_str(m.as_slice(), "Unknown") || chars_eq_str(
        m.as_slice(),
        "Not Specified",
    ) || chars_eq_str(m.as_slice(), "Undefined") {
        chars_of("?")
    } else {
        m
    };
    let part_number = or_default_exec(field_of(b, "Part Number"), "?");
    let serial = or_default_exec(field_of(b, "Serial Number"), "");
    let rank = i64_or_zero_exec(&field_of(b, "Rank"));
    let d = DmiMemoryDevice {
        size,
        speed_mhz,
        configured_speed_mhz,
        voltage_text,
        mem_type: string_of(mem_type.as_slice()),
        locator: string_of(locator.as_slice()),
        bank: string_of(bank.as_slice()),
        manufacturer: string_of(manufacturer.as_slice()),
        part_number: string_of(part_number.as_slice()),
        serial: string_of(serial.as_slice()),
        rank,
    };
    proof {
        reveal_strlit("");
    }
    let ghost e = block_device(b@);
    assert(d@.size == e.size);
    assert(d@.speed_mhz == e.speed_mhz);
    assert(d@.configured_speed_mhz == e.configured_speed_mhz);
    assert(d@.voltage_text == e.voltage_text);
    assert(d@.mem_type == e.mem_type);
    assert(d@.locator == e.locator);
    assert(d@.bank == e.bank);
    assert(d@.manufacturer == e.manufacturer);
    assert(d@.part_number == e.part_number);
    assert(d@.serial == e.serial);
    assert(d@.rank == e.rank);
    d
}

/// The "Memory Device" blocks of the output that hold a `Size:` line (the text after
/// each "Memory Device" up to the next one).
pub open spec fn slot_blocks(output: Seq<char>) -> Seq<Seq<char>> {
    keep_sized(split_str(output, "Memory Device"@).skip(1))
}

/// The blocks that contain `"Size:"`, in order.
pub open spec fn keep_sized(bs: Seq<Seq<char>>) -> Seq<Seq<char>>
    decreases bs.len(),
{
    if bs.len() == 0 {
        seq![]
    } else {
        let k = keep_sized(bs.drop_last());
        if contains(bs.last(), "Size:"@) {
            k.push(bs.last())
        } else {
            k
        }
    }
}

pub open spec fn device_views(v: Seq<DmiMemoryDevice>) -> Seq<DmiDeviceView> {
    Seq::new(v.len(), |i: int| v[i]@)
}

/// Every "Memory Device" block of `dmidecode -t 17` output that has a `Size:` line,
/// in order, as the slot it describes.
pub fn parse_dmidecode_blocks(output: &str) -> (r: Vec<DmiMemoryDevice>)
    ensures
        device_views(r@) == Seq::new(
            slot_blocks(output@).len(),
            |i: int| block_device(slot_blocks(output@)[i]),
        ),
{
    let cs = chars_of(output);
    let pat = chars_of("Memory Device");
    proof {
        reveal_strlit("Memory Device");
    }
    let blocks = split_str_chars(cs.as_slice(), pat.as_slice());
    assert(split_str(cs@, pat@).len() >= 1);
    let ghost all = views(blocks@).skip(1);
    let mut out: Vec<DmiMemoryDevice> = Vec::new();
    let mut i: usize = 1;
    assert(all.take(0) =~= Seq::<Seq<char>>::empty());
    while i < blocks.len()
        invariant
            1 <= i <= blocks.len(),
            all == views(blocks@).skip(1),
            views(blocks@) == split_str(output@, "Memory Device"@),
            device_views(out@) == Seq::new(
                keep_sized(all.take(i - 1)).len(),
                |k: int| block_device(keep_sized(all.take(i - 1))[k]),
            ),
        decreases blocks.len() - i,
    {
        let ghost prev = all.take(i - 1);
        assert(all.take(i as int).drop_last() =~= prev);
        assert(all.take(i as int).last() == blocks@[i as int]@);
        let ghost before = device_views(out@);
        if contains_str(blocks[i].as_slice(), "Size:") {
            let d = parse_memory_block(blocks[i].as_slice());
            out.push(d);
            assert(device_views(out@) =~= before.push(block_device(blocks@[i as int]@)));
        }
        i = i + 1;
        assert(device_views(out@) =~= Seq::new(
            keep_sized(all.take(i - 1)).len(),
            |k: int| block_device(keep_sized(all.take(i - 1))[k]),
        ));
    }
    assert(all.take(blocks.len() - 1) =~= all);
    out
}

/// Number of `true` entries.
pub open spec fn count_true(s: Seq<bool>) -> nat
    decreases s.len(),
{
    if s.len() == 0 {
        0
    } else {
        count_true(s.drop_last()) + if s.last() {
            1nat
        } else {
            0nat
        }
    }
}

proof fn lemma_count_true_le(s: Seq<bool>)
    ensures
        count_true(s) <= s.len(),
    decreases s.len(),
{
    if s.len() > 0 {
        lemma_count_true_le(s.drop_last());
    }
}

/// The slot counts of the memory devices listed: every device is a slot, and one whose
/// module size could be read (`occupied[i]`) is an occupied slot.
pub fn slot_counts(occupied: &[bool]) -> (r: (u32, u32))
    requires
        occupied@.len() <= u32::MAX,
    ensures
        r.0 == occupied@.len(),
        r.1 == count_true(occupied@),
        r.1 <= r.0,
{
    let mut n: u32 = 0;
    let mut i: usize = 0;
    assert(occupied@.take(0) =~= Seq::<bool>::empty());
    while i < occupied.len()
        invariant
            i <= occupied.len(),
            occupied@.len() <= u32::MAX,
            n == count_true(occupied@.take(i as int)),
            n <= i,
        decreases occupied.len() - i,
    {
        assert(occupied@.take(i + 1).drop_last() =~= occupied@.take(i as int));
        assert(occupied@.take(i + 1).last() == occupied@[i as int]);
        if occupied[i] {
            n = n + 1;
        }
        i = i + 1;
    }
    assert(occupied@.take(occupied.len() as int) =~= occupied@);
    proof {
        lemma_count_true_le(occupied@);
    }
    (occupied.len() as u32, n)
}

/// The memory source to use, from the occupied-slot count of each source tried in
/// order (the raw SMBIOS table, `dmidecode`, `dmidecode` through sudo): the first with
/// an occupied slot; `None` when none has one.
pub fn first_occupied_source(occupied: &[u32]) -> (r: Option<usize>)
    ensures
        r matches Some(i) ==> first_index(occupied@, |c: u32| c > 0) == Some(i as int),
        r is None ==> first_index(occupied@, |c: u32| c > 0) is None,
{
    let ghost p = |c: u32| c > 0;
    let mut i: usize = 0;
    while i < occupied.len()
        invariant
            i <= occupied.len(),
            p == (|c: u32| c > 0),
            forall|j: int| 0 <= j < i ==> !p(#[trigger] occupied@[j]),
        decreases occupied.len() - i,
    {
        if occupied[i] > 0 {
            proof {
                lemma_first_index_at(occupied@, p, i as int);
            }
            return Some(i);
        }
        i = i + 1;
    }
    proof {
        lemma_first_index_none(occupied@, p);
    }
    None
}

} // verus!
