//! Decoding of the raw SMBIOS table (`/sys/firmware/dmi/tables/DMI`): the structures of
//! type 17 (Memory Device) describe the DIMM slots of the machine.
use vstd::prelude::*;
use crate::text::{
    chars_eq_str, chars_of, string_of, trim, trim_chars,
};

verus! {

/// One type 17 structure, with sizes and voltages in integer units.
pub struct SmbiosMemoryDevice {
    pub locator: String,
    pub bank: String,
    /// Module size in KiB.
    pub size_kb: u64,
    pub mem_type: String,
    pub speed_mhz: i64,
    pub configured_speed_mhz: i64,
    /// Configured voltage in millivolts (0 when unknown).
    pub voltage_mv: u64,
    pub manufacturer: String,
    pub part_number: String,
    pub serial: String,
}

/// The mathematical value of a [`SmbiosMemoryDevice`].
pub struct SmbiosDeviceView {
    pub locator: Seq<char>,
    pub bank: Seq<char>,
    pub size_kb: nat,
    pub mem_type: Seq<char>,
    pub speed_mhz: int,
    pub configured_speed_mhz: int,
    pub voltage_mv: nat,
    pub manufacturer: Seq<char>,
    pub part_number: Seq<char>,
    pub serial: Seq<char>,
}

impl View for SmbiosMemoryDevice {
    type V = SmbiosDeviceView;

    open spec fn view(&self) -> SmbiosDeviceView {
        SmbiosDeviceView {
            locator: self.locator@,
            bank: self.bank@,
            size_kb: self.size_kb as nat,
            mem_type: self.mem_type@,
            speed_mhz: self.speed_mhz as int,
            configured_speed_mhz: self.configured_speed_mhz as int,
            voltage_mv: self.voltage_mv as nat,
            manufacturer: self.manufacturer@,
            part_number: self.part_number@,
            serial: self.serial@,
        }
    }
}

/// The memory devices found in a table: every type 17 structure counts as a slot,
/// the ones with a module installed are listed.
pub struct SmbiosMemoryInfo {
    pub slots: Vec<SmbiosMemoryDevice>,
    pub total_slots: u32,
    pub occupied_slots: u32,
}

/// A name for what `String::from_utf8_lossy` decodes from `bytes`.
pub uninterp spec fn utf8_lossy(bytes: Seq<u8>) -> Seq<char>;

/// Decodes bytes as UTF-8 by `String::from_utf8_lossy`, which replaces invalid
/// sequences. What is claimed: the result is a function of the bytes alone, named
/// `utf8_lossy`, and for valid UTF-8 it is the decoded text; how invalid sequences
/// are replaced is left unsaid.
#[verifier::external_body]
fn lossy_utf8(bytes: &[u8]) -> (s: String)
    ensures
        s@ == utf8_lossy(bytes@),
        vstd::utf8::valid_utf8(bytes@) ==> s@ == vstd::utf8::decode_utf8(bytes@),
{
    String::from_utf8_lossy(bytes).into_owned()
}

/// Little-endian 16-bit value at `off`, or 0 when it does not fit in `data`.
pub open spec fn le16(data: Seq<u8>, off: int) -> nat {
    if off + 1 < data.len() {
        data[off] as nat + data[off + 1] as nat * 256
    } else {
        0
    }
}

/// Byte at `off`, or 0 when `off` is past the end.
pub open spec fn byte_or_zero(data: Seq<u8>, off: int) -> u8 {
    if 0 <= off < data.len() {
        data[off]
    } else {
        0
    }
}

pub fn u16_at(data: &[u8], off: usize) -> (r: u16)
    requires
        off < usize::MAX,
    ensures
        r as nat == le16(data@, off as int),
{
    if off + 1 < data.len() {
        let lo = data[off] as u16;
        let hi = data[off + 1] as u16;
        assert(hi * 256 + lo <= 0xffff) by (nonlinear_arith)
            requires
                hi <= 255,
                lo <= 255,
        ;
        hi * 256 + lo
    } else {
        0
    }
}

fn byte_at(data: &[u8], off: usize) -> (r: u8)
    ensures
        r == byte_or_zero(data@, off as int),
{
    if off < data.len() {
        data[off]
    } else {
        0
    }
}

/// The pieces of `s` between zero bytes.
pub open spec fn split_zero(s: Seq<u8>) -> Seq<Seq<u8>>
    decreases s.len(),
{
    if s.len() == 0 {
        seq![Seq::empty()]
    } else {
        let p = split_zero(s.drop_last());
        if s.last() == 0 {
            p.push(Seq::empty())
        } else {
            p.update(p.len() - 1, p.last().push(s.last()))
        }
    }
}

pub proof fn lemma_split_zero_nonempty(s: Seq<u8>)
    ensures
        split_zero(s).len() >= 1,
    decreases s.len(),
{
    if s.len() > 0 {
        lemma_split_zero_nonempty(s.drop_last());
    }
}

/// The text of a string's bytes: its UTF-8 decoding when they are valid UTF-8, what
/// `String::from_utf8_lossy` makes of them otherwise.
pub open spec fn decoded(bytes: Seq<u8>) -> Seq<char> {
    if vstd::utf8::valid_utf8(bytes) {
        vstd::utf8::decode_utf8(bytes)
    } else {
        utf8_lossy(bytes)
    }
}

/// String number `index` (counting from 1) of a structure's string area, decoded
/// and trimmed; empty for index 0 or a missing string.
pub open spec fn string_number(strings: Seq<u8>, index: u8) -> Seq<char> {
    if index == 0 {
        Seq::empty()
    } else if index - 1 < split_zero(strings).len() {
        trim(decoded(split_zero(strings)[index - 1]))
    } else {
        Seq::empty()
    }
}

fn split_zero_bytes(s: &[u8]) -> (r: Vec<Vec<u8>>)
    ensures
        r@.len() == split_zero(s@).len(),
        forall|k: int| 0 <= k < r@.len() ==> #[trigger] r@[k]@ == split_zero(s@)[k],
{
    let mut done: Vec<Vec<u8>> = Vec::new();
    let mut cur: Vec<u8> = Vec::new();
    let mut i: usize = 0;
    assert(s@.take(0) =~= Seq::<u8>::empty());
    while i < s.len()
        invariant
            i <= s.len(),
            split_zero(s@.take(i as int)).len() == done@.len() + 1,
            forall|k: int|
                0 <= k < done@.len() ==> #[trigger] done@[k]@ == split_zero(s@.take(i as int))[k],
            cur@ == split_zero(s@.take(i as int)).last(),
        decreases s.len() - i,
    {
        let ghost prev = s@.take(i as int);
        assert(s@.take(i + 1).drop_last() =~= prev);
        proof {
            lemma_split_zero_nonempty(prev);
        }
        if s[i] == 0 {
            let mut fresh: Vec<u8> = Vec::new();
            std::mem::swap(&mut cur, &mut fresh);
            done.push(fresh);
        } else {
            cur.push(s[i]);
        }
        i = i + 1;
    }
    assert(s@.take(s.len() as int) =~= s@);
    done.push(cur);
    done
}

/// String number `index` of a structure's string area.
pub fn smbios_string(strings_area: &[u8], index: u8) -> (s: String)
    ensures
        s@ == string_number(strings_area@, index),
{
    if index == 0 {
        return String::new();
    }
    let pieces = split_zero_bytes(strings_area);
    let k = (index - 1) as usize;
    if k < pieces.len() {
        let raw = lossy_utf8(pieces[k].as_slice());
        let cs = chars_of(raw.as_str());
        let t = trim_chars(cs.as_slice());
        string_of(t.as_slice())
    } else {
        String::new()
    }
}

/// The memory type named by the type code at offset 0x12.
pub open spec fn memory_type_name(code: u8) -> Seq<char> {
    if code == 0x1A {
        "DDR4"@
    } else if code == 0x1B {
        "LPDDR"@
    } else if code == 0x1C {
        "LPDDR2"@
    } else if code == 0x1D {
        "LPDDR3"@
    } else if code == 0x1E {
        "LPDDR4"@
    } else if code == 0x18 {
        "DDR3"@
    } else if code == 0x22 {
        "DDR5"@
    } else if code == 0x23 {
        "LPDDR5"@
    } else {
        "?"@
    }
}

fn memory_type_string(code: u8) -> (s: String)
    ensures
        s@ == memory_type_name(code),
{
    let name = if code == 0x1A {
        "DDR4"
    } else if code == 0x1B {
        "LPDDR"
    } else if code == 0x1C {
        "LPDDR2"
    } else if code == 0x1D {
        "LPDDR3"
    } else if code == 0x1E {
        "LPDDR4"
    } else if code == 0x18 {
        "DDR3"
    } else if code == 0x22 {
        "DDR5"
    } else if code == 0x23 {
        "LPDDR5"
    } else {
        "?"
    };
    name.to_string()
}

/// Module size in KiB from the Size word (offset 0x0C): `0x7FFF` means the size is
/// the Extended Size dword (offset 0x1C, MiB, 0 when the structure is too short);
/// with bit 15 set the low 15 bits count KiB, otherwise MiB.
pub open spec fn size_kib(fmt: Seq<u8>) -> nat {
    let raw = le16(fmt, 0x0C);
    if raw == 0x7FFF {
        if fmt.len() >= 0x20 {
            (fmt[0x1C] as nat + fmt[0x1D] as nat * 0x100 + fmt[0x1E] as nat * 0x10000
                + fmt[0x1F] as nat * 0x1000000) * 1024
        } else {
            0
        }
    } else if raw >= 0x8000 {
        (raw - 0x8000) as nat
    } else {
        raw * 1024
    }
}

/// A manufacturer string, with placeholders shown as `"?"`.
pub open spec fn manufacturer_label(m: Seq<char>) -> Seq<char> {
    if m.len() == 0 || m == "Unknown"@ || m == "Not Specified"@ || m == "Undefined"@ {
        "?"@
    } else {
        m
    }
}

/// `"?"` in place of an empty string.
pub open spec fn or_question(s: Seq<char>) -> Seq<char> {
    if s.len() == 0 {
        "?"@
    } else {
        s
    }
}

/// The memory device described by a type 17 structure (formatted area `fmt`, string
/// area `strings`), or `None` for an empty slot (Size word 0).
pub open spec fn type17_device(fmt: Seq<u8>, strings: Seq<u8>) -> Option<SmbiosDeviceView> {
    if le16(fmt, 0x0C) == 0 {
        None
    } else {
        Some(
            SmbiosDeviceView {
                locator: or_question(string_number(strings, byte_or_zero(fmt, 0x10))),
                bank: string_number(strings, byte_or_zero(fmt, 0x11)),
                size_kb: size_kib(fmt),
                mem_type: memory_type_name(byte_or_zero(fmt, 0x12)),
                speed_mhz: le16(fmt, 0x15) as int,
                configured_speed_mhz: le16(fmt, 0x20) as int,
                voltage_mv: le16(fmt, 0x26),
                manufacturer: manufacturer_label(string_number(strings, byte_or_zero(fmt, 0x17))),
                part_number: or_question(string_number(strings, byte_or_zero(fmt, 0x1A))),
                serial: string_number(strings, byte_or_zero(fmt, 0x18)),
            },
        )
    }
}

/// A type 17 structure describes the module in its slot: the memory technology is the
/// one the SMBIOS code at offset 0x12 names (0x18 DDR3, 0x1A DDR4, 0x1B LPDDR, 0x1C
/// LPDDR2, 0x1D LPDDR3, 0x1E LPDDR4, 0x22 DDR5, 0x23 LPDDR5, `?` for any other code);
/// the size word at 0x0C counts MiB, or KiB when its top bit is set, and 0x7FFF defers to
/// the 32-bit MiB count at 0x1C; speeds and voltage are the little-endian words at 0x15,
/// 0x20 and 0x26 (MT/s, MT/s, mV). A size word of 0 is an empty slot.
pub proof fn law_type17_fields(fmt: Seq<u8>, strings: Seq<u8>)
    requires
        fmt.len() >= 0x28,
    ensures
        ({
            let raw = fmt[0x0C] as nat + fmt[0x0D] as nat * 256;
            let code = fmt[0x12];
            &&& (raw == 0 <==> type17_device(fmt, strings) is None)
            &&& raw != 0 ==> {
                let d = type17_device(fmt, strings).unwrap();
                &&& code == 0x18 ==> d.mem_type == "DDR3"@
                &&& code == 0x1A ==> d.mem_type == "DDR4"@
                &&& code == 0x1B ==> d.mem_type == "LPDDR"@
                &&& code == 0x1C ==> d.mem_type == "LPDDR2"@
                &&& code == 0x1D ==> d.mem_type == "LPDDR3"@
                &&& code == 0x1E ==> d.mem_type == "LPDDR4"@
                &&& code == 0x22 ==> d.mem_type == "DDR5"@
                &&& code == 0x23 ==> d.mem_type == "LPDDR5"@
                &&& (code != 0x18 && code != 0x1A && code != 0x1B && code != 0x1C && code != 0x1D
                    && code != 0x1E && code != 0x22 && code != 0x23) ==> d.mem_type == "?"@
                &&& raw < 0x7FFF ==> d.size_kb == raw * 1024
                &&& raw >= 0x8000 ==> d.size_kb == raw - 0x8000
                &&& raw == 0x7FFF ==> d.size_kb == (fmt[0x1C] as nat + fmt[0x1D] as nat * 256
                    + fmt[0x1E] as nat * 65536 + fmt[0x1F] as nat * 16777216) * 1024
                &&& d.speed_mhz == fmt[0x15] as nat + fmt[0x16] as nat * 256
                &&& d.configured_speed_mhz == fmt[0x20] as nat + fmt[0x21] as nat * 256
                &&& d.voltage_mv == fmt[0x26] as nat + fmt[0x27] as nat * 256
            }
        }),
{
    reveal_strlit("DDR3");
    reveal_strlit("DDR4");
    reveal_strlit("LPDDR");
    reveal_strlit("LPDDR2");
    reveal_strlit("LPDDR3");
    reveal_strlit("LPDDR4");
    reveal_strlit("DDR5");
    reveal_strlit("LPDDR5");
    reveal_strlit("?");
}

fn or_question_string(s: String) -> (r: String)
    ensures
        r@ == or_question(s@),
{
    if s.as_str().is_empty() {
        "?".to_string()
    } else {
        s
    }
}

pub fn parse_type17(fmt: &[u8], strings: &[u8]) -> (r: Option<SmbiosMemoryDevice>)
    ensures
        r matches Some(d) ==> type17_device(fmt@, strings@) == Some(d@),
        r is None ==> type17_device(fmt@, strings@) is None,
{
    let size_raw = u16_at(fmt, 0x0C);
    let locator = smbios_string(strings, byte_at(fmt, 0x10));
    let bank = smbios_string(strings, byte_at(fmt, 0x11));
    if size_raw == 0 {
        return None;
    }
    let size_kb: u64 = if size_raw == 0x7FFF {
        if fmt.len() >= 0x20 {
            let ext = fmt[0x1C] as u64 + fmt[0x1D] as u64 * 0x100 + fmt[0x1E] as u64 * 0x10000
                + fmt[0x1F] as u64 * 0x1000000;
            ext * 1024
        } else {
            0
        }
    } else if size_raw >= 0x8000 {
        (size_raw - 0x8000) as u64
    } else {
        size_raw as u64 * 1024
    };
    let mem_type = memory_type_string(byte_at(fmt, 0x12));
    let speed_mhz = u16_at(fmt, 0x15) as i64;
    let configured_speed_mhz = u16_at(fmt, 0x20) as i64;
    let m = smbios_string(strings, byte_at(fmt, 0x17));
    let manufacturer = if m.as_str().is_empty() || chars_eq_str(chars_of(m.as_str()).as_slice(), "Unknown")
        || chars_eq_str(chars_of(m.as_str()).as_slice(), "Not Specified") || chars_eq_str(
        chars_of(m.as_str()).as_slice(),
        "Undefined",
    ) {
        "?".to_string()
    } else {
        m
    };
    let serial = smbios_string(strings, byte_at(fmt, 0x18));
    let part_number = or_question_string(smbios_string(strings, byte_at(fmt, 0x1A)));
    let voltage_mv = u16_at(fmt, 0x26) as u64;
    let d = SmbiosMemoryDevice {
        locator: or_question_string(locator),
        bank,
        size_kb,
        mem_type,
        speed_mhz,
        configured_speed_mhz,
        voltage_mv,
        manufacturer,
        part_number,
        serial,
    };
    Some(d)
}

/// End of the string area of the structure whose strings start at `from`: the first
/// index `k >= from` with a double zero at `k`, or the last index when none is found.
pub open spec fn strings_end(data: Seq<u8>, from: int) -> int
    decreases data.len() - from,
{
    if 0 <= from && from + 1 < data.len() && !(data[from] == 0 && data[from + 1] == 0) {
        strings_end(data, from + 1)
    } else {
        from
    }
}

pub proof fn lemma_strings_end_bounds(data: Seq<u8>, from: int)
    requires
        0 <= from <= data.len(),
    ensures
        from <= strings_end(data, from) <= data.len(),
    decreases data.len() - from,
{
    if from + 1 < data.len() && !(data[from] == 0 && data[from + 1] == 0) {
        lemma_strings_end_bounds(data, from + 1);
    }
}

/// The type 17 structures of the table from offset `pos` on, in order: `Some` for a
/// slot with a module, `None` for an empty slot. The walk stops at the end of the
/// data, at a structure whose length is under 4 or runs past the end, and after the
/// End-of-Table structure (type 127).
pub open spec fn memory_devices_from(data: Seq<u8>, pos: int) -> Seq<Option<SmbiosDeviceView>>
    decreases data.len() + 2 - pos,
{
    if 0 <= pos && pos + 4 <= data.len() {
        let struct_type = data[pos];
        let length = data[pos + 1] as int;
        if length < 4 || pos + length > data.len() {
            seq![]
        } else {
            let e = strings_end(data, pos + length);
            let fmt = data.subrange(pos, pos + length);
            let strings = data.subrange(pos + length, e);
            let here = if struct_type == 17 {
                seq![type17_device(fmt, strings)]
            } else {
                seq![]
            };
            if struct_type == 127 {
                here
            } else {
                proof {
                    lemma_strings_end_bounds(data, pos + length);
                }
                here + memory_devices_from(data, e + 2)
            }
        }
    } else {
        seq![]
    }
}

/// The number of type 17 structures the walk of [`memory_devices_from`] visits.
pub open spec fn memory_device_count(data: Seq<u8>, pos: int) -> nat
    decreases data.len() + 2 - pos,
{
    if 0 <= pos && pos + 4 <= data.len() {
        let struct_type = data[pos];
        let length = data[pos + 1] as int;
        if length < 4 || pos + length > data.len() {
            0
        } else {
            let e = strings_end(data, pos + length);
            let here: nat = if struct_type == 17 {
                1
            } else {
                0
            };
            if struct_type == 127 {
                here
            } else {
                proof {
                    lemma_strings_end_bounds(data, pos + length);
                }
                here + memory_device_count(data, e + 2)
            }
        }
    } else {
        0
    }
}

pub proof fn lemma_memory_device_count(data: Seq<u8>, pos: int)
    ensures
        memory_devices_from(data, pos).len() == memory_device_count(data, pos),
    decreases data.len() + 2 - pos,
{
    if 0 <= pos && pos + 4 <= data.len() {
        let length = data[pos + 1] as int;
        if !(length < 4 || pos + length > data.len()) && data[pos] != 127 {
            lemma_strings_end_bounds(data, pos + length);
            lemma_memory_device_count(data, strings_end(data, pos + length) + 2);
        }
    }
}

/// Every structure takes at least four bytes, so a table holds at most a quarter of
/// its length in memory devices: `parse_smbios_table`'s bound on the count holds for
/// every table shorter than four times `u32::MAX` bytes.
pub proof fn lemma_memory_device_count_bound(data: Seq<u8>, pos: int)
    requires
        0 <= pos,
    ensures
        memory_device_count(data, pos) * 4 <= if pos <= data.len() {
            data.len() - pos
        } else {
            0
        },
        pos == 0 ==> memory_device_count(data, pos) <= data.len() / 4,
    decreases data.len() + 2 - pos,
{
    if pos + 4 <= data.len() {
        let length = data[pos + 1] as int;
        if !(length < 4 || pos + length > data.len()) && data[pos] != 127 {
            lemma_strings_end_bounds(data, pos + length);
            lemma_memory_device_count_bound(data, strings_end(data, pos + length) + 2);
        }
    }
}

/// The devices that are present, in order.
pub open spec fn present<T>(s: Seq<Option<T>>) -> Seq<T>
    decreases s.len(),
{
    if s.len() == 0 {
        seq![]
    } else {
        let p = present(s.drop_last());
        match s.last() {
            Some(x) => p.push(x),
            None => p,
        }
    }
}

pub proof fn lemma_present_push<T>(s: Seq<Option<T>>, x: Option<T>)
    ensures
        present(s.push(x)) == (match x {
            Some(v) => present(s).push(v),
            None => present(s),
        }),
{
    assert(s.push(x).drop_last() =~= s);
}

pub proof fn lemma_present_len<T>(s: Seq<Option<T>>)
    ensures
        present(s).len() <= s.len(),
    decreases s.len(),
{
    if s.len() > 0 {
        lemma_present_len(s.drop_last());
    }
}

/// The views of a list of devices.
pub open spec fn device_views(v: Seq<SmbiosMemoryDevice>) -> Seq<SmbiosDeviceView> {
    Seq::new(v.len(), |i: int| v[i]@)
}

/// Walks the SMBIOS table and collects its memory devices. `None` when the table
/// holds no type 17 structure.
pub fn parse_smbios_table(data: &[u8]) -> (r: Option<SmbiosMemoryInfo>)
    requires
        data@.len() <= isize::MAX,
        memory_device_count(data@, 0) <= u32::MAX,
    ensures
        r is None <==> memory_devices_from(data@, 0).len() == 0,
        r matches Some(info) ==> {
            &&& info.total_slots == memory_devices_from(data@, 0).len()
            &&& device_views(info.slots@) == present(memory_devices_from(data@, 0))
            &&& info.occupied_slots == present(memory_devices_from(data@, 0)).len()
            &&& info.occupied_slots <= info.total_slots
        },
{
    proof {
        lemma_memory_device_count(data@, 0);
    }
    let mut slots: Vec<SmbiosMemoryDevice> = Vec::new();
    let mut total: u32 = 0;
    let mut occupied: u32 = 0;
    let mut pos: usize = 0;
    let ghost all = memory_devices_from(data@, 0);
    let ghost mut seen: Seq<Option<SmbiosDeviceView>> = seq![];
    loop
        invariant_except_break
            all == seen + memory_devices_from(data@, pos as int),
        invariant
            data@.len() <= isize::MAX,
            pos <= data@.len() + 2,
            all == memory_devices_from(data@, 0),
            all.len() <= u32::MAX,
            total == seen.len(),
            device_views(slots@) == present(seen),
            occupied == present(seen).len(),
        ensures
            all == seen,
        decreases data@.len() + 2 - pos,
    {
        if !(pos <= data.len() && 4 <= data.len() - pos) {
            assert(seen + memory_devices_from(data@, pos as int) =~= seen);
            break;
        }
        let struct_type = data[pos];
        let length = data[pos + 1] as usize;
        if length < 4 || length > data.len() - pos {
            assert(seen + memory_devices_from(data@, pos as int) =~= seen);
            break;
        }
        let mut str_end = pos + length;
        while str_end + 1 < data.len() && !(data[str_end] == 0 && data[str_end + 1] == 0)
            invariant
                pos + length <= str_end <= data@.len(),
                data@.len() <= isize::MAX,
                strings_end(data@, pos + length as int) == strings_end(data@, str_end as int),
            decreases data@.len() - str_end,
        {
            str_end = str_end + 1;
        }
        proof {
            lemma_strings_end_bounds(data@, pos + length as int);
        }
        let ghost next = memory_devices_from(data@, str_end + 2);
        let fmt = &data[pos..pos + length];
        let strings = &data[pos + length..str_end];
        assert(fmt@ =~= data@.subrange(pos as int, pos + length));
        assert(strings@ =~= data@.subrange(pos + length, str_end as int));
        let ghost here: Seq<Option<SmbiosDeviceView>> = if struct_type == 17 {
            seq![type17_device(fmt@, strings@)]
        } else {
            seq![]
        };
        assert(memory_devices_from(data@, pos as int) == if struct_type == 127 {
            here
        } else {
            here + next
        });
        if struct_type == 17 {
            let ghost dev = type17_device(fmt@, strings@);
            proof {
                assert(all =~= seen.push(dev) + next);
                lemma_present_push(seen, dev);
                lemma_present_len(seen.push(dev));
            }
            total = total + 1;
            let parsed = parse_type17(fmt, strings);
            match parsed {
                Some(slot) => {
                    occupied = occupied + 1;
                    slots.push(slot);
                },
                None => {},
            }
            proof {
                seen = seen.push(dev);
                assert(device_views(slots@) =~= present(seen));
            }
        } else {
            assert(here =~= seq![]);
        }
        if struct_type == 127 {
            assert(all =~= seen);
            break;
        }
        assert(all =~= seen + next);
        pos = str_end + 2;
    }
    proof {
        lemma_present_len(seen);
    }
    if total > 0 {
        Some(SmbiosMemoryInfo { slots, total_slots: total, occupied_slots: occupied })
    } else {
        None
    }
}

} // verus!
