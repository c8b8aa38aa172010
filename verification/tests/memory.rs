use machctrl::dmi::{field, first_occupied_source, parse_dmidecode_blocks, size_parts_exec, slot_counts, SizeUnit};
use machctrl::smbios::{parse_smbios_table, parse_type17, smbios_string, u16_at};

fn chars(s: &str) -> Vec<char> {
    s.chars().collect()
}

fn text(v: Option<Vec<char>>) -> Option<String> {
    v.map(|c| c.into_iter().collect())
}

const DMIDECODE: &str = "# dmidecode 3.5\n\
Handle 0x0040, DMI type 17, 92 bytes\n\
Memory Device\n\
\tArray Handle: 0x003F\n\
\tSize: 16 GB\n\
\tLocator: DIMM_A1\n\
\tBank Locator: BANK 0\n\
\tType: DDR4\n\
\tType Detail: Synchronous\n\
\tSpeed: 2400 MT/s\n\
\tManufacturer: Samsung\n\
\tSerial Number: 1234ABCD\n\
\tPart Number: M393A2K40BB1-CRC\n\
\tRank: 2\n\
\tConfigured Memory Speed: 2133 MT/s\n\
\tMinimum Voltage: 1.2 V\n\
\tConfigured Voltage: 1.2 V\n\
\n\
Handle 0x0041, DMI type 17, 92 bytes\n\
Memory Device\n\
\tSize: No Module Installed\n\
\tLocator: DIMM_A2\n\
\tManufacturer: Not Specified\n\
\n\
Handle 0x0042, DMI type 17, 92 bytes\n\
Memory Device\n\
\tSize: 8192 MB\n\
\tLocator: DIMM_B1\n\
\tType: DDR3\n\
\tSpeed: Unknown\n\
\tManufacturer: Unknown\n\
\tConfigured Clock Speed: 1600 MHz\n\
\tMinimum Voltage: 1.5 V\n\
\tRank: two\n\
\n\
Handle 0x0043\n\
Memory Device\n\
\tLocator: NOSIZE\n";

#[test]
fn dmidecode_slots() {
    let d = parse_dmidecode_blocks(DMIDECODE);
    assert_eq!(d.len(), 3);
    let a = &d[0];
    assert_eq!(a.size, Some(("16".to_string(), SizeUnit::Gib)));
    assert_eq!(a.locator, "DIMM_A1");
    assert_eq!(a.bank, "BANK 0");
    assert_eq!(a.mem_type, "DDR4");
    assert_eq!(a.speed_mhz, 2400);
    assert_eq!(a.configured_speed_mhz, 2133);
    assert_eq!(a.voltage_text.as_deref(), Some("1.2"));
    assert_eq!(a.manufacturer, "Samsung");
    assert_eq!(a.serial, "1234ABCD");
    assert_eq!(a.part_number, "M393A2K40BB1-CRC");
    assert_eq!(a.rank, 2);

    let e = &d[1];
    assert_eq!(e.size, None);
    assert_eq!(e.locator, "DIMM_A2");
    assert_eq!(e.manufacturer, "?");
    assert_eq!(e.mem_type, "?");
    assert_eq!(e.part_number, "?");
    assert_eq!(e.bank, "");
    assert_eq!(e.voltage_text, None);

    let b = &d[2];
    assert_eq!(b.size, Some(("8192".to_string(), SizeUnit::Mib)));
    assert_eq!(b.mem_type, "DDR3");
    assert_eq!(b.speed_mhz, 0);
    assert_eq!(b.configured_speed_mhz, 1600);
    assert_eq!(b.voltage_text.as_deref(), Some("1.5"));
    assert_eq!(b.manufacturer, "?");
    assert_eq!(b.rank, 0);

    assert!(parse_dmidecode_blocks("no devices here").is_empty());
}

#[test]
fn dmidecode_fields_and_sizes() {
    let block = chars("\n\tLocator: X\n\tBank Locator: Y\n  Size :  1 GB\n");
    assert_eq!(text(field(&block, "Locator")).as_deref(), Some("X"));
    assert_eq!(text(field(&block, "Bank Locator")).as_deref(), Some("Y"));
    // the colon must follow the name directly
    assert_eq!(field(&block, "Size"), None);
    assert_eq!(field(&block, "Rank"), None);

    let sp = |s: &str| size_parts_exec(&chars(s)).map(|(v, u)| (v.into_iter().collect::<String>(), u));
    assert_eq!(sp("32 GB"), Some(("32".to_string(), SizeUnit::Gib)));
    assert_eq!(sp("512 kB"), Some(("512".to_string(), SizeUnit::Kib)));
    assert_eq!(sp("2 TiB"), Some(("2".to_string(), SizeUnit::Tib)));
    assert_eq!(sp("4 MiB"), Some(("4".to_string(), SizeUnit::Mib)));
    assert_eq!(sp("4 bananas"), Some(("4".to_string(), SizeUnit::Gib)));
    assert_eq!(sp("0"), None);
    assert_eq!(sp("No Module Installed"), None);
    assert_eq!(sp("Not Installed"), None);
    assert_eq!(sp("16"), None);
}

#[test]
fn smbios_helpers() {
    assert_eq!(u16_at(&[0x34, 0x12, 0xff], 0), 0x1234);
    assert_eq!(u16_at(&[0x34, 0x12, 0xff], 1), 0xff12);
    assert_eq!(u16_at(&[0x34, 0x12, 0xff], 2), 0);
    let strings = b"  DIMM 0 \0BANK 1\0\0";
    assert_eq!(smbios_string(strings, 0), "");
    assert_eq!(smbios_string(strings, 1), "DIMM 0");
    assert_eq!(smbios_string(strings, 2), "BANK 1");
    assert_eq!(smbios_string(strings, 3), "");
    assert_eq!(smbios_string(strings, 9), "");
    assert_eq!(smbios_string(b"caf\xc3\xa9\0", 1), "café");
}

fn type17(size: u16, ext_mb: u32, type_code: u8, speed: u16, cfg: u16, mv: u16) -> Vec<u8> {
    let mut f = vec![0u8; 0x28];
    f[0] = 17;
    f[1] = 0x28;
    f[0x0C..0x0E].copy_from_slice(&size.to_le_bytes());
    f[0x10] = 1; // locator
    f[0x11] = 2; // bank
    f[0x12] = type_code;
    f[0x15..0x17].copy_from_slice(&speed.to_le_bytes());
    f[0x17] = 3; // manufacturer
    f[0x18] = 4; // serial
    f[0x1A] = 5; // part number
    f[0x1C..0x20].copy_from_slice(&ext_mb.to_le_bytes());
    f[0x20..0x22].copy_from_slice(&cfg.to_le_bytes());
    f[0x26..0x28].copy_from_slice(&mv.to_le_bytes());
    f
}

const STRINGS: &[u8] = b"DIMM_A1\0BANK 0\0Unknown\0SER1\0PN-1\0\0";

#[test]
fn type17_valid_strings_read_as_themselves() {
    let mut f = vec![0u8; 0x28];
    f[0x0C] = 0x00;
    f[0x0D] = 0x20;
    f[0x10] = 1;
    f[0x12] = 0x1A;
    f[0x15] = 0x80;
    f[0x16] = 0x0C;
    f[0x17] = 2;
    f[0x26] = 0xB0;
    f[0x27] = 0x04;
    let d = parse_type17(&f, b"DIMM_A1\0Kingston").unwrap();
    assert_eq!(d.locator, "DIMM_A1");
    assert_eq!(d.manufacturer, "Kingston");
    assert_eq!(d.bank, "");
    assert_eq!(d.size_kb, 8192 * 1024);
    assert_eq!(d.mem_type, "DDR4");
    assert_eq!(d.speed_mhz, 3200);
    assert_eq!(d.configured_speed_mhz, 0);
    assert_eq!(d.voltage_mv, 1200);
    assert_eq!(d.part_number, "?");
    assert_eq!(d.serial, "");
    let s = b"DIMM_A1\0 Kingston ";
    assert_eq!(smbios_string(s, 1), "DIMM_A1");
    assert_eq!(smbios_string(s, 2), "Kingston");
    assert_eq!(smbios_string(s, 0), "");
    assert_eq!(smbios_string(s, 3), "");
    // invalid UTF-8 is replaced
    assert_eq!(smbios_string(b"A\xffB", 1), "A\u{fffd}B");
}

#[test]
fn type17_structures() {
    let d = parse_type17(&type17(16384, 0, 0x1A, 3200, 2933, 1200), STRINGS).unwrap();
    assert_eq!(d.locator, "DIMM_A1");
    assert_eq!(d.bank, "BANK 0");
    assert_eq!(d.size_kb, 16384 * 1024);
    assert_eq!(d.mem_type, "DDR4");
    assert_eq!(d.speed_mhz, 3200);
    assert_eq!(d.configured_speed_mhz, 2933);
    assert_eq!(d.voltage_mv, 1200);
    assert_eq!(d.manufacturer, "?");
    assert_eq!(d.serial, "SER1");
    assert_eq!(d.part_number, "PN-1");

    // extended size, in MiB
    let d = parse_type17(&type17(0x7FFF, 65536, 0x22, 0, 0, 0), STRINGS).unwrap();
    assert_eq!(d.size_kb, 65536 * 1024);
    assert_eq!(d.mem_type, "DDR5");
    // size in KiB
    let d = parse_type17(&type17(0x8000 | 512, 0, 0x18, 0, 0, 0), STRINGS).unwrap();
    assert_eq!(d.size_kb, 512);
    assert_eq!(d.mem_type, "DDR3");
    let d = parse_type17(&type17(1, 0, 0x99, 0, 0, 0), b"\0\0").unwrap();
    assert_eq!(d.mem_type, "?");
    assert_eq!(d.locator, "?");
    assert_eq!(d.part_number, "?");
    assert_eq!(d.bank, "");
    // empty slot
    assert!(parse_type17(&type17(0, 0, 0x1A, 0, 0, 0), STRINGS).is_none());
    // a short structure reads missing bytes as 0
    let d = parse_type17(&[17, 0x0E, 0, 0, 0, 0, 0, 0, 0, 0, 0, 0, 0x00, 0x04], b"").unwrap();
    assert_eq!(d.size_kb, 1024 * 1024);
    assert_eq!(d.speed_mhz, 0);
}

#[test]
fn smbios_table_walk() {
    let mut table: Vec<u8> = Vec::new();
    // a type 0 structure with a string
    table.extend_from_slice(&[0, 4, 0, 0]);
    table.extend_from_slice(b"BIOS\0\0");
    table.extend(type17(8192, 0, 0x1A, 2666, 2666, 1200));
    table.extend_from_slice(STRINGS);
    table.extend(type17(0, 0, 0x1A, 0, 0, 0));
    table.extend_from_slice(b"\0\0");
    table.extend(type17(4096, 0, 0x1A, 2666, 2666, 1200));
    table.extend_from_slice(b"DIMM_B1\0\0");
    table.extend_from_slice(&[127, 4, 0, 0, 0, 0]);
    // bytes after the end-of-table marker are ignored
    table.extend(type17(4096, 0, 0x1A, 2666, 2666, 1200));
    table.extend_from_slice(b"\0\0");

    let info = parse_smbios_table(&table).unwrap();
    assert_eq!(info.total_slots, 3);
    assert_eq!(info.occupied_slots, 2);
    assert_eq!(info.slots.len(), 2);
    assert_eq!(info.slots[0].locator, "DIMM_A1");
    assert_eq!(info.slots[0].size_kb, 8192 * 1024);
    assert_eq!(info.slots[1].locator, "DIMM_B1");
    assert_eq!(info.slots[1].size_kb, 4096 * 1024);

    assert!(parse_smbios_table(&[0, 4, 0, 0, 0, 0]).is_none());
    assert!(parse_smbios_table(&[]).is_none());
    // a structure whose length runs past the data stops the walk
    assert!(parse_smbios_table(&[17, 0x28, 0, 0]).is_none());
}

#[test]
fn slot_counting_and_source_choice() {
    assert_eq!(slot_counts(&[true, false, true]), (3, 2));
    assert_eq!(slot_counts(&[]), (0, 0));
    assert_eq!(first_occupied_source(&[0, 2, 4]), Some(1));
    assert_eq!(first_occupied_source(&[3, 0, 0]), Some(0));
    assert_eq!(first_occupied_source(&[0, 0, 0]), None);
}
