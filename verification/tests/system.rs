use machctrl::gpu::{nvidia_fan_auto_commands, nvidia_fan_speed_commands};
use machctrl::gpu::drm_cards;
use machctrl::text::sort_names;
use machctrl::disks::parse_df;
use machctrl::gpu::{is_amd_vendor, is_drm_card, parse_nvidia_csv};
use machctrl::sysinfo::{bios_from, install_date_from, motherboard_from, product_name_from};

#[test]
fn motherboard_names() {
    assert_eq!(motherboard_from(Some("MACHINIST\n"), Some("X99-RS9\n")), "MACHINIST X99-RS9");
    assert_eq!(motherboard_from(None, Some("X99")), "X99");
    assert_eq!(motherboard_from(Some("ASUS "), Some("  ")), "ASUS");
    assert_eq!(motherboard_from(None, None), "Desconhecida");
}

#[test]
fn product_names() {
    assert_eq!(product_name_from(Some("E5-D8-MAX\n"), Some("V1.0\n"), "MB"), "E5-D8-MAX (V1.0)");
    assert_eq!(product_name_from(Some("E5-D8-MAX"), Some("To Be Filled By O.E.M."), "MB"), "E5-D8-MAX");
    assert_eq!(product_name_from(Some("Default string"), Some("1.0"), "MB"), "MB");
    assert_eq!(product_name_from(Some("System Product Name"), None, "Board"), "Board");
    assert_eq!(product_name_from(None, Some("2.0"), "Board"), "Board");
    assert_eq!(product_name_from(Some("NONE"), Some("none"), "B"), "B");
}

#[test]
fn bios_text() {
    assert_eq!(bios_from(Some("American Megatrends Inc.\n"), Some("12/20/2022\n")), "American Megatrends Inc. 12/20/2022");
    assert_eq!(bios_from(None, Some("01/01/2020")), "01/01/2020");
    assert_eq!(bios_from(Some("AMI"), None), "AMI");
    assert_eq!(bios_from(None, None), "");
}

#[test]
fn install_dates() {
    assert_eq!(install_date_from(Some("2026-05-30 10:11:12.000000000 -0300\n"), None), "2026-05-30");
    // birth time unknown: modification date of the fallback file
    assert_eq!(install_date_from(Some("-\n"), Some("2024-01-02 03:04:05 +0000\n")), "2024-01-02");
    assert_eq!(install_date_from(Some("0"), Some("2024-01-02 x")), "2024-01-02");
    // a birth time without a date is not used
    assert_eq!(install_date_from(Some("12345"), Some("2024-01-02")), "2024-01-02");
    assert_eq!(install_date_from(None, None), "—");
    assert_eq!(install_date_from(Some(""), Some("  ")), "—");
}

#[test]
fn drm_cards_and_vendors() {
    assert!(is_drm_card("card0"));
    assert!(is_drm_card("card12"));
    assert!(!is_drm_card("card0-HDMI-A-1"));
    assert!(!is_drm_card("renderD128"));
    assert!(is_amd_vendor("0x1002\n"));
    assert!(!is_amd_vendor("0x10de\n"));
}

#[test]
fn nvidia_csv_rows() {
    let out = "0, 45, 62, NVIDIA GeForce RTX 3080, 17, 1024, 10240\n\
1, [N/A], 40, Tesla T4, 0, 0, 15360\n\
x, 1, 2, bad, 3, 4, 5\n\
2, 3, 4\n";
    let rows = parse_nvidia_csv(out);
    assert_eq!(rows.len(), 2);
    assert_eq!(rows[0].index, 0);
    assert_eq!(rows[0].fan_pct, Some(45));
    assert_eq!(rows[0].temp_text, "62");
    assert_eq!(rows[0].name, "NVIDIA GeForce RTX 3080");
    assert_eq!(rows[0].usage_text, "17");
    assert_eq!(rows[0].vram_used_text, "1024");
    assert_eq!(rows[0].vram_total_text, "10240");
    assert_eq!(rows[1].index, 1);
    assert_eq!(rows[1].fan_pct, None);
    assert!(parse_nvidia_csv("").is_empty());
}

#[test]
fn df_filesystems() {
    let out = "Mounted on Type Size Used Avail\n\
/ ext4 100000 40000 60000\n\
/home btrfs 200000 1000 199000\n\
/dev devtmpfs 1 1 1\n\
/run/user/1000 tmpfs 1 1 1\n\
/tmp tmpfs 5 1 4\n\
/mnt/share nfs4 9 9 0\n\
/media/fuse fuse.sshfs 9 9 0\n\
/boot vfat 500\n\
none ext4 1 1 1\n";
    let rows = parse_df(out);
    assert_eq!(rows.len(), 2);
    assert_eq!(rows[0].mountpoint, "/");
    assert_eq!(rows[0].fstype, "ext4");
    assert_eq!(rows[0].size_text, "100000");
    assert_eq!(rows[0].used_text, "40000");
    assert_eq!(rows[0].avail_text, "60000");
    assert_eq!(rows[1].mountpoint, "/home");
    assert!(parse_df("").is_empty());
    // the header line is always skipped
    assert!(parse_df("/ ext4 1 1 1\n").is_empty());
}

#[test]
fn nvidia_fan_commands() {
    let c = nvidia_fan_speed_commands(1, 150);
    assert_eq!(c.manual_args, vec!["-i", "1", "--fan-control=1"]);
    assert_eq!(c.speed_args, vec!["-i", "1", "--assign-gpu-fan-speed=0=100"]);
    assert_eq!(c.settings_args, vec!["-a", "[gpu:1]/GPUFanControlState=1", "-a", "[fan:1]/GPUTargetFanSpeed=100"]);
    let c = nvidia_fan_speed_commands(-3, -7);
    assert_eq!(c.speed_args, vec!["-i", "-3", "--assign-gpu-fan-speed=0=0"]);
    let c = nvidia_fan_speed_commands(0, 42);
    assert_eq!(c.settings_args[3], "[fan:0]/GPUTargetFanSpeed=42");
    let (smi, settings) = nvidia_fan_auto_commands(2);
    assert_eq!(smi, vec!["-i", "2", "--fan-control=0"]);
    assert_eq!(settings, vec!["-a", "[gpu:2]/GPUFanControlState=0"]);
}

#[test]
fn drm_cards_in_name_order() {
    let entries: Vec<String> = ["renderD128", "card1", "card0-DP-1", "card10", "card0", "version"]
        .iter()
        .map(|s| s.to_string())
        .collect();
    assert_eq!(drm_cards(entries), vec!["card0", "card1", "card10"]);
    assert!(drm_cards(Vec::new()).is_empty());
}

#[test]
fn names_sorted_like_strings() {
    let v: Vec<String> = ["temp2_input", "fan1_input", "temp10_input", "Zed", "fan1_input", "é", ""]
        .iter()
        .map(|s| s.to_string())
        .collect();
    let mut expected = v.clone();
    expected.sort();
    assert_eq!(sort_names(v), expected);
}
