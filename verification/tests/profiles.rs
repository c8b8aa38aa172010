use machctrl::profiles::apply_result;
use machctrl::profiles::{
    get_available_profiles, get_current_profile, get_profiles_info, governors_from, profile_governor,
};

fn govs(list: &[&str]) -> Vec<String> {
    list.iter().map(|s| s.to_string()).collect()
}

#[test]
fn governors_of_the_file() {
    assert_eq!(governors_from(Some(" performance powersave\n")), govs(&["performance", "powersave"]));
    assert!(governors_from(Some("\n")).is_empty());
    assert!(governors_from(None).is_empty());
}

#[test]
fn profiles_offered() {
    let (p, g, pstate) = get_available_profiles(govs(&["performance", "powersave"]), true);
    assert_eq!(p, govs(&["silent", "balanced", "performance"]));
    assert_eq!(g, govs(&["performance", "powersave"]));
    assert!(pstate);
    let (p, _, _) = get_available_profiles(govs(&["conservative", "ondemand", "userspace", "powersave", "performance", "schedutil"]), false);
    assert_eq!(p, govs(&["silent", "balanced", "performance"]));
    let (p, _, _) = get_available_profiles(govs(&["performance"]), false);
    assert_eq!(p, govs(&["performance"]));
    let (p, _, _) = get_available_profiles(govs(&["conservative"]), false);
    assert_eq!(p, govs(&["balanced"]));
    let (p, _, _) = get_available_profiles(govs(&["userspace"]), false);
    assert_eq!(p, govs(&["balanced"]));
    let (p, _, pstate) = get_available_profiles(Vec::new(), false);
    assert_eq!(p, govs(&["balanced"]));
    assert!(!pstate);
}

#[test]
fn profile_in_effect_with_pstate() {
    let g = govs(&[]);
    assert_eq!(get_current_profile(&g, true, Some("powersave\n"), Some("40\n")), "silent");
    assert_eq!(get_current_profile(&g, true, Some("powersave\n"), Some("50")), "silent");
    assert_eq!(get_current_profile(&g, true, Some("powersave\n"), Some("51")), "balanced");
    assert_eq!(get_current_profile(&g, true, Some("powersave"), None), "balanced");
    assert_eq!(get_current_profile(&g, true, Some("powersave"), Some("x")), "balanced");
    assert_eq!(get_current_profile(&g, true, Some("powersave"), Some("-5")), "silent");
    assert_eq!(get_current_profile(&g, true, Some("performance"), Some("10")), "performance");
    assert_eq!(get_current_profile(&g, true, None, Some("10")), "balanced");
}

#[test]
fn profile_in_effect_without_pstate() {
    let g = govs(&[]);
    assert_eq!(get_current_profile(&g, false, Some("powersave\n"), None), "silent");
    assert_eq!(get_current_profile(&g, false, Some("conservative"), None), "silent");
    assert_eq!(get_current_profile(&g, false, Some("schedutil"), None), "balanced");
    assert_eq!(get_current_profile(&g, false, Some(" ondemand "), None), "balanced");
    assert_eq!(get_current_profile(&g, false, Some("performance"), Some("10")), "performance");
    assert_eq!(get_current_profile(&g, false, Some("userspace"), None), "balanced");
    assert_eq!(get_current_profile(&g, false, None, None), "balanced");
}

#[test]
fn profiles_info_from_files() {
    let info = get_profiles_info(Some("performance powersave\n"), false, Some("performance\n"), None);
    assert_eq!(info.available_profiles, govs(&["silent", "performance"]));
    assert_eq!(info.available_governors, govs(&["performance", "powersave"]));
    assert_eq!(info.current_profile, "performance");
    assert!(!info.has_pstate);
    let info = get_profiles_info(None, true, Some("powersave"), Some("30"));
    assert_eq!(info.available_profiles, govs(&["silent", "balanced", "performance"]));
    assert!(info.available_governors.is_empty());
    assert_eq!(info.current_profile, "silent");
}

#[test]
fn governor_for_each_profile() {
    let all = govs(&["performance", "powersave", "ondemand", "schedutil"]);
    assert_eq!(profile_governor("silent", &all), "powersave");
    assert_eq!(profile_governor("balanced", &all), "schedutil");
    assert_eq!(profile_governor("balanced", &govs(&["ondemand", "powersave"])), "ondemand");
    assert_eq!(profile_governor("balanced", &govs(&["conservative"])), "powersave");
    assert_eq!(profile_governor("performance", &[]), "performance");
    assert_eq!(profile_governor("turbo", &all), "schedutil");
}

#[test]
fn applied_profile_reads_back() {
    // every offered profile, applied without intel_pstate, reads back as itself
    let g = govs(&["performance", "powersave", "schedutil"]);
    let (offered, _, _) = get_available_profiles(g.clone(), false);
    for p in &offered {
        let gov = profile_governor(p, &g);
        assert_eq!(&get_current_profile(&g, false, Some(&gov), None), p);
    }
    // the exception: balanced offered only through conservative reads back as silent
    let g = govs(&["conservative", "powersave"]);
    let gov = profile_governor("balanced", &g);
    assert_eq!(get_current_profile(&g, false, Some(&gov), None), "silent");
}

#[test]
fn governor_paths() {
    assert_eq!(machctrl::profiles::governor_path(0), "/sys/devices/system/cpu/cpu0/cpufreq/scaling_governor");
    assert_eq!(machctrl::profiles::governor_path(27), "/sys/devices/system/cpu/cpu27/cpufreq/scaling_governor");
}

#[test]
fn result_of_applying_a_profile() {
    assert_eq!(apply_result(&[None, Some(Err("e1".to_string())), Some(Ok(())), None]), Ok(()));
    assert_eq!(
        apply_result(&[Some(Err("e1".to_string())), None, Some(Err("e2".to_string()))]),
        Err("e2".to_string())
    );
    assert_eq!(apply_result(&[None, None]), Err("nenhuma CPU com cpufreq encontrada".to_string()));
    assert_eq!(apply_result(&[]), Err("nenhuma CPU com cpufreq encontrada".to_string()));
}

#[test]
fn energy_page_cards() {
    let info = get_profiles_info(Some("performance powersave\n"), false, Some("powersave\n"), None);
    let cards = machctrl::profiles::profile_cards(&info);
    assert_eq!(cards.len(), 2);
    assert_eq!(cards[0].id, "silent");
    assert_eq!(cards[0].title, "Economia");
    assert_eq!(cards[0].description, "Baixo consumo · Silencioso");
    assert!(cards[0].active);
    assert_eq!(cards[1].id, "performance");
    assert_eq!(cards[1].title, "Desempenho");
    assert_eq!(cards[1].description, "Máximo desempenho");
    assert!(!cards[1].active);
    let info = get_profiles_info(None, true, Some("schedutil"), None);
    let cards = machctrl::profiles::profile_cards(&info);
    assert_eq!(cards.len(), 3);
    assert_eq!(cards[1].title, "Equilibrado");
    assert!(cards[1].active);
}
