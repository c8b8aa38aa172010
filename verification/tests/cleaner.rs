use machctrl::cleaner::{
    available_clean_tasks, clean_result, clean_task_kind, docker_reclaimed, parse_docker_size, fmt_size,
    CleanEnvironment, CleanOutcome, CleanTaskKind,
};
use machctrl::cleaner::{
    clean_report, du_bytes, removal_tally, flatpak_removed, kind_of_outcome, old_temp_paths, orphan_packages, TempEntry, TempRoot,
    TMP_MAX_AGE_DAYS, VAR_TMP_MAX_AGE_DAYS,
};

fn float_fmt_size(b: u64) -> String {
    if b == 0 {
        return "0 B".to_string();
    }
    if b >= 1_073_741_824 {
        format!("{:.2} GB", b as f64 / 1_073_741_824.0)
    } else if b >= 1_048_576 {
        format!("{:.1} MB", b as f64 / 1_048_576.0)
    } else if b >= 1024 {
        format!("{:.0} KB", b as f64 / 1024.0)
    } else {
        format!("{b} B")
    }
}

#[test]
fn fmt_size_exact_values() {
    assert_eq!(fmt_size(0), "0 B");
    assert_eq!(fmt_size(1), "1 B");
    assert_eq!(fmt_size(1023), "1023 B");
    assert_eq!(fmt_size(1024), "1 KB");
    assert_eq!(fmt_size(1536), "2 KB");
    assert_eq!(fmt_size(2560), "2 KB");
    assert_eq!(fmt_size(1_048_576), "1.0 MB");
    assert_eq!(fmt_size(1_572_864), "1.5 MB");
    assert_eq!(fmt_size(1_073_741_824), "1.00 GB");
    assert_eq!(fmt_size(u64::MAX), "17179869184.00 GB");
}

#[test]
fn fmt_size_matches_float_formatting() {
    let mut probes: Vec<u64> = Vec::new();
    for b in 0..5000u64 {
        probes.push(b);
    }
    for k in 0..4000u64 {
        probes.push(1_048_576 + k * 13_107);
        probes.push(1_048_576 * 3 + k * 52_429);
        probes.push(1_073_741_824 + k * 10_737_418);
        probes.push(1_073_741_824 * 7 + k * 5_368_709);
    }
    // halfway points of each precision
    for k in 0..300u64 {
        probes.push(1024 * k + 512);
        probes.push(1_048_576 * k + 52_428);
        probes.push(1_048_576 * k + 52_429);
        probes.push(1_048_576 * (k + 1) + 1_048_576 / 20);
        probes.push(1_073_741_824 * (k + 1) + 1_073_741_824 / 200);
        probes.push(1_073_741_824 * (k + 1) + 5_368_709);
        probes.push(1_073_741_824 * (k + 1) + 5_368_710);
    }
    // values beyond 2^53, where the conversion to f64 rounds
    for k in 0..2000u64 {
        probes.push((1u64 << 53) + k);
        probes.push((1u64 << 60) + k * 977);
        probes.push(u64::MAX - k * 1_000_003);
        probes.push(((1u64 << 54) + 3) * (k + 1) % (u64::MAX / 2));
    }
    for b in probes {
        assert_eq!(fmt_size(b), float_fmt_size(b), "b = {b}");
    }
}

#[test]
fn tasks_without_optional_tools() {
    let env = CleanEnvironment {
        trash_size: 0,
        pip_cache: false,
        npm_cache: false,
        yarn_cache: false,
        docker: false,
        flatpak: false,
    };
    let tasks = available_clean_tasks(&env);
    let ids: Vec<&str> = tasks.iter().map(|t| t.id.as_str()).collect();
    assert_eq!(
        ids,
        vec!["pacman-cache", "pacman-orphans", "journal-logs", "temp-files", "thumb-cache", "coredumps", "trash"]
    );
    assert_eq!(tasks[6].description, "Esvazia a lixeira (~/.local/share/Trash)");
    assert!(tasks[0].needs_root);
    assert!(!tasks[4].needs_root);
    assert_eq!(tasks[1].label, "Pacotes Órfãos");
}

#[test]
fn tasks_with_all_tools_and_full_trash() {
    let env = CleanEnvironment {
        trash_size: 3 * 1_048_576,
        pip_cache: true,
        npm_cache: true,
        yarn_cache: true,
        docker: true,
        flatpak: true,
    };
    let tasks = available_clean_tasks(&env);
    let ids: Vec<&str> = tasks.iter().map(|t| t.id.as_str()).collect();
    assert_eq!(
        ids,
        vec![
            "pacman-cache", "pacman-orphans", "journal-logs", "temp-files", "thumb-cache", "coredumps",
            "trash", "pip-cache", "npm-cache", "yarn-cache", "docker-prune", "flatpak-unused"
        ]
    );
    assert_eq!(tasks[6].description, "Esvazia a lixeira — 3.0 MB em uso");
    assert!(tasks[10].needs_root);
    assert_eq!(tasks[11].label, "Flatpak não usados");
}

#[test]
fn tasks_with_some_tools() {
    let env = CleanEnvironment {
        trash_size: 0,
        pip_cache: false,
        npm_cache: true,
        yarn_cache: false,
        docker: false,
        flatpak: true,
    };
    let ids: Vec<String> = available_clean_tasks(&env).into_iter().map(|t| t.id).collect();
    assert_eq!(ids.len(), 9);
    assert_eq!(ids[7], "npm-cache");
    assert_eq!(ids[8], "flatpak-unused");
}

#[test]
fn task_ids_name_their_kinds() {
    assert_eq!(clean_task_kind("pacman-cache"), CleanTaskKind::PacmanCache);
    assert_eq!(clean_task_kind("pacman-orphans"), CleanTaskKind::PacmanOrphans);
    assert_eq!(clean_task_kind("journal-logs"), CleanTaskKind::JournalLogs);
    assert_eq!(clean_task_kind("temp-files"), CleanTaskKind::TempFiles);
    assert_eq!(clean_task_kind("thumb-cache"), CleanTaskKind::ThumbCache);
    assert_eq!(clean_task_kind("coredumps"), CleanTaskKind::Coredumps);
    assert_eq!(clean_task_kind("trash"), CleanTaskKind::Trash);
    assert_eq!(clean_task_kind("pip-cache"), CleanTaskKind::PipCache);
    assert_eq!(clean_task_kind("npm-cache"), CleanTaskKind::NpmCache);
    assert_eq!(clean_task_kind("yarn-cache"), CleanTaskKind::YarnCache);
    assert_eq!(clean_task_kind("docker-prune"), CleanTaskKind::DockerPrune);
    assert_eq!(clean_task_kind("flatpak-unused"), CleanTaskKind::FlatpakUnused);
    assert_eq!(clean_task_kind("Trash"), CleanTaskKind::Unknown);
    assert_eq!(clean_task_kind(""), CleanTaskKind::Unknown);
    assert_eq!(clean_task_kind("trash "), CleanTaskKind::Unknown);
}

#[test]
fn results_of_sized_tasks() {
    let r = clean_result(CleanOutcome::PacmanCache { before: 5 * 1_048_576, after: 1_048_576 });
    assert!(r.success);
    assert_eq!(r.result, "Cache limpo (1 versão mantida)");
    assert_eq!(r.cleaned.as_deref(), Some("4.0 MB"));
    assert_eq!(r.bytes, 4 * 1_048_576);

    // a cache that grew frees nothing
    let r = clean_result(CleanOutcome::JournalLogs { before: 10, after: 20 });
    assert_eq!(r.result, "Logs compactados (7 dias mantidos)");
    assert_eq!(r.cleaned.as_deref(), Some("0 B"));
    assert_eq!(r.bytes, 0);

    let r = clean_result(CleanOutcome::TempFiles { freed: 2048, count: 12 });
    assert_eq!(r.result, "12 itens removidos");
    assert_eq!(r.cleaned.as_deref(), Some("2 KB"));
    assert_eq!(r.bytes, 2048);

    let r = clean_result(CleanOutcome::ThumbCache { freed: 100 });
    assert_eq!(r.result, "Miniaturas removidas");
    assert_eq!(r.cleaned.as_deref(), Some("100 B"));

    let r = clean_result(CleanOutcome::Coredumps { freed: 0, count: 0 });
    assert_eq!(r.result, "0 core dump(s) removido(s)");
    assert_eq!(r.cleaned.as_deref(), Some("0 B"));

    let r = clean_result(CleanOutcome::PipCache { freed: 1_073_741_824 });
    assert_eq!(r.result, "Cache pip limpo");
    assert_eq!(r.cleaned.as_deref(), Some("1.00 GB"));
    let r = clean_result(CleanOutcome::NpmCache { freed: 1 });
    assert_eq!(r.result, "Cache npm limpo");
    let r = clean_result(CleanOutcome::YarnCache { freed: 1 });
    assert_eq!(r.result, "Cache yarn limpo");
    assert_eq!(r.cleaned.as_deref(), Some("1 B"));
}

#[test]
fn results_of_counted_tasks() {
    let r = clean_result(CleanOutcome::PacmanOrphans { removed: 0 });
    assert!(r.success);
    assert_eq!(r.result, "Nenhum órfão encontrado");
    assert_eq!(r.cleaned, None);
    let r = clean_result(CleanOutcome::PacmanOrphans { removed: 3 });
    assert_eq!(r.result, "3 pacote(s) removido(s)");
    assert_eq!(r.cleaned.as_deref(), Some("3 pacotes"));
    assert_eq!(r.bytes, 0);

    let r = clean_result(CleanOutcome::Trash { freed: 999, count: 0 });
    assert_eq!(r.result, "Lixeira já está vazia");
    assert_eq!(r.cleaned, None);
    assert_eq!(r.bytes, 0);
    let r = clean_result(CleanOutcome::Trash { freed: 4096, count: 2 });
    assert_eq!(r.result, "2 item(s) removido(s)");
    assert_eq!(r.cleaned.as_deref(), Some("4 KB"));
    assert_eq!(r.bytes, 4096);

    let r = clean_result(CleanOutcome::FlatpakUnused { removed: 0 });
    assert_eq!(r.result, "Nenhum runtime desnecessário");
    assert_eq!(r.cleaned, None);
    let r = clean_result(CleanOutcome::FlatpakUnused { removed: 5 });
    assert_eq!(r.result, "5 runtime(s) removido(s)");
    assert_eq!(r.cleaned.as_deref(), Some("5 pacotes"));
}

#[test]
fn results_of_docker_and_unknown() {
    let r = clean_result(CleanOutcome::DockerPrune { freed: 0 });
    assert_eq!(r.result, "Docker limpo");
    assert_eq!(r.cleaned.as_deref(), Some("feito"));
    let r = clean_result(CleanOutcome::DockerPrune { freed: 1_048_576 });
    assert_eq!(r.cleaned.as_deref(), Some("1.0 MB"));
    assert_eq!(r.bytes, 1_048_576);

    let r = clean_result(CleanOutcome::Unknown { id: "bogus".to_string() });
    assert!(!r.success);
    assert_eq!(r.result, "Tarefa desconhecida: bogus");
    assert_eq!(r.cleaned.as_deref(), Some("—"));
    assert_eq!(r.bytes, 0);
}

#[test]
fn docker_size_takes_the_first_unit_that_parses() {
    assert_eq!(parse_docker_size("Total reclaimed space: 1.2GB"), Some(("1.2".to_string(), 1_073_741_824)));
    assert_eq!(parse_docker_size("Total reclaimed space: 35.5MB"), Some(("35.5".to_string(), 1_048_576)));
    assert_eq!(parse_docker_size("Total reclaimed space: 12kB"), Some(("12".to_string(), 1024)));
    assert_eq!(parse_docker_size("Total reclaimed space: 0B"), Some(("0".to_string(), 1)));
    // "GB" occurs but no number precedes it; "B" alone then has no number either
    assert_eq!(parse_docker_size("GB: none"), None);
    // a number with two dots does not parse, so the next unit is tried
    assert_eq!(parse_docker_size("1.2.3GB 7B"), None);
    assert_eq!(parse_docker_size("x 1.2.3GB 4MB"), Some(("4".to_string(), 1_048_576)));
    assert_eq!(parse_docker_size("nothing here"), None);
}

#[test]
fn docker_reclaimed_reads_the_reclaimed_line() {
    let out = "Deleted Containers:\nabc123\n\nTotal RECLAIMED space: 2.5GB\nlater: 1MB\n";
    assert_eq!(docker_reclaimed(out), Some(("2.5".to_string(), 1_073_741_824)));
    assert_eq!(docker_reclaimed("no such line\n"), None);
    assert_eq!(docker_reclaimed("Total reclaimed space: none\n7MB reclaimed\n"), None);
}

#[test]
fn du_output() {
    assert_eq!(du_bytes("123456\t/var/cache/pacman/pkg\n"), Some(123_456));
    assert_eq!(du_bytes("  42 x"), Some(42));
    assert_eq!(du_bytes("du: cannot access 'x'\n"), None);
    assert_eq!(du_bytes(""), None);
}

#[test]
fn orphan_package_list() {
    assert_eq!(orphan_packages("libfoo\n  libbar  \n\n   \nlibbaz"), vec!["libfoo", "libbar", "libbaz"]);
    assert!(orphan_packages("").is_empty());
    assert!(orphan_packages("\n\n").is_empty());
}

#[test]
fn flatpak_removed_lines() {
    let out = "Removing org.gnome.Platform\nInfo: something\n  Removing: org.kde.Platform\nremoving lowercase\n";
    assert_eq!(flatpak_removed(out), 2);
    assert_eq!(flatpak_removed(""), 0);
}

#[test]
fn result_lines() {
    let r = clean_result(CleanOutcome::TempFiles { freed: 2048, count: 3 });
    assert_eq!(machctrl::cleaner::result_line(&r), "3 itens removidos (2 KB)");
    let r = clean_result(CleanOutcome::PacmanOrphans { removed: 0 });
    assert_eq!(machctrl::cleaner::result_line(&r), "Nenhum órfão encontrado ()");
}

#[test]
fn every_offered_task_can_run() {
    let env = CleanEnvironment {
        trash_size: 10,
        pip_cache: true,
        npm_cache: true,
        yarn_cache: true,
        docker: true,
        flatpak: true,
    };
    let tasks = available_clean_tasks(&env);
    let kinds: Vec<CleanTaskKind> = tasks.iter().map(|t| clean_task_kind(&t.id)).collect();
    for (i, k) in kinds.iter().enumerate() {
        assert_ne!(*k, CleanTaskKind::Unknown);
        for other in &kinds[i + 1..] {
            assert_ne!(k, other);
        }
    }
    // only an unknown task reports failure
    assert!(clean_result(CleanOutcome::ThumbCache { freed: 0 }).success);
    assert!(!clean_result(CleanOutcome::Unknown { id: String::new() }).success);
}

fn entry(path: &str, root: TempRoot, days: u64, extra_secs: u64) -> TempEntry {
    TempEntry { path: path.to_string(), root, age_secs: days * 86400 + extra_secs }
}

#[test]
fn only_old_temp_files_are_removed() {
    assert_eq!(TMP_MAX_AGE_DAYS, 10);
    assert_eq!(VAR_TMP_MAX_AGE_DAYS, 30);
    let entries = vec![
        entry("/tmp/fresh", TempRoot::Tmp, 0, 5),
        entry("/tmp/old", TempRoot::Tmp, 10, 0),
        entry("/tmp/almost", TempRoot::Tmp, 9, 86399),
        entry("/var/tmp/month", TempRoot::VarTmp, 30, 1),
        entry("/var/tmp/week", TempRoot::VarTmp, 12, 0),
    ];
    assert_eq!(old_temp_paths(&entries), vec!["/tmp/old", "/var/tmp/month"]);
    assert!(old_temp_paths(&[]).is_empty());
}

#[test]
fn report_for_each_task_id() {
    let r = clean_report("temp-files", Some(CleanOutcome::TempFiles { freed: 1024, count: 1 }));
    assert!(r.success);
    assert_eq!(r.result, "1 itens removidos");
    assert_eq!(r.cleaned.as_deref(), Some("1 KB"));
    assert_eq!(r.bytes, 1024);
    let r = clean_report("tmp-files", None);
    assert!(!r.success);
    assert_eq!(r.result, "Tarefa desconhecida: tmp-files");
    assert_eq!(r.cleaned.as_deref(), Some("—"));
    assert_eq!(r.bytes, 0);
    // an unknown id ignores whatever was measured
    let r = clean_report("Trash", Some(CleanOutcome::Trash { freed: 5, count: 5 }));
    assert!(!r.success);
    assert_eq!(kind_of_outcome(&CleanOutcome::DockerPrune { freed: 0 }), CleanTaskKind::DockerPrune);
    assert_eq!(kind_of_outcome(&CleanOutcome::Unknown { id: String::new() }), CleanTaskKind::Unknown);
}

#[test]
fn removal_tallies() {
    assert_eq!(removal_tally(&[Some(100), None, Some(24), Some(0)]), Some((124, 3)));
    assert_eq!(removal_tally(&[None, None]), Some((0, 0)));
    assert_eq!(removal_tally(&[]), Some((0, 0)));
    assert_eq!(removal_tally(&[Some(u64::MAX), Some(1)]), None);
    assert_eq!(removal_tally(&[Some(u64::MAX), None]), Some((u64::MAX, 1)));
}
