use std::collections::HashSet;

use cpu_pin::linux::{cpus as linux_cpus, parse_cpu_list, validate_cpu_id, SysfsSnapshot};
use cpu_pin::macos::{cpus as mac_cpus, SysctlValues};
use cpu_pin::windows::{cpus as windows_cpus, PhysicalCoreRaw};
use cpu_pin::{topology, CoreType, CpuInfo};

#[test]
fn best_cores_nonempty_when_cores_exist() {
    let cores = vec![
        CpuInfo { id: 0, core_type: CoreType::Efficiency, max_frequency_mhz: None, logical_cpus: vec![0] },
        CpuInfo { id: 1, core_type: CoreType::Performance, max_frequency_mhz: None, logical_cpus: vec![1] },
    ];
    let t = topology(Ok(cores)).unwrap();
    let best = t.best_cores();
    assert!(!best.is_empty());
    assert!(best.iter().all(|c| c.core_type == CoreType::Performance));
    let e = topology(Ok(Vec::new())).unwrap();
    assert!(e.best_cores().is_empty());
}

#[test]
fn windows_hybrid_iff_classes_differ() {
    let raw = vec![
        PhysicalCoreRaw { efficiency_class: 3, logical_cpus: vec![0] },
        PhysicalCoreRaw { efficiency_class: 1, logical_cpus: vec![1] },
    ];
    assert!(topology(windows_cpus(raw)).unwrap().is_hybrid);
    let raw = vec![
        PhysicalCoreRaw { efficiency_class: 1, logical_cpus: vec![0] },
        PhysicalCoreRaw { efficiency_class: 1, logical_cpus: vec![1] },
    ];
    assert!(!topology(windows_cpus(raw)).unwrap().is_hybrid);
}

#[test]
fn linux_every_cpu_in_exactly_one_core() {
    let n = 6;
    let s = SysfsSnapshot {
        cpu_count: n,
        core_cpus: None,
        atom_cpus: None,
        core_type: vec![None; n],
        cpu_capacity: vec![None; n],
        physical_package_id: vec![Some("0".to_string()); n],
        core_id: ["0", "1", "2", "0", "1", "2"].iter().map(|s| Some(s.to_string())).collect(),
        cpuinfo_max_freq: vec![None; n],
    };
    let cores = linux_cpus(&s).unwrap();
    let mut seen = HashSet::new();
    for c in &cores {
        for lp in &c.logical_cpus {
            assert!(seen.insert(*lp));
        }
    }
    assert_eq!(seen, (0..n).collect());
    assert_eq!(cores[0].logical_cpus, vec![0, 3]);
}

#[test]
fn macos_blocks_increase() {
    let v = SysctlValues {
        logicalcpu_max: Some(16),
        logicalcpu: None,
        physicalcpu_max: Some(12),
        physicalcpu: None,
        nperflevels: Some(2),
        perflevel0_physicalcpu: Some(4),
        perflevel0_logicalcpu: Some(8),
        perflevel1_physicalcpu: Some(8),
        perflevel1_logicalcpu: Some(8),
        perflevel0_cpuspeeds: None,
        perflevel1_cpuspeeds: None,
        cpufrequency_max: Some(4_000_000_000),
    };
    let cores = mac_cpus(&v).unwrap();
    let flat: Vec<usize> = cores.iter().flat_map(|c| c.logical_cpus.iter().copied()).collect();
    assert_eq!(flat, (0..16).collect::<Vec<_>>());
    assert_eq!(cores[0].max_frequency_mhz, Some(4000));
    assert_eq!(cores[4].max_frequency_mhz, None);
}

#[test]
fn cpu_list_join_is_union() {
    let a = "0-1, 6";
    let b = " 4-5,1\n";
    let joined = format!("{a},{b}");
    let union: HashSet<usize> = parse_cpu_list(a).union(&parse_cpu_list(b)).copied().collect();
    assert_eq!(parse_cpu_list(&joined), union);
    assert_eq!(union, [0, 1, 4, 5, 6].into_iter().collect::<HashSet<usize>>());
    assert!(parse_cpu_list("").is_empty());
}

#[test]
fn linux_id_in_no_core_is_refused() {
    let n = 4;
    let s = SysfsSnapshot {
        cpu_count: n,
        core_cpus: None,
        atom_cpus: None,
        core_type: vec![None; n],
        cpu_capacity: vec![None; n],
        physical_package_id: vec![Some("0".to_string()); n],
        core_id: ["0", "0", "1", "1"].iter().map(|s| Some(s.to_string())).collect(),
        cpuinfo_max_freq: vec![None; n],
    };
    let cores = linux_cpus(&s).unwrap();
    for online in [None, Some("0-3\n".to_string())] {
        for id in 0..8 {
            let owned = cores.iter().any(|c| c.logical_cpus.contains(&id));
            assert_eq!(validate_cpu_id(id, &online, n).is_ok(), owned);
        }
    }
}
