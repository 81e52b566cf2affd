use std::collections::HashSet;

use cpu_pin::linux::{
    capacity_in_range, cpus, detect_capacity_hybrid, detect_core_type_sysfs, detect_x86_hybrid,
    max_frequency_mhz, online_cpu_count, parse_cpu_list, validate_cpu_id, SysfsSnapshot,
};
use cpu_pin::{CoreType, Error};

fn set(ids: &[usize]) -> HashSet<usize> {
    ids.iter().copied().collect()
}

fn texts(items: &[Option<&str>]) -> Vec<Option<String>> {
    items.iter().map(|o| o.map(|s| s.to_string())).collect()
}

#[test]
fn parse_cpu_list_ranges() {
    let expected: HashSet<usize> = (0..=7).chain(16..=23).collect();
    assert_eq!(parse_cpu_list("0-7,16-23"), expected);
}

#[test]
fn parse_cpu_list_trailing_newline() {
    assert_eq!(parse_cpu_list("0-3\n"), set(&[0, 1, 2, 3]));
}

#[test]
fn parse_cpu_list_empty_text() {
    assert!(parse_cpu_list("").is_empty());
    assert!(parse_cpu_list("  \n").is_empty());
}

#[test]
fn parse_cpu_list_spaces_and_empty_items() {
    assert_eq!(parse_cpu_list(" 1 , 3 - 4 ,,"), set(&[1, 3, 4]));
}

#[test]
fn parse_cpu_list_reversed_range_is_empty() {
    assert!(parse_cpu_list("5-3").is_empty());
}

#[test]
fn parse_cpu_list_plus_sign_and_garbage() {
    assert_eq!(parse_cpu_list("+2"), set(&[2]));
    assert_eq!(parse_cpu_list("x,2"), set(&[2]));
    assert!(parse_cpu_list("-").is_empty());
    assert!(parse_cpu_list("1-2-3").is_empty());
    assert!(parse_cpu_list("1-").is_empty());
}

#[test]
fn parse_cpu_list_overflow_is_skipped() {
    assert_eq!(parse_cpu_list("99999999999999999999999,4"), set(&[4]));
}

#[test]
fn parse_cpu_list_single_and_duplicates() {
    assert_eq!(parse_cpu_list("3,3,2-3"), set(&[2, 3]));
}

#[test]
fn x86_hybrid_both_lists() {
    let r = detect_x86_hybrid(&Some("0-3\n".to_string()), &Some("4-7\n".to_string())).unwrap();
    assert_eq!(r.len(), 8);
    for (i, (id, t)) in r.iter().enumerate() {
        if i < 4 {
            assert_eq!(*t, CoreType::Performance);
            assert!(*id < 4);
        } else {
            assert_eq!(*t, CoreType::Efficiency);
            assert!(*id >= 4 && *id < 8);
        }
    }
    let ids: HashSet<usize> = r.iter().map(|(id, _)| *id).collect();
    assert_eq!(ids, (0..8).collect());
}

#[test]
fn x86_hybrid_needs_both_files() {
    assert!(detect_x86_hybrid(&None, &Some("4-7".to_string())).is_none());
    assert!(detect_x86_hybrid(&Some("0-3".to_string()), &None).is_none());
}

#[test]
fn x86_hybrid_both_empty_is_none() {
    assert!(detect_x86_hybrid(&Some("".to_string()), &Some("\n".to_string())).is_none());
}

#[test]
fn x86_hybrid_one_empty_list() {
    let r = detect_x86_hybrid(&Some("0-1".to_string()), &Some("".to_string())).unwrap();
    let mut ids: Vec<usize> = r.iter().map(|(id, _)| *id).collect();
    ids.sort();
    assert_eq!(ids, vec![0, 1]);
    assert!(r.iter().all(|(_, t)| *t == CoreType::Performance));
}

#[test]
fn core_type_sysfs_values() {
    let ct = texts(&[Some("intel_core\n"), Some(" intel_atom"), None, Some("other")]);
    let r = detect_core_type_sysfs(&ct).unwrap();
    assert_eq!(
        r,
        vec![(0, CoreType::Performance), (1, CoreType::Efficiency), (3, CoreType::Unknown)]
    );
}

#[test]
fn core_type_sysfs_none_when_nothing_typed() {
    assert!(detect_core_type_sysfs(&texts(&[None, None])).is_none());
    assert!(detect_core_type_sysfs(&texts(&[Some("x"), Some("intel")])).is_none());
    assert!(detect_core_type_sysfs(&Vec::new()).is_none());
}

#[test]
fn capacity_threshold_split() {
    let cap = texts(&[Some("1024\n"), Some("512\n"), Some("820"), None, Some("bad")]);
    let r = detect_capacity_hybrid(&cap).unwrap();
    // threshold = 1024 * 80 / 100 = 819
    assert_eq!(
        r,
        vec![
            (0, CoreType::Performance),
            (1, CoreType::Efficiency),
            (2, CoreType::Performance)
        ]
    );
}

#[test]
fn capacity_equal_is_homogeneous() {
    assert!(detect_capacity_hybrid(&texts(&[Some("1024"), Some("1024")])).is_none());
    assert!(detect_capacity_hybrid(&texts(&[None, Some("abc")])).is_none());
}

#[test]
fn capacity_close_values_are_all_performance() {
    let r = detect_capacity_hybrid(&texts(&[Some("100"), Some("90")])).unwrap();
    assert_eq!(r, vec![(0, CoreType::Performance), (1, CoreType::Performance)]);
}

#[test]
fn frequency_from_khz() {
    assert_eq!(max_frequency_mhz(&Some("3600000\n".to_string())), Some(3600));
    assert_eq!(max_frequency_mhz(&Some("999".to_string())), Some(0));
    assert_eq!(max_frequency_mhz(&Some("abc".to_string())), None);
    assert_eq!(max_frequency_mhz(&None), None);
}

fn snapshot(
    cpu_count: usize,
    core_cpus: Option<&str>,
    atom_cpus: Option<&str>,
    core_id: &[Option<&str>],
    freq: &[Option<&str>],
) -> SysfsSnapshot {
    SysfsSnapshot {
        cpu_count,
        core_cpus: core_cpus.map(|s| s.to_string()),
        atom_cpus: atom_cpus.map(|s| s.to_string()),
        core_type: vec![None; cpu_count],
        cpu_capacity: vec![None; cpu_count],
        physical_package_id: vec![Some("0\n".to_string()); cpu_count],
        core_id: texts(core_id),
        cpuinfo_max_freq: texts(freq),
    }
}

#[test]
fn cpus_groups_hyperthreads() {
    let s = snapshot(
        4,
        Some("0-1"),
        Some("2-3"),
        &[Some("0"), Some("0"), Some("1"), Some("1")],
        &[Some("3000000"), None, None, Some("2000000")],
    );
    assert!(capacity_in_range(&s));
    let cores = cpus(&s).unwrap();
    assert_eq!(cores.len(), 2);
    assert_eq!(cores[0].id, 0);
    assert_eq!(cores[0].logical_cpus, vec![0, 1]);
    assert_eq!(cores[0].core_type, CoreType::Performance);
    assert_eq!(cores[0].max_frequency_mhz, Some(3000));
    assert_eq!(cores[1].id, 1);
    assert_eq!(cores[1].logical_cpus, vec![2, 3]);
    assert_eq!(cores[1].core_type, CoreType::Efficiency);
    assert_eq!(cores[1].max_frequency_mhz, Some(2000));
}

#[test]
fn cpus_ordered_by_package_and_core_id() {
    let mut s = snapshot(3, None, None, &[Some("5"), Some("1"), None], &[None, None, None]);
    s.physical_package_id = texts(&[Some("0"), Some("1"), None]);
    let cores = cpus(&s).unwrap();
    // keys: cpu0 (0,5), cpu1 (1,1), cpu2 (0,2)
    let lists: Vec<Vec<usize>> = cores.iter().map(|c| c.logical_cpus.clone()).collect();
    assert_eq!(lists, vec![vec![2], vec![0], vec![1]]);
    assert!(cores.iter().all(|c| c.core_type == CoreType::Unknown));
    assert_eq!(cores.iter().map(|c| c.id).collect::<Vec<_>>(), vec![0, 1, 2]);
}

#[test]
fn cpus_core_type_falls_back_to_capacity() {
    let mut s = snapshot(2, None, None, &[Some("0"), Some("1")], &[None, None]);
    s.cpu_capacity = texts(&[Some("1024"), Some("400")]);
    let cores = cpus(&s).unwrap();
    assert_eq!(cores[0].core_type, CoreType::Performance);
    assert_eq!(cores[1].core_type, CoreType::Efficiency);
}

#[test]
fn cpus_x86_lists_take_precedence() {
    let mut s = snapshot(2, Some("1"), Some("0"), &[Some("0"), Some("1")], &[None, None]);
    s.core_type = texts(&[Some("intel_core"), Some("intel_atom")]);
    let cores = cpus(&s).unwrap();
    assert_eq!(cores[0].core_type, CoreType::Efficiency);
    assert_eq!(cores[1].core_type, CoreType::Performance);
}

#[test]
fn cpus_no_cpus() {
    let s = snapshot(0, None, None, &[], &[]);
    assert!(cpus(&s).unwrap().is_empty());
}

#[test]
fn capacity_equal_large_values_are_accepted() {
    let mut s = snapshot(2, None, None, &[Some("0"), Some("1")], &[None, None]);
    s.cpu_capacity = texts(&[Some("18446744073709551615"), Some("18446744073709551615")]);
    assert!(capacity_in_range(&s));
    let cores = cpus(&s).unwrap();
    assert!(cores.iter().all(|c| c.core_type == CoreType::Unknown));
    let mut one = snapshot(1, None, None, &[None], &[None]);
    one.cpu_capacity = texts(&[Some("18446744073709551615")]);
    assert!(capacity_in_range(&one));
    assert_eq!(cpus(&one).unwrap()[0].core_type, CoreType::Unknown);
}

#[test]
fn capacity_overflow_is_detected() {
    let mut s = snapshot(2, None, None, &[None, None], &[None, None]);
    s.cpu_capacity = texts(&[Some("18446744073709551615"), Some("1")]);
    assert!(!capacity_in_range(&s));
}

#[test]
fn linux_validate_cpu_id() {
    assert!(validate_cpu_id(3, &None, 4).is_ok());
    assert!(matches!(validate_cpu_id(4, &None, 4), Err(Error::InvalidCpuId(4))));
}

#[test]
fn linux_validate_against_online_list() {
    let online = Some("0,2-3\n".to_string());
    assert!(validate_cpu_id(3, &online, 3).is_ok());
    assert!(validate_cpu_id(0, &online, 3).is_ok());
    assert!(matches!(validate_cpu_id(1, &online, 3), Err(Error::InvalidCpuId(1))));
    assert!(matches!(validate_cpu_id(4, &online, 3), Err(Error::InvalidCpuId(4))));
}

#[test]
fn linux_online_cpu_count() {
    assert_eq!(online_cpu_count(8), 8);
    assert_eq!(online_cpu_count(0), 1);
    assert_eq!(online_cpu_count(-1), 1);
}
