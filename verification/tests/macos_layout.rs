use cpu_pin::macos::{
    cpus, detect_apple_silicon_hybrid, layout_fits, logical_cpu_count, perflevel_frequency_mhz,
    physical_cpu_count, pin_cpu, validate_cpu_id, SysctlValues,
};
use cpu_pin::{CoreType, Error};

fn empty_values() -> SysctlValues {
    SysctlValues {
        logicalcpu_max: None,
        logicalcpu: None,
        physicalcpu_max: None,
        physicalcpu: None,
        nperflevels: None,
        perflevel0_physicalcpu: None,
        perflevel0_logicalcpu: None,
        perflevel1_physicalcpu: None,
        perflevel1_logicalcpu: None,
        perflevel0_cpuspeeds: None,
        perflevel1_cpuspeeds: None,
        cpufrequency_max: None,
    }
}

fn apple_m1() -> SysctlValues {
    SysctlValues {
        logicalcpu_max: Some(8),
        logicalcpu: Some(8),
        physicalcpu_max: Some(8),
        physicalcpu: Some(8),
        nperflevels: Some(2),
        perflevel0_physicalcpu: Some(4),
        perflevel0_logicalcpu: Some(4),
        perflevel1_physicalcpu: Some(4),
        perflevel1_logicalcpu: Some(4),
        perflevel0_cpuspeeds: Some(3_228_000_000),
        perflevel1_cpuspeeds: Some(2_064_000_000),
        cpufrequency_max: None,
    }
}

fn intel_mac() -> SysctlValues {
    let mut v = empty_values();
    v.logicalcpu_max = Some(8);
    v.physicalcpu_max = Some(4);
    v
}

#[test]
fn macos_counts_and_fallbacks() {
    let mut v = empty_values();
    assert_eq!(logical_cpu_count(&v), 1);
    assert_eq!(physical_cpu_count(&v), 1);
    v.logicalcpu = Some(6);
    v.physicalcpu = Some(3);
    assert_eq!(logical_cpu_count(&v), 6);
    assert_eq!(physical_cpu_count(&v), 3);
    v.logicalcpu_max = Some(12);
    v.physicalcpu_max = Some(5);
    assert_eq!(logical_cpu_count(&v), 12);
    assert_eq!(physical_cpu_count(&v), 5);
}

#[test]
fn macos_detect_hybrid() {
    assert_eq!(detect_apple_silicon_hybrid(&apple_m1()), Some((4, 4, 4, 4)));
    let mut v = apple_m1();
    v.nperflevels = Some(1);
    assert_eq!(detect_apple_silicon_hybrid(&v), None);
    let mut v = apple_m1();
    v.perflevel1_logicalcpu = None;
    assert_eq!(detect_apple_silicon_hybrid(&v), None);
    let mut v = apple_m1();
    v.perflevel0_physicalcpu = Some(0);
    v.perflevel1_physicalcpu = Some(0);
    assert_eq!(detect_apple_silicon_hybrid(&v), None);
    let mut v = apple_m1();
    v.perflevel0_physicalcpu = Some(0);
    assert_eq!(detect_apple_silicon_hybrid(&v), None);
    let mut v = apple_m1();
    v.perflevel1_physicalcpu = Some(0);
    assert_eq!(detect_apple_silicon_hybrid(&v), None);
    assert_eq!(detect_apple_silicon_hybrid(&intel_mac()), None);
}

#[test]
fn macos_level_frequency() {
    let mut v = apple_m1();
    assert_eq!(perflevel_frequency_mhz(&v, 0), Some(3228));
    assert_eq!(perflevel_frequency_mhz(&v, 1), Some(2064));
    assert_eq!(perflevel_frequency_mhz(&v, 2), None);
    v.perflevel0_cpuspeeds = None;
    v.perflevel1_cpuspeeds = None;
    v.cpufrequency_max = Some(3_500_000_000);
    assert_eq!(perflevel_frequency_mhz(&v, 0), Some(3500));
    assert_eq!(perflevel_frequency_mhz(&v, 1), None);
}

#[test]
fn macos_apple_silicon_cores() {
    let v = apple_m1();
    assert!(layout_fits(&v));
    let cores = cpus(&v).unwrap();
    assert_eq!(cores.len(), 8);
    for (i, c) in cores.iter().enumerate() {
        assert_eq!(c.id, i);
        assert_eq!(c.logical_cpus, vec![i]);
        if i < 4 {
            assert_eq!(c.core_type, CoreType::Performance);
            assert_eq!(c.max_frequency_mhz, Some(3228));
        } else {
            assert_eq!(c.core_type, CoreType::Efficiency);
            assert_eq!(c.max_frequency_mhz, Some(2064));
        }
    }
}

#[test]
fn macos_uneven_threads_per_core() {
    let mut v = apple_m1();
    v.perflevel0_physicalcpu = Some(2);
    v.perflevel0_logicalcpu = Some(5);
    v.perflevel1_physicalcpu = Some(1);
    v.perflevel1_logicalcpu = Some(1);
    let cores = cpus(&v).unwrap();
    let lists: Vec<Vec<usize>> = cores.iter().map(|c| c.logical_cpus.clone()).collect();
    assert_eq!(lists, vec![vec![0, 1, 2], vec![3, 4], vec![5]]);
}

#[test]
fn macos_fewer_logical_than_physical() {
    let mut v = apple_m1();
    v.perflevel0_physicalcpu = Some(3);
    v.perflevel0_logicalcpu = Some(2);
    v.perflevel1_physicalcpu = Some(2);
    v.perflevel1_logicalcpu = Some(3);
    let cores = cpus(&v).unwrap();
    let lists: Vec<Vec<usize>> = cores.iter().map(|c| c.logical_cpus.clone()).collect();
    assert_eq!(lists, vec![vec![0], vec![1], vec![], vec![2, 3], vec![4]]);
}

#[test]
fn macos_zero_performance_cores_is_homogeneous() {
    let mut v = apple_m1();
    v.perflevel0_physicalcpu = Some(0);
    v.perflevel1_physicalcpu = Some(2);
    v.perflevel1_logicalcpu = Some(2);
    let cores = cpus(&v).unwrap();
    assert_eq!(cores.len(), 8);
    for (i, c) in cores.iter().enumerate() {
        assert_eq!(c.id, i);
        assert_eq!(c.logical_cpus, vec![i]);
        assert_eq!(c.core_type, CoreType::Unknown);
        assert_eq!(c.max_frequency_mhz, None);
    }
}

#[test]
fn macos_homogeneous_uneven_share() {
    let mut v = empty_values();
    v.logicalcpu_max = Some(7);
    v.physicalcpu_max = Some(3);
    let cores = cpus(&v).unwrap();
    let lists: Vec<Vec<usize>> = cores.iter().map(|c| c.logical_cpus.clone()).collect();
    assert_eq!(lists, vec![vec![0, 1, 2], vec![3, 4], vec![5, 6]]);
}

#[test]
fn macos_homogeneous_cores() {
    let cores = cpus(&intel_mac()).unwrap();
    assert_eq!(cores.len(), 4);
    for (i, c) in cores.iter().enumerate() {
        assert_eq!(c.id, i);
        assert_eq!(c.core_type, CoreType::Unknown);
        assert_eq!(c.max_frequency_mhz, None);
        assert_eq!(c.logical_cpus, vec![2 * i, 2 * i + 1]);
    }
}

#[test]
fn macos_zero_physical_count() {
    let mut v = empty_values();
    v.physicalcpu_max = Some(0);
    v.logicalcpu_max = Some(4);
    assert!(cpus(&v).unwrap().is_empty());
}

#[test]
fn macos_validate_and_pin() {
    let v = apple_m1();
    assert!(validate_cpu_id(7, &v).is_ok());
    assert!(matches!(validate_cpu_id(8, &v), Err(Error::InvalidCpuId(8))));
    assert!(matches!(pin_cpu(0, &v), Err(Error::PinningNotSupported)));
    assert!(matches!(pin_cpu(9, &v), Err(Error::InvalidCpuId(9))));
}
