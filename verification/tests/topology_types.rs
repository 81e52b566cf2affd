use cpu_pin::{topology, CoreType, CpuInfo, CpuTopology, Error};

fn mk_core(id: usize, t: CoreType, cpus: &[usize]) -> CpuInfo {
    CpuInfo {
        id,
        core_type: t,
        max_frequency_mhz: None,
        logical_cpus: cpus.to_vec(),
    }
}

fn hybrid_cores() -> Vec<CpuInfo> {
    vec![
        mk_core(0, CoreType::Performance, &[0, 1]),
        mk_core(1, CoreType::Efficiency, &[2]),
        mk_core(2, CoreType::Performance, &[3, 4]),
        mk_core(3, CoreType::Unknown, &[5]),
    ]
}

#[test]
fn topology_detects_hybrid() {
    let t = topology(Ok(hybrid_cores())).unwrap();
    assert!(t.is_hybrid);
    assert_eq!(t.cores.len(), 4);
}

#[test]
fn topology_homogeneous() {
    let all_p = vec![mk_core(0, CoreType::Performance, &[0]), mk_core(1, CoreType::Performance, &[1])];
    assert!(!topology(Ok(all_p)).unwrap().is_hybrid);
    let unknown = vec![mk_core(0, CoreType::Unknown, &[0])];
    assert!(!topology(Ok(unknown)).unwrap().is_hybrid);
    assert!(!topology(Ok(Vec::new())).unwrap().is_hybrid);
}

#[test]
fn topology_unknown_with_performance_is_not_hybrid() {
    let cores = vec![mk_core(0, CoreType::Performance, &[0]), mk_core(1, CoreType::Unknown, &[1])];
    assert!(!topology(Ok(cores)).unwrap().is_hybrid);
    let cores = vec![mk_core(0, CoreType::Efficiency, &[0]), mk_core(1, CoreType::Unknown, &[1])];
    assert!(!topology(Ok(cores)).unwrap().is_hybrid);
}

#[test]
fn topology_passes_errors_on() {
    assert!(matches!(topology(Err(Error::PinningNotSupported)), Err(Error::PinningNotSupported)));
}

#[test]
fn performance_and_efficiency_cores() {
    let t = topology(Ok(hybrid_cores())).unwrap();
    let p: Vec<usize> = t.performance_cores().iter().map(|c| c.id).collect();
    let e: Vec<usize> = t.efficiency_cores().iter().map(|c| c.id).collect();
    assert_eq!(p, vec![0, 2]);
    assert_eq!(e, vec![1]);
}

#[test]
fn best_cores_hybrid_and_homogeneous() {
    let t = topology(Ok(hybrid_cores())).unwrap();
    let best: Vec<usize> = t.best_cores().iter().map(|c| c.id).collect();
    assert_eq!(best, vec![0, 2]);
    let h = CpuTopology {
        is_hybrid: false,
        cores: vec![mk_core(0, CoreType::Unknown, &[0]), mk_core(1, CoreType::Unknown, &[1])],
    };
    let best: Vec<usize> = h.best_cores().iter().map(|c| c.id).collect();
    assert_eq!(best, vec![0, 1]);
    assert!(h.performance_cores().is_empty());
}

#[test]
fn core_type_names() {
    assert_eq!(CoreType::Performance.to_string(), "Performance");
    assert_eq!(CoreType::Efficiency.to_string(), "Efficiency");
    assert_eq!(CoreType::Unknown.to_string(), "Unknown");
}

#[test]
fn error_messages() {
    assert_eq!(Error::InvalidCpuId(42).to_string(), "invalid CPU ID: 42");
    assert_eq!(Error::InvalidCpuId(0).to_string(), "invalid CPU ID: 0");
    assert_eq!(
        Error::PinningNotSupported.to_string(),
        "thread pinning is not supported on this platform"
    );
    let os = Error::Os(std::io::Error::new(std::io::ErrorKind::Other, "boom"));
    assert_eq!(os.to_string(), "OS error: boom");
}

#[test]
fn error_from_io_error() {
    let e: Error = std::io::Error::new(std::io::ErrorKind::Other, "x").into();
    assert!(matches!(e, Error::Os(_)));
}
