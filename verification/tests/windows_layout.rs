use cpu_pin::windows::{
    cpus, group_affinity, logical_cpus_from_masks, processor_records_from_buffer,
    records_well_formed, validate_cpu_id, PhysicalCoreRaw,
};
use cpu_pin::{topology, CoreType, Error};

fn raw(class: u8, cpus: &[usize]) -> PhysicalCoreRaw {
    PhysicalCoreRaw {
        efficiency_class: class,
        logical_cpus: cpus.to_vec(),
    }
}

#[test]
fn windows_classes_to_types() {
    let cores = cpus(vec![raw(1, &[0, 1]), raw(0, &[2]), raw(0, &[3])]).unwrap();
    let types: Vec<CoreType> = cores.iter().map(|c| c.core_type).collect();
    assert_eq!(
        types,
        vec![CoreType::Performance, CoreType::Efficiency, CoreType::Efficiency]
    );
    assert_eq!(cores[0].logical_cpus, vec![0, 1]);
    assert_eq!(cores[2].logical_cpus, vec![3]);
    assert_eq!(cores.iter().map(|c| c.id).collect::<Vec<_>>(), vec![0, 1, 2]);
    assert!(cores.iter().all(|c| c.max_frequency_mhz.is_none()));
}

#[test]
fn windows_three_classes() {
    let cores = cpus(vec![raw(0, &[0]), raw(2, &[1]), raw(1, &[2])]).unwrap();
    let types: Vec<CoreType> = cores.iter().map(|c| c.core_type).collect();
    assert_eq!(
        types,
        vec![CoreType::Efficiency, CoreType::Performance, CoreType::Efficiency]
    );
}

#[test]
fn windows_equal_classes_unknown() {
    let cores = cpus(vec![raw(0, &[0]), raw(0, &[1])]).unwrap();
    assert!(cores.iter().all(|c| c.core_type == CoreType::Unknown));
    assert!(cpus(Vec::new()).unwrap().is_empty());
}

#[test]
fn windows_validate_against_topology() {
    let topo = topology(cpus(vec![raw(1, &[0, 1]), raw(0, &[5])])).unwrap();
    assert!(validate_cpu_id(5, Ok(&topo)).is_ok());
    assert!(validate_cpu_id(0, Ok(&topo)).is_ok());
    assert!(matches!(validate_cpu_id(2, Ok(&topo)), Err(Error::InvalidCpuId(2))));
    let failed = Error::Os(std::io::Error::new(std::io::ErrorKind::Other, "no records"));
    match validate_cpu_id(0, Err(failed)) {
        Err(Error::Os(e)) => assert_eq!(e.to_string(), "no records"),
        _ => panic!("the detection error is passed on"),
    }
}

#[test]
fn windows_masks_to_cpus() {
    assert_eq!(logical_cpus_from_masks(&vec![(0, 0b1011), (1, 1)]), vec![0, 1, 3, 64]);
    assert_eq!(logical_cpus_from_masks(&vec![(2, 1u64 << 63)]), vec![2 * 64 + 63]);
    assert!(logical_cpus_from_masks(&vec![(0, 0)]).is_empty());
    assert!(logical_cpus_from_masks(&Vec::new()).is_empty());
}

#[test]
fn windows_group_affinity() {
    assert_eq!(group_affinity(0), (0, 1));
    assert_eq!(group_affinity(70), (1, 1 << 6));
    assert_eq!(group_affinity(63), (0, 1u64 << 63));
}

fn processor_record(class: u8, group: u16, mask: u64) -> Vec<u8> {
    let mut r = vec![0u8; 48];
    r[0..4].copy_from_slice(&0u32.to_le_bytes());
    r[4..8].copy_from_slice(&48u32.to_le_bytes());
    r[9] = class;
    r[30..32].copy_from_slice(&1u16.to_le_bytes());
    r[32..40].copy_from_slice(&mask.to_le_bytes());
    r[40..42].copy_from_slice(&group.to_le_bytes());
    r
}

fn other_record(relationship: u32, size: u32) -> Vec<u8> {
    let mut r = vec![0u8; size as usize];
    r[0..4].copy_from_slice(&relationship.to_le_bytes());
    r[4..8].copy_from_slice(&size.to_le_bytes());
    r
}

#[test]
fn windows_buffer_records() {
    let mut buf = processor_record(1, 0, 0b11);
    buf.extend(other_record(2, 16));
    buf.extend(processor_record(0, 1, 0b100));
    assert!(records_well_formed(&buf, 8));
    let raw = processor_records_from_buffer(&buf, 8);
    assert_eq!(raw.len(), 2);
    assert_eq!(raw[0].efficiency_class, 1);
    assert_eq!(raw[0].logical_cpus, vec![0, 1]);
    assert_eq!(raw[1].efficiency_class, 0);
    assert_eq!(raw[1].logical_cpus, vec![66]);
    let cores = cpus(raw).unwrap();
    assert_eq!(cores[0].core_type, CoreType::Performance);
    assert_eq!(cores[1].core_type, CoreType::Efficiency);
}

#[test]
fn windows_buffer_32_bit_layout() {
    let mut r = vec![0u8; 44];
    r[4..8].copy_from_slice(&44u32.to_le_bytes());
    r[9] = 2;
    r[30..32].copy_from_slice(&1u16.to_le_bytes());
    r[32..36].copy_from_slice(&0b1001u32.to_le_bytes());
    r[36..38].copy_from_slice(&0u16.to_le_bytes());
    assert!(records_well_formed(&r, 4));
    let raw = processor_records_from_buffer(&r, 4);
    assert_eq!(raw.len(), 1);
    assert_eq!(raw[0].logical_cpus, vec![0, 3]);
}

#[test]
fn windows_buffer_malformed() {
    let zero_size = vec![0u8; 8];
    assert!(!records_well_formed(&zero_size, 8));
    let mut cut = processor_record(1, 0, 1);
    cut.truncate(36);
    assert!(!records_well_formed(&cut, 8));
    let mut two_groups = processor_record(1, 0, 1);
    two_groups[30..32].copy_from_slice(&2u16.to_le_bytes());
    assert!(!records_well_formed(&two_groups, 8));
    assert!(records_well_formed(&[], 8));
    assert!(processor_records_from_buffer(&[], 8).is_empty());
    let short_header = vec![1u8, 0, 0];
    assert!(!records_well_formed(&short_header, 8));
}

#[test]
fn windows_affinity_round_trip() {
    for cpu in [0usize, 1, 63, 64, 70, 200, 4095] {
        let (group, mask) = group_affinity(cpu);
        assert_eq!(logical_cpus_from_masks(&vec![(group, mask)]), vec![cpu]);
    }
}
