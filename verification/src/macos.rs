//! macOS: core layout from `sysctl` values, CPU id validation, and pinning (which
//! macOS does not support).
//!
//! The caller reads the `sysctl` values into a [`SysctlValues`]; what is decided from
//! them is computed and proved here.
use vstd::prelude::*;

use crate::types::{CoreType, CpuInfo, Error};

verus! {

/// The `sysctlbyname` values that macOS core detection consults, `None` where the
/// call failed.
pub struct SysctlValues {
    /// `hw.logicalcpu_max`
    pub logicalcpu_max: Option<u32>,
    /// `hw.logicalcpu`
    pub logicalcpu: Option<u32>,
    /// `hw.physicalcpu_max`
    pub physicalcpu_max: Option<u32>,
    /// `hw.physicalcpu`
    pub physicalcpu: Option<u32>,
    /// `hw.nperflevels`
    pub nperflevels: Option<u32>,
    /// `hw.perflevel0.physicalcpu`
    pub perflevel0_physicalcpu: Option<u32>,
    /// `hw.perflevel0.logicalcpu`
    pub perflevel0_logicalcpu: Option<u32>,
    /// `hw.perflevel1.physicalcpu`
    pub perflevel1_physicalcpu: Option<u32>,
    /// `hw.perflevel1.logicalcpu`
    pub perflevel1_logicalcpu: Option<u32>,
    /// `hw.perflevel0.cpuspeeds` (Hz)
    pub perflevel0_cpuspeeds: Option<u64>,
    /// `hw.perflevel1.cpuspeeds` (Hz)
    pub perflevel1_cpuspeeds: Option<u64>,
    /// `hw.cpufrequency_max` (Hz)
    pub cpufrequency_max: Option<u64>,
}

/// The first value that is present, else 1.
pub open spec fn first_or_one(a: Option<u32>, b: Option<u32>) -> usize {
    match a {
        Some(x) => x as usize,
        None => match b {
            Some(y) => y as usize,
            None => 1,
        },
    }
}

/// The total number of logical CPUs.
pub open spec fn logical_count(v: SysctlValues) -> usize {
    first_or_one(v.logicalcpu_max, v.logicalcpu)
}

/// The number of physical CPUs.
pub open spec fn physical_count(v: SysctlValues) -> usize {
    first_or_one(v.physicalcpu_max, v.physicalcpu)
}

/// Get the total number of logical CPUs: `hw.logicalcpu_max`, else `hw.logicalcpu`, else 1.
pub fn logical_cpu_count(v: &SysctlValues) -> (r: usize)
    ensures
        r == logical_count(*v),
{
    match v.logicalcpu_max {
        Some(x) => x as usize,
        None => match v.logicalcpu {
            Some(y) => y as usize,
            None => 1,
        },
    }
}

/// Get the number of physical CPUs: `hw.physicalcpu_max`, else `hw.physicalcpu`, else 1.
pub fn physical_cpu_count(v: &SysctlValues) -> (r: usize)
    ensures
        r == physical_count(*v),
{
    match v.physicalcpu_max {
        Some(x) => x as usize,
        None => match v.physicalcpu {
            Some(y) => y as usize,
            None => 1,
        },
    }
}

/// The hybrid layout (P physical, P logical, E physical, E logical): there are at least
/// two performance levels, all four counts are known, and both levels have cores.
pub open spec fn hybrid_layout(v: SysctlValues) -> Option<(usize, usize, usize, usize)> {
    match (
        v.nperflevels,
        v.perflevel0_physicalcpu,
        v.perflevel0_logicalcpu,
        v.perflevel1_physicalcpu,
        v.perflevel1_logicalcpu,
    ) {
        (Some(n), Some(pp), Some(pl), Some(ep), Some(el)) => if n < 2 || pp == 0 || ep == 0 {
            None
        } else {
            Some((pp as usize, pl as usize, ep as usize, el as usize))
        },
        _ => None,
    }
}

/// Detect hybrid core layout on Apple Silicon using hw.nperflevels and hw.perflevelN.
/// Returns (p_physical, p_logical, e_physical, e_logical) or None if not hybrid.
pub fn detect_apple_silicon_hybrid(v: &SysctlValues) -> (r: Option<(usize, usize, usize, usize)>)
    ensures
        r == hybrid_layout(*v),
{
    let nperflevels = match v.nperflevels {
        Some(n) => n,
        None => {
            return None;
        },
    };
    if nperflevels < 2 {
        return None;
    }
    let p_physical = match v.perflevel0_physicalcpu {
        Some(x) => x as usize,
        None => {
            return None;
        },
    };
    let p_logical = match v.perflevel0_logicalcpu {
        Some(x) => x as usize,
        None => {
            return None;
        },
    };
    let e_physical = match v.perflevel1_physicalcpu {
        Some(x) => x as usize,
        None => {
            return None;
        },
    };
    let e_logical = match v.perflevel1_logicalcpu {
        Some(x) => x as usize,
        None => {
            return None;
        },
    };
    if p_physical == 0 || e_physical == 0 {
        return None;
    }
    Some((p_physical, p_logical, e_physical, e_logical))
}

/// The frequency in MHz of performance level `level`: its `cpuspeeds` value (levels 0
/// and 1 only), else, for level 0, `hw.cpufrequency_max`.
pub open spec fn level_frequency(v: SysctlValues, level: u32) -> Option<u64> {
    let hz = if level == 0 {
        v.perflevel0_cpuspeeds
    } else if level == 1 {
        v.perflevel1_cpuspeeds
    } else {
        None
    };
    match hz {
        Some(h) => Some(h / 1_000_000),
        None => if level == 0 {
            match v.cpufrequency_max {
                Some(h) => Some(h / 1_000_000),
                None => None,
            }
        } else {
            None
        },
    }
}

/// Get CPU frequency for a performance level in MHz.
///
/// Tries multiple sysctl keys since availability varies across Apple Silicon generations.
/// Returns None if no frequency information is available for the given level.
pub fn perflevel_frequency_mhz(v: &SysctlValues, level: u32) -> (r: Option<u64>)
    ensures
        r == level_frequency(*v, level),
{
    let hz = match level {
        0 => v.perflevel0_cpuspeeds,
        1 => v.perflevel1_cpuspeeds,
        _ => None,
    };
    if let Some(hz) = hz {
        return Some(hz / 1_000_000);
    }
    if level == 0 {
        if let Some(hz) = v.cpufrequency_max {
            return Some(hz / 1_000_000);
        }
    }
    None
}

/// The first logical CPU of core `i` when `n` cores share `total` logical CPUs evenly,
/// the first `total % n` cores taking one more than the others.
pub open spec fn share_start(total: int, n: int, i: int) -> int {
    i * (total / n) + if i < total % n {
        i
    } else {
        total % n
    }
}

/// The number of logical CPUs of core `i` when `n` cores share `total` evenly.
pub open spec fn share_len(total: int, n: int, i: int) -> int {
    total / n + if i < total % n {
        1int
    } else {
        0int
    }
}

/// The ids `first`, `first + 1`, ..., `count` of them.
pub open spec fn id_range(first: int, count: int) -> Seq<usize> {
    Seq::new(count as nat, |k: int| (first + k) as usize)
}

/// Core `c` is numbered `id`, has type `t`, frequency `f`, and the `count` logical CPUs
/// from `first` on.
pub open spec fn core_is(
    c: CpuInfo,
    id: int,
    t: CoreType,
    f: Option<u64>,
    first: int,
    count: int,
) -> bool {
    &&& c.id == id
    &&& c.core_type == t
    &&& c.max_frequency_mhz == f
    &&& c.logical_cpus@ == id_range(first, count)
}

/// The logical CPU ids of the layout stay within `usize`.
pub open spec fn ids_fit(v: SysctlValues) -> bool {
    hybrid_layout(v) matches Some((pp, pl, ep, el)) ==> pp + ep <= usize::MAX && pl + el
        <= usize::MAX
}

/// Whether the logical CPU ids of the layout of `v` stay within `usize`
/// (see [`ids_fit`]); [`cpus`] requires it.
pub fn layout_fits(v: &SysctlValues) -> (r: bool)
    ensures
        r == ids_fit(*v),
{
    match detect_apple_silicon_hybrid(v) {
        Some((pp, pl, ep, el)) => pp <= usize::MAX - ep && pl <= usize::MAX - el,
        None => true,
    }
}

/// `cores` is the macOS layout for `v`. On Apple Silicon the P-cores come first, then
/// the E-cores; the P-level logical CPUs `0..pl` are spread evenly over the P-cores in
/// consecutive blocks, then the E-level ones `pl..pl + el` over the E-cores. On a
/// homogeneous system every core has type `Unknown`, no frequency, and its even share
/// of the logical CPUs.
pub open spec fn mac_cores(v: SysctlValues, cores: Seq<CpuInfo>) -> bool {
    match hybrid_layout(v) {
        Some((pp, pl, ep, el)) => {
            &&& cores.len() == pp + ep
            &&& forall|i: int|
                0 <= i < pp ==> core_is(
                    #[trigger] cores[i],
                    i,
                    CoreType::Performance,
                    level_frequency(v, 0),
                    share_start(pl as int, pp as int, i),
                    share_len(pl as int, pp as int, i),
                )
            &&& forall|i: int|
                pp <= i < pp + ep ==> core_is(
                    #[trigger] cores[i],
                    i,
                    CoreType::Efficiency,
                    level_frequency(v, 1),
                    pl + share_start(el as int, ep as int, i - pp),
                    share_len(el as int, ep as int, i - pp),
                )
        },
        None => {
            let lc = logical_count(v) as int;
            let pc = physical_count(v) as int;
            &&& cores.len() == pc
            &&& forall|i: int|
                0 <= i < cores.len() ==> core_is(
                    #[trigger] cores[i],
                    i,
                    CoreType::Unknown,
                    None,
                    share_start(lc, pc, i),
                    share_len(lc, pc, i),
                )
        },
    }
}

/// The `count` consecutive ids from `first` on.
fn consecutive_ids(first: usize, count: usize) -> (r: Vec<usize>)
    requires
        first + count <= usize::MAX,
    ensures
        r@ == id_range(first as int, count as int),
{
    let mut r: Vec<usize> = Vec::new();
    for k in 0..count
        invariant
            first + count <= usize::MAX,
            r@ == id_range(first as int, k as int),
    {
        r.push(first + k);
        assert(r@ =~= id_range(first as int, k + 1));
    }
    r
}

/// Consecutive shares follow each other and stay within `total`.
pub proof fn lemma_share_step(total: int, n: int, i: int)
    requires
        0 <= i < n,
        0 <= total,
    ensures
        share_start(total, n, i + 1) == share_start(total, n, i) + share_len(total, n, i),
        0 <= share_start(total, n, i),
        0 <= share_len(total, n, i),
        share_start(total, n, i + 1) <= total,
        share_start(total, n, n) == total,
{
    let q = total / n;
    let r = total % n;
    assert(total == n * q + r && 0 <= r < n && 0 <= q) by (nonlinear_arith)
        requires
            n > 0,
            total >= 0,
            q == total / n,
            r == total % n,
    ;
    assert((i + 1) * q == i * q + q) by (nonlinear_arith);
    assert((i + 1) * q <= n * q) by (nonlinear_arith)
        requires
            i + 1 <= n,
            q >= 0,
    ;
    assert(0 <= i * q) by (nonlinear_arith)
        requires
            i >= 0,
            q >= 0,
    ;
}

/// Later shares start no earlier.
pub proof fn lemma_share_mono(total: int, n: int, j: int, k: int)
    requires
        0 <= j <= k <= n,
        0 <= total,
        0 < n,
    ensures
        share_start(total, n, j) <= share_start(total, n, k),
{
    let q = total / n;
    assert(0 <= q) by (nonlinear_arith)
        requires
            n > 0,
            total >= 0,
            q == total / n,
    ;
    assert(j * q <= k * q) by (nonlinear_arith)
        requires
            j <= k,
            q >= 0,
    ;
}

/// Enumerate all physical CPU cores and their core types on macOS from the `sysctl` values.
pub fn cpus(v: &SysctlValues) -> (r: Result<Vec<CpuInfo>, Error>)
    requires
        ids_fit(*v),
    ensures
        r matches Ok(cores) && mac_cores(*v, cores@),
{
    let logical_count = logical_cpu_count(v);
    let physical_count = physical_cpu_count(v);
    let hybrid = detect_apple_silicon_hybrid(v);
    let mut cores: Vec<CpuInfo> = Vec::new();
    match hybrid {
        Some((p_physical, p_logical, e_physical, e_logical)) => {
            let p_freq = perflevel_frequency_mhz(v, 0);
            let e_freq = perflevel_frequency_mhz(v, 1);
            // On Apple Silicon, P-cores come first, then E-cores; logical CPUs are
            // distributed evenly across the physical cores of each level.
            let p_per_core = p_logical / p_physical;
            let p_extra = p_logical % p_physical;
            let e_per_core = e_logical / e_physical;
            let e_extra = e_logical % e_physical;
            let mut logical_id: usize = 0;
            assert(share_start(p_logical as int, p_physical as int, 0) == 0);
            for idx in 0..p_physical
                invariant
                    hybrid == hybrid_layout(*v),
                    ids_fit(*v),
                    hybrid == Some((p_physical, p_logical, e_physical, e_logical)),
                    p_physical > 0,
                    p_per_core == p_logical / p_physical,
                    p_extra == p_logical % p_physical,
                    p_freq == level_frequency(*v, 0),
                    logical_id == share_start(p_logical as int, p_physical as int, idx as int),
                    cores@.len() == idx,
                    forall|i: int|
                        0 <= i < idx ==> core_is(
                            #[trigger] cores@[i],
                            i,
                            CoreType::Performance,
                            p_freq,
                            share_start(p_logical as int, p_physical as int, i),
                            share_len(p_logical as int, p_physical as int, i),
                        ),
            {
                proof {
                    lemma_share_step(p_logical as int, p_physical as int, idx as int);
                }
                let thread_count = if idx < p_extra {
                    p_per_core + 1
                } else {
                    p_per_core
                };
                let logical_cpus = consecutive_ids(logical_id, thread_count);
                logical_id = logical_id + thread_count;
                cores.push(
                    CpuInfo {
                        id: idx,
                        core_type: CoreType::Performance,
                        max_frequency_mhz: p_freq,
                        logical_cpus,
                    },
                );
            }
            proof {
                lemma_share_step(p_logical as int, p_physical as int, 0);
            }
            assert(logical_id == p_logical);
            assert(share_start(e_logical as int, e_physical as int, 0) == 0);
            for i in 0..e_physical
                invariant
                    hybrid == hybrid_layout(*v),
                    ids_fit(*v),
                    hybrid == Some((p_physical, p_logical, e_physical, e_logical)),
                    e_physical > 0,
                    e_per_core == e_logical / e_physical,
                    e_extra == e_logical % e_physical,
                    p_freq == level_frequency(*v, 0),
                    e_freq == level_frequency(*v, 1),
                    logical_id == p_logical + share_start(
                        e_logical as int,
                        e_physical as int,
                        i as int,
                    ),
                    cores@.len() == p_physical + i,
                    forall|k: int|
                        0 <= k < p_physical ==> core_is(
                            #[trigger] cores@[k],
                            k,
                            CoreType::Performance,
                            p_freq,
                            share_start(p_logical as int, p_physical as int, k),
                            share_len(p_logical as int, p_physical as int, k),
                        ),
                    forall|k: int|
                        p_physical <= k < p_physical + i ==> core_is(
                            #[trigger] cores@[k],
                            k,
                            CoreType::Efficiency,
                            e_freq,
                            p_logical + share_start(e_logical as int, e_physical as int, k - p_physical),
                            share_len(e_logical as int, e_physical as int, k - p_physical),
                        ),
            {
                proof {
                    lemma_share_step(e_logical as int, e_physical as int, i as int);
                }
                let idx = p_physical + i;
                let thread_count = if i < e_extra {
                    e_per_core + 1
                } else {
                    e_per_core
                };
                let logical_cpus = consecutive_ids(logical_id, thread_count);
                logical_id = logical_id + thread_count;
                cores.push(
                    CpuInfo {
                        id: idx,
                        core_type: CoreType::Efficiency,
                        max_frequency_mhz: e_freq,
                        logical_cpus,
                    },
                );
            }
        },
        None => {
            if physical_count > 0 {
                // Homogeneous system (Intel Mac or single perf level)
                let per_core = logical_count / physical_count;
                let extra = logical_count % physical_count;
                let mut start: usize = 0;
                assert(share_start(logical_count as int, physical_count as int, 0) == 0);
                for idx in 0..physical_count
                    invariant
                        hybrid == hybrid_layout(*v),
                        hybrid is None,
                        logical_count == crate::macos::logical_count(*v),
                        physical_count == crate::macos::physical_count(*v),
                        physical_count > 0,
                        per_core == logical_count / physical_count,
                        extra == logical_count % physical_count,
                        start == share_start(logical_count as int, physical_count as int, idx as int),
                        cores@.len() == idx,
                        forall|i: int|
                            0 <= i < idx ==> core_is(
                                #[trigger] cores@[i],
                                i,
                                CoreType::Unknown,
                                None,
                                share_start(logical_count as int, physical_count as int, i),
                                share_len(logical_count as int, physical_count as int, i),
                            ),
                {
                    proof {
                        lemma_share_step(logical_count as int, physical_count as int, idx as int);
                    }
                    let thread_count = if idx < extra {
                        per_core + 1
                    } else {
                        per_core
                    };
                    let logical_cpus = consecutive_ids(start, thread_count);
                    start = start + thread_count;
                    cores.push(
                        CpuInfo {
                            id: idx,
                            core_type: CoreType::Unknown,
                            max_frequency_mhz: None,
                            logical_cpus,
                        },
                    );
                }
            }
        },
    }
    Ok(cores)
}

/// Check that `cpu_id` is below the number of logical CPUs.
pub fn validate_cpu_id(cpu_id: usize, v: &SysctlValues) -> (r: Result<(), Error>)
    ensures
        cpu_id < logical_count(*v) ==> r is Ok,
        cpu_id >= logical_count(*v) ==> (r matches Err(Error::InvalidCpuId(id)) && id == cpu_id),
{
    let cpu_count = logical_cpu_count(v);
    if cpu_id >= cpu_count {
        return Err(Error::InvalidCpuId(cpu_id));
    }
    Ok(())
}

/// Pin the current thread to the specified logical CPU.
///
/// macOS does not support hard CPU affinity binding (`THREAD_AFFINITY_POLICY` only
/// tags threads for co-location), so a valid `cpu_id` gives
/// `Error::PinningNotSupported`. On macOS, use QoS classes
/// (`pthread_set_qos_class_np`) for soft scheduling hints.
pub fn pin_cpu(cpu_id: usize, v: &SysctlValues) -> (r: Result<(), Error>)
    ensures
        cpu_id < logical_count(*v) ==> r matches Err(Error::PinningNotSupported),
        cpu_id >= logical_count(*v) ==> (r matches Err(Error::InvalidCpuId(id)) && id == cpu_id),
{
    validate_cpu_id(cpu_id, v)?;
    Err(Error::PinningNotSupported)
}

} // verus!
