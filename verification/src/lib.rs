//! # cpu_pin
//!
//! Cross-platform CPU core type detection, verified.
//!
//! This crate provides:
//! - Detection of physical CPU cores with their type (Performance/Efficiency)
//! - Mapping of logical CPUs (hardware threads) to physical cores
//! - Per-core maximum frequency information (where available)
//! - Validation of the logical CPU ids that threads are pinned to
//!
//! Each platform module turns what the operating system reports (the text of sysfs
//! files on Linux, `sysctl` values on macOS, per-core processor records on Windows)
//! into a list of [`CpuInfo`]; [`topology`] turns that list into a [`CpuTopology`].
//! Reading those values, caching the topology and the pinning system calls themselves
//! are left to the caller.
pub mod laws;
pub mod linux;
pub mod macos;
pub mod text;
pub mod types;
pub mod windows;

pub use types::{CoreType, CpuInfo, CpuTopology, Error};

use vstd::prelude::*;

verus! {

/// The cores mix P-cores and E-cores: some core is a P-core and some core is an E-core.
pub open spec fn is_hybrid(cores: Seq<CpuInfo>) -> bool {
    &&& exists|i: int| 0 <= i < cores.len() && (#[trigger] cores[i]).core_type == CoreType::Performance
    &&& exists|i: int| 0 <= i < cores.len() && (#[trigger] cores[i]).core_type == CoreType::Efficiency
}

/// Build the CPU topology from the result of platform core detection.
///
/// The topology holds all physical cores and whether the system has a hybrid
/// architecture (a mix of Performance and Efficiency cores). A detection error is passed on.
pub fn topology(detected: Result<Vec<CpuInfo>, Error>) -> (r: Result<CpuTopology, Error>)
    ensures
        match detected {
            Ok(cores) => r matches Ok(t) && t.cores@ == cores@ && t.is_hybrid == is_hybrid(cores@),
            Err(e) => r matches Err(e2) && e2 == e,
        },
{
    let cores = match detected {
        Ok(cores) => cores,
        Err(e) => {
            return Err(e);
        },
    };
    let mut has_p = false;
    let mut has_e = false;
    let n = cores.len();
    for i in 0..n
        invariant
            n == cores@.len(),
            has_p == exists|j: int|
                0 <= j < i && (#[trigger] cores@[j]).core_type == CoreType::Performance,
            has_e == exists|j: int|
                0 <= j < i && (#[trigger] cores@[j]).core_type == CoreType::Efficiency,
    {
        if cores[i].core_type == CoreType::Performance {
            has_p = true;
        }
        if cores[i].core_type == CoreType::Efficiency {
            has_e = true;
        }
    }
    let is_hybrid = has_p && has_e;
    Ok(CpuTopology { is_hybrid, cores })
}

} // verus!
