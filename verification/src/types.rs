//! The data model of the crate: core types, physical cores, the topology and errors.
use vstd::prelude::*;

verus! {

/// The type of a CPU core in a hybrid architecture.
#[derive(Debug, Clone, Copy, PartialEq, Eq, Hash, Structural)]
pub enum CoreType {
    /// A performance core (P-core). Higher clock speeds, more power consumption.
    Performance,
    /// An efficiency core (E-core). Lower clock speeds, less power consumption.
    Efficiency,
    /// Core type could not be determined (homogeneous system or unsupported detection).
    Unknown,
}

impl CoreType {
    /// The name under which a core type is shown.
    pub open spec fn spec_name(self) -> Seq<char> {
        match self {
            CoreType::Performance => "Performance"@,
            CoreType::Efficiency => "Efficiency"@,
            CoreType::Unknown => "Unknown"@,
        }
    }

    /// The name of the core type: `Performance`, `Efficiency` or `Unknown`.
    pub fn to_string(&self) -> (s: String)
        ensures
            s@ == self.spec_name(),
    {
        match self {
            CoreType::Performance => String::from_str("Performance"),
            CoreType::Efficiency => String::from_str("Efficiency"),
            CoreType::Unknown => String::from_str("Unknown"),
        }
    }
}

/// Information about a physical CPU core.
#[derive(Debug, Clone)]
pub struct CpuInfo {
    /// Sequential index for this physical core (0-based, assigned by this crate).
    /// This is NOT a hardware ID: it is a stable enumeration index derived from
    /// the OS-reported topology. Cores are ordered by (package, core_id) on Linux,
    /// by performance level on macOS, and by API enumeration order on Windows.
    pub id: usize,
    /// The core type (Performance, Efficiency, or Unknown).
    pub core_type: CoreType,
    /// Maximum frequency in MHz, if available.
    pub max_frequency_mhz: Option<u64>,
    /// Logical CPU IDs (hardware threads) belonging to this physical core.
    pub logical_cpus: Vec<usize>,
}

/// The CPU topology of the system.
#[derive(Debug, Clone)]
pub struct CpuTopology {
    /// Whether the system has a hybrid architecture (mix of P-cores and E-cores).
    pub is_hybrid: bool,
    /// All physical cores in the system.
    pub cores: Vec<CpuInfo>,
}

/// The cores of `cores` whose type is `t`, in their order.
pub open spec fn cores_of_type(cores: Seq<CpuInfo>, t: CoreType) -> Seq<CpuInfo>
    decreases cores.len(),
{
    if cores.len() == 0 {
        Seq::empty()
    } else {
        let rest = cores_of_type(cores.drop_last(), t);
        if cores.last().core_type == t {
            rest.push(cores.last())
        } else {
            rest
        }
    }
}

/// The values behind a sequence of references.
pub open spec fn derefs(s: Seq<&CpuInfo>) -> Seq<CpuInfo> {
    s.map_values(|c: &CpuInfo| *c)
}

proof fn lemma_derefs_push(s: Seq<&CpuInfo>, c: &CpuInfo)
    ensures
        derefs(s.push(c)) == derefs(s).push(*c),
{
    assert(derefs(s.push(c)) =~= derefs(s).push(*c));
}

impl CpuTopology {
    /// The cores that `best_cores` selects: the performance cores on a hybrid
    /// system, all cores otherwise.
    pub open spec fn spec_best_cores(self) -> Seq<CpuInfo> {
        if self.is_hybrid {
            cores_of_type(self.cores@, CoreType::Performance)
        } else {
            self.cores@
        }
    }

    fn cores_with_type(&self, t: CoreType) -> (r: Vec<&CpuInfo>)
        ensures
            derefs(r@) == cores_of_type(self.cores@, t),
    {
        let mut r: Vec<&CpuInfo> = Vec::new();
        let n = self.cores.len();
        for i in 0..n
            invariant
                n == self.cores@.len(),
                derefs(r@) == cores_of_type(self.cores@.take(i as int), t),
        {
            let c = &self.cores[i];
            proof {
                assert(self.cores@.take(i + 1).drop_last() =~= self.cores@.take(i as int));
            }
            if c.core_type == t {
                r.push(c);
            }
            assert(derefs(r@) =~= cores_of_type(self.cores@.take(i + 1), t));
        }
        assert(self.cores@.take(n as int) =~= self.cores@);
        r
    }

    /// Get only the performance cores.
    pub fn performance_cores(&self) -> (r: Vec<&CpuInfo>)
        ensures
            derefs(r@) == cores_of_type(self.cores@, CoreType::Performance),
    {
        self.cores_with_type(CoreType::Performance)
    }

    /// Get only the efficiency cores.
    pub fn efficiency_cores(&self) -> (r: Vec<&CpuInfo>)
        ensures
            derefs(r@) == cores_of_type(self.cores@, CoreType::Efficiency),
    {
        self.cores_with_type(CoreType::Efficiency)
    }

    /// Get the best cores for compute workloads.
    ///
    /// On hybrid systems, returns the performance cores.
    /// On homogeneous systems, returns all cores.
    pub fn best_cores(&self) -> (r: Vec<&CpuInfo>)
        ensures
            derefs(r@) == self.spec_best_cores(),
    {
        if self.is_hybrid {
            self.performance_cores()
        } else {
            let mut r: Vec<&CpuInfo> = Vec::new();
            let n = self.cores.len();
            for i in 0..n
                invariant
                    n == self.cores@.len(),
                    derefs(r@) == self.cores@.take(i as int),
            {
                let c = &self.cores[i];
                proof {
                    lemma_derefs_push(r@, c);
                }
                r.push(c);
                assert(derefs(r@) =~= self.cores@.take(i + 1));
            }
            assert(self.cores@.take(n as int) =~= self.cores@);
            r
        }
    }
}

#[verifier::external_type_specification]
#[verifier::external_body]
pub struct ExIoError(std::io::Error);

/// Errors that can occur during CPU detection or pinning.
#[derive(Debug)]
pub enum Error {
    /// The requested CPU ID does not exist.
    InvalidCpuId(usize),
    /// Thread pinning is not supported on this platform (e.g., macOS).
    PinningNotSupported,
    /// An OS-level error occurred.
    Os(std::io::Error),
}

/// The decimal digits of `n`, most significant first, without leading zeros.
pub open spec fn decimal(n: nat) -> Seq<char>
    decreases n,
{
    if n < 10 {
        seq![(n + 48) as char]
    } else {
        decimal(n / 10).push((n % 10 + 48) as char)
    }
}

/// `String::push`: appends one character.
#[verifier::external_body]
fn push_char(s: &mut String, c: char)
    ensures
        final(s)@ == old(s)@.push(c),
{
    s.push(c);
}

/// Appends the decimal digits of `n`.
fn push_decimal(s: &mut String, n: usize)
    ensures
        final(s)@ == old(s)@ + decimal(n as nat),
    decreases n,
{
    if n >= 10 {
        push_decimal(s, n / 10);
    }
    let d = (n % 10) as u8;
    let c = (d + 48) as char;
    push_char(s, c);
    assert(s@ =~= old(s)@ + decimal(n as nat));
}

impl Error {
    /// The message of the error: `invalid CPU ID: N`, `thread pinning is not supported
    /// on this platform`, or `OS error: ` followed by what `to_string` gives for the OS error.
    pub fn to_string(&self) -> (s: String)
        ensures
            match self {
                Error::InvalidCpuId(id) => s@ == "invalid CPU ID: "@ + decimal(*id as nat),
                Error::PinningNotSupported => s@ == "thread pinning is not supported on this platform"@,
                Error::Os(e) => exists|text: String|
                    vstd::string::to_string_from_display_ensures::<std::io::Error>(e, text) && s@
                        == "OS error: "@ + text@,
            },
    {
        match self {
            Error::InvalidCpuId(id) => {
                let mut s = String::from_str("invalid CPU ID: ");
                push_decimal(&mut s, *id);
                s
            },
            Error::PinningNotSupported => String::from_str(
                "thread pinning is not supported on this platform",
            ),
            Error::Os(e) => {
                let mut s = String::from_str("OS error: ");
                let text = e.to_string();
                s.append(text.as_str());
                assert(vstd::string::to_string_from_display_ensures::<std::io::Error>(e, text));
                s
            },
        }
    }
}

impl From<std::io::Error> for Error {
    fn from(e: std::io::Error) -> (r: Error) {
        Error::Os(e)
    }
}

impl vstd::std_specs::convert::FromSpecImpl<std::io::Error> for Error {
    open spec fn obeys_from_spec() -> bool {
        true
    }

    open spec fn from_spec(v: std::io::Error) -> Error {
        Error::Os(v)
    }
}

} // verus!
