//! Windows: the processor records of the buffer that
//! `GetLogicalProcessorInformationEx` fills, the logical CPUs of group affinity masks,
//! core types from efficiency classes, CPU id validation against the topology, and the
//! group affinity of one CPU.
use vstd::prelude::*;

use crate::types::{CoreType, CpuInfo, CpuTopology, Error};

verus! {

/// Information about a single physical core from Windows.
pub struct PhysicalCoreRaw {
    /// The `EfficiencyClass` of the core (higher is faster).
    pub efficiency_class: u8,
    /// The logical CPUs of the core.
    pub logical_cpus: Vec<usize>,
}

/// The largest efficiency class (0 when there is no core).
pub open spec fn max_class(raw: Seq<PhysicalCoreRaw>) -> u8
    decreases raw.len(),
{
    if raw.len() == 0 {
        0
    } else {
        let m = max_class(raw.drop_last());
        if raw.last().efficiency_class > m {
            raw.last().efficiency_class
        } else {
            m
        }
    }
}

/// The smallest efficiency class of a non-empty list.
pub open spec fn min_class_of(raw: Seq<PhysicalCoreRaw>) -> u8
    decreases raw.len(),
{
    if raw.len() == 0 {
        u8::MAX
    } else {
        let m = min_class_of(raw.drop_last());
        if raw.last().efficiency_class < m {
            raw.last().efficiency_class
        } else {
            m
        }
    }
}

/// The smallest efficiency class (0 when there is no core).
pub open spec fn min_class(raw: Seq<PhysicalCoreRaw>) -> u8 {
    if raw.len() == 0 {
        0
    } else {
        min_class_of(raw)
    }
}

/// The type of a core of class `class`: `Unknown` when all classes are equal, else
/// `Performance` for the highest class and `Efficiency` for the others.
pub open spec fn class_type(class: u8, max: u8, min: u8) -> CoreType {
    if max == min {
        CoreType::Unknown
    } else if class == max {
        CoreType::Performance
    } else {
        CoreType::Efficiency
    }
}

/// `cores` is what Windows detection gives for `raw`: one core per entry, in order,
/// numbered from 0, typed by efficiency class, without frequency.
pub open spec fn windows_cores(raw: Seq<PhysicalCoreRaw>, cores: Seq<CpuInfo>) -> bool {
    &&& cores.len() == raw.len()
    &&& forall|i: int|
        0 <= i < cores.len() ==> {
            &&& (#[trigger] cores[i]).id == i
            &&& cores[i].core_type == class_type(
                raw[i].efficiency_class,
                max_class(raw),
                min_class(raw),
            )
            &&& cores[i].max_frequency_mhz is None
            &&& cores[i].logical_cpus@ == raw[i].logical_cpus@
        }
}

/// Enumerate all physical CPU cores and their core types on Windows from the per-core
/// entries of `GetLogicalProcessorInformationEx(RelationProcessorCore)`.
pub fn cpus(raw_cores: Vec<PhysicalCoreRaw>) -> (r: Result<Vec<CpuInfo>, Error>)
    ensures
        r matches Ok(cores) && windows_cores(raw_cores@, cores@),
{
    let ghost raw = raw_cores@;
    let mut raw_cores = raw_cores;
    let n = raw_cores.len();
    let mut max_efficiency: u8 = 0;
    let mut min_efficiency: u8 = u8::MAX;
    for i in 0..n
        invariant
            n == raw.len(),
            raw_cores@ == raw,
            max_efficiency == max_class(raw.take(i as int)),
            min_efficiency == min_class_of(raw.take(i as int)),
    {
        assert(raw.take(i + 1).drop_last() =~= raw.take(i as int));
        let c = raw_cores[i].efficiency_class;
        if c > max_efficiency {
            max_efficiency = c;
        }
        if c < min_efficiency {
            min_efficiency = c;
        }
    }
    assert(raw.take(n as int) =~= raw);
    if n == 0 {
        min_efficiency = 0;
    }
    let mut result: Vec<CpuInfo> = Vec::new();
    for idx in 0..n
        invariant
            n == raw.len(),
            raw_cores@.len() == n,
            max_efficiency == max_class(raw),
            min_efficiency == min_class(raw),
            forall|j: int|
                idx <= j < n ==> (#[trigger] raw_cores@[j]).efficiency_class
                    == raw[j].efficiency_class && raw_cores@[j].logical_cpus@
                    == raw[j].logical_cpus@,
            result@.len() == idx,
            forall|i: int|
                0 <= i < idx ==> {
                    &&& (#[trigger] result@[i]).id == i
                    &&& result@[i].core_type == class_type(
                        raw[i].efficiency_class,
                        max_class(raw),
                        min_class(raw),
                    )
                    &&& result@[i].max_frequency_mhz is None
                    &&& result@[i].logical_cpus@ == raw[i].logical_cpus@
                },
    {
        let class = raw_cores[idx].efficiency_class;
        let core_type = if max_efficiency == min_efficiency {
            CoreType::Unknown
        } else if class == max_efficiency {
            CoreType::Performance
        } else {
            CoreType::Efficiency
        };
        let mut logical_cpus: Vec<usize> = Vec::new();
        std::mem::swap(&mut logical_cpus, &mut raw_cores[idx].logical_cpus);
        result.push(CpuInfo { id: idx, core_type, max_frequency_mhz: None, logical_cpus });
    }
    Ok(result)
}

/// Some core of `cores` has logical CPU `id`.
pub open spec fn has_logical_cpu(cores: Seq<CpuInfo>, id: usize) -> bool {
    exists|i: int| 0 <= i < cores.len() && (#[trigger] cores[i]).logical_cpus@.contains(id)
}

/// Check that `cpu_id` is a logical CPU of the detected topology; a detection error is
/// passed on.
pub fn validate_cpu_id(cpu_id: usize, topo: Result<&CpuTopology, Error>) -> (r: Result<(), Error>)
    ensures
        match topo {
            Ok(t) => (r is Ok) == has_logical_cpu(t.cores@, cpu_id) && (r is Err ==> (r matches Err(
                Error::InvalidCpuId(id),
            ) && id == cpu_id)),
            Err(e) => r == Err::<(), Error>(e),
        },
{
    let t = match topo {
        Ok(t) => t,
        Err(e) => {
            return Err(e);
        },
    };
    let n = t.cores.len();
    for i in 0..n
        invariant
            topo == Ok::<&CpuTopology, Error>(t),
            n == t.cores@.len(),
            forall|k: int| 0 <= k < i ==> !(#[trigger] t.cores@[k]).logical_cpus@.contains(
                cpu_id,
            ),
    {
        let lcs = &t.cores[i].logical_cpus;
        let m = lcs.len();
        for j in 0..m
            invariant
                topo == Ok::<&CpuTopology, Error>(t),
                i < n,
                n == t.cores@.len(),
                m == lcs@.len(),
                lcs@ == t.cores@[i as int].logical_cpus@,
                forall|q: int| 0 <= q < j ==> lcs@[q] != cpu_id,
        {
            if lcs[j] == cpu_id {
                assert(t.cores@[i as int].logical_cpus@[j as int] == cpu_id);
                assert(t.cores@[i as int].logical_cpus@.contains(cpu_id));
                assert(has_logical_cpu(t.cores@, cpu_id));
                return Ok(());
            }
        }
    }
    Err(Error::InvalidCpuId(cpu_id))
}

/// Bit `b` of `mask` is set.
pub open spec fn bit_set(mask: u64, b: u64) -> bool {
    (mask >> b) & 1 == 1
}

/// `base + b` for each set bit `b` of `mask` from bit `pos` on, in increasing order.
pub open spec fn set_bits_from(mask: u64, pos: nat, base: nat) -> Seq<usize>
    decreases 64 - pos,
{
    if pos >= 64 {
        Seq::empty()
    } else {
        let rest = set_bits_from(mask, pos + 1, base);
        if bit_set(mask, pos as u64) {
            seq![(base + pos) as usize] + rest
        } else {
            rest
        }
    }
}

/// The logical CPUs of one group affinity: `group * 64 + b` for each set bit `b` of the
/// mask, in increasing order.
pub open spec fn mask_cpus(group: u16, mask: u64) -> Seq<usize> {
    set_bits_from(mask, 0, group as nat * 64)
}

/// The logical CPUs of a list of group affinities, group by group.
pub open spec fn masks_cpus(masks: Seq<(u16, u64)>) -> Seq<usize>
    decreases masks.len(),
{
    if masks.len() == 0 {
        Seq::empty()
    } else {
        masks_cpus(masks.drop_last()) + mask_cpus(masks.last().0, masks.last().1)
    }
}

proof fn lemma_no_bits_left(mask: u64, pos: nat, base: nat)
    requires
        pos <= 64,
        pos < 64 ==> mask >> (pos as u64) == 0,
    ensures
        set_bits_from(mask, pos, base) == Seq::<usize>::empty(),
    decreases 64 - pos,
{
    if pos < 64 {
        let p = pos as u64;
        assert((mask >> p) & 1 == 0) by (bit_vector)
            requires
                mask >> p == 0,
        ;
        if pos + 1 < 64 {
            let q = (pos + 1) as u64;
            assert(mask >> q == 0) by (bit_vector)
                requires
                    mask >> p == 0,
                    q == p + 1,
                    p < 63,
            ;
        }
        lemma_no_bits_left(mask, pos + 1, base);
    }
}

/// Append the logical CPUs of one group affinity to `out`.
fn push_mask_cpus(out: &mut Vec<usize>, group: u16, mask: u64)
    ensures
        final(out)@ == old(out)@ + mask_cpus(group, mask),
{
    let group_num = group as usize;
    let mut rest = mask;
    let mut bit_pos: u64 = 0;
    assert(mask >> 0u64 == mask) by (bit_vector);
    while rest != 0
        invariant
            bit_pos <= 64,
            group_num == group,
            bit_pos < 64 ==> rest == mask >> bit_pos,
            bit_pos == 64 ==> rest == 0,
            old(out)@ + mask_cpus(group, mask) == out@ + set_bits_from(
                mask,
                bit_pos as nat,
                group as nat * 64,
            ),
        decreases 64 - bit_pos,
    {
        assert(bit_pos < 64);
        let ghost before = out@;
        let low = rest & 1;
        assert((low == 1 <==> bit_set(mask, bit_pos)) && low <= 1) by (bit_vector)
            requires
                rest == mask >> bit_pos,
                low == rest & 1,
        ;
        proof {
            let base = group as nat * 64;
            let rest_bits = set_bits_from(mask, (bit_pos + 1) as nat, base);
            if bit_set(mask, bit_pos) {
                assert(set_bits_from(mask, bit_pos as nat, base) == seq![(base + bit_pos) as usize]
                    + rest_bits);
            } else {
                assert(set_bits_from(mask, bit_pos as nat, base) == rest_bits);
            }
        }
        if low != 0 {
            let cpu = group_num * 64 + bit_pos as usize;
            assert(cpu == (group as nat * 64 + bit_pos) as usize);
            out.push(cpu);
            assert(out@ == before.push(cpu));
            assert(before + set_bits_from(mask, bit_pos as nat, group as nat * 64) =~= out@
                + set_bits_from(mask, (bit_pos + 1) as nat, group as nat * 64));
        }
        let next = rest >> 1u64;
        if bit_pos + 1 < 64 {
            let b1 = bit_pos + 1;
            assert(next == mask >> b1) by (bit_vector)
                requires
                    rest == mask >> bit_pos,
                    next == rest >> 1u64,
                    b1 == bit_pos + 1,
                    bit_pos < 63,
            ;
        } else {
            assert(next == 0) by (bit_vector)
                requires
                    rest == mask >> bit_pos,
                    next == rest >> 1u64,
                    bit_pos == 63,
            ;
        }
        rest = next;
        bit_pos = bit_pos + 1;
    }
    proof {
        lemma_no_bits_left(mask, bit_pos as nat, group as nat * 64);
        assert(out@ + Seq::<usize>::empty() =~= out@);
    }
}

/// The logical CPUs of the group affinities of one core, as
/// `GetLogicalProcessorInformationEx` reports them: (group number, mask) pairs.
pub fn logical_cpus_from_masks(masks: &Vec<(u16, u64)>) -> (r: Vec<usize>)
    ensures
        r@ == masks_cpus(masks@),
{
    let mut out: Vec<usize> = Vec::new();
    let n = masks.len();
    for g in 0..n
        invariant
            n == masks@.len(),
            out@ == masks_cpus(masks@.take(g as int)),
    {
        assert(masks@.take(g + 1).drop_last() =~= masks@.take(g as int));
        let (group, mask) = masks[g];
        push_mask_cpus(&mut out, group, mask);
    }
    assert(masks@.take(n as int) =~= masks@);
    out
}

/// The group affinity that selects only logical CPU `cpu_id`: group `cpu_id / 64`
/// (kept to 16 bits) and the mask with bit `cpu_id % 64` set.
pub fn group_affinity(cpu_id: usize) -> (r: (u16, u64))
    ensures
        r.0 == (cpu_id / 64) as u16,
        r.1 == 1u64 << (cpu_id % 64) as u64,
{
    let group = #[verifier::truncate]
    ((cpu_id / 64) as u16);
    let bit = (cpu_id % 64) as u64;
    (group, 1u64 << bit)
}

} // verus!

verus! {

/// The little-endian 16-bit value at byte `i`.
pub open spec fn u16_at(b: Seq<u8>, i: int) -> int {
    b[i] + b[i + 1] * 256
}

/// The little-endian 32-bit value at byte `i`.
pub open spec fn u32_at(b: Seq<u8>, i: int) -> int {
    u16_at(b, i) + u16_at(b, i + 2) * 65536
}

/// The little-endian 64-bit value at byte `i`.
pub open spec fn u64_at(b: Seq<u8>, i: int) -> int {
    u32_at(b, i) + u32_at(b, i + 4) * 4294967296
}

/// A `GROUP_AFFINITY` is a pointer-sized mask, a 16-bit group and three reserved 16-bit
/// words.
pub open spec fn group_affinity_size(pointer_bytes: int) -> int {
    pointer_bytes + 8
}

/// The mask of a `GROUP_AFFINITY` at byte `i`.
pub open spec fn mask_at(b: Seq<u8>, i: int, pointer_bytes: int) -> u64 {
    if pointer_bytes == 8 {
        u64_at(b, i) as u64
    } else {
        u32_at(b, i) as u64
    }
}

/// The (group, mask) pairs of the `GroupMask` array of the processor record at `o`.
pub open spec fn record_masks(b: Seq<u8>, o: int, pointer_bytes: int) -> Seq<(u16, u64)> {
    Seq::new(
        u16_at(b, o + 30) as nat,
        |g: int|
            {
                let at = o + 32 + g * group_affinity_size(pointer_bytes);
                (u16_at(b, at + pointer_bytes) as u16, mask_at(b, at, pointer_bytes))
            },
    )
}

/// The record at byte `o` is one that the walk can read: its header (`Relationship`,
/// `Size`) lies in the buffer and its size is not 0; a processor record
/// (`Relationship` 0, `RelationProcessorCore`) has at most one group mask, and that
/// mask lies in the buffer.
pub open spec fn record_ok(b: Seq<u8>, o: int, pointer_bytes: int) -> bool {
    &&& o + 8 <= b.len()
    &&& u32_at(b, o + 4) > 0
    &&& u32_at(b, o) == 0 ==> {
        &&& o + 32 <= b.len()
        &&& u16_at(b, o + 30) <= 1
        &&& o + 32 + u16_at(b, o + 30) * group_affinity_size(pointer_bytes) <= b.len()
    }
}

/// Every record that the walk from `o` reaches can be read.
pub open spec fn records_ok(b: Seq<u8>, o: int, pointer_bytes: int) -> bool
    decreases b.len() - o,
{
    if o < 0 || o >= b.len() {
        true
    } else if !record_ok(b, o, pointer_bytes) {
        false
    } else {
        let size = u32_at(b, o + 4);
        if size <= 0 {
            false
        } else if o + size >= b.len() {
            true
        } else {
            records_ok(b, o + size, pointer_bytes)
        }
    }
}

/// The processor records from byte `o` on, as (efficiency class, group masks).
pub open spec fn processor_records(b: Seq<u8>, o: int, pointer_bytes: int) -> Seq<
    (u8, Seq<(u16, u64)>),
>
    decreases b.len() - o,
{
    let size = u32_at(b, o + 4);
    if o < 0 || o >= b.len() || !record_ok(b, o, pointer_bytes) || size <= 0 {
        Seq::empty()
    } else {
        let rest = if o + size >= b.len() {
            Seq::empty()
        } else {
            processor_records(b, o + size, pointer_bytes)
        };
        if u32_at(b, o) == 0 {
            seq![(b[o + 9], record_masks(b, o, pointer_bytes))] + rest
        } else {
            rest
        }
    }
}

/// The (efficiency class, logical CPUs) of a core.
pub open spec fn raw_view(r: PhysicalCoreRaw) -> (u8, Seq<usize>) {
    (r.efficiency_class, r.logical_cpus@)
}

/// The (efficiency class, logical CPUs) of processor records.
pub open spec fn record_cores(recs: Seq<(u8, Seq<(u16, u64)>)>) -> Seq<(u8, Seq<usize>)> {
    recs.map_values(|r: (u8, Seq<(u16, u64)>)| (r.0, masks_cpus(r.1)))
}

fn read_u16(b: &[u8], i: usize) -> (r: u64)
    requires
        i + 2 <= b@.len(),
    ensures
        r == u16_at(b@, i as int),
{
    b[i] as u64 + (b[i + 1] as u64) * 256
}

fn read_u32(b: &[u8], i: usize) -> (r: u64)
    requires
        i + 4 <= b@.len(),
    ensures
        r == u32_at(b@, i as int),
        r <= u32::MAX,
{
    let n = b.len();
    assert(i + 4 <= n);
    let lo = read_u16(b, i);
    let hi = read_u16(b, i + 2);
    lo + hi * 65536
}

fn read_mask(b: &[u8], i: usize, pointer_bytes: usize) -> (r: u64)
    requires
        pointer_bytes == 4 || pointer_bytes == 8,
        i + pointer_bytes <= b@.len(),
    ensures
        r == mask_at(b@, i as int, pointer_bytes as int),
{
    let n = b.len();
    assert(i + pointer_bytes <= n);
    let lo = read_u32(b, i);
    if pointer_bytes == 8 {
        let hi = read_u32(b, i + 4);
        lo + hi * 4294967296
    } else {
        lo
    }
}

/// Whether every record of a `GetLogicalProcessorInformationEx` buffer can be read
/// (see [`records_ok`]); [`processor_records_from_buffer`] requires it.
pub fn records_well_formed(buffer: &[u8], pointer_bytes: usize) -> (r: bool)
    requires
        pointer_bytes == 4 || pointer_bytes == 8,
    ensures
        r == records_ok(buffer@, 0, pointer_bytes as int),
{
    let len = buffer.len();
    let mut o: usize = 0;
    while o < len
        invariant
            len == buffer@.len(),
            pointer_bytes == 4 || pointer_bytes == 8,
            records_ok(buffer@, 0, pointer_bytes as int) == records_ok(
                buffer@,
                o as int,
                pointer_bytes as int,
            ),
        decreases len - o,
    {
        if len - o < 8 {
            return false;
        }
        let size = read_u32(buffer, o + 4);
        if size == 0 {
            return false;
        }
        if read_u32(buffer, o) == 0 {
            if len - o < 32 {
                return false;
            }
            let group_count = read_u16(buffer, o + 30);
            if group_count > 1 {
                return false;
            }
            if group_count == 1 && len - o - 32 < pointer_bytes + 8 {
                assert(group_count * (pointer_bytes + 8) == pointer_bytes + 8) by (nonlinear_arith)
                    requires
                        group_count == 1,
                ;
                return false;
            }
            assert(o + 32 + group_count * (pointer_bytes + 8) <= len) by {
                if group_count == 0 {
                    assert(group_count * (pointer_bytes + 8) == 0) by (nonlinear_arith)
                        requires
                            group_count == 0,
                    ;
                } else {
                    assert(group_count * (pointer_bytes + 8) == pointer_bytes + 8) by (nonlinear_arith)
                        requires
                            group_count == 1,
                    ;
                }
            }
        }
        assert(record_ok(buffer@, o as int, pointer_bytes as int));
        if size >= (len - o) as u64 {
            return true;
        }
        o = o + size as usize;
    }
    true
}

/// The processor cores described by the buffer that
/// `GetLogicalProcessorInformationEx(RelationProcessorCore, ..)` fills: the records are
/// walked from the start, each `Size` bytes long; each processor record gives a core
/// with its `EfficiencyClass` and the logical CPUs of its group masks. The layout is
/// that of a target whose pointers are `pointer_bytes` long.
pub fn processor_records_from_buffer(buffer: &[u8], pointer_bytes: usize) -> (r: Vec<
    PhysicalCoreRaw,
>)
    requires
        pointer_bytes == 4 || pointer_bytes == 8,
        records_ok(buffer@, 0, pointer_bytes as int),
    ensures
        r@.map_values(|c: PhysicalCoreRaw| raw_view(c)) == record_cores(
            processor_records(buffer@, 0, pointer_bytes as int),
        ),
{
    let ghost b = buffer@;
    let ghost pw = pointer_bytes as int;
    let len = buffer.len();
    let mut result: Vec<PhysicalCoreRaw> = Vec::new();
    let mut o: usize = 0;
    while o < len
        invariant
            len == b.len(),
            b == buffer@,
            pw == pointer_bytes,
            pointer_bytes == 4 || pointer_bytes == 8,
            records_ok(b, o as int, pw),
            record_cores(processor_records(b, 0, pw)) == result@.map_values(
                |c: PhysicalCoreRaw| raw_view(c),
            ) + record_cores(processor_records(b, o as int, pw)),
        decreases len - o,
    {
        let ghost before = result@;
        let size = read_u32(buffer, o + 4);
        let ghost rest = processor_records(b, o + size, pw);
        if read_u32(buffer, o) == 0 {
            let efficiency_class = buffer[o + 9];
            let group_count = read_u16(buffer, o + 30) as usize;
            let mut masks: Vec<(u16, u64)> = Vec::new();
            if group_count == 1 {
                assert(o + 32 + (pointer_bytes + 8) <= len) by {
                    assert(group_count * (pointer_bytes + 8) == pointer_bytes + 8) by (nonlinear_arith)
                        requires
                            group_count == 1,
                    ;
                }
                let at = o + 32;
                let group = read_u16(buffer, at + pointer_bytes) as u16;
                let mask = read_mask(buffer, at, pointer_bytes);
                masks.push((group, mask));
                assert(record_masks(b, o as int, pw)[0] == (group, mask));
            }
            assert(masks@ =~= record_masks(b, o as int, pw));
            let logical_cpus = logical_cpus_from_masks(&masks);
            result.push(PhysicalCoreRaw { efficiency_class, logical_cpus });
            proof {
                let rec = (b[o + 9], record_masks(b, o as int, pw));
                assert(processor_records(b, o as int, pw) == seq![rec] + rest);
                assert(record_cores(seq![rec] + rest) =~= seq![(rec.0, masks_cpus(rec.1))]
                    + record_cores(rest));
                assert(result@.map_values(|c: PhysicalCoreRaw| raw_view(c)) =~= before.map_values(
                    |c: PhysicalCoreRaw| raw_view(c),
                ).push((rec.0, masks_cpus(rec.1))));
            }
        } else {
            assert(processor_records(b, o as int, pw) == rest);
        }
        if size >= (len - o) as u64 {
            proof {
                assert(rest == Seq::<(u8, Seq<(u16, u64)>)>::empty());
                assert(record_cores(rest) =~= Seq::<(u8, Seq<usize>)>::empty());
            }
            assert(result@.map_values(|c: PhysicalCoreRaw| raw_view(c)) + record_cores(rest)
                =~= result@.map_values(|c: PhysicalCoreRaw| raw_view(c)));
            return result;
        }
        o = o + size as usize;
    }
    proof {
        assert(record_cores(processor_records(b, o as int, pw)) =~= Seq::<(u8, Seq<usize>)>::empty());
    }
    assert(result@.map_values(|c: PhysicalCoreRaw| raw_view(c)) + Seq::<(u8, Seq<usize>)>::empty()
        =~= result@.map_values(|c: PhysicalCoreRaw| raw_view(c)));
    result
}

} // verus!
