//! Properties that hold across the functions of the crate.
use vstd::prelude::*;

use crate::is_hybrid;
use crate::linux::{
    capacity_entries, capacity_threshold, core_cpu_lists, cpu_list, grouped, in_some_group, key_lt,
    linux_cores, max_capacity, online_cpus, part_ids, parts_ids, SysfsSnapshot,
};
use crate::text::{
    all_digits, first_index, is_digit, is_space, parse_usize, split_on, trim, trim_end,
    trim_start,
};
use crate::types::{cores_of_type, CoreType, CpuInfo, CpuTopology};
use crate::macos::{
    hybrid_layout, ids_fit, lemma_share_mono, lemma_share_step, logical_count, mac_cores,
    physical_count, share_len, share_start, SysctlValues,
};
use crate::windows::{
    bit_set, class_type, mask_cpus, masks_cpus, max_class, min_class, min_class_of,
    processor_records, record_cores, record_masks, record_ok, set_bits_from, u16_at, u32_at,
    u64_at, windows_cores, PhysicalCoreRaw,
};

verus! {

/// The cores of a given type are exactly the cores of `cores` that have that type.
pub proof fn law_cores_of_type_members(cores: Seq<CpuInfo>, t: CoreType, x: CpuInfo)
    ensures
        cores_of_type(cores, t).contains(x) <==> (cores.contains(x) && x.core_type == t),
        cores_of_type(cores, t).len() <= cores.len(),
    decreases cores.len(),
{
    if cores.len() > 0 {
        law_cores_of_type_members(cores.drop_last(), t, x);
        let prev = cores_of_type(cores.drop_last(), t);
        if cores.drop_last().contains(x) {
            let j = choose|j: int| 0 <= j < cores.drop_last().len() && cores.drop_last()[j] == x;
            assert(cores[j] == x);
        }
        if cores.contains(x) {
            let j = choose|j: int| 0 <= j < cores.len() && cores[j] == x;
            if j < cores.len() - 1 {
                assert(cores.drop_last()[j] == x);
            }
        }
        if cores.last().core_type == t {
            assert(prev.push(cores.last()).last() == cores.last());
            if prev.contains(x) {
                let j = choose|j: int| 0 <= j < prev.len() && prev[j] == x;
                assert(prev.push(cores.last())[j] == x);
            }
            if prev.push(cores.last()).contains(x) && x != cores.last() {
                let j = choose|j: int| 0 <= j < prev.len() + 1 && prev.push(cores.last())[j] == x;
                assert(prev[j] == x);
            }
        }
    }
}

/// There are no more performance and efficiency cores together than cores.
pub proof fn law_performance_efficiency_disjoint(cores: Seq<CpuInfo>)
    ensures
        cores_of_type(cores, CoreType::Performance).len() + cores_of_type(
            cores,
            CoreType::Efficiency,
        ).len() <= cores.len(),
    decreases cores.len(),
{
    if cores.len() > 0 {
        law_performance_efficiency_disjoint(cores.drop_last());
    }
}

proof fn lemma_cores_of_type_empty(cores: Seq<CpuInfo>, t: CoreType)
    ensures
        cores_of_type(cores, t).len() == 0 <==> forall|i: int|
            0 <= i < cores.len() ==> (#[trigger] cores[i]).core_type != t,
    decreases cores.len(),
{
    if cores.len() > 0 {
        lemma_cores_of_type_empty(cores.drop_last(), t);
        if cores_of_type(cores, t).len() == 0 {
            assert forall|i: int| 0 <= i < cores.len() implies (#[trigger] cores[i]).core_type
                != t by {
                if i < cores.len() - 1 {
                    assert(cores.drop_last()[i] == cores[i]);
                }
            }
        } else {
            if cores.last().core_type != t {
                let i = choose|i: int|
                    0 <= i < cores.drop_last().len() && (#[trigger] cores.drop_last()[i]).core_type
                        == t;
                assert(cores[i].core_type == t);
            }
        }
    }
}

/// In a topology whose `is_hybrid` is what [`crate::topology`] computes, `best_cores`
/// is empty only when there is no core at all, and on a hybrid system it holds only
/// performance cores.
pub proof fn law_best_cores_nonempty(t: CpuTopology)
    requires
        t.is_hybrid == is_hybrid(t.cores@),
    ensures
        t.spec_best_cores().len() > 0 <==> t.cores@.len() > 0,
        t.is_hybrid ==> forall|i: int|
            0 <= i < t.spec_best_cores().len() ==> (#[trigger] t.spec_best_cores()[i]).core_type
                == CoreType::Performance,
{
    let c = t.cores@;
    if t.is_hybrid {
        lemma_cores_of_type_empty(c, CoreType::Performance);
        law_cores_of_type_members(c, CoreType::Performance, c[0]);
        assert forall|i: int|
            0 <= i < t.spec_best_cores().len() implies (#[trigger] t.spec_best_cores()[i]).core_type
            == CoreType::Performance by {
            let x = t.spec_best_cores()[i];
            assert(t.spec_best_cores().contains(x));
            law_cores_of_type_members(c, CoreType::Performance, x);
        }
    }
}

/// Logical CPU `i` belongs to some core of `cores`.
pub open spec fn owned_by_some_core(cores: Seq<CpuInfo>, i: usize) -> bool {
    exists|g: int| 0 <= g < cores.len() && (#[trigger] cores[g]).logical_cpus@.contains(i)
}

/// On Linux every online logical CPU belongs to exactly one physical core, and every
/// logical CPU of a core is below the online count.
pub proof fn law_linux_partition(s: SysfsSnapshot, cores: Seq<CpuInfo>)
    requires
        linux_cores(s, cores),
    ensures
        forall|i: usize| i < s.cpu_count ==> #[trigger] owned_by_some_core(cores, i),
        forall|g: int, h: int, i: usize|
            0 <= g < cores.len() && 0 <= h < cores.len() && #[trigger] cores[g].logical_cpus@.contains(i)
                && #[trigger] cores[h].logical_cpus@.contains(i) ==> g == h,
        forall|g: int, j: int|
            0 <= g < cores.len() && 0 <= j < cores[g].logical_cpus@.len() ==> (#[trigger] cores[g].logical_cpus@[j])
                < s.cpu_count,
{
    let gs = core_cpu_lists(cores);
    assert forall|i: usize| i < s.cpu_count implies #[trigger] owned_by_some_core(cores, i) by {
        assert(in_some_group(gs, i as int));
        let g = choose|g: int| 0 <= g < gs.len() && #[trigger] gs[g].contains(i as usize);
        assert(cores[g].logical_cpus@.contains(i as usize));
    }
    assert forall|g: int, h: int, i: usize|
        0 <= g < cores.len() && 0 <= h < cores.len() && #[trigger] cores[g].logical_cpus@.contains(i)
            && #[trigger] cores[h].logical_cpus@.contains(i) implies g == h by {
        let a = choose|a: int| 0 <= a < gs[g].len() && gs[g][a] == i;
        let b = choose|b: int| 0 <= b < gs[h].len() && gs[h][b] == i;
        assert(gs[g][a] < s.cpu_count);
        assert(gs[h][b] < s.cpu_count);
        if g < h {
            assert(key_lt(crate::linux::group_key(s, gs[g]), crate::linux::group_key(s, gs[h])));
        } else if h < g {
            assert(key_lt(crate::linux::group_key(s, gs[h]), crate::linux::group_key(s, gs[g])));
        }
    }
    assert forall|g: int, j: int|
        0 <= g < cores.len() && 0 <= j < cores[g].logical_cpus@.len() implies (#[trigger] cores[g].logical_cpus@[j])
        < s.cpu_count by {
        assert(gs[g][j] < s.cpu_count);
    }
}

/// On Linux, where the online list names exactly the CPUs below the online count (as it
/// does when it cannot be read), `validate_cpu_id` accepts an id exactly when some core
/// of the topology holds it: an id that no core holds is refused.
pub proof fn law_linux_unowned_id_refused(
    s: SysfsSnapshot,
    cores: Seq<CpuInfo>,
    online: Option<String>,
    id: usize,
)
    requires
        linux_cores(s, cores),
        online_cpus(online, s.cpu_count) == Set::new(|i: usize| i < s.cpu_count),
    ensures
        online_cpus(online, s.cpu_count).contains(id) <==> owned_by_some_core(cores, id),
{
    law_linux_partition(s, cores);
    if owned_by_some_core(cores, id) {
        let g = choose|g: int| 0 <= g < cores.len() && (#[trigger] cores[g]).logical_cpus@.contains(id);
        let j = choose|j: int| 0 <= j < cores[g].logical_cpus@.len() && cores[g].logical_cpus@[j] == id;
        assert(cores[g].logical_cpus@[j] < s.cpu_count);
    }
}

proof fn lemma_classes_attained(raw: Seq<PhysicalCoreRaw>)
    requires
        raw.len() > 0,
    ensures
        exists|i: int| 0 <= i < raw.len() && (#[trigger] raw[i]).efficiency_class == max_class(raw),
        exists|i: int| 0 <= i < raw.len() && (#[trigger] raw[i]).efficiency_class == min_class_of(raw),
        forall|i: int| 0 <= i < raw.len() ==> min_class_of(raw) <= (#[trigger] raw[i]).efficiency_class <= max_class(raw),
    decreases raw.len(),
{
    let n = raw.len();
    if n > 1 {
        let p = raw.drop_last();
        lemma_classes_attained(p);
        let i = choose|i: int| 0 <= i < p.len() && (#[trigger] p[i]).efficiency_class == max_class(p);
        let k = choose|k: int| 0 <= k < p.len() && (#[trigger] p[k]).efficiency_class == min_class_of(p);
        assert(raw[i] == p[i]);
        assert(raw[k] == p[k]);
        assert(raw[n - 1] == raw.last());
        if raw.last().efficiency_class > max_class(p) {
            assert(raw[n - 1].efficiency_class == max_class(raw));
        } else {
            assert(raw[i].efficiency_class == max_class(raw));
        }
        if raw.last().efficiency_class < min_class_of(p) {
            assert(raw[n - 1].efficiency_class == min_class_of(raw));
        } else {
            assert(raw[k].efficiency_class == min_class_of(raw));
        }
        assert forall|j: int| 0 <= j < raw.len() implies min_class_of(raw) <= (#[trigger] raw[j]).efficiency_class
            <= max_class(raw) by {
            if j < n - 1 {
                assert(raw[j] == p[j]);
            }
        }
    } else {
        assert(raw.drop_last().len() == 0);
        assert(raw[0] == raw.last());
        assert(max_class(raw.drop_last()) == 0);
        assert(min_class_of(raw.drop_last()) == u8::MAX);
        assert(raw[0].efficiency_class == max_class(raw));
        assert(raw[0].efficiency_class == min_class_of(raw));
    }
}

/// On Windows the topology is hybrid exactly when the efficiency classes of the cores differ.
pub proof fn law_windows_hybrid(raw: Seq<PhysicalCoreRaw>, cores: Seq<CpuInfo>)
    requires
        windows_cores(raw, cores),
    ensures
        is_hybrid(cores) <==> max_class(raw) != min_class(raw),
{
    if raw.len() > 0 {
        lemma_classes_attained(raw);
        let hi = choose|i: int| 0 <= i < raw.len() && (#[trigger] raw[i]).efficiency_class == max_class(raw);
        let lo = choose|i: int| 0 <= i < raw.len() && (#[trigger] raw[i]).efficiency_class == min_class_of(raw);
        if max_class(raw) != min_class(raw) {
            assert(cores[hi].core_type == CoreType::Performance);
            assert(cores[lo].core_type == CoreType::Efficiency);
        } else {
            assert forall|i: int| 0 <= i < cores.len() implies (#[trigger] cores[i]).core_type
                != CoreType::Performance by {
                assert(cores[i].core_type == class_type(raw[i].efficiency_class, max_class(raw), min_class(raw)));
            }
        }
    }
}

} // verus!

verus! {

/// The ids of share `g` all lie below `share_start(total, n, h)` for `g < h`.
proof fn lemma_share_before(total: int, n: int, g: int, h: int)
    requires
        0 <= g < h <= n,
        0 <= total,
    ensures
        share_start(total, n, g) + share_len(total, n, g) <= share_start(total, n, h),
        0 <= share_start(total, n, g),
        share_start(total, n, h) <= total,
{
    lemma_share_step(total, n, g);
    lemma_share_mono(total, n, g + 1, h);
    lemma_share_mono(total, n, h, n);
    lemma_share_step(total, n, n - 1);
}

/// The share of `n` cores that holds logical CPU `l < share_start(total, n, m)`.
proof fn lemma_share_cover(total: int, n: int, m: int, l: int) -> (i: int)
    requires
        0 < m <= n,
        0 <= total,
        0 <= l < share_start(total, n, m),
    ensures
        0 <= i < m,
        share_start(total, n, i) <= l < share_start(total, n, i) + share_len(total, n, i),
    decreases m,
{
    lemma_share_step(total, n, m - 1);
    if l < share_start(total, n, m - 1) {
        lemma_share_cover(total, n, m - 1, l)
    } else {
        m - 1
    }
}

/// On macOS the logical CPUs of the cores are consecutive blocks in core order: every
/// logical CPU of a core is below every logical CPU of each later core, so no logical
/// CPU belongs to two cores.
pub proof fn law_macos_blocks_increasing(v: SysctlValues, cores: Seq<CpuInfo>)
    requires
        ids_fit(v),
        mac_cores(v, cores),
    ensures
        forall|g: int, h: int, a: int, b: int|
            0 <= g < h < cores.len() && 0 <= a < cores[g].logical_cpus@.len() && 0 <= b
                < cores[h].logical_cpus@.len() ==> #[trigger] cores[g].logical_cpus@[a]
                < #[trigger] cores[h].logical_cpus@[b],
{
    match hybrid_layout(v) {
        Some((pp, pl, ep, el)) => {
            assert forall|g: int, h: int, a: int, b: int|
                0 <= g < h < cores.len() && 0 <= a < cores[g].logical_cpus@.len() && 0 <= b
                    < cores[h].logical_cpus@.len() implies #[trigger] cores[g].logical_cpus@[a]
                < #[trigger] cores[h].logical_cpus@[b] by {
                if h < pp {
                    lemma_share_before(pl as int, pp as int, g, h);
                    lemma_share_step(pl as int, pp as int, h);
                } else if g < pp {
                    lemma_share_before(pl as int, pp as int, g, pp as int);
                    lemma_share_step(el as int, ep as int, h - pp);
                } else {
                    lemma_share_before(el as int, ep as int, g - pp, h - pp);
                    lemma_share_step(el as int, ep as int, h - pp);
                }
            }
        },
        None => {
            let lc = logical_count(v) as int;
            let pc = physical_count(v) as int;
            assert forall|g: int, h: int, a: int, b: int|
                0 <= g < h < cores.len() && 0 <= a < cores[g].logical_cpus@.len() && 0 <= b
                    < cores[h].logical_cpus@.len() implies #[trigger] cores[g].logical_cpus@[a]
                < #[trigger] cores[h].logical_cpus@[b] by {
                lemma_share_before(lc, pc, g, h);
                lemma_share_step(lc, pc, h);
                assert(lc <= u32::MAX);
            }
        },
    }
}

/// On macOS every logical CPU of the layout belongs to a core: on Apple Silicon every id
/// below the P-level plus E-level logical counts, on a homogeneous system with at least
/// one physical core every id below the logical count.
pub proof fn law_macos_every_cpu_in_a_core(v: SysctlValues, cores: Seq<CpuInfo>)
    requires
        ids_fit(v),
        mac_cores(v, cores),
    ensures
        hybrid_layout(v) matches Some((pp, pl, ep, el)) ==> forall|l: usize|
            l < pl + el ==> #[trigger] owned_by_some_core(cores, l),
        hybrid_layout(v) is None && physical_count(v) > 0 ==> forall|l: usize|
            l < logical_count(v) ==> #[trigger] owned_by_some_core(cores, l),
{
    match hybrid_layout(v) {
        Some((pp, pl, ep, el)) => {
            assert forall|l: usize| l < pl + el implies #[trigger] owned_by_some_core(cores, l) by {
                if l < pl {
                    lemma_share_step(pl as int, pp as int, pp - 1);
                    let i = lemma_share_cover(pl as int, pp as int, pp as int, l as int);
                    let k = l - share_start(pl as int, pp as int, i);
                    assert(cores[i].logical_cpus@[k] == l);
                } else {
                    lemma_share_step(el as int, ep as int, ep - 1);
                    let j = lemma_share_cover(el as int, ep as int, ep as int, l - pl);
                    let i = pp + j;
                    let k = l - pl - share_start(el as int, ep as int, j);
                    assert(cores[i].logical_cpus@[k] == l);
                }
            }
        },
        None => {
            let lc = logical_count(v) as int;
            let pc = physical_count(v) as int;
            if pc > 0 {
                assert forall|l: usize| l < lc implies #[trigger] owned_by_some_core(cores, l) by {
                    lemma_share_step(lc, pc, pc - 1);
                    let i = lemma_share_cover(lc, pc, pc, l as int);
                    let k = l - share_start(lc, pc, i);
                    assert(cores[i].logical_cpus@[k] == l);
                }
            }
        },
    }
}

} // verus!

verus! {

proof fn lemma_single_bit(b: u64, p: u64)
    requires
        b < 64,
        p < 64,
    ensures
        bit_set(1u64 << b, p) <==> p == b,
{
    assert(((1u64 << b) >> p) & 1 == 1 <==> p == b) by (bit_vector)
        requires
            b < 64,
            p < 64,
    ;
}

proof fn lemma_single_bit_cpus(b: u64, pos: nat, base: nat)
    requires
        b < 64,
        pos <= 64,
    ensures
        set_bits_from(1u64 << b, pos, base) == (if pos <= b {
            seq![(base + b) as usize]
        } else {
            Seq::<usize>::empty()
        }),
    decreases 64 - pos,
{
    if pos < 64 {
        lemma_single_bit(b, pos as u64);
        lemma_single_bit_cpus(b, pos + 1, base);
        if pos == b {
            assert(seq![(base + b) as usize] + Seq::<usize>::empty() =~= seq![(base + b) as usize]);
        }
    }
}

/// Bit `r` of byte `j` of a little-endian 64-bit word is bit `8 * j + r` of the word.
proof fn lemma_word_byte_bits(
    w: u64,
    b0: u8,
    b1: u8,
    b2: u8,
    b3: u8,
    b4: u8,
    b5: u8,
    b6: u8,
    b7: u8,
    r: u64,
)
    by (bit_vector)
    requires
        w == b0 as u64 + b1 as u64 * 0x100 + b2 as u64 * 0x10000 + b3 as u64 * 0x1000000
            + b4 as u64 * 0x100000000 + b5 as u64 * 0x10000000000 + b6 as u64 * 0x1000000000000
            + b7 as u64 * 0x100000000000000,
        r < 8,
    ensures
        (w >> r) & 1 == (b0 as u64 >> r) & 1,
        (w >> (8 + r)) & 1 == (b1 as u64 >> r) & 1,
        (w >> (16 + r)) & 1 == (b2 as u64 >> r) & 1,
        (w >> (24 + r)) & 1 == (b3 as u64 >> r) & 1,
        (w >> (32 + r)) & 1 == (b4 as u64 >> r) & 1,
        (w >> (40 + r)) & 1 == (b5 as u64 >> r) & 1,
        (w >> (48 + r)) & 1 == (b6 as u64 >> r) & 1,
        (w >> (56 + r)) & 1 == (b7 as u64 >> r) & 1,
{
}

proof fn lemma_byte_bit_wide(x: u8, r: u8)
    by (bit_vector)
    requires
        r < 8,
        (x >> r) & 1 == 1,
    ensures
        (x as u64 >> r as u64) & 1 == 1,
{
}

/// A set bit `k` of the mask puts `base + k` into the list read from bit `pos <= k` on.
proof fn lemma_set_bit_listed(mask: u64, pos: nat, base: nat, k: nat)
    requires
        pos <= k < 64,
        bit_set(mask, k as u64),
    ensures
        set_bits_from(mask, pos, base).contains((base + k) as usize),
    decreases k - pos,
{
    if pos == k {
        assert(set_bits_from(mask, pos, base)[0] == (base + k) as usize);
    } else {
        lemma_set_bit_listed(mask, pos + 1, base, k);
        let rest = set_bits_from(mask, pos + 1, base);
        let i = choose|i: int| 0 <= i < rest.len() && rest[i] == (base + k) as usize;
        if bit_set(mask, pos as u64) {
            assert((seq![(base + pos) as usize] + rest)[i + 1] == rest[i]);
        }
    }
}

/// On a 64-bit target the mask of a processor record's group affinity is all eight bytes
/// at byte 32 of the record, least significant byte first: when bit `r` of byte `j` of
/// the mask is set, the record's core holds logical CPU `group * 64 + 8 * j + r`, where
/// `group` is the little-endian 16-bit number at byte 40. So a mask of `1 << 40` in
/// group 0 gives logical CPU 40.
pub proof fn law_windows_mask_bytes(b: Seq<u8>, o: int, j: int, r: u8)
    requires
        0 <= o,
        record_ok(b, o, 8),
        u32_at(b, o) == 0,
        u16_at(b, o + 30) == 1,
        0 <= j < 8,
        r < 8,
        (b[o + 32 + j] >> r) & 1 == 1,
    ensures
        record_cores(processor_records(b, o, 8)).len() > 0,
        record_cores(processor_records(b, o, 8))[0].1.contains(
            ((b[o + 40] + b[o + 41] * 256) * 64 + 8 * j + r) as usize,
        ),
{
    let at = o + 32;
    let recs = processor_records(b, o, 8);
    let ms = record_masks(b, o, 8);
    assert(recs[0] == (b[o + 9], ms));
    assert(record_cores(recs)[0] == (b[o + 9], masks_cpus(ms)));
    assert(ms.len() == 1);
    assert(ms.drop_last().len() == 0);
    assert(masks_cpus(ms.drop_last()) == Seq::<usize>::empty());
    let g = u16_at(b, at + 8) as u16;
    let w = u64_at(b, at) as u64;
    assert(ms[0] == (g, w));
    assert(masks_cpus(ms) == Seq::<usize>::empty() + mask_cpus(g, w));
    assert(masks_cpus(ms) =~= mask_cpus(g, w));
    assert(u64_at(b, at) == b[at] + b[at + 1] * 0x100 + b[at + 2] * 0x10000 + b[at + 3]
        * 0x1000000 + b[at + 4] * 0x100000000 + b[at + 5] * 0x10000000000 + b[at + 6]
        * 0x1000000000000 + b[at + 7] * 0x100000000000000);
    lemma_word_byte_bits(
        w,
        b[at],
        b[at + 1],
        b[at + 2],
        b[at + 3],
        b[at + 4],
        b[at + 5],
        b[at + 6],
        b[at + 7],
        r as u64,
    );
    lemma_byte_bit_wide(b[at + j], r);
    let k = (8 * j + r) as u64;
    assert(bit_set(w, k)) by {
        if j == 0 {
        } else if j == 1 {
        } else if j == 2 {
        } else if j == 3 {
        } else if j == 4 {
        } else if j == 5 {
        } else if j == 6 {
        } else {
        }
    }
    lemma_set_bit_listed(w, 0, g as nat * 64, k as nat);
    assert(g == b[o + 40] + b[o + 41] * 256);
}

/// The group affinity that pinning to `cpu_id` sets selects exactly logical CPU
/// `cpu_id`, for every id whose group fits the 16-bit group number.
pub proof fn law_group_affinity_selects_cpu(cpu_id: usize)
    requires
        cpu_id < 65536 * 64,
    ensures
        mask_cpus((cpu_id / 64) as u16, 1u64 << (cpu_id % 64) as u64) == seq![cpu_id],
{
    let b = (cpu_id % 64) as u64;
    let g = (cpu_id / 64) as u16;
    lemma_single_bit_cpus(b, 0, g as nat * 64);
    assert(g as nat * 64 + b == cpu_id);
}

} // verus!

verus! {

proof fn lemma_split_nonempty(s: Seq<char>)
    ensures
        split_on(s, ',').len() >= 1,
    decreases s.len(),
{
    if s.len() > 0 {
        lemma_split_nonempty(s.drop_last());
    }
}

/// Splitting `x , y` gives the pieces of `x` followed by the pieces of `y`.
proof fn lemma_split_join(x: Seq<char>, y: Seq<char>)
    ensures
        split_on(x + seq![','] + y, ',') == split_on(x, ',') + split_on(y, ','),
    decreases y.len(),
{
    let z = x + seq![','] + y;
    if y.len() == 0 {
        assert(z.drop_last() =~= x);
        assert(split_on(x, ',').push(Seq::<char>::empty()) =~= split_on(x, ',') + split_on(y, ','));
    } else {
        lemma_split_join(x, y.drop_last());
        assert(z.drop_last() =~= x + seq![','] + y.drop_last());
        let a = split_on(x, ',');
        let b = split_on(y.drop_last(), ',');
        lemma_split_nonempty(y.drop_last());
        if y.last() == ',' {
            assert((a + b).push(Seq::<char>::empty()) =~= a + b.push(Seq::<char>::empty()));
        } else {
            assert((a + b).update((a + b).len() - 1, (a + b).last().push(y.last())) =~= a
                + b.update(b.len() - 1, b.last().push(y.last())));
        }
    }
}

proof fn lemma_parts_concat(a: Seq<Seq<char>>, b: Seq<Seq<char>>)
    ensures
        parts_ids(a + b) == parts_ids(a).union(parts_ids(b)),
    decreases b.len(),
{
    if b.len() == 0 {
        assert(a + b =~= a);
        assert(parts_ids(a).union(Set::empty()) =~= parts_ids(a));
    } else {
        lemma_parts_concat(a, b.drop_last());
        assert((a + b).drop_last() =~= a + b.drop_last());
        assert(parts_ids(a + b) =~= parts_ids(a).union(parts_ids(b)));
    }
}

/// A leading character that is no separator joins the first piece.
proof fn lemma_split_cons(c: char, t: Seq<char>)
    requires
        c != ',',
    ensures
        split_on(seq![c] + t, ',') == split_on(t, ',').update(
            0,
            seq![c] + split_on(t, ',')[0],
        ),
    decreases t.len(),
{
    lemma_split_nonempty(t);
    let s = seq![c] + t;
    if t.len() == 0 {
        assert(s.drop_last() =~= Seq::<char>::empty());
        assert(s.last() == c);
        assert(split_on(Seq::<char>::empty(), ',') == seq![Seq::<char>::empty()]);
        assert(t =~= Seq::<char>::empty());
        assert(seq![c] + Seq::<char>::empty() =~= Seq::<char>::empty().push(c));
        assert(split_on(s, ',') =~= split_on(t, ',').update(0, seq![c] + split_on(t, ',')[0]));
    } else {
        let t1 = t.drop_last();
        lemma_split_cons(c, t1);
        lemma_split_nonempty(t1);
        assert(s.drop_last() =~= seq![c] + t1);
        let a = split_on(t1, ',');
        let x = t.last();
        if x == ',' {
            assert(a.update(0, seq![c] + a[0]).push(Seq::<char>::empty()) =~= a.push(
                Seq::<char>::empty(),
            ).update(0, seq![c] + a.push(Seq::<char>::empty())[0]));
        } else {
            let l = a.len() - 1;
            let lhs = a.update(0, seq![c] + a[0]).update(l, a.update(0, seq![c] + a[0])[l].push(x));
            let mid = a.update(l, a[l].push(x));
            let rhs = mid.update(0, seq![c] + mid[0]);
            if l == 0 {
                assert((seq![c] + a[0]).push(x) =~= seq![c] + a[0].push(x));
            }
            assert(lhs =~= rhs);
        }
    }
}

proof fn lemma_parts_update_first(a: Seq<Seq<char>>, x: Seq<char>)
    requires
        a.len() > 0,
        part_ids(x) == part_ids(a[0]),
    ensures
        parts_ids(a.update(0, x)) == parts_ids(a),
    decreases a.len(),
{
    if a.len() == 1 {
        assert(a.update(0, x).drop_last() =~= a.drop_last());
    } else {
        lemma_parts_update_first(a.drop_last(), x);
        assert(a.update(0, x).drop_last() =~= a.drop_last().update(0, x));
    }
}

proof fn lemma_part_ids_space_first(c: char, p: Seq<char>)
    requires
        is_space(c),
    ensures
        part_ids(seq![c] + p) == part_ids(p),
{
    assert((seq![c] + p).drop_first() =~= p);
    assert(trim_start(seq![c] + p) == trim_start(p));
}

proof fn lemma_trim_start_push(p: Seq<char>, c: char)
    requires
        is_space(c),
    ensures
        trim_start(p).len() > 0 ==> trim_start(p.push(c)) == trim_start(p).push(c),
        trim_start(p).len() == 0 ==> trim_start(p.push(c)).len() == 0,
    decreases p.len(),
{
    if p.len() == 0 {
        assert(seq![c].drop_first() =~= Seq::<char>::empty());
        assert(p.push(c) =~= seq![c]);
        assert(trim_start(Seq::<char>::empty()) == Seq::<char>::empty());
        assert(trim_start(seq![c]) == trim_start(Seq::<char>::empty()));
    } else {
        assert(p.push(c)[0] == p[0]);
        assert(p.push(c).drop_first() =~= p.drop_first().push(c));
        if is_space(p[0]) {
            lemma_trim_start_push(p.drop_first(), c);
        }
    }
}

proof fn lemma_part_ids_space_last(p: Seq<char>, c: char)
    requires
        is_space(c),
    ensures
        part_ids(p.push(c)) == part_ids(p),
{
    lemma_trim_start_push(p, c);
    if trim_start(p).len() > 0 {
        assert(trim_start(p).push(c).drop_last() =~= trim_start(p));
        assert(trim(p.push(c)) == trim(p));
    } else {
        assert(trim_start(p.push(c)) =~= Seq::<char>::empty());
        assert(trim_start(p) =~= Seq::<char>::empty());
        assert(trim(p.push(c)) == trim(p));
    }
}

/// Leading white space of the whole text changes no item's ids.
proof fn lemma_parts_trim_start(s: Seq<char>)
    ensures
        parts_ids(split_on(trim_start(s), ',')) == parts_ids(split_on(s, ',')),
    decreases s.len(),
{
    if s.len() > 0 && is_space(s[0]) {
        let t = s.drop_first();
        lemma_parts_trim_start(t);
        assert(s =~= seq![s[0]] + t);
        lemma_split_cons(s[0], t);
        lemma_split_nonempty(t);
        lemma_part_ids_space_first(s[0], split_on(t, ',')[0]);
        lemma_parts_update_first(split_on(t, ','), seq![s[0]] + split_on(t, ',')[0]);
    }
}

/// Trailing white space of the whole text changes no item's ids.
proof fn lemma_parts_trim_end(s: Seq<char>)
    ensures
        parts_ids(split_on(trim_end(s), ',')) == parts_ids(split_on(s, ',')),
    decreases s.len(),
{
    if s.len() > 0 && is_space(s.last()) {
        let t = s.drop_last();
        lemma_parts_trim_end(t);
        lemma_split_nonempty(t);
        let a = split_on(t, ',');
        lemma_part_ids_space_last(a.last(), s.last());
        let b = a.update(a.len() - 1, a.last().push(s.last()));
        assert(b.drop_last() =~= a.drop_last());
    }
}

/// The ids of a CPU list are the union of the ids of its comma-separated items, whether
/// or not the whole text is trimmed first.
proof fn lemma_cpu_list_items(s: Seq<char>)
    ensures
        cpu_list(s) == parts_ids(split_on(s, ',')),
{
    lemma_parts_trim_end(trim_start(s));
    lemma_parts_trim_start(s);
}

/// The cores of a type are the cores filtered by that type.
proof fn lemma_cores_of_type_filter(cores: Seq<CpuInfo>, t: CoreType)
    ensures
        cores_of_type(cores, t) == cores.filter(|c: CpuInfo| c.core_type == t),
    decreases cores.len(),
{
    reveal(Seq::filter);
    if cores.len() > 0 {
        lemma_cores_of_type_filter(cores.drop_last(), t);
    }
}

/// On a hybrid topology `best_cores` gives every performance core, in core order, and
/// nothing else, however many performance cores there are; on any other topology it
/// gives every core.
pub proof fn law_best_cores_all_performance(t: CpuTopology)
    ensures
        t.is_hybrid ==> t.spec_best_cores() == t.cores@.filter(
            |c: CpuInfo| c.core_type == CoreType::Performance,
        ),
        t.is_hybrid ==> forall|i: int|
            0 <= i < t.cores@.len() && t.cores@[i].core_type == CoreType::Performance
                ==> t.spec_best_cores().contains(#[trigger] t.cores@[i]),
        t.is_hybrid ==> forall|c: CpuInfo|
            #[trigger] t.spec_best_cores().contains(c) ==> c.core_type == CoreType::Performance
                && t.cores@.contains(c),
        !t.is_hybrid ==> t.spec_best_cores() == t.cores@,
{
    lemma_cores_of_type_filter(t.cores@, CoreType::Performance);
    if t.is_hybrid {
        assert forall|i: int|
            0 <= i < t.cores@.len() && t.cores@[i].core_type == CoreType::Performance
                implies t.spec_best_cores().contains(#[trigger] t.cores@[i]) by {
            law_cores_of_type_members(t.cores@, CoreType::Performance, t.cores@[i]);
        }
        assert forall|c: CpuInfo| #[trigger] t.spec_best_cores().contains(c) implies c.core_type
            == CoreType::Performance && t.cores@.contains(c) by {
            law_cores_of_type_members(t.cores@, CoreType::Performance, c);
        }
    }
}

/// The largest capacity bounds every reading and is one of them.
proof fn lemma_max_capacity(r: Seq<(usize, u64)>)
    ensures
        forall|j: int| 0 <= j < r.len() ==> r[j].1 <= max_capacity(r),
        r.len() > 0 ==> exists|j: int| 0 <= j < r.len() && r[j].1 == max_capacity(r),
    decreases r.len(),
{
    if r.len() > 0 {
        let p = r.drop_last();
        lemma_max_capacity(p);
        assert forall|j: int| 0 <= j < r.len() implies r[j].1 <= max_capacity(r) by {
            if j < p.len() {
                assert(r[j] == p[j]);
            }
        }
        if r.last().1 > max_capacity(p) || p.len() == 0 {
            assert(r[r.len() - 1].1 == max_capacity(r));
        } else {
            let j = choose|j: int| 0 <= j < p.len() && p[j].1 == max_capacity(p);
            assert(r[j] == p[j]);
        }
    }
}

/// Capacity detection types a CPU as a performance core exactly when its capacity is at
/// least 80% of the largest capacity read (`largest * 80 / 100`, rounded down), and as an
/// efficiency core otherwise; each entry keeps its CPU id, in reading order.
pub proof fn law_capacity_eighty_percent(r: Seq<(usize, u64)>, largest: u64)
    requires
        exists|j: int| 0 <= j < r.len() && r[j].1 == largest,
        forall|j: int| 0 <= j < r.len() ==> r[j].1 <= largest,
    ensures
        capacity_entries(r, capacity_threshold(r)).len() == r.len(),
        forall|j: int|
            0 <= j < r.len() ==> {
                let e = #[trigger] capacity_entries(r, capacity_threshold(r))[j];
                &&& e.0 == r[j].0
                &&& (e.1 == CoreType::Performance <==> r[j].1 >= largest * 80 / 100)
                &&& (e.1 == CoreType::Efficiency <==> r[j].1 < largest * 80 / 100)
            },
{
    lemma_max_capacity(r);
    let w = choose|j: int| 0 <= j < r.len() && r[j].1 == largest;
    let m = choose|j: int| 0 <= j < r.len() && r[j].1 == max_capacity(r);
    assert(r[w].1 <= max_capacity(r));
    assert(r[m].1 <= largest);
    assert(max_capacity(r) == largest);
    assert(capacity_threshold(r) == largest * 80 / 100);
}

/// A text without a comma is one item.
proof fn lemma_split_no_comma(s: Seq<char>)
    requires
        forall|i: int| 0 <= i < s.len() ==> s[i] != ',',
    ensures
        split_on(s, ',') == seq![s],
    decreases s.len(),
{
    if s.len() > 0 {
        lemma_split_no_comma(s.drop_last());
        assert(s.drop_last().push(s.last()) =~= s);
    } else {
        assert(s =~= Seq::<char>::empty());
    }
}

/// Digits are not white space, so a text that starts and ends with a digit is its own trim.
proof fn lemma_trim_digit_ends(s: Seq<char>)
    requires
        s.len() > 0,
        is_digit(s[0]),
        is_digit(s.last()),
    ensures
        trim(s) == s,
{
    assert(!is_space(s[0]));
    assert(trim_start(s) == s);
    assert(!is_space(s.last()));
}

/// The first `c` of `x + [c] + y` is at `x.len()` when `x` holds no `c`.
proof fn lemma_first_index_after(x: Seq<char>, c: char, y: Seq<char>)
    requires
        forall|i: int| 0 <= i < x.len() ==> x[i] != c,
    ensures
        first_index(x + seq![c] + y, c) == x.len(),
    decreases x.len(),
{
    if x.len() > 0 {
        lemma_first_index_after(x.drop_first(), c, y);
        assert((x + seq![c] + y).drop_first() =~= x.drop_first() + seq![c] + y);
    } else {
        assert((x + seq![c] + y)[0] == c);
    }
}

/// A CPU list item `A-B` written in decimal digits names every id from `A` to `B` and no
/// other: `parse_cpu_list("0-127")` holds all 128 ids `0..=127`.
pub proof fn law_cpu_range_item(x: Seq<char>, y: Seq<char>, a: usize, b: usize)
    requires
        all_digits(x),
        all_digits(y),
        parse_usize(x) == Some(a),
        parse_usize(y) == Some(b),
    ensures
        forall|i: usize| cpu_list(x + seq!['-'] + y).contains(i) <==> a <= i && i <= b,
{
    let s = x + seq!['-'] + y;
    assert(x.len() > 0 && y.len() > 0);
    assert forall|i: int| 0 <= i < s.len() implies s[i] != ',' by {
        if i < x.len() {
            assert(is_digit(x[i]));
        } else if i > x.len() {
            assert(s[i] == y[i - x.len() - 1]);
            assert(is_digit(y[i - x.len() - 1]));
        }
    }
    lemma_cpu_list_items(s);
    lemma_split_no_comma(s);
    assert(seq![s].drop_last() =~= Seq::<Seq<char>>::empty());
    assert(seq![s].last() == s);
    assert(parts_ids(Seq::<Seq<char>>::empty()) == Set::<usize>::empty());
    assert(parts_ids(seq![s]) =~= part_ids(s));
    assert(is_digit(x[0]));
    assert(s[0] == x[0]);
    assert(is_digit(y[y.len() - 1]));
    assert(s.last() == y.last());
    lemma_trim_digit_ends(s);
    assert forall|i: int| 0 <= i < x.len() implies x[i] != '-' by {
        assert(is_digit(x[i]));
    }
    lemma_first_index_after(x, '-', y);
    let k = x.len() as int;
    assert(s.take(k) =~= x);
    assert(s.skip(k + 1) =~= y);
    lemma_trim_digit_ends(x);
    lemma_trim_digit_ends(y);
}

/// Joining two CPU lists with a comma names the union of their ids, and the empty list
/// names none: `parse_cpu_list(&format!("{a},{b}"))` is the union of
/// `parse_cpu_list(a)` and `parse_cpu_list(b)`.
pub proof fn law_cpu_list_join(a: Seq<char>, b: Seq<char>)
    ensures
        cpu_list(a + seq![','] + b) == cpu_list(a).union(cpu_list(b)),
        cpu_list(Seq::<char>::empty()) == Set::<usize>::empty(),
{
    lemma_cpu_list_items(a + seq![','] + b);
    lemma_cpu_list_items(a);
    lemma_cpu_list_items(b);
    lemma_split_join(a, b);
    lemma_parts_concat(split_on(a, ','), split_on(b, ','));
    let e = Seq::<char>::empty();
    lemma_cpu_list_items(e);
    assert(split_on(e, ',') =~= seq![e]);
    assert(seq![e].drop_last() =~= Seq::<Seq<char>>::empty());
    assert(trim_start(e) == e);
    assert(trim_end(e) == e);
    assert(part_ids(e) =~= Set::<usize>::empty());
    assert(parts_ids(Seq::<Seq<char>>::empty()) == Set::<usize>::empty());
    assert(parts_ids(split_on(e, ',')) =~= Set::<usize>::empty());
}

} // verus!
