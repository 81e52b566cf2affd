//! Linux: core detection from the text of sysfs files, and CPU id validation.
//!
//! The files are read by the caller into a [`SysfsSnapshot`]; everything that is
//! decided from their contents is computed and proved here.
use std::collections::{BTreeMap, HashSet};
use vstd::prelude::*;
use vstd::std_specs::iter::IteratorSpec;

use crate::text::{
    chars_of, find_char, first_index, parse_u64, parse_u64_in, parse_usize, parse_usize_in,
    split_on, trim, trim_bounds,
};
use crate::types::{CoreType, CpuInfo, Error};

verus! {

/// The ids `a..=b`.
pub open spec fn range_ids(a: usize, b: usize) -> Set<usize> {
    Set::new(|i: usize| a <= i <= b)
}

/// The CPU ids named by one comma-separated item of a CPU list: `N` or `A-B`,
/// white space allowed around the item and around each bound; anything else names none.
pub open spec fn part_ids(p: Seq<char>) -> Set<usize> {
    let q = trim(p);
    if q.len() == 0 {
        Set::empty()
    } else {
        let k = first_index(q, '-');
        if k >= 0 {
            match (parse_usize(trim(q.take(k))), parse_usize(trim(q.skip(k + 1)))) {
                (Some(a), Some(b)) => range_ids(a, b),
                _ => Set::empty(),
            }
        } else {
            match parse_usize(q) {
                Some(id) => set![id],
                None => Set::empty(),
            }
        }
    }
}

/// The union of the ids named by a sequence of items.
pub open spec fn parts_ids(parts: Seq<Seq<char>>) -> Set<usize>
    decreases parts.len(),
{
    if parts.len() == 0 {
        Set::empty()
    } else {
        parts_ids(parts.drop_last()).union(part_ids(parts.last()))
    }
}

/// The CPU ids named by a CPU list such as `0-7,16-23`.
pub open spec fn cpu_list(s: Seq<char>) -> Set<usize> {
    parts_ids(split_on(trim(s), ','))
}

fn insert_range(set: &mut HashSet<usize>, a: usize, b: usize)
    ensures
        final(set)@ == old(set)@.union(range_ids(a, b)),
{
    if a > b {
        assert(range_ids(a, b) =~= Set::empty());
        return ;
    }
    let mut i = a;
    loop
        invariant
            a <= i <= b,
            set@ == old(set)@.union(Set::new(|j: usize| a <= j < i)),
        decreases b - i,
    {
        set.insert(i);
        if i == b {
            assert(set@ =~= old(set)@.union(range_ids(a, b)));
            return ;
        }
        assert(set@ =~= old(set)@.union(Set::new(|j: usize| a <= j < i + 1)));
        i = i + 1;
    }
}

fn insert_part(cs: &Vec<char>, lo: usize, hi: usize, set: &mut HashSet<usize>)
    requires
        lo <= hi <= cs@.len(),
    ensures
        final(set)@ == old(set)@.union(part_ids(cs@.subrange(lo as int, hi as int))),
{
    let ghost p = cs@.subrange(lo as int, hi as int);
    let (a, b) = trim_bounds(cs, lo, hi);
    let ghost q = cs@.subrange(a as int, b as int);
    if a == b {
        assert(set@ =~= set@.union(Set::empty()));
        return ;
    }
    match find_char(cs, a, b, '-') {
        Some(k) => {
            assert(q.take(k - a) =~= cs@.subrange(a as int, k as int));
            assert(q.skip(k - a + 1) =~= cs@.subrange(k + 1, b as int));
            let (s1, e1) = trim_bounds(cs, a, k);
            let (s2, e2) = trim_bounds(cs, k + 1, b);
            let first = parse_usize_in(cs, s1, e1);
            let last = parse_usize_in(cs, s2, e2);
            match (first, last) {
                (Some(x), Some(y)) => {
                    insert_range(set, x, y);
                },
                _ => {
                    assert(set@ =~= set@.union(Set::empty()));
                },
            }
        },
        None => {
            match parse_usize_in(cs, a, b) {
                Some(id) => {
                    set.insert(id);
                    assert(set@ =~= old(set)@.union(set![id]));
                },
                None => {
                    assert(set@ =~= set@.union(Set::empty()));
                },
            }
        },
    }
}

proof fn lemma_split_on_step(s: Seq<char>, lo: int, start: int, i: int, done: Seq<Seq<char>>)
    requires
        0 <= lo <= start <= i < s.len(),
        split_on(s.subrange(lo, i), ',') == done.push(s.subrange(start, i)),
    ensures
        s[i] == ',' ==> split_on(s.subrange(lo, i + 1), ',') == done.push(s.subrange(start, i))
            .push(s.subrange(i + 1, i + 1)),
        s[i] != ',' ==> split_on(s.subrange(lo, i + 1), ',') == done.push(
            s.subrange(start, i + 1),
        ),
{
    let t = s.subrange(lo, i + 1);
    assert(t.drop_last() =~= s.subrange(lo, i));
    assert(t.last() == s[i]);
    assert(s.subrange(i + 1, i + 1) =~= Seq::<char>::empty());
    assert(s.subrange(start, i).push(s[i]) =~= s.subrange(start, i + 1));
    if s[i] != ',' {
        assert(done.push(s.subrange(start, i)).update(done.len() as int, s.subrange(start, i + 1))
            =~= done.push(s.subrange(start, i + 1)));
    }
}

/// Parse a CPU list string like "0-7,16-23" into a set of CPU IDs.
pub fn parse_cpu_list(s: &str) -> (r: HashSet<usize>)
    ensures
        r@ == cpu_list(s@),
{
    let cs = chars_of(s);
    let (lo, hi) = trim_bounds(&cs, 0, cs.len());
    assert(cs@.subrange(0, cs@.len() as int) =~= cs@);
    let mut set: HashSet<usize> = HashSet::new();
    let mut start = lo;
    let mut i = lo;
    let ghost mut done: Seq<Seq<char>> = Seq::empty();
    assert(cs@.subrange(lo as int, lo as int) =~= Seq::<char>::empty());
    assert(parts_ids(done) =~= Set::empty());
    while i < hi
        invariant
            lo <= start <= i <= hi <= cs@.len(),
            split_on(cs@.subrange(lo as int, i as int), ',') == done.push(
                cs@.subrange(start as int, i as int),
            ),
            set@ == parts_ids(done),
        decreases hi - i,
    {
        proof {
            lemma_split_on_step(cs@, lo as int, start as int, i as int, done);
        }
        if cs[i] == ',' {
            insert_part(&cs, start, i, &mut set);
            proof {
                let d2 = done.push(cs@.subrange(start as int, i as int));
                assert(d2.drop_last() =~= done);
                done = d2;
            }
            start = i + 1;
        }
        i = i + 1;
    }
    insert_part(&cs, start, hi, &mut set);
    proof {
        let d2 = done.push(cs@.subrange(start as int, hi as int));
        assert(d2.drop_last() =~= done);
    }
    set
}

} // verus!

verus! {

/// The characters of a file's text, when the file was read.
pub open spec fn text_of(o: Option<String>) -> Option<Seq<char>> {
    match o {
        Some(s) => Some(s@),
        None => None,
    }
}

fn chars_of_opt(o: &Option<String>) -> (r: Option<Vec<char>>)
    ensures
        match r {
            Some(v) => text_of(*o) == Some(v@),
            None => text_of(*o) is None,
        },
{
    match o {
        Some(s) => Some(chars_of(s.as_str())),
        None => None,
    }
}

/// The members of a set, each once, in the set's iteration order.
fn set_elements(s: &HashSet<usize>) -> (v: Vec<usize>)
    ensures
        v@.to_set() == s@,
        v@.no_duplicates(),
{
    let mut v: Vec<usize> = Vec::new();
    let ghost keys = vstd::std_specs::hash::spec_hash_keys_iter(s).remaining();
    proof {
        vstd::std_specs::hash::axiom_spec_hash_keys_iter(s);
    }
    for x in it: s.iter()
        invariant
            v@ == it.seq().take(it.index() as int).unref(),
            it.seq() == keys,
    {
        v.push(*x);
        assert(v@ =~= it.seq().take(it.index() + 1).unref());
    }
    assert(v@ =~= keys.unref());
    v
}

/// The first entry for `lp` in a list of (logical CPU, core type) entries.
pub open spec fn lookup_type(tm: Seq<(usize, CoreType)>, lp: usize) -> Option<CoreType>
    decreases tm.len(),
{
    if tm.len() == 0 {
        None
    } else if tm[0].0 == lp {
        Some(tm[0].1)
    } else {
        lookup_type(tm.drop_first(), lp)
    }
}

/// The ids of a list of entries.
pub open spec fn entry_ids(v: Seq<(usize, CoreType)>) -> Seq<usize> {
    v.map_values(|e: (usize, CoreType)| e.0)
}

proof fn lemma_entry_ids_push(v: Seq<(usize, CoreType)>, e: (usize, CoreType))
    ensures
        entry_ids(v.push(e)) == entry_ids(v).push(e.0),
{
    assert(entry_ids(v.push(e)) =~= entry_ids(v).push(e.0));
}

/// Every entry of `v` has type `t`, and `v` names each id of `ids` exactly once.
pub open spec fn ids_tagged(v: Seq<(usize, CoreType)>, ids: Set<usize>, t: CoreType) -> bool {
    &&& forall|j: int| 0 <= j < v.len() ==> (#[trigger] v[j]).1 == t
    &&& entry_ids(v).no_duplicates()
    &&& entry_ids(v).to_set() == ids
}

/// The P-core entries of `p`, then the E-core entries of `e`.
pub open spec fn x86_entries(v: Seq<(usize, CoreType)>, p: Set<usize>, e: Set<usize>) -> bool {
    exists|k: int|
        0 <= k <= v.len() && #[trigger] ids_tagged(v.take(k), p, CoreType::Performance)
            && ids_tagged(v.skip(k), e, CoreType::Efficiency)
}

/// The Intel PMU lists `cpu_core` (P-cores) and `cpu_atom` (E-cores), parsed, when
/// both were read and at least one is not empty.
pub open spec fn x86_lists(core_cpus: Option<String>, atom_cpus: Option<String>) -> Option<
    (Set<usize>, Set<usize>),
> {
    match (core_cpus, atom_cpus) {
        (Some(p), Some(e)) => {
            let ps = cpu_list(p@);
            let es = cpu_list(e@);
            if ps.is_empty() && es.is_empty() {
                None
            } else {
                Some((ps, es))
            }
        },
        _ => None,
    }
}

/// Detect core types on x86_64 Intel hybrid CPUs from the text of
/// `/sys/devices/cpu_core/cpus` and `/sys/devices/cpu_atom/cpus`.
/// Returns None if the system is not a hybrid Intel CPU.
///
/// The P-core entries come first, then the E-core entries; within each group the
/// order is that of the parsed set's iteration.
pub fn detect_x86_hybrid(core_cpus: &Option<String>, atom_cpus: &Option<String>) -> (r: Option<
    Vec<(usize, CoreType)>,
>)
    ensures
        match x86_lists(*core_cpus, *atom_cpus) {
            None => r is None,
            Some((p, e)) => r matches Some(v) && x86_entries(v@, p, e),
        },
{
    let p_text = match core_cpus {
        Some(p) => p,
        None => {
            return None;
        },
    };
    let e_text = match atom_cpus {
        Some(e) => e,
        None => {
            return None;
        },
    };
    let p_cores = parse_cpu_list(p_text.as_str());
    let e_cores = parse_cpu_list(e_text.as_str());
    if p_cores.is_empty() && e_cores.is_empty() {
        return None;
    }
    let p_ids = set_elements(&p_cores);
    let e_ids = set_elements(&e_cores);
    let mut result: Vec<(usize, CoreType)> = Vec::new();
    for i in 0..p_ids.len()
        invariant
            entry_ids(result@) == p_ids@.take(i as int),
            forall|j: int| 0 <= j < result@.len() ==> (#[trigger] result@[j]).1
                == CoreType::Performance,
    {
        proof {
            lemma_entry_ids_push(result@, (p_ids@[i as int], CoreType::Performance));
        }
        result.push((p_ids[i], CoreType::Performance));
        assert(entry_ids(result@) =~= p_ids@.take(i + 1));
    }
    let k = result.len();
    assert(p_ids@.take(p_ids@.len() as int) =~= p_ids@);
    for i in 0..e_ids.len()
        invariant
            k <= result@.len(),
            result@.len() == k + i,
            entry_ids(result@.take(k as int)) == p_ids@,
            entry_ids(result@.skip(k as int)) == e_ids@.take(i as int),
            forall|j: int| 0 <= j < k ==> (#[trigger] result@[j]).1 == CoreType::Performance,
            forall|j: int| k <= j < result@.len() ==> (#[trigger] result@[j]).1
                == CoreType::Efficiency,
    {
        let ghost before = result@;
        proof {
            lemma_entry_ids_push(before.skip(k as int), (e_ids@[i as int], CoreType::Efficiency));
            assert(before.push((e_ids@[i as int], CoreType::Efficiency)).skip(k as int)
                =~= before.skip(k as int).push((e_ids@[i as int], CoreType::Efficiency)));
        }
        result.push((e_ids[i], CoreType::Efficiency));
        assert(result@.take(k as int) =~= before.take(k as int));
        assert(entry_ids(result@.skip(k as int)) =~= e_ids@.take(i + 1));
    }
    assert(e_ids@.take(e_ids@.len() as int) =~= e_ids@);
    assert(ids_tagged(result@.take(k as int), p_cores@, CoreType::Performance));
    assert(ids_tagged(result@.skip(k as int), e_cores@, CoreType::Efficiency));
    assert(x86_entries(result@, p_cores@, e_cores@));
    Some(result)
}

} // verus!

verus! {

proof fn lemma_entry_ids_drop_first(v: Seq<(usize, CoreType)>)
    requires
        v.len() > 0,
    ensures
        entry_ids(v.drop_first()) == entry_ids(v).drop_first(),
{
    assert(entry_ids(v.drop_first()) =~= entry_ids(v).drop_first());
}

/// A lookup finds an entry exactly when the id occurs, and what it finds is the
/// type of an entry for that id.
proof fn lemma_lookup_type(v: Seq<(usize, CoreType)>, lp: usize)
    ensures
        lookup_type(v, lp) is None <==> !entry_ids(v).contains(lp),
        lookup_type(v, lp) matches Some(t) ==> exists|j: int|
            0 <= j < v.len() && #[trigger] v[j] == (lp, t),
    decreases v.len(),
{
    if v.len() > 0 {
        lemma_entry_ids_drop_first(v);
        lemma_lookup_type(v.drop_first(), lp);
        if v[0].0 == lp {
            assert(entry_ids(v)[0] == lp);
        } else {
            if entry_ids(v).contains(lp) {
                let j = choose|j: int| 0 <= j < entry_ids(v).len() && entry_ids(v)[j] == lp;
                assert(entry_ids(v.drop_first())[j - 1] == lp);
            }
            if lookup_type(v, lp) is Some {
                let t = lookup_type(v, lp)->0;
                let j = choose|j: int| 0 <= j < v.drop_first().len() && #[trigger] v.drop_first()[j]
                    == (lp, t);
                assert(v[j + 1] == (lp, t));
            }
        }
    }
}

/// In entries that all carry type `t` and name exactly `ids`, a lookup gives `t` for the
/// members of `ids` and nothing for the rest.
proof fn lemma_lookup_tagged(v: Seq<(usize, CoreType)>, ids: Set<usize>, t: CoreType, lp: usize)
    requires
        ids_tagged(v, ids, t),
    ensures
        lookup_type(v, lp) == (if ids.contains(lp) {
            Some(t)
        } else {
            None
        }),
{
    lemma_lookup_type(v, lp);
    if lookup_type(v, lp) is Some {
        let j = choose|j: int| 0 <= j < v.len() && #[trigger] v[j] == (lp, lookup_type(v, lp)->0);
        assert(v[j].1 == t);
    }
}

proof fn lemma_lookup_concat(a: Seq<(usize, CoreType)>, b: Seq<(usize, CoreType)>, lp: usize)
    ensures
        lookup_type(a + b, lp) == (match lookup_type(a, lp) {
            Some(t) => Some(t),
            None => lookup_type(b, lp),
        }),
    decreases a.len(),
{
    if a.len() > 0 {
        assert((a + b).drop_first() =~= a.drop_first() + b);
        lemma_lookup_concat(a.drop_first(), b, lp);
    } else {
        assert(a + b =~= b);
    }
}

/// The type that the Intel PMU lists give a logical CPU.
pub open spec fn x86_type(p: Set<usize>, e: Set<usize>, lp: usize) -> Option<CoreType> {
    if p.contains(lp) {
        Some(CoreType::Performance)
    } else if e.contains(lp) {
        Some(CoreType::Efficiency)
    } else {
        None
    }
}

proof fn lemma_lookup_x86(v: Seq<(usize, CoreType)>, p: Set<usize>, e: Set<usize>, lp: usize)
    requires
        x86_entries(v, p, e),
    ensures
        lookup_type(v, lp) == x86_type(p, e, lp),
{
    let k = choose|k: int|
        0 <= k <= v.len() && #[trigger] ids_tagged(v.take(k), p, CoreType::Performance)
            && ids_tagged(v.skip(k), e, CoreType::Efficiency);
    assert(v =~= v.take(k) + v.skip(k));
    lemma_lookup_concat(v.take(k), v.skip(k), lp);
    lemma_lookup_tagged(v.take(k), p, CoreType::Performance, lp);
    lemma_lookup_tagged(v.skip(k), e, CoreType::Efficiency, lp);
}

/// `lookup_type(tm, lp)`.
fn find_type(tm: &Vec<(usize, CoreType)>, lp: usize) -> (r: Option<CoreType>)
    ensures
        r == lookup_type(tm@, lp),
{
    let mut i: usize = 0;
    assert(tm@.skip(0) =~= tm@);
    while i < tm.len()
        invariant
            i <= tm@.len(),
            lookup_type(tm@, lp) == lookup_type(tm@.skip(i as int), lp),
        decreases tm@.len() - i,
    {
        assert(tm@.skip(i as int).drop_first() =~= tm@.skip(i + 1));
        if tm[i].0 == lp {
            return Some(tm[i].1);
        }
        i = i + 1;
    }
    None
}

/// `cs[lo..hi] == w`.
fn range_equals(cs: &Vec<char>, lo: usize, hi: usize, w: &Vec<char>) -> (b: bool)
    requires
        lo <= hi <= cs@.len(),
    ensures
        b == (cs@.subrange(lo as int, hi as int) == w@),
{
    if hi - lo != w.len() {
        return false;
    }
    let mut i: usize = 0;
    while i < w.len()
        invariant
            hi - lo == w@.len(),
            lo <= hi <= cs@.len(),
            i <= w@.len(),
            forall|j: int| 0 <= j < i ==> cs@[lo + j] == w@[j],
        decreases w@.len() - i,
    {
        if cs[lo + i] != w[i] {
            assert(cs@.subrange(lo as int, hi as int)[i as int] != w@[i as int]);
            return false;
        }
        i = i + 1;
    }
    assert(cs@.subrange(lo as int, hi as int) =~= w@);
    true
}

/// The type named by the text of a `core_type` file: `intel_core` is a P-core,
/// `intel_atom` an E-core, anything else unknown.
pub open spec fn classify_core_type(s: Seq<char>) -> CoreType {
    if trim(s) == "intel_core"@ {
        CoreType::Performance
    } else if trim(s) == "intel_atom"@ {
        CoreType::Efficiency
    } else {
        CoreType::Unknown
    }
}

/// One entry per CPU whose `core_type` file was read, in CPU order.
pub open spec fn core_type_entries(ct: Seq<Option<String>>) -> Seq<(usize, CoreType)>
    decreases ct.len(),
{
    if ct.len() == 0 {
        Seq::empty()
    } else {
        let prev = core_type_entries(ct.drop_last());
        match ct.last() {
            Some(s) => prev.push(((ct.len() - 1) as usize, classify_core_type(s@))),
            None => prev,
        }
    }
}

/// Some entry is a P-core or an E-core.
pub open spec fn has_typed_entry(v: Seq<(usize, CoreType)>) -> bool {
    exists|j: int| 0 <= j < v.len() && (#[trigger] v[j]).1 != CoreType::Unknown
}

/// Detect core types from the text of the per-CPU `core_type` sysfs attribute
/// (`/sys/devices/system/cpu/cpuN/core_type`, entry N; None where it was not read).
/// Known values: "intel_atom" (E-core), "intel_core" (P-core).
pub fn detect_core_type_sysfs(core_type: &Vec<Option<String>>) -> (r: Option<
    Vec<(usize, CoreType)>,
>)
    ensures
        match r {
            Some(v) => has_typed_entry(core_type_entries(core_type@)) && v@ == core_type_entries(
                core_type@,
            ),
            None => !has_typed_entry(core_type_entries(core_type@)),
        },
{
    let intel_core = chars_of("intel_core");
    let intel_atom = chars_of("intel_atom");
    let mut result: Vec<(usize, CoreType)> = Vec::new();
    let mut any_found = false;
    let n = core_type.len();
    for id in 0..n
        invariant
            n == core_type@.len(),
            intel_core@ == "intel_core"@,
            intel_atom@ == "intel_atom"@,
            result@ == core_type_entries(core_type@.take(id as int)),
            any_found == (result@.len() > 0),
    {
        assert(core_type@.take(id + 1).drop_last() =~= core_type@.take(id as int));
        match &core_type[id] {
            Some(s) => {
                any_found = true;
                let cs = chars_of(s.as_str());
                let (a, b) = trim_bounds(&cs, 0, cs.len());
                assert(cs@.subrange(0, cs@.len() as int) =~= cs@);
                let t = if range_equals(&cs, a, b, &intel_core) {
                    CoreType::Performance
                } else if range_equals(&cs, a, b, &intel_atom) {
                    CoreType::Efficiency
                } else {
                    CoreType::Unknown
                };
                result.push((id, t));
            },
            None => {},
        }
    }
    assert(core_type@.take(n as int) =~= core_type@);
    if !any_found {
        return None;
    }
    let mut has_p = false;
    let mut has_e = false;
    for j in 0..result.len()
        invariant
            has_p || has_e <==> exists|i: int| 0 <= i < j && (#[trigger] result@[i]).1
                != CoreType::Unknown,
    {
        if result[j].1 == CoreType::Performance {
            has_p = true;
        }
        if result[j].1 == CoreType::Efficiency {
            has_e = true;
        }
    }
    if has_p || has_e {
        Some(result)
    } else {
        None
    }
}

/// The capacities that parse, as (CPU id, capacity), in CPU order.
pub open spec fn capacity_readings(cap: Seq<Option<String>>) -> Seq<(usize, u64)>
    decreases cap.len(),
{
    if cap.len() == 0 {
        Seq::empty()
    } else {
        let prev = capacity_readings(cap.drop_last());
        match cap.last() {
            Some(s) => match parse_u64(trim(s@)) {
                Some(c) => prev.push(((cap.len() - 1) as usize, c)),
                None => prev,
            },
            None => prev,
        }
    }
}

/// The largest capacity (0 when there is none).
pub open spec fn max_capacity(r: Seq<(usize, u64)>) -> u64
    decreases r.len(),
{
    if r.len() == 0 {
        0
    } else {
        let m = max_capacity(r.drop_last());
        if r.last().1 > m {
            r.last().1
        } else {
            m
        }
    }
}

/// The smallest capacity (`u64::MAX` when there is none).
pub open spec fn min_capacity(r: Seq<(usize, u64)>) -> u64
    decreases r.len(),
{
    if r.len() == 0 {
        u64::MAX
    } else {
        let m = min_capacity(r.drop_last());
        if r.last().1 < m {
            r.last().1
        } else {
            m
        }
    }
}

/// Cores with at least 80% of the largest capacity are P-cores.
pub open spec fn capacity_threshold(r: Seq<(usize, u64)>) -> u64 {
    (max_capacity(r) * 80 / 100) as u64
}

/// The capacities differ.
pub open spec fn capacity_applies(r: Seq<(usize, u64)>) -> bool {
    r.len() > 0 && max_capacity(r) != min_capacity(r)
}

/// Each reading typed against the threshold `th`.
pub open spec fn capacity_entries(r: Seq<(usize, u64)>, th: u64) -> Seq<(usize, CoreType)> {
    r.map_values(
        |e: (usize, u64)|
            (
                e.0,
                if e.1 >= th {
                    CoreType::Performance
                } else {
                    CoreType::Efficiency
                },
            ),
    )
}

/// The capacities that parse, as (CPU id, capacity), in CPU order.
fn parse_capacities(cpu_capacity: &Vec<Option<String>>) -> (capacities: Vec<(usize, u64)>)
    ensures
        capacities@ == capacity_readings(cpu_capacity@),
{
    let mut capacities: Vec<(usize, u64)> = Vec::new();
    let n = cpu_capacity.len();
    for id in 0..n
        invariant
            n == cpu_capacity@.len(),
            capacities@ == capacity_readings(cpu_capacity@.take(id as int)),
    {
        assert(cpu_capacity@.take(id + 1).drop_last() =~= cpu_capacity@.take(id as int));
        match &cpu_capacity[id] {
            Some(s) => {
                let cs = chars_of(s.as_str());
                let (a, b) = trim_bounds(&cs, 0, cs.len());
                assert(cs@.subrange(0, cs@.len() as int) =~= cs@);
                match parse_u64_in(&cs, a, b) {
                    Some(c) => {
                        capacities.push((id, c));
                    },
                    None => {},
                }
            },
            None => {},
        }
    }
    assert(cpu_capacity@.take(n as int) =~= cpu_capacity@);
    capacities
}

/// The largest and the smallest capacity.
fn capacity_bounds(capacities: &Vec<(usize, u64)>) -> (r: (u64, u64))
    ensures
        r == (max_capacity(capacities@), min_capacity(capacities@)),
{
    let ghost readings = capacities@;
    let mut max_cap: u64 = 0;
    let mut min_cap: u64 = u64::MAX;
    for j in 0..capacities.len()
        invariant
            readings == capacities@,
            max_cap == max_capacity(readings.take(j as int)),
            min_cap == min_capacity(readings.take(j as int)),
    {
        assert(readings.take(j + 1).drop_last() =~= readings.take(j as int));
        let c = capacities[j].1;
        if c > max_cap {
            max_cap = c;
        }
        if c < min_cap {
            min_cap = c;
        }
    }
    assert(readings.take(readings.len() as int) =~= readings);
    (max_cap, min_cap)
}

/// Detect core types from the text of the per-CPU `cpu_capacity` sysfs attribute
/// (entry N for CPU N; None where it was not read).
/// Works for ARM big.LITTLE/DynamIQ and AMD hybrid (Zen 5 + Zen 5c) on kernels 6.x+.
/// Returns None if all cores have the same capacity (homogeneous).
pub fn detect_capacity_hybrid(cpu_capacity: &Vec<Option<String>>) -> (r: Option<
    Vec<(usize, CoreType)>,
>)
    requires
        capacity_applies(capacity_readings(cpu_capacity@)) ==> max_capacity(
            capacity_readings(cpu_capacity@),
        ) * 80 <= u64::MAX,
    ensures
        match r {
            Some(v) => capacity_applies(capacity_readings(cpu_capacity@)) && v@ == capacity_entries(
                capacity_readings(cpu_capacity@),
                capacity_threshold(capacity_readings(cpu_capacity@)),
            ),
            None => !capacity_applies(capacity_readings(cpu_capacity@)),
        },
{
    let capacities = parse_capacities(cpu_capacity);
    if capacities.len() == 0 {
        return None;
    }
    let ghost readings = capacities@;
    let (max_cap, min_cap) = capacity_bounds(&capacities);
    if max_cap == min_cap {
        return None;
    }
    let threshold = max_cap * 80 / 100;
    let mut result: Vec<(usize, CoreType)> = Vec::new();
    for j in 0..capacities.len()
        invariant
            readings == capacities@,
            threshold == capacity_threshold(readings),
            result@ == capacity_entries(readings.take(j as int), threshold),
    {
        let (id, cap) = capacities[j];
        let core_type = if cap >= threshold {
            CoreType::Performance
        } else {
            CoreType::Efficiency
        };
        result.push((id, core_type));
        assert(result@ =~= capacity_entries(readings.take(j + 1), threshold));
    }
    assert(readings.take(readings.len() as int) =~= readings);
    Some(result)
}

/// The maximum frequency in MHz that the text of a `cpuinfo_max_freq` file (in kHz) gives.
pub open spec fn frequency_of(o: Option<String>) -> Option<u64> {
    match o {
        Some(s) => match parse_u64(trim(s@)) {
            Some(khz) => Some(khz / 1000),
            None => None,
        },
        None => None,
    }
}

/// The maximum frequency in MHz from the text of
/// `/sys/devices/system/cpu/cpuN/cpufreq/cpuinfo_max_freq` (in kHz), if it was read.
pub fn max_frequency_mhz(text: &Option<String>) -> (r: Option<u64>)
    ensures
        r == frequency_of(*text),
{
    match text {
        Some(s) => {
            let cs = chars_of(s.as_str());
            let (a, b) = trim_bounds(&cs, 0, cs.len());
            assert(cs@.subrange(0, cs@.len() as int) =~= cs@);
            match parse_u64_in(&cs, a, b) {
                Some(khz) => Some(khz / 1000),
                None => None,
            }
        },
        None => None,
    }
}

} // verus!

verus! {

/// What Linux core detection reads from the system: the number of online logical
/// CPUs and the text of the sysfs files it consults, `None` where a file is missing
/// or could not be read. Entry N of each per-CPU vector belongs to logical CPU N.
pub struct SysfsSnapshot {
    /// The number of online logical CPUs.
    pub cpu_count: usize,
    /// `/sys/devices/cpu_core/cpus`.
    pub core_cpus: Option<String>,
    /// `/sys/devices/cpu_atom/cpus`.
    pub atom_cpus: Option<String>,
    /// `/sys/devices/system/cpu/cpuN/core_type`.
    pub core_type: Vec<Option<String>>,
    /// `/sys/devices/system/cpu/cpuN/cpu_capacity`.
    pub cpu_capacity: Vec<Option<String>>,
    /// `/sys/devices/system/cpu/cpuN/topology/physical_package_id`.
    pub physical_package_id: Vec<Option<String>>,
    /// `/sys/devices/system/cpu/cpuN/topology/core_id`.
    pub core_id: Vec<Option<String>>,
    /// `/sys/devices/system/cpu/cpuN/cpufreq/cpuinfo_max_freq`.
    pub cpuinfo_max_freq: Vec<Option<String>>,
}

impl SysfsSnapshot {
    /// Every per-CPU vector has one entry per online CPU.
    pub open spec fn wf(self) -> bool {
        &&& self.core_type@.len() == self.cpu_count
        &&& self.cpu_capacity@.len() == self.cpu_count
        &&& self.physical_package_id@.len() == self.cpu_count
        &&& self.core_id@.len() == self.cpu_count
        &&& self.cpuinfo_max_freq@.len() == self.cpu_count
    }

    /// Capacity detection is only consulted when the other two detections give nothing,
    /// and computes its threshold only when the capacities differ; the threshold is then
    /// computed without overflow.
    pub open spec fn capacity_in_range(self) -> bool {
        x86_lists(self.core_cpus, self.atom_cpus) is None && !has_typed_entry(
            core_type_entries(self.core_type@),
        ) && capacity_applies(capacity_readings(self.cpu_capacity@)) ==> max_capacity(
            capacity_readings(self.cpu_capacity@),
        ) * 80 <= u64::MAX
    }
}

/// Whether Linux detection can compute the capacity threshold of `s` without overflow
/// (see [`SysfsSnapshot::capacity_in_range`]); [`cpus`] requires it.
pub fn capacity_in_range(s: &SysfsSnapshot) -> (r: bool)
    ensures
        r == s.capacity_in_range(),
{
    if detect_x86_hybrid(&s.core_cpus, &s.atom_cpus).is_some() {
        return true;
    }
    if detect_core_type_sysfs(&s.core_type).is_some() {
        return true;
    }
    let capacities = parse_capacities(&s.cpu_capacity);
    let (max_cap, min_cap) = capacity_bounds(&capacities);
    capacities.len() == 0 || max_cap == min_cap || max_cap <= u64::MAX / 80
}

/// The type that the first detection that applies gives logical CPU `lp`: the Intel
/// PMU lists, then the per-CPU `core_type` attribute, then `cpu_capacity`.
pub open spec fn detected_type(s: SysfsSnapshot, lp: usize) -> Option<CoreType> {
    match x86_lists(s.core_cpus, s.atom_cpus) {
        Some((p, e)) => x86_type(p, e, lp),
        None => {
            let ct = core_type_entries(s.core_type@);
            if has_typed_entry(ct) {
                lookup_type(ct, lp)
            } else {
                let r = capacity_readings(s.cpu_capacity@);
                if capacity_applies(r) {
                    lookup_type(capacity_entries(r, capacity_threshold(r)), lp)
                } else {
                    None
                }
            }
        },
    }
}

/// The number that the text of a topology file gives, or `default`.
pub open spec fn id_or(o: Option<String>, default: usize) -> usize {
    match o {
        Some(s) => match parse_usize(trim(s@)) {
            Some(v) => v,
            None => default,
        },
        None => default,
    }
}

/// The physical core of logical CPU `i`: (package id, core id), where a missing
/// package id counts as 0 and a missing core id as `i`.
pub open spec fn cpu_key(s: SysfsSnapshot, i: int) -> (usize, usize) {
    (id_or(s.physical_package_id@[i], 0), id_or(s.core_id@[i], i as usize))
}

/// The lexicographic order of (package id, core id).
pub open spec fn key_lt(a: (usize, usize), b: (usize, usize)) -> bool {
    a.0 < b.0 || (a.0 == b.0 && a.1 < b.1)
}

/// The key of a group of logical CPUs: that of its first member.
pub open spec fn group_key(s: SysfsSnapshot, g: Seq<usize>) -> (usize, usize) {
    cpu_key(s, g[0] as int)
}

/// `groups` partitions the logical CPUs `0..n` by physical core: each group is a
/// non-empty increasing list of CPUs of one key, the groups come in increasing key
/// order, and every CPU is in some group.
pub open spec fn grouped(s: SysfsSnapshot, groups: Seq<Seq<usize>>, n: int) -> bool {
    &&& forall|g: int| 0 <= g < groups.len() ==> (#[trigger] groups[g]).len() > 0
    &&& forall|g: int, j: int|
        0 <= g < groups.len() && 0 <= j < groups[g].len() ==> #[trigger] groups[g][j] < n
            && cpu_key(s, groups[g][j] as int) == group_key(s, groups[g])
    &&& forall|g: int, j1: int, j2: int|
        0 <= g < groups.len() && 0 <= j1 < j2 < groups[g].len() ==> #[trigger] groups[g][j1]
            < #[trigger] groups[g][j2]
    &&& forall|g: int, h: int|
        0 <= g < h < groups.len() ==> key_lt(
            group_key(s, #[trigger] groups[g]),
            group_key(s, #[trigger] groups[h]),
        )
    &&& forall|i: int| 0 <= i < n ==> #[trigger] in_some_group(groups, i)
}

/// CPU `i` belongs to one of the groups.
pub open spec fn in_some_group(groups: Seq<Seq<usize>>, i: int) -> bool {
    exists|g: int| 0 <= g < groups.len() && #[trigger] groups[g].contains(i as usize)
}

/// The views of a sequence of vectors.
pub open spec fn views(m: Seq<Vec<usize>>) -> Seq<Seq<usize>> {
    m.map_values(|v: Vec<usize>| v@)
}

fn id_or_default(o: &Option<String>, default: usize) -> (r: usize)
    ensures
        r == id_or(*o, default),
{
    match o {
        Some(s) => {
            let cs = chars_of(s.as_str());
            let (a, b) = trim_bounds(&cs, 0, cs.len());
            assert(cs@.subrange(0, cs@.len() as int) =~= cs@);
            match parse_usize_in(&cs, a, b) {
                Some(v) => v,
                None => default,
            }
        },
        None => default,
    }
}

/// `v` lists, in increasing order, logical CPUs below `i` that all have key `k`;
/// it is not empty.
spec fn bucket_ok(s: SysfsSnapshot, k: (usize, usize), v: Seq<usize>, i: int) -> bool {
    &&& v.len() > 0
    &&& forall|j: int| 0 <= j < v.len() ==> #[trigger] v[j] < i && cpu_key(s, v[j] as int) == k
    &&& forall|j1: int, j2: int| 0 <= j1 < j2 < v.len() ==> #[trigger] v[j1] < #[trigger] v[j2]
}

/// `m` files every logical CPU below `i` under its key, and holds nothing else.
spec fn filed(s: SysfsSnapshot, m: Map<(usize, usize), Vec<usize>>, i: int) -> bool {
    &&& forall|k: (usize, usize)| #[trigger] m.contains_key(k) ==> bucket_ok(s, k, m[k]@, i)
    &&& forall|j: int|
        #![trigger cpu_key(s, j)]
        0 <= j < i ==> m.contains_key(cpu_key(s, j)) && m[cpu_key(s, j)]@.contains(j as usize)
}

/// Group the logical CPUs by (package id, core id), in key order.
fn group_cpus(s: &SysfsSnapshot) -> (groups: Vec<Vec<usize>>)
    requires
        s.wf(),
    ensures
        grouped(*s, views(groups@), s.cpu_count as int),
{
    proof {
        lemma_keys_ordered();
    }
    let mut cores: BTreeMap<(usize, usize), Vec<usize>> = BTreeMap::new();
    let n = s.cpu_count;
    for i in 0..n
        invariant
            n == s.cpu_count,
            s.wf(),
            filed(*s, cores@, i as int),
    {
        let key = (
            id_or_default(&s.physical_package_id[i], 0),
            id_or_default(&s.core_id[i], i),
        );
        assert(key == cpu_key(*s, i as int));
        let ghost before = cores@;
        let mut members = match cores.remove(&key) {
            Some(v) => v,
            None => Vec::new(),
        };
        let ghost prior = members@;
        members.push(i);
        cores.insert(key, members);
        proof {
            assert(cores@ == before.insert(key, members));
            if before.contains_key(key) {
                assert(prior == before[key]@);
            } else {
                assert(prior.len() == 0);
            }
            assert(bucket_ok(*s, key, members@, i + 1)) by {
                if before.contains_key(key) {
                    assert(bucket_ok(*s, key, prior, i as int));
                }
            }
            assert forall|k: (usize, usize)| #[trigger] cores@.contains_key(k) implies bucket_ok(
                *s,
                k,
                cores@[k]@,
                i + 1,
            ) by {
                if k != key {
                    assert(bucket_ok(*s, k, before[k]@, i as int));
                }
            }
            assert forall|j: int| #![trigger cpu_key(*s, j)] 0 <= j < i + 1 implies cores@.contains_key(
                cpu_key(*s, j),
            ) && cores@[cpu_key(*s, j)]@.contains(j as usize) by {
                if j == i {
                    assert(members@[members@.len() - 1] == i);
                } else if cpu_key(*s, j) == key {
                    let q = choose|q: int| 0 <= q < prior.len() && prior[q] == j as usize;
                    assert(members@[q] == j as usize);
                }
            }
        }
    }
    let ghost entries = vstd::std_specs::btree::spec_btree_map_iter(&cores).remaining();
    let mut groups: Vec<Vec<usize>> = Vec::new();
    for entry in it: cores.iter()
        invariant
            filed(*s, cores@, n as int),
            it.seq() == entries,
            groups@.len() == it.index(),
            forall|g: int| 0 <= g < it.index() ==> #[trigger] groups@[g]@ == (*entries[g].1)@,
    {
        let (_key, members) = entry;
        let copy = members.clone();
        assert(copy@ =~= members@);
        groups.push(copy);
    }
    proof {
        let gs = views(groups@);
        let ks = entries.map_values(|kv: (&(usize, usize), &Vec<usize>)| *kv.0);
        lemma_increasing_keys(ks);
        assert(gs.len() == entries.len());
        assert forall|g: int| 0 <= g < gs.len() implies bucket_ok(
            *s,
            ks[g],
            #[trigger] gs[g],
            n as int,
        ) by {
            assert(cores@.contains_key(*entries[g].0));
            assert(gs[g] == groups@[g]@);
        }
        assert forall|g: int, j: int| 0 <= g < gs.len() && 0 <= j < gs[g].len() implies #[trigger] gs[g][j]
            < n && cpu_key(*s, gs[g][j] as int) == group_key(*s, gs[g]) by {
            assert(bucket_ok(*s, ks[g], gs[g], n as int));
        }
        assert forall|g: int, h: int| 0 <= g < h < gs.len() implies key_lt(
            group_key(*s, #[trigger] gs[g]),
            group_key(*s, #[trigger] gs[h]),
        ) by {
            assert(bucket_ok(*s, ks[g], gs[g], n as int));
            assert(bucket_ok(*s, ks[h], gs[h], n as int));
            assert(key_lt(ks[g], ks[h]));
        }
        assert forall|g: int, j1: int, j2: int|
            0 <= g < gs.len() && 0 <= j1 < j2 < gs[g].len() implies #[trigger] gs[g][j1]
            < #[trigger] gs[g][j2] by {
            assert(bucket_ok(*s, ks[g], gs[g], n as int));
        }
        assert forall|i: int| 0 <= i < n implies #[trigger] in_some_group(gs, i) by {
            let k = cpu_key(*s, i);
            assert(cores@.contains_key(k) && cores@[k]@.contains(i as usize));
            assert(entries.contains((&k, &cores@[k])));
            let g = choose|g: int| 0 <= g < entries.len() && entries[g] == (&k, &cores@[k]);
            assert(gs[g] == groups@[g]@);
            assert(gs[g].contains(i as usize));
        }
    }
    groups
}

/// Keys of logical CPUs are ordered in a map as (package id, core id) pairs.
proof fn lemma_keys_ordered()
    ensures
        vstd::std_specs::btree::key_obeys_cmp_spec::<(usize, usize)>(),
{
    assert(vstd::laws_cmp::obeys_cmp::<(usize, usize)>());
}

/// Keys that a map hands out in increasing order are in increasing
/// (package id, core id) order.
proof fn lemma_increasing_keys(ks: Seq<(usize, usize)>)
    requires
        vstd::std_specs::btree::increasing_seq(ks),
    ensures
        forall|a: int, b: int| 0 <= a < b < ks.len() ==> key_lt(#[trigger] ks[a], #[trigger] ks[b]),
{
    lemma_keys_ordered();
    assert forall|a: int, b: int| 0 <= a < b < ks.len() implies key_lt(ks[a], ks[b]) by {
        assert(vstd::std_specs::cmp::OrdSpec::cmp_spec(&ks[a], &ks[b]) is Less);
    }
}

} // verus!

verus! {

/// The type of the first CPU of `lps` that has a detected type; `Unknown` when none has.
pub open spec fn first_detected_type(s: SysfsSnapshot, lps: Seq<usize>) -> CoreType
    decreases lps.len(),
{
    if lps.len() == 0 {
        CoreType::Unknown
    } else {
        match detected_type(s, lps[0]) {
            Some(t) => t,
            None => first_detected_type(s, lps.drop_first()),
        }
    }
}

/// The frequency of the first CPU of `lps` whose `cpuinfo_max_freq` gives one.
pub open spec fn first_frequency(s: SysfsSnapshot, lps: Seq<usize>) -> Option<u64>
    decreases lps.len(),
{
    if lps.len() == 0 {
        None
    } else {
        match frequency_of(s.cpuinfo_max_freq@[lps[0] as int]) {
            Some(f) => Some(f),
            None => first_frequency(s, lps.drop_first()),
        }
    }
}

/// The logical CPUs of each core.
pub open spec fn core_cpu_lists(cores: Seq<CpuInfo>) -> Seq<Seq<usize>> {
    cores.map_values(|c: CpuInfo| c.logical_cpus@)
}

/// `cores` is what Linux detection gives for the snapshot `s`: one core per
/// (package id, core id), in key order, numbered from 0, each with its logical CPUs in
/// increasing order, the type of the first of them that has one, and the frequency of
/// the first of them that has one.
pub open spec fn linux_cores(s: SysfsSnapshot, cores: Seq<CpuInfo>) -> bool {
    &&& grouped(s, core_cpu_lists(cores), s.cpu_count as int)
    &&& forall|g: int|
        0 <= g < cores.len() ==> {
            &&& (#[trigger] cores[g]).id == g
            &&& cores[g].core_type == first_detected_type(s, cores[g].logical_cpus@)
            &&& cores[g].max_frequency_mhz == first_frequency(s, cores[g].logical_cpus@)
        }
}

/// The list of (logical CPU, type) entries of the first detection that applies.
fn type_map(s: &SysfsSnapshot) -> (tm: Vec<(usize, CoreType)>)
    requires
        s.capacity_in_range(),
    ensures
        forall|lp: usize| #[trigger] lookup_type(tm@, lp) == detected_type(*s, lp),
{
    match detect_x86_hybrid(&s.core_cpus, &s.atom_cpus) {
        Some(v) => {
            proof {
                let (p, e) = x86_lists(s.core_cpus, s.atom_cpus)->0;
                assert forall|lp: usize| #[trigger] lookup_type(v@, lp) == detected_type(*s, lp) by {
                    lemma_lookup_x86(v@, p, e, lp);
                }
            }
            v
        },
        None => match detect_core_type_sysfs(&s.core_type) {
            Some(v) => v,
            None => match detect_capacity_hybrid(&s.cpu_capacity) {
                Some(v) => v,
                None => Vec::new(),
            },
        },
    }
}

/// The first type that `tm` gives a CPU of `lps`.
pub open spec fn first_lookup(tm: Seq<(usize, CoreType)>, lps: Seq<usize>) -> CoreType
    decreases lps.len(),
{
    if lps.len() == 0 {
        CoreType::Unknown
    } else {
        match lookup_type(tm, lps[0]) {
            Some(t) => t,
            None => first_lookup(tm, lps.drop_first()),
        }
    }
}

proof fn lemma_first_lookup(s: SysfsSnapshot, tm: Seq<(usize, CoreType)>, lps: Seq<usize>)
    requires
        forall|lp: usize| #[trigger] lookup_type(tm, lp) == detected_type(s, lp),
    ensures
        first_lookup(tm, lps) == first_detected_type(s, lps),
    decreases lps.len(),
{
    if lps.len() > 0 {
        assert(lookup_type(tm, lps[0]) == detected_type(s, lps[0]));
        lemma_first_lookup(s, tm, lps.drop_first());
    }
}

fn core_type_of(tm: &Vec<(usize, CoreType)>, lps: &Vec<usize>) -> (r: CoreType)
    ensures
        r == first_lookup(tm@, lps@),
{
    let mut i: usize = 0;
    assert(lps@.skip(0) =~= lps@);
    while i < lps.len()
        invariant
            i <= lps@.len(),
            first_lookup(tm@, lps@) == first_lookup(tm@, lps@.skip(i as int)),
        decreases lps@.len() - i,
    {
        assert(lps@.skip(i as int).drop_first() =~= lps@.skip(i + 1));
        match find_type(tm, lps[i]) {
            Some(t) => {
                return t;
            },
            None => {},
        }
        i = i + 1;
    }
    CoreType::Unknown
}

fn frequency_of_core(s: &SysfsSnapshot, lps: &Vec<usize>) -> (r: Option<u64>)
    requires
        s.wf(),
        forall|j: int| 0 <= j < lps@.len() ==> #[trigger] lps@[j] < s.cpu_count,
    ensures
        r == first_frequency(*s, lps@),
{
    let mut i: usize = 0;
    assert(lps@.skip(0) =~= lps@);
    while i < lps.len()
        invariant
            i <= lps@.len(),
            s.wf(),
            forall|j: int| 0 <= j < lps@.len() ==> #[trigger] lps@[j] < s.cpu_count,
            first_frequency(*s, lps@) == first_frequency(*s, lps@.skip(i as int)),
        decreases lps@.len() - i,
    {
        assert(lps@.skip(i as int).drop_first() =~= lps@.skip(i + 1));
        let lp = lps[i];
        match max_frequency_mhz(&s.cpuinfo_max_freq[lp]) {
            Some(f) => {
                return Some(f);
            },
            None => {},
        }
        i = i + 1;
    }
    None
}

/// Enumerate all physical CPU cores on Linux from what was read of sysfs.
///
/// Detection order for core types: Intel PMU sysfs (`cpu_core`/`cpu_atom`), then the
/// per-CPU `core_type` attribute, then `cpu_capacity` (AMD hybrid / ARM big.LITTLE).
/// Logical CPUs are grouped into physical cores by (package id, core id).
pub fn cpus(s: &SysfsSnapshot) -> (r: Result<Vec<CpuInfo>, Error>)
    requires
        s.wf(),
        s.capacity_in_range(),
    ensures
        r matches Ok(cores) && linux_cores(*s, cores@),
{
    let tm = type_map(s);
    let mut groups = group_cpus(s);
    let ghost gs = views(groups@);
    let n = groups.len();
    let mut result: Vec<CpuInfo> = Vec::new();
    for g in 0..n
        invariant
            n == groups@.len(),
            s.wf(),
            gs.len() == n,
            grouped(*s, gs, s.cpu_count as int),
            forall|lp: usize| #[trigger] lookup_type(tm@, lp) == detected_type(*s, lp),
            forall|h: int| g <= h < n ==> #[trigger] groups@[h]@ == gs[h],
            result@.len() == g,
            forall|h: int|
                0 <= h < g ==> {
                    &&& (#[trigger] result@[h]).id == h
                    &&& result@[h].logical_cpus@ == gs[h]
                    &&& result@[h].core_type == first_detected_type(*s, gs[h])
                    &&& result@[h].max_frequency_mhz == first_frequency(*s, gs[h])
                },
    {
        let mut logical_cpus: Vec<usize> = Vec::new();
        std::mem::swap(&mut logical_cpus, &mut groups[g]);
        assert(logical_cpus@ == gs[g as int]);
        let core_type = core_type_of(&tm, &logical_cpus);
        proof {
            lemma_first_lookup(*s, tm@, logical_cpus@);
            assert forall|j: int| 0 <= j < logical_cpus@.len() implies #[trigger] logical_cpus@[j]
                < s.cpu_count by {
                assert(gs[g as int][j] < s.cpu_count);
            }
        }
        let max_frequency_mhz = frequency_of_core(s, &logical_cpus);
        result.push(CpuInfo { id: g, core_type, max_frequency_mhz, logical_cpus });
    }
    assert(core_cpu_lists(result@) =~= gs);
    Ok(result)
}

/// The online logical CPUs: those that the text of `/sys/devices/system/cpu/online`
/// lists, or, when that file was not read, the first `cpu_count` ids.
pub open spec fn online_cpus(online: Option<String>, cpu_count: usize) -> Set<usize> {
    match online {
        Some(t) => cpu_list(t@),
        None => Set::new(|i: usize| i < cpu_count),
    }
}

/// Check that `cpu_id` is an online logical CPU, from the text of
/// `/sys/devices/system/cpu/online` (`None` when it was not read) and the number of
/// online CPUs.
pub fn validate_cpu_id(cpu_id: usize, online: &Option<String>, cpu_count: usize) -> (r: Result<
    (),
    Error,
>)
    ensures
        (r is Ok) == online_cpus(*online, cpu_count).contains(cpu_id),
        r is Err ==> (r matches Err(Error::InvalidCpuId(id)) && id == cpu_id),
{
    let valid = match online {
        Some(text) => {
            let ids = parse_cpu_list(text.as_str());
            ids.contains(&cpu_id)
        },
        None => cpu_id < cpu_count,
    };
    if !valid {
        return Err(Error::InvalidCpuId(cpu_id));
    }
    Ok(())
}

/// The number of online logical CPUs from what `sysconf(_SC_NPROCESSORS_ONLN)`
/// returned: that number when it is positive, 1 otherwise.
pub fn online_cpu_count(sysconf_result: i64) -> (r: usize)
    ensures
        r == (if 0 < sysconf_result {
            sysconf_result as usize
        } else {
            1
        }),
{
    if sysconf_result > 0 {
        #[verifier::truncate]
        (sysconf_result as usize)
    } else {
        1
    }
}

} // verus!
