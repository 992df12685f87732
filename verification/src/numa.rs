//! Assignment of usable physical memory to NUMA domains, from the memory
//! affinity ranges that the firmware reports.
use vstd::prelude::*;

verus! {

/// Memory below this address is kept for starting the other processors.
pub const MPBOOT_REGION_END: u64 = 1024 * 1024;

/// Size of a page.
pub const PAGE_SIZE: u64 = 4096;

/// `a` rounded down to a page boundary.
pub open spec fn page_down(a: int) -> int {
    a - a % (PAGE_SIZE as int)
}

/// `a` rounded up to a page boundary.
pub open spec fn page_up(a: int) -> int {
    page_down(a + PAGE_SIZE - 1)
}

/// Affinity entry `k` (domain, base, length, enabled) is enabled and its
/// range holds address `x`.
pub open spec fn covers(aff: Seq<(u32, u64, u64, bool)>, k: int, x: int) -> bool {
    &&& 0 <= k < aff.len()
    &&& aff[k].3
    &&& aff[k].1 <= x < aff[k].1 + aff[k].2
}

/// Entry `j` comes before entry `k` in the search: domains in increasing
/// order, and within a domain the entries in the order reported.
pub open spec fn searched_before(aff: Seq<(u32, u64, u64, bool)>, j: int, k: int) -> bool {
    aff[j].0 < aff[k].0 || (aff[j].0 == aff[k].0 && j < k)
}

/// `k` is the first entry in the search that holds `x`.
pub open spec fn first_cover(aff: Seq<(u32, u64, u64, bool)>, x: int, k: int) -> bool {
    &&& covers(aff, k, x)
    &&& forall|j: int| #[trigger] covers(aff, j, x) && j != k ==> !searched_before(aff, j, k)
}

/// The region that is searched for: `cur`, or, when it starts where the
/// backup heap starts, the part after the backup heap's next free frame
/// (nothing if the backup heap has none).
pub open spec fn after_backup(cur: (u64, u64), backup_start: u64, backup_next: Option<u64>) -> Option<(u64, u64)> {
    if cur.0 == backup_start {
        match backup_next {
            Some(f) => Some((f, cur.1)),
            None => None,
        }
    } else {
        Some(cur)
    }
}

/// What the region `cur` (start, end) gives, in order, as (domain, region)
/// pairs. The region goes whole to the first range in the search that holds
/// its page-aligned start; if its page-aligned end lies outside that range,
/// the part from the end of that range to the page-aligned end is treated in
/// the same way. Empty regions, regions at address 0 and regions no range
/// holds give nothing.
pub open spec fn region_assignments(
    aff: Seq<(u32, u64, u64, bool)>,
    backup_start: u64,
    backup_next: Option<u64>,
    cur: (u64, u64),
) -> Seq<(u32, (u64, u64))>
    decreases 0x1_0000_0000_0000_0000int - cur.0,
{
    match after_backup(cur, backup_start, backup_next) {
        None => Seq::empty(),
        Some(c) => {
            if c.0 == 0 || c.0 == c.1 {
                Seq::empty()
            } else if exists|k: int| covers(aff, k, page_up(c.0 as int)) {
                let k = choose|k: int| first_cover(aff, page_up(c.0 as int), k);
                let end = aff[k].1 + aff[k].2;
                let ue = page_down(c.1 as int);
                if aff[k].1 <= ue <= end {
                    seq![(aff[k].0, c)]
                } else if cur.0 < end < 0x1_0000_0000_0000_0000int && 0 <= ue {
                    seq![(aff[k].0, c)] + region_assignments(aff, backup_start, backup_next, (end as u64, ue as u64))
                } else {
                    seq![(aff[k].0, c)]
                }
            } else {
                Seq::empty()
            }
        },
    }
}

/// A memory map entry (start, end, usable) that is given out: usable and
/// above the processor start-up area.
pub open spec fn given_out(r: (u64, u64, bool)) -> bool {
    r.2 && r.0 >= MPBOOT_REGION_END
}

/// What the memory map `regions` gives, in order, as (domain, region) pairs.
pub open spec fn all_assignments(
    aff: Seq<(u32, u64, u64, bool)>,
    regions: Seq<(u64, u64, bool)>,
    backup_start: u64,
    backup_next: Option<u64>,
) -> Seq<(u32, (u64, u64))>
    decreases regions.len(),
{
    if regions.len() == 0 {
        Seq::empty()
    } else {
        let prev = all_assignments(aff, regions.drop_last(), backup_start, backup_next);
        let r = regions.last();
        if given_out(r) {
            prev + region_assignments(aff, backup_start, backup_next, (r.0, r.1))
        } else {
            prev
        }
    }
}

/// The inputs on which the assignment computes without overflow: every
/// enabled range ends a page below the top of the address space, and so do
/// the region starts and the backup heap's next frame, which lies at or past
/// the start of the backup heap.
pub open spec fn assignable(
    aff: Seq<(u32, u64, u64, bool)>,
    regions: Seq<(u64, u64, bool)>,
    backup_start: u64,
    backup_next: Option<u64>,
) -> bool {
    &&& forall|k: int| 0 <= k < aff.len() && #[trigger] aff[k].3 ==> aff[k].1 + aff[k].2 <= u64::MAX - (PAGE_SIZE - 1)
    &&& forall|i: int| 0 <= i < regions.len() ==> #[trigger] regions[i].0 <= u64::MAX - (PAGE_SIZE - 1)
    &&& backup_next matches Some(f) ==> backup_start <= f <= u64::MAX - (PAGE_SIZE - 1)
}

/// At most one entry is first in the search.
proof fn lemma_first_cover_unique(aff: Seq<(u32, u64, u64, bool)>, x: int, k1: int, k2: int)
    requires
        first_cover(aff, x, k1),
        first_cover(aff, x, k2),
    ensures
        k1 == k2,
{
    if k1 != k2 {
        assert(covers(aff, k1, x) && covers(aff, k2, x));
    }
}

/// The first entry in the search whose range holds `x`.
fn find_cover(aff: &Vec<(u32, u64, u64, bool)>, x: u64) -> (r: Option<usize>)
    requires
        forall|k: int| 0 <= k < aff@.len() && #[trigger] aff@[k].3 ==> aff@[k].1 + aff@[k].2 <= u64::MAX,
    ensures
        r matches Some(k) ==> first_cover(aff@, x as int, k as int),
        r is None ==> forall|k: int| !covers(aff@, k, x as int),
{
    let mut best: Option<usize> = None;
    let mut j: usize = 0;
    while j < aff.len()
        invariant
            j <= aff@.len(),
            forall|k: int| 0 <= k < aff@.len() && #[trigger] aff@[k].3 ==> aff@[k].1 + aff@[k].2 <= u64::MAX,
            best matches Some(b) ==> b < j && covers(aff@, b as int, x as int) && forall|q: int|
                0 <= q < j && #[trigger] covers(aff@, q, x as int) && q != b ==> !searched_before(aff@, q, b as int),
            best is None ==> forall|q: int| 0 <= q < j ==> !#[trigger] covers(aff@, q, x as int),
        decreases aff@.len() - j,
    {
        let (d, base, len, enabled) = aff[j];
        if enabled && base <= x && x < base + len {
            match best {
                None => {
                    best = Some(j);
                },
                Some(b) => {
                    if d < aff[b].0 {
                        best = Some(j);
                    }
                },
            }
        }
        j += 1;
    }
    best
}

/// Appends to `out` what the region `region` gives.
fn assign_region(
    aff: &Vec<(u32, u64, u64, bool)>,
    backup_start: u64,
    backup_next: Option<u64>,
    region: (u64, u64),
    out: &mut Vec<(u32, (u64, u64))>,
)
    requires
        forall|k: int| 0 <= k < aff@.len() && #[trigger] aff@[k].3 ==> aff@[k].1 + aff@[k].2 <= u64::MAX - (PAGE_SIZE - 1),
        region.0 <= u64::MAX - (PAGE_SIZE - 1),
        backup_next matches Some(f) ==> backup_start <= f <= u64::MAX - (PAGE_SIZE - 1),
    ensures
        final(out)@ == old(out)@ + region_assignments(aff@, backup_start, backup_next, region),
{
    let ghost goal = old(out)@ + region_assignments(aff@, backup_start, backup_next, region);
    let mut cur = region;
    loop
        invariant
            forall|k: int| 0 <= k < aff@.len() && #[trigger] aff@[k].3 ==> aff@[k].1 + aff@[k].2 <= u64::MAX - (PAGE_SIZE - 1),
            cur.0 <= u64::MAX - (PAGE_SIZE - 1),
            backup_next matches Some(f) ==> backup_start <= f <= u64::MAX - (PAGE_SIZE - 1),
            out@ + region_assignments(aff@, backup_start, backup_next, cur) == goal,
            goal == old(out)@ + region_assignments(aff@, backup_start, backup_next, region),
        decreases 0x1_0000_0000_0000_0000int - cur.0,
    {
        let ghost prev = cur;
        let c = if cur.0 == backup_start {
            match backup_next {
                Some(f) => (f, cur.1),
                None => {
                    assert(region_assignments(aff@, backup_start, backup_next, cur) =~= Seq::empty());
                    assert(out@ + Seq::<(u32, (u64, u64))>::empty() =~= out@);
                    return;
                },
            }
        } else {
            cur
        };
        if c.0 == 0 || c.0 == c.1 {
            assert(region_assignments(aff@, backup_start, backup_next, cur) =~= Seq::empty());
            assert(out@ + Seq::<(u32, (u64, u64))>::empty() =~= out@);
            return;
        }
        let us = (c.0 + (PAGE_SIZE - 1)) - (c.0 + (PAGE_SIZE - 1)) % PAGE_SIZE;
        let ue = c.1 - c.1 % PAGE_SIZE;
        assert(us as int == page_up(c.0 as int));
        assert(ue as int == page_down(c.1 as int));
        match find_cover(aff, us) {
            None => {
                assert(!exists|k: int| covers(aff@, k, page_up(c.0 as int)));
                assert(region_assignments(aff@, backup_start, backup_next, cur) =~= Seq::empty());
                assert(out@ + Seq::<(u32, (u64, u64))>::empty() =~= out@);
                return;
            },
            Some(k) => {
                proof {
                    let kc = choose|k: int| first_cover(aff@, page_up(c.0 as int), k);
                    lemma_first_cover_unique(aff@, page_up(c.0 as int), k as int, kc);
                }
                let (d, base, len, _) = aff[k];
                let end = base + len;
                out.push((d, c));
                if base <= ue && ue <= end {
                    assert(out@ =~= goal);
                    return;
                }
                assert(prev.0 < end);
                cur = (end, ue);
                assert(out@ + region_assignments(aff@, backup_start, backup_next, cur) =~= goal);
            },
        }
    }
}

/// Every (domain, region) pair that the memory map `regions` gives, in the
/// order of the map.
pub fn numa_assignments(
    mem_affinity: &Vec<(u32, u64, u64, bool)>,
    regions: &Vec<(u64, u64, bool)>,
    backup_start: u64,
    backup_next: Option<u64>,
) -> (r: Vec<(u32, (u64, u64))>)
    requires
        assignable(mem_affinity@, regions@, backup_start, backup_next),
    ensures
        r@ == all_assignments(mem_affinity@, regions@, backup_start, backup_next),
{
    let mut out: Vec<(u32, (u64, u64))> = Vec::new();
    let mut i: usize = 0;
    while i < regions.len()
        invariant
            i <= regions@.len(),
            assignable(mem_affinity@, regions@, backup_start, backup_next),
            out@ == all_assignments(mem_affinity@, regions@.take(i as int), backup_start, backup_next),
        decreases regions@.len() - i,
    {
        proof {
            assert(regions@.take(i + 1).drop_last() =~= regions@.take(i as int));
        }
        let (start, end, usable) = regions[i];
        if usable && start >= MPBOOT_REGION_END {
            assign_region(mem_affinity, backup_start, backup_next, (start, end), &mut out);
        }
        i += 1;
    }
    assert(regions@.take(regions@.len() as int) =~= regions@);
    out
}


/// The regions that `flat` gives to domain `d`, in order.
pub open spec fn regions_of(flat: Seq<(u32, (u64, u64))>, d: u32) -> Seq<(u64, u64)>
    decreases flat.len(),
{
    if flat.len() == 0 {
        Seq::empty()
    } else {
        let prev = regions_of(flat.drop_last(), d);
        if flat.last().0 == d {
            prev.push(flat.last().1)
        } else {
            prev
        }
    }
}

/// `g` is `flat` grouped by domain: one entry per domain that gets a region,
/// in increasing domain order, with the domain's regions in order.
pub open spec fn grouped(flat: Seq<(u32, (u64, u64))>, g: Seq<(u32, Vec<(u64, u64)>)>) -> bool {
    &&& forall|i: int, j: int| 0 <= i < j < g.len() ==> g[i].0 < g[j].0
    &&& forall|i: int| 0 <= i < g.len() ==> (#[trigger] g[i]).1@ == regions_of(flat, g[i].0)
    &&& forall|d: u32| regions_of(flat, d).len() > 0 ==> exists|i: int| 0 <= i < g.len() && (#[trigger] g[i]).0 == d
}

/// Groups `flat` by domain.
fn group_by_domain(flat: &Vec<(u32, (u64, u64))>) -> (g: Vec<(u32, Vec<(u64, u64)>)>)
    ensures
        grouped(flat@, g@),
{
    let mut g: Vec<(u32, Vec<(u64, u64)>)> = Vec::new();
    let mut n: usize = 0;
    while n < flat.len()
        invariant
            n <= flat@.len(),
            grouped(flat@.take(n as int), g@),
        decreases flat@.len() - n,
    {
        let ghost old_g = g@;
        let ghost pre = flat@.take(n as int);
        let ghost post = flat@.take(n + 1);
        let (d, region) = flat[n];
        proof {
            assert(post.drop_last() =~= pre);
            assert(post.last() == (d, region));
        }
        let mut p: usize = 0;
        while p < g.len() && g[p].0 < d
            invariant
                p <= g@.len(),
                forall|q: int| 0 <= q < p ==> (#[trigger] g@[q]).0 < d,
            decreases g@.len() - p,
        {
            p += 1;
        }
        if p < g.len() && g[p].0 == d {
            g[p].1.push(region);
            proof {
                assert forall|i: int| 0 <= i < g@.len() implies (#[trigger] g@[i]).1@ == regions_of(post, g@[i].0) by {
                    if i != p {
                        assert(g@[i] == old_g[i]);
                        assert(old_g[i].0 != d) by {
                            if i < p {
                            } else {
                                assert(old_g[p as int].0 < old_g[i].0);
                            }
                        }
                    }
                }
                assert forall|e: u32| regions_of(post, e).len() > 0 implies exists|i: int| 0 <= i < g@.len() && (#[trigger] g@[i]).0 == e by {
                    if e != d {
                        assert(regions_of(post, e) == regions_of(pre, e));
                        let i = choose|i: int| 0 <= i < old_g.len() && (#[trigger] old_g[i]).0 == e;
                        assert(g@[i].0 == e);
                    } else {
                        assert(g@[p as int].0 == e);
                    }
                }
            }
        } else {
            let mut v: Vec<(u64, u64)> = Vec::new();
            v.push(region);
            g.insert(p, (d, v));
            proof {
                assert forall|i: int, j: int| 0 <= i < j < g@.len() implies g@[i].0 < g@[j].0 by {
                    if j < p {
                        assert(g@[i] == old_g[i] && g@[j] == old_g[j]);
                    } else if j == p {
                        assert(g@[i] == old_g[i]);
                    } else if i < p {
                        assert(g@[i] == old_g[i] && g@[j] == old_g[j - 1]);
                    } else if i == p {
                        assert(g@[j] == old_g[j - 1]);
                        assert(old_g[j - 1].0 >= d);
                        assert(old_g[j - 1].0 != d) by {
                            if j - 1 > p {
                                assert(old_g[p as int].0 < old_g[j - 1].0);
                            }
                        }
                    } else {
                        assert(g@[i] == old_g[i - 1] && g@[j] == old_g[j - 1]);
                    }
                }
                assert forall|i: int| 0 <= i < g@.len() implies (#[trigger] g@[i]).1@ == regions_of(post, g@[i].0) by {
                    if i < p {
                        assert(g@[i] == old_g[i]);
                    } else if i == p {
                        assert forall|q: int| 0 <= q < old_g.len() implies old_g[q].0 != d by {
                            if q < p {
                            } else {
                                assert(old_g[q].0 >= d);
                                if q > p {
                                    assert(old_g[p as int].0 < old_g[q].0);
                                }
                            }
                        }
                        assert(regions_of(pre, d).len() == 0);
                        assert(g@[i].1@ =~= regions_of(post, d));
                    } else {
                        assert(g@[i] == old_g[i - 1]);
                        assert(old_g[i - 1].0 != d) by {
                            if i - 1 > p {
                                assert(old_g[p as int].0 < old_g[i - 1].0);
                            }
                        }
                    }
                }
                assert forall|e: u32| regions_of(post, e).len() > 0 implies exists|i: int| 0 <= i < g@.len() && (#[trigger] g@[i]).0 == e by {
                    if e != d {
                        assert(regions_of(post, e) == regions_of(pre, e));
                        let i = choose|i: int| 0 <= i < old_g.len() && (#[trigger] old_g[i]).0 == e;
                        if i < p {
                            assert(g@[i].0 == e);
                        } else {
                            assert(g@[i + 1].0 == e);
                        }
                    } else {
                        assert(g@[p as int].0 == e);
                    }
                }
            }
        }
        n += 1;
    }
    assert(flat@.take(flat@.len() as int) =~= flat@);
    g
}

/// The usable memory of each NUMA domain. `mem_affinity` lists the memory
/// affinity ranges the firmware reports, as (domain, base, length,
/// enabled); `regions` is the memory map, as (start, end, usable); the
/// backup heap starts at `backup_start` and its next free frame is
/// `backup_next`. Each usable region above the processor start-up area goes,
/// in the order of the map, to the first domain (in increasing domain order,
/// then in the order reported) whose range holds its page-aligned start; a
/// region whose page-aligned end runs past that range goes whole to that
/// domain and its part past the range is assigned again. The result holds
/// one entry per domain that gets memory, in increasing domain order.
pub fn assign_numa_regions(
    mem_affinity: &Vec<(u32, u64, u64, bool)>,
    regions: &Vec<(u64, u64, bool)>,
    backup_start: u64,
    backup_next: Option<u64>,
) -> (r: Vec<(u32, Vec<(u64, u64)>)>)
    requires
        assignable(mem_affinity@, regions@, backup_start, backup_next),
    ensures
        grouped(all_assignments(mem_affinity@, regions@, backup_start, backup_next), r@),
{
    let flat = numa_assignments(mem_affinity, regions, backup_start, backup_next);
    group_by_domain(&flat)
}


/// The value that the enabled entries (key, value, enabled) of `entries`
/// give key `id`: that of the last one naming it.
pub open spec fn last_value<V>(entries: Seq<(u32, V, bool)>, id: u32) -> Option<V>
    decreases entries.len(),
{
    if entries.len() == 0 {
        None
    } else {
        let e = entries.last();
        if e.2 && e.0 == id {
            Some(e.1)
        } else {
            last_value(entries.drop_last(), id)
        }
    }
}

/// `m` maps, in increasing key order, exactly the keys that the enabled
/// entries of `entries` name to their last values.
pub open spec fn last_value_map<V>(entries: Seq<(u32, V, bool)>, m: Seq<(u32, V)>) -> bool {
    &&& forall|i: int, j: int| 0 <= i < j < m.len() ==> m[i].0 < m[j].0
    &&& forall|i: int| 0 <= i < m.len() ==> last_value(entries, (#[trigger] m[i]).0) == Some(m[i].1)
    &&& forall|id: u32| #[trigger] last_value(entries, id) is Some ==> exists|i: int| 0 <= i < m.len() && (#[trigger] m[i]).0 == id
}

/// The map, sorted by key, that the enabled entries (key, value, enabled)
/// give: disabled entries are skipped, and a later entry for a key replaces
/// an earlier one.
pub fn last_value_map_of<V: Copy>(entries: &Vec<(u32, V, bool)>) -> (m: Vec<(u32, V)>)
    ensures
        last_value_map(entries@, m@),
{
    let mut m: Vec<(u32, V)> = Vec::new();
    let mut n: usize = 0;
    while n < entries.len()
        invariant
            n <= entries@.len(),
            last_value_map(entries@.take(n as int), m@),
        decreases entries@.len() - n,
    {
        let ghost old_m = m@;
        let ghost pre = entries@.take(n as int);
        let ghost post = entries@.take(n + 1);
        let (id, d, enabled) = entries[n];
        proof {
            assert(post.drop_last() =~= pre);
            assert(post.last() == (id, d, enabled));
        }
        if enabled {
            let mut p: usize = 0;
            while p < m.len() && m[p].0 < id
                invariant
                    p <= m@.len(),
                    forall|q: int| 0 <= q < p ==> (#[trigger] m@[q]).0 < id,
                decreases m@.len() - p,
            {
                p += 1;
            }
            if p < m.len() && m[p].0 == id {
                m.set(p, (id, d));
                proof {
                    assert forall|i: int| 0 <= i < m@.len() implies last_value(post, (#[trigger] m@[i]).0) == Some(m@[i].1) by {
                        if i != p {
                            assert(m@[i] == old_m[i]);
                            assert(old_m[i].0 != id) by {
                                if i > p {
                                    assert(old_m[p as int].0 < old_m[i].0);
                                }
                            }
                        }
                    }
                    assert forall|e: u32| #[trigger] last_value(post, e) is Some implies exists|i: int| 0 <= i < m@.len() && (#[trigger] m@[i]).0 == e by {
                        if e != id {
                            assert(last_value(post, e) == last_value(pre, e));
                            let i = choose|i: int| 0 <= i < old_m.len() && (#[trigger] old_m[i]).0 == e;
                            assert(m@[i].0 == e);
                        } else {
                            assert(m@[p as int].0 == e);
                        }
                    }
                }
            } else {
                m.insert(p, (id, d));
                proof {
                    assert forall|i: int, j: int| 0 <= i < j < m@.len() implies m@[i].0 < m@[j].0 by {
                        if j < p {
                            assert(m@[i] == old_m[i] && m@[j] == old_m[j]);
                        } else if j == p {
                            assert(m@[i] == old_m[i]);
                        } else if i < p {
                            assert(m@[i] == old_m[i] && m@[j] == old_m[j - 1]);
                        } else if i == p {
                            assert(m@[j] == old_m[j - 1]);
                            assert(old_m[j - 1].0 >= id);
                            assert(old_m[j - 1].0 != id) by {
                                if j - 1 > p {
                                    assert(old_m[p as int].0 < old_m[j - 1].0);
                                }
                            }
                        } else {
                            assert(m@[i] == old_m[i - 1] && m@[j] == old_m[j - 1]);
                        }
                    }
                    assert forall|i: int| 0 <= i < m@.len() implies last_value(post, (#[trigger] m@[i]).0) == Some(m@[i].1) by {
                        if i < p {
                            assert(m@[i] == old_m[i]);
                        } else if i > p {
                            assert(m@[i] == old_m[i - 1]);
                            assert(old_m[i - 1].0 != id) by {
                                if i - 1 > p {
                                    assert(old_m[p as int].0 < old_m[i - 1].0);
                                }
                            }
                        }
                    }
                    assert forall|e: u32| #[trigger] last_value(post, e) is Some implies exists|i: int| 0 <= i < m@.len() && (#[trigger] m@[i]).0 == e by {
                        if e != id {
                            assert(last_value(post, e) == last_value(pre, e));
                            let i = choose|i: int| 0 <= i < old_m.len() && (#[trigger] old_m[i]).0 == e;
                            if i < p {
                                assert(m@[i].0 == e);
                            } else {
                                assert(m@[i + 1].0 == e);
                            }
                        } else {
                            assert(m@[p as int].0 == e);
                        }
                    }
                }
            }
        } else {
            proof {
                assert forall|e: u32| last_value(post, e) == last_value(pre, e) by {}
            }
        }
        n += 1;
    }
    assert(entries@.take(entries@.len() as int) =~= entries@);
    m
}


/// The NUMA domain of each processor, from the processor affinity entries
/// (apic id, domain, enabled) the firmware reports: disabled entries are
/// skipped, and a later entry for the same processor replaces an earlier
/// one. Sorted by apic id.
pub fn cpu_numa_map(entries: &Vec<(u32, u32, bool)>) -> (m: Vec<(u32, u32)>)
    ensures
        last_value_map(entries@, m@),
{
    last_value_map_of(entries)
}

/// The domain of a local APIC affinity entry, from its low byte and its
/// three high bytes (least significant first).
pub fn local_apic_domain(lo_dm: u8, hi_dm: [u8; 3]) -> (d: u32)
    ensures
        d == lo_dm + 0x100 * hi_dm[0] + 0x1_0000 * hi_dm[1] + 0x100_0000 * hi_dm[2],
{
    let h0 = hi_dm[0];
    let h1 = hi_dm[1];
    let h2 = hi_dm[2];
    let d = (lo_dm as u32) | ((h0 as u32) << 8u32) | ((h1 as u32) << 16u32) | ((h2 as u32) << 24u32);
    assert(d == lo_dm + 0x100 * h0 + 0x1_0000 * h1 + 0x100_0000 * h2) by (bit_vector)
        requires
            d == (lo_dm as u32) | ((h0 as u32) << 8u32) | ((h1 as u32) << 16u32) | ((h2 as u32) << 24u32),
    ;
    d
}

/// The base and length of a memory affinity entry, from their low and high
/// 32-bit halves.
pub fn memory_affinity_range(lo_base: u32, hi_base: u32, lo_length: u32, hi_length: u32) -> (r: (u64, u64))
    ensures
        r.0 == lo_base + 0x1_0000_0000 * hi_base,
        r.1 == lo_length + 0x1_0000_0000 * hi_length,
{
    let base = (lo_base as u64) | ((hi_base as u64) << 32u64);
    let length = (lo_length as u64) | ((hi_length as u64) << 32u64);
    assert(base == lo_base + 0x1_0000_0000 * hi_base) by (bit_vector)
        requires
            base == (lo_base as u64) | ((hi_base as u64) << 32u64),
    ;
    assert(length == lo_length + 0x1_0000_0000 * hi_length) by (bit_vector)
        requires
            length == (lo_length as u64) | ((hi_length as u64) << 32u64),
    ;
    (base, length)
}

} // verus!
