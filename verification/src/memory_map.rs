use vstd::prelude::*;
use crate::frame_allocator::{
    kernel_fits, kernel_fits_map, memory_map, overlaps_kernel, region_end, rest_part, straddles,
    used_part, with_descriptor, with_region, LegacyMemoryRegion,
};
use crate::memory::{MemoryRegion, MemoryRegionKind};

verus! {

/// Whether the regions of the firmware's map come in the order of their
/// addresses and no two of them overlap.
pub open spec fn sorted_disjoint<D: LegacyMemoryRegion>(ds: Seq<D>) -> bool {
    &&& forall|i: int| 0 <= i < ds.len() ==> region_end(#[trigger] ds[i]) <= u64::MAX
    &&& forall|i: int, j: int|
        0 <= i < j < ds.len() ==> region_end(#[trigger] ds[i]) <= (#[trigger] ds[j]).region_start()
}

/// Whether no region of the map is empty, the regions come in the order of
/// their addresses, no two of them overlap, and none reaches beyond `bound`.
pub open spec fn ordered_upto(rs: Seq<MemoryRegion>, bound: int) -> bool {
    &&& forall|i: int| 0 <= i < rs.len() ==> (#[trigger] rs[i]).start < rs[i].end <= bound
    &&& forall|i: int, j: int|
        0 <= i < j < rs.len() ==> (#[trigger] rs[i]).end <= (#[trigger] rs[j]).start
}

/// Whether the kernel may have the region, now or after what the boot loader
/// put there is no longer needed.
pub open spec fn for_kernel(kind: MemoryRegionKind) -> bool {
    kind == MemoryRegionKind::Usable || kind == MemoryRegionKind::Bootloader
}

/// Whether `address` lies in a region of the map that is usable or the boot
/// loader's.
pub open spec fn covered(rs: Seq<MemoryRegion>, address: int) -> bool {
    exists|i: int| 0 <= i < rs.len() && for_kernel((#[trigger] rs[i]).kind) && rs[i].contains(address)
}

/// Whether the firmware's region ends up usable or as the boot loader's.
pub open spec fn given_to_kernel<D: LegacyMemoryRegion>(d: D) -> bool {
    d.region_kind() == MemoryRegionKind::Usable || d.reclaimable() || d.region_kind()
        == MemoryRegionKind::Bootloader
}

/// Whether `address` lies in a region of the firmware's map that ends up
/// usable or as the boot loader's.
pub open spec fn covered_by_firmware<D: LegacyMemoryRegion>(ds: Seq<D>, address: int) -> bool {
    exists|i: int|
        0 <= i < ds.len() && given_to_kernel(#[trigger] ds[i]) && ds[i].region_start() <= address
            < region_end(ds[i])
}

/// Whether `address` lies in a usable region of the firmware's map.
pub open spec fn covered_by_usable<D: LegacyMemoryRegion>(ds: Seq<D>, address: int) -> bool {
    exists|i: int|
        0 <= i < ds.len() && (#[trigger] ds[i]).region_kind() == MemoryRegionKind::Usable
            && ds[i].region_start() <= address < region_end(ds[i])
}

/// The end of the last region of the firmware's map; zero for an empty map.
pub open spec fn last_end<D: LegacyMemoryRegion>(ds: Seq<D>) -> int {
    if ds.len() == 0 {
        0
    } else {
        region_end(ds.last())
    }
}

/// Adding a region that starts at or after `bound` to an ordered map gives an
/// ordered map.
proof fn lemma_push_ordered(rs: Seq<MemoryRegion>, r: MemoryRegion, bound: int, new_bound: int)
    requires
        ordered_upto(rs, bound),
        bound <= r.start <= r.end <= new_bound,
    ensures
        ordered_upto(with_region(rs, r), new_bound),
{
}

/// Adding a region adds its addresses to what is covered, where its kind is
/// for the kernel.
proof fn lemma_push_covered(rs: Seq<MemoryRegion>, r: MemoryRegion, address: int)
    ensures
        covered(with_region(rs, r), address) <==> covered(rs, address) || (for_kernel(r.kind)
            && r.contains(address)),
{
    let out = with_region(rs, r);
    if covered(rs, address) {
        let i = choose|i: int|
            0 <= i < rs.len() && for_kernel((#[trigger] rs[i]).kind) && rs[i].contains(address);
        assert(out[i] == rs[i]);
    }
    if for_kernel(r.kind) && r.contains(address) {
        assert(out[rs.len() as int] == r);
    }
    if covered(out, address) {
        let i = choose|i: int|
            0 <= i < out.len() && for_kernel((#[trigger] out[i]).kind) && out[i].contains(address);
        if i < rs.len() {
            assert(rs[i] == out[i]);
        }
    }
}

/// What one region of the firmware's map adds to the kernel's map: at most
/// four regions, in order and within the firmware's region, which cover the
/// firmware's region where that is given to the kernel, and nothing otherwise.
proof fn lemma_with_descriptor<D: LegacyMemoryRegion>(
    rs: Seq<MemoryRegion>,
    d: D,
    next_free: u64,
    kernel_start: u64,
    kernel_end: u64,
    bound: int,
)
    requires
        region_end(d) <= u64::MAX,
        kernel_start <= kernel_end,
        kernel_fits(d, next_free, kernel_start, kernel_end),
    ensures
        with_descriptor(rs, d, next_free, kernel_start, kernel_end).len() <= rs.len() + 1 + (
        if straddles(d, next_free) {
            1int
        } else {
            0int
        }) + (if overlaps_kernel(rest_part(d, next_free), kernel_start, kernel_end) {
            2int
        } else {
            0int
        }),
        ordered_upto(rs, bound) && bound <= d.region_start() ==> ordered_upto(
            with_descriptor(rs, d, next_free, kernel_start, kernel_end),
            region_end(d),
        ),
        forall|address: int|
            covered(with_descriptor(rs, d, next_free, kernel_start, kernel_end), address) <==> (
            covered(rs, address) || (given_to_kernel(d) && d.region_start() <= address
                < region_end(d))),
{
    let used = if straddles(d, next_free) {
        with_region(rs, used_part(d, next_free))
    } else {
        rs
    };
    let rest = rest_part(d, next_free);
    let out = with_descriptor(rs, d, next_free, kernel_start, kernel_end);
    let before = MemoryRegion { end: kernel_start, ..rest };
    let kernel = MemoryRegion {
        start: kernel_start,
        end: kernel_end,
        kind: MemoryRegionKind::Bootloader,
    };
    let after = MemoryRegion { start: kernel_end, ..rest };
    let split = overlaps_kernel(rest, kernel_start, kernel_end);
    if ordered_upto(rs, bound) && bound <= d.region_start() {
        if straddles(d, next_free) {
            lemma_push_ordered(rs, used_part(d, next_free), bound, next_free as int);
        }
        let mid: int = if straddles(d, next_free) {
            next_free as int
        } else {
            bound
        };
        if split {
            lemma_push_ordered(used, before, mid, kernel_start as int);
            lemma_push_ordered(with_region(used, before), kernel, kernel_start as int, kernel_end as int);
            lemma_push_ordered(
                with_region(with_region(used, before), kernel),
                after,
                kernel_end as int,
                region_end(d),
            );
        } else {
            if rest.start <= rest.end {
                lemma_push_ordered(used, rest, mid, region_end(d));
            }
        }
    }
    assert forall|address: int|
        covered(out, address) <==> (covered(rs, address) || (given_to_kernel(d) && d.region_start()
            <= address < region_end(d))) by {
        if straddles(d, next_free) {
            lemma_push_covered(rs, used_part(d, next_free), address);
        }
        if split {
            lemma_push_covered(used, before, address);
            lemma_push_covered(with_region(used, before), kernel, address);
            lemma_push_covered(with_region(with_region(used, before), kernel), after, address);
        } else {
            lemma_push_covered(used, rest, address);
        }
    }
}

/// The kernel's map has at most three regions more than the firmware's map
/// where that is in order: one where the allocator stopped within a region,
/// two where the kernel image lies within one.
pub proof fn lemma_memory_map_len<D: LegacyMemoryRegion>(
    ds: Seq<D>,
    next_free: u64,
    kernel_start: u64,
    kernel_end: u64,
)
    requires
        sorted_disjoint(ds),
        kernel_start <= kernel_end,
        kernel_fits_map(ds, next_free, kernel_start, kernel_end),
    ensures
        memory_map(ds, next_free, kernel_start, kernel_end).len() <= ds.len() + (if next_free
            < last_end(ds) {
            1int
        } else {
            0int
        }) + (if kernel_start < last_end(ds) {
            2int
        } else {
            0int
        }),
        memory_map(ds, next_free, kernel_start, kernel_end).len() <= ds.len() + 4,
    decreases ds.len(),
{
    if ds.len() > 0 {
        let front = ds.drop_last();
        let d = ds.last();
        assert(region_end(ds[ds.len() - 1]) <= u64::MAX);
        assert(kernel_fits(ds[ds.len() - 1], next_free, kernel_start, kernel_end));
        assert forall|i: int, j: int| 0 <= i < j < front.len() implies region_end(
            #[trigger] front[i],
        ) <= (#[trigger] front[j]).region_start() by {
            assert(front[i] == ds[i] && front[j] == ds[j]);
        }
        assert forall|i: int| 0 <= i < front.len() implies region_end(#[trigger] front[i])
            <= u64::MAX by {
            assert(front[i] == ds[i]);
        }
        assert forall|i: int| 0 <= i < front.len() implies kernel_fits(
            #[trigger] front[i],
            next_free,
            kernel_start,
            kernel_end,
        ) by {
            assert(front[i] == ds[i]);
        }
        lemma_memory_map_len(front, next_free, kernel_start, kernel_end);
        lemma_with_descriptor(
            memory_map(front, next_free, kernel_start, kernel_end),
            d,
            next_free,
            kernel_start,
            kernel_end,
            0,
        );
        if front.len() > 0 {
            assert(front.last() == ds[ds.len() - 2]);
            assert(region_end(ds[ds.len() - 2]) <= ds[ds.len() - 1].region_start());
        }
    }
}

/// Where the firmware's map is in order, so is the kernel's: none of its
/// regions is empty, they come in the order of their addresses, and no two of
/// them overlap.
pub proof fn lemma_memory_map_ordered<D: LegacyMemoryRegion>(
    ds: Seq<D>,
    next_free: u64,
    kernel_start: u64,
    kernel_end: u64,
)
    requires
        sorted_disjoint(ds),
        kernel_start <= kernel_end,
        kernel_fits_map(ds, next_free, kernel_start, kernel_end),
    ensures
        ordered_upto(memory_map(ds, next_free, kernel_start, kernel_end), last_end(ds)),
    decreases ds.len(),
{
    if ds.len() > 0 {
        let front = ds.drop_last();
        let d = ds.last();
        assert(region_end(ds[ds.len() - 1]) <= u64::MAX);
        assert(kernel_fits(ds[ds.len() - 1], next_free, kernel_start, kernel_end));
        assert forall|i: int, j: int| 0 <= i < j < front.len() implies region_end(
            #[trigger] front[i],
        ) <= (#[trigger] front[j]).region_start() by {
            assert(front[i] == ds[i] && front[j] == ds[j]);
        }
        assert forall|i: int| 0 <= i < front.len() implies region_end(#[trigger] front[i])
            <= u64::MAX by {
            assert(front[i] == ds[i]);
        }
        assert forall|i: int| 0 <= i < front.len() implies kernel_fits(
            #[trigger] front[i],
            next_free,
            kernel_start,
            kernel_end,
        ) by {
            assert(front[i] == ds[i]);
        }
        lemma_memory_map_ordered(front, next_free, kernel_start, kernel_end);
        if front.len() > 0 {
            assert(front.last() == ds[ds.len() - 2]);
            assert(region_end(ds[ds.len() - 2]) <= ds[ds.len() - 1].region_start());
        }
        lemma_with_descriptor(
            memory_map(front, next_free, kernel_start, kernel_end),
            d,
            next_free,
            kernel_start,
            kernel_end,
            last_end(front),
        );
    }
}

/// Whether no two regions of the firmware's map overlap, in whatever order
/// they come.
pub open spec fn pairwise_disjoint<D: LegacyMemoryRegion>(ds: Seq<D>) -> bool {
    &&& forall|i: int| 0 <= i < ds.len() ==> region_end(#[trigger] ds[i]) <= u64::MAX
    &&& forall|i: int, j: int|
        0 <= i < j < ds.len() ==> region_end(#[trigger] ds[i]) <= (#[trigger] ds[j]).region_start()
            || region_end(ds[j]) <= ds[i].region_start()
}

/// Whether the two regions have no address in common.
pub open spec fn apart(a: MemoryRegion, b: MemoryRegion) -> bool {
    a.end <= b.start || b.end <= a.start
}

/// Whether no region of the map is empty and no two of them overlap.
pub open spec fn non_overlapping(rs: Seq<MemoryRegion>) -> bool {
    &&& forall|i: int| 0 <= i < rs.len() ==> (#[trigger] rs[i]).start < rs[i].end
    &&& forall|i: int, j: int| 0 <= i < j < rs.len() ==> apart(#[trigger] rs[i], #[trigger] rs[j])
}

/// Whether the region lies within a region of the firmware's map.
pub open spec fn lies_in<D: LegacyMemoryRegion>(r: MemoryRegion, ds: Seq<D>) -> bool {
    exists|i: int|
        0 <= i < ds.len() && (#[trigger] ds[i]).region_start() <= r.start && r.end <= region_end(
            ds[i],
        )
}

/// Whether the allocator stopped within a region of the firmware's map.
pub open spec fn some_straddles<D: LegacyMemoryRegion>(ds: Seq<D>, next_free: u64) -> bool {
    exists|i: int| 0 <= i < ds.len() && straddles(#[trigger] ds[i], next_free)
}

/// Whether the kernel image lies in a region of the firmware's map.
pub open spec fn some_holds_kernel<D: LegacyMemoryRegion>(
    ds: Seq<D>,
    next_free: u64,
    kernel_start: u64,
    kernel_end: u64,
) -> bool {
    exists|i: int|
        0 <= i < ds.len() && overlaps_kernel(
            rest_part(#[trigger] ds[i], next_free),
            kernel_start,
            kernel_end,
        )
}

/// Whether the regions of `rs` do not overlap, each lies within a region of
/// `ds`, and each is apart from the region `d` or lies within it below `low`.
spec fn built_upto<D: LegacyMemoryRegion>(rs: Seq<MemoryRegion>, ds: Seq<D>, d: D, low: int) -> bool {
    &&& non_overlapping(rs)
    &&& forall|k: int| 0 <= k < rs.len() ==> lies_in(#[trigger] rs[k], ds)
    &&& forall|k: int|
        0 <= k < rs.len() ==> (#[trigger] rs[k]).end <= d.region_start() || region_end(d)
            <= rs[k].start || (d.region_start() <= rs[k].start && rs[k].end <= low)
}

/// Adding a region that lies within `d`, at or above `low`, keeps what
/// `built_upto` says.
proof fn lemma_push_built<D: LegacyMemoryRegion>(
    rs: Seq<MemoryRegion>,
    r: MemoryRegion,
    ds: Seq<D>,
    index: int,
    low: int,
    high: int,
)
    requires
        0 <= index < ds.len(),
        built_upto(rs, ds, ds[index], low),
        ds[index].region_start() <= low <= r.start <= r.end <= high <= region_end(ds[index]),
    ensures
        built_upto(with_region(rs, r), ds, ds[index], high),
{
    let out = with_region(rs, r);
    if r.start != r.end {
        assert(lies_in(r, ds));
        assert forall|k: int| 0 <= k < out.len() implies lies_in(#[trigger] out[k], ds) by {
            if k < rs.len() {
                assert(out[k] == rs[k]);
            }
        }
        assert forall|i: int, j: int| 0 <= i < j < out.len() implies apart(
            #[trigger] out[i],
            #[trigger] out[j],
        ) by {
            assert(out[i] == rs[i]);
            if j < rs.len() {
                assert(out[j] == rs[j]);
            }
        }
    }
}

/// What one region of the firmware's map adds to a map whose regions are
/// apart from it: regions within it that overlap neither each other nor the
/// others.
proof fn lemma_with_descriptor_apart<D: LegacyMemoryRegion>(
    rs: Seq<MemoryRegion>,
    ds: Seq<D>,
    index: int,
    next_free: u64,
    kernel_start: u64,
    kernel_end: u64,
)
    requires
        0 <= index < ds.len(),
        region_end(ds[index]) <= u64::MAX,
        kernel_start <= kernel_end,
        kernel_fits(ds[index], next_free, kernel_start, kernel_end),
        built_upto(rs, ds, ds[index], ds[index].region_start() as int),
    ensures
        built_upto(
            with_descriptor(rs, ds[index], next_free, kernel_start, kernel_end),
            ds,
            ds[index],
            region_end(ds[index]),
        ),
{
    let d = ds[index];
    let used = if straddles(d, next_free) {
        with_region(rs, used_part(d, next_free))
    } else {
        rs
    };
    let rest = rest_part(d, next_free);
    let before = MemoryRegion { end: kernel_start, ..rest };
    let kernel = MemoryRegion {
        start: kernel_start,
        end: kernel_end,
        kind: MemoryRegionKind::Bootloader,
    };
    let after = MemoryRegion { start: kernel_end, ..rest };
    if straddles(d, next_free) {
        lemma_push_built(rs, used_part(d, next_free), ds, index, d.region_start() as int, next_free as int);
    }
    let mid: int = if straddles(d, next_free) {
        next_free as int
    } else {
        d.region_start() as int
    };
    if overlaps_kernel(rest, kernel_start, kernel_end) {
        lemma_push_built(used, before, ds, index, mid, kernel_start as int);
        lemma_push_built(with_region(used, before), kernel, ds, index, kernel_start as int, kernel_end as int);
        lemma_push_built(
            with_region(with_region(used, before), kernel),
            after,
            ds,
            index,
            kernel_end as int,
            region_end(d),
        );
    } else {
        lemma_push_built(used, rest, ds, index, mid, region_end(d));
    }
}

/// Where no two regions of the firmware's map overlap, in whatever order they
/// come, no two regions of the kernel's map overlap, none of them is empty,
/// and each lies within a region of the firmware's map.
pub proof fn lemma_memory_map_disjoint<D: LegacyMemoryRegion>(
    ds: Seq<D>,
    next_free: u64,
    kernel_start: u64,
    kernel_end: u64,
)
    requires
        pairwise_disjoint(ds),
        kernel_start <= kernel_end,
        kernel_fits_map(ds, next_free, kernel_start, kernel_end),
    ensures
        non_overlapping(memory_map(ds, next_free, kernel_start, kernel_end)),
        forall|k: int|
            0 <= k < memory_map(ds, next_free, kernel_start, kernel_end).len() ==> lies_in(
                #[trigger] memory_map(ds, next_free, kernel_start, kernel_end)[k],
                ds,
            ),
    decreases ds.len(),
{
    if ds.len() > 0 {
        let front = ds.drop_last();
        let d = ds.last();
        let last = ds.len() - 1;
        assert(d == ds[last]);
        assert(region_end(ds[last]) <= u64::MAX);
        assert(kernel_fits(ds[last], next_free, kernel_start, kernel_end));
        assert forall|i: int, j: int| 0 <= i < j < front.len() implies region_end(
            #[trigger] front[i],
        ) <= (#[trigger] front[j]).region_start() || region_end(front[j])
            <= front[i].region_start() by {
            assert(front[i] == ds[i] && front[j] == ds[j]);
        }
        assert forall|i: int| 0 <= i < front.len() implies region_end(#[trigger] front[i])
            <= u64::MAX by {
            assert(front[i] == ds[i]);
        }
        assert forall|i: int| 0 <= i < front.len() implies kernel_fits(
            #[trigger] front[i],
            next_free,
            kernel_start,
            kernel_end,
        ) by {
            assert(front[i] == ds[i]);
        }
        lemma_memory_map_disjoint(front, next_free, kernel_start, kernel_end);
        let rs = memory_map(front, next_free, kernel_start, kernel_end);
        assert forall|k: int| 0 <= k < rs.len() implies lies_in(#[trigger] rs[k], ds) && (rs[k].end
            <= d.region_start() || region_end(d) <= rs[k].start) by {
            assert(lies_in(rs[k], front));
            let i = choose|i: int|
                0 <= i < front.len() && (#[trigger] front[i]).region_start() <= rs[k].start
                    && rs[k].end <= region_end(front[i]);
            assert(front[i] == ds[i]);
            assert(region_end(ds[i]) <= ds[last].region_start() || region_end(ds[last])
                <= ds[i].region_start());
        }
        lemma_with_descriptor_apart(rs, ds, last, next_free, kernel_start, kernel_end);
    }
}

/// Where no two regions of the firmware's map overlap, in whatever order they
/// come, the kernel's map has at most three regions more than the firmware's:
/// one where the allocator stopped within a region, two where the kernel
/// image lies within one.
pub proof fn lemma_memory_map_len_disjoint<D: LegacyMemoryRegion>(
    ds: Seq<D>,
    next_free: u64,
    kernel_start: u64,
    kernel_end: u64,
)
    requires
        pairwise_disjoint(ds),
        kernel_start <= kernel_end,
        kernel_fits_map(ds, next_free, kernel_start, kernel_end),
    ensures
        memory_map(ds, next_free, kernel_start, kernel_end).len() <= ds.len() + (if some_straddles(
            ds,
            next_free,
        ) {
            1int
        } else {
            0int
        }) + (if some_holds_kernel(ds, next_free, kernel_start, kernel_end) {
            2int
        } else {
            0int
        }),
        memory_map(ds, next_free, kernel_start, kernel_end).len() <= ds.len() + 3,
    decreases ds.len(),
{
    if ds.len() > 0 {
        let front = ds.drop_last();
        let d = ds.last();
        let last = ds.len() - 1;
        assert(d == ds[last]);
        assert(region_end(ds[last]) <= u64::MAX);
        assert(kernel_fits(ds[last], next_free, kernel_start, kernel_end));
        assert forall|i: int, j: int| 0 <= i < j < front.len() implies region_end(
            #[trigger] front[i],
        ) <= (#[trigger] front[j]).region_start() || region_end(front[j])
            <= front[i].region_start() by {
            assert(front[i] == ds[i] && front[j] == ds[j]);
        }
        assert forall|i: int| 0 <= i < front.len() implies region_end(#[trigger] front[i])
            <= u64::MAX by {
            assert(front[i] == ds[i]);
        }
        assert forall|i: int| 0 <= i < front.len() implies kernel_fits(
            #[trigger] front[i],
            next_free,
            kernel_start,
            kernel_end,
        ) by {
            assert(front[i] == ds[i]);
        }
        lemma_memory_map_len_disjoint(front, next_free, kernel_start, kernel_end);
        lemma_with_descriptor(
            memory_map(front, next_free, kernel_start, kernel_end),
            d,
            next_free,
            kernel_start,
            kernel_end,
            0,
        );
        if some_straddles(front, next_free) {
            let i = choose|i: int| 0 <= i < front.len() && straddles(#[trigger] front[i], next_free);
            assert(front[i] == ds[i]);
            assert(straddles(ds[i], next_free));
            assert(region_end(ds[i]) <= ds[last].region_start() || region_end(ds[last])
                <= ds[i].region_start());
            assert(!straddles(d, next_free));
        }
        if straddles(d, next_free) {
            assert(straddles(ds[last], next_free));
        }
        if some_holds_kernel(front, next_free, kernel_start, kernel_end) {
            let i = choose|i: int|
                0 <= i < front.len() && overlaps_kernel(
                    rest_part(#[trigger] front[i], next_free),
                    kernel_start,
                    kernel_end,
                );
            assert(front[i] == ds[i]);
            assert(kernel_fits(ds[i], next_free, kernel_start, kernel_end));
            assert(overlaps_kernel(rest_part(ds[i], next_free), kernel_start, kernel_end));
            assert(region_end(ds[i]) <= ds[last].region_start() || region_end(ds[last])
                <= ds[i].region_start());
            assert(!overlaps_kernel(rest_part(d, next_free), kernel_start, kernel_end));
        }
        if overlaps_kernel(rest_part(d, next_free), kernel_start, kernel_end) {
            assert(overlaps_kernel(rest_part(ds[last], next_free), kernel_start, kernel_end));
        }
    }
}

/// The regions of the kernel's map that are usable or the boot loader's cover
/// the addresses of the firmware's regions that are given to the kernel, and
/// no others.
pub proof fn lemma_memory_map_covers<D: LegacyMemoryRegion>(
    ds: Seq<D>,
    next_free: u64,
    kernel_start: u64,
    kernel_end: u64,
    address: int,
)
    requires
        forall|i: int| 0 <= i < ds.len() ==> region_end(#[trigger] ds[i]) <= u64::MAX,
        kernel_start <= kernel_end,
        kernel_fits_map(ds, next_free, kernel_start, kernel_end),
    ensures
        covered(memory_map(ds, next_free, kernel_start, kernel_end), address)
            <==> covered_by_firmware(ds, address),
    decreases ds.len(),
{
    if ds.len() > 0 {
        let front = ds.drop_last();
        let d = ds.last();
        assert(region_end(ds[ds.len() - 1]) <= u64::MAX);
        assert(kernel_fits(ds[ds.len() - 1], next_free, kernel_start, kernel_end));
        assert forall|i: int| 0 <= i < front.len() implies region_end(#[trigger] front[i])
            <= u64::MAX by {
            assert(front[i] == ds[i]);
        }
        assert forall|i: int| 0 <= i < front.len() implies kernel_fits(
            #[trigger] front[i],
            next_free,
            kernel_start,
            kernel_end,
        ) by {
            assert(front[i] == ds[i]);
        }
        lemma_memory_map_covers(front, next_free, kernel_start, kernel_end, address);
        lemma_with_descriptor(
            memory_map(front, next_free, kernel_start, kernel_end),
            d,
            next_free,
            kernel_start,
            kernel_end,
            0,
        );
        if covered_by_firmware(front, address) {
            let i = choose|i: int|
                0 <= i < front.len() && given_to_kernel(#[trigger] front[i])
                    && front[i].region_start() <= address < region_end(front[i]);
            assert(ds[i] == front[i]);
        }
        if given_to_kernel(d) && d.region_start() <= address < region_end(d) {
            assert(ds[ds.len() - 1] == d);
        }
        if covered_by_firmware(ds, address) {
            let i = choose|i: int|
                0 <= i < ds.len() && given_to_kernel(#[trigger] ds[i]) && ds[i].region_start()
                    <= address < region_end(ds[i]);
            if i < front.len() {
                assert(front[i] == ds[i]);
            }
        }
    }
}

/// Where only usable regions of the firmware's map are given to the kernel,
/// the usable regions and the boot loader's regions of the kernel's map cover
/// the addresses of the firmware's usable regions, and no others.
pub proof fn lemma_memory_map_covers_usable<D: LegacyMemoryRegion>(
    ds: Seq<D>,
    next_free: u64,
    kernel_start: u64,
    kernel_end: u64,
    address: int,
)
    requires
        forall|i: int| 0 <= i < ds.len() ==> region_end(#[trigger] ds[i]) <= u64::MAX,
        forall|i: int|
            0 <= i < ds.len() && given_to_kernel(#[trigger] ds[i]) ==> ds[i].region_kind()
                == MemoryRegionKind::Usable,
        kernel_start <= kernel_end,
        kernel_fits_map(ds, next_free, kernel_start, kernel_end),
    ensures
        covered(memory_map(ds, next_free, kernel_start, kernel_end), address)
            <==> covered_by_usable(ds, address),
{
    lemma_memory_map_covers(ds, next_free, kernel_start, kernel_end, address);
    if covered_by_firmware(ds, address) {
        let i = choose|i: int|
            0 <= i < ds.len() && given_to_kernel(#[trigger] ds[i]) && ds[i].region_start()
                <= address < region_end(ds[i]);
        assert(ds[i].region_kind() == MemoryRegionKind::Usable);
    }
    if covered_by_usable(ds, address) {
        let i = choose|i: int|
            0 <= i < ds.len() && (#[trigger] ds[i]).region_kind() == MemoryRegionKind::Usable
                && ds[i].region_start() <= address < region_end(ds[i]);
        assert(given_to_kernel(ds[i]));
    }
}

/// Whether no usable region of the map holds a byte of the kernel image.
pub open spec fn kernel_excluded(rs: Seq<MemoryRegion>, kernel_start: u64, kernel_end: u64) -> bool {
    forall|i: int|
        0 <= i < rs.len() && (#[trigger] rs[i]).kind == MemoryRegionKind::Usable ==> rs[i].end
            <= kernel_start || kernel_end <= rs[i].start || rs[i].end <= rs[i].start
}

/// Adding a region that holds no byte of the kernel image, or is not usable,
/// keeps the kernel image out of the usable regions.
proof fn lemma_push_excluded(rs: Seq<MemoryRegion>, r: MemoryRegion, kernel_start: u64, kernel_end: u64)
    requires
        kernel_excluded(rs, kernel_start, kernel_end),
        r.kind == MemoryRegionKind::Usable ==> r.end <= kernel_start || kernel_end <= r.start
            || r.end <= r.start,
    ensures
        kernel_excluded(with_region(rs, r), kernel_start, kernel_end),
{
    let out = with_region(rs, r);
    assert forall|i: int|
        0 <= i < out.len() && (#[trigger] out[i]).kind == MemoryRegionKind::Usable implies out[i].end
        <= kernel_start || kernel_end <= out[i].start || out[i].end <= out[i].start by {
        if i < rs.len() {
            assert(out[i] == rs[i]);
        }
    }
}

/// No usable region of the kernel's map holds a byte of the kernel image:
/// the image is the boot loader's.
pub proof fn lemma_memory_map_excludes_kernel<D: LegacyMemoryRegion>(
    ds: Seq<D>,
    next_free: u64,
    kernel_start: u64,
    kernel_end: u64,
)
    requires
        forall|i: int| 0 <= i < ds.len() ==> region_end(#[trigger] ds[i]) <= u64::MAX,
        kernel_start <= kernel_end,
        kernel_fits_map(ds, next_free, kernel_start, kernel_end),
    ensures
        kernel_excluded(
            memory_map(ds, next_free, kernel_start, kernel_end),
            kernel_start,
            kernel_end,
        ),
    decreases ds.len(),
{
    if ds.len() > 0 {
        let front = ds.drop_last();
        let d = ds.last();
        assert(region_end(ds[ds.len() - 1]) <= u64::MAX);
        assert(kernel_fits(ds[ds.len() - 1], next_free, kernel_start, kernel_end));
        assert forall|i: int| 0 <= i < front.len() implies region_end(#[trigger] front[i])
            <= u64::MAX by {
            assert(front[i] == ds[i]);
        }
        assert forall|i: int| 0 <= i < front.len() implies kernel_fits(
            #[trigger] front[i],
            next_free,
            kernel_start,
            kernel_end,
        ) by {
            assert(front[i] == ds[i]);
        }
        lemma_memory_map_excludes_kernel(front, next_free, kernel_start, kernel_end);
        let rs = memory_map(front, next_free, kernel_start, kernel_end);
        let used = if straddles(d, next_free) {
            with_region(rs, used_part(d, next_free))
        } else {
            rs
        };
        if straddles(d, next_free) {
            lemma_push_excluded(rs, used_part(d, next_free), kernel_start, kernel_end);
        }
        let rest = rest_part(d, next_free);
        if overlaps_kernel(rest, kernel_start, kernel_end) {
            let before = MemoryRegion { end: kernel_start, ..rest };
            let kernel = MemoryRegion {
                start: kernel_start,
                end: kernel_end,
                kind: MemoryRegionKind::Bootloader,
            };
            let after = MemoryRegion { start: kernel_end, ..rest };
            lemma_push_excluded(used, before, kernel_start, kernel_end);
            lemma_push_excluded(with_region(used, before), kernel, kernel_start, kernel_end);
            lemma_push_excluded(
                with_region(with_region(used, before), kernel),
                after,
                kernel_start,
                kernel_end,
            );
        } else {
            lemma_push_excluded(used, rest, kernel_start, kernel_end);
        }
    }
}

} // verus!
