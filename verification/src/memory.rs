//! Physical memory model: the bootloader-supplied memory map and the
//! bootstrap frame allocator that hands out each usable frame exactly once.

use vstd::prelude::*;

verus! {

/// Largest frame number the model admits: frame addresses stay below 2^64
/// (frame number * 4096 fits in a u64 with room to spare).
pub const MAX_FRAME: u64 = 0x10_0000_0000_0000;

/// One physical range reported by the bootloader: frames
/// `start_frame .. end_frame` (exclusive), usable or reserved.
#[derive(Clone, Copy, PartialEq, Eq, Structural, Debug)]
pub struct MemoryRegion {
    pub start_frame: u64,
    pub end_frame: u64,
    pub usable: bool,
}

impl MemoryRegion {
    /// A region is well formed when it is a real (possibly empty) range of
    /// frame numbers below the model's bound.
    pub open spec fn wf(self) -> bool {
        self.start_frame <= self.end_frame && self.end_frame <= MAX_FRAME
    }

    /// The frames the region spans, in increasing order.
    pub open spec fn frames(self) -> Seq<u64> {
        Seq::new((self.end_frame - self.start_frame) as nat, |i: int| (self.start_frame + i) as u64)
    }
}

/// The frames of `regions` that lie in a region marked usable, region by
/// region in the order the bootloader reported them.
pub open spec fn usable_frames_of(regions: Seq<MemoryRegion>) -> Seq<u64>
    decreases regions.len(),
{
    if regions.len() == 0 {
        Seq::empty()
    } else {
        let head = if regions[0].usable {
            regions[0].frames()
        } else {
            Seq::empty()
        };
        head + usable_frames_of(regions.drop_first())
    }
}

/// The ordered memory map handed over by the bootloader.
pub struct MemoryMap {
    pub regions: Vec<MemoryRegion>,
}

impl MemoryMap {
    /// Every region is well formed and the regions are ordered and disjoint:
    /// each ends no later than the next begins.
    pub open spec fn wf(self) -> bool {
        regions_wf(self.regions@)
    }

    /// All usable frames, in allocation order.
    pub open spec fn usable_frames(self) -> Seq<u64> {
        usable_frames_of(self.regions@)
    }

    /// `frame` lies inside some region marked usable.
    pub open spec fn frame_in_usable_region(self, frame: u64) -> bool {
        in_usable_region(self.regions@, frame)
    }

    pub fn new(regions: Vec<MemoryRegion>) -> (map: MemoryMap)
        ensures
            map.regions == regions,
    {
        MemoryMap { regions }
    }
}

/// Concatenation distributes over the usable-frame sequence.
proof fn lemma_usable_frames_append(a: Seq<MemoryRegion>, b: Seq<MemoryRegion>)
    ensures
        usable_frames_of(a + b) == usable_frames_of(a) + usable_frames_of(b),
    decreases a.len(),
{
    if a.len() == 0 {
        assert(a + b == b);
        assert(usable_frames_of(a) == Seq::<u64>::empty());
        assert(usable_frames_of(a) + usable_frames_of(b) == usable_frames_of(b));
    } else {
        assert((a + b)[0] == a[0]);
        assert((a + b).drop_first() == a.drop_first() + b);
        lemma_usable_frames_append(a.drop_first(), b);
        assert(usable_frames_of(a + b) == usable_frames_of(a) + usable_frames_of(b));
    }
}

/// A prefix of the region list contributes exactly the matching prefix of the
/// usable-frame sequence.
proof fn lemma_usable_frames_prefix(regions: Seq<MemoryRegion>, i: int)
    requires
        0 <= i <= regions.len(),
    ensures
        usable_frames_of(regions) == usable_frames_of(regions.take(i)) + usable_frames_of(
            regions.skip(i),
        ),
{
    assert(regions.take(i) + regions.skip(i) == regions);
    lemma_usable_frames_append(regions.take(i), regions.skip(i));
}

/// Well-formedness of a region sequence: see `MemoryMap::wf`.
pub open spec fn regions_wf(s: Seq<MemoryRegion>) -> bool {
    &&& forall|i: int| 0 <= i < s.len() ==> (#[trigger] s[i]).wf()
    &&& forall|i: int|
        0 <= i && i + 1 < s.len() ==> (#[trigger] s[i]).end_frame <= s[i + 1].start_frame
}

/// `frame` lies inside some usable region of `s`.
pub open spec fn in_usable_region(s: Seq<MemoryRegion>, frame: u64) -> bool {
    exists|i: int|
        0 <= i < s.len() && (#[trigger] s[i]).usable && s[i].start_frame <= frame
            < s[i].end_frame
}

/// The usable-frame sequence of an ordered, disjoint region list is strictly
/// increasing, and each of its frames lies in a usable region.
#[verifier::rlimit(40)]
proof fn lemma_usable_frames_sorted(s: Seq<MemoryRegion>)
    requires
        regions_wf(s),
    ensures
        forall|k: int, l: int|
            0 <= k < l < usable_frames_of(s).len() ==> usable_frames_of(s)[k] < usable_frames_of(
                s,
            )[l],
        forall|k: int|
            0 <= k < usable_frames_of(s).len() ==> #[trigger] in_usable_region(
                s,
                usable_frames_of(s)[k],
            ),
        forall|k: int|
            0 <= k < usable_frames_of(s).len() && s.len() > 0 ==> s[0].start_frame
                <= #[trigger] usable_frames_of(s)[k],
    decreases s.len(),
{
    if s.len() == 0 {
    } else {
        let rest = s.drop_first();
        assert forall|i: int| 0 <= i < rest.len() implies (#[trigger] rest[i]).wf() by {
            assert(rest[i] == s[i + 1]);
        }
        assert forall|i: int| 0 <= i && i + 1 < rest.len() implies (#[trigger] rest[i]).end_frame
            <= rest[i + 1].start_frame by {
            assert(rest[i] == s[i + 1] && rest[i + 1] == s[i + 2]);
        }
        assert(regions_wf(rest));
        lemma_usable_frames_sorted(rest);
        let head = if s[0].usable {
            s[0].frames()
        } else {
            Seq::<u64>::empty()
        };
        let u = usable_frames_of(s);
        let ur = usable_frames_of(rest);
        assert(u == head + ur);
        let h = head.len() as int;
        // Every frame of the head lies in region 0; every frame of the rest
        // sits at or above the next region's start, which is at or above
        // region 0's end.
        assert(forall|k: int| 0 <= k < h ==> s[0].start_frame <= #[trigger] head[k]
            < s[0].end_frame);
        if rest.len() > 0 {
            assert(s[0].end_frame <= rest[0].start_frame);
        }
        assert forall|k: int| 0 <= k < u.len() implies s[0].start_frame <= #[trigger] u[k] by {
            if k < h {
                assert(u[k] == head[k]);
            } else {
                assert(u[k] == ur[k - h]);
                assert(rest.len() > 0);
                assert(rest[0].start_frame <= ur[k - h]);
            }
        }
        assert forall|k: int, l: int| 0 <= k < l < u.len() implies u[k] < u[l] by {
            if l < h {
                assert(u[k] == head[k] && u[l] == head[l]);
                assert(head[k] == s[0].start_frame + k && head[l] == s[0].start_frame + l);
            } else if k < h {
                assert(u[k] == head[k] && u[l] == ur[l - h]);
                assert(head[k] < s[0].end_frame);
                assert(rest[0].start_frame <= ur[l - h]);
            } else {
                assert(u[k] == ur[k - h] && u[l] == ur[l - h]);
            }
        }
        assert forall|k: int| 0 <= k < u.len() implies #[trigger] in_usable_region(s, u[k]) by {
            if k < h {
                assert(s[0].usable && s[0].start_frame <= u[k] < s[0].end_frame);
            } else {
                assert(in_usable_region(rest, ur[k - h]));
                let i = choose|i: int|
                    0 <= i < rest.len() && (#[trigger] rest[i]).usable && rest[i].start_frame
                        <= ur[k - h] < rest[i].end_frame;
                assert(s[i + 1] == rest[i]);
                assert(0 <= i + 1 < s.len() && s[i + 1].usable && s[i + 1].start_frame <= u[k]
                    < s[i + 1].end_frame);
            }
        }
    }
}

/// *Frame disjointness.* Any two distinct positions of the allocation
/// sequence hold different frames, and every frame of the sequence lies in a
/// region the map marks usable: the allocator can never hand the same frame
/// out twice, nor one from reserved memory.
pub proof fn lemma_frame_disjointness(map: MemoryMap, i: int, j: int)
    requires
        map.wf(),
        0 <= i < map.usable_frames().len(),
        0 <= j < map.usable_frames().len(),
        i != j,
    ensures
        map.usable_frames()[i] != map.usable_frames()[j],
        map.frame_in_usable_region(map.usable_frames()[i]),
{
    lemma_usable_frames_sorted(map.regions@);
}

/// *Monotonic allocation.* The allocation sequence is strictly increasing:
/// a later call can only return a strictly larger frame, so the cursor never
/// revisits an earlier position.
pub proof fn lemma_monotonic_allocation(map: MemoryMap, i: int, j: int)
    requires
        map.wf(),
        0 <= i < j < map.usable_frames().len(),
    ensures
        map.usable_frames()[i] < map.usable_frames()[j],
{
    lemma_usable_frames_sorted(map.regions@);
}


/// The usable-frame count of a well-formed region list is bounded by the
/// frame-number bound: ordered disjoint regions cannot hold more frames than
/// there are frame numbers below `MAX_FRAME`.
proof fn lemma_usable_count_bounded(s: Seq<MemoryRegion>)
    requires
        regions_wf(s),
    ensures
        usable_frames_of(s).len() <= MAX_FRAME,
        s.len() > 0 ==> usable_frames_of(s).len() + s[0].start_frame <= MAX_FRAME,
    decreases s.len(),
{
    if s.len() > 0 {
        let rest = s.drop_first();
        assert forall|i: int| 0 <= i < rest.len() implies (#[trigger] rest[i]).wf() by {
            assert(rest[i] == s[i + 1]);
        }
        assert forall|i: int| 0 <= i && i + 1 < rest.len() implies (#[trigger] rest[i]).end_frame
            <= rest[i + 1].start_frame by {
            assert(rest[i] == s[i + 1] && rest[i + 1] == s[i + 2]);
        }
        lemma_usable_count_bounded(rest);
        if rest.len() > 0 {
            assert(rest[0] == s[1]);
            assert(s[0].end_frame <= s[1].start_frame);
        }
    }
}

/// The bootstrap frame allocator: a cursor over the usable frames of the
/// bootloader's memory map. `next` counts the frames already handed out.
pub struct BootInfoFrameAllocator {
    pub map: MemoryMap,
    pub next: u64,
}

impl BootInfoFrameAllocator {
    pub open spec fn wf(self) -> bool {
        self.map.wf()
    }

    /// The full allocation sequence this allocator draws from.
    pub open spec fn usable_frames(self) -> Seq<u64> {
        self.map.usable_frames()
    }

    /// A fresh allocator over `map`, positioned before the first usable frame.
    pub fn init(map: MemoryMap) -> (a: BootInfoFrameAllocator)
        ensures
            a.map == map,
            a.next == 0,
    {
        BootInfoFrameAllocator { map, next: 0 }
    }

    /// Hand out the next usable frame, or report exhaustion once the map's
    /// usable frames are spent. The cursor only ever advances.
    pub fn allocate_frame(&mut self) -> (r: Option<u64>)
        requires
            old(self).wf(),
        ensures
            final(self).map == old(self).map,
            old(self).next < old(self).usable_frames().len() ==> r == Some(
                old(self).usable_frames()[old(self).next as int],
            ) && final(self).next == old(self).next + 1,
            old(self).next >= old(self).usable_frames().len() ==> r is None && final(self).next
                == old(self).next,
    {
        let r = find_frame(&self.map, self.next);
        if r.is_some() {
            proof {
                lemma_usable_count_bounded(self.map.regions@);
            }
            self.next = self.next + 1;
        }
        r
    }
}

/// Locate frame number `next` of the map's allocation sequence by walking the
/// region list and skipping the usable frames of earlier regions.
fn find_frame(map: &MemoryMap, next: u64) -> (r: Option<u64>)
    requires
        map.wf(),
    ensures
        next < map.usable_frames().len() ==> r == Some(map.usable_frames()[next as int]),
        next >= map.usable_frames().len() ==> r is None,
{
    let n = map.regions.len();
    let mut i: usize = 0;
    let mut skipped: u64 = 0;
    while i < n
        invariant
            map.wf(),
            n == map.regions.len(),
            0 <= i <= n,
            skipped == usable_frames_of(map.regions@.take(i as int)).len(),
            skipped <= next,
        decreases n - i,
    {
        let region = map.regions[i];
        proof {
            lemma_usable_count_bounded(map.regions@.take(i as int));
            assert(map.regions@.take(i + 1) == map.regions@.take(i as int) + seq![
                map.regions@[i as int],
            ]);
            lemma_usable_frames_append(map.regions@.take(i as int), seq![map.regions@[i as int]]);
            let single = seq![map.regions@[i as int]];
            assert(single.len() == 1 && single[0] == region);
            assert(single.drop_first() =~= Seq::<MemoryRegion>::empty());
            assert(usable_frames_of(single.drop_first()) =~= Seq::<u64>::empty());
            if region.usable {
                assert(usable_frames_of(single) =~= region.frames());
            } else {
                assert(usable_frames_of(single) =~= Seq::<u64>::empty());
            }
            lemma_usable_frames_prefix(map.regions@, i + 1);
            lemma_usable_count_bounded(map.regions@.take(i + 1));
        }
        if region.usable {
            let count = region.end_frame - region.start_frame;
            if next - skipped < count {
                proof {
                    lemma_usable_frames_prefix(map.regions@, i as int);
                }
                return Some(region.start_frame + (next - skipped));
            }
            skipped = skipped + count;
        }
        i = i + 1;
    }
    proof {
        assert(map.regions@.take(n as int) == map.regions@);
    }
    None
}

} // verus!
