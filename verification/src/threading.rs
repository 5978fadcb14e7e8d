//! Pixel work queue and its deterministic partition.
//!
//! A render pass splits the flattened pixel buffer into consecutive
//! ranges, several per worker thread, and workers claim ranges through a
//! single cursor.  Each range is handed out exactly once, so the workers'
//! writes into the shared output buffer never overlap.

use vstd::prelude::*;

verus! {

/// A contiguous slice of the flattened pixel buffer, one unit of work.
#[derive(Clone, Copy, PartialEq, Eq, Structural, Debug)]
pub struct PixelRange {
    pub start: usize,
    pub size: usize,
}

/// Sum of the sizes of a range sequence.
pub open spec fn total_size(rs: Seq<PixelRange>) -> int
    decreases rs.len(),
{
    if rs.len() == 0 {
        0
    } else {
        total_size(rs.drop_last()) + rs.last().size
    }
}

/// Ranges per worker claim: what the `cursor`-th pop of a queue over
/// `ranges` returns.
pub open spec fn pop_result(ranges: Seq<PixelRange>, cursor: int) -> Option<PixelRange> {
    if 0 <= cursor < ranges.len() {
        Some(ranges[cursor])
    } else {
        None
    }
}

/// The queue: a fixed range list consumed through one advancing cursor.
pub struct PixelQueue {
    queue: Vec<PixelRange>,
    index: usize,
}

impl PixelQueue {
    /// The ranges the queue was built from.
    pub closed spec fn ranges(self) -> Seq<PixelRange> {
        self.queue@
    }

    /// How many ranges have been claimed.
    pub closed spec fn cursor(self) -> int {
        self.index as int
    }

    /// Builds a queue over the given ranges.
    pub fn new(queue: Vec<PixelRange>) -> (r: PixelQueue)
        ensures
            r.ranges() == queue@,
            r.cursor() == 0,
    {
        PixelQueue { queue, index: 0 }
    }

    /// Claims the next range: the one at the pre-advance cursor, or
    /// nothing once the queue is exhausted.
    pub fn pop(&mut self) -> (r: Option<PixelRange>)
        ensures
            final(self).ranges() == old(self).ranges(),
            r == pop_result(old(self).ranges(), old(self).cursor()),
            old(self).cursor() < old(self).ranges().len() ==> final(self).cursor() == old(
                self,
            ).cursor() + 1,
            old(self).cursor() >= old(self).ranges().len() ==> final(self).cursor() == old(
                self,
            ).cursor(),
    {
        if self.index < self.queue.len() {
            let r = self.queue[self.index];
            self.index = self.index + 1;
            Some(r)
        } else {
            None
        }
    }
}

/// Queue exclusivity: draining a fresh queue returns the range at each
/// cursor position exactly once — the multiset of all returned ranges is
/// exactly the multiset the queue was built from, with nothing returned
/// after exhaustion.  With [`PixelQueue::pop`] advancing the cursor by
/// one per successful claim, no two claims ever share a range slot.
pub proof fn lemma_queue_exclusivity(ranges: Seq<PixelRange>)
    ensures
        Seq::new(ranges.len(), |k: int| pop_result(ranges, k)->Some_0).to_multiset()
            == ranges.to_multiset(),
        forall|j: int, k: int|
            0 <= j < k < ranges.len() ==> #[trigger] pop_result(ranges, j) == Some(ranges[j])
                && #[trigger] pop_result(ranges, k) == Some(ranges[k]),
        forall|k: int| k >= ranges.len() ==> #[trigger] pop_result(ranges, k) is None,
{
    assert(Seq::new(ranges.len(), |k: int| pop_result(ranges, k)->Some_0) =~= ranges);
}

/// Pixels per range for a partition: the pixel count divided into
/// `range_count` parts, rounded up.
pub open spec fn per_range(pixel_count: int, range_count: int) -> int {
    (pixel_count + range_count - 1) / range_count
}

/// Splits `pixel_count` pixels into exactly `range_count` consecutive
/// ranges: all of ceiling size, with the final range shrunk so the sizes
/// sum to the pixel count exactly.
pub fn partition(pixel_count: usize, range_count: usize) -> (r: Vec<PixelRange>)
    requires
        1 <= range_count <= 0x1000_0000,
        pixel_count <= 0x1000_0000,
        // the shrink never exceeds one range (violating this is a
        // programming error: the final size would go negative)
        per_range(pixel_count as int, range_count as int) * (range_count - 1) <= pixel_count,
    ensures
        r@.len() == range_count,
        total_size(r@) == pixel_count,
        r@[0].start == 0,
        forall|i: int|
            0 < i < range_count ==> (#[trigger] r@[i]).start == r@[i - 1].start + r@[i - 1].size,
{
    let ghost ppr_spec = per_range(pixel_count as int, range_count as int);
    let pixels_per_range = (pixel_count + range_count - 1) / range_count;
    let mut ranges: Vec<PixelRange> = Vec::new();
    let mut idx: usize = 0;
    while idx < range_count
        invariant
            idx <= range_count,
            1 <= range_count <= 0x1000_0000,
            pixel_count <= 0x1000_0000,
            pixels_per_range == ppr_spec,
            ppr_spec == per_range(pixel_count as int, range_count as int),
            ppr_spec * (range_count - 1) <= pixel_count,
            ranges@.len() == idx,
            idx < range_count ==> total_size(ranges@) == ppr_spec * idx,
            idx == range_count ==> total_size(ranges@) == pixel_count,
            forall|i: int| 0 <= i < idx ==> (#[trigger] ranges@[i]).start == ppr_spec * i,
            forall|i: int|
                0 <= i < idx && i < range_count - 1 ==> (#[trigger] ranges@[i]).size == ppr_spec,
        decreases range_count - idx,
    {
        proof {
            lemma_partition_bounds(pixel_count as int, range_count as int, idx as int);
        }
        let start = pixels_per_range * idx;
        let outside_screen = if idx + 1 == range_count {
            pixels_per_range * range_count - pixel_count
        } else {
            0
        };
        let size = pixels_per_range - outside_screen;
        let ghost pre = ranges@;
        ranges.push(PixelRange { start, size });
        proof {
            assert(ranges@.drop_last() =~= pre);
            if idx + 1 == range_count {
                assert(total_size(ranges@) == pixel_count) by (nonlinear_arith)
                    requires
                        total_size(ranges@) == ppr_spec * (idx as int) + (ppr_spec - (ppr_spec * (
                        range_count as int) - pixel_count)),
                        idx + 1 == range_count,
                ;
            } else {
                assert(ppr_spec * (idx as int) + ppr_spec == ppr_spec * (idx + 1))
                    by (nonlinear_arith);
            }
        }
        idx += 1;
    }
    proof {
        assert forall|i: int| 0 < i < range_count implies (#[trigger] ranges@[i]).start == ranges@[
            i - 1
        ].start + ranges@[i - 1].size by {
            assert(ranges@[i].start == ppr_spec * i);
            assert(ranges@[i - 1].start == ppr_spec * (i - 1));
            assert(ranges@[i - 1].size == ppr_spec);
            assert(ppr_spec * i == ppr_spec * (i - 1) + ppr_spec) by (nonlinear_arith);
        }
    }
    ranges
}

/// The arithmetic used when emitting one partition range stays in
/// bounds.
proof fn lemma_partition_bounds(pixel_count: int, range_count: int, idx: int)
    by (nonlinear_arith)
    requires
        1 <= range_count <= 0x1000_0000,
        0 <= pixel_count <= 0x1000_0000,
        0 <= idx < range_count,
        per_range(pixel_count, range_count) * (range_count - 1) <= pixel_count,
    ensures
        0 <= per_range(pixel_count, range_count) * idx <= pixel_count + per_range(
            pixel_count,
            range_count,
        ),
        0 <= per_range(pixel_count, range_count) <= pixel_count + 1,
        idx + 1 == range_count ==> pixel_count <= per_range(pixel_count, range_count)
            * range_count <= pixel_count + per_range(pixel_count, range_count),
{
}

/// Relies on `num_cpus::get`: the number of logical processors of the
/// machine, always at least one.
#[verifier::external_body]
pub fn core_count() -> (r: usize)
    ensures
        r >= 1,
{
    num_cpus::get()
}

} // verus!
