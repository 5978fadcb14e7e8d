//! Processor topology records.
//!
//! The platform layer enumerates logical processors (with their core and
//! package identifiers) and pins threads; that is operating-system work.
//! The decision of which processors to keep when hyperthreads are
//! excluded — the first processor listed for each physical core — is
//! plain logic and lives here.

use vstd::prelude::*;

verus! {

/// One logical processor as the platform reports it.
#[derive(Clone, Copy, PartialEq, Eq, Structural, Debug)]
pub struct Processor {
    /// Logical processor identifier.
    pub id: u32,
    /// Physical core the processor belongs to.
    pub core_id: u32,
    /// Physical package the core belongs to.
    pub physical_id: u32,
}

/// Sentinel for a core or package identifier not seen yet while a
/// processor's record is being assembled.
pub const UNSET_ID: u32 = 0xFFFF_FFFF;

/// One fact about a processor, as the platform's topology listing
/// reports them: a new processor starts, or the current one's core or
/// package becomes known.
#[derive(Clone, Copy, PartialEq, Eq, Structural, Debug)]
pub enum TopologyEntry {
    /// A new logical processor with this identifier.
    ProcessorId(u32),
    /// The current processor's physical core.
    CoreId(u32),
    /// The current processor's physical package.
    PhysicalId(u32),
}

/// Folds one topology fact into the records assembled so far, or
/// reports the listing malformed: processor identifiers must strictly
/// increase, each core or package identifier must land on an open
/// record and may be given only once.
pub open spec fn apply_entry(ps: Seq<Processor>, e: TopologyEntry) -> Option<Seq<Processor>> {
    match e {
        TopologyEntry::ProcessorId(id) => if id == UNSET_ID || (ps.len() > 0 && ps.last().id
            >= id) {
            None
        } else {
            Some(ps.push(Processor { id, core_id: UNSET_ID, physical_id: UNSET_ID }))
        },
        TopologyEntry::CoreId(c) => if ps.len() == 0 || ps.last().core_id != UNSET_ID || c
            == UNSET_ID {
            None
        } else {
            Some(
                ps.update(
                    ps.len() - 1,
                    Processor {
                        id: ps.last().id,
                        core_id: c,
                        physical_id: ps.last().physical_id,
                    },
                ),
            )
        },
        TopologyEntry::PhysicalId(p) => if ps.len() == 0 || ps.last().physical_id != UNSET_ID || p
            == UNSET_ID {
            None
        } else {
            Some(
                ps.update(
                    ps.len() - 1,
                    Processor { id: ps.last().id, core_id: ps.last().core_id, physical_id: p },
                ),
            )
        },
    }
}

/// The processor records a topology listing assembles to, if the
/// listing is well-formed.
pub open spec fn assemble(entries: Seq<TopologyEntry>) -> Option<Seq<Processor>>
    decreases entries.len(),
{
    if entries.len() == 0 {
        Some(Seq::empty())
    } else {
        match assemble(entries.drop_last()) {
            Some(ps) => apply_entry(ps, entries.last()),
            None => None,
        }
    }
}

/// Every record names its core and package.
pub open spec fn all_complete(ps: Seq<Processor>) -> bool {
    forall|i: int|
        0 <= i < ps.len() ==> (#[trigger] ps[i]).core_id != UNSET_ID && ps[i].physical_id
            != UNSET_ID
}

/// A malformed prefix never assembles to a listing.
proof fn lemma_assemble_stuck(entries: Seq<TopologyEntry>, i: int)
    requires
        0 <= i <= entries.len(),
        assemble(entries.take(i)) is None,
    ensures
        assemble(entries) is None,
    decreases entries.len() - i,
{
    if i < entries.len() {
        assert(entries.take(i + 1).drop_last() =~= entries.take(i));
        lemma_assemble_stuck(entries, i + 1);
    } else {
        assert(entries.take(i) =~= entries);
    }
}

/// Assembles a topology listing into processor records, exactly per
/// [`assemble`]: the records in listing order, each with its core and
/// package known, and exactly `expected_count` of them — or nothing if
/// the listing is malformed, incomplete, or of the wrong length.
pub fn assemble_processors(entries: &Vec<TopologyEntry>, expected_count: usize) -> (r: Option<
    Vec<Processor>,
>)
    ensures
        match r {
            Some(ps) => assemble(entries@) == Some(ps@) && all_complete(ps@) && ps@.len()
                == expected_count,
            None => assemble(entries@) is None || !all_complete(assemble(entries@)->Some_0)
                || assemble(entries@)->Some_0.len() != expected_count,
        },
{
    let n = entries.len();
    let mut ps: Vec<Processor> = Vec::new();
    let mut i: usize = 0;
    proof {
        assert(entries@.take(0) =~= Seq::<TopologyEntry>::empty());
    }
    while i < n
        invariant
            i <= n == entries@.len(),
            assemble(entries@.take(i as int)) == Some(ps@),
        decreases n - i,
    {
        proof {
            assert(entries@.take(i + 1).drop_last() =~= entries@.take(i as int));
            assert(entries@.take(i + 1).last() == entries@[i as int]);
        }
        let last = ps.len();
        match entries[i] {
            TopologyEntry::ProcessorId(id) => {
                if id == UNSET_ID || (last > 0 && ps[last - 1].id >= id) {
                    proof {
                        lemma_assemble_stuck(entries@, i + 1);
                    }
                    return None;
                }
                ps.push(Processor { id, core_id: UNSET_ID, physical_id: UNSET_ID });
            },
            TopologyEntry::CoreId(c) => {
                if last == 0 || ps[last - 1].core_id != UNSET_ID || c == UNSET_ID {
                    proof {
                        lemma_assemble_stuck(entries@, i + 1);
                    }
                    return None;
                }
                let p = ps[last - 1];
                ps.set(last - 1, Processor { id: p.id, core_id: c, physical_id: p.physical_id });
            },
            TopologyEntry::PhysicalId(phys) => {
                if last == 0 || ps[last - 1].physical_id != UNSET_ID || phys == UNSET_ID {
                    proof {
                        lemma_assemble_stuck(entries@, i + 1);
                    }
                    return None;
                }
                let p = ps[last - 1];
                ps.set(last - 1, Processor { id: p.id, core_id: p.core_id, physical_id: phys });
            },
        }
        i += 1;
    }
    proof {
        assert(entries@.take(n as int) =~= entries@);
    }
    if ps.len() != expected_count {
        return None;
    }
    let mut j: usize = 0;
    while j < ps.len()
        invariant
            j <= ps@.len(),
            assemble(entries@) == Some(ps@),
            ps@.len() == expected_count,
            forall|k: int|
                0 <= k < j ==> (#[trigger] ps@[k]).core_id != UNSET_ID && ps@[k].physical_id
                    != UNSET_ID,
        decreases ps@.len() - j,
    {
        if ps[j].core_id == UNSET_ID || ps[j].physical_id == UNSET_ID {
            return None;
        }
        j += 1;
    }
    Some(ps)
}

/// Some processor of the sequence belongs to core `c`.
pub open spec fn core_listed(s: Seq<Processor>, c: u32) -> bool {
    exists|k: int| 0 <= k < s.len() && (#[trigger] s[k]).core_id == c
}

/// The processors kept when only one logical processor per core is
/// wanted: scanning left to right, the first with each core identifier
/// not in `seen`.
pub open spec fn first_per_core(s: Seq<Processor>, seen: Set<u32>) -> Seq<Processor>
    decreases s.len(),
{
    if s.len() == 0 {
        Seq::empty()
    } else if seen.contains(s[0].core_id) {
        first_per_core(s.drop_first(), seen)
    } else {
        seq![s[0]] + first_per_core(s.drop_first(), seen.insert(s[0].core_id))
    }
}

/// Drops every logical processor that shares a physical core with an
/// earlier one, keeping the first per core.
pub fn remove_hyperthreads(processors: &mut Vec<Processor>)
    ensures
        final(processors)@ == first_per_core(old(processors)@, Set::empty()),
{
    let ghost input = processors@;
    let mut kept: Vec<Processor> = Vec::new();
    let ghost mut seen = Set::<u32>::empty();
    let n = processors.len();
    let mut i: usize = 0;
    proof {
        assert(input.skip(0) =~= input);
        assert(Seq::<Processor>::empty() + first_per_core(input, Set::<u32>::empty())
            =~= first_per_core(input, Set::<u32>::empty()));
    }
    while i < n
        invariant
            i <= n,
            n == input.len(),
            processors@ == input,
            forall|c: u32| #[trigger] seen.contains(c) == core_listed(kept@, c),
            first_per_core(input, Set::empty()) == kept@ + first_per_core(
                input.skip(i as int),
                seen,
            ),
        decreases n - i,
    {
        let p = processors[i];
        let mut present = false;
        let mut j: usize = 0;
        while j < kept.len()
            invariant
                j <= kept@.len(),
                present == exists|k: int|
                    0 <= k < j && (#[trigger] kept@[k]).core_id == p.core_id,
            decreases kept@.len() - j,
        {
            if kept[j].core_id == p.core_id {
                present = true;
            }
            j += 1;
        }
        proof {
            let tail = input.skip(i as int);
            assert(tail[0] == input[i as int]);
            assert(tail.drop_first() =~= input.skip(i + 1));
            assert(present == core_listed(kept@, p.core_id));
            assert(present == seen.contains(p.core_id));
        }
        if !present {
            let ghost pre = kept@;
            let ghost pre_seen = seen;
            kept.push(p);
            proof {
                seen = seen.insert(p.core_id);
                assert forall|c: u32| #[trigger] seen.contains(c) == core_listed(kept@, c) by {
                    if c == p.core_id {
                        assert(kept@[pre.len() as int].core_id == c);
                        assert(core_listed(kept@, c));
                    } else {
                        if core_listed(pre, c) {
                            let k = choose|k: int|
                                0 <= k < pre.len() && (#[trigger] pre[k]).core_id == c;
                            assert(kept@[k].core_id == c);
                            assert(core_listed(kept@, c));
                        }
                        if core_listed(kept@, c) {
                            let k = choose|k: int|
                                0 <= k < kept@.len() && (#[trigger] kept@[k]).core_id == c;
                            if k < pre.len() {
                                assert(pre[k].core_id == c);
                                assert(core_listed(pre, c));
                            }
                        }
                    }
                }
                assert(kept@ + first_per_core(input.skip(i + 1), seen) =~= (pre + (seq![
                    input[i as int],
                ] + first_per_core(input.skip(i + 1), seen))));
            }
        }
        i += 1;
    }
    proof {
        assert(input.skip(n as int) =~= Seq::<Processor>::empty());
        assert(kept@ + Seq::<Processor>::empty() =~= kept@);
    }
    core::mem::swap(processors, &mut kept);
}

} // verus!
