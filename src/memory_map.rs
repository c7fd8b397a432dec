use crate::region::{empty_region, region_in_use, MemoryRegion};
use vstd::prelude::*;
use vstd::seq_lib::{lemma_multiset_commutative, to_multiset_insert};
use vstd::slice::slice_subrange;

verus! {

/// Number of slots of a memory map.
pub const MAP_CAPACITY: usize = 32;

/// The order of the slots: a region with an empty range comes after every
/// region with a non-empty one, and non-empty regions go by start address.
pub open spec fn region_le(a: MemoryRegion, b: MemoryRegion) -> bool {
    if a.range.is_empty() {
        b.range.is_empty()
    } else {
        b.range.is_empty() || a.range.start_frame <= b.range.start_frame
    }
}

/// The first `n` elements of `s` are in `region_le` order.
pub open spec fn sorted_prefix(s: Seq<MemoryRegion>, n: int) -> bool {
    forall|x: int, y: int| 0 <= x < y < n ==> region_le(#[trigger] s[x], #[trigger] s[y])
}

/// Every region of `s` has a non-empty range, and their starts ascend.
pub open spec fn sorted_by_start(s: Seq<MemoryRegion>) -> bool {
    &&& forall|i: int| 0 <= i < s.len() ==> !(#[trigger] s[i]).range.is_empty()
    &&& forall|i: int, j: int|
        0 <= i < j < s.len() ==> (#[trigger] s[i]).range.start_frame
            <= (#[trigger] s[j]).range.start_frame
}

fn region_le_exec(a: &MemoryRegion, b: &MemoryRegion) -> (r: bool)
    ensures
        r == region_le(*a, *b),
{
    if a.range.is_empty() {
        b.range.is_empty()
    } else {
        b.range.is_empty() || a.range.start_frame <= b.range.start_frame
    }
}

/// Moves the region at index `i` down into the sorted prefix `a[..i]`, by
/// swapping it with each neighbour that must come after it.
fn insert_sorted(a: &mut [MemoryRegion; MAP_CAPACITY], i: usize)
    requires
        i < MAP_CAPACITY,
        sorted_prefix(old(a)@, i as int),
    ensures
        exists|p: int|
            0 <= p <= i && final(a)@.take(i + 1) == old(a)@.take(i as int).insert(
                p,
                old(a)@[i as int],
            ),
        forall|k: int| i < k < MAP_CAPACITY ==> final(a)@[k] == old(a)@[k],
        sorted_prefix(final(a)@, i + 1),
        final(a)@.to_multiset() == old(a)@.to_multiset(),
        (i == 0 || region_le(old(a)@[i - 1], old(a)@[i as int])) ==> final(a)@ == old(a)@,
{
    let ghost orig = a@;
    let mut j: usize = i;
    while j > 0 && !region_le_exec(&a[j - 1], &a[j])
        invariant
            j <= i < MAP_CAPACITY,
            a@.len() == MAP_CAPACITY,
            orig.len() == MAP_CAPACITY,
            a@.take(i + 1) == orig.take(i as int).insert(j as int, orig[i as int]),
            forall|k: int| i < k < MAP_CAPACITY ==> a@[k] == orig[k],
            a@[j as int] == orig[i as int],
            forall|x: int, y: int|
                0 <= x < y <= i && x != j && y != j ==> region_le(
                    #[trigger] a@[x],
                    #[trigger] a@[y],
                ),
            forall|y: int| j < y <= i ==> region_le(a@[j as int], #[trigger] a@[y]),
            j == i ==> a@ == orig,
            j < i ==> !region_le(orig[i - 1], orig[i as int]),
        decreases j,
    {
        let ghost before = a@;
        let ghost t = orig.take(i as int);
        let ghost x = orig[i as int];
        let prev = a[j - 1];
        let cur = a[j];
        a[j - 1] = cur;
        a[j] = prev;
        j = j - 1;
        proof {
            let ins_old = t.insert(j + 1, x);
            let ins_new = t.insert(j as int, x);
            assert forall|k: int| 0 <= k <= i implies #[trigger] a@[k] == ins_new[k] by {
                assert(before[k] == before.take(i + 1)[k]);
                assert(ins_old[k] == (if k < j + 1 {
                    t[k]
                } else if k == j + 1 {
                    x
                } else {
                    t[k - 1]
                }));
                assert(ins_new[k] == (if k < j {
                    t[k]
                } else if k == j {
                    x
                } else {
                    t[k - 1]
                }));
                if k == j + 1 {
                    assert(before[j as int] == ins_old[j as int]);
                }
            }
            assert(a@.take(i + 1) =~= ins_new);
        }
    }
    proof {
        assert forall|x: int, y: int| 0 <= x < y <= i implies region_le(
            #[trigger] a@[x],
            #[trigger] a@[y],
        ) by {
            if y == j && x < j - 1 {
                assert(region_le(a@[x], a@[j - 1]));
            }
        }
        let t = orig.take(i as int);
        assert(orig.take(i + 1) =~= t.push(orig[i as int]));
        to_multiset_insert(t, j as int, orig[i as int]);
        assert(a@ =~= a@.take(i + 1) + a@.skip(i + 1));
        assert(orig =~= orig.take(i + 1) + orig.skip(i + 1));
        assert(a@.skip(i + 1) =~= orig.skip(i + 1));
        lemma_multiset_commutative(a@.take(i + 1), a@.skip(i + 1));
        lemma_multiset_commutative(orig.take(i + 1), orig.skip(i + 1));
        t.to_multiset_ensures();
        if i == 0 || region_le(orig[i - 1], orig[i as int]) {
            assert(a@ == orig);
        }
    }
}

/// A fixed-capacity map of physical memory: `MAP_CAPACITY` slots, of which
/// the first `count` hold regions in ascending order of start address and
/// the others hold the empty sentinel. Nothing in it is heap-allocated.
pub struct MemoryMap {
    entries: [MemoryRegion; MAP_CAPACITY],
    // u64 rather than usize, so that the layout is the same whatever the
    // word size of the program that reads it
    next_entry_index: u64,
}

impl View for MemoryMap {
    type V = Seq<MemoryRegion>;

    /// The regions in use, in order: the first `count` slots.
    open spec fn view(&self) -> Seq<MemoryRegion> {
        self.slots().take(self.count() as int)
    }
}

impl MemoryMap {
    /// All the slots, in use or not.
    pub closed spec fn slots(&self) -> Seq<MemoryRegion> {
        self.entries@
    }

    /// How many slots are in use.
    pub closed spec fn count(&self) -> nat {
        self.next_entry_index as nat
    }

    /// The map's invariant: the slots in use hold non-empty, frame-aligned
    /// regions of types other than `Empty`, in ascending order of start
    /// address, and every other slot holds the empty sentinel.
    pub open spec fn wf(&self) -> bool {
        &&& self.slots().len() == MAP_CAPACITY
        &&& self.count() <= MAP_CAPACITY
        &&& sorted_by_start(self@)
        &&& forall|i: int| 0 <= i < self@.len() ==> region_in_use(#[trigger] self@[i])
        &&& forall|i: int|
            self.count() <= i < MAP_CAPACITY ==> #[trigger] self.slots()[i] == empty_region()
    }

    proof fn lemma_wf_sorted_prefix(&self)
        requires
            self.wf(),
        ensures
            sorted_prefix(self.slots(), MAP_CAPACITY as int),
            self@.len() == self.count(),
    {
        assert forall|x: int, y: int| 0 <= x < y < MAP_CAPACITY implies region_le(
            #[trigger] self.slots()[x],
            #[trigger] self.slots()[y],
        ) by {
            if y < self.count() {
                assert(self@[x] == self.slots()[x] && self@[y] == self.slots()[y]);
            } else if x < self.count() {
                assert(self@[x] == self.slots()[x]);
            }
        }
    }

    /// A map with every slot empty.
    pub fn new() -> (m: MemoryMap)
        ensures
            m.wf(),
            m@ == Seq::<MemoryRegion>::empty(),
            m.slots() == Seq::new(MAP_CAPACITY as nat, |i: int| empty_region()),
    {
        let e = MemoryRegion::empty();
        let m = MemoryMap { entries: [e; MAP_CAPACITY], next_entry_index: 0 };
        assert(m@ =~= Seq::<MemoryRegion>::empty());
        assert(m.slots() =~= Seq::new(MAP_CAPACITY as nat, |i: int| empty_region()));
        m
    }

    fn next_entry_index(&self) -> (r: usize)
        requires
            self.count() <= MAP_CAPACITY,
        ensures
            r == self.count(),
    {
        self.next_entry_index as usize
    }

    /// Adds a region and keeps the regions in order. A full map is a fatal
    /// capacity failure, so the caller must rule it out: the map has a free
    /// slot while `regions().len() < MAP_CAPACITY`.
    pub fn add_region(&mut self, region: MemoryRegion)
        requires
            old(self).wf(),
            old(self).count() < MAP_CAPACITY,
            region_in_use(region),
        ensures
            final(self).wf(),
            final(self).count() == old(self).count() + 1,
            exists|p: int|
                0 <= p <= old(self)@.len() && final(self)@ == old(self)@.insert(p, region),
            final(self)@.to_multiset() == old(self)@.to_multiset().insert(region),
    {
        let c = self.next_entry_index();
        proof {
            self.lemma_wf_sorted_prefix();
        }
        let ghost before = self.entries@;
        self.entries[c] = region;
        assert(sorted_prefix(self.entries@, c as int));
        let ghost placed = self.entries@;
        insert_sorted(&mut self.entries, c);
        self.next_entry_index = c as u64 + 1;
        proof {
            let p = choose|p: int|
                0 <= p <= c && self.entries@.take(c + 1) == placed.take(c as int).insert(
                    p,
                    placed[c as int],
                );
            assert(placed.take(c as int) =~= old(self)@);
            assert(self@ == old(self)@.insert(p, region));
            to_multiset_insert(old(self)@, p, region);
            assert forall|i: int| 0 <= i < self@.len() implies region_in_use(#[trigger] self@[i]) by {
                if i != p {
                    if i < p {
                        assert(self@[i] == old(self)@[i]);
                    } else {
                        assert(self@[i] == old(self)@[i - 1]);
                    }
                }
            }
            assert forall|i: int, j: int| 0 <= i < j < self@.len() implies (
            #[trigger] self@[i]).range.start_frame <= (#[trigger] self@[j]).range.start_frame by {
                assert(self@[i] == self.entries@[i] && self@[j] == self.entries@[j]);
                assert(region_le(self.entries@[i], self.entries@[j]));
            }
            assert forall|i: int| self.count() <= i < MAP_CAPACITY implies #[trigger] self.slots()[i]
                == empty_region() by {
                assert(placed[i] == before[i]);
            }
        }
    }

    /// Sorts all the slots into `region_le` order, then sets the count to
    /// the index of the first slot with an empty range, if there is one.
    /// On a map that keeps its invariant this changes nothing.
    pub fn sort(&mut self)
        ensures
            final(self).slots().to_multiset() == old(self).slots().to_multiset(),
            sorted_prefix(final(self).slots(), MAP_CAPACITY as int),
            (exists|i: int| 0 <= i < MAP_CAPACITY && (#[trigger] final(self).slots()[i]).range.is_empty())
                ==> {
                &&& final(self).count() < MAP_CAPACITY
                &&& final(self).slots()[final(self).count() as int].range.is_empty()
                &&& forall|i: int|
                    0 <= i < final(self).count() ==> !(#[trigger] final(self).slots()[i]).range.is_empty()
            },
            !(exists|i: int| 0 <= i < MAP_CAPACITY && (#[trigger] final(self).slots()[i]).range.is_empty())
                ==> final(self).count() == old(self).count(),
            old(self).wf() ==> *final(self) == *old(self),
    {
        let ghost orig = self.entries@;
        proof {
            if old(self).wf() {
                old(self).lemma_wf_sorted_prefix();
            }
        }
        let mut i: usize = 1;
        while i < MAP_CAPACITY
            invariant
                1 <= i <= MAP_CAPACITY,
                self.entries@.len() == MAP_CAPACITY,
                sorted_prefix(self.entries@, i as int),
                self.entries@.to_multiset() == orig.to_multiset(),
                self.next_entry_index == old(self).next_entry_index,
                old(self).wf() ==> self.entries@ == orig,
                orig == old(self).slots(),
                old(self).wf() ==> sorted_prefix(orig, MAP_CAPACITY as int),
            decreases MAP_CAPACITY - i,
        {
            insert_sorted(&mut self.entries, i);
            i = i + 1;
        }
        let mut k: usize = 0;
        while k < MAP_CAPACITY && !self.entries[k].range.is_empty()
            invariant
                k <= MAP_CAPACITY,
                self.entries@.len() == MAP_CAPACITY,
                forall|x: int| 0 <= x < k ==> !(#[trigger] self.entries@[x]).range.is_empty(),
            decreases MAP_CAPACITY - k,
        {
            k = k + 1;
        }
        if k < MAP_CAPACITY {
            self.next_entry_index = k as u64;
        }
        proof {
            if old(self).wf() {
                assert(self.entries@ == orig);
                if old(self).count() < MAP_CAPACITY {
                    assert(orig[old(self).count() as int] == empty_region());
                    assert forall|x: int| 0 <= x < old(self).count() implies !(#[trigger] orig[x]).range.is_empty() by {
                        assert(old(self)@[x] == orig[x]);
                    }
                    assert(k == old(self).count());
                } else {
                    assert forall|x: int| 0 <= x < MAP_CAPACITY implies !(#[trigger] orig[x]).range.is_empty() by {
                        assert(old(self)@[x] == orig[x]);
                    }
                    assert(k == MAP_CAPACITY);
                }
                assert(self.entries =~= old(self).entries);
            }
        }
    }

    /// Every slot past the regions in use holds the empty sentinel: after
    /// `k` regions were added to a new map, slots `k` to the end are
    /// sentinels.
    pub proof fn lemma_unused_slots_are_sentinels(&self)
        requires
            self.wf(),
        ensures
            self@.len() == self.count(),
            forall|i: int| self@.len() <= i < MAP_CAPACITY ==> #[trigger] self.slots()[i] == empty_region(),
    {
    }

    /// Regions added one by one to a new map, each by a successful
    /// `add_region` (which takes `maps[k]` to `maps[k + 1]` with `rs[k]`),
    /// leave a map whose regions are exactly those added, in ascending
    /// order of start address, with only sentinels in the other slots.
    pub proof fn lemma_added_regions_all_present(maps: Seq<MemoryMap>, rs: Seq<MemoryRegion>)
        requires
            maps.len() == rs.len() + 1,
            maps[0]@.len() == 0,
            forall|k: int| 0 <= k < maps.len() ==> (#[trigger] maps[k]).wf(),
            forall|k: int|
                0 <= k < rs.len() ==> (#[trigger] maps[k + 1])@.to_multiset() == maps[k]@.to_multiset().insert(
                    rs[k],
                ),
        ensures
            maps.last()@.to_multiset() == rs.to_multiset(),
            sorted_by_start(maps.last()@),
            forall|i: int| 0 <= i < rs.len() ==> region_in_use(#[trigger] maps.last()@[i]),
            maps.last()@.len() == rs.len(),
            forall|i: int|
                rs.len() <= i < MAP_CAPACITY ==> #[trigger] maps.last().slots()[i] == empty_region(),
        decreases rs.len(),
    {
        maps.last()@.to_multiset_ensures();
        if rs.len() == 0 {
            assert(maps[0]@ =~= Seq::<MemoryRegion>::empty());
            assert(rs =~= Seq::<MemoryRegion>::empty());
        } else {
            let n = rs.len() - 1;
            let pm = maps.drop_last();
            let pr = rs.drop_last();
            assert forall|k: int| 0 <= k < pr.len() implies (#[trigger] pm[k + 1])@.to_multiset()
                == pm[k]@.to_multiset().insert(pr[k]) by {
                assert(pm[k + 1] == maps[k + 1] && pm[k] == maps[k]);
            }
            assert forall|k: int| 0 <= k < pm.len() implies (#[trigger] pm[k]).wf() by {
                assert(pm[k] == maps[k]);
            }
            Self::lemma_added_regions_all_present(pm, pr);
            assert(maps[n + 1]@.to_multiset() == maps[n]@.to_multiset().insert(rs[n]));
            assert(rs =~= pr.push(rs[n]));
            pr.to_multiset_ensures();
            maps[n]@.to_multiset_ensures();
            assert(maps.last()@.len() == maps[n]@.len() + 1);
        }
    }

    /// The regions in use, for the caller to change in place. Only they are
    /// handed out: the count and the unused slots stay as they were. A
    /// change may break the order or the invariant; `sort` puts the slots
    /// back in order and recounts them.
    pub fn regions_mut(&mut self) -> (r: &mut [MemoryRegion])
        requires
            old(self).wf(),
        ensures
            r@ == old(self)@,
            final(self).count() == old(self).count(),
            final(self).slots() == final(r)@ + old(self).slots().skip(old(self).count() as int),
    {
        let n = self.next_entry_index();
        let all: &mut [MemoryRegion] = &mut self.entries;
        let (used, _unused) = all.split_at_mut(n);
        used
    }

    /// The regions in use, in order.
    pub fn regions(&self) -> (r: &[MemoryRegion])
        requires
            self.wf(),
        ensures
            r@ == self@,
    {
        let n = self.next_entry_index();
        slice_subrange(self.entries.as_slice(), 0, n)
    }
}

} // verus!
