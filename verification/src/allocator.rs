//! A byte-level heap allocator model with three primitives: allocate,
//! reallocate and free, each keyed on a `(size, alignment)` layout.
//!
//! The model hands out abstract region identifiers instead of addresses
//! and keeps books: which regions are live with which layout, and how
//! many bytes are outstanding. A failure schedule lets a caller stub the
//! allocator to refuse a chosen allocation call, so that failure paths
//! can be exercised. Releasing a region demands the exact layout it was
//! allocated with.

use vstd::prelude::*;

verus! {

/// One live allocation: its identifier and the layout it was made with.
struct Region {
    id: usize,
    size: usize,
    align: usize,
}

/// The live regions of `s`, as a map from region identifier to the
/// `(size, alignment)` layout the region was allocated with.
spec fn region_map(s: Seq<Region>) -> Map<usize, (usize, usize)>
    decreases s.len(),
{
    if s.len() == 0 {
        Map::empty()
    } else {
        region_map(s.drop_last()).insert(s.last().id, (s.last().size, s.last().align))
    }
}

/// The bytes held by the regions of `s`, in sum.
spec fn total_bytes(s: Seq<Region>) -> int
    decreases s.len(),
{
    if s.len() == 0 {
        0
    } else {
        total_bytes(s.drop_last()) + s.last().size
    }
}

/// No two regions of `s` share an identifier.
spec fn unique_ids(s: Seq<Region>) -> bool {
    forall|i: int, j: int| 0 <= i < j < s.len() ==> s[i].id != s[j].id
}

proof fn lemma_region_map_dom(s: Seq<Region>)
    ensures
        forall|id: usize|
            #[trigger] region_map(s).dom().contains(id) <==> exists|i: int|
                0 <= i < s.len() && s[i].id == id,
    decreases s.len(),
{
    if s.len() > 0 {
        lemma_region_map_dom(s.drop_last());
        assert forall|id: usize| #[trigger] region_map(s).dom().contains(id) implies exists|i: int|
            0 <= i < s.len() && s[i].id == id by {
            if id == s.last().id {
                assert(s[s.len() - 1].id == id);
            } else {
                assert(region_map(s.drop_last()).dom().contains(id));
                let i = choose|i: int| 0 <= i < s.drop_last().len() && s.drop_last()[i].id == id;
                assert(s.drop_last()[i] == s[i]);
                assert(s[i].id == id);
            }
        }
        assert forall|id: usize|
            (exists|i: int| 0 <= i < s.len() && s[i].id == id) implies #[trigger] region_map(
            s,
        ).dom().contains(id) by {
            let i = choose|i: int| 0 <= i < s.len() && s[i].id == id;
            if i < s.len() - 1 {
                assert(s.drop_last()[i] == s[i]);
                assert(s.drop_last()[i].id == id);
                assert(region_map(s.drop_last()).dom().contains(id));
            } else {
                assert(id == s.last().id);
            }
        }
    }
}

proof fn lemma_region_map_at(s: Seq<Region>, i: int)
    requires
        unique_ids(s),
        0 <= i < s.len(),
    ensures
        region_map(s).contains_pair(s[i].id, (s[i].size, s[i].align)),
    decreases s.len(),
{
    if i == s.len() - 1 {
    } else {
        assert(s.drop_last()[i] == s[i]);
        lemma_region_map_at(s.drop_last(), i);
        assert(s[i].id != s.last().id);
    }
}

proof fn lemma_region_map_push(s: Seq<Region>, r: Region)
    ensures
        region_map(s.push(r)) == region_map(s).insert(r.id, (r.size, r.align)),
        total_bytes(s.push(r)) == total_bytes(s) + r.size,
{
    assert(s.push(r).drop_last() =~= s);
    assert(s.push(r).last() == r);
}

proof fn lemma_region_map_remove(s: Seq<Region>, i: int)
    requires
        unique_ids(s),
        0 <= i < s.len(),
    ensures
        region_map(s.remove(i)) == region_map(s).remove(s[i].id),
        total_bytes(s.remove(i)) == total_bytes(s) - s[i].size,
        unique_ids(s.remove(i)),
    decreases s.len(),
{
    assert forall|x: int, y: int| 0 <= x < y < s.remove(i).len() implies s.remove(i)[x].id
        != s.remove(i)[y].id by {
        assert(s.remove(i)[x] == (if x < i {
            s[x]
        } else {
            s[x + 1]
        }));
        assert(s.remove(i)[y] == (if y < i {
            s[y]
        } else {
            s[y + 1]
        }));
    }
    if i == s.len() - 1 {
        assert(s.remove(i) =~= s.drop_last());
        lemma_region_map_dom(s.drop_last());
        assert(forall|j: int| 0 <= j < s.drop_last().len() ==> s.drop_last()[j].id != s[i].id);
        assert(!region_map(s.drop_last()).dom().contains(s[i].id));
        assert(region_map(s).remove(s[i].id) =~= region_map(s.drop_last()));
    } else {
        let t = s.remove(i);
        assert(t.drop_last() =~= s.drop_last().remove(i));
        assert(t.last() == s.last());
        assert(forall|j: int| 0 <= j < s.drop_last().len() ==> s.drop_last()[j] == s[j]);
        lemma_region_map_remove(s.drop_last(), i);
        assert(s[i].id != s.last().id);
        assert(region_map(t) == region_map(s.drop_last()).remove(s[i].id).insert(
            s.last().id,
            (s.last().size, s.last().align),
        ));
        assert(region_map(s.drop_last()).remove(s[i].id).insert(
            s.last().id,
            (s.last().size, s.last().align),
        ) =~= region_map(s).remove(s[i].id));
    }
}

proof fn lemma_total_bytes_nonneg(s: Seq<Region>)
    ensures
        total_bytes(s) >= 0,
    decreases s.len(),
{
    if s.len() > 0 {
        lemma_total_bytes_nonneg(s.drop_last());
    }
}

proof fn lemma_region_bytes_bound(s: Seq<Region>, i: int)
    requires
        unique_ids(s),
        0 <= i < s.len(),
    ensures
        s[i].size <= total_bytes(s),
{
    lemma_region_map_remove(s, i);
    lemma_total_bytes_nonneg(s.remove(i));
}

/// The books balance: once every allocation has been met by its release,
/// no bytes are outstanding. With [`ByteAllocator::free`] demanding the
/// exact layout of the matching allocation, each allocation is balanced
/// by exactly one release of the same `(size, alignment)`.
pub proof fn lemma_books_balance(a: ByteAllocator)
    requires
        a.wf(),
        a.live() == Map::<usize, (usize, usize)>::empty(),
    ensures
        a.outstanding() == 0,
{
    lemma_region_map_dom(a.regions@);
    if a.regions@.len() > 0 {
        assert(region_map(a.regions@).dom().contains(a.regions@[0].id));
    }
}

/// What happens to a failure schedule when an allocation call is made:
/// the countdown ticks towards zero, and once it reaches zero it stays
/// there, refusing every further call until the schedule is cleared.
pub open spec fn countdown_after_call(c: Option<usize>) -> Option<usize> {
    match c {
        None => None,
        Some(k) => if k == 0 {
            Some(0usize)
        } else {
            Some((k - 1) as usize)
        },
    }
}

/// The byte-level allocator model.
pub struct ByteAllocator {
    regions: Vec<Region>,
    next_id: usize,
    outstanding: usize,
    fail_after: Option<usize>,
}

impl ByteAllocator {
    /// The live regions: a map from region identifier to the
    /// `(size, alignment)` layout the region was allocated with.
    pub closed spec fn live(self) -> Map<usize, (usize, usize)> {
        region_map(self.regions@)
    }

    /// How many bytes are outstanding: allocated and not yet released.
    pub closed spec fn outstanding(self) -> usize {
        self.outstanding
    }

    /// The failure schedule: `Some(k)` means the allocation call after
    /// `k` more calls is refused, and so is every later one until the
    /// schedule is cleared. `None` means no scheduled failure.
    pub closed spec fn fail_countdown(self) -> Option<usize> {
        self.fail_after
    }

    /// How many fresh region identifiers the model can still hand out.
    pub closed spec fn ids_left(self) -> nat {
        (usize::MAX - self.next_id) as nat
    }

    /// Whether the next allocation call is scheduled to be refused.
    pub open spec fn next_call_fails(self) -> bool {
        self.fail_countdown() == Some(0usize)
    }

    /// Whether an allocation of `size` bytes would succeed: no scheduled
    /// failure, the outstanding bytes stay within the platform size type,
    /// and a fresh identifier is available.
    pub open spec fn can_allocate(self, size: int) -> bool {
        &&& !self.next_call_fails()
        &&& self.outstanding() + size <= usize::MAX
        &&& self.ids_left() > 0
    }

    /// Whether a reallocation from `old_size` to `new_size` bytes would
    /// succeed.
    pub open spec fn can_reallocate(self, old_size: int, new_size: int) -> bool {
        &&& !self.next_call_fails()
        &&& self.outstanding() - old_size + new_size <= usize::MAX
        &&& self.ids_left() > 0
    }

    /// The books balance: region identifiers are unique and below the
    /// next fresh one, and the outstanding count is the sum of the live
    /// regions' sizes.
    pub closed spec fn wf(self) -> bool {
        &&& unique_ids(self.regions@)
        &&& total_bytes(self.regions@) == self.outstanding
        &&& forall|i: int| 0 <= i < self.regions@.len() ==> self.regions@[i].id < self.next_id
    }

    /// A fresh allocator: nothing live, nothing outstanding, no failure
    /// scheduled.
    pub fn new() -> (a: ByteAllocator)
        ensures
            a.wf(),
            a.live() == Map::<usize, (usize, usize)>::empty(),
            a.outstanding() == 0,
            a.fail_countdown() is None,
            a.ids_left() == usize::MAX,
    {
        ByteAllocator { regions: Vec::new(), next_id: 0, outstanding: 0, fail_after: None }
    }

    /// Schedules a failure: the next `calls` allocation calls proceed,
    /// and the one after them is refused, as is every later one until
    /// the schedule is cleared.
    pub fn fail_after_calls(&mut self, calls: usize)
        requires
            old(self).wf(),
        ensures
            final(self).wf(),
            final(self).fail_countdown() == Some(calls),
            final(self).live() == old(self).live(),
            final(self).outstanding() == old(self).outstanding(),
            final(self).ids_left() == old(self).ids_left(),
    {
        self.fail_after = Some(calls);
    }

    /// Clears the failure schedule: allocation calls succeed again.
    pub fn clear_failure(&mut self)
        requires
            old(self).wf(),
        ensures
            final(self).wf(),
            final(self).fail_countdown() is None,
            final(self).live() == old(self).live(),
            final(self).outstanding() == old(self).outstanding(),
            final(self).ids_left() == old(self).ids_left(),
    {
        self.fail_after = None;
    }

    /// How many bytes are outstanding: allocated and not yet released.
    pub fn outstanding_bytes(&self) -> (r: usize)
        ensures
            r == self.outstanding(),
    {
        self.outstanding
    }

    /// Ticks the failure schedule for one allocation call and reports
    /// whether that call must be refused.
    fn call_refused(&mut self) -> (refused: bool)
        ensures
            refused == old(self).next_call_fails(),
            final(self).fail_countdown() == countdown_after_call(old(self).fail_countdown()),
            final(self).regions == old(self).regions,
            final(self).next_id == old(self).next_id,
            final(self).outstanding == old(self).outstanding,
    {
        match self.fail_after {
            None => false,
            Some(k) => {
                if k == 0 {
                    true
                } else {
                    self.fail_after = Some(k - 1);
                    false
                }
            },
        }
    }

    /// Allocates `size` bytes at alignment `align` and returns the fresh
    /// region's identifier, or `None` when the call is refused or the
    /// request cannot be satisfied.
    pub fn allocate(&mut self, size: usize, align: usize) -> (r: Option<usize>)
        requires
            old(self).wf(),
        ensures
            final(self).wf(),
            final(self).fail_countdown() == countdown_after_call(old(self).fail_countdown()),
            r is Some <==> old(self).can_allocate(size as int),
            match r {
                Some(id) => {
                    &&& !old(self).live().dom().contains(id)
                    &&& final(self).live() == old(self).live().insert(id, (size, align))
                    &&& final(self).outstanding() == old(self).outstanding() + size
                    &&& final(self).ids_left() == old(self).ids_left() - 1
                },
                None => {
                    &&& final(self).live() == old(self).live()
                    &&& final(self).outstanding() == old(self).outstanding()
                    &&& final(self).ids_left() == old(self).ids_left()
                },
            },
    {
        let refused = self.call_refused();
        if refused {
            return None;
        }
        if self.next_id == usize::MAX {
            return None;
        }
        match self.outstanding.checked_add(size) {
            None => None,
            Some(new_outstanding) => {
                let id = self.next_id;
                proof {
                    lemma_region_map_dom(self.regions@);
                    lemma_region_map_push(self.regions@, Region { id, size, align });
                }
                self.next_id = self.next_id + 1;
                self.outstanding = new_outstanding;
                self.regions.push(Region { id, size, align });
                Some(id)
            },
        }
    }

    /// Finds the live region with identifier `id`.
    fn find_region(regions: &Vec<Region>, id: usize) -> (idx: usize)
        requires
            exists|i: int| 0 <= i < regions@.len() && regions@[i].id == id,
        ensures
            idx < regions@.len(),
            regions@[idx as int].id == id,
    {
        let mut i: usize = 0;
        while i < regions.len()
            invariant
                i <= regions@.len(),
                forall|j: int| 0 <= j < i ==> regions@[j].id != id,
                exists|j: int| 0 <= j < regions@.len() && regions@[j].id == id,
            decreases regions@.len() - i,
        {
            if regions[i].id == id {
                return i;
            }
            i = i + 1;
        }
        proof {
            assert(false);
        }
        0
    }

    /// Takes the region `(id, size, align)` off the books.
    fn retire(&mut self, id: usize, size: usize, align: usize)
        requires
            old(self).wf(),
            old(self).live().contains_pair(id, (size, align)),
        ensures
            final(self).wf(),
            final(self).live() == old(self).live().remove(id),
            old(self).outstanding() == final(self).outstanding() + size,
            final(self).fail_countdown() == old(self).fail_countdown(),
            final(self).next_id == old(self).next_id,
    {
        proof {
            lemma_region_map_dom(self.regions@);
        }
        let idx = Self::find_region(&self.regions, id);
        proof {
            lemma_region_map_at(self.regions@, idx as int);
            lemma_region_bytes_bound(self.regions@, idx as int);
            lemma_region_map_remove(self.regions@, idx as int);
        }
        let r = self.regions.remove(idx);
        self.outstanding = self.outstanding - r.size;
    }

    /// Releases the region `id`. The `(size, align)` layout must match
    /// what the region was allocated with; release never fails and does
    /// not count against the failure schedule.
    pub fn free(&mut self, id: usize, size: usize, align: usize)
        requires
            old(self).wf(),
            old(self).live().contains_pair(id, (size, align)),
        ensures
            final(self).wf(),
            final(self).live() == old(self).live().remove(id),
            old(self).outstanding() == final(self).outstanding() + size,
            final(self).fail_countdown() == old(self).fail_countdown(),
            final(self).ids_left() == old(self).ids_left(),
    {
        self.retire(id, size, align);
    }

    /// Reallocates region `id` from `old_size` to `new_size` bytes at the
    /// same alignment, keeping the first `min(old_size, new_size)` bytes.
    /// Returns the resized region's fresh identifier, or `None` when the
    /// call is refused or cannot be satisfied; then the old region is
    /// untouched and stays live.
    pub fn reallocate(&mut self, id: usize, old_size: usize, align: usize, new_size: usize) -> (r:
        Option<usize>)
        requires
            old(self).wf(),
            old(self).live().contains_pair(id, (old_size, align)),
        ensures
            final(self).wf(),
            final(self).fail_countdown() == countdown_after_call(old(self).fail_countdown()),
            r is Some <==> old(self).can_reallocate(old_size as int, new_size as int),
            match r {
                Some(new_id) => {
                    &&& !old(self).live().remove(id).dom().contains(new_id)
                    &&& final(self).live() == old(self).live().remove(id).insert(
                        new_id,
                        (new_size, align),
                    )
                    &&& final(self).outstanding() == old(self).outstanding() - old_size + new_size
                    &&& final(self).ids_left() == old(self).ids_left() - 1
                },
                None => {
                    &&& final(self).live() == old(self).live()
                    &&& final(self).outstanding() == old(self).outstanding()
                    &&& final(self).ids_left() == old(self).ids_left()
                },
            },
    {
        let refused = self.call_refused();
        if refused {
            return None;
        }
        if self.next_id == usize::MAX {
            return None;
        }
        proof {
            lemma_region_map_dom(self.regions@);
            let i = choose|i: int| 0 <= i < self.regions@.len() && self.regions@[i].id == id;
            lemma_region_map_at(self.regions@, i);
            lemma_region_bytes_bound(self.regions@, i);
        }
        let reduced = self.outstanding - old_size;
        match reduced.checked_add(new_size) {
            None => None,
            Some(new_outstanding) => {
                self.retire(id, old_size, align);
                let new_id = self.next_id;
                proof {
                    lemma_region_map_dom(self.regions@);
                    lemma_region_map_push(
                        self.regions@,
                        Region { id: new_id, size: new_size, align },
                    );
                }
                self.next_id = self.next_id + 1;
                self.outstanding = new_outstanding;
                self.regions.push(Region { id: new_id, size: new_size, align });
                Some(new_id)
            },
        }
    }
}

} // verus!
