use vstd::prelude::*;

use crate::handle::{Handle, Location};

verus! {

/// The largest number of slots a registry holds: every slot index fits in a `u32`.
pub const MAX_SLOTS: usize = 0xffff_ffff;

/// One slot of a registry. The slot is live iff its reference count is positive;
/// a live slot holds its resource state.
pub struct Slot<T> {
    pub version: u32,
    pub rc: u32,
    pub location: Location,
    pub value: Option<T>,
}

/// A slot table mapping handles to resource state, with reference counting and
/// deduplication by shared location.
///
/// A dead slot is kept as it is until `clear` makes it vacant; a vacant slot is
/// reused with a larger version, so that no handle of its earlier resource
/// becomes live again.
pub struct Registry<T> {
    slots: Vec<Slot<T>>,
    vacant: Vec<u32>,
}

/// The number of live slots in `s`.
pub open spec fn live_count<T>(s: Seq<Slot<T>>) -> nat
    decreases s.len(),
{
    if s.len() == 0 {
        0
    } else {
        live_count(s.drop_last()) + if s.last().rc > 0 {
            1nat
        } else {
            0nat
        }
    }
}

/// The number of dead slots in `s` that can still take a larger version.
pub open spec fn reusable_count<T>(s: Seq<Slot<T>>) -> nat
    decreases s.len(),
{
    if s.len() == 0 {
        0
    } else {
        reusable_count(s.drop_last()) + if s.last().rc == 0 && s.last().version < u32::MAX {
            1nat
        } else {
            0nat
        }
    }
}

/// `after` differs from `before` at most in slot `i`, which keeps its version,
/// location and has the count `rc`; while the count stays positive the slot
/// keeps its state too.
pub open spec fn count_set<T>(before: Seq<Slot<T>>, after: Seq<Slot<T>>, i: int, rc: u32) -> bool {
    &&& 0 <= i < before.len()
    &&& after.len() == before.len()
    &&& forall|j: int| 0 <= j < before.len() && j != i ==> after[j] == before[j]
    &&& after[i].rc == rc
    &&& after[i].version == before[i].version
    &&& after[i].location == before[i].location
    &&& rc > 0 ==> after[i].value == before[i].value
}

/// `h` names a slot that was dead in `before` and is live in `after` with count one,
/// a larger version than any earlier handle of that slot, and every other slot kept.
pub open spec fn allocated<T>(before: Seq<Slot<T>>, after: Seq<Slot<T>>, h: Handle) -> bool {
    &&& (h.index as int) <= before.len()
    &&& (h.index as int) < before.len() ==> before[h.index as int].rc == 0 && before[h.index as int].version < h.version
    &&& after.len() == if (h.index as int) < before.len() {
        before.len()
    } else {
        before.len() + 1
    }
    &&& forall|j: int| 0 <= j < before.len() && j != h.index ==> after[j] == before[j]
    &&& after[h.index as int].version == h.version
    &&& after[h.index as int].rc == 1
}

/// `after` differs from `before` at most in slot `i`, which keeps its version, count
/// and location and holds `value`.
pub open spec fn value_set<T>(before: Seq<Slot<T>>, after: Seq<Slot<T>>, i: int, value: T) -> bool {
    &&& 0 <= i < before.len()
    &&& after.len() == before.len()
    &&& forall|j: int| 0 <= j < before.len() && j != i ==> after[j] == before[j]
    &&& after[i].rc == before[i].rc
    &&& after[i].version == before[i].version
    &&& after[i].location == before[i].location
    &&& after[i].value == Some(value)
}

impl<T> View for Registry<T> {
    type V = Seq<Slot<T>>;

    closed spec fn view(&self) -> Seq<Slot<T>> {
        self.slots@
    }
}

impl<T> Registry<T> {
    pub open spec fn is_live(&self, h: Handle) -> bool {
        &&& (h.index as int) < self@.len()
        &&& self@[h.index as int].version == h.version
        &&& self@[h.index as int].rc > 0
    }

    /// The reference count of `h`: zero for a dead handle.
    pub open spec fn rc_of(&self, h: Handle) -> nat {
        if self.is_live(h) {
            self@[h.index as int].rc as nat
        } else {
            0
        }
    }

    pub open spec fn value_of(&self, h: Handle) -> T {
        self@[h.index as int].value.unwrap()
    }

    pub open spec fn location_of(&self, h: Handle) -> Location {
        self@[h.index as int].location
    }

    /// The handle of slot `i` as it stands.
    pub open spec fn handle_at(&self, i: int) -> Handle {
        Handle { index: i as u32, version: self@[i].version }
    }

    /// Slot `i` is live and deduplicates with `loc`.
    pub open spec fn holds_key(&self, i: int, loc: Location) -> bool {
        &&& 0 <= i < self@.len()
        &&& self@[i].rc > 0
        &&& Location::same_key(loc, self@[i].location)
    }

    /// The live handle that the shared location `loc` maps to, if any.
    pub open spec fn find(&self, loc: Location) -> Option<Handle> {
        if exists|i: int| self.holds_key(i, loc) {
            Some(self.handle_at(choose|i: int| self.holds_key(i, loc)))
        } else {
            None
        }
    }

    /// Location-to-handle lookup is injective among live slots.
    pub open spec fn keys_unique(&self) -> bool {
        forall|i: int, j: int|
            #![trigger self@[i], self@[j]]
            0 <= i < self@.len() && 0 <= j < self@.len() && self@[i].rc > 0 && self@[j].rc > 0
                && self@[i].location.key().is_some() && self@[i].location.key()
                == self@[j].location.key() ==> i == j
    }

    pub closed spec fn wf(&self) -> bool {
        &&& self.slots@.len() <= MAX_SLOTS
        &&& self.keys_unique()
        &&& forall|i: int|
            0 <= i < self.slots@.len() ==> (#[trigger] self.slots@[i].rc > 0
                ==> self.slots@[i].value.is_some())
        &&& forall|k: int|
            0 <= k < self.vacant@.len() ==> {
                let i = #[trigger] self.vacant@[k] as int;
                &&& i < self.slots@.len()
                &&& self.slots@[i].rc == 0
                &&& self.slots@[i].version < u32::MAX
            }
        &&& forall|k: int, l: int|
            0 <= k < l < self.vacant@.len() ==> #[trigger] self.vacant@[k] < #[trigger] self.vacant@[l]
    }

    /// What `create` does: see there.
    pub open spec fn created(before: Self, after: Self, location: Location, value: T, r: Option<Handle>) -> bool {
        &&& after.wf()
        &&& location.spec_is_shared() && r.is_some() ==> after.find(location) == r
        &&& match before.find(location) {
            Some(h) => if before.rc_of(h) < u32::MAX {
                &&& r == Some(h)
                &&& count_set(before@, after@, h.index as int, (before.rc_of(h) + 1) as u32)
            } else {
                r.is_none() && after == before
            },
            None => match r {
                Some(h) => {
                    &&& allocated(before@, after@, h)
                    &&& after@[h.index as int].location == location
                    &&& after@[h.index as int].value == Some(value)
                },
                None => before@.len() == MAX_SLOTS && after == before,
            },
        }
    }

    /// What `dec_rc` does: see there.
    pub open spec fn released(before: Self, after: Self, h: Handle, allow_delete: bool, r: Option<T>) -> bool {
        &&& after.wf()
        &&& !before.is_live(h) ==> r.is_none() && after == before
        &&& before.is_live(h) ==> count_set(before@, after@, h.index as int, (before.rc_of(h) - 1) as u32)
        &&& before.is_live(h) && before.rc_of(h) > 1 ==> r.is_none()
        &&& before.is_live(h) && before.rc_of(h) == 1 ==> r == if allow_delete {
            Some(before.value_of(h))
        } else {
            None
        }
    }

    /// A shared location held by live slot `i` finds that slot's handle.
    proof fn lemma_find_at(&self, loc: Location, i: int)
        requires
            self.keys_unique(),
            loc.spec_is_shared() ==> self.holds_key(i, loc),
        ensures
            loc.spec_is_shared() ==> self.find(loc) == Some(self.handle_at(i)),
    {
        if loc.spec_is_shared() {
            let c = choose|k: int| self.holds_key(k, loc);
            assert(self.holds_key(c, loc));
            assert(self@[c] == self@[c] && self@[i] == self@[i]);
        }
    }

    pub proof fn lemma_wf_keys_unique(&self)
        requires
            self.wf(),
        ensures
            self.keys_unique(),
            self@.len() <= MAX_SLOTS,
    {
    }

    pub fn new() -> (r: Registry<T>)
        ensures
            r.wf(),
            r@.len() == 0,
    {
        Registry { slots: Vec::new(), vacant: Vec::new() }
    }

    /// The live handle that a shared location maps to.
    pub fn lookup(&self, location: &Location) -> (r: Option<Handle>)
        requires
            self.wf(),
        ensures
            r == self.find(*location),
    {
        if !location.is_shared() {
            return None;
        }
        let mut i: usize = 0;
        while i < self.slots.len()
            invariant
                self.wf(),
                location.spec_is_shared(),
                0 <= i <= self.slots@.len(),
                forall|k: int| 0 <= k < i ==> !self.holds_key(k, *location),
            decreases self.slots@.len() - i,
        {
            if self.slots[i].rc > 0 && self.slots[i].location.same_as(location) {
                let h = Handle { index: i as u32, version: self.slots[i].version };
                proof {
                    assert(self.holds_key(i as int, *location));
                    let c = choose|k: int| self.holds_key(k, *location);
                    assert(self.holds_key(c, *location));
                    assert(self@[c] == self@[c] && self@[i as int] == self@[i as int]);
                    assert(c == i as int);
                }
                return Some(h);
            }
            i += 1;
        }
        None
    }

    pub fn is_alive(&self, h: Handle) -> (r: bool)
        requires
            self.wf(),
        ensures
            r == self.is_live(h),
    {
        let i = h.index as usize;
        i < self.slots.len() && self.slots[i].version == h.version && self.slots[i].rc > 0
    }

    /// The reference count of a handle: zero for a dead one.
    pub fn rc(&self, h: Handle) -> (r: u32)
        requires
            self.wf(),
        ensures
            r == self.rc_of(h),
    {
        let i = h.index as usize;
        if i < self.slots.len() && self.slots[i].version == h.version && self.slots[i].rc > 0 {
            self.slots[i].rc
        } else {
            0
        }
    }

    /// The state of a live handle.
    pub fn get(&self, h: Handle) -> (r: Option<&T>)
        requires
            self.wf(),
        ensures
            self.is_live(h) ==> r == Some(&self.value_of(h)),
            !self.is_live(h) ==> r.is_none(),
    {
        let i = h.index as usize;
        if i < self.slots.len() && self.slots[i].version == h.version && self.slots[i].rc > 0 {
            self.slots[i].value.as_ref()
        } else {
            None
        }
    }

    /// Creates a resource at `location` with `value` as its state.
    ///
    /// A shared location that maps to a live slot gives that slot's handle, one
    /// count more, and `value` is dropped. Otherwise a dead slot or a new one
    /// takes the resource with count one. It fails only when the table is full
    /// or the count would pass `u32::MAX`.
    pub fn create(&mut self, location: Location, value: T) -> (r: Option<Handle>)
        requires
            old(self).wf(),
        ensures
            Self::created(*old(self), *final(self), location, value, r),
    {
        let found = self.lookup(&location);
        match found {
            Some(h) => {
                let i = h.index as usize;
                if self.slots[i].rc == u32::MAX {
                    return None;
                }
                let rc = self.slots[i].rc + 1;
                self.slots[i].rc = rc;
                proof {
                    assert forall|k: int| 0 <= k < self.vacant@.len() implies
                        self.slots@[self.vacant@[k] as int].rc == 0 by {
                        assert(old(self).slots@[old(self).vacant@[k] as int].rc == 0);
                    }
                    self.lemma_find_at(location, i as int);
                }
                Some(h)
            },
            None => {
                let n = self.vacant.len();
                if n > 0 {
                    let i = self.vacant[n - 1];
                    proof {
                        assert(self.vacant@[n - 1] == i);
                    }
                    self.vacant.pop();
                    let iu = i as usize;
                    let version = self.slots[iu].version + 1;
                    let slot = Slot { version, rc: 1, location, value: Some(value) };
                    self.slots[iu] = slot;
                    proof {
                        assert forall|k: int| 0 <= k < self.vacant@.len() implies {
                            let j = #[trigger] self.vacant@[k] as int;
                            &&& j < self.slots@.len()
                            &&& self.slots@[j].rc == 0
                            &&& self.slots@[j].version < u32::MAX
                        } by {
                            assert(old(self).vacant@[k] == self.vacant@[k]);
                            assert(old(self).vacant@[k] < old(self).vacant@[n - 1]);
                        }
                        assert forall|a: int, b: int|
                            #![trigger self@[a], self@[b]]
                            0 <= a < self@.len() && 0 <= b < self@.len() && self@[a].rc > 0
                                && self@[b].rc > 0 && self@[a].location.key().is_some()
                                && self@[a].location.key() == self@[b].location.key() implies a == b by {
                            if a != b && (a == iu as int || b == iu as int) {
                                let o = if a == iu as int { b } else { a };
                                assert(old(self).holds_key(o, location));
                            } else if a != b {
                                assert(old(self)@[a] == self@[a] && old(self)@[b] == self@[b]);
                            }
                        }
                    }
                    proof {
                        self.lemma_find_at(location, iu as int);
                    }
                    Some(Handle { index: i, version })
                } else if self.slots.len() < MAX_SLOTS {
                    let i = self.slots.len();
                    let slot = Slot { version: 0, rc: 1, location, value: Some(value) };
                    self.slots.push(slot);
                    proof {
                        assert forall|k: int| 0 <= k < self.vacant@.len() implies {
                            let j = #[trigger] self.vacant@[k] as int;
                            &&& j < self.slots@.len()
                            &&& self.slots@[j].rc == 0
                            &&& self.slots@[j].version < u32::MAX
                        } by {
                            assert(old(self).slots@[old(self).vacant@[k] as int] == self.slots@[self.vacant@[k] as int]);
                        }
                        assert forall|a: int, b: int|
                            #![trigger self@[a], self@[b]]
                            0 <= a < self@.len() && 0 <= b < self@.len() && self@[a].rc > 0
                                && self@[b].rc > 0 && self@[a].location.key().is_some()
                                && self@[a].location.key() == self@[b].location.key() implies a == b by {
                            if a != b && (a == i as int || b == i as int) {
                                let o = if a == i as int { b } else { a };
                                assert(old(self).holds_key(o, location));
                            } else if a != b {
                                assert(old(self)@[a] == self@[a] && old(self)@[b] == self@[b]);
                            }
                        }
                    }
                    proof {
                        self.lemma_find_at(location, i as int);
                    }
                    Some(Handle { index: i as u32, version: 0 })
                } else {
                    None
                }
            },
        }
    }

    /// Adds one count to a live handle. Nothing changes for a dead handle, or
    /// where the count would pass `u32::MAX`; the result says whether it grew.
    pub fn inc_rc(&mut self, h: Handle) -> (r: bool)
        requires
            old(self).wf(),
        ensures
            final(self).wf(),
            r == (old(self).is_live(h) && old(self).rc_of(h) < u32::MAX),
            r ==> count_set(old(self)@, final(self)@, h.index as int, (old(self).rc_of(h) + 1) as u32),
            !r ==> *final(self) == *old(self),
    {
        let i = h.index as usize;
        if i < self.slots.len() && self.slots[i].version == h.version && self.slots[i].rc > 0
            && self.slots[i].rc < u32::MAX {
            let rc = self.slots[i].rc + 1;
            self.slots[i].rc = rc;
            proof {
                assert forall|k: int| 0 <= k < self.vacant@.len() implies
                    self.slots@[self.vacant@[k] as int].rc == 0 by {
                    assert(old(self).slots@[old(self).vacant@[k] as int].rc == 0);
                }
            }
            true
        } else {
            false
        }
    }

    /// Takes one count from a live handle. When the count reaches zero the slot
    /// dies; with `allow_delete` its state is handed back, the signal to tear
    /// the resource down, and without it nothing is handed back.
    pub fn dec_rc(&mut self, h: Handle, allow_delete: bool) -> (r: Option<T>)
        requires
            old(self).wf(),
        ensures
            Self::released(*old(self), *final(self), h, allow_delete, r),
    {
        let i = h.index as usize;
        if i < self.slots.len() && self.slots[i].version == h.version && self.slots[i].rc > 0 {
            let rc = self.slots[i].rc - 1;
            self.slots[i].rc = rc;
            let r = if rc == 0 && allow_delete {
                self.slots[i].value.take()
            } else {
                None
            };
            proof {
                assert forall|k: int| 0 <= k < self.vacant@.len() implies {
                    let j = #[trigger] self.vacant@[k] as int;
                    &&& j < self.slots@.len()
                    &&& self.slots@[j].rc == 0
                    &&& self.slots@[j].version < u32::MAX
                } by {
                    assert(old(self).slots@[old(self).vacant@[k] as int].rc == 0);
                }
                assert forall|a: int, b: int|
                    #![trigger self@[a], self@[b]]
                    0 <= a < self@.len() && 0 <= b < self@.len() && self@[a].rc > 0
                        && self@[b].rc > 0 && self@[a].location.key().is_some()
                        && self@[a].location.key() == self@[b].location.key() implies a == b by {
                    assert(old(self)@[a].location == self@[a].location);
                    assert(old(self)@[b].location == self@[b].location);
                }
            }
            r
        } else {
            None
        }
    }

    /// The number of live slots.
    pub fn len(&self) -> (r: usize)
        requires
            self.wf(),
        ensures
            r == live_count(self@),
            r <= self@.len(),
    {
        let mut n: usize = 0;
        let mut i: usize = 0;
        while i < self.slots.len()
            invariant
                self.wf(),
                0 <= i <= self.slots@.len(),
                n == live_count(self@.subrange(0, i as int)),
                n <= i,
            decreases self.slots@.len() - i,
        {
            proof {
                assert(self@.subrange(0, i as int + 1).drop_last() =~= self@.subrange(0, i as int));
            }
            if self.slots[i].rc > 0 {
                n += 1;
            }
            i += 1;
        }
        proof {
            assert(self@.subrange(0, i as int) =~= self@);
        }
        n
    }

    /// Makes every dead slot that can take a larger version vacant, ready for
    /// reuse, and returns how many slots are vacant. Live slots and handles do
    /// not change.
    pub fn clear(&mut self) -> (r: usize)
        requires
            old(self).wf(),
        ensures
            final(self).wf(),
            final(self)@ == old(self)@,
            r == reusable_count(old(self)@),
    {
        let mut vacant: Vec<u32> = Vec::new();
        let mut i: usize = 0;
        while i < self.slots.len()
            invariant
                self.wf(),
                0 <= i <= self.slots@.len(),
                vacant@.len() == reusable_count(self@.subrange(0, i as int)),
                vacant@.len() <= i,
                forall|k: int|
                    0 <= k < vacant@.len() ==> {
                        let j = #[trigger] vacant@[k] as int;
                        &&& j < i
                        &&& self.slots@[j].rc == 0
                        &&& self.slots@[j].version < u32::MAX
                    },
                forall|k: int, l: int|
                    0 <= k < l < vacant@.len() ==> #[trigger] vacant@[k] < #[trigger] vacant@[l],
            decreases self.slots@.len() - i,
        {
            proof {
                assert(self@.subrange(0, i as int + 1).drop_last() =~= self@.subrange(0, i as int));
            }
            if self.slots[i].rc == 0 && self.slots[i].version < u32::MAX {
                vacant.push(i as u32);
            }
            i += 1;
        }
        proof {
            assert(self@.subrange(0, i as int) =~= self@);
        }
        let r = vacant.len();
        self.vacant = vacant;
        r
    }

    /// Replaces the state of a live handle; the result says whether it was live.
    pub fn set_value(&mut self, h: Handle, value: T) -> (r: bool)
        requires
            old(self).wf(),
        ensures
            final(self).wf(),
            r == old(self).is_live(h),
            r ==> value_set(old(self)@, final(self)@, h.index as int, value),
            !r ==> *final(self) == *old(self),
    {
        let i = h.index as usize;
        if i < self.slots.len() && self.slots[i].version == h.version && self.slots[i].rc > 0 {
            self.slots[i].value = Some(value);
            proof {
                assert forall|k: int| 0 <= k < self.vacant@.len() implies
                    self.slots@[self.vacant@[k] as int].rc == 0 by {
                    assert(old(self).slots@[old(self).vacant@[k] as int].rc == 0);
                }
                assert forall|a: int, b: int|
                    #![trigger self@[a], self@[b]]
                    0 <= a < self@.len() && 0 <= b < self@.len() && self@[a].rc > 0
                        && self@[b].rc > 0 && self@[a].location.key().is_some()
                        && self@[a].location.key() == self@[b].location.key() implies a == b by {
                    assert(old(self)@[a].location == self@[a].location);
                    assert(old(self)@[b].location == self@[b].location);
                }
            }
            true
        } else {
            false
        }
    }
}

/// Creating twice at one shared location gives one resource: the first
/// creation maps the location to its handle, the second returns that handle,
/// and each adds exactly one count.
pub proof fn lemma_dedup<T>(
    r0: Registry<T>,
    r1: Registry<T>,
    r2: Registry<T>,
    location: Location,
    v1: T,
    v2: T,
    a: Option<Handle>,
    b: Option<Handle>,
)
    requires
        r0.wf(),
        location.spec_is_shared(),
        Registry::created(r0, r1, location, v1, a),
        Registry::created(r1, r2, location, v2, b),
        a.is_some(),
        b.is_some(),
    ensures
        r1.find(location) == a,
        b == a,
        r1.rc_of(a.unwrap()) == r0.rc_of(a.unwrap()) + 1,
        r2.rc_of(a.unwrap()) == r1.rc_of(a.unwrap()) + 1,
{
    let h = a.unwrap();
    match r0.find(location) {
        Some(g) => {
            assert(r0.rc_of(g) < u32::MAX);
            assert(r0.is_live(g)) by {
                let c = choose|i: int| r0.holds_key(i, location);
                assert(r0.holds_key(c, location));
            }
        },
        None => {},
    }
    assert(r1.is_live(h)) by {
        let c = choose|i: int| r1.holds_key(i, location);
        assert(r1.holds_key(c, location));
    }
}

/// Releasing a handle that has `n` counts `n` times: the first `n - 1`
/// releases hand back nothing and the handle stays live; the last one hands
/// back its state, the signal to tear the resource down, exactly once.
pub proof fn lemma_teardown<T>(regs: Seq<Registry<T>>, results: Seq<Option<T>>, h: Handle, n: nat)
    requires
        n >= 1,
        regs.len() == n + 1,
        results.len() == n,
        regs[0].wf(),
        regs[0].is_live(h),
        regs[0].rc_of(h) == n,
        forall|i: int| 0 <= i < n ==> Registry::released(regs[i], regs[i + 1], h, true, #[trigger] results[i]),
    ensures
        forall|i: int| 0 <= i < n - 1 ==> (#[trigger] results[i]).is_none() && regs[i + 1].is_live(h),
        results[n - 1].is_some(),
        !regs[n as int].is_live(h),
{
    assert forall|i: int| 0 <= i <= n implies #[trigger] regs[i].rc_of(h) == n - i && (i < n ==> regs[i].is_live(h)) by {
        lemma_teardown_step(regs, results, h, n, i);
    }
    assert(regs[n - 1].rc_of(h) == 1);
    assert(regs[n as int].rc_of(h) == 0);
    let last = results[n - 1];
    assert(Registry::released(regs[n - 1], regs[n - 1 + 1], h, true, last));
    assert forall|i: int| 0 <= i < n - 1 implies (#[trigger] results[i]).is_none() && regs[i + 1].is_live(h) by {
        assert(Registry::released(regs[i], regs[i + 1], h, true, results[i]));
        assert(regs[i].rc_of(h) == n - i);
        assert(regs[i + 1].rc_of(h) == n - (i + 1));
    }
}

proof fn lemma_teardown_step<T>(regs: Seq<Registry<T>>, results: Seq<Option<T>>, h: Handle, n: nat, i: int)
    requires
        regs.len() == n + 1,
        results.len() == n,
        regs[0].is_live(h),
        regs[0].rc_of(h) == n,
        forall|j: int| 0 <= j < n ==> Registry::released(regs[j], regs[j + 1], h, true, #[trigger] results[j]),
        0 <= i <= n,
    ensures
        regs[i].rc_of(h) == n - i,
        i < n ==> regs[i].is_live(h),
    decreases i,
{
    if i > 0 {
        lemma_teardown_step(regs, results, h, n, i - 1);
        let r = results[i - 1];
        assert(Registry::released(regs[i - 1], regs[i - 1 + 1], h, true, r));
    }
}

} // verus!
