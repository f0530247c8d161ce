//! Unified entity identification for the compiler.
//!
//! All semantic entities (functions, variables, types, modules) share a single
//! ID space with reserved ranges:
//! - `0-9999`: user-defined entities
//! - `10000-19999`: native functions
//! - `20000-29999`: native types and modules
//! - `30000-99999`: reserved
//! - `100000+`: synthetic entities
use vstd::prelude::*;

verus! {

/// First ID of the native function range.
pub const NATIVE_FUNC_START: u32 = 10000;

/// First ID of the native type/module range.
pub const NATIVE_TYPE_START: u32 = 20000;

/// First ID after the native type/module range (start of the reserved range).
pub const RESERVED_START: u32 = 30000;

/// First ID of the synthetic range.
pub const SYNTHETIC_START: u32 = 100000;

/// Unified identifier for all compiler entities.
#[derive(Debug, Clone, Copy, PartialEq, Eq, Structural, Hash, PartialOrd, Ord)]
pub struct EntityId(pub u32);

/// `id` lies in the user-defined range.
pub open spec fn in_user_range(id: u32) -> bool {
    id < NATIVE_FUNC_START
}

/// `id` lies in the native function range.
pub open spec fn in_native_func_range(id: u32) -> bool {
    NATIVE_FUNC_START <= id < NATIVE_TYPE_START
}

/// `id` lies in the native type/module range.
pub open spec fn in_native_type_range(id: u32) -> bool {
    NATIVE_TYPE_START <= id < RESERVED_START
}

/// `id` lies in the synthetic range.
pub open spec fn in_synthetic_range(id: u32) -> bool {
    SYNTHETIC_START <= id
}

/// `id` lies in the reserved range, which no generator hands out.
pub open spec fn in_reserved_range(id: u32) -> bool {
    RESERVED_START <= id < SYNTHETIC_START
}

impl EntityId {
    /// Create a new EntityId.
    pub fn new(id: u32) -> (r: Self)
        ensures
            r.0 == id,
    {
        EntityId(id)
    }

    /// Get the underlying ID value.
    pub fn as_u32(self) -> (r: u32)
        ensures
            r == self.0,
    {
        self.0
    }

    /// Check if this is a user-defined entity.
    pub fn is_user_defined(self) -> (b: bool)
        ensures
            b == in_user_range(self.0),
    {
        self.0 < NATIVE_FUNC_START
    }

    /// Check if this is a native function.
    pub fn is_native_function(self) -> (b: bool)
        ensures
            b == in_native_func_range(self.0),
    {
        self.0 >= NATIVE_FUNC_START && self.0 < NATIVE_TYPE_START
    }

    /// Check if this is a native type or module.
    pub fn is_native_type_or_module(self) -> (b: bool)
        ensures
            b == in_native_type_range(self.0),
    {
        self.0 >= NATIVE_TYPE_START && self.0 < RESERVED_START
    }

    /// Check if this is a synthetic/temporary ID.
    pub fn is_synthetic(self) -> (b: bool)
        ensures
            b == in_synthetic_range(self.0),
    {
        self.0 >= SYNTHETIC_START
    }
}

/// Every ID lies in exactly one of the five ranges: user, native function,
/// native type/module, reserved, synthetic.
pub proof fn lemma_ranges_partition(id: u32)
    ensures
        in_user_range(id) || in_native_func_range(id) || in_native_type_range(id)
            || in_reserved_range(id) || in_synthetic_range(id),
        in_user_range(id) ==> !in_native_func_range(id) && !in_native_type_range(id)
            && !in_reserved_range(id) && !in_synthetic_range(id),
        in_native_func_range(id) ==> !in_native_type_range(id) && !in_reserved_range(id)
            && !in_synthetic_range(id),
        in_native_type_range(id) ==> !in_reserved_range(id) && !in_synthetic_range(id),
        in_reserved_range(id) ==> !in_synthetic_range(id),
{
}

/// `x` lies in the half-open interval `g`.
pub open spec fn in_gap(g: (u32, u32), x: u32) -> bool {
    g.0 <= x < g.1
}

/// `x` lies in one of the intervals.
pub open spec fn in_gaps(gaps: Seq<(u32, u32)>, x: u32) -> bool {
    exists|k: int| 0 <= k < gaps.len() && #[trigger] in_gap(gaps[k], x)
}

/// Generator for EntityIds, with one counter per range. IDs at or above a
/// range's counter have not been handed out; below it, those in a gap that
/// allocating a specific ID skipped have not either.
#[derive(Debug)]
pub struct EntityIdGenerator {
    next_user_id: u32,
    next_native_func_id: u32,
    next_native_type_id: u32,
    next_synthetic_id: u32,
    /// Skipped IDs that were never handed out, as disjoint half-open intervals.
    gaps: Vec<(u32, u32)>,
}

impl EntityIdGenerator {
    /// Each counter stays at or above the start of its own range and at most one
    /// past its end; gaps are disjoint and lie below the counter of their range;
    /// the ID just below a counter that has moved was handed out.
    #[verifier::type_invariant]
    spec fn counters_in_range(self) -> bool {
        &&& self.next_user_id <= NATIVE_FUNC_START
        &&& NATIVE_FUNC_START <= self.next_native_func_id <= NATIVE_TYPE_START
        &&& NATIVE_TYPE_START <= self.next_native_type_id <= RESERVED_START
        &&& SYNTHETIC_START <= self.next_synthetic_id
        &&& forall|k: int, x: u32|
            0 <= k < self.gaps@.len() && #[trigger] in_gap(self.gaps@[k], x) ==> !in_reserved_range(x)
                && x < self.counter_for(x)
        &&& forall|a: int, b: int, x: u32|
            0 <= a < self.gaps@.len() && 0 <= b < self.gaps@.len() && a != b && #[trigger] in_gap(
                self.gaps@[a],
                x,
            ) ==> !#[trigger] in_gap(self.gaps@[b], x)
        &&& self.next_user_id > 0 ==> !in_gaps(self.gaps@, (self.next_user_id - 1) as u32)
        &&& self.next_native_func_id > NATIVE_FUNC_START ==> !in_gaps(
            self.gaps@,
            (self.next_native_func_id - 1) as u32,
        )
        &&& self.next_native_type_id > NATIVE_TYPE_START ==> !in_gaps(
            self.gaps@,
            (self.next_native_type_id - 1) as u32,
        )
        &&& self.next_synthetic_id > SYNTHETIC_START ==> !in_gaps(
            self.gaps@,
            (self.next_synthetic_id - 1) as u32,
        )
    }

    /// The counter of the range `x` lies in (the synthetic one for the
    /// reserved range).
    pub closed spec fn counter_for(self, x: u32) -> u32 {
        if in_user_range(x) {
            self.next_user_id
        } else if in_native_func_range(x) {
            self.next_native_func_id
        } else if in_native_type_range(x) {
            self.next_native_type_id
        } else {
            self.next_synthetic_id
        }
    }

    /// `x` has been handed out: by a `next_*` call or by `allocate_specific`.
    pub closed spec fn is_issued(self, x: u32) -> bool {
        !in_reserved_range(x) && x < self.counter_for(x) && !in_gaps(self.gaps@, x)
    }

    /// The next user ID this generator hands out.
    pub closed spec fn user_counter(self) -> u32 {
        self.next_user_id
    }

    /// The next native function ID this generator hands out.
    pub closed spec fn native_func_counter(self) -> u32 {
        self.next_native_func_id
    }

    /// The next native type/module ID this generator hands out.
    pub closed spec fn native_type_counter(self) -> u32 {
        self.next_native_type_id
    }

    /// The next synthetic ID this generator hands out.
    pub closed spec fn synthetic_counter(self) -> u32 {
        self.next_synthetic_id
    }

    /// Create a new ID generator with every counter at the start of its range.
    pub fn new() -> (g: Self)
        ensures
            g.user_counter() == 0,
            g.native_func_counter() == NATIVE_FUNC_START,
            g.native_type_counter() == NATIVE_TYPE_START,
            g.synthetic_counter() == SYNTHETIC_START,
            forall|x: u32| !g.is_issued(x),
    {
        EntityIdGenerator {
            next_user_id: 0,
            next_native_func_id: NATIVE_FUNC_START,
            next_native_type_id: NATIVE_TYPE_START,
            next_synthetic_id: SYNTHETIC_START,
            gaps: Vec::new(),
        }
    }

    /// Generate the next ID for a user-defined entity.
    /// The user range must not be exhausted.
    pub fn next_user(&mut self) -> (id: EntityId)
        requires
            old(self).user_counter() < NATIVE_FUNC_START,
        ensures
            id.0 == old(self).user_counter(),
            !old(self).is_issued(id.0),
            forall|x: u32| #[trigger] final(self).is_issued(x) == (old(self).is_issued(x) || x == id.0),
            in_user_range(id.0),
            final(self).user_counter() == old(self).user_counter() + 1,
            final(self).native_func_counter() == old(self).native_func_counter(),
            final(self).native_type_counter() == old(self).native_type_counter(),
            final(self).synthetic_counter() == old(self).synthetic_counter(),
    {
        proof {
            use_type_invariant(&*self);
        }
        let id = self.next_user_id;
        self.next_user_id = id + 1;
        EntityId(id)
    }

    /// Generate the next ID for a native function.
    /// The native function range must not be exhausted.
    pub fn next_native_func(&mut self) -> (id: EntityId)
        requires
            old(self).native_func_counter() < NATIVE_TYPE_START,
        ensures
            id.0 == old(self).native_func_counter(),
            !old(self).is_issued(id.0),
            forall|x: u32| #[trigger] final(self).is_issued(x) == (old(self).is_issued(x) || x == id.0),
            in_native_func_range(id.0),
            final(self).native_func_counter() == old(self).native_func_counter() + 1,
            final(self).user_counter() == old(self).user_counter(),
            final(self).native_type_counter() == old(self).native_type_counter(),
            final(self).synthetic_counter() == old(self).synthetic_counter(),
    {
        proof {
            use_type_invariant(&*self);
        }
        let id = self.next_native_func_id;
        self.next_native_func_id = id + 1;
        EntityId(id)
    }

    /// Generate the next ID for a native type or module.
    /// The native type range must not be exhausted.
    pub fn next_native_type(&mut self) -> (id: EntityId)
        requires
            old(self).native_type_counter() < RESERVED_START,
        ensures
            id.0 == old(self).native_type_counter(),
            !old(self).is_issued(id.0),
            forall|x: u32| #[trigger] final(self).is_issued(x) == (old(self).is_issued(x) || x == id.0),
            in_native_type_range(id.0),
            final(self).native_type_counter() == old(self).native_type_counter() + 1,
            final(self).user_counter() == old(self).user_counter(),
            final(self).native_func_counter() == old(self).native_func_counter(),
            final(self).synthetic_counter() == old(self).synthetic_counter(),
    {
        proof {
            use_type_invariant(&*self);
        }
        let id = self.next_native_type_id;
        self.next_native_type_id = id + 1;
        EntityId(id)
    }

    /// Generate the next ID for a synthetic/temporary entity.
    /// The counter must not have reached the largest `u32`.
    pub fn next_synthetic(&mut self) -> (id: EntityId)
        requires
            old(self).synthetic_counter() < u32::MAX,
        ensures
            id.0 == old(self).synthetic_counter(),
            !old(self).is_issued(id.0),
            forall|x: u32| #[trigger] final(self).is_issued(x) == (old(self).is_issued(x) || x == id.0),
            in_synthetic_range(id.0),
            final(self).synthetic_counter() == old(self).synthetic_counter() + 1,
            final(self).user_counter() == old(self).user_counter(),
            final(self).native_func_counter() == old(self).native_func_counter(),
            final(self).native_type_counter() == old(self).native_type_counter(),
    {
        proof {
            use_type_invariant(&*self);
        }
        let id = self.next_synthetic_id;
        self.next_synthetic_id = id + 1;
        EntityId(id)
    }

    /// Allocate a specific ID that has not been handed out yet. The ID must not
    /// lie in the reserved range. An ID that exceeds every ID handed out in its
    /// range, which is one at or above the range's counter, moves the counter
    /// past it, so the next ID of that range is one more; the IDs it skips
    /// stay free. Any other ID must be one of those skipped.
    pub fn allocate_specific(&mut self, id: EntityId) -> (r: EntityId)
        requires
            !in_reserved_range(id.0),
            !old(self).is_issued(id.0),
            id.0 < u32::MAX,
        ensures
            r == id,
            forall|x: u32| #[trigger] final(self).is_issued(x) == (old(self).is_issued(x) || x == id.0),
            final(self).user_counter() == (if in_user_range(id.0) && id.0 >= old(self).user_counter() {
                (id.0 + 1) as u32
            } else {
                old(self).user_counter()
            }),
            final(self).native_func_counter() == (if in_native_func_range(id.0) && id.0 >= old(
                self,
            ).native_func_counter() {
                (id.0 + 1) as u32
            } else {
                old(self).native_func_counter()
            }),
            final(self).native_type_counter() == (if in_native_type_range(id.0) && id.0 >= old(
                self,
            ).native_type_counter() {
                (id.0 + 1) as u32
            } else {
                old(self).native_type_counter()
            }),
            final(self).synthetic_counter() == (if in_synthetic_range(id.0) && id.0 >= old(
                self,
            ).synthetic_counter() {
                (id.0 + 1) as u32
            } else {
                old(self).synthetic_counter()
            }),
            in_user_range(id.0) ==> (id.0 >= old(self).user_counter() <==> forall|y: u32|
                in_user_range(y) && #[trigger] old(self).is_issued(y) ==> y < id.0),
            in_native_func_range(id.0) ==> (id.0 >= old(self).native_func_counter() <==> forall|y: u32|
                in_native_func_range(y) && #[trigger] old(self).is_issued(y) ==> y < id.0),
            in_native_type_range(id.0) ==> (id.0 >= old(self).native_type_counter() <==> forall|y: u32|
                in_native_type_range(y) && #[trigger] old(self).is_issued(y) ==> y < id.0),
            in_synthetic_range(id.0) ==> (id.0 >= old(self).synthetic_counter() <==> forall|y: u32|
                in_synthetic_range(y) && #[trigger] old(self).is_issued(y) ==> y < id.0),
    {
        proof {
            use_type_invariant(&*self);
            self.lemma_counter_exceeds_issued(id.0);
        }
        let v = id.as_u32();
        let c = if v < NATIVE_FUNC_START {
            self.next_user_id
        } else if v < NATIVE_TYPE_START {
            self.next_native_func_id
        } else if v < RESERVED_START {
            self.next_native_type_id
        } else {
            self.next_synthetic_id
        };
        assert(c == old(self).counter_for(v));
        if v >= c {
            if v < NATIVE_FUNC_START {
                self.next_user_id = v + 1;
            } else if v < NATIVE_TYPE_START {
                self.next_native_func_id = v + 1;
            } else if v < RESERVED_START {
                self.next_native_type_id = v + 1;
            } else {
                self.next_synthetic_id = v + 1;
            }
            if c < v {
                self.push_gap(c, v);
            }
            proof {
                assert forall|x: u32| #[trigger] self.is_issued(x) == (old(self).is_issued(x) || x == v) by {
                    if c < v {
                        assert(self.gaps@.last() == (c, v));
                        if in_gaps(self.gaps@, x) {
                            let k = choose|k: int| 0 <= k < self.gaps@.len() && #[trigger] in_gap(self.gaps@[k], x);
                            if k < self.gaps@.len() - 1 {
                                assert(self.gaps@[k] == old(self).gaps@[k]);
                            }
                        }
                        if in_gaps(old(self).gaps@, x) {
                            let k = choose|k: int| 0 <= k < old(self).gaps@.len() && #[trigger] in_gap(old(self).gaps@[k], x);
                            assert(self.gaps@[k] == old(self).gaps@[k]);
                        }
                        if c <= x < v {
                            assert(in_gap(self.gaps@[self.gaps@.len() - 1], x));
                        }
                    } else {
                        assert(self.gaps@ == old(self).gaps@);
                    }
                }
            }
        } else {
            let k = self.find_gap(v);
            self.split_gap(k, v);
        }
        id
    }

    /// Records the interval `[lo, hi)` of skipped IDs, which lie in one range
    /// at or above its old counter and below its counter now.
    fn push_gap(&mut self, lo: u32, hi: u32)
        requires
            lo < hi,
            !in_reserved_range(lo),
            !in_reserved_range((hi - 1) as u32),
            old(self).counter_for(lo) == old(self).counter_for((hi - 1) as u32),
            forall|x: u32| lo <= x < hi ==> old(self).counter_for(x) == old(self).counter_for(lo),
            old(self).counter_for(lo) >= hi,
            old(self).next_user_id > 0 ==> !(lo <= old(self).next_user_id - 1 < hi),
            old(self).next_native_func_id > NATIVE_FUNC_START ==> !(lo <= old(self).next_native_func_id - 1
                < hi),
            old(self).next_native_type_id > NATIVE_TYPE_START ==> !(lo <= old(self).next_native_type_id - 1
                < hi),
            old(self).next_synthetic_id > SYNTHETIC_START ==> !(lo <= old(self).next_synthetic_id - 1 < hi),
            forall|k: int, x: u32|
                0 <= k < old(self).gaps@.len() && #[trigger] in_gap(old(self).gaps@[k], x) ==> x < lo || x
                    >= hi,
        ensures
            final(self).gaps@ == old(self).gaps@.push((lo, hi)),
            final(self).next_user_id == old(self).next_user_id,
            final(self).next_native_func_id == old(self).next_native_func_id,
            final(self).next_native_type_id == old(self).next_native_type_id,
            final(self).next_synthetic_id == old(self).next_synthetic_id,
    {
        proof {
            use_type_invariant(&*self);
        }
        let ghost before = self.gaps@;
        let mut gaps: Vec<(u32, u32)> = Vec::new();
        std::mem::swap(&mut gaps, &mut self.gaps);
        gaps.push((lo, hi));
        proof {
            assert forall|k: int, x: u32|
                0 <= k < gaps@.len() && #[trigger] in_gap(gaps@[k], x) implies !in_reserved_range(x)
                && x < self.counter_for(x) by {
                if k < before.len() {
                    assert(gaps@[k] == before[k]);
                }
            }
            assert forall|a: int, b: int, x: u32|
                0 <= a < gaps@.len() && 0 <= b < gaps@.len() && a != b && #[trigger] in_gap(
                    gaps@[a],
                    x,
                ) implies !#[trigger] in_gap(gaps@[b], x) by {
                if a < before.len() {
                    assert(gaps@[a] == before[a]);
                }
                if b < before.len() {
                    assert(gaps@[b] == before[b]);
                }
            }
            assert forall|x: u32| #[trigger] in_gaps(gaps@, x) implies in_gaps(before, x) || (lo <= x < hi) by {
                let k = choose|k: int| 0 <= k < gaps@.len() && #[trigger] in_gap(gaps@[k], x);
                if k < before.len() {
                    assert(gaps@[k] == before[k]);
                }
            }
        }
        self.gaps = gaps;
    }

    /// The index of the gap that holds `v`, which is free and below its
    /// range's counter.
    fn find_gap(&self, v: u32) -> (k: usize)
        requires
            !self.is_issued(v),
            !in_reserved_range(v),
            v < self.counter_for(v),
        ensures
            k < self.gaps@.len(),
            in_gap(self.gaps@[k as int], v),
    {
        let n = self.gaps.len();
        let mut k: usize = 0;
        while k < n
            invariant
                n == self.gaps@.len(),
                0 <= k <= n,
                forall|j: int| 0 <= j < k ==> !in_gap(self.gaps@[j], v),
            decreases n - k,
        {
            let g = self.gaps[k];
            if g.0 <= v && v < g.1 {
                return k;
            }
            k += 1;
        }
        proof {
            assert(in_gaps(self.gaps@, v));
            let j = choose|j: int| 0 <= j < self.gaps@.len() && #[trigger] in_gap(self.gaps@[j], v);
            assert(!in_gap(self.gaps@[j], v));
        }
        0
    }

    /// Takes `v` out of gap `k`, which holds it.
    fn split_gap(&mut self, k: usize, v: u32)
        requires
            k < old(self).gaps@.len(),
            in_gap(old(self).gaps@[k as int], v),
        ensures
            forall|x: u32| #[trigger] in_gaps(final(self).gaps@, x) == (in_gaps(old(self).gaps@, x) && x != v),
            final(self).next_user_id == old(self).next_user_id,
            final(self).next_native_func_id == old(self).next_native_func_id,
            final(self).next_native_type_id == old(self).next_native_type_id,
            final(self).next_synthetic_id == old(self).next_synthetic_id,
    {
        proof {
            use_type_invariant(&*self);
        }
        let ghost before = self.gaps@;
        let (lo, hi) = self.gaps[k];
        let mut gaps: Vec<(u32, u32)> = Vec::new();
        std::mem::swap(&mut gaps, &mut self.gaps);
        gaps.set(k, (lo, v));
        gaps.push((v + 1, hi));
        proof {
            let n = before.len();
            assert(gaps@.len() == n + 1);
            assert forall|j: int| 0 <= j < n && j != k implies gaps@[j] == before[j] by {}
            assert forall|k2: int, x: u32|
                0 <= k2 < gaps@.len() && #[trigger] in_gap(gaps@[k2], x) implies !in_reserved_range(x)
                && x < self.counter_for(x) by {
                if k2 == n || k2 == k {
                    assert(in_gap(before[k as int], x));
                } else {
                    assert(gaps@[k2] == before[k2]);
                }
            }
            assert forall|a: int, b: int, x: u32|
                0 <= a < gaps@.len() && 0 <= b < gaps@.len() && a != b && #[trigger] in_gap(
                    gaps@[a],
                    x,
                ) implies !#[trigger] in_gap(gaps@[b], x) by {
                let oa = if a == n { k as int } else { a };
                let ob = if b == n { k as int } else { b };
                assert(in_gap(before[oa], x));
                if in_gap(gaps@[b], x) {
                    assert(in_gap(before[ob], x));
                    if oa == ob {
                        assert(oa == k);
                    }
                }
            }
            assert forall|x: u32| #[trigger] in_gaps(gaps@, x) == (in_gaps(before, x) && x != v) by {
                if in_gaps(gaps@, x) {
                    let j = choose|j: int| 0 <= j < gaps@.len() && #[trigger] in_gap(gaps@[j], x);
                    let oj = if j == n { k as int } else { j };
                    assert(in_gap(before[oj], x));
                }
                if in_gaps(before, x) && x != v {
                    let j = choose|j: int| 0 <= j < before.len() && #[trigger] in_gap(before[j], x);
                    if j == k {
                        if x < v {
                            assert(in_gap(gaps@[k as int], x));
                        } else {
                            assert(in_gap(gaps@[n as int], x));
                        }
                    } else {
                        assert(in_gap(gaps@[j], x));
                    }
                }
                if x == v && in_gaps(gaps@, x) {
                    let j = choose|j: int| 0 <= j < gaps@.len() && #[trigger] in_gap(gaps@[j], x);
                    if j != k && j != n {
                        assert(gaps@[j] == before[j]);
                        assert(in_gap(before[k as int], v));
                    }
                }
            }
        }
        self.gaps = gaps;
    }

    /// A range's counter is one past the largest ID handed out in it, or the
    /// start of the range when none was: an ID is at or above the counter of
    /// its range exactly when it exceeds every ID handed out in that range.
    proof fn lemma_counter_exceeds_issued(&self, x: u32)
        requires
            self.counters_in_range(),
        ensures
            in_user_range(x) ==> (x >= self.user_counter() <==> forall|y: u32|
                in_user_range(y) && #[trigger] self.is_issued(y) ==> y < x),
            in_native_func_range(x) ==> (x >= self.native_func_counter() <==> forall|y: u32|
                in_native_func_range(y) && #[trigger] self.is_issued(y) ==> y < x),
            in_native_type_range(x) ==> (x >= self.native_type_counter() <==> forall|y: u32|
                in_native_type_range(y) && #[trigger] self.is_issued(y) ==> y < x),
            in_synthetic_range(x) ==> (x >= self.synthetic_counter() <==> forall|y: u32|
                in_synthetic_range(y) && #[trigger] self.is_issued(y) ==> y < x),
    {
        if in_user_range(x) && x < self.next_user_id {
            let y = (self.next_user_id - 1) as u32;
            assert(self.is_issued(y));
        }
        if in_native_func_range(x) && x < self.next_native_func_id {
            let y = (self.next_native_func_id - 1) as u32;
            assert(self.is_issued(y));
        }
        if in_native_type_range(x) && x < self.next_native_type_id {
            let y = (self.next_native_type_id - 1) as u32;
            assert(self.is_issued(y));
        }
        if in_synthetic_range(x) && x < self.next_synthetic_id {
            let y = (self.next_synthetic_id - 1) as u32;
            assert(self.is_issued(y));
        }
    }

    /// Reset all counters to the start of their ranges.
    pub fn reset(&mut self)
        ensures
            final(self).user_counter() == 0,
            final(self).native_func_counter() == NATIVE_FUNC_START,
            final(self).native_type_counter() == NATIVE_TYPE_START,
            final(self).synthetic_counter() == SYNTHETIC_START,
            forall|x: u32| !final(self).is_issued(x),
    {
        proof {
            use_type_invariant(&*self);
        }
        self.gaps = Vec::new();
        self.next_user_id = 0;
        self.next_native_func_id = NATIVE_FUNC_START;
        self.next_native_type_id = NATIVE_TYPE_START;
        self.next_synthetic_id = SYNTHETIC_START;
    }
}

impl Default for EntityIdGenerator {
    fn default() -> (g: Self)
        ensures
            g.user_counter() == 0,
            g.native_func_counter() == NATIVE_FUNC_START,
            g.native_type_counter() == NATIVE_TYPE_START,
            g.synthetic_counter() == SYNTHETIC_START,
            forall|x: u32| !g.is_issued(x),
    {
        Self::new()
    }
}

} // verus!
