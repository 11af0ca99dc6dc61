use vstd::prelude::*;

use core::marker::PhantomData;

use crate::handle::{get_random_map_id, InternalKey, MapId, UniqueId};

verus! {

/// One storage slot of a primary map: either it holds a live value, or it is
/// vacant and waits on the free list for reuse. Both states carry the slot's
/// current generation; a key is honoured only while its generation matches.
pub enum Slot<V> {
    Occupied { value: V, generation: u64 },
    Vacant { next_free: Option<usize>, generation: u64 },
}

impl<V> Slot<V> {
    /// The value held by an occupied slot.
    pub open spec fn value_of(self) -> V {
        match self {
            Slot::Occupied { value, .. } => value,
            Slot::Vacant { .. } => arbitrary(),
        }
    }

    /// The slot's current generation.
    pub open spec fn generation_of(self) -> u64 {
        match self {
            Slot::Occupied { generation, .. } => generation,
            Slot::Vacant { generation, .. } => generation,
        }
    }

    /// The free-list successor of a vacant slot.
    pub open spec fn next_of(self) -> Option<usize> {
        match self {
            Slot::Vacant { next_free, .. } => next_free,
            Slot::Occupied { .. } => None,
        }
    }
}

/// The generation a slot takes when it is vacated: one past the old value,
/// wrapping at the numeric limit.
pub open spec fn bumped(g: u64) -> u64 {
    if g == u64::MAX {
        0
    } else {
        (g + 1) as u64
    }
}

/// Owning map: a generational slot store plus the instance tag stamped into
/// every handle it mints. Each lookup first validates the handle's tag
/// against the map's own, so handles of a different instance are never
/// honoured.
pub struct UniqueSlotmap<K, V> {
    slots: Vec<Slot<V>>,
    free_head: Option<usize>,
    free_order: Ghost<Seq<int>>,
    id: MapId,
    count: usize,
    _key_type: PhantomData<K>,
}

impl<K, V> UniqueSlotmap<K, V> {
    /// The instance tag this map stamps into and demands of every handle.
    pub closed spec fn tag(self) -> MapId {
        self.id
    }

    /// How many slots the store has grown to, occupied or vacant.
    pub closed spec fn num_slots(self) -> int {
        self.slots@.len() as int
    }

    /// The state of the slot at position `i`.
    pub closed spec fn slot_at(self, i: int) -> Slot<V> {
        self.slots@[i]
    }

    /// The number of live entries.
    pub closed spec fn len_spec(self) -> nat {
        self.count as nat
    }

    /// The live entries: each key pairs a slot index with the generation the
    /// slot had when the entry was created, and maps to the stored value.
    pub closed spec fn entries(self) -> Map<InternalKey, V> {
        Map::new(
            |k: InternalKey|
                0 <= (k.index as int) < self.slots@.len()
                    && self.slots@[k.index as int] is Occupied
                    && self.slots@[k.index as int].generation_of() == k.generation,
            |k: InternalKey| self.slots@[k.index as int].value_of(),
        )
    }

    /// Structural soundness: the recorded free order lists exactly the
    /// vacant slots, chained through their stored successors starting at
    /// `free_head`, and the live count matches the remainder.
    pub closed spec fn wf(self) -> bool {
        let slots = self.slots@;
        let fl = self.free_order@;
        &&& fl.no_duplicates()
        &&& (forall|i: int|
            0 <= i < fl.len() ==> 0 <= #[trigger] fl[i] < slots.len() && slots[fl[i]] is Vacant)
        &&& (forall|j: int|
            0 <= j < slots.len() && (#[trigger] slots[j]) is Vacant ==> fl.contains(j))
        &&& (forall|i: int|
            0 <= i < fl.len() ==> (#[trigger] slots[fl[i]].next_of()) == (if i + 1 < fl.len() {
                Some(fl[i + 1] as usize)
            } else {
                None::<usize>
            }))
        &&& self.free_head == (if fl.len() > 0 {
            Some(fl[0] as usize)
        } else {
            None::<usize>
        })
        &&& (self.count as int) == slots.len() - fl.len()
    }

    /// The internal key the next insertion will use: the head of the free
    /// list at its current generation, or a fresh slot at generation zero.
    pub closed spec fn next_key(self) -> InternalKey {
        match self.free_head {
            Some(i) => InternalKey {
                index: i,
                generation: self.slots@[i as int].generation_of(),
            },
            None => InternalKey { index: self.slots@.len() as usize, generation: 0 },
        }
    }

    /// The instance tag as a value, for binding side-storage to this map.
    pub fn tag_value(&self) -> (t: MapId)
        ensures
            t == self.tag(),
    {
        self.id
    }

    /// How many live entries the map holds.
    pub fn len(&self) -> (n: usize)
        ensures
            n == self.len_spec(),
    {
        self.count
    }
}

/// A family of distinct in-range indices that all avoid one index `idx`
/// cannot fill the whole range, so there are fewer of them than `len`.
proof fn lemma_distinct_bounded_excluding(fl: Seq<int>, len: int, idx: int)
    requires
        fl.no_duplicates(),
        forall|i: int| 0 <= i < fl.len() ==> 0 <= #[trigger] fl[i] < len && fl[i] != idx,
        0 <= idx < len,
    ensures
        fl.len() < len,
{
    fl.unique_seq_to_set();
    let s = vstd::set_lib::set_int_range(0, len).remove(idx);
    vstd::set_lib::lemma_int_range(0, len);
    assert(vstd::set_lib::set_int_range(0, len).contains(idx));
    assert forall|x: int| fl.to_set().contains(x) implies s.contains(x) by {
        let i = choose|i: int| 0 <= i < fl.len() && fl[i] == x;
        assert(0 <= fl[i] < len && fl[i] != idx);
    }
    vstd::set_lib::lemma_len_subset(fl.to_set(), s);
}

impl<K, V> UniqueSlotmap<UniqueId<K>, V> {
    /// The handle this map mints for internal key `k`.
    pub open spec fn handle_for(self, k: InternalKey) -> UniqueId<K> {
        UniqueId { key: k, map_id: self.tag(), kind: PhantomData }
    }

    /// Whether handle `h` currently names a live entry of this map: its tag
    /// must match and its key must be live.
    pub open spec fn spec_contains(self, h: UniqueId<K>) -> bool {
        h.map_id == self.tag() && self.entries().contains_key(h.key)
    }

    /// The value a lookup of `h` yields: the stored value when the handle is
    /// live here, and nothing otherwise — a foreign tag and a dead key are
    /// indistinguishable on this path by design.
    pub open spec fn spec_get(self, h: UniqueId<K>) -> Option<V> {
        if self.spec_contains(h) {
            Some(self.entries()[h.key])
        } else {
            None
        }
    }

    /// The handle's key when its tag matches this map; every operation
    /// validates the tag this way before touching storage.
    fn check_key(&self, key: UniqueId<K>) -> (r: Option<InternalKey>)
        ensures
            r == (if key.map_id == self.tag() {
                Some(key.key)
            } else {
                None::<InternalKey>
            }),
    {
        if key.map_id == self.id {
            Some(key.key)
        } else {
            None
        }
    }

    /// Look up `h`, yielding the stored value only when `h` is live here.
    pub fn get(&self, index: UniqueId<K>) -> (r: Option<&V>)
        ensures
            match r {
                Some(v) => self.spec_get(index) == Some(*v),
                None => self.spec_get(index) is None,
            },
    {
        match self.check_key(index) {
            None => None,
            Some(key) => {
                if key.index >= self.slots.len() {
                    return None;
                }
                match &self.slots[key.index] {
                    Slot::Occupied { value, generation } => {
                        if *generation == key.generation {
                            Some(value)
                        } else {
                            None
                        }
                    },
                    Slot::Vacant { .. } => None,
                }
            },
        }
    }

    /// Whether `h` is live here; false both for a foreign tag and for a
    /// stale or unknown key.
    pub fn contains_key(&self, index: UniqueId<K>) -> (r: bool)
        ensures
            r == self.spec_contains(index),
    {
        match self.get(index) {
            Some(_) => true,
            None => false,
        }
    }

    /// Look up a handle that is known to be live here; the caller
    /// establishes that, for instance through `contains_key`.
    pub fn index(&self, index: UniqueId<K>) -> (r: &V)
        requires
            self.spec_contains(index),
        ensures
            *r == self.entries()[index.key],
    {
        match self.get(index) {
            Some(v) => v,
            None => unreached(),
        }
    }

    /// Borrow the value of a handle that is known to be live here for
    /// writing; the caller establishes that, for instance through
    /// `contains_key`. Only the borrowed entry can change.
    pub fn index_mut(&mut self, index: UniqueId<K>) -> (r: &mut V)
        requires
            old(self).wf(),
            old(self).spec_contains(index),
        ensures
            *r == old(self).entries()[index.key],
            final(self).wf(),
            final(self).tag() == old(self).tag(),
            final(self).len_spec() == old(self).len_spec(),
            final(self).num_slots() == old(self).num_slots(),
            final(self).entries() =~= old(self).entries().insert(index.key, *final(r)),
            forall|i: int|
                0 <= i < old(self).num_slots() && i != index.key.index as int
                    ==> final(self).slot_at(i) == old(self).slot_at(i),
            final(self).slot_at(index.key.index as int) == (Slot::Occupied {
                value: *final(r),
                generation: index.key.generation,
            }),
    {
        let ghost pre = *self;
        let i = index.key.index;
        let slot = &mut self.slots[i];
        match slot {
            Slot::Occupied { value, .. } => value,
            Slot::Vacant { .. } => unreached(),
        }
    }

    /// Borrow the value of `index` for writing when the handle is live
    /// here; a foreign tag and a dead key both yield nothing. Only the
    /// borrowed entry can change.
    pub fn get_mut(&mut self, index: UniqueId<K>) -> (r: Option<&mut V>)
        requires
            old(self).wf(),
        ensures
            final(self).wf(),
            final(self).tag() == old(self).tag(),
            match r {
                None => old(self).spec_get(index) is None && *final(self) == *old(self),
                Some(v) => {
                    &&& old(self).spec_contains(index)
                    &&& *v == old(self).entries()[index.key]
                    &&& final(self).len_spec() == old(self).len_spec()
                    &&& final(self).num_slots() == old(self).num_slots()
                    &&& final(self).entries() =~= old(self).entries().insert(
                        index.key,
                        *final(v),
                    )
                    &&& forall|i: int|
                        0 <= i < old(self).num_slots() && i != index.key.index as int
                            ==> final(self).slot_at(i) == old(self).slot_at(i)
                    &&& final(self).slot_at(index.key.index as int) == (Slot::Occupied {
                        value: *final(v),
                        generation: index.key.generation,
                    })
                },
            },
    {
        if index.map_id != self.id {
            return None;
        }
        let i = index.key.index;
        if i >= self.slots.len() {
            return None;
        }
        let live = match &self.slots[i] {
            Slot::Occupied { generation, .. } => *generation == index.key.generation,
            Slot::Vacant { .. } => false,
        };
        if live {
            Some(self.index_mut(index))
        } else {
            None
        }
    }

    /// `post` is `pre` after inserting `v` under the freshly minted handle
    /// `h`: the handle carries the map's tag and a key no live entry had,
    /// the entry map grows by exactly that key, and at slot level only the
    /// occupied slot changes — reusing the head vacant slot at its current
    /// generation, or appending a fresh slot at generation zero.
    pub open spec fn inserted(pre: Self, post: Self, h: UniqueId<K>, v: V) -> bool {
        &&& h.map_id == pre.tag()
        &&& post.tag() == pre.tag()
        &&& !pre.entries().contains_key(h.key)
        &&& post.entries() == pre.entries().insert(h.key, v)
        &&& post.len_spec() == pre.len_spec() + 1
        &&& 0 <= (h.key.index as int) < post.num_slots()
        &&& (if (h.key.index as int) < pre.num_slots() {
            &&& pre.slot_at(h.key.index as int) is Vacant
            &&& pre.slot_at(h.key.index as int).generation_of() == h.key.generation
            &&& post.num_slots() == pre.num_slots()
        } else {
            &&& h.key.index as int == pre.num_slots()
            &&& h.key.generation == 0
            &&& post.num_slots() == pre.num_slots() + 1
        })
        &&& (forall|i: int|
            0 <= i < pre.num_slots() && i != h.key.index as int ==> post.slot_at(i)
                == pre.slot_at(i))
        &&& post.slot_at(h.key.index as int) == (Slot::Occupied {
            value: v,
            generation: h.key.generation,
        })
    }

    /// `post` is `pre` after removing the live entry `h`, which held `v`:
    /// the entry map shrinks by exactly that key, and at slot level only the
    /// removed slot changes, becoming vacant at the next generation — so a
    /// reuse of the slot can never revive the removed handle.
    pub open spec fn removed(pre: Self, post: Self, h: UniqueId<K>, v: V) -> bool {
        &&& h.map_id == pre.tag()
        &&& post.tag() == pre.tag()
        &&& pre.spec_get(h) == Some(v)
        &&& post.entries() == pre.entries().remove(h.key)
        &&& post.len_spec() + 1 == pre.len_spec()
        &&& post.num_slots() == pre.num_slots()
        &&& (forall|i: int|
            0 <= i < pre.num_slots() && i != h.key.index as int ==> post.slot_at(i)
                == pre.slot_at(i))
        &&& post.slot_at(h.key.index as int) is Vacant
        &&& post.slot_at(h.key.index as int).generation_of() == bumped(h.key.generation)
    }

    /// Store `value` in a reused or fresh slot and mint its handle, stamped
    /// with this map's tag.
    pub fn insert(&mut self, value: V) -> (h: UniqueId<K>)
        requires
            old(self).wf(),
        ensures
            final(self).wf(),
            h == old(self).handle_for(old(self).next_key()),
            Self::inserted(*old(self), *final(self), h, value),
    {
        let ghost pre = *self;
        let top = self.slots.len();
        match self.free_head {
            Some(idx) => {
                proof {
                    let fl = pre.free_order@;
                    assert(fl.len() > 0);
                    assert(0 <= fl[0] < pre.slots@.len());
                    assert(fl[0] == idx as int);
                }
                let (g, next) = match &self.slots[idx] {
                    Slot::Vacant { next_free, generation } => (*generation, *next_free),
                    Slot::Occupied { .. } => unreached(),
                };
                self.slots[idx] = Slot::Occupied { value, generation: g };
                self.free_head = next;
                self.free_order = Ghost(
                    pre.free_order@.subrange(1, pre.free_order@.len() as int),
                );
                let n = self.slots.len();
                proof {
                    assert(pre.count as int == n as int - pre.free_order@.len());
                }
                self.count = self.count + 1;
                let h = UniqueId {
                    key: InternalKey { index: idx, generation: g },
                    map_id: self.id,
                    kind: PhantomData,
                };
                proof {
                    self.lemma_after_reuse(pre, h, value);
                }
                h
            },
            None => {
                let idx = top;
                self.slots.push(Slot::Occupied { value, generation: 0 });
                let n = self.slots.len();
                proof {
                    assert(n as int == pre.slots@.len() + 1);
                }
                self.count = self.count + 1;
                let h = UniqueId {
                    key: InternalKey { index: idx, generation: 0 },
                    map_id: self.id,
                    kind: PhantomData,
                };
                proof {
                    self.lemma_after_append(pre, h, value);
                }
                h
            },
        }
    }

    /// What holds after `insert` reoccupied the head of the free list.
    proof fn lemma_after_reuse(self, pre: Self, h: UniqueId<K>, v: V)
        requires
            pre.wf(),
            pre.slots@.len() <= usize::MAX,
            pre.free_head is Some,
            h.key.index == pre.free_head.unwrap(),
            h.key.generation == pre.slots@[h.key.index as int].generation_of(),
            h.map_id == pre.id,
            self.id == pre.id,
            self.slots@ == pre.slots@.update(
                h.key.index as int,
                Slot::Occupied { value: v, generation: h.key.generation },
            ),
            self.free_head == pre.slots@[h.key.index as int].next_of(),
            self.free_order@ == pre.free_order@.subrange(1, pre.free_order@.len() as int),
            self.count == pre.count + 1,
        ensures
            self.wf(),
            h == pre.handle_for(pre.next_key()),
            Self::inserted(pre, self, h, v),
    {
        let fl = pre.free_order@;
        let fl2 = self.free_order@;
        let idx = h.key.index as int;
        assert(fl[0] == idx);
        assert forall|j: int|
            0 <= j < self.slots@.len() && (#[trigger] self.slots@[j]) is Vacant implies fl2.contains(
            j,
        ) by {
            assert(pre.slots@[j] is Vacant);
            assert(fl.contains(j));
            let i0 = choose|i0: int| 0 <= i0 < fl.len() && fl[i0] == j;
            assert(i0 != 0);
            assert(fl2[i0 - 1] == j);
        }
        assert(self.entries() =~= pre.entries().insert(h.key, v));
        assert(self.count as int == self.slots@.len() - fl2.len());
    }

    /// What holds after `insert` appended a fresh slot at generation zero.
    proof fn lemma_after_append(self, pre: Self, h: UniqueId<K>, v: V)
        requires
            pre.wf(),
            pre.slots@.len() <= usize::MAX,
            pre.free_head is None,
            h.key.index as int == pre.slots@.len(),
            h.key.generation == 0,
            h.map_id == pre.id,
            self.id == pre.id,
            self.slots@ == pre.slots@.push(Slot::Occupied { value: v, generation: 0 }),
            self.free_head is None,
            self.free_order@ == pre.free_order@,
            self.count == pre.count + 1,
        ensures
            self.wf(),
            h == pre.handle_for(pre.next_key()),
            Self::inserted(pre, self, h, v),
    {
        let fl = pre.free_order@;
        assert(fl.len() == 0);
        assert forall|j: int|
            0 <= j < self.slots@.len() && (#[trigger] self.slots@[j]) is Vacant implies fl.contains(
            j,
        ) by {
            assert(j < pre.slots@.len());
        }
        assert(self.entries() =~= pre.entries().insert(h.key, v));
    }

    /// Remove the entry named by `index`, yielding its value when the
    /// handle was live here; the vacated slot's generation is bumped, so
    /// the handle stays dead even once the slot is reused.
    pub fn remove(&mut self, index: UniqueId<K>) -> (r: Option<V>)
        requires
            old(self).wf(),
        ensures
            final(self).wf(),
            match r {
                Some(v) => Self::removed(*old(self), *final(self), index, v),
                None => old(self).spec_get(index) is None && *final(self) == *old(self),
            },
    {
        let ghost pre = *self;
        let key = match self.check_key(index) {
            Some(key) => key,
            None => {
                return None;
            },
        };
        if key.index >= self.slots.len() {
            return None;
        }
        let live = match &self.slots[key.index] {
            Slot::Occupied { generation, .. } => *generation == key.generation,
            Slot::Vacant { .. } => false,
        };
        if !live {
            return None;
        }
        proof {
            assert(pre.entries().contains_key(key));
        }
        let v = self.remove_at(key.index);
        Some(v)
    }

    /// Vacate the occupied slot at `idx`, bumping its generation and
    /// putting it at the head of the free list; yields the stored value.
    fn remove_at(&mut self, idx: usize) -> (v: V)
        requires
            old(self).wf(),
            (idx as int) < old(self).num_slots(),
            old(self).slot_at(idx as int) is Occupied,
        ensures
            final(self).wf(),
            Self::removed(
                *old(self),
                *final(self),
                old(self).handle_for(
                    InternalKey {
                        index: idx,
                        generation: old(self).slot_at(idx as int).generation_of(),
                    },
                ),
                v,
            ),
            v == old(self).slot_at(idx as int).value_of(),
    {
        let ghost pre = *self;
        let n = self.slots.len();
        let g = match &self.slots[idx] {
            Slot::Occupied { generation, .. } => *generation,
            Slot::Vacant { .. } => unreached(),
        };
        proof {
            assert(pre.slots@.len() == n as int);
            lemma_distinct_bounded_excluding(
                pre.free_order@,
                pre.slots@.len() as int,
                idx as int,
            );
        }
        let mut taken = Slot::Vacant { next_free: self.free_head, generation: g.wrapping_add(1) };
        core::mem::swap(&mut self.slots[idx], &mut taken);
        self.free_head = Some(idx);
        self.free_order = Ghost(seq![idx as int] + pre.free_order@);
        self.count = self.count - 1;
        match taken {
            Slot::Occupied { value, .. } => {
                proof {
                    self.lemma_after_remove(
                        pre,
                        pre.handle_for(InternalKey { index: idx, generation: g }),
                        value,
                    );
                }
                value
            },
            Slot::Vacant { .. } => unreached(),
        }
    }

    /// The handle the next insertion will mint, read without changing the
    /// map; `insert_with_key` hands it to the factory before storing.
    fn next_handle(&self) -> (h: UniqueId<K>)
        requires
            self.wf(),
        ensures
            h == self.handle_for(self.next_key()),
    {
        let n = self.slots.len();
        match self.free_head {
            Some(idx) => {
                proof {
                    let fl = self.free_order@;
                    assert(fl.len() > 0);
                    assert(0 <= fl[0] < self.slots@.len());
                    assert(fl[0] == idx as int);
                }
                let g = match &self.slots[idx] {
                    Slot::Vacant { generation, .. } => *generation,
                    Slot::Occupied { .. } => unreached(),
                };
                UniqueId {
                    key: InternalKey { index: idx, generation: g },
                    map_id: self.id,
                    kind: PhantomData,
                }
            },
            None => UniqueId {
                key: InternalKey { index: n, generation: 0 },
                map_id: self.id,
                kind: PhantomData,
            },
        }
    }

    /// Insert a value built by `f`, which is invoked exactly once, with the
    /// very handle the new entry will live under — for values that need to
    /// refer to themselves.
    pub fn insert_with_key<F: FnOnce(UniqueId<K>) -> V>(&mut self, f: F) -> (h: UniqueId<K>)
        requires
            old(self).wf(),
            forall|h2: UniqueId<K>| #[trigger] f.requires((h2,)),
        ensures
            final(self).wf(),
            h == old(self).handle_for(old(self).next_key()),
            f.ensures((h,), final(self).entries()[h.key]),
            Self::inserted(*old(self), *final(self), h, final(self).entries()[h.key]),
    {
        let handle = self.next_handle();
        let value = f(handle);
        self.insert(value)
    }

    /// Every handle currently live in this map, in unspecified order; each
    /// carries this map's tag, no key appears twice, and every live entry
    /// is represented.
    pub fn keys(&self) -> (r: Vec<UniqueId<K>>)
        requires
            self.wf(),
        ensures
            forall|i: int|
                0 <= i < r@.len() ==> self.spec_contains(#[trigger] r@[i]) && r@[i]
                    == self.handle_for(r@[i].key),
            forall|i: int, j: int| 0 <= i < j < r@.len() ==> r@[i].key != r@[j].key,
            forall|k: InternalKey|
                #[trigger] self.entries().contains_key(k) ==> r@.contains(self.handle_for(k)),
    {
        let mut r: Vec<UniqueId<K>> = Vec::new();
        let n = self.slots.len();
        let mut idx: usize = 0;
        while idx < n
            invariant
                self.wf(),
                n == self.slots@.len(),
                idx <= n,
                forall|i: int|
                    0 <= i < r@.len() ==> self.spec_contains(#[trigger] r@[i]) && r@[i]
                        == self.handle_for(r@[i].key) && (r@[i].key.index as int) < idx as int,
                forall|i: int, j: int| 0 <= i < j < r@.len() ==> r@[i].key != r@[j].key,
                forall|k: InternalKey|
                    #[trigger] self.entries().contains_key(k) && (k.index as int) < idx as int
                        ==> r@.contains(self.handle_for(k)),
            decreases n - idx,
        {
            match &self.slots[idx] {
                Slot::Occupied { generation, .. } => {
                    let h = UniqueId {
                        key: InternalKey { index: idx, generation: *generation },
                        map_id: self.id,
                        kind: PhantomData,
                    };
                    let ghost r0 = r@;
                    r.push(h);
                    proof {
                        assert forall|k: InternalKey|
                            #[trigger] self.entries().contains_key(k) && (k.index as int)
                                <= idx as int implies r@.contains(self.handle_for(k)) by {
                            if (k.index as int) < idx as int {
                                let i = choose|i: int|
                                    0 <= i < r0.len() && r0[i] == self.handle_for(k);
                                assert(r@[i] == self.handle_for(k));
                            } else {
                                assert(k.generation == self.slots@[idx as int].generation_of());
                                assert(r@[r0.len() as int] == self.handle_for(k));
                            }
                        }
                    }
                },
                Slot::Vacant { .. } => {},
            }
            idx = idx + 1;
        }
        r
    }

    /// Keep exactly the entries the predicate approves of, removing the
    /// rest; each surviving entry keeps its value and its handle.
    pub fn retain<F: Fn(UniqueId<K>, &V) -> bool>(&mut self, f: F)
        requires
            old(self).wf(),
            forall|h: UniqueId<K>, v: &V|
                old(self).spec_get(h) == Some(*v) ==> #[trigger] f.requires((h, v)),
        ensures
            final(self).wf(),
            final(self).tag() == old(self).tag(),
            final(self).num_slots() == old(self).num_slots(),
            forall|k: InternalKey|
                #[trigger] final(self).entries().contains_key(k)
                    ==> old(self).entries().contains_key(k)
                    && final(self).entries()[k] == old(self).entries()[k],
            forall|k: InternalKey|
                #[trigger] old(self).entries().contains_key(k) ==> f.ensures(
                    (old(self).handle_for(k), &old(self).entries()[k]),
                    final(self).entries().contains_key(k),
                ),
    {
        let ghost pre = *self;
        let n = self.slots.len();
        let mut idx: usize = 0;
        while idx < n
            invariant
                self.wf(),
                self.tag() == pre.tag(),
                n == self.slots@.len(),
                n == pre.slots@.len(),
                idx <= n,
                forall|h: UniqueId<K>, v: &V|
                    pre.spec_get(h) == Some(*v) ==> #[trigger] f.requires((h, v)),
                forall|i: int|
                    idx as int <= i < n as int ==> #[trigger] self.slot_at(i) == pre.slot_at(i),
                forall|i: int|
                    0 <= i < idx as int && (#[trigger] pre.slot_at(i)) is Vacant ==> self.slot_at(
                        i,
                    ) == pre.slot_at(i),
                forall|i: int|
                    0 <= i < idx as int && (#[trigger] pre.slot_at(i)) is Occupied ==> {
                        let k = InternalKey {
                            index: i as usize,
                            generation: pre.slot_at(i).generation_of(),
                        };
                        ||| (self.slot_at(i) == pre.slot_at(i) && f.ensures(
                            (pre.handle_for(k), &pre.slot_at(i).value_of()),
                            true,
                        ))
                        ||| (self.slot_at(i) is Vacant && self.slot_at(i).generation_of() == bumped(
                            pre.slot_at(i).generation_of(),
                        ) && f.ensures((pre.handle_for(k), &pre.slot_at(i).value_of()), false))
                    },
            decreases n - idx,
        {
            let keep = match &self.slots[idx] {
                Slot::Occupied { value, generation } => {
                    let h = UniqueId {
                        key: InternalKey { index: idx, generation: *generation },
                        map_id: self.id,
                        kind: PhantomData,
                    };
                    proof {
                        assert(pre.entries().contains_key(h.key));
                        assert(pre.spec_get(h) == Some(pre.slot_at(idx as int).value_of()));
                    }
                    f(h, value)
                },
                Slot::Vacant { .. } => true,
            };
            if !keep {
                let _ = self.remove_at(idx);
            }
            idx = idx + 1;
        }
        proof {
            assert forall|k: InternalKey| #[trigger] self.entries().contains_key(k) implies pre
                .entries().contains_key(k) && self.entries()[k] == pre.entries()[k] by {
                assert(self.slot_at(k.index as int) is Occupied);
                assert(pre.slot_at(k.index as int) is Occupied);
            }
            assert forall|k: InternalKey| #[trigger] pre.entries().contains_key(k) implies f
                .ensures(
                (pre.handle_for(k), &pre.entries()[k]),
                self.entries().contains_key(k),
            ) by {
                assert(pre.slot_at(k.index as int) is Occupied);
                if self.slot_at(k.index as int) == pre.slot_at(k.index as int) {
                    assert(self.entries().contains_key(k));
                } else {
                    assert(!self.entries().contains_key(k));
                }
            }
        }
    }

    /// Every live entry as a pair of its handle and a borrow of its value,
    /// in unspecified order; no key appears twice, and every live entry is
    /// represented.
    pub fn iter(&self) -> (r: Vec<(UniqueId<K>, &V)>)
        requires
            self.wf(),
        ensures
            forall|i: int|
                0 <= i < r@.len() ==> self.spec_contains(#[trigger] r@[i].0) && r@[i].0
                    == self.handle_for(r@[i].0.key) && *r@[i].1 == self.entries()[r@[i].0.key],
            forall|i: int, j: int| 0 <= i < j < r@.len() ==> r@[i].0.key != r@[j].0.key,
            forall|k: InternalKey|
                #[trigger] self.entries().contains_key(k) ==> exists|i: int|
                    0 <= i < r@.len() && r@[i].0 == self.handle_for(k),
    {
        let mut r: Vec<(UniqueId<K>, &V)> = Vec::new();
        let n = self.slots.len();
        let mut idx: usize = 0;
        while idx < n
            invariant
                self.wf(),
                n == self.slots@.len(),
                idx <= n,
                forall|i: int|
                    0 <= i < r@.len() ==> self.spec_contains(#[trigger] r@[i].0) && r@[i].0
                        == self.handle_for(r@[i].0.key) && *r@[i].1 == self.entries()[r@[i].0.key]
                        && (r@[i].0.key.index as int) < idx as int,
                forall|i: int, j: int| 0 <= i < j < r@.len() ==> r@[i].0.key != r@[j].0.key,
                forall|k: InternalKey|
                    #[trigger] self.entries().contains_key(k) && (k.index as int) < idx as int
                        ==> exists|i: int| 0 <= i < r@.len() && r@[i].0 == self.handle_for(k),
            decreases n - idx,
        {
            match &self.slots[idx] {
                Slot::Occupied { value, generation } => {
                    let h = UniqueId {
                        key: InternalKey { index: idx, generation: *generation },
                        map_id: self.id,
                        kind: PhantomData,
                    };
                    let ghost r0 = r@;
                    r.push((h, value));
                    proof {
                        assert forall|k: InternalKey|
                            #[trigger] self.entries().contains_key(k) && (k.index as int)
                                <= idx as int implies exists|i: int|
                            0 <= i < r@.len() && r@[i].0 == self.handle_for(k) by {
                            if (k.index as int) < idx as int {
                                let i = choose|i: int|
                                    0 <= i < r0.len() && r0[i].0 == self.handle_for(k);
                                assert(r@[i].0 == self.handle_for(k));
                            } else {
                                assert(k.generation == self.slot_at(idx as int).generation_of());
                                assert(r@[r0.len() as int].0 == self.handle_for(k));
                            }
                        }
                    }
                },
                Slot::Vacant { .. } => {},
            }
            idx = idx + 1;
        }
        r
    }

    /// A handle whose tag is not this map's is invisible to every
    /// non-panicking accessor, and fails the liveness requirement of the
    /// panicking ones, whatever its key says.
    pub proof fn lemma_foreign_tag_invisible(m: Self, h: UniqueId<K>)
        requires
            h.map_id != m.tag(),
        ensures
            m.spec_get(h) is None,
            !m.spec_contains(h),
    {
    }

    /// A freshly minted handle is immediately live, with the value that was
    /// inserted under it.
    pub proof fn lemma_insert_then_get(pre: Self, post: Self, h: UniqueId<K>, v: V)
        requires
            Self::inserted(pre, post, h, v),
        ensures
            post.spec_contains(h),
            post.spec_get(h) == Some(v),
    {
    }

    /// Removing what was just inserted yields that very value and restores
    /// the map as every observer sees it: same entries, same length, and
    /// every other handle reads as before.
    pub proof fn lemma_insert_remove_roundtrip(
        s0: Self,
        s1: Self,
        s2: Self,
        h: UniqueId<K>,
        v: V,
        v2: V,
    )
        requires
            Self::inserted(s0, s1, h, v),
            Self::removed(s1, s2, h, v2),
        ensures
            v2 == v,
            s2.entries() == s0.entries(),
            s2.len_spec() == s0.len_spec(),
            forall|h2: UniqueId<K>| #[trigger] s2.spec_get(h2) == s0.spec_get(h2),
    {
        assert(s2.entries() =~= s0.entries());
    }

    /// A removed handle stays dead: the lookup already fails in the state
    /// right after the removal, and still fails after a further insert —
    /// even one that reuses the vacated slot — because the slot's
    /// generation was bumped, so the new handle differs from the old one.
    pub proof fn lemma_removed_stays_dead(
        s0: Self,
        s1: Self,
        s2: Self,
        h: UniqueId<K>,
        v: V,
        h2: UniqueId<K>,
        v2: V,
    )
        requires
            Self::removed(s0, s1, h, v),
            Self::inserted(s1, s2, h2, v2),
        ensures
            s1.spec_get(h) is None,
            !s1.spec_contains(h),
            s2.spec_get(h) is None,
            !s2.spec_contains(h),
            h2.key != h.key,
    {
        if h2.key.index == h.key.index {
            assert(s1.slot_at(h2.key.index as int) is Vacant);
            assert(h2.key.generation == bumped(h.key.generation));
        }
    }

    /// What holds after `remove` vacated the slot of a live handle.
    proof fn lemma_after_remove(self, pre: Self, h: UniqueId<K>, v: V)
        requires
            pre.wf(),
            pre.slots@.len() <= usize::MAX,
            h.map_id == pre.id,
            (h.key.index as int) < pre.slots@.len(),
            pre.slots@[h.key.index as int] == (Slot::Occupied::<V> {
                value: v,
                generation: h.key.generation,
            }),
            self.id == pre.id,
            self.slots@ == pre.slots@.update(
                h.key.index as int,
                Slot::Vacant {
                    next_free: pre.free_head,
                    generation: bumped(h.key.generation),
                },
            ),
            self.free_head == Some(h.key.index),
            self.free_order@ == seq![h.key.index as int] + pre.free_order@,
            self.count == pre.count - 1,
        ensures
            self.wf(),
            Self::removed(pre, self, h, v),
    {
        let fl = pre.free_order@;
        let fl2 = self.free_order@;
        let idx = h.key.index as int;
        assert(!fl.contains(idx));
        assert(fl2[0] == idx);
        assert forall|i: int, j: int| 0 <= i < j < fl2.len() implies fl2[i] != fl2[j] by {
            if i > 0 {
                assert(fl2[i] == fl[i - 1] && fl2[j] == fl[j - 1]);
            } else {
                assert(fl2[j] == fl[j - 1]);
                assert(fl.contains(fl[j - 1]));
            }
        }
        assert(fl2.no_duplicates());
        assert forall|j: int|
            0 <= j < self.slots@.len() && (#[trigger] self.slots@[j]) is Vacant implies fl2.contains(
            j,
        ) by {
            if j == idx {
                assert(fl2[0] == j);
            } else {
                assert(fl.contains(j));
                let i0 = choose|i0: int| 0 <= i0 < fl.len() && fl[i0] == j;
                assert(fl2[i0 + 1] == j);
            }
        }
        assert forall|i: int| 0 <= i < fl2.len() implies (#[trigger] self.slots@[fl2[i]].next_of())
            == (if i + 1 < fl2.len() {
            Some(fl2[i + 1] as usize)
        } else {
            None::<usize>
        }) by {
            if i == 0 {
                assert(self.slots@[idx].next_of() == pre.free_head);
            } else {
                assert(fl2[i] == fl[i - 1]);
                assert(fl[i - 1] != idx);
            }
        }
        assert(self.entries() =~= pre.entries().remove(h.key));
        assert(pre.spec_get(h) == Some(v));
    }
}

impl<K, V> Default for UniqueSlotmap<K, V> {
    /// A fresh, empty map under a newly minted instance tag.
    fn default() -> (r: Self)
        ensures
            r.wf(),
            r.len_spec() == 0,
            r.num_slots() == 0,
            r.entries() == Map::<InternalKey, V>::empty(),
    {
        let r = UniqueSlotmap {
            slots: Vec::new(),
            free_head: None,
            free_order: Ghost(Seq::empty()),
            id: get_random_map_id(),
            count: 0,
            _key_type: PhantomData,
        };
        proof {
            assert(r.entries() =~= Map::<InternalKey, V>::empty());
        }
        r
    }
}

} // verus!
