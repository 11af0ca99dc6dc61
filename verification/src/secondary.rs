use vstd::prelude::*;

use core::marker::PhantomData;

use crate::handle::{InternalKey, MapId, UniqueId};
use crate::primary::UniqueSlotmap;

verus! {

/// The generation recorded in an occupied cell.
pub open spec fn cell_generation<V>(c: Option<(u64, V)>) -> u64 {
    match c {
        Some(p) => p.0,
        None => arbitrary(),
    }
}

/// The value recorded in an occupied cell.
pub open spec fn cell_value<V>(c: Option<(u64, V)>) -> V {
    match c {
        Some(p) => p.1,
        None => arbitrary(),
    }
}

/// Sparse side-storage keyed by the handles of one primary map: it carries
/// that map's instance tag from construction on and honours no handle of
/// any other instance. Each cell remembers the generation its entry was
/// stored under, so a stale handle reads as absent.
pub struct UniqueSecondaryMap<K, V> {
    cells: Vec<Option<(u64, V)>>,
    id: MapId,
    _key_type: PhantomData<K>,
}

impl<K, V> UniqueSecondaryMap<K, V> {
    /// The instance tag inherited from the primary map this map is bound to.
    pub closed spec fn tag(self) -> MapId {
        self.id
    }

    /// The entries: each key pairs a cell index with the generation the
    /// entry was stored under, and maps to the stored value.
    pub closed spec fn entries(self) -> Map<InternalKey, V> {
        Map::new(
            |k: InternalKey|
                0 <= (k.index as int) < self.cells@.len() && self.cells@[k.index as int] is Some
                    && cell_generation(self.cells@[k.index as int]) == k.generation,
            |k: InternalKey| cell_value(self.cells@[k.index as int]),
        )
    }
}

impl<K, V> UniqueSecondaryMap<UniqueId<K>, V> {
    /// An empty secondary map bound to `map`: it adopts that map's tag and
    /// from then on accepts exactly the handles that map mints.
    pub fn new_from_key<V2>(map: &UniqueSlotmap<UniqueId<K>, V2>) -> (r: Self)
        ensures
            r.tag() == map.tag(),
            r.entries() == Map::<InternalKey, V>::empty(),
    {
        let r = UniqueSecondaryMap { cells: Vec::new(), id: map.tag_value(), _key_type: PhantomData };
        proof {
            assert(r.entries() =~= Map::<InternalKey, V>::empty());
        }
        r
    }

    /// Whether handle `h` currently names an entry of this map.
    pub open spec fn spec_contains(self, h: UniqueId<K>) -> bool {
        h.map_id == self.tag() && self.entries().contains_key(h.key)
    }

    /// The value a lookup of `h` yields: the stored value when `h` carries
    /// this map's tag and names a stored entry, and nothing otherwise.
    pub open spec fn spec_get(self, h: UniqueId<K>) -> Option<V> {
        if self.spec_contains(h) {
            Some(self.entries()[h.key])
        } else {
            None
        }
    }

    /// The handle's key when its tag matches this map; every operation
    /// validates the tag this way before touching storage.
    fn check_key(&self, key: UniqueId<K>) -> (r: Option<InternalKey>)
        ensures
            r == (if key.map_id == self.tag() {
                Some(key.key)
            } else {
                None::<InternalKey>
            }),
    {
        if key.map_id == self.id {
            Some(key.key)
        } else {
            None
        }
    }

    /// Store `value` under `key`. A handle minted by a different instance
    /// is a provenance violation here: unlike a lost read, a silently lost
    /// write corrupts the caller's view, so the tag match is demanded up
    /// front. Yields the value previously stored under the same key; an
    /// older-generation tenant of the cell is displaced silently.
    pub fn insert(&mut self, key: UniqueId<K>, value: V) -> (r: Option<V>)
        requires
            key.map_id == old(self).tag(),
        ensures
            final(self).tag() == old(self).tag(),
            final(self).entries().contains_key(key.key),
            final(self).entries()[key.key] == value,
            forall|k: InternalKey|
                k.index != key.key.index
                    ==> (#[trigger] final(self).entries().contains_key(k)
                        == old(self).entries().contains_key(k))
                    && (old(self).entries().contains_key(k)
                        ==> final(self).entries()[k] == old(self).entries()[k]),
            forall|k: InternalKey|
                k.index == key.key.index && k != key.key
                    ==> !(#[trigger] final(self).entries().contains_key(k)),
            r == (if old(self).entries().contains_key(key.key) {
                Some(old(self).entries()[key.key])
            } else {
                None::<V>
            }),
    {
        let ghost pre = *self;
        let idx = key.key.index;
        let mut n = self.cells.len();
        while n <= idx
            invariant
                n == self.cells@.len(),
                self.id == pre.id,
                pre.cells@.len() <= self.cells@.len(),
                forall|i: int| 0 <= i < pre.cells@.len() ==> self.cells@[i] == pre.cells@[i],
                forall|i: int|
                    pre.cells@.len() <= i < self.cells@.len() ==> (#[trigger] self.cells@[i])
                        is None,
            decreases idx + 1 - n,
        {
            self.cells.push(None);
            n = self.cells.len();
        }
        proof {
            assert(self.entries() =~= pre.entries());
        }
        let ghost grown = *self;
        let mut cell = Some((key.key.generation, value));
        core::mem::swap(&mut self.cells[idx], &mut cell);
        proof {
            assert(self.entries() =~= grown.entries().remove(
                InternalKey { index: idx, generation: cell_generation(grown.cells@[idx as int]) },
            ).insert(key.key, value));
        }
        match cell {
            Some(pair) => {
                if pair.0 == key.key.generation {
                    Some(pair.1)
                } else {
                    None
                }
            },
            None => None,
        }
    }

    /// Look up `index`, yielding the stored value only when the handle
    /// carries this map's tag and names a stored entry.
    pub fn get(&self, index: UniqueId<K>) -> (r: Option<&V>)
        ensures
            match r {
                Some(v) => self.spec_get(index) == Some(*v),
                None => self.spec_get(index) is None,
            },
    {
        match self.check_key(index) {
            None => None,
            Some(key) => {
                if key.index >= self.cells.len() {
                    return None;
                }
                match &self.cells[key.index] {
                    Some(pair) => {
                        if pair.0 == key.generation {
                            Some(&pair.1)
                        } else {
                            None
                        }
                    },
                    None => None,
                }
            },
        }
    }

    /// Whether `index` names a stored entry; false both for a foreign tag
    /// and for a stale or unknown key.
    pub fn contains_key(&self, index: UniqueId<K>) -> (r: bool)
        ensures
            r == self.spec_contains(index),
    {
        match self.get(index) {
            Some(_) => true,
            None => false,
        }
    }

    /// Look up a handle that is known to name a stored entry; the caller
    /// establishes that, for instance through `contains_key`.
    pub fn index(&self, index: UniqueId<K>) -> (r: &V)
        requires
            self.spec_contains(index),
        ensures
            *r == self.entries()[index.key],
    {
        match self.get(index) {
            Some(v) => v,
            None => unreached(),
        }
    }

    /// Borrow the value of a handle that is known to name a stored entry
    /// for writing. Only the borrowed entry can change.
    pub fn index_mut(&mut self, index: UniqueId<K>) -> (r: &mut V)
        requires
            old(self).spec_contains(index),
        ensures
            *r == old(self).entries()[index.key],
            final(self).tag() == old(self).tag(),
            final(self).entries() =~= old(self).entries().insert(index.key, *final(r)),
    {
        let i = index.key.index;
        let cell = &mut self.cells[i];
        match cell {
            Some(pair) => &mut pair.1,
            None => unreached(),
        }
    }

    /// Borrow the value of `index` for writing when the handle names a
    /// stored entry here; a foreign tag and a stale key both yield nothing.
    pub fn get_mut(&mut self, index: UniqueId<K>) -> (r: Option<&mut V>)
        ensures
            final(self).tag() == old(self).tag(),
            match r {
                None => old(self).spec_get(index) is None && *final(self) == *old(self),
                Some(v) => {
                    &&& old(self).spec_contains(index)
                    &&& *v == old(self).entries()[index.key]
                    &&& final(self).entries() =~= old(self).entries().insert(
                        index.key,
                        *final(v),
                    )
                },
            },
    {
        if index.map_id != self.id {
            return None;
        }
        let i = index.key.index;
        if i >= self.cells.len() {
            return None;
        }
        let live = match &self.cells[i] {
            Some(pair) => pair.0 == index.key.generation,
            None => false,
        };
        if live {
            Some(self.index_mut(index))
        } else {
            None
        }
    }

    /// Remove the entry named by `index`, yielding its value when the
    /// handle carried this map's tag and named a stored entry.
    pub fn remove(&mut self, index: UniqueId<K>) -> (r: Option<V>)
        ensures
            final(self).tag() == old(self).tag(),
            match r {
                Some(v) => {
                    &&& old(self).spec_get(index) == Some(v)
                    &&& final(self).entries() == old(self).entries().remove(index.key)
                },
                None => old(self).spec_get(index) is None && *final(self) == *old(self),
            },
    {
        let ghost pre = *self;
        let key = match self.check_key(index) {
            Some(key) => key,
            None => {
                return None;
            },
        };
        if key.index >= self.cells.len() {
            return None;
        }
        let live = match &self.cells[key.index] {
            Some(pair) => pair.0 == key.generation,
            None => false,
        };
        if !live {
            return None;
        }
        let mut cell = None;
        core::mem::swap(&mut self.cells[key.index], &mut cell);
        proof {
            assert(self.entries() =~= pre.entries().remove(index.key));
        }
        match cell {
            Some(pair) => Some(pair.1),
            None => unreached(),
        }
    }

    /// Every handle with a stored entry, in unspecified order; each carries
    /// this map's tag, no key appears twice, and every entry is represented.
    pub fn keys(&self) -> (r: Vec<UniqueId<K>>)
        ensures
            forall|i: int|
                0 <= i < r@.len() ==> self.spec_contains(#[trigger] r@[i]) && r@[i]
                    == self.handle_for(r@[i].key),
            forall|i: int, j: int| 0 <= i < j < r@.len() ==> r@[i].key != r@[j].key,
            forall|k: InternalKey|
                #[trigger] self.entries().contains_key(k) ==> r@.contains(self.handle_for(k)),
    {
        let mut r: Vec<UniqueId<K>> = Vec::new();
        let n = self.cells.len();
        let mut idx: usize = 0;
        while idx < n
            invariant
                n == self.cells@.len(),
                idx <= n,
                forall|i: int|
                    0 <= i < r@.len() ==> self.spec_contains(#[trigger] r@[i]) && r@[i]
                        == self.handle_for(r@[i].key) && (r@[i].key.index as int) < idx as int,
                forall|i: int, j: int| 0 <= i < j < r@.len() ==> r@[i].key != r@[j].key,
                forall|k: InternalKey|
                    #[trigger] self.entries().contains_key(k) && (k.index as int) < idx as int
                        ==> r@.contains(self.handle_for(k)),
            decreases n - idx,
        {
            match &self.cells[idx] {
                Some(pair) => {
                    let h = UniqueId {
                        key: InternalKey { index: idx, generation: pair.0 },
                        map_id: self.id,
                        kind: PhantomData,
                    };
                    let ghost r0 = r@;
                    r.push(h);
                    proof {
                        assert forall|k: InternalKey|
                            #[trigger] self.entries().contains_key(k) && (k.index as int)
                                <= idx as int implies r@.contains(self.handle_for(k)) by {
                            if (k.index as int) < idx as int {
                                let i = choose|i: int|
                                    0 <= i < r0.len() && r0[i] == self.handle_for(k);
                                assert(r@[i] == self.handle_for(k));
                            } else {
                                assert(k.generation == cell_generation(self.cells@[idx as int]));
                                assert(r@[r0.len() as int] == self.handle_for(k));
                            }
                        }
                    }
                },
                None => {},
            }
            idx = idx + 1;
        }
        r
    }

    /// The handle this map would accept for internal key `k`.
    pub open spec fn handle_for(self, k: InternalKey) -> UniqueId<K> {
        UniqueId { key: k, map_id: self.tag(), kind: PhantomData }
    }

    /// Every stored entry as a pair of its handle and a borrow of its
    /// value, in unspecified order; no key appears twice, and every entry
    /// is represented.
    pub fn iter(&self) -> (r: Vec<(UniqueId<K>, &V)>)
        ensures
            forall|i: int|
                0 <= i < r@.len() ==> self.spec_contains(#[trigger] r@[i].0) && r@[i].0
                    == self.handle_for(r@[i].0.key) && *r@[i].1 == self.entries()[r@[i].0.key],
            forall|i: int, j: int| 0 <= i < j < r@.len() ==> r@[i].0.key != r@[j].0.key,
            forall|k: InternalKey|
                #[trigger] self.entries().contains_key(k) ==> exists|i: int|
                    0 <= i < r@.len() && r@[i].0 == self.handle_for(k),
    {
        let mut r: Vec<(UniqueId<K>, &V)> = Vec::new();
        let n = self.cells.len();
        let mut idx: usize = 0;
        while idx < n
            invariant
                n == self.cells@.len(),
                idx <= n,
                forall|i: int|
                    0 <= i < r@.len() ==> self.spec_contains(#[trigger] r@[i].0) && r@[i].0
                        == self.handle_for(r@[i].0.key) && *r@[i].1 == self.entries()[r@[i].0.key]
                        && (r@[i].0.key.index as int) < idx as int,
                forall|i: int, j: int| 0 <= i < j < r@.len() ==> r@[i].0.key != r@[j].0.key,
                forall|k: InternalKey|
                    #[trigger] self.entries().contains_key(k) && (k.index as int) < idx as int
                        ==> exists|i: int| 0 <= i < r@.len() && r@[i].0 == self.handle_for(k),
            decreases n - idx,
        {
            match &self.cells[idx] {
                Some(pair) => {
                    let h = UniqueId {
                        key: InternalKey { index: idx, generation: pair.0 },
                        map_id: self.id,
                        kind: PhantomData,
                    };
                    let ghost r0 = r@;
                    r.push((h, &pair.1));
                    proof {
                        assert forall|k: InternalKey|
                            #[trigger] self.entries().contains_key(k) && (k.index as int)
                                <= idx as int implies exists|i: int|
                            0 <= i < r@.len() && r@[i].0 == self.handle_for(k) by {
                            if (k.index as int) < idx as int {
                                let i = choose|i: int|
                                    0 <= i < r0.len() && r0[i].0 == self.handle_for(k);
                                assert(r@[i].0 == self.handle_for(k));
                            } else {
                                assert(k.generation == cell_generation(self.cells@[idx as int]));
                                assert(r@[r0.len() as int].0 == self.handle_for(k));
                            }
                        }
                    }
                },
                None => {},
            }
            idx = idx + 1;
        }
        r
    }

    /// Keep exactly the entries the predicate approves of, removing the
    /// rest; each surviving entry keeps its value and its handle.
    pub fn retain<F: Fn(UniqueId<K>, &V) -> bool>(&mut self, f: F)
        requires
            forall|h: UniqueId<K>, v: &V|
                old(self).spec_get(h) == Some(*v) ==> #[trigger] f.requires((h, v)),
        ensures
            final(self).tag() == old(self).tag(),
            forall|k: InternalKey|
                #[trigger] final(self).entries().contains_key(k)
                    ==> old(self).entries().contains_key(k)
                    && final(self).entries()[k] == old(self).entries()[k],
            forall|k: InternalKey|
                #[trigger] old(self).entries().contains_key(k) ==> f.ensures(
                    (old(self).handle_for(k), &old(self).entries()[k]),
                    final(self).entries().contains_key(k),
                ),
    {
        let ghost pre = *self;
        let n = self.cells.len();
        let mut idx: usize = 0;
        while idx < n
            invariant
                self.id == pre.id,
                n == self.cells@.len(),
                n == pre.cells@.len(),
                idx <= n,
                forall|h: UniqueId<K>, v: &V|
                    pre.spec_get(h) == Some(*v) ==> #[trigger] f.requires((h, v)),
                forall|i: int|
                    idx as int <= i < n as int ==> #[trigger] self.cells@[i] == pre.cells@[i],
                forall|i: int|
                    0 <= i < idx as int && (#[trigger] pre.cells@[i]) is None ==> self.cells@[i]
                        == pre.cells@[i],
                forall|i: int|
                    0 <= i < idx as int && (#[trigger] pre.cells@[i]) is Some ==> {
                        let k = InternalKey {
                            index: i as usize,
                            generation: cell_generation(pre.cells@[i]),
                        };
                        ||| (self.cells@[i] == pre.cells@[i] && f.ensures(
                            (pre.handle_for(k), &cell_value(pre.cells@[i])),
                            true,
                        ))
                        ||| (self.cells@[i] is None && f.ensures(
                            (pre.handle_for(k), &cell_value(pre.cells@[i])),
                            false,
                        ))
                    },
            decreases n - idx,
        {
            let keep = match &self.cells[idx] {
                Some(pair) => {
                    let h = UniqueId {
                        key: InternalKey { index: idx, generation: pair.0 },
                        map_id: self.id,
                        kind: PhantomData,
                    };
                    proof {
                        assert(pre.entries().contains_key(h.key));
                        assert(pre.spec_get(h) == Some(cell_value(pre.cells@[idx as int])));
                    }
                    f(h, &pair.1)
                },
                None => true,
            };
            if !keep {
                let ghost before = *self;
                let mut cell = None;
                core::mem::swap(&mut self.cells[idx], &mut cell);
                proof {
                    assert(self.entries() =~= before.entries().remove(
                        InternalKey {
                            index: idx,
                            generation: cell_generation(before.cells@[idx as int]),
                        },
                    ));
                }
            }
            idx = idx + 1;
        }
        proof {
            assert forall|k: InternalKey| #[trigger] self.entries().contains_key(k) implies pre
                .entries().contains_key(k) && self.entries()[k] == pre.entries()[k] by {
                assert(pre.cells@[k.index as int] is Some);
            }
            assert forall|k: InternalKey| #[trigger] pre.entries().contains_key(k) implies f
                .ensures(
                (pre.handle_for(k), &pre.entries()[k]),
                self.entries().contains_key(k),
            ) by {
                assert(pre.cells@[k.index as int] is Some);
                if self.cells@[k.index as int] == pre.cells@[k.index as int] {
                    assert(self.entries().contains_key(k));
                } else {
                    assert(!self.entries().contains_key(k));
                }
            }
        }
    }

    /// A handle whose tag is not this map's is invisible to the reading
    /// accessors and refused by `insert`, whatever its key says.
    pub proof fn lemma_foreign_tag_rejected(m: Self, h: UniqueId<K>)
        requires
            h.map_id != m.tag(),
        ensures
            m.spec_get(h) is None,
            !m.spec_contains(h),
    {
    }
}

} // verus!
