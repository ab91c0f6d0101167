use vstd::prelude::*;

use crate::keyed::KeyedVec;
use crate::kv::{lists_each_key_once, string_views, KvStore};
use crate::table::{all_occupied, HandleTable, TableError};

verus! {

/// The number of stores a host holds when its owner names no other bound.
pub const DEFAULT_CAPACITY: u32 = 1024;

/// Why a call on the host failed.
#[derive(Debug, Clone, Copy, PartialEq, Eq, Structural)]
pub enum KvError {
    /// The handle does not refer to a live store.
    NoSuchStore,
    /// A new store was asked for, but every slot of the store table is taken.
    TableFull,
}

/// A handle to a store, as returned by `get_or_create`.
#[derive(Debug, Clone, Copy, PartialEq, Eq, Structural)]
pub struct StoreHandle {
    pub rep: u32,
}

/// A handle through which a store is read and written. It is obtained by
/// opening a `StoreHandle` and carries the same slot number: the two are two
/// capabilities on one slot, not two resources.
#[derive(Debug, Clone, Copy, PartialEq, Eq, Structural)]
pub struct CrudHandle {
    pub rep: u32,
}

/// The abstract state of a host: which identifier names which slot, what each
/// slot of the store table holds, and how many slots the table may have.
pub struct HostModel {
    pub ids: Map<Seq<char>, u32>,
    pub stores: Seq<Option<Map<Seq<char>, Seq<u8>>>>,
    pub capacity: nat,
}

/// The contents of each slot of a store table.
pub open spec fn store_views(slots: Seq<Option<KvStore>>) -> Seq<Option<Map<Seq<char>, Seq<u8>>>> {
    slots.map_values(
        |o: Option<KvStore>|
            match o {
                Some(s) => Some(s@),
                None => None,
            },
    )
}

/// A lookup result with the bytes seen as a sequence.
pub open spec fn lookup_view(r: Result<Option<Vec<u8>>, KvError>) -> Result<Option<Seq<u8>>, KvError> {
    match r {
        Ok(Some(v)) => Ok(Some(v@)),
        Ok(None) => Ok(None),
        Err(e) => Err(e),
    }
}

impl HostModel {
    /// The table never exceeds its capacity, every identifier names a live
    /// store, and no two identifiers name the same one.
    pub open spec fn wf(self) -> bool {
        &&& self.stores.len() <= self.capacity
        &&& forall|id: Seq<char>| #[trigger]
            self.ids.contains_key(id) ==> self.store_at(self.ids[id]) is Some
        &&& forall|a: Seq<char>, b: Seq<char>|
            self.ids.contains_key(a) && self.ids.contains_key(b) && a != b ==> #[trigger] self.ids[a]
                != #[trigger] self.ids[b]
    }

    /// The store in slot `rep`, if that slot is occupied.
    pub open spec fn store_at(self, rep: u32) -> Option<Map<Seq<char>, Seq<u8>>> {
        if rep < self.stores.len() {
            self.stores[rep as int]
        } else {
            None
        }
    }

    /// What reading `key` through handle `rep` gives.
    pub open spec fn lookup(self, rep: u32, key: Seq<char>) -> Result<Option<Seq<u8>>, KvError> {
        match self.store_at(rep) {
            Some(m) => Ok(
                if m.contains_key(key) {
                    Some(m[key])
                } else {
                    None
                },
            ),
            None => Err(KvError::NoSuchStore),
        }
    }

    /// What asking whether `key` is set through handle `rep` gives.
    pub open spec fn has_key(self, rep: u32, key: Seq<char>) -> Result<bool, KvError> {
        match self.store_at(rep) {
            Some(m) => Ok(m.contains_key(key)),
            None => Err(KvError::NoSuchStore),
        }
    }

    /// What a write through handle `rep` returns: it fails only on a handle
    /// that does not resolve.
    pub open spec fn write_result(self, rep: u32) -> Result<(), KvError> {
        match self.store_at(rep) {
            Some(_) => Ok(()),
            None => Err(KvError::NoSuchStore),
        }
    }

    /// The state after storing `value` under `key` through handle `rep`.
    pub open spec fn with_value(self, rep: u32, key: Seq<char>, value: Seq<u8>) -> HostModel {
        match self.store_at(rep) {
            Some(m) => HostModel { stores: self.stores.update(rep as int, Some(m.insert(key, value))), ..self },
            None => self,
        }
    }

    /// The state after removing `key` through handle `rep`.
    pub open spec fn without_key(self, rep: u32, key: Seq<char>) -> HostModel {
        match self.store_at(rep) {
            Some(m) => HostModel { stores: self.stores.update(rep as int, Some(m.remove(key))), ..self },
            None => self,
        }
    }

    /// `post` and `r` are what `get_or_create(id)` on `pre` leaves and
    /// returns: the handle already named `id`; else a fresh empty store in the
    /// first free slot, now named `id`; else, with every slot taken,
    /// `TableFull` and no change.
    pub open spec fn created(pre: HostModel, id: Seq<char>, post: HostModel, r: Result<u32, KvError>) -> bool {
        if pre.ids.contains_key(id) {
            post == pre && r == Ok::<u32, KvError>(pre.ids[id])
        } else if all_occupied(pre.stores, pre.capacity) {
            post == pre && r == Err::<u32, KvError>(KvError::TableFull)
        } else {
            match r {
                Ok(h) => {
                    &&& h < pre.capacity
                    &&& h <= pre.stores.len()
                    &&& pre.store_at(h) is None
                    &&& forall|j: int| 0 <= j < h ==> #[trigger] pre.stores[j] is Some
                    &&& post.stores == if h < pre.stores.len() {
                        pre.stores.update(h as int, Some(Map::empty()))
                    } else {
                        pre.stores.push(Some(Map::empty()))
                    }
                    &&& post.ids == pre.ids.insert(id, h)
                    &&& post.capacity == pre.capacity
                },
                Err(_) => false,
            }
        }
    }
}

/// The host side of the key-value service: a table of stores, a registry from
/// identifiers to their handles, and the read/write operations on handles.
///
/// Operations that read take `&self` and those that write take `&mut self`,
/// so the borrow rules give each store many readers or one writer at a time,
/// and make `get_or_create` one atomic check-and-insert. Callers on several
/// threads share a host behind a reader/writer lock.
pub struct KvHost {
    stores: HandleTable<KvStore>,
    ids: KeyedVec<u32>,
}

impl View for KvHost {
    type V = HostModel;

    closed spec fn view(&self) -> HostModel {
        HostModel {
            ids: self.ids@,
            stores: store_views(self.stores@),
            capacity: self.stores.spec_capacity(),
        }
    }
}

impl KvHost {
    pub closed spec fn wf(&self) -> bool {
        &&& self.stores.wf()
        &&& self.ids.wf()
        &&& self@.wf()
        &&& forall|i: int|
            0 <= i < self.stores@.len() && #[trigger] self.stores@[i] is Some
                ==> self.stores@[i].unwrap().wf()
    }

    /// A host with no stores, whose table holds at most `capacity` of them.
    pub fn new(capacity: u32) -> (r: Self)
        ensures
            r.wf(),
            r@.ids == Map::<Seq<char>, u32>::empty(),
            r@.stores == Seq::<Option<Map<Seq<char>, Seq<u8>>>>::empty(),
            r@.capacity == capacity,
    {
        let r = KvHost { stores: HandleTable::new(capacity), ids: KeyedVec::new() };
        assert(r@.stores =~= Seq::<Option<Map<Seq<char>, Seq<u8>>>>::empty());
        r
    }

    /// The handle of the store named `identifier`, creating an empty store
    /// for it when there is none yet.
    pub fn get_or_create(&mut self, identifier: String) -> (r: Result<StoreHandle, KvError>)
        requires
            old(self).wf(),
        ensures
            final(self).wf(),
            HostModel::created(
                old(self)@,
                identifier@,
                final(self)@,
                match r {
                    Ok(h) => Ok(h.rep),
                    Err(e) => Err(e),
                },
            ),
    {
        match self.ids.get(&identifier) {
            Some(h) => Ok(StoreHandle { rep: *h }),
            None => {
                let ghost pre = self@;
                let ghost pre_slots = self.stores@;
                match self.stores.push(KvStore::new()) {
                    Ok(h) => {
                        let ghost id = identifier@;
                        self.ids.insert(identifier, h);
                        assert(self@.stores =~= if h < pre.stores.len() {
                            pre.stores.update(h as int, Some(Map::empty()))
                        } else {
                            pre.stores.push(Some(Map::empty()))
                        });
                        assert forall|j: int| 0 <= j < h implies #[trigger] pre.stores[j] is Some by {
                            assert(pre_slots[j] is Some);
                        }
                        assert forall|a: Seq<char>| #[trigger]
                            self@.ids.contains_key(a) implies self@.store_at(self@.ids[a]) is Some by {
                            if a != id {
                                assert(pre.store_at(pre.ids[a]) is Some);
                            }
                        }
                        assert forall|a: Seq<char>, b: Seq<char>|
                            self@.ids.contains_key(a) && self@.ids.contains_key(b) && a
                                != b implies #[trigger] self@.ids[a] != #[trigger] self@.ids[b] by {
                            if a == id {
                                assert(pre.store_at(pre.ids[b]) is Some);
                            } else if b == id {
                                assert(pre.store_at(pre.ids[a]) is Some);
                            }
                        }
                        Ok(StoreHandle { rep: h })
                    },
                    Err(_) => {
                        assert forall|j: int| 0 <= j < pre.stores.len() implies #[trigger]
                            pre.stores[j] is Some by {
                            assert(pre_slots[j] is Some);
                        }
                        Err(KvError::TableFull)
                    },
                }
            },
        }
    }

    /// Opens a store for reading and writing. The result names the same slot
    /// as `store`; the table is not consulted, so a stale handle opens fine
    /// and fails at first use.
    pub fn open(&self, store: StoreHandle) -> (r: CrudHandle)
        ensures
            r.rep == store.rep,
    {
        CrudHandle { rep: store.rep }
    }

    /// A copy of the value under `key` in the store of `crud`.
    pub fn get(&self, crud: CrudHandle, key: &String) -> (r: Result<Option<Vec<u8>>, KvError>)
        requires
            self.wf(),
        ensures
            lookup_view(r) == self@.lookup(crud.rep, key@),
    {
        match self.stores.get(crud.rep) {
            Some(s) => Ok(s.get(key)),
            None => Err(KvError::NoSuchStore),
        }
    }

    /// Whether `key` is set in the store of `crud`.
    pub fn contains_key(&self, crud: CrudHandle, key: &String) -> (r: Result<bool, KvError>)
        requires
            self.wf(),
        ensures
            r == self@.has_key(crud.rep, key@),
    {
        match self.stores.get(crud.rep) {
            Some(s) => Ok(s.contains_key(key)),
            None => Err(KvError::NoSuchStore),
        }
    }

    /// Every key of the store of `crud`, each once, in no particular order.
    pub fn list_keys(&self, crud: CrudHandle) -> (r: Result<Vec<String>, KvError>)
        requires
            self.wf(),
        ensures
            match r {
                Ok(keys) => self@.store_at(crud.rep) is Some && lists_each_key_once(
                    string_views(keys@),
                    self@.store_at(crud.rep).unwrap(),
                ),
                Err(e) => e == KvError::NoSuchStore && self@.store_at(crud.rep) is None,
            },
    {
        match self.stores.get(crud.rep) {
            Some(s) => Ok(s.list_keys()),
            None => Err(KvError::NoSuchStore),
        }
    }

    /// Stores `value` under `key` in the store of `crud`, replacing any
    /// earlier value.
    pub fn set(&mut self, crud: CrudHandle, key: String, value: Vec<u8>) -> (r: Result<(), KvError>)
        requires
            old(self).wf(),
        ensures
            final(self).wf(),
            r == old(self)@.write_result(crud.rep),
            final(self)@ == old(self)@.with_value(crud.rep, key@, value@),
    {
        let ghost pre = self@;
        let ghost k = key@;
        let ghost v = value@;
        match self.stores.remove(crud.rep) {
            Some(mut s) => {
                s.set(key, value);
                self.stores.fill(crud.rep, s);
                assert(self@.stores =~= pre.with_value(crud.rep, k, v).stores);
                proof {
                    self.lemma_registry_kept(pre);
                }
                Ok(())
            },
            None => {
                assert(self@.stores =~= pre.stores);
                Err(KvError::NoSuchStore)
            },
        }
    }

    /// Removes `key` from the store of `crud`; a key that is not there is no
    /// error.
    pub fn delete(&mut self, crud: CrudHandle, key: &String) -> (r: Result<(), KvError>)
        requires
            old(self).wf(),
        ensures
            final(self).wf(),
            r == old(self)@.write_result(crud.rep),
            final(self)@ == old(self)@.without_key(crud.rep, key@),
    {
        let ghost pre = self@;
        match self.stores.remove(crud.rep) {
            Some(mut s) => {
                s.delete(key);
                self.stores.fill(crud.rep, s);
                assert(self@.stores =~= pre.without_key(crud.rep, key@).stores);
                proof {
                    self.lemma_registry_kept(pre);
                }
                Ok(())
            },
            None => {
                assert(self@.stores =~= pre.stores);
                Err(KvError::NoSuchStore)
            },
        }
    }

    /// A write that keeps the registry and the set of occupied slots keeps
    /// the registry's invariant.
    proof fn lemma_registry_kept(&self, pre: HostModel)
        requires
            pre.wf(),
            self@.ids == pre.ids,
            self@.capacity == pre.capacity,
            self@.stores.len() == pre.stores.len(),
            forall|j: int| 0 <= j < pre.stores.len() ==> (#[trigger] self@.stores[j] is Some
                <==> pre.stores[j] is Some),
        ensures
            self@.wf(),
    {
        assert forall|a: Seq<char>| #[trigger]
            self@.ids.contains_key(a) implies self@.store_at(self@.ids[a]) is Some by {
            assert(pre.store_at(pre.ids[a]) is Some);
        }
    }
}

} // verus!
