use vstd::prelude::*;

use crate::keyed::KeyedVec;

verus! {

/// Whether `keys` lists every key of `m` exactly once, in some order.
pub open spec fn lists_each_key_once<V>(keys: Seq<Seq<char>>, m: Map<Seq<char>, V>) -> bool {
    &&& forall|k: Seq<char>| m.contains_key(k) <==> exists|i: int| 0 <= i < keys.len() && #[trigger] keys[i] == k
    &&& forall|i: int, j: int|
        0 <= i < keys.len() && 0 <= j < keys.len() && i != j ==> #[trigger] keys[i] != #[trigger] keys[j]
}

/// The views of a list of strings.
pub open spec fn string_views(v: Seq<String>) -> Seq<Seq<char>> {
    v.map_values(|s: String| s@)
}

/// One named store: a mapping from string keys to byte values.
pub struct KvStore {
    kv: KeyedVec<Vec<u8>>,
}

impl View for KvStore {
    type V = Map<Seq<char>, Seq<u8>>;

    closed spec fn view(&self) -> Map<Seq<char>, Seq<u8>> {
        self.kv@.map_values(|v: Vec<u8>| v@)
    }
}

impl KvStore {
    pub closed spec fn wf(&self) -> bool {
        self.kv.wf()
    }

    /// An empty store.
    pub fn new() -> (r: Self)
        ensures
            r.wf(),
            r@ == Map::<Seq<char>, Seq<u8>>::empty(),
    {
        let r = KvStore { kv: KeyedVec::new() };
        assert(r@ =~= Map::<Seq<char>, Seq<u8>>::empty());
        r
    }

    /// A copy of the value under `key`, or `None` when the key is unset.
    pub fn get(&self, key: &String) -> (r: Option<Vec<u8>>)
        requires
            self.wf(),
        ensures
            match r {
                Some(v) => self@.contains_key(key@) && v@ == self@[key@],
                None => !self@.contains_key(key@),
            },
    {
        match self.kv.get(key) {
            Some(v) => Some(v.clone()),
            None => None,
        }
    }

    /// Stores `value` under `key`, replacing any earlier value.
    pub fn set(&mut self, key: String, value: Vec<u8>)
        requires
            old(self).wf(),
        ensures
            final(self).wf(),
            final(self)@ == old(self)@.insert(key@, value@),
    {
        let ghost k = key@;
        let ghost v = value@;
        self.kv.insert(key, value);
        assert(self@ =~= old(self)@.insert(k, v));
    }

    /// Removes `key`; a key that is not there is left alone.
    pub fn delete(&mut self, key: &String)
        requires
            old(self).wf(),
        ensures
            final(self).wf(),
            final(self)@ == old(self)@.remove(key@),
    {
        self.kv.remove(key);
        assert(self@ =~= old(self)@.remove(key@));
    }

    /// Whether `key` is set.
    pub fn contains_key(&self, key: &String) -> (r: bool)
        requires
            self.wf(),
        ensures
            r == self@.contains_key(key@),
    {
        self.kv.contains_key(key)
    }

    /// Every key of the store, each once, in no particular order.
    pub fn list_keys(&self) -> (r: Vec<String>)
        requires
            self.wf(),
        ensures
            lists_each_key_once(string_views(r@), self@),
    {
        let r = self.kv.keys();
        let ghost sv = string_views(r@);
        assert forall|i: int| 0 <= i < r.len() implies #[trigger] sv[i] == r@[i]@ by {}
        assert forall|k: Seq<char>| self@.contains_key(k) <==> exists|i: int|
            0 <= i < sv.len() && #[trigger] sv[i] == k by {
            if self@.contains_key(k) {
                let i = choose|i: int| 0 <= i < r.len() && #[trigger] r@[i]@ == k;
                assert(sv[i] == k);
            }
            if exists|i: int| 0 <= i < sv.len() && #[trigger] sv[i] == k {
                let i = choose|i: int| 0 <= i < sv.len() && #[trigger] sv[i] == k;
                assert(r@[i]@ == k);
            }
        }
        assert forall|i: int, j: int|
            0 <= i < sv.len() && 0 <= j < sv.len() && i != j implies #[trigger] sv[i]
            != #[trigger] sv[j] by {
            assert(r@[i]@ != r@[j]@);
        }
        r
    }
}

} // verus!
