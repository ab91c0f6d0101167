use vstd::prelude::*;

use crate::host::{HostModel, KvError};
use crate::table::all_occupied;

verus! {

/// Asking twice for the store of one identifier gives the same handle, and
/// the second call changes nothing.
pub proof fn lemma_create_idempotent(
    a: HostModel,
    id: Seq<char>,
    b: HostModel,
    r1: Result<u32, KvError>,
    c: HostModel,
    r2: Result<u32, KvError>,
)
    requires
        HostModel::created(a, id, b, r1),
        HostModel::created(b, id, c, r2),
        r1 is Ok,
    ensures
        r2 == r1,
        c == b,
{
}

/// A write through the handle of one identifier leaves the store of every
/// other identifier as it was.
pub proof fn lemma_isolation(m: HostModel, id1: Seq<char>, id2: Seq<char>, key: Seq<char>, value: Seq<u8>)
    requires
        m.wf(),
        m.ids.contains_key(id1),
        m.ids.contains_key(id2),
        id1 != id2,
    ensures
        m.with_value(m.ids[id1], key, value).store_at(m.ids[id2]) == m.store_at(m.ids[id2]),
        m.without_key(m.ids[id1], key).store_at(m.ids[id2]) == m.store_at(m.ids[id2]),
{
}

/// A store created for a new identifier starts empty, and the stores of the
/// identifiers already known are left as they were.
pub proof fn lemma_fresh_store_isolated(a: HostModel, id: Seq<char>, b: HostModel, h: u32, other: Seq<char>)
    requires
        a.wf(),
        !a.ids.contains_key(id),
        HostModel::created(a, id, b, Ok(h)),
        a.ids.contains_key(other),
    ensures
        b.store_at(h) == Some(Map::<Seq<char>, Seq<u8>>::empty()),
        b.store_at(b.ids[other]) == a.store_at(a.ids[other]),
{
    assert(a.store_at(a.ids[other]) is Some);
}

/// What was stored under a key is what is read back.
pub proof fn lemma_set_then_get(m: HostModel, rep: u32, key: Seq<char>, value: Seq<u8>)
    requires
        m.write_result(rep) is Ok,
    ensures
        m.with_value(rep, key, value).lookup(rep, key) == Ok::<Option<Seq<u8>>, KvError>(Some(value)),
{
}

/// After a delete the key reads as unset; deleting a key that is not there
/// succeeds and changes nothing.
pub proof fn lemma_delete_then_get(m: HostModel, rep: u32, key: Seq<char>)
    ensures
        m.write_result(rep) is Ok ==> m.without_key(rep, key).lookup(rep, key) == Ok::<
            Option<Seq<u8>>,
            KvError,
        >(None),
        m.lookup(rep, key) == Ok::<Option<Seq<u8>>, KvError>(None) ==> m.write_result(rep) is Ok
            && m.without_key(rep, key) == m,
{
    if m.lookup(rep, key) == Ok::<Option<Seq<u8>>, KvError>(None) {
        let s = m.store_at(rep).unwrap();
        assert(s.remove(key) =~= s);
        assert(m.stores.update(rep as int, Some(s)) =~= m.stores);
    }
}

/// A key is reported as set exactly when reading it gives a value.
pub proof fn lemma_membership_consistent(m: HostModel, rep: u32, key: Seq<char>)
    ensures
        m.has_key(rep, key) == match m.lookup(rep, key) {
            Ok(o) => Ok::<bool, KvError>(o is Some),
            Err(e) => Err::<bool, KvError>(e),
        },
{
}

/// Every operation through a handle whose slot is empty fails with
/// `NoSuchStore` and changes nothing.
pub proof fn lemma_invalid_handle(m: HostModel, rep: u32, key: Seq<char>, value: Seq<u8>)
    requires
        m.store_at(rep) is None,
    ensures
        m.lookup(rep, key) == Err::<Option<Seq<u8>>, KvError>(KvError::NoSuchStore),
        m.has_key(rep, key) == Err::<bool, KvError>(KvError::NoSuchStore),
        m.write_result(rep) == Err::<(), KvError>(KvError::NoSuchStore),
        m.with_value(rep, key, value) == m,
        m.without_key(rep, key) == m,
{
}

/// Two writes to distinct keys of one store both land, in either order.
pub proof fn lemma_distinct_writes_land(
    m: HostModel,
    rep: u32,
    k1: Seq<char>,
    v1: Seq<u8>,
    k2: Seq<char>,
    v2: Seq<u8>,
)
    requires
        m.write_result(rep) is Ok,
        k1 != k2,
    ensures
        m.with_value(rep, k1, v1).with_value(rep, k2, v2) == m.with_value(rep, k2, v2).with_value(
            rep,
            k1,
            v1,
        ),
        m.with_value(rep, k1, v1).with_value(rep, k2, v2).lookup(rep, k1) == Ok::<
            Option<Seq<u8>>,
            KvError,
        >(Some(v1)),
        m.with_value(rep, k1, v1).with_value(rep, k2, v2).lookup(rep, k2) == Ok::<
            Option<Seq<u8>>,
            KvError,
        >(Some(v2)),
{
    let s = m.store_at(rep).unwrap();
    assert(s.insert(k1, v1).insert(k2, v2) =~= s.insert(k2, v2).insert(k1, v1));
    assert(m.with_value(rep, k1, v1).with_value(rep, k2, v2).stores =~= m.with_value(
        rep,
        k2,
        v2,
    ).with_value(rep, k1, v1).stores);
}

/// Creating a store for a new identifier fails with `TableFull` exactly when
/// every slot up to the capacity holds a store.
pub proof fn lemma_full_exactly_when_occupied(a: HostModel, id: Seq<char>, b: HostModel, r: Result<u32, KvError>)
    requires
        a.wf(),
        !a.ids.contains_key(id),
        HostModel::created(a, id, b, r),
    ensures
        (r == Err::<u32, KvError>(KvError::TableFull)) == all_occupied(a.stores, a.capacity),
        r is Ok <==> !all_occupied(a.stores, a.capacity),
{
}

/// Whether `ms`, `ids` and `rs` record a run of `get_or_create` calls: the
/// i-th call, on `ids[i]`, takes `ms[i]` to `ms[i + 1]` and returns `rs[i]`.
pub open spec fn creation_run(ms: Seq<HostModel>, ids: Seq<Seq<char>>, rs: Seq<Result<u32, KvError>>) -> bool {
    &&& ms.len() == ids.len() + 1
    &&& rs.len() == ids.len()
    &&& forall|i: int| 0 <= i < ids.len() ==> HostModel::created(ms[i], ids[i], #[trigger] ms[i + 1], rs[i])
}

proof fn lemma_run_prefix(ms: Seq<HostModel>, ids: Seq<Seq<char>>, rs: Seq<Result<u32, KvError>>, n: int)
    requires
        creation_run(ms, ids, rs),
        ms[0].ids == Map::<Seq<char>, u32>::empty(),
        ms[0].stores.len() == 0,
        forall|i: int, j: int| 0 <= i < j < ids.len() ==> #[trigger] ids[i] != #[trigger] ids[j],
        0 <= n <= ids.len(),
    ensures
        ms[n].capacity == ms[0].capacity,
        ms[n].stores.len() == if n < ms[0].capacity { n } else { ms[0].capacity as int },
        forall|j: int| 0 <= j < ms[n].stores.len() ==> #[trigger] ms[n].stores[j] is Some,
        forall|x: Seq<char>| #[trigger]
            ms[n].ids.contains_key(x) ==> exists|j: int| 0 <= j < n && ids[j] == x,
        forall|i: int| 0 <= i < n ==> (#[trigger] rs[i] is Ok <==> i < ms[0].capacity),
    decreases n,
{
    if n > 0 {
        let p = n - 1;
        lemma_run_prefix(ms, ids, rs, p);
        assert(HostModel::created(ms[p], ids[p], ms[p + 1], rs[p]));
        if ms[p].ids.contains_key(ids[p]) {
            let j = choose|j: int| 0 <= j < p && ids[j] == ids[p];
            assert(ids[j] != ids[p]);
        }
        if p < ms[0].capacity {
            assert(!all_occupied(ms[p].stores, ms[p].capacity));
            let h = rs[p]->Ok_0;
            if h < ms[p].stores.len() {
                assert(ms[p].stores[h as int] is Some);
            }
            assert(h == ms[p].stores.len());
        } else {
            assert(all_occupied(ms[p].stores, ms[p].capacity));
        }
        assert forall|x: Seq<char>| #[trigger] ms[n].ids.contains_key(x) implies exists|j: int|
            0 <= j < n && ids[j] == x by {
            if x != ids[p] && ms[p].ids.contains_key(x) {
                let j = choose|j: int| 0 <= j < p && ids[j] == x;
            }
        }
        assert forall|j: int| 0 <= j < ms[n].stores.len() implies #[trigger] ms[n].stores[j] is Some by {
            if j < ms[p].stores.len() {
                assert(ms[p].stores[j] is Some);
            }
        }
    }
}

/// Starting from an empty host, creating stores for distinct identifiers
/// succeeds for as many of them as the capacity allows, and every creation
/// beyond that fails with `TableFull`.
pub proof fn lemma_capacity_boundary(ms: Seq<HostModel>, ids: Seq<Seq<char>>, rs: Seq<Result<u32, KvError>>)
    requires
        creation_run(ms, ids, rs),
        ms[0].ids == Map::<Seq<char>, u32>::empty(),
        ms[0].stores.len() == 0,
        forall|i: int, j: int| 0 <= i < j < ids.len() ==> #[trigger] ids[i] != #[trigger] ids[j],
    ensures
        forall|i: int| 0 <= i < ids.len() ==> (#[trigger] rs[i] is Ok <==> i < ms[0].capacity),
        forall|i: int|
            ms[0].capacity <= i < ids.len() ==> #[trigger] rs[i] == Err::<u32, KvError>(KvError::TableFull),
{
    lemma_run_prefix(ms, ids, rs, ids.len() as int);
    assert forall|i: int| ms[0].capacity <= i < ids.len() implies #[trigger] rs[i] == Err::<
        u32,
        KvError,
    >(KvError::TableFull) by {
        assert(HostModel::created(ms[i], ids[i], ms[i + 1], rs[i]));
        lemma_run_prefix(ms, ids, rs, i);
        if ms[i].ids.contains_key(ids[i]) {
            let j = choose|j: int| 0 <= j < i && ids[j] == ids[i];
            assert(ids[j] != ids[i]);
        }
    }
}

/// The state after writing `values[i]` under `keys[i]` through handle `rep`,
/// for each `i` in turn.
pub open spec fn with_values(m: HostModel, rep: u32, keys: Seq<Seq<char>>, values: Seq<Seq<u8>>) -> HostModel
    decreases keys.len(),
{
    if keys.len() == 0 || values.len() < keys.len() {
        m
    } else {
        with_values(m, rep, keys.drop_last(), values).with_value(rep, keys.last(), values[keys.len() - 1])
    }
}

/// Any number of writes to distinct keys of one store all land: once they
/// have run, in whatever order the writers were served, each key reads back
/// its own value.
pub proof fn lemma_all_writes_land(m: HostModel, rep: u32, keys: Seq<Seq<char>>, values: Seq<Seq<u8>>)
    requires
        m.write_result(rep) is Ok,
        values.len() == keys.len(),
        forall|i: int, j: int| 0 <= i < j < keys.len() ==> #[trigger] keys[i] != #[trigger] keys[j],
    ensures
        with_values(m, rep, keys, values).write_result(rep) is Ok,
        forall|i: int|
            0 <= i < keys.len() ==> with_values(m, rep, keys, values).lookup(rep, #[trigger] keys[i])
                == Ok::<Option<Seq<u8>>, KvError>(Some(values[i])),
    decreases keys.len(),
{
    if keys.len() > 0 {
        let n = keys.len() - 1;
        let ks = keys.drop_last();
        let vs = values.drop_last();
        lemma_all_writes_land(m, rep, ks, vs);
        assert(with_values(m, rep, ks, values) == with_values(m, rep, ks, vs)) by {
            lemma_with_values_prefix(m, rep, ks, values, vs);
        }
        assert forall|i: int| 0 <= i < keys.len() implies with_values(m, rep, keys, values).lookup(
            rep,
            #[trigger] keys[i],
        ) == Ok::<Option<Seq<u8>>, KvError>(Some(values[i])) by {
            if i < n {
                assert(ks[i] == keys[i]);
                assert(keys[i] != keys[n]);
            }
        }
    }
}

proof fn lemma_with_values_prefix(
    m: HostModel,
    rep: u32,
    keys: Seq<Seq<char>>,
    a: Seq<Seq<u8>>,
    b: Seq<Seq<u8>>,
)
    requires
        keys.len() <= a.len(),
        keys.len() <= b.len(),
        forall|i: int| 0 <= i < keys.len() ==> a[i] == b[i],
    ensures
        with_values(m, rep, keys, a) == with_values(m, rep, keys, b),
    decreases keys.len(),
{
    if keys.len() > 0 {
        lemma_with_values_prefix(m, rep, keys.drop_last(), a, b);
    }
}

} // verus!
