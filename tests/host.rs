use kv_custom_host::host::{CrudHandle, KvError, KvHost, StoreHandle, DEFAULT_CAPACITY};

fn s(text: &str) -> String {
    text.to_string()
}

#[test]
fn scenario_set_get_exists_delete() {
    let mut host = KvHost::new(DEFAULT_CAPACITY);
    let h = host.get_or_create(s("a")).unwrap();
    let c = host.open(h);
    assert_eq!(c.rep, h.rep);
    assert_eq!(host.set(c, s("x"), vec![1, 2, 3]), Ok(()));
    assert_eq!(host.get(c, &s("x")), Ok(Some(vec![1, 2, 3])));
    assert_eq!(host.contains_key(c, &s("x")), Ok(true));
    assert_eq!(host.delete(c, &s("x")), Ok(()));
    assert_eq!(host.get(c, &s("x")), Ok(None));
}

#[test]
fn get_or_create_is_idempotent() {
    let mut host = KvHost::new(4);
    let first = host.get_or_create(s("id")).unwrap();
    let second = host.get_or_create(s("id")).unwrap();
    assert_eq!(first, second);
    let other = host.get_or_create(s("other")).unwrap();
    assert_ne!(first, other);
    assert_eq!(host.get_or_create(s("id")), Ok(first));
}

#[test]
fn handles_are_given_in_slot_order() {
    let mut host = KvHost::new(4);
    assert_eq!(host.get_or_create(s("a")), Ok(StoreHandle { rep: 0 }));
    assert_eq!(host.get_or_create(s("b")), Ok(StoreHandle { rep: 1 }));
    assert_eq!(host.get_or_create(s("a")), Ok(StoreHandle { rep: 0 }));
    assert_eq!(host.get_or_create(s("c")), Ok(StoreHandle { rep: 2 }));
}

#[test]
fn stores_are_isolated() {
    let mut host = KvHost::new(4);
    let h_one = host.get_or_create(s("one")).unwrap();
    let c1 = host.open(h_one);
    let h_two = host.get_or_create(s("two")).unwrap();
    let c2 = host.open(h_two);
    host.set(c1, s("k"), vec![7]).unwrap();
    assert_eq!(host.get(c2, &s("k")), Ok(None));
    assert_eq!(host.contains_key(c2, &s("k")), Ok(false));
    assert_eq!(host.list_keys(c2), Ok(Vec::<String>::new()));
    host.set(c2, s("k"), vec![8]).unwrap();
    host.delete(c2, &s("k")).unwrap();
    assert_eq!(host.get(c1, &s("k")), Ok(Some(vec![7])));
}

#[test]
fn set_then_get_round_trips() {
    let mut host = KvHost::new(2);
    let h_rt = host.get_or_create(s("rt")).unwrap();
    let c = host.open(h_rt);
    host.set(c, s("empty"), vec![]).unwrap();
    assert_eq!(host.get(c, &s("empty")), Ok(Some(vec![])));
    host.set(c, s(""), vec![0, 255]).unwrap();
    assert_eq!(host.get(c, &s("")), Ok(Some(vec![0, 255])));
    host.set(c, s("empty"), vec![9, 9]).unwrap();
    assert_eq!(host.get(c, &s("empty")), Ok(Some(vec![9, 9])));
}

#[test]
fn delete_of_absent_key_succeeds() {
    let mut host = KvHost::new(2);
    let h_d = host.get_or_create(s("d")).unwrap();
    let c = host.open(h_d);
    assert_eq!(host.delete(c, &s("missing")), Ok(()));
    host.set(c, s("k"), vec![1]).unwrap();
    host.delete(c, &s("k")).unwrap();
    assert_eq!(host.get(c, &s("k")), Ok(None));
    assert_eq!(host.delete(c, &s("k")), Ok(()));
}

#[test]
fn membership_matches_get() {
    let mut host = KvHost::new(2);
    let h_m = host.get_or_create(s("m")).unwrap();
    let c = host.open(h_m);
    host.set(c, s("present"), vec![3]).unwrap();
    for key in ["present", "absent"] {
        let got = host.get(c, &s(key)).unwrap();
        assert_eq!(host.contains_key(c, &s(key)), Ok(got.is_some()));
    }
    assert_eq!(host.contains_key(c, &s("present")), Ok(true));
    assert_eq!(host.contains_key(c, &s("absent")), Ok(false));
}

#[test]
fn invalid_handle_gives_no_such_store() {
    let mut host = KvHost::new(2);
    let bogus = CrudHandle { rep: 1 };
    assert_eq!(host.get(bogus, &s("k")), Err(KvError::NoSuchStore));
    assert_eq!(host.set(bogus, s("k"), vec![1]), Err(KvError::NoSuchStore));
    assert_eq!(host.delete(bogus, &s("k")), Err(KvError::NoSuchStore));
    assert_eq!(host.contains_key(bogus, &s("k")), Err(KvError::NoSuchStore));
    assert_eq!(host.list_keys(bogus), Err(KvError::NoSuchStore));
    let far = CrudHandle { rep: u32::MAX };
    assert_eq!(host.get(far, &s("k")), Err(KvError::NoSuchStore));
    let stale = host.open(StoreHandle { rep: 0 });
    assert_eq!(host.list_keys(stale), Err(KvError::NoSuchStore));
    host.get_or_create(s("now")).unwrap();
    assert_eq!(host.list_keys(stale), Ok(Vec::<String>::new()));
}

#[test]
fn creation_beyond_capacity_is_table_full() {
    let mut host = KvHost::new(3);
    assert!(host.get_or_create(s("a")).is_ok());
    assert!(host.get_or_create(s("b")).is_ok());
    assert!(host.get_or_create(s("c")).is_ok());
    assert_eq!(host.get_or_create(s("d")), Err(KvError::TableFull));
    assert_eq!(host.get_or_create(s("b")), Ok(StoreHandle { rep: 1 }));
    let c = host.open(StoreHandle { rep: 2 });
    assert_eq!(host.set(c, s("still"), vec![1]), Ok(()));
}

#[test]
fn zero_capacity_holds_no_store() {
    let mut host = KvHost::new(0);
    assert_eq!(host.get_or_create(s("a")), Err(KvError::TableFull));
}

#[test]
fn many_writers_on_distinct_keys_all_land() {
    let lock = std::sync::RwLock::new(KvHost::new(DEFAULT_CAPACITY));
    let c = {
        let mut host = lock.write().unwrap();
        let h = host.get_or_create(s("shared")).unwrap();
        host.open(h)
    };
    for i in 0..100 {
        let mut host = lock.write().unwrap();
        host.set(c, format!("k{i}"), format!("v{i}").into_bytes()).unwrap();
    }
    let host = lock.read().unwrap();
    let mut keys = host.list_keys(c).unwrap();
    keys.sort();
    let mut expected: Vec<String> = (0..100).map(|i| format!("k{i}")).collect();
    expected.sort();
    assert_eq!(keys, expected);
    assert_eq!(host.get(c, &s("k42")), Ok(Some(b"v42".to_vec())));
}
