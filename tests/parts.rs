use kv_custom_host::keyed::KeyedVec;
use kv_custom_host::kv::KvStore;
use kv_custom_host::table::{HandleTable, TableError};

#[test]
fn table_push_fills_first_free_slot() {
    let mut t: HandleTable<u8> = HandleTable::new(3);
    assert_eq!(t.push(10), Ok(0));
    assert_eq!(t.push(11), Ok(1));
    assert_eq!(t.push(12), Ok(2));
    assert_eq!(t.push(13), Err(TableError::TableFull));
    assert_eq!(t.remove(1), Some(11));
    assert_eq!(t.get(1), None);
    assert_eq!(t.remove(1), None);
    assert_eq!(t.push(14), Ok(1));
    assert_eq!(t.get(1), Some(&14));
    assert_eq!(t.get(7), None);
    assert_eq!(t.capacity(), 3);
}

#[test]
fn table_fill_restores_a_slot() {
    let mut t: HandleTable<u8> = HandleTable::new(2);
    t.push(1).unwrap();
    let v = t.remove(0).unwrap();
    t.fill(0, v + 1);
    assert_eq!(t.get(0), Some(&2));
}

#[test]
fn keyed_vec_insert_replace_remove() {
    let mut m: KeyedVec<u32> = KeyedVec::new();
    m.insert("a".to_string(), 1);
    m.insert("b".to_string(), 2);
    m.insert("a".to_string(), 3);
    assert_eq!(m.get(&"a".to_string()), Some(&3));
    assert!(m.contains_key(&"b".to_string()));
    let mut keys = m.keys();
    keys.sort();
    assert_eq!(keys, vec!["a".to_string(), "b".to_string()]);
    m.remove(&"a".to_string());
    assert_eq!(m.get(&"a".to_string()), None);
    assert_eq!(m.keys(), vec!["b".to_string()]);
}

#[test]
fn kv_store_operations() {
    let mut st = KvStore::new();
    st.set("k".to_string(), vec![5, 6]);
    assert_eq!(st.get(&"k".to_string()), Some(vec![5, 6]));
    assert!(st.contains_key(&"k".to_string()));
    assert_eq!(st.list_keys(), vec!["k".to_string()]);
    st.delete(&"k".to_string());
    assert_eq!(st.get(&"k".to_string()), None);
    assert!(st.list_keys().is_empty());
}
