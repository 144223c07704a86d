use wascc_keyvalue::error::KvError;
use wascc_keyvalue::kv::KeyValueStore;

fn sorted(mut v: Vec<String>) -> Vec<String> {
    v.sort();
    v
}

fn strings(items: &[&str]) -> Vec<String> {
    items.iter().map(|s| s.to_string()).collect()
}

#[test]
fn unwritten_key_is_absent() {
    let mut store = KeyValueStore::new();
    assert_eq!(store.key_exists("k"), Ok(false));
    assert_eq!(store.get("k"), Err(KvError::NotFound));
    store.set("other", "v".to_string()).unwrap();
    store.atomic_add("counter", 3).unwrap();
    store.list_add("list", "x").unwrap();
    store.set_add("set", "x").unwrap();
    assert_eq!(store.key_exists("k"), Ok(false));
    assert_eq!(store.get("k"), Err(KvError::NotFound));
}

#[test]
fn set_then_get_overwrites() {
    let mut store = KeyValueStore::new();
    assert_eq!(store.set("k", "a".to_string()), Ok(()));
    assert_eq!(store.get("k"), Ok("a".to_string()));
    assert_eq!(store.set("k", "b".to_string()), Ok(()));
    assert_eq!(store.get("k"), Ok("b".to_string()));
    assert_eq!(store.key_exists("k"), Ok(true));
}

#[test]
fn atomic_add_accumulates() {
    let mut store = KeyValueStore::new();
    assert_eq!(store.atomic_add("k", 5), Ok(5));
    assert_eq!(store.atomic_add("k", -2), Ok(3));
    assert_eq!(store.key_exists("k"), Ok(true));
}

#[test]
fn increments_are_not_lost() {
    for n in [2, 10, 100] {
        let mut store = KeyValueStore::new();
        let mut last = 0;
        for _ in 0..n {
            last = store.atomic_add("k", 1).unwrap();
        }
        assert_eq!(last, n);
        assert_eq!(store.atomic_add("k", 0), Ok(n));
    }
}

#[test]
fn atomic_add_out_of_range_is_rejected() {
    let mut store = KeyValueStore::new();
    assert_eq!(store.atomic_add("k", i32::MAX), Ok(i32::MAX));
    assert_eq!(store.atomic_add("k", 1), Err(KvError::InvalidArgument));
    assert_eq!(store.atomic_add("k", 0), Ok(i32::MAX));
    assert_eq!(store.atomic_add("m", i32::MIN), Ok(i32::MIN));
    assert_eq!(store.atomic_add("m", -1), Err(KvError::InvalidArgument));
}

#[test]
fn list_add_range_and_del_item() {
    let mut store = KeyValueStore::new();
    assert_eq!(store.list_add("k", "x"), Ok(1));
    assert_eq!(store.list_add("k", "x"), Ok(2));
    assert_eq!(store.list_add("k", "y"), Ok(3));
    assert_eq!(store.list_range("k", 0, -1), Ok(strings(&["x", "x", "y"])));
    assert_eq!(store.list_del_item("k", "x"), Ok(2));
    assert_eq!(store.list_range("k", 0, -1), Ok(strings(&["y"])));
}

#[test]
fn list_del_item_keeps_order() {
    let mut store = KeyValueStore::new();
    for item in ["a", "x", "b", "x", "c"] {
        store.list_add("k", item).unwrap();
    }
    assert_eq!(store.list_del_item("k", "x"), Ok(2));
    assert_eq!(store.list_range("k", 0, -1), Ok(strings(&["a", "b", "c"])));
    assert_eq!(store.list_del_item("k", "z"), Ok(0));
    assert_eq!(store.list_range("k", 0, -1), Ok(strings(&["a", "b", "c"])));
}

#[test]
fn emptying_list_deletes_key() {
    let mut store = KeyValueStore::new();
    store.list_add("k", "x").unwrap();
    store.list_add("k", "x").unwrap();
    assert_eq!(store.list_del_item("k", "x"), Ok(2));
    assert_eq!(store.key_exists("k"), Ok(false));
    assert_eq!(store.list_range("k", 0, -1), Ok(Vec::new()));
}

#[test]
fn list_del_item_on_missing_key_is_zero() {
    let mut store = KeyValueStore::new();
    assert_eq!(store.list_del_item("k", "x"), Ok(0));
    assert_eq!(store.key_exists("k"), Ok(false));
}

#[test]
fn list_range_clamps() {
    let mut store = KeyValueStore::new();
    for item in ["a", "b", "c"] {
        store.list_add("k", item).unwrap();
    }
    let full = strings(&["a", "b", "c"]);
    assert_eq!(store.list_range("k", 0, 2), Ok(full.clone()));
    assert_eq!(store.list_range("k", -100, 100), Ok(full.clone()));
    assert_eq!(store.list_range("k", 5, 10), Ok(Vec::new()));
}

#[test]
fn list_range_negative_indices() {
    let mut store = KeyValueStore::new();
    for item in ["a", "b", "c"] {
        store.list_add("k", item).unwrap();
    }
    assert_eq!(store.list_range("k", -2, -1), Ok(strings(&["b", "c"])));
    assert_eq!(store.list_range("k", 1, 1), Ok(strings(&["b"])));
    assert_eq!(store.list_range("k", 2, 1), Ok(Vec::new()));
    assert_eq!(store.list_range("k", 0, -100), Ok(Vec::new()));
    assert_eq!(store.list_range("k", 0, -3), Ok(strings(&["a"])));
    assert_eq!(store.list_range("k", isize::MIN, isize::MAX), Ok(strings(&["a", "b", "c"])));
    assert_eq!(store.list_range("missing", 0, -1), Ok(Vec::new()));
}

#[test]
fn list_clear_removes_list() {
    let mut store = KeyValueStore::new();
    store.list_add("k", "x").unwrap();
    assert_eq!(store.list_clear("k"), Ok(()));
    assert_eq!(store.key_exists("k"), Ok(false));
    assert_eq!(store.list_clear("k"), Ok(()));
    store.set("s", "v".to_string()).unwrap();
    assert_eq!(store.list_clear("s"), Err(KvError::TypeMismatch));
    assert_eq!(store.get("s"), Ok("v".to_string()));
}

#[test]
fn set_add_deduplicates() {
    let mut store = KeyValueStore::new();
    assert_eq!(store.set_add("k", "a"), Ok(1));
    assert_eq!(store.set_add("k", "b"), Ok(2));
    assert_eq!(store.set_add("k", "a"), Ok(2));
    let members = store.set_members("k").unwrap();
    assert_eq!(members.len(), 2);
    assert_eq!(sorted(members), strings(&["a", "b"]));
}

#[test]
fn set_remove_reports_size_and_deletes_empty_set() {
    let mut store = KeyValueStore::new();
    assert_eq!(store.set_remove("k", "a"), Ok(0));
    store.set_add("k", "a").unwrap();
    store.set_add("k", "b").unwrap();
    assert_eq!(store.set_remove("k", "z"), Ok(2));
    assert_eq!(store.set_remove("k", "a"), Ok(1));
    assert_eq!(store.set_members("k"), Ok(strings(&["b"])));
    assert_eq!(store.set_remove("k", "b"), Ok(0));
    assert_eq!(store.key_exists("k"), Ok(false));
    assert_eq!(store.set_members("k"), Ok(Vec::new()));
}

#[test]
fn set_union_and_intersect() {
    let mut store = KeyValueStore::new();
    store.set_add("s1", "a").unwrap();
    store.set_add("s1", "b").unwrap();
    store.set_add("s2", "b").unwrap();
    store.set_add("s2", "c").unwrap();
    let union = store.set_union(strings(&["s1", "s2"])).unwrap();
    assert_eq!(sorted(union), strings(&["a", "b", "c"]));
    let common = store.set_intersect(strings(&["s1", "s2"])).unwrap();
    assert_eq!(common, strings(&["b"]));
    assert_eq!(store.set_intersect(strings(&["s1", "missing"])), Ok(Vec::new()));
}

#[test]
fn set_union_and_intersect_edge_cases() {
    let mut store = KeyValueStore::new();
    store.set_add("s1", "a").unwrap();
    store.set_add("s1", "b").unwrap();
    store.set("scalar", "a".to_string()).unwrap();
    assert_eq!(store.set_union(Vec::new()), Ok(Vec::new()));
    assert_eq!(store.set_intersect(Vec::new()), Ok(Vec::new()));
    let union = store.set_union(strings(&["s1", "scalar", "missing", "s1"])).unwrap();
    assert_eq!(sorted(union), strings(&["a", "b"]));
    let common = store.set_intersect(strings(&["s1", "s1"])).unwrap();
    assert_eq!(sorted(common), strings(&["a", "b"]));
    assert_eq!(store.set_intersect(strings(&["s1", "scalar"])), Ok(Vec::new()));
    assert_eq!(store.set_intersect(strings(&["scalar", "s1"])), Ok(Vec::new()));
}

#[test]
fn counter_rejects_other_shapes() {
    let mut store = KeyValueStore::new();
    store.atomic_add("k", 1).unwrap();
    assert_eq!(store.get("k"), Err(KvError::TypeMismatch));
    assert_eq!(store.list_add("k", "x"), Err(KvError::TypeMismatch));
    assert_eq!(store.set_add("k", "x"), Err(KvError::TypeMismatch));
    assert_eq!(store.set("k", "x".to_string()), Err(KvError::TypeMismatch));
    assert_eq!(store.atomic_add("k", 0), Ok(1));
}

#[test]
fn other_shapes_reject_mismatched_operations() {
    let mut store = KeyValueStore::new();
    store.list_add("list", "x").unwrap();
    store.set_add("set", "x").unwrap();
    store.set("scalar", "x".to_string()).unwrap();
    assert_eq!(store.get("list"), Err(KvError::TypeMismatch));
    assert_eq!(store.atomic_add("list", 1), Err(KvError::TypeMismatch));
    assert_eq!(store.set_members("list"), Err(KvError::TypeMismatch));
    assert_eq!(store.set_remove("list", "x"), Err(KvError::TypeMismatch));
    assert_eq!(store.list_range("set", 0, -1), Err(KvError::TypeMismatch));
    assert_eq!(store.list_del_item("set", "x"), Err(KvError::TypeMismatch));
    assert_eq!(store.list_add("scalar", "x"), Err(KvError::TypeMismatch));
    assert_eq!(store.list_range("list", 0, -1), Ok(strings(&["x"])));
    assert_eq!(store.set_members("set"), Ok(strings(&["x"])));
}

#[test]
fn del_key_is_idempotent() {
    let mut store = KeyValueStore::new();
    store.set("k", "v".to_string()).unwrap();
    assert_eq!(store.del_key("k"), Ok(()));
    assert_eq!(store.key_exists("k"), Ok(false));
    assert_eq!(store.del_key("k"), Ok(()));
    assert_eq!(store.del_key("never"), Ok(()));
    assert_eq!(store.set_add("k", "a"), Ok(1));
}
