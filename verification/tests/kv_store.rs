use thermal_core::impl_btree::KvStoreBTreeImpl;
use thermal_core::kv_store::KvStore;

#[test]
fn test_insert_and_get() {
    let mut store = KvStoreBTreeImpl::new("curve");
    let _id = store.insert(42);
    assert_eq!(store.get("curve_0"), Some(&42));
    assert_eq!(store.get("other_0"), None); // wrong prefix
}

#[test]
fn test_remove() {
    let mut store = KvStoreBTreeImpl::new("foo");
    let _id = store.insert(123);
    assert_eq!(store.get("foo_0"), Some(&123));
    assert!(store.remove("foo_0"));
    assert_eq!(store.get("foo_0"), None);
    assert!(!store.remove("foo_0")); // already removed
}

#[test]
fn test_multiple_inserts() {
    let mut store = KvStoreBTreeImpl::new("bar");
    let id1 = store.insert(1);
    let id2 = store.insert(2);
    assert_ne!(id1, id2);
    assert_eq!(store.get("bar_0"), Some(&1));
    assert_eq!(store.get("bar_1"), Some(&2));
}

#[test]
fn test_generated_keys_are_canonical() {
    let mut store = KvStoreBTreeImpl::new("curve");
    assert_eq!(store.insert(10), "curve_0".to_string());
    assert_eq!(store.insert(20), "curve_1".to_string());
    assert_eq!(store.insert(30), "curve_2".to_string());
}

#[test]
fn test_prefix_containing_underscore() {
    let mut store = KvStoreBTreeImpl::new("foo_bar");
    let key = store.insert(7);
    assert_eq!(key, "foo_bar_0".to_string());
    assert_eq!(store.get("foo_bar_0"), Some(&7));
    assert_eq!(store.get("foo_0"), None);
}

#[test]
fn test_get_malformed_keys() {
    let mut store = KvStoreBTreeImpl::new("curve");
    let _id = store.insert(42);
    assert_eq!(store.get("nounderscore"), None);
    assert_eq!(store.get("curve_"), None);
    assert_eq!(store.get("curve_x"), None);
    assert_eq!(store.get("curve_0x"), None);
    assert_eq!(store.get("curve_-1"), None);
    assert_eq!(store.get(""), None);
    assert_eq!(store.get("_0"), None);
}

#[test]
fn test_get_tolerates_number_spellings() {
    // u64 parsing accepts a leading '+' and leading zeros, so such keys
    // still designate the stored entry.
    let mut store = KvStoreBTreeImpl::new("curve");
    let _id = store.insert(42);
    assert_eq!(store.get("curve_+0"), Some(&42));
    assert_eq!(store.get("curve_00"), Some(&42));
    assert_eq!(store.get("curve_+"), None);
    // a number too large for u64 does not parse
    assert_eq!(store.get("curve_18446744073709551616"), None);
}

#[test]
fn test_remove_wrong_prefix() {
    let mut store = KvStoreBTreeImpl::new("abc");
    let _id = store.insert(5);
    assert!(!store.remove("abd_0"));
    assert!(!store.remove("abc_1"));
    assert_eq!(store.get("abc_0"), Some(&5));
}

#[test]
fn test_parse_prefix_id() {
    let store: KvStoreBTreeImpl<u32> = KvStoreBTreeImpl::new("p");
    assert_eq!(
        store.parse_prefix_id("foo_12"),
        Some(("foo".to_string(), 12))
    );
    assert_eq!(
        store.parse_prefix_id("a_b_3"),
        Some(("a_b".to_string(), 3))
    );
    assert_eq!(store.parse_prefix_id("_9"), Some(("".to_string(), 9)));
    assert_eq!(store.parse_prefix_id("plain"), None);
    assert_eq!(store.parse_prefix_id("x_"), None);
    assert_eq!(store.parse_prefix_id("x_12.5"), None);
    assert_eq!(
        store.parse_prefix_id("x_18446744073709551615"),
        Some(("x".to_string(), u64::MAX))
    );
    assert_eq!(store.parse_prefix_id("x_18446744073709551616"), None);
}

#[test]
fn test_ids_not_reused_after_remove() {
    let mut store = KvStoreBTreeImpl::new("k");
    assert_eq!(store.insert(1), "k_0".to_string());
    assert!(store.remove("k_0"));
    assert_eq!(store.insert(2), "k_1".to_string());
    assert_eq!(store.get("k_0"), None);
    assert_eq!(store.get("k_1"), Some(&2));
}
