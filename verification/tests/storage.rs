use clip_catalog::error::CatalogError;
use clip_catalog::objects::ObjectStore;

#[test]
fn repeated_put_of_same_key_and_bytes_is_idempotent() {
    let mut once = ObjectStore::new();
    once.put(String::from("k"), vec![1u8, 2, 3]).expect("put");

    let mut thrice = ObjectStore::new();
    for _ in 0..3 {
        thrice.put(String::from("k"), vec![1u8, 2, 3]).expect("put");
    }
    assert_eq!(
        once.get(&String::from("k")).expect("bytes"),
        thrice.get(&String::from("k")).expect("bytes")
    );
    // Deleting the single object empties both stores alike.
    thrice.delete(&String::from("k")).expect("delete");
    assert_eq!(thrice.get(&String::from("k")), Err(CatalogError::NotFound));
}

#[test]
fn put_overwrites_existing_key() {
    let mut s = ObjectStore::new();
    s.put(String::from("k"), vec![1u8]).expect("put");
    s.put(String::from("k"), vec![2u8, 2]).expect("put");
    assert_eq!(s.get(&String::from("k")).expect("bytes"), vec![2u8, 2]);
}

#[test]
fn get_and_delete_of_absent_key_are_not_found() {
    let mut s = ObjectStore::new();
    assert_eq!(s.get(&String::from("missing")), Err(CatalogError::NotFound));
    assert_eq!(
        s.delete(&String::from("missing")),
        Err(CatalogError::NotFound)
    );
}

#[test]
fn unavailable_storage_reports_and_keeps_state() {
    let mut s = ObjectStore::new();
    s.put(String::from("k"), vec![7u8]).expect("put");
    s.set_available(false);
    assert_eq!(
        s.put(String::from("k2"), vec![1u8]),
        Err(CatalogError::StorageUnavailable)
    );
    assert_eq!(
        s.get(&String::from("k")),
        Err(CatalogError::StorageUnavailable)
    );
    assert_eq!(
        s.delete(&String::from("k")),
        Err(CatalogError::StorageUnavailable)
    );
    s.set_available(true);
    assert_eq!(s.get(&String::from("k")).expect("bytes"), vec![7u8]);
}
