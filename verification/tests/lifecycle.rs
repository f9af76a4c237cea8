use clip_catalog::catalog::CatalogService;
use clip_catalog::error::CatalogError;

fn admin_catalog() -> CatalogService {
    CatalogService::new(String::from("admin"), String::from("letmein"))
}

fn login(s: &mut CatalogService) -> u64 {
    s.login(&String::from("admin"), &String::from("letmein"))
        .expect("admin login should succeed")
}

#[test]
fn round_trip_ingest_get_fetch() {
    let mut s = admin_catalog();
    let token = login(&mut s);
    let payload = vec![1u8, 2, 3, 4, 5];
    let clip = s
        .upload(
            token,
            String::from("A"),
            String::from("B"),
            payload.clone(),
            String::from("uuid-1"),
        )
        .expect("upload should succeed");
    assert_eq!(clip.name, "A");
    assert_eq!(clip.description, "B");
    assert_eq!(clip.uuid, "uuid-1");

    let got = s.get(clip.id).expect("get should find the ingested clip");
    assert_eq!(got.name, "A");
    assert_eq!(got.description, "B");
    assert_eq!(got.uuid, "uuid-1");

    let bytes = s
        .fetch_object(&got.uuid)
        .expect("the ingested object should exist");
    assert_eq!(bytes, payload);
    assert!(!bytes.is_empty());
}

#[test]
fn ingested_clip_resolves_to_nonempty_object() {
    let mut s = admin_catalog();
    let token = login(&mut s);
    let clip = s
        .upload(
            token,
            String::from("clip"),
            String::new(),
            vec![42u8],
            String::from("k"),
        )
        .expect("upload should succeed");
    let got = s.get(clip.id).expect("get should succeed");
    let bytes = s.fetch_object(&got.uuid).expect("object should exist");
    assert!(!bytes.is_empty());
}

#[test]
fn absent_id_is_not_found() {
    let mut s = admin_catalog();
    let token = login(&mut s);
    assert_eq!(s.get(17), Err(CatalogError::NotFound));
    assert_eq!(
        s.edit(token, 17, String::from("n"), String::from("d")),
        Err(CatalogError::NotFound)
    );
    assert_eq!(s.delete(token, 17), Err(CatalogError::NotFound));
}

#[test]
fn unauthorized_mutation_changes_nothing() {
    let mut s = admin_catalog();
    let token = login(&mut s);
    let clip = s
        .upload(
            token,
            String::from("keep"),
            String::from("me"),
            vec![9u8, 9],
            String::from("key-keep"),
        )
        .expect("upload should succeed");
    let before = s.list().expect("list should succeed");

    let bad_token = token + 1000;
    assert_eq!(
        s.upload(
            bad_token,
            String::from("x"),
            String::from("y"),
            vec![1u8],
            String::from("other"),
        ),
        Err(CatalogError::Unauthorized)
    );
    assert_eq!(
        s.edit(bad_token, clip.id, String::from("x"), String::from("y")),
        Err(CatalogError::Unauthorized)
    );
    assert_eq!(s.delete(bad_token, clip.id), Err(CatalogError::Unauthorized));

    let after = s.list().expect("list should succeed");
    assert_eq!(before.len(), after.len());
    for (a, b) in before.iter().zip(after.iter()) {
        assert_eq!(a.id, b.id);
        assert_eq!(a.name, b.name);
        assert_eq!(a.description, b.description);
        assert_eq!(a.uuid, b.uuid);
    }
    let bytes = s.fetch_object(&clip.uuid).expect("object should remain");
    assert_eq!(bytes, vec![9u8, 9]);
}

#[test]
fn logout_ends_the_session() {
    let mut s = admin_catalog();
    let token = login(&mut s);
    s.logout(token);
    assert_eq!(
        s.upload(
            token,
            String::from("n"),
            String::from("d"),
            vec![1u8],
            String::from("u"),
        ),
        Err(CatalogError::Unauthorized)
    );
}

#[test]
fn wrong_password_gives_no_session() {
    let mut s = admin_catalog();
    assert_eq!(
        s.login(&String::from("admin"), &String::from("wrong")),
        Err(CatalogError::InvalidCredentials)
    );
    // No token was issued; an upload without one is rejected.
    assert_eq!(
        s.upload(
            0,
            String::from("n"),
            String::from("d"),
            vec![1u8],
            String::from("u"),
        ),
        Err(CatalogError::Unauthorized)
    );
}

#[test]
fn wrong_username_gives_no_session() {
    let mut s = admin_catalog();
    assert_eq!(
        s.login(&String::from("root"), &String::from("letmein")),
        Err(CatalogError::InvalidCredentials)
    );
}

#[test]
fn empty_name_or_payload_is_rejected() {
    let mut s = admin_catalog();
    let token = login(&mut s);
    assert_eq!(
        s.upload(
            token,
            String::new(),
            String::from("d"),
            vec![1u8],
            String::from("u"),
        ),
        Err(CatalogError::ValidationError)
    );
    assert_eq!(
        s.upload(
            token,
            String::from("n"),
            String::from("d"),
            Vec::new(),
            String::from("u"),
        ),
        Err(CatalogError::ValidationError)
    );
    assert_eq!(s.get(1), Err(CatalogError::NotFound));
}

#[test]
fn duplicate_uuid_is_rejected() {
    let mut s = admin_catalog();
    let token = login(&mut s);
    s.upload(
        token,
        String::from("one"),
        String::from("d"),
        vec![1u8],
        String::from("same-key"),
    )
    .expect("first upload should succeed");
    assert_eq!(
        s.upload(
            token,
            String::from("two"),
            String::from("d"),
            vec![2u8],
            String::from("same-key"),
        ),
        Err(CatalogError::ValidationError)
    );
    // The first clip's payload is untouched.
    assert_eq!(
        s.fetch_object(&String::from("same-key")).expect("object"),
        vec![1u8]
    );
}

#[test]
fn distinct_ingests_keep_their_own_uuids() {
    let mut s = admin_catalog();
    let token = login(&mut s);
    let c1 = s
        .upload(
            token,
            String::from("first"),
            String::from("d1"),
            vec![1u8, 1],
            String::from("uuid-a"),
        )
        .expect("upload should succeed");
    let c2 = s
        .upload(
            token,
            String::from("second"),
            String::from("d2"),
            vec![2u8, 2],
            String::from("uuid-b"),
        )
        .expect("upload should succeed");
    assert_eq!(c1.uuid, "uuid-a");
    assert_eq!(c2.uuid, "uuid-b");
    assert_ne!(c1.id, c2.id);
    assert_eq!(s.fetch_object(&c1.uuid).expect("object"), vec![1u8, 1]);
    assert_eq!(s.fetch_object(&c2.uuid).expect("object"), vec![2u8, 2]);
    let all = s.list().expect("list");
    assert_eq!(all.len(), 2);
    assert_eq!(all[0].uuid, "uuid-a");
    assert_eq!(all[1].uuid, "uuid-b");
}

#[test]
fn edit_changes_only_name_and_description() {
    let mut s = admin_catalog();
    let token = login(&mut s);
    let clip = s
        .upload(
            token,
            String::from("old name"),
            String::from("old desc"),
            vec![7u8],
            String::from("fixed-key"),
        )
        .expect("upload should succeed");
    let edited = s
        .edit(
            token,
            clip.id,
            String::from("new name"),
            String::from("new desc"),
        )
        .expect("edit should succeed");
    assert_eq!(edited.id, clip.id);
    assert_eq!(edited.uuid, clip.uuid);
    assert_eq!(edited.name, "new name");
    assert_eq!(edited.description, "new desc");
    let got = s.get(clip.id).expect("get");
    assert_eq!(got.name, "new name");
    assert_eq!(got.description, "new desc");
    assert_eq!(s.fetch_object(&clip.uuid).expect("object"), vec![7u8]);
}

#[test]
fn delete_removes_row_and_object() {
    let mut s = admin_catalog();
    let token = login(&mut s);
    let clip = s
        .upload(
            token,
            String::from("gone"),
            String::from("soon"),
            vec![3u8],
            String::from("bye"),
        )
        .expect("upload should succeed");
    s.delete(token, clip.id).expect("delete should succeed");
    assert_eq!(s.get(clip.id), Err(CatalogError::NotFound));
    assert_eq!(s.fetch_object(&clip.uuid), Err(CatalogError::NotFound));
    assert_eq!(s.orphan_count(), 0);
}

#[test]
fn delete_with_storage_fault_still_succeeds_and_logs_orphan() {
    let mut s = admin_catalog();
    let token = login(&mut s);
    let clip = s
        .upload(
            token,
            String::from("n5"),
            String::from("d5"),
            vec![5u8],
            String::from("key-5"),
        )
        .expect("upload should succeed");
    s.set_storage_available(false);
    assert_eq!(s.delete(token, clip.id), Ok(()));
    assert_eq!(s.orphan_count(), 1);
    assert_eq!(s.get(clip.id), Err(CatalogError::NotFound));
    // The object itself still sits in storage, reclaimable once it is back.
    s.set_storage_available(true);
    assert_eq!(s.fetch_object(&clip.uuid).expect("orphan bytes"), vec![5u8]);
}

#[test]
fn store_outage_is_reported_and_ingest_retry_reuses_object() {
    let mut s = admin_catalog();
    let token = login(&mut s);
    s.set_metadata_available(false);
    assert_eq!(s.list(), Err(CatalogError::StoreUnavailable));
    assert_eq!(s.get(1), Err(CatalogError::StoreUnavailable));
    // Ingest with the store down: the object is written, the row is not,
    // and the orphan is recorded.
    assert_eq!(
        s.upload(
            token,
            String::from("n"),
            String::from("d"),
            vec![8u8, 8],
            String::from("retry-key"),
        ),
        Err(CatalogError::StoreUnavailable)
    );
    assert_eq!(s.orphan_count(), 1);
    // Retrying once the store is back reuses the same key idempotently.
    s.set_metadata_available(true);
    let clip = s
        .upload(
            token,
            String::from("n"),
            String::from("d"),
            vec![8u8, 8],
            String::from("retry-key"),
        )
        .expect("retried upload should succeed");
    assert_eq!(clip.uuid, "retry-key");
    assert_eq!(s.fetch_object(&clip.uuid).expect("object"), vec![8u8, 8]);
}

#[test]
fn storage_outage_aborts_ingest_before_metadata() {
    let mut s = admin_catalog();
    let token = login(&mut s);
    s.set_storage_available(false);
    assert_eq!(
        s.upload(
            token,
            String::from("n"),
            String::from("d"),
            vec![1u8],
            String::from("u"),
        ),
        Err(CatalogError::StorageUnavailable)
    );
    s.set_storage_available(true);
    assert_eq!(s.list().expect("list").len(), 0);
    assert_eq!(s.orphan_count(), 0);
}

#[test]
fn list_returns_clips_in_insertion_order() {
    let mut s = admin_catalog();
    let token = login(&mut s);
    for i in 0..3u8 {
        s.upload(
            token,
            format!("clip {}", i),
            String::from("d"),
            vec![i + 1],
            format!("key-{}", i),
        )
        .expect("upload should succeed");
    }
    let all = s.list().expect("list");
    assert_eq!(all.len(), 3);
    assert_eq!(all[0].name, "clip 0");
    assert_eq!(all[1].name, "clip 1");
    assert_eq!(all[2].name, "clip 2");
    assert!(all[0].id < all[1].id && all[1].id < all[2].id);
}
