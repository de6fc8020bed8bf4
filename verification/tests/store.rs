use beatbank::catalog::{
    add_beat, add_beat_dated, add_beat_to_collection, delete_beat, delete_beat_collection,
    fetch_beats, fetch_collections, get_beat_collection, get_beats_in_collection, insert_beat,
    new_beat_collection, new_beat_collection_dated, remove_beat_from_collection, save_row_order,
    update_beat, Catalog,
};
use beatbank::error::CatalogError;
use beatbank::catalog::update_beat_collection;
use beatbank::models::{BeatChangeset, BeatCollectionChangeset, NewBeat, RowOrder};

fn changeset(id: i32) -> BeatChangeset {
    BeatChangeset {
        id,
        artist: None,
        album: None,
        genre: None,
        year: None,
        track_number: None,
        composer: None,
        lyricist: None,
        cover_art: None,
        comments: None,
    }
}

#[test]
fn test_save_row_order_success() {
    let mut conn = Catalog::new();

    let beat1 = add_beat(&mut conn, "Test Beat 1", "path/to/file1", None).unwrap();
    let beat2 = add_beat(&mut conn, "Test Beat 2", "path/to/file2", None).unwrap();
    let beat3 = add_beat(&mut conn, "Test Beat 3", "path/to/file3", None).unwrap();

    let row_orders = vec![
        RowOrder { row_id: beat1.id, row_number: 3 },
        RowOrder { row_id: beat2.id, row_number: 1 },
        RowOrder { row_id: beat3.id, row_number: 2 },
    ];

    let result = save_row_order(&mut conn, row_orders);
    assert!(result.is_ok());

    let mut saved_beats: Vec<(i32, i32)> =
        fetch_beats(&conn).iter().map(|b| (b.id, b.row_order)).collect();
    saved_beats.sort_by_key(|&(id, _)| id);

    assert_eq!(saved_beats[0].1, 3); // First beat should have order 3
    assert_eq!(saved_beats[1].1, 1); // Second beat should have order 1
    assert_eq!(saved_beats[2].1, 2); // Third beat should have order 2
}

#[test]
fn test_save_row_order_invalid_id() {
    let mut conn = Catalog::new();

    let _beat1 = add_beat(&mut conn, "Test Beat 1", "path/to/file1", None).unwrap();

    let row_orders = vec![
        RowOrder { row_id: 999999, row_number: 1 }, // Non-existent ID
    ];

    let result = save_row_order(&mut conn, row_orders);
    assert!(result.is_err());
}

#[test]
fn test_save_row_order_empty_vec() {
    let mut conn = Catalog::new();

    let result = save_row_order(&mut conn, vec![]);
    assert!(result.is_ok());
}

#[test]
fn insert_assigns_fresh_unique_ids() {
    let mut cat = Catalog::new();
    let b1 = add_beat(&mut cat, "one", "/a", None).unwrap();
    let b2 = add_beat(&mut cat, "two", "/b", None).unwrap();
    let b3 = add_beat(&mut cat, "three", "/c", None).unwrap();
    assert_ne!(b1.id, b2.id);
    assert_ne!(b1.id, b3.id);
    assert_ne!(b2.id, b3.id);
    // A later insert never reuses an id, even after a delete.
    delete_beat(&mut cat, b2.id).unwrap();
    let b4 = add_beat(&mut cat, "four", "/d", None).unwrap();
    assert_ne!(b4.id, b1.id);
    assert_ne!(b4.id, b2.id);
    assert_ne!(b4.id, b3.id);
    // Ids are assigned monotonically.
    assert!(b2.id > b1.id);
    assert!(b3.id > b2.id);
    assert!(b4.id > b3.id);
}

#[test]
fn insert_with_empty_required_field_is_refused() {
    let mut cat = Catalog::new();
    assert!(matches!(
        add_beat(&mut cat, "", "/somewhere", None),
        Err(CatalogError::ConstraintViolation)
    ));
    assert!(matches!(
        add_beat(&mut cat, "a title", "", None),
        Err(CatalogError::ConstraintViolation)
    ));
    assert_eq!(fetch_beats(&cat).len(), 0);
}

#[test]
fn insert_starts_with_optional_fields_unset() {
    let mut cat = Catalog::new();
    let b = add_beat(&mut cat, "bare", "/bare.wav", None).unwrap();
    assert!(b.artist.is_none());
    assert!(b.album.is_none());
    assert!(b.duration.is_none());
    assert!(b.bpm.is_none());
    assert!(b.musical_key.is_none());
    assert_eq!(b.row_order, 0);
}

#[test]
fn reorder_failure_commits_only_the_prefix() {
    let mut cat = Catalog::new();
    let b1 = add_beat(&mut cat, "one", "/a", None).unwrap();
    let b2 = add_beat(&mut cat, "two", "/b", None).unwrap();
    let b3 = add_beat(&mut cat, "three", "/c", None).unwrap();
    let batch = vec![
        RowOrder { row_id: b1.id, row_number: 5 },
        RowOrder { row_id: 424242, row_number: 1 },
        RowOrder { row_id: b3.id, row_number: 7 },
    ];
    let result = save_row_order(&mut cat, batch);
    assert!(matches!(result, Err(CatalogError::NotFound)));
    let beats = fetch_beats(&cat);
    let order_of = |id: i32| beats.iter().find(|b| b.id == id).unwrap().row_order;
    // The entry before the invalid one was committed ...
    assert_eq!(order_of(b1.id), 5);
    // ... the entries at and after it were not.
    assert_eq!(order_of(b2.id), 0);
    assert_eq!(order_of(b3.id), 0);
}

#[test]
fn update_changeset_touches_only_carried_fields() {
    let mut cat = Catalog::new();
    let b = add_beat(&mut cat, "original title", "/t.wav", None).unwrap();
    let mut c = changeset(b.id);
    c.artist = Some("Someone".to_string());
    c.year = Some(1999);
    update_beat(&mut cat, c).unwrap();
    let stored = fetch_beats(&cat).into_iter().find(|x| x.id == b.id).unwrap();
    assert_eq!(stored.artist.as_deref(), Some("Someone"));
    assert_eq!(stored.year, Some(1999));
    assert_eq!(stored.title, "original title");
    assert_eq!(stored.file_path, "/t.wav");
    assert!(stored.album.is_none());
}

#[test]
fn update_of_missing_beat_is_not_found() {
    let mut cat = Catalog::new();
    let result = update_beat(&mut cat, changeset(77));
    assert!(matches!(result, Err(CatalogError::NotFound)));
}

#[test]
fn delete_beat_cascades_to_memberships() {
    let mut cat = Catalog::new();
    let b1 = add_beat(&mut cat, "one", "/a", None).unwrap();
    let b2 = add_beat(&mut cat, "two", "/b", None).unwrap();
    let c = new_beat_collection(&mut cat, "gig", None, None, None, None).unwrap();
    add_beat_to_collection(&mut cat, c.id, b1.id).unwrap();
    add_beat_to_collection(&mut cat, c.id, b2.id).unwrap();
    assert_eq!(get_beats_in_collection(&cat, c.id).unwrap().len(), 2);

    delete_beat(&mut cat, b1.id).unwrap();

    let remaining = get_beats_in_collection(&cat, c.id).unwrap();
    assert_eq!(remaining.len(), 1);
    assert!(remaining.iter().all(|b| b.id != b1.id));
    assert_eq!(remaining[0].id, b2.id);
}

#[test]
fn delete_of_absent_rows_succeeds() {
    let mut cat = Catalog::new();
    assert!(delete_beat(&mut cat, 5).is_ok());
    assert!(delete_beat_collection(&mut cat, 5).is_ok());
    assert!(remove_beat_from_collection(&mut cat, 5, 6).is_ok());
}

#[test]
fn duplicate_membership_is_a_constraint_violation() {
    let mut cat = Catalog::new();
    let b = add_beat(&mut cat, "one", "/a", None).unwrap();
    let c = new_beat_collection(&mut cat, "gig", None, None, None, None).unwrap();
    assert!(add_beat_to_collection(&mut cat, c.id, b.id).is_ok());
    let second = add_beat_to_collection(&mut cat, c.id, b.id);
    assert!(matches!(second, Err(CatalogError::ConstraintViolation)));
    // The first link is still there, exactly once.
    assert_eq!(get_beats_in_collection(&cat, c.id).unwrap().len(), 1);
}

#[test]
fn membership_with_unknown_ids_is_a_constraint_violation() {
    let mut cat = Catalog::new();
    let b = add_beat(&mut cat, "one", "/a", None).unwrap();
    let c = new_beat_collection(&mut cat, "gig", None, None, None, None).unwrap();
    assert!(matches!(
        add_beat_to_collection(&mut cat, c.id, 999),
        Err(CatalogError::ConstraintViolation)
    ));
    assert!(matches!(
        add_beat_to_collection(&mut cat, 999, b.id),
        Err(CatalogError::ConstraintViolation)
    ));
}

#[test]
fn remove_membership_removes_one_pair() {
    let mut cat = Catalog::new();
    let b1 = add_beat(&mut cat, "one", "/a", None).unwrap();
    let b2 = add_beat(&mut cat, "two", "/b", None).unwrap();
    let c = new_beat_collection(&mut cat, "gig", None, None, None, None).unwrap();
    add_beat_to_collection(&mut cat, c.id, b1.id).unwrap();
    add_beat_to_collection(&mut cat, c.id, b2.id).unwrap();
    remove_beat_from_collection(&mut cat, c.id, b1.id).unwrap();
    let remaining = get_beats_in_collection(&cat, c.id).unwrap();
    assert_eq!(remaining.len(), 1);
    assert_eq!(remaining[0].id, b2.id);
    // The beat itself is still in the catalog.
    assert!(fetch_beats(&cat).iter().any(|b| b.id == b1.id));
}

#[test]
fn collection_crud_round_trip() {
    let mut cat = Catalog::new();
    let refused = new_beat_collection(&mut cat, "", None, None, None, None);
    assert!(matches!(refused, Err(CatalogError::ConstraintViolation)));

    let c = new_beat_collection(
        &mut cat,
        "Friday set",
        Some("The Room"),
        Some("Springfield"),
        Some("IL"),
        Some("2024-06-01"),
    )
    .unwrap();
    assert_eq!(c.set_name, "Friday set");
    assert_eq!(c.venue.as_deref(), Some("The Room"));
    assert_eq!(c.city.as_deref(), Some("Springfield"));
    assert_eq!(c.state_name.as_deref(), Some("IL"));
    assert_eq!(c.date_played.as_deref(), Some("2024-06-01"));

    let fetched = get_beat_collection(&cat, c.id).unwrap();
    assert_eq!(fetched.id, c.id);
    assert_eq!(fetched.set_name, "Friday set");
    assert!(matches!(get_beat_collection(&cat, c.id + 1), Err(CatalogError::NotFound)));
    assert_eq!(fetch_collections(&cat).len(), 1);
}

#[test]
fn delete_collection_cascades_to_memberships() {
    let mut cat = Catalog::new();
    let b = add_beat(&mut cat, "one", "/a", None).unwrap();
    let c1 = new_beat_collection(&mut cat, "first", None, None, None, None).unwrap();
    let c2 = new_beat_collection(&mut cat, "second", None, None, None, None).unwrap();
    add_beat_to_collection(&mut cat, c1.id, b.id).unwrap();
    add_beat_to_collection(&mut cat, c2.id, b.id).unwrap();

    delete_beat_collection(&mut cat, c1.id).unwrap();

    assert!(matches!(get_beat_collection(&cat, c1.id), Err(CatalogError::NotFound)));
    assert_eq!(get_beats_in_collection(&cat, c1.id).unwrap().len(), 0);
    // The other collection's membership is untouched.
    assert_eq!(get_beats_in_collection(&cat, c2.id).unwrap().len(), 1);
    // The pair is free to be added again once the collection comes back.
    let c1b = new_beat_collection(&mut cat, "first again", None, None, None, None).unwrap();
    assert!(add_beat_to_collection(&mut cat, c1b.id, b.id).is_ok());
}

#[test]
fn beats_in_collection_returns_full_records_in_link_order() {
    let mut cat = Catalog::new();
    let b1 = add_beat(&mut cat, "alpha", "/alpha.wav", None).unwrap();
    let b2 = add_beat(&mut cat, "beta", "/beta.wav", None).unwrap();
    let c = new_beat_collection(&mut cat, "gig", None, None, None, None).unwrap();
    add_beat_to_collection(&mut cat, c.id, b2.id).unwrap();
    add_beat_to_collection(&mut cat, c.id, b1.id).unwrap();
    let beats = get_beats_in_collection(&cat, c.id).unwrap();
    assert_eq!(beats.len(), 2);
    assert_eq!(beats[0].id, b2.id);
    assert_eq!(beats[0].title, "beta");
    assert_eq!(beats[1].id, b1.id);
    assert_eq!(beats[1].title, "alpha");
}

#[test]
fn dated_inserts_pin_the_creation_timestamp() {
    let mut cat = Catalog::new();
    let b = add_beat_dated(&mut cat, "stamped", "/s.wav", None, 1_700_000_000).unwrap();
    assert_eq!(b.date_created, 1_700_000_000);
    let c = new_beat_collection_dated(&mut cat, "stamped set", None, None, None, None, 1_700_000_001)
        .unwrap();
    assert_eq!(c.date_created, 1_700_000_001);
}

#[test]
fn insert_record_keeps_every_given_field() {
    let mut cat = Catalog::new();
    let nb = NewBeat {
        title: "full".to_string(),
        artist: Some("artist".to_string()),
        album: Some("album".to_string()),
        genre: Some("genre".to_string()),
        year: Some(2001),
        track_number: Some(7),
        duration: Some(42),
        composer: Some("composer".to_string()),
        lyricist: Some("lyricist".to_string()),
        cover_art: Some("cover.png".to_string()),
        comments: Some("a comment".to_string()),
        file_path: "/full.wav".to_string(),
        bpm: Some(100.0f64.to_bits()),
        musical_key: Some("Cm".to_string()),
        date_created: 123,
    };
    let b = insert_beat(&mut cat, nb).unwrap();
    assert_eq!(b.title, "full");
    assert_eq!(b.artist.as_deref(), Some("artist"));
    assert_eq!(b.album.as_deref(), Some("album"));
    assert_eq!(b.genre.as_deref(), Some("genre"));
    assert_eq!(b.year, Some(2001));
    assert_eq!(b.track_number, Some(7));
    assert_eq!(b.duration, Some(42));
    assert_eq!(b.composer.as_deref(), Some("composer"));
    assert_eq!(b.lyricist.as_deref(), Some("lyricist"));
    assert_eq!(b.cover_art.as_deref(), Some("cover.png"));
    assert_eq!(b.comments.as_deref(), Some("a comment"));
    assert_eq!(b.file_path, "/full.wav");
    assert_eq!(b.bpm.map(f64::from_bits), Some(100.0));
    assert_eq!(b.musical_key.as_deref(), Some("Cm"));
    assert_eq!(b.date_created, 123);
    assert_eq!(b.row_order, 0);
}

#[test]
fn update_collection_touches_only_carried_fields() {
    let mut cat = Catalog::new();
    let c = new_beat_collection(&mut cat, "gig", Some("Old Room"), None, None, None).unwrap();
    let changes = BeatCollectionChangeset {
        id: c.id,
        venue: Some("New Room".to_string()),
        city: Some("Springfield".to_string()),
        state_name: None,
        date_played: None,
    };
    update_beat_collection(&mut cat, changes).unwrap();
    let stored = get_beat_collection(&cat, c.id).unwrap();
    assert_eq!(stored.venue.as_deref(), Some("New Room"));
    assert_eq!(stored.city.as_deref(), Some("Springfield"));
    assert_eq!(stored.set_name, "gig");
    assert!(stored.state_name.is_none());
    assert_eq!(stored.date_created, c.date_created);
}

#[test]
fn update_of_missing_collection_is_not_found() {
    let mut cat = Catalog::new();
    let changes = BeatCollectionChangeset {
        id: 31,
        venue: None,
        city: None,
        state_name: None,
        date_played: None,
    };
    assert!(matches!(update_beat_collection(&mut cat, changes), Err(CatalogError::NotFound)));
}
