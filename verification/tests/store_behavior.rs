use dispatch::store::{Store, StoreError};

fn save_n(store: &mut Store, n: usize) {
    for i in 0..n {
        let url = format!("https://example.test/{}", i);
        let id = store
            .save_exchange("GET", &url, "", "[]", "{}", "", "200 OK", "10.00ms", "2 bytes", "ts")
            .expect("save");
        assert_eq!(id as usize, i + 1);
    }
}

#[test]
fn history_ids_are_monotonic_and_reads_are_newest_first() {
    let mut store = Store::new();
    save_n(&mut store, 3);
    let rows = store.get_history();
    assert_eq!(rows.len(), 3);
    assert_eq!(rows[0].id, 3);
    assert_eq!(rows[1].id, 2);
    assert_eq!(rows[2].id, 1);
    assert_eq!(rows[0].url, "https://example.test/2");
}

#[test]
fn history_read_is_capped_at_fifty() {
    let mut store = Store::new();
    save_n(&mut store, 60);
    let rows = store.get_history();
    assert_eq!(rows.len(), 50);
    for (i, row) in rows.iter().enumerate() {
        assert_eq!(row.id, 60 - i as i64);
    }
    // The ten oldest rows are absent from the surfaced list...
    for old_id in 1..=10i64 {
        assert!(rows.iter().all(|r| r.id != old_id));
        // ...but still retrievable by direct id lookup.
        let row = store.get_request_by_id(old_id).expect("still stored");
        assert_eq!(row.id, old_id);
    }
}

#[test]
fn lookup_of_absent_id_is_not_found() {
    let store = Store::new();
    match store.get_request_by_id(1) {
        Err(StoreError::NotFound) => {}
        other => panic!("expected NotFound, got {:?}", other),
    }
}

#[test]
fn clear_history_removes_all_rows_and_keeps_ids_monotonic() {
    let mut store = Store::new();
    save_n(&mut store, 3);
    store.clear_history();
    assert_eq!(store.get_history().len(), 0);
    let id = store
        .save_exchange("GET", "u", "", "[]", "", "", "200 OK", "1us", "0 bytes", "ts")
        .expect("save");
    assert_eq!(id, 4);
}

#[test]
fn collections_are_sorted_by_name() {
    let mut store = Store::new();
    store.create_collection("zeta").expect("create");
    store.create_collection("alpha").expect("create");
    store.create_collection("milk").expect("create");
    let cols = store.get_collections();
    let names: Vec<&str> = cols.iter().map(|c| c.name.as_str()).collect();
    assert_eq!(names, vec!["alpha", "milk", "zeta"]);
}

#[test]
fn duplicate_collection_name_is_refused() {
    let mut store = Store::new();
    let first = store.create_collection("api").expect("create");
    match store.create_collection("api") {
        Err(StoreError::NameTaken) => {}
        other => panic!("expected NameTaken, got {:?}", other),
    }
    let cols = store.get_collections();
    assert_eq!(cols.len(), 1);
    assert_eq!(cols[0].id, first);
    assert_eq!(cols[0].name, "api");
}

#[test]
fn collection_items_belong_to_their_collection() {
    let mut store = Store::new();
    let a = store.create_collection("a").expect("create");
    let b = store.create_collection("b").expect("create");
    let i1 = store.save_to_collection(a, "one", "GET", "u1", "", "[]").expect("save");
    let i2 = store.save_to_collection(b, "two", "POST", "u2", "x", "[]").expect("save");
    let i3 = store.save_to_collection(a, "three", "PUT", "u3", "", "[]").expect("save");
    assert_eq!((i1, i2, i3), (1, 2, 3));
    let of_a = store.get_collection_items(a);
    assert_eq!(of_a.len(), 2);
    assert_eq!(of_a[0].name, "one");
    assert_eq!(of_a[1].name, "three");
    let of_b = store.get_collection_items(b);
    assert_eq!(of_b.len(), 1);
    assert_eq!(of_b[0].method, "POST");
    let item = store.get_collection_item_by_id(i2).expect("fetch");
    assert_eq!(item.url, "u2");
    match store.get_collection_item_by_id(99) {
        Err(StoreError::NotFound) => {}
        other => panic!("expected NotFound, got {:?}", other),
    }
}

#[test]
fn cascade_delete_removes_only_the_deleted_collections_items() {
    let mut store = Store::new();
    let a = store.create_collection("a").expect("create");
    let b = store.create_collection("b").expect("create");
    store.save_to_collection(a, "one", "GET", "u1", "", "[]").expect("save");
    store.save_to_collection(b, "two", "POST", "u2", "", "[]").expect("save");
    store.save_to_collection(a, "three", "PUT", "u3", "", "[]").expect("save");
    store.delete_collection(a);
    assert_eq!(store.get_collections().len(), 1);
    assert_eq!(store.get_collections()[0].name, "b");
    assert_eq!(store.get_collection_items(a).len(), 0);
    let of_b = store.get_collection_items(b);
    assert_eq!(of_b.len(), 1);
    assert_eq!(of_b[0].name, "two");
}

#[test]
fn deleting_an_absent_collection_changes_nothing() {
    let mut store = Store::new();
    let a = store.create_collection("a").expect("create");
    store.save_to_collection(a, "one", "GET", "u1", "", "[]").expect("save");
    store.delete_collection(999);
    assert_eq!(store.get_collections().len(), 1);
    assert_eq!(store.get_collection_items(a).len(), 1);
}

#[test]
fn history_rows_keep_their_fields() {
    let mut store = Store::new();
    store
        .save_exchange(
            "POST",
            "https://example.test/p",
            "{\"x\":1}",
            "[[\"a\",\"b\"]]",
            "{}",
            "server: x\n",
            "201 Created",
            "3.50ms",
            "2 bytes",
            "2024-01-01 00:00:00",
        )
        .expect("save");
    let row = store.get_request_by_id(1).expect("fetch");
    assert_eq!(row.method, "POST");
    assert_eq!(row.url, "https://example.test/p");
    assert_eq!(row.request_body, "{\"x\":1}");
    assert_eq!(row.request_headers, "[[\"a\",\"b\"]]");
    assert_eq!(row.response_body, "{}");
    assert_eq!(row.response_headers, "server: x\n");
    assert_eq!(row.status, "201 Created");
    assert_eq!(row.time, "3.50ms");
    assert_eq!(row.size, "2 bytes");
    assert_eq!(row.timestamp, "2024-01-01 00:00:00");
}
