use dispatch::api::{normalize_response, ApiError, ApiResponse};
use dispatch::models::Method;
use dispatch::reducer::{reduce, AppState, StatusMarker, StepOutput};
use dispatch::state::Action;
use dispatch::store::Store;

const NOW: &str = "2024-01-01 00:00:00";

fn apply(state: &mut AppState, store: &mut Store, action: Action) -> StepOutput {
    reduce(state, store, action, NOW)
}

/// Feeds the emitted actions back into the reducer, queue-style, until none
/// are left, as the event loop would.
fn drain(state: &mut AppState, store: &mut Store, first: Action) {
    let mut queue = vec![first];
    while !queue.is_empty() {
        let action = queue.remove(0);
        let out = reduce(state, store, action, NOW);
        queue.extend(out.emitted);
    }
}

fn ok_response() -> ApiResponse {
    normalize_response(200, "OK", &Vec::new(), "{}", 10_000, Some(2))
}

#[test]
fn field_edits_overwrite_the_draft() {
    let mut state = AppState::new();
    let mut store = Store::new();
    apply(&mut state, &mut store, Action::UpdateUrl("https://x".to_string()));
    apply(&mut state, &mut store, Action::UpdateMethod(Method::PUT));
    apply(&mut state, &mut store, Action::UpdateBody("body".to_string()));
    apply(
        &mut state,
        &mut store,
        Action::UpdateHeaders(vec![("a".to_string(), "b".to_string())]),
    );
    assert_eq!(state.draft.url, "https://x");
    assert_eq!(state.draft.method, Method::PUT);
    assert_eq!(state.draft.body, "body");
    assert_eq!(state.draft.headers, vec![("a".to_string(), "b".to_string())]);
}

#[test]
fn send_with_empty_url_is_a_no_op() {
    let mut state = AppState::new();
    let mut store = Store::new();
    let out = apply(&mut state, &mut store, Action::SendRequest);
    assert!(out.emitted.is_empty());
    assert!(out.dispatch.is_none());
    assert!(!state.busy);
}

#[test]
fn send_snapshots_the_draft_and_starts_the_lifecycle() {
    let mut state = AppState::new();
    let mut store = Store::new();
    apply(&mut state, &mut store, Action::UpdateUrl("https://x".to_string()));
    apply(&mut state, &mut store, Action::UpdateBody("payload".to_string()));
    let out = apply(&mut state, &mut store, Action::SendRequest);
    assert_eq!(out.emitted.len(), 1);
    assert!(matches!(out.emitted[0], Action::RequestStarted));
    let snapshot = out.dispatch.expect("a send dispatches the snapshot");
    assert_eq!(snapshot.url, "https://x");
    assert_eq!(snapshot.body, "payload");
    // Later edits cannot change the snapshot.
    apply(&mut state, &mut store, Action::UpdateUrl("https://else".to_string()));
    assert_eq!(snapshot.url, "https://x");
}

#[test]
fn request_started_marks_busy() {
    let mut state = AppState::new();
    let mut store = Store::new();
    apply(&mut state, &mut store, Action::RequestStarted);
    assert!(state.busy);
    assert_eq!(state.response.status, "Sending...");
    assert_eq!(state.marker, StatusMarker::Neutral);
}

#[test]
fn end_to_end_successful_send() {
    let mut state = AppState::new();
    let mut store = Store::new();
    apply(&mut state, &mut store, Action::UpdateUrl("https://example.test/a".to_string()));
    let out = apply(&mut state, &mut store, Action::SendRequest);
    assert!(matches!(out.emitted[0], Action::RequestStarted));
    let snapshot = out.dispatch.expect("dispatched");
    assert_eq!(snapshot.method, Method::GET);
    apply(&mut state, &mut store, Action::RequestStarted);
    assert!(state.busy);

    let res = ok_response();
    assert_eq!(res.status, "200 OK");
    let out = apply(&mut state, &mut store, Action::RequestCompleted(Ok(res)));
    assert!(!state.busy);
    assert_eq!(state.response.status, "200 OK");
    assert_eq!(state.response.body, "{}");
    assert_eq!(state.response.time, "10.00ms");
    assert_eq!(state.response.size, "2 bytes");
    assert_eq!(state.marker, StatusMarker::Success);
    assert_eq!(store.get_history().len(), 1);
    assert_eq!(out.emitted.len(), 1);
    let saved_id = match out.emitted.into_iter().next().unwrap() {
        Action::HistorySaved(id) => id,
        other => panic!("expected HistorySaved, got {:?}", other),
    };
    assert_eq!(saved_id, 1);

    apply(&mut state, &mut store, Action::HistorySaved(saved_id));
    assert_eq!(state.history_rows.len(), 1);
    assert_eq!(state.history_rows[0].method, "GET");
    assert_eq!(state.history_rows[0].url, "https://example.test/a");

    let row = store.get_request_by_id(saved_id).expect("stored");
    assert_eq!(row.method, "GET");
    assert_eq!(row.url, "https://example.test/a");
    assert_eq!(row.status, "200 OK");
    assert_eq!(row.timestamp, NOW);
}

#[test]
fn failed_send_shows_the_error_and_writes_no_history() {
    let mut state = AppState::new();
    let mut store = Store::new();
    apply(&mut state, &mut store, Action::UpdateUrl("https://x".to_string()));
    apply(&mut state, &mut store, Action::SendRequest);
    apply(&mut state, &mut store, Action::RequestStarted);
    let out = apply(
        &mut state,
        &mut store,
        Action::RequestCompleted(Err(ApiError::RequestFailed("boom".to_string()))),
    );
    assert!(out.emitted.is_empty());
    assert!(!state.busy);
    assert_eq!(state.response.body, "boom");
    assert_eq!(state.response.status, "Error");
    assert_eq!(state.marker, StatusMarker::Error);
    assert_eq!(store.get_history().len(), 0);
}

#[test]
fn non_success_status_is_marked_error() {
    let mut state = AppState::new();
    let mut store = Store::new();
    apply(&mut state, &mut store, Action::UpdateUrl("https://x".to_string()));
    let res = normalize_response(404, "Not Found", &Vec::new(), "{}", 1_000, Some(2));
    apply(&mut state, &mut store, Action::RequestCompleted(Ok(res)));
    assert_eq!(state.marker, StatusMarker::Error);
    assert_eq!(state.response.status, "404 Not Found");
    // A non-2xx completion still counts as a completed exchange: it is stored.
    assert_eq!(store.get_history().len(), 1);
}

#[test]
fn reset_clears_draft_and_pane_and_is_idempotent() {
    let mut state = AppState::new();
    let mut store = Store::new();
    apply(&mut state, &mut store, Action::UpdateUrl("https://x".to_string()));
    apply(&mut state, &mut store, Action::UpdateMethod(Method::POST));
    apply(&mut state, &mut store, Action::RequestCompleted(Ok(ok_response())));
    apply(&mut state, &mut store, Action::NewRequest);
    let after_once = (
        state.draft.url.clone(),
        state.draft.method,
        state.draft.body.clone(),
        state.draft.headers.clone(),
        state.response.body.clone(),
        state.response.status.clone(),
        state.marker,
        state.history_rows.len(),
    );
    assert_eq!(after_once.0, "");
    assert_eq!(after_once.1, Method::GET);
    assert_eq!(after_once.4, "");
    assert_eq!(after_once.5, "-");
    assert_eq!(after_once.6, StatusMarker::Neutral);
    apply(&mut state, &mut store, Action::NewRequest);
    let after_twice = (
        state.draft.url.clone(),
        state.draft.method,
        state.draft.body.clone(),
        state.draft.headers.clone(),
        state.response.body.clone(),
        state.response.status.clone(),
        state.marker,
        state.history_rows.len(),
    );
    assert_eq!(after_once, after_twice);
    // Reset does not touch history.
    assert_eq!(store.get_history().len(), 1);
}

#[test]
fn clear_history_empties_store_and_visible_list() {
    let mut state = AppState::new();
    let mut store = Store::new();
    apply(&mut state, &mut store, Action::UpdateUrl("https://x".to_string()));
    drain(&mut state, &mut store, Action::RequestCompleted(Ok(ok_response())));
    assert_eq!(state.history_rows.len(), 1);
    apply(&mut state, &mut store, Action::ClearHistory);
    assert_eq!(state.history_rows.len(), 0);
    assert_eq!(store.get_history().len(), 0);
}

#[test]
fn loading_a_history_item_repopulates_draft_and_pane() {
    let mut state = AppState::new();
    let mut store = Store::new();
    apply(&mut state, &mut store, Action::UpdateUrl("https://example.test/a".to_string()));
    apply(&mut state, &mut store, Action::UpdateMethod(Method::POST));
    apply(&mut state, &mut store, Action::UpdateBody("req body".to_string()));
    apply(
        &mut state,
        &mut store,
        Action::UpdateHeaders(vec![
            ("a".to_string(), "1".to_string()),
            ("".to_string(), "dropped".to_string()),
        ]),
    );
    drain(&mut state, &mut store, Action::RequestCompleted(Ok(ok_response())));

    // Change everything, then load the stored exchange back.
    apply(&mut state, &mut store, Action::NewRequest);
    drain(&mut state, &mut store, Action::LoadHistoryItem(1));
    assert_eq!(state.draft.url, "https://example.test/a");
    assert_eq!(state.draft.method, Method::POST);
    assert_eq!(state.draft.body, "req body");
    // The empty-named pair was dropped at the storage boundary.
    assert_eq!(state.draft.headers, vec![("a".to_string(), "1".to_string())]);
    assert_eq!(state.response.status, "200 OK");
    assert_eq!(state.response.body, "{}");
    assert_eq!(state.marker, StatusMarker::Success);
}

#[test]
fn loading_an_absent_history_id_is_a_no_op() {
    let mut state = AppState::new();
    let mut store = Store::new();
    apply(&mut state, &mut store, Action::UpdateUrl("kept".to_string()));
    let out = apply(&mut state, &mut store, Action::LoadHistoryItem(42));
    assert!(out.emitted.is_empty());
    assert_eq!(state.draft.url, "kept");
    assert_eq!(state.response.status, "-");
}

#[test]
fn creating_collections_updates_store_and_visible_list() {
    let mut state = AppState::new();
    let mut store = Store::new();
    apply(&mut state, &mut store, Action::CreateCollection("work".to_string()));
    apply(&mut state, &mut store, Action::CreateCollection("api".to_string()));
    assert_eq!(state.collection_rows.len(), 2);
    // The visible list appends in creation order; the store keeps name order.
    assert_eq!(state.collection_rows[0].name, "work");
    assert_eq!(state.collection_rows[1].name, "api");
    let cols = store.get_collections();
    assert_eq!(cols[0].name, "api");
    assert_eq!(cols[1].name, "work");
}

#[test]
fn duplicate_collection_creation_is_swallowed() {
    let mut state = AppState::new();
    let mut store = Store::new();
    apply(&mut state, &mut store, Action::CreateCollection("api".to_string()));
    let out = apply(&mut state, &mut store, Action::CreateCollection("api".to_string()));
    assert!(out.emitted.is_empty());
    assert_eq!(state.collection_rows.len(), 1);
    assert_eq!(store.get_collections().len(), 1);
}

#[test]
fn saving_and_loading_a_collection_item_round_trips_the_draft() {
    let mut state = AppState::new();
    let mut store = Store::new();
    apply(&mut state, &mut store, Action::CreateCollection("api".to_string()));
    let col_id = state.collection_rows[0].id;
    apply(&mut state, &mut store, Action::UpdateUrl("https://x/save".to_string()));
    apply(&mut state, &mut store, Action::UpdateMethod(Method::PATCH));
    apply(&mut state, &mut store, Action::UpdateBody("tpl".to_string()));
    apply(
        &mut state,
        &mut store,
        Action::UpdateHeaders(vec![("k".to_string(), "v".to_string())]),
    );
    apply(
        &mut state,
        &mut store,
        Action::SaveRequestToCollection { col_id, name: "tpl name".to_string() },
    );
    let items = store.get_collection_items(col_id);
    assert_eq!(items.len(), 1);
    assert_eq!(items[0].name, "tpl name");
    let item_id = items[0].id;

    apply(&mut state, &mut store, Action::NewRequest);
    drain(&mut state, &mut store, Action::LoadCollectionItem(item_id));
    assert_eq!(state.draft.url, "https://x/save");
    assert_eq!(state.draft.method, Method::PATCH);
    assert_eq!(state.draft.body, "tpl");
    assert_eq!(state.draft.headers, vec![("k".to_string(), "v".to_string())]);
    // Collections store requests only: the response pane is untouched.
    assert_eq!(state.response.status, "-");
}

#[test]
fn selecting_a_collection_changes_no_state() {
    let mut state = AppState::new();
    let mut store = Store::new();
    apply(&mut state, &mut store, Action::CreateCollection("api".to_string()));
    let out = apply(&mut state, &mut store, Action::SelectCollection(1));
    assert!(out.emitted.is_empty());
    assert_eq!(state.collection_rows.len(), 1);
    assert_eq!(store.get_collections().len(), 1);
}

#[test]
fn stale_completion_overwrites_the_pane_last_wins() {
    let mut state = AppState::new();
    let mut store = Store::new();
    apply(&mut state, &mut store, Action::UpdateUrl("https://x".to_string()));
    let first = normalize_response(200, "OK", &Vec::new(), "{}", 1_000, Some(2));
    let second = normalize_response(500, "Internal Server Error", &Vec::new(), "{}", 1_000, None);
    drain(&mut state, &mut store, Action::RequestCompleted(Ok(first)));
    drain(&mut state, &mut store, Action::RequestCompleted(Ok(second)));
    // Results apply in completion order: the last to finish owns the pane.
    assert_eq!(state.response.status, "500 Internal Server Error");
    assert_eq!(state.marker, StatusMarker::Error);
    assert_eq!(store.get_history().len(), 2);
}
