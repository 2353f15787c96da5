//! The reducer: the single writer of application state.
//!
//! Every state change goes through `reduce`, which applies one action to the
//! visible state and the store, and yields the actions to feed back plus, for
//! a dispatched send, the draft snapshot to execute off-thread. The whole
//! transition is specified by the `step` function over mathematical models;
//! `reduce` is proved to implement it exactly.

use vstd::prelude::*;
use vstd::string::StringExecFns;
use crate::api::{classify_status, is_success_code, ApiError};
use crate::headers::{
    decode_headers, decode_headers_spec, encode_headers, encode_headers_spec, HeaderSeq,
};
use crate::models::{method_name, parse_method_name, Method};
use crate::state::{Action, ActionModel};
use crate::store::{
    create_collection_allowed, create_collection_model, find_history, find_item, pending_item,
    pending_record, save_exchange_allowed, save_exchange_model, save_item_allowed,
    save_item_model, Collection, CollectionModel, Store, StoreModel,
};

verus! {

/// The request being composed: what would be sent right now.
pub struct RequestDraft {
    pub method: Method,
    pub url: String,
    pub body: String,
    pub headers: Vec<(String, String)>,
}

/// Mathematical image of a `RequestDraft`.
#[verifier::ext_equal]
pub ghost struct DraftModel {
    pub method: Method,
    pub url: Seq<char>,
    pub body: Seq<char>,
    pub headers: HeaderSeq,
}

impl View for RequestDraft {
    type V = DraftModel;

    open spec fn view(&self) -> DraftModel {
        DraftModel {
            method: self.method,
            url: self.url@,
            body: self.body@,
            headers: self.headers.deep_view(),
        }
    }
}

fn clone_headers(v: &Vec<(String, String)>) -> (r: Vec<(String, String)>)
    ensures
        r.deep_view() == v.deep_view(),
{
    let mut r: Vec<(String, String)> = Vec::new();
    let mut i: usize = 0;
    proof {
        assert(r.deep_view() =~= v.deep_view().take(0));
    }
    while i < v.len()
        invariant
            i <= v.len(),
            r.deep_view() == v.deep_view().take(i as int),
        decreases v.len() - i,
    {
        let ghost prev = r.deep_view();
        r.push((v[i].0.clone(), v[i].1.clone()));
        proof {
            assert(r.deep_view() =~= prev.push(v.deep_view()[i as int]));
            assert(v.deep_view().take(i + 1) =~= v.deep_view().take(i as int).push(
                v.deep_view()[i as int],
            ));
        }
        i = i + 1;
    }
    proof {
        assert(v.deep_view().take(v.len() as int) =~= v.deep_view());
    }
    r
}

impl RequestDraft {
    /// A by-value snapshot of this draft.
    pub fn duplicate(&self) -> (r: Self)
        ensures
            r@ == self@,
    {
        let r = RequestDraft {
            method: self.method,
            url: self.url.clone(),
            body: self.body.clone(),
            headers: clone_headers(&self.headers),
        };
        proof {
            assert(r@ =~~= self@);
        }
        r
    }
}

/// The draft after a reset: `GET`, and everything else empty.
pub open spec fn empty_draft() -> DraftModel {
    DraftModel { method: Method::GET, url: Seq::empty(), body: Seq::empty(), headers: Seq::empty() }
}

/// The response pane: what the last exchange (or a loaded one) displays.
pub struct ResponsePane {
    pub body: String,
    pub headers: String,
    pub status: String,
    pub time: String,
    pub size: String,
}

/// Mathematical image of a `ResponsePane`.
#[verifier::ext_equal]
pub ghost struct PaneModel {
    pub body: Seq<char>,
    pub headers: Seq<char>,
    pub status: Seq<char>,
    pub time: Seq<char>,
    pub size: Seq<char>,
}

impl View for ResponsePane {
    type V = PaneModel;

    open spec fn view(&self) -> PaneModel {
        PaneModel {
            body: self.body@,
            headers: self.headers@,
            status: self.status@,
            time: self.time@,
            size: self.size@,
        }
    }
}

/// How the status readout is styled.
#[derive(Clone, Copy, Debug, PartialEq, Eq, Structural)]
pub enum StatusMarker {
    /// No styling: nothing completed yet, or a send is in flight.
    Neutral,
    /// The last exchange completed with a 2xx status.
    Success,
    /// The last exchange completed with any other status, or failed.
    Error,
}

/// One row of the visible history list.
pub struct HistoryRow {
    pub id: i64,
    pub method: String,
    pub url: String,
}

/// Mathematical image of a `HistoryRow`.
#[verifier::ext_equal]
pub ghost struct HistoryRowModel {
    pub id: int,
    pub method: Seq<char>,
    pub url: Seq<char>,
}

impl View for HistoryRow {
    type V = HistoryRowModel;

    open spec fn view(&self) -> HistoryRowModel {
        HistoryRowModel { id: self.id as int, method: self.method@, url: self.url@ }
    }
}

/// Everything the presentation layer can observe: the draft, the busy flag,
/// the response pane with its styling marker, and the two visible lists.
pub struct AppState {
    pub draft: RequestDraft,
    pub busy: bool,
    pub response: ResponsePane,
    pub marker: StatusMarker,
    pub history_rows: Vec<HistoryRow>,
    pub collection_rows: Vec<Collection>,
}

/// Mathematical image of an `AppState`.
#[verifier::ext_equal]
pub ghost struct StateModel {
    pub draft: DraftModel,
    pub busy: bool,
    pub pane: PaneModel,
    pub marker: StatusMarker,
    pub history_rows: Seq<HistoryRowModel>,
    pub collection_rows: Seq<CollectionModel>,
}

impl View for AppState {
    type V = StateModel;

    open spec fn view(&self) -> StateModel {
        StateModel {
            draft: self.draft@,
            busy: self.busy,
            pane: self.response@,
            marker: self.marker,
            history_rows: Seq::new(
                self.history_rows@.len() as nat,
                |i: int| self.history_rows@[i]@,
            ),
            collection_rows: Seq::new(
                self.collection_rows@.len() as nat,
                |i: int| self.collection_rows@[i]@,
            ),
        }
    }
}

/// The state before any action: empty draft, idle, placeholder readouts,
/// empty lists.
pub open spec fn initial_state() -> StateModel {
    StateModel {
        draft: empty_draft(),
        busy: false,
        pane: PaneModel {
            body: Seq::empty(),
            headers: Seq::empty(),
            status: "-"@,
            time: "- ms"@,
            size: "- KB"@,
        },
        marker: StatusMarker::Neutral,
        history_rows: Seq::empty(),
        collection_rows: Seq::empty(),
    }
}

impl AppState {
    /// The initial application state.
    pub fn new() -> (r: AppState)
        ensures
            r@ == initial_state(),
    {
        let r = AppState {
            draft: RequestDraft {
                method: Method::GET,
                url: String::new(),
                body: String::new(),
                headers: Vec::new(),
            },
            busy: false,
            response: ResponsePane {
                body: String::new(),
                headers: String::new(),
                status: String::from_str("-"),
                time: String::from_str("- ms"),
                size: String::from_str("- KB"),
            },
            marker: StatusMarker::Neutral,
            history_rows: Vec::new(),
            collection_rows: Vec::new(),
        };
        proof {
            assert(r@ =~~= initial_state());
        }
        r
    }
}

/// The views of queued actions, elementwise.
pub open spec fn actions_view(v: Seq<Action>) -> Seq<ActionModel> {
    Seq::new(v.len(), |i: int| v[i]@)
}

/// The full effect of one reducer step on the models: the next state and
/// store, the actions fed back into the queue, and the draft snapshot to
/// execute, if a send was dispatched.
#[verifier::ext_equal]
pub ghost struct StepModel {
    pub state: StateModel,
    pub store: StoreModel,
    pub emitted: Seq<ActionModel>,
    pub dispatch: Option<DraftModel>,
}

/// A step that changes nothing and emits nothing.
pub open spec fn no_change(s: StateModel, st: StoreModel) -> StepModel {
    StepModel { state: s, store: st, emitted: Seq::empty(), dispatch: None }
}

/// The marker a stored status line is styled with when an exchange is loaded
/// back from history: success exactly when the stored text begins with `2`.
pub open spec fn marker_of_stored_status(status: Seq<char>) -> StatusMarker {
    if status.len() > 0 && status[0] == '2' {
        StatusMarker::Success
    } else {
        StatusMarker::Error
    }
}

/// The field-edit actions that populate the draft from a stored request:
/// the URL always, the method and headers only where the stored text parses
/// back.
pub open spec fn populate_actions(
    url: Seq<char>,
    method: Seq<char>,
    body: Seq<char>,
    headers: Seq<char>,
) -> Seq<ActionModel> {
    seq![ActionModel::UpdateUrl(url)] + (match parse_method_name(method) {
        Ok(m) => seq![ActionModel::UpdateMethod(m)],
        Err(_) => Seq::empty(),
    }) + seq![ActionModel::UpdateBody(body)] + (match decode_headers_spec(headers) {
        Some(h) => seq![ActionModel::UpdateHeaders(h)],
        None => Seq::empty(),
    })
}

/// One transition of the state machine: what a single action does to the
/// visible state and the store, which actions it feeds back, and what it
/// dispatches.
pub open spec fn step(s: StateModel, st: StoreModel, a: ActionModel, now: Seq<char>) -> StepModel {
    match a {
        ActionModel::UpdateUrl(url) => StepModel {
            state: StateModel { draft: DraftModel { url, ..s.draft }, ..s },
            ..no_change(s, st)
        },
        ActionModel::UpdateMethod(m) => StepModel {
            state: StateModel { draft: DraftModel { method: m, ..s.draft }, ..s },
            ..no_change(s, st)
        },
        ActionModel::UpdateBody(body) => StepModel {
            state: StateModel { draft: DraftModel { body, ..s.draft }, ..s },
            ..no_change(s, st)
        },
        ActionModel::UpdateHeaders(headers) => StepModel {
            state: StateModel { draft: DraftModel { headers, ..s.draft }, ..s },
            ..no_change(s, st)
        },
        ActionModel::SendRequest => {
            if s.draft.url.len() == 0 {
                no_change(s, st)
            } else {
                StepModel {
                    emitted: seq![ActionModel::RequestStarted],
                    dispatch: Some(s.draft),
                    ..no_change(s, st)
                }
            }
        },
        ActionModel::NewRequest => StepModel {
            state: StateModel {
                draft: empty_draft(),
                pane: PaneModel {
                    body: Seq::empty(),
                    headers: Seq::empty(),
                    status: "-"@,
                    ..s.pane
                },
                marker: StatusMarker::Neutral,
                ..s
            },
            ..no_change(s, st)
        },
        ActionModel::ClearHistory => StepModel {
            state: StateModel { history_rows: Seq::empty(), ..s },
            store: StoreModel { history: Seq::empty(), ..st },
            ..no_change(s, st)
        },
        ActionModel::LoadHistoryItem(id) => match find_history(st.history, id) {
            Some(it) => StepModel {
                state: StateModel {
                    pane: PaneModel {
                        body: it.response_body,
                        headers: it.response_headers,
                        status: it.status,
                        time: it.time,
                        size: it.size,
                    },
                    marker: marker_of_stored_status(it.status),
                    ..s
                },
                emitted: populate_actions(it.url, it.method, it.request_body, it.request_headers),
                ..no_change(s, st)
            },
            None => no_change(s, st),
        },
        ActionModel::RequestStarted => StepModel {
            state: StateModel {
                busy: true,
                pane: PaneModel { status: "Sending..."@, ..s.pane },
                marker: StatusMarker::Neutral,
                ..s
            },
            ..no_change(s, st)
        },
        ActionModel::RequestCompleted(result) => match result {
            Ok(res) => {
                let shown = StateModel {
                    busy: false,
                    pane: PaneModel {
                        body: res.body,
                        headers: res.headers,
                        status: res.status,
                        time: res.time,
                        size: res.size,
                    },
                    marker: if is_success_code(res.status_code) {
                        StatusMarker::Success
                    } else {
                        StatusMarker::Error
                    },
                    ..s
                };
                let rec = pending_record(
                    method_name(s.draft.method),
                    s.draft.url,
                    s.draft.body,
                    encode_headers_spec(s.draft.headers),
                    res.body,
                    res.headers,
                    res.status,
                    res.time,
                    res.size,
                    now,
                );
                if save_exchange_allowed(st) {
                    StepModel {
                        state: shown,
                        store: save_exchange_model(st, rec),
                        emitted: seq![ActionModel::HistorySaved(st.next_history_id)],
                        dispatch: None,
                    }
                } else {
                    StepModel { state: shown, ..no_change(s, st) }
                }
            },
            Err(msg) => StepModel {
                state: StateModel {
                    busy: false,
                    pane: PaneModel { body: msg, status: "Error"@, ..s.pane },
                    marker: StatusMarker::Error,
                    ..s
                },
                ..no_change(s, st)
            },
        },
        ActionModel::HistorySaved(id) => StepModel {
            state: StateModel {
                history_rows: s.history_rows.push(
                    HistoryRowModel { id, method: method_name(s.draft.method), url: s.draft.url },
                ),
                ..s
            },
            ..no_change(s, st)
        },
        ActionModel::CreateCollection(name) => {
            if !crate::store::has_col_name(st.collections, name) && create_collection_allowed(st) {
                StepModel {
                    state: StateModel {
                        collection_rows: s.collection_rows.push(
                            CollectionModel { id: st.next_collection_id, name },
                        ),
                        ..s
                    },
                    store: create_collection_model(st, name),
                    ..no_change(s, st)
                }
            } else {
                no_change(s, st)
            }
        },
        ActionModel::SelectCollection(_) => no_change(s, st),
        ActionModel::SaveRequestToCollection { col_id, name } => {
            if save_item_allowed(st) {
                StepModel {
                    store: save_item_model(
                        st,
                        pending_item(
                            col_id,
                            name,
                            method_name(s.draft.method),
                            s.draft.url,
                            s.draft.body,
                            encode_headers_spec(s.draft.headers),
                        ),
                    ),
                    ..no_change(s, st)
                }
            } else {
                no_change(s, st)
            }
        },
        ActionModel::LoadCollectionItem(id) => match find_item(st.items, id) {
            Some(it) => StepModel {
                emitted: populate_actions(it.url, it.method, it.body, it.headers),
                ..no_change(s, st)
            },
            None => no_change(s, st),
        },
    }
}

/// What one call of the reducer hands back to the event loop: actions to
/// feed into the queue, and the draft snapshot to execute if a send was
/// dispatched.
pub struct StepOutput {
    pub emitted: Vec<Action>,
    pub dispatch: Option<RequestDraft>,
}

/// Applies one action: the single writer of application state. The whole
/// transition — state, store, fed-back actions and dispatch — is exactly
/// `step` of the models; `now` is the wall-clock text recorded with a
/// persisted exchange.
#[verifier::rlimit(100)]
pub fn reduce(state: &mut AppState, store: &mut Store, action: Action, now: &str) -> (out:
    StepOutput)
    requires
        old(store)@.wf(),
    ensures
        final(store)@.wf(),
        (final(state)@ == step(old(state)@, old(store)@, action@, now@).state),
        (final(store)@ == step(old(state)@, old(store)@, action@, now@).store),
        (actions_view(out.emitted@) == step(old(state)@, old(store)@, action@, now@).emitted),
        ((out.dispatch is Some) == (step(old(state)@, old(store)@, action@, now@).dispatch
            is Some)),
        (out.dispatch matches Some(d) ==> step(old(state)@, old(store)@, action@, now@).dispatch
            == Some(d@)),
{
    let ghost m = step(old(state)@, old(store)@, action@, now@);
    match action {
        Action::UpdateUrl(url) => {
            state.draft.url = url;
            let emitted: Vec<Action> = Vec::new();
            proof {
                assert(state@ =~~= m.state);
                assert(actions_view(emitted@) =~= m.emitted);
            }
            StepOutput { emitted, dispatch: None }
        },
        Action::UpdateMethod(method) => {
            state.draft.method = method;
            let emitted: Vec<Action> = Vec::new();
            proof {
                assert(state@ =~~= m.state);
                assert(actions_view(emitted@) =~= m.emitted);
            }
            StepOutput { emitted, dispatch: None }
        },
        Action::UpdateBody(body) => {
            state.draft.body = body;
            let emitted: Vec<Action> = Vec::new();
            proof {
                assert(state@ =~~= m.state);
                assert(actions_view(emitted@) =~= m.emitted);
            }
            StepOutput { emitted, dispatch: None }
        },
        Action::UpdateHeaders(headers) => {
            state.draft.headers = headers;
            let emitted: Vec<Action> = Vec::new();
            proof {
                assert(state@ =~~= m.state);
                assert(actions_view(emitted@) =~= m.emitted);
            }
            StepOutput { emitted, dispatch: None }
        },
        Action::SendRequest => {
            if state.draft.url.unicode_len() == 0 {
                let emitted: Vec<Action> = Vec::new();
                proof {
                    assert(state@ =~~= m.state);
                    assert(actions_view(emitted@) =~= m.emitted);
                }
                StepOutput { emitted, dispatch: None }
            } else {
                let snapshot = state.draft.duplicate();
                let mut emitted: Vec<Action> = Vec::new();
                emitted.push(Action::RequestStarted);
                proof {
                    assert(state@ =~~= m.state);
                    assert(actions_view(emitted@) =~= m.emitted);
                }
                StepOutput { emitted, dispatch: Some(snapshot) }
            }
        },
        Action::NewRequest => {
            state.draft.method = Method::GET;
            state.draft.url = String::new();
            state.draft.body = String::new();
            state.draft.headers = Vec::new();
            state.response.body = String::new();
            state.response.headers = String::new();
            state.response.status = String::from_str("-");
            state.marker = StatusMarker::Neutral;
            let emitted: Vec<Action> = Vec::new();
            proof {
                assert(state@ =~~= m.state);
                assert(actions_view(emitted@) =~= m.emitted);
            }
            StepOutput { emitted, dispatch: None }
        },
        Action::ClearHistory => {
            store.clear_history();
            state.history_rows = Vec::new();
            let emitted: Vec<Action> = Vec::new();
            proof {
                assert(state@ =~~= m.state);
                assert(store@ =~~= m.store);
                assert(actions_view(emitted@) =~= m.emitted);
            }
            StepOutput { emitted, dispatch: None }
        },
        Action::LoadHistoryItem(id) => {
            match store.get_request_by_id(id) {
                Ok(item) => {
                    let mut emitted: Vec<Action> = Vec::new();
                    emitted.push(Action::UpdateUrl(item.url.clone()));
                    match Method::from_str(item.method.as_str()) {
                        Ok(mth) => {
                            emitted.push(Action::UpdateMethod(mth));
                        },
                        Err(_) => {},
                    }
                    emitted.push(Action::UpdateBody(item.request_body.clone()));
                    match decode_headers(item.request_headers.as_str()) {
                        Some(h) => {
                            emitted.push(Action::UpdateHeaders(h));
                        },
                        None => {},
                    }
                    state.response.body = item.response_body.clone();
                    state.response.headers = item.response_headers.clone();
                    state.response.status = item.status.clone();
                    state.response.time = item.time.clone();
                    state.response.size = item.size.clone();
                    let success = item.status.unicode_len() > 0 && item.status.as_str().get_char(0)
                        == '2';
                    state.marker = if success {
                        StatusMarker::Success
                    } else {
                        StatusMarker::Error
                    };
                    proof {
                        assert(state@ =~~= m.state);
                        assert(actions_view(emitted@) =~= m.emitted);
                    }
                    StepOutput { emitted, dispatch: None }
                },
                Err(_) => {
                    let emitted: Vec<Action> = Vec::new();
                    proof {
                        assert(state@ =~~= m.state);
                        assert(actions_view(emitted@) =~= m.emitted);
                    }
                    StepOutput { emitted, dispatch: None }
                },
            }
        },
        Action::RequestStarted => {
            state.busy = true;
            state.response.status = String::from_str("Sending...");
            state.marker = StatusMarker::Neutral;
            let emitted: Vec<Action> = Vec::new();
            proof {
                assert(state@ =~~= m.state);
                assert(actions_view(emitted@) =~= m.emitted);
            }
            StepOutput { emitted, dispatch: None }
        },
        Action::RequestCompleted(result) => match result {
            Ok(res) => {
                state.busy = false;
                state.response.body = res.body.clone();
                state.response.headers = res.headers.clone();
                state.response.status = res.status.clone();
                state.response.time = res.time.clone();
                state.response.size = res.size.clone();
                state.marker = if classify_status(res.status_code) {
                    StatusMarker::Success
                } else {
                    StatusMarker::Error
                };
                let headers_json = encode_headers(&state.draft.headers);
                let saved = store.save_exchange(
                    state.draft.method.as_str(),
                    state.draft.url.as_str(),
                    state.draft.body.as_str(),
                    headers_json.as_str(),
                    res.body.as_str(),
                    res.headers.as_str(),
                    res.status.as_str(),
                    res.time.as_str(),
                    res.size.as_str(),
                    now,
                );
                let mut emitted: Vec<Action> = Vec::new();
                match saved {
                    Ok(id) => {
                        emitted.push(Action::HistorySaved(id));
                    },
                    Err(_) => {},
                }
                proof {
                    assert(state@ =~~= m.state);
                    assert(store@ =~~= m.store);
                    assert(actions_view(emitted@) =~= m.emitted);
                }
                StepOutput { emitted, dispatch: None }
            },
            Err(err) => {
                state.busy = false;
                match err {
                    ApiError::RequestFailed(msg) => {
                        state.response.body = msg;
                    },
                }
                state.response.status = String::from_str("Error");
                state.marker = StatusMarker::Error;
                let emitted: Vec<Action> = Vec::new();
                proof {
                    assert(state@ =~~= m.state);
                    assert(actions_view(emitted@) =~= m.emitted);
                }
                StepOutput { emitted, dispatch: None }
            },
        },
        Action::HistorySaved(id) => {
            let row = HistoryRow {
                id,
                method: String::from_str(state.draft.method.as_str()),
                url: state.draft.url.clone(),
            };
            state.history_rows.push(row);
            let emitted: Vec<Action> = Vec::new();
            proof {
                assert(state@ =~~= m.state);
                assert(actions_view(emitted@) =~= m.emitted);
            }
            StepOutput { emitted, dispatch: None }
        },
        Action::CreateCollection(name) => {
            let created = store.create_collection(name.as_str());
            match created {
                Ok(id) => {
                    state.collection_rows.push(Collection { id, name });
                },
                Err(_) => {},
            }
            let emitted: Vec<Action> = Vec::new();
            proof {
                assert(state@ =~~= m.state);
                assert(store@ =~~= m.store);
                assert(actions_view(emitted@) =~= m.emitted);
            }
            StepOutput { emitted, dispatch: None }
        },
        Action::SelectCollection(_) => {
            let emitted: Vec<Action> = Vec::new();
            proof {
                assert(state@ =~~= m.state);
                assert(actions_view(emitted@) =~= m.emitted);
            }
            StepOutput { emitted, dispatch: None }
        },
        Action::SaveRequestToCollection { col_id, name } => {
            let headers_json = encode_headers(&state.draft.headers);
            let _ = store.save_to_collection(
                col_id,
                name.as_str(),
                state.draft.method.as_str(),
                state.draft.url.as_str(),
                state.draft.body.as_str(),
                headers_json.as_str(),
            );
            let emitted: Vec<Action> = Vec::new();
            proof {
                assert(state@ =~~= m.state);
                assert(store@ =~~= m.store);
                assert(actions_view(emitted@) =~= m.emitted);
            }
            StepOutput { emitted, dispatch: None }
        },
        Action::LoadCollectionItem(id) => {
            match store.get_collection_item_by_id(id) {
                Ok(item) => {
                    let mut emitted: Vec<Action> = Vec::new();
                    emitted.push(Action::UpdateUrl(item.url.clone()));
                    match Method::from_str(item.method.as_str()) {
                        Ok(mth) => {
                            emitted.push(Action::UpdateMethod(mth));
                        },
                        Err(_) => {},
                    }
                    emitted.push(Action::UpdateBody(item.body.clone()));
                    match decode_headers(item.headers.as_str()) {
                        Some(h) => {
                            emitted.push(Action::UpdateHeaders(h));
                        },
                        None => {},
                    }
                    proof {
                        assert(state@ =~~= m.state);
                        assert(actions_view(emitted@) =~= m.emitted);
                    }
                    StepOutput { emitted, dispatch: None }
                },
                Err(_) => {
                    let emitted: Vec<Action> = Vec::new();
                    proof {
                        assert(state@ =~~= m.state);
                        assert(actions_view(emitted@) =~= m.emitted);
                    }
                    StepOutput { emitted, dispatch: None }
                },
            }
        },
    }
}

} // verus!
