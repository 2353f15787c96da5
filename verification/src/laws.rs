//! Laws of the state machine, proved over the `step` model: what whole
//! sequences of actions do to history, and what single transitions
//! guarantee.

use vstd::prelude::*;
use crate::api::ApiResponseModel;
use crate::reducer::{step, StateModel, StatusMarker};
use crate::state::ActionModel;
use crate::store::StoreModel;

verus! {

/// Whether an action is the successful completion of a send.
pub open spec fn is_success_completion(a: ActionModel) -> bool {
    match a {
        ActionModel::RequestCompleted(r) => r is Ok,
        _ => false,
    }
}

/// How many successful completions a queue of actions holds.
pub open spec fn count_success(actions: Seq<ActionModel>) -> int
    decreases actions.len(),
{
    if actions.len() == 0 {
        0
    } else {
        (if is_success_completion(actions[0]) {
            1int
        } else {
            0int
        }) + count_success(actions.drop_first())
    }
}

/// How many history-saved notifications a queue of actions holds.
pub open spec fn count_saved(actions: Seq<ActionModel>) -> int
    decreases actions.len(),
{
    if actions.len() == 0 {
        0
    } else {
        (if actions[0] is HistorySaved {
            1int
        } else {
            0int
        }) + count_saved(actions.drop_first())
    }
}

/// Whether a queue holds no bulk clear of history.
pub open spec fn no_clear(actions: Seq<ActionModel>) -> bool {
    forall|i: int| 0 <= i < actions.len() ==> !((#[trigger] actions[i]) is ClearHistory)
}

/// The result of processing a queue of actions in order: the final state
/// and store, and everything the steps emitted, in order.
#[verifier::ext_equal]
pub ghost struct RunModel {
    pub state: StateModel,
    pub store: StoreModel,
    pub emitted: Seq<ActionModel>,
}

/// Processes a queue of actions front to back through `step`.
pub open spec fn run(
    s: StateModel,
    st: StoreModel,
    actions: Seq<ActionModel>,
    now: Seq<char>,
) -> RunModel
    decreases actions.len(),
{
    if actions.len() == 0 {
        RunModel { state: s, store: st, emitted: Seq::empty() }
    } else {
        let m = step(s, st, actions[0], now);
        let rest = run(m.state, m.store, actions.drop_first(), now);
        RunModel { state: rest.state, store: rest.store, emitted: m.emitted + rest.emitted }
    }
}

proof fn lemma_count_success_nonneg(actions: Seq<ActionModel>)
    ensures
        count_success(actions) >= 0,
    decreases actions.len(),
{
    if actions.len() > 0 {
        lemma_count_success_nonneg(actions.drop_first());
    }
}

proof fn lemma_count_saved_append(a: Seq<ActionModel>, b: Seq<ActionModel>)
    ensures
        count_saved(a + b) == count_saved(a) + count_saved(b),
    decreases a.len(),
{
    if a.len() == 0 {
        assert(a + b =~= b);
    } else {
        assert((a + b)[0] == a[0]);
        assert((a + b).drop_first() =~= a.drop_first() + b);
        lemma_count_saved_append(a.drop_first(), b);
    }
}

proof fn lemma_count_saved_single(a: ActionModel)
    ensures
        count_saved(seq![a]) == (if a is HistorySaved {
            1int
        } else {
            0int
        }),
{
    assert(seq![a][0] == a);
    assert(seq![a].drop_first() =~= Seq::<ActionModel>::empty());
    assert(count_saved(Seq::<ActionModel>::empty()) == 0);
}

proof fn lemma_count_saved_populate(
    url: Seq<char>,
    method: Seq<char>,
    body: Seq<char>,
    headers: Seq<char>,
)
    ensures
        count_saved(crate::reducer::populate_actions(url, method, body, headers)) == 0,
{
    let p = crate::reducer::populate_actions(url, method, body, headers);
    let s1 = seq![ActionModel::UpdateUrl(url)];
    let s2: Seq<ActionModel> = match crate::models::parse_method_name(method) {
        Ok(m) => seq![ActionModel::UpdateMethod(m)],
        Err(_) => Seq::empty(),
    };
    let s3 = seq![ActionModel::UpdateBody(body)];
    let s4: Seq<ActionModel> = match crate::headers::decode_headers_spec(headers) {
        Some(h) => seq![ActionModel::UpdateHeaders(h)],
        None => Seq::empty(),
    };
    lemma_count_saved_single(ActionModel::UpdateUrl(url));
    lemma_count_saved_single(ActionModel::UpdateBody(body));
    match crate::models::parse_method_name(method) {
        Ok(m) => {
            lemma_count_saved_single(ActionModel::UpdateMethod(m));
        },
        Err(_) => {},
    }
    match crate::headers::decode_headers_spec(headers) {
        Some(h) => {
            lemma_count_saved_single(ActionModel::UpdateHeaders(h));
        },
        None => {},
    }
    lemma_count_saved_append(s1, s2);
    lemma_count_saved_append(s1 + s2, s3);
    lemma_count_saved_append(s1 + s2 + s3, s4);
}

/// What one step does to the history log and to the emitted notifications:
/// a successful completion with room in the id space appends exactly one
/// row, advances the id counter and emits exactly one `HistorySaved`; any
/// other action appends nothing and emits none, and only a bulk clear can
/// shrink the log.
proof fn lemma_step_history(s: StateModel, st: StoreModel, a: ActionModel, now: Seq<char>)
    requires
        is_success_completion(a) ==> st.next_history_id < i64::MAX,
    ensures
        (is_success_completion(a) ==> {
            let m = step(s, st, a, now);
            m.store.history.len() == st.history.len() + 1 && m.store.next_history_id
                == st.next_history_id + 1 && count_saved(m.emitted) == 1
        }),
        (!is_success_completion(a) ==> {
            let m = step(s, st, a, now);
            m.store.history.len() <= st.history.len() && m.store.next_history_id
                == st.next_history_id && count_saved(m.emitted) == 0 && (!(a is ClearHistory)
                ==> m.store.history.len() == st.history.len())
        }),
{
    let m = step(s, st, a, now);
    match a {
        ActionModel::SendRequest => {
            if s.draft.url.len() > 0 {
                lemma_count_saved_single(ActionModel::RequestStarted);
            }
        },
        ActionModel::LoadHistoryItem(id) => {
            match crate::store::find_history(st.history, id) {
                Some(it) => {
                    lemma_count_saved_populate(it.url, it.method, it.request_body,
                        it.request_headers);
                },
                None => {},
            }
        },
        ActionModel::LoadCollectionItem(id) => {
            match crate::store::find_item(st.items, id) {
                Some(it) => {
                    lemma_count_saved_populate(it.url, it.method, it.body, it.headers);
                },
                None => {},
            }
        },
        ActionModel::RequestCompleted(r) => {
            match r {
                Ok(_) => {
                    lemma_count_saved_single(ActionModel::HistorySaved(st.next_history_id));
                },
                Err(_) => {},
            }
        },
        _ => {},
    }
}

/// Over any queue of actions: the run emits exactly one `HistorySaved` per
/// successful completion; the history log never grows by more than that,
/// and grows by exactly that when the queue holds no bulk clear.
pub proof fn lemma_run_history(
    s: StateModel,
    st: StoreModel,
    actions: Seq<ActionModel>,
    now: Seq<char>,
)
    requires
        st.next_history_id + count_success(actions) <= i64::MAX,
    ensures
        count_saved(run(s, st, actions, now).emitted) == count_success(actions),
        run(s, st, actions, now).store.next_history_id == st.next_history_id + count_success(
            actions,
        ),
        run(s, st, actions, now).store.history.len() <= st.history.len() + count_success(actions),
        (no_clear(actions) ==> run(s, st, actions, now).store.history.len() == st.history.len()
            + count_success(actions)),
    decreases actions.len(),
{
    if actions.len() == 0 {
    } else {
        let a = actions[0];
        let tail = actions.drop_first();
        lemma_count_success_nonneg(tail);
        let m = step(s, st, a, now);
        lemma_step_history(s, st, a, now);
        lemma_run_history(m.state, m.store, tail, now);
        lemma_count_saved_append(m.emitted, run(m.state, m.store, tail, now).emitted);
        if no_clear(actions) {
            assert forall|i: int| 0 <= i < tail.len() implies !((#[trigger] tail[i])
                is ClearHistory) by {
                assert(tail[i] == actions[i + 1]);
            };
        }
    }
}

/// At most one history write per success: a queue holding exactly one
/// successful completion, and no bulk clear, emits exactly one
/// `HistorySaved` and leaves exactly one more row in the log.
pub proof fn lemma_one_success_one_write(
    s: StateModel,
    st: StoreModel,
    actions: Seq<ActionModel>,
    now: Seq<char>,
)
    requires
        count_success(actions) == 1,
        no_clear(actions),
        st.next_history_id < i64::MAX,
    ensures
        count_saved(run(s, st, actions, now).emitted) == 1,
        run(s, st, actions, now).store.history.len() == st.history.len() + 1,
{
    lemma_run_history(s, st, actions, now);
}

/// No history on failure: a queue with no successful completion — failed
/// sends included — emits no `HistorySaved` and never increases the number
/// of history rows.
pub proof fn lemma_no_history_on_failure(
    s: StateModel,
    st: StoreModel,
    actions: Seq<ActionModel>,
    now: Seq<char>,
)
    requires
        count_success(actions) == 0,
        st.next_history_id <= i64::MAX,
    ensures
        count_saved(run(s, st, actions, now).emitted) == 0,
        run(s, st, actions, now).store.history.len() <= st.history.len(),
{
    lemma_run_history(s, st, actions, now);
}

/// Idempotent reset: applying the reset action twice in a row yields the
/// same state, store, emissions and dispatch as applying it once.
pub proof fn lemma_reset_idempotent(s: StateModel, st: StoreModel, now: Seq<char>)
    ensures
        step(
            step(s, st, ActionModel::NewRequest, now).state,
            step(s, st, ActionModel::NewRequest, now).store,
            ActionModel::NewRequest,
            now,
        ) == step(s, st, ActionModel::NewRequest, now),
{
    let once = step(s, st, ActionModel::NewRequest, now);
    let twice = step(once.state, once.store, ActionModel::NewRequest, now);
    assert(twice =~~= once);
}

/// Status classification: a completed exchange is marked a success exactly
/// for status codes 200 through 299; every other code, and every failed
/// exchange, is marked an error.
pub proof fn lemma_status_classification(
    s: StateModel,
    st: StoreModel,
    res: ApiResponseModel,
    msg: Seq<char>,
    now: Seq<char>,
)
    ensures
        step(s, st, ActionModel::RequestCompleted(Ok(res)), now).state.marker == (if 200
            <= res.status_code < 300 {
            StatusMarker::Success
        } else {
            StatusMarker::Error
        }),
        step(s, st, ActionModel::RequestCompleted(Err(msg)), now).state.marker
            == StatusMarker::Error,
{
}

} // verus!
