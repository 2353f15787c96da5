//! The action protocol: the closed set of events that can change
//! application state. The presentation layer only ever emits these and
//! observes the state the reducer exposes; it never writes state directly.

use vstd::prelude::*;
use crate::api::{ApiError, ApiResponse, ApiResponseModel};
use crate::models::Method;

verus! {

/// One event for the reducer: a field edit, a user command, or a lifecycle
/// notification the reducer emits itself to sequence multi-step effects.
#[derive(Debug)]
pub enum Action {
    /// Overwrite the draft's URL.
    UpdateUrl(String),
    /// Overwrite the draft's method.
    UpdateMethod(Method),
    /// Overwrite the draft's body text.
    UpdateBody(String),
    /// Overwrite the draft's header set.
    UpdateHeaders(Vec<(String, String)>),
    /// Dispatch the current draft; a no-op while the URL is empty.
    SendRequest,
    /// Reset the draft and the response pane to their defaults.
    NewRequest,
    /// Delete all history rows and clear the visible list.
    ClearHistory,
    /// Populate the draft and response pane from a stored exchange.
    LoadHistoryItem(i64),
    /// A dispatched request is now in flight.
    RequestStarted,
    /// A dispatched request finished, successfully or not.
    RequestCompleted(Result<ApiResponse, ApiError>),
    /// One exchange was appended to history under the given id.
    HistorySaved(i64),
    /// Create a new, empty collection under the given name.
    CreateCollection(String),
    /// Surface the items of the given collection.
    SelectCollection(i64),
    /// Save the current draft as an item of the given collection.
    SaveRequestToCollection { col_id: i64, name: String },
    /// Populate the draft from a saved request template.
    LoadCollectionItem(i64),
}

/// Mathematical image of an `Action`; a failed exchange is carried as its
/// message text.
#[verifier::ext_equal]
pub ghost enum ActionModel {
    UpdateUrl(Seq<char>),
    UpdateMethod(Method),
    UpdateBody(Seq<char>),
    UpdateHeaders(Seq<(Seq<char>, Seq<char>)>),
    SendRequest,
    NewRequest,
    ClearHistory,
    LoadHistoryItem(int),
    RequestStarted,
    RequestCompleted(Result<ApiResponseModel, Seq<char>>),
    HistorySaved(int),
    CreateCollection(Seq<char>),
    SelectCollection(int),
    SaveRequestToCollection { col_id: int, name: Seq<char> },
    LoadCollectionItem(int),
}

impl View for Action {
    type V = ActionModel;

    open spec fn view(&self) -> ActionModel {
        match self {
            Action::UpdateUrl(s) => ActionModel::UpdateUrl(s@),
            Action::UpdateMethod(m) => ActionModel::UpdateMethod(*m),
            Action::UpdateBody(s) => ActionModel::UpdateBody(s@),
            Action::UpdateHeaders(h) => ActionModel::UpdateHeaders(h.deep_view()),
            Action::SendRequest => ActionModel::SendRequest,
            Action::NewRequest => ActionModel::NewRequest,
            Action::ClearHistory => ActionModel::ClearHistory,
            Action::LoadHistoryItem(id) => ActionModel::LoadHistoryItem(*id as int),
            Action::RequestStarted => ActionModel::RequestStarted,
            Action::RequestCompleted(res) => ActionModel::RequestCompleted(
                match res {
                    Ok(r) => Ok(r@),
                    Err(ApiError::RequestFailed(m)) => Err(m@),
                },
            ),
            Action::HistorySaved(id) => ActionModel::HistorySaved(*id as int),
            Action::CreateCollection(name) => ActionModel::CreateCollection(name@),
            Action::SelectCollection(id) => ActionModel::SelectCollection(*id as int),
            Action::SaveRequestToCollection { col_id, name } => (
            ActionModel::SaveRequestToCollection { col_id: *col_id as int, name: name@ }),
            Action::LoadCollectionItem(id) => ActionModel::LoadCollectionItem(*id as int),
        }
    }
}

} // verus!
