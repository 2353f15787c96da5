//! The persistence gateway: history and named collections of saved requests.
//!
//! Two independent aggregates share one store. History is an append-only log
//! with monotonically assigned ids; reads surface the newest fifty rows.
//! Collections are a namespace with unique names kept in ascending name
//! order; their items are removed with their collection. The store owns its
//! rows and hands back copies, never references.

use vstd::prelude::*;
use vstd::string::StringExecFns;
use crate::strings::{lex_lt, lemma_lex_connected, lemma_lex_trans, str_eq, str_lt};

verus! {

/// Number of history rows surfaced by a read; older rows stay stored.
pub const HISTORY_READ_CAP: usize = 50;

/// One persisted exchange.
#[derive(Debug)]
pub struct HistoryItem {
    pub id: i64,
    pub method: String,
    pub url: String,
    pub request_body: String,
    pub request_headers: String,
    pub response_body: String,
    pub response_headers: String,
    pub status: String,
    pub time: String,
    pub size: String,
    pub timestamp: String,
}

/// Mathematical image of a `HistoryItem`.
#[verifier::ext_equal]
pub ghost struct HistoryItemModel {
    pub id: int,
    pub method: Seq<char>,
    pub url: Seq<char>,
    pub request_body: Seq<char>,
    pub request_headers: Seq<char>,
    pub response_body: Seq<char>,
    pub response_headers: Seq<char>,
    pub status: Seq<char>,
    pub time: Seq<char>,
    pub size: Seq<char>,
    pub timestamp: Seq<char>,
}

impl View for HistoryItem {
    type V = HistoryItemModel;

    open spec fn view(&self) -> HistoryItemModel {
        HistoryItemModel {
            id: self.id as int,
            method: self.method@,
            url: self.url@,
            request_body: self.request_body@,
            request_headers: self.request_headers@,
            response_body: self.response_body@,
            response_headers: self.response_headers@,
            status: self.status@,
            time: self.time@,
            size: self.size@,
            timestamp: self.timestamp@,
        }
    }
}

impl HistoryItem {
    /// A copy of this row.
    pub fn duplicate(&self) -> (r: Self)
        ensures
            r == *self,
    {
        HistoryItem {
            id: self.id,
            method: self.method.clone(),
            url: self.url.clone(),
            request_body: self.request_body.clone(),
            request_headers: self.request_headers.clone(),
            response_body: self.response_body.clone(),
            response_headers: self.response_headers.clone(),
            status: self.status.clone(),
            time: self.time.clone(),
            size: self.size.clone(),
            timestamp: self.timestamp.clone(),
        }
    }
}

/// A user-named folder of saved requests.
#[derive(Debug)]
pub struct Collection {
    pub id: i64,
    pub name: String,
}

/// Mathematical image of a `Collection`.
#[verifier::ext_equal]
pub ghost struct CollectionModel {
    pub id: int,
    pub name: Seq<char>,
}

impl View for Collection {
    type V = CollectionModel;

    open spec fn view(&self) -> CollectionModel {
        CollectionModel { id: self.id as int, name: self.name@ }
    }
}

impl Collection {
    /// A copy of this row.
    pub fn duplicate(&self) -> (r: Self)
        ensures
            r == *self,
    {
        Collection { id: self.id, name: self.name.clone() }
    }
}

/// One saved request template inside a collection.
#[derive(Debug)]
pub struct CollectionItem {
    pub id: i64,
    pub collection_id: i64,
    pub name: String,
    pub method: String,
    pub url: String,
    pub body: String,
    pub headers: String,
}

/// Mathematical image of a `CollectionItem`.
#[verifier::ext_equal]
pub ghost struct CollectionItemModel {
    pub id: int,
    pub collection_id: int,
    pub name: Seq<char>,
    pub method: Seq<char>,
    pub url: Seq<char>,
    pub body: Seq<char>,
    pub headers: Seq<char>,
}

impl View for CollectionItem {
    type V = CollectionItemModel;

    open spec fn view(&self) -> CollectionItemModel {
        CollectionItemModel {
            id: self.id as int,
            collection_id: self.collection_id as int,
            name: self.name@,
            method: self.method@,
            url: self.url@,
            body: self.body@,
            headers: self.headers@,
        }
    }
}

impl CollectionItem {
    /// A copy of this row.
    pub fn duplicate(&self) -> (r: Self)
        ensures
            r == *self,
    {
        CollectionItem {
            id: self.id,
            collection_id: self.collection_id,
            name: self.name.clone(),
            method: self.method.clone(),
            url: self.url.clone(),
            body: self.body.clone(),
            headers: self.headers.clone(),
        }
    }
}

/// Why a store operation was refused.
#[derive(Debug, Clone, Copy, PartialEq, Eq, Structural)]
pub enum StoreError {
    /// No row carries the requested id.
    NotFound,
    /// A collection with that name already exists.
    NameTaken,
    /// The id space for this aggregate is exhausted.
    Full,
}

/// The in-memory store behind the gateway.
pub struct Store {
    history: Vec<HistoryItem>,
    collections: Vec<Collection>,
    items: Vec<CollectionItem>,
    next_history_id: i64,
    next_collection_id: i64,
    next_item_id: i64,
}

/// Mathematical image of a `Store`.
#[verifier::ext_equal]
pub ghost struct StoreModel {
    pub history: Seq<HistoryItemModel>,
    pub collections: Seq<CollectionModel>,
    pub items: Seq<CollectionItemModel>,
    pub next_history_id: int,
    pub next_collection_id: int,
    pub next_item_id: int,
}

impl View for Store {
    type V = StoreModel;

    closed spec fn view(&self) -> StoreModel {
        StoreModel {
            history: Seq::new(self.history@.len() as nat, |i: int| self.history@[i]@),
            collections: Seq::new(self.collections@.len() as nat, |i: int| self.collections@[i]@),
            items: Seq::new(self.items@.len() as nat, |i: int| self.items@[i]@),
            next_history_id: self.next_history_id as int,
            next_collection_id: self.next_collection_id as int,
            next_item_id: self.next_item_id as int,
        }
    }
}

impl StoreModel {
    /// Well-formedness: ids are positive, below their counters and strictly
    /// increasing along history; collection rows are strictly sorted by name
    /// with distinct ids; item ids are distinct.
    pub open spec fn wf(self) -> bool {
        &&& 1 <= self.next_history_id <= i64::MAX
        &&& 1 <= self.next_collection_id <= i64::MAX
        &&& 1 <= self.next_item_id <= i64::MAX
        &&& forall|i: int|
            0 <= i < self.history.len() ==> 1 <= #[trigger] self.history[i].id
                < self.next_history_id
        &&& forall|i: int, j: int|
            0 <= i < j < self.history.len() ==> #[trigger] self.history[i].id
                < #[trigger] self.history[j].id
        &&& forall|i: int|
            0 <= i < self.collections.len() ==> 1 <= #[trigger] self.collections[i].id
                < self.next_collection_id
        &&& forall|i: int, j: int|
            0 <= i < j < self.collections.len() ==> #[trigger] self.collections[i].id
                != #[trigger] self.collections[j].id
        &&& forall|i: int, j: int|
            0 <= i < j < self.collections.len() ==> lex_lt(
                #[trigger] self.collections[i].name,
                #[trigger] self.collections[j].name,
            )
        &&& forall|i: int|
            0 <= i < self.items.len() ==> 1 <= #[trigger] self.items[i].id < self.next_item_id
        &&& forall|i: int, j: int|
            0 <= i < j < self.items.len() ==> #[trigger] self.items[i].id
                != #[trigger] self.items[j].id
    }
}

/// The store with nothing in it and all id counters at one.
pub open spec fn empty_store() -> StoreModel {
    StoreModel {
        history: Seq::empty(),
        collections: Seq::empty(),
        items: Seq::empty(),
        next_history_id: 1,
        next_collection_id: 1,
        next_item_id: 1,
    }
}

/// First history row carrying the given id, if any.
pub open spec fn find_history(h: Seq<HistoryItemModel>, id: int) -> Option<HistoryItemModel>
    decreases h.len(),
{
    if h.len() == 0 {
        None
    } else if h[0].id == id {
        Some(h[0])
    } else {
        find_history(h.drop_first(), id)
    }
}

/// A history row as handed to the store, before an id is assigned.
pub open spec fn pending_record(
    method: Seq<char>,
    url: Seq<char>,
    request_body: Seq<char>,
    request_headers: Seq<char>,
    response_body: Seq<char>,
    response_headers: Seq<char>,
    status: Seq<char>,
    time: Seq<char>,
    size: Seq<char>,
    timestamp: Seq<char>,
) -> HistoryItemModel {
    HistoryItemModel {
        id: 0,
        method,
        url,
        request_body,
        request_headers,
        response_body,
        response_headers,
        status,
        time,
        size,
        timestamp,
    }
}

/// Whether the history id space still has room for one more row.
pub open spec fn save_exchange_allowed(st: StoreModel) -> bool {
    st.next_history_id < i64::MAX
}

/// The store after one exchange is appended: the pending record takes the
/// next history id and the counter advances.
pub open spec fn save_exchange_model(st: StoreModel, rec: HistoryItemModel) -> StoreModel {
    StoreModel {
        history: st.history.push(HistoryItemModel { id: st.next_history_id, ..rec }),
        next_history_id: st.next_history_id + 1,
        ..st
    }
}

/// Whether some collection already carries the given name.
pub open spec fn has_col_name(cols: Seq<CollectionModel>, name: Seq<char>) -> bool {
    exists|i: int| 0 <= i < cols.len() && (#[trigger] cols[i].name) == name
}

/// The position at which a new name belongs in the name-sorted collection
/// list: the first index whose name orders after it.
pub open spec fn insert_pos(cols: Seq<CollectionModel>, name: Seq<char>) -> int
    decreases cols.len(),
{
    if cols.len() == 0 {
        0
    } else if lex_lt(name, cols[0].name) {
        0
    } else {
        1 + insert_pos(cols.drop_first(), name)
    }
}

/// Whether the collection id space still has room.
pub open spec fn create_collection_allowed(st: StoreModel) -> bool {
    st.next_collection_id < i64::MAX
}

/// The store after a collection is created: the new row takes the next
/// collection id and sits at its sorted position.
pub open spec fn create_collection_model(st: StoreModel, name: Seq<char>) -> StoreModel {
    StoreModel {
        collections: st.collections.insert(
            insert_pos(st.collections, name),
            CollectionModel { id: st.next_collection_id, name },
        ),
        next_collection_id: st.next_collection_id + 1,
        ..st
    }
}

/// An item row as handed to the store, before an id is assigned.
pub open spec fn pending_item(
    collection_id: int,
    name: Seq<char>,
    method: Seq<char>,
    url: Seq<char>,
    body: Seq<char>,
    headers: Seq<char>,
) -> CollectionItemModel {
    CollectionItemModel { id: 0, collection_id, name, method, url, body, headers }
}

/// Whether the item id space still has room.
pub open spec fn save_item_allowed(st: StoreModel) -> bool {
    st.next_item_id < i64::MAX
}

/// The store after one saved request is appended to a collection.
pub open spec fn save_item_model(st: StoreModel, rec: CollectionItemModel) -> StoreModel {
    StoreModel {
        items: st.items.push(CollectionItemModel { id: st.next_item_id, ..rec }),
        next_item_id: st.next_item_id + 1,
        ..st
    }
}

/// The collection rows that do not carry the given id.
pub open spec fn cols_without(cols: Seq<CollectionModel>, id: int) -> Seq<CollectionModel>
    decreases cols.len(),
{
    if cols.len() == 0 {
        Seq::empty()
    } else {
        (if cols[0].id == id {
            Seq::empty()
        } else {
            seq![cols[0]]
        }) + cols_without(cols.drop_first(), id)
    }
}

/// The item rows that do not belong to the given collection.
pub open spec fn items_without_collection(
    items: Seq<CollectionItemModel>,
    col_id: int,
) -> Seq<CollectionItemModel>
    decreases items.len(),
{
    if items.len() == 0 {
        Seq::empty()
    } else {
        (if items[0].collection_id == col_id {
            Seq::empty()
        } else {
            seq![items[0]]
        }) + items_without_collection(items.drop_first(), col_id)
    }
}

/// The item rows of one collection, in storage order.
pub open spec fn items_of_collection(
    items: Seq<CollectionItemModel>,
    col_id: int,
) -> Seq<CollectionItemModel>
    decreases items.len(),
{
    if items.len() == 0 {
        Seq::empty()
    } else {
        (if items[0].collection_id == col_id {
            seq![items[0]]
        } else {
            Seq::empty()
        }) + items_of_collection(items.drop_first(), col_id)
    }
}

/// First item row carrying the given id, if any.
pub open spec fn find_item(items: Seq<CollectionItemModel>, id: int) -> Option<CollectionItemModel>
    decreases items.len(),
{
    if items.len() == 0 {
        None
    } else if items[0].id == id {
        Some(items[0])
    } else {
        find_item(items.drop_first(), id)
    }
}

/// The store after a collection and all of its items are removed.
pub open spec fn delete_collection_model(st: StoreModel, id: int) -> StoreModel {
    StoreModel {
        collections: cols_without(st.collections, id),
        items: items_without_collection(st.items, id),
        ..st
    }
}

/// The views of item rows, elementwise.
pub open spec fn views_of_items(v: Seq<CollectionItem>) -> Seq<CollectionItemModel> {
    Seq::new(v.len(), |i: int| v[i]@)
}

impl Store {
    /// A fresh, empty store.
    pub fn new() -> (r: Store)
        ensures
            r@ == empty_store(),
            r@.wf(),
    {
        let r = Store {
            history: Vec::new(),
            collections: Vec::new(),
            items: Vec::new(),
            next_history_id: 1,
            next_collection_id: 1,
            next_item_id: 1,
        };
        proof {
            assert(r@ =~~= empty_store());
        }
        r
    }

    /// Appends one completed exchange to the history log and returns its
    /// freshly assigned id. The store has no clock, so the caller hands in
    /// the wall-clock text recorded as the row's timestamp. Refused only
    /// when the id space is exhausted; the store is then unchanged.
    pub fn save_exchange(
        &mut self,
        method: &str,
        url: &str,
        req_body: &str,
        req_headers: &str,
        res_body: &str,
        res_headers: &str,
        status: &str,
        time: &str,
        size: &str,
        timestamp: &str,
    ) -> (r: Result<i64, StoreError>)
        requires
            old(self)@.wf(),
        ensures
            final(self)@.wf(),
            (save_exchange_allowed(old(self)@) ==> r == Ok::<i64, StoreError>(
                old(self)@.next_history_id as i64,
            ) && final(self)@ == save_exchange_model(
                old(self)@,
                pending_record(
                    method@,
                    url@,
                    req_body@,
                    req_headers@,
                    res_body@,
                    res_headers@,
                    status@,
                    time@,
                    size@,
                    timestamp@,
                ),
            )),
            (!save_exchange_allowed(old(self)@) ==> r == Err::<i64, StoreError>(StoreError::Full)
                && final(self)@ == old(self)@),
    {
        if self.next_history_id == i64::MAX {
            proof {
                assert(self@ =~~= old(self)@);
            }
            return Err(StoreError::Full);
        }
        let id = self.next_history_id;
        let row = HistoryItem {
            id,
            method: String::from_str(method),
            url: String::from_str(url),
            request_body: String::from_str(req_body),
            request_headers: String::from_str(req_headers),
            response_body: String::from_str(res_body),
            response_headers: String::from_str(res_headers),
            status: String::from_str(status),
            time: String::from_str(time),
            size: String::from_str(size),
            timestamp: String::from_str(timestamp),
        };
        self.history.push(row);
        self.next_history_id = id + 1;
        proof {
            assert(self@ =~~= save_exchange_model(
                old(self)@,
                pending_record(
                    method@,
                    url@,
                    req_body@,
                    req_headers@,
                    res_body@,
                    res_headers@,
                    status@,
                    time@,
                    size@,
                    timestamp@,
                ),
            ));
        }
        Ok(id)
    }

    /// The newest rows of the history log, newest first: row `i` of the
    /// result is the `i`-th row from the end of the log, and at most
    /// `HISTORY_READ_CAP` rows are returned. Older rows remain stored.
    pub fn get_history(&self) -> (r: Vec<HistoryItem>)
        ensures
            r@.len() == (if self@.history.len() <= HISTORY_READ_CAP {
                self@.history.len()
            } else {
                HISTORY_READ_CAP as nat
            }),
            forall|i: int|
                0 <= i < r@.len() ==> #[trigger] r@[i]@ == self@.history[self@.history.len() - 1
                    - i],
    {
        let n = self.history.len();
        let count = if n <= HISTORY_READ_CAP {
            n
        } else {
            HISTORY_READ_CAP
        };
        let mut r: Vec<HistoryItem> = Vec::new();
        let mut k: usize = 0;
        while k < count
            invariant
                k <= count,
                count <= n,
                n == self.history@.len(),
                self@.history.len() == n,
                r@.len() == k,
                forall|i: int|
                    0 <= i < k ==> #[trigger] r@[i]@ == self@.history[self@.history.len() - 1 - i],
            decreases count - k,
        {
            let row = self.history[n - 1 - k].duplicate();
            r.push(row);
            k = k + 1;
        }
        r
    }

    /// Fetches one history row by id; `NotFound` exactly when no row
    /// carries the id.
    pub fn get_request_by_id(&self, id: i64) -> (r: Result<HistoryItem, StoreError>)
        ensures
            (r is Ok) == (find_history(self@.history, id as int) is Some),
            r matches Ok(it) ==> find_history(self@.history, id as int) == Some(it@),
            r matches Err(e) ==> e == StoreError::NotFound,
    {
        let ghost h = self@.history;
        let n = self.history.len();
        let mut i: usize = 0;
        proof {
            assert(h.skip(0) =~= h);
        }
        while i < n
            invariant
                i <= n,
                n == self.history@.len(),
                h == self@.history,
                h.len() == n,
                find_history(h, id as int) == find_history(h.skip(i as int), id as int),
            decreases n - i,
        {
            proof {
                assert(h.skip(i as int)[0] == h[i as int]);
            }
            if self.history[i].id == id {
                return Ok(self.history[i].duplicate());
            }
            proof {
                assert(h.skip(i as int).drop_first() =~= h.skip(i + 1));
            }
            i = i + 1;
        }
        proof {
            assert(h.skip(n as int) =~= Seq::<HistoryItemModel>::empty());
        }
        Err(StoreError::NotFound)
    }

    /// Deletes every history row. Collections are untouched and the id
    /// counter keeps its value, so ids stay monotonic across a clear.
    pub fn clear_history(&mut self)
        requires
            old(self)@.wf(),
        ensures
            final(self)@.wf(),
            final(self)@ == (StoreModel { history: Seq::empty(), ..old(self)@ }),
    {
        self.history = Vec::new();
        proof {
            assert(self@ =~~= StoreModel { history: Seq::empty(), ..old(self)@ });
        }
    }

    /// Creates a collection under a fresh name and returns its id; a taken
    /// name is refused and leaves the store unchanged, as is an exhausted id
    /// space. On success the new row sits at its position in name order.
    pub fn create_collection(&mut self, name: &str) -> (r: Result<i64, StoreError>)
        requires
            old(self)@.wf(),
        ensures
            final(self)@.wf(),
            (has_col_name(old(self)@.collections, name@) ==> r == Err::<i64, StoreError>(
                StoreError::NameTaken,
            ) && final(self)@ == old(self)@),
            (!has_col_name(old(self)@.collections, name@) && !create_collection_allowed(
                old(self)@,
            ) ==> r == Err::<i64, StoreError>(StoreError::Full) && final(self)@ == old(self)@),
            (!has_col_name(old(self)@.collections, name@) && create_collection_allowed(old(self)@)
                ==> r == Ok::<i64, StoreError>(old(self)@.next_collection_id as i64)
                && final(self)@ == create_collection_model(old(self)@, name@)),
    {
        let ghost cols = self@.collections;
        let n = self.collections.len();
        let mut i: usize = 0;
        while i < n
            invariant
                i <= n,
                n == self.collections@.len(),
                self@ == old(self)@,
                old(self)@.wf(),
                cols == self@.collections,
                cols.len() == n,
                forall|j: int| 0 <= j < i ==> (#[trigger] cols[j].name) != name@,
            decreases n - i,
        {
            if str_eq(self.collections[i].name.as_str(), name) {
                proof {
                    assert(cols[i as int].name == name@);
                }
                return Err(StoreError::NameTaken);
            }
            i = i + 1;
        }
        proof {
            assert(!has_col_name(cols, name@));
        }
        if self.next_collection_id == i64::MAX {
            return Err(StoreError::Full);
        }
        let mut p: usize = 0;
        proof {
            assert(cols.skip(0) =~= cols);
        }
        loop
            invariant
                p <= n,
                n == self.collections@.len(),
                self@ == old(self)@,
                cols == self@.collections,
                cols.len() == n,
                insert_pos(cols, name@) == p + insert_pos(cols.skip(p as int), name@),
                forall|k: int| 0 <= k < p ==> !lex_lt(name@, (#[trigger] cols[k].name)),
            ensures
                p <= n,
                n == self.collections@.len(),
                self@ == old(self)@,
                cols == self@.collections,
                cols.len() == n,
                p == insert_pos(cols, name@),
                (p < n ==> lex_lt(name@, cols[p as int].name)),
                forall|k: int| 0 <= k < p ==> !lex_lt(name@, (#[trigger] cols[k].name)),
            decreases n - p,
        {
            if p == n {
                proof {
                    assert(cols.skip(n as int) =~= Seq::<CollectionModel>::empty());
                }
                break;
            }
            proof {
                assert(cols.skip(p as int)[0] == cols[p as int]);
            }
            if str_lt(name, self.collections[p].name.as_str()) {
                proof {
                    assert(insert_pos(cols.skip(p as int), name@) == 0);
                }
                break;
            }
            proof {
                assert(cols.skip(p as int).drop_first() =~= cols.skip(p + 1));
            }
            p = p + 1;
        }
        let id = self.next_collection_id;
        let row = Collection { id, name: String::from_str(name) };
        let ghost cm = CollectionModel { id: id as int, name: name@ };
        self.collections.insert(p, row);
        self.next_collection_id = id + 1;
        proof {
            old(self).collections@.insert_ensures(p as int, row);
            let newcols = cols.insert(p as int, cm);
            cols.insert_ensures(p as int, cm);
            assert(self@.collections =~= newcols);
            assert(self@ =~~= create_collection_model(old(self)@, name@));
            assert forall|a: int, b: int|
                0 <= a < b < newcols.len() implies lex_lt(
                #[trigger] newcols[a].name,
                #[trigger] newcols[b].name,
            ) by {
                let pi = p as int;
                if b < pi {
                    assert(newcols[a] == cols[a] && newcols[b] == cols[b]);
                } else if a < pi && b == pi {
                    assert(newcols[a] == cols[a]);
                    assert(cols[a].name != name@);
                    if !lex_lt(cols[a].name, name@) {
                        lemma_lex_connected(name@, cols[a].name);
                    }
                } else if a < pi && b > pi {
                    assert(newcols[a] == cols[a] && newcols[b] == cols[b - 1]);
                } else if a == pi {
                    assert(newcols[b] == cols[b - 1]);
                    assert(lex_lt(name@, cols[pi].name));
                    if b - 1 > pi {
                        assert(lex_lt(cols[pi].name, cols[b - 1].name));
                        lemma_lex_trans(name@, cols[pi].name, cols[b - 1].name);
                    }
                } else {
                    assert(newcols[a] == cols[a - 1] && newcols[b] == cols[b - 1]);
                }
            };
            assert(final(self)@.wf());
        }
        Ok(id)
    }

    /// All collections, in ascending name order (the store's own order).
    pub fn get_collections(&self) -> (r: Vec<Collection>)
        ensures
            r@.len() == self@.collections.len(),
            forall|i: int| 0 <= i < r@.len() ==> (#[trigger] r@[i]@) == self@.collections[i],
    {
        let n = self.collections.len();
        let mut r: Vec<Collection> = Vec::new();
        let mut i: usize = 0;
        while i < n
            invariant
                i <= n,
                n == self.collections@.len(),
                self@.collections.len() == n,
                r@.len() == i,
                forall|j: int| 0 <= j < i ==> (#[trigger] r@[j]@) == self@.collections[j],
            decreases n - i,
        {
            r.push(self.collections[i].duplicate());
            i = i + 1;
        }
        r
    }

    /// Saves one request template under a collection and returns the item's
    /// fresh id. Refused only when the item id space is exhausted.
    pub fn save_to_collection(
        &mut self,
        col_id: i64,
        name: &str,
        method: &str,
        url: &str,
        body: &str,
        headers: &str,
    ) -> (r: Result<i64, StoreError>)
        requires
            old(self)@.wf(),
        ensures
            final(self)@.wf(),
            (save_item_allowed(old(self)@) ==> r == Ok::<i64, StoreError>(
                old(self)@.next_item_id as i64,
            ) && final(self)@ == save_item_model(
                old(self)@,
                pending_item(col_id as int, name@, method@, url@, body@, headers@),
            )),
            (!save_item_allowed(old(self)@) ==> r == Err::<i64, StoreError>(StoreError::Full)
                && final(self)@ == old(self)@),
    {
        if self.next_item_id == i64::MAX {
            proof {
                assert(self@ =~~= old(self)@);
            }
            return Err(StoreError::Full);
        }
        let id = self.next_item_id;
        let row = CollectionItem {
            id,
            collection_id: col_id,
            name: String::from_str(name),
            method: String::from_str(method),
            url: String::from_str(url),
            body: String::from_str(body),
            headers: String::from_str(headers),
        };
        self.items.push(row);
        self.next_item_id = id + 1;
        proof {
            assert(self@ =~~= save_item_model(
                old(self)@,
                pending_item(col_id as int, name@, method@, url@, body@, headers@),
            ));
        }
        Ok(id)
    }

    /// The items of one collection, in storage order.
    pub fn get_collection_items(&self, col_id: i64) -> (r: Vec<CollectionItem>)
        ensures
            views_of_items(r@) == items_of_collection(self@.items, col_id as int),
    {
        let ghost its = self@.items;
        let n = self.items.len();
        let mut r: Vec<CollectionItem> = Vec::new();
        let mut i: usize = 0;
        proof {
            assert(its.take(0) =~= Seq::<CollectionItemModel>::empty());
            assert(views_of_items(r@) =~= items_of_collection(its.take(0), col_id as int));
        }
        while i < n
            invariant
                i <= n,
                n == self.items@.len(),
                its == self@.items,
                its.len() == n,
                views_of_items(r@) == items_of_collection(its.take(i as int), col_id as int),
            decreases n - i,
        {
            let ghost prev = views_of_items(r@);
            if self.items[i].collection_id == col_id {
                r.push(self.items[i].duplicate());
                proof {
                    assert(views_of_items(r@) =~= prev + seq![its[i as int]]);
                }
            }
            proof {
                lemma_items_of_collection_snoc(its.take(i as int), its[i as int], col_id as int);
                assert(its.take(i + 1) =~= its.take(i as int).push(its[i as int]));
                assert(views_of_items(r@) =~= items_of_collection(
                    its.take(i + 1),
                    col_id as int,
                ));
            }
            i = i + 1;
        }
        proof {
            assert(its.take(n as int) =~= its);
        }
        r
    }

    /// Fetches one saved request template by its item id; `NotFound` exactly
    /// when no item carries the id.
    pub fn get_collection_item_by_id(&self, id: i64) -> (r: Result<CollectionItem, StoreError>)
        ensures
            (r is Ok) == (find_item(self@.items, id as int) is Some),
            r matches Ok(it) ==> find_item(self@.items, id as int) == Some(it@),
            r matches Err(e) ==> e == StoreError::NotFound,
    {
        let ghost its = self@.items;
        let n = self.items.len();
        let mut i: usize = 0;
        proof {
            assert(its.skip(0) =~= its);
        }
        while i < n
            invariant
                i <= n,
                n == self.items@.len(),
                its == self@.items,
                its.len() == n,
                find_item(its, id as int) == find_item(its.skip(i as int), id as int),
            decreases n - i,
        {
            proof {
                assert(its.skip(i as int)[0] == its[i as int]);
            }
            if self.items[i].id == id {
                return Ok(self.items[i].duplicate());
            }
            proof {
                assert(its.skip(i as int).drop_first() =~= its.skip(i + 1));
            }
            i = i + 1;
        }
        proof {
            assert(its.skip(n as int) =~= Seq::<CollectionItemModel>::empty());
        }
        Err(StoreError::NotFound)
    }

    /// Removes one collection and, in cascade, every item that belonged to
    /// it. Items of other collections and the history log are untouched.
    /// Deleting an absent id leaves the store unchanged.
    pub fn delete_collection(&mut self, id: i64)
        requires
            old(self)@.wf(),
        ensures
            final(self)@.wf(),
            final(self)@ == delete_collection_model(old(self)@, id as int),
    {
        let ghost cols = self@.collections;
        let ghost its = self@.items;
        let ncols = self.collections.len();
        let mut new_cols: Vec<Collection> = Vec::new();
        let ghost mut corig: Seq<int> = Seq::empty();
        let mut i: usize = 0;
        proof {
            assert(cols.take(0) =~= Seq::<CollectionModel>::empty());
            assert(views_of_collections(new_cols@) =~= cols_without(cols.take(0), id as int));
        }
        while i < ncols
            invariant
                i <= ncols,
                ncols == self.collections@.len(),
                cols == self@.collections,
                cols.len() == ncols,
                views_of_collections(new_cols@) == cols_without(cols.take(i as int), id as int),
                corig.len() == new_cols@.len(),
                forall|k: int|
                    0 <= k < corig.len() ==> 0 <= #[trigger] corig[k] < i && views_of_collections(
                        new_cols@,
                    )[k] == cols[corig[k]],
                forall|k: int, l: int| 0 <= k < l < corig.len() ==> corig[k] < corig[l],
            decreases ncols - i,
        {
            let ghost prev = views_of_collections(new_cols@);
            if self.collections[i].id != id {
                new_cols.push(self.collections[i].duplicate());
                proof {
                    corig = corig.push(i as int);
                    assert(views_of_collections(new_cols@) =~= prev + seq![cols[i as int]]);
                }
            }
            proof {
                lemma_cols_without_snoc(cols.take(i as int), cols[i as int], id as int);
                assert(cols.take(i + 1) =~= cols.take(i as int).push(cols[i as int]));
                assert(views_of_collections(new_cols@) =~= cols_without(
                    cols.take(i + 1),
                    id as int,
                ));
            }
            i = i + 1;
        }
        proof {
            assert(cols.take(ncols as int) =~= cols);
        }
        let nits = self.items.len();
        let mut new_items: Vec<CollectionItem> = Vec::new();
        let ghost mut iorig: Seq<int> = Seq::empty();
        let mut j: usize = 0;
        proof {
            assert(its.take(0) =~= Seq::<CollectionItemModel>::empty());
            assert(views_of_items(new_items@) =~= items_without_collection(
                its.take(0),
                id as int,
            ));
        }
        while j < nits
            invariant
                j <= nits,
                nits == self.items@.len(),
                its == self@.items,
                its.len() == nits,
                views_of_items(new_items@) == items_without_collection(
                    its.take(j as int),
                    id as int,
                ),
                iorig.len() == new_items@.len(),
                forall|k: int|
                    0 <= k < iorig.len() ==> 0 <= #[trigger] iorig[k] < j && views_of_items(
                        new_items@,
                    )[k] == its[iorig[k]],
                forall|k: int, l: int| 0 <= k < l < iorig.len() ==> iorig[k] < iorig[l],
            decreases nits - j,
        {
            let ghost prev = views_of_items(new_items@);
            if self.items[j].collection_id != id {
                new_items.push(self.items[j].duplicate());
                proof {
                    iorig = iorig.push(j as int);
                    assert(views_of_items(new_items@) =~= prev + seq![its[j as int]]);
                }
            }
            proof {
                lemma_items_without_snoc(its.take(j as int), its[j as int], id as int);
                assert(its.take(j + 1) =~= its.take(j as int).push(its[j as int]));
                assert(views_of_items(new_items@) =~= items_without_collection(
                    its.take(j + 1),
                    id as int,
                ));
            }
            j = j + 1;
        }
        proof {
            assert(its.take(nits as int) =~= its);
        }
        self.collections = new_cols;
        self.items = new_items;
        proof {
            assert(self@.collections =~= cols_without(cols, id as int));
            assert(self@.items =~= items_without_collection(its, id as int));
            assert(self@ =~~= delete_collection_model(old(self)@, id as int));
            let fc = self@.collections;
            let fi = self@.items;
            assert forall|a: int, b: int| 0 <= a < b < fc.len() implies lex_lt(
                (#[trigger] fc[a]).name,
                (#[trigger] fc[b]).name,
            ) && fc[a].id != fc[b].id by {
                assert(fc[a] == cols[corig[a]] && fc[b] == cols[corig[b]]);
                assert(corig[a] < corig[b]);
            };
            assert forall|a: int, b: int| 0 <= a < b < fi.len() implies (#[trigger] fi[a]).id != (
            #[trigger] fi[b]).id by {
                assert(fi[a] == its[iorig[a]] && fi[b] == its[iorig[b]]);
                assert(iorig[a] < iorig[b]);
            };
            assert forall|a: int| 0 <= a < fc.len() implies 1 <= (#[trigger] fc[a]).id
                < self@.next_collection_id by {
                assert(fc[a] == cols[corig[a]]);
            };
            assert forall|a: int| 0 <= a < fi.len() implies 1 <= (#[trigger] fi[a]).id
                < self@.next_item_id by {
                assert(fi[a] == its[iorig[a]]);
            };
            assert(final(self)@.wf());
        }
    }
}

/// The views of collection rows, elementwise.
pub open spec fn views_of_collections(v: Seq<Collection>) -> Seq<CollectionModel> {
    Seq::new(v.len(), |i: int| v[i]@)
}

proof fn lemma_cols_without_snoc(cols: Seq<CollectionModel>, c: CollectionModel, id: int)
    ensures
        cols_without(cols.push(c), id) == cols_without(cols, id) + (if c.id == id {
            Seq::<CollectionModel>::empty()
        } else {
            seq![c]
        }),
    decreases cols.len(),
{
    let tail: Seq<CollectionModel> = if c.id == id { Seq::empty() } else { seq![c] };
    assert(cols.push(c).len() == cols.len() + 1);
    if cols.len() == 0 {
        assert(cols.push(c)[0] == c);
        assert(cols.push(c).drop_first() =~= Seq::<CollectionModel>::empty());
        assert(cols_without(Seq::<CollectionModel>::empty(), id) == Seq::<CollectionModel>::empty());
        assert(cols_without(cols.push(c), id) =~= cols_without(cols, id) + tail);
    } else {
        assert(cols.push(c)[0] == cols[0]);
        assert(cols.push(c).drop_first() =~= cols.drop_first().push(c));
        lemma_cols_without_snoc(cols.drop_first(), c, id);
        assert(cols_without(cols.push(c), id) =~= cols_without(cols, id) + tail);
    }
}

proof fn lemma_items_without_snoc(items: Seq<CollectionItemModel>, it: CollectionItemModel, id: int)
    ensures
        items_without_collection(items.push(it), id) == items_without_collection(items, id) + (
        if it.collection_id == id {
            Seq::<CollectionItemModel>::empty()
        } else {
            seq![it]
        }),
    decreases items.len(),
{
    let tail: Seq<CollectionItemModel> = if it.collection_id == id { Seq::empty() } else { seq![it] };
    assert(items.push(it).len() == items.len() + 1);
    if items.len() == 0 {
        assert(items.push(it)[0] == it);
        assert(items.push(it).drop_first() =~= Seq::<CollectionItemModel>::empty());
        assert(items_without_collection(Seq::<CollectionItemModel>::empty(), id)
            == Seq::<CollectionItemModel>::empty());
        assert(items_without_collection(items.push(it), id) =~= items_without_collection(items, id)
            + tail);
    } else {
        assert(items.push(it)[0] == items[0]);
        assert(items.push(it).drop_first() =~= items.drop_first().push(it));
        lemma_items_without_snoc(items.drop_first(), it, id);
        assert(items_without_collection(items.push(it), id) =~= items_without_collection(items, id)
            + tail);
    }
}

/// In an id-sorted history log, looking up the id of row `j` finds exactly
/// row `j`.
pub proof fn lemma_find_history_at(h: Seq<HistoryItemModel>, j: int)
    requires
        forall|a: int, b: int| 0 <= a < b < h.len() ==> (#[trigger] h[a].id) < (#[trigger] h[b].id),
        0 <= j < h.len(),
    ensures
        find_history(h, h[j].id) == Some(h[j]),
    decreases h.len(),
{
    if j == 0 {
    } else {
        assert(h[0].id < h[j].id);
        let t = h.drop_first();
        assert forall|a: int, b: int| 0 <= a < b < t.len() implies (#[trigger] t[a].id) < (
        #[trigger] t[b].id) by {
            assert(t[a] == h[a + 1] && t[b] == h[b + 1]);
        };
        lemma_find_history_at(t, j - 1);
        assert(t[j - 1] == h[j]);
    }
}

/// The read cap on history surfaces only the newest rows: when the log
/// holds more rows than the cap, every older row's id is absent from the
/// surfaced window, yet the row is still found by direct id lookup.
pub proof fn lemma_history_cap(st: StoreModel, j: int)
    requires
        st.wf(),
        st.history.len() > HISTORY_READ_CAP as int,
        0 <= j < st.history.len() - HISTORY_READ_CAP as int,
    ensures
        forall|i: int|
            st.history.len() - HISTORY_READ_CAP as int <= i < st.history.len() ==> (
            #[trigger] st.history[i].id) != st.history[j].id,
        find_history(st.history, st.history[j].id) == Some(st.history[j]),
{
    lemma_find_history_at(st.history, j);
}

/// Cascade delete removes every item of the deleted collection.
pub proof fn lemma_cascade_removes_own_items(items: Seq<CollectionItemModel>, id: int)
    ensures
        items_of_collection(items_without_collection(items, id), id)
            == Seq::<CollectionItemModel>::empty(),
    decreases items.len(),
{
    if items.len() == 0 {
        assert(items_without_collection(items, id) =~= Seq::<CollectionItemModel>::empty());
    } else {
        lemma_cascade_removes_own_items(items.drop_first(), id);
        if items[0].collection_id == id {
            assert(items_without_collection(items, id) =~= items_without_collection(
                items.drop_first(),
                id,
            ));
        } else {
            let r = items_without_collection(items, id);
            assert(r =~= seq![items[0]] + items_without_collection(items.drop_first(), id));
            assert(r[0] == items[0]);
            assert(r.drop_first() =~= items_without_collection(items.drop_first(), id));
            assert(items_of_collection(r, id) =~= Seq::<CollectionItemModel>::empty());
        }
    }
}

/// Cascade delete leaves the items of every other collection exactly as
/// they were.
pub proof fn lemma_cascade_preserves_other_items(
    items: Seq<CollectionItemModel>,
    id: int,
    other: int,
)
    requires
        other != id,
    ensures
        items_of_collection(items_without_collection(items, id), other) == items_of_collection(
            items,
            other,
        ),
    decreases items.len(),
{
    if items.len() == 0 {
        assert(items_without_collection(items, id) =~= Seq::<CollectionItemModel>::empty());
    } else {
        lemma_cascade_preserves_other_items(items.drop_first(), id, other);
        if items[0].collection_id == id {
            assert(items_without_collection(items, id) =~= items_without_collection(
                items.drop_first(),
                id,
            ));
            assert(items_of_collection(items, other) =~= items_of_collection(
                items.drop_first(),
                other,
            ));
        } else {
            let r = items_without_collection(items, id);
            assert(r =~= seq![items[0]] + items_without_collection(items.drop_first(), id));
            assert(r[0] == items[0]);
            assert(r.drop_first() =~= items_without_collection(items.drop_first(), id));
            assert(items_of_collection(r, other) =~= items_of_collection(items, other));
        }
    }
}

/// How many collections carry a given name.
pub open spec fn count_name(cols: Seq<CollectionModel>, name: Seq<char>) -> int
    decreases cols.len(),
{
    if cols.len() == 0 {
        0
    } else {
        (if cols[0].name == name {
            1int
        } else {
            0int
        }) + count_name(cols.drop_first(), name)
    }
}

proof fn lemma_count_name_zero(cols: Seq<CollectionModel>, name: Seq<char>)
    requires
        forall|i: int| 0 <= i < cols.len() ==> (#[trigger] cols[i].name) != name,
    ensures
        count_name(cols, name) == 0,
    decreases cols.len(),
{
    if cols.len() > 0 {
        let t = cols.drop_first();
        assert forall|i: int| 0 <= i < t.len() implies (#[trigger] t[i].name) != name by {
            assert(t[i] == cols[i + 1]);
        };
        lemma_count_name_zero(t, name);
    }
}

proof fn lemma_count_name_insert(cols: Seq<CollectionModel>, p: int, cm: CollectionModel)
    requires
        0 <= p <= cols.len(),
    ensures
        count_name(cols.insert(p, cm), cm.name) == count_name(cols, cm.name) + 1,
    decreases cols.len(),
{
    let ins = cols.insert(p, cm);
    cols.insert_ensures(p, cm);
    if p == 0 {
        assert(ins[0] == cm);
        assert(ins.drop_first() =~= cols);
    } else {
        assert(ins[0] == cols[0]);
        assert(ins.drop_first() =~= cols.drop_first().insert(p - 1, cm));
        lemma_count_name_insert(cols.drop_first(), p - 1, cm);
    }
}

proof fn lemma_insert_pos_bounds(cols: Seq<CollectionModel>, name: Seq<char>)
    ensures
        0 <= insert_pos(cols, name) <= cols.len(),
    decreases cols.len(),
{
    if cols.len() > 0 && !lex_lt(name, cols[0].name) {
        lemma_insert_pos_bounds(cols.drop_first(), name);
    }
}

/// Unique collection names: creating a collection under a fresh name leaves
/// exactly one collection carrying that name, and since the name is then
/// taken, a second create under the same name is refused with the store
/// unchanged (see the contract of `create_collection`), so exactly one
/// collection remains.
pub proof fn lemma_unique_collection_name(st: StoreModel, name: Seq<char>)
    requires
        st.wf(),
        !has_col_name(st.collections, name),
        create_collection_allowed(st),
    ensures
        has_col_name(create_collection_model(st, name).collections, name),
        count_name(create_collection_model(st, name).collections, name) == 1,
{
    let cm = CollectionModel { id: st.next_collection_id, name };
    let p = insert_pos(st.collections, name);
    lemma_insert_pos_bounds(st.collections, name);
    st.collections.insert_ensures(p, cm);
    let newcols = create_collection_model(st, name).collections;
    assert(newcols[p] == cm);
    assert(newcols[p].name == name);
    assert(has_col_name(newcols, name));
    assert forall|i: int| 0 <= i < st.collections.len() implies (
    #[trigger] st.collections[i].name) != name by {
        if st.collections[i].name == name {
            assert(has_col_name(st.collections, name));
        }
    };
    lemma_count_name_zero(st.collections, name);
    lemma_count_name_insert(st.collections, p, cm);
}

proof fn lemma_items_of_collection_snoc(
    items: Seq<CollectionItemModel>,
    it: CollectionItemModel,
    id: int,
)
    ensures
        items_of_collection(items.push(it), id) == items_of_collection(items, id) + (
        if it.collection_id == id {
            seq![it]
        } else {
            Seq::<CollectionItemModel>::empty()
        }),
    decreases items.len(),
{
    let tail: Seq<CollectionItemModel> = if it.collection_id == id { seq![it] } else { Seq::empty() };
    assert(items.push(it).len() == items.len() + 1);
    if items.len() == 0 {
        assert(items.push(it)[0] == it);
        assert(items.push(it).drop_first() =~= Seq::<CollectionItemModel>::empty());
        assert(items_of_collection(Seq::<CollectionItemModel>::empty(), id)
            == Seq::<CollectionItemModel>::empty());
        assert(items_of_collection(items.push(it), id) =~= items_of_collection(items, id) + tail);
    } else {
        assert(items.push(it)[0] == items[0]);
        assert(items.push(it).drop_first() =~= items.drop_first().push(it));
        lemma_items_of_collection_snoc(items.drop_first(), it, id);
        assert(items_of_collection(items.push(it), id) =~= items_of_collection(items, id) + tail);
    }
}

} // verus!
