//! The connections page: the open connections of the last frame of the core's stream, the
//! history of those that closed, the filter and three-state sort of the table, and the
//! actions on both lists.
use vstd::prelude::*;
use vstd::string::*;
use crate::clash::api::{ConnEntry, ConnectionSnapshot};
use crate::json::json_chars;
use crate::controller::rules::{advance_token, token_after};
use crate::text::{chars_of, text_eq, push_decimal, decimal, u64_text, parse_u64_from, ascii_lower_char, ascii_lower_chars, ascii_lower,
    contains_text, find_text, join_with, join_texts, texts_view, push_text};
use crate::order::{text_lt, text_less, lemma_text_lt_irreflexive, lemma_text_lt_transitive, lemma_text_lt_total,
    strict_total_on, ordered_by, lemma_insert_ordered, lemma_ordered_positions_complete};

verus! {

/// The tab of live connections or of closed ones.
#[derive(Debug, Clone, Copy, PartialEq, Eq, Structural)]
pub enum ConnectionTab {
    Active,
    Closed,
}

/// A column the connections can be sorted by.
#[derive(Debug, Clone, Copy, PartialEq, Eq, Structural)]
pub enum SortColumn {
    Host,
    DownloadRate,
    UploadRate,
    Download,
    Upload,
}

/// The direction of a sort.
#[derive(Debug, Clone, Copy, PartialEq, Eq, Structural)]
pub enum SortDirection {
    Desc,
    Asc,
}

/// The sort of the table: a column and a direction, or no column (arrival order).
#[derive(Debug, Clone, Copy, PartialEq, Eq, Structural)]
pub struct SortState {
    pub column: Option<SortColumn>,
    pub direction: SortDirection,
}

impl Default for SortState {
    fn default() -> (r: Self)
        ensures
            r.column is None,
            r.direction == SortDirection::Desc,
    {
        SortState { column: None, direction: SortDirection::Desc }
    }
}

/// The sort after a click on a column header: a new column sorts descending, a second
/// click ascending, a third returns to no sort.
pub open spec fn next_sort_state(current: SortState, column: SortColumn) -> SortState {
    if current.column != Some(column) {
        SortState { column: Some(column), direction: SortDirection::Desc }
    } else {
        match current.direction {
            SortDirection::Desc => SortState { column: Some(column), direction: SortDirection::Asc },
            SortDirection::Asc => SortState { column: None, direction: SortDirection::Desc },
        }
    }
}

/// The sort after a click on the header of `column`.
pub fn cycle_sort(current: SortState, column: SortColumn) -> (r: SortState)
    ensures
        r == next_sort_state(current, column),
{
    let same = match current.column {
        Some(c) => c == column,
        None => false,
    };
    if !same {
        return SortState { column: Some(column), direction: SortDirection::Desc };
    }
    match current.direction {
        SortDirection::Desc => SortState { column: Some(column), direction: SortDirection::Asc },
        SortDirection::Asc => SortState { column: None, direction: SortDirection::Desc },
    }
}

/// Three clicks on the same column, starting from any sort, return to no sort; from no
/// sort the clicks give descending, ascending, and no sort again.
pub proof fn law_sort_cycles_in_three(column: SortColumn)
    ensures
        next_sort_state(next_sort_state(next_sort_state(SortState { column: None, direction: SortDirection::Desc }, column), column), column)
            == (SortState { column: None, direction: SortDirection::Desc }),
        next_sort_state(SortState { column: None, direction: SortDirection::Desc }, column).direction == SortDirection::Desc,
        next_sort_state(next_sort_state(SortState { column: None, direction: SortDirection::Desc }, column), column).direction == SortDirection::Asc,
{
}

/// A transfer rate as the bytes moved over the nanoseconds between two frames; with no
/// interval (`nanos == 0`) the rate is zero.
#[derive(Debug, Clone, Copy, PartialEq, Eq, Structural)]
pub struct Rate {
    pub bytes: u64,
    pub nanos: u64,
}

impl Rate {
    /// The rate of a connection seen for the first time.
    pub fn zero() -> (r: Rate)
        ensures
            r == (Rate { bytes: 0, nanos: 0 }),
    {
        Rate { bytes: 0, nanos: 0 }
    }
}

/// An open or closed connection with its last measured rates.
#[derive(Debug)]
pub struct ConnectionRecord {
    pub entry: ConnEntry,
    pub upload_rate: Rate,
    pub download_rate: Rate,
}

/// A closed connection kept in the history, under a number of its own.
#[derive(Debug)]
pub struct ClosedConnection {
    pub history_id: u64,
    pub record: ConnectionRecord,
}

/// Everything the connections page shows and remembers. `active_by_id` holds at most one
/// record per connection identifier; `closed` holds the newest closed connection first.
#[derive(Debug)]
pub struct ConnectionsViewState {
    pub active_by_id: Vec<ConnectionRecord>,
    pub closed: Vec<ClosedConnection>,
    pub initialized: bool,
    pub previous_snapshot_at: Option<u64>,
    pub selected_tab: ConnectionTab,
    pub query: String,
    pub sort: SortState,
    pub next_history_id: u64,
    pub busy: bool,
    pub error: String,
    pub toast: String,
    pub detail_identity: Option<String>,
    pub operation_token: u64,
}

/// The identifiers of open connections differ from each other.
pub open spec fn ids_unique(s: Seq<ConnectionRecord>) -> bool {
    forall|i: int, j: int| 0 <= i < j < s.len() ==> s[i].entry.id@ != s[j].entry.id@
}

impl ConnectionsViewState {
    /// Well formed: one record per identifier among the open connections.
    pub open spec fn wf(&self) -> bool {
        ids_unique(self.active_by_id@)
    }
}

/// The state of a page that has seen no frame yet: no connections, the live tab, no
/// filter, no sort, history numbers from 1.
pub open spec fn is_fresh(s: ConnectionsViewState) -> bool {
    &&& s.active_by_id@.len() == 0
    &&& s.closed@.len() == 0
    &&& !s.initialized
    &&& s.previous_snapshot_at is None
    &&& s.selected_tab == ConnectionTab::Active
    &&& s.query@.len() == 0
    &&& s.sort == (SortState { column: None, direction: SortDirection::Desc })
    &&& s.next_history_id == 1
    &&& !s.busy
    &&& s.error@.len() == 0
    &&& s.toast@.len() == 0
    &&& s.detail_identity is None
    &&& s.operation_token == 0
}

impl Default for ConnectionsViewState {
    fn default() -> (r: Self)
        ensures
            is_fresh(r),
            r.wf(),
    {
        ConnectionsViewState {
            active_by_id: Vec::new(),
            closed: Vec::new(),
            initialized: false,
            previous_snapshot_at: None,
            selected_tab: ConnectionTab::Active,
            query: String::new(),
            sort: SortState { column: None, direction: SortDirection::Desc },
            next_history_id: 1,
            busy: false,
            error: String::new(),
            toast: String::new(),
            detail_identity: None,
            operation_token: 0,
        }
    }
}

/// A new page state, as `Default` gives it.
pub fn new_state() -> (r: ConnectionsViewState)
    ensures
        is_fresh(r),
        r.wf(),
{
    ConnectionsViewState::default()
}

/// Takes a new operation number, which makes the reply of any earlier operation stale.
pub fn next_operation_token(state: &mut ConnectionsViewState) -> (r: u64)
    ensures
        r == token_after(old(state).operation_token),
        *final(state) == (ConnectionsViewState { operation_token: r, ..*old(state) }),
{
    advance_token(&mut state.operation_token)
}

/// Drops what belonged to the core that ran: the open connections, the history, the frame
/// time, the busy mark, the messages and the open detail, and makes pending replies
/// stale. The tab, the filter and the sort stay.
pub fn clear_runtime(state: &mut ConnectionsViewState)
    ensures
        final(state).active_by_id@.len() == 0,
        final(state).closed@.len() == 0,
        !final(state).initialized,
        final(state).previous_snapshot_at is None,
        !final(state).busy,
        final(state).error@.len() == 0,
        final(state).toast@.len() == 0,
        final(state).detail_identity is None,
        final(state).operation_token == token_after(old(state).operation_token),
        final(state).selected_tab == old(state).selected_tab,
        final(state).query == old(state).query,
        final(state).sort == old(state).sort,
        final(state).next_history_id == old(state).next_history_id,
        final(state).wf(),
{
    state.active_by_id = Vec::new();
    state.closed = Vec::new();
    state.initialized = false;
    state.previous_snapshot_at = None;
    state.busy = false;
    state.error = String::new();
    state.toast = String::new();
    state.detail_identity = None;
    next_operation_token(state);
}

/// Shows the history for tab 1 and the live connections for any other number, and closes
/// the detail.
pub fn select_tab(state: &mut ConnectionsViewState, tab: i32)
    ensures
        *final(state) == (ConnectionsViewState {
            selected_tab: if tab == 1 { ConnectionTab::Closed } else { ConnectionTab::Active },
            detail_identity: None,
            ..*old(state)
        }),
{
    state.selected_tab = if tab == 1 { ConnectionTab::Closed } else { ConnectionTab::Active };
    state.detail_identity = None;
}

/// Sets the text the table is filtered by.
pub fn set_query(state: &mut ConnectionsViewState, query: String)
    ensures
        *final(state) == (ConnectionsViewState { query: query, ..*old(state) }),
{
    state.query = query;
}

/// The column of a header position: host, download rate, upload rate, downloaded,
/// uploaded; none for any other number.
pub open spec fn column_at(index: i32) -> Option<SortColumn> {
    if index == 0 {
        Some(SortColumn::Host)
    } else if index == 1 {
        Some(SortColumn::DownloadRate)
    } else if index == 2 {
        Some(SortColumn::UploadRate)
    } else if index == 3 {
        Some(SortColumn::Download)
    } else if index == 4 {
        Some(SortColumn::Upload)
    } else {
        None
    }
}

/// A click on the header at `index`: cycles the sort of that column; a number that names
/// no column changes nothing.
pub fn sort_by_index(state: &mut ConnectionsViewState, index: i32)
    ensures
        *final(state) == (match column_at(index) {
            Some(c) => ConnectionsViewState { sort: next_sort_state(old(state).sort, c), ..*old(state) },
            None => *old(state),
        }),
{
    let column = if index == 0 {
        SortColumn::Host
    } else if index == 1 {
        SortColumn::DownloadRate
    } else if index == 2 {
        SortColumn::UploadRate
    } else if index == 3 {
        SortColumn::Download
    } else if index == 4 {
        SortColumn::Upload
    } else {
        return;
    };
    state.sort = cycle_sort(state.sort, column);
}

/// Closes the detail panel.
pub fn close_detail(state: &mut ConnectionsViewState)
    ensures
        *final(state) == (ConnectionsViewState { detail_identity: None, ..*old(state) }),
{
    state.detail_identity = None;
}

/// The header position of a sort column, -1 for none.
pub fn sort_column_index(column: Option<SortColumn>) -> (r: i32)
    ensures
        r == match column {
            None => -1,
            Some(SortColumn::Host) => 0,
            Some(SortColumn::DownloadRate) => 1,
            Some(SortColumn::UploadRate) => 2,
            Some(SortColumn::Download) => 3,
            Some(SortColumn::Upload) => 4,
        },
        r == -1 || column == column_at(r),
{
    match column {
        None => -1,
        Some(SortColumn::Host) => 0,
        Some(SortColumn::DownloadRate) => 1,
        Some(SortColumn::UploadRate) => 2,
        Some(SortColumn::Download) => 3,
        Some(SortColumn::Upload) => 4,
    }
}

/// The arrow of the sorted header: 0 with no sort, 1 descending, -1 ascending.
pub fn sort_direction_value(sort: SortState) -> (r: i32)
    ensures
        r == (if sort.column is None { 0 } else if sort.direction == SortDirection::Desc { 1 } else { -1 }),
{
    if sort.column.is_none() {
        0
    } else if sort.direction == SortDirection::Desc {
        1
    } else {
        -1
    }
}

// ---------------------------------------------------------------------------
// Identities

/// The prefix of the identity of a closed connection.
pub open spec fn history_prefix() -> Seq<char> {
    seq!['h', 'i', 's', 't', 'o', 'r', 'y', '-']
}

/// The identity under which a closed connection is shown: `history-` and its number.
pub open spec fn history_identity(id: u64) -> Seq<char> {
    history_prefix() + decimal(id as nat)
}

/// `identity` starts with `history-`.
pub open spec fn is_history_identity(identity: Seq<char>) -> bool {
    identity.len() >= 8 && identity.subrange(0, 8) == history_prefix()
}

/// The history number an identity names: `history-` and a number as `u64` parsing reads
/// it.
pub open spec fn history_number(identity: Seq<char>) -> Option<u64> {
    if is_history_identity(identity) { u64_text(identity.subrange(8, identity.len() as int)) } else { None }
}

/// The identity of a closed connection.
pub fn history_identity_text(id: u64) -> (r: String)
    ensures
        r@ == history_identity(id),
{
    let mut s = String::from_str("history-");
    proof {
        reveal_strlit("history-");
        assert(s@ =~= history_prefix());
    }
    push_decimal(&mut s, id);
    s
}

fn starts_with_history(cs: &Vec<char>) -> (r: bool)
    ensures
        r == is_history_identity(cs@),
{
    if cs.len() < 8 {
        return false;
    }
    let r = cs[0] == 'h' && cs[1] == 'i' && cs[2] == 's' && cs[3] == 't' && cs[4] == 'o' && cs[5] == 'r'
        && cs[6] == 'y' && cs[7] == '-';
    proof {
        if r {
            assert(cs@.subrange(0, 8) =~= history_prefix());
        } else {
            assert(cs@.subrange(0, 8) != history_prefix()) by {
                if cs@.subrange(0, 8) == history_prefix() {
                    assert(cs@.subrange(0, 8)[0] == 'h');
                    assert(cs@.subrange(0, 8)[7] == '-');
                }
            }
        }
    }
    r
}

/// Reads the history number of an identity.
pub fn parse_history_identity(identity: &str) -> (r: Option<u64>)
    ensures
        r == history_number(identity@),
{
    let cs = chars_of(identity);
    if !starts_with_history(&cs) {
        return None;
    }
    parse_u64_from(&cs, 8)
}

/// The position of the open connection with this identifier.
pub open spec fn active_index(s: Seq<ConnectionRecord>, id: Seq<char>) -> int
    decreases s.len(),
{
    if s.len() == 0 {
        -1
    } else if s[0].entry.id@ == id {
        0
    } else {
        let k = active_index(s.drop_first(), id);
        if k < 0 { -1 } else { k + 1 }
    }
}

proof fn lemma_active_index(s: Seq<ConnectionRecord>, id: Seq<char>)
    ensures
        -1 <= active_index(s, id) < s.len(),
        active_index(s, id) >= 0 ==> s[active_index(s, id)].entry.id@ == id,
        active_index(s, id) >= 0 ==> forall|j: int| 0 <= j < active_index(s, id) ==> s[j].entry.id@ != id,
        active_index(s, id) < 0 ==> forall|j: int| 0 <= j < s.len() ==> s[j].entry.id@ != id,
    decreases s.len(),
{
    if s.len() > 0 && s[0].entry.id@ != id {
        lemma_active_index(s.drop_first(), id);
        let k = active_index(s.drop_first(), id);
        assert forall|j: int| 0 < j < s.len() implies s[j] == s.drop_first()[j - 1] by {}
    }
}

/// The position of the first closed connection with this history number.
pub open spec fn closed_index(s: Seq<ClosedConnection>, h: u64) -> int
    decreases s.len(),
{
    if s.len() == 0 {
        -1
    } else if s[0].history_id == h {
        0
    } else {
        let k = closed_index(s.drop_first(), h);
        if k < 0 { -1 } else { k + 1 }
    }
}

proof fn lemma_closed_index(s: Seq<ClosedConnection>, h: u64)
    ensures
        -1 <= closed_index(s, h) < s.len(),
        closed_index(s, h) >= 0 ==> s[closed_index(s, h)].history_id == h,
        closed_index(s, h) >= 0 ==> forall|j: int| 0 <= j < closed_index(s, h) ==> s[j].history_id != h,
        closed_index(s, h) < 0 ==> forall|j: int| 0 <= j < s.len() ==> s[j].history_id != h,
    decreases s.len(),
{
    if s.len() > 0 && s[0].history_id != h {
        lemma_closed_index(s.drop_first(), h);
        assert forall|j: int| 0 < j < s.len() implies s[j] == s.drop_first()[j - 1] by {}
    }
}

fn find_active(s: &Vec<ConnectionRecord>, id: &str) -> (r: Option<usize>)
    ensures
        match r {
            Some(i) => i == active_index(s@, id@) && i < s.len(),
            None => active_index(s@, id@) < 0,
        },
{
    proof { lemma_active_index(s@, id@); }
    let mut i: usize = 0;
    while i < s.len()
        invariant
            i <= s.len(),
            forall|j: int| 0 <= j < i ==> s@[j].entry.id@ != id@,
            -1 <= active_index(s@, id@) < s.len(),
            active_index(s@, id@) >= 0 ==> s@[active_index(s@, id@)].entry.id@ == id@,
            active_index(s@, id@) >= 0 ==> forall|j: int| 0 <= j < active_index(s@, id@) ==> s@[j].entry.id@ != id@,
            active_index(s@, id@) < 0 ==> forall|j: int| 0 <= j < s.len() ==> s@[j].entry.id@ != id@,
        decreases s.len() - i,
    {
        if text_eq(s[i].entry.id.as_str(), id) {
            return Some(i);
        }
        i = i + 1;
    }
    None
}

fn find_closed(s: &Vec<ClosedConnection>, h: u64) -> (r: Option<usize>)
    ensures
        match r {
            Some(i) => i == closed_index(s@, h) && i < s.len(),
            None => closed_index(s@, h) < 0,
        },
{
    proof { lemma_closed_index(s@, h); }
    let mut i: usize = 0;
    while i < s.len()
        invariant
            i <= s.len(),
            forall|j: int| 0 <= j < i ==> s@[j].history_id != h,
            -1 <= closed_index(s@, h) < s.len(),
            closed_index(s@, h) >= 0 ==> s@[closed_index(s@, h)].history_id == h,
            closed_index(s@, h) >= 0 ==> forall|j: int| 0 <= j < closed_index(s@, h) ==> s@[j].history_id != h,
            closed_index(s@, h) < 0 ==> forall|j: int| 0 <= j < s.len() ==> s@[j].history_id != h,
        decreases s.len() - i,
    {
        if s[i].history_id == h {
            return Some(i);
        }
        i = i + 1;
    }
    None
}

/// The record an identity names: a closed connection for `history-N` (the first with that
/// number), else the open connection with that identifier.
pub open spec fn record_for(state: ConnectionsViewState, identity: Seq<char>) -> Option<ConnectionRecord> {
    if is_history_identity(identity) {
        match history_number(identity) {
            Some(h) => {
                let k = closed_index(state.closed@, h);
                if k >= 0 { Some(state.closed@[k].record) } else { None }
            },
            None => None,
        }
    } else {
        let k = active_index(state.active_by_id@, identity);
        if k >= 0 { Some(state.active_by_id@[k]) } else { None }
    }
}

/// The record an identity names, if any.
pub fn record_for_identity<'a>(state: &'a ConnectionsViewState, identity: &str) -> (r: Option<&'a ConnectionRecord>)
    ensures
        match r {
            Some(rec) => record_for(*state, identity@) == Some(*rec),
            None => record_for(*state, identity@) is None,
        },
{
    let cs = chars_of(identity);
    if starts_with_history(&cs) {
        match parse_u64_from(&cs, 8) {
            Some(h) => match find_closed(&state.closed, h) {
                Some(i) => Some(&state.closed[i].record),
                None => None,
            },
            None => None,
        }
    } else {
        match find_active(&state.active_by_id, identity) {
            Some(i) => Some(&state.active_by_id[i]),
            None => None,
        }
    }
}

/// Opens the detail of the connection an identity names; an identity that names none
/// changes nothing.
pub fn open_detail(state: &mut ConnectionsViewState, identity: String)
    ensures
        *final(state) == (if record_for(*old(state), identity@) is Some {
            ConnectionsViewState { detail_identity: Some(identity), ..*old(state) }
        } else {
            *old(state)
        }),
{
    let found = record_for_identity(state, identity.as_str()).is_some();
    if found {
        state.detail_identity = Some(identity);
    }
}

// ---------------------------------------------------------------------------
// Operations

/// Starts an operation on the core unless one is running: marks the page busy, clears the
/// error and returns the operation's number.
pub fn begin_operation(state: &mut ConnectionsViewState) -> (r: Option<u64>)
    ensures
        old(state).busy ==> r is None && *final(state) == *old(state),
        !old(state).busy ==> r == Some(token_after(old(state).operation_token)) && final(state).error@.len() == 0
            && *final(state) == (ConnectionsViewState {
                busy: true,
                operation_token: token_after(old(state).operation_token),
                error: final(state).error,
                ..*old(state)
            }),
{
    if state.busy {
        return None;
    }
    let token = next_operation_token(state);
    state.busy = true;
    state.error = String::new();
    Some(token)
}

/// Takes the reply of the operation numbered `token`. A stale reply changes nothing and
/// returns nothing; else the page is no longer busy, the message becomes the toast (and,
/// for a failure, the error), and the message is returned with its toast variant: 1 for
/// success, 2 for failure.
pub fn finish_operation(state: &mut ConnectionsViewState, token: u64, result: Result<String, String>) -> (r: Option<(String, i32)>)
    ensures
        old(state).operation_token != token ==> r is None && *final(state) == *old(state),
        old(state).operation_token == token ==> match result {
            Ok(m) => r == Some((m, 1i32)) && final(state).error@.len() == 0
                && *final(state) == (ConnectionsViewState { busy: false, toast: m, error: final(state).error, ..*old(state) }),
            Err(m) => r == Some((m, 2i32))
                && *final(state) == (ConnectionsViewState { busy: false, toast: m, error: m, ..*old(state) }),
        },
{
    if state.operation_token != token {
        return None;
    }
    state.busy = false;
    match result {
        Ok(message) => {
            state.error = String::new();
            state.toast = message.clone();
            Some((message, 1))
        }
        Err(message) => {
            state.error = message.clone();
            state.toast = message.clone();
            Some((message, 2))
        }
    }
}

/// Removes the closed connection an identity `history-N` names, unless the page is busy
/// or there is none; an open detail of it closes. Returns whether one was removed.
pub fn remove_history_local(state: &mut ConnectionsViewState, identity: &str) -> (r: bool)
    ensures
        r == (history_number(identity@) is Some && !old(state).busy
            && closed_index(old(state).closed@, history_number(identity@)->0) >= 0),
        !r ==> *final(state) == *old(state),
        r ==> final(state).closed@ == old(state).closed@.remove(closed_index(old(state).closed@, history_number(identity@)->0)),
        r ==> final(state).detail_identity == (match old(state).detail_identity {
            Some(d) => if d@ == identity@ { None } else { Some(d) },
            None => None,
        }),
        r ==> *final(state) == (ConnectionsViewState {
            closed: final(state).closed,
            detail_identity: final(state).detail_identity,
            ..*old(state)
        }),
{
    let h = match parse_history_identity(identity) {
        Some(h) => h,
        None => return false,
    };
    if state.busy {
        return false;
    }
    let index = match find_closed(&state.closed, h) {
        Some(i) => i,
        None => return false,
    };
    state.closed.remove(index);
    let clear = match &state.detail_identity {
        Some(d) => text_eq(d.as_str(), identity),
        None => false,
    };
    if clear {
        state.detail_identity = None;
    }
    true
}

/// Empties the history unless the page is busy or it is empty already; an open detail of
/// a closed connection closes. Returns whether it was emptied.
pub fn clear_history_local(state: &mut ConnectionsViewState) -> (r: bool)
    ensures
        r == (!old(state).busy && old(state).closed@.len() > 0),
        !r ==> *final(state) == *old(state),
        r ==> final(state).closed@.len() == 0,
        r ==> final(state).detail_identity == (match old(state).detail_identity {
            Some(d) => if is_history_identity(d@) { None } else { Some(d) },
            None => None,
        }),
        r ==> *final(state) == (ConnectionsViewState {
            closed: final(state).closed,
            detail_identity: final(state).detail_identity,
            ..*old(state)
        }),
{
    if state.busy || state.closed.len() == 0 {
        return false;
    }
    state.closed = Vec::new();
    let clear = match &state.detail_identity {
        Some(d) => {
            let cs = chars_of(d.as_str());
            starts_with_history(&cs)
        }
        None => false,
    };
    if clear {
        state.detail_identity = None;
    }
    true
}

// ---------------------------------------------------------------------------
// Frames

/// `a - b`, or 0 when `b` is larger.
pub open spec fn sat_sub(a: u64, b: u64) -> u64 {
    if a >= b { (a - b) as u64 } else { 0 }
}

/// The nanoseconds since the previous frame, if there was one (0 if the clock went back).
pub open spec fn elapsed_since(previous: Option<u64>, now: u64) -> Option<u64> {
    match previous {
        Some(p) => Some(sat_sub(now, p)),
        None => None,
    }
}

/// Some frame entry has this identifier.
pub open spec fn entry_has_id(s: Seq<ConnEntry>, id: Seq<char>) -> bool {
    exists|j: int| 0 <= j < s.len() && #[trigger] s[j].id@ == id
}

/// The entries of a frame, the last one of each identifier, in frame order.
pub open spec fn last_per_id(s: Seq<ConnEntry>) -> Seq<ConnEntry>
    decreases s.len(),
{
    if s.len() == 0 {
        s
    } else {
        let rest = last_per_id(s.drop_first());
        if entry_has_id(rest, s[0].id@) { rest } else { seq![s[0]] + rest }
    }
}

/// The record of a frame entry: its rates are the growth of its counters since the
/// previous frame over the interval, when the connection was open then and time passed;
/// else zero.
pub open spec fn record_from(e: ConnEntry, previous: Seq<ConnectionRecord>, elapsed: Option<u64>) -> ConnectionRecord {
    let k = active_index(previous, e.id@);
    let measured = k >= 0 && elapsed is Some && elapsed->0 > 0;
    ConnectionRecord {
        entry: e,
        upload_rate: if measured {
            Rate { bytes: sat_sub(e.upload, previous[k].entry.upload), nanos: elapsed->0 }
        } else {
            Rate { bytes: 0, nanos: 0 }
        },
        download_rate: if measured {
            Rate { bytes: sat_sub(e.download, previous[k].entry.download), nanos: elapsed->0 }
        } else {
            Rate { bytes: 0, nanos: 0 }
        },
    }
}

/// The open connections after a frame.
pub open spec fn frame_records(entries: Seq<ConnEntry>, previous: Seq<ConnectionRecord>, elapsed: Option<u64>) -> Seq<ConnectionRecord> {
    last_per_id(entries).map_values(|e: ConnEntry| record_from(e, previous, elapsed))
}

/// The history after a frame, and the next history number: every connection that was
/// open and is not in the frame goes to the front of the history, under the next number;
/// they keep their order, and the last one takes the first number.
pub open spec fn archive(active: Seq<ConnectionRecord>, entries: Seq<ConnEntry>, closed: Seq<ClosedConnection>, next: u64) -> (Seq<ClosedConnection>, u64)
    decreases active.len(),
{
    if active.len() == 0 {
        (closed, next)
    } else {
        let r = active.last();
        if entry_has_id(entries, r.entry.id@) {
            archive(active.drop_last(), entries, closed, next)
        } else {
            archive(active.drop_last(), entries, seq![ClosedConnection { history_id: next, record: r }] + closed, token_after(next))
        }
    }
}

proof fn lemma_last_per_id_ids(s: Seq<ConnEntry>, id: Seq<char>)
    ensures
        entry_has_id(last_per_id(s), id) == entry_has_id(s, id),
    decreases s.len(),
{
    if s.len() > 0 {
        let rest = last_per_id(s.drop_first());
        lemma_last_per_id_ids(s.drop_first(), id);
        if entry_has_id(s.drop_first(), id) {
            let j = choose|j: int| 0 <= j < s.drop_first().len() && #[trigger] s.drop_first()[j].id@ == id;
            assert(s[j + 1].id@ == id);
        }
        if entry_has_id(s, id) && s[0].id@ != id {
            let j = choose|j: int| 0 <= j < s.len() && #[trigger] s[j].id@ == id;
            assert(s.drop_first()[j - 1].id@ == id);
        }
        if !entry_has_id(rest, s[0].id@) {
            let l = seq![s[0]] + rest;
            if entry_has_id(rest, id) {
                let j = choose|j: int| 0 <= j < rest.len() && #[trigger] rest[j].id@ == id;
                assert(l[j + 1].id@ == id);
            }
            if s[0].id@ == id {
                assert(l[0].id@ == id);
            }
            if entry_has_id(l, id) && s[0].id@ != id {
                let j = choose|j: int| 0 <= j < l.len() && #[trigger] l[j].id@ == id;
                assert(rest[j - 1].id@ == id);
            }
        } else if s[0].id@ == id {
            assert(entry_has_id(rest, id));
        }
    }
}

/// After a frame, every connection of the previous frame that the new frame lacks is in
/// the history with its last record, and the history from before stays, behind the newly
/// archived connections.
pub proof fn law_closed_connections_are_archived(active: Seq<ConnectionRecord>, entries: Seq<ConnEntry>, closed: Seq<ClosedConnection>, next: u64)
    ensures
        archive(active, entries, closed, next).0.len() >= closed.len(),
        archive(active, entries, closed, next).0.subrange(
            archive(active, entries, closed, next).0.len() - closed.len(),
            archive(active, entries, closed, next).0.len() as int) == closed,
        forall|i: int| 0 <= i < active.len() && !entry_has_id(entries, #[trigger] active[i].entry.id@) ==>
            exists|j: int| 0 <= j < archive(active, entries, closed, next).0.len()
                && archive(active, entries, closed, next).0[j].record == active[i],
    decreases active.len(),
{
    if active.len() > 0 {
        let r = active.last();
        let rest = active.drop_last();
        let (c2, n2) = if entry_has_id(entries, r.entry.id@) {
            (closed, next)
        } else {
            (seq![ClosedConnection { history_id: next, record: r }] + closed, token_after(next))
        };
        law_closed_connections_are_archived(rest, entries, c2, n2);
        let out = archive(active, entries, closed, next).0;
        assert(out == archive(rest, entries, c2, n2).0);
        assert(out.subrange(out.len() - c2.len(), out.len() as int) == c2);
        if !entry_has_id(entries, r.entry.id@) {
            assert(out.subrange(out.len() - closed.len(), out.len() as int)
                =~= c2.subrange(1, c2.len() as int)) by {
                assert forall|t: int| 0 <= t < closed.len() implies
                    out.subrange(out.len() - closed.len(), out.len() as int)[t] == c2.subrange(1, c2.len() as int)[t] by {
                    assert(out.subrange(out.len() - c2.len(), out.len() as int)[t + 1] == c2[t + 1]);
                }
            }
            assert(c2.subrange(1, c2.len() as int) =~= closed);
            assert(out[out.len() - c2.len()] == out.subrange(out.len() - c2.len(), out.len() as int)[0]);
        }
        assert forall|i: int| 0 <= i < active.len() && !entry_has_id(entries, #[trigger] active[i].entry.id@) implies
            exists|j: int| 0 <= j < out.len() && out[j].record == active[i] by {
            if i < active.len() - 1 {
                assert(rest[i] == active[i]);
            } else {
                let j = out.len() - c2.len();
                assert(out.subrange(out.len() - c2.len(), out.len() as int)[0] == c2[0]);
                assert(out[j].record == active[i]);
            }
        }
    }
}

/// After a frame the open connections are the frame's, one per identifier: an identifier
/// is open exactly when some entry of the frame has it.
pub proof fn law_frame_defines_open_connections(entries: Seq<ConnEntry>, previous: Seq<ConnectionRecord>, elapsed: Option<u64>, id: Seq<char>)
    ensures
        (exists|k: int| 0 <= k < frame_records(entries, previous, elapsed).len()
            && #[trigger] frame_records(entries, previous, elapsed)[k].entry.id@ == id) == entry_has_id(entries, id),
        ids_unique(frame_records(entries, previous, elapsed)),
{
    lemma_last_per_id_ids(entries, id);
    lemma_last_per_id_unique(entries);
    let l = last_per_id(entries);
    let f = frame_records(entries, previous, elapsed);
    if entry_has_id(l, id) {
        let j = choose|j: int| 0 <= j < l.len() && #[trigger] l[j].id@ == id;
        assert(f[j].entry.id@ == id);
    }
    if exists|k: int| 0 <= k < f.len() && #[trigger] f[k].entry.id@ == id {
        let k = choose|k: int| 0 <= k < f.len() && #[trigger] f[k].entry.id@ == id;
        assert(l[k].id@ == id);
    }
    assert forall|i: int, j: int| 0 <= i < j < f.len() implies f[i].entry.id@ != f[j].entry.id@ by {
        assert(f[i].entry == l[i] && f[j].entry == l[j]);
    }
}

proof fn lemma_last_per_id_unique(s: Seq<ConnEntry>)
    ensures
        forall|i: int, j: int| 0 <= i < j < last_per_id(s).len() ==> last_per_id(s)[i].id@ != last_per_id(s)[j].id@,
    decreases s.len(),
{
    if s.len() > 0 {
        lemma_last_per_id_unique(s.drop_first());
        let rest = last_per_id(s.drop_first());
        if !entry_has_id(rest, s[0].id@) {
            let l = seq![s[0]] + rest;
            assert forall|i: int, j: int| 0 <= i < j < l.len() implies l[i].id@ != l[j].id@ by {
                if i == 0 {
                    assert(l[j] == rest[j - 1]);
                    if l[j].id@ == s[0].id@ {
                        assert(entry_has_id(rest, s[0].id@));
                    }
                } else {
                    assert(l[i] == rest[i - 1] && l[j] == rest[j - 1]);
                }
            }
        }
    }
}

/// The open connection with the identifier, if any, among records with unique ids.
fn previous_counters(previous: &Vec<ConnectionRecord>, id: &str) -> (r: Option<(u64, u64)>)
    ensures
        match r {
            Some((up, down)) => active_index(previous@, id@) >= 0
                && up == previous@[active_index(previous@, id@)].entry.upload
                && down == previous@[active_index(previous@, id@)].entry.download,
            None => active_index(previous@, id@) < 0,
        },
{
    match find_active(previous, id) {
        Some(i) => Some((previous[i].entry.upload, previous[i].entry.download)),
        None => None,
    }
}

/// Takes one frame of the connections stream, read at `now` (nanoseconds on a monotonic
/// clock): the open connections become those of the frame, with rates measured against
/// the previous frame; after the first frame, every connection that closed since the
/// previous one is archived in front of the history.
pub fn apply_snapshot(state: &mut ConnectionsViewState, snapshot: ConnectionSnapshot, now: u64)
    requires
        old(state).wf(),
    ensures
        final(state).wf(),
        final(state).active_by_id@ == frame_records(snapshot.connections@, old(state).active_by_id@,
            elapsed_since(old(state).previous_snapshot_at, now)),
        (final(state).closed@, final(state).next_history_id) == (if old(state).initialized {
            archive(old(state).active_by_id@, snapshot.connections@, old(state).closed@, old(state).next_history_id)
        } else {
            (old(state).closed@, old(state).next_history_id)
        }),
        *final(state) == (ConnectionsViewState {
            active_by_id: final(state).active_by_id,
            closed: final(state).closed,
            next_history_id: final(state).next_history_id,
            previous_snapshot_at: Some(now),
            initialized: true,
            ..*old(state)
        }),
{
    let ghost st0 = *state;
    let elapsed: Option<u64> = match state.previous_snapshot_at {
        Some(p) => Some(if now >= p { now - p } else { 0 }),
        None => None,
    };
    let mut previous: Vec<ConnectionRecord> = Vec::new();
    std::mem::swap(&mut previous, &mut state.active_by_id);
    let ghost prev = previous@;
    let mut entries = snapshot.connections;
    let ghost all = entries@;
    let mut fresh: Vec<ConnectionRecord> = Vec::new();
    proof {
        assert(all.subrange(all.len() as int, all.len() as int) =~= Seq::<ConnEntry>::empty());
        assert(fresh@ =~= frame_records(all.subrange(all.len() as int, all.len() as int), prev, elapsed));
    }
    while entries.len() > 0
        invariant
            entries.len() <= all.len(),
            entries@ == all.subrange(0, entries.len() as int),
            previous@ == prev,
            elapsed == elapsed_since(st0.previous_snapshot_at, now),
            fresh@ == frame_records(all.subrange(entries.len() as int, all.len() as int), prev, elapsed),
            ids_unique(fresh@),
        decreases entries.len(),
    {
        let ghost m = entries.len() as int;
        let e = entries.pop().unwrap();
        proof { assert(e == all[m - 1]); }
        let counters = previous_counters(&previous, e.id.as_str());
        let (upload_rate, download_rate) = match (counters, elapsed) {
            (Some((up, down)), Some(d)) => {
                if d > 0 {
                    (Rate { bytes: if e.upload >= up { e.upload - up } else { 0 }, nanos: d },
                     Rate { bytes: if e.download >= down { e.download - down } else { 0 }, nanos: d })
                } else {
                    (Rate::zero(), Rate::zero())
                }
            }
            _ => (Rate::zero(), Rate::zero()),
        };
        let known = find_active(&fresh, e.id.as_str()).is_some();
        let ghost suffix = all.subrange(m - 1, all.len() as int);
        let ghost rest = last_per_id(all.subrange(m, all.len() as int));
        proof {
            assert(suffix.drop_first() =~= all.subrange(m, all.len() as int));
            assert(suffix[0] == e);
            lemma_active_index(fresh@, e.id@);
            assert(entry_has_id(rest, e.id@) == known) by {
                if known {
                    let k = active_index(fresh@, e.id@);
                    assert(fresh@[k].entry == rest[k]);
                }
                if entry_has_id(rest, e.id@) {
                    let j = choose|j: int| 0 <= j < rest.len() && #[trigger] rest[j].id@ == e.id@;
                    assert(fresh@[j].entry == rest[j]);
                }
            }
        }
        let record = ConnectionRecord { entry: e, upload_rate, download_rate };
        proof {
            assert(record == record_from(all[m - 1], prev, elapsed));
        }
        if !known {
            fresh.insert(0, record);
            proof {
                assert(fresh@ =~= frame_records(suffix, prev, elapsed));
            }
        } else {
            proof {
                assert(fresh@ =~= frame_records(suffix, prev, elapsed));
            }
        }
    }
    proof {
        assert(all.subrange(0, all.len() as int) =~= all);
    }
    if state.initialized {
        let mut closed: Vec<ClosedConnection> = Vec::new();
        std::mem::swap(&mut closed, &mut state.closed);
        let mut next = state.next_history_id;
        proof {
            assert(previous@.subrange(0, previous@.len() as int) =~= previous@);
        }
        while previous.len() > 0
            invariant
                previous@ == prev.subrange(0, previous.len() as int),
                previous.len() <= prev.len(),
                fresh@ == frame_records(all, prev, elapsed),
                archive(previous@, all, closed@, next) == archive(prev, all, st0.closed@, st0.next_history_id),
            decreases previous.len(),
        {
            let ghost before = previous@;
            let r = previous.pop().unwrap();
            proof { assert(previous@ =~= before.drop_last()); }
            let present = find_active(&fresh, r.entry.id.as_str()).is_some();
            proof {
                lemma_active_index(fresh@, r.entry.id@);
                lemma_last_per_id_ids(all, r.entry.id@);
                assert(present == entry_has_id(all, r.entry.id@)) by {
                    let l = last_per_id(all);
                    if present {
                        let k = active_index(fresh@, r.entry.id@);
                        assert(fresh@[k].entry == l[k]);
                    }
                    if entry_has_id(l, r.entry.id@) {
                        let j = choose|j: int| 0 <= j < l.len() && #[trigger] l[j].id@ == r.entry.id@;
                        assert(fresh@[j].entry == l[j]);
                    }
                }
            }
            if !present {
                let ghost c0 = closed@;
                closed.insert(0, ClosedConnection { history_id: next, record: r });
                proof { assert(closed@ =~= seq![ClosedConnection { history_id: next, record: before.last() }] + c0); }
                advance_token(&mut next);
            }
        }
        state.closed = closed;
        state.next_history_id = next;
    }
    state.active_by_id = fresh;
    state.previous_snapshot_at = Some(now);
    state.initialized = true;
}

// ---------------------------------------------------------------------------
// The table

/// The host shown for a connection: its host name, else its destination address, else a
/// placeholder.
pub open spec fn host_of(r: ConnectionRecord) -> Seq<char> {
    if r.entry.metadata.host@.len() > 0 {
        r.entry.metadata.host@
    } else if r.entry.metadata.destination_ip@.len() > 0 {
        r.entry.metadata.destination_ip@
    } else {
        "未知主机"@
    }
}

/// The host shown for a connection.
pub fn connection_host(record: &ConnectionRecord) -> (r: &str)
    ensures
        r@ == host_of(*record),
{
    if !record.entry.metadata.host.as_str().is_empty() {
        record.entry.metadata.host.as_str()
    } else if !record.entry.metadata.destination_ip.as_str().is_empty() {
        record.entry.metadata.destination_ip.as_str()
    } else {
        "未知主机"
    }
}

/// A connection matches a filter already in ASCII lower case: the filter is empty, or it
/// occurs in the host or in the rule, both in ASCII lower case.
pub open spec fn matches_lowered(r: ConnectionRecord, q: Seq<char>) -> bool {
    q.len() == 0 || contains_text(ascii_lower(host_of(r)), q) || contains_text(ascii_lower(r.entry.rule@), q)
}

fn matches_query_normalized(record: &ConnectionRecord, query: &Vec<char>) -> (r: bool)
    ensures
        r == matches_lowered(*record, query@),
{
    if query.len() == 0 {
        return true;
    }
    let host = ascii_lower_chars(&chars_of(connection_host(record)));
    if find_text(&host, query) {
        return true;
    }
    let rule = ascii_lower_chars(&chars_of(record.entry.rule.as_str()));
    find_text(&rule, query)
}

/// Whether a connection matches a filter, both compared in ASCII lower case.
pub fn matches_query(record: &ConnectionRecord, query: &str) -> (r: bool)
    ensures
        r == matches_lowered(*record, ascii_lower(query@)),
{
    let q = ascii_lower_chars(&chars_of(query));
    matches_query_normalized(record, &q)
}

/// The rows of the selected tab before filtering, each with its identity: the open
/// connections under their identifiers, or the history under `history-N`.
pub open spec fn tab_items(state: ConnectionsViewState) -> Seq<(Seq<char>, ConnectionRecord)> {
    match state.selected_tab {
        ConnectionTab::Active => state.active_by_id@.map_values(|r: ConnectionRecord| (r.entry.id@, r)),
        ConnectionTab::Closed => state.closed@.map_values(|c: ClosedConnection| (history_identity(c.history_id), c.record)),
    }
}

/// The test a row passes to be shown under a filter in ASCII lower case.
pub open spec fn shown_filter(q: Seq<char>) -> spec_fn((Seq<char>, ConnectionRecord)) -> bool {
    |it: (Seq<char>, ConnectionRecord)| matches_lowered(it.1, q)
}

/// The rows of the selected tab that match the filter, in list order.
pub open spec fn shown_items(state: ConnectionsViewState) -> Seq<(Seq<char>, ConnectionRecord)> {
    tab_items(state).filter(shown_filter(ascii_lower(state.query@)))
}

/// -1, 0 or 1 as `a` comes before, with, or after `b` in code-point order.
pub open spec fn text_order(a: Seq<char>, b: Seq<char>) -> int {
    if a == b { 0 } else if text_lt(a, b) { -1 } else { 1 }
}

/// -1, 0 or 1 as `a` is below, equal to, or above `b`.
pub open spec fn num_order(a: int, b: int) -> int {
    if a < b { -1 } else if a == b { 0 } else { 1 }
}

/// The numerator of a rate as a fraction; a rate over no interval is 0/1.
pub open spec fn rate_num(r: Rate) -> int {
    if r.nanos == 0 { 0 } else { r.bytes as int }
}

/// The denominator of a rate as a fraction.
pub open spec fn rate_den(r: Rate) -> int {
    if r.nanos == 0 { 1 } else { r.nanos as int }
}

/// -1, 0 or 1 as rate `a` is slower than, as fast as, or faster than `b`.
pub open spec fn rate_order(a: Rate, b: Rate) -> int {
    num_order(rate_num(a) * rate_den(b), rate_num(b) * rate_den(a))
}

/// The order of two connections by the values of a column, smallest first.
pub open spec fn column_order(c: SortColumn, a: ConnectionRecord, b: ConnectionRecord) -> int {
    match c {
        SortColumn::Host => text_order(host_of(a), host_of(b)),
        SortColumn::DownloadRate => rate_order(a.download_rate, b.download_rate),
        SortColumn::UploadRate => rate_order(a.upload_rate, b.upload_rate),
        SortColumn::Download => num_order(a.entry.download as int, b.entry.download as int),
        SortColumn::Upload => num_order(a.entry.upload as int, b.entry.upload as int),
    }
}

/// The order of two connections under a sort: with no column the latest start first; with
/// a column its values, ascending or descending.
pub open spec fn directed_order(sort: SortState, a: ConnectionRecord, b: ConnectionRecord) -> int {
    match sort.column {
        None => text_order(b.entry.start@, a.entry.start@),
        Some(c) => if sort.direction == SortDirection::Asc { column_order(c, a, b) } else { -column_order(c, a, b) },
    }
}

/// Row `p` at position `x` goes before row `q` at position `y`: first by the sort, then
/// by identity, then by position (the sort is stable).
pub open spec fn row_before(sort: SortState, p: (Seq<char>, ConnectionRecord), x: int, q: (Seq<char>, ConnectionRecord), y: int) -> bool {
    let d = directed_order(sort, p.1, q.1);
    d < 0 || (d == 0 && (text_lt(p.0, q.0) || (p.0 == q.0 && x < y)))
}

/// Position `x` goes before position `y` among the shown rows.
pub open spec fn shown_before(sort: SortState, items: Seq<(Seq<char>, ConnectionRecord)>, x: int, y: int) -> bool {
    row_before(sort, items[x], x, items[y], y)
}

/// The order of the positions of the shown rows.
pub open spec fn shown_order(sort: SortState, items: Seq<(Seq<char>, ConnectionRecord)>) -> spec_fn(int, int) -> bool {
    |x: int, y: int| shown_before(sort, items, x, y)
}

/// The laws of a comparison that make it a weak order.
pub open spec fn weak_order_laws(ab: int, ba: int, bc: int, ac: int, aa: int) -> bool {
    &&& aa == 0
    &&& ab == -ba
    &&& (ab <= 0 && bc <= 0 ==> ac <= 0)
    &&& (ab <= 0 && bc <= 0 && (ab < 0 || bc < 0) ==> ac < 0)
}

proof fn lemma_text_order_laws(a: Seq<char>, b: Seq<char>, c: Seq<char>)
    ensures
        weak_order_laws(text_order(a, b), text_order(b, a), text_order(b, c), text_order(a, c), text_order(a, a)),
{
    lemma_text_lt_total(a, b);
    lemma_text_lt_total(b, c);
    lemma_text_lt_total(a, c);
    if text_lt(a, b) && text_lt(b, a) {
        lemma_text_lt_transitive(a, b, a);
        lemma_text_lt_irreflexive(a);
    }
    if text_lt(a, b) && text_lt(b, c) {
        lemma_text_lt_transitive(a, b, c);
    }
    if text_lt(a, c) && text_lt(c, a) {
        lemma_text_lt_transitive(a, c, a);
        lemma_text_lt_irreflexive(a);
    }
    if text_lt(a, b) && a == b {
        lemma_text_lt_irreflexive(a);
    }
    if text_lt(a, c) && a == c {
        lemma_text_lt_irreflexive(a);
    }
    if text_lt(b, c) && b == c {
        lemma_text_lt_irreflexive(b);
    }
    if text_lt(b, a) && a == b {
        lemma_text_lt_irreflexive(a);
    }
}

proof fn lemma_fraction_order(x1: int, y1: int, x2: int, y2: int, x3: int, y3: int)
    requires
        y1 > 0,
        y2 > 0,
        y3 > 0,
    ensures
        (x1 * y2 <= x2 * y1 && x2 * y3 <= x3 * y2 ==> x1 * y3 <= x3 * y1),
        (x1 * y2 <= x2 * y1 && x2 * y3 <= x3 * y2 && (x1 * y2 < x2 * y1 || x2 * y3 < x3 * y2) ==> x1 * y3 < x3 * y1),
{
    let d12 = x1 * y2 - x2 * y1;
    let d23 = x2 * y3 - x3 * y2;
    let d13 = x1 * y3 - x3 * y1;
    assert(y2 * d13 == y3 * d12 + y1 * d23) by (nonlinear_arith)
        requires
            d12 == x1 * y2 - x2 * y1,
            d23 == x2 * y3 - x3 * y2,
            d13 == x1 * y3 - x3 * y1;
    if d12 <= 0 && d23 <= 0 {
        assert(y3 * d12 <= 0) by (nonlinear_arith)
            requires y3 > 0, d12 <= 0;
        assert(y1 * d23 <= 0) by (nonlinear_arith)
            requires y1 > 0, d23 <= 0;
        if d12 < 0 {
            assert(y3 * d12 < 0) by (nonlinear_arith)
                requires y3 > 0, d12 < 0;
        }
        if d23 < 0 {
            assert(y1 * d23 < 0) by (nonlinear_arith)
                requires y1 > 0, d23 < 0;
        }
        assert(d13 <= 0) by (nonlinear_arith)
            requires y2 > 0, y2 * d13 <= 0;
        if d12 < 0 || d23 < 0 {
            assert(d13 < 0) by (nonlinear_arith)
                requires y2 > 0, y2 * d13 < 0;
        }
    }
}

proof fn lemma_rate_order_laws(a: Rate, b: Rate, c: Rate)
    ensures
        weak_order_laws(rate_order(a, b), rate_order(b, a), rate_order(b, c), rate_order(a, c), rate_order(a, a)),
{
    lemma_fraction_order(rate_num(a), rate_den(a), rate_num(b), rate_den(b), rate_num(c), rate_den(c));
    assert(rate_num(a) * rate_den(b) == rate_den(b) * rate_num(a)) by (nonlinear_arith);
    assert(rate_num(b) * rate_den(a) == rate_den(a) * rate_num(b)) by (nonlinear_arith);
}

proof fn lemma_text_order_all(a: Seq<char>, b: Seq<char>, c: Seq<char>)
    ensures
        weak_order_laws(text_order(a, b), text_order(b, a), text_order(b, c), text_order(a, c), text_order(a, a)),
        weak_order_laws(text_order(c, b), text_order(b, c), text_order(b, a), text_order(c, a), text_order(c, c)),
        text_order(a, c) == -text_order(c, a),
        text_order(b, b) == 0,
{
    lemma_text_order_laws(a, b, c);
    lemma_text_order_laws(c, b, a);
    lemma_text_order_laws(a, c, b);
    lemma_text_order_laws(b, a, c);
}

proof fn lemma_rate_order_all(a: Rate, b: Rate, c: Rate)
    ensures
        weak_order_laws(rate_order(a, b), rate_order(b, a), rate_order(b, c), rate_order(a, c), rate_order(a, a)),
        weak_order_laws(rate_order(c, b), rate_order(b, c), rate_order(b, a), rate_order(c, a), rate_order(c, c)),
        rate_order(a, c) == -rate_order(c, a),
        rate_order(b, b) == 0,
{
    lemma_rate_order_laws(a, b, c);
    lemma_rate_order_laws(c, b, a);
    lemma_rate_order_laws(a, c, b);
    lemma_rate_order_laws(b, a, c);
}

proof fn lemma_directed_laws(sort: SortState, a: ConnectionRecord, b: ConnectionRecord, c: ConnectionRecord)
    ensures
        weak_order_laws(directed_order(sort, a, b), directed_order(sort, b, a), directed_order(sort, b, c),
            directed_order(sort, a, c), directed_order(sort, a, a)),
{
    match sort.column {
        None => {
            lemma_text_order_all(a.entry.start@, b.entry.start@, c.entry.start@);
        }
        Some(col) => match col {
            SortColumn::Host => {
                lemma_text_order_all(host_of(a), host_of(b), host_of(c));
            }
            SortColumn::DownloadRate => {
                lemma_rate_order_all(a.download_rate, b.download_rate, c.download_rate);
            }
            SortColumn::UploadRate => {
                lemma_rate_order_all(a.upload_rate, b.upload_rate, c.upload_rate);
            }
            _ => {}
        },
    }
}

/// The order of the shown rows is a strict total order on their positions.
pub proof fn lemma_shown_order(sort: SortState, items: Seq<(Seq<char>, ConnectionRecord)>)
    ensures
        strict_total_on(shown_order(sort, items), items.len() as int),
{
    let less = shown_order(sort, items);
    let n = items.len() as int;
    assert forall|x: int| 0 <= x < n implies !#[trigger] less(x, x) by {
        lemma_directed_laws(sort, items[x].1, items[x].1, items[x].1);
        lemma_text_lt_irreflexive(items[x].0);
    }
    assert forall|x: int, y: int, z: int|
        0 <= x < n && 0 <= y < n && 0 <= z < n && #[trigger] less(x, y) && #[trigger] less(y, z) implies less(x, z) by {
        let (a, b, c) = (items[x], items[y], items[z]);
        lemma_directed_laws(sort, a.1, b.1, c.1);
        lemma_directed_laws(sort, c.1, b.1, a.1);
        lemma_directed_laws(sort, b.1, a.1, c.1);
        if text_lt(a.0, b.0) && text_lt(b.0, c.0) {
            lemma_text_lt_transitive(a.0, b.0, c.0);
        }
    }
    assert forall|x: int, y: int| #![trigger less(x, y)] 0 <= x < n && 0 <= y < n && x != y implies less(x, y) || less(y, x) by {
        lemma_directed_laws(sort, items[x].1, items[y].1, items[x].1);
        lemma_text_lt_total(items[x].0, items[y].0);
    }
}

fn text_order_exec(a: &Vec<char>, b: &Vec<char>) -> (r: i8)
    ensures
        r as int == text_order(a@, b@),
{
    let lt = text_less(a, b);
    let gt = text_less(b, a);
    proof {
        lemma_text_lt_total(a@, b@);
        if lt && a@ == b@ {
            lemma_text_lt_irreflexive(a@);
        }
        if gt && a@ == b@ {
            lemma_text_lt_irreflexive(a@);
        }
    }
    if lt {
        -1
    } else if gt {
        1
    } else {
        0
    }
}

fn rate_order_exec(a: Rate, b: Rate) -> (r: i8)
    ensures
        r as int == rate_order(a, b),
{
    let an: u128 = if a.nanos == 0 { 0 } else { a.bytes as u128 };
    let ad: u128 = if a.nanos == 0 { 1 } else { a.nanos as u128 };
    let bn: u128 = if b.nanos == 0 { 0 } else { b.bytes as u128 };
    let bd: u128 = if b.nanos == 0 { 1 } else { b.nanos as u128 };
    assert(an * bd <= u64::MAX as int * u64::MAX as int) by (nonlinear_arith)
        requires an <= u64::MAX, bd <= u64::MAX;
    assert(bn * ad <= u64::MAX as int * u64::MAX as int) by (nonlinear_arith)
        requires bn <= u64::MAX, ad <= u64::MAX;
    let l = an * bd;
    let m = bn * ad;
    if l < m {
        -1
    } else if l == m {
        0
    } else {
        1
    }
}

fn num_order_exec(a: u64, b: u64) -> (r: i8)
    ensures
        r as int == num_order(a as int, b as int),
{
    if a < b {
        -1
    } else if a == b {
        0
    } else {
        1
    }
}

/// The text a row is sorted by under a sort: the start time with no column, the host for
/// the host column; nothing for the others.
pub open spec fn sort_text(sort: SortState, r: ConnectionRecord) -> Seq<char> {
    match sort.column {
        None => r.entry.start@,
        Some(SortColumn::Host) => host_of(r),
        Some(_) => Seq::empty(),
    }
}

fn sort_text_of(sort: SortState, r: &ConnectionRecord) -> (t: Vec<char>)
    ensures
        t@ == sort_text(sort, *r),
{
    match sort.column {
        None => chars_of(r.entry.start.as_str()),
        Some(SortColumn::Host) => chars_of(connection_host(r)),
        Some(_) => Vec::new(),
    }
}

fn directed_order_exec(sort: SortState, a: &ConnectionRecord, at: &Vec<char>, b: &ConnectionRecord, bt: &Vec<char>) -> (r: i8)
    requires
        at@ == sort_text(sort, *a),
        bt@ == sort_text(sort, *b),
    ensures
        r as int == directed_order(sort, *a, *b),
{
    match sort.column {
        None => text_order_exec(bt, at),
        Some(c) => {
            let v = match c {
                SortColumn::Host => text_order_exec(at, bt),
                SortColumn::DownloadRate => rate_order_exec(a.download_rate, b.download_rate),
                SortColumn::UploadRate => rate_order_exec(a.upload_rate, b.upload_rate),
                SortColumn::Download => num_order_exec(a.entry.download, b.entry.download),
                SortColumn::Upload => num_order_exec(a.entry.upload, b.entry.upload),
            };
            if sort.direction == SortDirection::Asc { v } else { -v }
        }
    }
}

/// A row of the table: its identity and the connection it shows.
#[derive(Debug)]
pub struct VisibleConnection<'a> {
    pub identity: String,
    pub record: &'a ConnectionRecord,
}

/// A visible row as an identity and a record.
pub open spec fn visible_view<'a>(v: VisibleConnection<'a>) -> (Seq<char>, ConnectionRecord) {
    (v.identity@, *v.record)
}

/// The rows of the table: those of the selected tab that match the filter, ordered by the
/// sort, then by identity, then by their place in the list.
pub fn visible_connections<'a>(state: &'a ConnectionsViewState) -> (r: Vec<VisibleConnection<'a>>)
    ensures
        r@.len() == shown_items(*state).len(),
        exists|order: Seq<usize>| #![trigger order.len()]
            order.len() == r@.len()
            && order.no_duplicates()
            && (forall|k: int| 0 <= k < order.len() ==> #[trigger] order[k] < r@.len())
            && ordered_by(shown_order(state.sort, shown_items(*state)), order)
            && (forall|k: int| 0 <= k < order.len() ==> visible_view(#[trigger] r@[k]) == shown_items(*state)[order[k] as int]),
        forall|a: int, b: int| 0 <= a < b < r@.len() ==> {
            let x = *(#[trigger] r@[a]).record;
            let y = *(#[trigger] r@[b]).record;
            &&& state.sort == (SortState { column: Some(SortColumn::Upload), direction: SortDirection::Asc }) ==> x.entry.upload <= y.entry.upload
            &&& state.sort == (SortState { column: Some(SortColumn::Upload), direction: SortDirection::Desc }) ==> x.entry.upload >= y.entry.upload
            &&& state.sort == (SortState { column: Some(SortColumn::Download), direction: SortDirection::Asc }) ==> x.entry.download <= y.entry.download
            &&& state.sort == (SortState { column: Some(SortColumn::Download), direction: SortDirection::Desc }) ==> x.entry.download >= y.entry.download
        },
{
    let q = ascii_lower_chars(&chars_of(state.query.as_str()));
    let ghost pred = shown_filter(q@);
    let ghost all = tab_items(*state);
    let mut items: Vec<VisibleConnection<'a>> = Vec::new();
    let n: usize = match state.selected_tab {
        ConnectionTab::Active => state.active_by_id.len(),
        ConnectionTab::Closed => state.closed.len(),
    };
    let mut i: usize = 0;
    proof { assert(all.subrange(0, 0).filter(pred) =~= Seq::<(Seq<char>, ConnectionRecord)>::empty()); }
    while i < n
        invariant
            i <= n,
            n == all.len(),
            all == tab_items(*state),
            q@ == ascii_lower(state.query@),
            pred == shown_filter(ascii_lower(state.query@)),
            items@.len() == all.subrange(0, i as int).filter(pred).len(),
            forall|k: int| 0 <= k < items@.len() ==> visible_view(#[trigger] items@[k]) == all.subrange(0, i as int).filter(pred)[k],
        decreases n - i,
    {
        let ghost before = all.subrange(0, i as int).filter(pred);
        proof {
            assert(all.subrange(0, i + 1).drop_last() =~= all.subrange(0, i as int));
        }
        let item = match state.selected_tab {
            ConnectionTab::Active => {
                let rec = &state.active_by_id[i];
                VisibleConnection { identity: rec.entry.id.clone(), record: rec }
            }
            ConnectionTab::Closed => {
                let c = &state.closed[i];
                VisibleConnection { identity: history_identity_text(c.history_id), record: &c.record }
            }
        };
        proof {
            assert(visible_view(item) == all[i as int]);
            assert(all.subrange(0, i + 1) =~= all.subrange(0, i as int).push(all[i as int]));
            all.subrange(0, i as int).lemma_filter_push(all[i as int], pred);
        }
        let keep = matches_query_normalized(item.record, &q);
        proof { assert(keep == pred(all[i as int])); }
        if keep {
            items.push(item);
            proof {
                assert(all.subrange(0, i + 1).filter(pred) == before.push(all[i as int]));
            }
        } else {
            proof {
                assert(all.subrange(0, i + 1).filter(pred) == before);
            }
        }
        i = i + 1;
    }
    proof { assert(all.subrange(0, n as int) =~= all); }
    let ghost shown = shown_items(*state);
    assert(items@.len() == shown.len());
    let ghost less = shown_order(state.sort, shown);
    proof { lemma_shown_order(state.sort, shown); }
    let mut texts: Vec<Vec<char>> = Vec::new();
    let mut ids: Vec<Vec<char>> = Vec::new();
    let mut j: usize = 0;
    while j < items.len()
        invariant
            j <= items.len(),
            texts@.len() == j,
            ids@.len() == j,
            forall|k: int| 0 <= k < j ==> #[trigger] texts@[k]@ == sort_text(state.sort, *items@[k].record),
            forall|k: int| 0 <= k < j ==> #[trigger] ids@[k]@ == items@[k].identity@,
        decreases items.len() - j,
    {
        texts.push(sort_text_of(state.sort, items[j].record));
        ids.push(chars_of(items[j].identity.as_str()));
        j = j + 1;
    }
    let mut order: Vec<usize> = Vec::new();
    let mut i: usize = 0;
    while i < items.len()
        invariant
            i <= items@.len(),
            items@.len() == shown.len(),
            texts@.len() == items@.len(),
            ids@.len() == items@.len(),
            forall|k: int| 0 <= k < items@.len() ==> #[trigger] texts@[k]@ == sort_text(state.sort, *items@[k].record),
            forall|k: int| 0 <= k < items@.len() ==> #[trigger] ids@[k]@ == items@[k].identity@,
            forall|k: int| 0 <= k < items@.len() ==> visible_view(#[trigger] items@[k]) == shown[k],
            less == shown_order(state.sort, shown),
            strict_total_on(less, shown.len() as int),
            forall|k: int| 0 <= k < order.len() ==> #[trigger] order@[k] < i,
            forall|t: int| 0 <= t < i ==> #[trigger] order@.contains(t as usize),
            ordered_by(less, order@),
        decreases items@.len() - i,
    {
        let mut p: usize = 0;
        loop
            invariant
                p <= order.len(),
                i < items@.len(),
                items@.len() == shown.len(),
                texts@.len() == items@.len(),
                ids@.len() == items@.len(),
                forall|k: int| 0 <= k < items@.len() ==> #[trigger] texts@[k]@ == sort_text(state.sort, *items@[k].record),
                forall|k: int| 0 <= k < items@.len() ==> #[trigger] ids@[k]@ == items@[k].identity@,
                forall|k: int| 0 <= k < items@.len() ==> visible_view(#[trigger] items@[k]) == shown[k],
                less == shown_order(state.sort, shown),
                forall|k: int| 0 <= k < order.len() ==> #[trigger] order@[k] < i,
                forall|k: int| 0 <= k < p ==> !less(i as int, #[trigger] order@[k] as int),
            ensures
                p <= order.len(),
                forall|k: int| 0 <= k < p ==> !less(i as int, #[trigger] order@[k] as int),
                p < order.len() ==> less(i as int, order@[p as int] as int),
            decreases order.len() - p,
        {
            if p == order.len() {
                break;
            }
            let o = order[p];
            let d = directed_order_exec(state.sort, items[i].record, &texts[i], items[o].record, &texts[o]);
            let before = d < 0 || (d == 0 && (text_less(&ids[i], &ids[o]) || (!text_less(&ids[o], &ids[i]) && i < o)));
            proof {
                assert(visible_view(items@[i as int]) == shown[i as int]);
                assert(visible_view(items@[o as int]) == shown[o as int]);
                lemma_text_lt_total(ids@[i as int]@, ids@[o as int]@);
                if text_lt(ids@[i as int]@, ids@[o as int]@) && ids@[i as int]@ == ids@[o as int]@ {
                    lemma_text_lt_irreflexive(ids@[i as int]@);
                }
                assert(before == less(i as int, o as int));
            }
            if before {
                break;
            }
            p = p + 1;
        }
        let ghost prev = order@;
        order.insert(p, i);
        proof { lemma_insert_ordered(less, shown.len() as int, prev, order@, p as int, i); }
        i = i + 1;
    }
    proof {
        lemma_ordered_positions_complete(less, order@, shown.len());
    }
    let mut out: Vec<VisibleConnection<'a>> = Vec::new();
    let mut k: usize = 0;
    while k < order.len()
        invariant
            k <= order.len(),
            order@.len() == items@.len(),
            forall|t: int| 0 <= t < order.len() ==> #[trigger] order@[t] < items@.len(),
            forall|t: int| 0 <= t < items@.len() ==> visible_view(#[trigger] items@[t]) == shown[t],
            out@.len() == k,
            forall|t: int| 0 <= t < k ==> visible_view(#[trigger] out@[t]) == shown[order@[t] as int],
        decreases order.len() - k,
    {
        let item = &items[order[k]];
        out.push(VisibleConnection { identity: item.identity.clone(), record: item.record });
        proof { assert(visible_view(items@[order@[k as int] as int]) == shown[order@[k as int] as int]); }
        k = k + 1;
    }
    proof {
        assert(order@.len() == out@.len());
        law_sorted_rows_follow_column(state.sort, shown, order@);
        assert forall|a: int, b: int| 0 <= a < b < out@.len() implies {
            let x = *(#[trigger] out@[a]).record;
            let y = *(#[trigger] out@[b]).record;
            &&& state.sort == (SortState { column: Some(SortColumn::Upload), direction: SortDirection::Asc }) ==> x.entry.upload <= y.entry.upload
            &&& state.sort == (SortState { column: Some(SortColumn::Upload), direction: SortDirection::Desc }) ==> x.entry.upload >= y.entry.upload
            &&& state.sort == (SortState { column: Some(SortColumn::Download), direction: SortDirection::Asc }) ==> x.entry.download <= y.entry.download
            &&& state.sort == (SortState { column: Some(SortColumn::Download), direction: SortDirection::Desc }) ==> x.entry.download >= y.entry.download
        } by {
            assert(visible_view(out@[a]) == shown[order@[a] as int]);
            assert(visible_view(out@[b]) == shown[order@[b] as int]);
        }
    }
    out
}

/// Under a sort on a column, rows placed earlier never come after later ones by that
/// column: ascending, the upload counter, the download counter, the rates (as fractions of
/// bytes over time) and the host text never decrease down the table; descending, they
/// never increase. `order` lists positions of `items` as the sort places them.
pub proof fn law_sorted_rows_follow_column(sort: SortState, items: Seq<(Seq<char>, ConnectionRecord)>, order: Seq<usize>)
    requires
        ordered_by(shown_order(sort, items), order),
        forall|k: int| 0 <= k < order.len() ==> #[trigger] order[k] < items.len(),
    ensures
        forall|a: int, b: int| #![trigger order[a], order[b]] 0 <= a < b < order.len() ==> {
            let x = items[order[a] as int].1;
            let y = items[order[b] as int].1;
            let asc = sort.direction == SortDirection::Asc;
            &&& sort.column == Some(SortColumn::Upload) ==>
                (if asc { x.entry.upload <= y.entry.upload } else { x.entry.upload >= y.entry.upload })
            &&& sort.column == Some(SortColumn::Download) ==>
                (if asc { x.entry.download <= y.entry.download } else { x.entry.download >= y.entry.download })
            &&& sort.column == Some(SortColumn::UploadRate) ==> (if asc {
                    rate_num(x.upload_rate) * rate_den(y.upload_rate) <= rate_num(y.upload_rate) * rate_den(x.upload_rate)
                } else {
                    rate_num(x.upload_rate) * rate_den(y.upload_rate) >= rate_num(y.upload_rate) * rate_den(x.upload_rate)
                })
            &&& sort.column == Some(SortColumn::DownloadRate) ==> (if asc {
                    rate_num(x.download_rate) * rate_den(y.download_rate) <= rate_num(y.download_rate) * rate_den(x.download_rate)
                } else {
                    rate_num(x.download_rate) * rate_den(y.download_rate) >= rate_num(y.download_rate) * rate_den(x.download_rate)
                })
            &&& sort.column == Some(SortColumn::Host) ==>
                (if asc { !text_lt(host_of(y), host_of(x)) } else { !text_lt(host_of(x), host_of(y)) })
        },
{
    assert forall|a: int, b: int| #![trigger order[a], order[b]] 0 <= a < b < order.len() implies {
        let x = items[order[a] as int].1;
        let y = items[order[b] as int].1;
        let asc = sort.direction == SortDirection::Asc;
        &&& sort.column == Some(SortColumn::Upload) ==>
            (if asc { x.entry.upload <= y.entry.upload } else { x.entry.upload >= y.entry.upload })
        &&& sort.column == Some(SortColumn::Download) ==>
            (if asc { x.entry.download <= y.entry.download } else { x.entry.download >= y.entry.download })
        &&& sort.column == Some(SortColumn::UploadRate) ==> (if asc {
                rate_num(x.upload_rate) * rate_den(y.upload_rate) <= rate_num(y.upload_rate) * rate_den(x.upload_rate)
            } else {
                rate_num(x.upload_rate) * rate_den(y.upload_rate) >= rate_num(y.upload_rate) * rate_den(x.upload_rate)
            })
        &&& sort.column == Some(SortColumn::DownloadRate) ==> (if asc {
                rate_num(x.download_rate) * rate_den(y.download_rate) <= rate_num(y.download_rate) * rate_den(x.download_rate)
            } else {
                rate_num(x.download_rate) * rate_den(y.download_rate) >= rate_num(y.download_rate) * rate_den(x.download_rate)
            })
        &&& sort.column == Some(SortColumn::Host) ==>
            (if asc { !text_lt(host_of(y), host_of(x)) } else { !text_lt(host_of(x), host_of(y)) })
    } by {
        let i = order[a] as int;
        let j = order[b] as int;
        assert(shown_order(sort, items)(i, j));
        assert(shown_before(sort, items, i, j));
        let x = items[i].1;
        let y = items[j].1;
        assert(directed_order(sort, x, y) <= 0);
        if sort.column == Some(SortColumn::Host) {
            lemma_text_lt_total(host_of(x), host_of(y));
            if text_lt(host_of(x), host_of(y)) && text_lt(host_of(y), host_of(x)) {
                lemma_text_lt_transitive(host_of(x), host_of(y), host_of(x));
                lemma_text_lt_irreflexive(host_of(x));
            }
            if host_of(x) == host_of(y) && (text_lt(host_of(x), host_of(y)) || text_lt(host_of(y), host_of(x))) {
                lemma_text_lt_irreflexive(host_of(x));
            }
        }
    }
}

// ---------------------------------------------------------------------------
// Rows and details

/// The parts of the second line of a row: the connection type, the network, the first
/// proxy of the chain and the rule with its payload, each only when present.
pub open spec fn secondary_parts(r: ConnectionRecord) -> Seq<Seq<char>> {
    (if r.entry.metadata.type_@.len() > 0 { seq![r.entry.metadata.type_@] } else { Seq::empty() })
        + (if r.entry.metadata.network@.len() > 0 { seq![r.entry.metadata.network@] } else { Seq::empty() })
        + (if r.entry.chains@.len() > 0 { seq![r.entry.chains@[0]@] } else { Seq::empty() })
        + (if r.entry.rule@.len() > 0 { seq![r.entry.rule@ + ": "@ + r.entry.rule_payload@] } else { Seq::empty() })
}

/// The second line of a row: its parts joined by ` · `.
pub open spec fn secondary_of(r: ConnectionRecord) -> Seq<char> {
    join_with(secondary_parts(r), " · "@)
}

/// The second line of a row.
pub fn secondary_text(record: &ConnectionRecord) -> (r: String)
    ensures
        r@ == secondary_of(*record),
{
    let mut values: Vec<String> = Vec::new();
    let meta = &record.entry.metadata;
    if !meta.type_.as_str().is_empty() {
        values.push(meta.type_.clone());
    }
    let ghost a = texts_view(values@);
    if !meta.network.as_str().is_empty() {
        values.push(meta.network.clone());
    }
    let ghost b = texts_view(values@);
    if record.entry.chains.len() > 0 {
        values.push(record.entry.chains[0].clone());
    }
    let ghost c = texts_view(values@);
    if !record.entry.rule.as_str().is_empty() {
        let mut rule = record.entry.rule.clone();
        push_text(&mut rule, ": ");
        push_text(&mut rule, record.entry.rule_payload.as_str());
        values.push(rule);
    }
    proof {
        let m = record.entry.metadata;
        let p1: Seq<Seq<char>> = if m.type_@.len() > 0 { seq![m.type_@] } else { Seq::empty() };
        let p2: Seq<Seq<char>> = if m.network@.len() > 0 { seq![m.network@] } else { Seq::empty() };
        let p3: Seq<Seq<char>> = if record.entry.chains@.len() > 0 { seq![record.entry.chains@[0]@] } else { Seq::empty() };
        assert(a =~= p1);
        assert(b =~= p1 + p2);
        assert(c =~= p1 + p2 + p3);
        assert(texts_view(values@) =~= secondary_parts(*record));
    }
    join_texts(&values, " · ")
}

/// The first line of a row: the process, an arrow, the host.
pub open spec fn title_of(r: ConnectionRecord) -> Seq<char> {
    r.entry.metadata.process@ + " → "@ + host_of(r)
}

/// A row of the table as plain values; the rates and byte counts are formatted for
/// display by the caller.
#[derive(Debug, Clone, PartialEq, Eq)]
pub struct ConnectionRow {
    pub id: String,
    pub title: String,
    pub secondary: String,
    pub download_rate: Rate,
    pub upload_rate: Rate,
    pub download: u64,
    pub upload: u64,
}

/// `row` shows the row `item`.
pub open spec fn row_shows(row: ConnectionRow, item: (Seq<char>, ConnectionRecord)) -> bool {
    &&& row.id@ == item.0
    &&& row.title@ == title_of(item.1)
    &&& row.secondary@ == secondary_of(item.1)
    &&& row.download_rate == item.1.download_rate
    &&& row.upload_rate == item.1.upload_rate
    &&& row.download == item.1.entry.download
    &&& row.upload == item.1.entry.upload
}

fn row_of(v: &VisibleConnection) -> (r: ConnectionRow)
    ensures
        row_shows(r, visible_view(*v)),
{
    let mut title = String::new();
    push_text(&mut title, v.record.entry.metadata.process.as_str());
    push_text(&mut title, " → ");
    push_text(&mut title, connection_host(v.record));
    proof { assert(title@ =~= title_of(*v.record)); }
    ConnectionRow {
        id: v.identity.clone(),
        title,
        secondary: secondary_text(v.record),
        download_rate: v.record.download_rate,
        upload_rate: v.record.upload_rate,
        download: v.record.entry.download,
        upload: v.record.entry.upload,
    }
}

/// The rows of the table in display order, as `visible_connections` orders them.
pub fn project_rows(state: &ConnectionsViewState) -> (r: Vec<ConnectionRow>)
    ensures
        r@.len() == shown_items(*state).len(),
        exists|order: Seq<usize>| #![trigger order.len()]
            order.len() == r@.len()
            && order.no_duplicates()
            && (forall|k: int| 0 <= k < order.len() ==> #[trigger] order[k] < r@.len())
            && ordered_by(shown_order(state.sort, shown_items(*state)), order)
            && (forall|k: int| 0 <= k < order.len() ==> row_shows(#[trigger] r@[k], shown_items(*state)[order[k] as int])),
{
    let visible = visible_connections(state);
    let mut rows: Vec<ConnectionRow> = Vec::new();
    let mut k: usize = 0;
    while k < visible.len()
        invariant
            k <= visible.len(),
            rows@.len() == k,
            forall|t: int| 0 <= t < k ==> row_shows(#[trigger] rows@[t], visible_view(visible@[t])),
        decreases visible.len() - k,
    {
        rows.push(row_of(&visible[k]));
        k = k + 1;
    }
    proof {
        let shown = shown_items(*state);
        let order = choose|order: Seq<usize>| #![trigger order.len()]
            order.len() == visible@.len()
            && order.no_duplicates()
            && (forall|k: int| 0 <= k < order.len() ==> #[trigger] order[k] < visible@.len())
            && ordered_by(shown_order(state.sort, shown), order)
            && (forall|k: int| 0 <= k < order.len() ==> visible_view(#[trigger] visible@[k]) == shown[order[k] as int]);
        assert(order.len() == rows@.len());
        assert forall|t: int| 0 <= t < order.len() implies row_shows(#[trigger] rows@[t], shown[order[t] as int]) by {
            assert(visible_view(visible@[t]) == shown[order[t] as int]);
        }
    }
    rows
}

/// The pretty-printed JSON array of some strings, as `serde_json::to_string_pretty`
/// writes it: `[]` when there are none; otherwise `[`, each string quoted on a line of its
/// own indented by two spaces, the lines ended by `,` but the last, and `]` on a line of
/// its own.
pub open spec fn json_pretty_texts(items: Seq<Seq<char>>) -> Seq<char> {
    if items.len() == 0 {
        seq!['[', ']']
    } else {
        seq!['['] + join_with(items.map_values(|s: Seq<char>| seq!['\n', ' ', ' ', '"'] + json_chars(s) + seq!['"']), seq![','])
            + seq!['\n', ']']
    }
}

/// The strings as a pretty-printed JSON array.
///
/// Trusted: calls `serde_json::to_string_pretty` on the list; the contract states its
/// output as `json_pretty_texts` says, as serde_json's `PrettyFormatter` (two-space
/// indent) and its string escaping write it. Writing a list of strings cannot fail, so
/// the fallback to an empty text is never taken.
#[verifier::external_body]
fn pretty_json_list(items: &Vec<String>) -> (r: String)
    ensures
        r@ == json_pretty_texts(texts_view(items@)),
{
    serde_json::to_string_pretty(items).unwrap_or_default()
}

/// The geographic information of an address as shown in the detail: the JSON array, or
/// nothing when the core sent none.
pub open spec fn geo_text(g: Option<Vec<String>>) -> Seq<char> {
    match g {
        Some(v) => json_pretty_texts(texts_view(v@)),
        None => Seq::empty(),
    }
}

fn geo_field(g: &Option<Vec<String>>) -> (r: String)
    ensures
        r@ == geo_text(*g),
{
    match g {
        Some(v) => pretty_json_list(v),
        None => String::new(),
    }
}

fn decimal_text(n: u64) -> (r: String)
    ensures
        r@ == decimal(n as nat),
{
    let mut s = String::new();
    push_decimal(&mut s, n);
    proof { assert(s@ =~= decimal(n as nat)); }
    s
}

/// The fields of the entry itself in the detail panel.
pub open spec fn entry_detail_rows(e: ConnEntry) -> Seq<(Seq<char>, Seq<char>)> {
    seq![
        ("连接 ID"@, e.id@),
        ("已上传"@, decimal(e.upload as nat)),
        ("已下载"@, decimal(e.download as nat)),
        ("建立时间"@, e.start@),
        ("代理链"@, join_with(texts_view(e.chains@), " → "@)),
        ("代理提供者链"@, join_with(texts_view(e.provider_chains@), " → "@)),
        ("匹配规则"@, e.rule@),
        ("规则内容"@, e.rule_payload@),
    ]
}

/// The fields of the connection's metadata in the detail panel, in a fixed order.
pub open spec fn meta_detail_rows(m: crate::clash::api::ConnMeta) -> Seq<(Seq<char>, Seq<char>)> {
    seq![
        ("网络协议"@, m.network@),
        ("连接类型"@, m.type_@),
        ("源 IP"@, m.source_ip@),
        ("目标 IP"@, m.destination_ip@),
        ("源 IP 地理信息"@, geo_text(m.source_geo_ip)),
        ("目标 IP 地理信息"@, geo_text(m.destination_geo_ip)),
        ("源 IP ASN"@, m.source_ip_asn@),
        ("目标 IP ASN"@, m.destination_ip_asn@),
        ("源端口"@, m.source_port@),
        ("目标端口"@, m.destination_port@),
        ("入站 IP"@, m.inbound_ip@),
        ("入站端口"@, m.inbound_port@),
        ("入站名称"@, m.inbound_name@),
        ("入站用户"@, m.inbound_user@),
        ("重匹配名称"@, m.rematch_name@),
        ("目标主机"@, m.host@),
        ("DNS 模式"@, m.dns_mode@),
        ("用户 ID"@, decimal(m.uid as nat)),
        ("进程名称"@, m.process@),
        ("进程路径"@, m.process_path@),
        ("特殊代理"@, m.special_proxy@),
        ("特殊规则"@, m.special_rules@),
        ("远程目标"@, m.remote_destination@),
        ("DSCP"@, decimal(m.dscp as nat)),
        ("嗅探主机"@, m.sniff_host@),
    ]
}

/// Every field of the detail panel, labelled: the entry, its metadata, then the two rates
/// as the caller formatted them. Fields the core sent beyond these are not shown.
pub open spec fn detail_rows(r: ConnectionRecord, upload_rate: Seq<char>, download_rate: Seq<char>) -> Seq<(Seq<char>, Seq<char>)> {
    entry_detail_rows(r.entry) + meta_detail_rows(r.entry.metadata)
        + seq![("上传速度"@, upload_rate), ("下载速度"@, download_rate)]
}

/// A label and a value as texts.
pub open spec fn field_view(f: (String, String)) -> (Seq<char>, Seq<char>) {
    (f.0@, f.1@)
}

/// The views of a list of labelled fields.
pub open spec fn fields_view(v: Seq<(String, String)>) -> Seq<(Seq<char>, Seq<char>)> {
    v.map_values(|f: (String, String)| field_view(f))
}

fn push_field(fields: &mut Vec<(String, String)>, label: &str, value: String)
    ensures
        fields_view(final(fields)@) == fields_view(old(fields)@).push((label@, value@)),
{
    fields.push((label.to_string(), value));
    proof { assert(fields_view(fields@) =~= fields_view(old(fields)@).push((label@, value@))); }
}

fn entry_fields(fields: &mut Vec<(String, String)>, e: &ConnEntry)
    ensures
        fields_view(final(fields)@) == fields_view(old(fields)@) + entry_detail_rows(*e),
{
    push_field(fields, "连接 ID", e.id.clone());
    push_field(fields, "已上传", decimal_text(e.upload));
    push_field(fields, "已下载", decimal_text(e.download));
    push_field(fields, "建立时间", e.start.clone());
    push_field(fields, "代理链", join_texts(&e.chains, " → "));
    push_field(fields, "代理提供者链", join_texts(&e.provider_chains, " → "));
    push_field(fields, "匹配规则", e.rule.clone());
    push_field(fields, "规则内容", e.rule_payload.clone());
    proof { assert(fields_view(fields@) =~= fields_view(old(fields)@) + entry_detail_rows(*e)); }
}

fn meta_fields(fields: &mut Vec<(String, String)>, m: &crate::clash::api::ConnMeta)
    ensures
        fields_view(final(fields)@) == fields_view(old(fields)@) + meta_detail_rows(*m),
{
    push_field(fields, "网络协议", m.network.clone());
    push_field(fields, "连接类型", m.type_.clone());
    push_field(fields, "源 IP", m.source_ip.clone());
    push_field(fields, "目标 IP", m.destination_ip.clone());
    push_field(fields, "源 IP 地理信息", geo_field(&m.source_geo_ip));
    push_field(fields, "目标 IP 地理信息", geo_field(&m.destination_geo_ip));
    push_field(fields, "源 IP ASN", m.source_ip_asn.clone());
    push_field(fields, "目标 IP ASN", m.destination_ip_asn.clone());
    push_field(fields, "源端口", m.source_port.clone());
    push_field(fields, "目标端口", m.destination_port.clone());
    push_field(fields, "入站 IP", m.inbound_ip.clone());
    push_field(fields, "入站端口", m.inbound_port.clone());
    push_field(fields, "入站名称", m.inbound_name.clone());
    let ghost mid = fields_view(fields@);
    push_field(fields, "入站用户", m.inbound_user.clone());
    push_field(fields, "重匹配名称", m.rematch_name.clone());
    push_field(fields, "目标主机", m.host.clone());
    push_field(fields, "DNS 模式", m.dns_mode.clone());
    push_field(fields, "用户 ID", decimal_text(m.uid));
    push_field(fields, "进程名称", m.process.clone());
    push_field(fields, "进程路径", m.process_path.clone());
    push_field(fields, "特殊代理", m.special_proxy.clone());
    push_field(fields, "特殊规则", m.special_rules.clone());
    push_field(fields, "远程目标", m.remote_destination.clone());
    push_field(fields, "DSCP", decimal_text(m.dscp as u64));
    push_field(fields, "嗅探主机", m.sniff_host.clone());
    proof { assert(fields_view(fields@) =~= fields_view(old(fields)@) + meta_detail_rows(*m)); }
}

/// The labelled fields of the detail panel of a connection; the two rates come formatted
/// by the caller.
pub fn detail_fields(record: &ConnectionRecord, upload_rate: &str, download_rate: &str) -> (r: Vec<(String, String)>)
    ensures
        fields_view(r@) == detail_rows(*record, upload_rate@, download_rate@),
{
    let mut fields: Vec<(String, String)> = Vec::new();
    entry_fields(&mut fields, &record.entry);
    meta_fields(&mut fields, &record.entry.metadata);
    push_field(&mut fields, "上传速度", upload_rate.to_string());
    push_field(&mut fields, "下载速度", download_rate.to_string());
    proof {
        assert(fields_view(Seq::<(String, String)>::empty()) =~= Seq::<(Seq<char>, Seq<char>)>::empty());
        assert(fields_view(fields@) =~= detail_rows(*record, upload_rate@, download_rate@));
    }
    fields
}

} // verus!
