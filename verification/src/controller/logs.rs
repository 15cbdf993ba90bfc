//! The log page: the records received from the core (the latest `MAX_LOG_RECORDS` of
//! them), the tab and level filters, the search text and the pause switch.
use vstd::prelude::*;
use std::collections::VecDeque;
use crate::clash::api::LogLine;
use crate::constants::MAX_LOG_RECORDS;
use crate::text::{ascii_lowercase_is, ascii_lowercase_eq, lowercase, to_lowercase, contains_text, find_text, chars_of};

verus! {

broadcast use vstd::std_specs::vecdeque::group_vec_dequeue_axioms;

/// The level of a log record.
#[derive(Debug, Clone, Copy, PartialEq, Eq, Structural)]
pub enum LogLevel {
    Error,
    Warning,
    Info,
    Debug,
}

/// The level named by a level text, compared without ASCII case; `warn` and `warning`
/// both name `Warning`.
pub open spec fn parsed_level(s: Seq<char>) -> Option<LogLevel> {
    if ascii_lowercase_is(s, "error"@) {
        Some(LogLevel::Error)
    } else if ascii_lowercase_is(s, "warning"@) || ascii_lowercase_is(s, "warn"@) {
        Some(LogLevel::Warning)
    } else if ascii_lowercase_is(s, "info"@) {
        Some(LogLevel::Info)
    } else if ascii_lowercase_is(s, "debug"@) {
        Some(LogLevel::Debug)
    } else {
        None
    }
}

impl LogLevel {
    /// How severe the level is: `Debug` 0 up to `Error` 3.
    pub open spec fn severity_of(self) -> u8 {
        match self {
            LogLevel::Debug => 0,
            LogLevel::Info => 1,
            LogLevel::Warning => 2,
            LogLevel::Error => 3,
        }
    }

    /// The label shown in the level column.
    pub open spec fn label_of(self) -> Seq<char> {
        match self {
            LogLevel::Error => "ERROR"@,
            LogLevel::Warning => "WARN"@,
            LogLevel::Info => "INFO"@,
            LogLevel::Debug => "DEBUG"@,
        }
    }

    /// The position of the level in the level drop-down.
    pub open spec fn index_of(self) -> i32 {
        match self {
            LogLevel::Error => 0,
            LogLevel::Warning => 1,
            LogLevel::Info => 2,
            LogLevel::Debug => 3,
        }
    }

    /// The level named by `value`, if any.
    pub fn parse(value: &str) -> (r: Option<LogLevel>)
        ensures
            r == parsed_level(value@),
    {
        if ascii_lowercase_eq(value, "error") {
            Some(LogLevel::Error)
        } else if ascii_lowercase_eq(value, "warning") || ascii_lowercase_eq(value, "warn") {
            Some(LogLevel::Warning)
        } else if ascii_lowercase_eq(value, "info") {
            Some(LogLevel::Info)
        } else if ascii_lowercase_eq(value, "debug") {
            Some(LogLevel::Debug)
        } else {
            None
        }
    }

    /// How severe the level is.
    pub fn severity(self) -> (r: u8)
        ensures
            r == self.severity_of(),
    {
        match self {
            LogLevel::Debug => 0,
            LogLevel::Info => 1,
            LogLevel::Warning => 2,
            LogLevel::Error => 3,
        }
    }

    /// The label shown in the level column.
    pub fn label(self) -> (r: &'static str)
        ensures
            r@ == self.label_of(),
    {
        match self {
            LogLevel::Error => "ERROR",
            LogLevel::Warning => "WARN",
            LogLevel::Info => "INFO",
            LogLevel::Debug => "DEBUG",
        }
    }

    /// The position of the level in the level drop-down.
    pub fn index(self) -> (r: i32)
        ensures
            r == self.index_of(),
    {
        match self {
            LogLevel::Error => 0,
            LogLevel::Warning => 1,
            LogLevel::Info => 2,
            LogLevel::Debug => 3,
        }
    }
}

/// One kept log record, numbered in the order of arrival.
#[derive(Debug, Clone, PartialEq, Eq)]
pub struct LogRecord {
    pub sequence: u64,
    pub time: String,
    pub level: LogLevel,
    pub message: String,
    pub message_lowercase: String,
}

/// What a record shows: its number, time, level and message.
pub type RecordView = (u64, Seq<char>, LogLevel, Seq<char>);

impl View for LogRecord {
    type V = RecordView;

    open spec fn view(&self) -> RecordView {
        (self.sequence, self.time@, self.level, self.message@)
    }
}

impl LogRecord {
    /// The record keeps the lower case of its message for searching.
    pub open spec fn wf(&self) -> bool {
        self.message_lowercase@ == lowercase(self.message@)
    }

    /// A field-by-field copy.
    pub fn duplicate(&self) -> (r: LogRecord)
        ensures
            r == *self,
    {
        LogRecord {
            sequence: self.sequence,
            time: self.time.clone(),
            level: self.level,
            message: self.message.clone(),
            message_lowercase: self.message_lowercase.clone(),
        }
    }

    fn message_matches(&self, query_lowercase: &Vec<char>) -> (r: bool)
        requires
            self.wf(),
        ensures
            r == (query_lowercase@.len() == 0 || contains_text(lowercase(self.message@), query_lowercase@)),
    {
        if query_lowercase.len() == 0 {
            return true;
        }
        let hay = chars_of(self.message_lowercase.as_str());
        find_text(&hay, query_lowercase)
    }
}

/// A tab of the log page: all levels from a chosen level upwards, or one level exactly.
#[derive(Debug, Clone, Copy, PartialEq, Eq, Structural)]
pub enum LogTab {
    All,
    Error,
    Warning,
    Info,
    Debug,
}

impl LogTab {
    /// The one level a tab shows, or `None` for the tab of all levels.
    pub open spec fn exact_level_of(self) -> Option<LogLevel> {
        match self {
            LogTab::All => None,
            LogTab::Error => Some(LogLevel::Error),
            LogTab::Warning => Some(LogLevel::Warning),
            LogTab::Info => Some(LogLevel::Info),
            LogTab::Debug => Some(LogLevel::Debug),
        }
    }

    fn exact_level(self) -> (r: Option<LogLevel>)
        ensures
            r == self.exact_level_of(),
    {
        match self {
            LogTab::All => None,
            LogTab::Error => Some(LogLevel::Error),
            LogTab::Warning => Some(LogLevel::Warning),
            LogTab::Info => Some(LogLevel::Info),
            LogTab::Debug => Some(LogLevel::Debug),
        }
    }
}

/// A record of level `level` passes the level filter: on a level tab its level is that
/// level; on the tab of all levels it is at least as severe as `all_level`.
pub open spec fn level_shown(tab: LogTab, all_level: LogLevel, level: LogLevel) -> bool {
    match tab.exact_level_of() {
        Some(l) => level == l,
        None => level.severity_of() >= all_level.severity_of(),
    }
}

/// A message passes the search: the lower-cased search text is empty or occurs in the
/// lower-cased message. Only the message is searched.
pub open spec fn query_matches(query: Seq<char>, message: Seq<char>) -> bool {
    lowercase(query).len() == 0 || contains_text(lowercase(message), lowercase(query))
}

/// A record passes the filters of a page on tab `tab`, lowest level `all_level` and
/// search text `query`.
pub open spec fn record_shown(tab: LogTab, all_level: LogLevel, query: Seq<char>, e: RecordView) -> bool {
    level_shown(tab, all_level, e.2) && query_matches(query, e.3)
}

/// The record that follows number `n`: `n + 1`, or 1 after the largest number.
pub open spec fn next_sequence_after(n: u64) -> u64 {
    if n == u64::MAX { 1 } else { (n + 1) as u64 }
}

/// The records after `e` arrives: `e` at the end, and the oldest record dropped when
/// more than `MAX_LOG_RECORDS` would be kept.
pub open spec fn with_record(s: Seq<RecordView>, e: RecordView) -> Seq<RecordView> {
    let t = s.push(e);
    if t.len() > MAX_LOG_RECORDS { t.drop_first() } else { t }
}

/// The state of the log page.
#[derive(Debug)]
pub struct LogsViewState {
    pub records: VecDeque<LogRecord>,
    pub selected_tab: LogTab,
    pub all_level: LogLevel,
    pub query: String,
    pub auto_scroll: bool,
    pub next_sequence: u64,
}

/// One row of the log table: time, level label, full message and the level's position.
#[derive(Debug, Clone)]
pub struct LogRow {
    pub time: String,
    pub level: String,
    pub message: String,
    pub level_index: i32,
}

impl LogsViewState {
    /// At most `MAX_LOG_RECORDS` records, each keeping its lower-cased message, and a
    /// positive next number.
    pub open spec fn wf(&self) -> bool {
        &&& self.records@.len() <= MAX_LOG_RECORDS
        &&& forall|i: int| 0 <= i < self.records@.len() ==> (#[trigger] self.records@[i]).wf()
        &&& self.next_sequence >= 1
    }

    /// The kept records, oldest first.
    pub open spec fn entries(&self) -> Seq<RecordView> {
        self.records@.map_values(|r: LogRecord| r@)
    }

    /// The number the next accepted record gets.
    pub open spec fn next_number(&self) -> u64 {
        self.next_sequence
    }

    /// The record `e` passes the tab, level and search filters.
    pub open spec fn shows(&self, e: RecordView) -> bool {
        record_shown(self.selected_tab, self.all_level, self.query@, e)
    }

    /// The records the page shows, oldest first: those that pass the tab, level and
    /// search filters.
    pub open spec fn visible_entries(&self) -> Seq<RecordView> {
        self.entries().filter(|e: RecordView| self.shows(e))
    }

    /// `self` and `other` keep the same records and next number.
    pub open spec fn same_records(&self, other: &LogsViewState) -> bool {
        self.entries() == other.entries() && self.next_number() == other.next_number()
    }

    /// The empty page: tab of all levels from `Debug` up, no search, scrolling on.
    pub fn new() -> (r: LogsViewState)
        ensures
            r.wf(),
            r.entries().len() == 0,
            r.next_number() == 1,
            r.selected_tab == LogTab::All,
            r.all_level == LogLevel::Debug,
            r.query@.len() == 0,
            r.auto_scroll,
    {
        LogsViewState {
            records: VecDeque::new(),
            selected_tab: LogTab::All,
            all_level: LogLevel::Debug,
            query: String::new(),
            auto_scroll: true,
            next_sequence: 1,
        }
    }

    /// The kept records, oldest first.
    pub fn records(&self) -> (r: &VecDeque<LogRecord>)
        ensures
            r@.map_values(|x: LogRecord| x@) == self.entries(),
    {
        &self.records
    }

    /// Adds a line from the core. A line whose level is not known is refused and changes
    /// nothing; otherwise it is kept with the next number, and the oldest record goes when
    /// more than `MAX_LOG_RECORDS` would be kept.
    pub fn append_line(&mut self, line: LogLine) -> (accepted: bool)
        requires
            old(self).wf(),
        ensures
            final(self).wf(),
            accepted == (parsed_level(line.level@) is Some),
            accepted ==> final(self).entries() == with_record(
                old(self).entries(),
                (old(self).next_number(), line.time@, parsed_level(line.level@)->0, line.message@),
            ),
            accepted ==> final(self).next_number() == next_sequence_after(old(self).next_number()),
            !accepted ==> final(self).same_records(old(self)),
            final(self).selected_tab == old(self).selected_tab,
            final(self).all_level == old(self).all_level,
            final(self).query == old(self).query,
            final(self).auto_scroll == old(self).auto_scroll,
    {
        let level = match LogLevel::parse(line.level.as_str()) {
            Some(level) => level,
            None => return false,
        };
        let message_lowercase = to_lowercase(line.message.as_str());
        let record = LogRecord {
            sequence: self.next_sequence,
            time: line.time,
            level,
            message: line.message,
            message_lowercase,
        };
        self.next_sequence = if self.next_sequence == u64::MAX { 1 } else { self.next_sequence + 1 };
        let ghost before = self.records@;
        self.records.push_back(record);
        proof {
            assert(self.records@.map_values(|r: LogRecord| r@) =~= before.map_values(|r: LogRecord| r@).push(record@));
        }
        if self.records.len() > MAX_LOG_RECORDS {
            let ghost pushed = self.records@;
            self.records.pop_front();
            proof {
                assert(self.records@.map_values(|r: LogRecord| r@) =~= pushed.map_values(|r: LogRecord| r@).drop_first());
            }
        }
        proof {
            assert forall|i: int| 0 <= i < self.records@.len() implies (#[trigger] self.records@[i]).wf() by {
                if self.records@[i] != record {
                    assert(exists|j: int| 0 <= j < before.len() && before[j] == self.records@[i]);
                }
            }
        }
        true
    }

    /// The records that pass the tab, level and search filters, oldest first.
    pub fn visible_records(&self) -> (r: Vec<LogRecord>)
        requires
            self.wf(),
        ensures
            r@.map_values(|x: LogRecord| x@) == self.visible_entries(),
            self.query@.len() == 0 ==> r@.map_values(|x: LogRecord| x@)
                == self.entries().filter(|e: RecordView| level_shown(self.selected_tab, self.all_level, e.2)),
    {
        let q = to_lowercase(self.query.as_str());
        proof {
            if self.query@.len() == 0 {
                assert((|e: RecordView| self.shows(e)) =~= (|e: RecordView| level_shown(self.selected_tab, self.all_level, e.2)));
            }
        }
        let query = chars_of(q.as_str());
        let exact = self.selected_tab.exact_level();
        let floor = self.all_level.severity();
        let ghost pred = |e: RecordView| self.shows(e);
        let ghost src = self.entries();
        let mut out: Vec<LogRecord> = Vec::new();
        let mut i: usize = 0;
        proof { assert(src.subrange(0, 0) =~= Seq::<RecordView>::empty()); }
        while i < self.records.len()
            invariant
                i <= self.records@.len(),
                self.wf(),
                query@ == lowercase(self.query@),
                exact == self.selected_tab.exact_level_of(),
                floor == self.all_level.severity_of(),
                pred == (|e: RecordView| self.shows(e)),
                src == self.entries(),
                out@.map_values(|x: LogRecord| x@) == src.subrange(0, i as int).filter(pred),
            decreases self.records@.len() - i,
        {
            let record = &self.records[i];
            proof {
                assert(src.subrange(0, i + 1) =~= src.subrange(0, i as int).push(record@));
                src.subrange(0, i as int).lemma_filter_push(record@, pred);
                assert(record.wf());
            }
            let level_ok = match exact {
                Some(level) => record.level == level,
                None => record.level.severity() >= floor,
            };
            if level_ok && record.message_matches(&query) {
                let ghost before = out@;
                out.push(record.duplicate());
                proof {
                    assert(out@.map_values(|x: LogRecord| x@) =~= before.map_values(|x: LogRecord| x@).push(record@));
                }
            }
            i = i + 1;
        }
        proof { assert(src.subrange(0, self.records@.len() as int) =~= src); }
        out
    }

    /// Selects a tab.
    pub fn set_tab(&mut self, tab: LogTab)
        ensures
            final(self).selected_tab == tab,
            final(self).all_level == old(self).all_level,
            final(self).query == old(self).query,
            final(self).auto_scroll == old(self).auto_scroll,
            final(self).same_records(old(self)),
            old(self).wf() ==> final(self).wf(),
    {
        if self.selected_tab != tab {
            self.selected_tab = tab;
        }
    }

    /// Selects the lowest level of the tab of all levels.
    pub fn set_all_level(&mut self, level: LogLevel)
        ensures
            final(self).all_level == level,
            final(self).selected_tab == old(self).selected_tab,
            final(self).query == old(self).query,
            final(self).auto_scroll == old(self).auto_scroll,
            final(self).same_records(old(self)),
            old(self).wf() ==> final(self).wf(),
    {
        if self.all_level != level {
            self.all_level = level;
        }
    }

    /// Sets the search text.
    pub fn set_query(&mut self, query: String)
        ensures
            final(self).query@ == query@,
            final(self).selected_tab == old(self).selected_tab,
            final(self).all_level == old(self).all_level,
            final(self).auto_scroll == old(self).auto_scroll,
            final(self).same_records(old(self)),
            old(self).wf() ==> final(self).wf(),
    {
        if self.query != query {
            self.query = query;
        }
    }

    /// Pauses or resumes following the newest record.
    pub fn toggle_pause(&mut self)
        ensures
            final(self).auto_scroll == !old(self).auto_scroll,
            final(self).selected_tab == old(self).selected_tab,
            final(self).all_level == old(self).all_level,
            final(self).query == old(self).query,
            final(self).same_records(old(self)),
            old(self).wf() ==> final(self).wf(),
    {
        self.auto_scroll = !self.auto_scroll;
    }

    /// Drops every record; numbering goes on where it was.
    pub fn clear(&mut self)
        ensures
            final(self).entries().len() == 0,
            final(self).next_number() == old(self).next_number(),
            final(self).selected_tab == old(self).selected_tab,
            final(self).all_level == old(self).all_level,
            final(self).query == old(self).query,
            final(self).auto_scroll == old(self).auto_scroll,
            old(self).wf() ==> final(self).wf(),
    {
        if self.records.len() > 0 {
            self.records.clear();
        }
    }

    /// Whether following the newest record is paused.
    pub fn paused(&self) -> (r: bool)
        ensures
            r == !self.auto_scroll,
    {
        !self.auto_scroll
    }

    /// An independent copy of the state.
    pub fn snapshot(&self) -> (r: LogsViewState)
        requires
            self.wf(),
        ensures
            r.wf(),
            r.same_records(self),
            r.selected_tab == self.selected_tab,
            r.all_level == self.all_level,
            r.query@ == self.query@,
            r.auto_scroll == self.auto_scroll,
    {
        let mut records: VecDeque<LogRecord> = VecDeque::new();
        let mut i: usize = 0;
        while i < self.records.len()
            invariant
                i <= self.records@.len(),
                records@ == self.records@.subrange(0, i as int),
            decreases self.records@.len() - i,
        {
            let ghost before = records@;
            records.push_back(self.records[i].duplicate());
            proof { assert(records@ =~= self.records@.subrange(0, i + 1)); }
            i = i + 1;
        }
        proof { assert(records@ =~= self.records@); }
        LogsViewState {
            records,
            selected_tab: self.selected_tab,
            all_level: self.all_level,
            query: self.query.clone(),
            auto_scroll: self.auto_scroll,
            next_sequence: self.next_sequence,
        }
    }
}

impl Default for LogsViewState {
    fn default() -> (r: Self)
        ensures
            r.wf(),
            r.entries().len() == 0,
            r.next_number() == 1,
            r.selected_tab == LogTab::All,
            r.all_level == LogLevel::Debug,
            r.query@.len() == 0,
            r.auto_scroll,
    {
        LogsViewState::new()
    }
}

/// A fresh, empty log page state.
pub fn new_state() -> (r: LogsViewState)
    ensures
        r.wf(),
        r.entries().len() == 0,
        r.next_number() == 1,
        r.selected_tab == LogTab::All,
        r.all_level == LogLevel::Debug,
        r.query@.len() == 0,
        r.auto_scroll,
{
    LogsViewState::new()
}

/// A copy of the state for reading.
pub fn read_state(state: &LogsViewState) -> (r: LogsViewState)
    requires
        state.wf(),
    ensures
        r.wf(),
        r.same_records(state),
        r.selected_tab == state.selected_tab,
        r.all_level == state.all_level,
        r.query@ == state.query@,
        r.auto_scroll == state.auto_scroll,
{
    state.snapshot()
}

/// The tab at a position of the tab bar: all, error, warning, info, debug.
pub open spec fn tab_at(index: i32) -> Option<LogTab> {
    if index == 0 {
        Some(LogTab::All)
    } else if index == 1 {
        Some(LogTab::Error)
    } else if index == 2 {
        Some(LogTab::Warning)
    } else if index == 3 {
        Some(LogTab::Info)
    } else if index == 4 {
        Some(LogTab::Debug)
    } else {
        None
    }
}

/// The level at a position of the level drop-down: error, warning, info, debug.
pub open spec fn level_at(index: i32) -> Option<LogLevel> {
    if index == 0 {
        Some(LogLevel::Error)
    } else if index == 1 {
        Some(LogLevel::Warning)
    } else if index == 2 {
        Some(LogLevel::Info)
    } else if index == 3 {
        Some(LogLevel::Debug)
    } else {
        None
    }
}

/// The tab at a position of the tab bar.
pub fn tab_from_index(index: i32) -> (r: Option<LogTab>)
    ensures
        r == tab_at(index),
{
    match index {
        0 => Some(LogTab::All),
        1 => Some(LogTab::Error),
        2 => Some(LogTab::Warning),
        3 => Some(LogTab::Info),
        4 => Some(LogTab::Debug),
        _ => None,
    }
}

/// The level at a position of the level drop-down.
pub fn level_from_index(index: i32) -> (r: Option<LogLevel>)
    ensures
        r == level_at(index),
{
    match index {
        0 => Some(LogLevel::Error),
        1 => Some(LogLevel::Warning),
        2 => Some(LogLevel::Info),
        3 => Some(LogLevel::Debug),
        _ => None,
    }
}

/// The position of a tab in the tab bar.
pub fn tab_index(tab: LogTab) -> (r: i32)
    ensures
        tab_at(r) == Some(tab),
{
    match tab {
        LogTab::All => 0,
        LogTab::Error => 1,
        LogTab::Warning => 2,
        LogTab::Info => 3,
        LogTab::Debug => 4,
    }
}

/// Selects the tab at `index`; an unknown position changes nothing.
pub fn set_tab(state: &mut LogsViewState, index: i32)
    ensures
        final(state).selected_tab == match tab_at(index) {
            Some(tab) => tab,
            None => old(state).selected_tab,
        },
        final(state).all_level == old(state).all_level,
        final(state).query == old(state).query,
        final(state).auto_scroll == old(state).auto_scroll,
        final(state).same_records(old(state)),
        old(state).wf() ==> final(state).wf(),
{
    if let Some(tab) = tab_from_index(index) {
        state.set_tab(tab);
    }
}

/// Selects the level at `index` for the tab of all levels; an unknown position changes
/// nothing.
pub fn set_all_level(state: &mut LogsViewState, index: i32)
    ensures
        final(state).all_level == match level_at(index) {
            Some(level) => level,
            None => old(state).all_level,
        },
        final(state).selected_tab == old(state).selected_tab,
        final(state).query == old(state).query,
        final(state).auto_scroll == old(state).auto_scroll,
        final(state).same_records(old(state)),
        old(state).wf() ==> final(state).wf(),
{
    if let Some(level) = level_from_index(index) {
        state.set_all_level(level);
    }
}

/// Sets the search text.
pub fn set_query(state: &mut LogsViewState, query: String)
    ensures
        final(state).query@ == query@,
        final(state).selected_tab == old(state).selected_tab,
        final(state).all_level == old(state).all_level,
        final(state).auto_scroll == old(state).auto_scroll,
        final(state).same_records(old(state)),
        old(state).wf() ==> final(state).wf(),
{
    state.set_query(query);
}

/// Pauses or resumes following the newest record.
pub fn toggle_pause(state: &mut LogsViewState)
    ensures
        final(state).auto_scroll == !old(state).auto_scroll,
        final(state).selected_tab == old(state).selected_tab,
        final(state).all_level == old(state).all_level,
        final(state).query == old(state).query,
        final(state).same_records(old(state)),
        old(state).wf() ==> final(state).wf(),
{
    state.toggle_pause();
}

/// Drops every record.
pub fn clear(state: &mut LogsViewState)
    ensures
        final(state).entries().len() == 0,
        final(state).next_number() == old(state).next_number(),
        final(state).selected_tab == old(state).selected_tab,
        final(state).all_level == old(state).all_level,
        final(state).query == old(state).query,
        final(state).auto_scroll == old(state).auto_scroll,
        old(state).wf() ==> final(state).wf(),
{
    state.clear();
}

/// Drops the records of the core that stopped.
pub fn clear_runtime(state: &mut LogsViewState)
    ensures
        final(state).entries().len() == 0,
        final(state).next_number() == old(state).next_number(),
        final(state).selected_tab == old(state).selected_tab,
        final(state).all_level == old(state).all_level,
        final(state).query == old(state).query,
        final(state).auto_scroll == old(state).auto_scroll,
        old(state).wf() ==> final(state).wf(),
{
    clear(state);
}

/// The row of one record: time, level label, message and level position.
pub fn project_row(record: &LogRecord) -> (r: LogRow)
    ensures
        r.time@ == record.time@,
        r.level@ == record.level.label_of(),
        r.message@ == record.message@,
        r.level_index == record.level.index_of(),
{
    LogRow {
        time: record.time.clone(),
        level: String::from_str(record.level.label()),
        message: record.message.clone(),
        level_index: record.level.index(),
    }
}

/// The rows of the records the page shows, oldest first.
pub fn project_rows(state: &LogsViewState) -> (r: Vec<LogRow>)
    requires
        state.wf(),
    ensures
        r@.len() == state.visible_entries().len(),
        forall|i: int| 0 <= i < r@.len() ==> {
            &&& (#[trigger] r@[i]).time@ == state.visible_entries()[i].1
            &&& r@[i].level@ == state.visible_entries()[i].2.label_of()
            &&& r@[i].message@ == state.visible_entries()[i].3
            &&& r@[i].level_index == state.visible_entries()[i].2.index_of()
        },
{
    let visible = state.visible_records();
    let mut rows: Vec<LogRow> = Vec::new();
    let mut i: usize = 0;
    while i < visible.len()
        invariant
            i <= visible.len(),
            rows.len() == i,
            visible@.map_values(|x: LogRecord| x@) == state.visible_entries(),
            forall|j: int| 0 <= j < i ==> {
                &&& (#[trigger] rows@[j]).time@ == visible@[j].time@
                &&& rows@[j].level@ == visible@[j].level.label_of()
                &&& rows@[j].message@ == visible@[j].message@
                &&& rows@[j].level_index == visible@[j].level.index_of()
            },
        decreases visible.len() - i,
    {
        rows.push(project_row(&visible[i]));
        i = i + 1;
    }
    proof {
        assert forall|j: int| 0 <= j < rows@.len() implies visible@.map_values(|x: LogRecord| x@)[j] == visible@[j]@ by {}
    }
    rows
}


/// The log keeps the newest records: after a record arrives, at most `MAX_LOG_RECORDS`
/// are kept, the new one is the last, and the kept records are the newest ones in order
/// of arrival.
pub proof fn law_log_keeps_newest(s: Seq<RecordView>, e: RecordView)
    requires
        s.len() <= MAX_LOG_RECORDS,
    ensures
        with_record(s, e).len() <= MAX_LOG_RECORDS,
        with_record(s, e).last() == e,
        with_record(s, e) == s.push(e).subrange(s.len() + 1 - with_record(s, e).len(), s.len() as int + 1),
{
    let t = s.push(e);
    if t.len() > MAX_LOG_RECORDS {
        assert(t.drop_first() =~= t.subrange(1, t.len() as int));
    } else {
        assert(t =~= t.subrange(0, t.len() as int));
    }
}

/// The records after the entries `es` arrive one after another.
pub open spec fn with_records(s: Seq<RecordView>, es: Seq<RecordView>) -> Seq<RecordView>
    decreases es.len(),
{
    if es.len() == 0 { s } else { with_record(with_records(s, es.drop_last()), es.last()) }
}

/// The newest `MAX_LOG_RECORDS` of some records (all of them when there are no more).
pub open spec fn newest_records(t: Seq<RecordView>) -> Seq<RecordView> {
    if t.len() > MAX_LOG_RECORDS { t.subrange(t.len() - MAX_LOG_RECORDS, t.len() as int) } else { t }
}

/// However many records arrive, the log holds the newest `MAX_LOG_RECORDS` of the records
/// it held and the ones that arrived, in order of arrival.
pub proof fn law_log_keeps_newest_of_many(s: Seq<RecordView>, es: Seq<RecordView>)
    requires
        s.len() <= MAX_LOG_RECORDS,
    ensures
        with_records(s, es) == newest_records(s + es),
    decreases es.len(),
{
    if es.len() == 0 {
        assert(s + es =~= s);
    } else {
        let d = es.drop_last();
        let e = es.last();
        law_log_keeps_newest_of_many(s, d);
        let w = newest_records(s + d);
        let all = s + es;
        assert(all =~= (s + d).push(e));
        let t = w.push(e);
        if (s + d).len() > MAX_LOG_RECORDS {
            assert(t.len() > MAX_LOG_RECORDS);
            assert(t.drop_first() =~= all.subrange(all.len() - MAX_LOG_RECORDS, all.len() as int));
        } else if t.len() > MAX_LOG_RECORDS {
            assert(w == s + d);
            assert(t.drop_first() =~= all.subrange(all.len() - MAX_LOG_RECORDS, all.len() as int));
        } else {
            assert(t =~= all);
        }
    }
}

} // verus!
