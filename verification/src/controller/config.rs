//! The configuration page: the state of its requests, the rows of its cards, and the
//! changes the page makes to the list of configurations (at most one of them enabled).
use vstd::prelude::*;
use vstd::string::*;
use crate::app::config::{ConfigEntry, SourceType};
use crate::controller::rules::{advance_token, token_after};
use crate::controller::source::{fallback_name, fallback_text, source_type_name, source_type_text};
use crate::text::{trimmed, trim_text, join_texts, join_with, texts_view, push_text, text_eq};

verus! {

/// What the page shows besides the list: loading, a running operation, the last error,
/// and the tokens that tell a current reply from a stale one.
#[derive(Debug)]
pub struct ConfigViewState {
    pub loading: bool,
    pub busy: bool,
    pub error: String,
    pub next_token: u64,
    pub refresh_token: u64,
    pub operation_token: u64,
}

/// A page that has done nothing yet.
pub open spec fn is_idle(s: ConfigViewState) -> bool {
    !s.loading && !s.busy && s.error@.len() == 0 && s.next_token == 0 && s.refresh_token == 0 && s.operation_token == 0
}

/// A new page state.
pub fn new_state() -> (r: ConfigViewState)
    ensures
        is_idle(r),
{
    ConfigViewState { loading: false, busy: false, error: String::new(), next_token: 0, refresh_token: 0, operation_token: 0 }
}

/// Takes the next token of the page.
pub fn next_token(state: &mut ConfigViewState) -> (r: u64)
    ensures
        r == token_after(old(state).next_token),
        *final(state) == (ConfigViewState { next_token: r, ..*old(state) }),
{
    advance_token(&mut state.next_token)
}

/// Starts reading the list again, unless an operation runs: a new refresh token, the page
/// loading, the error cleared. Returns the token.
pub fn begin_refresh(state: &mut ConfigViewState) -> (r: Option<u64>)
    ensures
        old(state).busy ==> r is None && *final(state) == *old(state),
        !old(state).busy ==> ({
            let t = token_after(old(state).next_token);
            &&& r == Some(t)
            &&& final(state).error@.len() == 0
            &&& *final(state) == (ConfigViewState {
                next_token: t,
                refresh_token: t,
                loading: true,
                error: final(state).error,
                ..*old(state)
            })
        }),
{
    if state.busy {
        return None;
    }
    let token = next_token(state);
    state.refresh_token = token;
    state.loading = true;
    state.error = String::new();
    Some(token)
}

/// Ends the refresh under `token` unless a later one replaced it. Returns whether it did.
pub fn finish_refresh(state: &mut ConfigViewState, token: u64) -> (r: bool)
    ensures
        r == (old(state).refresh_token == token),
        *final(state) == (if r { ConfigViewState { loading: false, ..*old(state) } } else { *old(state) }),
{
    if state.refresh_token != token {
        return false;
    }
    state.loading = false;
    true
}

/// Starts an operation unless one runs: a new operation token, the page busy, the error
/// cleared. Returns the token.
pub fn begin_operation(state: &mut ConfigViewState) -> (r: Option<u64>)
    ensures
        old(state).busy ==> r is None && *final(state) == *old(state),
        !old(state).busy ==> ({
            let t = token_after(old(state).next_token);
            &&& r == Some(t)
            &&& final(state).error@.len() == 0
            &&& *final(state) == (ConfigViewState {
                next_token: t,
                operation_token: t,
                busy: true,
                error: final(state).error,
                ..*old(state)
            })
        }),
{
    if state.busy {
        return None;
    }
    let token = next_token(state);
    state.operation_token = token;
    state.busy = true;
    state.error = String::new();
    Some(token)
}

/// What the page does after an operation: the toast message and its variant (1 success,
/// 2 failure), whether the form closes, and whether it opens again after a failure.
#[derive(Debug, Clone, PartialEq, Eq)]
pub struct OperationOutcome {
    pub message: String,
    pub variant: i32,
    pub close_form: bool,
    pub reopen_form: bool,
}

/// Takes the result of the operation under `token`. A stale result changes nothing and
/// gives nothing; else the page is no longer busy, a failure becomes the error, and the
/// outcome is returned (a form operation closes the form on success and keeps it open on
/// failure).
pub fn finish_operation(state: &mut ConfigViewState, token: u64, result: Result<String, String>, close_form: bool) -> (r: Option<OperationOutcome>)
    ensures
        old(state).operation_token != token ==> r is None && *final(state) == *old(state),
        old(state).operation_token == token ==> match result {
            Ok(m) => r == Some(OperationOutcome { message: m, variant: 1, close_form: close_form, reopen_form: false })
                && final(state).error@.len() == 0
                && *final(state) == (ConfigViewState { busy: false, error: final(state).error, ..*old(state) }),
            Err(m) => r == Some(OperationOutcome { message: m, variant: 2, close_form: false, reopen_form: close_form })
                && *final(state) == (ConfigViewState { busy: false, error: m, ..*old(state) }),
        },
{
    if state.operation_token != token {
        return None;
    }
    state.busy = false;
    match result {
        Ok(message) => {
            state.error = String::new();
            Some(OperationOutcome { message, variant: 1, close_form, reopen_form: false })
        }
        Err(message) => {
            state.error = message.clone();
            Some(OperationOutcome { message, variant: 2, close_form: false, reopen_form: close_form })
        }
    }
}

/// The name shown for a configuration: its name, or the fallback name of its address when
/// the name is blank.
pub open spec fn config_display_name(e: ConfigEntry) -> Seq<char> {
    if trimmed(e.name@).len() > 0 { e.name@ } else { fallback_text(e.source_uri@) }
}

/// The name shown for a configuration.
pub fn display_name(entry: &ConfigEntry) -> (r: String)
    ensures
        r@ == config_display_name(*entry),
{
    let t = trim_text(entry.name.as_str());
    if !t.as_str().is_empty() {
        return entry.name.clone();
    }
    fallback_name(entry.source_uri.as_str())
}

/// One card of the page.
#[derive(Debug, Clone, PartialEq, Eq)]
pub struct ConfigRow {
    pub name: String,
    pub enabled: bool,
    pub source_type: String,
    pub source_uri: String,
    pub path: String,
}

/// `row` is the card of `e`.
pub open spec fn row_of_config(row: ConfigRow, e: ConfigEntry) -> bool {
    &&& row.name@ == config_display_name(e)
    &&& row.enabled == e.enabled
    &&& row.source_type@ == source_type_text(e.source_type)
    &&& row.source_uri@ == e.source_uri@
    &&& row.path@ == e.path@
}

/// The cards of the configurations, in list order.
pub fn config_rows(entries: &[ConfigEntry]) -> (r: Vec<ConfigRow>)
    ensures
        r@.len() == entries@.len(),
        forall|i: int| 0 <= i < entries@.len() ==> row_of_config(#[trigger] r@[i], entries@[i]),
{
    let mut rows: Vec<ConfigRow> = Vec::new();
    let mut i: usize = 0;
    while i < entries.len()
        invariant
            i <= entries@.len(),
            rows@.len() == i,
            forall|k: int| 0 <= k < i ==> row_of_config(#[trigger] rows@[k], entries@[k]),
        decreases entries@.len() - i,
    {
        let e = &entries[i];
        rows.push(ConfigRow {
            name: display_name(e),
            enabled: e.enabled,
            source_type: source_type_name(e.source_type).to_string(),
            source_uri: e.source_uri.clone(),
            path: e.path.clone(),
        });
        i = i + 1;
    }
    rows
}

/// The position of the first configuration with this path.
pub open spec fn config_index(s: Seq<ConfigEntry>, path: Seq<char>) -> Option<int>
    decreases s.len(),
{
    if s.len() == 0 {
        None
    } else if s[0].path@ == path {
        Some(0)
    } else {
        match config_index(s.drop_first(), path) {
            Some(k) => Some(k + 1),
            None => None,
        }
    }
}

proof fn lemma_config_index(s: Seq<ConfigEntry>, path: Seq<char>)
    ensures
        match config_index(s, path) {
            Some(k) => 0 <= k < s.len() && s[k].path@ == path && forall|j: int| 0 <= j < k ==> s[j].path@ != path,
            None => forall|j: int| 0 <= j < s.len() ==> s[j].path@ != path,
        },
    decreases s.len(),
{
    if s.len() > 0 && s[0].path@ != path {
        lemma_config_index(s.drop_first(), path);
        assert forall|j: int| 0 < j < s.len() implies s[j] == s.drop_first()[j - 1] by {}
    }
}

/// The position of the first configuration with this path, if any.
pub fn find_config(configs: &[ConfigEntry], path: &str) -> (r: Option<usize>)
    ensures
        match r {
            Some(k) => config_index(configs@, path@) == Some(k as int) && k < configs@.len(),
            None => config_index(configs@, path@) is None,
        },
{
    proof { lemma_config_index(configs@, path@); }
    let mut i: usize = 0;
    while i < configs.len()
        invariant
            i <= configs@.len(),
            forall|j: int| 0 <= j < i ==> configs@[j].path@ != path@,
            match config_index(configs@, path@) {
                Some(k) => 0 <= k < configs@.len() && configs@[k].path@ == path@ && forall|j: int| 0 <= j < k ==> configs@[j].path@ != path@,
                None => forall|j: int| 0 <= j < configs@.len() ==> configs@[j].path@ != path@,
            },
        decreases configs@.len() - i,
    {
        if text_eq(configs[i].path.as_str(), path) {
            return Some(i);
        }
        i = i + 1;
    }
    None
}

/// The configurations after switching the one at position `k`: all disabled, and that one
/// enabled when it was disabled.
pub open spec fn toggled_configs(cs: Seq<ConfigEntry>, k: int) -> Seq<ConfigEntry> {
    Seq::new(cs.len(), |i: int| ConfigEntry { enabled: i == k && !cs[k].enabled, ..cs[i] })
}

/// Switching a configuration leaves at most one configuration enabled, whatever was
/// enabled before: the one switched on, or none when it was switched off.
pub proof fn law_one_config_enabled(cs: Seq<ConfigEntry>, k: int)
    requires
        0 <= k < cs.len(),
    ensures
        forall|i: int| 0 <= i < cs.len() && #[trigger] toggled_configs(cs, k)[i].enabled ==> i == k,
        toggled_configs(cs, k)[k].enabled == !cs[k].enabled,
{
}

/// Switches the configuration at `path`: every configuration is disabled, and the one at
/// `path` (the first with that path) is enabled when it was disabled. Returns whether it
/// is now enabled; an unknown path changes nothing.
pub fn toggle_config(configs: &mut Vec<ConfigEntry>, path: &str) -> (r: Result<bool, String>)
    ensures
        match config_index(old(configs)@, path@) {
            None => r is Err && r->Err_0@ == "未找到要切换的配置"@ && final(configs)@ == old(configs)@,
            Some(k) => {
                let enable = !old(configs)@[k].enabled;
                &&& r == Ok::<bool, String>(enable)
                &&& final(configs)@.len() == old(configs)@.len()
                &&& forall|i: int| 0 <= i < old(configs)@.len() ==> #[trigger] final(configs)@[i]
                    == (ConfigEntry { enabled: i == k && enable, ..old(configs)@[i] })
                &&& final(configs)@ == toggled_configs(old(configs)@, k)
            },
        },
{
    let k = match find_config(configs, path) {
        Some(k) => k,
        None => return Err(String::from_str("未找到要切换的配置")),
    };
    let enable = !configs[k].enabled;
    let ghost before = configs@;
    let mut i: usize = 0;
    while i < configs.len()
        invariant
            i <= configs@.len(),
            configs@.len() == before.len(),
            k < before.len(),
            forall|j: int| 0 <= j < i ==> #[trigger] configs@[j] == (ConfigEntry { enabled: false, ..before[j] }),
            forall|j: int| i <= j < before.len() ==> #[trigger] configs@[j] == before[j],
        decreases configs@.len() - i,
    {
        configs[i].enabled = false;
        i = i + 1;
    }
    if enable {
        configs[k].enabled = true;
    }
    proof { assert(configs@ =~= toggled_configs(before, k as int)); }
    Ok(enable)
}

/// The configuration a form saves: the trimmed name (the fallback name of the address
/// when blank), type, address and path as given; an edited configuration keeps its
/// enabled flag, a new one is disabled.
pub fn saved_config(existing: Option<&ConfigEntry>, name: &str, source_type: SourceType, source_uri: &str, path: String) -> (r: ConfigEntry)
    ensures
        r.name@ == if trimmed(name@).len() == 0 { fallback_text(source_uri@) } else { trimmed(name@) },
        r.enabled == match existing { Some(e) => e.enabled, None => false },
        r.source_type == source_type,
        r.source_uri@ == source_uri@,
        r.path == path,
{
    let t = trim_text(name);
    let name = if t.as_str().is_empty() { fallback_name(source_uri) } else { t };
    ConfigEntry {
        name,
        enabled: match existing { Some(e) => e.enabled, None => false },
        source_type,
        source_uri: source_uri.to_string(),
        path,
    }
}

/// Stores a saved configuration: it replaces the one being edited (the first with
/// `editing_path`, when that is not empty and present), else it is added at the end.
pub fn store_config(configs: &mut Vec<ConfigEntry>, editing_path: &str, entry: ConfigEntry)
    ensures
        ({
            let k = config_index(old(configs)@, editing_path@);
            if editing_path@.len() > 0 && k is Some {
                final(configs)@ == old(configs)@.update(k->0, entry)
            } else {
                final(configs)@ == old(configs)@.push(entry)
            }
        }),
{
    if !editing_path.is_empty() {
        if let Some(k) = find_config(configs, editing_path) {
            configs.set(k, entry);
            return;
        }
    }
    configs.push(entry);
}

/// Removes every configuration at `path`.
pub fn remove_config(configs: &mut Vec<ConfigEntry>, path: &str)
    ensures
        final(configs)@ == old(configs)@.filter(|e: ConfigEntry| e.path@ != path@),
{
    let ghost pred = |e: ConfigEntry| e.path@ != path@;
    let ghost before = configs@;
    let mut kept: Vec<ConfigEntry> = Vec::new();
    let mut rest: Vec<ConfigEntry> = Vec::new();
    std::mem::swap(&mut rest, configs);
    proof { assert(before.subrange(0, 0).filter(pred) =~= Seq::<ConfigEntry>::empty()); }
    let mut rev: Vec<ConfigEntry> = Vec::new();
    while rest.len() > 0
        invariant
            rest@.len() + rev@.len() == before.len(),
            rest@ == before.subrange(0, rest@.len() as int),
            forall|j: int| 0 <= j < rev@.len() ==> #[trigger] rev@[j] == before[before.len() - 1 - j],
        decreases rest@.len(),
    {
        let e = rest.pop().unwrap();
        rev.push(e);
    }
    while rev.len() > 0
        invariant
            rev@.len() <= before.len(),
            forall|j: int| 0 <= j < rev@.len() ==> #[trigger] rev@[j] == before[before.len() - 1 - j],
            pred == (|e: ConfigEntry| e.path@ != path@),
            kept@ == before.subrange(0, before.len() - rev@.len()).filter(pred),
        decreases rev@.len(),
    {
        let ghost idx = before.len() - rev@.len();
        let e = rev.pop().unwrap();
        proof {
            assert(e == before[idx]);
            assert(before.subrange(0, idx + 1) =~= before.subrange(0, idx).push(before[idx]));
            before.subrange(0, idx).lemma_filter_push(before[idx], pred);
        }
        if !text_eq(e.path.as_str(), path) {
            kept.push(e);
        }
    }
    proof { assert(before.subrange(0, before.len() as int) =~= before); }
    *configs = kept;
}

/// The line reported for a configuration that failed to update: its shown name, a
/// full-width colon, the error.
pub fn update_failure(entry: &ConfigEntry, error: &str) -> (r: String)
    ensures
        r@ == config_display_name(*entry) + "："@ + error@,
{
    let mut s = display_name(entry);
    push_text(&mut s, "：");
    push_text(&mut s, error);
    s
}

/// The result of updating every configuration: success when nothing failed, else the
/// failures joined by `；`.
pub fn update_all_result(failures: &Vec<String>) -> (r: Result<String, String>)
    ensures
        failures@.len() == 0 ==> r is Ok && r->Ok_0@ == "已更新全部配置"@,
        failures@.len() > 0 ==> r is Err && r->Err_0@ == "部分配置更新失败："@ + join_with(texts_view(failures@), "；"@),
{
    if failures.len() == 0 {
        return Ok(String::from_str("已更新全部配置"));
    }
    let mut s = String::from_str("部分配置更新失败：");
    let joined = join_texts(failures, "；");
    push_text(&mut s, joined.as_str());
    Err(s)
}

/// What a page action wants a configuration for: to edit, update or delete it.
#[derive(Debug, Clone, Copy, PartialEq, Eq, Structural)]
pub enum ConfigAction {
    Edit,
    Update,
    Delete,
}

/// The message when the configuration an action names is gone.
pub open spec fn missing_config_text(action: ConfigAction) -> Seq<char> {
    match action {
        ConfigAction::Edit => "未找到要编辑的配置"@,
        ConfigAction::Update => "未找到要更新的配置"@,
        ConfigAction::Delete => "未找到要删除的配置"@,
    }
}

/// The position of the configuration at `path` that an action works on (the first with
/// that path), or the message that it is gone.
pub fn config_for(configs: &[ConfigEntry], path: &str, action: ConfigAction) -> (r: Result<usize, String>)
    ensures
        match config_index(configs@, path@) {
            Some(k) => r is Ok && r->Ok_0 == k && k < configs@.len(),
            None => r is Err && r->Err_0@ == missing_config_text(action),
        },
{
    match find_config(configs, path) {
        Some(k) => Ok(k),
        None => Err(String::from_str(match action {
            ConfigAction::Edit => "未找到要编辑的配置",
            ConfigAction::Update => "未找到要更新的配置",
            ConfigAction::Delete => "未找到要删除的配置",
        })),
    }
}

/// The configuration a saved form edits: none for a new one (empty `editing_path`), else
/// the position of the one being edited, or the message that it is gone.
pub fn editing_config(configs: &[ConfigEntry], editing_path: &str) -> (r: Result<Option<usize>, String>)
    ensures
        editing_path@.len() == 0 ==> r == Ok::<Option<usize>, String>(None),
        editing_path@.len() > 0 ==> match config_index(configs@, editing_path@) {
            Some(k) => r is Ok && r->Ok_0 == Some(k as usize) && k < configs@.len(),
            None => r is Err && r->Err_0@ == "未找到要编辑的配置"@,
        },
{
    if editing_path.is_empty() {
        return Ok(None);
    }
    match config_for(configs, editing_path, ConfigAction::Edit) {
        Ok(k) => Ok(Some(k)),
        Err(e) => Err(e),
    }
}

} // verus!
