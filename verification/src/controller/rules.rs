//! The rules page: the rules of the running core in the order of their index, and the
//! rows shown for them.
use vstd::prelude::*;
use vstd::string::*;
use crate::clash::api::RuleEntry;
use crate::order::{stable_order_int, int_sorts_before};
use crate::text::{decimal, push_decimal, push_text};

verus! {

/// One row of a table: an identifier, the cells and the secondary cells.
#[derive(Debug, Clone)]
pub struct TableRow {
    pub id: String,
    pub cells: Vec<String>,
    pub secondary_cells: Vec<String>,
}

/// The state of the rules page.
#[derive(Debug)]
pub struct RulesViewState {
    pub rules: Vec<RuleEntry>,
    pub loading: bool,
    pub error: String,
    pub next_token: u64,
    pub refresh_token: u64,
}

/// The token that follows `n`: `n + 1`, or 1 after the largest value; never 0.
pub open spec fn token_after(n: u64) -> u64 {
    if n == u64::MAX { 1 } else { (n + 1) as u64 }
}

/// The next request token of a page: increments, never 0.
pub fn advance_token(token: &mut u64) -> (r: u64)
    ensures
        r == token_after(*old(token)),
        *final(token) == r,
{
    *token = if *token == u64::MAX { 1 } else { *token + 1 };
    *token
}

impl RulesViewState {
    /// The empty page.
    pub fn new() -> (r: RulesViewState)
        ensures
            r.rules@.len() == 0,
            !r.loading,
            r.error@.len() == 0,
            r.next_token == 0,
            r.refresh_token == 0,
    {
        RulesViewState { rules: Vec::new(), loading: false, error: String::new(), next_token: 0, refresh_token: 0 }
    }
}

impl Default for RulesViewState {
    fn default() -> (r: Self)
        ensures
            r.rules@.len() == 0,
            !r.loading,
            r.error@.len() == 0,
            r.next_token == 0,
            r.refresh_token == 0,
    {
        RulesViewState::new()
    }
}

/// A fresh, empty rules page state.
pub fn new_state() -> (r: RulesViewState)
    ensures
        r.rules@.len() == 0,
        !r.loading,
        r.error@.len() == 0,
        r.next_token == 0,
        r.refresh_token == 0,
{
    RulesViewState::new()
}

/// Drops the rules of the core that stopped and invalidates a refresh under way: the
/// refresh token takes a new value, different from the previous one.
pub fn clear_runtime(state: &mut RulesViewState)
    ensures
        final(state).rules@.len() == 0,
        !final(state).loading,
        final(state).error@.len() == 0,
        final(state).next_token == token_after(old(state).next_token),
        final(state).refresh_token == final(state).next_token,
        final(state).refresh_token != 0,
{
    state.rules = Vec::new();
    state.loading = false;
    state.error = String::new();
    let token = advance_token(&mut state.next_token);
    state.refresh_token = token;
}

/// The index of each rule, as sort keys.
pub open spec fn index_keys(rules: Seq<RuleEntry>) -> Seq<i128> {
    rules.map_values(|r: RuleEntry| r.index as i128)
}

/// `order` lists every position of `rules` once, by index, equal indices in list order.
pub open spec fn is_index_order(rules: Seq<RuleEntry>, order: Seq<usize>) -> bool {
    &&& order.len() == rules.len()
    &&& forall|k: int| 0 <= k < order.len() ==> #[trigger] order[k] < rules.len()
    &&& forall|j: int| 0 <= j < rules.len() ==> #[trigger] order.contains(j as usize)
    &&& forall|a: int, b: int| 0 <= a < b < order.len() ==> int_sorts_before(index_keys(rules), #[trigger] order[a] as int, #[trigger] order[b] as int)
}

/// `sorted` is `rules` in the order of their index, rules of equal index in list order.
pub open spec fn sorted_by_index(rules: Seq<RuleEntry>, sorted: Seq<RuleEntry>) -> bool {
    exists|order: Seq<usize>| is_index_order(rules, order)
        && sorted.len() == order.len()
        && forall|k: int| 0 <= k < sorted.len() ==> #[trigger] sorted[k] == rules[order[k] as int]
}

/// The rules in the order of their index; rules of equal index keep their order.
pub fn sort_rules(rules: Vec<RuleEntry>) -> (r: Vec<RuleEntry>)
    ensures
        sorted_by_index(rules@, r@),
{
    let mut keys: Vec<i128> = Vec::new();
    let mut i: usize = 0;
    while i < rules.len()
        invariant
            i <= rules@.len(),
            keys@ == index_keys(rules@).subrange(0, i as int),
        decreases rules@.len() - i,
    {
        keys.push(rules[i].index as i128);
        proof { assert(keys@ =~= index_keys(rules@).subrange(0, i + 1)); }
        i = i + 1;
    }
    proof { assert(keys@ =~= index_keys(rules@)); }
    let order = stable_order_int(&keys);
    let mut out: Vec<RuleEntry> = Vec::new();
    let mut k: usize = 0;
    while k < order.len()
        invariant
            k <= order@.len(),
            order@.len() == rules@.len(),
            forall|t: int| 0 <= t < order@.len() ==> #[trigger] order@[t] < rules@.len(),
            out@.len() == k,
            forall|t: int| 0 <= t < k ==> #[trigger] out@[t] == rules@[order@[t] as int],
        decreases order@.len() - k,
    {
        out.push(rules[order[k]].duplicate());
        k = k + 1;
    }
    proof { assert(is_index_order(rules@, order@)); }
    out
}

/// The error shown for a failed request: what was attempted, a full-width colon, and the
/// error's text.
pub open spec fn request_error(prefix: Seq<char>, detail: Seq<char>) -> Seq<char> {
    prefix + "："@ + detail
}

/// The error shown for a failed request, as a string.
pub fn request_error_text(prefix: &str, detail: &str) -> (r: String)
    ensures
        r@ == request_error(prefix@, detail@),
{
    let mut s = String::new();
    push_text(&mut s, prefix);
    push_text(&mut s, "：");
    push_text(&mut s, detail);
    proof { assert(s@ =~= request_error(prefix@, detail@)); }
    s
}

/// Starts a refresh of the rules: a new token, the error cleared, the page loading.
/// Returns the token.
pub fn begin_refresh(state: &mut RulesViewState) -> (r: u64)
    ensures
        r == token_after(old(state).next_token),
        final(state).next_token == r,
        final(state).refresh_token == r,
        final(state).error@.len() == 0,
        final(state).loading,
        final(state).rules@ == old(state).rules@,
{
    let token = advance_token(&mut state.next_token);
    state.refresh_token = token;
    state.error = String::new();
    state.loading = true;
    token
}

/// Takes the reply to the refresh under `token`, unless a later request replaced it: the
/// rules become the core's rules in index order, or the error names the failure; loading
/// ends. Returns whether the reply applied.
pub fn finish_refresh(state: &mut RulesViewState, token: u64, result: Result<Vec<RuleEntry>, String>) -> (r: bool)
    ensures
        r == (old(state).refresh_token == token),
        !r ==> *final(state) == *old(state),
        r ==> !final(state).loading,
        r ==> match result {
            Ok(rules) => sorted_by_index(rules@, final(state).rules@) && final(state).error@.len() == 0,
            Err(e) => final(state).error@ == request_error("加载规则数据失败"@, e@) && final(state).rules@ == old(state).rules@,
        },
        final(state).next_token == old(state).next_token,
        final(state).refresh_token == old(state).refresh_token,
{
    if state.refresh_token != token {
        return false;
    }
    match result {
        Ok(rules) => {
            state.rules = sort_rules(rules);
            state.error = String::new();
        }
        Err(detail) => {
            state.error = request_error_text("加载规则数据失败", detail.as_str());
        }
    }
    state.loading = false;
    true
}

/// The row of a rule: identifier `rule-<index>`, cells payload, type and proxy, and three
/// empty secondary cells.
pub fn rule_row(rule: &RuleEntry) -> (r: TableRow)
    ensures
        r.id@ == "rule-"@ + decimal(rule.index as nat),
        r.cells@.map_values(|s: String| s@) == seq![rule.payload@, rule.type_@, rule.proxy@],
        r.secondary_cells@.map_values(|s: String| s@) == seq![Seq::<char>::empty(), Seq::<char>::empty(), Seq::<char>::empty()],
{
    let mut id = String::from_str("rule-");
    push_decimal(&mut id, rule.index as u64);
    let mut cells: Vec<String> = Vec::new();
    cells.push(rule.payload.clone());
    cells.push(rule.type_.clone());
    cells.push(rule.proxy.clone());
    let mut secondary: Vec<String> = Vec::new();
    secondary.push(String::new());
    secondary.push(String::new());
    secondary.push(String::new());
    proof {
        assert(cells@.map_values(|s: String| s@) =~= seq![rule.payload@, rule.type_@, rule.proxy@]);
        assert(secondary@.map_values(|s: String| s@) =~= seq![Seq::<char>::empty(), Seq::<char>::empty(), Seq::<char>::empty()]);
    }
    TableRow { id, cells, secondary_cells: secondary }
}

/// The rows of the rules page, one per rule in order.
pub fn rule_rows(state: &RulesViewState) -> (r: Vec<TableRow>)
    ensures
        r@.len() == state.rules@.len(),
        forall|k: int| 0 <= k < r@.len() ==> (#[trigger] r@[k]).id@ == "rule-"@ + decimal(state.rules@[k].index as nat)
            && r@[k].cells@.map_values(|s: String| s@) == seq![state.rules@[k].payload@, state.rules@[k].type_@, state.rules@[k].proxy@],
{
    let mut rows: Vec<TableRow> = Vec::new();
    let mut i: usize = 0;
    while i < state.rules.len()
        invariant
            i <= state.rules@.len(),
            rows@.len() == i,
            forall|k: int| 0 <= k < i ==> (#[trigger] rows@[k]).id@ == "rule-"@ + decimal(state.rules@[k].index as nat)
                && rows@[k].cells@.map_values(|s: String| s@) == seq![state.rules@[k].payload@, state.rules@[k].type_@, state.rules@[k].proxy@],
        decreases state.rules@.len() - i,
    {
        rows.push(rule_row(&state.rules[i]));
        i = i + 1;
    }
    rows
}

} // verus!
