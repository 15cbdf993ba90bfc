//! The proxy page: the proxy groups of the running core with their nodes and latencies,
//! sorted by name with `GLOBAL` last, and how a refresh keeps what the page knew.
use vstd::prelude::*;
use vstd::string::*;
use crate::clash::api::{ProxyEntry, ProxyHistory};
use crate::constants::DEFAULT_TEST_URL;
use crate::controller::rules::{advance_token, token_after, request_error, request_error_text};
use crate::order::{stable_order, sorts_before, keys_view, key_view};
use crate::text::{chars_of, push_text, text_eq};

verus! {

/// No latency test has run.
pub const LATENCY_UNTESTED: i32 = 0;
/// A latency test is running.
pub const LATENCY_TESTING: i32 = 1;
/// The last latency test succeeded.
pub const LATENCY_SUCCESS: i32 = 2;
/// The last latency test failed.
pub const LATENCY_FAILED: i32 = 3;

/// A node of a group as the page shows it.
#[derive(Debug, Clone)]
pub struct ProxyNodeState {
    pub name: String,
    pub type_: String,
    pub latency: i32,
    pub latency_state: i32,
    pub operation_token: u64,
    pub result_override: bool,
}

/// A proxy group as the page shows it.
#[derive(Debug)]
pub struct ProxyGroupState {
    pub name: String,
    pub now: String,
    pub test_url: String,
    pub open: bool,
    pub testing: bool,
    pub test_token: u64,
    pub nodes: Vec<ProxyNodeState>,
}

/// The state of the proxy page.
#[derive(Debug)]
pub struct ProxyViewState {
    pub groups: Vec<ProxyGroupState>,
    pub loading: bool,
    pub error: String,
    pub next_token: u64,
    pub refresh_token: u64,
    pub selection_token: u64,
}

/// A node: name, type, latency, latency state, operation token, whether a test result
/// overrides the core's history.
pub type NodeView = (Seq<char>, Seq<char>, i32, i32, u64, bool);

/// A group: name, selected node, test address, open, testing, test token, nodes.
pub type GroupView = (Seq<char>, Seq<char>, Seq<char>, bool, bool, u64, Seq<NodeView>);

/// A node as plain values.
pub open spec fn node_view(n: ProxyNodeState) -> NodeView {
    (n.name@, n.type_@, n.latency, n.latency_state, n.operation_token, n.result_override)
}

/// A group as plain values.
pub open spec fn group_view(g: ProxyGroupState) -> GroupView {
    (g.name@, g.now@, g.test_url@, g.open, g.testing, g.test_token, nodes_view(g.nodes@))
}

/// The nodes as plain values.
pub open spec fn nodes_view(v: Seq<ProxyNodeState>) -> Seq<NodeView> {
    v.map_values(|n: ProxyNodeState| node_view(n))
}

/// The groups as plain values.
pub open spec fn groups_view(gs: Seq<ProxyGroupState>) -> Seq<GroupView> {
    gs.map_values(|g: ProxyGroupState| group_view(g))
}

impl ProxyNodeState {
    /// A field-by-field copy.
    pub fn duplicate(&self) -> (r: ProxyNodeState)
        ensures
            r == *self,
    {
        ProxyNodeState {
            name: self.name.clone(),
            type_: self.type_.clone(),
            latency: self.latency,
            latency_state: self.latency_state,
            operation_token: self.operation_token,
            result_override: self.result_override,
        }
    }
}

impl ProxyGroupState {
    /// A copy with the same fields and nodes.
    pub fn duplicate(&self) -> (r: ProxyGroupState)
        ensures
            group_view(r) == group_view(*self),
    {
        let mut nodes: Vec<ProxyNodeState> = Vec::new();
        let mut i: usize = 0;
        while i < self.nodes.len()
            invariant
                i <= self.nodes@.len(),
                nodes@ == self.nodes@.subrange(0, i as int),
            decreases self.nodes@.len() - i,
        {
            nodes.push(self.nodes[i].duplicate());
            proof { assert(nodes@ =~= self.nodes@.subrange(0, i + 1)); }
            i = i + 1;
        }
        proof { assert(nodes@ =~= self.nodes@); }
        ProxyGroupState {
            name: self.name.clone(),
            now: self.now.clone(),
            test_url: self.test_url.clone(),
            open: self.open,
            testing: self.testing,
            test_token: self.test_token,
            nodes,
        }
    }
}

impl ProxyViewState {
    /// The empty page.
    pub fn new() -> (r: ProxyViewState)
        ensures
            r.groups@.len() == 0,
            !r.loading,
            r.error@.len() == 0,
            r.next_token == 0,
            r.refresh_token == 0,
            r.selection_token == 0,
    {
        ProxyViewState {
            groups: Vec::new(),
            loading: false,
            error: String::new(),
            next_token: 0,
            refresh_token: 0,
            selection_token: 0,
        }
    }
}

impl Default for ProxyViewState {
    fn default() -> (r: Self)
        ensures
            r.groups@.len() == 0,
            !r.loading,
            r.error@.len() == 0,
            r.next_token == 0,
            r.refresh_token == 0,
            r.selection_token == 0,
    {
        ProxyViewState::new()
    }
}

/// A fresh, empty proxy page state.
pub fn new_state() -> (r: ProxyViewState)
    ensures
        r.groups@.len() == 0,
        !r.loading,
        r.error@.len() == 0,
        r.next_token == 0,
        r.refresh_token == 0,
        r.selection_token == 0,
{
    ProxyViewState::new()
}

/// Drops the groups of the core that stopped and invalidates the refresh and selection
/// under way: both tokens take the new token value.
pub fn clear_runtime(state: &mut ProxyViewState)
    ensures
        final(state).groups@.len() == 0,
        !final(state).loading,
        final(state).error@.len() == 0,
        final(state).next_token == token_after(old(state).next_token),
        final(state).refresh_token == final(state).next_token,
        final(state).selection_token == final(state).next_token,
{
    state.groups = Vec::new();
    state.loading = false;
    state.error = String::new();
    let token = advance_token(&mut state.next_token);
    state.refresh_token = token;
    state.selection_token = token;
}

/// The latency the page starts from: the delay of the last successful measurement in the
/// core's history, or untested.
pub open spec fn initial_latency_of(history: Seq<ProxyHistory>) -> (i32, i32)
    decreases history.len(),
{
    if history.len() == 0 {
        (LATENCY_UNTESTED, LATENCY_UNTESTED)
    } else if history.last().delay > 0 {
        (history.last().delay as i32, LATENCY_SUCCESS)
    } else {
        initial_latency_of(history.drop_last())
    }
}

/// The latency a node starts from.
pub fn initial_latency(entry: &ProxyEntry) -> (r: (i32, i32))
    ensures
        r == initial_latency_of(entry.history@),
{
    let mut i: usize = entry.history.len();
    proof { assert(entry.history@.subrange(0, i as int) =~= entry.history@); }
    while i > 0
        invariant
            i <= entry.history@.len(),
            initial_latency_of(entry.history@) == initial_latency_of(entry.history@.subrange(0, i as int)),
        decreases i,
    {
        if entry.history[i - 1].delay > 0 {
            return (entry.history[i - 1].delay as i32, LATENCY_SUCCESS);
        }
        proof { assert(entry.history@.subrange(0, i as int).drop_last() =~= entry.history@.subrange(0, i - 1)); }
        i = i - 1;
    }
    (LATENCY_UNTESTED, LATENCY_UNTESTED)
}

/// A node starts from its newest successful measurement: when the history holds a
/// measurement with a positive delay and only failed ones after it, the node starts from
/// that delay, tested successfully; with no positive delay at all it starts untested. So
/// a history whose last entry succeeded starts from that entry, and a new successful
/// measurement appended to any history becomes the starting latency.
pub proof fn law_initial_latency_is_newest_success(history: Seq<ProxyHistory>, e: ProxyHistory)
    ensures
        (forall|k: int| 0 <= k < history.len() ==> #[trigger] history[k].delay == 0)
            ==> initial_latency_of(history) == (LATENCY_UNTESTED, LATENCY_UNTESTED),
        forall|k: int| 0 <= k < history.len() && #[trigger] history[k].delay > 0
            && (forall|j: int| k < j < history.len() ==> history[j].delay == 0)
            ==> initial_latency_of(history) == (history[k].delay as i32, LATENCY_SUCCESS),
        history.len() > 0 && history.last().delay > 0
            ==> initial_latency_of(history) == (history.last().delay as i32, LATENCY_SUCCESS),
        e.delay > 0 ==> initial_latency_of(history.push(e)) == (e.delay as i32, LATENCY_SUCCESS),
    decreases history.len(),
{
    assert(history.push(e).drop_last() =~= history);
    if history.len() > 0 {
        let d = history.drop_last();
        law_initial_latency_is_newest_success(d, e);
        assert forall|k: int| 0 <= k < d.len() implies d[k] == history[k] by {}
        if history.last().delay == 0 {
            assert forall|k: int| 0 <= k < history.len() && #[trigger] history[k].delay > 0
                && (forall|j: int| k < j < history.len() ==> history[j].delay == 0)
                implies initial_latency_of(history) == (history[k].delay as i32, LATENCY_SUCCESS) by {
                assert(k < history.len() - 1);
                assert(d[k].delay > 0);
                assert forall|j: int| k < j < d.len() implies d[j].delay == 0 by {
                    assert(history[j].delay == 0);
                }
            }
            if forall|k: int| 0 <= k < history.len() ==> #[trigger] history[k].delay == 0 {
                assert forall|k: int| 0 <= k < d.len() implies #[trigger] d[k].delay == 0 by {
                    assert(history[k].delay == 0);
                }
            }
        } else {
            assert forall|k: int| 0 <= k < history.len() && #[trigger] history[k].delay > 0
                && (forall|j: int| k < j < history.len() ==> history[j].delay == 0)
                implies initial_latency_of(history) == (history[k].delay as i32, LATENCY_SUCCESS) by {
                if k < history.len() - 1 {
                    assert(history[history.len() - 1].delay == 0);
                }
            }
        }
    }
}

/// The position of the first entry with key `name`.
pub open spec fn lookup(proxies: Seq<(String, ProxyEntry)>, name: Seq<char>) -> Option<int> {
    if exists|k: int| 0 <= k < proxies.len() && (#[trigger] proxies[k]).0@ == name {
        Some(choose|k: int| 0 <= k < proxies.len() && (#[trigger] proxies[k]).0@ == name
            && forall|t: int| 0 <= t < k ==> proxies[t].0@ != name)
    } else {
        None
    }
}

fn find_proxy(proxies: &Vec<(String, ProxyEntry)>, name: &String) -> (r: Option<usize>)
    ensures
        match r {
            Some(k) => k < proxies@.len() && lookup(proxies@, name@) == Some(k as int),
            None => lookup(proxies@, name@) is None,
        },
{
    let mut i: usize = 0;
    while i < proxies.len()
        invariant
            i <= proxies@.len(),
            forall|t: int| 0 <= t < i ==> proxies@[t].0@ != name@,
        decreases proxies@.len() - i,
    {
        if proxies[i].0 == *name {
            proof {
                let c = proxies@;
                assert(exists|k: int| 0 <= k < c.len() && (#[trigger] c[k]).0@ == name@);
                let w = choose|k: int| 0 <= k < c.len() && (#[trigger] c[k]).0@ == name@
                    && forall|t: int| 0 <= t < k ==> c[t].0@ != name@;
                assert(w == i as int) by {
                    if w < i as int {} else if w > i as int { assert(c[i as int].0@ == name@); }
                }
            }
            return Some(i);
        }
        i = i + 1;
    }
    None
}

/// A node of a group as first shown: its type and starting latency from its own entry,
/// or type `未知` and untested when the core does not list it.
pub open spec fn initial_node(proxies: Seq<(String, ProxyEntry)>, name: Seq<char>) -> NodeView {
    match lookup(proxies, name) {
        Some(k) => {
            let (latency, state) = initial_latency_of(proxies[k].1.history@);
            (name, proxies[k].1.type_@, latency, state, 0u64, false)
        },
        None => (name, "未知"@, LATENCY_UNTESTED, LATENCY_UNTESTED, 0u64, false),
    }
}

/// A group as first shown: closed, not testing, its nodes in order, its selected node
/// (or nothing), and its test address (the default one when missing or empty).
pub open spec fn initial_group(proxies: Seq<(String, ProxyEntry)>, g: ProxyEntry) -> GroupView {
    (
        g.name@,
        match g.now { Some(n) => n@, None => Seq::empty() },
        match g.test_url {
            Some(u) => if u@.len() > 0 { u@ } else { DEFAULT_TEST_URL@ },
            None => DEFAULT_TEST_URL@,
        },
        false,
        false,
        0u64,
        g.all@.map_values(|n: String| initial_node(proxies, n@)),
    )
}

/// The sort key of a group: `GLOBAL` after all other groups, the others by name.
pub open spec fn group_key(name: Seq<char>) -> Seq<Seq<char>> {
    seq![if name == "GLOBAL"@ { "1"@ } else { "0"@ }, name]
}

/// The entries that are groups (they list nodes), in list order.
pub open spec fn group_entries(proxies: Seq<(String, ProxyEntry)>) -> Seq<ProxyEntry> {
    proxies.map_values(|p: (String, ProxyEntry)| p.1).filter(|e: ProxyEntry| e.all@.len() > 0)
}

/// `order` lists every group entry once, sorted by group key, equal keys in list order.
pub open spec fn is_group_order(groups: Seq<ProxyEntry>, order: Seq<usize>) -> bool {
    &&& order.len() == groups.len()
    &&& forall|k: int| 0 <= k < order.len() ==> #[trigger] order[k] < groups.len()
    &&& forall|j: int| 0 <= j < groups.len() ==> #[trigger] order.contains(j as usize)
    &&& forall|a: int, b: int| 0 <= a < b < order.len() ==> sorts_before(
        groups.map_values(|e: ProxyEntry| group_key(e.name@)),
        #[trigger] order[a] as int,
        #[trigger] order[b] as int,
    )
}

fn initial_node_state(proxies: &Vec<(String, ProxyEntry)>, name: &String) -> (r: ProxyNodeState)
    ensures
        node_view(r) == initial_node(proxies@, name@),
{
    match find_proxy(proxies, name) {
        Some(k) => {
            let (latency, latency_state) = initial_latency(&proxies[k].1);
            ProxyNodeState {
                name: name.clone(),
                type_: proxies[k].1.type_.clone(),
                latency,
                latency_state,
                operation_token: 0,
                result_override: false,
            }
        },
        None => ProxyNodeState {
            name: name.clone(),
            type_: String::from_str("未知"),
            latency: LATENCY_UNTESTED,
            latency_state: LATENCY_UNTESTED,
            operation_token: 0,
            result_override: false,
        },
    }
}

fn initial_group_state(proxies: &Vec<(String, ProxyEntry)>, g: &ProxyEntry) -> (r: ProxyGroupState)
    ensures
        group_view(r) == initial_group(proxies@, *g),
{
    let mut nodes: Vec<ProxyNodeState> = Vec::new();
    let mut i: usize = 0;
    while i < g.all.len()
        invariant
            i <= g.all@.len(),
            nodes_view(nodes@) == g.all@.subrange(0, i as int).map_values(|n: String| initial_node(proxies@, n@)),
        decreases g.all@.len() - i,
    {
        let ghost before = nodes@;
        nodes.push(initial_node_state(proxies, &g.all[i]));
        proof {
            assert(nodes_view(nodes@) =~= nodes_view(before).push(initial_node(proxies@, g.all@[i as int]@)));
            assert(g.all@.subrange(0, i + 1).map_values(|n: String| initial_node(proxies@, n@))
                =~= g.all@.subrange(0, i as int).map_values(|n: String| initial_node(proxies@, n@)).push(initial_node(proxies@, g.all@[i as int]@)));
        }
        i = i + 1;
    }
    proof { assert(g.all@.subrange(0, g.all@.len() as int) =~= g.all@); }
    let now = match &g.now {
        Some(n) => n.clone(),
        None => String::new(),
    };
    let test_url = match &g.test_url {
        Some(u) => if u.as_str().unicode_len() > 0 { u.clone() } else { String::from_str(DEFAULT_TEST_URL) },
        None => String::from_str(DEFAULT_TEST_URL),
    };
    ProxyGroupState { name: g.name.clone(), now, test_url, open: false, testing: false, test_token: 0, nodes }
}

fn group_key_of(name: &String) -> (r: Vec<Vec<char>>)
    ensures
        key_view(r) == group_key(name@),
{
    let is_global = crate::text::text_eq(name.as_str(), "GLOBAL");
    let mut key: Vec<Vec<char>> = Vec::new();
    key.push(if is_global { chars_of("1") } else { chars_of("0") });
    key.push(chars_of(name.as_str()));
    proof { assert(key_view(key) =~= group_key(name@)); }
    key
}

/// The groups of the core as the page first shows them, sorted by name with `GLOBAL`
/// last; entries that list no nodes are not groups.
pub fn build_group_states(proxies: &Vec<(String, ProxyEntry)>) -> (r: Vec<ProxyGroupState>)
    ensures
        exists|order: Seq<usize>| {
            &&& #[trigger] is_group_order(group_entries(proxies@), order)
            &&& r@.len() == order.len()
            &&& forall|k: int| 0 <= k < r@.len() ==> group_view(#[trigger] r@[k]) == initial_group(proxies@, group_entries(proxies@)[order[k] as int])
        },
{
    let ghost pred = |e: ProxyEntry| e.all@.len() > 0;
    let ghost values = proxies@.map_values(|p: (String, ProxyEntry)| p.1);
    let mut groups: Vec<ProxyGroupState> = Vec::new();
    let mut keys: Vec<Vec<Vec<char>>> = Vec::new();
    let mut i: usize = 0;
    proof { assert(values.subrange(0, 0) =~= Seq::<ProxyEntry>::empty()); }
    while i < proxies.len()
        invariant
            i <= proxies@.len(),
            pred == (|e: ProxyEntry| e.all@.len() > 0),
            values == proxies@.map_values(|p: (String, ProxyEntry)| p.1),
            groups@.len() == keys@.len(),
            keys@.len() == values.subrange(0, i as int).filter(pred).len(),
            forall|k: int| 0 <= k < groups@.len() ==> group_view(#[trigger] groups@[k]) == initial_group(proxies@, values.subrange(0, i as int).filter(pred)[k]),
            forall|k: int| 0 <= k < keys@.len() ==> key_view(#[trigger] keys@[k]) == group_key(values.subrange(0, i as int).filter(pred)[k].name@),
        decreases proxies@.len() - i,
    {
        proof {
            assert(values.subrange(0, i + 1) =~= values.subrange(0, i as int).push(values[i as int]));
            values.subrange(0, i as int).lemma_filter_push(values[i as int], pred);
        }
        let e = &proxies[i].1;
        if e.all.len() > 0 {
            groups.push(initial_group_state(proxies, e));
            keys.push(group_key_of(&e.name));
        }
        i = i + 1;
    }
    proof { assert(values.subrange(0, proxies@.len() as int) =~= values); }
    let ghost ge = group_entries(proxies@);
    let order = stable_order(&keys);
    proof {
        assert(keys_view(keys@) =~= ge.map_values(|e: ProxyEntry| group_key(e.name@)));
    }
    let mut out: Vec<ProxyGroupState> = Vec::new();
    let mut k: usize = 0;
    while k < order.len()
        invariant
            k <= order@.len(),
            order@.len() == ge.len(),
            groups@.len() == ge.len(),
            forall|t: int| 0 <= t < order@.len() ==> #[trigger] order@[t] < ge.len(),
            forall|t: int| 0 <= t < groups@.len() ==> group_view(#[trigger] groups@[t]) == initial_group(proxies@, ge[t]),
            out@.len() == k,
            forall|t: int| 0 <= t < k ==> group_view(#[trigger] out@[t]) == initial_group(proxies@, ge[order@[t] as int]),
        decreases order@.len() - k,
    {
        out.push(groups[order[k]].duplicate());
        k = k + 1;
    }
    proof { assert(is_group_order(ge, order@)); }
    out
}


/// The position of the last group named `name`.
pub open spec fn last_named(old: Seq<GroupView>, name: Seq<char>) -> Option<int>
    decreases old.len(),
{
    if old.len() == 0 {
        None
    } else if old.last().0 == name {
        Some(old.len() - 1)
    } else {
        last_named(old.drop_last(), name)
    }
}

/// The position of the first node named `name`.
pub open spec fn first_node_named(nodes: Seq<NodeView>, name: Seq<char>) -> Option<int>
    decreases nodes.len(),
{
    if nodes.len() == 0 {
        None
    } else {
        match first_node_named(nodes.drop_last(), name) {
            Some(k) => Some(k),
            None => if nodes.last().0 == name { Some(nodes.len() - 1) } else { None },
        }
    }
}

/// A refreshed node keeps the latency the page holds for it when that is a test
/// result of the page or a test still running.
pub open spec fn merged_node(old_nodes: Seq<NodeView>, n: NodeView) -> NodeView {
    match first_node_named(old_nodes, n.0) {
        Some(k) => {
            let o = old_nodes[k];
            if o.5 || o.3 == LATENCY_TESTING { (n.0, n.1, o.2, o.3, o.4, o.5) } else { n }
        },
        None => n,
    }
}

/// A refreshed group keeps, from the group of the same name the page held (the last one
/// of that name), whether it is open, its test token, the latencies of `merged_node`, and
/// `testing` while a test of one of its nodes still runs.
pub open spec fn merged_group(old: Seq<GroupView>, g: GroupView) -> GroupView {
    match last_named(old, g.0) {
        None => g,
        Some(i) => {
            let o = old[i];
            let nodes = g.6.map_values(|n: NodeView| merged_node(o.6, n));
            let testing = o.4 && o.6.len() > 0
                && exists|k: int| 0 <= k < nodes.len() && (#[trigger] nodes[k]).3 == LATENCY_TESTING;
            (g.0, g.1, g.2, o.3, testing, o.5, nodes)
        },
    }
}

fn find_last_group(old: &Vec<ProxyGroupState>, name: &String) -> (r: Option<usize>)
    ensures
        match r {
            Some(k) => k < old@.len() && last_named(groups_view(old@), name@) == Some(k as int),
            None => last_named(groups_view(old@), name@) is None,
        },
{
    let ghost ov = groups_view(old@);
    let mut i: usize = old.len();
    proof { assert(ov.subrange(0, i as int) =~= ov); }
    while i > 0
        invariant
            i <= old@.len(),
            ov == groups_view(old@),
            last_named(ov, name@) == last_named(ov.subrange(0, i as int), name@),
        decreases i,
    {
        if old[i - 1].name == *name {
            proof { assert(ov.subrange(0, i as int).last() == group_view(old@[i - 1])); }
            return Some(i - 1);
        }
        proof { assert(ov.subrange(0, i as int).drop_last() =~= ov.subrange(0, i - 1)); }
        i = i - 1;
    }
    None
}

fn find_first_node(nodes: &Vec<ProxyNodeState>, name: &String) -> (r: Option<usize>)
    ensures
        match r {
            Some(k) => k < nodes@.len() && first_node_named(nodes_view(nodes@), name@) == Some(k as int),
            None => first_node_named(nodes_view(nodes@), name@) is None,
        },
{
    let ghost nv = nodes_view(nodes@);
    let mut i: usize = 0;
    proof { assert(nv.subrange(0, 0) =~= Seq::<NodeView>::empty()); }
    while i < nodes.len()
        invariant
            i <= nodes@.len(),
            nv == nodes_view(nodes@),
            first_node_named(nv.subrange(0, i as int), name@) is None,
        decreases nodes@.len() - i,
    {
        proof { assert(nv.subrange(0, i + 1).drop_last() =~= nv.subrange(0, i as int)); }
        if nodes[i].name == *name {
            proof { lemma_first_node_extends(nv, name@, i as int + 1); }
            return Some(i);
        }
        i = i + 1;
    }
    proof { assert(nv.subrange(0, nodes@.len() as int) =~= nv); }
    None
}

proof fn lemma_first_node_extends(nv: Seq<NodeView>, name: Seq<char>, n: int)
    requires
        0 < n <= nv.len(),
        first_node_named(nv.subrange(0, n), name) is Some,
    ensures
        first_node_named(nv, name) == first_node_named(nv.subrange(0, n), name),
    decreases nv.len() - n,
{
    if n < nv.len() {
        assert(nv.subrange(0, n + 1).drop_last() =~= nv.subrange(0, n));
        lemma_first_node_extends(nv, name, n + 1);
    } else {
        assert(nv.subrange(0, n) =~= nv);
    }
}

fn merge_group(old: &Vec<ProxyGroupState>, g: ProxyGroupState) -> (r: ProxyGroupState)
    ensures
        group_view(r) == merged_group(groups_view(old@), group_view(g)),
{
    let i = match find_last_group(old, &g.name) {
        Some(i) => i,
        None => return g,
    };
    let o = &old[i];
    proof { assert(groups_view(old@)[i as int] == group_view(old@[i as int])); }
    let ghost onv = nodes_view(o.nodes@);
    let mut nodes: Vec<ProxyNodeState> = Vec::new();
    let mut any_testing = false;
    let mut k: usize = 0;
    let ghost gnv = nodes_view(g.nodes@);
    while k < g.nodes.len()
        invariant
            k <= g.nodes@.len(),
            i < old@.len(),
            o == &old@[i as int],
            onv == nodes_view(o.nodes@),
            gnv == nodes_view(g.nodes@),
            nodes_view(nodes@) == gnv.subrange(0, k as int).map_values(|n: NodeView| merged_node(onv, n)),
            any_testing == exists|t: int| 0 <= t < k && (#[trigger] nodes_view(nodes@)[t]).3 == LATENCY_TESTING,
        decreases g.nodes@.len() - k,
    {
        let n = &g.nodes[k];
        let mut m = n.duplicate();
        match find_first_node(&o.nodes, &n.name) {
            Some(j) => {
                let on = &o.nodes[j];
                if on.result_override || on.latency_state == LATENCY_TESTING {
                    m.latency = on.latency;
                    m.latency_state = on.latency_state;
                    m.operation_token = on.operation_token;
                    m.result_override = on.result_override;
                }
            },
            None => {},
        }
        proof { assert(node_view(m) == merged_node(onv, gnv[k as int])); }
        let ghost before = nodes@;
        if m.latency_state == LATENCY_TESTING {
            any_testing = true;
        }
        nodes.push(m);
        proof {
            assert(nodes_view(nodes@) =~= nodes_view(before).push(node_view(m)));
            assert(gnv.subrange(0, k + 1).map_values(|n: NodeView| merged_node(onv, n))
                =~= gnv.subrange(0, k as int).map_values(|n: NodeView| merged_node(onv, n)).push(merged_node(onv, gnv[k as int])));
            let nv = nodes_view(nodes@);
            if any_testing {
                if node_view(m).3 == LATENCY_TESTING {
                    assert(nv[k as int].3 == LATENCY_TESTING);
                } else {
                    let t = choose|t: int| 0 <= t < k && (#[trigger] nodes_view(before)[t]).3 == LATENCY_TESTING;
                    assert(nv[t] == nodes_view(before)[t]);
                }
            } else {
                assert forall|t: int| 0 <= t < k + 1 implies (#[trigger] nv[t]).3 != LATENCY_TESTING by {
                    if t < k {
                        assert(nv[t] == nodes_view(before)[t]);
                    }
                }
            }
        }
        k = k + 1;
    }
    proof { assert(gnv.subrange(0, g.nodes@.len() as int) =~= gnv); }
    let testing = o.testing && o.nodes.len() > 0 && any_testing;
    ProxyGroupState {
        name: g.name,
        now: g.now,
        test_url: g.test_url,
        open: o.open,
        testing,
        test_token: o.test_token,
        nodes,
    }
}

/// `new` is what a refresh from `proxies` makes of the groups `old`: the groups of the
/// core in display order, each merged with what the page held for it.
pub open spec fn is_merge_of(old: Seq<GroupView>, proxies: Seq<(String, ProxyEntry)>, new: Seq<GroupView>) -> bool {
    exists|order: Seq<usize>| {
        &&& #[trigger] is_group_order(group_entries(proxies), order)
        &&& new.len() == order.len()
        &&& forall|k: int| 0 <= k < order.len() ==> #[trigger] new[k] == merged_group(
            old,
            initial_group(proxies, group_entries(proxies)[order[k] as int]),
        )
    }
}

impl ProxyViewState {
    /// Refreshes the groups from the core's proxies, keeping for each group what
    /// `merged_group` keeps from the group of the same name shown before.
    pub fn merge_proxies(&mut self, proxies: &Vec<(String, ProxyEntry)>)
        ensures
            is_merge_of(groups_view(old(self).groups@), proxies@, groups_view(final(self).groups@)),
            final(self).loading == old(self).loading,
            final(self).error == old(self).error,
            final(self).next_token == old(self).next_token,
            final(self).refresh_token == old(self).refresh_token,
            final(self).selection_token == old(self).selection_token,
    {
        let mut old_groups: Vec<ProxyGroupState> = Vec::new();
        std::mem::swap(&mut old_groups, &mut self.groups);
        let fresh = build_group_states(proxies);
        let mut fresh = fresh;
        let mut merged: Vec<ProxyGroupState> = Vec::new();
        let ghost fv = groups_view(fresh@);
        let ghost ov = groups_view(old_groups@);
        while fresh.len() > 0
            invariant
                merged@.len() + fresh@.len() == fv.len(),
                ov == groups_view(old_groups@),
                forall|t: int| 0 <= t < merged@.len() ==> group_view(#[trigger] merged@[t]) == merged_group(ov, fv[t]),
                forall|t: int| 0 <= t < fresh@.len() ==> group_view(#[trigger] fresh@[t]) == fv[merged@.len() + t],
            decreases fresh@.len(),
        {
            let g = fresh.remove(0);
            proof { assert(group_view(g) == fv[merged@.len() as int]); }
            merged.push(merge_group(&old_groups, g));
        }
        self.groups = merged;
    }
}

// ---------------------------------------------------------------------------
// Requests to the core and their replies

/// The position a page index names: negative indices name the first one.
pub open spec fn index_position(i: i32) -> int {
    if i < 0 { 0 } else { i as int }
}

fn position_of(i: i32) -> (r: usize)
    ensures
        r as int == index_position(i),
{
    if i < 0 { 0 } else { i as usize }
}

/// A node whose latency test starts under `token`.
pub open spec fn testing_node(n: NodeView, token: u64) -> NodeView {
    (n.0, n.1, 0, LATENCY_TESTING, token, true)
}

/// A node after a latency test: the delay when the test gave a positive one, else failed.
pub open spec fn measured_node(n: NodeView, delay: Option<u16>) -> NodeView {
    if delay is Some && delay->0 > 0 {
        (n.0, n.1, delay->0 as i32, LATENCY_SUCCESS, n.4, n.5)
    } else {
        (n.0, n.1, 0, LATENCY_FAILED, n.4, n.5)
    }
}

/// A group whose latency test starts under `token`: every node is under test.
pub open spec fn group_under_test(g: GroupView, token: u64) -> GroupView {
    (g.0, g.1, g.2, g.3, true, token, g.6.map_values(|n: NodeView| testing_node(n, token)))
}

/// The delay reported for a node: the entry with its name. The core reports the delays
/// as a map keyed by node name (`distinct_names`), so there is at most one; of a list
/// that repeats a name, the first entry counts.
pub open spec fn delay_of(delays: Seq<(Seq<char>, u16)>, name: Seq<char>) -> Option<u16>
    decreases delays.len(),
{
    if delays.len() == 0 {
        None
    } else if delays[0].0 == name {
        Some(delays[0].1)
    } else {
        delay_of(delays.drop_first(), name)
    }
}

/// A group after the reply to its test under `token`: the nodes still under that test
/// take their delay from the reply (failed when the request failed or the reply has no
/// positive delay for them); the group is no longer testing.
pub open spec fn group_test_result(g: GroupView, token: u64, delays: Option<Seq<(Seq<char>, u16)>>) -> GroupView {
    (g.0, g.1, g.2, g.3, false, g.5, g.6.map_values(|n: NodeView|
        if n.4 == token {
            measured_node(n, match delays { Some(ds) => delay_of(ds, n.0), None => None })
        } else {
            n
        }))
}

/// The position of the first group named `name`.
pub open spec fn first_group_named(groups: Seq<GroupView>, name: Seq<char>) -> Option<int>
    decreases groups.len(),
{
    if groups.len() == 0 {
        None
    } else if groups[0].0 == name {
        Some(0)
    } else {
        match first_group_named(groups.drop_first(), name) {
            Some(k) => Some(k + 1),
            None => None,
        }
    }
}

/// A list of names and delays as plain values.
pub open spec fn delays_view(v: Seq<(String, u16)>) -> Seq<(Seq<char>, u16)> {
    v.map_values(|d: (String, u16)| (d.0@, d.1))
}

/// The delays of a reply to a group test, or none when the request failed.
pub open spec fn reply_delays(result: Result<Vec<(String, u16)>, String>) -> Option<Seq<(Seq<char>, u16)>> {
    match result {
        Ok(v) => Some(delays_view(v@)),
        Err(_) => None,
    }
}

/// The page apart from its groups is the same in `a` and `b`.
pub open spec fn same_but_groups(a: ProxyViewState, b: ProxyViewState) -> bool {
    &&& a.loading == b.loading
    &&& a.error == b.error
    &&& a.next_token == b.next_token
    &&& a.refresh_token == b.refresh_token
    &&& a.selection_token == b.selection_token
}

fn find_first_group(groups: &Vec<ProxyGroupState>, name: &str) -> (r: Option<usize>)
    ensures
        match r {
            Some(k) => k < groups@.len() && first_group_named(groups_view(groups@), name@) == Some(k as int),
            None => first_group_named(groups_view(groups@), name@) is None,
        },
{
    let ghost gv = groups_view(groups@);
    let mut i: usize = 0;
    proof { assert(gv.subrange(0, gv.len() as int) =~= gv); }
    while i < groups.len()
        invariant
            i <= groups@.len(),
            gv == groups_view(groups@),
            first_group_named(gv, name@) == (match first_group_named(gv.subrange(i as int, gv.len() as int), name@) {
                Some(k) => Some(k + i),
                None => None::<int>,
            }),
        decreases groups@.len() - i,
    {
        let ghost rest = gv.subrange(i as int, gv.len() as int);
        proof { assert(rest.drop_first() =~= gv.subrange(i + 1, gv.len() as int)); }
        proof { assert(rest[0] == group_view(groups@[i as int])); }
        if text_eq(groups[i].name.as_str(), name) {
            return Some(i);
        }
        i = i + 1;
    }
    proof { assert(gv.subrange(i as int, gv.len() as int).len() == 0); }
    None
}

/// Opens a closed group or closes an open one; an index past the groups changes nothing.
pub fn toggle_group(state: &mut ProxyViewState, index: i32)
    ensures
        same_but_groups(*final(state), *old(state)),
        groups_view(final(state).groups@) == (if index_position(index) < old(state).groups@.len() {
            let g = groups_view(old(state).groups@)[index_position(index)];
            groups_view(old(state).groups@).update(index_position(index), (g.0, g.1, g.2, !g.3, g.4, g.5, g.6))
        } else {
            groups_view(old(state).groups@)
        }),
{
    let p = position_of(index);
    if p < state.groups.len() {
        let open = state.groups[p].open;
        state.groups[p].open = !open;
        proof {
            assert(groups_view(state.groups@) =~= groups_view(old(state).groups@).update(p as int,
                (groups_view(old(state).groups@)[p as int].0, groups_view(old(state).groups@)[p as int].1,
                 groups_view(old(state).groups@)[p as int].2, !open, groups_view(old(state).groups@)[p as int].4,
                 groups_view(old(state).groups@)[p as int].5, groups_view(old(state).groups@)[p as int].6)));
        }
    }
}

/// Starts a latency test of a whole group, unless the index names no group or the group
/// is under test already: every node goes under test with a new token. Returns the
/// group's name, its test address and the token.
pub fn begin_group_test(state: &mut ProxyViewState, group_index: i32) -> (r: Option<(String, String, u64)>)
    ensures
        ({
            let p = index_position(group_index);
            if p >= old(state).groups@.len() || old(state).groups@[p].testing {
                r is None && groups_view(final(state).groups@) == groups_view(old(state).groups@)
                    && same_but_groups(*final(state), *old(state))
            } else {
                let t = token_after(old(state).next_token);
                &&& r is Some
                &&& r.unwrap().0@ == old(state).groups@[p].name@
                &&& r.unwrap().1@ == old(state).groups@[p].test_url@
                &&& r.unwrap().2 == t
                &&& final(state).next_token == t
                &&& groups_view(final(state).groups@) == groups_view(old(state).groups@).update(p,
                    group_under_test(groups_view(old(state).groups@)[p], t))
                &&& final(state).loading == old(state).loading
                &&& final(state).error == old(state).error
                &&& final(state).refresh_token == old(state).refresh_token
                &&& final(state).selection_token == old(state).selection_token
            }
        }),
{
    let p = position_of(group_index);
    if p >= state.groups.len() || state.groups[p].testing {
        return None;
    }
    let token = advance_token(&mut state.next_token);
    let ghost before = groups_view(state.groups@);
    let mut g = state.groups.remove(p);
    let ghost g0 = group_view(g);
    proof { assert(g0 == before[p as int]); }
    g.testing = true;
    g.test_token = token;
    let mut k: usize = 0;
    while k < g.nodes.len()
        invariant
            k <= g.nodes@.len(),
            g.nodes@.len() == g0.6.len(),
            g.name@ == g0.0 && g.now@ == g0.1 && g.test_url@ == g0.2 && g.open == g0.3,
            g.testing && g.test_token == token,
            forall|t: int| 0 <= t < k ==> node_view(#[trigger] g.nodes@[t]) == testing_node(g0.6[t], token),
            forall|t: int| k <= t < g.nodes@.len() ==> node_view(#[trigger] g.nodes@[t]) == g0.6[t],
        decreases g.nodes@.len() - k,
    {
        g.nodes[k].latency = 0;
        g.nodes[k].latency_state = LATENCY_TESTING;
        g.nodes[k].operation_token = token;
        g.nodes[k].result_override = true;
        k = k + 1;
    }
    let result = (g.name.clone(), g.test_url.clone(), token);
    proof {
        assert(nodes_view(g.nodes@) =~= g0.6.map_values(|n: NodeView| testing_node(n, token)));
        assert(group_view(g) == group_under_test(g0, token));
    }
    state.groups.insert(p, g);
    proof {
        assert(groups_view(state.groups@) =~= before.update(p as int, group_under_test(g0, token)));
    }
    Some(result)
}

/// Takes the reply to the test of the group named `group_name` under `token`: when the
/// first group of that name still waits for it, its nodes under that test take their
/// delays (see `group_test_result`). Returns whether the reply applied.
pub fn finish_group_test(state: &mut ProxyViewState, group_name: &str, token: u64, result: Result<Vec<(String, u16)>, String>) -> (r: bool)
    ensures
        same_but_groups(*final(state), *old(state)),
        ({
            let k = first_group_named(groups_view(old(state).groups@), group_name@);
            &&& r == (k is Some && old(state).groups@[k->0].test_token == token)
            &&& r ==> groups_view(final(state).groups@) == groups_view(old(state).groups@).update(k->0,
                group_test_result(groups_view(old(state).groups@)[k->0], token, reply_delays(result)))
            &&& !r ==> groups_view(final(state).groups@) == groups_view(old(state).groups@)
        }),
{
    let p = match find_first_group(&state.groups, group_name) {
        Some(p) => p,
        None => return false,
    };
    if state.groups[p].test_token != token {
        return false;
    }
    let ghost before = groups_view(state.groups@);
    let ghost dv = reply_delays(result);
    let mut g = state.groups.remove(p);
    let ghost g0 = group_view(g);
    proof { assert(g0 == before[p as int]); }
    let mut k: usize = 0;
    while k < g.nodes.len()
        invariant
            k <= g.nodes@.len(),
            g.nodes@.len() == g0.6.len(),
            dv == reply_delays(result),
            g.name@ == g0.0 && g.now@ == g0.1 && g.test_url@ == g0.2 && g.open == g0.3,
            g.testing == g0.4 && g.test_token == g0.5 && g.test_token == token,
            forall|t: int| 0 <= t < k ==> node_view(#[trigger] g.nodes@[t]) == (if g0.6[t].4 == token {
                measured_node(g0.6[t], match dv { Some(ds) => delay_of(ds, g0.6[t].0), None => None })
            } else {
                g0.6[t]
            }),
            forall|t: int| k <= t < g.nodes@.len() ==> node_view(#[trigger] g.nodes@[t]) == g0.6[t],
        decreases g.nodes@.len() - k,
    {
        if g.nodes[k].operation_token == token {
            let delay = match &result {
                Ok(delays) => delay_lookup(delays, g.nodes[k].name.as_str()),
                Err(_) => None,
            };
            match delay {
                Some(d) if d > 0 => {
                    g.nodes[k].latency = d as i32;
                    g.nodes[k].latency_state = LATENCY_SUCCESS;
                }
                _ => {
                    g.nodes[k].latency = 0;
                    g.nodes[k].latency_state = LATENCY_FAILED;
                }
            }
        }
        k = k + 1;
    }
    g.testing = false;
    proof {
        assert(nodes_view(g.nodes@) =~= g0.6.map_values(|n: NodeView|
            if n.4 == token {
                measured_node(n, match dv { Some(ds) => delay_of(ds, n.0), None => None })
            } else {
                n
            }));
        assert(group_view(g) == group_test_result(g0, token, dv));
    }
    state.groups.insert(p, g);
    proof {
        assert(groups_view(state.groups@) =~= before.update(p as int, group_test_result(g0, token, dv)));
    }
    true
}

fn delay_lookup(delays: &Vec<(String, u16)>, name: &str) -> (r: Option<u16>)
    ensures
        r == delay_of(delays_view(delays@), name@),
{
    let ghost dv = delays_view(delays@);
    let mut i: usize = 0;
    proof { assert(dv.subrange(0, dv.len() as int) =~= dv); }
    while i < delays.len()
        invariant
            i <= delays@.len(),
            dv == delays_view(delays@),
            delay_of(dv, name@) == delay_of(dv.subrange(i as int, dv.len() as int), name@),
        decreases delays@.len() - i,
    {
        let ghost rest = dv.subrange(i as int, dv.len() as int);
        proof { assert(rest.drop_first() =~= dv.subrange(i + 1, dv.len() as int)); }
        proof { assert(rest[0] == (delays@[i as int].0@, delays@[i as int].1)); }
        if text_eq(delays[i].0.as_str(), name) {
            return Some(delays[i].1);
        }
        i = i + 1;
    }
    None
}

/// Starts a latency test of one node, unless the indices name none or the node is under
/// test already: the node goes under test with a new token. Returns the group's name, the
/// node's name, the group's test address and the token.
pub fn begin_node_test(state: &mut ProxyViewState, group_index: i32, node_index: i32) -> (r: Option<(String, String, String, u64)>)
    ensures
        ({
            let p = index_position(group_index);
            let q = index_position(node_index);
            if p >= old(state).groups@.len() || q >= old(state).groups@[p].nodes@.len()
                || old(state).groups@[p].nodes@[q].latency_state == LATENCY_TESTING {
                r is None && groups_view(final(state).groups@) == groups_view(old(state).groups@)
                    && same_but_groups(*final(state), *old(state))
            } else {
                let t = token_after(old(state).next_token);
                let g = groups_view(old(state).groups@)[p];
                &&& r is Some
                &&& r.unwrap().0@ == g.0
                &&& r.unwrap().1@ == g.6[q].0
                &&& r.unwrap().2@ == g.2
                &&& r.unwrap().3 == t
                &&& final(state).next_token == t
                &&& groups_view(final(state).groups@) == groups_view(old(state).groups@).update(p,
                    (g.0, g.1, g.2, g.3, g.4, g.5, g.6.update(q, testing_node(g.6[q], t))))
                &&& final(state).loading == old(state).loading
                &&& final(state).error == old(state).error
                &&& final(state).refresh_token == old(state).refresh_token
                &&& final(state).selection_token == old(state).selection_token
            }
        }),
{
    let p = position_of(group_index);
    let q = position_of(node_index);
    if p >= state.groups.len() || q >= state.groups[p].nodes.len()
        || state.groups[p].nodes[q].latency_state == LATENCY_TESTING {
        return None;
    }
    let token = advance_token(&mut state.next_token);
    let ghost before = groups_view(state.groups@);
    let mut g = state.groups.remove(p);
    let ghost g0 = group_view(g);
    proof { assert(g0 == before[p as int]); }
    g.nodes[q].latency = 0;
    g.nodes[q].latency_state = LATENCY_TESTING;
    g.nodes[q].operation_token = token;
    g.nodes[q].result_override = true;
    let result = (g.name.clone(), g.nodes[q].name.clone(), g.test_url.clone(), token);
    proof {
        assert(nodes_view(g.nodes@) =~= g0.6.update(q as int, testing_node(g0.6[q as int], token)));
    }
    state.groups.insert(p, g);
    proof {
        assert(groups_view(state.groups@) =~= before.update(p as int,
            (g0.0, g0.1, g0.2, g0.3, g0.4, g0.5, g0.6.update(q as int, testing_node(g0.6[q as int], token)))));
    }
    Some(result)
}

/// Takes the reply to the test of one node under `token`: when the first node of that
/// name in the first group of that name still waits for it, it takes the delay (failed
/// when the request failed or the delay is 0). Returns whether the reply applied.
pub fn finish_node_test(state: &mut ProxyViewState, group_name: &str, node_name: &str, token: u64, result: Result<u16, String>) -> (r: bool)
    ensures
        same_but_groups(*final(state), *old(state)),
        ({
            let gv = groups_view(old(state).groups@);
            let k = first_group_named(gv, group_name@);
            let j = if k is Some { first_node_named(gv[k->0].6, node_name@) } else { None };
            &&& r == (k is Some && j is Some && gv[k->0].6[j->0].4 == token)
            &&& r ==> groups_view(final(state).groups@) == gv.update(k->0, (gv[k->0].0, gv[k->0].1, gv[k->0].2,
                gv[k->0].3, gv[k->0].4, gv[k->0].5, gv[k->0].6.update(j->0, measured_node(gv[k->0].6[j->0], match result {
                    Ok(d) => Some(d),
                    Err(_) => None,
                }))))
            &&& !r ==> groups_view(final(state).groups@) == gv
        }),
{
    let p = match find_first_group(&state.groups, group_name) {
        Some(p) => p,
        None => return false,
    };
    proof { assert(groups_view(state.groups@)[p as int] == group_view(state.groups@[p as int])); }
    let wanted = node_name.to_string();
    let q = match find_first_node(&state.groups[p].nodes, &wanted) {
        Some(q) => q,
        None => return false,
    };
    if state.groups[p].nodes[q].operation_token != token {
        return false;
    }
    let ghost before = groups_view(state.groups@);
    let mut g = state.groups.remove(p);
    let ghost g0 = group_view(g);
    proof { assert(g0 == before[p as int]); }
    match result {
        Ok(d) if d > 0 => {
            g.nodes[q].latency = d as i32;
            g.nodes[q].latency_state = LATENCY_SUCCESS;
        }
        _ => {
            g.nodes[q].latency = 0;
            g.nodes[q].latency_state = LATENCY_FAILED;
        }
    }
    proof {
        let dv: Option<u16> = match result { Ok(d) => Some(d), Err(_) => None };
        assert(nodes_view(g.nodes@) =~= g0.6.update(q as int, measured_node(g0.6[q as int], dv)));
    }
    state.groups.insert(p, g);
    proof {
        let dv: Option<u16> = match result { Ok(d) => Some(d), Err(_) => None };
        assert(groups_view(state.groups@) =~= before.update(p as int,
            (g0.0, g0.1, g0.2, g0.3, g0.4, g0.5, g0.6.update(q as int, measured_node(g0.6[q as int], dv)))));
    }
    true
}

/// Starts a refresh of the groups: a new token for both the refresh and any selection
/// (which makes a selection under way stale), the error cleared, the page loading.
/// Returns the token.
pub fn begin_refresh(state: &mut ProxyViewState) -> (r: u64)
    ensures
        r == token_after(old(state).next_token),
        final(state).next_token == r,
        final(state).refresh_token == r,
        final(state).selection_token == r,
        final(state).error@.len() == 0,
        final(state).loading,
        groups_view(final(state).groups@) == groups_view(old(state).groups@),
{
    let token = advance_token(&mut state.next_token);
    state.refresh_token = token;
    state.selection_token = token;
    state.error = String::new();
    state.loading = true;
    token
}

/// Takes the reply to the refresh under `token`, unless a later request replaced it: the
/// groups are merged from the core's proxies, or the error names the failure; loading
/// ends. Returns whether the reply applied.
pub fn finish_refresh(state: &mut ProxyViewState, token: u64, result: Result<Vec<(String, ProxyEntry)>, String>) -> (r: bool)
    ensures
        r == (old(state).refresh_token == token),
        !r ==> groups_view(final(state).groups@) == groups_view(old(state).groups@) && same_but_groups(*final(state), *old(state)),
        r ==> !final(state).loading,
        r ==> match result {
            Ok(p) => is_merge_of(groups_view(old(state).groups@), p@, groups_view(final(state).groups@))
                && final(state).error@.len() == 0,
            Err(e) => final(state).error@ == request_error("加载代理数据失败"@, e@)
                && groups_view(final(state).groups@) == groups_view(old(state).groups@),
        },
        final(state).next_token == old(state).next_token,
        final(state).refresh_token == old(state).refresh_token,
        final(state).selection_token == old(state).selection_token,
{
    if state.refresh_token != token {
        return false;
    }
    match result {
        Ok(proxies) => {
            state.merge_proxies(&proxies);
            state.error = String::new();
        }
        Err(detail) => {
            state.error = request_error_text("加载代理数据失败", detail.as_str());
        }
    }
    state.loading = false;
    true
}

/// Starts the selection of a node in a group, unless the indices name none: a new token
/// for the selection and any refresh, the error cleared, the page loading. Returns the
/// group's name, the node's name and the token.
pub fn begin_selection(state: &mut ProxyViewState, group_index: i32, node_index: i32) -> (r: Option<(String, String, u64)>)
    ensures
        ({
            let p = index_position(group_index);
            let q = index_position(node_index);
            if p >= old(state).groups@.len() || q >= old(state).groups@[p].nodes@.len() {
                r is None && groups_view(final(state).groups@) == groups_view(old(state).groups@)
                    && same_but_groups(*final(state), *old(state))
            } else {
                let t = token_after(old(state).next_token);
                &&& r is Some
                &&& r.unwrap().0@ == old(state).groups@[p].name@
                &&& r.unwrap().1@ == old(state).groups@[p].nodes@[q].name@
                &&& r.unwrap().2 == t
                &&& final(state).next_token == t
                &&& final(state).refresh_token == t
                &&& final(state).selection_token == t
                &&& final(state).error@.len() == 0
                &&& final(state).loading
                &&& groups_view(final(state).groups@) == groups_view(old(state).groups@)
            }
        }),
{
    let p = position_of(group_index);
    let q = position_of(node_index);
    if p >= state.groups.len() || q >= state.groups[p].nodes.len() {
        return None;
    }
    let group_name = state.groups[p].name.clone();
    let node_name = state.groups[p].nodes[q].name.clone();
    let token = advance_token(&mut state.next_token);
    state.selection_token = token;
    state.refresh_token = token;
    state.error = String::new();
    state.loading = true;
    Some((group_name, node_name, token))
}

/// Takes the reply to the selection under `token` (the selection, then a fresh read of the
/// proxies), unless a later request replaced it: the groups are merged from the reply, or
/// the error names the failure; loading ends. Returns whether the reply applied.
pub fn finish_selection(state: &mut ProxyViewState, token: u64, result: Result<Vec<(String, ProxyEntry)>, String>) -> (r: bool)
    ensures
        r == (old(state).selection_token == token),
        !r ==> groups_view(final(state).groups@) == groups_view(old(state).groups@) && same_but_groups(*final(state), *old(state)),
        r ==> !final(state).loading,
        r ==> match result {
            Ok(p) => is_merge_of(groups_view(old(state).groups@), p@, groups_view(final(state).groups@))
                && final(state).error@.len() == 0,
            Err(e) => final(state).error@ == request_error("选择代理节点失败"@, e@)
                && groups_view(final(state).groups@) == groups_view(old(state).groups@),
        },
        final(state).next_token == old(state).next_token,
        final(state).refresh_token == old(state).refresh_token,
        final(state).selection_token == old(state).selection_token,
{
    if state.selection_token != token {
        return false;
    }
    match result {
        Ok(proxies) => {
            state.merge_proxies(&proxies);
            state.error = String::new();
        }
        Err(detail) => {
            state.error = request_error_text("选择代理节点失败", detail.as_str());
        }
    }
    state.loading = false;
    true
}

/// With each name once, as the core's map of delays has it, the delay of a node is the
/// one its own entry reports.
pub proof fn law_delay_is_the_named_entry(delays: Seq<(Seq<char>, u16)>, i: int)
    requires
        0 <= i < delays.len(),
        forall|a: int, b: int| 0 <= a < b < delays.len() ==> delays[a].0 != delays[b].0,
    ensures
        delay_of(delays, delays[i].0) == Some(delays[i].1),
    decreases i,
{
    if i > 0 {
        let t = delays.drop_first();
        assert(delays[0].0 != delays[i].0);
        assert(t[i - 1] == delays[i]);
        law_delay_is_the_named_entry(t, i - 1);
    }
}

} // verus!
