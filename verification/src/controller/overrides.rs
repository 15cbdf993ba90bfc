//! The override page: overrides are shown enabled first and then by `sort`; every change
//! (toggle, move, delete) renumbers `sort` to the shown positions `0, 1, 2, ...`.
use vstd::prelude::*;
use vstd::string::*;
use crate::app::config::{OverrideEntry, SourceType};
use crate::controller::source::{fallback_text, fallback_name, source_type_name, source_type_text};
use crate::order::{int_order, is_int_order, sorted_positions, lemma_int_order_exists};
use crate::text::{trimmed, trim_text};
use crate::controller::config::OperationOutcome;
use crate::controller::rules::{advance_token, token_after};

verus! {

/// The position key of an override on the page: enabled overrides before disabled ones,
/// each group by ascending `sort`.
pub open spec fn display_key(e: OverrideEntry) -> i128 {
    ((if e.enabled { 0int } else { 0x1_0000_0000_0000_0000int }) + e.sort) as i128
}

/// The position keys of the overrides.
pub open spec fn display_keys(entries: Seq<OverrideEntry>) -> Seq<i128> {
    entries.map_values(|e: OverrideEntry| display_key(e))
}

/// The overrides in the order the page shows them: enabled first, then by `sort`, equal
/// keys in list order.
pub open spec fn display_sorted(entries: Seq<OverrideEntry>) -> Seq<OverrideEntry> {
    int_order(display_keys(entries)).map_values(|i: usize| entries[i as int])
}

/// The override with `sort` set to `k`.
pub open spec fn with_sort(e: OverrideEntry, k: int) -> OverrideEntry {
    OverrideEntry {
        name: e.name,
        enabled: e.enabled,
        source_type: e.source_type,
        source_uri: e.source_uri,
        sort: k as i64,
        path: e.path,
    }
}

/// The overrides with `sort` set to their positions.
pub open spec fn renumbered(s: Seq<OverrideEntry>) -> Seq<OverrideEntry> {
    s.map(|k: int, e: OverrideEntry| with_sort(e, k))
}

/// The overrides in page order, renumbered.
pub open spec fn normalized(entries: Seq<OverrideEntry>) -> Seq<OverrideEntry> {
    renumbered(display_sorted(entries))
}

fn display_keys_of(entries: &[OverrideEntry]) -> (r: Vec<i128>)
    ensures
        r@ == display_keys(entries@),
{
    let mut keys: Vec<i128> = Vec::new();
    let mut i: usize = 0;
    while i < entries.len()
        invariant
            i <= entries@.len(),
            keys@ == display_keys(entries@).subrange(0, i as int),
        decreases entries@.len() - i,
    {
        let e = &entries[i];
        let group: i128 = if e.enabled { 0 } else { 0x1_0000_0000_0000_0000 };
        keys.push(group + (e.sort as i128));
        proof { assert(keys@ =~= display_keys(entries@).subrange(0, i + 1)); }
        i = i + 1;
    }
    proof { assert(keys@ =~= display_keys(entries@)); }
    keys
}

/// The overrides in the order the page shows them.
pub fn sorted_entries(entries: &[OverrideEntry]) -> (r: Vec<OverrideEntry>)
    ensures
        r@ == display_sorted(entries@),
{
    let keys = display_keys_of(entries);
    let order = sorted_positions(&keys);
    let mut out: Vec<OverrideEntry> = Vec::new();
    let mut k: usize = 0;
    while k < order.len()
        invariant
            k <= order@.len(),
            is_int_order(keys@, order@),
            keys@.len() == entries@.len(),
            out@ == order@.subrange(0, k as int).map_values(|i: usize| entries@[i as int]),
        decreases order@.len() - k,
    {
        let e = entries[order[k]].duplicate();
        out.push(e);
        proof {
            assert(order@.subrange(0, k + 1).map_values(|i: usize| entries@[i as int])
                =~= order@.subrange(0, k as int).map_values(|i: usize| entries@[i as int]).push(entries@[order@[k as int] as int]));
        }
        k = k + 1;
    }
    proof { assert(order@.subrange(0, order@.len() as int) =~= order@); }
    out
}

fn renumber(entries: Vec<OverrideEntry>) -> (r: Vec<OverrideEntry>)
    ensures
        r@ == renumbered(entries@),
{
    let mut out: Vec<OverrideEntry> = Vec::new();
    let mut i: usize = 0;
    while i < entries.len()
        invariant
            i <= entries@.len(),
            out@ == renumbered(entries@.subrange(0, i as int)),
        decreases entries@.len() - i,
    {
        let e = &entries[i];
        let n = OverrideEntry {
            name: e.name.clone(),
            enabled: e.enabled,
            source_type: e.source_type,
            source_uri: e.source_uri.clone(),
            sort: i as i64,
            path: e.path.clone(),
        };
        out.push(n);
        proof { assert(out@ =~= renumbered(entries@.subrange(0, i + 1))); }
        i = i + 1;
    }
    proof { assert(entries@.subrange(0, entries@.len() as int) =~= entries@); }
    out
}

/// The overrides in page order, with `sort` renumbered to the positions.
pub fn normalize_entries(entries: &[OverrideEntry]) -> (r: Vec<OverrideEntry>)
    ensures
        r@ == normalized(entries@),
{
    renumber(sorted_entries(entries))
}

/// The largest `sort`, or -1 when there is none.
pub open spec fn max_sort(entries: Seq<OverrideEntry>) -> int
    decreases entries.len(),
{
    if entries.len() == 0 {
        -1
    } else if entries.len() == 1 {
        entries[0].sort as int
    } else {
        let m = max_sort(entries.drop_last());
        if entries.last().sort > m { entries.last().sort as int } else { m }
    }
}

/// The `sort` for a new override: one past the largest, kept at `i64::MAX`.
pub open spec fn next_sort_of(entries: Seq<OverrideEntry>) -> i64 {
    if max_sort(entries) >= i64::MAX { i64::MAX } else { (max_sort(entries) + 1) as i64 }
}

proof fn lemma_max_sort_range(entries: Seq<OverrideEntry>)
    ensures
        i64::MIN <= max_sort(entries) <= i64::MAX,
    decreases entries.len(),
{
    if entries.len() > 0 {
        lemma_max_sort_range(entries.drop_last());
    }
}

/// The `sort` that puts a new override at the end of the page.
pub fn next_sort(entries: &[OverrideEntry]) -> (r: i64)
    ensures
        r == next_sort_of(entries@),
{
    let mut m: i64 = -1;
    let mut i: usize = 0;
    proof { assert(entries@.subrange(0, 0) =~= Seq::<OverrideEntry>::empty()); }
    while i < entries.len()
        invariant
            i <= entries@.len(),
            m == max_sort(entries@.subrange(0, i as int)),
        decreases entries@.len() - i,
    {
        proof { assert(entries@.subrange(0, i + 1).drop_last() =~= entries@.subrange(0, i as int)); }
        if i == 0 || entries[i].sort > m {
            m = entries[i].sort;
        }
        i = i + 1;
    }
    proof { assert(entries@.subrange(0, entries@.len() as int) =~= entries@); }
    if m == i64::MAX { i64::MAX } else { m + 1 }
}

/// The paths of the enabled overrides in the order they are shown.
pub open spec fn enabled_path_list(entries: Seq<OverrideEntry>) -> Seq<Seq<char>> {
    display_sorted(entries).filter(|e: OverrideEntry| e.enabled).map_values(|e: OverrideEntry| e.path@)
}

/// The paths of the enabled overrides in the order they are shown.
pub fn enabled_paths(entries: &[OverrideEntry]) -> (r: Vec<String>)
    ensures
        r@.map_values(|s: String| s@) == enabled_path_list(entries@),
{
    let sorted = sorted_entries(entries);
    let ghost pred = |e: OverrideEntry| e.enabled;
    let mut out: Vec<String> = Vec::new();
    let mut i: usize = 0;
    proof { assert(sorted@.subrange(0, 0) =~= Seq::<OverrideEntry>::empty()); }
    while i < sorted.len()
        invariant
            i <= sorted@.len(),
            pred == (|e: OverrideEntry| e.enabled),
            out@.map_values(|s: String| s@) == sorted@.subrange(0, i as int).filter(pred).map_values(|e: OverrideEntry| e.path@),
        decreases sorted@.len() - i,
    {
        proof {
            assert(sorted@.subrange(0, i + 1) =~= sorted@.subrange(0, i as int).push(sorted@[i as int]));
            sorted@.subrange(0, i as int).lemma_filter_push(sorted@[i as int], pred);
        }
        if sorted[i].enabled {
            let ghost before = out@;
            out.push(sorted[i].path.clone());
            proof {
                assert(out@.map_values(|s: String| s@) =~= before.map_values(|s: String| s@).push(sorted@[i as int].path@));
                assert(sorted@.subrange(0, i as int).filter(pred).push(sorted@[i as int]).map_values(|e: OverrideEntry| e.path@)
                    =~= sorted@.subrange(0, i as int).filter(pred).map_values(|e: OverrideEntry| e.path@).push(sorted@[i as int].path@));
            }
        }
        i = i + 1;
    }
    proof { assert(sorted@.subrange(0, sorted@.len() as int) =~= sorted@); }
    out
}

/// Whether the merge order of the enabled overrides differs between two snapshots, so
/// that the core must take the new one.
pub fn enabled_order_changed(before: &[OverrideEntry], after: &[OverrideEntry]) -> (r: bool)
    ensures
        r == (enabled_path_list(before@) != enabled_path_list(after@)),
{
    let a = enabled_paths(before);
    let b = enabled_paths(after);
    let ghost av = a@.map_values(|s: String| s@);
    let ghost bv = b@.map_values(|s: String| s@);
    if a.len() != b.len() {
        proof { assert(av.len() != bv.len()); }
        return true;
    }
    let mut i: usize = 0;
    while i < a.len()
        invariant
            i <= a@.len(),
            a@.len() == b@.len(),
            av == a@.map_values(|s: String| s@),
            bv == b@.map_values(|s: String| s@),
            av == enabled_path_list(before@),
            bv == enabled_path_list(after@),
            forall|j: int| 0 <= j < i ==> av[j] == bv[j],
        decreases a@.len() - i,
    {
        if a[i] != b[i] {
            proof {
                assert(av[i as int] == a@[i as int]@);
                assert(bv[i as int] == b@[i as int]@);
            }
            return true;
        }
        i = i + 1;
    }
    proof { assert(av =~= bv); }
    false
}

/// The position of the first override with path `path`.
pub open spec fn position_of(entries: Seq<OverrideEntry>, path: Seq<char>) -> Option<int> {
    if exists|k: int| 0 <= k < entries.len() && (#[trigger] entries[k]).path@ == path {
        Some(choose|k: int| 0 <= k < entries.len() && (#[trigger] entries[k]).path@ == path
            && forall|t: int| 0 <= t < k ==> entries[t].path@ != path)
    } else {
        None
    }
}

fn find_path(entries: &[OverrideEntry], path: &str) -> (r: Option<usize>)
    ensures
        match r {
            Some(k) => k < entries@.len() && position_of(entries@, path@) == Some(k as int),
            None => position_of(entries@, path@) is None,
        },
{
    let mut i: usize = 0;
    while i < entries.len()
        invariant
            i <= entries@.len(),
            forall|t: int| 0 <= t < i ==> entries@[t].path@ != path@,
        decreases entries@.len() - i,
    {
        if crate::text::text_eq(entries[i].path.as_str(), path) {
            proof {
                let c = entries@;
                assert(exists|k: int| 0 <= k < c.len() && (#[trigger] c[k]).path@ == path@);
                let w = choose|k: int| 0 <= k < c.len() && (#[trigger] c[k]).path@ == path@
                    && forall|t: int| 0 <= t < k ==> c[t].path@ != path@;
                assert(w == i as int) by {
                    if w < i as int {} else if w > i as int { assert(c[i as int].path@ == path@); }
                }
            }
            return Some(i);
        }
        i = i + 1;
    }
    None
}

/// The override with its enabled flag switched.
pub open spec fn toggled(e: OverrideEntry) -> OverrideEntry {
    OverrideEntry { name: e.name, enabled: !e.enabled, source_type: e.source_type, source_uri: e.source_uri, sort: e.sort, path: e.path }
}

/// Switches the override with path `path` on or off, renumbers the list, and tells the
/// new state; an unknown path is refused.
pub fn toggle_snapshot(entries: &[OverrideEntry], path: &str) -> (r: Result<(Vec<OverrideEntry>, bool), String>)
    ensures
        match position_of(entries@, path@) {
            Some(j) => r is Ok
                && r->Ok_0.0@ == normalized(entries@.update(j, toggled(entries@[j])))
                && r->Ok_0.1 == !entries@[j].enabled,
            None => r is Err && r->Err_0@ == "未找到要切换的覆写"@,
        },
{
    let j = match find_path(entries, path) {
        Some(j) => j,
        None => return Err(String::from_str("未找到要切换的覆写")),
    };
    let mut copy: Vec<OverrideEntry> = Vec::new();
    let mut i: usize = 0;
    while i < entries.len()
        invariant
            i <= entries@.len(),
            j < entries@.len(),
            copy@ == entries@.update(j as int, toggled(entries@[j as int])).subrange(0, i as int),
        decreases entries@.len() - i,
    {
        let mut e = entries[i].duplicate();
        if i == j {
            e.enabled = !e.enabled;
        }
        copy.push(e);
        proof { assert(copy@ =~= entries@.update(j as int, toggled(entries@[j as int])).subrange(0, i + 1)); }
        i = i + 1;
    }
    proof { assert(copy@ =~= entries@.update(j as int, toggled(entries@[j as int]))); }
    let enabled = copy[j].enabled;
    Ok((normalize_entries(copy.as_slice()), enabled))
}

/// The name shown for an override: its name when not blank, else the fallback name of
/// its address.
pub open spec fn display_name_of(e: OverrideEntry) -> Seq<char> {
    if trimmed(e.name@).len() > 0 { e.name@ } else { fallback_text(e.source_uri@) }
}

/// The name shown for an override.
pub fn display_name(entry: &OverrideEntry) -> (r: String)
    ensures
        r@ == display_name_of(*entry),
{
    let t = trim_text(entry.name.as_str());
    if t.as_str().unicode_len() > 0 {
        return entry.name.clone();
    }
    fallback_name(entry.source_uri.as_str())
}

/// The override saved by the form: the trimmed name (the fallback name of the address
/// when blank), type, address and path as given; an edited override keeps its enabled
/// flag and `sort`, a new one is disabled and takes `append_sort`.
pub fn build_entry(
    existing: Option<&OverrideEntry>,
    name: &str,
    source_type: SourceType,
    source_uri: &str,
    path: String,
    append_sort: i64,
) -> (r: OverrideEntry)
    ensures
        r.name@ == if trimmed(name@).len() == 0 { fallback_text(source_uri@) } else { trimmed(name@) },
        r.enabled == match existing { Some(e) => e.enabled, None => false },
        r.source_type == source_type,
        r.source_uri@ == source_uri@,
        r.sort == match existing { Some(e) => e.sort, None => append_sort },
        r.path == path,
{
    let t = trim_text(name);
    let name = if t.as_str().unicode_len() == 0 { fallback_name(source_uri) } else { t };
    OverrideEntry {
        name,
        enabled: match existing { Some(e) => e.enabled, None => false },
        source_type,
        source_uri: String::from_str(source_uri),
        sort: match existing { Some(e) => e.sort, None => append_sort },
        path,
    }
}

/// The overrides whose path is not `path`, in order.
fn entries_without_path(entries: &[OverrideEntry], path: &str) -> (r: Vec<OverrideEntry>)
    ensures
        r@ == entries@.filter(|e: OverrideEntry| e.path@ != path@),
{
    let ghost pred = |e: OverrideEntry| e.path@ != path@;
    let mut remaining: Vec<OverrideEntry> = Vec::new();
    let mut i: usize = 0;
    proof { assert(entries@.subrange(0, 0) =~= Seq::<OverrideEntry>::empty()); }
    while i < entries.len()
        invariant
            i <= entries@.len(),
            pred == (|e: OverrideEntry| e.path@ != path@),
            remaining@ == entries@.subrange(0, i as int).filter(pred),
        decreases entries@.len() - i,
    {
        proof {
            assert(entries@.subrange(0, i + 1) =~= entries@.subrange(0, i as int).push(entries@[i as int]));
            entries@.subrange(0, i as int).lemma_filter_push(entries@[i as int], pred);
        }
        if !crate::text::text_eq(entries[i].path.as_str(), path) {
            remaining.push(entries[i].duplicate());
        }
        i = i + 1;
    }
    proof { assert(entries@.subrange(0, entries@.len() as int) =~= entries@); }
    remaining
}

/// Takes out the override with path `path` (every entry with that path goes) and
/// renumbers the rest; an unknown path is refused.
pub fn remove_and_normalize(entries: &[OverrideEntry], path: &str) -> (r: Result<(OverrideEntry, Vec<OverrideEntry>), String>)
    ensures
        match position_of(entries@, path@) {
            Some(j) => r is Ok && r->Ok_0.0 == entries@[j]
                && r->Ok_0.1@ == normalized(entries@.filter(|e: OverrideEntry| e.path@ != path@)),
            None => r is Err && r->Err_0@ == "未找到要删除的覆写"@,
        },
{
    let j = match find_path(entries, path) {
        Some(j) => j,
        None => return Err(String::from_str("未找到要删除的覆写")),
    };
    let removed = entries[j].duplicate();
    let remaining = entries_without_path(entries, path);
    Ok((removed, normalize_entries(remaining.as_slice())))
}

/// One row of the override list.
#[derive(Debug, Clone)]
pub struct OverrideRow {
    pub name: String,
    pub enabled: bool,
    pub source_type: String,
    pub source_uri: String,
    pub sort: i32,
    pub path: String,
}

/// The rows of the override list in page order.
pub fn override_rows(entries: &[OverrideEntry]) -> (r: Vec<OverrideRow>)
    ensures
        r@.len() == display_sorted(entries@).len(),
        forall|k: int| 0 <= k < r@.len() ==> {
            let e = display_sorted(entries@)[k];
            &&& (#[trigger] r@[k]).name@ == display_name_of(e)
            &&& r@[k].enabled == e.enabled
            &&& r@[k].source_type@ == source_type_text(e.source_type)
            &&& r@[k].source_uri@ == e.source_uri@
            &&& r@[k].sort == e.sort as i32
            &&& r@[k].path@ == e.path@
        },
{
    let sorted = sorted_entries(entries);
    let mut rows: Vec<OverrideRow> = Vec::new();
    let mut i: usize = 0;
    while i < sorted.len()
        invariant
            i <= sorted@.len(),
            sorted@ == display_sorted(entries@),
            rows@.len() == i,
            forall|k: int| 0 <= k < i ==> {
                let e = sorted@[k];
                &&& (#[trigger] rows@[k]).name@ == display_name_of(e)
                &&& rows@[k].enabled == e.enabled
                &&& rows@[k].source_type@ == source_type_text(e.source_type)
                &&& rows@[k].source_uri@ == e.source_uri@
                &&& rows@[k].sort == e.sort as i32
                &&& rows@[k].path@ == e.path@
            },
        decreases sorted@.len() - i,
    {
        let e = &sorted[i];
        let row = OverrideRow {
            name: display_name(e),
            enabled: e.enabled,
            source_type: String::from_str(source_type_name(e.source_type)),
            source_uri: e.source_uri.clone(),
            sort: e.sort as i32,
            path: e.path.clone(),
        };
        rows.push(row);
        i = i + 1;
    }
    rows
}

/// How many overrides are enabled.
pub open spec fn enabled_count(s: Seq<OverrideEntry>) -> nat {
    s.filter(|e: OverrideEntry| e.enabled).len()
}

/// Where a moved override lands: an enabled one stays among the enabled, a disabled one
/// among the disabled.
pub open spec fn clamped_target(s: Seq<OverrideEntry>, source: int, target: int) -> int {
    let n = enabled_count(s) as int;
    if s[source].enabled {
        let last = if n > 0 { n - 1 } else { 0 };
        if target < last { target } else { last }
    } else {
        let t = if target > n { target } else { n };
        if t < s.len() - 1 { t } else { s.len() - 1 }
    }
}

/// What moving the override with path `path` to page position `target` gives: refused
/// for an unknown path or a position outside the list, nothing when it stays where it
/// is, else the list with the override moved and renumbered.
pub open spec fn reordered(entries: Seq<OverrideEntry>, path: Seq<char>, target: i32) -> Result<Option<Seq<OverrideEntry>>, Seq<char>> {
    let s = display_sorted(entries);
    match position_of(s, path) {
        None => Err("未找到要重排的覆写"@),
        Some(src) => if target < 0 || target >= s.len() {
            Err("覆写目标位置无效"@)
        } else {
            let t = clamped_target(s, src, target as int);
            if src == t { Ok(None) } else { Ok(Some(normalized(s.remove(src).insert(t, s[src])))) }
        },
    }
}

fn count_enabled(s: &Vec<OverrideEntry>) -> (r: usize)
    ensures
        r == enabled_count(s@),
{
    let ghost pred = |e: OverrideEntry| e.enabled;
    let mut c: usize = 0;
    let mut i: usize = 0;
    proof { assert(s@.subrange(0, 0) =~= Seq::<OverrideEntry>::empty()); }
    while i < s.len()
        invariant
            i <= s@.len(),
            pred == (|e: OverrideEntry| e.enabled),
            c == s@.subrange(0, i as int).filter(pred).len(),
            c <= i,
        decreases s@.len() - i,
    {
        proof {
            assert(s@.subrange(0, i + 1) =~= s@.subrange(0, i as int).push(s@[i as int]));
            s@.subrange(0, i as int).lemma_filter_push(s@[i as int], pred);
        }
        if s[i].enabled {
            c = c + 1;
        }
        i = i + 1;
    }
    proof { assert(s@.subrange(0, s@.len() as int) =~= s@); }
    c
}

/// Moves an override to a page position and renumbers the list.
pub fn reorder_snapshot(entries: &[OverrideEntry], path: &str, target_index: i32) -> (r: Result<Option<Vec<OverrideEntry>>, String>)
    ensures
        match reordered(entries@, path@, target_index) {
            Ok(None) => r is Ok && r->Ok_0 is None,
            Ok(Some(s)) => r is Ok && r->Ok_0 is Some && r->Ok_0->Some_0@ == s,
            Err(e) => r is Err && r->Err_0@ == e,
        },
{
    let mut s = sorted_entries(entries);
    let source = match find_path(s.as_slice(), path) {
        Some(k) => k,
        None => return Err(String::from_str("未找到要重排的覆写")),
    };
    if target_index < 0 || target_index as usize >= s.len() {
        return Err(String::from_str("覆写目标位置无效"));
    }
    let target = target_index as usize;
    let count = count_enabled(&s);
    let target = if s[source].enabled {
        let last = if count > 0 { count - 1 } else { 0 };
        if target < last { target } else { last }
    } else {
        let t = if target > count { target } else { count };
        if t < s.len() - 1 { t } else { s.len() - 1 }
    };
    if source == target {
        return Ok(None);
    }
    let ghost before = s@;
    let entry = s.remove(source);
    s.insert(target, entry);
    proof { assert(s@ == before.remove(source as int).insert(target as int, before[source as int])); }
    Ok(Some(normalize_entries(s.as_slice())))
}


/// Every change renumbers: after it, the override at page position `k` has `sort == k`.
pub proof fn law_renumbered_sorts_are_positions(s: Seq<OverrideEntry>)
    ensures
        renumbered(s).len() == s.len(),
        forall|k: int| 0 <= k < s.len() && k <= i64::MAX ==> (#[trigger] renumbered(s)[k]).sort == k,
{
}

proof fn lemma_max_sort_bounds(entries: Seq<OverrideEntry>)
    ensures
        forall|k: int| 0 <= k < entries.len() ==> (#[trigger] entries[k]).sort <= max_sort(entries),
    decreases entries.len(),
{
    if entries.len() > 0 {
        lemma_max_sort_bounds(entries.drop_last());
        assert forall|k: int| 0 <= k < entries.len() implies (#[trigger] entries[k]).sort <= max_sort(entries) by {
            if k < entries.len() - 1 {
                assert(entries[k] == entries.drop_last()[k]);
            }
        }
    }
}

/// A new override goes to the end of the page: its `sort` is above every existing one
/// (unless some `sort` already is `i64::MAX`).
pub proof fn law_next_sort_after_all(entries: Seq<OverrideEntry>)
    requires
        forall|k: int| 0 <= k < entries.len() ==> (#[trigger] entries[k]).sort < i64::MAX,
    ensures
        forall|k: int| 0 <= k < entries.len() ==> (#[trigger] entries[k]).sort < next_sort_of(entries),
{
    lemma_max_sort_bounds(entries);
    lemma_max_sort_range(entries);
    if entries.len() > 0 {
        lemma_max_sort_reached(entries);
    }
}

proof fn lemma_max_sort_reached(entries: Seq<OverrideEntry>)
    requires
        entries.len() > 0,
    ensures
        exists|k: int| 0 <= k < entries.len() && (#[trigger] entries[k]).sort == max_sort(entries),
    decreases entries.len(),
{
    if entries.len() > 1 {
        lemma_max_sort_reached(entries.drop_last());
        let k = choose|k: int| 0 <= k < entries.drop_last().len() && (#[trigger] entries.drop_last()[k]).sort == max_sort(entries.drop_last());
        if entries.last().sort > max_sort(entries.drop_last()) {
            assert(entries[entries.len() - 1].sort == max_sort(entries));
        } else {
            assert(entries[k].sort == max_sort(entries));
        }
    } else {
        assert(entries[0].sort == max_sort(entries));
    }
}

// ---------------------------------------------------------------------------
// The page's requests

/// What the page shows besides the list: loading, a running operation, the last error,
/// and the tokens that tell a current reply from a stale one.
#[derive(Debug)]
pub struct OverrideViewState {
    pub loading: bool,
    pub busy: bool,
    pub error: String,
    pub next_token: u64,
    pub refresh_token: u64,
    pub operation_token: u64,
}

/// A new page state: idle, no error, all tokens 0.
pub fn new_state() -> (r: OverrideViewState)
    ensures
        !r.loading && !r.busy && r.error@.len() == 0,
        r.next_token == 0 && r.refresh_token == 0 && r.operation_token == 0,
{
    OverrideViewState { loading: false, busy: false, error: String::new(), next_token: 0, refresh_token: 0, operation_token: 0 }
}

/// Takes the next token of the page.
pub fn next_token(state: &mut OverrideViewState) -> (r: u64)
    ensures
        r == token_after(old(state).next_token),
        *final(state) == (OverrideViewState { next_token: r, ..*old(state) }),
{
    advance_token(&mut state.next_token)
}

/// Starts reading the list again, unless an operation runs: a new refresh token, the page
/// loading, the error cleared. Returns the token.
pub fn begin_refresh(state: &mut OverrideViewState) -> (r: Option<u64>)
    ensures
        old(state).busy ==> r is None && *final(state) == *old(state),
        !old(state).busy ==> ({
            let t = token_after(old(state).next_token);
            &&& r == Some(t)
            &&& final(state).error@.len() == 0
            &&& *final(state) == (OverrideViewState {
                next_token: t,
                refresh_token: t,
                loading: true,
                error: final(state).error,
                ..*old(state)
            })
        }),
{
    if state.busy {
        return None;
    }
    let token = next_token(state);
    state.refresh_token = token;
    state.loading = true;
    state.error = String::new();
    Some(token)
}

/// Ends the refresh under `token` unless a later request replaced it. Returns whether it
/// did.
pub fn finish_refresh(state: &mut OverrideViewState, token: u64) -> (r: bool)
    ensures
        r == (old(state).refresh_token == token),
        *final(state) == (if r { OverrideViewState { loading: false, ..*old(state) } } else { *old(state) }),
{
    if state.refresh_token != token {
        return false;
    }
    state.loading = false;
    true
}

/// Starts an operation unless one runs: a new token for the operation and the refresh
/// (which makes a refresh under way stale), loading off, the page busy, the error cleared.
/// Returns the token.
pub fn begin_operation(state: &mut OverrideViewState) -> (r: Option<u64>)
    ensures
        old(state).busy ==> r is None && *final(state) == *old(state),
        !old(state).busy ==> ({
            let t = token_after(old(state).next_token);
            &&& r == Some(t)
            &&& final(state).error@.len() == 0
            &&& *final(state) == (OverrideViewState {
                next_token: t,
                operation_token: t,
                refresh_token: t,
                loading: false,
                busy: true,
                error: final(state).error,
            })
        }),
{
    if state.busy {
        return None;
    }
    let token = next_token(state);
    state.operation_token = token;
    state.refresh_token = token;
    state.loading = false;
    state.busy = true;
    state.error = String::new();
    Some(token)
}

/// Takes the result of the operation under `token`. A stale result changes nothing and
/// gives nothing; else the page is no longer busy, a failure becomes the error, and the
/// outcome is returned (a form operation closes the form on success and keeps it open on
/// failure).
pub fn finish_operation(state: &mut OverrideViewState, token: u64, result: Result<String, String>, close_form: bool) -> (r: Option<OperationOutcome>)
    ensures
        old(state).operation_token != token ==> r is None && *final(state) == *old(state),
        old(state).operation_token == token ==> match result {
            Ok(m) => r == Some(OperationOutcome { message: m, variant: 1, close_form: close_form, reopen_form: false })
                && final(state).error@.len() == 0
                && *final(state) == (OverrideViewState { busy: false, error: final(state).error, ..*old(state) }),
            Err(m) => r == Some(OperationOutcome { message: m, variant: 2, close_form: false, reopen_form: close_form })
                && *final(state) == (OverrideViewState { busy: false, error: m, ..*old(state) }),
        },
{
    if state.operation_token != token {
        return None;
    }
    state.busy = false;
    match result {
        Ok(message) => {
            state.error = String::new();
            Some(OperationOutcome { message, variant: 1, close_form, reopen_form: false })
        }
        Err(message) => {
            state.error = message.clone();
            Some(OperationOutcome { message, variant: 2, close_form: false, reopen_form: close_form })
        }
    }
}

/// The position of the first override with this path, if any.
pub fn find_override(entries: &[OverrideEntry], path: &str) -> (r: Option<usize>)
    ensures
        match r {
            Some(k) => k < entries@.len() && position_of(entries@, path@) == Some(k as int),
            None => position_of(entries@, path@) is None,
        },
{
    find_path(entries, path)
}

/// Stores a saved override: it replaces the one being edited (the first with
/// `editing_path`, when that is not empty and present), else it is added at the end.
pub fn store_override(entries: &mut Vec<OverrideEntry>, editing_path: &str, entry: OverrideEntry)
    ensures
        ({
            let k = position_of(old(entries)@, editing_path@);
            if editing_path@.len() > 0 && k is Some {
                final(entries)@ == old(entries)@.update(k->0, entry)
            } else {
                final(entries)@ == old(entries)@.push(entry)
            }
        }),
{
    if !editing_path.is_empty() {
        if let Some(k) = find_path(entries.as_slice(), editing_path) {
            entries.set(k, entry);
            return;
        }
    }
    entries.push(entry);
}

/// Renumbering after a change only reorders and renumbers: the page shows the overrides
/// enabled first, then by `sort`, equal ones in list order, each exactly once, and changes
/// nothing in them but `sort`, which becomes the shown position. So switching one
/// override leaves every other one as it was, apart from its place and number.
pub proof fn law_normalizing_reorders_and_renumbers(s: Seq<OverrideEntry>)
    requires
        s.len() <= usize::MAX,
    ensures
        is_int_order(display_keys(s), int_order(display_keys(s))),
        normalized(s).len() == s.len(),
        forall|k: int| 0 <= k < s.len() ==> #[trigger] normalized(s)[k]
            == with_sort(s[int_order(display_keys(s))[k] as int], k),
{
    lemma_int_order_exists(display_keys(s));
}

/// The override a saved form edits: none for a new one (empty `editing_path`), else the
/// position of the one being edited, or the message that it is gone.
pub fn editing_override(entries: &[OverrideEntry], editing_path: &str) -> (r: Result<Option<usize>, String>)
    ensures
        editing_path@.len() == 0 ==> r == Ok::<Option<usize>, String>(None),
        editing_path@.len() > 0 ==> match position_of(entries@, editing_path@) {
            Some(k) => r is Ok && r->Ok_0 == Some(k as usize) && k < entries@.len(),
            None => r is Err && r->Err_0@ == "未找到要编辑的覆写"@,
        },
{
    if editing_path.is_empty() {
        return Ok(None);
    }
    match find_override(entries, editing_path) {
        Some(k) => Ok(Some(k)),
        None => Err(String::from_str("未找到要编辑的覆写")),
    }
}

} // verus!
