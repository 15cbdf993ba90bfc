//! Windows: TUN device names as typed, and the UWP loopback exemption of application
//! containers (which containers are exempt, how a batch of changes alters the exempt
//! set, the names shown, and the messages of the elevated helper).
use vstd::prelude::*;
use vstd::string::*;
use crate::platform::UwpApp;
use crate::order::{stable_order, sorts_before, keys_view, key_view};
use crate::text::{trimmed, trim_text, chars_of, push_char, push_text, decimal, push_decimal, ascii_lower_char, ascii_lower_chars, join_with};
use crate::json::json_chars;
use vstd::utf8::{valid_utf8, decode_utf8};

verus! {

/// The TUN device name as typed, trimmed.
pub fn normalize_tun_device(value: &str) -> (r: String)
    ensures
        r@ == trimmed(value@),
{
    trim_text(value)
}

/// UWP applications exist here.
pub fn supports_uwp() -> (r: bool)
    ensures
        r,
{
    true
}

/// Whether a batch of loopback changes has anything to do; an empty batch needs neither
/// the system's state nor elevation.
pub fn uwp_batch_needs_system(changes: &[(String, bool)]) -> (r: bool)
    ensures
        r == (changes@.len() > 0),
{
    changes.len() > 0
}

/// How a batch of loopback changes is carried out: not at all when it is empty, directly
/// when the process runs as administrator, else through the elevated helper.
#[derive(Debug, Clone, Copy, PartialEq, Eq, Structural)]
pub enum UwpBatchRoute {
    Nothing,
    Direct,
    Elevated,
}

/// The route of a batch of loopback changes, as `set_uwp_loopback_batch` takes it.
pub fn uwp_batch_route(changes: &[(String, bool)], is_admin: bool) -> (r: UwpBatchRoute)
    ensures
        changes@.len() == 0 ==> r == UwpBatchRoute::Nothing,
        changes@.len() > 0 && is_admin ==> r == UwpBatchRoute::Direct,
        changes@.len() > 0 && !is_admin ==> r == UwpBatchRoute::Elevated,
{
    if !uwp_batch_needs_system(changes) {
        UwpBatchRoute::Nothing
    } else if is_admin {
        UwpBatchRoute::Direct
    } else {
        UwpBatchRoute::Elevated
    }
}

/// One entry of the loopback exemption list: a container's security identifier and its
/// attributes.
#[derive(Debug, Clone, PartialEq, Eq)]
pub struct LoopbackSid {
    pub bytes: Vec<u8>,
    pub attributes: u32,
}

/// An application container: the name shown, its package family name and its security
/// identifier.
#[derive(Debug, Clone, PartialEq, Eq)]
pub struct AppContainer {
    pub name: String,
    pub package_family_name: String,
    pub sid: Vec<u8>,
}

/// An exemption entry as bytes and attributes.
pub open spec fn sid_view(e: LoopbackSid) -> (Seq<u8>, u32) {
    (e.bytes@, e.attributes)
}

/// The entries of an exemption list as bytes and attributes.
pub open spec fn sids_view(s: Seq<LoopbackSid>) -> Seq<(Seq<u8>, u32)> {
    s.map_values(|e: LoopbackSid| sid_view(e))
}

/// Some entry of `s` has identifier `bytes`.
pub open spec fn has_sid(s: Seq<(Seq<u8>, u32)>, bytes: Seq<u8>) -> bool {
    exists|k: int| 0 <= k < s.len() && (#[trigger] s[k]).0 == bytes
}

/// The list with later entries of an identifier already seen left out.
pub open spec fn dedup_sids(s: Seq<(Seq<u8>, u32)>) -> Seq<(Seq<u8>, u32)>
    decreases s.len(),
{
    if s.len() == 0 {
        s
    } else {
        let d = dedup_sids(s.drop_last());
        if has_sid(d, s.last().0) { d } else { d.push(s.last()) }
    }
}

fn bytes_equal(a: &Vec<u8>, b: &Vec<u8>) -> (r: bool)
    ensures
        r == (a@ == b@),
{
    if a.len() != b.len() {
        return false;
    }
    let mut i: usize = 0;
    while i < a.len()
        invariant
            i <= a.len(),
            a.len() == b.len(),
            forall|j: int| 0 <= j < i ==> a@[j] == b@[j],
        decreases a.len() - i,
    {
        if a[i] != b[i] {
            return false;
        }
        i = i + 1;
    }
    proof { assert(a@ =~= b@); }
    true
}

fn copy_sid(e: &LoopbackSid) -> (r: LoopbackSid)
    ensures
        sid_view(r) == sid_view(*e),
{
    LoopbackSid { bytes: e.bytes.clone(), attributes: e.attributes }
}

/// The position of the first entry with identifier `bytes`, if any.
fn find_sid(s: &Vec<LoopbackSid>, bytes: &Vec<u8>) -> (r: Option<usize>)
    ensures
        match r {
            Some(k) => k < s@.len() && s@[k as int].bytes@ == bytes@
                && forall|t: int| 0 <= t < k ==> s@[t].bytes@ != bytes@,
            None => !has_sid(sids_view(s@), bytes@),
        },
{
    let mut i: usize = 0;
    while i < s.len()
        invariant
            i <= s@.len(),
            forall|t: int| 0 <= t < i ==> s@[t].bytes@ != bytes@,
        decreases s@.len() - i,
    {
        if bytes_equal(&s[i].bytes, bytes) {
            return Some(i);
        }
        i = i + 1;
    }
    proof {
        let v = sids_view(s@);
        if has_sid(v, bytes@) {
            let k = choose|k: int| 0 <= k < v.len() && (#[trigger] v[k]).0 == bytes@;
            assert(s@[k].bytes@ == bytes@);
        }
    }
    None
}

/// The entries with later repeats of an identifier left out.
pub fn deduplicate_loopback_sids(entries: Vec<LoopbackSid>) -> (r: Vec<LoopbackSid>)
    ensures
        sids_view(r@) == dedup_sids(sids_view(entries@)),
{
    let ghost src = sids_view(entries@);
    let mut unique: Vec<LoopbackSid> = Vec::new();
    let mut i: usize = 0;
    proof { assert(src.subrange(0, 0) =~= Seq::<(Seq<u8>, u32)>::empty()); }
    while i < entries.len()
        invariant
            i <= entries@.len(),
            src == sids_view(entries@),
            sids_view(unique@) == dedup_sids(src.subrange(0, i as int)),
        decreases entries@.len() - i,
    {
        proof {
            assert(src.subrange(0, i + 1).drop_last() =~= src.subrange(0, i as int));
            assert(src.subrange(0, i + 1).last() == sid_view(entries@[i as int]));
        }
        match find_sid(&unique, &entries[i].bytes) {
            Some(k) => {
                proof { assert(sids_view(unique@)[k as int].0 == entries@[i as int].bytes@); }
            },
            None => {
                let ghost before = unique@;
                unique.push(copy_sid(&entries[i]));
                proof { assert(sids_view(unique@) =~= sids_view(before).push(sid_view(entries@[i as int]))); }
            },
        }
        i = i + 1;
    }
    proof { assert(src.subrange(0, entries@.len() as int) =~= src); }
    unique
}

/// The position of the first container with package family name `name`.
pub open spec fn container_named(containers: Seq<AppContainer>, name: Seq<char>) -> Option<int> {
    if exists|k: int| 0 <= k < containers.len() && (#[trigger] containers[k]).package_family_name@ == name {
        let k = choose|k: int| 0 <= k < containers.len() && (#[trigger] containers[k]).package_family_name@ == name
            && forall|t: int| 0 <= t < k ==> containers[t].package_family_name@ != name;
        Some(k)
    } else {
        None
    }
}

/// The attributes of the first entry with identifier `bytes`, or 0.
pub open spec fn attributes_of(s: Seq<(Seq<u8>, u32)>, bytes: Seq<u8>) -> u32
    decreases s.len(),
{
    if s.len() == 0 {
        0
    } else if s[0].0 == bytes {
        s[0].1
    } else {
        attributes_of(s.drop_first(), bytes)
    }
}

/// One change applied to the exemption list: the trimmed package name must not be empty
/// and must name a container; that container's entry is taken out and, when the change
/// turns the exemption on, put back at the end with the attributes it had (0 if new).
pub open spec fn apply_change(
    acc: Result<Seq<(Seq<u8>, u32)>, Seq<char>>,
    containers: Seq<AppContainer>,
    change: (Seq<char>, bool),
) -> Result<Seq<(Seq<u8>, u32)>, Seq<char>> {
    match acc {
        Err(e) => Err(e),
        Ok(s) => {
            let name = trimmed(change.0);
            if name.len() == 0 {
                Err("UWP 包族名称不能为空"@)
            } else {
                match container_named(containers, name) {
                    None => Err("未找到 UWP 包族名："@ + name),
                    Some(c) => {
                        let sid = containers[c].sid@;
                        let kept = s.filter(|e: (Seq<u8>, u32)| e.0 != sid);
                        if change.1 { Ok(kept.push((sid, attributes_of(s, sid)))) } else { Ok(kept) }
                    },
                }
            }
        },
    }
}

/// The changes applied in order.
pub open spec fn apply_changes(
    start: Seq<(Seq<u8>, u32)>,
    containers: Seq<AppContainer>,
    changes: Seq<(Seq<char>, bool)>,
) -> Result<Seq<(Seq<u8>, u32)>, Seq<char>>
    decreases changes.len(),
{
    if changes.len() == 0 {
        Ok(start)
    } else {
        apply_change(apply_changes(start, containers, changes.drop_last()), containers, changes.last())
    }
}

/// The changes as names and flags.
pub open spec fn changes_view(changes: Seq<(String, bool)>) -> Seq<(Seq<char>, bool)> {
    changes.map_values(|c: (String, bool)| (c.0@, c.1))
}

fn find_container(containers: &[AppContainer], name: &String) -> (r: Option<usize>)
    ensures
        match r {
            Some(k) => k < containers@.len() && container_named(containers@, name@) == Some(k as int),
            None => container_named(containers@, name@) is None,
        },
{
    let mut i: usize = 0;
    while i < containers.len()
        invariant
            i <= containers@.len(),
            forall|t: int| 0 <= t < i ==> containers@[t].package_family_name@ != name@,
        decreases containers@.len() - i,
    {
        if containers[i].package_family_name == *name {
            proof {
                let c = containers@;
                assert(exists|k: int| 0 <= k < c.len() && (#[trigger] c[k]).package_family_name@ == name@);
                let w = choose|k: int| 0 <= k < c.len() && (#[trigger] c[k]).package_family_name@ == name@
                    && forall|t: int| 0 <= t < k ==> c[t].package_family_name@ != name@;
                assert(w == i as int) by {
                    if w < i as int {} else if w > i as int { assert(c[i as int].package_family_name@ == name@); }
                }
            }
            return Some(i);
        }
        i = i + 1;
    }
    None
}

proof fn lemma_attributes_of_first(s: Seq<(Seq<u8>, u32)>, bytes: Seq<u8>, k: int)
    requires
        0 <= k < s.len(),
        s[k].0 == bytes,
        forall|t: int| 0 <= t < k ==> s[t].0 != bytes,
    ensures
        attributes_of(s, bytes) == s[k].1,
    decreases k,
{
    if k > 0 {
        lemma_attributes_of_first(s.drop_first(), bytes, k - 1);
    }
}

proof fn lemma_attributes_of_absent(s: Seq<(Seq<u8>, u32)>, bytes: Seq<u8>)
    requires
        !has_sid(s, bytes),
    ensures
        attributes_of(s, bytes) == 0,
    decreases s.len(),
{
    if s.len() > 0 {
        assert(s[0].0 != bytes);
        assert(!has_sid(s.drop_first(), bytes)) by {
            if has_sid(s.drop_first(), bytes) {
                let k = choose|k: int| 0 <= k < s.drop_first().len() && (#[trigger] s.drop_first()[k]).0 == bytes;
                assert(s[k + 1].0 == bytes);
            }
        }
        lemma_attributes_of_absent(s.drop_first(), bytes);
    }
}

/// One change applied to an exemption list.
fn apply_one_change(result: Vec<LoopbackSid>, containers: &[AppContainer], change: &(String, bool)) -> (r: Result<Vec<LoopbackSid>, String>)
    ensures
        match apply_change(Ok(sids_view(result@)), containers@, (change.0@, change.1)) {
            Ok(s) => r is Ok && sids_view(r->Ok_0@) == s,
            Err(e) => r is Err && r->Err_0@ == e,
        },
{
        let ghost s = sids_view(result@);
        let name = trim_text((*change).0.as_str());
        if name.as_str().unicode_len() == 0 {
                        return Err(String::from_str("UWP 包族名称不能为空"));
        }
        let c = match find_container(containers, &name) {
            Some(c) => c,
            None => {
                let mut message = String::from_str("未找到 UWP 包族名：");
                message.append(name.as_str());
                return Err(message);
            },
        };
        let sid = &containers[c].sid;
        let attributes = match find_sid(&result, sid) {
            Some(k) => {
                proof {
                    assert forall|t: int| 0 <= t < k implies s[t].0 != sid@ by {}
                    lemma_attributes_of_first(s, sid@, k as int);
                }
                result[k].attributes
            },
            None => {
                proof { lemma_attributes_of_absent(s, sid@); }
                0
            },
        };
        let ghost pred = |e: (Seq<u8>, u32)| e.0 != sid@;
        let mut kept: Vec<LoopbackSid> = Vec::new();
        let mut t: usize = 0;
        proof { assert(s.subrange(0, 0) =~= Seq::<(Seq<u8>, u32)>::empty()); }
        while t < result.len()
            invariant
                t <= result@.len(),
                s == sids_view(result@),
                pred == (|e: (Seq<u8>, u32)| e.0 != sid@),
                sids_view(kept@) == s.subrange(0, t as int).filter(pred),
            decreases result@.len() - t,
        {
            proof {
                assert(s.subrange(0, t + 1) =~= s.subrange(0, t as int).push(s[t as int]));
                s.subrange(0, t as int).lemma_filter_push(s[t as int], pred);
            }
            if !bytes_equal(&result[t].bytes, sid) {
                let ghost before = kept@;
                kept.push(copy_sid(&result[t]));
                proof { assert(sids_view(kept@) =~= sids_view(before).push(s[t as int])); }
            }
            t = t + 1;
        }
        proof { assert(s.subrange(0, result@.len() as int) =~= s); }
        if (*change).1 {
            let ghost before = kept@;
            kept.push(LoopbackSid { bytes: sid.clone(), attributes });
            proof { assert(sids_view(kept@) =~= sids_view(before).push((sid@, attributes))); }
        }
        proof {
            let sidv = containers@[c as int].sid@;
            assert(pred =~= (|e: (Seq<u8>, u32)| e.0 != sidv));
            assert(name@ == trimmed(change.0@));
        }
        Ok(kept)
}

/// Applies a batch of loopback changes to the current exemption list (repeated
/// identifiers dropped first), and drops repeats from the result. The first change with
/// an empty name, or a name no container has, refuses the whole batch.
pub fn apply_uwp_changes(
    current: &[LoopbackSid],
    containers: &[AppContainer],
    changes: &[(String, bool)],
) -> (r: Result<Vec<LoopbackSid>, String>)
    ensures
        match apply_changes(dedup_sids(sids_view(current@)), containers@, changes_view(changes@)) {
            Ok(s) => r is Ok && sids_view(r->Ok_0@) == dedup_sids(s),
            Err(e) => r is Err && r->Err_0@ == e,
        },
{
    let mut start: Vec<LoopbackSid> = Vec::new();
    let mut i: usize = 0;
    while i < current.len()
        invariant
            i <= current@.len(),
            sids_view(start@) == sids_view(current@).subrange(0, i as int),
        decreases current@.len() - i,
    {
        let ghost before = start@;
        let e = copy_sid(&current[i]);
        start.push(e);
        proof {
            assert(sids_view(start@) =~= sids_view(before).push(sid_view(current@[i as int])));
            assert(sids_view(current@).subrange(0, i + 1) =~= sids_view(current@).subrange(0, i as int).push(sid_view(current@[i as int])));
        }
        i = i + 1;
    }
    proof { assert(sids_view(current@).subrange(0, current@.len() as int) =~= sids_view(current@)); }
    let mut result = deduplicate_loopback_sids(start);
    let ghost base = dedup_sids(sids_view(current@));
    let ghost cv = changes_view(changes@);
    let mut j: usize = 0;
    proof { assert(cv.subrange(0, 0) =~= Seq::<(Seq<char>, bool)>::empty()); }
    while j < changes.len()
        invariant
            j <= changes@.len(),
            cv == changes_view(changes@),
            base == dedup_sids(sids_view(current@)),
            apply_changes(base, containers@, cv.subrange(0, j as int)) == Ok::<Seq<(Seq<u8>, u32)>, Seq<char>>(sids_view(result@)),
        decreases changes@.len() - j,
    {
        proof {
            assert(cv.subrange(0, j + 1).drop_last() =~= cv.subrange(0, j as int));
            assert(cv.subrange(0, j + 1).last() == (changes@[j as int].0@, changes@[j as int].1));
        }
        match apply_one_change(result, containers, &changes[j]) {
            Ok(next) => {
                result = next;
            },
            Err(e) => {
                proof { lemma_apply_changes_err_sticks(base, containers@, cv, j as int + 1, e@); }
                return Err(e);
            },
        }
        j = j + 1;
    }
    proof { assert(cv.subrange(0, changes@.len() as int) =~= cv); }
    Ok(deduplicate_loopback_sids(result))
}

proof fn lemma_apply_changes_err_sticks(
    base: Seq<(Seq<u8>, u32)>,
    containers: Seq<AppContainer>,
    cv: Seq<(Seq<char>, bool)>,
    n: int,
    e: Seq<char>,
)
    requires
        0 < n <= cv.len(),
        apply_changes(base, containers, cv.subrange(0, n)) == Err::<Seq<(Seq<u8>, u32)>, Seq<char>>(e),
    ensures
        apply_changes(base, containers, cv) == Err::<Seq<(Seq<u8>, u32)>, Seq<char>>(e),
    decreases cv.len() - n,
{
    if n < cv.len() {
        assert(cv.subrange(0, n + 1).drop_last() =~= cv.subrange(0, n));
        lemma_apply_changes_err_sticks(base, containers, cv, n + 1, e);
    } else {
        assert(cv.subrange(0, n) =~= cv);
    }
}

/// The sort key of an application: its name in ASCII lower case, its name, its package
/// family name.
pub open spec fn app_key(a: UwpApp) -> Seq<Seq<char>> {
    seq![a.name@.map_values(|c: char| ascii_lower_char(c)), a.name@, a.package_family_name@]
}

/// The application of a container: exempt when some entry has its identifier.
pub open spec fn app_of(c: AppContainer, sids: Seq<(Seq<u8>, u32)>) -> UwpApp {
    UwpApp { name: c.name, package_family_name: c.package_family_name, enabled: has_sid(sids, c.sid@) }
}

/// `order` lists every container once, sorted by the keys of their applications, equal
/// keys in list order.
pub open spec fn app_order(containers: Seq<AppContainer>, sids: Seq<(Seq<u8>, u32)>, order: Seq<usize>) -> bool {
    &&& order.len() == containers.len()
    &&& forall|k: int| 0 <= k < order.len() ==> #[trigger] order[k] < containers.len()
    &&& forall|j: int| 0 <= j < containers.len() ==> #[trigger] order.contains(j as usize)
    &&& forall|a: int, b: int| 0 <= a < b < order.len() ==> sorts_before(
        containers.map_values(|c: AppContainer| app_key(app_of(c, sids))),
        #[trigger] order[a] as int,
        #[trigger] order[b] as int,
    )
}

/// The applications of the containers, each exempt when the list holds its identifier,
/// sorted by name without ASCII case, then name, then package family name.
pub fn uwp_apps_from_containers(containers: Vec<AppContainer>, loopback_sids: &[LoopbackSid]) -> (r: Vec<UwpApp>)
    ensures
        exists|order: Seq<usize>| {
            &&& #[trigger] app_order(containers@, sids_view(loopback_sids@), order)
            &&& r@.len() == containers@.len()
            &&& forall|k: int| 0 <= k < r@.len() ==> #[trigger] r@[k] == app_of(containers@[order[k] as int], sids_view(loopback_sids@))
        },
{
    let ghost sv = sids_view(loopback_sids@);
    let mut apps: Vec<UwpApp> = Vec::new();
    let mut keys: Vec<Vec<Vec<char>>> = Vec::new();
    let mut i: usize = 0;
    while i < containers.len()
        invariant
            i <= containers@.len(),
            sv == sids_view(loopback_sids@),
            apps@.len() == i,
            keys@.len() == i,
            forall|k: int| 0 <= k < i ==> #[trigger] apps@[k] == app_of(containers@[k], sv),
            forall|k: int| 0 <= k < i ==> key_view(#[trigger] keys@[k]) == app_key(apps@[k]),
        decreases containers@.len() - i,
    {
        let c = &containers[i];
        let mut enabled = false;
        let mut t: usize = 0;
        while t < loopback_sids.len()
            invariant
                t <= loopback_sids@.len(),
                sv == sids_view(loopback_sids@),
                enabled == exists|k: int| 0 <= k < t && (#[trigger] sv[k]).0 == c.sid@,
            decreases loopback_sids@.len() - t,
        {
            if bytes_equal(&loopback_sids[t].bytes, &c.sid) {
                proof { assert(sv[t as int].0 == c.sid@); }
                enabled = true;
            }
            t = t + 1;
        }
        let app = UwpApp { name: c.name.clone(), package_family_name: c.package_family_name.clone(), enabled };
        let name_chars = chars_of(app.name.as_str());
        let mut key: Vec<Vec<char>> = Vec::new();
        key.push(ascii_lower_chars(&name_chars));
        key.push(name_chars);
        key.push(chars_of(app.package_family_name.as_str()));
        proof { assert(key_view(key) =~= app_key(app)); }
        apps.push(app);
        keys.push(key);
        i = i + 1;
    }
    let order = stable_order(&keys);
    proof {
        assert(keys_view(keys@) =~= containers@.map_values(|c: AppContainer| app_key(app_of(c, sv))));
    }
    let mut out: Vec<UwpApp> = Vec::new();
    let mut k: usize = 0;
    while k < order.len()
        invariant
            k <= order@.len(),
            order@.len() == apps@.len(),
            apps@.len() == containers@.len(),
            forall|t: int| 0 <= t < order@.len() ==> #[trigger] order@[t] < apps@.len(),
            forall|t: int| 0 <= t < apps@.len() ==> #[trigger] apps@[t] == app_of(containers@[t], sv),
            out@.len() == k,
            forall|t: int| 0 <= t < k ==> #[trigger] out@[t] == app_of(containers@[order@[t] as int], sv),
        decreases order@.len() - k,
    {
        out.push(apps[order[k]].duplicate());
        k = k + 1;
    }
    proof { assert(app_order(containers@, sv, order@)); }
    out
}

/// A name that can be shown: trimmed, not empty, and not an unresolved resource
/// reference (`@{...}` or `ms-resource:...`).
pub open spec fn usable_name(v: Seq<char>) -> Option<Seq<char>> {
    let t = trimmed(v);
    if t.len() > 0 && !starts_with(t, "@{"@) && !starts_with(t, "ms-resource:"@) { Some(t) } else { None }
}

/// `s` begins with `p`.
pub open spec fn starts_with(s: Seq<char>, p: Seq<char>) -> bool {
    p.len() <= s.len() && s.subrange(0, p.len() as int) == p
}

fn has_prefix(s: &Vec<char>, p: &str) -> (r: bool)
    ensures
        r == starts_with(s@, p@),
{
    let pv = chars_of(p);
    if pv.len() > s.len() {
        return false;
    }
    let mut i: usize = 0;
    while i < pv.len()
        invariant
            i <= pv.len() <= s.len(),
            pv@ == p@,
            forall|j: int| 0 <= j < i ==> s@[j] == pv@[j],
        decreases pv.len() - i,
    {
        if s[i] != pv[i] {
            proof { assert(s@.subrange(0, pv@.len() as int)[i as int] != pv@[i as int]); }
            return false;
        }
        i = i + 1;
    }
    proof { assert(s@.subrange(0, pv@.len() as int) =~= pv@); }
    true
}

fn usable(v: &str) -> (r: Option<String>)
    ensures
        match usable_name(v@) {
            Some(t) => r is Some && r->Some_0@ == t,
            None => r is None,
        },
{
    let t = trim_text(v);
    let cs = chars_of(t.as_str());
    if cs.len() > 0 && !has_prefix(&cs, "@{") && !has_prefix(&cs, "ms-resource:") {
        Some(t)
    } else {
        None
    }
}

/// The text of an optional string slice.
pub open spec fn text_opt(o: Option<&str>) -> Option<Seq<char>> {
    match o {
        Some(t) => Some(t@),
        None => None,
    }
}

/// The resource reference to resolve for a display name that is not usable as it is: an
/// `@{...}` reference as it stands, or an `ms-resource:` reference qualified with the
/// package's full name (when known).
pub open spec fn indirect_resource(display_name: Seq<char>, package_full_name: Seq<char>) -> Option<Seq<char>> {
    let t = trimmed(display_name);
    if starts_with(t, "@{"@) {
        Some(t)
    } else if starts_with(t, "ms-resource:"@) && package_full_name.len() > 0 {
        Some("@{"@ + package_full_name + "?"@ + t + "}"@)
    } else {
        None
    }
}

/// The name shown for an application, given what resolving its resource reference gave:
/// the display name if usable; else the resolved name if usable; else the container's
/// name, the package's full name if usable, and the full name as it is last.
pub open spec fn uwp_name(
    display_name: Option<Seq<char>>,
    app_container_name: Seq<char>,
    package_full_name: Seq<char>,
    resolved: Option<Seq<char>>,
) -> Seq<char> {
    let from_display = match display_name {
        Some(d) => usable_name(d),
        None => None,
    };
    let from_resource = match resolved {
        Some(x) => usable_name(x),
        None => None,
    };
    if from_display is Some {
        from_display->0
    } else if from_resource is Some {
        from_resource->0
    } else if usable_name(app_container_name) is Some {
        usable_name(app_container_name)->0
    } else if usable_name(package_full_name) is Some {
        usable_name(package_full_name)->0
    } else {
        package_full_name
    }
}

/// The resource reference to resolve for an application's display name, when the name
/// is not usable as it is.
pub fn uwp_indirect_resource(display_name: Option<&str>, package_full_name: &str) -> (r: Option<String>)
    ensures
        match display_name {
            Some(d) => match usable_name(d@) {
                Some(_) => r is None,
                None => match indirect_resource(d@, package_full_name@) {
                    Some(x) => r is Some && r->Some_0@ == x,
                    None => r is None,
                },
            },
            None => r is None,
        },
{
    match display_name {
        None => None,
        Some(d) => {
            if usable(d).is_some() {
                return None;
            }
            let t = trim_text(d);
            let cs = chars_of(t.as_str());
            if has_prefix(&cs, "@{") {
                Some(t)
            } else if has_prefix(&cs, "ms-resource:") && package_full_name.unicode_len() > 0 {
                let mut s = String::from_str("@{");
                s.append(package_full_name);
                s.append("?");
                s.append(t.as_str());
                s.append("}");
                Some(s)
            } else {
                None
            }
        },
    }
}

/// The name shown for an application, given the result of resolving its resource
/// reference (`None` when there was none or it did not resolve).
pub fn uwp_display_name_from(
    display_name: Option<&str>,
    app_container_name: &str,
    package_full_name: &str,
    resolved: Option<&str>,
) -> (r: String)
    ensures
        r@ == uwp_name(
            text_opt(display_name),
            app_container_name@,
            package_full_name@,
            text_opt(resolved),
        ),
{
    if let Some(d) = display_name {
        if let Some(name) = usable(d) {
            return name;
        }
    }
    if let Some(x) = resolved {
        if let Some(name) = usable(x) {
            return name;
        }
    }
    if let Some(name) = usable(app_container_name) {
        return name;
    }
    if let Some(name) = usable(package_full_name) {
        return name;
    }
    String::from_str(package_full_name)
}

/// The name shown for an application; `resolve_indirect` resolves a resource reference
/// and is called at most once, with the reference `uwp_indirect_resource` gives.
pub fn resolve_uwp_display_name_with<F: Fn(&str) -> Option<String>>(
    display_name: Option<&str>,
    app_container_name: &str,
    package_full_name: &str,
    resolve_indirect: F,
) -> (r: String)
    requires
        forall|s: &str| resolve_indirect.requires((s,)),
    ensures
        exists|resolved: Option<Seq<char>>| r@ == #[trigger] uwp_name(
            text_opt(display_name),
            app_container_name@,
            package_full_name@,
            resolved,
        ),
        (match display_name {
            Some(d) => usable_name(d@) is Some || indirect_resource(d@, package_full_name@) is None,
            None => true,
        }) ==> r@ == uwp_name(
            text_opt(display_name),
            app_container_name@,
            package_full_name@,
            None,
        ),
{
    let resource = uwp_indirect_resource(display_name, package_full_name);
    let resolved: Option<String> = match &resource {
        Some(x) => resolve_indirect(x.as_str()),
        None => None,
    };
    let r = match &resolved {
        Some(x) => uwp_display_name_from(display_name, app_container_name, package_full_name, Some(x.as_str())),
        None => uwp_display_name_from(display_name, app_container_name, package_full_name, None),
    };
    proof {
        let rv = match resolved { Some(x) => Some(x@), None => None };
        assert(r@ == uwp_name(text_opt(display_name), app_container_name@, package_full_name@, rv));
    }
    r
}

/// The text the elevated helper writes for its result.
pub open spec fn uwp_result_text(result: Result<(), Seq<char>>) -> Seq<char> {
    match result {
        Ok(_) => "ok\n"@,
        Err(e) => "error\n"@ + e,
    }
}

/// The text the elevated helper writes for its result.
pub fn format_uwp_result(result: &Result<(), String>) -> (r: String)
    ensures
        r@ == uwp_result_text(match result { Ok(_) => Ok(()), Err(e) => Err(e@) }),
{
    match result {
        Ok(()) => String::from_str("ok\n"),
        Err(error) => {
            let mut s = String::from_str("error\n");
            s.append(error.as_str());
            s
        },
    }
}

/// `s` without its trailing carriage returns and line feeds.
pub open spec fn without_line_ends(s: Seq<char>) -> Seq<char>
    decreases s.len(),
{
    if s.len() > 0 && (s.last() == '\r' || s.last() == '\n') { without_line_ends(s.drop_last()) } else { s }
}

/// What the helper's result text says: `ok`, or `error` and a line with the message.
pub open spec fn parsed_uwp_result(value: Seq<char>) -> Result<(), Seq<char>> {
    let v = without_line_ends(value);
    if v == "ok"@ {
        Ok(())
    } else if starts_with(v, "error\n"@) {
        let e = v.subrange(6, v.len() as int);
        if trimmed(e).len() == 0 { Err("提权 UWP helper 返回未知错误"@) } else { Err(e) }
    } else {
        Err("提权 UWP helper 返回格式无效"@)
    }
}

/// Reads the helper's result text.
pub fn parse_uwp_result(value: &str) -> (r: Result<(), String>)
    ensures
        match parsed_uwp_result(value@) {
            Ok(_) => r is Ok,
            Err(e) => r is Err && r->Err_0@ == e,
        },
{
    let cs = chars_of(value);
    let mut n: usize = cs.len();
    proof { assert(cs@.subrange(0, n as int) =~= cs@); }
    while n > 0 && (cs[n - 1] == '\r' || cs[n - 1] == '\n')
        invariant
            n <= cs.len(),
            cs@ == value@,
            without_line_ends(value@) == without_line_ends(cs@.subrange(0, n as int)),
        decreases n,
    {
        proof { assert(cs@.subrange(0, n as int).drop_last() =~= cs@.subrange(0, n - 1)); }
        n = n - 1;
    }
    let mut v: Vec<char> = Vec::new();
    let mut i: usize = 0;
    while i < n
        invariant
            i <= n <= cs.len(),
            v@ == cs@.subrange(0, i as int),
        decreases n - i,
    {
        v.push(cs[i]);
        proof { assert(cs@.subrange(0, i + 1) =~= cs@.subrange(0, i as int).push(cs@[i as int])); }
        i = i + 1;
    }
    proof {
        assert(without_line_ends(v@) == v@);
        assert(without_line_ends(value@) == v@);
        reveal_strlit("ok");
    }
    if v.len() == 2 && v[0] == 'o' && v[1] == 'k' {
        proof { assert(v@ =~= "ok"@); }
        return Ok(());
    }
    proof {
        if v@ == "ok"@ { assert(v@.len() == 2 && v@[0] == 'o' && v@[1] == 'k'); }
    }
    if has_prefix(&v, "error\n") {
        proof { reveal_strlit("error\n"); }
        let mut e: Vec<char> = Vec::new();
        let mut k: usize = 6;
        while k < v.len()
            invariant
                6 <= k <= v.len(),
                e@ == v@.subrange(6, k as int),
            decreases v.len() - k,
        {
            e.push(v[k]);
            proof { assert(v@.subrange(6, k + 1) =~= v@.subrange(6, k as int).push(v@[k as int])); }
            k = k + 1;
        }
        let text = crate::text::string_from_chars(&e);
        let t = trim_text(text.as_str());
        if t.as_str().unicode_len() == 0 {
            return Err(String::from_str("提权 UWP helper 返回未知错误"));
        }
        return Err(text);
    }
    Err(String::from_str("提权 UWP helper 返回格式无效"))
}

/// The launch code with which the user refused elevation.
pub const ERROR_CANCELLED: i32 = 1223;

/// A signed number in decimal.
pub open spec fn signed_decimal(n: int) -> Seq<char> {
    if n < 0 { "-"@ + decimal((-n) as nat) } else { decimal(n as nat) }
}

/// What a launch code of the elevated helper means: refused by the user, or a failed
/// launch (a code of 32 or less); `None` when the helper was started.
pub open spec fn launch_error_text(code: Option<i32>) -> Option<Seq<char>> {
    match code {
        Some(c) => if c == 1223 {
            Some("用户取消了 UWP 管理员权限请求"@)
        } else if c <= 32 {
            Some("请求 UWP 管理员权限失败，启动返回码 "@ + signed_decimal(c as int))
        } else {
            None
        },
        None => None,
    }
}

/// The error of launching the elevated helper, if its launch code reports one.
pub fn elevated_uwp_launch_error(launch_code: Option<i32>) -> (r: Option<String>)
    ensures
        match launch_error_text(launch_code) {
            Some(t) => r is Some && r->Some_0@ == t,
            None => r is None,
        },
{
    match launch_code {
        Some(code) => {
            if code == ERROR_CANCELLED {
                return Some(String::from_str("用户取消了 UWP 管理员权限请求"));
            }
            if code <= 32 {
                let mut s = String::from_str("请求 UWP 管理员权限失败，启动返回码 ");
                if code < 0 {
                    s.append("-");
                    let magnitude: u64 = (0i64 - (code as i64)) as u64;
                    push_decimal(&mut s, magnitude);
                } else {
                    push_decimal(&mut s, code as u64);
                }
                Some(s)
            } else {
                None
            }
        },
        None => None,
    }
}

/// Access denied, as a Win32 code.
pub const ERROR_ACCESS_DENIED: u32 = 5;
/// Access denied, as an HRESULT.
pub const HRESULT_ACCESS_DENIED: u32 = 0x8007_0005;

/// Whether a result code means access denied.
pub fn is_access_denied(code: u32) -> (r: bool)
    ensures
        r == (code == 5 || code == 0x8007_0005),
{
    code == ERROR_ACCESS_DENIED || code == HRESULT_ACCESS_DENIED
}

/// The Win32 error code within a result code: the low word of a Win32 HRESULT, or the
/// code itself when it fits in 16 bits.
pub open spec fn win32_code(code: u32) -> Option<u32> {
    if code / 0x1_0000 == 0x8007 { Some(code % 0x1_0000) } else if code <= 0xffff { Some(code) } else { None }
}

/// The explanation of a result code.
pub open spec fn code_explanation(code: u32) -> Seq<char> {
    if code == 5 || code == 0x8007_0005 {
        "权限不足"@
    } else if code == 87 || code == 0x8007_0057 {
        "参数无效"@
    } else if code == 0x8000_4005 {
        "系统拒绝了低层配置"@
    } else {
        "未知错误"@
    }
}

/// The upper-case hexadecimal digit for `d < 16`.
pub open spec fn hex_upper(d: nat) -> char {
    if d < 10 { ((48 + d) as u8) as char } else { ((55 + d) as u8) as char }
}

/// `code` in eight upper-case hexadecimal digits.
pub open spec fn hex8(code: u32) -> Seq<char> {
    Seq::new(8, |i: int| hex_upper(((code as nat) / pow16((7 - i) as nat)) % 16))
}

/// 16 to the power `n`.
pub open spec fn pow16(n: nat) -> nat
    decreases n,
{
    if n == 0 { 1 } else { 16 * pow16((n - 1) as nat) }
}

proof fn lemma_pow16_positive(n: nat)
    ensures
        pow16(n) >= 1,
    decreases n,
{
    if n > 0 {
        lemma_pow16_positive((n - 1) as nat);
    }
}

fn hex_digit_char(d: u32) -> (c: char)
    requires
        d < 16,
    ensures
        c == hex_upper(d as nat),
{
    match d {
        0 => '0', 1 => '1', 2 => '2', 3 => '3', 4 => '4', 5 => '5', 6 => '6', 7 => '7',
        8 => '8', 9 => '9', 10 => 'A', 11 => 'B', 12 => 'C', 13 => 'D', 14 => 'E', _ => 'F',
    }
}

fn push_hex8(out: &mut String, code: u32)
    ensures
        final(out)@ == old(out)@ + hex8(code),
{
    let ghost start = out@;
    let mut i: u32 = 0;
    let mut div: u32 = 0x1000_0000;
    proof { assert(pow16(7) == 0x1000_0000) by { reveal_with_fuel(pow16, 8); } }
    while i < 8
        invariant
            i <= 8,
            div >= 1,
            i < 8 ==> div as nat == pow16((7 - i) as nat),
            out@ == start + hex8(code).subrange(0, i as int),
        decreases 8 - i,
    {
        let d = (code / div) % 16;
        proof { assert(hex8(code)[i as int] == hex_upper(d as nat)); }
        push_char(out, hex_digit_char(d));
        proof { assert(hex8(code).subrange(0, i + 1) =~= hex8(code).subrange(0, i as int).push(hex_upper(d as nat))); }
        if i < 7 {
            proof {
                assert(pow16((7 - i) as nat) == 16 * pow16((7 - i - 1) as nat));
                lemma_pow16_positive((7 - i - 1) as nat);
            }
            div = div / 16;
        }
        i = i + 1;
    }
    proof { assert(hex8(code).subrange(0, 8) =~= hex8(code)); }
}

/// The system's message for an error code.
///
/// Trusted: calls `std::io::Error::from_raw_os_error` and `to_string`; the text depends on
/// the operating system and its language, so nothing is stated of it.
#[verifier::external_body]
fn os_error_text(code: i32) -> String {
    std::io::Error::from_raw_os_error(code).to_string()
}

/// The message of a failed network isolation call: the call's name, the code in eight
/// hexadecimal digits, its explanation and the system's message (when the code holds a
/// Win32 code).
pub open spec fn isolation_error_text(api_name: Seq<char>, code: u32, system_message: Seq<char>) -> Seq<char> {
    api_name + " 失败，错误码 0x"@ + hex8(code) + "（"@ + code_explanation(code) + "："@ + system_message + "）"@
}

/// The message of a failed network isolation call.
pub fn format_network_isolation_error(api_name: &str, code: u32) -> (r: String)
    ensures
        exists|m: Seq<char>| r@ == isolation_error_text(api_name@, code, m)
            && (win32_code(code) is None ==> m == "无法解析系统错误文本"@),
{
    let win32: Option<u32> = if code / 0x1_0000 == 0x8007 {
        Some(code % 0x1_0000)
    } else if code <= 0xffff {
        Some(code)
    } else {
        None
    };
    let explanation = if code == ERROR_ACCESS_DENIED || code == HRESULT_ACCESS_DENIED {
        "权限不足"
    } else if code == 87 || code == 0x8007_0057 {
        "参数无效"
    } else if code == 0x8000_4005 {
        "系统拒绝了低层配置"
    } else {
        "未知错误"
    };
    let system_message = match win32 {
        Some(value) => os_error_text(value as i32),
        None => String::from_str("无法解析系统错误文本"),
    };
    let mut s = String::from_str(api_name);
    s.append(" 失败，错误码 0x");
    push_hex8(&mut s, code);
    s.append("（");
    s.append(explanation);
    s.append("：");
    s.append(system_message.as_str());
    s.append("）");
    proof { assert(s@ == isolation_error_text(api_name@, code, system_message@)); }
    s
}


/// The elevated helper's result survives its text: reading what it writes gives back
/// success, and gives back an error whose message is not blank and does not end with a
/// line break.
pub proof fn law_uwp_result_round_trip(e: Seq<char>)
    requires
        trimmed(e).len() > 0,
        e.len() > 0 ==> e.last() != '\r' && e.last() != '\n',
    ensures
        parsed_uwp_result(uwp_result_text(Ok(()))) == Ok::<(), Seq<char>>(()),
        parsed_uwp_result(uwp_result_text(Err(e))) == Err::<(), Seq<char>>(e),
{
    reveal_strlit("ok\n");
    reveal_strlit("ok");
    reveal_strlit("error\n");
    let ok_text = "ok\n"@;
    assert(ok_text.drop_last() =~= "ok"@);
    assert(without_line_ends("ok"@) == "ok"@);
    assert(without_line_ends(ok_text) == "ok"@);
    let t = "error\n"@ + e;
    if e.len() == 0 {
        assert(trimmed(e).len() == 0) by {
            assert(e =~= Seq::<char>::empty());
        }
    }
    assert(t.last() == e.last());
    assert(without_line_ends(t) == t);
    assert(t.subrange(0, 6) =~= "error\n"@);
    assert(t.subrange(6, t.len() as int) =~= e);
    assert(t != "ok"@) by {
        assert(t.len() != 2 || t[0] != 'o');
    }
}

// ---------------------------------------------------------------------------
// The elevated helper's arguments

/// The lower-case hexadecimal digit for `n < 16`.
pub open spec fn hex_lower(n: u8) -> char {
    if n < 10 { ((48 + n) as u8) as char } else { ((87 + n) as u8) as char }
}

/// Bytes as lower-case hexadecimal, two digits each.
pub open spec fn hex_of(bytes: Seq<u8>) -> Seq<char>
    decreases bytes.len(),
{
    if bytes.len() == 0 {
        Seq::empty()
    } else {
        hex_of(bytes.drop_last()) + seq![hex_lower(bytes.last() / 16), hex_lower(bytes.last() % 16)]
    }
}

fn hex_digit_lower(n: u8) -> (c: char)
    requires
        n < 16,
    ensures
        c == hex_lower(n),
{
    if n < 10 { (48 + n) as char } else { (87 + n) as char }
}

/// Encodes a helper argument as the lower-case hexadecimal of its UTF-8 bytes, so that it
/// passes the command line unchanged.
pub fn encode_uwp_argument(value: &str) -> (r: String)
    ensures
        r@ == hex_of(value.spec_bytes()),
{
    let bytes = value.as_bytes();
    let mut out = String::new();
    let mut i: usize = 0;
    proof { assert(bytes@.subrange(0, 0) =~= Seq::<u8>::empty()); }
    while i < bytes.len()
        invariant
            i <= bytes@.len(),
            bytes@ == value.spec_bytes(),
            out@ == hex_of(bytes@.subrange(0, i as int)),
        decreases bytes@.len() - i,
    {
        let b = bytes[i];
        proof { assert(bytes@.subrange(0, i + 1).drop_last() =~= bytes@.subrange(0, i as int)); }
        push_char(&mut out, hex_digit_lower(b / 16));
        push_char(&mut out, hex_digit_lower(b % 16));
        proof { assert(out@ =~= hex_of(bytes@.subrange(0, i + 1))); }
        i = i + 1;
    }
    proof { assert(bytes@.subrange(0, bytes@.len() as int) =~= bytes@); }
    out
}

/// The value of a hexadecimal digit of either case.
pub open spec fn hex_value(c: char) -> Option<u8> {
    if '0' <= c && c <= '9' {
        Some(((c as u32) - 48) as u8)
    } else if 'a' <= c && c <= 'f' {
        Some(((c as u32) - 87) as u8)
    } else if 'A' <= c && c <= 'F' {
        Some(((c as u32) - 55) as u8)
    } else {
        None
    }
}

/// Two characters read as `u8::from_str_radix(_, 16)` reads them: an optional `+`, then
/// hexadecimal digits.
pub open spec fn hex_pair_value(a: char, b: char) -> Option<u8> {
    if a == '+' {
        hex_value(b)
    } else {
        match (hex_value(a), hex_value(b)) {
            (Some(x), Some(y)) => Some((x * 16 + y) as u8),
            _ => None,
        }
    }
}

/// The bytes of a text of hexadecimal pairs, or none when a pair is not one.
pub open spec fn hex_bytes(t: Seq<char>) -> Option<Seq<u8>>
    decreases t.len(),
{
    if t.len() < 2 {
        Some(Seq::empty())
    } else {
        match (hex_bytes(t.subrange(0, t.len() - 2)), hex_pair_value(t[t.len() - 2], t[t.len() - 1])) {
            (Some(bs), Some(b)) => Some(bs.push(b)),
            _ => None,
        }
    }
}

/// What a helper argument decodes to: an ASCII text of even length, hexadecimal pairs,
/// whose bytes are UTF-8.
pub open spec fn decoded_argument(t: Seq<char>) -> Result<Seq<char>, Seq<char>> {
    if !(forall|i: int| 0 <= i < t.len() ==> (t[i] as u32) < 128) || t.len() % 2 != 0 {
        Err("提权 UWP 参数长度无效"@)
    } else {
        match hex_bytes(t) {
            None => Err("提权 UWP 参数不是有效十六进制"@),
            Some(bytes) => if valid_utf8(bytes) { Ok(decode_utf8(bytes)) } else { Err("提权 UWP 参数不是有效 UTF-8"@) },
        }
    }
}

/// The text of some UTF-8 bytes, if they are UTF-8.
///
/// Trusted: calls `String::from_utf8`, which fails exactly when the bytes are not UTF-8;
/// the contract says so with vstd's definitions of valid UTF-8 and of its decoding.
#[verifier::external_body]
fn utf8_text(bytes: Vec<u8>) -> (r: Option<String>)
    ensures
        r is Some <==> valid_utf8(bytes@),
        r is Some ==> r->0@ == decode_utf8(bytes@),
{
    String::from_utf8(bytes).ok()
}

fn hex_value_of(c: char) -> (r: Option<u8>)
    ensures
        r == hex_value(c),
{
    if '0' <= c && c <= '9' {
        Some((c as u32 - 48) as u8)
    } else if 'a' <= c && c <= 'f' {
        Some((c as u32 - 87) as u8)
    } else if 'A' <= c && c <= 'F' {
        Some((c as u32 - 55) as u8)
    } else {
        None
    }
}

/// Decodes a helper argument written by `encode_uwp_argument`.
pub fn decode_uwp_argument(value: &str) -> (r: Result<String, String>)
    ensures
        match decoded_argument(value@) {
            Ok(t) => r is Ok && r->Ok_0@ == t,
            Err(e) => r is Err && r->Err_0@ == e,
        },
{
    let cs = chars_of(value);
    let mut i: usize = 0;
    while i < cs.len()
        invariant
            i <= cs@.len(),
            cs@ == value@,
            forall|j: int| 0 <= j < i ==> (cs@[j] as u32) < 128,
        decreases cs@.len() - i,
    {
        if cs[i] as u32 >= 128 {
            return Err(String::from_str("提权 UWP 参数长度无效"));
        }
        i = i + 1;
    }
    if cs.len() % 2 != 0 {
        return Err(String::from_str("提权 UWP 参数长度无效"));
    }
    let mut bytes: Vec<u8> = Vec::new();
    let mut k: usize = 0;
    proof { assert(cs@.subrange(0, 0).len() == 0); }
    while k < cs.len()
        invariant
            k <= cs@.len(),
            k % 2 == 0,
            cs@.len() % 2 == 0,
            cs@ == value@,
            forall|j: int| 0 <= j < cs@.len() ==> (cs@[j] as u32) < 128,
            hex_bytes(cs@.subrange(0, k as int)) == Some(bytes@),
        decreases cs@.len() - k,
    {
        let a = cs[k];
        let b = cs[k + 1];
        let pair = if a == '+' {
            hex_value_of(b)
        } else {
            match (hex_value_of(a), hex_value_of(b)) {
                (Some(x), Some(y)) => Some(x * 16 + y),
                _ => None,
            }
        };
        let ghost pre = cs@.subrange(0, k + 2);
        proof {
            assert(pre.subrange(0, pre.len() - 2) =~= cs@.subrange(0, k as int));
            assert(pre[pre.len() - 2] == a && pre[pre.len() - 1] == b);
        }
        match pair {
            Some(byte) => {
                bytes.push(byte);
                proof { assert(hex_bytes(pre) == Some(bytes@)); }
            }
            None => {
                proof {
                    assert(hex_bytes(pre) is None);
                    lemma_hex_bytes_none_extends(cs@, k + 2);
                    assert(cs@.subrange(0, cs@.len() as int) =~= cs@);
                }
                return Err(String::from_str("提权 UWP 参数不是有效十六进制"));
            }
        }
        k = k + 2;
    }
    proof { assert(cs@.subrange(0, cs@.len() as int) =~= cs@); }
    match utf8_text(bytes) {
        Some(text) => Ok(text),
        None => Err(String::from_str("提权 UWP 参数不是有效 UTF-8")),
    }
}

proof fn lemma_hex_bytes_none_extends(t: Seq<char>, n: int)
    requires
        0 <= n <= t.len(),
        n % 2 == 0,
        t.len() % 2 == 0,
        hex_bytes(t.subrange(0, n)) is None,
    ensures
        hex_bytes(t) is None,
    decreases t.len() - n,
{
    if n < t.len() {
        let p = t.subrange(0, n + 2);
        assert(p.subrange(0, p.len() - 2) =~= t.subrange(0, n));
        lemma_hex_bytes_none_extends(t, n + 2);
    } else {
        assert(t.subrange(0, n) =~= t);
    }
}

/// One change as JSON: the array of its quoted name and its flag.
pub open spec fn change_json(change: (Seq<char>, bool)) -> Seq<char> {
    seq!['[', '"'] + json_chars(change.0) + seq!['"', ','] + (if change.1 { "true"@ } else { "false"@ }) + seq![']']
}

/// The JSON text `serde_json::to_string` writes for a list of changes: an array of
/// `[name, enabled]` pairs, written without spaces.
pub open spec fn changes_json(changes: Seq<(Seq<char>, bool)>) -> Seq<char> {
    seq!['['] + join_with(changes.map_values(|c: (Seq<char>, bool)| change_json(c)), seq![',']) + seq![']']
}

/// What `serde_json::from_str` reads from a text as a list of changes: the changes, or
/// the text of its error.
pub uninterp spec fn json_changes(text: Seq<char>) -> Result<Seq<(Seq<char>, bool)>, Seq<char>>;

/// The changes as JSON text.
///
/// Trusted: calls `serde_json::to_string`, which fails only for a `Serialize` impl that
/// fails or a map with keys that are not strings, neither of which a list of string and
/// boolean pairs has; the contract states success, the text as `changes_json` says (the
/// compact formatter and serde_json's string escaping), and that reading it back with
/// `serde_json::from_str` gives the same changes (strings and booleans are written
/// without loss).
#[verifier::external_body]
fn changes_to_json(changes: &Vec<(String, bool)>) -> (r: Result<String, String>)
    ensures
        r is Ok && r->Ok_0@ == changes_json(changes_view(changes@))
            && json_changes(r->Ok_0@) is Ok && json_changes(r->Ok_0@)->Ok_0 == changes_view(changes@),
{
    serde_json::to_string(changes).map_err(|error| error.to_string())
}

/// The changes read from JSON text.
///
/// Trusted: calls `serde_json::from_str`; the contract names what it gives, a function of
/// the text alone: the changes, or the text of its error.
#[verifier::external_body]
fn json_to_changes(text: &str) -> (r: Result<Vec<(String, bool)>, String>)
    ensures
        match json_changes(text@) {
            Ok(c) => r is Ok && changes_view(r->Ok_0@) == c,
            Err(e) => r is Err && r->Err_0@ == e,
        },
{
    serde_json::from_str(text).map_err(|error: serde_json::Error| error.to_string())
}

/// The changes as the payload of the elevated helper: their JSON text, which reads back
/// as the same changes.
pub fn serialize_uwp_changes(changes: &Vec<(String, bool)>) -> (r: Result<String, String>)
    ensures
        r is Ok,
        r->Ok_0@ == changes_json(changes_view(changes@)),
        json_changes(r->Ok_0@) is Ok && json_changes(r->Ok_0@)->Ok_0 == changes_view(changes@),
{
    match changes_to_json(changes) {
        Ok(text) => Ok(text),
        Err(detail) => {
            let mut m = String::from_str("序列化 UWP 变更失败：");
            push_text(&mut m, detail.as_str());
            Err(m)
        }
    }
}

/// The changes of a helper payload.
pub fn deserialize_uwp_changes(value: &str) -> (r: Result<Vec<(String, bool)>, String>)
    ensures
        match json_changes(value@) {
            Ok(c) => r is Ok && changes_view(r->Ok_0@) == c,
            Err(e) => r is Err && r->Err_0@ == "解析提权 UWP 变更失败："@ + e,
        },
{
    match json_to_changes(value) {
        Ok(changes) => Ok(changes),
        Err(detail) => {
            let mut m = String::from_str("解析提权 UWP 变更失败：");
            push_text(&mut m, detail.as_str());
            Err(m)
        }
    }
}

/// A container as plain values: name, package family name, security identifier.
pub open spec fn container_view(c: AppContainer) -> (Seq<char>, Seq<char>, Seq<u8>) {
    (c.name@, c.package_family_name@, c.sid@)
}

/// The containers as plain values.
pub open spec fn containers_view(s: Seq<AppContainer>) -> Seq<(Seq<char>, Seq<char>, Seq<u8>)> {
    s.map_values(|c: AppContainer| container_view(c))
}

/// Some container of the list has the package family name.
pub open spec fn has_family(s: Seq<(Seq<char>, Seq<char>, Seq<u8>)>, family: Seq<char>) -> bool {
    exists|k: int| 0 <= k < s.len() && (#[trigger] s[k]).1 == family
}

/// The containers with later repeats of a package family name left out.
pub open spec fn unique_families(s: Seq<(Seq<char>, Seq<char>, Seq<u8>)>) -> Seq<(Seq<char>, Seq<char>, Seq<u8>)>
    decreases s.len(),
{
    if s.len() == 0 {
        Seq::empty()
    } else {
        let r = unique_families(s.drop_last());
        if has_family(r, s.last().1) { r } else { r.push(s.last()) }
    }
}

fn find_family(s: &Vec<AppContainer>, family: &String) -> (r: bool)
    ensures
        r == has_family(containers_view(s@), family@),
{
    let ghost v = containers_view(s@);
    let mut i: usize = 0;
    while i < s.len()
        invariant
            i <= s@.len(),
            v == containers_view(s@),
            forall|t: int| 0 <= t < i ==> s@[t].package_family_name@ != family@,
        decreases s@.len() - i,
    {
        if crate::text::text_eq(s[i].package_family_name.as_str(), family.as_str()) {
            proof { assert(v[i as int].1 == family@); }
            return true;
        }
        i = i + 1;
    }
    proof {
        if has_family(v, family@) {
            let k = choose|k: int| 0 <= k < v.len() && (#[trigger] v[k]).1 == family@;
            assert(s@[k].package_family_name@ == family@);
        }
    }
    false
}

/// The containers the system lists, each package family once: a later container with a
/// package family name already seen is left out.
pub fn unique_containers(items: Vec<AppContainer>) -> (r: Vec<AppContainer>)
    ensures
        containers_view(r@) == unique_families(containers_view(items@)),
{
    let ghost src = containers_view(items@);
    let mut unique: Vec<AppContainer> = Vec::new();
    let mut i: usize = 0;
    proof { assert(src.subrange(0, 0) =~= Seq::<(Seq<char>, Seq<char>, Seq<u8>)>::empty()); }
    while i < items.len()
        invariant
            i <= items@.len(),
            src == containers_view(items@),
            containers_view(unique@) == unique_families(src.subrange(0, i as int)),
        decreases items@.len() - i,
    {
        proof {
            assert(src.subrange(0, i + 1).drop_last() =~= src.subrange(0, i as int));
            assert(src.subrange(0, i + 1).last() == container_view(items@[i as int]));
        }
        if !find_family(&unique, &items[i].package_family_name) {
            let ghost before = unique@;
            let c = AppContainer {
                name: items[i].name.clone(),
                package_family_name: items[i].package_family_name.clone(),
                sid: items[i].sid.clone(),
            };
            unique.push(c);
            proof { assert(containers_view(unique@) =~= containers_view(before).push(container_view(items@[i as int]))); }
        }
        i = i + 1;
    }
    proof { assert(src.subrange(0, items@.len() as int) =~= src); }
    unique
}

/// Where listing the app containers stands after one call of
/// `NetworkIsolationEnumAppContainers`: the containers listed, a second call to make
/// without flags, or the error that ends the listing.
#[derive(Debug)]
pub enum ContainerListing {
    Listed(Vec<AppContainer>),
    RetryWithoutFlags,
    Failed(String),
}

/// Decides on the result of one listing call: `forced` tells whether the call asked the
/// system to compute the binaries (the first call). The containers listed are kept once
/// per package family; an access denied to the first call leads to a second call without
/// flags; any other failure ends the listing with its message.
pub fn container_listing_step(forced: bool, result: Result<Vec<AppContainer>, u32>) -> (r: ContainerListing)
    ensures
        match result {
            Ok(items) => r matches ContainerListing::Listed(v)
                && containers_view(v@) == unique_families(containers_view(items@)),
            Err(code) => if forced && (code == 5 || code == 0x8007_0005) {
                r is RetryWithoutFlags
            } else {
                r matches ContainerListing::Failed(m)
                    && exists|t: Seq<char>| m@ == isolation_error_text("NetworkIsolationEnumAppContainers"@, code, t)
                        && (win32_code(code) is None ==> t == "无法解析系统错误文本"@)
            },
        },
{
    match result {
        Ok(items) => ContainerListing::Listed(unique_containers(items)),
        Err(code) => {
            if forced && is_access_denied(code) {
                ContainerListing::RetryWithoutFlags
            } else {
                ContainerListing::Failed(format_network_isolation_error("NetworkIsolationEnumAppContainers", code))
            }
        },
    }
}

} // verus!
