//! The settings page: the positions of the drop-downs, the port form, the summaries of
//! ports and lists, the editing of address lists, and the UWP loopback changes.
use vstd::prelude::*;
use vstd::string::*;
use crate::app::config::{AppConfig, AppSettings, ClashSettings, Settings, TunConfig, ProxySettings, LogLevel, ThemeMode, TunStack, strings_view, default_route_exclude_address,
    default_proxy_bypass_list, route_exclude_defaults, bypass_defaults};
use crate::clash::config_merge::{is_digit, all_digits, digits_value, lemma_digits_value_step, lemma_digits_value_grows};
use crate::platform::UwpApp;
use crate::controller::rules::{advance_token, token_after};
use crate::text::push_text;
use crate::controller::address::{is_ip_cidr, is_bypass_entry, is_valid_ip_cidr, is_valid_bypass_entry};
use crate::text::{decimal, push_decimal, trimmed, trim_text, chars_of, string_from_chars, trim_bounds, u64_text,
    parse_u64_from, text_eq, texts_view, ascii_lower, ascii_lower_chars, contains_text, find_text};

verus! {

/// The position of a theme in its drop-down: system, light, dark.
pub open spec fn theme_at(index: i32) -> Option<ThemeMode> {
    if index == 0 { Some(ThemeMode::System) } else if index == 1 { Some(ThemeMode::Light) }
    else if index == 2 { Some(ThemeMode::Dark) } else { None }
}

/// The position of a theme in its drop-down.
pub fn theme_index(mode: ThemeMode) -> (r: i32)
    ensures
        theme_at(r) == Some(mode),
{
    match mode {
        ThemeMode::System => 0,
        ThemeMode::Light => 1,
        ThemeMode::Dark => 2,
    }
}

/// Whether the window is drawn dark: always for the dark theme, never for the light one,
/// and as the system reports it (`system_dark`) for the system theme.
pub fn effective_dark(mode: ThemeMode, system_dark: bool) -> (r: bool)
    ensures
        r == match mode {
            ThemeMode::System => system_dark,
            ThemeMode::Light => false,
            ThemeMode::Dark => true,
        },
{
    match mode {
        ThemeMode::System => system_dark,
        ThemeMode::Light => false,
        ThemeMode::Dark => true,
    }
}

/// The log level at a position of its drop-down: silent, error, warning, info, debug.
pub open spec fn log_level_at(index: i32) -> Option<LogLevel> {
    if index == 0 { Some(LogLevel::Silent) } else if index == 1 { Some(LogLevel::Error) }
    else if index == 2 { Some(LogLevel::Warning) } else if index == 3 { Some(LogLevel::Info) }
    else if index == 4 { Some(LogLevel::Debug) } else { None }
}

/// The position of a log level in its drop-down; reading it back gives the level.
pub fn log_level_index(level: LogLevel) -> (r: i32)
    ensures
        log_level_at(r) == Some(level),
{
    match level {
        LogLevel::Silent => 0,
        LogLevel::Error => 1,
        LogLevel::Warning => 2,
        LogLevel::Info => 3,
        LogLevel::Debug => 4,
    }
}

/// The log level at a position of its drop-down.
pub fn log_level_from_index(index: i32) -> (r: Option<LogLevel>)
    ensures
        r == log_level_at(index),
{
    match index {
        0 => Some(LogLevel::Silent),
        1 => Some(LogLevel::Error),
        2 => Some(LogLevel::Warning),
        3 => Some(LogLevel::Info),
        4 => Some(LogLevel::Debug),
        _ => None,
    }
}

/// The TUN stack at a position of its drop-down: system, gvisor, mixed.
pub open spec fn tun_stack_at(index: i32) -> Option<TunStack> {
    if index == 0 { Some(TunStack::System) } else if index == 1 { Some(TunStack::Gvisor) }
    else if index == 2 { Some(TunStack::Mixed) } else { None }
}

/// The position of a TUN stack in its drop-down; reading it back gives the stack.
pub fn tun_stack_index(stack: TunStack) -> (r: i32)
    ensures
        tun_stack_at(r) == Some(stack),
{
    match stack {
        TunStack::System => 0,
        TunStack::Gvisor => 1,
        TunStack::Mixed => 2,
    }
}

/// The TUN stack at a position of its drop-down.
pub fn tun_stack_from_index(index: i32) -> (r: Option<TunStack>)
    ensures
        r == tun_stack_at(index),
{
    match index {
        0 => Some(TunStack::System),
        1 => Some(TunStack::Gvisor),
        2 => Some(TunStack::Mixed),
        _ => None,
    }
}

/// The texts joined with `、` between them.
pub open spec fn joined_with_mark(v: Seq<Seq<char>>) -> Seq<char>
    decreases v.len(),
{
    if v.len() == 0 {
        Seq::empty()
    } else if v.len() == 1 {
        v[0]
    } else {
        joined_with_mark(v.drop_last()) + "、"@ + v.last()
    }
}

/// A list as one line: `暂无` when empty, else the items joined with `、`.
pub open spec fn list_summary_text(v: Seq<Seq<char>>) -> Seq<char> {
    if v.len() == 0 { "暂无"@ } else { joined_with_mark(v) }
}

/// A list as one line for the settings page.
pub fn list_summary(values: &[String]) -> (r: String)
    ensures
        r@ == list_summary_text(values@.map_values(|s: String| s@)),
{
    let ghost want = values@.map_values(|s: String| s@);
    if values.len() == 0 {
        return String::from_str("暂无");
    }
    let mut out = String::new();
    let mut i: usize = 0;
    while i < values.len()
        invariant
            i <= values@.len(),
            want == values@.map_values(|s: String| s@),
            out@ == joined_with_mark(want.subrange(0, i as int)),
        decreases values@.len() - i,
    {
        proof {
            assert(want.subrange(0, i + 1).drop_last() =~= want.subrange(0, i as int));
            assert(want[i as int] == values@[i as int]@);
        }
        if i > 0 {
            out.append("、");
        }
        out.append(values[i].as_str());
        proof {
            if i == 0 {
                assert(out@ =~= want.subrange(0, 1)[0]);
            }
        }
        i = i + 1;
    }
    proof { assert(want.subrange(0, values@.len() as int) =~= want); }
    out
}

/// The port summary: the mixed port when set, else the HTTP and SOCKS ports that are
/// set, else `未配置`.
pub open spec fn ports_summary_text(mixed: Option<u16>, http: Option<u16>, socks: Option<u16>) -> Seq<char> {
    match mixed {
        Some(m) => "混合端口 "@ + decimal(m as nat),
        None => match (http, socks) {
            (Some(h), Some(s)) => "HTTP "@ + decimal(h as nat) + " · SOCKS "@ + decimal(s as nat),
            (Some(h), None) => "HTTP "@ + decimal(h as nat),
            (None, Some(s)) => "SOCKS "@ + decimal(s as nat),
            (None, None) => "未配置"@,
        },
    }
}

/// The port summary of the core settings.
pub fn ports_summary(clash: &ClashSettings) -> (r: String)
    ensures
        r@ == ports_summary_text(clash.mixed_port, clash.port, clash.socks_port),
{
    match clash.mixed_port {
        Some(mixed) => {
            let mut s = String::from_str("混合端口 ");
            push_decimal(&mut s, mixed as u64);
            s
        },
        None => match (clash.port, clash.socks_port) {
            (Some(http), Some(socks)) => {
                let mut s = String::from_str("HTTP ");
                push_decimal(&mut s, http as u64);
                s.append(" · SOCKS ");
                push_decimal(&mut s, socks as u64);
                s
            },
            (Some(http), None) => {
                let mut s = String::from_str("HTTP ");
                push_decimal(&mut s, http as u64);
                s
            },
            (None, Some(socks)) => {
                let mut s = String::from_str("SOCKS ");
                push_decimal(&mut s, socks as u64);
                s
            },
            (None, None) => String::from_str("未配置"),
        },
    }
}

/// A port as it stands in the form: its number, or nothing.
pub fn optional_port_text(value: Option<u16>) -> (r: String)
    ensures
        r@ == match value {
            Some(p) => decimal(p as nat),
            None => Seq::<char>::empty(),
        },
{
    let mut s = String::new();
    if let Some(p) = value {
        push_decimal(&mut s, p as u64);
    }
    s
}

/// The digits of an unsigned number as `u32` parsing reads them: an optional `+` first.
pub open spec fn unsigned_digits(t: Seq<char>) -> Seq<char> {
    if t.len() > 0 && t[0] == '+' { t.drop_first() } else { t }
}

/// What a port field holds: nothing once trimmed, or a whole number from 1 to 65535
/// (an optional `+`, then digits); `None` for anything else.
pub open spec fn port_field(value: Seq<char>) -> Option<Option<u16>> {
    let t = trimmed(value);
    let d = unsigned_digits(t);
    if t.len() == 0 {
        Some(None)
    } else if all_digits(d) && 1 <= digits_value(d) <= 65535 {
        Some(Some(digits_value(d) as u16))
    } else {
        None
    }
}

/// Reads a port field: empty gives no port; a whole number from 1 to 65535 gives that
/// port; anything else is refused.
pub fn parse_optional_port(value: &str) -> (r: Result<Option<u16>, String>)
    ensures
        match port_field(value@) {
            Some(p) => r == Ok::<Option<u16>, String>(p),
            None => r is Err && r->Err_0@ == "端口必须是 1 到 65535 的整数"@,
        },
{
    let t = trim_text(value);
    let cs = chars_of(t.as_str());
    if cs.len() == 0 {
        return Ok(None);
    }
    let start: usize = if cs[0] == '+' { 1 } else { 0 };
    let ghost d = unsigned_digits(cs@);
    proof {
        if cs@[0] == '+' { assert(d =~= cs@.subrange(1, cs@.len() as int)); } else { assert(d =~= cs@.subrange(0, cs@.len() as int)); }
    }
    if start == cs.len() {
        proof { assert(d.len() == 0); }
        return Err(String::from_str("端口必须是 1 到 65535 的整数"));
    }
    let mut value_so_far: u32 = 0;
    let mut k: usize = start;
    while k < cs.len()
        invariant
            start <= k <= cs.len(),
            start < cs.len(),
            cs@ == trimmed(value@),
            d == unsigned_digits(cs@),
            d == cs@.subrange(start as int, cs@.len() as int),
            forall|j: int| 0 <= j < k - start ==> is_digit(#[trigger] d[j]),
            value_so_far == digits_value(d.subrange(0, k - start)),
            value_so_far <= 65535,
        decreases cs.len() - k,
    {
        let c = cs[k];
        if !('0' <= c && c <= '9') {
            proof { assert(!is_digit(d[k - start])); }
            return Err(String::from_str("端口必须是 1 到 65535 的整数"));
        }
        let digit = (c as u32) - ('0' as u32);
        proof { lemma_digits_value_step(d, k - start); }
        let next = value_so_far * 10 + digit;
        if next > 65535 {
            proof {
                if all_digits(d) {
                    lemma_digits_value_grows(d, k - start + 1, d.len() as int);
                    assert(d.subrange(0, d.len() as int) =~= d);
                }
            }
            return Err(String::from_str("端口必须是 1 到 65535 的整数"));
        }
        value_so_far = next;
        k = k + 1;
    }
    proof {
        assert(d.subrange(0, d.len() as int) =~= d);
    }
    if value_so_far == 0 {
        return Err(String::from_str("端口必须是 1 到 65535 的整数"));
    }
    Ok(Some(value_so_far as u16))
}

/// A character that separates the items of a list typed as text.
pub open spec fn list_separator(c: char) -> bool {
    c == ',' || c == ';' || c == '\n' || c == '\r'
}

/// The fields of a text split at every separator (`n` separators give `n + 1` fields).
pub open spec fn list_fields(s: Seq<char>) -> Seq<Seq<char>>
    decreases s.len(),
{
    if s.len() == 0 {
        seq![Seq::empty()]
    } else {
        let f = list_fields(s.drop_last());
        if list_separator(s.last()) {
            f.push(Seq::empty())
        } else {
            f.update(f.len() - 1, f.last().push(s.last()))
        }
    }
}

proof fn lemma_list_fields_nonempty(s: Seq<char>)
    ensures
        list_fields(s).len() >= 1,
    decreases s.len(),
{
    if s.len() > 0 {
        lemma_list_fields_nonempty(s.drop_last());
    }
}

/// The items of a list, in order: each field trimmed, empty ones and repeats left out.
pub open spec fn normalized_items(fields: Seq<Seq<char>>) -> Seq<Seq<char>>
    decreases fields.len(),
{
    if fields.len() == 0 {
        Seq::empty()
    } else {
        let acc = normalized_items(fields.drop_last());
        let t = trimmed(fields.last());
        if t.len() > 0 && !acc.contains(t) { acc.push(t) } else { acc }
    }
}

fn contains_text_item(items: &Vec<String>, t: &String) -> (r: bool)
    ensures
        r == items@.map_values(|s: String| s@).contains(t@),
{
    let mut i: usize = 0;
    while i < items.len()
        invariant
            i <= items@.len(),
            forall|j: int| 0 <= j < i ==> items@[j]@ != t@,
        decreases items@.len() - i,
    {
        if items[i] == *t {
            proof { assert(items@.map_values(|s: String| s@)[i as int] == t@); }
            return true;
        }
        i = i + 1;
    }
    proof {
        let v = items@.map_values(|s: String| s@);
        if v.contains(t@) {
            let j = choose|j: int| 0 <= j < v.len() && v[j] == t@;
            assert(items@[j]@ == t@);
        }
    }
    false
}

fn add_field(items: &mut Vec<String>, field: &Vec<char>)
    ensures
        final(items)@.map_values(|s: String| s@) == {
            let acc = old(items)@.map_values(|s: String| s@);
            let t = trimmed(field@);
            if t.len() > 0 && !acc.contains(t) { acc.push(t) } else { acc }
        },
{
    let (a, b) = trim_bounds(field);
    let mut part: Vec<char> = Vec::new();
    let mut k: usize = a;
    while k < b
        invariant
            a <= k <= b <= field.len(),
            part@ == field@.subrange(a as int, k as int),
        decreases b - k,
    {
        part.push(field[k]);
        proof { assert(field@.subrange(a as int, k + 1) =~= field@.subrange(a as int, k as int).push(field@[k as int])); }
        k = k + 1;
    }
    let t = string_from_chars(&part);
    if t.as_str().unicode_len() > 0 && !contains_text_item(items, &t) {
        let ghost before = items@;
        items.push(t);
        proof {
            assert(items@.map_values(|s: String| s@) =~= before.map_values(|s: String| s@).push(t@));
        }
    }
}

/// The items of a list typed as text: split at `,`, `;` and line breaks, each trimmed,
/// empty items and repeats left out, first occurrences in order.
#[verifier::opaque]
pub open spec fn list_items(value: Seq<char>) -> Seq<Seq<char>> {
    normalized_items(list_fields(value))
}

/// The items of a list typed as text, as `list_items` describes them.
pub fn normalize_list(value: &str) -> (r: Vec<String>)
    ensures
        strings_view(r@) == list_items(value@),
{
    proof { reveal(list_items); }
    let cs = chars_of(value);
    let mut items: Vec<String> = Vec::new();
    let mut field: Vec<char> = Vec::new();
    let mut i: usize = 0;
    proof {
        assert(cs@.subrange(0, 0) =~= Seq::<char>::empty());
        assert(list_fields(Seq::<char>::empty()).drop_last() =~= Seq::<Seq<char>>::empty());
    }
    while i < cs.len()
        invariant
            i <= cs.len(),
            cs@ == value@,
            list_fields(cs@.subrange(0, i as int)).len() >= 1,
            field@ == list_fields(cs@.subrange(0, i as int)).last(),
            items@.map_values(|s: String| s@) == normalized_items(list_fields(cs@.subrange(0, i as int)).drop_last()),
        decreases cs.len() - i,
    {
        let c = cs[i];
        let ghost pre = cs@.subrange(0, i as int);
        let ghost next = cs@.subrange(0, i + 1);
        proof {
            assert(next.drop_last() =~= pre);
            assert(next.last() == c);
            lemma_list_fields_nonempty(pre);
        }
        if c == ',' || c == ';' || c == '\n' || c == '\r' {
            add_field(&mut items, &field);
            proof {
                let f = list_fields(pre);
                assert(list_fields(next) == f.push(Seq::empty()));
                assert(list_fields(next).drop_last() =~= f);
                assert(f.drop_last().push(f.last()) =~= f);
                assert(normalized_items(f) == {
                    let acc = normalized_items(f.drop_last());
                    let t = trimmed(f.last());
                    if t.len() > 0 && !acc.contains(t) { acc.push(t) } else { acc }
                });
            }
            field = Vec::new();
            proof { assert(field@ =~= list_fields(next).last()); }
        } else {
            field.push(c);
            proof {
                let f = list_fields(pre);
                assert(list_fields(next) == f.update(f.len() - 1, f.last().push(c)));
                assert(list_fields(next).drop_last() =~= f.drop_last());
            }
        }
        i = i + 1;
    }
    proof {
        assert(cs@.subrange(0, cs.len() as int) =~= cs@);
        let f = list_fields(value@);
        assert(f.drop_last().push(f.last()) =~= f);
    }
    add_field(&mut items, &field);
    items
}

/// The list restored by the reset button of a list kind: the route exclusions (kind 0)
/// and the proxy bypass list (kind 2); the other kinds have none.
pub fn default_list(kind: i32) -> (r: Option<Vec<String>>)
    ensures
        kind == 0 ==> r is Some && strings_view(r->Some_0@) == route_exclude_defaults(),
        kind == 2 ==> r is Some && strings_view(r->Some_0@) == bypass_defaults(),
        kind != 0 && kind != 2 ==> r is None,
{
    match kind {
        0 => Some(default_route_exclude_address()),
        2 => Some(default_proxy_bypass_list()),
        _ => None,
    }
}

/// The package family names of the applications whose loopback exemption is on, in
/// list order.
pub open spec fn enabled_packages(apps: Seq<UwpApp>) -> Seq<Seq<char>> {
    apps.filter(|a: UwpApp| a.enabled).map_values(|a: UwpApp| a.package_family_name@)
}

/// The package family names of the applications whose loopback exemption is on.
pub fn enabled_uwp_packages(apps: &[UwpApp]) -> (r: Vec<String>)
    ensures
        r@.map_values(|s: String| s@) == enabled_packages(apps@),
{
    let ghost pred = |a: UwpApp| a.enabled;
    let mut out: Vec<String> = Vec::new();
    let mut i: usize = 0;
    proof { assert(apps@.subrange(0, 0) =~= Seq::<UwpApp>::empty()); }
    while i < apps.len()
        invariant
            i <= apps@.len(),
            pred == (|a: UwpApp| a.enabled),
            out@.map_values(|s: String| s@) == apps@.subrange(0, i as int).filter(pred).map_values(|a: UwpApp| a.package_family_name@),
        decreases apps@.len() - i,
    {
        proof {
            assert(apps@.subrange(0, i + 1) =~= apps@.subrange(0, i as int).push(apps@[i as int]));
            apps@.subrange(0, i as int).lemma_filter_push(apps@[i as int], pred);
        }
        if apps[i].enabled {
            let ghost before = out@;
            out.push(apps[i].package_family_name.clone());
            proof {
                assert(out@.map_values(|s: String| s@) =~= before.map_values(|s: String| s@).push(apps@[i as int].package_family_name@));
                assert(apps@.subrange(0, i as int).filter(pred).push(apps@[i as int]).map_values(|a: UwpApp| a.package_family_name@)
                    =~= apps@.subrange(0, i as int).filter(pred).map_values(|a: UwpApp| a.package_family_name@).push(apps@[i as int].package_family_name@));
            }
        }
        i = i + 1;
    }
    proof { assert(apps@.subrange(0, apps@.len() as int) =~= apps@); }
    out
}

/// The loopback changes that turn the current set into the desired one: the current
/// names missing from the desired list (turned off), then the desired names missing from
/// the current list (turned on), each in its list's order.
pub open spec fn uwp_change_list(current: Seq<Seq<char>>, desired: Seq<Seq<char>>) -> Seq<(Seq<char>, bool)> {
    current.filter(|x: Seq<char>| !desired.contains(x)).map_values(|x: Seq<char>| (x, false))
        + desired.filter(|x: Seq<char>| !current.contains(x)).map_values(|x: Seq<char>| (x, true))
}

fn push_missing(out: &mut Vec<(String, bool)>, from: &[String], other: &Vec<String>, flag: bool)
    ensures
        final(out)@.map_values(|e: (String, bool)| (e.0@, e.1)) == old(out)@.map_values(|e: (String, bool)| (e.0@, e.1))
            + from@.map_values(|s: String| s@).filter(|x: Seq<char>| !other@.map_values(|s: String| s@).contains(x))
                .map_values(|x: Seq<char>| (x, flag)),
{
    let ghost fv = from@.map_values(|s: String| s@);
    let ghost ov = other@.map_values(|s: String| s@);
    let ghost pred = |x: Seq<char>| !ov.contains(x);
    let ghost base = out@.map_values(|e: (String, bool)| (e.0@, e.1));
    let mut i: usize = 0;
    proof { assert(fv.subrange(0, 0) =~= Seq::<Seq<char>>::empty()); }
    while i < from.len()
        invariant
            i <= from@.len(),
            fv == from@.map_values(|s: String| s@),
            ov == other@.map_values(|s: String| s@),
            pred == (|x: Seq<char>| !ov.contains(x)),
            out@.map_values(|e: (String, bool)| (e.0@, e.1)) == base + fv.subrange(0, i as int).filter(pred).map_values(|x: Seq<char>| (x, flag)),
        decreases from@.len() - i,
    {
        proof {
            assert(fv.subrange(0, i + 1) =~= fv.subrange(0, i as int).push(fv[i as int]));
            fv.subrange(0, i as int).lemma_filter_push(fv[i as int], pred);
        }
        let s = from[i].clone();
        if !contains_text_item(other, &s) {
            let ghost before = out@;
            out.push((s, flag));
            proof {
                assert(out@.map_values(|e: (String, bool)| (e.0@, e.1)) =~= before.map_values(|e: (String, bool)| (e.0@, e.1)).push((fv[i as int], flag)));
                assert(fv.subrange(0, i as int).filter(pred).push(fv[i as int]).map_values(|x: Seq<char>| (x, flag))
                    =~= fv.subrange(0, i as int).filter(pred).map_values(|x: Seq<char>| (x, flag)).push((fv[i as int], flag)));
            }
        }
        i = i + 1;
    }
    proof { assert(fv.subrange(0, from@.len() as int) =~= fv); }
}

/// The loopback changes that turn the current set of exempt packages into the desired one.
pub fn uwp_changes(current: &Vec<String>, desired: &Vec<String>) -> (r: Vec<(String, bool)>)
    ensures
        r@.map_values(|e: (String, bool)| (e.0@, e.1)) == uwp_change_list(
            current@.map_values(|s: String| s@),
            desired@.map_values(|s: String| s@),
        ),
{
    let mut out: Vec<(String, bool)> = Vec::new();
    proof { assert(out@.map_values(|e: (String, bool)| (e.0@, e.1)) =~= Seq::<(Seq<char>, bool)>::empty()); }
    push_missing(&mut out, current.as_slice(), desired, false);
    push_missing(&mut out, desired.as_slice(), current, true);
    proof {
        assert(Seq::<(Seq<char>, bool)>::empty() + current@.map_values(|s: String| s@).filter(|x: Seq<char>| !desired@.map_values(|s: String| s@).contains(x)).map_values(|x: Seq<char>| (x, false))
            =~= current@.map_values(|s: String| s@).filter(|x: Seq<char>| !desired@.map_values(|s: String| s@).contains(x)).map_values(|x: Seq<char>| (x, false)));
    }
    out
}


proof fn lemma_normalized_items_clean(fields: Seq<Seq<char>>)
    ensures
        forall|k: int| 0 <= k < normalized_items(fields).len() ==> (#[trigger] normalized_items(fields)[k]).len() > 0,
        forall|a: int, b: int| 0 <= a < b < normalized_items(fields).len() ==> normalized_items(fields)[a] != normalized_items(fields)[b],
    decreases fields.len(),
{
    if fields.len() > 0 {
        lemma_normalized_items_clean(fields.drop_last());
        let acc = normalized_items(fields.drop_last());
        let t = trimmed(fields.last());
        if t.len() > 0 && !acc.contains(t) {
            let r = acc.push(t);
            assert forall|a: int, b: int| 0 <= a < b < r.len() implies r[a] != r[b] by {
                if b == acc.len() {
                    assert(r[a] == acc[a]);
                    if r[a] == r[b] {
                        assert(acc.contains(t));
                    }
                } else {
                    assert(r[a] == acc[a] && r[b] == acc[b]);
                }
            }
            assert forall|k: int| 0 <= k < r.len() implies (#[trigger] r[k]).len() > 0 by {
                if k < acc.len() {
                    assert(r[k] == acc[k]);
                }
            }
        }
    }
}

/// A list typed as text normalizes to items that are neither empty nor repeated.
pub proof fn law_normalized_list_is_clean(value: Seq<char>)
    ensures
        forall|k: int| 0 <= k < list_items(value).len() ==> (#[trigger] list_items(value)[k]).len() > 0,
        forall|a: int, b: int| 0 <= a < b < list_items(value).len() ==> list_items(value)[a] != list_items(value)[b],
{
    reveal(list_items);
    lemma_normalized_items_clean(list_fields(value));
}


/// An item of a list of kind `kind` is acceptable: a CIDR block for the route exclusions
/// (kind 0), a bypass entry for the bypass list (kind 2); anything for other kinds.
pub open spec fn list_item_ok(kind: i32, v: Seq<char>, is_windows: bool) -> bool {
    if kind == 0 { is_ip_cidr(v) } else if kind == 2 { is_bypass_entry(v, is_windows) } else { true }
}

/// The position of the first item that is not acceptable.
#[verifier::opaque]
pub open spec fn first_bad_item(kind: i32, values: Seq<Seq<char>>, is_windows: bool) -> Option<int> {
    if exists|k: int| 0 <= k < values.len() && !list_item_ok(kind, #[trigger] values[k], is_windows) {
        Some(choose|k: int| 0 <= k < values.len() && !list_item_ok(kind, #[trigger] values[k], is_windows)
            && forall|t: int| 0 <= t < k ==> list_item_ok(kind, values[t], is_windows))
    } else {
        None
    }
}

/// The first bad item is a position of the list, its item is not acceptable, and every
/// item before it is.
pub proof fn lemma_first_bad_item(kind: i32, values: Seq<Seq<char>>, is_windows: bool)
    ensures
        first_bad_item(kind, values, is_windows) matches Some(k) ==> {
            &&& 0 <= k < values.len()
            &&& !list_item_ok(kind, values[k], is_windows)
            &&& forall|t: int| 0 <= t < k ==> list_item_ok(kind, values[t], is_windows)
        },
        first_bad_item(kind, values, is_windows) is None
            <==> forall|t: int| 0 <= t < values.len() ==> list_item_ok(kind, values[t], is_windows),
{
    reveal(first_bad_item);
    if exists|k: int| 0 <= k < values.len() && !list_item_ok(kind, #[trigger] values[k], is_windows) {
        let k0 = choose|k: int| 0 <= k < values.len() && !list_item_ok(kind, #[trigger] values[k], is_windows);
        assert(exists|k: int| 0 <= k < values.len() && !list_item_ok(kind, #[trigger] values[k], is_windows)
            && forall|t: int| 0 <= t < k ==> list_item_ok(kind, values[t], is_windows)) by {
            lemma_least_bad(kind, values, is_windows, k0);
        }
    }
}

proof fn lemma_least_bad(kind: i32, values: Seq<Seq<char>>, is_windows: bool, k0: int)
    requires
        0 <= k0 < values.len(),
        !list_item_ok(kind, values[k0], is_windows),
    ensures
        exists|k: int| 0 <= k < values.len() && !list_item_ok(kind, #[trigger] values[k], is_windows)
            && forall|t: int| 0 <= t < k ==> list_item_ok(kind, values[t], is_windows),
    decreases k0,
{
    if exists|t: int| 0 <= t < k0 && !list_item_ok(kind, #[trigger] values[t], is_windows) {
        let t = choose|t: int| 0 <= t < k0 && !list_item_ok(kind, #[trigger] values[t], is_windows);
        lemma_least_bad(kind, values, is_windows, t);
    } else {
        assert(forall|t: int| 0 <= t < k0 ==> list_item_ok(kind, values[t], is_windows));
    }
}

/// The message for item `k` (counted from 1 in the message) of a list that is not
/// acceptable.
pub open spec fn list_error_text(kind: i32, k: int, v: Seq<char>, is_windows: bool) -> Seq<char> {
    if kind == 0 {
        "排除网段第 "@ + decimal((k + 1) as nat) + " 项不是有效的 IP CIDR："@ + v
    } else {
        "跳过代理第 "@ + decimal((k + 1) as nat) + " 项不是有效的 "@
            + (if is_windows { "Windows"@ } else { "Linux/macOS"@ }) + " bypass 格式："@ + v
    }
}

/// Checks every item of a list of kind `kind` for the given platform; the first item
/// that is not acceptable is reported with its position.
pub fn validate_list_for(kind: i32, values: &[String], is_windows: bool) -> (r: Result<(), String>)
    ensures
        match first_bad_item(kind, values@.map_values(|s: String| s@), is_windows) {
            Some(k) => r is Err && r->Err_0@ == list_error_text(kind, k, values@[k]@, is_windows),
            None => r is Ok,
        },
{
    let ghost vs = values@.map_values(|s: String| s@);
    proof { lemma_first_bad_item(kind, vs, is_windows); }
    if kind != 0 && kind != 2 {
        return Ok(());
    }
    let mut i: usize = 0;
    while i < values.len()
        invariant
            kind == 0 || kind == 2,
            i <= values@.len(),
            vs == values@.map_values(|s: String| s@),
            forall|t: int| 0 <= t < i ==> list_item_ok(kind, #[trigger] vs[t], is_windows),
        decreases values@.len() - i,
    {
        let v = values[i].as_str();
        let ok = if kind == 0 { is_valid_ip_cidr(v) } else { is_valid_bypass_entry(v, is_windows) };
        proof { assert(vs[i as int] == values@[i as int]@); }
        if !ok {
            proof {
                assert(!list_item_ok(kind, vs[i as int], is_windows));
                lemma_first_bad_item(kind, vs, is_windows);
                let w = first_bad_item(kind, vs, is_windows)->0;
                assert(w == i as int) by {
                    if w < i as int {} else if w > i as int { assert(!list_item_ok(kind, vs[i as int], is_windows)); }
                }
            }
            let mut message = if kind == 0 { String::from_str("排除网段第 ") } else { String::from_str("跳过代理第 ") };
            push_decimal(&mut message, (i as u64) + 1);
            if kind == 0 {
                message.append(" 项不是有效的 IP CIDR：");
            } else {
                message.append(" 项不是有效的 ");
                message.append(if is_windows { "Windows" } else { "Linux/macOS" });
                message.append(" bypass 格式：");
            }
            message.append(v);
            return Err(message);
        }
        i = i + 1;
    }
    proof { lemma_first_bad_item(kind, vs, is_windows); }
    Ok(())
}

/// Checks a list of kind `kind` as this build (Linux and macOS rules) does.
pub fn validate_list(kind: i32, values: &[String]) -> (r: Result<(), String>)
    ensures
        match first_bad_item(kind, values@.map_values(|s: String| s@), false) {
            Some(k) => r is Err && r->Err_0@ == list_error_text(kind, k, values@[k]@, false),
            None => r is Ok,
        },
{
    validate_list_for(kind, values, false)
}

// ---------------------------------------------------------------------------
// Forms

/// What the port form gives: the three fields read as `port_field` reads them (the first
/// bad field refuses the form), all three empty refused, and without a mixed port the
/// same HTTP and SOCKS port refused.
pub open spec fn port_form(mixed: Seq<char>, http: Seq<char>, socks: Seq<char>) -> Result<(Option<u16>, Option<u16>, Option<u16>), Seq<char>> {
    if port_field(mixed) is None || port_field(http) is None || port_field(socks) is None {
        Err("端口必须是 1 到 65535 的整数"@)
    } else {
        let (m, h, s) = (port_field(mixed)->0, port_field(http)->0, port_field(socks)->0);
        if m is None && h is None && s is None {
            Err("三个端口不可全部为空"@)
        } else if m is None && h is Some && h == s {
            Err("HTTP 与 SOCKS 端口不可相同"@)
        } else {
            Ok((m, h, s))
        }
    }
}

/// Reads the port form.
pub fn check_ports(mixed: &str, http: &str, socks: &str) -> (r: Result<(Option<u16>, Option<u16>, Option<u16>), String>)
    ensures
        match port_form(mixed@, http@, socks@) {
            Ok(p) => r == Ok::<(Option<u16>, Option<u16>, Option<u16>), String>(p),
            Err(e) => r is Err && r->Err_0@ == e,
        },
{
    let m = match parse_optional_port(mixed) {
        Ok(v) => v,
        Err(e) => return Err(e),
    };
    let h = match parse_optional_port(http) {
        Ok(v) => v,
        Err(e) => return Err(e),
    };
    let s = match parse_optional_port(socks) {
        Ok(v) => v,
        Err(e) => return Err(e),
    };
    if m.is_none() && h.is_none() && s.is_none() {
        return Err(String::from_str("三个端口不可全部为空"));
    }
    if m.is_none() && h.is_some() && h == s {
        return Err(String::from_str("HTTP 与 SOCKS 端口不可相同"));
    }
    Ok((m, h, s))
}

/// The form leaves the ports as they are: the same mixed port, or, without one, no mixed
/// port now and the same HTTP and SOCKS ports.
pub open spec fn ports_same(current: ClashSettings, mixed: Option<u16>, http: Option<u16>, socks: Option<u16>) -> bool {
    match mixed {
        Some(p) => current.mixed_port == Some(p),
        None => current.mixed_port is None && current.port == http && current.socks_port == socks,
    }
}

/// Whether the form leaves the ports as they are.
pub fn ports_unchanged(current: &ClashSettings, mixed: Option<u16>, http: Option<u16>, socks: Option<u16>) -> (r: bool)
    ensures
        r == ports_same(*current, mixed, http, socks),
{
    match mixed {
        Some(p) => current.mixed_port == Some(p),
        None => current.mixed_port.is_none() && current.port == http && current.socks_port == socks,
    }
}

/// Stores the ports of the form: a mixed port replaces the separate ones; without one the
/// HTTP and SOCKS ports are stored as given.
pub fn apply_ports(clash: &mut ClashSettings, mixed: Option<u16>, http: Option<u16>, socks: Option<u16>)
    ensures
        *final(clash) == (match mixed {
            Some(p) => ClashSettings { mixed_port: Some(p), port: None, socks_port: None, ..*old(clash) },
            None => ClashSettings { mixed_port: None, port: http, socks_port: socks, ..*old(clash) },
        }),
{
    match mixed {
        Some(p) => {
            clash.mixed_port = Some(p);
            clash.port = None;
            clash.socks_port = None;
        }
        None => {
            clash.mixed_port = None;
            clash.port = http;
            clash.socks_port = socks;
        }
    }
}

/// The MTU a field gives: once trimmed, a whole number as `u32` parsing reads it, above 0.
pub open spec fn mtu_field(value: Seq<char>) -> Option<u32> {
    match u64_text(trimmed(value)) {
        Some(n) => if 0 < n <= u32::MAX { Some(n as u32) } else { None },
        None => None,
    }
}

/// Reads the MTU field.
pub fn parse_tun_mtu(value: &str) -> (r: Result<u32, String>)
    ensures
        match mtu_field(value@) {
            Some(m) => r == Ok::<u32, String>(m),
            None => r is Err && r->Err_0@ == "MTU 必须是正整数"@,
        },
{
    let t = trim_text(value);
    let cs = chars_of(t.as_str());
    proof { assert(cs@.subrange(0, cs@.len() as int) =~= cs@); }
    match parse_u64_from(&cs, 0) {
        Some(n) => {
            if n > 0 && n <= 4294967295 {
                Ok(n as u32)
            } else {
                Err(String::from_str("MTU 必须是正整数"))
            }
        }
        None => Err(String::from_str("MTU 必须是正整数")),
    }
}

/// Checks a TUN device name after normalization: neither empty nor the bare `utun-`
/// prefix.
pub fn check_tun_device(normalized: &str) -> (r: Result<(), String>)
    ensures
        (normalized@.len() == 0 || normalized@ == "utun-"@) ==> r is Err && r->Err_0@ == "网卡名称不能为空"@,
        !(normalized@.len() == 0 || normalized@ == "utun-"@) ==> r is Ok,
{
    let empty = normalized.is_empty();
    let bare = text_eq(normalized, "utun-");
    if empty || bare {
        Err(String::from_str("网卡名称不能为空"))
    } else {
        Ok(())
    }
}

/// The position an index of the list editor names, if it names one.
pub open spec fn item_position(items: Seq<String>, index: i32) -> Option<int> {
    if 0 <= index && (index as int) < items.len() { Some(index as int) } else { None }
}

/// Replaces the item at `index` of the list being edited; an index that names no item
/// changes nothing. Returns whether an item was replaced.
pub fn edit_list_item(items: &mut Vec<String>, index: i32, value: String) -> (r: bool)
    ensures
        r == (item_position(old(items)@, index) is Some),
        r ==> final(items)@ == old(items)@.update(index as int, value),
        !r ==> final(items)@ == old(items)@,
{
    if index < 0 || index as usize >= items.len() {
        return false;
    }
    items.set(index as usize, value);
    true
}

/// Adds the trimmed text to the list being edited, unless it is empty. Returns whether an
/// item was added.
pub fn add_list_item(items: &mut Vec<String>, value: &str) -> (r: bool)
    ensures
        r == (trimmed(value@).len() > 0),
        r ==> texts_view(final(items)@) == texts_view(old(items)@).push(trimmed(value@)),
        !r ==> final(items)@ == old(items)@,
{
    let t = trim_text(value);
    if t.as_str().is_empty() {
        return false;
    }
    items.push(t);
    proof { assert(texts_view(items@) =~= texts_view(old(items)@).push(trimmed(value@))); }
    true
}

/// Removes the item at `index` of the list being edited; an index that names no item
/// changes nothing. Returns whether an item was removed.
pub fn remove_list_item(items: &mut Vec<String>, index: i32) -> (r: bool)
    ensures
        r == (item_position(old(items)@, index) is Some),
        r ==> final(items)@ == old(items)@.remove(index as int),
        !r ==> final(items)@ == old(items)@,
{
    if index < 0 || index as usize >= items.len() {
        return false;
    }
    items.remove(index as usize);
    true
}

/// Some application has this package family name.
pub open spec fn has_package(apps: Seq<UwpApp>, package: Seq<char>) -> bool {
    exists|i: int| 0 <= i < apps.len() && #[trigger] apps[i].package_family_name@ == package
}

/// The draft of exempt packages after a switch: turned on, the package is added unless
/// present; turned off, every copy of it leaves.
pub open spec fn toggled_draft(draft: Seq<Seq<char>>, package: Seq<char>, enabled: bool) -> Seq<Seq<char>> {
    if enabled {
        if draft.contains(package) { draft } else { draft.push(package) }
    } else {
        draft.filter(|v: Seq<char>| v != package)
    }
}

/// Switches one application in the draft of exempt packages. A blank package name, a busy
/// page or a name that no listed application has changes nothing. Returns whether the
/// draft was considered (and the dialog is to be drawn again).
pub fn toggle_uwp_draft(draft: &mut Vec<String>, apps: &Vec<UwpApp>, busy: bool, package: &str, enabled: bool) -> (r: bool)
    ensures
        r == (trimmed(package@).len() > 0 && !busy && has_package(apps@, package@)),
        r ==> texts_view(final(draft)@) == toggled_draft(texts_view(old(draft)@), package@, enabled),
        !r ==> final(draft)@ == old(draft)@,
{
    let t = trim_text(package);
    if t.as_str().is_empty() || busy {
        return false;
    }
    let mut found = false;
    let mut i: usize = 0;
    while i < apps.len()
        invariant
            i <= apps@.len(),
            found == exists|j: int| 0 <= j < i && #[trigger] apps@[j].package_family_name@ == package@,
        decreases apps@.len() - i,
    {
        if text_eq(apps[i].package_family_name.as_str(), package) {
            found = true;
        }
        i = i + 1;
    }
    if !found {
        return false;
    }
    let ghost dv = texts_view(draft@);
    if enabled {
        let mut present = false;
        let mut k: usize = 0;
        while k < draft.len()
            invariant
                k <= draft@.len(),
                dv == texts_view(draft@),
                present == exists|j: int| 0 <= j < k && #[trigger] dv[j] == package@,
            decreases draft@.len() - k,
        {
            proof { assert(dv[k as int] == draft@[k as int]@); }
            if text_eq(draft[k].as_str(), package) {
                present = true;
            }
            k = k + 1;
        }
        proof {
            if present {
                let j = choose|j: int| 0 <= j < draft@.len() && #[trigger] dv[j] == package@;
                assert(dv.contains(package@));
            } else {
                assert(!dv.contains(package@)) by {
                    if dv.contains(package@) {
                        let j = choose|j: int| 0 <= j < dv.len() && dv[j] == package@;
                        assert(dv[j] == package@);
                    }
                }
            }
        }
        if !present {
            draft.push(package.to_string());
            proof { assert(texts_view(draft@) =~= dv.push(package@)); }
        }
    } else {
        let mut kept: Vec<String> = Vec::new();
        let ghost pred = |v: Seq<char>| v != package@;
        let mut k: usize = 0;
        while k < draft.len()
            invariant
                k <= draft@.len(),
                dv == texts_view(draft@),
                pred == (|v: Seq<char>| v != package@),
                texts_view(kept@) == dv.subrange(0, k as int).filter(pred),
            decreases draft@.len() - k,
        {
            proof {
                assert(dv.subrange(0, k + 1) =~= dv.subrange(0, k as int).push(dv[k as int]));
                dv.subrange(0, k as int).lemma_filter_push(dv[k as int], pred);
            }
            if !text_eq(draft[k].as_str(), package) {
                kept.push(draft[k].clone());
                proof { assert(texts_view(kept@) =~= dv.subrange(0, k as int).filter(pred).push(dv[k as int])); }
            }
            k = k + 1;
        }
        proof { assert(dv.subrange(0, dv.len() as int) =~= dv); }
        *draft = kept;
    }
    true
}

/// A row of the UWP list: the application and whether the draft exempts it.
#[derive(Debug, Clone, PartialEq, Eq)]
pub struct UwpRow {
    pub name: String,
    pub package_family_name: String,
    pub enabled: bool,
}

/// An application passes the search of the UWP list (already in ASCII lower case): the
/// search is empty, or it occurs in the name or the package family name, both in ASCII
/// lower case.
pub open spec fn uwp_matches(app: UwpApp, q: Seq<char>) -> bool {
    q.len() == 0 || contains_text(ascii_lower(app.name@), q) || contains_text(ascii_lower(app.package_family_name@), q)
}

/// The row of an application: its name, its package family name, and whether the draft
/// holds the package.
pub open spec fn uwp_row_of(app: UwpApp, draft: Seq<Seq<char>>) -> (Seq<char>, Seq<char>, bool) {
    (app.name@, app.package_family_name@, draft.contains(app.package_family_name@))
}

/// What a list of rows shows.
pub open spec fn uwp_rows_view(rows: Seq<UwpRow>) -> Seq<(Seq<char>, Seq<char>, bool)> {
    rows.map_values(|r: UwpRow| (r.name@, r.package_family_name@, r.enabled))
}

/// The rows of the UWP list: the applications that pass the search, in order.
pub open spec fn shown_uwp(apps: Seq<UwpApp>, draft: Seq<Seq<char>>, q: Seq<char>) -> Seq<(Seq<char>, Seq<char>, bool)> {
    apps.filter(|a: UwpApp| uwp_matches(a, q)).map_values(|a: UwpApp| uwp_row_of(a, draft))
}

fn uwp_app_matches(app: &UwpApp, q: &Vec<char>) -> (r: bool)
    ensures
        r == uwp_matches(*app, q@),
{
    if q.len() == 0 {
        return true;
    }
    let name = ascii_lower_chars(&chars_of(app.name.as_str()));
    if find_text(&name, q) {
        return true;
    }
    let package = ascii_lower_chars(&chars_of(app.package_family_name.as_str()));
    find_text(&package, q)
}

/// The rows the UWP list shows for a search: the applications whose name or package
/// family name holds the search (in ASCII lower case), each marked as the draft holds it.
pub fn uwp_rows(apps: &Vec<UwpApp>, draft: &Vec<String>, query: &str) -> (r: Vec<UwpRow>)
    ensures
        uwp_rows_view(r@) == shown_uwp(apps@, texts_view(draft@), ascii_lower(query@)),
{
    let q = ascii_lower_chars(&chars_of(query));
    let ghost pred = |a: UwpApp| uwp_matches(a, q@);
    let ghost dv = texts_view(draft@);
    let mut out: Vec<UwpRow> = Vec::new();
    let mut i: usize = 0;
    while i < apps.len()
        invariant
            i <= apps@.len(),
            q@ == ascii_lower(query@),
            pred == (|a: UwpApp| uwp_matches(a, q@)),
            dv == texts_view(draft@),
            uwp_rows_view(out@) == apps@.subrange(0, i as int).filter(pred).map_values(|a: UwpApp| uwp_row_of(a, dv)),
        decreases apps@.len() - i,
    {
        let app = &apps[i];
        proof {
            assert(apps@.subrange(0, i + 1) =~= apps@.subrange(0, i as int).push(apps@[i as int]));
            apps@.subrange(0, i as int).lemma_filter_push(apps@[i as int], pred);
        }
        if uwp_app_matches(app, &q) {
            let enabled = contains_text_item(draft, &app.package_family_name);
            let ghost before = out@;
            out.push(UwpRow { name: app.name.clone(), package_family_name: app.package_family_name.clone(), enabled });
            proof {
                assert(uwp_rows_view(out@) =~= uwp_rows_view(before).push(uwp_row_of(apps@[i as int], dv)));
                assert(apps@.subrange(0, i as int).filter(pred).push(apps@[i as int]).map_values(|a: UwpApp| uwp_row_of(a, dv))
                    =~= apps@.subrange(0, i as int).filter(pred).map_values(|a: UwpApp| uwp_row_of(a, dv)).push(uwp_row_of(apps@[i as int], dv)));
            }
        }
        i = i + 1;
    }
    proof { assert(apps@.subrange(0, apps@.len() as int) =~= apps@); }
    out
}

// ---------------------------------------------------------------------------
// The list dialogs

/// Reads the text of a list dialog: the items as `normalize_list` splits them, refused
/// with the first bad item as `validate_list_for` reports it.
pub fn prepare_list(kind: i32, value: &str, is_windows: bool) -> (r: Result<Vec<String>, String>)
    ensures
        match first_bad_item(kind, list_items(value@), is_windows) {
            Some(k) => r is Err && r->Err_0@ == list_error_text(kind, k, list_items(value@)[k], is_windows),
            None => r is Ok && strings_view(r->Ok_0@) == list_items(value@),
        },
{
    let values = normalize_list(value);
    let ghost items = list_items(value@);
    assert(values@.map_values(|s: String| s@) =~= items);
    let checked = validate_list_for(kind, values.as_slice(), is_windows);
    match checked {
        Ok(()) => Ok(values),
        Err(e) => {
            proof {
                lemma_first_bad_item(kind, items, is_windows);
                let k = first_bad_item(kind, items, is_windows)->0;
                assert(values@.map_values(|s: String| s@)[k] == values@[k]@);
            }
            Err(e)
        },
    }
}

/// The list a dialog of kind `kind` edits: the route exclusions (0), the excluded
/// interfaces (1) or the proxy bypass list (2); no list for another kind.
pub open spec fn list_of_kind(settings: Settings, kind: i32) -> Option<Seq<Seq<char>>> {
    if kind == 0 {
        Some(strings_view(settings.clash.tun.route_exclude_address@))
    } else if kind == 1 {
        Some(strings_view(settings.clash.tun.exclude_interface@))
    } else if kind == 2 {
        Some(strings_view(settings.proxy.bypass_list@))
    } else {
        None
    }
}

/// Whether the list of kind `kind` already holds exactly these items.
pub fn list_unchanged(settings: &Settings, kind: i32, values: &Vec<String>) -> (r: bool)
    ensures
        r == (list_of_kind(*settings, kind) == Some(strings_view(values@))),
{
    let current = if kind == 0 {
        &settings.clash.tun.route_exclude_address
    } else if kind == 1 {
        &settings.clash.tun.exclude_interface
    } else if kind == 2 {
        &settings.proxy.bypass_list
    } else {
        return false;
    };
    proof { assert(list_of_kind(*settings, kind) == Some(strings_view(current@))); }
    if current.len() != values.len() {
        proof { assert(strings_view(current@).len() != strings_view(values@).len()); }
        return false;
    }
    let mut i: usize = 0;
    while i < values.len()
        invariant
            i <= values@.len(),
            current@.len() == values@.len(),
            forall|j: int| 0 <= j < i ==> current@[j]@ == values@[j]@,
            list_of_kind(*settings, kind) == Some(strings_view(current@)),
        decreases values@.len() - i,
    {
        if !text_eq(current[i].as_str(), values[i].as_str()) {
            proof {
                assert(strings_view(current@)[i as int] != strings_view(values@)[i as int]);
                assert(strings_view(current@) != strings_view(values@));
            }
            return false;
        }
        i = i + 1;
    }
    proof { assert(strings_view(current@) =~= strings_view(values@)); }
    true
}

/// Stores the items of a list dialog in the list of kind `kind`; another kind changes
/// nothing. Returns whether a list was stored.
pub fn store_list(settings: &mut Settings, kind: i32, values: Vec<String>) -> (r: bool)
    ensures
        r == (0 <= kind <= 2),
        kind == 0 ==> *final(settings) == (Settings {
            clash: ClashSettings { tun: TunConfig { route_exclude_address: values, ..old(settings).clash.tun }, ..old(settings).clash },
            ..*old(settings)
        }),
        kind == 1 ==> *final(settings) == (Settings {
            clash: ClashSettings { tun: TunConfig { exclude_interface: values, ..old(settings).clash.tun }, ..old(settings).clash },
            ..*old(settings)
        }),
        kind == 2 ==> *final(settings) == (Settings { proxy: ProxySettings { bypass_list: values }, ..*old(settings) }),
        !(0 <= kind <= 2) ==> *final(settings) == *old(settings),
{
    if kind == 0 {
        settings.clash.tun.route_exclude_address = values;
        true
    } else if kind == 1 {
        settings.clash.tun.exclude_interface = values;
        true
    } else if kind == 2 {
        settings.proxy.bypass_list = values;
        true
    } else {
        false
    }
}

// ---------------------------------------------------------------------------
// The page state

/// What the settings page keeps besides the configuration: whether core settings changed
/// since the core last took them, whether the core is being restarted with them, whether
/// a platform operation runs, the UWP applications with the draft of exempt packages and
/// the search, the items of the list editor, and the tokens that tell a current reply
/// from a stale one.
#[derive(Debug)]
pub struct SettingsViewState {
    pub core_dirty: bool,
    pub applying_core: bool,
    pub operation_busy: bool,
    pub uwp_apps: Vec<UwpApp>,
    pub uwp_draft: Vec<String>,
    pub uwp_query: String,
    pub dialog_list_items: Vec<String>,
    pub next_token: u64,
    pub uwp_token: u64,
}

/// A settings page that has done nothing yet.
pub fn new_state() -> (r: SettingsViewState)
    ensures
        !r.core_dirty && !r.applying_core && !r.operation_busy,
        r.uwp_apps@.len() == 0 && r.uwp_draft@.len() == 0 && r.uwp_query@.len() == 0,
        r.dialog_list_items@.len() == 0,
        r.next_token == 0 && r.uwp_token == 0,
{
    SettingsViewState {
        core_dirty: false,
        applying_core: false,
        operation_busy: false,
        uwp_apps: Vec::new(),
        uwp_draft: Vec::new(),
        uwp_query: String::new(),
        dialog_list_items: Vec::new(),
        next_token: 0,
        uwp_token: 0,
    }
}

/// A change of a setting the core reads; it takes effect when the core is applied.
#[derive(Debug)]
pub enum CoreChange {
    LogLevel(LogLevel),
    Ipv6(bool),
    AllowLan(bool),
    BindAddress(String),
    Ports(Option<u16>, Option<u16>, Option<u16>),
    TunStack(TunStack),
    TunDevice(String),
    TunMtu(u32),
    TunStrictRoute(bool),
    TunAutoRoute(bool),
    TunAutoDetectInterface(bool),
}

/// The settings already hold what the change asks for.
pub open spec fn change_unneeded(clash: ClashSettings, change: CoreChange) -> bool {
    match change {
        CoreChange::LogLevel(v) => clash.log_level == v,
        CoreChange::Ipv6(v) => clash.ipv6 == v,
        CoreChange::AllowLan(v) => clash.allow_lan == v,
        CoreChange::BindAddress(v) => clash.bind_address@ == v@,
        CoreChange::Ports(m, h, s) => ports_same(clash, m, h, s),
        CoreChange::TunStack(v) => clash.tun.stack == v,
        CoreChange::TunDevice(v) => clash.tun.device@ == v@,
        CoreChange::TunMtu(v) => clash.tun.mtu == v,
        CoreChange::TunStrictRoute(v) => clash.tun.strict_route == v,
        CoreChange::TunAutoRoute(v) => clash.tun.auto_route == v,
        CoreChange::TunAutoDetectInterface(v) => clash.tun.auto_detect_interface == v,
    }
}

/// The settings after a change: the one setting (for ports, as `apply_ports` sets them)
/// takes the new value.
pub open spec fn changed_settings(clash: ClashSettings, change: CoreChange) -> ClashSettings {
    match change {
        CoreChange::LogLevel(v) => ClashSettings { log_level: v, ..clash },
        CoreChange::Ipv6(v) => ClashSettings { ipv6: v, ..clash },
        CoreChange::AllowLan(v) => ClashSettings { allow_lan: v, ..clash },
        CoreChange::BindAddress(v) => ClashSettings { bind_address: v, ..clash },
        CoreChange::Ports(m, h, s) => match m {
            Some(p) => ClashSettings { mixed_port: Some(p), port: None, socks_port: None, ..clash },
            None => ClashSettings { mixed_port: None, port: h, socks_port: s, ..clash },
        },
        CoreChange::TunStack(v) => ClashSettings { tun: TunConfig { stack: v, ..clash.tun }, ..clash },
        CoreChange::TunDevice(v) => ClashSettings { tun: TunConfig { device: v, ..clash.tun }, ..clash },
        CoreChange::TunMtu(v) => ClashSettings { tun: TunConfig { mtu: v, ..clash.tun }, ..clash },
        CoreChange::TunStrictRoute(v) => ClashSettings { tun: TunConfig { strict_route: v, ..clash.tun }, ..clash },
        CoreChange::TunAutoRoute(v) => ClashSettings { tun: TunConfig { auto_route: v, ..clash.tun }, ..clash },
        CoreChange::TunAutoDetectInterface(v) => ClashSettings { tun: TunConfig { auto_detect_interface: v, ..clash.tun }, ..clash },
    }
}

/// Changes a core setting: nothing happens when the setting already holds the value or
/// while the core is being applied; otherwise the setting changes and the page marks the
/// core as out of date. Returns whether the setting changed (and must be saved).
pub fn change_core_setting(state: &mut SettingsViewState, clash: &mut ClashSettings, change: CoreChange) -> (r: bool)
    ensures
        r == (!change_unneeded(*old(clash), change) && !old(state).applying_core),
        r ==> *final(clash) == changed_settings(*old(clash), change)
            && *final(state) == (SettingsViewState { core_dirty: true, ..*old(state) }),
        !r ==> *final(clash) == *old(clash) && *final(state) == *old(state),
{
    let unneeded = match &change {
        CoreChange::LogLevel(v) => clash.log_level == *v,
        CoreChange::Ipv6(v) => clash.ipv6 == *v,
        CoreChange::AllowLan(v) => clash.allow_lan == *v,
        CoreChange::BindAddress(v) => text_eq(clash.bind_address.as_str(), v.as_str()),
        CoreChange::Ports(m, h, s) => ports_unchanged(clash, *m, *h, *s),
        CoreChange::TunStack(v) => clash.tun.stack == *v,
        CoreChange::TunDevice(v) => text_eq(clash.tun.device.as_str(), v.as_str()),
        CoreChange::TunMtu(v) => clash.tun.mtu == *v,
        CoreChange::TunStrictRoute(v) => clash.tun.strict_route == *v,
        CoreChange::TunAutoRoute(v) => clash.tun.auto_route == *v,
        CoreChange::TunAutoDetectInterface(v) => clash.tun.auto_detect_interface == *v,
    };
    if unneeded || state.applying_core {
        return false;
    }
    match change {
        CoreChange::LogLevel(v) => clash.log_level = v,
        CoreChange::Ipv6(v) => clash.ipv6 = v,
        CoreChange::AllowLan(v) => clash.allow_lan = v,
        CoreChange::BindAddress(v) => clash.bind_address = v,
        CoreChange::Ports(m, h, s) => apply_ports(clash, m, h, s),
        CoreChange::TunStack(v) => clash.tun.stack = v,
        CoreChange::TunDevice(v) => clash.tun.device = v,
        CoreChange::TunMtu(v) => clash.tun.mtu = v,
        CoreChange::TunStrictRoute(v) => clash.tun.strict_route = v,
        CoreChange::TunAutoRoute(v) => clash.tun.auto_route = v,
        CoreChange::TunAutoDetectInterface(v) => clash.tun.auto_detect_interface = v,
    }
    state.core_dirty = true;
    true
}

/// A toast: its message and its variant (1 success, 2 failure).
#[derive(Debug, Clone, PartialEq, Eq)]
pub struct Toast {
    pub message: String,
    pub variant: i32,
}

/// Starts restarting the core with the changed settings: only when settings changed and
/// no restart runs. Returns whether it started.
pub fn begin_apply_core(state: &mut SettingsViewState) -> (r: bool)
    ensures
        r == (!old(state).applying_core && old(state).core_dirty),
        r ==> *final(state) == (SettingsViewState { applying_core: true, ..*old(state) }),
        !r ==> *final(state) == *old(state),
{
    if state.applying_core || !state.core_dirty {
        return false;
    }
    state.applying_core = true;
    true
}

/// Takes the result of restarting the core: the restart is over; on success the settings
/// are no longer out of date, on failure they stay as they were.
pub fn finish_apply_core(state: &mut SettingsViewState, result: Result<(), String>) -> (r: Toast)
    ensures
        match result {
            Ok(()) => *final(state) == (SettingsViewState { applying_core: false, core_dirty: false, ..*old(state) })
                && r.message@ == "配置已应用"@ && r.variant == 1,
            Err(e) => *final(state) == (SettingsViewState { applying_core: false, ..*old(state) })
                && r.message@ == "应用配置失败："@ + e@ && r.variant == 2,
        },
{
    state.applying_core = false;
    match result {
        Ok(()) => {
            state.core_dirty = false;
            Toast { message: String::from_str("配置已应用"), variant: 1 }
        },
        Err(e) => {
            let mut message = String::from_str("应用配置失败：");
            push_text(&mut message, e.as_str());
            Toast { message, variant: 2 }
        },
    }
}

/// The next request token of the page: increments, never 0.
pub fn settings_token(state: &mut SettingsViewState) -> (r: u64)
    ensures
        r == token_after(old(state).next_token),
        *final(state) == (SettingsViewState { next_token: r, ..*old(state) }),
{
    advance_token(&mut state.next_token)
}

/// Starts switching the platform's automatic start: refused while an operation runs;
/// otherwise the page is busy under a new token.
pub fn begin_auto_start(state: &mut SettingsViewState) -> (r: Option<u64>)
    ensures
        old(state).operation_busy ==> r is None && *final(state) == *old(state),
        !old(state).operation_busy ==> ({
            let t = token_after(old(state).next_token);
            &&& r == Some(t)
            &&& *final(state) == (SettingsViewState { operation_busy: true, next_token: t, ..*old(state) })
        }),
{
    if state.operation_busy {
        return None;
    }
    let token = settings_token(state);
    state.operation_busy = true;
    Some(token)
}

/// What the page does once the automatic start was switched: the switch it shows,
/// whether the new value is saved, and the toast.
#[derive(Debug, Clone, PartialEq, Eq)]
pub struct AutoStartOutcome {
    pub shown: bool,
    pub save: bool,
    pub toast: Toast,
}

/// Takes the result of switching the automatic start to `enabled` (from `previous`)
/// under `token`. A stale result (a newer token was issued) changes nothing; else the
/// page is no longer busy, and a success is saved and shown while a failure shows the
/// previous value again.
pub fn finish_auto_start(state: &mut SettingsViewState, token: u64, enabled: bool, previous: bool, result: Result<(), String>) -> (r: Option<AutoStartOutcome>)
    ensures
        old(state).next_token != token ==> r is None && *final(state) == *old(state),
        old(state).next_token == token ==> *final(state) == (SettingsViewState { operation_busy: false, ..*old(state) })
            && r is Some
            && match result {
                Ok(()) => r->Some_0.shown == enabled && r->Some_0.save
                    && r->Some_0.toast.message@ == "开机自启设置已更新"@ && r->Some_0.toast.variant == 1,
                Err(e) => r->Some_0.shown == previous && !r->Some_0.save
                    && r->Some_0.toast.message@ == "开机自启设置失败："@ + e@ && r->Some_0.toast.variant == 2,
            },
{
    if state.next_token != token {
        return None;
    }
    state.operation_busy = false;
    match result {
        Ok(()) => Some(AutoStartOutcome {
            shown: enabled,
            save: true,
            toast: Toast { message: String::from_str("开机自启设置已更新"), variant: 1 },
        }),
        Err(e) => {
            let mut message = String::from_str("开机自启设置失败：");
            push_text(&mut message, e.as_str());
            Some(AutoStartOutcome { shown: previous, save: false, toast: Toast { message, variant: 2 } })
        },
    }
}

/// The draft of exempt packages starts from the applications whose exemption is on (when
/// the dialog opens or closes).
pub fn reset_uwp_draft(state: &mut SettingsViewState)
    ensures
        texts_view(final(state).uwp_draft@) == enabled_packages(old(state).uwp_apps@),
        final(state).uwp_apps == old(state).uwp_apps,
        final(state).uwp_query == old(state).uwp_query,
        final(state).dialog_list_items == old(state).dialog_list_items,
        final(state).core_dirty == old(state).core_dirty,
        final(state).applying_core == old(state).applying_core,
        final(state).operation_busy == old(state).operation_busy,
        final(state).next_token == old(state).next_token,
        final(state).uwp_token == old(state).uwp_token,
{
    state.uwp_draft = enabled_uwp_packages(state.uwp_apps.as_slice());
}

/// Starts loading the UWP applications under a new token, which becomes the token of
/// the list.
pub fn begin_load_uwp(state: &mut SettingsViewState) -> (r: u64)
    ensures
        r == token_after(old(state).next_token),
        *final(state) == (SettingsViewState { next_token: r, uwp_token: r, ..*old(state) }),
{
    let token = settings_token(state);
    state.uwp_token = token;
    token
}

/// Takes the loaded UWP applications under `token`. A stale result changes nothing; the
/// applications replace the list, with the draft taken from them; a failure leaves the
/// page as it is and gives the toast message.
pub fn finish_load_uwp(state: &mut SettingsViewState, token: u64, result: Result<Vec<UwpApp>, String>) -> (r: Option<String>)
    ensures
        old(state).uwp_token != token ==> r is None && *final(state) == *old(state),
        old(state).uwp_token == token ==> match result {
            Ok(apps) => r is None
                && final(state).uwp_apps@ == apps@
                && texts_view(final(state).uwp_draft@) == enabled_packages(apps@)
                && *final(state) == (SettingsViewState { uwp_apps: final(state).uwp_apps, uwp_draft: final(state).uwp_draft, ..*old(state) }),
            Err(e) => r is Some && r->Some_0@ == "加载 UWP 列表失败："@ + e@ && *final(state) == *old(state),
        },
{
    if state.uwp_token != token {
        return None;
    }
    match result {
        Ok(apps) => {
            state.uwp_draft = enabled_uwp_packages(apps.as_slice());
            state.uwp_apps = apps;
            None
        },
        Err(e) => {
            let mut message = String::from_str("加载 UWP 列表失败：");
            push_text(&mut message, e.as_str());
            Some(message)
        },
    }
}

/// How asking to save the UWP draft starts: refused while an operation runs, closed at
/// once when the draft changes nothing, or started with the changes to make.
#[derive(Debug)]
pub enum UwpSaveStart {
    Busy,
    NothingToChange,
    Started { token: u64, current: Vec<String>, desired: Vec<String>, changes: Vec<(String, bool)> },
}

/// Starts saving the UWP draft: the packages whose exemption is on now, the draft, and
/// the changes from one to the other (`uwp_changes`); with changes the page is busy
/// under a new token.
pub fn begin_save_uwp(state: &mut SettingsViewState) -> (r: UwpSaveStart)
    ensures
        old(state).operation_busy ==> r is Busy && *final(state) == *old(state),
        !old(state).operation_busy ==> ({
            let current = enabled_packages(old(state).uwp_apps@);
            let desired = texts_view(old(state).uwp_draft@);
            let changes = uwp_change_list(current, desired);
            if changes.len() == 0 {
                r is NothingToChange && *final(state) == *old(state)
            } else {
                let t = token_after(old(state).next_token);
                &&& r matches UwpSaveStart::Started { token, current: c, desired: d, changes: ch }
                    && token == t && texts_view(c@) == current && texts_view(d@) == desired
                    && ch@.map_values(|e: (String, bool)| (e.0@, e.1)) == changes
                &&& *final(state) == (SettingsViewState { operation_busy: true, next_token: t, ..*old(state) })
            }
        }),
{
    if state.operation_busy {
        return UwpSaveStart::Busy;
    }
    let current = enabled_uwp_packages(state.uwp_apps.as_slice());
    let desired = clone_texts(&state.uwp_draft);
    let changes = uwp_changes(&current, &desired);
    if changes.len() == 0 {
        proof {
            assert(texts_view(current@) == current@.map_values(|s: String| s@));
        }
        return UwpSaveStart::NothingToChange;
    }
    let token = settings_token(state);
    state.operation_busy = true;
    UwpSaveStart::Started { token, current, desired, changes }
}

/// A copy of a list of strings.
pub fn clone_texts(v: &Vec<String>) -> (r: Vec<String>)
    ensures
        texts_view(r@) == texts_view(v@),
{
    let mut out: Vec<String> = Vec::new();
    let mut i: usize = 0;
    while i < v.len()
        invariant
            i <= v@.len(),
            texts_view(out@) == texts_view(v@.subrange(0, i as int)),
        decreases v@.len() - i,
    {
        let ghost before = out@;
        out.push(v[i].clone());
        proof {
            assert(texts_view(out@) =~= texts_view(before).push(v@[i as int]@));
            assert(v@.subrange(0, i + 1) =~= v@.subrange(0, i as int).push(v@[i as int]));
            assert(texts_view(v@.subrange(0, i + 1)) =~= texts_view(v@.subrange(0, i as int)).push(v@[i as int]@));
        }
        i = i + 1;
    }
    proof { assert(v@.subrange(0, v@.len() as int) =~= v@); }
    out
}

/// What the page does once the UWP changes were made: whether the dialog closes, and the
/// toast.
#[derive(Debug, Clone, PartialEq, Eq)]
pub struct UwpSaveOutcome {
    pub close_dialog: bool,
    pub toast: Toast,
}

/// Takes the result of making the UWP changes under `token`. A stale result changes
/// nothing; else the page is no longer busy, and the draft becomes the desired packages
/// on success (the dialog closes) or the packages of before on failure.
pub fn finish_save_uwp(state: &mut SettingsViewState, token: u64, current: Vec<String>, desired: Vec<String>, result: Result<(), String>) -> (r: Option<UwpSaveOutcome>)
    ensures
        old(state).next_token != token ==> r is None && *final(state) == *old(state),
        old(state).next_token == token ==> r is Some && match result {
            Ok(()) => *final(state) == (SettingsViewState { operation_busy: false, uwp_draft: desired, ..*old(state) })
                && r->Some_0.close_dialog && r->Some_0.toast.message@ == "UWP 回环设置已更新"@ && r->Some_0.toast.variant == 1,
            Err(e) => *final(state) == (SettingsViewState { operation_busy: false, uwp_draft: current, ..*old(state) })
                && !r->Some_0.close_dialog && r->Some_0.toast.message@ == "UWP 回环设置失败："@ + e@ && r->Some_0.toast.variant == 2,
        },
{
    if state.next_token != token {
        return None;
    }
    state.operation_busy = false;
    match result {
        Ok(()) => {
            state.uwp_draft = desired;
            Some(UwpSaveOutcome { close_dialog: true, toast: Toast { message: String::from_str("UWP 回环设置已更新"), variant: 1 } })
        },
        Err(e) => {
            state.uwp_draft = current;
            let mut message = String::from_str("UWP 回环设置失败：");
            push_text(&mut message, e.as_str());
            Some(UwpSaveOutcome { close_dialog: false, toast: Toast { message, variant: 2 } })
        },
    }
}

/// What saving a list dialog did: nothing, as the list already held the items; nothing,
/// as the core is being applied (route exclusions and excluded interfaces only); stored
/// a core list, which marks the core out of date; stored the proxy bypass list, whose
/// platform refresh runs under the token; or nothing, as the kind names no list. The
/// dialog closes in every case but the last.
#[derive(Debug, Clone, Copy, PartialEq, Eq, Structural)]
pub enum ListSave {
    Unchanged,
    CoreBusy,
    CoreListStored,
    BypassStored(u64),
    NoList,
}

/// Saves the checked items of a list dialog of kind `kind`. An unchanged list saves
/// nothing. A route exclusion list (0) or excluded interface list (1) is stored unless the
/// core is being applied, and then the core is out of date. The proxy bypass list (2) is
/// stored and the page turns busy under a new token while the platform takes the list.
pub fn save_list_step(state: &mut SettingsViewState, settings: &mut Settings, kind: i32, values: Vec<String>) -> (r: ListSave)
    ensures
        !(0 <= kind <= 2) ==> r == ListSave::NoList && *final(state) == *old(state) && *final(settings) == *old(settings),
        0 <= kind <= 2 && list_of_kind(*old(settings), kind) == Some(strings_view(values@)) ==>
            r == ListSave::Unchanged && *final(state) == *old(state) && *final(settings) == *old(settings),
        (kind == 0 || kind == 1) && list_of_kind(*old(settings), kind) != Some(strings_view(values@)) ==> {
            if old(state).applying_core {
                r == ListSave::CoreBusy && *final(state) == *old(state) && *final(settings) == *old(settings)
            } else {
                &&& r == ListSave::CoreListStored
                &&& *final(state) == (SettingsViewState { core_dirty: true, ..*old(state) })
                &&& kind == 0 ==> *final(settings) == (Settings {
                    clash: ClashSettings { tun: TunConfig { route_exclude_address: values, ..old(settings).clash.tun }, ..old(settings).clash },
                    ..*old(settings)
                })
                &&& kind == 1 ==> *final(settings) == (Settings {
                    clash: ClashSettings { tun: TunConfig { exclude_interface: values, ..old(settings).clash.tun }, ..old(settings).clash },
                    ..*old(settings)
                })
            }
        },
        kind == 2 && list_of_kind(*old(settings), kind) != Some(strings_view(values@)) ==> {
            let t = token_after(old(state).next_token);
            &&& r == ListSave::BypassStored(t)
            &&& *final(state) == (SettingsViewState { operation_busy: true, next_token: t, ..*old(state) })
            &&& *final(settings) == (Settings { proxy: ProxySettings { bypass_list: values }, ..*old(settings) })
        },
{
    if !(0 <= kind && kind <= 2) {
        return ListSave::NoList;
    }
    if list_unchanged(settings, kind, &values) {
        return ListSave::Unchanged;
    }
    if kind == 0 || kind == 1 {
        if state.applying_core {
            return ListSave::CoreBusy;
        }
        store_list(settings, kind, values);
        state.core_dirty = true;
        return ListSave::CoreListStored;
    }
    store_list(settings, kind, values);
    let token = settings_token(state);
    state.operation_busy = true;
    ListSave::BypassStored(token)
}

/// Takes the result of handing the saved bypass list to the platform under `token`. A
/// stale result changes nothing; otherwise the page is no longer busy and the toast tells
/// whether the platform took the list.
pub fn finish_bypass_save(state: &mut SettingsViewState, token: u64, result: Result<(), String>) -> (r: Option<Toast>)
    ensures
        old(state).next_token != token ==> r is None && *final(state) == *old(state),
        old(state).next_token == token ==> *final(state) == (SettingsViewState { operation_busy: false, ..*old(state) })
            && r is Some
            && match result {
                Ok(()) => r->Some_0.message@ == "跳过代理已保存"@ && r->Some_0.variant == 1,
                Err(e) => r->Some_0.message@ == "跳过代理已保存，但平台刷新失败："@ + e@ && r->Some_0.variant == 2,
            },
{
    if state.next_token != token {
        return None;
    }
    state.operation_busy = false;
    match result {
        Ok(()) => Some(Toast { message: String::from_str("跳过代理已保存"), variant: 1 }),
        Err(e) => {
            let mut message = String::from_str("跳过代理已保存，但平台刷新失败：");
            push_text(&mut message, e.as_str());
            Some(Toast { message, variant: 2 })
        },
    }
}

/// Saves the silent start switch at once; the platform's automatic start is left alone.
/// Returns whether the value changed (and must be saved).
pub fn toggle_silent_start(app: &mut AppSettings, enabled: bool) -> (r: bool)
    ensures
        r == (old(app).silent_start != enabled),
        *final(app) == (AppSettings { silent_start: enabled, ..*old(app) }),
{
    let changed = app.silent_start != enabled;
    app.silent_start = enabled;
    changed
}

/// What the settings page shows: the switches and values of the configuration, the
/// summaries of the ports and lists, and the state of the page.
#[derive(Debug, Clone, PartialEq, Eq)]
pub struct SettingsView {
    pub auto_start: bool,
    pub silent_start: bool,
    pub theme_index: i32,
    pub log_level_index: i32,
    pub ipv6: bool,
    pub allow_lan: bool,
    pub bind_address: String,
    pub ports_summary: String,
    pub tun_stack_index: i32,
    pub tun_device: String,
    pub tun_mtu: String,
    pub tun_strict_route: bool,
    pub tun_auto_detect_interface: bool,
    pub tun_auto_route: bool,
    pub tun_exclude_address_summary: String,
    pub tun_exclude_interface_summary: String,
    pub bypass_list_summary: String,
    pub core_dirty: bool,
    pub applying_core: bool,
    pub operation_busy: bool,
}

/// The values the settings page shows for a configuration and a page state.
pub fn settings_view(cfg: &AppConfig, state: &SettingsViewState) -> (r: SettingsView)
    ensures
        r.auto_start == cfg.settings.app.auto_start,
        r.silent_start == cfg.settings.app.silent_start,
        theme_at(r.theme_index) == Some(cfg.settings.app.theme),
        log_level_at(r.log_level_index) == Some(cfg.settings.clash.log_level),
        r.ipv6 == cfg.settings.clash.ipv6,
        r.allow_lan == cfg.settings.clash.allow_lan,
        r.bind_address@ == cfg.settings.clash.bind_address@,
        r.ports_summary@ == ports_summary_text(cfg.settings.clash.mixed_port, cfg.settings.clash.port, cfg.settings.clash.socks_port),
        tun_stack_at(r.tun_stack_index) == Some(cfg.settings.clash.tun.stack),
        r.tun_device@ == cfg.settings.clash.tun.device@,
        r.tun_mtu@ == decimal(cfg.settings.clash.tun.mtu as nat),
        r.tun_strict_route == cfg.settings.clash.tun.strict_route,
        r.tun_auto_detect_interface == cfg.settings.clash.tun.auto_detect_interface,
        r.tun_auto_route == cfg.settings.clash.tun.auto_route,
        r.tun_exclude_address_summary@ == list_summary_text(strings_view(cfg.settings.clash.tun.route_exclude_address@)),
        r.tun_exclude_interface_summary@ == list_summary_text(strings_view(cfg.settings.clash.tun.exclude_interface@)),
        r.bypass_list_summary@ == list_summary_text(strings_view(cfg.settings.proxy.bypass_list@)),
        r.core_dirty == state.core_dirty,
        r.applying_core == state.applying_core,
        r.operation_busy == state.operation_busy,
{
    let clash = &cfg.settings.clash;
    let tun = &clash.tun;
    let mut mtu = String::new();
    push_decimal(&mut mtu, tun.mtu as u64);
    SettingsView {
        auto_start: cfg.settings.app.auto_start,
        silent_start: cfg.settings.app.silent_start,
        theme_index: theme_index(cfg.settings.app.theme),
        log_level_index: log_level_index(clash.log_level),
        ipv6: clash.ipv6,
        allow_lan: clash.allow_lan,
        bind_address: clash.bind_address.clone(),
        ports_summary: ports_summary(clash),
        tun_stack_index: tun_stack_index(tun.stack),
        tun_device: tun.device.clone(),
        tun_mtu: mtu,
        tun_strict_route: tun.strict_route,
        tun_auto_detect_interface: tun.auto_detect_interface,
        tun_auto_route: tun.auto_route,
        tun_exclude_address_summary: list_summary(tun.route_exclude_address.as_slice()),
        tun_exclude_interface_summary: list_summary(tun.exclude_interface.as_slice()),
        bypass_list_summary: list_summary(cfg.settings.proxy.bypass_list.as_slice()),
        core_dirty: state.core_dirty,
        applying_core: state.applying_core,
        operation_busy: state.operation_busy,
    }
}

/// Entering the settings page: unless an operation runs, the UWP draft starts again from
/// the applications whose exemption is on. Returns whether the UWP applications must be
/// loaded: the platform has them and none is known yet.
pub fn refresh(state: &mut SettingsViewState, supports_uwp: bool) -> (r: bool)
    ensures
        r == (supports_uwp && old(state).uwp_apps@.len() == 0),
        old(state).operation_busy ==> *final(state) == *old(state),
        !old(state).operation_busy ==> texts_view(final(state).uwp_draft@) == enabled_packages(old(state).uwp_apps@)
            && *final(state) == (SettingsViewState { uwp_draft: final(state).uwp_draft, ..*old(state) }),
{
    let should_load = supports_uwp && state.uwp_apps.len() == 0;
    if !state.operation_busy {
        state.uwp_draft = enabled_uwp_packages(state.uwp_apps.as_slice());
    }
    should_load
}

} // verus!
