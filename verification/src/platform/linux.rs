//! Linux: the TUN device name is used as typed, UWP does not exist, and the bypass list
//! is handed over comma-separated.
use vstd::prelude::*;
use vstd::string::*;
use crate::platform::UwpApp;
use crate::text::{trimmed, trim_text};

verus! {

/// The trimmed, non-empty items of a bypass list, in order.
pub open spec fn bypass_items(v: Seq<Seq<char>>) -> Seq<Seq<char>> {
    v.map_values(|s: Seq<char>| trimmed(s)).filter(|s: Seq<char>| s.len() > 0)
}

/// The texts joined with `sep` between them.
pub open spec fn joined_by(v: Seq<Seq<char>>, sep: Seq<char>) -> Seq<char>
    decreases v.len(),
{
    if v.len() == 0 {
        Seq::empty()
    } else if v.len() == 1 {
        v[0]
    } else {
        joined_by(v.drop_last(), sep) + sep + v.last()
    }
}

/// The bypass list as the system proxy takes it: the trimmed, non-empty items joined with
/// `sep`.
pub fn join_bypass(bypass: &[String], sep: &str) -> (r: String)
    ensures
        r@ == joined_by(bypass_items(bypass@.map_values(|s: String| s@)), sep@),
{
    let ghost src = bypass@.map_values(|s: String| s@).map_values(|s: Seq<char>| trimmed(s));
    let ghost pred = |s: Seq<char>| s.len() > 0;
    let mut out = String::new();
    let mut count: usize = 0;
    let mut i: usize = 0;
    proof { assert(src.subrange(0, 0) =~= Seq::<Seq<char>>::empty()); }
    while i < bypass.len()
        invariant
            i <= bypass@.len(),
            src == bypass@.map_values(|s: String| s@).map_values(|s: Seq<char>| trimmed(s)),
            pred == (|s: Seq<char>| s.len() > 0),
            count == src.subrange(0, i as int).filter(pred).len(),
            out@ == joined_by(src.subrange(0, i as int).filter(pred), sep@),
        decreases bypass@.len() - i,
    {
        let item = trim_text(bypass[i].as_str());
        proof {
            assert(src.subrange(0, i + 1) =~= src.subrange(0, i as int).push(src[i as int]));
            src.subrange(0, i as int).lemma_filter_push(src[i as int], pred);
            assert(src[i as int] == item@);
        }
        if item.as_str().unicode_len() > 0 {
            let ghost prev = src.subrange(0, i as int).filter(pred);
            if count > 0 {
                out.append(sep);
            }
            out.append(item.as_str());
            proof {
                assert(prev.push(item@).drop_last() =~= prev);
                if count == 0 {
                    assert(out@ =~= prev.push(item@)[0]);
                }
            }
            count = count + 1;
        }
        i = i + 1;
    }
    proof { assert(src.subrange(0, bypass@.len() as int) =~= src); }
    out
}

/// The bypass list for the system proxy: trimmed, non-empty items joined with `,`.
pub fn proxy_bypass_string(bypass: &[String]) -> (r: String)
    ensures
        r@ == joined_by(bypass_items(bypass@.map_values(|s: String| s@)), ","@),
{
    join_bypass(bypass, ",")
}

/// The TUN device name as typed, trimmed.
pub fn normalize_tun_device(value: &str) -> (r: String)
    ensures
        r@ == trimmed(value@),
{
    trim_text(value)
}

/// UWP applications do not exist here.
pub fn supports_uwp() -> (r: bool)
    ensures
        !r,
{
    false
}

/// The message for any UWP request here.
pub open spec fn uwp_unsupported() -> Seq<char> {
    "当前平台不支持 UWP 设置"@
}

/// There are no UWP applications to list here.
pub fn list_uwp_apps() -> (r: Result<Vec<UwpApp>, String>)
    ensures
        r is Err && r->Err_0@ == uwp_unsupported(),
{
    Err(String::from_str("当前平台不支持 UWP 设置"))
}

/// There is no UWP loopback exemption to change here.
pub fn set_uwp_loopback(package_family_name: &str, enabled: bool) -> (r: Result<(), String>)
    ensures
        r is Err && r->Err_0@ == uwp_unsupported(),
{
    Err(String::from_str("当前平台不支持 UWP 设置"))
}

/// There is no UWP loopback exemption to change here.
pub fn set_uwp_loopback_batch(changes: &[(String, bool)]) -> (r: Result<(), String>)
    ensures
        r is Err && r->Err_0@ == uwp_unsupported(),
{
    Err(String::from_str("当前平台不支持 UWP 设置"))
}

} // verus!
