//! macOS: TUN device names carry the `utun-` prefix, UWP does not exist, and the bypass
//! list is handed over comma-separated.
use vstd::prelude::*;
use vstd::string::*;
use crate::platform::UwpApp;
use crate::platform::linux::{bypass_items, joined_by, join_bypass, uwp_unsupported};
use crate::text::{trimmed, trim_text, chars_of};

verus! {

/// The bypass list for the system proxy: trimmed, non-empty items joined with `,`.
pub fn proxy_bypass_string(bypass: &[String]) -> (r: String)
    ensures
        r@ == joined_by(bypass_items(bypass@.map_values(|s: String| s@)), ","@),
{
    join_bypass(bypass, ",")
}

/// The TUN device name, trimmed, with `utun-` in front unless it starts with it already.
pub open spec fn utun_name(value: Seq<char>) -> Seq<char> {
    let t = trimmed(value);
    if t.len() >= 5 && t.subrange(0, 5) == "utun-"@ { t } else { "utun-"@ + t }
}

/// The TUN device name as macOS requires it.
pub fn normalize_tun_device(value: &str) -> (r: String)
    ensures
        r@ == utun_name(value@),
{
    let t = trim_text(value);
    let cs = chars_of(t.as_str());
    let has_prefix = cs.len() >= 5 && cs[0] == 'u' && cs[1] == 't' && cs[2] == 'u' && cs[3] == 'n' && cs[4] == '-';
    proof {
        reveal_strlit("utun-");
        assert(cs@ == trimmed(value@));
        if cs@.len() >= 5 {
            let p = cs@.subrange(0, 5);
            if has_prefix { assert(p =~= "utun-"@); }
            if p == "utun-"@ {
                assert(p[0] == 'u' && p[1] == 't' && p[2] == 'u' && p[3] == 'n' && p[4] == '-');
                assert(cs@[0] == p[0] && cs@[1] == p[1] && cs@[2] == p[2] && cs@[3] == p[3] && cs@[4] == p[4]);
            }
        }
    }
    if has_prefix {
        t
    } else {
        let mut s = String::from_str("utun-");
        s.append(t.as_str());
        s
    }
}

/// UWP applications do not exist here.
pub fn supports_uwp() -> (r: bool)
    ensures
        !r,
{
    false
}

/// There are no UWP applications to list here.
pub fn list_uwp_apps() -> (r: Result<Vec<UwpApp>, String>)
    ensures
        r is Err && r->Err_0@ == uwp_unsupported(),
{
    Err(String::from_str("当前平台不支持 UWP 设置"))
}

/// There is no UWP loopback exemption to change here.
pub fn set_uwp_loopback(package_family_name: &str, enabled: bool) -> (r: Result<(), String>)
    ensures
        r is Err && r->Err_0@ == uwp_unsupported(),
{
    Err(String::from_str("当前平台不支持 UWP 设置"))
}

/// There is no UWP loopback exemption to change here.
pub fn set_uwp_loopback_batch(changes: &[(String, bool)]) -> (r: Result<(), String>)
    ensures
        r is Err && r->Err_0@ == uwp_unsupported(),
{
    Err(String::from_str("当前平台不支持 UWP 设置"))
}

} // verus!
