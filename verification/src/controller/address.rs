//! IP addresses as the standard library reads them (`IpAddr::from_str`), and the CIDR
//! blocks and proxy bypass entries the settings page accepts.
use vstd::prelude::*;
use crate::text::{chars_of, is_space, is_space_char};

verus! {

/// The value of a digit in base 10 or 16 (either case), if it is one.
pub open spec fn digit_value(c: char, radix: nat) -> Option<nat> {
    if '0' <= c && c <= '9' {
        Some((c as nat - '0' as nat) as nat)
    } else if radix == 16 && 'a' <= c && c <= 'f' {
        Some((c as nat - 'a' as nat + 10) as nat)
    } else if radix == 16 && 'A' <= c && c <= 'F' {
        Some((c as nat - 'A' as nat + 10) as nat)
    } else {
        None
    }
}

/// How many digits follow position `p`, counting at most `max`.
pub open spec fn digit_run(s: Seq<char>, p: int, radix: nat, max: nat) -> nat
    decreases max,
{
    if max == 0 || p < 0 || p >= s.len() || digit_value(s[p], radix) is None {
        0
    } else {
        1 + digit_run(s, p + 1, radix, (max - 1) as nat)
    }
}

/// The value of the digits `s[p..p + n]`.
pub open spec fn digits_value_at(s: Seq<char>, p: int, n: nat, radix: nat) -> nat
    decreases n,
{
    if n == 0 {
        0
    } else {
        digits_value_at(s, p, (n - 1) as nat, radix) * radix + digit_value(s[p + n - 1], radix)->0
    }
}

/// A number read at `p`: at most `max` digits, at least one, and (unless allowed) no
/// leading zero before further digits. Gives its value and the position after it.
pub open spec fn number_at(s: Seq<char>, p: int, radix: nat, max: nat, allow_zero_prefix: bool) -> Option<(nat, int)> {
    let n = digit_run(s, p, radix, max);
    if n == 0 {
        None
    } else if !allow_zero_prefix && s[p] == '0' && n > 1 {
        None
    } else {
        Some((digits_value_at(s, p, n, radix), p + n))
    }
}

/// An IPv4 octet at `p`: one to three decimal digits, no leading zero, at most 255.
pub open spec fn octet_at(s: Seq<char>, p: int) -> Option<int> {
    match number_at(s, p, 10, 3, false) {
        Some((v, e)) => if v <= 255 { Some(e) } else { None },
        None => None,
    }
}

/// `s[p]` is `c`.
pub open spec fn char_at(s: Seq<char>, p: int, c: char) -> bool {
    0 <= p < s.len() && s[p] == c
}

/// An IPv4 address at `p` (four octets separated by `.`); the position after it.
pub open spec fn ipv4_at(s: Seq<char>, p: int) -> Option<int> {
    match octet_at(s, p) {
        None => None,
        Some(p1) => if !char_at(s, p1, '.') { None } else {
            match octet_at(s, p1 + 1) {
                None => None,
                Some(p2) => if !char_at(s, p2, '.') { None } else {
                    match octet_at(s, p2 + 1) {
                        None => None,
                        Some(p3) => if !char_at(s, p3, '.') { None } else { octet_at(s, p3 + 1) },
                    }
                },
            }
        },
    }
}

/// Reading groups of an IPv6 address from `p`, the `i`-th of at most `limit`: each
/// group after the first is preceded by `:`; an IPv4 address may stand for the last two
/// groups. Gives the number of groups, whether an IPv4 address ended them, and the
/// position after them.
pub open spec fn groups_from(s: Seq<char>, p: int, i: nat, limit: nat) -> (nat, bool, int)
    decreases limit - i,
{
    if i >= limit {
        (limit, false, p)
    } else {
        let q = if i == 0 { p } else { p + 1 };
        let sep_ok = i == 0 || char_at(s, p, ':');
        let v4 = if sep_ok && i + 1 < limit { ipv4_at(s, q) } else { None };
        match v4 {
            Some(e) => (i + 2, true, e),
            None => if !sep_ok {
                (i, false, p)
            } else {
                match number_at(s, q, 16, 4, true) {
                    Some((_, e)) => groups_from(s, e, i + 1, limit),
                    None => (i, false, p),
                }
            },
        }
    }
}

/// `s` is an IPv6 address: eight groups, or fewer around one `::`.
pub open spec fn is_ipv6(s: Seq<char>) -> bool {
    let (h, h4, p) = groups_from(s, 0, 0, 8);
    if h == 8 {
        p == s.len()
    } else if h4 {
        false
    } else if char_at(s, p, ':') && char_at(s, p + 1, ':') {
        let (t, t4, q) = groups_from(s, p + 2, 0, (8 - (h + 1)) as nat);
        q == s.len()
    } else {
        false
    }
}

/// What `IpAddr::from_str` reads: `Some(true)` for IPv4, `Some(false)` for IPv6, `None`
/// when `s` is not an address. An IPv4 reading that leaves characters over fails as a
/// whole.
pub open spec fn ip_kind(s: Seq<char>) -> Option<bool> {
    match ipv4_at(s, 0) {
        Some(e) => if e == s.len() { Some(true) } else { None },
        None => if is_ipv6(s) { Some(false) } else { None },
    }
}

fn digit_of(c: char, radix: u32) -> (r: Option<u32>)
    requires
        radix == 10 || radix == 16,
    ensures
        match digit_value(c, radix as nat) {
            Some(v) => r == Some(v as u32),
            None => r is None,
        },
{
    if '0' <= c && c <= '9' {
        Some((c as u32) - ('0' as u32))
    } else if radix == 16 && 'a' <= c && c <= 'f' {
        Some((c as u32) - ('a' as u32) + 10)
    } else if radix == 16 && 'A' <= c && c <= 'F' {
        Some((c as u32) - ('A' as u32) + 10)
    } else {
        None
    }
}

proof fn lemma_digit_run_bound(s: Seq<char>, p: int, radix: nat, max: nat)
    ensures
        digit_run(s, p, radix, max) <= max,
        digit_run(s, p, radix, max) > 0 ==> 0 <= p < s.len(),
        p + digit_run(s, p, radix, max) <= s.len() || digit_run(s, p, radix, max) == 0,
        forall|k: int| 0 <= k < digit_run(s, p, radix, max) ==> #[trigger] digit_value(s[p + k], radix) is Some,
    decreases max,
{
    if !(max == 0 || p < 0 || p >= s.len() || digit_value(s[p], radix) is None) {
        lemma_digit_run_bound(s, p + 1, radix, (max - 1) as nat);
        assert forall|k: int| 0 <= k < digit_run(s, p, radix, max) implies #[trigger] digit_value(s[p + k], radix) is Some by {
            if k > 0 {
                assert(s[p + 1 + (k - 1)] == s[p + k]);
            }
        }
    }
}

/// A bound on a run of `n` digits in base 16 or less.
pub open spec fn digits_cap(n: nat) -> nat {
    if n == 0 { 1 } else if n == 1 { 16 } else if n == 2 { 256 } else if n == 3 { 4096 } else { 65536 }
}

proof fn lemma_number_at_bounds(s: Seq<char>, p: int, radix: nat, max: nat, allow_zero_prefix: bool)
    ensures
        match number_at(s, p, radix, max, allow_zero_prefix) {
            Some((v, e)) => p < e <= s.len() && e - p <= max,
            None => true,
        },
{
    lemma_digit_run_bound(s, p, radix, max);
}

/// Reads a number at `p` as `number_at` does, for at most 4 digits.
fn read_number(s: &Vec<char>, p: usize, radix: u32, max: u32, allow_zero_prefix: bool) -> (r: Option<(u32, usize)>)
    requires
        radix == 10 || radix == 16,
        1 <= max <= 4,
        p <= s.len(),
    ensures
        match number_at(s@, p as int, radix as nat, max as nat, allow_zero_prefix) {
            Some((v, e)) => r == Some((v as u32, e as usize)) && v < 0x1_0000 && p < e <= s.len(),
            None => r is None,
        },
{
    let mut n: u32 = 0;
    let mut value: u32 = 0;
    proof {
        lemma_digit_run_bound(s@, p as int, radix as nat, max as nat);
        lemma_number_at_bounds(s@, p as int, radix as nat, max as nat, allow_zero_prefix);
    }
    while n < max && p + (n as usize) < s.len() && digit_of(s[p + n as usize], radix).is_some()
        invariant
            n <= max <= 4,
            radix == 10 || radix == 16,
            p <= s.len(),
            p + n <= s.len(),
            value == digits_value_at(s@, p as int, n as nat, radix as nat),
            value < digits_cap(n as nat),
            digit_run(s@, p as int, radix as nat, max as nat) == n + digit_run(s@, p + n, radix as nat, (max - n) as nat),
        decreases max - n,
    {
        let d = digit_of(s[p + n as usize], radix).unwrap();
        proof {
            assert(digit_value(s@[p + n], radix as nat) is Some);
            assert(d < 16);
            let c = digits_cap(n as nat);
            let c2 = digits_cap((n + 1) as nat);
            assert(c2 == c * 16);
            assert(value * radix + d < c2) by (nonlinear_arith)
                requires value < c, radix <= 16, d < 16, c2 == c * 16, value >= 0, radix >= 0, d >= 0;
        }
        value = value * radix + d;
        n = n + 1;
    }
    proof {
        assert(digit_run(s@, p + n, radix as nat, (max - n) as nat) == 0);
    }
    if n == 0 {
        return None;
    }
    if !allow_zero_prefix && s[p] == '0' && n > 1 {
        return None;
    }
    Some((value, p + n as usize))
}

fn read_octet(s: &Vec<char>, p: usize) -> (r: Option<usize>)
    requires
        p <= s.len(),
    ensures
        match octet_at(s@, p as int) {
            Some(e) => r == Some(e as usize) && p < e <= s.len(),
            None => r is None,
        },
{
    match read_number(s, p, 10, 3, false) {
        Some((v, e)) => if v <= 255 { Some(e) } else { None },
        None => None,
    }
}

fn is_char(s: &Vec<char>, p: usize, c: char) -> (r: bool)
    ensures
        r == char_at(s@, p as int, c),
{
    p < s.len() && s[p] == c
}

fn read_ipv4(s: &Vec<char>, p: usize) -> (r: Option<usize>)
    requires
        p <= s.len(),
    ensures
        match ipv4_at(s@, p as int) {
            Some(e) => r == Some(e as usize) && p < e <= s.len(),
            None => r is None,
        },
{
    let p1 = match read_octet(s, p) { Some(e) => e, None => return None };
    if !is_char(s, p1, '.') { return None; }
    let p2 = match read_octet(s, p1 + 1) { Some(e) => e, None => return None };
    if !is_char(s, p2, '.') { return None; }
    let p3 = match read_octet(s, p2 + 1) { Some(e) => e, None => return None };
    if !is_char(s, p3, '.') { return None; }
    read_octet(s, p3 + 1)
}

fn read_groups(s: &Vec<char>, p: usize, limit: usize) -> (r: (usize, bool, usize))
    requires
        p <= s.len(),
        limit <= 8,
    ensures
        r.0 == groups_from(s@, p as int, 0, limit as nat).0,
        r.1 == groups_from(s@, p as int, 0, limit as nat).1,
        r.2 == groups_from(s@, p as int, 0, limit as nat).2,
        r.2 <= s.len(),
        r.0 <= limit,
{
    let mut i: usize = 0;
    let mut pos: usize = p;
    while i < limit
        invariant
            i <= limit <= 8,
            pos <= s.len(),
            groups_from(s@, p as int, 0, limit as nat) == groups_from(s@, pos as int, i as nat, limit as nat),
        decreases limit - i,
    {
        let sep_ok = i == 0 || is_char(s, pos, ':');
        if !sep_ok {
            return (i, false, pos);
        }
        let q = if i == 0 { pos } else { pos + 1 };
        if i + 1 < limit {
            if let Some(e) = read_ipv4(s, q) {
                return (i + 2, true, e);
            }
        }
        match read_number(s, q, 16, 4, true) {
            Some((_, e)) => {
                pos = e;
            },
            None => {
                return (i, false, pos);
            },
        }
        i = i + 1;
    }
    (limit, false, pos)
}

fn check_ipv6(s: &Vec<char>) -> (r: bool)
    ensures
        r == is_ipv6(s@),
{
    let (h, h4, p) = read_groups(s, 0, 8);
    if h == 8 {
        return p == s.len();
    }
    if h4 {
        return false;
    }
    if is_char(s, p, ':') && is_char(s, p + 1, ':') {
        let (_, _, q) = read_groups(s, p + 2, 8 - (h + 1));
        q == s.len()
    } else {
        false
    }
}

/// What `IpAddr::from_str` reads from `s`.
pub fn parse_ip(s: &Vec<char>) -> (r: Option<bool>)
    ensures
        r == ip_kind(s@),
{
    match read_ipv4(s, 0) {
        Some(e) => if e == s.len() { Some(true) } else { None },
        None => if check_ipv6(s) { Some(false) } else { None },
    }
}

/// What `u8::from_str` reads: an optional `+`, then decimal digits, at most 255.
pub open spec fn u8_text(t: Seq<char>) -> Option<nat> {
    let d = sign_stripped(t);
    if d.len() > 0 && all_decimal(d) && digits_value_at(d, 0, d.len(), 10) <= 255 {
        Some(digits_value_at(d, 0, d.len(), 10))
    } else {
        None
    }
}

/// `t` without a leading `+`.
pub open spec fn sign_stripped(t: Seq<char>) -> Seq<char> {
    if t.len() > 0 && t[0] == '+' { t.drop_first() } else { t }
}

/// Every character of `d` is a decimal digit.
pub open spec fn all_decimal(d: Seq<char>) -> bool {
    forall|k: int| 0 <= k < d.len() ==> '0' <= #[trigger] d[k] && d[k] <= '9'
}

proof fn lemma_digits_value_monotone(s: Seq<char>, n: nat, m: nat)
    requires
        n <= m <= s.len(),
        forall|k: int| 0 <= k < s.len() ==> '0' <= #[trigger] s[k] && s[k] <= '9',
    ensures
        digits_value_at(s, 0, n, 10) <= digits_value_at(s, 0, m, 10),
    decreases m - n,
{
    if n < m {
        lemma_digits_value_monotone(s, n, (m - 1) as nat);
        assert(digit_value(s[m - 1], 10) is Some);
    }
}

fn parse_u8_text(t: &Vec<char>) -> (r: Option<u32>)
    ensures
        match u8_text(t@) {
            Some(v) => r == Some(v as u32),
            None => r is None,
        },
{
    let start: usize = if t.len() > 0 && t[0] == '+' { 1 } else { 0 };
    let ghost d = sign_stripped(t@);
    proof { assert(d =~= t@.subrange(start as int, t@.len() as int)); }
    if start == t.len() {
        return None;
    }
    let mut value: u32 = 0;
    let mut k: usize = start;
    while k < t.len()
        invariant
            start <= k <= t.len(),
            start < t.len(),
            d == sign_stripped(t@),
            d == t@.subrange(start as int, t@.len() as int),
            forall|j: int| 0 <= j < k - start ==> '0' <= #[trigger] d[j] && d[j] <= '9',
            value == digits_value_at(d, 0, (k - start) as nat, 10),
            value <= 255,
        decreases t.len() - k,
    {
        let c = t[k];
        let ghost j: int = k - start;
        proof { assert(d[j] == c); }
        if !('0' <= c && c <= '9') {
            proof {
                assert(!('0' <= d[j] && d[j] <= '9'));
                assert(!all_decimal(d));
            }
            return None;
        }
        let next = value * 10 + ((c as u32) - ('0' as u32));
        proof {
            assert(digit_value(d[j], 10) == Some((c as nat - '0' as nat) as nat));
            assert(digits_value_at(d, 0, (j + 1) as nat, 10) == next);
        }
        if next > 255 {
            proof {
                if all_decimal(d) {
                    lemma_digits_value_monotone(d, (j + 1) as nat, d.len());
                }
            }
            return None;
        }
        value = next;
        k = k + 1;
    }
    Some(value)
}

/// `value` is a CIDR block: an address, one `/`, and a prefix length that `u8` parsing
/// reads, at most 32 for IPv4 and 128 for IPv6.
pub open spec fn is_ip_cidr(value: Seq<char>) -> bool {
    exists|k: int| #![trigger value[k]] 0 <= k < value.len() && value[k] == '/' && {
        let ip = value.subrange(0, k);
        let prefix = value.subrange(k + 1, value.len() as int);
        &&& forall|j: int| 0 <= j < value.len() && j != k ==> value[j] != '/'
        &&& ip.len() > 0
        &&& prefix.len() > 0
        &&& match (ip_kind(ip), u8_text(prefix)) {
            (Some(v4), Some(n)) => if v4 { n <= 32 } else { n <= 128 },
            _ => false,
        }
    }
}

/// No `/` among `s[a..b]`.
pub open spec fn no_slash_between(s: Seq<char>, a: int, b: int) -> bool {
    forall|i: int| a <= i < b ==> s[i] != '/'
}

proof fn lemma_digit_run_no_slash(s: Seq<char>, p: int, radix: nat, max: nat)
    ensures
        p + digit_run(s, p, radix, max) <= s.len() || digit_run(s, p, radix, max) == 0,
        digit_run(s, p, radix, max) > 0 ==> 0 <= p,
        no_slash_between(s, p, p + digit_run(s, p, radix, max)),
    decreases max,
{
    if !(max == 0 || p < 0 || p >= s.len() || digit_value(s[p], radix) is None) {
        lemma_digit_run_no_slash(s, p + 1, radix, (max - 1) as nat);
        assert(s[p] != '/');
    }
}

proof fn lemma_number_no_slash(s: Seq<char>, p: int, radix: nat, max: nat, allow: bool)
    ensures
        number_at(s, p, radix, max, allow) matches Some((_, e)) ==> p <= e && no_slash_between(s, p, e),
{
    lemma_digit_run_no_slash(s, p, radix, max);
}

proof fn lemma_ipv4_no_slash(s: Seq<char>, p: int)
    ensures
        ipv4_at(s, p) matches Some(e) ==> p <= e && no_slash_between(s, p, e),
{
    lemma_number_no_slash(s, p, 10, 3, false);
    if let Some(p1) = octet_at(s, p) {
        lemma_number_no_slash(s, p1 + 1, 10, 3, false);
        if let Some(p2) = octet_at(s, p1 + 1) {
            lemma_number_no_slash(s, p2 + 1, 10, 3, false);
            if let Some(p3) = octet_at(s, p2 + 1) {
                lemma_number_no_slash(s, p3 + 1, 10, 3, false);
            }
        }
    }
}

proof fn lemma_groups_no_slash(s: Seq<char>, p: int, i: nat, limit: nat)
    requires
        i > 0 ==> 0 <= p,
        i == 0 ==> 0 <= p,
    ensures
        p <= groups_from(s, p, i, limit).2,
        no_slash_between(s, p, groups_from(s, p, i, limit).2),
    decreases limit - i,
{
    if i < limit {
        let q = if i == 0 { p } else { p + 1 };
        let sep_ok = i == 0 || char_at(s, p, ':');
        lemma_ipv4_no_slash(s, q);
        lemma_number_no_slash(s, q, 16, 4, true);
        if let Some((_, e)) = number_at(s, q, 16, 4, true) {
            lemma_groups_no_slash(s, e, i + 1, limit);
        }
    }
}

proof fn lemma_address_no_slash(s: Seq<char>)
    requires
        ip_kind(s) is Some,
    ensures
        no_slash_between(s, 0, s.len() as int),
{
    lemma_ipv4_no_slash(s, 0);
    if !(ipv4_at(s, 0) is Some) {
        lemma_groups_no_slash(s, 0, 0, 8);
        let (h, h4, p) = groups_from(s, 0, 0, 8);
        if h != 8 {
            lemma_groups_no_slash(s, p + 2, 0, (8 - (h + 1)) as nat);
        }
    }
}

/// A CIDR block is an address, `/`, and a prefix length that `u8` parsing reads: the
/// block is accepted exactly when the length is at most 32 for an IPv4 address and at
/// most 128 for an IPv6 one, so every length from 0 to the width of the address passes.
pub proof fn law_cidr_prefix_up_to_address_width(ip: Seq<char>, prefix: Seq<char>)
    requires
        ip_kind(ip) is Some,
        u8_text(prefix) is Some,
    ensures
        is_ip_cidr(ip + seq!['/'] + prefix) <==> if ip_kind(ip) == Some(true) {
            u8_text(prefix)->0 <= 32
        } else {
            u8_text(prefix)->0 <= 128
        },
{
    let value = ip + seq!['/'] + prefix;
    let k = ip.len() as int;
    lemma_address_no_slash(ip);
    let d = sign_stripped(prefix);
    assert(ip.len() > 0) by {
        if ip.len() == 0 {
            assert(ipv4_at(ip, 0) is None) by {
                lemma_ipv4_no_slash(ip, 0);
                lemma_number_no_slash(ip, 0, 10, 3, false);
            }
            assert(groups_from(ip, 0, 0, 8).0 < 8) by {
                reveal_with_fuel(groups_from, 2);
            }
        }
    }
    assert forall|j: int| 0 <= j < prefix.len() implies prefix[j] != '/' by {
        if prefix[0] == '+' && prefix.len() > 0 {
            if j > 0 { assert(prefix[j] == d[j - 1]); }
        } else {
            assert(prefix[j] == d[j]);
        }
    }
    assert(value.subrange(0, k) =~= ip);
    assert(value.subrange(k + 1, value.len() as int) =~= prefix);
    assert(value[k] == '/');
    assert forall|j: int| 0 <= j < value.len() && j != k implies value[j] != '/' by {
        if j < k {
            assert(value[j] == ip[j]);
        } else {
            assert(value[j] == prefix[j - k - 1]);
        }
    }
    if is_ip_cidr(value) {
        let w = choose|w: int| #![trigger value[w]] 0 <= w < value.len() && value[w] == '/' && {
            let ip2 = value.subrange(0, w);
            let prefix2 = value.subrange(w + 1, value.len() as int);
            &&& forall|j: int| 0 <= j < value.len() && j != w ==> value[j] != '/'
            &&& ip2.len() > 0
            &&& prefix2.len() > 0
            &&& match (ip_kind(ip2), u8_text(prefix2)) {
                (Some(v4), Some(n)) => if v4 { n <= 32 } else { n <= 128 },
                _ => false,
            }
        };
        assert(w == k);
    }
}

/// Whether `value` is a CIDR block.
pub fn is_valid_ip_cidr(value: &str) -> (r: bool)
    ensures
        r == is_ip_cidr(value@),
{
    let cs = chars_of(value);
    let mut slash: usize = cs.len();
    let mut count: usize = 0;
    let mut i: usize = 0;
    while i < cs.len()
        invariant
            i <= cs.len(),
            cs@ == value@,
            count <= i,
            count == 0 ==> slash == cs.len() && forall|j: int| 0 <= j < i ==> cs@[j] != '/',
            count >= 1 ==> slash < i && cs@[slash as int] == '/' && forall|j: int| 0 <= j < slash ==> cs@[j] != '/',
            count == 1 ==> forall|j: int| 0 <= j < i && j != slash ==> cs@[j] != '/',
            count >= 2 ==> exists|j: int| slash < j < i && cs@[j] == '/',
        decreases cs.len() - i,
    {
        if cs[i] == '/' {
            if count == 0 {
                slash = i;
            }
            count = if count < 2 { count + 1 } else { 2 };
        }
        i = i + 1;
    }
    if count != 1 {
        proof {
            if count >= 2 {
                let j = choose|j: int| slash < j < cs.len() && cs@[j] == '/';
                assert forall|k: int| 0 <= k < value@.len() && value@[k] == '/' implies !(forall|j2: int| 0 <= j2 < value@.len() && j2 != k ==> value@[j2] != '/') by {
                    if k != slash as int {
                        assert(value@[slash as int] == '/');
                    } else {
                        assert(value@[j] == '/');
                    }
                }
            }
        }
        return false;
    }
    let mut ip: Vec<char> = Vec::new();
    let mut k: usize = 0;
    while k < slash
        invariant
            k <= slash < cs.len(),
            ip@ == cs@.subrange(0, k as int),
        decreases slash - k,
    {
        ip.push(cs[k]);
        proof { assert(cs@.subrange(0, k + 1) =~= cs@.subrange(0, k as int).push(cs@[k as int])); }
        k = k + 1;
    }
    let mut prefix: Vec<char> = Vec::new();
    let mut t: usize = slash + 1;
    while t < cs.len()
        invariant
            slash + 1 <= t <= cs.len(),
            prefix@ == cs@.subrange(slash + 1, t as int),
        decreases cs.len() - t,
    {
        prefix.push(cs[t]);
        proof { assert(cs@.subrange(slash + 1, t + 1) =~= cs@.subrange(slash + 1, t as int).push(cs@[t as int])); }
        t = t + 1;
    }
    let ok = if ip.len() == 0 || prefix.len() == 0 {
        false
    } else {
        match (parse_ip(&ip), parse_u8_text(&prefix)) {
            (Some(v4), Some(n)) => if v4 { n <= 32 } else { n <= 128 },
            _ => false,
        }
    };
    proof {
        assert(value@[slash as int] == '/');
        if is_ip_cidr(value@) {
            let w = choose|w: int| #![trigger value@[w]] 0 <= w < value@.len() && value@[w] == '/' && {
                let ip = value@.subrange(0, w);
                let prefix = value@.subrange(w + 1, value@.len() as int);
                &&& forall|j: int| 0 <= j < value@.len() && j != w ==> value@[j] != '/'
                &&& ip.len() > 0
                &&& prefix.len() > 0
                &&& match (ip_kind(ip), u8_text(prefix)) {
                    (Some(v4), Some(n)) => if v4 { n <= 32 } else { n <= 128 },
                    _ => false,
                }
            };
            assert(w == slash as int);
        }
    }
    ok
}

/// A control character (`char::is_control`, the category Cc).
pub open spec fn is_control(c: char) -> bool {
    ('\u{0}' <= c && c <= '\u{1f}') || ('\u{7f}' <= c && c <= '\u{9f}')
}

/// An ASCII letter or digit, or one of `-_*`.
pub open spec fn pattern_char(c: char) -> bool {
    ('a' <= c && c <= 'z') || ('A' <= c && c <= 'Z') || ('0' <= c && c <= '9') || c == '-' || c == '_' || c == '*'
}

/// Some `.` stands among the 64 characters from `i`.
pub open spec fn dot_within(v: Seq<char>, i: int) -> bool {
    exists|k: int| i <= k < i + 64 && #[trigger] v[k] == '.'
}

/// A host pattern: not empty, at most 253 characters, made of `pattern_char` and `.`,
/// with labels (the parts between dots) that are not empty, not longer than 63
/// characters, and do not start or end with `-`; no `.` at either end. (The length limit
/// counts bytes; such a pattern is ASCII, so bytes and characters agree.)
pub open spec fn is_bypass_pattern(v: Seq<char>) -> bool {
    &&& 0 < v.len() <= 253
    &&& v[0] != '.'
    &&& v.last() != '.'
    &&& forall|k: int| 0 <= k < v.len() ==> pattern_char(#[trigger] v[k]) || v[k] == '.'
    &&& forall|k: int| 0 <= k < v.len() - 1 ==> !(#[trigger] v[k] == '.' && v[k + 1] == '.')
    &&& forall|k: int| 0 <= k < v.len() && #[trigger] v[k] == '-' ==>
            k > 0 && v[k - 1] != '.' && k < v.len() - 1 && v[k + 1] != '.'
    &&& forall|i: int| 0 <= i && i + 64 <= v.len() ==> #[trigger] dot_within(v, i)
}

/// Whether `v` is a host pattern the system proxy accepts.
pub fn is_valid_bypass_pattern(v: &Vec<char>) -> (r: bool)
    ensures
        r == is_bypass_pattern(v@),
{
    let n = v.len();
    if n == 0 || n > 253 || v[0] == '.' || v[n - 1] == '.' {
        return false;
    }
    let mut run: usize = 0;
    let mut i: usize = 0;
    while i < n
        invariant
            0 < n <= 253,
            n == v.len(),
            i <= n,
            v@[0] != '.',
            v@[n - 1] != '.',
            run <= i,
            run <= 63,
            forall|k: int| i - run <= k < i ==> v@[k] != '.',
            run < i ==> v@[i - run - 1] == '.',
            forall|k: int| 0 <= k < i ==> pattern_char(#[trigger] v@[k]) || v@[k] == '.',
            forall|k: int| 0 <= k < i && k < n - 1 ==> !(#[trigger] v@[k] == '.' && v@[k + 1] == '.'),
            forall|k: int| 0 <= k < i && #[trigger] v@[k] == '-' ==>
                k > 0 && v@[k - 1] != '.' && k < n - 1 && v@[k + 1] != '.',
            forall|j: int| 0 <= j && j + 64 <= i ==> #[trigger] dot_within(v@, j),
        decreases n - i,
    {
        let c = v[i];
        let ok = ('a' <= c && c <= 'z') || ('A' <= c && c <= 'Z') || ('0' <= c && c <= '9') || c == '-' || c == '_' || c == '*' || c == '.';
        if !ok {
            return false;
        }
        if c == '.' {
            if i + 1 < n && v[i + 1] == '.' {
                return false;
            }
            proof {
                assert forall|j: int| 0 <= j && j + 64 <= i + 1 implies #[trigger] dot_within(v@, j) by {
                    if j + 64 == i + 1 {
                        assert(v@[i as int] == '.');
                    }
                }
            }
            run = 0;
        } else {
            if c == '-' {
                if i == 0 || v[i - 1] == '.' || i + 1 >= n || v[i + 1] == '.' {
                    return false;
                }
            }
            if run == 63 {
                proof {
                    let j = i - 63;
                    assert forall|k: int| j <= k < j + 64 implies v@[k] != '.' by {}
                    assert(!dot_within(v@, j as int));
                }
                return false;
            }
            proof {
                assert forall|j: int| 0 <= j && j + 64 <= i + 1 implies #[trigger] dot_within(v@, j) by {
                    if j + 64 == i + 1 {
                        assert(run < i - j);
                        let k = i - run - 1;
                        assert(v@[k] == '.');
                    }
                }
            }
            run = run + 1;
        }
        i = i + 1;
    }
    true
}

/// Whether a text holds a white-space or control character.
fn has_space_or_control(v: &Vec<char>) -> (r: bool)
    ensures
        r == exists|k: int| 0 <= k < v@.len() && (is_space(#[trigger] v@[k]) || is_control(v@[k])),
{
    let mut i: usize = 0;
    while i < v.len()
        invariant
            i <= v.len(),
            forall|k: int| 0 <= k < i ==> !(is_space(#[trigger] v@[k]) || is_control(v@[k])),
        decreases v.len() - i,
    {
        let c = v[i];
        if is_space_char(c) || ('\u{0}' <= c && c <= '\u{1f}') || ('\u{7f}' <= c && c <= '\u{9f}') {
            return true;
        }
        i = i + 1;
    }
    false
}

/// An entry of the proxy bypass list: not empty and without white space or control
/// characters; then `localhost`, `<local>`, `localdomain`, a CIDR block (not on
/// Windows), an address, or a host pattern.
pub open spec fn is_bypass_entry(value: Seq<char>, is_windows: bool) -> bool {
    if value.len() == 0 || exists|k: int| 0 <= k < value.len() && (is_space(#[trigger] value[k]) || is_control(value[k])) {
        false
    } else if value == "localhost"@ || value == "<local>"@ || value == "localdomain"@ {
        true
    } else if value.contains('/') {
        !is_windows && is_ip_cidr(value)
    } else if ip_kind(value) is Some {
        true
    } else {
        is_bypass_pattern(value)
    }
}

/// Whether `value` is an entry the system proxy's bypass list accepts.
pub fn is_valid_bypass_entry(value: &str, is_windows: bool) -> (r: bool)
    ensures
        r == is_bypass_entry(value@, is_windows),
{
    let v = chars_of(value);
    if v.len() == 0 || has_space_or_control(&v) {
        return false;
    }
    if crate::text::text_eq(value, "localhost") || crate::text::text_eq(value, "<local>") || crate::text::text_eq(value, "localdomain") {
        return true;
    }
    let mut has_slash = false;
    let mut i: usize = 0;
    while i < v.len()
        invariant
            i <= v.len(),
            has_slash == exists|k: int| 0 <= k < i && v@[k] == '/',
        decreases v.len() - i,
    {
        if v[i] == '/' {
            has_slash = true;
        }
        i = i + 1;
    }
    proof {
        if value@.contains('/') {
            let k = choose|k: int| 0 <= k < value@.len() && value@[k] == '/';
            assert(v@[k] == '/');
        }
    }
    if has_slash {
        return !is_windows && is_valid_ip_cidr(value);
    }
    if parse_ip(&v).is_some() {
        return true;
    }
    is_valid_bypass_pattern(&v)
}

} // verus!
