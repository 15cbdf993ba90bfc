//! The data the core's control interface returns, as plain values, and the encoding of a
//! name into one segment of a request path.
use vstd::prelude::*;
use vstd::string::*;
use crate::json::JsonValue;
use crate::text::{push_text, push_decimal, decimal};

verus! {

/// The core's version.
#[derive(Debug, Clone)]
pub struct Version {
    pub meta: bool,
    pub version: String,
}

/// One latency measurement of a proxy; a delay of 0 is a failed test.
#[derive(Debug, Clone)]
pub struct ProxyHistory {
    pub time: String,
    pub delay: u16,
}

/// A proxy or a proxy group as the core reports it.
#[derive(Debug, Clone)]
pub struct ProxyEntry {
    pub name: String,
    pub type_: String,
    pub udp: bool,
    pub uot: bool,
    pub xudp: bool,
    pub tfo: bool,
    pub mptcp: bool,
    pub smux: bool,
    pub alive: bool,
    pub history: Vec<ProxyHistory>,
    pub provider_name: Option<String>,
    pub dialer_proxy: Option<String>,
    pub now: Option<String>,
    pub all: Vec<String>,
    pub test_url: Option<String>,
    pub hidden: Option<bool>,
    pub icon: Option<String>,
    pub empty_fallback: Option<String>,
    pub expected_status: Option<String>,
    pub fixed: Option<String>,
}

/// All proxies and groups by name.
#[derive(Debug, Clone)]
pub struct ProxiesResponse {
    pub proxies: Vec<(String, ProxyEntry)>,
}

/// No name occurs twice among the pairs, as in a map keyed by name.
pub open spec fn distinct_names<V>(s: Seq<(String, V)>) -> bool {
    forall|i: int, j: int| 0 <= i < j < s.len() ==> s[i].0@ != s[j].0@
}

impl ProxiesResponse {
    /// The core sends the proxies as a map keyed by name: each name once.
    pub open spec fn wf(&self) -> bool {
        distinct_names(self.proxies@)
    }
}

/// Hit statistics of a rule.
#[derive(Debug, Clone)]
pub struct RuleExtra {
    pub disabled: bool,
    pub hit_count: u64,
    pub hit_at: Option<String>,
    pub miss_count: u64,
    pub miss_at: Option<String>,
}

/// One rule of the running configuration.
#[derive(Debug, Clone)]
pub struct RuleEntry {
    pub index: usize,
    pub type_: String,
    pub payload: String,
    pub proxy: String,
    pub size: i64,
    pub extra: Option<RuleExtra>,
}

impl RuleExtra {
    /// A field-by-field copy.
    pub fn duplicate(&self) -> (r: RuleExtra)
        ensures
            r == *self,
    {
        RuleExtra {
            disabled: self.disabled,
            hit_count: self.hit_count,
            hit_at: match &self.hit_at { Some(s) => Some(s.clone()), None => None },
            miss_count: self.miss_count,
            miss_at: match &self.miss_at { Some(s) => Some(s.clone()), None => None },
        }
    }
}

impl RuleEntry {
    /// A field-by-field copy.
    pub fn duplicate(&self) -> (r: RuleEntry)
        ensures
            r == *self,
    {
        RuleEntry {
            index: self.index,
            type_: self.type_.clone(),
            payload: self.payload.clone(),
            proxy: self.proxy.clone(),
            size: self.size,
            extra: match &self.extra { Some(e) => Some(e.duplicate()), None => None },
        }
    }
}

/// All rules of the running configuration.
#[derive(Debug, Clone)]
pub struct RulesResponse {
    pub rules: Vec<RuleEntry>,
}

/// What the core knows of one connection: where it comes from and goes to, and how it
/// was matched. Fields the core sends that have no field here are kept in `extra`.
#[derive(Debug, Default)]
pub struct ConnMeta {
    pub network: String,
    pub type_: String,
    pub source_ip: String,
    pub destination_ip: String,
    pub source_geo_ip: Option<Vec<String>>,
    pub destination_geo_ip: Option<Vec<String>>,
    pub source_ip_asn: String,
    pub destination_ip_asn: String,
    pub source_port: String,
    pub destination_port: String,
    pub inbound_ip: String,
    pub inbound_port: String,
    pub inbound_name: String,
    pub inbound_user: String,
    pub rematch_name: String,
    pub host: String,
    pub dns_mode: String,
    pub uid: u64,
    pub process: String,
    pub process_path: String,
    pub special_proxy: String,
    pub special_rules: String,
    pub remote_destination: String,
    pub dscp: u8,
    pub sniff_host: String,
    pub extra: Vec<(String, JsonValue)>,
}

/// One open connection: its identifier, its byte counters and the chain and rule that
/// carry it. Fields the core sends that have no field here are kept in `extra`.
#[derive(Debug, Default)]
pub struct ConnEntry {
    pub id: String,
    pub metadata: ConnMeta,
    pub upload: u64,
    pub download: u64,
    pub start: String,
    pub chains: Vec<String>,
    pub provider_chains: Vec<String>,
    pub rule: String,
    pub rule_payload: String,
    pub extra: Vec<(String, JsonValue)>,
}

/// One frame of the connections stream: the totals and the connections open now.
#[derive(Debug, Default)]
pub struct ConnectionSnapshot {
    pub download_total: u64,
    pub upload_total: u64,
    pub memory: u64,
    pub connections: Vec<ConnEntry>,
}

/// The core's memory use.
#[derive(Debug, Clone, Copy, Default, PartialEq, Eq, Structural)]
pub struct MemorySnapshot {
    pub inuse: u64,
    pub oslimit: u64,
}

/// One structured log line of the core.
#[derive(Debug, Clone)]
pub struct LogLine {
    pub time: String,
    pub level: String,
    pub message: String,
}

/// Traffic rates and totals.
#[derive(Debug, Clone, Copy, PartialEq, Eq, Structural)]
pub struct Traffic {
    pub up: u64,
    pub down: u64,
    pub up_total: u64,
    pub down_total: u64,
}

/// The running configuration as the core reports it; a missing port is 0.
#[derive(Debug)]
pub struct Configs {
    pub mode: String,
    pub log_level: String,
    pub allow_lan: bool,
    pub ipv6: bool,
    pub port: u16,
    pub socks_port: u16,
    pub mixed_port: u16,
    pub bind_address: String,
    pub tun: Option<JsonValue>,
}

/// A byte that stays as it is in a path segment: ASCII letters and digits and `-._~`.
pub open spec fn unreserved(b: u8) -> bool {
    ||| (65 <= b && b <= 90)
    ||| (97 <= b && b <= 122)
    ||| (48 <= b && b <= 57)
    ||| b == 45 || b == 46 || b == 95 || b == 126
}

/// The upper-case hexadecimal digit for `n < 16`.
pub open spec fn hex_digit(n: u8) -> char {
    if n < 10 { ((48 + n) as u8) as char } else { ((55 + n) as u8) as char }
}

/// A byte as it appears in a path segment: itself, or `%` and two hexadecimal digits.
pub open spec fn encoded_byte(b: u8) -> Seq<char> {
    if unreserved(b) { seq![b as char] } else { seq!['%', hex_digit(b / 16), hex_digit(b % 16)] }
}

/// The percent-encoding of a byte string.
pub open spec fn percent_encoded(bytes: Seq<u8>) -> Seq<char>
    decreases bytes.len(),
{
    if bytes.len() == 0 {
        Seq::empty()
    } else {
        percent_encoded(bytes.drop_last()) + encoded_byte(bytes.last())
    }
}

fn hex_char(n: u8) -> (c: char)
    requires
        n < 16,
    ensures
        c == hex_digit(n),
{
    match n {
        0 => '0',
        1 => '1',
        2 => '2',
        3 => '3',
        4 => '4',
        5 => '5',
        6 => '6',
        7 => '7',
        8 => '8',
        9 => '9',
        10 => 'A',
        11 => 'B',
        12 => 'C',
        13 => 'D',
        14 => 'E',
        _ => 'F',
    }
}

/// Encodes a name as one segment of a request path: every byte of its UTF-8 form other
/// than ASCII letters, digits and `-._~` becomes `%XX`.
pub fn encode_path_segment(value: &str) -> (r: String)
    ensures
        r@ == percent_encoded(value.spec_bytes()),
{
    let bytes = value.as_bytes();
    let mut out = String::new();
    let mut i: usize = 0;
    proof { assert(bytes@.subrange(0, 0) =~= Seq::<u8>::empty()); }
    while i < bytes.len()
        invariant
            i <= bytes.len(),
            bytes@ == value.spec_bytes(),
            out@ == percent_encoded(bytes@.subrange(0, i as int)),
        decreases bytes.len() - i,
    {
        let b = bytes[i];
        proof { assert(bytes@.subrange(0, i + 1).drop_last() =~= bytes@.subrange(0, i as int)); }
        let keep = (65 <= b && b <= 90) || (97 <= b && b <= 122) || (48 <= b && b <= 57)
            || b == 45 || b == 46 || b == 95 || b == 126;
        if keep {
            crate::text::push_char(&mut out, b as char);
            proof { assert(out@ =~= percent_encoded(bytes@.subrange(0, i as int)) + encoded_byte(b)); }
        } else {
            crate::text::push_char(&mut out, '%');
            crate::text::push_char(&mut out, hex_char(b / 16));
            crate::text::push_char(&mut out, hex_char(b % 16));
            proof { assert(out@ =~= percent_encoded(bytes@.subrange(0, i as int)) + encoded_byte(b)); }
        }
        i = i + 1;
    }
    proof { assert(bytes@.subrange(0, bytes.len() as int) =~= bytes@); }
    out
}

/// The path of the structured log stream, with every level.
pub const LOGS_PATH: &'static str = "/logs?level=debug&format=structured";

/// The address of the control interface on the local host at `port`.
pub fn base_url(port: u16) -> (r: String)
    ensures
        r@ == "http://127.0.0.1:"@ + decimal(port as nat),
{
    let mut s = String::new();
    push_text(&mut s, "http://127.0.0.1:");
    push_decimal(&mut s, port as u64);
    s
}

/// The address of a stream of the control interface on the local host at `port`.
pub fn ws_url(port: u16, path: &str) -> (r: String)
    ensures
        r@ == "ws://127.0.0.1:"@ + decimal(port as nat) + path@,
{
    let mut s = String::new();
    push_text(&mut s, "ws://127.0.0.1:");
    push_decimal(&mut s, port as u64);
    push_text(&mut s, path);
    s
}

/// The value of the authorization header for a secret.
pub fn bearer(secret: &str) -> (r: String)
    ensures
        r@ == "Bearer "@ + secret@,
{
    let mut s = String::new();
    push_text(&mut s, "Bearer ");
    push_text(&mut s, secret);
    s
}

fn segment_path(prefix: &str, name: &str, suffix: &str) -> (r: String)
    ensures
        r@ == prefix@ + percent_encoded(name.spec_bytes()) + suffix@,
{
    let mut s = String::new();
    push_text(&mut s, prefix);
    let encoded = encode_path_segment(name);
    push_text(&mut s, encoded.as_str());
    push_text(&mut s, suffix);
    s
}

/// The request path of a latency test of one proxy.
pub fn proxy_delay_path(name: &str) -> (r: String)
    ensures
        r@ == "/proxies/"@ + percent_encoded(name.spec_bytes()) + "/delay"@,
{
    segment_path("/proxies/", name, "/delay")
}

/// The request path of a latency test of a whole group.
pub fn group_delay_path(group: &str) -> (r: String)
    ensures
        r@ == "/group/"@ + percent_encoded(group.spec_bytes()) + "/delay"@,
{
    segment_path("/group/", group, "/delay")
}

/// The request path that selects a node of a group.
pub fn proxy_path(group: &str) -> (r: String)
    ensures
        r@ == "/proxies/"@ + percent_encoded(group.spec_bytes()) + ""@,
{
    segment_path("/proxies/", group, "")
}

/// The request path that closes one connection.
pub fn connection_path(id: &str) -> (r: String)
    ensures
        r@ == "/connections/"@ + percent_encoded(id.spec_bytes()) + ""@,
{
    segment_path("/connections/", id, "")
}

// ---------------------------------------------------------------------------
// Errors of the control interface

/// A failed request to the core: the HTTP client failed, the stream failed, the reply
/// did not parse, no core session runs, the URL was refused, or the core answered with
/// a status that is not a success. The outside errors are held as their text.
#[derive(Debug, Clone, PartialEq, Eq)]
pub enum ApiError {
    Http(String),
    Ws(String),
    Json(String),
    NoSession,
    InvalidUrl(String),
    HttpStatus(u16, String),
}

/// The text of an error of the control interface.
pub open spec fn api_error_text(e: ApiError) -> Seq<char> {
    match e {
        ApiError::Http(d) => "HTTP 请求失败: "@ + d@,
        ApiError::Ws(d) => "WebSocket 错误: "@ + d@,
        ApiError::Json(d) => "JSON 解析失败: "@ + d@,
        ApiError::NoSession => "核心会话未建立（未启动或无端口）"@,
        ApiError::InvalidUrl(d) => "非法 URL: "@ + d@,
        ApiError::HttpStatus(code, reason) => "HTTP 状态码 "@ + decimal(code as nat) + ": "@ + reason@,
    }
}

impl ApiError {
    /// The text of the error.
    pub fn message(&self) -> (r: String)
        ensures
            r@ == api_error_text(*self),
    {
        match self {
            ApiError::Http(d) => prefixed("HTTP 请求失败: ", d.as_str()),
            ApiError::Ws(d) => prefixed("WebSocket 错误: ", d.as_str()),
            ApiError::Json(d) => prefixed("JSON 解析失败: ", d.as_str()),
            ApiError::NoSession => String::from_str("核心会话未建立（未启动或无端口）"),
            ApiError::InvalidUrl(d) => prefixed("非法 URL: ", d.as_str()),
            ApiError::HttpStatus(code, reason) => {
                let mut out = String::from_str("HTTP 状态码 ");
                push_decimal(&mut out, *code as u64);
                out.append(": ");
                out.append(reason.as_str());
                out
            },
        }
    }
}

fn prefixed(prefix: &str, detail: &str) -> (r: String)
    ensures
        r@ == prefix@ + detail@,
{
    let mut out = prefix.to_string();
    out.append(detail);
    out
}

/// A status of the HTTP reply: a success (200 to 299) passes, any other is the error
/// with its code and the status text.
pub fn check_status(code: u16, status_text: &str) -> (r: Result<(), ApiError>)
    ensures
        (200 <= code <= 299) ==> r is Ok,
        !(200 <= code <= 299) ==> (r matches Err(ApiError::HttpStatus(c, t)) && c == code && t@ == status_text@),
{
    if 200 <= code && code <= 299 {
        Ok(())
    } else {
        Err(ApiError::HttpStatus(code, status_text.to_string()))
    }
}

} // verus!
