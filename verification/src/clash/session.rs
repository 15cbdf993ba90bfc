//! The control session of the running core: its port and secret, how a secret is made,
//! which port is tried next, how the core is started, and what a change of the
//! configurations does to it.
use vstd::prelude::*;
use vstd::string::*;
use rand::Rng;
use rand::rngs::ThreadRng;
use crate::app::config::ConfigEntry;
use crate::text::{push_text, push_decimal, decimal};

verus! {

/// The control port and secret of the running core.
#[derive(Debug, Clone)]
pub struct ControllerSnapshot {
    pub port: u16,
    pub secret: String,
}

/// The random number generator of the current thread.
#[verifier::external_type_specification]
#[verifier::external_body]
pub struct ExThreadRng(ThreadRng);

/// An ASCII letter or digit.
pub open spec fn ascii_alphanumeric(c: char) -> bool {
    ('A' <= c && c <= 'Z') || ('a' <= c && c <= 'z') || ('0' <= c && c <= '9')
}

/// The generator of the current thread.
///
/// Trusted: calls `rand::thread_rng`; nothing is stated of the generator.
#[verifier::external_body]
fn thread_rng() -> ThreadRng {
    rand::thread_rng()
}

/// One character drawn uniformly from the ASCII letters and digits.
///
/// Trusted: calls `Rng::sample` with `rand::distributions::Alphanumeric`, which draws a
/// byte from `A`-`Z`, `a`-`z`, `0`-`9`; only that range is stated.
#[verifier::external_body]
fn sample_alphanumeric(rng: &mut ThreadRng) -> (c: char)
    ensures
        ascii_alphanumeric(c),
{
    rng.sample(rand::distributions::Alphanumeric) as char
}

/// A fresh controller secret: 16 random ASCII letters and digits.
pub fn generate_secret() -> (r: String)
    ensures
        r@.len() == 16,
        forall|i: int| 0 <= i < 16 ==> ascii_alphanumeric(#[trigger] r@[i]),
{
    let mut rng = thread_rng();
    let mut out = String::new();
    let mut i: usize = 0;
    while i < 16
        invariant
            i <= 16,
            out@.len() == i,
            forall|j: int| 0 <= j < i ==> ascii_alphanumeric(#[trigger] out@[j]),
        decreases 16 - i,
    {
        let c = sample_alphanumeric(&mut rng);
        crate::text::push_char(&mut out, c);
        i = i + 1;
    }
    out
}

/// The first control port tried.
pub const FIRST_CONTROL_PORT: u16 = 20000;

/// The last control port tried before the system picks one.
pub const LAST_CONTROL_PORT: u16 = 22000;

/// Some listener holds port `q`.
pub open spec fn port_held(used: Seq<u16>, q: int) -> bool {
    used.contains(q as u16)
}

/// The next control port to try at or after `from` that no listener holds; the caller
/// tries to bind it and asks again from the next port when that fails.
pub fn next_port_candidate(used: &[u16], from: u16) -> (r: Option<u16>)
    ensures
        match r {
            Some(p) => from <= p <= LAST_CONTROL_PORT && !used@.contains(p)
                && forall|q: int| from <= q < p ==> #[trigger] port_held(used@, q),
            None => forall|q: int| from <= q <= LAST_CONTROL_PORT ==> #[trigger] port_held(used@, q),
        },
{
    if from > LAST_CONTROL_PORT {
        return None;
    }
    let mut p: u16 = from;
    while p <= LAST_CONTROL_PORT
        invariant
            from <= p,
            p <= LAST_CONTROL_PORT + 1,
            forall|q: int| from <= q < p ==> #[trigger] port_held(used@, q),
        decreases LAST_CONTROL_PORT + 1 - p,
    {
        let mut held = false;
        let mut i: usize = 0;
        while i < used.len()
            invariant
                i <= used@.len(),
                held == exists|j: int| 0 <= j < i && used@[j] == p,
            decreases used@.len() - i,
        {
            if used[i] == p {
                held = true;
            }
            i = i + 1;
        }
        if !held {
            proof {
                assert(!used@.contains(p)) by {
                    if used@.contains(p) {
                        let j = choose|j: int| 0 <= j < used@.len() && used@[j] == p;
                        assert(used@[j] == p);
                    }
                }
            }
            return Some(p);
        }
        proof {
            let j = choose|j: int| 0 <= j < used@.len() && used@[j] == p;
            assert(used@.contains(p));
        }
        p = p + 1;
    }
    None
}

/// Some configuration is enabled.
pub open spec fn any_enabled(configs: Seq<ConfigEntry>) -> bool {
    exists|i: int| 0 <= i < configs.len() && #[trigger] configs[i].enabled
}

/// Whether some configuration is enabled, which is when the core is to run.
pub fn has_enabled_config(configs: &[ConfigEntry]) -> (r: bool)
    ensures
        r == any_enabled(configs@),
{
    let mut i: usize = 0;
    while i < configs.len()
        invariant
            i <= configs@.len(),
            forall|j: int| 0 <= j < i ==> !(#[trigger] configs@[j]).enabled,
        decreases configs@.len() - i,
    {
        if configs[i].enabled {
            return true;
        }
        i = i + 1;
    }
    false
}

/// What a change of the configurations does to the core.
#[derive(Debug, Clone, Copy, PartialEq, Eq, Structural)]
pub enum CoreAction {
    Start,
    Restart,
    Stop,
}

/// After a change of the configurations the core runs when one is enabled: it starts, or
/// restarts when it runs already; with none enabled it stops.
pub fn config_change_action(configs: &[ConfigEntry], running: bool) -> (r: CoreAction)
    ensures
        r == (if any_enabled(configs@) {
            if running { CoreAction::Restart } else { CoreAction::Start }
        } else {
            CoreAction::Stop
        }),
{
    if has_enabled_config(configs) {
        if running { CoreAction::Restart } else { CoreAction::Start }
    } else {
        CoreAction::Stop
    }
}

/// The command-line arguments of the core: its working directory, the control address on
/// the local host, and the secret.
pub fn core_arguments(runtime_dir: &str, port: u16, secret: &str) -> (r: Vec<String>)
    ensures
        r@.len() == 6,
        r@[0]@ == "-d"@,
        r@[1]@ == runtime_dir@,
        r@[2]@ == "-ext-ctl"@,
        r@[3]@ == "127.0.0.1:"@ + decimal(port as nat),
        r@[4]@ == "-secret"@,
        r@[5]@ == secret@,
{
    let mut address = String::new();
    push_text(&mut address, "127.0.0.1:");
    push_decimal(&mut address, port as u64);
    let mut args: Vec<String> = Vec::new();
    args.push("-d".to_string());
    args.push(runtime_dir.to_string());
    args.push("-ext-ctl".to_string());
    args.push(address);
    args.push("-secret".to_string());
    args.push(secret.to_string());
    args
}

// ---------------------------------------------------------------------------
// Errors of the core

/// A failure to run the core: a file operation (with what was being done), a document
/// that did not parse (with its name), the merged configuration that could not be
/// written out, the settings that could not become JSON, no core executable, the process
/// that could not start or be supervised, or a poisoned session lock. The outside errors
/// are held as their text.
#[derive(Debug, Clone, PartialEq, Eq)]
pub enum CoreError {
    Io(String, String),
    Parse(String, String),
    Serialize(String),
    Json(String),
    CoreMissing,
    Spawn(String),
    ProcessGuard(String),
    Lock,
}

/// The text of an error of the core.
pub open spec fn core_error_text(e: CoreError) -> Seq<char> {
    match e {
        CoreError::Io(context, d) => context@ + ": "@ + d@,
        CoreError::Parse(context, d) => context@ + ": "@ + d@,
        CoreError::Serialize(d) => "序列化合并配置失败: "@ + d@,
        CoreError::Json(d) => "clash 设置转 JSON 失败: "@ + d@,
        CoreError::CoreMissing => "未找到 clash 核心可执行文件"@,
        CoreError::Spawn(d) => "启动核心失败: "@ + d@,
        CoreError::ProcessGuard(d) => "监管核心进程失败："@ + d@,
        CoreError::Lock => "会话锁被污染"@,
    }
}

fn joined_text(a: &str, b: &str) -> (r: String)
    ensures
        r@ == a@ + b@,
{
    let mut out = a.to_string();
    out.append(b);
    out
}

impl CoreError {
    /// The text of the error.
    pub fn message(&self) -> (r: String)
        ensures
            r@ == core_error_text(*self),
    {
        match self {
            CoreError::Io(context, d) | CoreError::Parse(context, d) => {
                let mut out = joined_text(context.as_str(), ": ");
                out.append(d.as_str());
                out
            },
            CoreError::Serialize(d) => joined_text("序列化合并配置失败: ", d.as_str()),
            CoreError::Json(d) => joined_text("clash 设置转 JSON 失败: ", d.as_str()),
            CoreError::CoreMissing => String::from_str("未找到 clash 核心可执行文件"),
            CoreError::Spawn(d) => joined_text("启动核心失败: ", d.as_str()),
            CoreError::ProcessGuard(d) => joined_text("监管核心进程失败：", d.as_str()),
            CoreError::Lock => String::from_str("会话锁被污染"),
        }
    }
}

} // verus!
