//! The figures of the home page: memory, uptime, proxy address, outbound mode and the
//! address of the web panel.
use vstd::prelude::*;
use vstd::string::*;
use crate::clash::session::ControllerSnapshot;
use crate::controller::tray::{ProxyEndpoint, address_of, proxy_address};
use crate::text::{decimal, push_decimal, push_char, digit_char};

verus! {

/// Bytes as whole mebibytes: `N MB`.
pub open spec fn mb_text(bytes: u64) -> Seq<char> {
    decimal((bytes / 1024 / 1024) as nat) + " MB"@
}

/// Bytes as whole mebibytes, rounded down.
pub fn fmt_mb(bytes: u64) -> (r: String)
    ensures
        r@ == mb_text(bytes),
{
    let mut s = String::new();
    push_decimal(&mut s, bytes / 1024 / 1024);
    s.append(" MB");
    s
}

/// A number below 100 written with two digits.
pub open spec fn two_digits(n: nat) -> Seq<char> {
    seq![digit_char(n / 10), digit_char(n % 10)]
}

/// A duration in seconds as `H:MM:SS`; the hours are not bounded.
pub open spec fn uptime_text(total: u64) -> Seq<char> {
    decimal((total / 3600) as nat) + ":"@ + two_digits(((total % 3600) / 60) as nat) + ":"@
        + two_digits((total % 60) as nat)
}

fn push_two_digits(out: &mut String, n: u64)
    requires
        n < 100,
    ensures
        final(out)@ == old(out)@ + two_digits(n as nat),
{
    push_char(out, crate::text::ascii_digit((n / 10) as u8));
    push_char(out, crate::text::ascii_digit((n % 10) as u8));
}

/// How long the application has run, given in whole seconds, as `H:MM:SS`.
pub fn format_uptime(total_seconds: u64) -> (r: String)
    ensures
        r@ == uptime_text(total_seconds),
{
    let mut s = String::new();
    push_decimal(&mut s, total_seconds / 3600);
    s.append(":");
    push_two_digits(&mut s, (total_seconds % 3600) / 60);
    s.append(":");
    push_two_digits(&mut s, total_seconds % 60);
    s
}

/// The proxy address shown on the home page, or `—` when there is none.
pub fn home_proxy_address(endpoint: &Option<ProxyEndpoint>) -> (r: String)
    ensures
        match endpoint {
            Some(e) => match address_of(e.host@, e.ports) {
                Some(a) => r@ == a,
                None => r@ == "—"@,
            },
            None => r@ == "—"@,
        },
{
    match endpoint {
        Some(e) => match proxy_address(e) {
            Some(a) => a,
            None => String::from_str("—"),
        },
        None => String::from_str("—"),
    }
}

/// The label of an outbound mode: rule, global and direct mode, or `—`.
pub open spec fn mode_label_text(mode: Seq<char>) -> Seq<char> {
    if mode == "rule"@ {
        "规则模式"@
    } else if mode == "global"@ {
        "全局模式"@
    } else if mode == "direct"@ {
        "直连模式"@
    } else {
        "—"@
    }
}

/// The label of the outbound mode the core reports.
pub fn mode_label(mode: &str) -> (r: &'static str)
    ensures
        r@ == mode_label_text(mode@),
{
    if crate::text::text_eq(mode, "rule") {
        "规则模式"
    } else if crate::text::text_eq(mode, "global") {
        "全局模式"
    } else if crate::text::text_eq(mode, "direct") {
        "直连模式"
    } else {
        "—"
    }
}

/// The web panel's address for a control session: the panel served by the core on the
/// loopback address, with host, port and secret of the session in its query.
pub open spec fn panel_url(port: u16, secret: Seq<char>) -> Seq<char> {
    "http://127.0.0.1:"@ + decimal(port as nat) + "/ui/#/setup?hostname=127.0.0.1&port="@
        + decimal(port as nat) + "&secret="@ + secret
}

/// The web panel's address for the current control session.
pub fn zashboard_url(snapshot: &ControllerSnapshot) -> (r: String)
    ensures
        r@ == panel_url(snapshot.port, snapshot.secret@),
{
    let mut s = String::from_str("http://127.0.0.1:");
    push_decimal(&mut s, snapshot.port as u64);
    s.append("/ui/#/setup?hostname=127.0.0.1&port=");
    push_decimal(&mut s, snapshot.port as u64);
    s.append("&secret=");
    s.append(snapshot.secret.as_str());
    s
}

// ---------------------------------------------------------------------------
// Opening the online panel

/// Whether the directory of the online panel holds anything.
#[derive(Debug, Clone, Copy, PartialEq, Eq, Structural)]
pub enum PanelDirectoryState {
    Empty,
    Ready,
}

/// How far the preparation of the online panel has come.
#[derive(Debug, Clone, Copy, PartialEq, Eq, Structural)]
pub enum PanelStage {
    Start,
    CheckDirectory,
    Upgrade,
    Recheck,
    ReadSession,
    Done,
}

/// What the caller does next: read the panel directory, ask the core to download the
/// panel, read the current session, or stop with the result.
#[derive(Debug, PartialEq, Eq)]
pub enum PanelAction {
    ReadDirectory,
    Upgrade,
    ReadSession,
    Finish(Result<String, String>),
}

/// What the caller saw: whether the core ran at the start, the state of the directory
/// (or the error reading it), the result of the download, the current session.
#[derive(Debug)]
pub enum PanelEvent {
    Begin(bool),
    Directory(Result<PanelDirectoryState, String>),
    Upgraded(Result<(), String>),
    Session(Option<ControllerSnapshot>),
}

/// The text of a finished preparation, or of the action still pending.
pub open spec fn finish_view(a: PanelAction) -> Option<Result<Seq<char>, Seq<char>>> {
    match a {
        PanelAction::Finish(Ok(u)) => Some(Ok(u@)),
        PanelAction::Finish(Err(e)) => Some(Err(e@)),
        _ => None,
    }
}

/// The action that a stage waits on.
pub open spec fn pending_action(stage: PanelStage) -> Option<PanelAction> {
    match stage {
        PanelStage::CheckDirectory => Some(PanelAction::ReadDirectory),
        PanelStage::Recheck => Some(PanelAction::ReadDirectory),
        PanelStage::Upgrade => Some(PanelAction::Upgrade),
        PanelStage::ReadSession => Some(PanelAction::ReadSession),
        _ => None,
    }
}

/// One step of preparing the online panel: the panel needs a running core; an empty
/// directory is filled once by the core's download and must then hold something; the URL
/// is built from the session current at the end. An event that does not answer the
/// pending action leaves the stage as it is and asks again.
pub open spec fn panel_transition(stage: PanelStage, event: PanelEvent) -> (PanelStage, Option<Result<Seq<char>, Seq<char>>>, Option<PanelAction>) {
    match (stage, event) {
        (PanelStage::Start, PanelEvent::Begin(false)) => (PanelStage::Done, Some(Err("核心未运行"@)), None),
        (PanelStage::Start, PanelEvent::Begin(true)) => (PanelStage::CheckDirectory, None, Some(PanelAction::ReadDirectory)),
        (PanelStage::CheckDirectory, PanelEvent::Directory(Err(e))) => (PanelStage::Done, Some(Err(e@)), None),
        (PanelStage::CheckDirectory, PanelEvent::Directory(Ok(PanelDirectoryState::Empty))) => (PanelStage::Upgrade, None, Some(PanelAction::Upgrade)),
        (PanelStage::CheckDirectory, PanelEvent::Directory(Ok(PanelDirectoryState::Ready))) => (PanelStage::ReadSession, None, Some(PanelAction::ReadSession)),
        (PanelStage::Upgrade, PanelEvent::Upgraded(Err(e))) => (PanelStage::Done, Some(Err("下载在线面板失败："@ + e@)), None),
        (PanelStage::Upgrade, PanelEvent::Upgraded(Ok(()))) => (PanelStage::Recheck, None, Some(PanelAction::ReadDirectory)),
        (PanelStage::Recheck, PanelEvent::Directory(Err(e))) => (PanelStage::Done, Some(Err(e@)), None),
        (PanelStage::Recheck, PanelEvent::Directory(Ok(PanelDirectoryState::Empty))) => (PanelStage::Done, Some(Err("在线面板下载完成但目录仍为空"@)), None),
        (PanelStage::Recheck, PanelEvent::Directory(Ok(PanelDirectoryState::Ready))) => (PanelStage::ReadSession, None, Some(PanelAction::ReadSession)),
        (PanelStage::ReadSession, PanelEvent::Session(None)) => (PanelStage::Done, Some(Err("核心未运行"@)), None),
        (PanelStage::ReadSession, PanelEvent::Session(Some(snap))) => (PanelStage::Done, Some(Ok(panel_url(snap.port, snap.secret@))), None),
        _ => (stage, None, pending_action(stage)),
    }
}

/// One step of preparing the online panel: the next stage and what to do.
pub fn panel_step(stage: PanelStage, event: PanelEvent) -> (r: (PanelStage, PanelAction))
    ensures
        ({
            let (s, fin, act) = panel_transition(stage, event);
            &&& r.0 == s
            &&& match fin {
                Some(res) => finish_view(r.1) == Some(res),
                None => match act {
                    Some(a) => r.1 == a,
                    None => finish_view(r.1) == Some(Err::<Seq<char>, Seq<char>>("在线面板准备已结束"@)),
                },
            }
        }),
{
    match (stage, event) {
        (PanelStage::Start, PanelEvent::Begin(false)) => (PanelStage::Done, PanelAction::Finish(Err(String::from_str("核心未运行")))),
        (PanelStage::Start, PanelEvent::Begin(true)) => (PanelStage::CheckDirectory, PanelAction::ReadDirectory),
        (PanelStage::CheckDirectory, PanelEvent::Directory(Err(e))) => (PanelStage::Done, PanelAction::Finish(Err(e))),
        (PanelStage::CheckDirectory, PanelEvent::Directory(Ok(PanelDirectoryState::Empty))) => (PanelStage::Upgrade, PanelAction::Upgrade),
        (PanelStage::CheckDirectory, PanelEvent::Directory(Ok(PanelDirectoryState::Ready))) => (PanelStage::ReadSession, PanelAction::ReadSession),
        (PanelStage::Upgrade, PanelEvent::Upgraded(Err(e))) => {
            let mut m = String::from_str("下载在线面板失败：");
            crate::text::push_text(&mut m, e.as_str());
            (PanelStage::Done, PanelAction::Finish(Err(m)))
        }
        (PanelStage::Upgrade, PanelEvent::Upgraded(Ok(()))) => (PanelStage::Recheck, PanelAction::ReadDirectory),
        (PanelStage::Recheck, PanelEvent::Directory(Err(e))) => (PanelStage::Done, PanelAction::Finish(Err(e))),
        (PanelStage::Recheck, PanelEvent::Directory(Ok(PanelDirectoryState::Empty))) => {
            (PanelStage::Done, PanelAction::Finish(Err(String::from_str("在线面板下载完成但目录仍为空"))))
        }
        (PanelStage::Recheck, PanelEvent::Directory(Ok(PanelDirectoryState::Ready))) => (PanelStage::ReadSession, PanelAction::ReadSession),
        (PanelStage::ReadSession, PanelEvent::Session(None)) => (PanelStage::Done, PanelAction::Finish(Err(String::from_str("核心未运行")))),
        (PanelStage::ReadSession, PanelEvent::Session(Some(snap))) => (PanelStage::Done, PanelAction::Finish(Ok(zashboard_url(&snap)))),
        (s, _) => {
            let a = match s {
                PanelStage::CheckDirectory => PanelAction::ReadDirectory,
                PanelStage::Recheck => PanelAction::ReadDirectory,
                PanelStage::Upgrade => PanelAction::Upgrade,
                PanelStage::ReadSession => PanelAction::ReadSession,
                _ => PanelAction::Finish(Err(String::from_str("在线面板准备已结束"))),
            };
            (s, a)
        }
    }
}

} // verus!
