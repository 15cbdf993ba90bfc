//! The live streams of the core (connections, logs, traffic, memory): which generation
//! of streams is current, and the decisions of the loop that keeps one stream connected.
use vstd::prelude::*;
use crate::clash::api::MemorySnapshot;

verus! {

/// The control shared by the stream loops: the current generation (a restart of the core
/// starts a new one), whether the loops of that generation run, and the latest memory
/// snapshot the memory stream delivered, if any.
#[derive(Debug, Clone, Copy, PartialEq, Eq, Structural)]
pub struct StreamControl {
    pub generation: u64,
    pub started: bool,
    pub latest_memory: Option<MemorySnapshot>,
}

/// No streams yet, and no memory snapshot.
pub fn new_control() -> (r: StreamControl)
    ensures
        r == (StreamControl { generation: 0, started: false, latest_memory: None }),
{
    StreamControl { generation: 0, started: false, latest_memory: None }
}

/// The generation after a reset: one more, wrapping at the top of `u64`.
pub open spec fn generation_after(g: u64) -> u64 {
    if g == u64::MAX { 0 } else { (g + 1) as u64 }
}

/// Ends the current generation: the loops running see they are no longer current, the
/// streams may be started again, and the cached memory snapshot of the old core is
/// dropped.
pub fn reset_streams(control: &mut StreamControl)
    ensures
        *final(control) == (StreamControl {
            generation: generation_after(old(control).generation),
            started: false,
            latest_memory: None,
        }),
{
    control.generation = control.generation.wrapping_add(1);
    control.started = false;
    control.latest_memory = None;
}

/// Keeps a snapshot delivered by the memory stream as the latest one.
pub fn update_memory(control: &mut StreamControl, snapshot: MemorySnapshot)
    ensures
        *final(control) == (StreamControl { latest_memory: Some(snapshot), ..*old(control) }),
{
    control.latest_memory = Some(snapshot);
}

/// The latest memory snapshot of the current core, if the memory stream delivered one
/// since the last reset.
pub fn latest_memory(control: &StreamControl) -> (r: Option<MemorySnapshot>)
    ensures
        r == control.latest_memory,
{
    control.latest_memory
}

/// Starts the loops once per generation: returns the generation they run under, or
/// nothing when they already run.
pub fn start_streams(control: &mut StreamControl) -> (r: Option<u64>)
    ensures
        old(control).started ==> r is None && *final(control) == *old(control),
        !old(control).started ==> r == Some(old(control).generation)
            && *final(control) == (StreamControl { started: true, ..*old(control) }),
{
    if control.started {
        return None;
    }
    control.started = true;
    Some(control.generation)
}

/// Whether a loop of `generation` is still current.
pub fn stream_is_current(control: &StreamControl, generation: u64) -> (r: bool)
    ensures
        r == (control.generation == generation),
{
    control.generation == generation
}

/// A loop of `generation` that found the core stopped: if it is still current, the
/// streams count as stopped so that the next start runs them again.
pub fn mark_streams_stopped(control: &mut StreamControl, generation: u64)
    ensures
        old(control).generation == generation ==> *final(control) == (StreamControl { started: false, ..*old(control) }),
        old(control).generation != generation ==> *final(control) == *old(control),
{
    if control.generation == generation {
        control.started = false;
    }
}

/// A reset always makes the loops of the generation before it stale.
pub proof fn law_reset_makes_old_loops_stale(control: StreamControl)
    ensures
        generation_after(control.generation) != control.generation,
{
}

/// Where a stream loop is.
#[derive(Debug, Clone, Copy, PartialEq, Eq, Structural)]
pub enum WsStage {
    Start,
    Building,
    Connecting,
    Reading,
    Disconnected,
    Pausing,
    Done,
}

/// A frame read from the stream: a value that parsed, text that did not, a close frame,
/// another frame, a read failure, or the end of the stream.
#[derive(Debug, Clone, Copy, PartialEq, Eq, Structural)]
pub enum WsFrame {
    Value,
    Unparsable,
    Close,
    Other,
    Failure,
    End,
}

/// What the loop saw: whether its generation is current and the core runs (at the start
/// of a round, after a failed connection and after a disconnection), whether the request
/// could be built, that the connection opened, a frame (and whether the generation was
/// current when it came), and the end of a pause.
#[derive(Debug, Clone, Copy, PartialEq, Eq, Structural)]
pub enum WsEvent {
    Checked { current: bool, core_running: bool },
    RequestBuilt(bool),
    Connected,
    ConnectFailed { current: bool, core_running: bool },
    Frame { current: bool, frame: WsFrame },
    Rechecked { current: bool, core_running: bool },
    Slept,
}

/// What the loop does next: check its generation and the core, build the request,
/// connect, read the next frame, hand the parsed value on (and read the next frame),
/// check its generation and the core again after a disconnection, pause a second, or
/// end (marking the streams stopped when the core stopped).
#[derive(Debug, Clone, Copy, PartialEq, Eq, Structural)]
pub enum WsAction {
    Check,
    BuildRequest,
    Connect,
    ReadNext,
    Deliver,
    Recheck,
    Sleep,
    Exit { mark_stopped: bool },
}

/// The action a stage waits on.
pub open spec fn ws_pending(stage: WsStage) -> WsAction {
    match stage {
        WsStage::Start => WsAction::Check,
        WsStage::Building => WsAction::BuildRequest,
        WsStage::Connecting => WsAction::Connect,
        WsStage::Reading => WsAction::ReadNext,
        WsStage::Disconnected => WsAction::Recheck,
        WsStage::Pausing => WsAction::Sleep,
        WsStage::Done => WsAction::Exit { mark_stopped: false },
    }
}

/// After a check: a stale loop ends, a loop whose core stopped ends and marks the streams
/// stopped, and a loop that may go on does `next` in `stage`.
pub open spec fn gate(current: bool, core_running: bool, stage: WsStage, next: WsAction) -> (WsStage, WsAction) {
    if !current {
        (WsStage::Done, WsAction::Exit { mark_stopped: false })
    } else if !core_running {
        (WsStage::Done, WsAction::Exit { mark_stopped: true })
    } else {
        (stage, next)
    }
}

/// One step of the loop that keeps a stream connected. Each round checks that the loop
/// is current and the core runs, builds the request (pausing a second when it cannot),
/// connects (on failure: end when stale or when the core stopped, else pause), then reads
/// frames: a stale loop ends at once, parsed values are handed on, text that does not
/// parse and other frames are skipped, and a close, a failure or the end of the stream
/// leads to a check before pausing and reconnecting. An event that does not answer the
/// pending action leaves the stage as it is and asks again.
pub open spec fn ws_transition(stage: WsStage, event: WsEvent) -> (WsStage, WsAction) {
    match (stage, event) {
        (WsStage::Start, WsEvent::Checked { current, core_running }) =>
            gate(current, core_running, WsStage::Building, WsAction::BuildRequest),
        (WsStage::Building, WsEvent::RequestBuilt(ok)) =>
            if ok { (WsStage::Connecting, WsAction::Connect) } else { (WsStage::Pausing, WsAction::Sleep) },
        (WsStage::Connecting, WsEvent::Connected) => (WsStage::Reading, WsAction::ReadNext),
        (WsStage::Connecting, WsEvent::ConnectFailed { current, core_running }) =>
            gate(current, core_running, WsStage::Pausing, WsAction::Sleep),
        (WsStage::Reading, WsEvent::Frame { current, frame }) =>
            if !current {
                (WsStage::Done, WsAction::Exit { mark_stopped: false })
            } else {
                match frame {
                    WsFrame::Value => (WsStage::Reading, WsAction::Deliver),
                    WsFrame::Unparsable => (WsStage::Reading, WsAction::ReadNext),
                    WsFrame::Other => (WsStage::Reading, WsAction::ReadNext),
                    _ => (WsStage::Disconnected, WsAction::Recheck),
                }
            },
        (WsStage::Disconnected, WsEvent::Rechecked { current, core_running }) =>
            gate(current, core_running, WsStage::Pausing, WsAction::Sleep),
        (WsStage::Pausing, WsEvent::Slept) => (WsStage::Start, WsAction::Check),
        _ => (stage, ws_pending(stage)),
    }
}

fn gate_step(current: bool, core_running: bool, stage: WsStage, next: WsAction) -> (r: (WsStage, WsAction))
    ensures
        r == gate(current, core_running, stage, next),
{
    if !current {
        (WsStage::Done, WsAction::Exit { mark_stopped: false })
    } else if !core_running {
        (WsStage::Done, WsAction::Exit { mark_stopped: true })
    } else {
        (stage, next)
    }
}

/// One step of the stream loop: the next stage and what to do.
pub fn ws_step(stage: WsStage, event: WsEvent) -> (r: (WsStage, WsAction))
    ensures
        r == ws_transition(stage, event),
{
    match (stage, event) {
        (WsStage::Start, WsEvent::Checked { current, core_running }) =>
            gate_step(current, core_running, WsStage::Building, WsAction::BuildRequest),
        (WsStage::Building, WsEvent::RequestBuilt(ok)) =>
            if ok { (WsStage::Connecting, WsAction::Connect) } else { (WsStage::Pausing, WsAction::Sleep) },
        (WsStage::Connecting, WsEvent::Connected) => (WsStage::Reading, WsAction::ReadNext),
        (WsStage::Connecting, WsEvent::ConnectFailed { current, core_running }) =>
            gate_step(current, core_running, WsStage::Pausing, WsAction::Sleep),
        (WsStage::Reading, WsEvent::Frame { current, frame }) => {
            if !current {
                (WsStage::Done, WsAction::Exit { mark_stopped: false })
            } else {
                match frame {
                    WsFrame::Value => (WsStage::Reading, WsAction::Deliver),
                    WsFrame::Unparsable | WsFrame::Other => (WsStage::Reading, WsAction::ReadNext),
                    _ => (WsStage::Disconnected, WsAction::Recheck),
                }
            }
        },
        (WsStage::Disconnected, WsEvent::Rechecked { current, core_running }) =>
            gate_step(current, core_running, WsStage::Pausing, WsAction::Sleep),
        (WsStage::Pausing, WsEvent::Slept) => (WsStage::Start, WsAction::Check),
        (s, _) => {
            let a = match s {
                WsStage::Start => WsAction::Check,
                WsStage::Building => WsAction::BuildRequest,
                WsStage::Connecting => WsAction::Connect,
                WsStage::Reading => WsAction::ReadNext,
                WsStage::Disconnected => WsAction::Recheck,
                WsStage::Pausing => WsAction::Sleep,
                WsStage::Done => WsAction::Exit { mark_stopped: false },
            };
            (s, a)
        },
    }
}

/// A stream hands a value on only while reading, for a frame that parsed and came while
/// its generation was current.
pub proof fn law_only_current_values_are_delivered(stage: WsStage, event: WsEvent)
    ensures
        ws_transition(stage, event).1 == WsAction::Deliver
            ==> stage == WsStage::Reading && event == (WsEvent::Frame { current: true, frame: WsFrame::Value }),
{
}

/// A stream marks the streams stopped only when its generation is current and it found
/// the core stopped.
pub proof fn law_stopped_only_without_core(stage: WsStage, event: WsEvent)
    ensures
        ws_transition(stage, event).1 == (WsAction::Exit { mark_stopped: true }) ==> (
            event == (WsEvent::Checked { current: true, core_running: false })
            || event == (WsEvent::ConnectFailed { current: true, core_running: false })
            || event == (WsEvent::Rechecked { current: true, core_running: false })
        ),
{
}

/// A loop that learns its generation is stale ends at once, without touching the
/// streams, whatever it was waiting for.
pub proof fn law_stale_loop_ends(stage: WsStage, core_running: bool, frame: WsFrame)
    ensures
        stage == WsStage::Start ==> ws_transition(stage, WsEvent::Checked { current: false, core_running })
            == (WsStage::Done, WsAction::Exit { mark_stopped: false }),
        stage == WsStage::Connecting ==> ws_transition(stage, WsEvent::ConnectFailed { current: false, core_running })
            == (WsStage::Done, WsAction::Exit { mark_stopped: false }),
        stage == WsStage::Reading ==> ws_transition(stage, WsEvent::Frame { current: false, frame })
            == (WsStage::Done, WsAction::Exit { mark_stopped: false }),
        stage == WsStage::Disconnected ==> ws_transition(stage, WsEvent::Rechecked { current: false, core_running })
            == (WsStage::Done, WsAction::Exit { mark_stopped: false }),
{
}

/// While the loop is current, a stream that ended, failed or was closed is never read
/// again: the loop leaves reading for a check of the core before it pauses and connects
/// anew. Only a parsed value or a frame that is skipped keeps it reading.
pub proof fn law_finished_stream_is_not_read_again(frame: WsFrame)
    ensures
        frame == WsFrame::End || frame == WsFrame::Failure || frame == WsFrame::Close ==>
            ws_transition(WsStage::Reading, WsEvent::Frame { current: true, frame })
                == (WsStage::Disconnected, WsAction::Recheck),
        ws_transition(WsStage::Reading, WsEvent::Frame { current: true, frame }).0 == WsStage::Reading
            ==> frame == WsFrame::Value || frame == WsFrame::Unparsable || frame == WsFrame::Other,
        ws_transition(WsStage::Disconnected, WsEvent::Rechecked { current: true, core_running: true })
            == (WsStage::Pausing, WsAction::Sleep),
        ws_transition(WsStage::Pausing, WsEvent::Slept) == (WsStage::Start, WsAction::Check),
{
}

/// Once ended, a loop stays ended whatever it is told.
pub proof fn law_done_is_final(event: WsEvent)
    ensures
        ws_transition(WsStage::Done, event) == (WsStage::Done, WsAction::Exit { mark_stopped: false }),
{
}

} // verus!
