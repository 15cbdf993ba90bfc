use clash_ui::clash::api::MemorySnapshot;
use clash_ui::clash::streams::{
    latest_memory, mark_streams_stopped, new_control, reset_streams, start_streams, stream_is_current,
    update_memory, ws_step,
    StreamControl, WsAction, WsEvent, WsFrame, WsStage,
};

#[test]
fn streams_start_once_per_generation() {
    let mut control = new_control();
    assert_eq!(start_streams(&mut control), Some(0));
    assert_eq!(start_streams(&mut control), None);
    reset_streams(&mut control);
    assert!(!stream_is_current(&control, 0));
    assert_eq!(start_streams(&mut control), Some(1));
    mark_streams_stopped(&mut control, 0);
    assert!(control.started);
    mark_streams_stopped(&mut control, 1);
    assert!(!control.started);
    let mut top = StreamControl { generation: u64::MAX, started: true, latest_memory: None };
    reset_streams(&mut top);
    assert_eq!(top, StreamControl { generation: 0, started: false, latest_memory: None });
}

#[test]
fn stream_loop_connects_reads_and_reconnects() {
    let (s, a) = ws_step(WsStage::Start, WsEvent::Checked { current: true, core_running: true });
    assert_eq!((s, a), (WsStage::Building, WsAction::BuildRequest));
    assert_eq!(ws_step(s, WsEvent::RequestBuilt(false)), (WsStage::Pausing, WsAction::Sleep));
    assert_eq!(ws_step(s, WsEvent::RequestBuilt(true)), (WsStage::Connecting, WsAction::Connect));
    assert_eq!(ws_step(WsStage::Connecting, WsEvent::Connected), (WsStage::Reading, WsAction::ReadNext));
    assert_eq!(
        ws_step(WsStage::Reading, WsEvent::Frame { current: true, frame: WsFrame::Value }),
        (WsStage::Reading, WsAction::Deliver)
    );
    assert_eq!(
        ws_step(WsStage::Reading, WsEvent::Frame { current: true, frame: WsFrame::Unparsable }),
        (WsStage::Reading, WsAction::ReadNext)
    );
    assert_eq!(
        ws_step(WsStage::Reading, WsEvent::Frame { current: true, frame: WsFrame::Close }),
        (WsStage::Disconnected, WsAction::Recheck)
    );
    assert_eq!(
        ws_step(WsStage::Disconnected, WsEvent::Rechecked { current: true, core_running: true }),
        (WsStage::Pausing, WsAction::Sleep)
    );
    assert_eq!(ws_step(WsStage::Pausing, WsEvent::Slept), (WsStage::Start, WsAction::Check));
}

#[test]
fn stream_loop_ends_when_stale_or_core_stopped() {
    assert_eq!(
        ws_step(WsStage::Start, WsEvent::Checked { current: true, core_running: false }),
        (WsStage::Done, WsAction::Exit { mark_stopped: true })
    );
    assert_eq!(
        ws_step(WsStage::Connecting, WsEvent::ConnectFailed { current: false, core_running: false }),
        (WsStage::Done, WsAction::Exit { mark_stopped: false })
    );
    assert_eq!(
        ws_step(WsStage::Reading, WsEvent::Frame { current: false, frame: WsFrame::Value }),
        (WsStage::Done, WsAction::Exit { mark_stopped: false })
    );
    assert_eq!(ws_step(WsStage::Reading, WsEvent::Slept), (WsStage::Reading, WsAction::ReadNext));
    assert_eq!(ws_step(WsStage::Done, WsEvent::Connected), (WsStage::Done, WsAction::Exit { mark_stopped: false }));
}

#[test]
fn reset_clears_the_cached_memory_snapshot() {
    let mut control = new_control();
    assert_eq!(latest_memory(&control), None);
    assert_eq!(start_streams(&mut control), Some(0));
    update_memory(&mut control, MemorySnapshot { inuse: 1024, oslimit: 0 });
    assert_eq!(latest_memory(&control), Some(MemorySnapshot { inuse: 1024, oslimit: 0 }));
    reset_streams(&mut control);
    assert_eq!(latest_memory(&control), None);
    assert!(!control.started);
    assert_eq!(control.generation, 1);
}
