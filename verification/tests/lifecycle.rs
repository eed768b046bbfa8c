use audio_bridge::graph::{AudioGraphNode, BridgeError, CaptureOutcome};
use audio_bridge::handle::{HandleError, HandleTable};
use audio_bridge::lifecycle::{
    audio_init, AudioWorker, BridgeAction, BridgeEvent, CaptureRequest, MODULE_COUNT,
};
use audio_bridge::processor::{ProcessorNode, Outcome};
use audio_bridge::routine::{Routine, Sink, WasmAudioProcessor};

fn sink() -> WasmAudioProcessor {
    WasmAudioProcessor(Routine::Sink(Sink {}))
}

fn request() -> BridgeAction {
    BridgeAction::RequestCapture { request: CaptureRequest { audio: true, video: false } }
}

fn granted(stream: u64) -> BridgeEvent {
    BridgeEvent::Capture { outcome: CaptureOutcome::Granted { stream, channels: 2 } }
}

fn bring_up(worker: &mut AudioWorker, table: &mut HandleTable, routine: WasmAudioProcessor) -> u64 {
    let mut action = worker.step(table, BridgeEvent::Start { routine });
    while let BridgeAction::LoadModule { .. } = action {
        action = worker.step(table, BridgeEvent::ModuleLoaded);
    }
    assert_eq!(action, request());
    match worker.step(table, granted(5)) {
        BridgeAction::StartRendering { handle } => handle,
        other => panic!("the bridge did not come up: {:?}", other),
    }
}

#[test]
fn a_new_bridge_is_at_rest() {
    let worker = audio_init();
    assert!(!worker.is_live());
    assert_eq!(worker.failure(), None);
    assert_eq!(worker.modules_loaded(), 0);
    assert_eq!(worker.graph().node_count(), 0);
}

#[test]
fn set_up_loads_each_module_then_asks_for_input_then_builds_the_graph() {
    let mut worker = audio_init();
    let mut table = HandleTable::new();
    assert_eq!(MODULE_COUNT, 2);
    assert_eq!(
        worker.step(&mut table, BridgeEvent::Start { routine: sink() }),
        BridgeAction::LoadModule { index: 0 }
    );
    assert_eq!(
        worker.step(&mut table, BridgeEvent::ModuleLoaded),
        BridgeAction::LoadModule { index: 1 }
    );
    assert_eq!(worker.modules_loaded(), 1);
    assert_eq!(worker.step(&mut table, BridgeEvent::ModuleLoaded), request());
    assert_eq!(worker.modules_loaded(), 2);
    assert!(!worker.is_live());
    let action = worker.step(
        &mut table,
        BridgeEvent::Capture { outcome: CaptureOutcome::Granted { stream: 31, channels: 1 } },
    );
    let handle = match action {
        BridgeAction::StartRendering { handle } => handle,
        other => panic!("unexpected action {:?}", other),
    };
    assert!(worker.is_live());
    let graph = worker.graph();
    assert!(graph.is_live());
    assert_eq!(graph.node_count(), 3);
    assert_eq!(graph.node(0), Some(AudioGraphNode::Source { stream: 31, channels: 1 }));
    assert_eq!(graph.node(1), Some(AudioGraphNode::Processor { handle, channels: 1 }));
    assert_eq!(graph.node(2), Some(AudioGraphNode::Sink { channels: 1 }));
    assert_eq!(graph.connection_count(), 2);
    assert!(graph.is_connected(0, 1));
    assert!(graph.is_connected(1, 2));
    assert_eq!(WasmAudioProcessor::unpack(&mut table, handle), Ok(sink()));
}

#[test]
fn the_rendering_side_runs_the_routine_that_the_bridge_was_started_with() {
    let mut worker = audio_init();
    let mut table = HandleTable::new();
    let routine = WasmAudioProcessor(Routine::Counter { count: 0, limit: 3 });
    let handle = bring_up(&mut worker, &mut table, routine);
    let mut node = ProcessorNode::new(handle);
    let mut block = vec![0u32; 128];
    let outcomes: Vec<Outcome> = (0..5).map(|_| node.render(&mut table, &mut block)).collect();
    assert_eq!(
        outcomes,
        vec![Outcome::Continue, Outcome::Continue, Outcome::Continue, Outcome::Stop, Outcome::Idle]
    );
    assert_eq!(node.invocations, 4);
}

#[test]
fn a_module_that_fails_to_load_ends_the_bridge() {
    let mut worker = audio_init();
    let mut table = HandleTable::new();
    let _ = worker.step(&mut table, BridgeEvent::Start { routine: sink() });
    let _ = worker.step(&mut table, BridgeEvent::ModuleLoaded);
    assert_eq!(
        worker.step(&mut table, BridgeEvent::ModuleFailed),
        BridgeAction::Report { error: BridgeError::ModuleLoadFailure }
    );
    assert_eq!(worker.failure(), Some(BridgeError::ModuleLoadFailure));
    assert!(!worker.is_live());
    assert_eq!(worker.graph().node_count(), 0);
}

#[test]
fn denied_input_ends_the_bridge() {
    let mut worker = audio_init();
    let mut table = HandleTable::new();
    let _ = worker.step(&mut table, BridgeEvent::Start { routine: sink() });
    let _ = worker.step(&mut table, BridgeEvent::ModuleLoaded);
    let _ = worker.step(&mut table, BridgeEvent::ModuleLoaded);
    assert_eq!(
        worker.step(&mut table, BridgeEvent::Capture { outcome: CaptureOutcome::Denied }),
        BridgeAction::Report { error: BridgeError::CaptureUnavailable }
    );
    assert_eq!(worker.failure(), Some(BridgeError::CaptureUnavailable));
    assert!(!worker.is_live());
    assert_eq!(worker.graph().node_count(), 0);
    assert_eq!(worker.graph().connection_count(), 0);
    // nothing was parked
    assert_eq!(WasmAudioProcessor::unpack(&mut table, 0), Err(HandleError::InvalidHandle));
}

#[test]
fn a_failed_bridge_takes_no_further_event() {
    let mut worker = audio_init();
    let mut table = HandleTable::new();
    let _ = worker.step(&mut table, BridgeEvent::Start { routine: sink() });
    let _ = worker.step(&mut table, BridgeEvent::ModuleFailed);
    assert_eq!(
        worker.step(&mut table, BridgeEvent::Start { routine: sink() }),
        BridgeAction::Rejected
    );
    assert_eq!(worker.step(&mut table, BridgeEvent::ModuleLoaded), BridgeAction::Rejected);
    assert_eq!(worker.step(&mut table, BridgeEvent::ModuleFailed), BridgeAction::Rejected);
    assert_eq!(
        worker.step(&mut table, BridgeEvent::Capture { outcome: CaptureOutcome::Denied }),
        BridgeAction::Rejected
    );
    assert_eq!(worker.step(&mut table, BridgeEvent::Teardown), BridgeAction::Rejected);
    assert_eq!(worker.step(&mut table, granted(8)), BridgeAction::ReleaseCapture { stream: 8 });
    assert_eq!(worker.failure(), Some(BridgeError::ModuleLoadFailure));
    assert_eq!(worker.modules_loaded(), 0);
}

#[test]
fn teardown_disconnects_the_graph_and_releases_the_input() {
    let mut worker = audio_init();
    let mut table = HandleTable::new();
    let handle = bring_up(&mut worker, &mut table, sink());
    assert_eq!(
        worker.step(&mut table, BridgeEvent::Teardown),
        BridgeAction::ReleaseCapture { stream: 5 }
    );
    assert!(!worker.is_live());
    assert_eq!(worker.failure(), None);
    assert_eq!(worker.graph().connection_count(), 0);
    assert!(!worker.graph().is_live());
    // the routine that nobody redeemed is gone with the bridge
    assert_eq!(WasmAudioProcessor::unpack(&mut table, handle), Err(HandleError::DoubleUnpack));
    let mut late = ProcessorNode::new(handle);
    let mut block = vec![0u32; 8];
    assert_eq!(late.render(&mut table, &mut block), Outcome::Fault(HandleError::DoubleUnpack));
}

#[test]
fn teardown_after_the_routine_was_redeemed_changes_nothing_in_the_table() {
    let mut worker = audio_init();
    let mut table = HandleTable::new();
    let handle = bring_up(&mut worker, &mut table, sink());
    let mut node = ProcessorNode::new(handle);
    let mut block = vec![3u32; 8];
    assert_eq!(node.render(&mut table, &mut block), Outcome::Continue);
    assert_eq!(
        worker.step(&mut table, BridgeEvent::Teardown),
        BridgeAction::ReleaseCapture { stream: 5 }
    );
    assert_eq!(node.render(&mut table, &mut block), Outcome::Continue);
    assert_eq!(WasmAudioProcessor::unpack(&mut table, handle), Err(HandleError::DoubleUnpack));
}

#[test]
fn a_second_start_in_one_session_loads_no_module_again() {
    let mut worker = audio_init();
    let mut table = HandleTable::new();
    let first = bring_up(&mut worker, &mut table, sink());
    let _ = worker.step(&mut table, BridgeEvent::Teardown);
    assert_eq!(worker.modules_loaded(), MODULE_COUNT);
    assert_eq!(worker.step(&mut table, BridgeEvent::Start { routine: sink() }), request());
    assert_eq!(worker.modules_loaded(), MODULE_COUNT);
    let second = match worker.step(&mut table, granted(6)) {
        BridgeAction::StartRendering { handle } => handle,
        other => panic!("unexpected action {:?}", other),
    };
    assert_ne!(first, second);
    assert!(worker.is_live());
    assert_eq!(worker.graph().node_count(), 3);
    assert_eq!(worker.graph().node(0), Some(AudioGraphNode::Source { stream: 6, channels: 2 }));
}

#[test]
fn each_module_is_asked_for_once_in_a_long_history() {
    let mut worker = audio_init();
    let mut table = HandleTable::new();
    let mut asked = vec![0u32; MODULE_COUNT as usize];
    let mut seed: u32 = 12345;
    for _ in 0..400 {
        seed = seed.wrapping_mul(1_103_515_245).wrapping_add(12345);
        let event = match (seed >> 16) % 5 {
            0 => BridgeEvent::Start { routine: sink() },
            1 => BridgeEvent::ModuleLoaded,
            2 => granted(u64::from(seed >> 24)),
            3 => BridgeEvent::Teardown,
            _ => BridgeEvent::ModuleLoaded,
        };
        if let BridgeAction::LoadModule { index } = worker.step(&mut table, event) {
            asked[index as usize] += 1;
        }
    }
    assert_eq!(asked, vec![1, 1]);
}

#[test]
fn a_start_while_set_up_is_under_way_is_rejected() {
    let mut worker = audio_init();
    let mut table = HandleTable::new();
    let _ = worker.step(&mut table, BridgeEvent::Start { routine: sink() });
    assert_eq!(
        worker.step(&mut table, BridgeEvent::Start { routine: sink() }),
        BridgeAction::Rejected
    );
    assert_eq!(
        worker.step(&mut table, BridgeEvent::ModuleLoaded),
        BridgeAction::LoadModule { index: 1 }
    );
    let _ = worker.step(&mut table, BridgeEvent::ModuleLoaded);
    assert_eq!(
        worker.step(&mut table, BridgeEvent::Start { routine: sink() }),
        BridgeAction::Rejected
    );
    let handle = match worker.step(&mut table, granted(2)) {
        BridgeAction::StartRendering { handle } => handle,
        other => panic!("unexpected action {:?}", other),
    };
    assert_eq!(
        worker.step(&mut table, BridgeEvent::Start { routine: sink() }),
        BridgeAction::Rejected
    );
    assert!(worker.is_live());
    assert_eq!(WasmAudioProcessor::unpack(&mut table, handle), Ok(sink()));
}

#[test]
fn events_that_do_not_fit_are_rejected() {
    let mut worker = audio_init();
    let mut table = HandleTable::new();
    assert_eq!(worker.step(&mut table, BridgeEvent::ModuleLoaded), BridgeAction::Rejected);
    assert_eq!(worker.step(&mut table, BridgeEvent::ModuleFailed), BridgeAction::Rejected);
    assert_eq!(worker.step(&mut table, BridgeEvent::Teardown), BridgeAction::Rejected);
    assert_eq!(
        worker.step(&mut table, BridgeEvent::Capture { outcome: CaptureOutcome::Denied }),
        BridgeAction::Rejected
    );
    assert_eq!(worker.failure(), None);
    let _ = worker.step(&mut table, BridgeEvent::Start { routine: sink() });
    assert_eq!(worker.step(&mut table, BridgeEvent::Teardown), BridgeAction::Rejected);
    assert_eq!(
        worker.step(&mut table, BridgeEvent::Capture { outcome: CaptureOutcome::Denied }),
        BridgeAction::Rejected
    );
    let _ = worker.step(&mut table, BridgeEvent::ModuleLoaded);
    let _ = worker.step(&mut table, BridgeEvent::ModuleLoaded);
    assert_eq!(worker.step(&mut table, BridgeEvent::ModuleLoaded), BridgeAction::Rejected);
    assert_eq!(worker.step(&mut table, BridgeEvent::ModuleFailed), BridgeAction::Rejected);
    assert_eq!(worker.step(&mut table, BridgeEvent::Teardown), BridgeAction::Rejected);
    assert_eq!(worker.failure(), None);
    assert_eq!(worker.modules_loaded(), 2);
}

#[test]
fn input_that_nobody_waits_for_is_released() {
    let mut worker = audio_init();
    let mut table = HandleTable::new();
    assert_eq!(worker.step(&mut table, granted(3)), BridgeAction::ReleaseCapture { stream: 3 });
    let _ = worker.step(&mut table, BridgeEvent::Start { routine: sink() });
    assert_eq!(worker.step(&mut table, granted(4)), BridgeAction::ReleaseCapture { stream: 4 });
    assert_eq!(worker.modules_loaded(), 0);
    let _ = worker.step(&mut table, BridgeEvent::ModuleLoaded);
    let _ = worker.step(&mut table, BridgeEvent::ModuleLoaded);
    let _ = worker.step(&mut table, granted(5));
    assert!(worker.is_live());
    assert_eq!(worker.step(&mut table, granted(6)), BridgeAction::ReleaseCapture { stream: 6 });
    assert!(worker.is_live());
    assert_eq!(worker.graph().node(0), Some(AudioGraphNode::Source { stream: 5, channels: 2 }));
}
