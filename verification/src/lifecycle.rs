//! The bridge lifecycle controller: the decisions between the outside steps of
//! bringing a bridge up and taking it down again.
//!
//! The controller never does the outside work itself. It is told what happened
//! (an event) and answers with what has to be done next (an action): load a
//! module, ask for live input, start rendering, release the input.

use vstd::prelude::*;
use crate::graph::{
    wasm_audio_node,
    AudioGraph,
    AudioGraphNode,
    BridgeError,
    CaptureOutcome,
    GraphView,
};
use crate::handle::{HandleTable, OpaqueHandle, TableView};
use crate::reach::{lemma_new_edge_closes_loop, lemma_reaches_enters, reaches, Edge};
use crate::routine::WasmAudioProcessor;

verus! {

/// Number of module artifacts that the rendering context needs before a
/// processor node can be made.
pub const MODULE_COUNT: u32 = 2;

/// What kind of live input a capture request asks for.
#[derive(PartialEq, Eq, Debug, Clone, Copy)]
pub struct CaptureRequest {
    pub audio: bool,
    pub video: bool,
}

/// Where a bridge stands in its lifecycle.
#[derive(PartialEq, Eq, Debug)]
pub enum Phase {
    /// Nothing is set up and nothing is under way.
    Idle,
    /// A module load has been asked for and has not been answered.
    LoadingModule { routine: WasmAudioProcessor },
    /// A capture request has been made and has not been answered.
    AwaitingCapture { routine: WasmAudioProcessor },
    /// The graph is committed; `handle` stands for the routine and `stream` is
    /// the live input.
    Live { handle: OpaqueHandle, stream: u64 },
    /// Set-up failed. This bridge is of no further use.
    Failed { error: BridgeError },
}

/// What the outside world reports to the controller.
#[derive(PartialEq, Eq, Debug)]
pub enum BridgeEvent {
    /// A request to bring the bridge up around `routine`.
    Start { routine: WasmAudioProcessor },
    /// The module that was asked for is loaded.
    ModuleLoaded,
    /// The module that was asked for could not be loaded.
    ModuleFailed,
    /// The capture request has been answered.
    Capture { outcome: CaptureOutcome },
    /// A request to take the bridge down.
    Teardown,
}

/// What the controller wants done next.
#[derive(PartialEq, Eq, Debug, Clone, Copy)]
pub enum BridgeAction {
    /// Load module number `index` into the rendering context.
    LoadModule { index: u32 },
    /// Ask the platform for live input.
    RequestCapture { request: CaptureRequest },
    /// The graph is committed: make its nodes and connections real, and give
    /// `handle` to the processor node.
    StartRendering { handle: OpaqueHandle },
    /// Let go of the live input `stream`.
    ReleaseCapture { stream: u64 },
    /// Tell the initiator that set-up has failed.
    Report { error: BridgeError },
    /// The event does not fit the state. Nothing has changed.
    Rejected,
}

/// The graph that a bridge builds around its routine: the live input feeds the
/// processor, the processor feeds the output, all with the input's channel
/// count.
pub open spec fn pipeline(stream: u64, handle: u64, channels: u32) -> GraphView {
    GraphView {
        nodes: seq![
            AudioGraphNode::Source { stream, channels },
            AudioGraphNode::Processor { handle, channels },
            AudioGraphNode::Sink { channels },
        ],
        edges: set![(0usize, 1usize), (1usize, 2usize)],
        live: true,
    }
}

/// Three nodes with one channel count and no connections take the connection
/// from the first to the second.
proof fn lemma_first_connection(graph: GraphView)
    requires
        graph.wf(),
        graph.nodes.len() == 3,
        graph.nodes[0].channels() == graph.nodes[1].channels(),
        graph.edges == Set::<Edge>::empty(),
    ensures
        graph.can_connect(0, 1),
{
    lemma_new_edge_closes_loop(graph.edges, 0, 1);
    if reaches(graph.edges, 1, 0) {
        lemma_reaches_enters(graph.edges, 1, 0);
    }
}

/// With the first connected to the second, they take the connection from the
/// second to the third.
proof fn lemma_second_connection(graph: GraphView)
    requires
        graph.wf(),
        graph.nodes.len() == 3,
        graph.nodes[1].channels() == graph.nodes[2].channels(),
        graph.edges == Set::<Edge>::empty().insert((0usize, 1usize)),
    ensures
        graph.can_connect(1, 2),
{
    lemma_new_edge_closes_loop(graph.edges, 1, 2);
    if reaches(graph.edges, 2, 1) {
        lemma_reaches_enters(graph.edges, 2, 1);
        let via = choose|via: usize| #[trigger]
            graph.edges.contains((via, 1usize)) && reaches(graph.edges, 2, via);
        assert(via == 0);
        lemma_reaches_enters(graph.edges, 2, 0);
    }
}

/// Builds the committed pipeline for `routine`, parking the routine in
/// `table`. Returns the graph and the routine's handle.
fn build_pipeline(
    table: &mut HandleTable,
    routine: WasmAudioProcessor,
    stream: u64,
    channels: u32,
) -> (built: (AudioGraph, u64))
    requires
        old(table).wf(),
        old(table).room() > 0,
    ensures
        final(table).wf(),
        built.0.wf(),
        built.0@ == pipeline(stream, built.1, channels),
        old(table)@.fresh(built.1),
        final(table)@ == old(table)@.pack(built.1, routine),
        final(table).room() == old(table).room() - 1,
{
    let mut graph = AudioGraph::new();
    let _ = graph.create_source(CaptureOutcome::Granted { stream, channels });
    let (_, handle) = wasm_audio_node(&mut graph, table, routine, channels);
    let _ = graph.create_sink(channels);
    proof {
        graph.lemma_view_wf();
        lemma_first_connection(graph@);
    }
    let _ = graph.connect(0, 1);
    proof {
        graph.lemma_view_wf();
        lemma_second_connection(graph@);
    }
    let _ = graph.connect(1, 2);
    let _ = graph.finalize(2);
    proof {
        assert(graph@.nodes =~= pipeline(stream, handle, channels).nodes);
        assert(graph@.edges =~= pipeline(stream, handle, channels).edges);
    }
    (graph, handle)
}

/// The request that a bridge makes for its live input: sound, no picture.
pub open spec fn audio_only() -> CaptureRequest {
    CaptureRequest { audio: true, video: false }
}

/// The handle that an action carries; zero where it carries none.
pub open spec fn action_handle(action: BridgeAction) -> u64 {
    match action {
        BridgeAction::StartRendering { handle } => handle,
        _ => 0,
    }
}

/// A bridge as a mathematical value.
pub struct WorkerView {
    pub phase: Phase,
    /// How many modules this session has loaded.
    pub modules_loaded: u32,
    pub graph: GraphView,
}

impl WorkerView {
    /// The bridge's invariant: the graph is live exactly in the live phase, a
    /// capture is only asked for once every module is loaded, and a bridge at
    /// rest has loaded either nothing or everything.
    pub open spec fn wf(self) -> bool {
        &&& self.modules_loaded <= MODULE_COUNT
        &&& self.graph.wf()
        &&& self.graph.live == (self.phase is Live)
        &&& match self.phase {
            Phase::Idle => self.modules_loaded == 0 || self.modules_loaded == MODULE_COUNT,
            Phase::LoadingModule { .. } => self.modules_loaded < MODULE_COUNT,
            Phase::AwaitingCapture { .. } => self.modules_loaded == MODULE_COUNT,
            Phase::Live { .. } => self.modules_loaded == MODULE_COUNT,
            Phase::Failed { .. } => true,
        }
    }

    /// The step that follows once `loaded` modules are in: the next module, or
    /// the capture request when none is missing.
    pub open spec fn onward(loaded: int) -> BridgeAction {
        if loaded < MODULE_COUNT {
            BridgeAction::LoadModule { index: loaded as u32 }
        } else {
            BridgeAction::RequestCapture { request: audio_only() }
        }
    }

    /// The phase in which the answer to `onward(loaded)` is awaited.
    pub open spec fn onward_phase(loaded: int, routine: WasmAudioProcessor) -> Phase {
        if loaded < MODULE_COUNT {
            Phase::LoadingModule { routine }
        } else {
            Phase::AwaitingCapture { routine }
        }
    }

    /// Whether `event` makes the bridge park its routine and build the graph.
    pub open spec fn builds(self, event: BridgeEvent) -> bool {
        &&& self.phase is AwaitingCapture
        &&& event matches BridgeEvent::Capture { outcome }
        &&& outcome is Granted
    }

    /// What the bridge wants done after `event`. `handle` is the handle under
    /// which the routine is parked if this event makes the bridge build its
    /// graph.
    pub open spec fn action(self, event: BridgeEvent, handle: u64) -> BridgeAction {
        match (self.phase, event) {
            (Phase::Idle, BridgeEvent::Start { .. }) => Self::onward(self.modules_loaded as int),
            (Phase::LoadingModule { .. }, BridgeEvent::ModuleLoaded) => Self::onward(
                self.modules_loaded + 1,
            ),
            (Phase::LoadingModule { .. }, BridgeEvent::ModuleFailed) => BridgeAction::Report {
                error: BridgeError::ModuleLoadFailure,
            },
            (
                Phase::AwaitingCapture { .. },
                BridgeEvent::Capture { outcome: CaptureOutcome::Granted { .. } },
            ) => BridgeAction::StartRendering { handle },
            (
                Phase::AwaitingCapture { .. },
                BridgeEvent::Capture { outcome: CaptureOutcome::Denied },
            ) => BridgeAction::Report { error: BridgeError::CaptureUnavailable },
            (Phase::Live { stream, .. }, BridgeEvent::Teardown) => BridgeAction::ReleaseCapture {
                stream,
            },
            (_, BridgeEvent::Capture { outcome: CaptureOutcome::Granted { stream, .. } }) => {
                BridgeAction::ReleaseCapture { stream }
            },
            _ => BridgeAction::Rejected,
        }
    }

    /// The bridge after `event`.
    pub open spec fn next(self, event: BridgeEvent, handle: u64) -> WorkerView {
        match (self.phase, event) {
            (Phase::Idle, BridgeEvent::Start { routine }) => WorkerView {
                phase: Self::onward_phase(self.modules_loaded as int, routine),
                ..self
            },
            (Phase::LoadingModule { routine }, BridgeEvent::ModuleLoaded) => WorkerView {
                phase: Self::onward_phase(self.modules_loaded + 1, routine),
                modules_loaded: (self.modules_loaded + 1) as u32,
                ..self
            },
            (Phase::LoadingModule { .. }, BridgeEvent::ModuleFailed) => WorkerView {
                phase: Phase::Failed { error: BridgeError::ModuleLoadFailure },
                ..self
            },
            (
                Phase::AwaitingCapture { .. },
                BridgeEvent::Capture { outcome: CaptureOutcome::Granted { stream, channels } },
            ) => WorkerView {
                phase: Phase::Live { handle, stream },
                graph: pipeline(stream, handle, channels),
                ..self
            },
            (
                Phase::AwaitingCapture { .. },
                BridgeEvent::Capture { outcome: CaptureOutcome::Denied },
            ) => WorkerView {
                phase: Phase::Failed { error: BridgeError::CaptureUnavailable },
                ..self
            },
            (Phase::Live { .. }, BridgeEvent::Teardown) => WorkerView {
                phase: Phase::Idle,
                graph: GraphView { edges: Set::<Edge>::empty(), live: false, ..self.graph },
                ..self
            },
            _ => self,
        }
    }

    /// The handle table after `event`: building the graph parks the routine,
    /// and taking the bridge down retires its handle. Nothing else touches the
    /// table.
    pub open spec fn table_next(self, table: TableView, event: BridgeEvent, handle: u64) -> TableView {
        match (self.phase, event) {
            (
                Phase::AwaitingCapture { routine },
                BridgeEvent::Capture { outcome: CaptureOutcome::Granted { .. } },
            ) => table.pack(handle, routine),
            (Phase::Live { handle: parked, .. }, BridgeEvent::Teardown) => table.unpack(parked),
            _ => table,
        }
    }
}

/// The bridge lifecycle controller.
pub struct AudioWorker {
    phase: Phase,
    modules_loaded: u32,
    graph: AudioGraph,
}

impl AudioWorker {
    /// The bridge as a mathematical value.
    pub closed spec fn view(&self) -> WorkerView {
        WorkerView { phase: self.phase, modules_loaded: self.modules_loaded, graph: self.graph@ }
    }

    /// The controller's invariant: that of its view and of its graph.
    pub closed spec fn wf(&self) -> bool {
        &&& self@.wf()
        &&& self.graph.wf()
    }

    /// A controller in good order has a view in good order.
    pub proof fn lemma_view_wf(&self)
        requires
            self.wf(),
        ensures
            self@.wf(),
    {
    }

    fn onward(&mut self, routine: WasmAudioProcessor) -> (action: BridgeAction)
        requires
            old(self).modules_loaded <= MODULE_COUNT,
        ensures
            action == WorkerView::onward(old(self).modules_loaded as int),
            final(self).phase == WorkerView::onward_phase(old(self).modules_loaded as int, routine),
            final(self).modules_loaded == old(self).modules_loaded,
            final(self).graph == old(self).graph,
    {
        if self.modules_loaded < MODULE_COUNT {
            self.phase = Phase::LoadingModule { routine };
            BridgeAction::LoadModule { index: self.modules_loaded }
        } else {
            self.phase = Phase::AwaitingCapture { routine };
            BridgeAction::RequestCapture { request: CaptureRequest { audio: true, video: false } }
        }
    }

    /// Takes one event and says what has to be done next.
    ///
    /// A start request is taken only by a bridge at rest. It asks for the
    /// modules that this session has not loaded yet, one after the other, then
    /// for live input. When the input is granted the routine is parked in
    /// `table`, the graph is built and committed, and rendering can start. A
    /// module that fails to load, or input that is denied, ends the bridge for
    /// good and is reported. A live bridge is taken down on request: its
    /// connections are removed, its handle is retired, and the input is to be
    /// released. Input that is granted when nobody waits for it is to be
    /// released at once. Every other event is rejected and changes nothing.
    pub fn step(&mut self, table: &mut HandleTable, event: BridgeEvent) -> (action: BridgeAction)
        requires
            old(self).wf(),
            old(table).wf(),
            old(self)@.builds(event) ==> old(table).room() > 0,
        ensures
            final(self).wf(),
            final(table).wf(),
            action == old(self)@.action(event, action_handle(action)),
            final(self)@ == old(self)@.next(event, action_handle(action)),
            final(table)@ == old(self)@.table_next(old(table)@, event, action_handle(action)),
            old(self)@.builds(event) ==> old(table)@.fresh(action_handle(action)),
            final(table).room() == (if old(self)@.builds(event) {
                (old(table).room() - 1) as nat
            } else {
                match (old(self)@.phase, event) {
                    (Phase::Live { handle, .. }, BridgeEvent::Teardown) => {
                        old(table).room_after_unpack(handle)
                    },
                    _ => old(table).room(),
                }
            }),
    {
        let mut phase = Phase::Idle;
        core::mem::swap(&mut self.phase, &mut phase);
        match phase {
            Phase::Idle => match event {
                BridgeEvent::Start { routine } => self.onward(routine),
                BridgeEvent::Capture { outcome: CaptureOutcome::Granted { stream, .. } } => {
                    BridgeAction::ReleaseCapture { stream }
                },
                _ => BridgeAction::Rejected,
            },
            Phase::LoadingModule { routine } => match event {
                BridgeEvent::ModuleLoaded => {
                    self.modules_loaded = self.modules_loaded + 1;
                    self.onward(routine)
                },
                BridgeEvent::ModuleFailed => {
                    self.phase = Phase::Failed { error: BridgeError::ModuleLoadFailure };
                    BridgeAction::Report { error: BridgeError::ModuleLoadFailure }
                },
                BridgeEvent::Capture { outcome: CaptureOutcome::Granted { stream, .. } } => {
                    self.phase = Phase::LoadingModule { routine };
                    BridgeAction::ReleaseCapture { stream }
                },
                _ => {
                    self.phase = Phase::LoadingModule { routine };
                    BridgeAction::Rejected
                },
            },
            Phase::AwaitingCapture { routine } => match event {
                BridgeEvent::Capture { outcome: CaptureOutcome::Granted { stream, channels } } => {
                    let (graph, handle) = build_pipeline(table, routine, stream, channels);
                    self.graph = graph;
                    self.phase = Phase::Live { handle, stream };
                    BridgeAction::StartRendering { handle }
                },
                BridgeEvent::Capture { outcome: CaptureOutcome::Denied } => {
                    self.phase = Phase::Failed { error: BridgeError::CaptureUnavailable };
                    BridgeAction::Report { error: BridgeError::CaptureUnavailable }
                },
                _ => {
                    self.phase = Phase::AwaitingCapture { routine };
                    BridgeAction::Rejected
                },
            },
            Phase::Live { handle, stream } => match event {
                BridgeEvent::Teardown => {
                    self.graph.teardown();
                    let _ = WasmAudioProcessor::unpack(table, handle);
                    BridgeAction::ReleaseCapture { stream }
                },
                BridgeEvent::Capture { outcome: CaptureOutcome::Granted { stream: other, .. } } => {
                    self.phase = Phase::Live { handle, stream };
                    BridgeAction::ReleaseCapture { stream: other }
                },
                _ => {
                    self.phase = Phase::Live { handle, stream };
                    BridgeAction::Rejected
                },
            },
            Phase::Failed { error } => match event {
                BridgeEvent::Capture { outcome: CaptureOutcome::Granted { stream, .. } } => {
                    self.phase = Phase::Failed { error };
                    BridgeAction::ReleaseCapture { stream }
                },
                _ => {
                    self.phase = Phase::Failed { error };
                    BridgeAction::Rejected
                },
            },
        }
    }

    /// Where the bridge stands: `true` while its graph is committed.
    pub fn is_live(&self) -> (live: bool)
        requires
            self.wf(),
        ensures
            live == (self@.phase is Live),
    {
        self.graph.is_live()
    }

    /// Whether set-up has failed, and why.
    pub fn failure(&self) -> (error: Option<BridgeError>)
        ensures
            error == (match self@.phase {
                Phase::Failed { error } => Some(error),
                _ => None,
            }),
    {
        match &self.phase {
            Phase::Failed { error } => Some(*error),
            _ => None,
        }
    }

    /// How many modules this session has loaded.
    pub fn modules_loaded(&self) -> (n: u32)
        ensures
            n == self@.modules_loaded,
    {
        self.modules_loaded
    }

    /// The graph that the bridge has built.
    pub fn graph(&self) -> (graph: &AudioGraph)
        ensures
            graph@ == self@.graph,
    {
        &self.graph
    }
}

/// A bridge at rest: no module loaded, no graph built.
pub fn audio_init() -> (worker: AudioWorker)
    ensures
        worker.wf(),
        worker@ == (WorkerView {
            phase: Phase::Idle,
            modules_loaded: 0,
            graph: GraphView {
                nodes: Seq::<AudioGraphNode>::empty(),
                edges: Set::<Edge>::empty(),
                live: false,
            },
        }),
{
    let graph = AudioGraph::new();
    proof {
        graph.lemma_view_wf();
    }
    AudioWorker { phase: Phase::Idle, modules_loaded: 0, graph }
}

/// One step of a bridge's history: the event, and the handle that was issued
/// if the event made the bridge build its graph.
pub type Step = (BridgeEvent, u64);

impl WorkerView {
    /// The bridge after each of `steps` in turn.
    pub open spec fn after(self, steps: Seq<Step>) -> WorkerView
        decreases steps.len(),
    {
        if steps.len() == 0 {
            self
        } else {
            self.after(steps.drop_last()).next(steps.last().0, steps.last().1)
        }
    }

    /// What the bridge wants done at step number `k` of `steps`.
    pub open spec fn action_at(self, steps: Seq<Step>, k: int) -> BridgeAction {
        self.after(steps.take(k)).action(steps[k].0, steps[k].1)
    }

    /// Module `index` has been asked for, and the bridge will not come to rest
    /// again before every module is loaded.
    spec fn past(self, index: int) -> bool {
        &&& self.wf()
        &&& self.modules_loaded >= index
        &&& self.phase is Idle ==> self.modules_loaded == MODULE_COUNT
    }
}

/// Every step keeps a bridge in good order.
pub proof fn lemma_next_wf(worker: WorkerView, event: BridgeEvent, handle: u64)
    requires
        worker.wf(),
    ensures
        worker.next(event, handle).wf(),
{
}

/// A bridge in good order stays in good order through any history.
pub proof fn lemma_after_wf(worker: WorkerView, steps: Seq<Step>)
    requires
        worker.wf(),
    ensures
        worker.after(steps).wf(),
    decreases steps.len(),
{
    if steps.len() > 0 {
        lemma_after_wf(worker, steps.drop_last());
        lemma_next_wf(worker.after(steps.drop_last()), steps.last().0, steps.last().1);
    }
}

/// A bridge whose set-up has failed stays failed: no event changes it, and the
/// only thing it ever asks for is the release of input that arrives unasked.
pub proof fn lemma_failure_is_final(worker: WorkerView, event: BridgeEvent, handle: u64)
    requires
        worker.phase is Failed,
    ensures
        worker.next(event, handle) == worker,
        worker.action(event, handle) is Rejected || worker.action(event, handle) is ReleaseCapture,
{
}

proof fn lemma_after_take(worker: WorkerView, steps: Seq<Step>, k: int)
    requires
        0 <= k < steps.len(),
    ensures
        worker.after(steps.take(k + 1)) == worker.after(steps.take(k)).next(
            steps[k].0,
            steps[k].1,
        ),
{
    assert(steps.take(k + 1).drop_last() =~= steps.take(k));
}

proof fn lemma_past_stays(worker: WorkerView, steps: Seq<Step>, from: int, to: int, index: int)
    requires
        0 <= from <= to <= steps.len(),
        worker.after(steps.take(from)).past(index),
    ensures
        worker.after(steps.take(to)).past(index),
    decreases to - from,
{
    if from < to {
        lemma_past_stays(worker, steps, from, to - 1, index);
        lemma_after_take(worker, steps, to - 1);
    }
}

/// In any history of a bridge, the modules that it asks for come in rising
/// order: no module is ever asked for twice.
pub proof fn lemma_modules_load_once(worker: WorkerView, steps: Seq<Step>, i: int, j: int)
    requires
        worker.wf(),
        0 <= i < j < steps.len(),
        worker.action_at(steps, i) is LoadModule,
        worker.action_at(steps, j) is LoadModule,
    ensures
        worker.action_at(steps, i)->index < worker.action_at(steps, j)->index,
{
    let index = worker.action_at(steps, i)->index;
    lemma_after_wf(worker, steps.take(i));
    lemma_after_take(worker, steps, i);
    lemma_past_stays(worker, steps, i + 1, j, index as int);
}

/// Once a session has loaded every module, a new start asks for none of them
/// again and goes straight on to the capture request.
pub proof fn lemma_second_load_is_no_op(worker: WorkerView, routine: WasmAudioProcessor)
    requires
        worker.wf(),
        worker.phase is Idle,
        worker.modules_loaded == MODULE_COUNT,
    ensures
        worker.action(BridgeEvent::Start { routine }, 0) == (BridgeAction::RequestCapture {
            request: audio_only(),
        }),
        worker.next(BridgeEvent::Start { routine }, 0).modules_loaded == MODULE_COUNT,
{
}

} // verus!
