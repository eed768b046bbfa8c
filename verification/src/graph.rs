//! The audio graph builder: capture sources, processor nodes and output sinks,
//! and the directed connections between them.
//!
//! The graph never holds a loop, and a connection only ever joins two nodes
//! with the same number of channels. A connection that would break either rule
//! is refused and leaves the graph as it was.

use vstd::prelude::*;
use crate::handle::{HandleTable, OpaqueHandle};
use crate::reach::{
    acyclic,
    is_walk,
    lemma_new_edge_closes_loop,
    lemma_reaches_self,
    lemma_reaches_then_edge,
    reaches,
    Edge,
};
use crate::routine::WasmAudioProcessor;

verus! {

/// What can go wrong while a bridge is set up.
#[derive(PartialEq, Eq, Debug, Clone, Copy)]
pub enum BridgeError {
    /// No permission or no device: there is no live input to capture.
    CaptureUnavailable,
    /// The connection would close a loop, join nodes whose channel counts
    /// differ, or name a node that the graph does not have.
    IncompatibleTopology,
    /// The processing module could not be loaded into the rendering context.
    ModuleLoadFailure,
}

/// One node of an audio graph.
#[derive(PartialEq, Eq, Debug, Clone, Copy)]
pub enum AudioGraphNode {
    /// Captures live input from the stream with this identifier.
    Source { stream: u64, channels: u32 },
    /// Runs the routine that waits behind `handle`.
    Processor { handle: OpaqueHandle, channels: u32 },
    /// The output destination.
    Sink { channels: u32 },
}

impl AudioGraphNode {
    /// Number of channels that the node takes or gives.
    pub open spec fn channels(self) -> u32 {
        match self {
            AudioGraphNode::Source { channels, .. } => channels,
            AudioGraphNode::Processor { channels, .. } => channels,
            AudioGraphNode::Sink { channels } => channels,
        }
    }

    /// Number of channels that the node takes or gives.
    pub fn channel_count(&self) -> (n: u32)
        ensures
            n == self.channels(),
    {
        match self {
            AudioGraphNode::Source { channels, .. } => *channels,
            AudioGraphNode::Processor { channels, .. } => *channels,
            AudioGraphNode::Sink { channels } => *channels,
        }
    }
}

/// How a request to capture live input ended.
#[derive(PartialEq, Eq, Debug, Clone, Copy)]
pub enum CaptureOutcome {
    /// A live stream with this identifier and channel count.
    Granted { stream: u64, channels: u32 },
    /// Permission was refused or no device was found.
    Denied,
}

/// An audio graph as a mathematical value: its nodes in the order of their
/// creation, the set of its connections, and whether it has been committed.
pub struct GraphView {
    pub nodes: Seq<AudioGraphNode>,
    pub edges: Set<Edge>,
    pub live: bool,
}

impl GraphView {
    /// Every connection joins two nodes of the graph with equal channel
    /// counts, and the connections hold no loop.
    pub open spec fn wf(self) -> bool {
        &&& forall|a: usize, b: usize| #[trigger]
            self.edges.contains((a, b)) ==> self.joins(a, b)
        &&& acyclic(self.edges)
    }

    /// `up` and `down` are nodes of the graph with the same channel count.
    pub open spec fn joins(self, up: usize, down: usize) -> bool {
        &&& up < self.nodes.len()
        &&& down < self.nodes.len()
        &&& self.nodes[up as int].channels() == self.nodes[down as int].channels()
    }

    /// A connection from `up` to `down` is acceptable: both are nodes of the
    /// graph, their channel counts agree, and the connections would still hold
    /// no loop with this one among them.
    pub open spec fn can_connect(self, up: usize, down: usize) -> bool {
        &&& self.joins(up, down)
        &&& acyclic(self.edges.insert((up, down)))
    }

    /// The graph with a connection from `up` to `down`.
    pub open spec fn connect(self, up: usize, down: usize) -> GraphView {
        GraphView { nodes: self.nodes, edges: self.edges.insert((up, down)), live: self.live }
    }

    /// The graph with one more node.
    pub open spec fn add_node(self, node: AudioGraphNode) -> GraphView {
        GraphView { nodes: self.nodes.push(node), edges: self.edges, live: self.live }
    }

    /// `id` names a sink of the graph.
    pub open spec fn is_sink(self, id: usize) -> bool {
        id < self.nodes.len() && self.nodes[id as int] is Sink
    }
}

/// The connections that a list holds, as a set.
pub open spec fn edge_set(edges: Seq<Edge>) -> Set<Edge> {
    Set::new(|e: Edge| edges.contains(e))
}

/// Number of marked entries.
spec fn marked_count(marks: Seq<bool>) -> nat
    decreases marks.len(),
{
    if marks.len() == 0 {
        0
    } else {
        marked_count(marks.drop_last()) + if marks.last() {
            1nat
        } else {
            0nat
        }
    }
}

proof fn lemma_marked_count_bound(marks: Seq<bool>)
    ensures
        marked_count(marks) <= marks.len(),
    decreases marks.len(),
{
    if marks.len() > 0 {
        lemma_marked_count_bound(marks.drop_last());
    }
}

proof fn lemma_marked_count_mark(marks: Seq<bool>, i: int)
    requires
        0 <= i < marks.len(),
        !marks[i],
    ensures
        marked_count(marks.update(i, true)) == marked_count(marks) + 1,
    decreases marks.len(),
{
    let after = marks.update(i, true);
    if i == marks.len() - 1 {
        assert(after.drop_last() =~= marks.drop_last());
    } else {
        assert(after.drop_last() =~= marks.drop_last().update(i, true));
        lemma_marked_count_mark(marks.drop_last(), i);
    }
}

proof fn lemma_marked_count_none(marks: Seq<bool>)
    requires
        forall|i: int| 0 <= i < marks.len() ==> !marks[i],
    ensures
        marked_count(marks) == 0,
    decreases marks.len(),
{
    if marks.len() > 0 {
        lemma_marked_count_none(marks.drop_last());
    }
}

/// Marks that hold the start of a walk and follow every connection hold each
/// node of the walk.
proof fn lemma_marks_cover_walk(edges: Seq<Edge>, marks: Seq<bool>, walk: Seq<usize>, i: int)
    requires
        is_walk(edge_set(edges), walk),
        0 <= i < walk.len(),
        walk[0] < marks.len(),
        marks[walk[0] as int],
        forall|k: int|
            0 <= k < edges.len() ==> (#[trigger] edges[k]).0 < marks.len() && edges[k].1
                < marks.len(),
        forall|k: int|
            0 <= k < edges.len() && marks[(#[trigger] edges[k]).0 as int] ==> marks[edges[k].1 as int],
    ensures
        walk[i] < marks.len(),
        marks[walk[i] as int],
    decreases i,
{
    if i > 0 {
        lemma_marks_cover_walk(edges, marks, walk, i - 1);
        assert(edge_set(edges).contains((walk[i - 1], walk[i - 1 + 1])));
        let k = choose|k: int| 0 <= k < edges.len() && edges[k] == (walk[i - 1], walk[i]);
        assert(edges[k].0 == walk[i - 1] && edges[k].1 == walk[i]);
    }
}

/// Whether a walk along `edges` leads from `from` to `to`, among `n` nodes.
fn path_exists(edges: &Vec<Edge>, n: usize, from: usize, to: usize) -> (found: bool)
    requires
        from < n,
        to < n,
        forall|k: int| 0 <= k < edges@.len() ==> (#[trigger] edges@[k]).0 < n && edges@[k].1 < n,
    ensures
        found == reaches(edge_set(edges@), from, to),
{
    let mut marks: Vec<bool> = Vec::new();
    let mut i: usize = 0;
    while i < n
        invariant
            i <= n,
            marks@.len() == i,
            forall|j: int| 0 <= j < i ==> !marks@[j],
        decreases n - i,
    {
        marks.push(false);
        i += 1;
    }
    proof {
        lemma_marked_count_none(marks@);
        lemma_marked_count_mark(marks@, from as int);
        lemma_reaches_self(edge_set(edges@), from);
    }
    marks[from] = true;
    let mut count: usize = 1;
    loop
        invariant
            from < n,
            to < n,
            marks@.len() == n,
            forall|k: int|
                0 <= k < edges@.len() ==> (#[trigger] edges@[k]).0 < n && edges@[k].1 < n,
            marks@[from as int],
            count == marked_count(marks@),
            forall|v: int|
                0 <= v < n && #[trigger] marks@[v] ==> reaches(edge_set(edges@), from, v as usize),
        ensures
            forall|k: int|
                0 <= k < edges@.len() && marks@[(#[trigger] edges@[k]).0 as int]
                    ==> marks@[edges@[k].1 as int],
        decreases n - count,
    {
        let before = count;
        let mut changed = false;
        let mut k: usize = 0;
        proof {
            lemma_marked_count_bound(marks@);
        }
        while k < edges.len()
            invariant
                from < n,
                to < n,
                k <= edges@.len(),
                marks@.len() == n,
                forall|k: int|
                    0 <= k < edges@.len() ==> (#[trigger] edges@[k]).0 < n && edges@[k].1 < n,
                marks@[from as int],
                count == marked_count(marks@),
                count <= n,
                before <= count,
                changed ==> before < count,
                !changed ==> forall|j: int|
                    0 <= j < k && marks@[(#[trigger] edges@[j]).0 as int]
                        ==> marks@[edges@[j].1 as int],
                forall|v: int|
                    0 <= v < n && #[trigger] marks@[v] ==> reaches(
                        edge_set(edges@),
                        from,
                        v as usize,
                    ),
            decreases edges@.len() - k,
        {
            let a = edges[k].0;
            let b = edges[k].1;
            if marks[a] && !marks[b] {
                proof {
                    lemma_marked_count_mark(marks@, b as int);
                    lemma_marked_count_bound(marks@.update(b as int, true));
                    assert(edges@[k as int] == (a, b));
                    assert(edges@.contains((a, b)));
                    assert(edge_set(edges@).contains((a, b)));
                    lemma_reaches_then_edge(edge_set(edges@), from, a, b);
                }
                marks[b] = true;
                count += 1;
                changed = true;
            }
            k += 1;
        }
        if !changed {
            break;
        }
    }
    let found = marks[to];
    proof {
        if reaches(edge_set(edges@), from, to) {
            let walk = choose|walk: Seq<usize>| #[trigger]
                is_walk(edge_set(edges@), walk) && walk[0] == from && walk.last() == to;
            lemma_marks_cover_walk(edges@, marks@, walk, walk.len() - 1);
        }
    }
    found
}

/// Whether the list holds the connection from `up` to `down`.
fn has_edge(edges: &Vec<Edge>, up: usize, down: usize) -> (found: bool)
    ensures
        found == edges@.contains((up, down)),
{
    let mut k: usize = 0;
    while k < edges.len()
        invariant
            k <= edges@.len(),
            forall|j: int| 0 <= j < k ==> edges@[j] != (up, down),
        decreases edges@.len() - k,
    {
        if edges[k].0 == up && edges[k].1 == down {
            assert(edges@[k as int] == (up, down));
            return true;
        }
        k += 1;
    }
    false
}

/// An audio graph under construction or in use.
pub struct AudioGraph {
    nodes: Vec<AudioGraphNode>,
    edges: Vec<Edge>,
    live: bool,
}

impl AudioGraph {
    /// The graph as a mathematical value.
    pub closed spec fn view(&self) -> GraphView {
        GraphView { nodes: self.nodes@, edges: edge_set(self.edges@), live: self.live }
    }

    /// The graph's invariant: that of its view, and no connection is listed
    /// twice.
    pub closed spec fn wf(&self) -> bool {
        &&& self@.wf()
        &&& self.edges@.no_duplicates()
    }

    /// A graph in good order has a view in good order.
    pub proof fn lemma_view_wf(&self)
        requires
            self.wf(),
        ensures
            self@.wf(),
    {
    }

    /// A graph without nodes or connections, not yet committed.
    pub fn new() -> (graph: AudioGraph)
        ensures
            graph.wf(),
            graph@.nodes == Seq::<AudioGraphNode>::empty(),
            graph@.edges == Set::<Edge>::empty(),
            !graph@.live,
    {
        let graph = AudioGraph { nodes: Vec::new(), edges: Vec::new(), live: false };
        assert(graph@.edges =~= Set::<Edge>::empty());
        graph
    }

    fn add(&mut self, node: AudioGraphNode) -> (id: usize)
        requires
            old(self).wf(),
        ensures
            final(self).wf(),
            id == old(self)@.nodes.len(),
            final(self)@ == old(self)@.add_node(node),
    {
        let id = self.nodes.len();
        self.nodes.push(node);
        proof {
            assert forall|a: usize, b: usize| #[trigger]
                self@.edges.contains((a, b)) implies self@.joins(a, b) by {
                assert(old(self)@.joins(a, b));
            }
        }
        id
    }

    /// Adds a capture source for the stream that a capture request gave.
    /// Without a stream there is no source: the answer is
    /// `CaptureUnavailable` and the graph stays as it was.
    pub fn create_source(&mut self, capture: CaptureOutcome) -> (result: Result<usize, BridgeError>)
        requires
            old(self).wf(),
        ensures
            final(self).wf(),
            match capture {
                CaptureOutcome::Granted { stream, channels } => {
                    &&& result == Ok::<usize, BridgeError>(old(self)@.nodes.len() as usize)
                    &&& final(self)@ == old(self)@.add_node(
                        AudioGraphNode::Source { stream, channels },
                    )
                },
                CaptureOutcome::Denied => {
                    &&& result == Err::<usize, BridgeError>(BridgeError::CaptureUnavailable)
                    &&& final(self)@ == old(self)@
                },
            },
    {
        match capture {
            CaptureOutcome::Granted { stream, channels } => Ok(
                self.add(AudioGraphNode::Source { stream, channels }),
            ),
            CaptureOutcome::Denied => Err(BridgeError::CaptureUnavailable),
        }
    }

    /// Adds a processor node for the routine that waits behind `handle`. The
    /// node redeems the handle on its first audio quantum.
    pub fn create_processor(&mut self, handle: OpaqueHandle, channels: u32) -> (id: usize)
        requires
            old(self).wf(),
        ensures
            final(self).wf(),
            id == old(self)@.nodes.len(),
            final(self)@ == old(self)@.add_node(AudioGraphNode::Processor { handle, channels }),
    {
        self.add(AudioGraphNode::Processor { handle, channels })
    }

    /// Adds an output sink.
    pub fn create_sink(&mut self, channels: u32) -> (id: usize)
        requires
            old(self).wf(),
        ensures
            final(self).wf(),
            id == old(self)@.nodes.len(),
            final(self)@ == old(self)@.add_node(AudioGraphNode::Sink { channels }),
    {
        self.add(AudioGraphNode::Sink { channels })
    }

    /// Connects `upstream` to `downstream`. The connection is made exactly when
    /// both are nodes of the graph, their channel counts agree and no loop
    /// would be closed; making a connection that is there already changes
    /// nothing. Otherwise the answer is `IncompatibleTopology` and the graph,
    /// its connections included, stays as it was.
    pub fn connect(&mut self, upstream: usize, downstream: usize) -> (result: Result<
        (),
        BridgeError,
    >)
        requires
            old(self).wf(),
        ensures
            final(self).wf(),
            result is Ok <==> old(self)@.can_connect(upstream, downstream),
            result is Ok ==> final(self)@ == old(self)@.connect(upstream, downstream),
            result is Err ==> result == Err::<(), BridgeError>(BridgeError::IncompatibleTopology)
                && final(self)@ == old(self)@,
    {
        let n = self.nodes.len();
        if upstream >= n || downstream >= n {
            return Err(BridgeError::IncompatibleTopology);
        }
        if self.nodes[upstream].channel_count() != self.nodes[downstream].channel_count() {
            return Err(BridgeError::IncompatibleTopology);
        }
        proof {
            assert forall|k: int| 0 <= k < self.edges@.len() implies (#[trigger] self.edges@[k]).0
                < n && self.edges@[k].1 < n by {
                assert(self.edges@.contains(self.edges@[k]));
                assert(self@.edges.contains((self.edges@[k].0, self.edges@[k].1)));
            }
            lemma_new_edge_closes_loop(self@.edges, upstream, downstream);
        }
        if path_exists(&self.edges, n, downstream, upstream) {
            return Err(BridgeError::IncompatibleTopology);
        }
        if !has_edge(&self.edges, upstream, downstream) {
            self.edges.push((upstream, downstream));
            proof {
                let e = (upstream, downstream);
                assert(self.edges@.last() == e);
                assert forall|x: Edge| self@.edges.contains(x) == old(self)@.edges.insert(
                    e,
                ).contains(x) by {
                    if old(self).edges@.contains(x) {
                        let k = choose|k: int|
                            0 <= k < old(self).edges@.len() && old(self).edges@[k] == x;
                        assert(self.edges@[k] == x);
                    }
                }
                assert(self@.edges =~= old(self)@.edges.insert(e));
            }
        } else {
            assert(self@.edges =~= old(self)@.edges.insert((upstream, downstream)));
        }
        proof {
            assert forall|a: usize, b: usize| #[trigger]
                self@.edges.contains((a, b)) implies self@.joins(a, b) by {
                if (a, b) != (upstream, downstream) {
                    assert(old(self)@.edges.contains((a, b)));
                }
            }
        }
        Ok(())
    }

    /// Commits the graph with `sink` as its output: from here on it is live.
    /// A `sink` that is not a sink of this graph is refused with
    /// `IncompatibleTopology`, and the graph stays as it was.
    pub fn finalize(&mut self, sink: usize) -> (result: Result<(), BridgeError>)
        requires
            old(self).wf(),
        ensures
            final(self).wf(),
            result is Ok <==> old(self)@.is_sink(sink),
            result is Ok ==> final(self)@ == (GraphView { live: true, ..old(self)@ }),
            result is Err ==> result == Err::<(), BridgeError>(BridgeError::IncompatibleTopology)
                && final(self)@ == old(self)@,
    {
        if sink >= self.nodes.len() {
            return Err(BridgeError::IncompatibleTopology);
        }
        match self.nodes[sink] {
            AudioGraphNode::Sink { .. } => {
                self.live = true;
                Ok(())
            },
            _ => Err(BridgeError::IncompatibleTopology),
        }
    }

    /// Takes the graph out of use: every connection is removed and the graph
    /// is no longer live. The nodes stay.
    pub fn teardown(&mut self)
        requires
            old(self).wf(),
        ensures
            final(self).wf(),
            final(self)@ == (GraphView {
                edges: Set::<Edge>::empty(),
                live: false,
                ..old(self)@
            }),
    {
        self.edges.clear();
        self.live = false;
        assert(self@.edges =~= Set::<Edge>::empty());
    }

    /// Whether the graph has been committed and not torn down since.
    pub fn is_live(&self) -> (live: bool)
        ensures
            live == self@.live,
    {
        self.live
    }

    /// Number of nodes.
    pub fn node_count(&self) -> (n: usize)
        ensures
            n == self@.nodes.len(),
    {
        self.nodes.len()
    }

    /// The node with this identifier, if the graph has one.
    pub fn node(&self, id: usize) -> (node: Option<AudioGraphNode>)
        ensures
            node == (if id < self@.nodes.len() {
                Some(self@.nodes[id as int])
            } else {
                None
            }),
    {
        if id < self.nodes.len() {
            Some(self.nodes[id])
        } else {
            None
        }
    }

    /// Whether `upstream` is connected to `downstream`.
    pub fn is_connected(&self, upstream: usize, downstream: usize) -> (connected: bool)
        ensures
            connected == self@.edges.contains((upstream, downstream)),
    {
        has_edge(&self.edges, upstream, downstream)
    }

    /// Number of connections.
    pub fn connection_count(&self) -> (n: usize)
        requires
            self.wf(),
        ensures
            n == self@.edges.len(),
            self@.edges.finite(),
    {
        proof {
            self.edges@.unique_seq_to_set();
            assert(self@.edges =~= self.edges@.to_set());
        }
        self.edges.len()
    }
}

/// Hands `process` over to the rendering side of `graph`: the routine is parked
/// in `table`, and a processor node is created for the handle that stands for
/// it. Returns the node's identifier and the handle.
pub fn wasm_audio_node(
    graph: &mut AudioGraph,
    table: &mut HandleTable,
    process: WasmAudioProcessor,
    channels: u32,
) -> (made: (usize, OpaqueHandle))
    requires
        old(graph).wf(),
        old(table).wf(),
        old(table).room() > 0,
    ensures
        final(graph).wf(),
        final(table).wf(),
        made.0 == old(graph)@.nodes.len(),
        old(table)@.fresh(made.1),
        final(table)@ == old(table)@.pack(made.1, process),
        final(table).room() == old(table).room() - 1,
        final(graph)@ == old(graph)@.add_node(
            AudioGraphNode::Processor { handle: made.1, channels },
        ),
{
    let handle = process.pack(table);
    let id = graph.create_processor(handle, channels);
    (id, handle)
}

} // verus!
