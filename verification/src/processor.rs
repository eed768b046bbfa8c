//! The processor node as the rendering context runs it: it redeems its handle
//! on the first audio quantum, invokes the routine once per quantum, and never
//! invokes it again once the routine has asked to stop.

use vstd::prelude::*;
use crate::handle::{HandleError, HandleTable, OpaqueHandle, TableView};
use crate::routine::WasmAudioProcessor;

verus! {

/// Where a processor node stands.
#[derive(PartialEq, Eq, Debug)]
pub enum ProcessorState {
    /// No quantum has been rendered yet: the routine still waits behind the
    /// handle.
    Waiting { handle: OpaqueHandle },
    /// The routine has been redeemed and wants further invocations.
    Running { routine: WasmAudioProcessor },
    /// The routine has asked to stop, or could not be redeemed. It has been
    /// dropped and will not be invoked again.
    Stopped,
}

/// What one audio quantum did to a processor node.
#[derive(PartialEq, Eq, Debug, Clone, Copy)]
pub enum Outcome {
    /// The routine was invoked and wants to be invoked again.
    Continue,
    /// The routine was invoked and asked to stop.
    Stop,
    /// The node had stopped before: nothing was invoked.
    Idle,
    /// The handle could not be redeemed: nothing was invoked, and the node has
    /// stopped.
    Fault(HandleError),
}

/// A processor node inside the rendering context.
#[derive(PartialEq, Eq, Debug)]
pub struct ProcessorNode {
    pub state: ProcessorState,
    /// How often the routine has been invoked. The count stays at its largest
    /// value once it gets there.
    pub invocations: u64,
}

/// What one audio quantum leaves behind: the node, the block of samples, and
/// what happened.
pub struct Rendered {
    pub node: ProcessorNode,
    pub block: Seq<u32>,
    pub outcome: Outcome,
}

/// One more invocation, counted.
pub open spec fn counted(invocations: u64) -> u64 {
    if invocations < u64::MAX {
        (invocations + 1) as u64
    } else {
        invocations
    }
}

/// `more` invocations, counted.
pub open spec fn counted_times(invocations: u64, more: nat) -> u64 {
    if invocations + more <= u64::MAX {
        (invocations + more) as u64
    } else {
        u64::MAX
    }
}

/// One invocation of `routine` on `block`, by a node that has invoked it
/// `invocations` times before.
pub open spec fn invoked(routine: WasmAudioProcessor, invocations: u64, block: Seq<u32>) -> Rendered {
    Rendered {
        node: ProcessorNode {
            state: if routine.continues(block) {
                ProcessorState::Running { routine: routine.next(block) }
            } else {
                ProcessorState::Stopped
            },
            invocations: counted(invocations),
        },
        block: routine.output(block),
        outcome: if routine.continues(block) {
            Outcome::Continue
        } else {
            Outcome::Stop
        },
    }
}

impl ProcessorNode {
    /// What one audio quantum does: a stopped node does nothing; a waiting node
    /// redeems its handle and, if that works, invokes the routine at once; a
    /// running node invokes its routine.
    pub open spec fn step(self, table: TableView, block: Seq<u32>) -> Rendered {
        match self.state {
            ProcessorState::Stopped => Rendered { node: self, block, outcome: Outcome::Idle },
            ProcessorState::Running { routine } => invoked(routine, self.invocations, block),
            ProcessorState::Waiting { handle } => match table.unpack_result(handle) {
                Ok(routine) => invoked(routine, self.invocations, block),
                Err(e) => Rendered {
                    node: ProcessorNode {
                        state: ProcessorState::Stopped,
                        invocations: self.invocations,
                    },
                    block,
                    outcome: Outcome::Fault(e),
                },
            },
        }
    }

    /// The table after one audio quantum: a waiting node has redeemed its
    /// handle, if it could be redeemed; no other node touches the table.
    pub open spec fn table_after(self, table: TableView) -> TableView {
        match self.state {
            ProcessorState::Waiting { handle } => table.unpack(handle),
            _ => table,
        }
    }

    /// The node after it has rendered each of `blocks` in turn.
    pub open spec fn run(self, table: TableView, blocks: Seq<Seq<u32>>) -> ProcessorNode
        decreases blocks.len(),
    {
        if blocks.len() == 0 {
            self
        } else {
            self.step(table, blocks[0]).node.run(self.table_after(table), blocks.drop_first())
        }
    }

    /// A node for the routine that waits behind `handle`.
    pub fn new(handle: OpaqueHandle) -> (node: ProcessorNode)
        ensures
            node == (ProcessorNode { state: ProcessorState::Waiting { handle }, invocations: 0 }),
    {
        ProcessorNode { state: ProcessorState::Waiting { handle }, invocations: 0 }
    }

    /// Stops the node for good, as happens when its graph is taken down: the
    /// routine, if the node holds it, is dropped, and no later quantum invokes
    /// anything.
    pub fn stop(&mut self)
        ensures
            *final(self) == (ProcessorNode {
                state: ProcessorState::Stopped,
                invocations: old(self).invocations,
            }),
    {
        self.state = ProcessorState::Stopped;
    }

    fn invoke(&mut self, routine: WasmAudioProcessor, buf: &mut [u32]) -> (outcome: Outcome)
        ensures
            *final(self) == invoked(routine, old(self).invocations, old(buf)@).node,
            final(buf)@ == invoked(routine, old(self).invocations, old(buf)@).block,
            outcome == invoked(routine, old(self).invocations, old(buf)@).outcome,
    {
        let mut routine = routine;
        let more = routine.process(buf);
        if self.invocations < u64::MAX {
            self.invocations = self.invocations + 1;
        }
        if more {
            self.state = ProcessorState::Running { routine };
            Outcome::Continue
        } else {
            self.state = ProcessorState::Stopped;
            Outcome::Stop
        }
    }

    /// Renders one audio quantum on `buf`. The first quantum redeems the
    /// node's handle from `table`; a handle that cannot be redeemed stops the
    /// node and is reported, and the block is left alone. A routine that asks
    /// to stop is dropped, and from then on a quantum does nothing.
    pub fn render(&mut self, table: &mut HandleTable, buf: &mut [u32]) -> (outcome: Outcome)
        requires
            old(table).wf(),
        ensures
            final(table).wf(),
            *final(self) == old(self).step(old(table)@, old(buf)@).node,
            final(table)@ == old(self).table_after(old(table)@),
            final(table).room() == (match old(self).state {
                ProcessorState::Waiting { handle } => old(table).room_after_unpack(handle),
                _ => old(table).room(),
            }),
            final(buf)@ == old(self).step(old(table)@, old(buf)@).block,
            outcome == old(self).step(old(table)@, old(buf)@).outcome,
    {
        let mut state = ProcessorState::Stopped;
        core::mem::swap(&mut self.state, &mut state);
        match state {
            ProcessorState::Stopped => Outcome::Idle,
            ProcessorState::Running { routine } => self.invoke(routine, buf),
            ProcessorState::Waiting { handle } => match WasmAudioProcessor::unpack(table, handle) {
                Ok(routine) => self.invoke(routine, buf),
                Err(e) => Outcome::Fault(e),
            },
        }
    }
}

/// Counting one invocation and then `more` is counting `more + 1`.
proof fn lemma_counted_times(invocations: u64, more: nat)
    ensures
        counted_times(counted(invocations), more) == counted_times(invocations, more + 1),
{
}

/// What the routine does from the second block on is what its next state does
/// from the first block of the rest on.
proof fn lemma_after_first(routine: WasmAudioProcessor, blocks: Seq<Seq<u32>>, i: int)
    requires
        0 <= i < blocks.len(),
    ensures
        routine.after(blocks.take(i + 1)) == routine.next(blocks[0]).after(
            blocks.drop_first().take(i),
        ),
{
    assert(blocks.take(i + 1).drop_first() =~= blocks.drop_first().take(i));
    assert(blocks.take(i + 1)[0] == blocks[0]);
}

/// A node that has stopped stays as it is, whatever it is asked to render:
/// its routine is never invoked again.
pub proof fn lemma_stopped_stays(node: ProcessorNode, table: TableView, blocks: Seq<Seq<u32>>)
    requires
        node.state is Stopped,
    ensures
        node.run(table, blocks) == node,
    decreases blocks.len(),
{
    if blocks.len() > 0 {
        lemma_stopped_stays(node, table, blocks.drop_first());
    }
}

/// A running node whose routine asks to stop on its invocation number `n + 1`
/// invokes it exactly `n + 1` times, however many blocks follow, and ends
/// stopped.
pub proof fn lemma_running_stops(
    node: ProcessorNode,
    table: TableView,
    blocks: Seq<Seq<u32>>,
    n: nat,
)
    requires
        node.state is Running,
        node.state->routine.stops_after(blocks, n),
    ensures
        node.run(table, blocks).state is Stopped,
        node.run(table, blocks).invocations == counted_times(node.invocations, n + 1),
    decreases n,
{
    let routine = node.state->routine;
    let first = node.step(table, blocks[0]).node;
    let rest = blocks.drop_first();
    assert(blocks.take(0) =~= Seq::<Seq<u32>>::empty());
    assert(routine.after(blocks.take(0)) == routine);
    if n == 0 {
        lemma_stopped_stays(first, table, rest);
    } else {
        assert(routine.after(blocks.take(0)).continues(blocks[0]));
        let next = routine.next(blocks[0]);
        assert forall|i: int| 0 <= i < n - 1 implies #[trigger] next.after(rest.take(i)).continues(
            rest[i],
        ) by {
            lemma_after_first(routine, blocks, i);
            assert(routine.after(blocks.take(i + 1)).continues(blocks[i + 1]));
        }
        lemma_after_first(routine, blocks, n - 1);
        assert(next.stops_after(rest, (n - 1) as nat));
        lemma_running_stops(first, table, rest, (n - 1) as nat);
        lemma_counted_times(node.invocations, n);
    }
}

/// A node that has not rendered yet, whose handle names a waiting routine that
/// asks to stop on its invocation number `n + 1`, invokes the routine exactly
/// `n + 1` times, however many blocks follow, and ends stopped.
pub proof fn lemma_waiting_stops(
    node: ProcessorNode,
    table: TableView,
    blocks: Seq<Seq<u32>>,
    n: nat,
)
    requires
        node.state is Waiting,
        table.pending.contains_key(node.state->handle),
        table.pending[node.state->handle].stops_after(blocks, n),
    ensures
        node.run(table, blocks).state is Stopped,
        node.run(table, blocks).invocations == counted_times(node.invocations, n + 1),
{
    let routine = table.pending[node.state->handle];
    let running = ProcessorNode {
        state: ProcessorState::Running { routine },
        invocations: node.invocations,
    };
    assert(node.step(table, blocks[0]) == running.step(table, blocks[0]));
    lemma_running_stops(running, table, blocks, n);
    lemma_run_ignores_table(
        running.step(table, blocks[0]).node,
        table,
        node.table_after(table),
        blocks.drop_first(),
    );
}

/// A node that is past its first quantum no longer looks at the table.
proof fn lemma_run_ignores_table(
    node: ProcessorNode,
    one: TableView,
    other: TableView,
    blocks: Seq<Seq<u32>>,
)
    requires
        !(node.state is Waiting),
    ensures
        node.run(one, blocks) == node.run(other, blocks),
    decreases blocks.len(),
{
    if blocks.len() > 0 {
        lemma_run_ignores_table(node.step(one, blocks[0]).node, one, other, blocks.drop_first());
    }
}

} // verus!
