//! The opaque handle codec: a routine is parked in a table and stands for
//! exactly one later retrieval, named by a single integer.
//!
//! A handle is `generation * 2^32 + index`. The index picks a slot of the
//! table; the generation says which occupant of that slot is meant. A slot's
//! generation goes up every time its occupant leaves and never comes down, so a
//! handle that has been redeemed can be told from one that was never issued,
//! and neither can be redeemed.

use vstd::prelude::*;
use crate::routine::WasmAudioProcessor;

verus! {

/// The single integer that stands for a parked routine.
pub type OpaqueHandle = u64;

/// Number of generations, and of slots, that fit into one half of a handle.
pub const SPAN: u64 = 0x1_0000_0000;

/// Largest number of slots a table can have.
pub const MAX_SLOTS: usize = 0xffff_ffff;

/// Why a handle could not be redeemed.
#[derive(PartialEq, Eq, Debug, Clone, Copy)]
pub enum HandleError {
    /// The table has never issued this handle.
    InvalidHandle,
    /// The handle was issued and has already been redeemed.
    DoubleUnpack,
}

/// The slot that a handle points at.
pub open spec fn handle_index(handle: u64) -> int {
    handle as int % 0x1_0000_0000
}

/// The occupant of the slot that a handle means.
pub open spec fn handle_generation(handle: u64) -> int {
    handle as int / 0x1_0000_0000
}

/// What a table holds, seen from outside: the routines waiting behind their
/// handles, and the handles that have been redeemed.
pub struct TableView {
    pub pending: Map<u64, WasmAudioProcessor>,
    pub spent: Set<u64>,
}

impl TableView {
    /// No handle is both waiting and redeemed.
    pub open spec fn wf(self) -> bool {
        forall|h: u64| self.spent.contains(h) ==> !#[trigger] self.pending.contains_key(h)
    }

    /// The handle is neither waiting nor redeemed: the table has never issued
    /// it.
    pub open spec fn fresh(self, handle: u64) -> bool {
        !self.pending.contains_key(handle) && !self.spent.contains(handle)
    }

    /// The table after `routine` has been parked behind `handle`.
    pub open spec fn pack(self, handle: u64, routine: WasmAudioProcessor) -> TableView {
        TableView { pending: self.pending.insert(handle, routine), spent: self.spent }
    }

    /// What redeeming `handle` gives: the routine behind it if one is waiting,
    /// else the reason why not.
    pub open spec fn unpack_result(self, handle: u64) -> Result<WasmAudioProcessor, HandleError> {
        if self.pending.contains_key(handle) {
            Ok(self.pending[handle])
        } else if self.spent.contains(handle) {
            Err(HandleError::DoubleUnpack)
        } else {
            Err(HandleError::InvalidHandle)
        }
    }

    /// The table after an attempt to redeem `handle`: a waiting handle becomes
    /// a redeemed one, anything else changes nothing.
    pub open spec fn unpack(self, handle: u64) -> TableView {
        if self.pending.contains_key(handle) {
            TableView {
                pending: self.pending.remove(handle),
                spent: self.spent.insert(handle),
            }
        } else {
            self
        }
    }
}

struct Slot {
    generation: u32,
    routine: Option<WasmAudioProcessor>,
    /// While the slot is on the free list: the slot below it there.
    below: Option<usize>,
}

/// The table of parked routines.
///
/// The slots that can be used again form a list that runs through the slots
/// themselves, so that redeeming a handle never has to allocate.
pub struct HandleTable {
    slots: Vec<Slot>,
    /// The slot on top of the free list.
    top: Option<usize>,
    /// The free list, from its bottom to its top.
    free: Ghost<Seq<usize>>,
}

impl HandleTable {
    spec fn live(&self, handle: u64) -> bool {
        &&& handle_index(handle) < self.slots@.len()
        &&& handle_generation(handle) == self.slots@[handle_index(handle)].generation
        &&& self.slots@[handle_index(handle)].routine is Some
    }

    spec fn retired(&self, handle: u64) -> bool {
        &&& handle_index(handle) < self.slots@.len()
        &&& handle_generation(handle) < self.slots@[handle_index(handle)].generation
    }

    /// The link that slot number `k` of the free list has to hold.
    spec fn link(&self, k: int) -> Option<usize> {
        if k == 0 {
            None
        } else {
            Some(self.free@[k - 1])
        }
    }

    /// The routines waiting in the table and the handles redeemed so far.
    pub closed spec fn view(&self) -> TableView {
        TableView {
            pending: Map::new(
                |h: u64| self.live(h),
                |h: u64| self.slots@[handle_index(h)].routine->0,
            ),
            spent: Set::new(|h: u64| self.retired(h)),
        }
    }

    /// How many more routines the table is sure to take.
    pub closed spec fn room(&self) -> nat {
        (self.free@.len() + (MAX_SLOTS - self.slots@.len())) as nat
    }

    /// The room that is left once `handle` has been presented: redeeming a
    /// handle frees its slot for another routine, unless the slot has run out
    /// of generations; a handle that is refused changes nothing.
    pub open spec fn room_after_unpack(&self, handle: u64) -> nat {
        if self@.pending.contains_key(handle) && handle_generation(handle) + 1 < u32::MAX {
            self.room() + 1
        } else {
            self.room()
        }
    }

    /// The table's internal invariant: the free list runs through each empty
    /// slot that can be used again exactly once, and no occupant sits at the
    /// last generation.
    pub closed spec fn wf(&self) -> bool {
        &&& self.slots@.len() <= MAX_SLOTS
        &&& self.top == self.link(self.free@.len() as int)
        &&& forall|k: int|
            0 <= k < self.free@.len() ==> {
                &&& 0 <= #[trigger] self.free@[k] < self.slots@.len()
                &&& self.slots@[self.free@[k] as int].routine is None
                &&& self.slots@[self.free@[k] as int].generation < u32::MAX
                &&& self.slots@[self.free@[k] as int].below == self.link(k)
            }
        &&& forall|j: int, k: int|
            0 <= j < k < self.free@.len() ==> self.free@[j] != self.free@[k]
        &&& forall|i: int|
            0 <= i < self.slots@.len() && (#[trigger] self.slots@[i]).routine is None
                && self.slots@[i].generation < u32::MAX ==> self.free@.contains(i as usize)
        &&& forall|i: int|
            0 <= i < self.slots@.len() && (#[trigger] self.slots@[i]).routine is Some
                ==> self.slots@[i].generation < u32::MAX
    }

    /// An empty table: nothing waits in it and nothing has been redeemed.
    pub fn new() -> (table: HandleTable)
        ensures
            table.wf(),
            table@.pending == Map::<u64, WasmAudioProcessor>::empty(),
            table@.spent == Set::<u64>::empty(),
            table.room() == MAX_SLOTS,
    {
        let table = HandleTable { slots: Vec::new(), top: None, free: Ghost(Seq::empty()) };
        assert(table@.pending =~= Map::<u64, WasmAudioProcessor>::empty());
        assert(table@.spent =~= Set::<u64>::empty());
        table
    }

    /// Whether one more routine can be parked.
    pub fn has_room(&self) -> (b: bool)
        requires
            self.wf(),
        ensures
            b == (self.room() > 0),
    {
        self.top.is_some() || self.slots.len() < MAX_SLOTS
    }

    /// A table in good order keeps waiting and redeemed handles apart.
    pub proof fn lemma_view_wf(&self)
        requires
            self.wf(),
        ensures
            self@.wf(),
    {
    }
}

/// The two halves of a handle are what it was put together from.
proof fn lemma_handle_parts(generation: int, index: int)
    requires
        0 <= generation < 0x1_0000_0000,
        0 <= index < 0x1_0000_0000,
    ensures
        generation * 0x1_0000_0000 + index <= u64::MAX,
        handle_index((generation * 0x1_0000_0000 + index) as u64) == index,
        handle_generation((generation * 0x1_0000_0000 + index) as u64) == generation,
{
}

/// Two handles with the same halves are the same handle.
proof fn lemma_handle_unique(a: u64, b: u64)
    requires
        handle_index(a) == handle_index(b),
        handle_generation(a) == handle_generation(b),
    ensures
        a == b,
{
}

impl WasmAudioProcessor {
    /// Parks the routine in `table` and returns the handle that stands for it.
    /// The routine is moved: from here on the handle is the only way to it.
    /// The handle is one that the table has never issued before.
    pub fn pack(self, table: &mut HandleTable) -> (handle: OpaqueHandle)
        requires
            old(table).wf(),
            old(table).room() > 0,
        ensures
            final(table).wf(),
            old(table)@.fresh(handle),
            final(table)@ == old(table)@.pack(handle, self),
            final(table).room() == old(table).room() - 1,
    {
        match table.top {
            Some(index) => {
                let generation = table.slots[index].generation;
                table.top = table.slots[index].below;
                table.slots[index].routine = Some(self);
                table.free = Ghost(table.free@.drop_last());
                let handle = (generation as u64) * SPAN + (index as u64);
                proof {
                    lemma_handle_parts(generation as int, index as int);
                    assert forall|i: int|
                        0 <= i < table.slots@.len() && (#[trigger] table.slots@[i]).routine is None
                            && table.slots@[i].generation < u32::MAX implies table.free@.contains(
                        i as usize,
                    ) by {
                        assert(old(table).slots@[i].routine is None);
                        let k = choose|k: int|
                            0 <= k < old(table).free@.len() && old(table).free@[k] == i as usize;
                        assert(table.free@[k] == i as usize);
                    }
                    assert forall|h: u64| #[trigger]
                        table.live(h) == (old(table).live(h) || h == handle) by {
                        if handle_index(h) == index && handle_generation(h) == generation {
                            lemma_handle_unique(h, handle);
                        }
                    }
                    assert(table@.pending =~= old(table)@.pack(handle, self).pending);
                    assert(table@.spent =~= old(table)@.spent);
                }
                handle
            },
            None => {
                let index = table.slots.len();
                table.slots.push(Slot { generation: 0, routine: Some(self), below: None });
                let handle = index as u64;
                proof {
                    lemma_handle_parts(0, index as int);
                    assert forall|h: u64| #[trigger]
                        table.live(h) == (old(table).live(h) || h == handle) by {
                        if handle_index(h) == index && handle_generation(h) == 0 {
                            lemma_handle_unique(h, handle);
                        }
                    }
                    assert(table@.pending =~= old(table)@.pack(handle, self).pending);
                    assert(table@.spent =~= old(table)@.spent);
                }
                handle
            },
        }
    }

    /// Redeems `val`: hands back the routine that was parked behind it and
    /// retires the handle for good. A handle that is not waiting in the table
    /// is refused, and the table stays as it was: with `DoubleUnpack` if the
    /// handle has been redeemed before, with `InvalidHandle` if the table never
    /// issued it.
    pub fn unpack(table: &mut HandleTable, val: OpaqueHandle) -> (result: Result<
        Self,
        HandleError,
    >)
        requires
            old(table).wf(),
        ensures
            final(table).wf(),
            result == old(table)@.unpack_result(val),
            final(table)@ == old(table)@.unpack(val),
            result is Err ==> *final(table) == *old(table),
            final(table).room() == old(table).room_after_unpack(val),
    {
        let index = (val % SPAN) as usize;
        let generation = (val / SPAN) as u32;
        if index >= table.slots.len() {
            return Err(HandleError::InvalidHandle);
        }
        let current = table.slots[index].generation;
        if generation < current {
            return Err(HandleError::DoubleUnpack);
        }
        if generation > current || table.slots[index].routine.is_none() {
            return Err(HandleError::InvalidHandle);
        }
        let routine = table.slots[index].routine.take().unwrap();
        table.slots[index].generation = current + 1;
        if current + 1 < u32::MAX {
            table.slots[index].below = table.top;
            table.top = Some(index);
            table.free = Ghost(table.free@.push(index));
        }
        proof {
            assert forall|i: int|
                0 <= i < table.slots@.len() && (#[trigger] table.slots@[i]).routine is None
                    && table.slots@[i].generation < u32::MAX implies table.free@.contains(
                i as usize,
            ) by {
                if i == index {
                    assert(table.free@[table.free@.len() - 1] == index);
                } else {
                    assert(old(table).slots@[i].routine is None);
                    let k = choose|k: int|
                        0 <= k < old(table).free@.len() && old(table).free@[k] == i as usize;
                    assert(table.free@[k] == i as usize);
                }
            }
            assert forall|h: u64| #[trigger] table.live(h) == (old(table).live(h) && h != val) by {
                if handle_index(h) == index && handle_generation(h) == generation {
                    lemma_handle_unique(h, val);
                }
            }
            assert forall|h: u64| #[trigger]
                table.retired(h) == (old(table).retired(h) || h == val) by {
                if handle_index(h) == index && handle_generation(h) == generation {
                    lemma_handle_unique(h, val);
                }
            }
            assert(table@.pending =~= old(table)@.unpack(val).pending);
            assert(table@.spent =~= old(table)@.unpack(val).spent);
        }
        Ok(routine)
    }
}

/// One operation on a table.
pub enum TableOp {
    /// Park `routine` behind `handle`.
    Pack { handle: u64, routine: WasmAudioProcessor },
    /// Try to redeem `handle`.
    Unpack { handle: u64 },
}

impl TableView {
    /// The table after one operation.
    pub open spec fn apply(self, op: TableOp) -> TableView {
        match op {
            TableOp::Pack { handle, routine } => self.pack(handle, routine),
            TableOp::Unpack { handle } => self.unpack(handle),
        }
    }

    /// The table after each of `ops` in turn.
    pub open spec fn apply_all(self, ops: Seq<TableOp>) -> TableView
        decreases ops.len(),
    {
        if ops.len() == 0 {
            self
        } else {
            self.apply(ops[0]).apply_all(ops.drop_first())
        }
    }

    /// Every routine in `ops` is parked behind a handle that is fresh when its
    /// turn comes, as `pack` does it.
    pub open spec fn admits(self, ops: Seq<TableOp>) -> bool
        decreases ops.len(),
    {
        if ops.len() == 0 {
            true
        } else {
            &&& ops[0] matches TableOp::Pack { handle, .. } ==> self.fresh(handle)
            &&& self.apply(ops[0]).admits(ops.drop_first())
        }
    }
}

/// Redeeming the handle that `pack` gave for a routine hands back that very
/// routine: after any run of blocks, the routine that went in and the one that
/// came out answer the next block alike and leave the same samples in it.
pub proof fn lemma_round_trip(
    table: TableView,
    handle: u64,
    routine: WasmAudioProcessor,
    blocks: Seq<Seq<u32>>,
    block: Seq<u32>,
)
    ensures
        table.pack(handle, routine).unpack_result(handle) == Ok::<
            WasmAudioProcessor,
            HandleError,
        >(routine),
        table.pack(handle, routine).unpack_result(handle)->Ok_0.after(blocks).output(block)
            == routine.after(blocks).output(block),
        table.pack(handle, routine).unpack_result(handle)->Ok_0.after(blocks).continues(block)
            == routine.after(blocks).continues(block),
{
}

/// A handle that has been redeemed is refused when it is presented again.
pub proof fn lemma_single_use(table: TableView, handle: u64)
    requires
        table.wf(),
        table.pending.contains_key(handle),
    ensures
        table.unpack(handle).wf(),
        table.unpack(handle).unpack_result(handle) == Err::<WasmAudioProcessor, HandleError>(
            HandleError::DoubleUnpack,
        ),
{
}

/// A redeemed handle stays refused whatever is parked and redeemed after it.
pub proof fn lemma_spent_for_good(table: TableView, handle: u64, ops: Seq<TableOp>)
    requires
        table.wf(),
        table.spent.contains(handle),
        table.admits(ops),
    ensures
        table.apply_all(ops).wf(),
        table.apply_all(ops).spent.contains(handle),
        table.apply_all(ops).unpack_result(handle) == Err::<WasmAudioProcessor, HandleError>(
            HandleError::DoubleUnpack,
        ),
    decreases ops.len(),
{
    if ops.len() > 0 {
        lemma_spent_for_good(table.apply(ops[0]), handle, ops.drop_first());
    }
}

} // verus!
