//! The transform hierarchy on the device.
//!
//! Every entity with a transform owns a slot in a device-resident node table: local
//! transform, parent slot, and an intrusive child list. The host mirrors the table and sends
//! only *deltas*; each frame the device scatters them, finds the changed nodes and all their
//! descendants, and recomposes those. A table that grew is uploaded whole instead.

use crate::bits::{Vec3, Vec4};
use crate::commands::{
    no_buffer, Buffer, Command, FrontierExpandParams, FrontierFinalizeParams, FrontierSeedParams,
    Kernel, Params, PropagateParams, ScatterLocalsParams, ScatterU32Params, Source,
    ACCESS_SHADER_READ, ACCESS_SHADER_WRITE, ACCESS_TRANSFER_WRITE, STAGE_COMPUTE_SHADER,
    STAGE_TRANSFER, WHOLE_SIZE,
};
use crate::math::{next_power_of_two, power_of_two_from};
use crate::compute::{barrier, compute_to_compute, compute_to_compute_barrier, memory_barrier};
use vstd::prelude::*;

verus! {

/// Ends a child list.
pub const NO_NODE: u32 = 0xFFFF_FFFF;

/// The parent of a root.
pub const ROOT_PARENT: u32 = 0xFFFF_FFFF;

/// Levels that the frontier is expanded by.
pub const MAX_LEVELS: u32 = 16;

/// Words before the nodes of the frontier.
pub const FRONTIER_HEADER: u64 = 24;

/// Words of the indirect arguments: three for each level, and three for the propagation.
pub const INDIRECT_WORDS: u64 = 51;

/// Where the propagation's indirect arguments stand, in bytes.
pub const CONSUMER_ARGS_OFFSET: u64 = 192;

/// The fewest nodes that the device table is made for.
pub const MIN_CAPACITY: u32 = 1024;

/// The fewest records that a staging buffer is made for.
pub const MIN_STAGING: u64 = 256;

// ---- slots ------------------------------------------------------------------------------

/// Slots of the node table: handed out from the recycled ones first.
#[derive(Debug)]
pub struct GpuNodeSlots {
    pub free: Vec<u32>,
    pub next: u32,
}

impl GpuNodeSlots {
    /// Recycled slots are distinct, and were handed out before.
    pub open spec fn wf(self) -> bool {
        &&& self.free@.no_duplicates()
        &&& forall|i: int| 0 <= i < self.free@.len() ==> (#[trigger] self.free@[i]) < self.next
    }

    /// `slot` is in use.
    pub open spec fn live(self, slot: u32) -> bool {
        slot < self.next && !self.free@.contains(slot)
    }

    /// No slot is in use.
    pub fn new() -> (r: Self)
        ensures
            r.wf(),
            r.next == 0,
            forall|s: u32| !r.live(s),
    {
        GpuNodeSlots { free: Vec::new(), next: 0 }
    }

    /// Hands out a slot that is not in use: the one freed last, or a new one.
    pub fn allocate(&mut self) -> (slot: u32)
        requires
            old(self).wf(),
            old(self).free@.len() > 0 || old(self).next < u32::MAX,
        ensures
            final(self).wf(),
            !old(self).live(slot),
            forall|s: u32| #[trigger] final(self).live(s) <==> old(self).live(s) || s == slot,
            if old(self).free@.len() > 0 {
                &&& slot == old(self).free@.last()
                &&& final(self).free@ == old(self).free@.drop_last()
                &&& final(self).next == old(self).next
            } else {
                &&& slot == old(self).next
                &&& final(self).free@ == old(self).free@
                &&& final(self).next == old(self).next + 1
            },
    {
        let ghost before = self.free@;
        match self.free.pop() {
            Some(slot) => {
                proof {
                    let n = before.len() - 1;
                    assert(before[n] == slot);
                    assert forall|s: u32| s != slot implies before.contains(s)
                        == before.drop_last().contains(s) by {
                        if before.contains(s) {
                            let i = choose|i: int| 0 <= i < before.len() && before[i] == s;
                            assert(before.drop_last()[i] == s);
                        }
                        if before.drop_last().contains(s) {
                            let i = choose|i: int| 0 <= i < n && before.drop_last()[i] == s;
                            assert(before[i] == s);
                        }
                    }
                    assert(!before.drop_last().contains(slot));
                }
                slot
            },
            None => {
                let slot: u32 = self.next;
                self.next = slot + 1;
                slot
            },
        }
    }

    /// Takes back a slot that is in use.
    pub fn release(&mut self, slot: u32)
        requires
            old(self).wf(),
            old(self).live(slot),
        ensures
            final(self).wf(),
            final(self).next == old(self).next,
            final(self).free@ == old(self).free@.push(slot),
            forall|s: u32| #[trigger] final(self).live(s) <==> old(self).live(s) && s != slot,
    {
        let ghost before = self.free@;
        self.free.push(slot);
        proof {
            let after = self.free@;
            assert(after[before.len() as int] == slot);
            assert forall|s: u32| s != slot implies before.contains(s) == after.contains(s) by {
                if before.contains(s) {
                    let i = choose|i: int| 0 <= i < before.len() && before[i] == s;
                    assert(after[i] == s);
                }
                if after.contains(s) {
                    let i = choose|i: int| 0 <= i < after.len() && after[i] == s;
                    assert(before[i] == s);
                }
            }
        }
    }

    /// High-water mark: every slot in use is below this.
    pub fn count(&self) -> (r: u32)
        ensures
            r == self.next,
            forall|s: u32| self.live(s) ==> s < r,
    {
        self.next
    }
}

// ---- the mirrored table -----------------------------------------------------------------

/// A node's local transform; numbers are bit patterns.
#[derive(Clone, Copy, Debug, Default, PartialEq, Eq, Structural)]
pub struct NodeLocal {
    pub rotation: Vec4,
    pub translation: Vec4,
    pub scale: Vec4,
}

/// The local transform of a node that nobody has set.
pub open spec fn zero_local() -> NodeLocal {
    let zero = Vec4 { x: 0, y: 0, z: 0, w: 0 };
    NodeLocal { rotation: zero, translation: zero, scale: zero }
}

impl NodeLocal {
    /// The local transform with these parts.
    pub fn from_transform(rotation: Vec4, translation: Vec3, scale: Vec3) -> (r: Self)
        ensures
            r == (NodeLocal {
                rotation,
                translation: Vec4 { x: translation.x, y: translation.y, z: translation.z, w: 0 },
                scale: Vec4 { x: scale.x, y: scale.y, z: scale.z, w: 0 },
            }),
    {
        NodeLocal {
            rotation,
            translation: Vec4 { x: translation.x, y: translation.y, z: translation.z, w: 0 },
            scale: Vec4 { x: scale.x, y: scale.y, z: scale.z, w: 0 },
        }
    }
}

/// A changed local transform.
#[derive(Clone, Copy, Debug, Default, PartialEq, Eq, Structural)]
pub struct LocalRecord {
    pub slot: u32,
    pub pad0: u32,
    pub pad1: u32,
    pub pad2: u32,
    pub local: NodeLocal,
}

/// A changed word of one column.
#[derive(Clone, Copy, Debug, Default, PartialEq, Eq, Structural)]
pub struct U32Record {
    pub slot: u32,
    pub value: u32,
}

/// The mirror of the node table, and the deltas of this frame.
#[derive(Debug)]
pub struct NodeTable {
    pub locals: Vec<NodeLocal>,
    pub parent: Vec<u32>,
    pub first_child: Vec<u32>,
    pub next_sibling: Vec<u32>,
    pub local_records: Vec<LocalRecord>,
    pub parent_records: Vec<U32Record>,
    pub first_child_records: Vec<U32Record>,
    pub next_sibling_records: Vec<U32Record>,
}

/// The contents of a [`NodeTable`].
#[verifier::ext_equal]
pub ghost struct NodeTableView {
    pub locals: Seq<NodeLocal>,
    pub parent: Seq<u32>,
    pub first_child: Seq<u32>,
    pub next_sibling: Seq<u32>,
    pub local_records: Seq<LocalRecord>,
    pub parent_records: Seq<U32Record>,
    pub first_child_records: Seq<U32Record>,
    pub next_sibling_records: Seq<U32Record>,
}

impl View for NodeTable {
    type V = NodeTableView;

    open spec fn view(&self) -> NodeTableView {
        NodeTableView {
            locals: self.locals@,
            parent: self.parent@,
            first_child: self.first_child@,
            next_sibling: self.next_sibling@,
            local_records: self.local_records@,
            parent_records: self.parent_records@,
            first_child_records: self.first_child_records@,
            next_sibling_records: self.next_sibling_records@,
        }
    }
}

/// `s` made `n` long with `fill`, where it is shorter.
pub open spec fn grown<T>(s: Seq<T>, n: int, fill: T) -> Seq<T> {
    if s.len() >= n {
        s
    } else {
        s + Seq::new((n - s.len()) as nat, |i: int| fill)
    }
}

impl NodeTableView {
    /// All columns are as long.
    pub open spec fn wf(self) -> bool {
        &&& self.parent.len() == self.locals.len()
        &&& self.first_child.len() == self.locals.len()
        &&& self.next_sibling.len() == self.locals.len()
    }

    /// The table with a row for `slot`; new rows are roots without children.
    pub open spec fn ensured(self, slot: u32) -> NodeTableView {
        NodeTableView {
            locals: grown(self.locals, slot + 1, zero_local()),
            parent: grown(self.parent, slot + 1, ROOT_PARENT),
            first_child: grown(self.first_child, slot + 1, NO_NODE),
            next_sibling: grown(self.next_sibling, slot + 1, NO_NODE),
            ..self
        }
    }

    /// The table once the local of `slot` was set and recorded.
    pub open spec fn with_local(self, slot: u32, local: NodeLocal) -> NodeTableView {
        let t = self.ensured(slot);
        NodeTableView {
            locals: t.locals.update(slot as int, local),
            local_records: t.local_records.push(
                LocalRecord { slot, pad0: 0, pad1: 0, pad2: 0, local },
            ),
            ..t
        }
    }

    /// The table once the parent of `slot` was set and recorded.
    pub open spec fn with_parent(self, slot: u32, value: u32) -> NodeTableView {
        let t = self.ensured(slot);
        NodeTableView {
            parent: t.parent.update(slot as int, value),
            parent_records: t.parent_records.push(U32Record { slot, value }),
            ..t
        }
    }

    /// The table once the first child of `slot` was set and recorded.
    pub open spec fn with_first_child(self, slot: u32, value: u32) -> NodeTableView {
        let t = self.ensured(slot);
        NodeTableView {
            first_child: t.first_child.update(slot as int, value),
            first_child_records: t.first_child_records.push(U32Record { slot, value }),
            ..t
        }
    }

    /// The table once the next sibling of `slot` was set and recorded.
    pub open spec fn with_next_sibling(self, slot: u32, value: u32) -> NodeTableView {
        let t = self.ensured(slot);
        NodeTableView {
            next_sibling: t.next_sibling.update(slot as int, value),
            next_sibling_records: t.next_sibling_records.push(U32Record { slot, value }),
            ..t
        }
    }

    /// The table once each of `slots` but the last was linked to the one behind it.
    pub open spec fn with_links(self, slots: Seq<u32>) -> NodeTableView
        decreases slots.len(),
    {
        if slots.len() <= 1 {
            self
        } else {
            self.with_links(slots.drop_last()).with_next_sibling(
                slots[slots.len() - 2],
                slots.last(),
            )
        }
    }

    /// The table once `parent_slot` was given the child list `slots`.
    pub open spec fn with_chain(self, parent_slot: u32, slots: Seq<u32>) -> NodeTableView {
        if slots.len() == 0 {
            self.with_first_child(parent_slot, NO_NODE)
        } else {
            self.with_links(slots).with_next_sibling(slots.last(), NO_NODE).with_first_child(
                parent_slot,
                slots[0],
            )
        }
    }

    /// The table without deltas.
    pub open spec fn without_deltas(self) -> NodeTableView {
        NodeTableView {
            local_records: Seq::empty(),
            parent_records: Seq::empty(),
            first_child_records: Seq::empty(),
            next_sibling_records: Seq::empty(),
            ..self
        }
    }

    /// Anything changed.
    pub open spec fn has_deltas(self) -> bool {
        ||| self.local_records.len() > 0
        ||| self.parent_records.len() > 0
        ||| self.first_child_records.len() > 0
        ||| self.next_sibling_records.len() > 0
    }

    /// The changed words of all columns, one column after the other.
    pub open spec fn u32_records(self) -> Seq<U32Record> {
        self.parent_records + self.first_child_records + self.next_sibling_records
    }
}

/// The slots among `children`, in order.
pub open spec fn slotted(children: Seq<Option<u32>>) -> Seq<u32>
    decreases children.len(),
{
    if children.len() == 0 {
        Seq::empty()
    } else {
        match children.last() {
            Some(slot) => slotted(children.drop_last()).push(slot),
            None => slotted(children.drop_last()),
        }
    }
}

/// A row for the slot can be counted.
pub open spec fn countable(slot: u32) -> bool {
    slot + 1 <= usize::MAX
}

fn grow_column<T: Copy>(column: &mut Vec<T>, n: usize, fill: T)
    ensures
        final(column)@ == grown(old(column)@, n as int, fill),
{
    let ghost before = column@;
    assert(before.len() >= n || column@ =~= before + Seq::new(0, |i: int| fill));
    while column.len() < n
        invariant
            before.len() >= n ==> column@ == before,
            before.len() < n ==> column@.len() <= n && column@ == before + Seq::new(
                (column@.len() - before.len()) as nat,
                |i: int| fill,
            ),
        decreases n - column@.len(),
    {
        column.push(fill);
        assert(column@ =~= before + Seq::new(
            (column@.len() - before.len()) as nat,
            |i: int| fill,
        ));
    }
}

impl NodeTable {
    /// An empty table.
    pub fn new() -> (r: Self)
        ensures
            r@.wf(),
            r@.locals.len() == 0,
            !r@.has_deltas(),
    {
        NodeTable {
            locals: Vec::new(),
            parent: Vec::new(),
            first_child: Vec::new(),
            next_sibling: Vec::new(),
            local_records: Vec::new(),
            parent_records: Vec::new(),
            first_child_records: Vec::new(),
            next_sibling_records: Vec::new(),
        }
    }

    /// Makes a row for `slot`.
    pub fn ensure_node(&mut self, slot: u32)
        requires
            old(self)@.wf(),
            countable(slot),
        ensures
            final(self)@ == old(self)@.ensured(slot),
            final(self)@.wf(),
            slot < final(self)@.locals.len(),
    {
        let need: usize = slot as usize + 1;
        let zero = Vec4 { x: 0, y: 0, z: 0, w: 0 };
        grow_column(
            &mut self.locals,
            need,
            NodeLocal { rotation: zero, translation: zero, scale: zero },
        );
        grow_column(&mut self.parent, need, ROOT_PARENT);
        grow_column(&mut self.first_child, need, NO_NODE);
        grow_column(&mut self.next_sibling, need, NO_NODE);
    }

    /// Sets and records the local transform of `slot`.
    pub fn push_local(&mut self, slot: u32, local: NodeLocal)
        requires
            old(self)@.wf(),
            countable(slot),
        ensures
            final(self)@ == old(self)@.with_local(slot, local),
            final(self)@.wf(),
    {
        self.ensure_node(slot);
        self.locals[slot as usize] = local;
        self.local_records.push(LocalRecord { slot, pad0: 0, pad1: 0, pad2: 0, local });
    }

    /// Sets and records the parent of `slot`.
    pub fn push_parent(&mut self, slot: u32, value: u32)
        requires
            old(self)@.wf(),
            countable(slot),
        ensures
            final(self)@ == old(self)@.with_parent(slot, value),
            final(self)@.wf(),
    {
        self.ensure_node(slot);
        self.parent[slot as usize] = value;
        self.parent_records.push(U32Record { slot, value });
    }

    /// Sets and records the first child of `slot`.
    pub fn push_first_child(&mut self, slot: u32, value: u32)
        requires
            old(self)@.wf(),
            countable(slot),
        ensures
            final(self)@ == old(self)@.with_first_child(slot, value),
            final(self)@.wf(),
    {
        self.ensure_node(slot);
        self.first_child[slot as usize] = value;
        self.first_child_records.push(U32Record { slot, value });
    }

    /// Sets and records the next sibling of `slot`.
    pub fn push_next_sibling(&mut self, slot: u32, value: u32)
        requires
            old(self)@.wf(),
            countable(slot),
        ensures
            final(self)@ == old(self)@.with_next_sibling(slot, value),
            final(self)@.wf(),
    {
        self.ensure_node(slot);
        self.next_sibling[slot as usize] = value;
        self.next_sibling_records.push(U32Record { slot, value });
    }

    /// Writes a node's whole child chain: its first child plus each slotted child's next
    /// sibling, ended by [`NO_NODE`]. Children without a slot are skipped.
    pub fn push_chain(&mut self, parent_slot: u32, children: &Vec<Option<u32>>)
        requires
            old(self)@.wf(),
            countable(parent_slot),
            forall|i: int| 0 <= i < children@.len() ==> (#[trigger] children@[i] matches Some(s)
                ==> countable(s)),
        ensures
            final(self)@ == old(self)@.with_chain(parent_slot, slotted(children@)),
            final(self)@.wf(),
    {
        let mut head: u32 = NO_NODE;
        let mut prev: Option<u32> = None;
        let mut i: usize = 0;
        let ghost before = self@;
        while i < children.len()
            invariant
                i <= children@.len(),
                forall|i: int|
                    0 <= i < children@.len() ==> (#[trigger] children@[i] matches Some(s)
                        ==> countable(s)),
                self@.wf(),
                self@ == before.with_links(slotted(children@.take(i as int))),
                match prev {
                    None => slotted(children@.take(i as int)).len() == 0 && head == NO_NODE,
                    Some(p) => {
                        let s = slotted(children@.take(i as int));
                        s.len() > 0 && s.last() == p && s[0] == head && countable(p)
                    },
                },
            decreases children@.len() - i,
        {
            assert(children@.take(i + 1).drop_last() =~= children@.take(i as int));
            let ghost s = slotted(children@.take(i as int));
            if let Some(slot) = children[i] {
                assert(countable(slot));
                assert(s.push(slot).drop_last() =~= s);
                match prev {
                    None => {
                        head = slot;
                    },
                    Some(p) => {
                        self.push_next_sibling(p, slot);
                    },
                }
                prev = Some(slot);
            }
            i = i + 1;
        }
        assert(children@.take(i as int) =~= children@);
        if let Some(last) = prev {
            self.push_next_sibling(last, NO_NODE);
        }
        self.push_first_child(parent_slot, head);
    }

    /// Whether anything changed.
    pub fn has_deltas(&self) -> (r: bool)
        ensures
            r == self@.has_deltas(),
    {
        self.local_records.len() > 0 || self.parent_records.len() > 0
            || self.first_child_records.len() > 0 || self.next_sibling_records.len() > 0
    }

    /// Forgets what changed.
    pub fn clear_deltas(&mut self)
        ensures
            final(self)@ == old(self)@.without_deltas(),
    {
        self.local_records.clear();
        self.parent_records.clear();
        self.first_child_records.clear();
        self.next_sibling_records.clear();
    }

    /// The changed words as they are staged: the parents, the first children, the next
    /// siblings.
    pub fn u32_records(&self) -> (r: Vec<U32Record>)
        ensures
            r@ == self@.u32_records(),
    {
        let mut r: Vec<U32Record> = Vec::new();
        r.extend_from_slice(self.parent_records.as_slice());
        r.extend_from_slice(self.first_child_records.as_slice());
        r.extend_from_slice(self.next_sibling_records.as_slice());
        assert(r@ =~= self@.u32_records());
        r
    }
}

/// Links between distinct slots stay as they were made, and only they are changed.
proof fn lemma_links(t: NodeTableView, slots: Seq<u32>)
    requires
        t.wf(),
        slots.no_duplicates(),
    ensures
        t.with_links(slots).wf(),
        t.with_links(slots).locals.len() >= t.locals.len(),
        forall|i: int|
            0 <= i < slots.len() - 1 ==> (#[trigger] slots[i]) < t.with_links(
                slots,
            ).next_sibling.len() && t.with_links(slots).next_sibling[slots[i] as int] == slots[i
                + 1],
    decreases slots.len(),
{
    if slots.len() > 1 {
        let front = slots.drop_last();
        lemma_links(t, front);
        let before = t.with_links(front);
        let n = slots.len();
        assert forall|i: int| 0 <= i < n - 1 implies (#[trigger] slots[i]) < t.with_links(
            slots,
        ).next_sibling.len() && t.with_links(slots).next_sibling[slots[i] as int] == slots[i
            + 1] by {
            if i < n - 2 {
                assert(front[i] == slots[i] && front[i + 1] == slots[i + 1]);
                assert(slots[i] != slots[n - 2]);
            }
        }
    }
}

/// Following a node's first child and then next siblings meets exactly the children that it
/// was given, in order, and then ends.
pub proof fn lemma_chain_walk(t: NodeTableView, parent_slot: u32, slots: Seq<u32>)
    requires
        t.wf(),
        slots.no_duplicates(),
    ensures
        ({
            let after = t.with_chain(parent_slot, slots);
            &&& after.wf()
            &&& parent_slot < after.first_child.len()
            &&& slots.len() == 0 ==> after.first_child[parent_slot as int] == NO_NODE
            &&& slots.len() > 0 ==> after.first_child[parent_slot as int] == slots[0]
            &&& forall|i: int|
                0 <= i < slots.len() ==> (#[trigger] slots[i]) < after.next_sibling.len()
                    && after.next_sibling[slots[i] as int] == if i + 1 < slots.len() {
                    slots[i + 1]
                } else {
                    NO_NODE
                }
        }),
{
    lemma_links(t, slots);
    if slots.len() > 0 {
        let linked = t.with_links(slots);
        let ended = linked.with_next_sibling(slots.last(), NO_NODE);
        let n = slots.len();
        assert forall|i: int| 0 <= i < n implies (#[trigger] slots[i]) < ended.next_sibling.len()
            && ended.next_sibling[slots[i] as int] == if i + 1 < n {
            slots[i + 1]
        } else {
            NO_NODE
        } by {
            if i < n - 1 {
                assert(slots[i] != slots[n - 1]);
            }
        }
    }
}

// ---- what changed this frame ------------------------------------------------------------

/// A node whose transform or parent changed, or that is new.
#[derive(Debug)]
pub struct NodeChange {
    pub slot: u32,
    /// The node got its slot this frame.
    pub first: bool,
    pub transform_changed: bool,
    /// The node has a parent, and it changed.
    pub parent_changed: bool,
    pub local: NodeLocal,
    /// The slot of the node's parent, where the node has one and that has a slot.
    pub parent: Option<u32>,
    /// The slots of the node's children; `None` for a child without one.
    pub children: Vec<Option<u32>>,
}

/// A node whose list of children changed.
#[derive(Debug)]
pub struct ChildrenChange {
    pub slot: u32,
    /// The node got its slot this frame.
    pub first: bool,
    pub children: Vec<Option<u32>>,
}

/// A node that lost its parent.
#[derive(Clone, Copy, Debug, PartialEq, Eq, Structural)]
pub struct Orphan {
    pub slot: u32,
    pub local: NodeLocal,
}

/// What changed this frame.
#[derive(Debug)]
pub struct FrameChanges {
    pub changed: Vec<NodeChange>,
    pub children_changed: Vec<ChildrenChange>,
    /// Nodes that had children and have none now.
    pub childless: Vec<u32>,
    pub orphaned: Vec<Orphan>,
}

/// All slots of `children` can be counted.
pub open spec fn all_countable(children: Seq<Option<u32>>) -> bool {
    forall|i: int|
        0 <= i < children.len() ==> (#[trigger] children[i] matches Some(s) ==> countable(s))
}

/// All slots that changed can be counted.
pub open spec fn changes_countable(changes: FrameChanges) -> bool {
    &&& forall|i: int|
        0 <= i < changes.changed@.len() ==> countable((#[trigger] changes.changed@[i]).slot)
            && all_countable(changes.changed@[i].children@)
    &&& forall|i: int|
        0 <= i < changes.children_changed@.len() ==> countable(
            (#[trigger] changes.children_changed@[i]).slot,
        ) && all_countable(changes.children_changed@[i].children@)
    &&& forall|i: int|
        0 <= i < changes.childless@.len() ==> countable(#[trigger] changes.childless@[i])
    &&& forall|i: int|
        0 <= i < changes.orphaned@.len() ==> countable((#[trigger] changes.orphaned@[i]).slot)
}

impl NodeTableView {
    /// The table once one changed node was mirrored: its local where it is new, moved or has
    /// another parent; its parent where it is new or has another one; its children where it
    /// is new.
    pub open spec fn with_change(self, c: NodeChange) -> NodeTableView {
        let t1 = if c.first || c.transform_changed || c.parent_changed {
            self.with_local(c.slot, c.local)
        } else {
            self
        };
        let t2 = if c.first || c.parent_changed {
            t1.with_parent(
                c.slot,
                match c.parent {
                    Some(p) => p,
                    None => ROOT_PARENT,
                },
            )
        } else {
            t1
        };
        if c.first {
            t2.with_chain(c.slot, slotted(c.children@))
        } else {
            t2
        }
    }

    pub open spec fn with_changed(self, changed: Seq<NodeChange>) -> NodeTableView
        decreases changed.len(),
    {
        if changed.len() == 0 {
            self
        } else {
            self.with_changed(changed.drop_last()).with_change(changed.last())
        }
    }

    /// The table once changed lists of children were mirrored; a new node's list was already.
    pub open spec fn with_children_changed(self, changed: Seq<ChildrenChange>) -> NodeTableView
        decreases changed.len(),
    {
        if changed.len() == 0 {
            self
        } else {
            let t = self.with_children_changed(changed.drop_last());
            let c = changed.last();
            if c.first {
                t
            } else {
                t.with_chain(c.slot, slotted(c.children@))
            }
        }
    }

    pub open spec fn with_childless(self, childless: Seq<u32>) -> NodeTableView
        decreases childless.len(),
    {
        if childless.len() == 0 {
            self
        } else {
            self.with_childless(childless.drop_last()).with_first_child(childless.last(), NO_NODE)
        }
    }

    /// The table once orphans became roots; their locals are recorded again.
    pub open spec fn with_orphaned(self, orphaned: Seq<Orphan>) -> NodeTableView
        decreases orphaned.len(),
    {
        if orphaned.len() == 0 {
            self
        } else {
            let o = orphaned.last();
            self.with_orphaned(orphaned.drop_last()).with_parent(o.slot, ROOT_PARENT).with_local(
                o.slot,
                o.local,
            )
        }
    }

    /// The table once the changes of a frame were mirrored.
    pub open spec fn with_frame(self, changes: FrameChanges) -> NodeTableView {
        self.with_changed(changes.changed@).with_children_changed(
            changes.children_changed@,
        ).with_childless(changes.childless@).with_orphaned(changes.orphaned@)
    }
}

// ---- what the deltas say
// -------------------------------------------------------------------------

/// A column once values were written to their slots, in order.
pub open spec fn scattered<T>(column: Seq<T>, writes: Seq<(u32, T)>) -> Seq<T>
    decreases writes.len(),
{
    if writes.len() == 0 {
        column
    } else {
        scattered(column, writes.drop_last()).update(writes.last().0 as int, writes.last().1)
    }
}

/// Every write is to a row that there is.
pub open spec fn writes_within<T>(writes: Seq<(u32, T)>, n: int) -> bool {
    forall|i: int| 0 <= i < writes.len() ==> (#[trigger] writes[i]).0 < n
}

/// The writes that changed locals say.
pub open spec fn local_writes(records: Seq<LocalRecord>) -> Seq<(u32, NodeLocal)> {
    records.map_values(|r: LocalRecord| (r.slot, r.local))
}

/// The writes that changed words say.
pub open spec fn word_writes(records: Seq<U32Record>) -> Seq<(u32, u32)> {
    records.map_values(|r: U32Record| (r.slot, r.value))
}

/// A column is an earlier one, made longer, with these writes.
pub open spec fn column_told<T>(before: Seq<T>, after: Seq<T>, fill: T, writes: Seq<(u32,
    T)>) -> bool {
    &&& before.len() <= after.len()
    &&& writes_within(writes, after.len() as int)
    &&& after == scattered(grown(before, after.len() as int, fill), writes)
}

/// The deltas of `t` tell all that differs from `base`: a device that holds `base`, makes its
/// columns as long and writes the deltas, holds `t`.
pub open spec fn deltas_tell(base: NodeTableView, t: NodeTableView) -> bool {
    &&& t.wf()
    &&& column_told(base.locals, t.locals, zero_local(), local_writes(t.local_records))
    &&& column_told(base.parent, t.parent, ROOT_PARENT, word_writes(t.parent_records))
    &&& column_told(base.first_child, t.first_child, NO_NODE, word_writes(t.first_child_records))
    &&& column_told(
        base.next_sibling,
        t.next_sibling,
        NO_NODE,
        word_writes(t.next_sibling_records),
    )
}

proof fn lemma_scattered_len<T>(column: Seq<T>, writes: Seq<(u32, T)>)
    requires
        writes_within(writes, column.len() as int),
    ensures
        scattered(column, writes).len() == column.len(),
    decreases writes.len(),
{
    if writes.len() > 0 {
        let front = writes.drop_last();
        assert forall|i: int| 0 <= i < front.len() implies (#[trigger] front[i]).0
            < column.len() by {
            assert(front[i] == writes[i]);
        }
        assert(writes[writes.len() - 1].0 < column.len());
        lemma_scattered_len(column, front);
    }
}

/// Rows behind all writes can be added before or after them.
proof fn lemma_scattered_grown<T>(column: Seq<T>, writes: Seq<(u32, T)>, n: int, fill: T)
    requires
        writes_within(writes, column.len() as int),
    ensures
        grown(scattered(column, writes), n, fill) == scattered(grown(column, n, fill), writes),
    decreases writes.len(),
{
    lemma_scattered_len(column, writes);
    if writes.len() > 0 {
        let front = writes.drop_last();
        assert(writes_within(front, column.len() as int)) by {
            assert forall|i: int| 0 <= i < front.len() implies (#[trigger] front[i]).0
                < column.len() by {
                assert(front[i] == writes[i]);
            }
        }
        assert(writes[writes.len() - 1].0 < column.len());
        lemma_scattered_len(column, front);
        lemma_scattered_grown(column, front, n, fill);
        assert(grown(scattered(column, writes), n, fill) =~= grown(
            scattered(column, front),
            n,
            fill,
        ).update(writes.last().0 as int, writes.last().1));
    }
}

proof fn lemma_told_grown<T>(
    before: Seq<T>,
    after: Seq<T>,
    fill: T,
    writes: Seq<(u32, T)>,
    n: int,
)
    requires
        column_told(before, after, fill, writes),
    ensures
        column_told(before, grown(after, n, fill), fill, writes),
{
    let long = grown(before, after.len() as int, fill);
    let more = grown(after, n, fill);
    lemma_scattered_len(long, writes);
    lemma_scattered_grown(long, writes, n, fill);
    assert(grown(long, n, fill) =~= grown(before, more.len() as int, fill));
    assert(writes_within(writes, more.len() as int));
}

proof fn lemma_told_write<T>(
    before: Seq<T>,
    after: Seq<T>,
    fill: T,
    writes: Seq<(u32, T)>,
    slot: u32,
    value: T,
)
    requires
        column_told(before, after, fill, writes),
        slot < after.len(),
    ensures
        column_told(before, after.update(slot as int, value), fill, writes.push((slot, value))),
{
    let all = writes.push((slot, value));
    assert(all.drop_last() =~= writes);
    assert forall|i: int| 0 <= i < all.len() implies (#[trigger] all[i]).0 < after.len() by {
        if i < writes.len() {
            assert(all[i] == writes[i]);
        }
    }
}

proof fn lemma_told_ensured(base: NodeTableView, t: NodeTableView, slot: u32)
    requires
        deltas_tell(base, t),
    ensures
        deltas_tell(base, t.ensured(slot)),
        slot < t.ensured(slot).locals.len(),
{
    let n = slot + 1;
    lemma_told_grown(base.locals, t.locals, zero_local(), local_writes(t.local_records), n);
    lemma_told_grown(base.parent, t.parent, ROOT_PARENT, word_writes(t.parent_records), n);
    lemma_told_grown(
        base.first_child,
        t.first_child,
        NO_NODE,
        word_writes(t.first_child_records),
        n,
    );
    lemma_told_grown(
        base.next_sibling,
        t.next_sibling,
        NO_NODE,
        word_writes(t.next_sibling_records),
        n,
    );
}

proof fn lemma_told_local(base: NodeTableView, t: NodeTableView, slot: u32, local: NodeLocal)
    requires
        deltas_tell(base, t),
    ensures
        deltas_tell(base, t.with_local(slot, local)),
{
    let e = t.ensured(slot);
    lemma_told_ensured(base, t, slot);
    lemma_told_write(
        base.locals,
        e.locals,
        zero_local(),
        local_writes(e.local_records),
        slot,
        local,
    );
    assert(local_writes(t.with_local(slot, local).local_records) =~= local_writes(
        e.local_records,
    ).push((slot, local)));
}

proof fn lemma_told_parent(base: NodeTableView, t: NodeTableView, slot: u32, value: u32)
    requires
        deltas_tell(base, t),
    ensures
        deltas_tell(base, t.with_parent(slot, value)),
{
    let e = t.ensured(slot);
    lemma_told_ensured(base, t, slot);
    lemma_told_write(
        base.parent,
        e.parent,
        ROOT_PARENT,
        word_writes(e.parent_records),
        slot,
        value,
    );
    assert(word_writes(t.with_parent(slot, value).parent_records) =~= word_writes(
        e.parent_records,
    ).push((slot, value)));
}

proof fn lemma_told_first_child(base: NodeTableView, t: NodeTableView, slot: u32, value: u32)
    requires
        deltas_tell(base, t),
    ensures
        deltas_tell(base, t.with_first_child(slot, value)),
{
    let e = t.ensured(slot);
    lemma_told_ensured(base, t, slot);
    lemma_told_write(
        base.first_child,
        e.first_child,
        NO_NODE,
        word_writes(e.first_child_records),
        slot,
        value,
    );
    assert(word_writes(t.with_first_child(slot, value).first_child_records) =~= word_writes(
        e.first_child_records,
    ).push((slot, value)));
}

proof fn lemma_told_next_sibling(base: NodeTableView, t: NodeTableView, slot: u32, value: u32)
    requires
        deltas_tell(base, t),
    ensures
        deltas_tell(base, t.with_next_sibling(slot, value)),
{
    let e = t.ensured(slot);
    lemma_told_ensured(base, t, slot);
    lemma_told_write(
        base.next_sibling,
        e.next_sibling,
        NO_NODE,
        word_writes(e.next_sibling_records),
        slot,
        value,
    );
    assert(word_writes(t.with_next_sibling(slot, value).next_sibling_records) =~= word_writes(
        e.next_sibling_records,
    ).push((slot, value)));
}

proof fn lemma_told_links(base: NodeTableView, t: NodeTableView, slots: Seq<u32>)
    requires
        deltas_tell(base, t),
    ensures
        deltas_tell(base, t.with_links(slots)),
    decreases slots.len(),
{
    if slots.len() > 1 {
        lemma_told_links(base, t, slots.drop_last());
        lemma_told_next_sibling(
            base,
            t.with_links(slots.drop_last()),
            slots[slots.len() - 2],
            slots.last(),
        );
    }
}

proof fn lemma_told_chain(base: NodeTableView, t: NodeTableView, parent: u32, slots: Seq<u32>)
    requires
        deltas_tell(base, t),
    ensures
        deltas_tell(base, t.with_chain(parent, slots)),
{
    if slots.len() == 0 {
        lemma_told_first_child(base, t, parent, NO_NODE);
    } else {
        lemma_told_links(base, t, slots);
        let linked = t.with_links(slots);
        lemma_told_next_sibling(base, linked, slots.last(), NO_NODE);
        lemma_told_first_child(
            base,
            linked.with_next_sibling(slots.last(), NO_NODE),
            parent,
            slots[0],
        );
    }
}

proof fn lemma_told_change(base: NodeTableView, t: NodeTableView, c: NodeChange)
    requires
        deltas_tell(base, t),
    ensures
        deltas_tell(base, t.with_change(c)),
{
    let parent = match c.parent {
        Some(p) => p,
        None => ROOT_PARENT,
    };
    lemma_told_local(base, t, c.slot, c.local);
    let t1 = if c.first || c.transform_changed || c.parent_changed {
        t.with_local(c.slot, c.local)
    } else {
        t
    };
    lemma_told_parent(base, t1, c.slot, parent);
    let t2 = if c.first || c.parent_changed {
        t1.with_parent(c.slot, parent)
    } else {
        t1
    };
    lemma_told_chain(base, t2, c.slot, slotted(c.children@));
}

proof fn lemma_told_changed(base: NodeTableView, t: NodeTableView, changed: Seq<NodeChange>)
    requires
        deltas_tell(base, t),
    ensures
        deltas_tell(base, t.with_changed(changed)),
    decreases changed.len(),
{
    if changed.len() > 0 {
        lemma_told_changed(base, t, changed.drop_last());
        lemma_told_change(base, t.with_changed(changed.drop_last()), changed.last());
    }
}

proof fn lemma_told_children(base: NodeTableView, t: NodeTableView, changed: Seq<ChildrenChange>)
    requires
        deltas_tell(base, t),
    ensures
        deltas_tell(base, t.with_children_changed(changed)),
    decreases changed.len(),
{
    if changed.len() > 0 {
        let front = t.with_children_changed(changed.drop_last());
        lemma_told_children(base, t, changed.drop_last());
        lemma_told_chain(base, front, changed.last().slot, slotted(changed.last().children@));
    }
}

proof fn lemma_told_childless(base: NodeTableView, t: NodeTableView, childless: Seq<u32>)
    requires
        deltas_tell(base, t),
    ensures
        deltas_tell(base, t.with_childless(childless)),
    decreases childless.len(),
{
    if childless.len() > 0 {
        lemma_told_childless(base, t, childless.drop_last());
        lemma_told_first_child(
            base,
            t.with_childless(childless.drop_last()),
            childless.last(),
            NO_NODE,
        );
    }
}

proof fn lemma_told_orphaned(base: NodeTableView, t: NodeTableView, orphaned: Seq<Orphan>)
    requires
        deltas_tell(base, t),
    ensures
        deltas_tell(base, t.with_orphaned(orphaned)),
    decreases orphaned.len(),
{
    if orphaned.len() > 0 {
        let o = orphaned.last();
        let front = t.with_orphaned(orphaned.drop_last());
        lemma_told_orphaned(base, t, orphaned.drop_last());
        lemma_told_parent(base, front, o.slot, ROOT_PARENT);
        lemma_told_local(base, front.with_parent(o.slot, ROOT_PARENT), o.slot, o.local);
    }
}

/// The deltas of a frame tell all that the frame changed: a device that held the table before
/// it, and writes them in order, holds the table after it.
pub proof fn lemma_deltas_tell_all(base: NodeTableView, changes: FrameChanges)
    requires
        base.wf(),
        !base.has_deltas(),
    ensures
        deltas_tell(base, base.with_frame(changes)),
{
    assert(deltas_tell(base, base)) by {
        assert(local_writes(base.local_records) =~= Seq::empty());
        assert(word_writes(base.parent_records) =~= Seq::empty());
        assert(word_writes(base.first_child_records) =~= Seq::empty());
        assert(word_writes(base.next_sibling_records) =~= Seq::empty());
    }
    lemma_told_changed(base, base, changes.changed@);
    let t1 = base.with_changed(changes.changed@);
    lemma_told_children(base, t1, changes.children_changed@);
    let t2 = t1.with_children_changed(changes.children_changed@);
    lemma_told_childless(base, t2, changes.childless@);
    lemma_told_orphaned(base, t2.with_childless(changes.childless@), changes.orphaned@);
}

impl NodeTable {
    fn apply_change(&mut self, c: &NodeChange)
        requires
            old(self)@.wf(),
            countable(c.slot),
            all_countable(c.children@),
        ensures
            final(self)@ == old(self)@.with_change(*c),
            final(self)@.wf(),
    {
        if c.first || c.transform_changed || c.parent_changed {
            self.push_local(c.slot, c.local);
        }
        if c.first || c.parent_changed {
            let parent: u32 = match c.parent {
                Some(p) => p,
                None => ROOT_PARENT,
            };
            self.push_parent(c.slot, parent);
        }
        if c.first {
            self.push_chain(c.slot, &c.children);
        }
    }

    /// Mirrors the changes of a frame. Each column is recorded only where its own source
    /// changed.
    pub fn extract(&mut self, changes: &FrameChanges)
        requires
            old(self)@.wf(),
            changes_countable(*changes),
        ensures
            final(self)@ == old(self)@.with_frame(*changes),
            final(self)@.wf(),
    {
        let ghost t0 = self@;
        let mut i: usize = 0;
        while i < changes.changed.len()
            invariant
                i <= changes.changed@.len(),
                changes_countable(*changes),
                self@ == t0.with_changed(changes.changed@.take(i as int)),
                self@.wf(),
            decreases changes.changed@.len() - i,
        {
            assert(changes.changed@.take(i + 1).drop_last() =~= changes.changed@.take(i as int));
            self.apply_change(&changes.changed[i]);
            i = i + 1;
        }
        assert(changes.changed@.take(i as int) =~= changes.changed@);
        let ghost t1 = self@;
        i = 0;
        while i < changes.children_changed.len()
            invariant
                i <= changes.children_changed@.len(),
                changes_countable(*changes),
                self@ == t1.with_children_changed(changes.children_changed@.take(i as int)),
                self@.wf(),
            decreases changes.children_changed@.len() - i,
        {
            assert(changes.children_changed@.take(i + 1).drop_last()
                =~= changes.children_changed@.take(i as int));
            let c: &ChildrenChange = &changes.children_changed[i];
            if !c.first {
                self.push_chain(c.slot, &c.children);
            }
            i = i + 1;
        }
        assert(changes.children_changed@.take(i as int) =~= changes.children_changed@);
        let ghost t2 = self@;
        i = 0;
        while i < changes.childless.len()
            invariant
                i <= changes.childless@.len(),
                changes_countable(*changes),
                self@ == t2.with_childless(changes.childless@.take(i as int)),
                self@.wf(),
            decreases changes.childless@.len() - i,
        {
            assert(changes.childless@.take(i + 1).drop_last()
                =~= changes.childless@.take(i as int));
            self.push_first_child(changes.childless[i], NO_NODE);
            i = i + 1;
        }
        assert(changes.childless@.take(i as int) =~= changes.childless@);
        let ghost t3 = self@;
        i = 0;
        while i < changes.orphaned.len()
            invariant
                i <= changes.orphaned@.len(),
                changes_countable(*changes),
                self@ == t3.with_orphaned(changes.orphaned@.take(i as int)),
                self@.wf(),
            decreases changes.orphaned@.len() - i,
        {
            assert(changes.orphaned@.take(i + 1).drop_last() =~= changes.orphaned@.take(i as int));
            let o: Orphan = changes.orphaned[i];
            self.push_parent(o.slot, ROOT_PARENT);
            self.push_local(o.slot, o.local);
            i = i + 1;
        }
        assert(changes.orphaned@.take(i as int) =~= changes.orphaned@);
    }
}

// ---- the device table -------------------------------------------------------------------

/// The columns of the device table, and what the kernels need beside them.
#[derive(Clone, Copy, Debug, PartialEq, Eq, Structural)]
pub struct TransformBuffers {
    pub locals: Buffer,
    pub parent: Buffer,
    pub first_child: Buffer,
    pub next_sibling: Buffer,
    pub world: Buffer,
    pub epoch: Buffer,
    pub frontier: Buffer,
    pub indirect: Buffer,
}

/// The transform table: its mirror, and its state on the device.
#[derive(Debug)]
pub struct GpuTransforms {
    pub table: NodeTable,
    pub node_count: u32,
    /// Nodes that the device table has room for.
    pub capacity: u32,
    pub buffers: TransformBuffers,
    pub staging_locals: Buffer,
    pub staging_u32: Buffer,
    pub frame_id: u32,
    pub needs_full_rebuild: bool,
    pub warned_module: bool,
}

/// What a frame needs next of the device before the table's commands can be recorded.
#[derive(Clone, Copy, Debug, PartialEq, Eq, Structural)]
pub enum TransformStep {
    /// Nothing is recorded this frame; `warn` where the kernels are missing for the first
    /// time.
    Skip { warn: bool },
    /// The table must be made anew for `capacity` nodes.
    Grow { capacity: u32 },
    /// The staging buffers must be made anew for so many records; `None` where one is large
    /// enough.
    Stage { locals: Option<u64>, words: Option<u64> },
    /// The commands can be recorded.
    Record,
}

/// What a staging buffer is made for so that it holds `len` records.
pub open spec fn staging_capacity(len: int) -> int {
    power_of_two_from(
        if len < MIN_STAGING {
            MIN_STAGING as nat
        } else {
            len as nat
        },
    ) as int
}

/// What a staging buffer must be made anew for so that it holds `len` records; `None` where it
/// is large enough.
pub open spec fn staging_need(buffer: Buffer, len: int) -> Option<u64> {
    if len <= buffer.len {
        None
    } else {
        Some(staging_capacity(len) as u64)
    }
}

/// What a staging buffer must be made anew for so that it holds `len` records; `None` where it
/// is large enough.
pub fn ensure_staging(buffer: Buffer, len: usize) -> (r: Option<u64>)
    requires
        len <= 0x8000_0000_0000_0000,
    ensures
        r == staging_need(buffer, len as int),
        r matches Some(capacity) ==> capacity >= len,
{
    if len as u64 <= buffer.len {
        return None;
    }
    let wanted: u64 = if (len as u64) < MIN_STAGING {
        MIN_STAGING
    } else {
        len as u64
    };
    Some(next_power_of_two(wanted))
}

/// Nodes that the device table is made for so that it holds `node_count`.
pub open spec fn table_capacity(node_count: u32) -> int {
    power_of_two_from(
        if node_count < MIN_CAPACITY {
            MIN_CAPACITY as nat
        } else {
            node_count as nat
        },
    ) as int
}

/// A command where it is asked for, else none.
pub open spec fn only_if(asked: bool, c: Command) -> Seq<Command> {
    if asked {
        seq![c]
    } else {
        Seq::empty()
    }
}

/// Makes transfers visible to the kernels' reads and writes.
pub open spec fn transfer_to_kernels() -> Command {
    barrier(
        STAGE_TRANSFER,
        ACCESS_TRANSFER_WRITE,
        STAGE_COMPUTE_SHADER,
        ACCESS_SHADER_READ | ACCESS_SHADER_WRITE,
    )
}

impl GpuTransforms {
    /// The mirror's columns are as long, and the device's limits hold.
    pub open spec fn wf(self) -> bool {
        &&& self.table@.wf()
        &&& self.node_count <= 0x8000_0000
        &&& self.table@.local_records.len() <= u32::MAX
        &&& self.table@.u32_records().len() <= u32::MAX
    }

    /// A table that nothing is in.
    pub fn new() -> (r: Self)
        ensures
            r.wf(),
            r.node_count == 0,
            r.capacity == 0,
            r.table@.locals.len() == 0,
            !r.table@.has_deltas(),
            r.buffers == (TransformBuffers {
                locals: no_buffer(),
                parent: no_buffer(),
                first_child: no_buffer(),
                next_sibling: no_buffer(),
                world: no_buffer(),
                epoch: no_buffer(),
                frontier: no_buffer(),
                indirect: no_buffer(),
            }),
            r.staging_locals == no_buffer(),
            r.staging_u32 == no_buffer(),
            r.frame_id == 0,
            r.needs_full_rebuild,
            !r.warned_module,
    {
        let none: Buffer = Buffer::default();
        GpuTransforms {
            table: NodeTable::new(),
            node_count: 0,
            capacity: 0,
            buffers: TransformBuffers {
                locals: none,
                parent: none,
                first_child: none,
                next_sibling: none,
                world: none,
                epoch: none,
                frontier: none,
                indirect: none,
            },
            staging_locals: none,
            staging_u32: none,
            frame_id: 0,
            needs_full_rebuild: true,
            warned_module: false,
        }
    }

    /// Device address of the table of world transforms (0 until it is made) and the nodes
    /// that it covers.
    pub fn world(&self) -> (r: (u64, u32))
        ensures
            r == (self.buffers.world.address, self.node_count),
    {
        (self.buffers.world.address, self.node_count)
    }

    /// Whether a frame sends deltas, rather than the whole table or nothing.
    pub open spec fn sends_deltas(self) -> bool {
        !self.needs_full_rebuild && self.table@.has_deltas()
    }

    /// What the next step of a frame is.
    pub open spec fn step(self, module_ready: bool) -> TransformStep {
        let locals = staging_need(self.staging_locals, self.table@.local_records.len() as int);
        let words = staging_need(self.staging_u32, self.table@.u32_records().len() as int);
        if self.node_count == 0 {
            TransformStep::Skip { warn: false }
        } else if !module_ready {
            TransformStep::Skip { warn: !self.warned_module }
        } else if self.node_count > self.capacity {
            TransformStep::Grow { capacity: table_capacity(self.node_count) as u32 }
        } else if self.sends_deltas() && (locals is Some || words is Some) {
            TransformStep::Stage { locals, words }
        } else {
            TransformStep::Record
        }
    }

    /// Decides the next step of a frame. A frame that is skipped drops its deltas, which the
    /// mirror holds; one that is skipped for want of kernels makes the next one send the whole
    /// table.
    pub fn next_step(&mut self, module_ready: bool) -> (r: TransformStep)
        requires
            old(self).wf(),
        ensures
            r == old(self).step(module_ready),
            final(self).wf(),
            r is Skip ==> final(self).table@ == old(self).table@.without_deltas(),
            !(r is Skip) ==> final(self).table@ == old(self).table@,
            final(self).needs_full_rebuild == (old(self).needs_full_rebuild || (
            old(self).node_count > 0 && !module_ready)),
            final(self).warned_module == (old(self).warned_module || (old(self).node_count > 0
                && !module_ready)),
            final(self).node_count == old(self).node_count,
            final(self).capacity == old(self).capacity,
            final(self).buffers == old(self).buffers,
            final(self).staging_locals == old(self).staging_locals,
            final(self).staging_u32 == old(self).staging_u32,
            final(self).frame_id == old(self).frame_id,
    {
        if self.node_count == 0 {
            self.table.clear_deltas();
            return TransformStep::Skip { warn: false };
        }
        if !module_ready {
            let warn: bool = !self.warned_module;
            self.warned_module = true;
            self.table.clear_deltas();
            self.needs_full_rebuild = true;
            return TransformStep::Skip { warn };
        }
        if self.node_count > self.capacity {
            let wanted: u32 = if self.node_count < MIN_CAPACITY {
                MIN_CAPACITY
            } else {
                self.node_count
            };
            let capacity: u64 = next_power_of_two(wanted as u64);
            proof {
                lemma_capacity_fits(self.node_count);
            }
            return TransformStep::Grow { capacity: capacity as u32 };
        }
        if !self.needs_full_rebuild && self.table.has_deltas() {
            let words_len: usize = self.table.parent_records.len()
                + self.table.first_child_records.len() + self.table.next_sibling_records.len();
            let locals: Option<u64> = ensure_staging(
                self.staging_locals,
                self.table.local_records.len(),
            );
            let words: Option<u64> = ensure_staging(self.staging_u32, words_len);
            if locals.is_some() || words.is_some() {
                return TransformStep::Stage { locals, words };
            }
        }
        TransformStep::Record
    }

    /// The handles of the device table, in the order in which they are given up.
    pub fn device_buffers(&self) -> (r: Vec<u64>)
        ensures
            r@ == seq![
                self.buffers.parent.handle,
                self.buffers.first_child.handle,
                self.buffers.next_sibling.handle,
                self.buffers.epoch.handle,
                self.buffers.frontier.handle,
                self.buffers.indirect.handle,
                self.buffers.locals.handle,
                self.buffers.world.handle,
            ],
    {
        let r: Vec<u64> = vec![
            self.buffers.parent.handle,
            self.buffers.first_child.handle,
            self.buffers.next_sibling.handle,
            self.buffers.epoch.handle,
            self.buffers.frontier.handle,
            self.buffers.indirect.handle,
            self.buffers.locals.handle,
            self.buffers.world.handle,
        ];
        assert(r@ =~= seq![
            self.buffers.parent.handle,
            self.buffers.first_child.handle,
            self.buffers.next_sibling.handle,
            self.buffers.epoch.handle,
            self.buffers.frontier.handle,
            self.buffers.indirect.handle,
            self.buffers.locals.handle,
            self.buffers.world.handle,
        ]);
        r
    }

    /// Elements of the frontier for a table of `capacity` nodes.
    pub fn frontier_len(capacity: u32) -> (r: u64)
        ensures
            r == FRONTIER_HEADER + capacity,
    {
        FRONTIER_HEADER + capacity as u64
    }

    /// Takes over a device table made for `capacity` nodes. What the kernels read before they
    /// write is cleared, and the whole table is sent next.
    pub fn grow(&mut self, capacity: u32, buffers: TransformBuffers) -> (r: Vec<Command>)
        requires
            old(self).wf(),
        ensures
            final(self).wf(),
            final(self).capacity == capacity,
            final(self).buffers == buffers,
            final(self).needs_full_rebuild,
            final(self).table@ == old(self).table@,
            final(self).node_count == old(self).node_count,
            final(self).staging_locals == old(self).staging_locals,
            final(self).staging_u32 == old(self).staging_u32,
            final(self).frame_id == old(self).frame_id,
            final(self).warned_module == old(self).warned_module,
            r@ == seq![
                Command::Clear { buffer: buffers.epoch.handle, size: WHOLE_SIZE },
                Command::Clear { buffer: buffers.indirect.handle, size: WHOLE_SIZE },
                Command::Clear { buffer: buffers.world.handle, size: WHOLE_SIZE },
            ],
    {
        self.buffers = buffers;
        self.capacity = capacity;
        self.needs_full_rebuild = true;
        let r: Vec<Command> = vec![
            Command::Clear { buffer: buffers.epoch.handle, size: WHOLE_SIZE },
            Command::Clear { buffer: buffers.indirect.handle, size: WHOLE_SIZE },
            Command::Clear { buffer: buffers.world.handle, size: WHOLE_SIZE },
        ];
        assert(r@ =~= seq![
            Command::Clear { buffer: buffers.epoch.handle, size: WHOLE_SIZE },
            Command::Clear { buffer: buffers.indirect.handle, size: WHOLE_SIZE },
            Command::Clear { buffer: buffers.world.handle, size: WHOLE_SIZE },
        ]);
        r
    }

    /// Takes over staging buffers that were made anew.
    pub fn stage(&mut self, locals: Option<Buffer>, words: Option<Buffer>)
        requires
            old(self).wf(),
        ensures
            final(self).wf(),
            final(self).staging_locals == (match locals {
                Some(b) => b,
                None => old(self).staging_locals,
            }),
            final(self).staging_u32 == (match words {
                Some(b) => b,
                None => old(self).staging_u32,
            }),
            final(self).table@ == old(self).table@,
            final(self).node_count == old(self).node_count,
            final(self).capacity == old(self).capacity,
            final(self).buffers == old(self).buffers,
            final(self).frame_id == old(self).frame_id,
            final(self).needs_full_rebuild == old(self).needs_full_rebuild,
            final(self).warned_module == old(self).warned_module,
    {
        if let Some(b) = locals {
            self.staging_locals = b;
        }
        if let Some(b) = words {
            self.staging_u32 = b;
        }
    }

    // ---- the commands of a frame ----

    /// The commands that send the whole table and recompose every node.
    pub open spec fn rebuild_commands(self) -> Seq<Command> {
        let n = self.node_count as u64;
        seq![
            Command::Upload { source: Source::NodeLocals, dst: self.buffers.locals.handle,
                count: n },
            Command::Upload { source: Source::NodeParents, dst: self.buffers.parent.handle,
                count: n },
            Command::Upload {
                source: Source::NodeFirstChildren,
                dst: self.buffers.first_child.handle,
                count: n,
            },
            Command::Upload {
                source: Source::NodeNextSiblings,
                dst: self.buffers.next_sibling.handle,
                count: n,
            },
            transfer_to_kernels(),
            Command::Dispatch {
                kernel: Kernel::Propagate,
                params: Params::Propagate(self.propagate_params(self.node_count, 1)),
                threads: self.node_count,
            },
            compute_to_compute(),
        ]
    }

    pub open spec fn propagate_params(self, count: u32, full_rebuild: u32) -> PropagateParams {
        PropagateParams {
            locals: self.buffers.locals.address,
            parent: self.buffers.parent.address,
            world: self.buffers.world.address,
            frontier: self.buffers.frontier.address,
            count,
            base: 0,
            full_rebuild,
            node_count: self.node_count,
        }
    }

    /// The dispatch that scatters `count` changed words, which stand behind `before` others.
    pub open spec fn scatter_words(self, before: int, count: int, dst: u64) -> Command {
        Command::Dispatch {
            kernel: Kernel::ScatterU32,
            params: Params::ScatterU32(
                ScatterU32Params {
                    records: (self.staging_u32.address + 8 * before) as u64,
                    dst,
                    count: count as u32,
                    base: 0,
                },
            ),
            threads: count as u32,
        }
    }

    /// The dispatches that scatter what changed, column by column.
    pub open spec fn scatter_commands(self) -> Seq<Command> {
        let t = self.table@;
        let n_locals = t.local_records.len() as u32;
        let n1 = t.parent_records.len() as int;
        let n2 = t.first_child_records.len() as int;
        let n3 = t.next_sibling_records.len() as int;
        only_if(
            n_locals > 0,
            Command::Dispatch {
                kernel: Kernel::ScatterLocals,
                params: Params::ScatterLocals(
                    ScatterLocalsParams {
                        records: self.staging_locals.address,
                        locals: self.buffers.locals.address,
                        count: n_locals,
                        base: 0,
                    },
                ),
                threads: n_locals,
            },
        ) + only_if(n1 > 0, self.scatter_words(0, n1, self.buffers.parent.address)) + only_if(
            n2 > 0,
            self.scatter_words(n1, n2, self.buffers.first_child.address),
        ) + only_if(n3 > 0, self.scatter_words(n1 + n2, n3, self.buffers.next_sibling.address))
    }

    /// Publishes the size of the frontier.
    pub open spec fn finalize_command(self) -> Command {
        Command::Dispatch {
            kernel: Kernel::FrontierFinalize,
            params: Params::FrontierFinalize(
                FrontierFinalizeParams {
                    frontier: self.buffers.frontier.address,
                    indirect: self.buffers.indirect.address,
                },
            ),
            threads: 1,
        }
    }

    /// The commands that expand the frontier by one level.
    pub open spec fn level_commands(self, frame_id: u32, level: int) -> Seq<Command> {
        seq![
            self.finalize_command(),
            compute_to_compute(),
            Command::DispatchIndirect {
                kernel: Kernel::FrontierExpand,
                params: Params::FrontierExpand(
                    FrontierExpandParams {
                        first_child: self.buffers.first_child.address,
                        next_sibling: self.buffers.next_sibling.address,
                        frontier: self.buffers.frontier.address,
                        epoch: self.buffers.epoch.address,
                        frame_id,
                        node_count: self.node_count,
                    },
                ),
                buffer: self.buffers.indirect.handle,
                offset: (12 * level) as u64,
            },
            compute_to_compute(),
        ]
    }

    /// The commands that expand the frontier by the first `levels` levels.
    pub open spec fn levels_commands(self, frame_id: u32, levels: nat) -> Seq<Command>
        decreases levels,
    {
        if levels == 0 {
            Seq::empty()
        } else {
            self.levels_commands(frame_id, (levels - 1) as nat) + self.level_commands(
                frame_id,
                levels - 1,
            )
        }
    }

    /// The commands that send the deltas: scatter them, find the changed nodes and their
    /// descendants, and recompose those.
    pub open spec fn delta_commands(self, frame_id: u32) -> Seq<Command> {
        let n_locals = self.table@.local_records.len() as u32;
        seq![
            Command::Clear { buffer: self.buffers.frontier.handle, size: 96 },
            transfer_to_kernels(),
        ] + self.scatter_commands() + seq![
            Command::Dispatch {
                kernel: Kernel::FrontierSeed,
                params: Params::FrontierSeed(
                    FrontierSeedParams {
                        records: self.staging_locals.address,
                        frontier: self.buffers.frontier.address,
                        epoch: self.buffers.epoch.address,
                        count: n_locals,
                        base: 0,
                        frame_id,
                        node_count: self.node_count,
                    },
                ),
                threads: n_locals,
            },
            compute_to_compute(),
        ] + self.levels_commands(frame_id, MAX_LEVELS as nat) + seq![
            self.finalize_command(),
            compute_to_compute(),
            Command::DispatchIndirect {
                kernel: Kernel::Propagate,
                params: Params::Propagate(self.propagate_params(0, 0)),
                buffer: self.buffers.indirect.handle,
                offset: CONSUMER_ARGS_OFFSET,
            },
            compute_to_compute(),
        ]
    }

    fn finalize(&self) -> (r: Command)
        ensures
            r == self.finalize_command(),
    {
        Command::Dispatch {
            kernel: Kernel::FrontierFinalize,
            params: Params::FrontierFinalize(
                FrontierFinalizeParams {
                    frontier: self.buffers.frontier.address,
                    indirect: self.buffers.indirect.address,
                },
            ),
            threads: 1,
        }
    }

    fn propagate(&self, count: u32, full_rebuild: u32) -> (r: PropagateParams)
        ensures
            r == self.propagate_params(count, full_rebuild),
    {
        PropagateParams {
            locals: self.buffers.locals.address,
            parent: self.buffers.parent.address,
            world: self.buffers.world.address,
            frontier: self.buffers.frontier.address,
            count,
            base: 0,
            full_rebuild,
            node_count: self.node_count,
        }
    }

    /// Appends the dispatch that scatters `count` changed words, where there are any.
    fn push_scatter(&self, out: &mut Vec<Command>, before: usize, count: usize, dst: u64)
        requires
            before + count <= u32::MAX,
            self.staging_u32.address + 8 * (before + count) <= u64::MAX,
        ensures
            final(out)@ == old(out)@ + only_if(
                count > 0,
                self.scatter_words(before as int, count as int, dst),
            ),
    {
        if count > 0 {
            out.push(
                Command::Dispatch {
                    kernel: Kernel::ScatterU32,
                    params: Params::ScatterU32(
                        ScatterU32Params {
                            records: self.staging_u32.address + 8 * before as u64,
                            dst,
                            count: count as u32,
                            base: 0,
                        },
                    ),
                    threads: count as u32,
                },
            );
        }
        assert(out@ =~= old(out)@ + only_if(
            count > 0,
            self.scatter_words(before as int, count as int, dst),
        ));
    }

    fn scatters(&self) -> (out: Vec<Command>)
        requires
            self.wf(),
            self.staging_u32.address + 8 * self.table@.u32_records().len() <= u64::MAX,
        ensures
            out@ == self.scatter_commands(),
    {
        let mut out: Vec<Command> = Vec::new();
        let n_locals: u32 = self.table.local_records.len() as u32;
        if n_locals > 0 {
            out.push(
                Command::Dispatch {
                    kernel: Kernel::ScatterLocals,
                    params: Params::ScatterLocals(
                        ScatterLocalsParams {
                            records: self.staging_locals.address,
                            locals: self.buffers.locals.address,
                            count: n_locals,
                            base: 0,
                        },
                    ),
                    threads: n_locals,
                },
            );
        }
        let n1: usize = self.table.parent_records.len();
        let n2: usize = self.table.first_child_records.len();
        let n3: usize = self.table.next_sibling_records.len();
        self.push_scatter(&mut out, 0, n1, self.buffers.parent.address);
        self.push_scatter(&mut out, n1, n2, self.buffers.first_child.address);
        self.push_scatter(&mut out, n1 + n2, n3, self.buffers.next_sibling.address);
        assert(out@ =~= self.scatter_commands());
        out
    }

    fn levels(&self, frame_id: u32) -> (out: Vec<Command>)
        ensures
            out@ == self.levels_commands(frame_id, MAX_LEVELS as nat),
    {
        let mut out: Vec<Command> = Vec::new();
        let mut level: u32 = 0;
        while level < MAX_LEVELS
            invariant
                level <= MAX_LEVELS,
                out@ == self.levels_commands(frame_id, level as nat),
            decreases MAX_LEVELS - level,
        {
            let ghost before = out@;
            out.push(self.finalize());
            out.push(compute_to_compute_barrier());
            out.push(
                Command::DispatchIndirect {
                    kernel: Kernel::FrontierExpand,
                    params: Params::FrontierExpand(
                        FrontierExpandParams {
                            first_child: self.buffers.first_child.address,
                            next_sibling: self.buffers.next_sibling.address,
                            frontier: self.buffers.frontier.address,
                            epoch: self.buffers.epoch.address,
                            frame_id,
                            node_count: self.node_count,
                        },
                    ),
                    buffer: self.buffers.indirect.handle,
                    offset: level as u64 * 12,
                },
            );
            out.push(compute_to_compute_barrier());
            assert(out@ =~= before + self.level_commands(frame_id, level as int));
            level = level + 1;
        }
        out
    }

    /// The commands of a frame and whether they change any world transform: the whole table
    /// where it must be sent, else the deltas where there are any.
    pub fn record(&mut self) -> (r: (bool, Vec<Command>))
        requires
            old(self).wf(),
            0 < old(self).node_count <= old(self).capacity,
            old(self).sends_deltas() ==> old(self).frame_id < u32::MAX,
            old(self).staging_u32.address + 8 * old(self).table@.u32_records().len() <= u64::MAX,
        ensures
            final(self).wf(),
            !final(self).needs_full_rebuild,
            !final(self).table@.has_deltas(),
            final(self).node_count == old(self).node_count,
            final(self).capacity == old(self).capacity,
            final(self).buffers == old(self).buffers,
            final(self).staging_locals == old(self).staging_locals,
            final(self).staging_u32 == old(self).staging_u32,
            final(self).warned_module == old(self).warned_module,
            r.0 == (old(self).needs_full_rebuild || old(self).table@.has_deltas()),
            if old(self).needs_full_rebuild {
                &&& r.1@ == old(self).rebuild_commands()
                &&& final(self).frame_id == old(self).frame_id
                &&& final(self).table@ == old(self).table@.ensured(
                    (old(self).node_count - 1) as u32,
                ).without_deltas()
                &&& final(self).table@.locals.len() >= old(self).node_count
            } else if old(self).table@.has_deltas() {
                &&& r.1@ == old(self).delta_commands((old(self).frame_id + 1) as u32)
                &&& final(self).frame_id == old(self).frame_id + 1
                &&& final(self).table@ == old(self).table@.without_deltas()
            } else {
                &&& r.1@.len() == 0
                &&& final(self).frame_id == old(self).frame_id
                &&& final(self).table@ == old(self).table@
            },
    {
        let mut out: Vec<Command> = Vec::new();
        if self.needs_full_rebuild {
            self.needs_full_rebuild = false;
            let n: u64 = self.node_count as u64;
            self.table.ensure_node(self.node_count - 1);
            self.table.clear_deltas();
            out.push(
                Command::Upload {
                    source: Source::NodeLocals,
                    dst: self.buffers.locals.handle,
                    count: n,
                },
            );
            out.push(
                Command::Upload {
                    source: Source::NodeParents,
                    dst: self.buffers.parent.handle,
                    count: n,
                },
            );
            out.push(
                Command::Upload {
                    source: Source::NodeFirstChildren,
                    dst: self.buffers.first_child.handle,
                    count: n,
                },
            );
            out.push(
                Command::Upload {
                    source: Source::NodeNextSiblings,
                    dst: self.buffers.next_sibling.handle,
                    count: n,
                },
            );
            out.push(
                memory_barrier(
                    STAGE_TRANSFER,
                    ACCESS_TRANSFER_WRITE,
                    STAGE_COMPUTE_SHADER,
                    ACCESS_SHADER_READ | ACCESS_SHADER_WRITE,
                ),
            );
            out.push(
                Command::Dispatch {
                    kernel: Kernel::Propagate,
                    params: Params::Propagate(self.propagate(self.node_count, 1)),
                    threads: self.node_count,
                },
            );
            out.push(compute_to_compute_barrier());
            assert(out@ =~= old(self).rebuild_commands());
            return (true, out);
        }
        if !self.table.has_deltas() {
            return (false, out);
        }
        self.frame_id = self.frame_id + 1;
        let frame_id: u32 = self.frame_id;
        let n_locals: u32 = self.table.local_records.len() as u32;
        out.push(Command::Clear { buffer: self.buffers.frontier.handle,
            size: FRONTIER_HEADER * 4 });
        out.push(
            memory_barrier(
                STAGE_TRANSFER,
                ACCESS_TRANSFER_WRITE,
                STAGE_COMPUTE_SHADER,
                ACCESS_SHADER_READ | ACCESS_SHADER_WRITE,
            ),
        );
        let mut scatters: Vec<Command> = self.scatters();
        out.append(&mut scatters);
        out.push(
            Command::Dispatch {
                kernel: Kernel::FrontierSeed,
                params: Params::FrontierSeed(
                    FrontierSeedParams {
                        records: self.staging_locals.address,
                        frontier: self.buffers.frontier.address,
                        epoch: self.buffers.epoch.address,
                        count: n_locals,
                        base: 0,
                        frame_id,
                        node_count: self.node_count,
                    },
                ),
                threads: n_locals,
            },
        );
        out.push(compute_to_compute_barrier());
        let mut levels: Vec<Command> = self.levels(frame_id);
        out.append(&mut levels);
        out.push(self.finalize());
        out.push(compute_to_compute_barrier());
        out.push(
            Command::DispatchIndirect {
                kernel: Kernel::Propagate,
                params: Params::Propagate(self.propagate(0, 0)),
                buffer: self.buffers.indirect.handle,
                offset: CONSUMER_ARGS_OFFSET,
            },
        );
        out.push(compute_to_compute_barrier());
        proof {
            lemma_levels_same(*old(self), *self, frame_id, MAX_LEVELS as nat);
            assert(out@ =~= old(self).delta_commands(frame_id));
        }
        self.table.clear_deltas();
        (true, out)
    }
}

/// The levels depend on the buffers and the node count alone.
proof fn lemma_levels_same(a: GpuTransforms, b: GpuTransforms, frame_id: u32, levels: nat)
    requires
        a.buffers == b.buffers,
        a.node_count == b.node_count,
    ensures
        a.levels_commands(frame_id, levels) == b.levels_commands(frame_id, levels),
    decreases levels,
{
    if levels > 0 {
        lemma_levels_same(a, b, frame_id, (levels - 1) as nat);
    }
}

/// The capacity for a node count that a word of 32 bits can double to fits in one.
proof fn lemma_capacity_fits(node_count: u32)
    requires
        node_count <= 0x8000_0000,
    ensures
        node_count <= table_capacity(node_count) <= u32::MAX,
{
    let n = if node_count < MIN_CAPACITY {
        MIN_CAPACITY as nat
    } else {
        node_count as nat
    };
    crate::math::lemma_power_of_two(n);
    assert(crate::math::is_power_of_two(0x8000_0000)) by {
        reveal_with_fuel(crate::math::is_power_of_two, 33);
    }
    crate::math::lemma_power_of_two_le(n, 0x8000_0000);
}

/// Once the table was made for the capacity that was asked for, it is not asked for again.
pub proof fn lemma_grow_settles(before: GpuTransforms, after: GpuTransforms, capacity: u32)
    requires
        before.wf(),
        before.step(true) == (TransformStep::Grow { capacity }),
        after.node_count == before.node_count,
        after.capacity == capacity,
    ensures
        !(after.step(true) is Grow),
{
    lemma_capacity_fits(before.node_count);
}

/// No local and no parent that was there is another one now.
pub open spec fn keeps_nodes(a: NodeTableView, b: NodeTableView) -> bool {
    &&& a.locals.len() <= b.locals.len()
    &&& a.parent.len() <= b.parent.len()
    &&& forall|i: int| 0 <= i < a.locals.len() ==> #[trigger] b.locals[i] == a.locals[i]
    &&& forall|i: int| 0 <= i < a.parent.len() ==> #[trigger] b.parent[i] == a.parent[i]
}

proof fn lemma_links_keep(t: NodeTableView, slots: Seq<u32>)
    ensures
        keeps_nodes(t, t.with_links(slots)),
    decreases slots.len(),
{
    if slots.len() > 1 {
        lemma_links_keep(t, slots.drop_last());
    }
}

/// Linking a node's children leaves every local and every parent as it is.
pub proof fn lemma_chain_keeps(t: NodeTableView, parent_slot: u32, slots: Seq<u32>)
    ensures
        keeps_nodes(t, t.with_chain(parent_slot, slots)),
{
    lemma_links_keep(t, slots);
}

/// A node that is new, moved or has another parent has its own local in the table, and one that
/// is new or has another parent that parent, or none; every other node keeps both. A change that
/// is none leaves the table as it is.
pub proof fn lemma_change_mirrored(t: NodeTableView, c: NodeChange, other: int)
    requires
        t.wf(),
        0 <= other,
        other != c.slot,
    ensures
        ({
            let after = t.with_change(c);
            let moved = c.first || c.transform_changed || c.parent_changed;
            &&& moved ==> c.slot < after.locals.len() && after.locals[c.slot as int] == c.local
            &&& c.first || c.parent_changed ==> c.slot < after.parent.len()
                && after.parent[c.slot as int] == match c.parent {
                Some(p) => p,
                None => ROOT_PARENT,
            }
            &&& !c.first && !c.parent_changed && c.slot < t.parent.len()
                ==> after.parent[c.slot as int] == t.parent[c.slot as int]
            &&& !moved ==> after == t
            &&& other < t.locals.len() ==> after.locals[other] == t.locals[other]
            &&& other < t.parent.len() ==> after.parent[other] == t.parent[other]
        }),
{
    let t1 = if c.first || c.transform_changed || c.parent_changed {
        t.with_local(c.slot, c.local)
    } else {
        t
    };
    let t2 = if c.first || c.parent_changed {
        t1.with_parent(
            c.slot,
            match c.parent {
                Some(p) => p,
                None => ROOT_PARENT,
            },
        )
    } else {
        t1
    };
    if c.first {
        lemma_chain_keeps(t2, c.slot, slotted(c.children@));
    }
}

/// A node whose parent went is a root, with the local that it was given, and every other node
/// keeps both.
pub proof fn lemma_orphan_is_root(t: NodeTableView, orphaned: Seq<Orphan>, other: int)
    requires
        t.wf(),
        orphaned.len() > 0,
    ensures
        ({
            let after = t.with_orphaned(orphaned);
            let before = t.with_orphaned(orphaned.drop_last());
            let o = orphaned.last();
            &&& o.slot < after.parent.len() && after.parent[o.slot as int] == ROOT_PARENT
            &&& o.slot < after.locals.len() && after.locals[o.slot as int] == o.local
            &&& 0 <= other < before.parent.len() && other != o.slot ==> after.parent[other]
                == before.parent[other]
            &&& 0 <= other < before.locals.len() && other != o.slot ==> after.locals[other]
                == before.locals[other]
        }),
{
}

} // verus!
