//! What the kernels of the transform hierarchy do to the device's columns, command by command,
//! and what the recorded frames come to there.

use crate::commands::{
    Command, FrontierExpandParams, FrontierFinalizeParams, FrontierSeedParams, Kernel, Params,
    PropagateParams, ScatterLocalsParams, ScatterU32Params, Source, WHOLE_SIZE,
};
use crate::gpu_transform::{
    deltas_tell, grown, local_writes, scattered, word_writes, writes_within, zero_local,
    GpuTransforms, LocalRecord, NodeLocal, NodeTableView, U32Record, MAX_LEVELS, NO_NODE,
    ROOT_PARENT,
};
use vstd::prelude::*;

verus! {

// ---- the device ---------------------------------------------------------------------------------

/// What a buffer holds.
pub ghost enum Column {
    Locals(Seq<NodeLocal>),
    Words(Seq<u32>),
    /// For each node what its world transform was composed of: its own local, then its parent's,
    /// and so on up to the root.
    World(Seq<Seq<NodeLocal>>),
    /// The nodes to recompose, and how often their number was published.
    Frontier { nodes: Set<u32>, passes: int },
    /// What was published: the nodes that the group counts at an offset are for.
    Counts(Map<int, Set<u32>>),
}

/// The device: where each buffer lies, what lies at each address, and the records that the host
/// staged, each at its own address.
pub ghost struct Device {
    pub address_of: Map<u64, u64>,
    pub columns: Map<u64, Column>,
    pub local_records: Map<int, LocalRecord>,
    pub word_records: Map<int, U32Record>,
}

impl Device {
    pub open spec fn locals(self, at: u64) -> Seq<NodeLocal> {
        match self.columns[at] {
            Column::Locals(s) => s,
            _ => Seq::empty(),
        }
    }

    pub open spec fn words(self, at: u64) -> Seq<u32> {
        match self.columns[at] {
            Column::Words(s) => s,
            _ => Seq::empty(),
        }
    }

    pub open spec fn world(self, at: u64) -> Seq<Seq<NodeLocal>> {
        match self.columns[at] {
            Column::World(s) => s,
            _ => Seq::empty(),
        }
    }

    pub open spec fn nodes(self, at: u64) -> Set<u32> {
        match self.columns[at] {
            Column::Frontier { nodes, .. } => nodes,
            _ => Set::empty(),
        }
    }

    pub open spec fn passes(self, at: u64) -> int {
        match self.columns[at] {
            Column::Frontier { passes, .. } => passes,
            _ => 0,
        }
    }

    pub open spec fn counts(self, at: u64) -> Map<int, Set<u32>> {
        match self.columns[at] {
            Column::Counts(m) => m,
            _ => Map::empty(),
        }
    }

    pub open spec fn with(self, at: u64, column: Column) -> Device {
        Device { columns: self.columns.insert(at, column), ..self }
    }
}

/// Threads that find something to do.
pub open spec fn busy(threads: u32, count: u32) -> nat {
    if threads < count {
        threads as nat
    } else {
        count as nat
    }
}

/// A column of locals once each of the `n` records from `at` on, 64 bytes apart, was written to
/// its slot.
pub open spec fn with_local_records(
    column: Seq<NodeLocal>,
    records: Map<int, LocalRecord>,
    at: int,
    n: nat,
) -> Seq<NodeLocal>
    decreases n,
{
    if n == 0 {
        column
    } else {
        let r = records[at + 64 * (n - 1)];
        with_local_records(column, records, at, (n - 1) as nat).update(r.slot as int, r.local)
    }
}

/// A column of words once each of the `n` records from `at` on, 8 bytes apart, was written to its
/// slot.
pub open spec fn with_word_records(
    column: Seq<u32>,
    records: Map<int, U32Record>,
    at: int,
    n: nat,
) -> Seq<u32>
    decreases n,
{
    if n == 0 {
        column
    } else {
        let r = records[at + 8 * (n - 1)];
        with_word_records(column, records, at, (n - 1) as nat).update(r.slot as int, r.value)
    }
}

/// The `j`th entity met when the children of `m` are walked.
pub open spec fn walked(first: Seq<u32>, next: Seq<u32>, m: u32, j: nat) -> u32
    decreases j,
{
    if j == 0 {
        if m < first.len() {
            first[m as int]
        } else {
            NO_NODE
        }
    } else {
        let c = walked(first, next, m, (j - 1) as nat);
        if c < next.len() {
            next[c as int]
        } else {
            NO_NODE
        }
    }
}

/// Walking the children of `m` meets `c`.
pub open spec fn is_child(first: Seq<u32>, next: Seq<u32>, m: u32, c: u32) -> bool {
    exists|j: nat| #[trigger] walked(first, next, m, j) == c
}

/// The children of these nodes, among the first `count` nodes.
pub open spec fn children(first: Seq<u32>, next: Seq<u32>, nodes: Set<u32>, count: u32) -> Set<
    u32,
> {
    Set::new(
        |c: u32|
            c < count && exists|m: u32| #[trigger]
                nodes.contains(m) && is_child(first, next, m, c),
    )
}

/// These nodes and what stands in them, up to `levels` deep.
pub open spec fn descendants(
    first: Seq<u32>,
    next: Seq<u32>,
    nodes: Set<u32>,
    count: u32,
    levels: nat,
) -> Set<u32>
    decreases levels,
{
    if levels == 0 {
        nodes
    } else {
        let above = descendants(first, next, nodes, count, (levels - 1) as nat);
        above.union(children(first, next, above, count))
    }
}

/// What a node's world transform is composed of: its local, then its parent's, at most `steps`
/// up.
pub open spec fn composed(
    locals: Seq<NodeLocal>,
    parent: Seq<u32>,
    node: u32,
    steps: nat,
) -> Seq<NodeLocal>
    decreases steps,
{
    if steps == 0 || node >= locals.len() || node >= parent.len() {
        Seq::empty()
    } else {
        seq![locals[node as int]] + composed(
            locals,
            parent,
            parent[node as int],
            (steps - 1) as nat,
        )
    }
}

/// The marks of nodes, once these were marked with a frame.
pub open spec fn marked(epoch: Seq<u32>, nodes: Set<u32>, frame_id: u32) -> Seq<u32> {
    Seq::new(
        epoch.len(),
        |i: int|
            if nodes.contains(i as u32) {
                frame_id
            } else {
                epoch[i]
            },
    )
}

/// World transforms once those of these nodes were composed anew.
pub open spec fn recomposed(
    world: Seq<Seq<NodeLocal>>,
    locals: Seq<NodeLocal>,
    parent: Seq<u32>,
    nodes: Set<u32>,
    count: u32,
) -> Seq<Seq<NodeLocal>> {
    Seq::new(
        world.len(),
        |i: int|
            if i < count && nodes.contains(i as u32) {
                composed(locals, parent, i as u32, count as nat)
            } else {
                world[i]
            },
    )
}

/// Those of the nodes that are not marked with the frame.
pub open spec fn unmarked(nodes: Set<u32>, epoch: Seq<u32>, frame_id: u32) -> Set<u32> {
    Set::new(|s: u32| nodes.contains(s) && s < epoch.len() && epoch[s as int] != frame_id)
}

impl Device {
    pub open spec fn scatter_locals(self, p: ScatterLocalsParams, threads: u32) -> Device {
        self.with(
            p.locals,
            Column::Locals(
                with_local_records(
                    self.locals(p.locals),
                    self.local_records,
                    p.records as int,
                    busy(threads, p.count),
                ),
            ),
        )
    }

    pub open spec fn scatter_words(self, p: ScatterU32Params, threads: u32) -> Device {
        self.with(
            p.dst,
            Column::Words(
                with_word_records(
                    self.words(p.dst),
                    self.word_records,
                    p.records as int,
                    busy(threads, p.count),
                ),
            ),
        )
    }

    /// These nodes join the frontier, where they are not marked with the frame already.
    pub open spec fn joined(self, frontier: u64, epoch: u64, nodes: Set<u32>,
        frame_id: u32) -> Device {
        let marks = self.words(epoch);
        let new = unmarked(nodes, marks, frame_id);
        self.with(
            frontier,
            Column::Frontier {
                nodes: self.nodes(frontier).union(new),
                passes: self.passes(frontier),
            },
        ).with(epoch, Column::Words(marked(marks, new, frame_id)))
    }

    /// The slots of the records join the frontier.
    pub open spec fn seed(self, p: FrontierSeedParams, threads: u32) -> Device {
        let slots = Set::new(
            |s: u32|
                s < p.node_count && exists|i: int|
                    0 <= i < busy(threads, p.count) && (
                    #[trigger] self.local_records[p.records + 64 * i]).slot == s,
        );
        self.joined(p.frontier, p.epoch, slots, p.frame_id)
    }

    /// The frontier as it is now is published, behind what was published before.
    pub open spec fn publish(self, p: FrontierFinalizeParams) -> Device {
        let nodes = self.nodes(p.frontier);
        let passes = self.passes(p.frontier);
        self.with(p.frontier, Column::Frontier { nodes, passes: passes + 1 }).with(
            p.indirect,
            Column::Counts(self.counts(p.indirect).insert(12 * passes, nodes)),
        )
    }

    /// The children of published nodes join the frontier.
    pub open spec fn expand(self, p: FrontierExpandParams, nodes: Set<u32>) -> Device {
        self.joined(
            p.frontier,
            p.epoch,
            children(self.words(p.first_child), self.words(p.next_sibling), nodes, p.node_count),
            p.frame_id,
        )
    }

    pub open spec fn propagate(self, p: PropagateParams, nodes: Set<u32>) -> Device {
        self.with(
            p.world,
            Column::World(
                recomposed(
                    self.world(p.world),
                    self.locals(p.locals),
                    self.words(p.parent),
                    nodes,
                    p.node_count,
                ),
            ),
        )
    }

    pub open spec fn cleared(self, at: u64, size: u64) -> Device {
        match self.columns[at] {
            Column::Frontier { .. } => if size >= 96 {
                self.with(at, Column::Frontier { nodes: Set::empty(), passes: 0 })
            } else {
                self
            },
            Column::Words(s) => if size == WHOLE_SIZE {
                self.with(at, Column::Words(Seq::new(s.len(), |i: int| 0u32)))
            } else {
                self
            },
            Column::World(s) => if size == WHOLE_SIZE {
                self.with(
                    at,
                    Column::World(Seq::new(s.len(), |i: int| Seq::<NodeLocal>::empty())),
                )
            } else {
                self
            },
            Column::Counts(_) => if size == WHOLE_SIZE {
                self.with(at, Column::Counts(Map::empty()))
            } else {
                self
            },
            Column::Locals(_) => self,
        }
    }

    /// The first `count` rows of a column of the host's table are copied over.
    pub open spec fn uploaded(self, host: NodeTableView, source: Source, at: u64,
        count: u64) -> Device {
        match source {
            Source::NodeLocals => self.with(
                at,
                Column::Locals(over(self.locals(at), host.locals, count as int)),
            ),
            Source::NodeParents => self.with(
                at,
                Column::Words(over(self.words(at), host.parent, count as int)),
            ),
            Source::NodeFirstChildren => self.with(
                at,
                Column::Words(over(self.words(at), host.first_child, count as int)),
            ),
            Source::NodeNextSiblings => self.with(
                at,
                Column::Words(over(self.words(at), host.next_sibling, count as int)),
            ),
            _ => self,
        }
    }

    /// The device once a command ran.
    pub open spec fn after(self, host: NodeTableView, c: Command) -> Device {
        match c {
            Command::Dispatch { kernel, params, threads } => match (kernel, params) {
                (Kernel::ScatterLocals, Params::ScatterLocals(p)) => self.scatter_locals(
                    p,
                    threads,
                ),
                (Kernel::ScatterU32, Params::ScatterU32(p)) => self.scatter_words(p, threads),
                (Kernel::FrontierSeed, Params::FrontierSeed(p)) => self.seed(p, threads),
                (Kernel::FrontierFinalize, Params::FrontierFinalize(p)) => if threads == 1 {
                    self.publish(p)
                } else {
                    self
                },
                (Kernel::Propagate, Params::Propagate(p)) => if p.full_rebuild != 0 {
                    self.propagate(p, Set::new(|s: u32| s < busy(threads, p.count)))
                } else {
                    self
                },
                _ => self,
            },
            Command::DispatchIndirect { kernel, params, buffer, offset } => {
                let nodes = self.counts(self.address_of[buffer])[offset as int];
                match (kernel, params) {
                    (Kernel::FrontierExpand, Params::FrontierExpand(p)) => self.expand(p, nodes),
                    (Kernel::Propagate, Params::Propagate(p)) => if p.full_rebuild == 0 {
                        self.propagate(p, nodes)
                    } else {
                        self
                    },
                    _ => self,
                }
            },
            Command::Clear { buffer, size } => self.cleared(self.address_of[buffer], size),
            Command::Upload { source, dst, count } => self.uploaded(
                host,
                source,
                self.address_of[dst],
                count,
            ),
            _ => self,
        }
    }

    /// The device once these commands ran, in order.
    pub open spec fn ran(self, host: NodeTableView, commands: Seq<Command>) -> Device
        decreases commands.len(),
    {
        if commands.len() == 0 {
            self
        } else {
            self.ran(host, commands.drop_last()).after(host, commands.last())
        }
    }
}

/// `s` with its first `count` rows taken from `rows`.
pub open spec fn over<T>(s: Seq<T>, rows: Seq<T>, count: int) -> Seq<T> {
    Seq::new(
        s.len(),
        |i: int|
            if i < count {
                rows[i]
            } else {
                s[i]
            },
    )
}

// ---- what holds before a frame ------------------------------------------------------------------

/// The device holds the table's buffers, each at an address of its own, with room for every row.
pub open spec fn holds_table(d: Device, t: GpuTransforms) -> bool {
    let b = t.buffers;
    &&& d.address_of[b.locals.handle] == b.locals.address
    &&& d.address_of[b.parent.handle] == b.parent.address
    &&& d.address_of[b.first_child.handle] == b.first_child.address
    &&& d.address_of[b.next_sibling.handle] == b.next_sibling.address
    &&& d.address_of[b.world.handle] == b.world.address
    &&& d.address_of[b.epoch.handle] == b.epoch.address
    &&& d.address_of[b.frontier.handle] == b.frontier.address
    &&& d.address_of[b.indirect.handle] == b.indirect.address
    &&& seq![
        b.locals.address,
        b.parent.address,
        b.first_child.address,
        b.next_sibling.address,
        b.world.address,
        b.epoch.address,
        b.frontier.address,
        b.indirect.address,
    ].no_duplicates()
    &&& d.columns[b.locals.address] is Locals
    &&& d.columns[b.parent.address] is Words
    &&& d.columns[b.first_child.address] is Words
    &&& d.columns[b.next_sibling.address] is Words
    &&& d.columns[b.world.address] is World
    &&& d.columns[b.epoch.address] is Words
    &&& d.columns[b.frontier.address] is Frontier
    &&& d.columns[b.indirect.address] is Counts
    &&& d.locals(b.locals.address).len() == t.capacity
    &&& d.words(b.parent.address).len() == t.capacity
    &&& d.words(b.first_child.address).len() == t.capacity
    &&& d.words(b.next_sibling.address).len() == t.capacity
    &&& d.world(b.world.address).len() == t.capacity
    &&& d.words(b.epoch.address).len() == t.capacity
}

/// The host staged the table's records: the locals 64 bytes apart, the words 8 bytes apart.
pub open spec fn is_staged(d: Device, t: GpuTransforms) -> bool {
    &&& forall|i: int|
        0 <= i < t.table@.local_records.len()
            ==> #[trigger] d.local_records[t.staging_locals.address + 64 * i]
            == t.table@.local_records[i]
    &&& forall|i: int|
        0 <= i < t.table@.u32_records().len()
            ==> #[trigger] d.word_records[t.staging_u32.address + 8 * i]
            == t.table@.u32_records()[i]
}

/// Every record is of a row that the device has.
pub open spec fn records_fit(t: GpuTransforms) -> bool {
    let n = t.capacity as int;
    &&& writes_within(local_writes(t.table@.local_records), n)
    &&& writes_within(word_writes(t.table@.parent_records), n)
    &&& writes_within(word_writes(t.table@.first_child_records), n)
    &&& writes_within(word_writes(t.table@.next_sibling_records), n)
}

/// No node is marked with a later frame than `frame_id`.
pub open spec fn marks_until(epoch: Seq<u32>, frame_id: u32) -> bool {
    forall|i: int| 0 <= i < epoch.len() ==> (#[trigger] epoch[i]) <= frame_id
}

// ---- running commands ---------------------------------------------------------------------------

/// The addresses of the table's buffers.
pub open spec fn addresses(t: GpuTransforms) -> Seq<u64> {
    let b = t.buffers;
    seq![
        b.locals.address,
        b.parent.address,
        b.first_child.address,
        b.next_sibling.address,
        b.world.address,
        b.epoch.address,
        b.frontier.address,
        b.indirect.address,
    ]
}

proof fn lemma_apart(d: Device, t: GpuTransforms)
    requires
        holds_table(d, t),
    ensures
        forall|i: int, j: int|
            0 <= i < 8 && 0 <= j < 8 && i != j
                ==> #[trigger] addresses(t)[i] != #[trigger] addresses(
                t,
            )[j],
{
}

proof fn lemma_ran_push(d: Device, host: NodeTableView, commands: Seq<Command>, c: Command)
    ensures
        d.ran(host, commands.push(c)) == d.ran(host, commands).after(host, c),
{
    assert(commands.push(c).drop_last() =~= commands);
}

proof fn lemma_ran_join(d: Device, host: NodeTableView, a: Seq<Command>, b: Seq<Command>)
    ensures
        d.ran(host, a + b) == d.ran(host, a).ran(host, b),
    decreases b.len(),
{
    if b.len() == 0 {
        assert(a + b =~= a);
    } else {
        assert((a + b).drop_last() =~= a + b.drop_last());
        lemma_ran_join(d, host, a, b.drop_last());
    }
}

proof fn lemma_ran_one(d: Device, host: NodeTableView, c: Command)
    ensures
        d.ran(host, seq![c]) == d.after(host, c),
{
    assert(seq![c].drop_last() =~= Seq::<Command>::empty());
    assert(d.ran(host, Seq::<Command>::empty()) == d);
}

// ---- the whole table ----------------------------------------------------------------------------

/// Once the whole table was sent, every column of the device begins with the host's, and the
/// world transform of every node is composed of its local and those above it.
pub proof fn lemma_rebuild_recomposes(d: Device, t: GpuTransforms, host: NodeTableView)
    requires
        holds_table(d, t),
        0 < t.node_count <= t.capacity,
        host.wf(),
        host.locals.len() >= t.node_count,
    ensures
        ({
            let b = t.buffers;
            let after = d.ran(host, t.rebuild_commands());
            &&& holds_table(after, t)
            &&& forall|i: int|
                0 <= i < t.node_count ==> #[trigger] after.locals(b.locals.address)[i]
                    == host.locals[i]
            &&& forall|i: int|
                0 <= i < t.node_count ==> #[trigger] after.words(b.parent.address)[i]
                    == host.parent[i]
            &&& forall|i: int|
                0 <= i < t.node_count ==> #[trigger] after.words(b.first_child.address)[i]
                    == host.first_child[i]
            &&& forall|i: int|
                0 <= i < t.node_count ==> #[trigger] after.words(b.next_sibling.address)[i]
                    == host.next_sibling[i]
            &&& forall|i: int|
                0 <= i < t.node_count ==> #[trigger] after.world(b.world.address)[i] == composed(
                    after.locals(b.locals.address),
                    after.words(b.parent.address),
                    i as u32,
                    t.node_count as nat,
                )
            &&& after.words(b.epoch.address) == d.words(b.epoch.address)
        }),
{
    let b = t.buffers;
    let c = t.rebuild_commands();
    let d1 = d.after(host, c[0]);
    let d2 = d1.after(host, c[1]);
    let d3 = d2.after(host, c[2]);
    let d4 = d3.after(host, c[3]);
    let d5 = d4.after(host, c[4]);
    let d6 = d5.after(host, c[5]);
    let d7 = d6.after(host, c[6]);
    let e = Seq::<Command>::empty();
    lemma_ran_push(d, host, e, c[0]);
    lemma_ran_push(d, host, e.push(c[0]), c[1]);
    lemma_ran_push(d, host, e.push(c[0]).push(c[1]), c[2]);
    lemma_ran_push(d, host, e.push(c[0]).push(c[1]).push(c[2]), c[3]);
    lemma_ran_push(d, host, e.push(c[0]).push(c[1]).push(c[2]).push(c[3]), c[4]);
    lemma_ran_push(d, host, e.push(c[0]).push(c[1]).push(c[2]).push(c[3]).push(c[4]), c[5]);
    let six = e.push(c[0]).push(c[1]).push(c[2]).push(c[3]).push(c[4]).push(c[5]);
    lemma_ran_push(d, host, six, c[6]);
    assert(c =~= six.push(c[6]));
    lemma_apart(d, t);
    assert(addresses(t)[0] == b.locals.address && addresses(t)[1] == b.parent.address
        && addresses(t)[2] == b.first_child.address && addresses(t)[3] == b.next_sibling.address
        && addresses(t)[4] == b.world.address && addresses(t)[5] == b.epoch.address
        && addresses(t)[6] == b.frontier.address && addresses(t)[7] == b.indirect.address);
    assert(d.ran(host, c) == d7);
    assert(d5 == d4);
    assert(d7 == d6);
}

// ---- the deltas ---------------------------------------------------------------------------------

proof fn lemma_local_records(
    column: Seq<NodeLocal>,
    staged: Map<int, LocalRecord>,
    at: int,
    records: Seq<LocalRecord>,
)
    requires
        forall|i: int| 0 <= i < records.len() ==> #[trigger] staged[at + 64 * i] == records[i],
    ensures
        with_local_records(column, staged, at, records.len()) == scattered(
            column,
            local_writes(records),
        ),
    decreases records.len(),
{
    if records.len() > 0 {
        let n = records.len();
        let front = records.drop_last();
        assert forall|i: int| 0 <= i < front.len() implies #[trigger] staged[at + 64 * i]
            == front[i] by {
            assert(staged[at + 64 * i] == records[i]);
        }
        lemma_local_records(column, staged, at, front);
        assert(local_writes(records).drop_last() =~= local_writes(front));
        assert(staged[at + 64 * (n - 1)] == records[n - 1]);
    }
}

proof fn lemma_word_records(
    column: Seq<u32>,
    staged: Map<int, U32Record>,
    at: int,
    records: Seq<U32Record>,
)
    requires
        forall|i: int| 0 <= i < records.len() ==> #[trigger] staged[at + 8 * i] == records[i],
    ensures
        with_word_records(column, staged, at, records.len()) == scattered(
            column,
            word_writes(records),
        ),
    decreases records.len(),
{
    if records.len() > 0 {
        let n = records.len();
        let front = records.drop_last();
        assert forall|i: int| 0 <= i < front.len() implies #[trigger] staged[at + 8 * i]
            == front[i] by {
            assert(staged[at + 8 * i] == records[i]);
        }
        lemma_word_records(column, staged, at, front);
        assert(word_writes(records).drop_last() =~= word_writes(front));
        assert(staged[at + 8 * (n - 1)] == records[n - 1]);
    }
}

/// What the commands of a frame leave as it is.
spec fn same_surroundings(a: Device, b: Device) -> bool {
    &&& a.address_of == b.address_of
    &&& a.local_records == b.local_records
    &&& a.word_records == b.word_records
}

/// One column of words, where there are records for it.
proof fn lemma_word_scatter(
    d: Device,
    host: NodeTableView,
    t: GpuTransforms,
    before: int,
    records: Seq<U32Record>,
    dst: u64,
)
    requires
        d.columns[dst] is Words,
        0 <= before,
        records.len() <= u32::MAX,
        t.staging_u32.address + 8 * before <= u64::MAX,
        forall|i: int|
            0 <= i < records.len() ==> #[trigger] d.word_records[t.staging_u32.address + 8 * (before
                + i)] == records[i],
    ensures
        ({
            let after = d.ran(
                host,
                crate::gpu_transform::only_if(
                    records.len() > 0,
                    t.scatter_words(before, records.len() as int, dst),
                ),
            );
            &&& same_surroundings(d, after)
            &&& after.columns[dst] == Column::Words(scattered(d.words(dst), word_writes(records)))
            &&& forall|a: u64| a != dst ==> #[trigger] after.columns[a] == d.columns[a]
        }),
{
    let c = t.scatter_words(before, records.len() as int, dst);
    if records.len() > 0 {
        lemma_ran_one(d, host, c);
        let at = t.staging_u32.address + 8 * before;
        assert forall|i: int| 0 <= i < records.len() implies #[trigger] d.word_records[at + 8 * i]
            == records[i] by {
            assert(d.word_records[t.staging_u32.address + 8 * (before + i)] == records[i]);
        }
        lemma_word_records(d.words(dst), d.word_records, at, records);
    } else {
        assert(word_writes(records) =~= Seq::<(u32, u32)>::empty());
    }
}

/// The scatters write every record to the column that it tells of, and nothing else.
proof fn lemma_scatters(d: Device, host: NodeTableView, t: GpuTransforms)
    requires
        holds_table(d, t),
        is_staged(d, t),
        t.wf(),
        t.staging_u32.address + 8 * t.table@.u32_records().len() <= u64::MAX,
    ensures
        ({
            let b = t.buffers;
            let after = d.ran(host, t.scatter_commands());
            &&& same_surroundings(d, after)
            &&& after.columns[b.locals.address] == Column::Locals(
                scattered(d.locals(b.locals.address), local_writes(t.table@.local_records)),
            )
            &&& after.columns[b.parent.address] == Column::Words(
                scattered(d.words(b.parent.address), word_writes(t.table@.parent_records)),
            )
            &&& after.columns[b.first_child.address] == Column::Words(
                scattered(
                    d.words(b.first_child.address),
                    word_writes(t.table@.first_child_records),
                ),
            )
            &&& after.columns[b.next_sibling.address] == Column::Words(
                scattered(
                    d.words(b.next_sibling.address),
                    word_writes(t.table@.next_sibling_records),
                ),
            )
            &&& after.columns[b.world.address] == d.columns[b.world.address]
            &&& after.columns[b.epoch.address] == d.columns[b.epoch.address]
            &&& after.columns[b.frontier.address] == d.columns[b.frontier.address]
            &&& after.columns[b.indirect.address] == d.columns[b.indirect.address]
        }),
{
    let b = t.buffers;
    let m = t.table@;
    let n_locals = m.local_records.len() as u32;
    let n1 = m.parent_records.len() as int;
    let n2 = m.first_child_records.len() as int;
    let all = m.u32_records();
    lemma_apart(d, t);
    assert(addresses(t)[0] == b.locals.address && addresses(t)[1] == b.parent.address
        && addresses(t)[2] == b.first_child.address && addresses(t)[3] == b.next_sibling.address
        && addresses(t)[4] == b.world.address && addresses(t)[5] == b.epoch.address
        && addresses(t)[6] == b.frontier.address && addresses(t)[7] == b.indirect.address);
    let c = t.scatter_commands();
    let n3 = m.next_sibling_records.len() as int;
    let p2 = crate::gpu_transform::only_if(n1 > 0, t.scatter_words(0, n1, b.parent.address));
    let p3 = crate::gpu_transform::only_if(n2 > 0, t.scatter_words(n1, n2, b.first_child.address));
    let p4 = crate::gpu_transform::only_if(
        n3 > 0,
        t.scatter_words(n1 + n2, n3, b.next_sibling.address),
    );
    let p1 = c.take(c.len() - p2.len() - p3.len() - p4.len());
    assert(c =~= p1 + p2 + p3 + p4);
    lemma_ran_join(d, host, p1 + p2 + p3, p4);
    lemma_ran_join(d, host, p1 + p2, p3);
    lemma_ran_join(d, host, p1, p2);
    let d1 = d.ran(host, p1);
    lemma_local_records(
        d.locals(b.locals.address),
        d.local_records,
        t.staging_locals.address as int,
        m.local_records,
    );
    if n_locals > 0 {
        assert(p1 =~= seq![c[0]]);
        lemma_ran_one(d, host, c[0]);
    } else {
        assert(p1 =~= Seq::<Command>::empty());
        assert(local_writes(m.local_records) =~= Seq::<(u32, NodeLocal)>::empty());
    }
    assert(same_surroundings(d, d1));
    assert forall|i: int| 0 <= i < n1 implies #[trigger] d.word_records[t.staging_u32.address + 8
        * (0 + i)] == m.parent_records[i] by {
        assert(all[i] == m.parent_records[i]);
        assert(d.word_records[t.staging_u32.address + 8 * i] == all[i]);
    }
    lemma_word_scatter(d1, host, t, 0, m.parent_records, b.parent.address);
    let d2 = d1.ran(host, p2);
    assert forall|i: int| 0 <= i < n2 implies #[trigger] d.word_records[t.staging_u32.address + 8
        * (n1 + i)] == m.first_child_records[i] by {
        assert(all[n1 + i] == m.first_child_records[i]);
        assert(d.word_records[t.staging_u32.address + 8 * (n1 + i)] == all[n1 + i]);
    }
    lemma_word_scatter(d2, host, t, n1, m.first_child_records, b.first_child.address);
    let d3 = d2.ran(host, p3);
    assert forall|i: int| 0 <= i < n3 implies #[trigger] d.word_records[t.staging_u32.address + 8
        * (n1 + n2 + i)] == m.next_sibling_records[i] by {
        assert(all[n1 + n2 + i] == m.next_sibling_records[i]);
        assert(d.word_records[t.staging_u32.address + 8 * (n1 + n2 + i)] == all[n1 + n2 + i]);
    }
    lemma_word_scatter(d3, host, t, n1 + n2, m.next_sibling_records, b.next_sibling.address);
}

/// The frontier holds exactly these nodes, which are exactly those marked with the frame.
spec fn frontier_is(d: Device, t: GpuTransforms, nodes: Set<u32>, frame_id: u32,
    passes: int) -> bool {
    let b = t.buffers;
    &&& d.columns[b.frontier.address] == (Column::Frontier { nodes, passes })
    &&& d.columns[b.epoch.address] is Words
    &&& d.columns[b.indirect.address] is Counts
    &&& d.words(b.epoch.address).len() == t.capacity
    &&& marks_until(d.words(b.epoch.address), frame_id)
    &&& forall|s: u32| #[trigger] nodes.contains(s) ==> s < t.node_count
    &&& forall|s: u32|
        s < t.capacity ==> (#[trigger] nodes.contains(s) <==> d.words(b.epoch.address)[s as int]
            == frame_id)
}

/// The columns that the frontier is not kept in are left as they are.
spec fn same_columns(a: Device, b: Device, t: GpuTransforms) -> bool {
    let f = t.buffers;
    &&& same_surroundings(a, b)
    &&& a.columns[f.locals.address] == b.columns[f.locals.address]
    &&& a.columns[f.parent.address] == b.columns[f.parent.address]
    &&& a.columns[f.first_child.address] == b.columns[f.first_child.address]
    &&& a.columns[f.next_sibling.address] == b.columns[f.next_sibling.address]
    &&& a.columns[f.world.address] == b.columns[f.world.address]
}

/// Nodes that join the frontier are marked.
proof fn lemma_joined(
    d: Device,
    t: GpuTransforms,
    nodes: Set<u32>,
    more: Set<u32>,
    frame_id: u32,
    passes: int,
)
    requires
        holds_table(d, t),
        t.node_count <= t.capacity,
        frontier_is(d, t, nodes, frame_id, passes),
        forall|s: u32| #[trigger] more.contains(s) ==> s < t.node_count,
    ensures
        ({
            let after = d.joined(
                t.buffers.frontier.address,
                t.buffers.epoch.address,
                more,
                frame_id,
            );
            &&& holds_table(after, t)
            &&& same_columns(d, after, t)
            &&& frontier_is(after, t, nodes.union(more), frame_id, passes)
        }),
{
    let b = t.buffers;
    lemma_apart(d, t);
    assert(addresses(t)[0] == b.locals.address && addresses(t)[1] == b.parent.address
        && addresses(t)[2] == b.first_child.address && addresses(t)[3] == b.next_sibling.address
        && addresses(t)[4] == b.world.address && addresses(t)[5] == b.epoch.address
        && addresses(t)[6] == b.frontier.address && addresses(t)[7] == b.indirect.address);
    let after = d.joined(b.frontier.address, b.epoch.address, more, frame_id);
    let marks = d.words(b.epoch.address);
    let new = unmarked(more, marks, frame_id);
    assert(nodes.union(new) =~= nodes.union(more)) by {
        assert forall|s: u32| more.contains(s) && !new.contains(s) implies nodes.contains(s) by {
            assert(s < t.capacity);
        }
    }
    let now = after.words(b.epoch.address);
    assert(now == marked(marks, new, frame_id));
    assert(holds_table(after, t));
    assert(same_columns(d, after, t));
    assert(marks_until(now, frame_id));
    assert forall|s: u32| #[trigger] nodes.union(more).contains(s) implies s < t.node_count by {
        assert(nodes.contains(s) || more.contains(s));
    }
    assert forall|s: u32| s < t.capacity implies (#[trigger] nodes.union(more).contains(s)
        <==> now[s as int] == frame_id) by {
        assert((s as int) as u32 == s);
        assert(now[s as int] == if new.contains(s) {
            frame_id
        } else {
            marks[s as int]
        });
        assert(nodes.union(new).contains(s) <==> nodes.contains(s) || new.contains(s));
    }
    assert(d.nodes(b.frontier.address) == nodes && d.passes(b.frontier.address) == passes);
    assert(after.columns[b.frontier.address] == (Column::Frontier {
        nodes: nodes.union(more),
        passes,
    }));
}

/// Publishing the frontier changes nothing but what is published and how often.
proof fn lemma_publish(
    d: Device,
    host: NodeTableView,
    t: GpuTransforms,
    nodes: Set<u32>,
    frame_id: u32,
    passes: int,
)
    requires
        holds_table(d, t),
        frontier_is(d, t, nodes, frame_id, passes),
    ensures
        ({
            let after = d.after(host, t.finalize_command());
            &&& holds_table(after, t)
            &&& same_columns(d, after, t)
            &&& frontier_is(after, t, nodes, frame_id, passes + 1)
            &&& after.counts(t.buffers.indirect.address)[12 * passes] == nodes
        }),
{
    let b = t.buffers;
    lemma_apart(d, t);
    assert(addresses(t)[0] == b.locals.address && addresses(t)[1] == b.parent.address
        && addresses(t)[2] == b.first_child.address && addresses(t)[3] == b.next_sibling.address
        && addresses(t)[4] == b.world.address && addresses(t)[5] == b.epoch.address
        && addresses(t)[6] == b.frontier.address && addresses(t)[7] == b.indirect.address);
}

/// Each level adds the children of what is in the frontier.
proof fn lemma_levels(
    d: Device,
    host: NodeTableView,
    t: GpuTransforms,
    nodes: Set<u32>,
    frame_id: u32,
    levels: nat,
)
    requires
        holds_table(d, t),
        t.node_count <= t.capacity,
        levels <= MAX_LEVELS,
        frontier_is(d, t, nodes, frame_id, 0),
    ensures
        ({
            let b = t.buffers;
            let after = d.ran(host, t.levels_commands(frame_id, levels));
            &&& holds_table(after, t)
            &&& same_columns(d, after, t)
            &&& frontier_is(
                after,
                t,
                descendants(
                    d.words(b.first_child.address),
                    d.words(b.next_sibling.address),
                    nodes,
                    t.node_count,
                    levels,
                ),
                frame_id,
                levels as int,
            )
        }),
    decreases levels,
{
    let b = t.buffers;
    let first = d.words(b.first_child.address);
    let next = d.words(b.next_sibling.address);
    if levels == 0 {
        assert(t.levels_commands(frame_id, levels) =~= Seq::<Command>::empty());
    } else {
        let k = (levels - 1) as nat;
        lemma_levels(d, host, t, nodes, frame_id, k);
        let front = t.levels_commands(frame_id, k);
        let level = t.level_commands(frame_id, k as int);
        let above = descendants(first, next, nodes, t.node_count, k);
        lemma_ran_join(d, host, front, level);
        let d0 = d.ran(host, front);
        let d1 = d0.after(host, level[0]);
        let d3 = d1.after(host, level[2]);
        let e = Seq::<Command>::empty();
        lemma_ran_push(d0, host, e, level[0]);
        lemma_ran_push(d0, host, e.push(level[0]), level[1]);
        lemma_ran_push(d0, host, e.push(level[0]).push(level[1]), level[2]);
        lemma_ran_push(d0, host, e.push(level[0]).push(level[1]).push(level[2]), level[3]);
        assert(level =~= e.push(level[0]).push(level[1]).push(level[2]).push(level[3]));
        lemma_publish(d0, host, t, above, frame_id, k as int);
        let more = children(first, next, above, t.node_count);
        assert(d1.counts(d1.address_of[b.indirect.handle])[12 * k as int] == above);
        lemma_joined(d1, t, above, more, frame_id, levels as int);
        assert(d3 == d1.joined(b.frontier.address, b.epoch.address, more, frame_id));
    }
}

/// The slots of these records, among the first `count`.
pub open spec fn slots_of(records: Seq<LocalRecord>, count: u32) -> Set<u32> {
    Set::new(
        |s: u32|
            s < count && exists|i: int|
                0 <= i < records.len() && (#[trigger] records[i]).slot == s,
    )
}

/// A frame of deltas, run on a device that holds the table: each record lands in the column that
/// it tells of and no other row is touched; the world transforms stay as they were until then,
/// and at last those of the moved nodes, and of all that stands in them up to the deepest level,
/// are composed anew of the new locals and parents, and no others.
pub proof fn lemma_deltas_land(d: Device, t: GpuTransforms, host: NodeTableView)
    requires
        holds_table(d, t),
        is_staged(d, t),
        records_fit(t),
        t.wf(),
        0 < t.node_count <= t.capacity,
        t.frame_id < u32::MAX,
        marks_until(d.words(t.buffers.epoch.address), t.frame_id),
        t.staging_u32.address + 8 * t.table@.u32_records().len() <= u64::MAX,
    ensures
        ({
            let b = t.buffers;
            let frame_id = (t.frame_id + 1) as u32;
            let commands = t.delta_commands(frame_id);
            let before = d.ran(host, commands.take(commands.len() - 2));
            let after = d.ran(host, commands);
            let locals = scattered(
                d.locals(b.locals.address),
                local_writes(t.table@.local_records),
            );
            let parent = scattered(
                d.words(b.parent.address),
                word_writes(t.table@.parent_records),
            );
            let first = scattered(
                d.words(b.first_child.address),
                word_writes(t.table@.first_child_records),
            );
            let next = scattered(
                d.words(b.next_sibling.address),
                word_writes(t.table@.next_sibling_records),
            );
            let moved = descendants(
                first,
                next,
                slots_of(t.table@.local_records, t.node_count),
                t.node_count,
                MAX_LEVELS as nat,
            );
            &&& commands.len() >= 2
            &&& before.columns[b.world.address] == d.columns[b.world.address]
            &&& after.columns[b.locals.address] == Column::Locals(locals)
            &&& after.columns[b.parent.address] == Column::Words(parent)
            &&& after.columns[b.first_child.address] == Column::Words(first)
            &&& after.columns[b.next_sibling.address] == Column::Words(next)
            &&& after.columns[b.world.address] == Column::World(
                recomposed(d.world(b.world.address), locals, parent, moved, t.node_count),
            )
            &&& marks_until(after.words(b.epoch.address), frame_id)
        }),
{
    let b = t.buffers;
    let frame_id = (t.frame_id + 1) as u32;
    let m = t.table@;
    let n_locals = m.local_records.len() as u32;
    let commands = t.delta_commands(frame_id);
    lemma_apart(d, t);
    assert(addresses(t)[0] == b.locals.address && addresses(t)[1] == b.parent.address
        && addresses(t)[2] == b.first_child.address && addresses(t)[3] == b.next_sibling.address
        && addresses(t)[4] == b.world.address && addresses(t)[5] == b.epoch.address
        && addresses(t)[6] == b.frontier.address && addresses(t)[7] == b.indirect.address);
    let scatters = t.scatter_commands();
    let levels = t.levels_commands(frame_id, MAX_LEVELS as nat);
    let head = commands.take(2);
    let at = 2 + scatters.len() as int;
    let middle = commands.subrange(at, at + 2);
    let tail = commands.subrange(at + 2 + levels.len() as int, commands.len() as int);
    assert(commands.len() == at + 2 + levels.len() + 4);
    assert(commands =~= head + scatters + middle + levels + tail);
    lemma_ran_join(d, host, head + scatters + middle + levels, tail);
    lemma_ran_join(d, host, head + scatters + middle, levels);
    lemma_ran_join(d, host, head + scatters, middle);
    lemma_ran_join(d, host, head, scatters);
    let e = Seq::<Command>::empty();
    // The frontier is emptied.
    let c0 = commands[0];
    assert(head =~= e.push(c0).push(commands[1]));
    lemma_ran_push(d, host, e, c0);
    lemma_ran_push(d, host, e.push(c0), commands[1]);
    let d1 = d.after(host, c0);
    assert(d.ran(host, head) == d1);
    assert(holds_table(d1, t));
    assert(is_staged(d1, t));
    lemma_scatters(d1, host, t);
    let d2 = d1.ran(host, scatters);
    assert(frontier_is(d2, t, Set::empty(), frame_id, 0));
    lemma_lens(d1, t);
    assert(holds_table(d2, t));
    // The moved nodes are put in.
    let seed = middle[0];
    assert(middle =~= e.push(seed).push(middle[1]));
    lemma_ran_push(d2, host, e, seed);
    lemma_ran_push(d2, host, e.push(seed), middle[1]);
    let d3 = d2.after(host, seed);
    let slots = slots_of(m.local_records, t.node_count);
    let put = Set::new(
        |s: u32|
            s < t.node_count && exists|i: int|
                0 <= i < busy(n_locals, n_locals) && (
                #[trigger] d2.local_records[t.staging_locals.address + 64 * i]).slot == s,
    );
    assert(put =~= slots) by {
        assert forall|s: u32| put.contains(s) implies slots.contains(s) by {
            let i = choose|i: int|
                0 <= i < busy(n_locals, n_locals) && (
                #[trigger] d2.local_records[t.staging_locals.address + 64 * i]).slot == s;
            assert(m.local_records[i].slot == s);
        }
        assert forall|s: u32| slots.contains(s) implies put.contains(s) by {
            let i = choose|i: int|
                0 <= i < m.local_records.len() && (#[trigger] m.local_records[i]).slot == s;
            assert(d2.local_records[t.staging_locals.address + 64 * i].slot == s);
        }
    }
    lemma_joined(d2, t, Set::empty(), slots, frame_id, 0);
    assert(d3 == d2.joined(b.frontier.address, b.epoch.address, put, frame_id));
    assert(Set::<u32>::empty().union(slots) =~= slots);
    lemma_levels(d3, host, t, slots, frame_id, MAX_LEVELS as nat);
    let d4 = d3.ran(host, levels);
    let moved = descendants(
        d3.words(b.first_child.address),
        d3.words(b.next_sibling.address),
        slots,
        t.node_count,
        MAX_LEVELS as nat,
    );
    lemma_publish(d4, host, t, moved, frame_id, MAX_LEVELS as int);
    let d5 = d4.after(host, tail[0]);
    let d7 = d5.after(host, tail[2]);
    lemma_ran_push(d4, host, e, tail[0]);
    lemma_ran_push(d4, host, e.push(tail[0]), tail[1]);
    lemma_ran_push(d4, host, e.push(tail[0]).push(tail[1]), tail[2]);
    lemma_ran_push(d4, host, e.push(tail[0]).push(tail[1]).push(tail[2]), tail[3]);
    assert(tail =~= e.push(tail[0]).push(tail[1]).push(tail[2]).push(tail[3]));
    let last = e.push(tail[0]).push(tail[1]);
    assert(commands.take(commands.len() - 2) =~= head + scatters + middle + levels + last);
    lemma_ran_join(d, host, head + scatters + middle + levels, last);
    assert(d.ran(host, commands.take(commands.len() - 2)) == d5);
    assert(d.ran(host, commands) == d7);
    assert(d5.counts(d5.address_of[b.indirect.handle])[192] == moved);
}

/// Writing records leaves every column as long as it was.
proof fn lemma_lens(d: Device, t: GpuTransforms)
    requires
        holds_table(d, t),
        records_fit(t),
    ensures
        scattered(d.locals(t.buffers.locals.address), local_writes(t.table@.local_records)).len()
            == d.locals(t.buffers.locals.address).len(),
        scattered(d.words(t.buffers.parent.address), word_writes(t.table@.parent_records)).len()
            == d.words(t.buffers.parent.address).len(),
        scattered(
            d.words(t.buffers.first_child.address),
            word_writes(t.table@.first_child_records),
        ).len() == d.words(t.buffers.first_child.address).len(),
        scattered(
            d.words(t.buffers.next_sibling.address),
            word_writes(t.table@.next_sibling_records),
        ).len() == d.words(t.buffers.next_sibling.address).len(),
{
    lemma_scattered_len(
        d.locals(t.buffers.locals.address),
        local_writes(t.table@.local_records),
    );
    lemma_scattered_len(d.words(t.buffers.parent.address), word_writes(t.table@.parent_records));
    lemma_scattered_len(
        d.words(t.buffers.first_child.address),
        word_writes(t.table@.first_child_records),
    );
    lemma_scattered_len(
        d.words(t.buffers.next_sibling.address),
        word_writes(t.table@.next_sibling_records),
    );
}

proof fn lemma_front_within<T>(writes: Seq<(u32, T)>, n: int)
    requires
        writes.len() > 0,
        writes_within(writes, n),
    ensures
        writes_within(writes.drop_last(), n),
        writes.last().0 < n,
{
    let front = writes.drop_last();
    assert forall|i: int| 0 <= i < front.len() implies (#[trigger] front[i]).0 < n by {
        assert(front[i] == writes[i]);
    }
    assert(writes[writes.len() - 1].0 < n);
}

proof fn lemma_scattered_len<T>(column: Seq<T>, writes: Seq<(u32, T)>)
    requires
        writes_within(writes, column.len() as int),
    ensures
        scattered(column, writes).len() == column.len(),
    decreases writes.len(),
{
    if writes.len() > 0 {
        lemma_front_within(writes, column.len() as int);
        lemma_scattered_len(column, writes.drop_last());
    }
}

/// Two columns that agree at a row, or of which that row is written, agree there afterwards.
proof fn lemma_scattered_agree<T>(x: Seq<T>, y: Seq<T>, writes: Seq<(u32, T)>, i: int)
    requires
        0 <= i < x.len(),
        i < y.len(),
        writes_within(writes, x.len() as int),
        writes_within(writes, y.len() as int),
        x[i] == y[i] || exists|j: int| 0 <= j < writes.len() && (#[trigger] writes[j]).0 == i,
    ensures
        scattered(x, writes)[i] == scattered(y, writes)[i],
    decreases writes.len(),
{
    if writes.len() > 0 {
        let front = writes.drop_last();
        lemma_front_within(writes, x.len() as int);
        lemma_front_within(writes, y.len() as int);
        lemma_scattered_len(x, front);
        lemma_scattered_len(y, front);
        if writes.last().0 != i {
            if x[i] != y[i] {
                let j = choose|j: int| 0 <= j < writes.len() && (#[trigger] writes[j]).0 == i;
                assert(front[j].0 == i);
            }
            lemma_scattered_agree(x, y, front, i);
        }
    }
}

/// Row `i` of a column was as in the table before, or is written.
pub open spec fn is_known<T>(column: Seq<T>, before: Seq<T>, fill: T, writes: Seq<(u32, T)>,
    i: int) -> bool {
    column[i] == grown(before, i + 1, fill)[i] || exists|j: int|
        0 <= j < writes.len() && (#[trigger] writes[j]).0 == i
}

/// After a frame of deltas the device's columns are the host's: every row that was so before the
/// frame, or that the frame tells of, is as in the table now.
pub proof fn lemma_device_follows(
    d: Device,
    t: GpuTransforms,
    host: NodeTableView,
    base: NodeTableView,
    i: int,
)
    requires
        holds_table(d, t),
        is_staged(d, t),
        t.wf(),
        0 < t.node_count <= t.capacity,
        t.frame_id < u32::MAX,
        marks_until(d.words(t.buffers.epoch.address), t.frame_id),
        t.staging_u32.address + 8 * t.table@.u32_records().len() <= u64::MAX,
        deltas_tell(base, t.table@),
        0 <= i < t.table@.locals.len() <= t.capacity,
    ensures
        ({
            let b = t.buffers;
            let m = t.table@;
            let after = d.ran(host, t.delta_commands((t.frame_id + 1) as u32));
            &&& is_known(
                d.locals(b.locals.address),
                base.locals,
                zero_local(),
                local_writes(m.local_records),
                i,
            ) ==> after.locals(b.locals.address)[i] == m.locals[i]
            &&& is_known(
                d.words(b.parent.address),
                base.parent,
                ROOT_PARENT,
                word_writes(m.parent_records),
                i,
            ) ==> after.words(b.parent.address)[i] == m.parent[i]
            &&& is_known(
                d.words(b.first_child.address),
                base.first_child,
                NO_NODE,
                word_writes(m.first_child_records),
                i,
            ) ==> after.words(b.first_child.address)[i] == m.first_child[i]
            &&& is_known(
                d.words(b.next_sibling.address),
                base.next_sibling,
                NO_NODE,
                word_writes(m.next_sibling_records),
                i,
            ) ==> after.words(b.next_sibling.address)[i] == m.next_sibling[i]
        }),
{
    let b = t.buffers;
    let m = t.table@;
    let n = m.locals.len() as int;
    assert(records_fit(t));
    lemma_deltas_land(d, t, host);
    if is_known(
        d.locals(b.locals.address),
        base.locals,
        zero_local(),
        local_writes(m.local_records),
        i,
    ) {
        lemma_scattered_agree(
            d.locals(b.locals.address),
            grown(base.locals, n, zero_local()),
            local_writes(m.local_records),
            i,
        );
    }
    if is_known(
        d.words(b.parent.address),
        base.parent,
        ROOT_PARENT,
        word_writes(m.parent_records),
        i,
    ) {
        lemma_scattered_agree(
            d.words(b.parent.address),
            grown(base.parent, n, ROOT_PARENT),
            word_writes(m.parent_records),
            i,
        );
    }
    if is_known(
        d.words(b.first_child.address),
        base.first_child,
        NO_NODE,
        word_writes(m.first_child_records),
        i,
    ) {
        lemma_scattered_agree(
            d.words(b.first_child.address),
            grown(base.first_child, n, NO_NODE),
            word_writes(m.first_child_records),
            i,
        );
    }
    if is_known(
        d.words(b.next_sibling.address),
        base.next_sibling,
        NO_NODE,
        word_writes(m.next_sibling_records),
        i,
    ) {
        lemma_scattered_agree(
            d.words(b.next_sibling.address),
            grown(base.next_sibling, n, NO_NODE),
            word_writes(m.next_sibling_records),
            i,
        );
    }
}

} // verus!
