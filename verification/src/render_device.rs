//! What the device layer decides: bindless texture slots, when destroyed objects may really
//! go, and which device, layers and extensions are asked for.

use std::collections::HashMap;
use vstd::prelude::*;

verus! {

broadcast use vstd::std_specs::hash::group_hash_axioms;

/// Images that the bindless table has room for.
pub const MAX_BINDLESS_IMAGES: u32 = 16536;

// ---- memory -------------------------------------------------------------------------------

/// Which memory each image and each buffer lies in, by handle, until it is freed.
#[derive(Debug)]
pub struct AllocatorState<A> {
    pub image_allocations: HashMap<u64, A>,
    pub buffer_allocations: HashMap<u64, A>,
}

/// What a map holds of a key.
pub open spec fn held<A>(map: Map<u64, A>, key: u64) -> Option<A> {
    if map.contains_key(key) {
        Some(map[key])
    } else {
        None
    }
}

impl<A> AllocatorState<A> {
    pub fn new() -> (r: Self)
        ensures
            r.image_allocations@ == Map::<u64, A>::empty(),
            r.buffer_allocations@ == Map::<u64, A>::empty(),
    {
        AllocatorState { image_allocations: HashMap::new(), buffer_allocations: HashMap::new() }
    }

    pub fn register_image_allocation(&mut self, image: u64, allocation: A)
        ensures
            final(self).image_allocations@ == old(self).image_allocations@.insert(
                image,
                allocation,
            ),
            final(self).buffer_allocations@ == old(self).buffer_allocations@,
    {
        self.image_allocations.insert(image, allocation);
    }

    pub fn register_buffer_allocation(&mut self, buffer: u64, allocation: A)
        ensures
            final(self).buffer_allocations@ == old(self).buffer_allocations@.insert(
                buffer,
                allocation,
            ),
            final(self).image_allocations@ == old(self).image_allocations@,
    {
        self.buffer_allocations.insert(buffer, allocation);
    }

    pub fn get_buffer_allocation(&self, buffer: u64) -> (r: Option<&A>)
        ensures
            match r {
                Some(a) => held(self.buffer_allocations@, buffer) == Some(*a),
                None => held(self.buffer_allocations@, buffer) is None,
            },
    {
        self.buffer_allocations.get(&buffer)
    }

    /// Forgets an image's memory, and gives it to be freed; nothing where it was freed before.
    pub fn free_image_allocation(&mut self, image: u64) -> (r: Option<A>)
        ensures
            r == held(old(self).image_allocations@, image),
            final(self).image_allocations@ == old(self).image_allocations@.remove(image),
            final(self).buffer_allocations@ == old(self).buffer_allocations@,
    {
        let r: Option<A> = self.image_allocations.remove(&image);
        assert(self.image_allocations@ =~= old(self).image_allocations@.remove(image));
        r
    }

    /// Forgets a buffer's memory, and gives it to be freed; nothing where it was freed before.
    pub fn free_buffer_allocation(&mut self, buffer: u64) -> (r: Option<A>)
        ensures
            r == held(old(self).buffer_allocations@, buffer),
            final(self).buffer_allocations@ == old(self).buffer_allocations@.remove(buffer),
            final(self).image_allocations@ == old(self).image_allocations@,
    {
        let r: Option<A> = self.buffer_allocations.remove(&buffer);
        assert(self.buffer_allocations@ =~= old(self).buffer_allocations@.remove(buffer));
        r
    }
}

/// Memory that was registered is given to be freed once: a second call gives nothing.
pub proof fn lemma_freed_once<A>(before: Map<u64, A>, handle: u64, allocation: A)
    ensures
        held(before.insert(handle, allocation), handle) == Some(allocation),
        held(before.insert(handle, allocation).remove(handle), handle) is None,
{
}

// ---- bindless textures ------------------------------------------------------------------

/// Bindless texture slots: view to slot, plus recycled slots. Slots are only ever rebound,
/// never cleared, so a recycled slot keeps a stale descriptor until its next registration.
pub struct BindlessMap {
    pub by_view: HashMap<u64, u32>,
    pub free: Vec<u32>,
    pub next: u32,
}

/// What registering a view comes to: its slot, and whether the slot's descriptor must be
/// written.
#[derive(Clone, Copy, Debug, PartialEq, Eq, Structural)]
pub struct Registration {
    pub index: u32,
    pub write: bool,
}

/// What a bindless table holds.
pub struct BindlessSlots {
    pub by_view: Map<u64, u32>,
    pub free: Seq<u32>,
    pub next: int,
}

impl BindlessSlots {
    /// The slot that the next new view gets: the one recycled last, or a new one.
    pub open spec fn slot(self) -> u32 {
        if self.free.len() > 0 {
            self.free.last()
        } else {
            self.next as u32
        }
    }

    /// There is a slot for `view`.
    pub open spec fn has_room(self, view: u64) -> bool {
        self.by_view.contains_key(view) || self.free.len() > 0 || self.next < u32::MAX
    }

    /// The table once `view` is registered: a view that has a slot keeps it.
    pub open spec fn with(self, view: u64) -> BindlessSlots {
        if self.by_view.contains_key(view) {
            self
        } else if self.free.len() > 0 {
            BindlessSlots {
                by_view: self.by_view.insert(view, self.slot()),
                free: self.free.drop_last(),
                next: self.next,
            }
        } else {
            BindlessSlots {
                by_view: self.by_view.insert(view, self.slot()),
                free: self.free,
                next: self.next + 1,
            }
        }
    }

    /// The table once `view` is forgotten: its slot is the one recycled next.
    pub open spec fn without(self, view: u64) -> BindlessSlots {
        if self.by_view.contains_key(view) {
            BindlessSlots {
                by_view: self.by_view.remove(view),
                free: self.free.push(self.by_view[view]),
                next: self.next,
            }
        } else {
            self
        }
    }
}

/// Registering a view leaves the slots of all others as they are, and registering it again
/// changes nothing.
pub proof fn lemma_registered_stays(slots: BindlessSlots, view: u64, other: u64)
    ensures
        slots.with(view).by_view.contains_key(view),
        slots.with(view).with(view) == slots.with(view),
        slots.by_view.contains_key(other) ==> slots.with(view).by_view.contains_key(other)
            && slots.with(view).by_view[other] == slots.by_view[other],
{
}

impl BindlessMap {
    pub open spec fn view(&self) -> BindlessSlots {
        BindlessSlots { by_view: self.by_view@, free: self.free@, next: self.next as int }
    }

    /// No two views have one slot, and no view has a recycled one.
    pub open spec fn wf(self) -> bool {
        &&& self.free@.no_duplicates()
        &&& forall|i: int| 0 <= i < self.free@.len() ==> (#[trigger] self.free@[i]) < self.next
        &&& forall|v: u64| #[trigger]
            self.by_view@.contains_key(v) ==> self.by_view@[v] < self.next && !self.free@.contains(
                self.by_view@[v],
            )
        &&& forall|v: u64, w: u64|
            #![trigger self.by_view@[v], self.by_view@[w]]
            self.by_view@.contains_key(v) && self.by_view@.contains_key(w) && v != w
                ==> self.by_view@[v] != self.by_view@[w]
    }

    /// No view has a slot.
    pub fn new() -> (r: Self)
        ensures
            r.wf(),
            r.by_view@ == Map::<u64, u32>::empty(),
            r.free@.len() == 0,
            r.next == 0,
    {
        BindlessMap { by_view: HashMap::new(), free: Vec::new(), next: 0 }
    }

    /// The slot of a view: the one it has, or else a slot that no view has.
    pub fn register(&mut self, view: u64) -> (r: Registration)
        requires
            old(self).wf(),
            old(self)@.has_room(view),
        ensures
            final(self).wf(),
            final(self)@ == old(self)@.with(view),
            r == (Registration {
                index: final(self)@.by_view[view],
                write: !old(self)@.by_view.contains_key(view),
            }),
    {
        if let Some(index) = self.by_view.get(&view) {
            return Registration { index: *index, write: false };
        }
        let ghost before = self.free@;
        let index: u32 = match self.free.pop() {
            Some(index) => index,
            None => {
                let index: u32 = self.next;
                self.next = index + 1;
                index
            },
        };
        self.by_view.insert(view, index);
        proof {
            let after = self.free@;
            assert forall|s: u32| after.contains(s) implies before.contains(s) && s != index by {
                let i = choose|i: int| 0 <= i < after.len() && after[i] == s;
                assert(before[i] == s);
                if before.len() > 0 {
                    assert(before[before.len() - 1] == index);
                }
            }
            if before.len() > 0 {
                assert(before[before.len() - 1] == index);
                assert(before.contains(index));
            }
        }
        Registration { index, write: true }
    }

    /// The slot of a view, where it has one.
    pub fn get(&self, view: u64) -> (r: Option<u32>)
        ensures
            r == (if self.by_view@.contains_key(view) {
                Some(self.by_view@[view])
            } else {
                None
            }),
    {
        match self.by_view.get(&view) {
            Some(index) => Some(*index),
            None => None,
        }
    }

    /// Forgets a view's slot before the view is destroyed: handle values are used again, and
    /// the entry would otherwise pass for whatever is created next.
    pub fn unregister(&mut self, view: u64)
        requires
            old(self).wf(),
        ensures
            final(self).wf(),
            final(self)@ == old(self)@.without(view),
    {
        let ghost before = self.free@;
        match self.by_view.remove(&view) {
            Some(index) => {
                self.free.push(index);
                proof {
                    let after = self.free@;
                    assert forall|s: u32| after.contains(s) implies before.contains(s) || s
                        == index by {
                        let i = choose|i: int| 0 <= i < after.len() && after[i] == s;
                        if i < before.len() {
                            assert(before[i] == s);
                        }
                    }
                }
            },
            None => {
                assert(self.by_view@ =~= old(self).by_view@);
            },
        }
    }
}

// ---- deferred destruction -----------------------------------------------------------------

/// An object to destroy, by its handle.
#[derive(Clone, Copy, Debug, PartialEq, Eq, Structural)]
pub enum Doomed {
    ImageView(u64),
    Image(u64),
    Buffer(u64),
    Swapchain(u64),
    Pipeline(u64),
    PipelineLayout(u64),
    DescriptorSetLayout(u64),
    AccelerationStructure(u64),
    Micromap(u64),
}

/// What the destroy thread is told.
#[derive(Clone, Copy, Debug, PartialEq, Eq, Structural)]
pub enum VkDestroyCmd {
    Destroy(Doomed),
    Tick,
}

/// Objects on their way out. Those of the current tick and of the one before are kept; what
/// the device may still be using lies among them.
#[derive(Debug)]
pub struct DestroyQueue {
    pub current: Vec<Doomed>,
    pub previous: Vec<Doomed>,
}

impl DestroyQueue {
    pub fn new() -> (r: Self)
        ensures
            r.current@.len() == 0,
            r.previous@.len() == 0,
    {
        DestroyQueue { current: Vec::new(), previous: Vec::new() }
    }

    /// Takes one command; gives the objects to destroy now, in the order in which they came.
    pub fn handle(&mut self, cmd: VkDestroyCmd) -> (dead: Vec<Doomed>)
        ensures
            match cmd {
                VkDestroyCmd::Destroy(object) => {
                    &&& dead@.len() == 0
                    &&& final(self).current@ == old(self).current@.push(object)
                    &&& final(self).previous@ == old(self).previous@
                },
                VkDestroyCmd::Tick => {
                    &&& dead@ == old(self).previous@
                    &&& final(self).current@.len() == 0
                    &&& final(self).previous@ == old(self).current@
                },
            },
    {
        match cmd {
            VkDestroyCmd::Destroy(object) => {
                self.current.push(object);
                Vec::new()
            },
            VkDestroyCmd::Tick => {
                let mut dead: Vec<Doomed> = Vec::new();
                dead.append(&mut self.previous);
                let mut young: Vec<Doomed> = Vec::new();
                young.append(&mut self.current);
                assert(dead@ =~= old(self).previous@);
                assert(young@ =~= old(self).current@);
                self.previous = young;
                dead
            },
        }
    }
}

/// The contents of a queue: the objects of the current tick, and of the one before.
pub ghost struct QueueState {
    pub current: Seq<Doomed>,
    pub previous: Seq<Doomed>,
}

/// The queue once it took `cmds`.
pub open spec fn after_commands(q: QueueState, cmds: Seq<VkDestroyCmd>) -> QueueState
    decreases cmds.len(),
{
    if cmds.len() == 0 {
        q
    } else {
        let p = after_commands(q, cmds.drop_last());
        match cmds.last() {
            VkDestroyCmd::Destroy(object) => QueueState {
                current: p.current.push(object),
                ..p
            },
            VkDestroyCmd::Tick => QueueState { current: Seq::empty(), previous: p.current },
        }
    }
}

/// All that is destroyed while the queue takes `cmds`, in order.
pub open spec fn destroyed(q: QueueState, cmds: Seq<VkDestroyCmd>) -> Seq<Doomed>
    decreases cmds.len(),
{
    if cmds.len() == 0 {
        Seq::empty()
    } else {
        let front = destroyed(q, cmds.drop_last());
        match cmds.last() {
            VkDestroyCmd::Destroy(_) => front,
            VkDestroyCmd::Tick => front + after_commands(q, cmds.drop_last()).previous,
        }
    }
}

/// The objects that `cmds` names, in order.
pub open spec fn named(cmds: Seq<VkDestroyCmd>) -> Seq<Doomed>
    decreases cmds.len(),
{
    if cmds.len() == 0 {
        Seq::empty()
    } else {
        match cmds.last() {
            VkDestroyCmd::Destroy(object) => named(cmds.drop_last()).push(object),
            VkDestroyCmd::Tick => named(cmds.drop_last()),
        }
    }
}

/// How often `cmds` ticks.
pub open spec fn ticks(cmds: Seq<VkDestroyCmd>) -> nat
    decreases cmds.len(),
{
    if cmds.len() == 0 {
        0
    } else {
        ticks(cmds.drop_last()) + if cmds.last() == VkDestroyCmd::Tick {
            1nat
        } else {
            0nat
        }
    }
}

/// Nothing is lost, and nothing is destroyed twice or out of order: what was destroyed, what
/// waits for its second tick and what waits for its first are, together, all that was there
/// and all that was named.
pub proof fn lemma_destroyed_in_order(q: QueueState, cmds: Seq<VkDestroyCmd>)
    ensures
        destroyed(q, cmds) + after_commands(q, cmds).previous + after_commands(q, cmds).current
            == q.previous + q.current + named(cmds),
    decreases cmds.len(),
{
    if cmds.len() > 0 {
        let front = cmds.drop_last();
        lemma_destroyed_in_order(q, front);
        let p = after_commands(q, front);
        match cmds.last() {
            VkDestroyCmd::Destroy(object) => {
                assert(destroyed(q, cmds) + p.previous + p.current.push(object) =~= (destroyed(
                    q,
                    front,
                ) + p.previous + p.current).push(object));
                assert((q.previous + q.current + named(front)).push(object) =~= q.previous
                    + q.current + named(cmds));
            },
            VkDestroyCmd::Tick => {
                assert(destroyed(q, cmds) + p.current + Seq::<Doomed>::empty() =~= destroyed(
                    q,
                    front,
                ) + p.previous + p.current);
            },
        }
    } else {
        assert(destroyed(q, cmds) + q.previous + q.current =~= q.previous + q.current
            + named(cmds));
    }
}

/// An object that is named stays for at least two ticks: until the second one after it,
/// nothing that was named is destroyed.
pub proof fn lemma_outlives_two_ticks(q: QueueState, cmds: Seq<VkDestroyCmd>)
    requires
        ticks(cmds) < 2,
    ensures
        ticks(cmds) == 0 ==> destroyed(q, cmds).len() == 0 && after_commands(q, cmds).previous
            == q.previous && after_commands(q, cmds).current == q.current + named(cmds),
        ticks(cmds) == 1 ==> destroyed(q, cmds) == q.previous && q.current.len() <= after_commands(
            q,
            cmds,
        ).previous.len() && after_commands(q, cmds).previous + after_commands(q, cmds).current
            == q.current + named(cmds),
    decreases cmds.len(),
{
    if cmds.len() > 0 {
        let front = cmds.drop_last();
        lemma_outlives_two_ticks(q, front);
        let p = after_commands(q, front);
        match cmds.last() {
            VkDestroyCmd::Destroy(object) => {
                assert(q.current + named(front).push(object) =~= (q.current + named(front)).push(
                    object,
                ));
                assert(p.previous + p.current.push(object) =~= (p.previous + p.current).push(
                    object,
                ));
            },
            VkDestroyCmd::Tick => {
                assert(Seq::<Doomed>::empty() + q.previous =~= q.previous);
                assert(destroyed(q, front) =~= Seq::<Doomed>::empty());
                assert(p.current + Seq::<Doomed>::empty() =~= p.current);
            },
        }
    } else {
        assert(q.current + named(cmds) =~= q.current);
    }
}

// ---- extensions and devices ---------------------------------------------------------------

/// `names` holds this name.
pub open spec fn lists(names: Seq<String>, name: Seq<char>) -> bool {
    exists|i: int| 0 <= i < names.len() && (#[trigger] names[i])@ == name
}

fn is_listed(names: &Vec<String>, name: &String) -> (r: bool)
    ensures
        r == lists(names@, name@),
{
    let mut i: usize = 0;
    while i < names.len()
        invariant
            i <= names@.len(),
            forall|j: int| 0 <= j < i ==> (#[trigger] names@[j])@ != name@,
        decreases names@.len() - i,
    {
        if names[i] == *name {
            return true;
        }
        i = i + 1;
    }
    false
}

/// The names, by their characters.
pub open spec fn spelled(names: Seq<String>) -> Seq<Seq<char>> {
    names.map_values(|n: String| n@)
}

/// The names of `have` and, behind them, those of `wanted` that are not there yet.
pub open spec fn joined(have: Seq<Seq<char>>, wanted: Seq<Seq<char>>) -> Seq<Seq<char>>
    decreases wanted.len(),
{
    if wanted.len() == 0 {
        have
    } else {
        let front = joined(have, wanted.drop_last());
        if front.contains(wanted.last()) {
            front
        } else {
            front.push(wanted.last())
        }
    }
}

proof fn lemma_lists(names: Seq<String>, name: Seq<char>)
    ensures
        lists(names, name) == spelled(names).contains(name),
{
    if lists(names, name) {
        let i = choose|i: int| 0 <= i < names.len() && (#[trigger] names[i])@ == name;
        assert(spelled(names)[i] == name);
    }
    if spelled(names).contains(name) {
        let i = choose|i: int| 0 <= i < spelled(names).len() && spelled(names)[i] == name;
        assert(names[i]@ == name);
    }
}

/// Adds to a list of extensions those that are wanted and not listed yet.
pub fn join_extensions(have: &mut Vec<String>, wanted: &Vec<String>)
    ensures
        spelled(final(have)@) == joined(spelled(old(have)@), spelled(wanted@)),
{
    let ghost first = spelled(have@);
    let mut i: usize = 0;
    assert(spelled(wanted@).take(0) =~= Seq::<Seq<char>>::empty());
    while i < wanted.len()
        invariant
            i <= wanted@.len(),
            spelled(have@) == joined(first, spelled(wanted@).take(i as int)),
        decreases wanted@.len() - i,
    {
        proof {
            assert(spelled(wanted@).take(i + 1).drop_last() =~= spelled(wanted@).take(i as int));
            lemma_lists(have@, wanted@[i as int]@);
        }
        if !is_listed(have, &wanted[i]) {
            let ghost before = have@;
            have.push(wanted[i].clone());
            assert(spelled(have@) =~= spelled(before).push(wanted@[i as int]@));
        }
        i = i + 1;
    }
    assert(spelled(wanted@).take(i as int) =~= spelled(wanted@));
}

/// What the device extensions come to: the list itself, and those that the device lacks.
pub struct DeviceExtensions {
    pub enabled: Vec<String>,
    pub lacking: Vec<String>,
    /// The device has opacity micromaps, and they are enabled.
    pub micromaps: bool,
}

/// The names of `wanted` that `supported` has, or lacks.
pub open spec fn sifted(
    wanted: Seq<Seq<char>>,
    supported: Seq<Seq<char>>,
    has: bool,
) -> Seq<Seq<char>>
    decreases wanted.len(),
{
    if wanted.len() == 0 {
        Seq::empty()
    } else {
        let front = sifted(wanted.drop_last(), supported, has);
        if supported.contains(wanted.last()) == has {
            front.push(wanted.last())
        } else {
            front
        }
    }
}

/// The device extensions: the required ones, then the optional ones that the device has, then
/// micromaps where it has them.
pub fn device_extensions(
    required: Vec<String>,
    optional: &Vec<String>,
    supported: &Vec<String>,
    micromap: &String,
) -> (r: DeviceExtensions)
    ensures
        r.micromaps == spelled(supported@).contains(micromap@),
        spelled(r.lacking@) == sifted(spelled(optional@), spelled(supported@), false),
        ({
            let listed = joined(
                spelled(required@),
                sifted(spelled(optional@), spelled(supported@), true),
            );
            spelled(r.enabled@) == if r.micromaps {
                listed.push(micromap@)
            } else {
                listed
            }
        }),
{
    let ghost want = spelled(optional@);
    let ghost have = spelled(supported@);
    let mut known: Vec<String> = Vec::new();
    let mut lacking: Vec<String> = Vec::new();
    let mut i: usize = 0;
    assert(want.take(0) =~= Seq::<Seq<char>>::empty());
    assert(spelled(known@) =~= sifted(want.take(0), have, true));
    assert(spelled(lacking@) =~= sifted(want.take(0), have, false));
    while i < optional.len()
        invariant
            i <= optional@.len(),
            want == spelled(optional@),
            have == spelled(supported@),
            spelled(known@) == sifted(want.take(i as int), have, true),
            spelled(lacking@) == sifted(want.take(i as int), have, false),
        decreases optional@.len() - i,
    {
        proof {
            assert(want.take(i + 1).drop_last() =~= want.take(i as int));
            lemma_lists(supported@, optional@[i as int]@);
        }
        let ghost k0 = known@;
        let ghost l0 = lacking@;
        if is_listed(supported, &optional[i]) {
            known.push(optional[i].clone());
            assert(spelled(known@) =~= spelled(k0).push(optional@[i as int]@));
        } else {
            lacking.push(optional[i].clone());
            assert(spelled(lacking@) =~= spelled(l0).push(optional@[i as int]@));
        }
        i = i + 1;
    }
    assert(want.take(i as int) =~= want);
    let mut enabled: Vec<String> = required;
    join_extensions(&mut enabled, &known);
    proof {
        lemma_lists(supported@, micromap@);
    }
    let micromaps: bool = is_listed(supported, micromap);
    if micromaps {
        let ghost before = enabled@;
        enabled.push(micromap.clone());
        assert(spelled(enabled@) =~= spelled(before).push(micromap@));
    }
    DeviceExtensions { enabled, lacking, micromaps }
}

/// A device, as far as choosing one goes.
pub struct DeviceInfo {
    /// Its name, byte by byte.
    pub name: Vec<u8>,
    /// Of each of its queue families, whether it does graphics.
    pub graphics: Vec<bool>,
}

/// `part` stands in `whole` from `at` on.
pub open spec fn stands_at(whole: Seq<u8>, part: Seq<u8>, at: int) -> bool {
    0 <= at && at + part.len() <= whole.len() && whole.subrange(at, at + part.len()) == part
}

/// `part` stands somewhere in `whole`.
pub open spec fn holds_bytes(whole: Seq<u8>, part: Seq<u8>) -> bool {
    exists|at: int| stands_at(whole, part, at)
}

fn has_at(whole: &Vec<u8>, part: &Vec<u8>, at: usize) -> (r: bool)
    requires
        at + part@.len() <= whole@.len(),
    ensures
        r == stands_at(whole@, part@, at as int),
{
    let mut i: usize = 0;
    while i < part.len()
        invariant
            i <= part@.len(),
            at + part@.len() <= whole@.len(),
            forall|j: int| 0 <= j < i ==> whole@[at + j] == #[trigger] part@[j],
        decreases part@.len() - i,
    {
        assert(whole.len() <= usize::MAX);
        if whole[at + i] != part[i] {
            assert(whole@.subrange(at as int, at + part@.len())[i as int] == whole@[at + i]);
            return false;
        }
        i = i + 1;
    }
    assert(whole@.subrange(at as int, at + part@.len()) =~= part@);
    true
}

fn has_bytes(whole: &Vec<u8>, part: &Vec<u8>) -> (r: bool)
    ensures
        r == holds_bytes(whole@, part@),
{
    if part.len() > whole.len() {
        return false;
    }
    let last: usize = whole.len() - part.len();
    let mut at: usize = 0;
    loop
        invariant
            at <= last,
            last == whole@.len() - part@.len(),
            forall|j: int| 0 <= j < at ==> !stands_at(whole@, part@, j),
        decreases last - at,
    {
        if has_at(whole, part, at) {
            return true;
        }
        if at == last {
            return false;
        }
        at = at + 1;
    }
}

/// The first queue family that does graphics.
pub open spec fn first_graphics(graphics: Seq<bool>, i: int) -> bool {
    &&& 0 <= i < graphics.len()
    &&& graphics[i]
    &&& forall|j: int| 0 <= j < i ==> !#[trigger] graphics[j]
}

/// The first queue family that does graphics, where one does.
pub fn graphics_family(graphics: &Vec<bool>) -> (r: Option<usize>)
    ensures
        match r {
            Some(i) => first_graphics(graphics@, i as int),
            None => forall|j: int| 0 <= j < graphics@.len() ==> !#[trigger] graphics@[j],
        },
{
    let mut i: usize = 0;
    while i < graphics.len()
        invariant
            i <= graphics@.len(),
            forall|j: int| 0 <= j < i ==> !#[trigger] graphics@[j],
        decreases graphics@.len() - i,
    {
        if graphics[i] {
            return Some(i);
        }
        i = i + 1;
    }
    None
}

/// A device will do: its name holds the vendor's, and one of its queue families does graphics.
pub open spec fn suits(device: DeviceInfo, vendor: Seq<u8>) -> bool {
    holds_bytes(device.name@, vendor) && exists|j: int|
        0 <= j < device.graphics@.len() && #[trigger] device.graphics@[j]
}

/// The first device that will do, and its first queue family that does graphics.
pub fn pick_physical_device(devices: &Vec<DeviceInfo>, vendor: &Vec<u8>) -> (r: Option<
    (usize, usize),
>)
    ensures
        match r {
            Some((d, family)) => {
                &&& d < devices@.len()
                &&& suits(devices@[d as int], vendor@)
                &&& forall|j: int| 0 <= j < d ==> !suits(#[trigger] devices@[j], vendor@)
                &&& first_graphics(devices@[d as int].graphics@, family as int)
            },
            None => forall|j: int|
                0 <= j < devices@.len() ==> !suits(#[trigger] devices@[j], vendor@),
        },
{
    let mut d: usize = 0;
    while d < devices.len()
        invariant
            d <= devices@.len(),
            forall|j: int| 0 <= j < d ==> !suits(#[trigger] devices@[j], vendor@),
        decreases devices@.len() - d,
    {
        if has_bytes(&devices[d].name, vendor) {
            if let Some(family) = graphics_family(&devices[d].graphics) {
                assert(devices@[d as int].graphics@[family as int]);
                return Some((d, family));
            }
        }
        d = d + 1;
    }
    None
}

} // verus!
