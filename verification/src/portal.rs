//! Ray portals: surfaces that teleport rays. The renderer reads a small table of pairs of
//! instance slots.

use crate::commands::Buffer;
use crate::math::{next_power_of_two, power_of_two_from};
use vstd::prelude::*;

verus! {

/// The fewest entries that the table is made for.
pub const MIN_PORTALS: u64 = 16;

/// One table entry. `valid = 0` covers endpoints that are not resolved and the tail of the
/// buffer: slot 0 is real, so zeros must read as inert.
#[derive(Clone, Copy, Debug, PartialEq, Eq, Structural)]
pub struct GpuPortal {
    pub instance_slot: u32,
    pub target_slot: u32,
    pub valid: u32,
    pub pad: u32,
}

/// The inert entry.
pub open spec fn invalid_portal() -> GpuPortal {
    GpuPortal { instance_slot: 0, target_slot: 0, valid: 0, pad: 0 }
}

/// A portal by the slots of its surface and of its target, where they have one.
#[derive(Clone, Copy, Debug, PartialEq, Eq, Structural)]
pub struct PortalEnds {
    pub instance: Option<u32>,
    pub target: Option<u32>,
}

/// The entry of one portal: inert while an end has no slot.
pub open spec fn entry_of(ends: PortalEnds) -> GpuPortal {
    match (ends.instance, ends.target) {
        (Some(a), Some(b)) => GpuPortal { instance_slot: a, target_slot: b, valid: 1, pad: 0 },
        _ => invalid_portal(),
    }
}

/// The entries of all portals, in order.
pub fn portal_entries(portals: &Vec<PortalEnds>) -> (r: Vec<GpuPortal>)
    ensures
        r@ == portals@.map_values(|p: PortalEnds| entry_of(p)),
{
    let mut r: Vec<GpuPortal> = Vec::new();
    let mut i: usize = 0;
    while i < portals.len()
        invariant
            i <= portals@.len(),
            r@ == portals@.take(i as int).map_values(|p: PortalEnds| entry_of(p)),
        decreases portals@.len() - i,
    {
        let entry: GpuPortal = match (portals[i].instance, portals[i].target) {
            (Some(a), Some(b)) => GpuPortal {
                instance_slot: a,
                target_slot: b,
                valid: 1,
                pad: 0,
            },
            _ => GpuPortal { instance_slot: 0, target_slot: 0, valid: 0, pad: 0 },
        };
        r.push(entry);
        assert(r@ =~= portals@.take(i + 1).map_values(|p: PortalEnds| entry_of(p)));
        i = i + 1;
    }
    assert(portals@.take(i as int) =~= portals@);
    r
}

/// The uploaded table.
#[derive(Debug)]
pub struct PortalTable {
    pub buffer: Option<Buffer>,
    pub capacity: u64,
    pub count: u32,
    /// The entries uploaded last: the upload is skipped while nothing changed.
    pub last: Vec<GpuPortal>,
}

/// What a frame does with the table.
#[derive(Clone, Copy, Debug, PartialEq, Eq, Structural)]
pub enum PortalStep {
    /// Nothing changed.
    Keep,
    /// The entries are written; into a buffer made anew for so many where one is given.
    Write { grow: Option<u64> },
}

/// Entries that the table is made for so that it holds `len`.
pub open spec fn portal_capacity(len: int) -> int {
    let p = power_of_two_from(
        if len < 1 {
            1
        } else {
            len as nat
        },
    ) as int;
    if p < MIN_PORTALS {
        MIN_PORTALS as int
    } else {
        p
    }
}

/// `entries` and, behind them, inert ones.
pub open spec fn portal_rows(entries: Seq<GpuPortal>, capacity: nat) -> Seq<GpuPortal> {
    Seq::new(
        capacity,
        |i: int|
            if i < entries.len() {
                entries[i]
            } else {
                invalid_portal()
            },
    )
}

fn same_entries(a: &Vec<GpuPortal>, b: &Vec<GpuPortal>) -> (r: bool)
    ensures
        r == (a@ == b@),
{
    if a.len() != b.len() {
        return false;
    }
    let mut i: usize = 0;
    while i < a.len()
        invariant
            i <= a@.len(),
            a@.len() == b@.len(),
            forall|j: int| 0 <= j < i ==> a@[j] == b@[j],
        decreases a@.len() - i,
    {
        if a[i] != b[i] {
            return false;
        }
        i = i + 1;
    }
    assert(a@ =~= b@);
    true
}

impl PortalTable {
    /// No portal, and no buffer.
    pub fn new() -> (r: Self)
        ensures
            r.buffer is None,
            r.capacity == 0,
            r.count == 0,
            r.last@.len() == 0,
    {
        PortalTable { buffer: None, capacity: 0, count: 0, last: Vec::new() }
    }

    /// Device address of the table; 0 while it has no entry.
    pub fn address(&self) -> (r: u64)
        ensures
            r == (if self.count == 0 || self.buffer is None {
                0
            } else {
                self.buffer->0.address
            }),
    {
        if self.count == 0 {
            return 0;
        }
        match self.buffer {
            Some(b) => b.address,
            None => 0,
        }
    }

    /// Entries of the table.
    pub fn count(&self) -> (r: u32)
        ensures
            r == self.count,
    {
        self.count
    }

    /// What a frame with these entries does.
    pub open spec fn step(self, entries: Seq<GpuPortal>) -> PortalStep {
        let needed = if entries.len() < 1 {
            1
        } else {
            entries.len() as int
        };
        if entries == self.last@ && (self.buffer is Some || entries.len() == 0) {
            PortalStep::Keep
        } else if self.buffer is None || self.capacity < needed {
            PortalStep::Write { grow: Some(portal_capacity(entries.len() as int) as u64) }
        } else {
            PortalStep::Write { grow: None }
        }
    }

    /// Decides what a frame with these entries does.
    pub fn plan(&self, entries: &Vec<GpuPortal>) -> (r: PortalStep)
        requires
            entries@.len() <= u32::MAX,
        ensures
            r == self.step(entries@),
    {
        if same_entries(entries, &self.last) && (self.buffer.is_some() || entries.len() == 0) {
            return PortalStep::Keep;
        }
        let needed: u64 = if entries.len() < 1 {
            1
        } else {
            entries.len() as u64
        };
        if self.buffer.is_none() || self.capacity < needed {
            let p: u64 = next_power_of_two(needed);
            return PortalStep::Write {
                grow: Some(
                    if p < MIN_PORTALS {
                        MIN_PORTALS
                    } else {
                        p
                    },
                ),
            };
        }
        PortalStep::Write { grow: None }
    }

    /// Takes over the entries, and a buffer made anew where the plan asked for one; gives the
    /// rows to write, inert behind the entries.
    pub fn commit(&mut self, entries: Vec<GpuPortal>, grown: Option<(Buffer, u64)>) -> (r: Vec<
        GpuPortal,
    >)
        requires
            entries@.len() <= u32::MAX,
            match grown {
                Some((_, capacity)) => entries@.len() <= capacity <= usize::MAX,
                None => old(self).buffer is Some && entries@.len() <= old(self).capacity
                    <= usize::MAX,
            },
        ensures
            final(self).buffer == (match grown {
                Some((b, _)) => Some(b),
                None => old(self).buffer,
            }),
            final(self).capacity == (match grown {
                Some((_, capacity)) => capacity,
                None => old(self).capacity,
            }),
            final(self).count == entries@.len(),
            final(self).last == entries,
            r@ == portal_rows(entries@, final(self).capacity as nat),
    {
        if let Some((b, capacity)) = grown {
            self.buffer = Some(b);
            self.capacity = capacity;
        }
        let capacity: usize = self.capacity as usize;
        let mut r: Vec<GpuPortal> = Vec::new();
        let mut i: usize = 0;
        while i < capacity
            invariant
                i <= capacity,
                r@ == portal_rows(entries@, i as nat),
            decreases capacity - i,
        {
            let row: GpuPortal = if i < entries.len() {
                entries[i]
            } else {
                GpuPortal { instance_slot: 0, target_slot: 0, valid: 0, pad: 0 }
            };
            r.push(row);
            assert(r@ =~= portal_rows(entries@, (i + 1) as nat));
            i = i + 1;
        }
        self.count = entries.len() as u32;
        self.last = entries;
        r
    }
}

/// What a table is grown to holds the entries.
pub proof fn lemma_portal_capacity(len: int)
    requires
        0 <= len,
    ensures
        portal_capacity(len) >= len,
        portal_capacity(len) >= MIN_PORTALS,
{
    crate::math::lemma_power_of_two(
        if len < 1 {
            1
        } else {
            len as nat
        },
    );
}

/// Once the entries were written, the same entries are not written again.
pub proof fn lemma_portals_settle(table: PortalTable)
    requires
        table.buffer is Some,
    ensures
        table.step(table.last@) == PortalStep::Keep,
{
}

/// A portal is open exactly where both of its ends have a slot, and then leads from its surface
/// to its target; every row behind the entries is shut.
pub proof fn lemma_portal_leads(ends: PortalEnds, entries: Seq<GpuPortal>, capacity: nat)
    requires
        entries.len() <= capacity,
    ensures
        entry_of(ends).valid == 1 <==> ends.instance is Some && ends.target is Some,
        entry_of(ends).valid == 0 || ends.instance == Some(entry_of(ends).instance_slot)
            && ends.target == Some(entry_of(ends).target_slot),
        portal_rows(entries, capacity).len() == capacity,
        portal_rows(entries, capacity).take(entries.len() as int) == entries,
        forall|i: int|
            entries.len() <= i < capacity ==> (#[trigger] portal_rows(entries, capacity)[i]).valid
                == 0,
{
    assert(portal_rows(entries, capacity).take(entries.len() as int) =~= entries);
}

} // verus!
