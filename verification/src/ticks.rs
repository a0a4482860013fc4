//! Change detection: when a component slot was added and when it was last changed.
use vstd::prelude::*;

verus! {

/// The ticks of one component slot.
#[derive(Clone, Copy, Debug, PartialEq, Eq, Structural)]
pub struct ComponentTicks {
    pub added: u32,
    pub changed: u32,
}

/// How many ticks lie between `tick` and the later `now`, on a counter that starts
/// again at zero after the largest `u32`.
pub open spec fn ticks_since(tick: u32, now: u32) -> int {
    if now >= tick {
        now - tick
    } else {
        now - tick + 0x1_0000_0000
    }
}

/// `tick` is more recent than `last_change_tick`, both seen from `change_tick`.
pub open spec fn is_newer(tick: u32, last_change_tick: u32, change_tick: u32) -> bool {
    ticks_since(tick, change_tick) < ticks_since(last_change_tick, change_tick)
}

fn newer(tick: u32, last_change_tick: u32, change_tick: u32) -> (newer: bool)
    ensures
        newer == is_newer(tick, last_change_tick, change_tick),
{
    let component_delta = change_tick.wrapping_sub(tick);
    let system_delta = change_tick.wrapping_sub(last_change_tick);
    component_delta < system_delta
}

impl ComponentTicks {
    /// The ticks of a slot that is filled at `change_tick`.
    pub fn new(change_tick: u32) -> (ticks: ComponentTicks)
        ensures
            ticks == (ComponentTicks { added: change_tick, changed: change_tick }),
    {
        ComponentTicks { added: change_tick, changed: change_tick }
    }

    /// Whether the slot was added after the system last ran. The comparison is made
    /// relative to `change_tick`, so that it holds over the whole range of the counter.
    pub fn is_added(&self, last_change_tick: u32, change_tick: u32) -> (added: bool)
        ensures
            added == is_newer(self.added, last_change_tick, change_tick),
    {
        newer(self.added, last_change_tick, change_tick)
    }

    /// Whether the slot was changed after the system last ran.
    pub fn is_changed(&self, last_change_tick: u32, change_tick: u32) -> (changed: bool)
        ensures
            changed == is_newer(self.changed, last_change_tick, change_tick),
    {
        newer(self.changed, last_change_tick, change_tick)
    }

    /// Stamps the slot as changed at `change_tick`.
    pub fn set_changed(&mut self, change_tick: u32)
        ensures
            *final(self) == (ComponentTicks { added: old(self).added, changed: change_tick }),
    {
        self.changed = change_tick;
    }
}

} // verus!
