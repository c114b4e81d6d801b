//! The idle task's load estimate and how often it halts.
use vstd::prelude::*;

verus! {

/// Load in percent over a window: `100 - 100 * idle / ticks`, 0 for an
/// empty window.
pub open spec fn load_of(idle_delta: u64, tick_delta: u64) -> u64 {
    if tick_delta == 0 {
        0
    } else {
        (100 - (idle_delta * 100) as int / (tick_delta as int)) as u64
    }
}

/// Load in percent from the idle and total switch counts of a window.
pub fn cpu_load(idle_delta: u64, tick_delta: u64) -> (r: u64)
    requires
        idle_delta <= tick_delta,
        tick_delta <= u64::MAX / 100,
    ensures
        r == load_of(idle_delta, tick_delta),
        r <= 100,
{
    if tick_delta == 0 {
        0
    } else {
        assert((idle_delta * 100) as int / (tick_delta as int) <= 100) by (nonlinear_arith)
            requires
                idle_delta <= tick_delta,
                tick_delta > 0,
        ;
        100 - idle_delta * 100 / tick_delta
    }
}

/// Halts per idle-loop pass: 3 under 40 %, 2 under 80 %, 1 under 95 %,
/// none from 95 %.
pub fn halting(load: u64) -> (r: u8)
    ensures
        r == if load < 40 {
            3u8
        } else if load < 80 {
            2u8
        } else if load < 95 {
            1u8
        } else {
            0u8
        },
{
    if load < 40 {
        3
    } else if load < 80 {
        2
    } else if load < 95 {
        1
    } else {
        0
    }
}

/// The idle task's window: the counts seen at its last pass and the load
/// measured then.
pub struct IdleMonitor {
    pub idle_count: u64,
    pub tick_count: u64,
    pub load: u64,
}

impl IdleMonitor {
    /// Starts a window at the given counts, with load 0.
    pub fn new(idle_count: u64, tick_count: u64) -> (r: Self)
        ensures
            r.idle_count == idle_count && r.tick_count == tick_count && r.load == 0,
    {
        IdleMonitor { idle_count, tick_count, load: 0 }
    }

    /// Closes the window at the current counts, records its load and opens
    /// the next one.
    pub fn update(&mut self, idle_now: u64, tick_now: u64) -> (r: u64)
        requires
            old(self).idle_count <= idle_now,
            old(self).tick_count <= tick_now,
            idle_now - old(self).idle_count <= tick_now - old(self).tick_count,
            tick_now - old(self).tick_count <= u64::MAX / 100,
        ensures
            r == load_of((idle_now - old(self).idle_count) as u64, (tick_now - old(self).tick_count) as u64),
            *final(self) == (IdleMonitor { idle_count: idle_now, tick_count: tick_now, load: r }),
    {
        let load = cpu_load(idle_now - self.idle_count, tick_now - self.tick_count);
        self.idle_count = idle_now;
        self.tick_count = tick_now;
        self.load = load;
        load
    }

    /// The load of the last closed window.
    pub fn process_load(&self) -> (r: u64)
        ensures
            r == self.load,
    {
        self.load
    }
}

} // verus!
