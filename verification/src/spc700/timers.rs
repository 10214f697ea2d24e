//! SPC700 timers.
//!
//! Three timers: T0 and T1 tick at 8 kHz (every 128 SPC cycles), T2 at
//! 64 kHz (every 16). Each has a target register and a 4-bit output
//! counter that increments when the internal divider reaches the target.
//! Reading the counter clears it.
use vstd::prelude::*;

verus! {

/// Ticks between counter increments for a target value: the target, with
/// 0 standing for 256.
pub open spec fn timer_period(target: u16) -> int {
    if target == 0 { 256 } else { target as int }
}

pub struct Timer {
    /// Target value (`$FA-$FC`); 0 means 256.
    pub target: u16,
    /// Internal divider (counts up to the target).
    pub divider: u16,
    /// 4-bit output counter (`$FD-$FF`).
    pub counter: u8,
    /// Enabled by the CONTROL register (bits 0-2).
    pub enabled: bool,
    /// Number of times the counter incremented (diagnostics).
    pub fire_count: u32,
    /// Number of counter reads (diagnostics).
    pub read_count: u32,
    /// The counter fired on the last `tick`.
    pub fired: bool,
}

impl Timer {
    /// The internal divider.
    pub open spec fn divider_value(&self) -> u16 {
        self.divider
    }

    /// Whether the last tick fired.
    pub open spec fn fired_value(&self) -> bool {
        self.fired
    }

    /// The divider can still be incremented.
    pub open spec fn wf(&self) -> bool {
        self.divider_value() < u16::MAX
    }

    pub fn new(target: u16) -> (t: Self)
        ensures
            t.wf(),
            t.target == target,
            t.divider_value() == 0,
            t.counter == 0,
            !t.enabled,
            t.fire_count == 0,
            t.read_count == 0,
            !t.fired_value(),
    {
        Self { target, divider: 0, counter: 0, enabled: false, fire_count: 0, read_count: 0, fired: false }
    }

    /// Advance the timer by one tick at its native rate. A disabled timer
    /// does nothing; otherwise the divider counts up, and on reaching the
    /// target (256 for a target of 0) it restarts and the 4-bit counter
    /// increments (wrapping).
    pub fn tick(&mut self)
        requires
            old(self).wf(),
            old(self).enabled && old(self).divider_value() + 1 >= timer_period(old(self).target) ==> old(self).counter < u8::MAX
                && old(self).fire_count < u32::MAX,
        ensures
            final(self).wf(),
            final(self).target == old(self).target,
            final(self).enabled == old(self).enabled,
            final(self).read_count == old(self).read_count,
            !old(self).enabled ==> {
                &&& final(self).divider_value() == old(self).divider_value()
                &&& final(self).counter == old(self).counter
                &&& final(self).fire_count == old(self).fire_count
                &&& !final(self).fired_value()
            },
            old(self).enabled && old(self).divider_value() + 1 >= timer_period(old(self).target) ==> {
                &&& final(self).divider_value() == 0
                &&& final(self).counter == ((old(self).counter + 1) as u8) & 0x0F
                &&& final(self).counter <= 0x0F
                &&& final(self).fire_count == old(self).fire_count + 1
                &&& final(self).fired_value()
            },
            old(self).enabled && old(self).divider_value() + 1 < timer_period(old(self).target) ==> {
                &&& final(self).divider_value() == old(self).divider_value() + 1
                &&& final(self).counter == old(self).counter
                &&& final(self).fire_count == old(self).fire_count
                &&& !final(self).fired_value()
            },
    {
        self.fired = false;
        if !self.enabled {
            return;
        }
        self.divider = self.divider + 1;
        let period: u16 = if self.target == 0 { 256 } else { self.target };
        if self.divider >= period {
            self.divider = 0;
            let bumped: u8 = self.counter + 1;
            self.counter = bumped & 0x0F;
            assert(bumped & 0x0F <= 0x0F) by (bit_vector);
            self.fire_count = self.fire_count + 1;
            self.fired = true;
        }
    }

    /// Read and clear the output counter.
    pub fn read_counter(&mut self) -> (v: u8)
        requires
            old(self).read_count < u32::MAX,
        ensures
            v == old(self).counter,
            final(self).counter == 0,
            final(self).read_count == old(self).read_count + 1,
            final(self).target == old(self).target,
            final(self).enabled == old(self).enabled,
            final(self).fire_count == old(self).fire_count,
            final(self).divider_value() == old(self).divider_value(),
            final(self).fired_value() == old(self).fired_value(),
    {
        let val = self.counter;
        self.counter = 0;
        self.read_count = self.read_count + 1;
        val
    }

    /// True if the timer fired on the last `tick`.
    pub fn last_fired(&self) -> (r: bool)
        ensures
            r == self.fired_value(),
    {
        self.fired
    }

    /// Serialize to a 6-byte blob: target and divider (little-endian),
    /// counter, enabled flag.
    pub fn snapshot_state(&self) -> (out: [u8; 6])
        ensures
            out@ == timer_state_bytes(self.target, self.divider_value(), self.counter, self.enabled),
    {
        let out: [u8; 6] = [
            (self.target & 0xFF) as u8,
            (self.target >> 8) as u8,
            (self.divider & 0xFF) as u8,
            (self.divider >> 8) as u8,
            self.counter,
            if self.enabled { 1 } else { 0 },
        ];
        assert(out@ =~= timer_state_bytes(self.target, self.divider_value(), self.counter, self.enabled));
        out
    }

    /// Restore from a blob produced by `snapshot_state`.
    pub fn restore_state(&mut self, b: &[u8; 6])
        ensures
            final(self).target == (b@[1] as int * 256 + b@[0] as int) as u16,
            final(self).divider_value() == (b@[3] as int * 256 + b@[2] as int) as u16,
            final(self).counter == b@[4],
            final(self).enabled == (b@[5] != 0),
            final(self).fire_count == old(self).fire_count,
            final(self).read_count == old(self).read_count,
            final(self).fired_value() == old(self).fired_value(),
    {
        self.target = (b[1] as u16) * 256 + b[0] as u16;
        self.divider = (b[3] as u16) * 256 + b[2] as u16;
        self.counter = b[4];
        self.enabled = b[5] != 0;
    }
}

/// The 6-byte timer blob.
pub open spec fn timer_state_bytes(target: u16, divider: u16, counter: u8, enabled: bool) -> Seq<u8> {
    seq![
        (target & 0xFF) as u8,
        (target >> 8) as u8,
        (divider & 0xFF) as u8,
        (divider >> 8) as u8,
        counter,
        if enabled { 1u8 } else { 0u8 },
    ]
}

/// Restoring a timer from its own blob gives back its target, divider,
/// counter and enabled flag.
pub proof fn lemma_timer_state_roundtrip(target: u16, divider: u16, counter: u8, enabled: bool)
    ensures
        ({
            let b = timer_state_bytes(target, divider, counter, enabled);
            &&& (b[1] as int * 256 + b[0] as int) as u16 == target
            &&& (b[3] as int * 256 + b[2] as int) as u16 == divider
            &&& b[4] == counter
            &&& (b[5] != 0) == enabled
        }),
{
    assert(((target >> 8) as u8 as int * 256 + (target & 0xFF) as u8 as int) as u16 == target && ((divider >> 8) as u8
        as int * 256 + (divider & 0xFF) as u8 as int) as u16 == divider) by (bit_vector);
}

} // verus!
