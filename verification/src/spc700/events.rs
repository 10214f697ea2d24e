//! Diagnostic events of the sound subsystem, for tracing audio timing.
use vstd::prelude::*;

verus! {

/// Absolute SPC700 cycle at which an event occurred.
pub type ApuCycle = u64;

/// Absolute master cycle (65816 clock) for cross-chip correlation.
pub type MasterCycle = u64;

#[derive(Debug, Clone)]
pub enum ApuEvent {
    /// The CPU ran the APU forward.
    CatchUp {
        master_cycle: MasterCycle,
        delta_master: u32,
        spc_cycles: u32,
        cycle_frac_before: u32,
        cycle_frac_after: u32,
    },
    /// End-of-scanline APU flush.
    ScanlineFlush { scanline: u16, master_cycle: MasterCycle, apu_cycle: ApuCycle },
    /// SPC700 wrote an output port (`$F4-$F7`).
    PortWrite { apu_cycle: ApuCycle, port: u8, value: u8, spc_pc: u16 },
    /// SPC700 read an input port (`$F4-$F7`).
    PortRead { apu_cycle: ApuCycle, port: u8, value: u8, spc_pc: u16 },
    /// The main CPU wrote an APU port (`$2140-$2143`).
    CpuPortWrite { master_cycle: MasterCycle, port: u8, value: u8 },
    /// The main CPU read an APU port (`$2140-$2143`).
    CpuPortRead { master_cycle: MasterCycle, port: u8, value: u8 },
    /// The DSP produced a stereo sample.
    Sample {
        apu_cycle: ApuCycle,
        left_raw: i16,
        right_raw: i16,
        left_filtered: i16,
        right_filtered: i16,
        sample_index: u64,
    },
    /// DSP voice key-on.
    VoiceKeyOn { apu_cycle: ApuCycle, voice_mask: u8 },
    /// DSP voice key-off.
    VoiceKeyOff { apu_cycle: ApuCycle, voice_mask: u8 },
    /// A timer fired.
    TimerFire { apu_cycle: ApuCycle, timer: u8, counter: u8 },
    /// The SPC700 read a timer counter (`$FD-$FF`).
    TimerRead { apu_cycle: ApuCycle, timer: u8, value: u8, spc_pc: u16 },
}

/// `Vec::capacity` of the event buffer. Nothing is stated of the number:
/// it is what the allocator gave.
#[verifier::external_body]
fn buffer_capacity(v: &Vec<ApuEvent>) -> usize {
    v.capacity()
}

/// Events gathered during an APU run, drained by the caller.
pub struct ApuEventLog {
    pub events: Vec<ApuEvent>,
    pub sample_counter: u64,
    /// SPC700 PC of the instruction being run.
    pub current_pc: u16,
    /// Current APU cycle.
    pub current_cycle: u64,
}

impl ApuEventLog {
    pub fn new() -> (log: Self)
        ensures
            log.events@ == Seq::<ApuEvent>::empty(),
            log.sample_counter == 0,
            log.current_pc == 0,
            log.current_cycle == 0,
    {
        Self { events: Vec::with_capacity(4096), sample_counter: 0, current_pc: 0, current_cycle: 0 }
    }

    /// Append an event.
    pub fn push(&mut self, event: ApuEvent)
        ensures
            final(self).events@ == old(self).events@.push(event),
            final(self).sample_counter == old(self).sample_counter,
            final(self).current_pc == old(self).current_pc,
            final(self).current_cycle == old(self).current_cycle,
    {
        self.events.push(event);
    }

    /// Take all events out, in the order they were pushed; the log keeps
    /// an empty buffer of the capacity it had.
    pub fn drain(&mut self) -> (out: Vec<ApuEvent>)
        ensures
            out@ == old(self).events@,
            final(self).events@ == Seq::<ApuEvent>::empty(),
            final(self).sample_counter == old(self).sample_counter,
            final(self).current_pc == old(self).current_pc,
            final(self).current_cycle == old(self).current_cycle,
    {
        let cap = buffer_capacity(&self.events);
        let mut out: Vec<ApuEvent> = Vec::with_capacity(cap);
        std::mem::swap(&mut out, &mut self.events);
        out
    }

    pub fn len(&self) -> (n: usize)
        ensures
            n == self.events@.len(),
    {
        self.events.len()
    }
}

} // verus!
