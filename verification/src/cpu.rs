//! The WDC 65C816 register file (as used in the Ricoh 5A22).
//!
//! The CPU starts in emulation mode (6502 compatible, 8-bit registers,
//! stack in page 1) and a game switches to native mode to unlock 16-bit
//! registers.
use vstd::prelude::*;
use vstd::bytes::*;
use crate::bus::{Bus, BusState, pure_memory, Peripherals, read_state, read_value, write_state, is_dma_trigger, dma_room, bus_wf, general_dma_post, rom_read, MAX_DMA_CYCLES, bus_target, BusTarget, access_speed, read_requests, write_requests, read_answer};
use crate::snapshot::{w_u8, w_u16, w_u64, w_bool, r_u8, r_u16, r_u64, r_bool, u16_at, u64_at, rest_from, bool_byte};

verus! {

/// Processor status flags.
///
/// In native mode all 8 bits are meaningful (NVMXDIZC). In emulation mode
/// M is forced to 1 and the X position becomes the break flag.
#[derive(Clone, Copy, Debug)]
pub struct StatusRegister {
    pub n: bool,
    pub v: bool,
    pub m: bool,
    pub x: bool,
    pub d: bool,
    pub i: bool,
    pub z: bool,
    pub c: bool,
}

pub open spec fn bit_if(flag: bool, bit: u8) -> u8 {
    if flag { bit } else { 0 }
}

/// The byte that `to_byte` packs: NVMXDIZC, with bit 5 forced to 1 in
/// emulation mode.
pub open spec fn status_byte(p: StatusRegister, emulation: bool) -> u8 {
    bit_if(p.n, 0x80) | bit_if(p.v, 0x40) | bit_if(emulation || p.m, 0x20) | bit_if(p.x, 0x10)
        | bit_if(p.d, 0x08) | bit_if(p.i, 0x04) | bit_if(p.z, 0x02) | bit_if(p.c, 0x01)
}

/// The flags that `from_byte` unpacks from `val`.
pub open spec fn status_from(val: u8, emulation: bool) -> StatusRegister {
    StatusRegister {
        n: val & 0x80 != 0,
        v: val & 0x40 != 0,
        m: emulation || val & 0x20 != 0,
        x: emulation || val & 0x10 != 0,
        d: val & 0x08 != 0,
        i: val & 0x04 != 0,
        z: val & 0x02 != 0,
        c: val & 0x01 != 0,
    }
}

proof fn lemma_flag_bits(n: bool, v: bool, m: bool, x: bool, d: bool, i: bool, z: bool, c: bool, b: u8)
    requires
        b == bit_if(n, 0x80) | bit_if(v, 0x40) | bit_if(m, 0x20) | bit_if(x, 0x10)
            | bit_if(d, 0x08) | bit_if(i, 0x04) | bit_if(z, 0x02) | bit_if(c, 0x01),
    ensures
        (b & 0x80 != 0) == n,
        (b & 0x40 != 0) == v,
        (b & 0x20 != 0) == m,
        (b & 0x10 != 0) == x,
        (b & 0x08 != 0) == d,
        (b & 0x04 != 0) == i,
        (b & 0x02 != 0) == z,
        (b & 0x01 != 0) == c,
{
    let bn = bit_if(n, 0x80);
    let bv = bit_if(v, 0x40);
    let bm = bit_if(m, 0x20);
    let bx = bit_if(x, 0x10);
    let bd = bit_if(d, 0x08);
    let bi = bit_if(i, 0x04);
    let bz = bit_if(z, 0x02);
    let bc = bit_if(c, 0x01);
    assert(
        (bn == 0x80 || bn == 0) && (bv == 0x40 || bv == 0) && (bm == 0x20 || bm == 0) && (bx == 0x10 || bx == 0)
        && (bd == 0x08 || bd == 0) && (bi == 0x04 || bi == 0) && (bz == 0x02 || bz == 0) && (bc == 0x01 || bc == 0)
        && b == bn | bv | bm | bx | bd | bi | bz | bc
        ==> (b & 0x80 != 0) == (bn != 0) && (b & 0x40 != 0) == (bv != 0) && (b & 0x20 != 0) == (bm != 0)
            && (b & 0x10 != 0) == (bx != 0) && (b & 0x08 != 0) == (bd != 0) && (b & 0x04 != 0) == (bi != 0)
            && (b & 0x02 != 0) == (bz != 0) && (b & 0x01 != 0) == (bc != 0)
    ) by (bit_vector);
}

proof fn lemma_byte_from_bits(b: u8)
    ensures
        b == bit_if(b & 0x80 != 0, 0x80) | bit_if(b & 0x40 != 0, 0x40) | bit_if(b & 0x20 != 0, 0x20)
            | bit_if(b & 0x10 != 0, 0x10) | bit_if(b & 0x08 != 0, 0x08) | bit_if(b & 0x04 != 0, 0x04)
            | bit_if(b & 0x02 != 0, 0x02) | bit_if(b & 0x01 != 0, 0x01),
{
    assert(b == (b & 0x80) | (b & 0x40) | (b & 0x20) | (b & 0x10) | (b & 0x08) | (b & 0x04) | (b & 0x02) | (b & 0x01))
        by (bit_vector);
    assert((b & 0x80 != 0 ==> b & 0x80 == 0x80) && (b & 0x40 != 0 ==> b & 0x40 == 0x40)
        && (b & 0x20 != 0 ==> b & 0x20 == 0x20) && (b & 0x10 != 0 ==> b & 0x10 == 0x10)
        && (b & 0x08 != 0 ==> b & 0x08 == 0x08) && (b & 0x04 != 0 ==> b & 0x04 == 0x04)
        && (b & 0x02 != 0 ==> b & 0x02 == 0x02) && (b & 0x01 != 0 ==> b & 0x01 == 0x01)) by (bit_vector);
}

/// In native mode, unpacking a packed status register gives back every
/// flag.
pub proof fn lemma_status_roundtrip_native(p: StatusRegister)
    ensures
        status_from(status_byte(p, false), false) == p,
{
    lemma_flag_bits(p.n, p.v, p.m, p.x, p.d, p.i, p.z, p.c, status_byte(p, false));
}

/// In emulation mode the round trip forces M and X to 1 and keeps the
/// other six flags.
pub proof fn lemma_status_roundtrip_emulation(p: StatusRegister)
    ensures
        status_from(status_byte(p, true), true) == (StatusRegister { m: true, x: true, ..p }),
{
    lemma_flag_bits(p.n, p.v, true, p.x, p.d, p.i, p.z, p.c, status_byte(p, true));
}

/// In native mode packing is injective: distinct flag states give
/// distinct bytes.
pub proof fn lemma_status_byte_injective(p: StatusRegister, q: StatusRegister)
    requires
        status_byte(p, false) == status_byte(q, false),
    ensures
        p == q,
{
    lemma_status_roundtrip_native(p);
    lemma_status_roundtrip_native(q);
}

/// In native mode every byte is the packing of the flags unpacked from it.
pub proof fn lemma_status_byte_surjective(b: u8)
    ensures
        status_byte(status_from(b, false), false) == b,
{
    lemma_byte_from_bits(b);
}

impl StatusRegister {
    /// Flags at power-on: 8-bit registers, IRQs disabled.
    pub fn new() -> (p: Self)
        ensures
            p == (StatusRegister { n: false, v: false, m: true, x: true, d: false, i: true, z: false, c: false }),
    {
        Self { n: false, v: false, m: true, x: true, d: false, i: true, z: false, c: false }
    }

    /// Pack into a byte. Bit 5 is always 1 in emulation mode.
    pub fn to_byte(self, emulation: bool) -> (b: u8)
        ensures
            b == status_byte(self, emulation),
    {
        let mut b = 0u8;
        b = b | if self.n { 0x80u8 } else { 0 };
        b = b | if self.v { 0x40u8 } else { 0 };
        if emulation {
            // Bit 5 = 1 (unused), bit 4 = break flag (x).
            b = b | 0x20;
            b = b | if self.x { 0x10u8 } else { 0 };
        } else {
            b = b | if self.m { 0x20u8 } else { 0 };
            b = b | if self.x { 0x10u8 } else { 0 };
        }
        b = b | if self.d { 0x08u8 } else { 0 };
        b = b | if self.i { 0x04u8 } else { 0 };
        b = b | if self.z { 0x02u8 } else { 0 };
        b = b | if self.c { 0x01u8 } else { 0 };
        proof {
            assert(0u8 | bit_if(self.n, 0x80) == bit_if(self.n, 0x80)) by (bit_vector);
        }
        b
    }

    /// Unpack from a byte; in emulation mode M and X are forced to 1.
    pub fn from_byte(&mut self, val: u8, emulation: bool)
        ensures
            *final(self) == status_from(val, emulation),
    {
        self.n = val & 0x80 != 0;
        self.v = val & 0x40 != 0;
        if emulation {
            self.m = true;
            self.x = true;
        } else {
            self.m = val & 0x20 != 0;
            self.x = val & 0x10 != 0;
        }
        self.d = val & 0x08 != 0;
        self.i = val & 0x04 != 0;
        self.z = val & 0x02 != 0;
        self.c = val & 0x01 != 0;
    }
}

pub struct Cpu {
    pub a: u16,
    pub x: u16,
    pub y: u16,
    pub sp: u16,
    pub dp: u16,
    pub pc: u16,
    pub pbr: u8,
    pub dbr: u8,
    pub p: StatusRegister,
    /// Emulation mode (starts true).
    pub emulation: bool,
    /// Master cycle counter.
    pub cycles: u64,
    pub nmi_pending: bool,
    pub irq_pending: bool,
    /// STP executed.
    pub stopped: bool,
    /// WAI executed; waiting for an interrupt.
    pub waiting: bool,
    /// Enable instruction tracing.
    pub trace: bool,
    /// Per-opcode execution count.
    pub opcode_counts: Box<[u64; 256]>,
    /// Number of times the idle-loop fast path fired.
    pub idle_skip_hits: u64,
    /// Cumulative master cycles skipped by the idle-loop fast path.
    pub idle_skip_cycles: u64,
}

/// Number of bytes of a CPU record in a save state.
pub const CPU_STATE_LEN: usize = 28;

/// The CPU record of a save state: A, X, Y, SP, DP, PC (u16 each), PBR,
/// DBR, the status byte packed as in native mode, the emulation flag, the
/// cycle counter (u64) and the NMI / IRQ / STP / WAI flags.
pub open spec fn cpu_state_bytes(c: &Cpu) -> Seq<u8> {
    spec_u16_to_le_bytes(c.a) + spec_u16_to_le_bytes(c.x) + spec_u16_to_le_bytes(c.y)
        + spec_u16_to_le_bytes(c.sp) + spec_u16_to_le_bytes(c.dp) + spec_u16_to_le_bytes(c.pc)
        + seq![c.pbr, c.dbr, status_byte(c.p, false), bool_byte(c.emulation)]
        + spec_u64_to_le_bytes(c.cycles)
        + seq![bool_byte(c.nmi_pending), bool_byte(c.irq_pending), bool_byte(c.stopped), bool_byte(c.waiting)]
}

/// The saved registers of `c` are those decoded from the CPU record at
/// the start of `s`.
pub open spec fn cpu_restored_from(c: &Cpu, s: Seq<u8>) -> bool {
    &&& c.a == u16_at(s, 0)
    &&& c.x == u16_at(s, 2)
    &&& c.y == u16_at(s, 4)
    &&& c.sp == u16_at(s, 6)
    &&& c.dp == u16_at(s, 8)
    &&& c.pc == u16_at(s, 10)
    &&& c.pbr == s[12]
    &&& c.dbr == s[13]
    &&& c.p == status_from(s[14], false)
    &&& c.emulation == (s[15] != 0)
    &&& c.cycles == u64_at(s, 16)
    &&& c.nmi_pending == (s[24] != 0)
    &&& c.irq_pending == (s[25] != 0)
    &&& c.stopped == (s[26] != 0)
    &&& c.waiting == (s[27] != 0)
}

/// Two CPUs agree on every register a save state records.
pub open spec fn cpu_same_saved(c: &Cpu, d: &Cpu) -> bool {
    &&& c.a == d.a
    &&& c.x == d.x
    &&& c.y == d.y
    &&& c.sp == d.sp
    &&& c.dp == d.dp
    &&& c.pc == d.pc
    &&& c.pbr == d.pbr
    &&& c.dbr == d.dbr
    &&& c.p == d.p
    &&& c.emulation == d.emulation
    &&& c.cycles == d.cycles
    &&& c.nmi_pending == d.nmi_pending
    &&& c.irq_pending == d.irq_pending
    &&& c.stopped == d.stopped
    &&& c.waiting == d.waiting
}

/// Two CPUs agree on everything a save state does not record.
pub open spec fn cpu_same_unsaved(c: &Cpu, d: &Cpu) -> bool {
    &&& c.trace == d.trace
    &&& c.opcode_counts == d.opcode_counts
    &&& c.idle_skip_hits == d.idle_skip_hits
    &&& c.idle_skip_cycles == d.idle_skip_cycles
}

/// The CPU record of `c` decodes to the registers of `c`, whatever follows.
pub proof fn lemma_cpu_record_decodes(c: &Cpu, d: &Cpu, rest: Seq<u8>)
    requires
        cpu_restored_from(d, cpu_state_bytes(c) + rest),
    ensures
        cpu_same_saved(c, d),
        cpu_state_bytes(c).len() == CPU_STATE_LEN,
        rest_from(cpu_state_bytes(c) + rest, CPU_STATE_LEN as int) == rest,
{
    let s = cpu_state_bytes(c) + rest;
    lemma_auto_spec_u16_to_from_le_bytes();
    lemma_auto_spec_u64_to_from_le_bytes();
    assert(s.subrange(0, 2) =~= spec_u16_to_le_bytes(c.a));
    assert(s.subrange(2, 4) =~= spec_u16_to_le_bytes(c.x));
    assert(s.subrange(4, 6) =~= spec_u16_to_le_bytes(c.y));
    assert(s.subrange(6, 8) =~= spec_u16_to_le_bytes(c.sp));
    assert(s.subrange(8, 10) =~= spec_u16_to_le_bytes(c.dp));
    assert(s.subrange(10, 12) =~= spec_u16_to_le_bytes(c.pc));
    assert(s.subrange(16, 24) =~= spec_u64_to_le_bytes(c.cycles));
    assert(rest_from(s, CPU_STATE_LEN as int) =~= rest);
    lemma_status_roundtrip_native(c.p);
}

impl Cpu {
    pub fn new() -> (cpu: Self)
        ensures
            cpu.a == 0 && cpu.x == 0 && cpu.y == 0 && cpu.sp == 0x01FF && cpu.dp == 0 && cpu.pc == 0,
            cpu.pbr == 0 && cpu.dbr == 0,
            cpu.p == (StatusRegister { n: false, v: false, m: true, x: true, d: false, i: true, z: false, c: false }),
            cpu.emulation && cpu.cycles == 0,
            !cpu.nmi_pending && !cpu.irq_pending && !cpu.stopped && !cpu.waiting && !cpu.trace,
            forall|k: int| 0 <= k < 256 ==> cpu.opcode_counts@[k] == 0,
            cpu.idle_skip_hits == 0 && cpu.idle_skip_cycles == 0,
    {
        Self {
            a: 0,
            x: 0,
            y: 0,
            sp: 0x01FF,
            dp: 0,
            pc: 0,
            pbr: 0,
            dbr: 0,
            p: StatusRegister::new(),
            emulation: true,
            cycles: 0,
            nmi_pending: false,
            irq_pending: false,
            stopped: false,
            waiting: false,
            trace: false,
            opcode_counts: Box::new([0u64; 256]),
            idle_skip_hits: 0,
            idle_skip_cycles: 0,
        }
    }

    /// Is the accumulator in 8-bit mode?
    pub fn is_m8(&self) -> (r: bool)
        ensures
            r == (self.emulation || self.p.m),
    {
        self.emulation || self.p.m
    }

    /// Are the index registers in 8-bit mode?
    pub fn is_x8(&self) -> (r: bool)
        ensures
            r == (self.emulation || self.p.x),
    {
        self.emulation || self.p.x
    }

    /// Update N and Z for an 8-bit result.
    pub fn update_nz8(&mut self, val: u8)
        ensures
            *final(self) == (Cpu {
                p: StatusRegister { z: val == 0, n: val & 0x80 != 0, ..old(self).p },
                ..*old(self)
            }),
    {
        self.p.z = val == 0;
        self.p.n = val & 0x80 != 0;
    }

    /// Update N and Z for a 16-bit result.
    pub fn update_nz16(&mut self, val: u16)
        ensures
            *final(self) == (Cpu {
                p: StatusRegister { z: val == 0, n: val & 0x8000 != 0, ..old(self).p },
                ..*old(self)
            }),
    {
        self.p.z = val == 0;
        self.p.n = val & 0x8000 != 0;
    }

    /// Update N and Z by the accumulator width: the low byte in 8-bit
    /// mode, the whole word otherwise.
    pub fn update_nz_a(&mut self, val: u16)
        ensures
            old(self).emulation || old(self).p.m ==> *final(self) == (Cpu {
                p: StatusRegister { z: val as u8 == 0, n: (val as u8) & 0x80 != 0, ..old(self).p },
                ..*old(self)
            }),
            !(old(self).emulation || old(self).p.m) ==> *final(self) == (Cpu {
                p: StatusRegister { z: val == 0, n: val & 0x8000 != 0, ..old(self).p },
                ..*old(self)
            }),
    {
        if self.is_m8() {
            self.update_nz8(val as u8);
        } else {
            self.update_nz16(val);
        }
    }

    /// Update N and Z by the index width.
    pub fn update_nz_x(&mut self, val: u16)
        ensures
            old(self).emulation || old(self).p.x ==> *final(self) == (Cpu {
                p: StatusRegister { z: val as u8 == 0, n: (val as u8) & 0x80 != 0, ..old(self).p },
                ..*old(self)
            }),
            !(old(self).emulation || old(self).p.x) ==> *final(self) == (Cpu {
                p: StatusRegister { z: val == 0, n: val & 0x8000 != 0, ..old(self).p },
                ..*old(self)
            }),
    {
        if self.is_x8() {
            self.update_nz8(val as u8);
        } else {
            self.update_nz16(val);
        }
    }

    /// Append the CPU record of a save state.
    #[verifier::rlimit(40)]
    pub fn snapshot_write(&self, out: &mut Vec<u8>)
        ensures
            final(out)@ == old(out)@ + cpu_state_bytes(self),
    {
        w_u16(out, self.a);
        w_u16(out, self.x);
        w_u16(out, self.y);
        w_u16(out, self.sp);
        w_u16(out, self.dp);
        w_u16(out, self.pc);
        w_u8(out, self.pbr);
        w_u8(out, self.dbr);
        // Pack the status register into one byte (native layout).
        let pb = self.p.to_byte(false);
        out.push(pb);
        w_bool(out, self.emulation);
        w_u64(out, self.cycles);
        w_bool(out, self.nmi_pending);
        w_bool(out, self.irq_pending);
        w_bool(out, self.stopped);
        w_bool(out, self.waiting);
        assert(out@ =~= old(out)@ + cpu_state_bytes(self));
    }

    /// Read a CPU record: succeeds exactly when 28 bytes are left, and then
    /// sets every saved register from them and advances the cursor past
    /// the record. Registers that are not saved keep their values.
    pub fn snapshot_read(&mut self, r: &mut &[u8]) -> (res: Result<(), String>)
        ensures
            res.is_ok() <==> old(r)@.len() >= CPU_STATE_LEN,
            res is Ok ==> cpu_restored_from(final(self), old(r)@)
                && final(r)@ == rest_from(old(r)@, CPU_STATE_LEN as int),
            cpu_same_unsaved(final(self), old(self)),
    {
        let ghost s = r@;
        self.a = r_u16(r)?;
        assert(r@ =~= rest_from(s, 2));
        self.x = r_u16(r)?;
        assert(r@ =~= rest_from(s, 4));
        assert(rest_from(s, 2).subrange(0, 2) =~= s.subrange(2, 4));
        self.y = r_u16(r)?;
        assert(r@ =~= rest_from(s, 6));
        assert(rest_from(s, 4).subrange(0, 2) =~= s.subrange(4, 6));
        self.sp = r_u16(r)?;
        assert(r@ =~= rest_from(s, 8));
        assert(rest_from(s, 6).subrange(0, 2) =~= s.subrange(6, 8));
        self.dp = r_u16(r)?;
        assert(r@ =~= rest_from(s, 10));
        assert(rest_from(s, 8).subrange(0, 2) =~= s.subrange(8, 10));
        self.pc = r_u16(r)?;
        assert(r@ =~= rest_from(s, 12));
        assert(rest_from(s, 10).subrange(0, 2) =~= s.subrange(10, 12));
        self.pbr = r_u8(r)?;
        assert(r@ =~= rest_from(s, 13));
        self.dbr = r_u8(r)?;
        assert(r@ =~= rest_from(s, 14));
        let b = r_u8(r)?;
        assert(r@ =~= rest_from(s, 15));
        self.p = StatusRegister {
            n: b & 0x80 != 0,
            v: b & 0x40 != 0,
            m: b & 0x20 != 0,
            x: b & 0x10 != 0,
            d: b & 0x08 != 0,
            i: b & 0x04 != 0,
            z: b & 0x02 != 0,
            c: b & 0x01 != 0,
        };
        self.emulation = r_bool(r)?;
        assert(r@ =~= rest_from(s, 16));
        self.cycles = r_u64(r)?;
        assert(r@ =~= rest_from(s, 24));
        assert(rest_from(s, 16).subrange(0, 8) =~= s.subrange(16, 24));
        self.nmi_pending = r_bool(r)?;
        assert(r@ =~= rest_from(s, 25));
        self.irq_pending = r_bool(r)?;
        assert(r@ =~= rest_from(s, 26));
        self.stopped = r_bool(r)?;
        assert(r@ =~= rest_from(s, 27));
        self.waiting = r_bool(r)?;
        assert(r@ =~= rest_from(s, 28));
        Ok(())
    }
}

/// Stack pointer after a push: one lower, kept in page 1 in emulation mode.
pub open spec fn sp_after_push(sp: u16, emulation: bool) -> u16 {
    let s = sp.wrapping_sub(1);
    if emulation { 0x0100 | (s & 0xFF) } else { s }
}

/// Stack pointer before a pull: one higher, kept in page 1 in emulation mode.
pub open spec fn sp_for_pull(sp: u16, emulation: bool) -> u16 {
    let s = sp.wrapping_add(1);
    if emulation { 0x0100 | (s & 0xFF) } else { s }
}

/// Bytes pushed in order onto a stack at `sp` land at these addresses.
pub open spec fn push_addr(sp: u16, emulation: bool, k: nat) -> u16
    decreases k,
{
    if k == 0 { sp } else { sp_after_push(push_addr(sp, emulation, (k - 1) as nat), emulation) }
}

/// Bus model after a stack write of `val` at `$00:addr`.
#[verifier::opaque]
pub open spec fn stack_write(s: BusState, addr: u16, val: u8) -> BusState {
    write_state(s, 0, addr, val)
}

/// Bus model after pushing `bytes` onto a stack at `sp` (none of whose
/// addresses is the DMA trigger).
pub open spec fn pushed(s: BusState, sp: u16, emulation: bool, bytes: Seq<u8>) -> BusState
    decreases bytes.len(),
{
    if bytes.len() == 0 {
        s
    } else {
        let k = (bytes.len() - 1) as nat;
        stack_write(pushed(s, sp, emulation, bytes.drop_last()), push_addr(sp, emulation, k), bytes.last())
    }
}

/// None of the first `n` stack addresses from `sp` is the DMA trigger.
pub open spec fn stack_clear_of_dma(mode: crate::rom::MapMode, sp: u16, emulation: bool, n: nat) -> bool {
    forall|k: nat| k < n ==> !#[trigger] is_dma_trigger(mode, 0, push_addr(sp, emulation, k))
}

/// Where a push of `b` at `$00:addr` lands from bus `m`: a stack write,
/// or, at the general DMA trigger `$420B`, a general DMA with `b` as its
/// enable mask.
pub open spec fn push_lands(m: BusState, t: BusState, addr: u16, b: u8) -> bool {
    if is_dma_trigger(m.map_mode, 0, addr) {
        general_dma_post(m, t, b)
    } else {
        t == stack_write(m, addr, b)
    }
}

/// Push `k` of `bytes` lands as `push_lands` says, from `states[k]` to
/// `states[k + 1]`.
pub open spec fn push_step_ok(states: Seq<BusState>, sp: u16, emulation: bool, bytes: Seq<u8>, k: int) -> bool {
    push_lands(states[k], states[k + 1], push_addr(sp, emulation, k as nat), bytes[k])
}

/// `states` are the buses before and after each push of `bytes` in order
/// onto a stack at `sp`.
pub open spec fn push_trace(states: Seq<BusState>, sp: u16, emulation: bool, bytes: Seq<u8>) -> bool {
    &&& states.len() == bytes.len() + 1
    &&& forall|k: int| 0 <= k < bytes.len() ==> #[trigger] push_step_ok(states, sp, emulation, bytes, k)
}

/// `t` is a bus that pushing `bytes` in order onto a stack at `sp` can
/// leave from `s`: each push is a stack write, or, at `$420B`, a general
/// DMA with the pushed byte as enable mask.
pub open spec fn pushes_to(s: BusState, t: BusState, sp: u16, emulation: bool, bytes: Seq<u8>) -> bool {
    exists|states: Seq<BusState>|
        #[trigger] push_trace(states, sp, emulation, bytes) && states[0] == s && states.last() == t
}

/// One more push extends a trace.
proof fn lemma_trace_step(states: Seq<BusState>, t: BusState, sp: u16, e: bool, bytes: Seq<u8>, b: u8)
    requires
        push_trace(states, sp, e, bytes),
        push_lands(states.last(), t, push_addr(sp, e, bytes.len()), b),
    ensures
        push_trace(states.push(t), sp, e, bytes.push(b)),
        states.push(t)[0] == states[0],
        states.push(t).last() == t,
{
    let st = states.push(t);
    let bs = bytes.push(b);
    assert forall|k: int| 0 <= k < bs.len() implies #[trigger] push_step_ok(st, sp, e, bs, k) by {
        if k < bytes.len() {
            assert(push_step_ok(states, sp, e, bytes, k));
        }
    }
}

/// Of the first four stack addresses from `sp`, at most one is `$420B`.
proof fn lemma_trigger_once(mode: crate::rom::MapMode, sp: u16, e: bool, j: nat, k: nat)
    requires
        j < k < 4,
        is_dma_trigger(mode, 0, push_addr(sp, e, k)),
    ensures
        !is_dma_trigger(mode, 0, push_addr(sp, e, j)),
{
    reveal_with_fuel(push_addr, 4);
    let a1 = push_addr(sp, e, 1);
    let a2 = push_addr(sp, e, 2);
    let a3 = push_addr(sp, e, 3);
    let t0 = sp.wrapping_sub(1);
    let t1 = a1.wrapping_sub(1);
    let t2 = a2.wrapping_sub(1);
    assert(0u8 & 0x7F == 0 && 0x0100 | (t0 & 0xFF) <= 0x01FF && 0x0100 | (t1 & 0xFF) <= 0x01FF && 0x0100 | (t2
        & 0xFF) <= 0x01FF) by (bit_vector);
}

/// Little-endian word of two bytes.
pub open spec fn word_of(lo: u8, hi: u8) -> u16 {
    (hi as int * 256 + lo as int) as u16
}

/// The interrupt vector stored in ROM at `$00:addr`.
pub open spec fn rom_vector(s: BusState, addr: u16) -> u16 {
    word_of(rom_read(s, 0, addr), rom_read(s, 0, (addr + 1) as u16))
}

proof fn lemma_vector_reads(s: BusState, addr: u16)
    requires
        addr >= 0x8000,
        addr < 0xFFFF,
    ensures
        bus_target(s.map_mode, 0, addr) == BusTarget::Rom,
        bus_target(s.map_mode, 0, (addr + 1) as u16) == BusTarget::Rom,
        read_state(s, 0, addr) == s,
        read_value(s, 0, addr) == Some(rom_read(s, 0, addr)),
        read_value(s, 0, (addr + 1) as u16) == Some(rom_read(s, 0, (addr + 1) as u16)),
{
    assert(0u8 & 0x7F == 0) by (bit_vector);
}

impl Cpu {
    /// Fetch a byte from `PBR:PC` and advance PC.
    pub fn fetch_byte<P: Peripherals>(&mut self, bus: &mut Bus, io: &mut P) -> (v: u8)
        requires
            old(bus).wf(),
        ensures
            final(bus).wf(),
            final(bus)@ == read_state(old(bus)@, old(self).pbr, old(self).pc),
            read_value(old(bus)@, old(self).pbr, old(self).pc) matches Some(x) ==> v == x,
            final(io).calls() == old(io).calls() + read_requests(
                old(bus)@,
                bus_target(old(bus).cart.map_mode, old(self).pbr, old(self).pc),
                v,
            ),
            read_value(old(bus)@, old(self).pbr, old(self).pc) is None ==> v == read_answer(
                *old(io),
                old(bus)@,
                bus_target(old(bus).cart.map_mode, old(self).pbr, old(self).pc),
            ),
            read_value(old(bus)@, old(self).pbr, old(self).pc) is Some ==> *final(io) == *old(io),
            *final(self) == (Cpu { pc: old(self).pc.wrapping_add(1), ..*old(self) }),
    {
        let val = bus.read(io, self.pbr, self.pc);
        self.pc = self.pc.wrapping_add(1);
        val
    }

    /// Fetch a little-endian word from `PBR:PC` and advance PC by 2.
    pub fn fetch_word<P: Peripherals>(&mut self, bus: &mut Bus, io: &mut P) -> (v: u16)
        requires
            old(bus).wf(),
        ensures
            final(bus).wf(),
            ({
                let pc1 = old(self).pc.wrapping_add(1);
                let s1 = read_state(old(bus)@, old(self).pbr, old(self).pc);
                &&& final(bus)@ == read_state(s1, old(self).pbr, pc1)
                &&& read_value(old(bus)@, old(self).pbr, old(self).pc) matches Some(lo)
                    ==> (read_value(s1, old(self).pbr, pc1) matches Some(hi) ==> v == word_of(lo, hi))
                &&& final(io).calls() == old(io).calls() + read_requests(
                    old(bus)@,
                    bus_target(old(bus).cart.map_mode, old(self).pbr, old(self).pc),
                    v as u8,
                ) + read_requests(s1, bus_target(old(bus).cart.map_mode, old(self).pbr, pc1), (v >> 8) as u8)
                &&& read_value(old(bus)@, old(self).pbr, old(self).pc) is None ==> v as u8 == read_answer(
                    *old(io),
                    old(bus)@,
                    bus_target(old(bus).cart.map_mode, old(self).pbr, old(self).pc),
                )
                &&& read_value(old(bus)@, old(self).pbr, old(self).pc) is Some && read_value(
                    s1,
                    old(self).pbr,
                    pc1,
                ) is None ==> (v >> 8) as u8 == read_answer(
                    *old(io),
                    s1,
                    bus_target(old(bus).cart.map_mode, old(self).pbr, pc1),
                )
                &&& read_value(old(bus)@, old(self).pbr, old(self).pc) is Some && read_value(
                    s1,
                    old(self).pbr,
                    pc1,
                ) is Some ==> *final(io) == *old(io)
            }),
            *final(self) == (Cpu { pc: old(self).pc.wrapping_add(1).wrapping_add(1), ..*old(self) }),
    {
        let b0 = self.fetch_byte(bus, io);
        let b1 = self.fetch_byte(bus, io);
        let lo = b0 as u16;
        let hi = b1 as u16;
        let v = lo | (hi << 8);
        assert(v == (hi * 256 + lo) as u16 && v as u8 == b0 && (v >> 8) as u8 == b1) by (bit_vector)
            requires
                lo == b0 as u16,
                hi == b1 as u16,
                v == lo | (hi << 8),
        ;
        v
    }

    /// Fetch a 24-bit address (word, then bank) from `PBR:PC`.
    pub fn fetch_long<P: Peripherals>(&mut self, bus: &mut Bus, io: &mut P) -> (r: (u8, u16))
        requires
            old(bus).wf(),
        ensures
            final(bus).wf(),
            ({
                let pc1 = old(self).pc.wrapping_add(1);
                let pc2 = pc1.wrapping_add(1);
                let s1 = read_state(old(bus)@, old(self).pbr, old(self).pc);
                let s2 = read_state(s1, old(self).pbr, pc1);
                &&& final(bus)@ == read_state(s2, old(self).pbr, pc2)
                &&& read_value(old(bus)@, old(self).pbr, old(self).pc) matches Some(lo)
                    ==> (read_value(s1, old(self).pbr, pc1) matches Some(hi) ==> r.1 == word_of(lo, hi))
                &&& read_value(s2, old(self).pbr, pc2) matches Some(b) ==> r.0 == b
                &&& final(io).calls() == old(io).calls() + read_requests(
                    old(bus)@,
                    bus_target(old(bus).cart.map_mode, old(self).pbr, old(self).pc),
                    r.1 as u8,
                ) + read_requests(s1, bus_target(old(bus).cart.map_mode, old(self).pbr, pc1), (r.1 >> 8) as u8)
                    + read_requests(s2, bus_target(old(bus).cart.map_mode, old(self).pbr, pc2), r.0)
                &&& read_value(old(bus)@, old(self).pbr, old(self).pc) is None ==> r.1 as u8 == read_answer(
                    *old(io),
                    old(bus)@,
                    bus_target(old(bus).cart.map_mode, old(self).pbr, old(self).pc),
                )
                &&& read_value(old(bus)@, old(self).pbr, old(self).pc) is Some && read_value(
                    s1,
                    old(self).pbr,
                    pc1,
                ) is None ==> (r.1 >> 8) as u8 == read_answer(
                    *old(io),
                    s1,
                    bus_target(old(bus).cart.map_mode, old(self).pbr, pc1),
                )
                &&& read_value(old(bus)@, old(self).pbr, old(self).pc) is Some && read_value(
                    s1,
                    old(self).pbr,
                    pc1,
                ) is Some && read_value(s2, old(self).pbr, pc2) is None ==> r.0 == read_answer(
                    *old(io),
                    s2,
                    bus_target(old(bus).cart.map_mode, old(self).pbr, pc2),
                )
            }),
            *final(self) == (Cpu { pc: old(self).pc.wrapping_add(1).wrapping_add(1).wrapping_add(1), ..*old(self) }),
    {
        let addr = self.fetch_word(bus, io);
        let bank = self.fetch_byte(bus, io);
        (bank, addr)
    }

    /// Push a byte: write it at `$00:SP`, then decrement SP (kept in page 1
    /// in emulation mode).
    pub fn push_byte<P: Peripherals>(&mut self, bus: &mut Bus, io: &mut P, val: u8)
        requires
            old(bus).wf(),
            is_dma_trigger(old(bus).cart.map_mode, 0, old(self).sp) ==> dma_room(old(bus)@),
        ensures
            final(bus).wf(),
            !is_dma_trigger(old(bus).cart.map_mode, 0, old(self).sp) ==> final(bus)@ == write_state(old(bus)@, 0, old(self).sp, val),
            !is_dma_trigger(old(bus).cart.map_mode, 0, old(self).sp) ==> final(io).calls() == old(io).calls()
                + write_requests(old(bus)@, bus_target(old(bus).cart.map_mode, 0, old(self).sp), val),
            is_dma_trigger(old(bus).cart.map_mode, 0, old(self).sp) ==> general_dma_post(old(bus)@, final(bus)@, val)
                && crate::general_dma::dma_calls_made(old(bus)@, final(bus)@, val, old(io).calls(), final(io).calls()),
            *final(self) == (Cpu { sp: sp_after_push(old(self).sp, old(self).emulation), ..*old(self) }),
    {
        bus.write(io, 0x00, self.sp, val);
        self.sp = self.sp.wrapping_sub(1);
        if self.emulation {
            self.sp = 0x0100 | (self.sp & 0xFF);
        }
    }

    /// Push a word, high byte first.
    pub fn push_word<P: Peripherals>(&mut self, bus: &mut Bus, io: &mut P, val: u16)
        requires
            old(bus).wf(),
            !stack_clear_of_dma(old(bus).cart.map_mode, old(self).sp, old(self).emulation, 2) ==> dma_room(old(bus)@),
        ensures
            final(bus).wf(),
            pushes_to(old(bus)@, final(bus)@, old(self).sp, old(self).emulation, seq![(val >> 8) as u8, val as u8]),
            stack_clear_of_dma(old(bus).cart.map_mode, old(self).sp, old(self).emulation, 2) ==> final(bus)@ == pushed(
                old(bus)@,
                old(self).sp,
                old(self).emulation,
                seq![(val >> 8) as u8, val as u8],
            ),
            *final(self) == (Cpu { sp: push_addr(old(self).sp, old(self).emulation, 2), ..*old(self) }),
    {
        let ghost sp0 = self.sp;
        let ghost b0 = bus@;
        let ghost e = self.emulation;
        let ghost mode = b0.map_mode;
        proof {
            assert(pushed(b0, sp0, e, Seq::<u8>::empty()) == b0);
            assert forall|k: nat| k < 2 && #[trigger] is_dma_trigger(mode, 0, push_addr(sp0, e, k)) implies dma_room(
                b0,
            ) by {
                assert(!stack_clear_of_dma(mode, sp0, e, 2));
            }
        }
        let hi = (val >> 8) as u8;
        let lo = val as u8;
        let ghost t0: Seq<BusState> = seq![b0];
        let ghost none: Seq<u8> = Seq::empty();
        self.push_next(bus, io, hi, Ghost(t0), Ghost(sp0), Ghost(none));
        let ghost t1: Seq<BusState> = t0.push(bus@);
        let ghost one: Seq<u8> = seq![hi];
        assert(none.push(hi) =~= one);
        self.push_next(bus, io, lo, Ghost(t1), Ghost(sp0), Ghost(one));
        proof {
            assert(seq![hi].push(lo) =~= seq![hi, lo]);
            assert(pushes_to(b0, bus@, sp0, e, seq![hi, lo]));
        }
    }

    /// Pull a byte: increment SP (kept in page 1 in emulation mode), then
    /// read `$00:SP`.
    pub fn pull_byte<P: Peripherals>(&mut self, bus: &mut Bus, io: &mut P) -> (v: u8)
        requires
            old(bus).wf(),
        ensures
            final(bus).wf(),
            ({
                let sp = sp_for_pull(old(self).sp, old(self).emulation);
                &&& final(bus)@ == read_state(old(bus)@, 0, sp)
                &&& read_value(old(bus)@, 0, sp) matches Some(x) ==> v == x
                &&& final(io).calls() == old(io).calls() + read_requests(
                    old(bus)@,
                    bus_target(old(bus).cart.map_mode, 0, sp),
                    v,
                )
                &&& read_value(old(bus)@, 0, sp) is None ==> v == read_answer(
                    *old(io),
                    old(bus)@,
                    bus_target(old(bus).cart.map_mode, 0, sp),
                )
                &&& read_value(old(bus)@, 0, sp) is Some ==> *final(io) == *old(io)
                &&& *final(self) == (Cpu { sp: sp, ..*old(self) })
            }),
    {
        self.sp = self.sp.wrapping_add(1);
        if self.emulation {
            self.sp = 0x0100 | (self.sp & 0xFF);
        }
        bus.read(io, 0x00, self.sp)
    }

    /// Pull a little-endian word.
    pub fn pull_word<P: Peripherals>(&mut self, bus: &mut Bus, io: &mut P) -> (v: u16)
        requires
            old(bus).wf(),
        ensures
            final(bus).wf(),
            ({
                let sp1 = sp_for_pull(old(self).sp, old(self).emulation);
                let sp2 = sp_for_pull(sp1, old(self).emulation);
                let s1 = read_state(old(bus)@, 0, sp1);
                &&& final(bus)@ == read_state(s1, 0, sp2)
                &&& read_value(old(bus)@, 0, sp1) matches Some(lo)
                    ==> (read_value(s1, 0, sp2) matches Some(hi) ==> v == word_of(lo, hi))
                &&& final(io).calls() == old(io).calls() + read_requests(
                    old(bus)@,
                    bus_target(old(bus).cart.map_mode, 0, sp1),
                    v as u8,
                ) + read_requests(s1, bus_target(old(bus).cart.map_mode, 0, sp2), (v >> 8) as u8)
                &&& read_value(old(bus)@, 0, sp1) is None ==> v as u8 == read_answer(
                    *old(io),
                    old(bus)@,
                    bus_target(old(bus).cart.map_mode, 0, sp1),
                )
                &&& read_value(old(bus)@, 0, sp1) is Some && read_value(s1, 0, sp2) is None ==> (v >> 8) as u8
                    == read_answer(*old(io), s1, bus_target(old(bus).cart.map_mode, 0, sp2))
                &&& *final(self) == (Cpu { sp: sp2, ..*old(self) })
            }),
    {
        let b0 = self.pull_byte(bus, io);
        let b1 = self.pull_byte(bus, io);
        let lo = b0 as u16;
        let hi = b1 as u16;
        let v = lo | (hi << 8);
        assert(v == (hi * 256 + lo) as u16 && v as u8 == b0 && (v >> 8) as u8 == b1) by (bit_vector)
            requires
                lo == b0 as u16,
                hi == b1 as u16,
                v == lo | (hi << 8),
        ;
        v
    }
}

/// `pull_word` undoes `push_word`: with the stack in low WRAM (page 1 in
/// emulation mode, `$0001-$1FFF` otherwise), a word pushed at `sp` is
/// pulled back whole, high byte pushed first and low byte pulled first,
/// the stack pointer returns to `sp`, and the pulls leave the bus alone.
pub proof fn lemma_pull_word_undoes_push_word(s: BusState, sp: u16, emulation: bool, v: u16)
    requires
        s.wram.len() == crate::bus::WRAM_SIZE,
        emulation ==> 0x0100 <= sp <= 0x01FF,
        !emulation ==> 1 <= sp <= 0x1FFF,
    ensures
        ({
            let s1 = pushed(s, sp, emulation, seq![(v >> 8) as u8, v as u8]);
            let sp1 = sp_for_pull(push_addr(sp, emulation, 2), emulation);
            let sp2 = sp_for_pull(sp1, emulation);
            &&& stack_clear_of_dma(s.map_mode, sp, emulation, 2)
            &&& sp2 == sp
            &&& read_value(s1, 0, sp1) == Some(v as u8)
            &&& read_state(s1, 0, sp1) == s1
            &&& read_value(s1, 0, sp2) == Some((v >> 8) as u8)
            &&& read_state(s1, 0, sp2) == s1
            &&& word_of(v as u8, (v >> 8) as u8) == v
        }),
{
    let e = emulation;
    let a0 = push_addr(sp, e, 0);
    let a1 = push_addr(sp, e, 1);
    let a2 = push_addr(sp, e, 2);
    assert(a0 == sp);
    assert(a1 == sp_after_push(sp, e));
    assert(a2 == sp_after_push(a1, e));
    let t1 = sp.wrapping_sub(1);
    let hi = (v >> 8) as u8;
    let lo = v as u8;
    assert((e ==> 0x0100 | (t1 & 0xFF) != sp && 0x0100 <= 0x0100 | (t1 & 0xFF) <= 0x01FF) && hi as int * 256
        + lo as int == v && 0u8 & 0x7F == 0) by (bit_vector)
        requires
            e ==> 0x0100 <= sp <= 0x01FF,
            t1 == (sp - 1) as u16,
            hi == (v >> 8) as u8,
            lo == v as u8,
    ;
    assert(a1 <= 0x1FFF && a1 != sp) by {
        if !e {
            assert(a1 == sp - 1);
        }
    }
    let t2 = a1.wrapping_sub(1);
    let u1 = a2.wrapping_add(1);
    let u2 = a1.wrapping_add(1);
    assert(sp_after_push(sp, e) == if e { 0x0100 | (t1 & 0xFF) } else { t1 });
    assert(sp_after_push(a1, e) == if e { 0x0100 | (t2 & 0xFF) } else { t2 });
    assert(e ==> a1 == 0x0100 | (t1 & 0xFF));
    assert(e ==> a2 == 0x0100 | (t2 & 0xFF));
    if e {
        assert(0x0100 <= a1 <= 0x01FF);
        assert(t2 == a1 - 1);
        assert(0x0100 <= a2 <= 0x01FF) by {
            assert(0x0100 <= 0x0100 | (t2 & 0xFF) <= 0x01FF) by (bit_vector);
        }
        assert(u1 == a2 + 1);
        assert(u2 == a1 + 1);
        assert((0x0100 | (u1 & 0xFF)) == a1 && (0x0100 | (u2 & 0xFF)) == sp) by (bit_vector)
            requires
                0x0100 <= sp <= 0x01FF,
                0x0100 <= a1 <= 0x01FF,
                a1 == 0x0100 | (t1 & 0xFF),
                t1 == sp - 1,
                t2 == a1 - 1,
                a2 == 0x0100 | (t2 & 0xFF),
                u1 == a2 + 1,
                u2 == a1 + 1,
        ;
    }
    assert(sp_for_pull(a2, e) == a1);
    assert(sp_for_pull(a1, e) == sp);
    assert(stack_clear_of_dma(s.map_mode, sp, e, 2)) by {
        assert forall|k: nat| k < 2 implies !#[trigger] is_dma_trigger(s.map_mode, 0, push_addr(sp, e, k)) by {}
    }
    let bytes = seq![hi, lo];
    assert(bytes.drop_last() =~= seq![hi]);
    assert(seq![hi].drop_last() =~= Seq::<u8>::empty());
    reveal(stack_write);
    reveal_with_fuel(pushed, 3);
    let s0 = write_state(s, 0, sp, hi);
    assert(seq![hi].len() == 1 && seq![hi].last() == hi);
    assert(pushed(s, sp, e, Seq::<u8>::empty()) == s);
    assert(pushed(s, sp, e, seq![hi]) == s0);
    let s1 = write_state(s0, 0, a1, lo);
    assert(bytes.len() == 2 && bytes.last() == lo);
    assert(pushed(s, sp, e, bytes) == stack_write(pushed(s, sp, e, seq![hi]), a1, lo));
    assert(pushed(s, sp, e, bytes) == s1);
    assert(s1.wram[a1 as int] == lo);
    assert(s1.wram[sp as int] == hi);
}

/// Pushing one more byte extends the pushed sequence.
proof fn lemma_pushed_step(s: BusState, sp: u16, emulation: bool, bytes: Seq<u8>, b: u8)
    ensures
        pushed(s, sp, emulation, bytes.push(b)) == stack_write(
            pushed(s, sp, emulation, bytes),
            push_addr(sp, emulation, bytes.len()),
            b,
        ),
{
    assert(bytes.push(b).drop_last() =~= bytes);
}

/// How an instruction step begins (`Cpu::step_interrupts`).
#[derive(PartialEq, Eq, Structural, Debug, Clone, Copy)]
pub enum StepStart {
    /// Stopped, or waiting with nothing to wake it: the step takes the
    /// master cycles given (6).
    Halted(u64),
    /// An NMI was taken.
    Nmi,
    /// An IRQ was taken.
    Irq,
    /// An instruction is to be executed.
    Execute,
}

/// Vectors of the interrupt and reset sequences.
pub const VECTOR_NMI_NATIVE: u16 = 0xFFEA;
pub const VECTOR_IRQ_NATIVE: u16 = 0xFFEE;
pub const VECTOR_NMI_EMULATION: u16 = 0xFFFA;
pub const VECTOR_RESET: u16 = 0xFFFC;
pub const VECTOR_IRQ_EMULATION: u16 = 0xFFFE;

/// Bytes an interrupt pushes: PC (high, low) and the status byte in
/// emulation mode; PBR, PC and the status byte in native mode.
pub open spec fn interrupt_frame(c: Cpu, status: u8) -> Seq<u8> {
    if c.emulation {
        seq![(c.pc >> 8) as u8, c.pc as u8, status]
    } else {
        seq![c.pbr, (c.pc >> 8) as u8, c.pc as u8, status]
    }
}

/// Bytes in an interrupt frame: 3 in emulation mode, 4 in native mode.
pub open spec fn frame_len(emulation: bool) -> nat {
    if emulation { 3 } else { 4 }
}

/// The frame an IRQ pushes: in emulation mode the status byte has the
/// break flag (bit 4) clear.
pub open spec fn irq_frame(c: Cpu) -> Seq<u8> {
    interrupt_frame(
        c,
        if c.emulation { status_byte(c.p, true) & !0x10u8 } else { status_byte(c.p, false) },
    )
}

/// CPU after taking an interrupt whose vector is at `$00:vector`.
pub open spec fn interrupted(c: Cpu, s: BusState, vector: u16) -> Cpu {
    let n = if c.emulation { 3nat } else { 4nat };
    Cpu {
        sp: push_addr(c.sp, c.emulation, n),
        p: StatusRegister { i: true, d: false, ..c.p },
        pbr: if c.emulation { c.pbr } else { 0 },
        pc: rom_vector(s, vector),
        ..c
    }
}

impl Cpu {
    /// Push byte `bytes.len()` of a sequence begun at stack pointer `sp0`
    /// on bus `trace[0]`, `trace` holding the buses after each push so far.
    fn push_next<P: Peripherals>(
        &mut self,
        bus: &mut Bus,
        io: &mut P,
        val: u8,
        Ghost(trace): Ghost<Seq<BusState>>,
        Ghost(sp0): Ghost<u16>,
        Ghost(bytes): Ghost<Seq<u8>>,
    )
        requires
            old(bus).wf(),
            bytes.len() < 4,
            push_trace(trace, sp0, old(self).emulation, bytes),
            trace.last() == old(bus)@,
            old(self).sp == push_addr(sp0, old(self).emulation, bytes.len()),
            old(bus)@.map_mode == trace[0].map_mode,
            old(bus)@.rom == trace[0].rom,
            stack_clear_of_dma(trace[0].map_mode, sp0, old(self).emulation, bytes.len()) ==> {
                &&& old(bus).master_clock == trace[0].master_clock
                &&& old(bus).pending_dma_cycles == trace[0].pending_dma_cycles
                &&& old(bus)@ == pushed(trace[0], sp0, old(self).emulation, bytes)
            },
            is_dma_trigger(trace[0].map_mode, 0, push_addr(sp0, old(self).emulation, bytes.len())) ==> dma_room(
                trace[0],
            ),
        ensures
            final(bus).wf(),
            *final(self) == (Cpu { sp: push_addr(sp0, old(self).emulation, bytes.len() + 1), ..*old(self) }),
            push_trace(trace.push(final(bus)@), sp0, old(self).emulation, bytes.push(val)),
            final(bus)@.map_mode == trace[0].map_mode,
            final(bus)@.rom == trace[0].rom,
            stack_clear_of_dma(trace[0].map_mode, sp0, old(self).emulation, bytes.len() + 1) ==> {
                &&& final(bus).master_clock == trace[0].master_clock
                &&& final(bus).pending_dma_cycles == trace[0].pending_dma_cycles
                &&& final(bus)@ == pushed(trace[0], sp0, old(self).emulation, bytes.push(val))
            },
    {
        let ghost e = self.emulation;
        let ghost mode = trace[0].map_mode;
        let ghost n = bytes.len();
        let ghost b = bus@;
        proof {
            if is_dma_trigger(mode, 0, push_addr(sp0, e, n)) {
                assert forall|j: nat| j < n implies !#[trigger] is_dma_trigger(mode, 0, push_addr(sp0, e, j)) by {
                    lemma_trigger_once(mode, sp0, e, j, n);
                }
                assert(stack_clear_of_dma(mode, sp0, e, n));
            }
        }
        self.push_byte(bus, io, val);
        proof {
            reveal(stack_write);
            crate::bus::lemma_write_state_frame(b, 0, push_addr(sp0, e, n), val);
            assert(push_lands(b, bus@, push_addr(sp0, e, n), val));
            lemma_trace_step(trace, bus@, sp0, e, bytes, val);
            if stack_clear_of_dma(mode, sp0, e, n + 1) {
                assert(!is_dma_trigger(mode, 0, push_addr(sp0, e, n)));
                assert(stack_clear_of_dma(mode, sp0, e, n));
                lemma_pushed_step(trace[0], sp0, e, bytes, val);
            }
        }
    }

    /// Read the little-endian vector stored in ROM at `$00:vector`.
    fn read_vector<P: Peripherals>(bus: &mut Bus, io: &mut P, vector: u16) -> (v: u16)
        requires
            old(bus).wf(),
            0x8000 <= vector < 0xFFFF,
        ensures
            final(bus)@ == old(bus)@,
            *final(io) == *old(io),
            v == rom_vector(old(bus)@, vector),
    {
        proof {
            lemma_vector_reads(bus@, vector);
        }
        let lo = bus.read(io, 0x00, vector) as u16;
        let hi = bus.read(io, 0x00, vector + 1) as u16;
        assert(lo | (hi << 8) == (hi * 256 + lo) as u16) by (bit_vector)
            requires
                lo <= 255,
                hi <= 255,
        ;
        lo | (hi << 8)
    }

    /// Push the interrupt frame and load PC from the vector at `$00:vector`.
    fn enter_interrupt<P: Peripherals>(&mut self, bus: &mut Bus, io: &mut P, status: u8, vector: u16)
        requires
            old(bus).wf(),
            0x8000 <= vector < 0xFFFF,
            !stack_clear_of_dma(old(bus).cart.map_mode, old(self).sp, old(self).emulation, frame_len(old(self).emulation))
                ==> dma_room(old(bus)@),
        ensures
            final(bus).wf(),
            pushes_to(old(bus)@, final(bus)@, old(self).sp, old(self).emulation, interrupt_frame(*old(self), status)),
            stack_clear_of_dma(old(bus).cart.map_mode, old(self).sp, old(self).emulation, frame_len(old(self).emulation))
                ==> final(bus)@ == pushed(old(bus)@, old(self).sp, old(self).emulation, interrupt_frame(*old(self), status)),
            *final(self) == interrupted(*old(self), old(bus)@, vector),
    {
        let ghost c0 = *self;
        let ghost b0 = bus@;
        let ghost e = self.emulation;
        let ghost sp0 = self.sp;
        let ghost mode = b0.map_mode;
        let ghost n = frame_len(e);
        let ghost mut trace: Seq<BusState> = seq![b0];
        let ghost mut bytes: Seq<u8> = Seq::empty();
        proof {
            assert(pushed(b0, sp0, e, Seq::<u8>::empty()) == b0);
            assert forall|k: nat| k < n && #[trigger] is_dma_trigger(mode, 0, push_addr(sp0, e, k)) implies dma_room(
                b0,
            ) by {
                assert(!stack_clear_of_dma(mode, sp0, e, n));
            }
        }
        if !self.emulation {
            let pbr = self.pbr;
            self.push_next(bus, io, pbr, Ghost(trace), Ghost(sp0), Ghost(bytes));
            proof {
                trace = trace.push(bus@);
                bytes = bytes.push(pbr);
            }
        }
        let pch = (self.pc >> 8) as u8;
        let pcl = self.pc as u8;
        self.push_next(bus, io, pch, Ghost(trace), Ghost(sp0), Ghost(bytes));
        proof {
            trace = trace.push(bus@);
            bytes = bytes.push(pch);
        }
        self.push_next(bus, io, pcl, Ghost(trace), Ghost(sp0), Ghost(bytes));
        proof {
            trace = trace.push(bus@);
            bytes = bytes.push(pcl);
        }
        self.push_next(bus, io, status, Ghost(trace), Ghost(sp0), Ghost(bytes));
        proof {
            trace = trace.push(bus@);
            bytes = bytes.push(status);
            assert(bytes =~= interrupt_frame(c0, status));
            assert(pushes_to(b0, bus@, sp0, e, bytes));
        }
        self.p.i = true;
        self.p.d = false;
        if !self.emulation {
            self.pbr = 0;
        }
        let pc = Self::read_vector(bus, io, vector);
        proof {
            assert(rom_vector(bus@, vector) == rom_vector(b0, vector));
        }
        self.pc = pc;
    }

    /// Take an NMI: push the interrupt frame (the status byte packed for the
    /// current mode), set I, clear D, enter bank 0 in native mode, and jump
    /// through the NMI vector (`$FFFA` in emulation mode, `$FFEA` native).
    pub fn handle_nmi<P: Peripherals>(&mut self, bus: &mut Bus, io: &mut P)
        requires
            old(bus).wf(),
            !stack_clear_of_dma(old(bus).cart.map_mode, old(self).sp, old(self).emulation, frame_len(old(self).emulation))
                ==> dma_room(old(bus)@),
        ensures
            final(bus).wf(),
            pushes_to(
                old(bus)@,
                final(bus)@,
                old(self).sp,
                old(self).emulation,
                interrupt_frame(*old(self), status_byte(old(self).p, old(self).emulation)),
            ),
            stack_clear_of_dma(old(bus).cart.map_mode, old(self).sp, old(self).emulation, frame_len(old(self).emulation))
                ==> final(bus)@ == pushed(
                old(bus)@,
                old(self).sp,
                old(self).emulation,
                interrupt_frame(*old(self), status_byte(old(self).p, old(self).emulation)),
            ),
            *final(self) == interrupted(
                *old(self),
                old(bus)@,
                if old(self).emulation { VECTOR_NMI_EMULATION } else { VECTOR_NMI_NATIVE },
            ),
    {
        let status = self.p.to_byte(self.emulation);
        if self.emulation {
            self.enter_interrupt(bus, io, status, VECTOR_NMI_EMULATION);
        } else {
            self.enter_interrupt(bus, io, status, VECTOR_NMI_NATIVE);
        }
    }

    /// The start of an instruction step: a stopped CPU (STP), or one
    /// waiting (WAI) with no NMI and no unmasked IRQ to wake it, stays
    /// halted and the step takes 6 master cycles; otherwise WAI ends, and a pending NMI,
    /// or else a pending IRQ that the I flag does not mask, is taken with
    /// its pending flag cleared. `Execute` means an instruction is next.
    pub fn step_interrupts<P: Peripherals>(&mut self, bus: &mut Bus, io: &mut P) -> (r: StepStart)
        requires
            old(bus).wf(),
            !old(self).stopped && (old(self).nmi_pending || (old(self).irq_pending && !old(self).p.i))
                && !stack_clear_of_dma(old(bus).cart.map_mode, old(self).sp, old(self).emulation, frame_len(old(self).emulation))
                ==> dma_room(old(bus)@),
        ensures
            final(bus).wf(),
            ({
                let c = *old(self);
                let woken = Cpu { waiting: false, ..c };
                if c.stopped || (c.waiting && !(c.nmi_pending || (c.irq_pending && !c.p.i))) {
                    &&& r == StepStart::Halted(6)
                    &&& *final(self) == c
                    &&& final(bus)@ == old(bus)@
                    &&& *final(io) == *old(io)
                } else if c.nmi_pending {
                    let n = Cpu { nmi_pending: false, ..woken };
                    &&& r == StepStart::Nmi
                    &&& pushes_to(old(bus)@, final(bus)@, c.sp, c.emulation, interrupt_frame(n, status_byte(c.p, c.emulation)))
                    &&& stack_clear_of_dma(old(bus).cart.map_mode, c.sp, c.emulation, frame_len(c.emulation))
                        ==> final(bus)@ == pushed(old(bus)@, c.sp, c.emulation, interrupt_frame(n, status_byte(c.p, c.emulation)))
                    &&& *final(self) == interrupted(
                        n,
                        old(bus)@,
                        if c.emulation { VECTOR_NMI_EMULATION } else { VECTOR_NMI_NATIVE },
                    )
                } else if c.irq_pending && !c.p.i {
                    let n = Cpu { irq_pending: false, ..woken };
                    &&& r == StepStart::Irq
                    &&& pushes_to(old(bus)@, final(bus)@, c.sp, c.emulation, irq_frame(n))
                    &&& stack_clear_of_dma(old(bus).cart.map_mode, c.sp, c.emulation, frame_len(c.emulation))
                        ==> final(bus)@ == pushed(old(bus)@, c.sp, c.emulation, irq_frame(n))
                    &&& *final(self) == interrupted(
                        n,
                        old(bus)@,
                        if c.emulation { VECTOR_IRQ_EMULATION } else { VECTOR_IRQ_NATIVE },
                    )
                } else {
                    &&& r == StepStart::Execute
                    &&& *final(self) == woken
                    &&& final(bus)@ == old(bus)@
                    &&& *final(io) == *old(io)
                }
            }),
    {
        if self.stopped {
            return StepStart::Halted(6);
        }
        if self.waiting {
            if self.nmi_pending || (self.irq_pending && !self.p.i) {
                self.waiting = false;
            } else {
                return StepStart::Halted(6);
            }
        }
        if self.nmi_pending {
            self.nmi_pending = false;
            self.handle_nmi(bus, io);
            return StepStart::Nmi;
        }
        if self.irq_pending && !self.p.i {
            self.irq_pending = false;
            self.handle_irq(bus, io);
            return StepStart::Irq;
        }
        StepStart::Execute
    }

    /// Take an IRQ: as an NMI, but in emulation mode the pushed status has
    /// the break flag (bit 4) cleared, and the vectors are `$FFFE` /
    /// `$FFEE`.
    pub fn handle_irq<P: Peripherals>(&mut self, bus: &mut Bus, io: &mut P)
        requires
            old(bus).wf(),
            !stack_clear_of_dma(old(bus).cart.map_mode, old(self).sp, old(self).emulation, frame_len(old(self).emulation))
                ==> dma_room(old(bus)@),
        ensures
            final(bus).wf(),
            pushes_to(old(bus)@, final(bus)@, old(self).sp, old(self).emulation, irq_frame(*old(self))),
            stack_clear_of_dma(old(bus).cart.map_mode, old(self).sp, old(self).emulation, frame_len(old(self).emulation))
                ==> final(bus)@ == pushed(old(bus)@, old(self).sp, old(self).emulation, irq_frame(*old(self))),
            *final(self) == interrupted(
                *old(self),
                old(bus)@,
                if old(self).emulation { VECTOR_IRQ_EMULATION } else { VECTOR_IRQ_NATIVE },
            ),
    {
        if self.emulation {
            let status = self.p.to_byte(true) & !0x10;
            self.enter_interrupt(bus, io, status, VECTOR_IRQ_EMULATION);
        } else {
            let status = self.p.to_byte(false);
            self.enter_interrupt(bus, io, status, VECTOR_IRQ_NATIVE);
        }
    }

    /// Reset: emulation mode, power-on flags, SP = `$01FF`, other
    /// registers 0, and PC loaded from the reset vector at `$00:FFFC`.
    pub fn reset<P: Peripherals>(&mut self, bus: &mut Bus, io: &mut P)
        requires
            old(bus).wf(),
        ensures
            final(bus)@ == old(bus)@,
            *final(io) == *old(io),
            *final(self) == (Cpu {
                emulation: true,
                p: StatusRegister { n: false, v: false, m: true, x: true, d: false, i: true, z: false, c: false },
                sp: 0x01FF,
                dp: 0,
                pbr: 0,
                dbr: 0,
                a: 0,
                x: 0,
                y: 0,
                pc: rom_vector(old(bus)@, VECTOR_RESET),
                ..*old(self)
            }),
    {
        self.emulation = true;
        self.p = StatusRegister::new();
        self.sp = 0x01FF;
        self.dp = 0;
        self.pbr = 0;
        self.dbr = 0;
        self.a = 0;
        self.x = 0;
        self.y = 0;
        self.pc = Self::read_vector(bus, io, VECTOR_RESET);
    }
}

/// Master cycles reserved before the scanline boundary by the idle-loop
/// fast path.
pub const IDLE_SAFETY_MARGIN: u64 = 100;

/// Master cycles of one `LDA dp; BEQ loop` iteration fetched at `PBR:PC`:
/// LDA is two fetches plus a data read from bank 0, BEQ (taken) two
/// fetches plus one internal cycle.
pub open spec fn idle_iteration_cost(s: BusState, c: Cpu) -> int {
    let op = access_speed(s.memsel, c.pbr, c.pc);
    (2 * op + access_speed(s.memsel, 0, idle_polled(s, c))) + (2 * op + 6)
}

/// Byte at `bank:addr` in a bus whose reads there are pure.
#[verifier::opaque]
pub open spec fn peek(s: BusState, bank: u8, addr: u16) -> u8 {
    read_value(s, bank, addr)->0
}

/// The four bytes at `PBR:PC` are in plain memory (WRAM, SRAM or ROM).
pub open spec fn idle_stream_pure(s: BusState, c: Cpu) -> bool {
    &&& pure_memory(s.map_mode, c.pbr, c.pc)
    &&& pure_memory(s.map_mode, c.pbr, c.pc.wrapping_add(1))
    &&& pure_memory(s.map_mode, c.pbr, c.pc.wrapping_add(2))
    &&& pure_memory(s.map_mode, c.pbr, c.pc.wrapping_add(3))
}

/// `PBR:PC` holds `LDA dp` (`A5 xx`) followed by `BEQ -4` (`F0 FC`).
pub open spec fn idle_pattern(s: BusState, c: Cpu) -> bool {
    &&& peek(s, c.pbr, c.pc) == 0xA5
    &&& peek(s, c.pbr, c.pc.wrapping_add(2)) == 0xF0
    &&& peek(s, c.pbr, c.pc.wrapping_add(3)) == 0xFC
}

/// Address polled by the loop: direct page plus the LDA operand, bank 0.
pub open spec fn idle_polled(s: BusState, c: Cpu) -> u16 {
    c.dp.wrapping_add(peek(s, c.pbr, c.pc.wrapping_add(1)) as u16)
}

/// Master cycles left before the scanline boundary.
pub open spec fn idle_budget(s: BusState, c: Cpu) -> int {
    if s.current_scanline_target > c.cycles { s.current_scanline_target - c.cycles } else { 0 }
}

/// Whole polling iterations that fit in the budget less the margin.
pub open spec fn idle_iterations(s: BusState, c: Cpu) -> int {
    (idle_budget(s, c) - IDLE_SAFETY_MARGIN) / idle_iteration_cost(s, c)
}

/// The checks that come before the polled byte is loaded all pass.
pub open spec fn idle_checks_pass(s: BusState, c: Cpu) -> bool {
    &&& c.p.m
    &&& idle_pattern(s, c)
    &&& pure_memory(s.map_mode, 0, idle_polled(s, c))
    &&& idle_budget(s, c) > IDLE_SAFETY_MARGIN
}

/// The idle-loop fast path recognises only the polling loop itself: when
/// its checks pass on an instruction stream in plain memory, the CPU has
/// an 8-bit accumulator, the bytes at `PBR:PC` are `A5 xx F0 FC` (`LDA
/// dp`, then `BEQ` with offset -4, whose target `PC + 4 - 4` is the LDA),
/// the polled byte is plain memory, and more than the safety margin is
/// left before the scanline boundary. Any other branch offset, opcode or
/// accumulator width makes the checks fail, and `try_idle_skip` then
/// returns `None`.
pub proof fn lemma_idle_skip_only_on_loop(s: BusState, c: Cpu)
    requires
        idle_stream_pure(s, c),
        idle_checks_pass(s, c),
    ensures
        c.p.m,
        read_value(s, c.pbr, c.pc) == Some(0xA5u8),
        read_value(s, c.pbr, c.pc.wrapping_add(2)) == Some(0xF0u8),
        read_value(s, c.pbr, c.pc.wrapping_add(3)) == Some(0xFCu8),
        c.pc.wrapping_add(2).wrapping_add(2).wrapping_sub(4) == c.pc,
        pure_memory(s.map_mode, 0, c.dp.wrapping_add(read_value(s, c.pbr, c.pc.wrapping_add(1))->0 as u16)),
        s.current_scanline_target > c.cycles + IDLE_SAFETY_MARGIN,
{
    reveal(peek);
    crate::bus::lemma_pure_memory_reads_are_pure(s, c.pbr, c.pc);
    crate::bus::lemma_pure_memory_reads_are_pure(s, c.pbr, c.pc.wrapping_add(1));
    crate::bus::lemma_pure_memory_reads_are_pure(s, c.pbr, c.pc.wrapping_add(2));
    crate::bus::lemma_pure_memory_reads_are_pure(s, c.pbr, c.pc.wrapping_add(3));
}

/// CPU after the polled byte has been loaded into A (low byte) with N/Z.
pub open spec fn idle_loaded(c: Cpu, byte: u8) -> Cpu {
    Cpu {
        a: (c.a & 0xFF00) | byte as u16,
        p: StatusRegister { z: byte == 0, n: byte & 0x80 != 0, ..c.p },
        ..c
    }
}

/// Bus after `skip` master cycles of the auto-joypad busy window elapsed.
pub open spec fn joypad_window_after(s: BusState, skip: int) -> BusState {
    if !s.auto_joypad_busy {
        s
    } else if skip >= s.auto_joypad_timer {
        BusState { auto_joypad_timer: 0, auto_joypad_busy: false, ..s }
    } else {
        BusState { auto_joypad_timer: (s.auto_joypad_timer - skip) as u32, ..s }
    }
}

impl Cpu {
    /// A bus read made by the idle-loop fast path.
    fn idle_read<P: Peripherals>(bus: &mut Bus, io: &mut P, bank: u8, addr: u16) -> (v: u8)
        requires
            old(bus).wf(),
        ensures
            final(bus).wf(),
            final(bus).cart.map_mode == old(bus).cart.map_mode,
            final(bus).current_scanline_target == old(bus).current_scanline_target,
            final(bus).memsel == old(bus).memsel,
            pure_memory(old(bus).cart.map_mode, bank, addr) ==> final(bus)@ == old(bus)@ && v == peek(
                old(bus)@,
                bank,
                addr,
            ),
    {
        proof {
            if pure_memory(bus.cart.map_mode, bank, addr) {
                crate::bus::lemma_pure_memory_reads_are_pure(bus@, bank, addr);
            }
            reveal(peek);
        }
        bus.read(io, bank, addr)
    }

    /// The checks of the idle-loop fast path that come before anything
    /// changes: 8-bit accumulator, the `LDA dp; BEQ -4` pattern at
    /// `PBR:PC`, a polled byte in plain memory, and more than the safety
    /// margin left before the scanline boundary. Returns the polled
    /// address when they all pass.
    fn idle_checks<P: Peripherals>(&self, bus: &mut Bus, io: &mut P) -> (res: Option<u16>)
        requires
            old(bus).wf(),
        ensures
            final(bus).wf(),
            final(bus).cart.map_mode == old(bus).cart.map_mode,
            final(bus).current_scanline_target == old(bus).current_scanline_target,
            final(bus).memsel == old(bus).memsel,
            res is Some ==> self.p.m && pure_memory(old(bus).cart.map_mode, 0, res->0)
                && final(bus).current_scanline_target > self.cycles + IDLE_SAFETY_MARGIN,
            !self.p.m ==> res is None && final(bus)@ == old(bus)@,
            idle_stream_pure(old(bus)@, *self) ==> {
                &&& final(bus)@ == old(bus)@
                &&& (res is Some <==> idle_checks_pass(old(bus)@, *self))
                &&& res is Some ==> res->0 == idle_polled(old(bus)@, *self)
            },
    {
        if !self.p.m {
            return None;
        }
        let pc = self.pc;
        if Self::idle_read(bus, io, self.pbr, pc) != 0xA5 {
            return None;
        }
        let dp_offset = Self::idle_read(bus, io, self.pbr, pc.wrapping_add(1));
        if Self::idle_read(bus, io, self.pbr, pc.wrapping_add(2)) != 0xF0 {
            return None;
        }
        if Self::idle_read(bus, io, self.pbr, pc.wrapping_add(3)) != 0xFC {
            return None;
        }
        // Direct-page LDA reads bank $00 at DP + operand.
        let polled_addr = self.dp.wrapping_add(dp_offset as u16);
        if !bus.is_pure_memory(0x00, polled_addr) {
            return None;
        }
        let target = bus.current_scanline_target;
        let budget = target.saturating_sub(self.cycles);
        if budget <= IDLE_SAFETY_MARGIN {
            return None;
        }
        Some(polled_addr)
    }

    /// Idle-loop fast path. Recognises the polling loop `LDA dp; BEQ loop`
    /// at `PBR:PC` (8-bit accumulator only) whose polled byte is plain
    /// memory, and skips whole loop iterations up to a safety margin
    /// before the scanline boundary. Returns `Some(skip)`, the master
    /// cycles skipped, which the caller adds to the CPU's cycle count and
    /// hands to the APU; the polled byte is loaded into A with N/Z as the
    /// next real iteration would, the auto-joypad busy window elapses by
    /// `skip`, and PC stays on the LDA. Returns `None`, changing nothing
    /// in the CPU, when any check fails or no whole iteration fits.
    #[verifier::rlimit(100)]
    pub fn try_idle_skip<P: Peripherals>(&mut self, bus: &mut Bus, io: &mut P) -> (res: Option<u64>)
        requires
            old(bus).wf(),
            old(self).p.m && old(bus).current_scanline_target > old(self).cycles + IDLE_SAFETY_MARGIN ==> {
                &&& old(self).idle_skip_hits < u64::MAX
                &&& old(self).idle_skip_cycles + (old(bus).current_scanline_target - old(self).cycles) <= u64::MAX
            },
        ensures
            final(bus).wf(),
            res is None ==> *final(self) == *old(self),
            res matches Some(k) ==> {
                &&& old(self).p.m
                &&& k > 0
                &&& old(self).cycles + k + IDLE_SAFETY_MARGIN <= old(bus).current_scanline_target
                &&& exists|b: u8|
                    *final(self) == (Cpu {
                        idle_skip_hits: (old(self).idle_skip_hits + 1) as u64,
                        idle_skip_cycles: (old(self).idle_skip_cycles + k) as u64,
                        ..#[trigger] idle_loaded(*old(self), b)
                    })
            },
            !old(self).p.m ==> res is None && final(bus)@ == old(bus)@,
            idle_stream_pure(old(bus)@, *old(self)) ==> {
                let s = old(bus)@;
                let c = *old(self);
                let byte = peek(s, 0, idle_polled(s, c));
                let skip = idle_iterations(s, c) * idle_iteration_cost(s, c);
                if !idle_checks_pass(s, c) || idle_iterations(s, c) == 0 {
                    res is None && final(bus)@ == s
                } else {
                    &&& res == Some(skip as u64)
                    &&& *final(self) == (Cpu {
                        idle_skip_hits: (c.idle_skip_hits + 1) as u64,
                        idle_skip_cycles: (c.idle_skip_cycles + skip) as u64,
                        ..idle_loaded(c, byte)
                    })
                    &&& final(bus)@ == joypad_window_after(s, skip)
                }
            },
    {
        let ghost s = bus@;
        let polled_addr = match self.idle_checks(bus, io) {
            Some(a) => a,
            None => {
                return None;
            },
        };
        let ghost s1 = bus@;
        let byte = Self::idle_read(bus, io, 0x00, polled_addr);
        let budget = bus.current_scanline_target - self.cycles;
        let opcode_speed = bus.cpu_cycle_speed(self.pbr, self.pc);
        let data_speed = bus.cpu_cycle_speed(0x00, polled_addr);
        let lda_master = 2 * opcode_speed + data_speed;
        let beq_master = 2 * opcode_speed + 6;
        let iter_cost = lda_master + beq_master;
        let iterations = (budget - IDLE_SAFETY_MARGIN) / iter_cost;
        if iterations == 0 {
            return None;
        }
        assert(iterations * iter_cost <= budget - IDLE_SAFETY_MARGIN && iterations * iter_cost > 0)
            by (nonlinear_arith)
            requires
                iterations == ((budget - IDLE_SAFETY_MARGIN) as u64) / iter_cost,
                iter_cost > 0,
                iterations > 0,
                budget > IDLE_SAFETY_MARGIN,
        ;
        let skip = iterations * iter_cost;
        // Pre-apply the load the next real iteration makes.
        self.a = (self.a & 0xFF00) | byte as u16;
        self.p.z = byte == 0;
        self.p.n = (byte & 0x80) != 0;
        // The busy window of auto-joypad polling elapses with the skip.
        if bus.auto_joypad_busy {
            if skip >= bus.auto_joypad_timer as u64 {
                bus.auto_joypad_timer = 0;
                bus.auto_joypad_busy = false;
            } else {
                bus.auto_joypad_timer = bus.auto_joypad_timer - skip as u32;
            }
        }
        self.idle_skip_hits = self.idle_skip_hits + 1;
        self.idle_skip_cycles = self.idle_skip_cycles + skip;
        assert(*self == (Cpu {
            idle_skip_hits: (old(self).idle_skip_hits + 1) as u64,
            idle_skip_cycles: (old(self).idle_skip_cycles + skip) as u64,
            ..idle_loaded(*old(self), byte)
        }));
        Some(skip)
    }
}

} // verus!
