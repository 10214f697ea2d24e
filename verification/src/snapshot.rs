//! Save states.
//!
//! A save state is a flat little-endian byte string:
//!
//! ```text
//! 0..8    magic "SNES01\0\0"
//! 8       version byte
//! 9..     CPU, then bus (WRAM, SRAM, registers, PPU blob, DMA channels,
//!         joypad blob, APU blob), then the frame counter
//! ```
//!
//! Writers append to a `Vec<u8>`; readers advance a `&mut &[u8]` cursor.
//! The ROM is not saved. The PPU, joypad and APU states are opaque
//! length-prefixed blobs supplied by (and handed back to) their owners.
use vstd::prelude::*;
use vstd::bytes::*;
use crate::text::decimal;
use crate::bus::{Bus, BusState, WRAM_SIZE};
use crate::cpu::{Cpu, cpu_state_bytes, cpu_restored_from, cpu_same_saved, cpu_same_unsaved, lemma_cpu_record_decodes, CPU_STATE_LEN};
use crate::dma::{Dma, dma_state_bytes, dma_restored_from, channel_from, DMA_STATE_LEN};

verus! {

// ─── Byte encodings ─────────────────────────────────────────────────────

pub open spec fn bool_byte(v: bool) -> u8 {
    if v { 1 } else { 0 }
}

/// Length-prefixed encoding of a byte string (`u32` length, then bytes).
pub open spec fn blob_bytes(b: Seq<u8>) -> Seq<u8> {
    spec_u32_to_le_bytes(b.len() as u32) + b
}

pub open spec fn u16_at(s: Seq<u8>, i: int) -> u16 {
    spec_u16_from_le_bytes(s.subrange(i, i + 2))
}

pub open spec fn u32_at(s: Seq<u8>, i: int) -> u32 {
    spec_u32_from_le_bytes(s.subrange(i, i + 4))
}

pub open spec fn u64_at(s: Seq<u8>, i: int) -> u64 {
    spec_u64_from_le_bytes(s.subrange(i, i + 8))
}

pub open spec fn rest_from(s: Seq<u8>, n: int) -> Seq<u8> {
    s.subrange(n, s.len() as int)
}

/// Little-endian encodings decode to the value they encode, whatever follows.
pub proof fn lemma_le_decode_encode(v16: u16, v32: u32, v64: u64, rest: Seq<u8>)
    ensures
        spec_u16_to_le_bytes(v16).len() == 2,
        spec_u32_to_le_bytes(v32).len() == 4,
        spec_u64_to_le_bytes(v64).len() == 8,
        u16_at(spec_u16_to_le_bytes(v16) + rest, 0) == v16,
        u32_at(spec_u32_to_le_bytes(v32) + rest, 0) == v32,
        u64_at(spec_u64_to_le_bytes(v64) + rest, 0) == v64,
        rest_from(spec_u16_to_le_bytes(v16) + rest, 2) == rest,
        rest_from(spec_u32_to_le_bytes(v32) + rest, 4) == rest,
        rest_from(spec_u64_to_le_bytes(v64) + rest, 8) == rest,
{
    lemma_auto_spec_u16_to_from_le_bytes();
    lemma_auto_spec_u32_to_from_le_bytes();
    lemma_auto_spec_u64_to_from_le_bytes();
    assert((spec_u16_to_le_bytes(v16) + rest).subrange(0, 2) =~= spec_u16_to_le_bytes(v16));
    assert((spec_u32_to_le_bytes(v32) + rest).subrange(0, 4) =~= spec_u32_to_le_bytes(v32));
    assert((spec_u64_to_le_bytes(v64) + rest).subrange(0, 8) =~= spec_u64_to_le_bytes(v64));
    assert(rest_from(spec_u16_to_le_bytes(v16) + rest, 2) =~= rest);
    assert(rest_from(spec_u32_to_le_bytes(v32) + rest, 4) =~= rest);
    assert(rest_from(spec_u64_to_le_bytes(v64) + rest, 8) =~= rest);
}

// ─── Writer helpers ─────────────────────────────────────────────────────

pub fn w_u8(out: &mut Vec<u8>, v: u8)
    ensures
        final(out)@ == old(out)@.push(v),
{
    out.push(v);
}

pub fn w_u16(out: &mut Vec<u8>, v: u16)
    ensures
        final(out)@ == old(out)@ + spec_u16_to_le_bytes(v),
{
    let mut b = u16_to_le_bytes(v);
    out.append(&mut b);
}

pub fn w_u32(out: &mut Vec<u8>, v: u32)
    ensures
        final(out)@ == old(out)@ + spec_u32_to_le_bytes(v),
{
    let mut b = u32_to_le_bytes(v);
    out.append(&mut b);
}

pub fn w_u64(out: &mut Vec<u8>, v: u64)
    ensures
        final(out)@ == old(out)@ + spec_u64_to_le_bytes(v),
{
    let mut b = u64_to_le_bytes(v);
    out.append(&mut b);
}

pub fn w_i16(out: &mut Vec<u8>, v: i16)
    ensures
        final(out)@ == old(out)@ + spec_u16_to_le_bytes(v as u16),
{
    w_u16(out, v as u16);
}

pub fn w_bool(out: &mut Vec<u8>, v: bool)
    ensures
        final(out)@ == old(out)@.push(bool_byte(v)),
{
    out.push(if v { 1 } else { 0 });
}

/// Append a byte string with its `u32` length in front (a length beyond
/// `u32::MAX` is truncated in the prefix).
pub fn w_bytes(out: &mut Vec<u8>, b: &[u8])
    ensures
        final(out)@ == old(out)@ + spec_u32_to_le_bytes(b@.len() as u32) + b@,
{
    w_u32(out, b.len() as u32);
    let ghost mid = out@;
    let mut i: usize = 0;
    while i < b.len()
        invariant
            i <= b@.len(),
            out@ == mid + b@.subrange(0, i as int),
        decreases b@.len() - i,
    {
        out.push(b[i]);
        i = i + 1;
        proof {
            assert(out@ =~= mid + b@.subrange(0, i as int));
        }
    }
    assert(b@.subrange(0, b@.len() as int) =~= b@);
}

// ─── Reader helpers ─────────────────────────────────────────────────────

/// The cursor advanced by `n` bytes.
fn advance<'a>(r: &mut &'a [u8], n: usize)
    requires
        n <= old(r)@.len(),
    ensures
        final(r)@ == rest_from(old(r)@, n as int),
{
    let s: &'a [u8] = *r;
    *r = &s[n..s.len()];
}

pub fn r_u8(r: &mut &[u8]) -> (res: Result<u8, String>)
    ensures
        res.is_ok() <==> old(r)@.len() >= 1,
        res matches Ok(v) ==> v == old(r)@[0] && final(r)@ == rest_from(old(r)@, 1),
        res is Err ==> final(r)@ == old(r)@,
{
    if r.len() == 0 {
        return Err("snapshot: unexpected EOF (u8)".to_string());
    }
    let v = r[0];
    advance(r, 1);
    Ok(v)
}

pub fn r_u16(r: &mut &[u8]) -> (res: Result<u16, String>)
    ensures
        res.is_ok() <==> old(r)@.len() >= 2,
        res matches Ok(v) ==> v == u16_at(old(r)@, 0) && final(r)@ == rest_from(old(r)@, 2),
        res is Err ==> final(r)@ == old(r)@,
{
    if r.len() < 2 {
        return Err("snapshot: unexpected EOF (u16)".to_string());
    }
    let v = u16_from_le_bytes(&r[0..2]);
    advance(r, 2);
    Ok(v)
}

pub fn r_u32(r: &mut &[u8]) -> (res: Result<u32, String>)
    ensures
        res.is_ok() <==> old(r)@.len() >= 4,
        res matches Ok(v) ==> v == u32_at(old(r)@, 0) && final(r)@ == rest_from(old(r)@, 4),
        res is Err ==> final(r)@ == old(r)@,
{
    if r.len() < 4 {
        return Err("snapshot: unexpected EOF (u32)".to_string());
    }
    let v = u32_from_le_bytes(&r[0..4]);
    advance(r, 4);
    Ok(v)
}

pub fn r_u64(r: &mut &[u8]) -> (res: Result<u64, String>)
    ensures
        res.is_ok() <==> old(r)@.len() >= 8,
        res matches Ok(v) ==> v == u64_at(old(r)@, 0) && final(r)@ == rest_from(old(r)@, 8),
        res is Err ==> final(r)@ == old(r)@,
{
    if r.len() < 8 {
        return Err("snapshot: unexpected EOF (u64)".to_string());
    }
    let v = u64_from_le_bytes(&r[0..8]);
    advance(r, 8);
    Ok(v)
}

pub fn r_i16(r: &mut &[u8]) -> (res: Result<i16, String>)
    ensures
        res.is_ok() <==> old(r)@.len() >= 2,
        res matches Ok(v) ==> v == u16_at(old(r)@, 0) as i16 && final(r)@ == rest_from(old(r)@, 2),
        res is Err ==> final(r)@ == old(r)@,
{
    match r_u16(r) {
        Ok(v) => Ok(v as i16),
        Err(e) => Err(e),
    }
}

pub fn r_bool(r: &mut &[u8]) -> (res: Result<bool, String>)
    ensures
        res.is_ok() <==> old(r)@.len() >= 1,
        res matches Ok(v) ==> v == (old(r)@[0] != 0) && final(r)@ == rest_from(old(r)@, 1),
        res is Err ==> final(r)@ == old(r)@,
{
    match r_u8(r) {
        Ok(v) => Ok(v != 0),
        Err(e) => Err(e),
    }
}

/// Text of the error for a byte block whose length differs from the
/// destination's.
pub open spec fn length_mismatch_text(expected: usize, got: usize) -> Seq<char> {
    "snapshot: byte length mismatch (expected "@ + decimal(expected as nat) + ", got "@ + decimal(got as nat) + ")"@
}

/// Formats the length-mismatch error with `format!` (`{}` prints the
/// lengths in decimal).
#[verifier::external_body]
fn length_mismatch_error(expected: usize, got: usize) -> (s: String)
    ensures
        s@ == length_mismatch_text(expected, got),
{
    format!("snapshot: byte length mismatch (expected {}, got {})", expected, got)
}

/// A length-prefixed block of `n` bytes starts `s`.
pub open spec fn blob_fits(s: Seq<u8>) -> bool {
    s.len() >= 4 && s.len() - 4 >= u32_at(s, 0)
}

/// The block of a length-prefixed byte string at the start of `s`.
pub open spec fn blob_at(s: Seq<u8>) -> Seq<u8> {
    s.subrange(4, 4 + u32_at(s, 0))
}

/// What follows the length-prefixed byte string at the start of `s`.
pub open spec fn after_blob(s: Seq<u8>) -> Seq<u8> {
    rest_from(s, 4 + u32_at(s, 0))
}

/// Read a length-prefixed block into `dst`, whose length it must have.
pub fn r_bytes_into(r: &mut &[u8], dst: &mut [u8]) -> (res: Result<(), String>)
    ensures
        res.is_ok() <==> (blob_fits(old(r)@) && u32_at(old(r)@, 0) == old(dst)@.len()),
        res is Ok ==> final(dst)@ == blob_at(old(r)@) && final(r)@ == after_blob(old(r)@),
        res is Err ==> final(dst)@ == old(dst)@,
{
    let n = r_u32(r)? as usize;
    if n != dst.len() {
        return Err(length_mismatch_error(dst.len(), n));
    }
    if r.len() < n {
        return Err("snapshot: unexpected EOF (bytes)".to_string());
    }
    let ghost src = r@;
    let mut i: usize = 0;
    while i < n
        invariant
            n == dst@.len(),
            n <= src.len(),
            src == r@,
            i <= n,
            forall|j: int| 0 <= j < i ==> dst@[j] == src[j],
        decreases n - i,
    {
        dst[i] = r[i];
        i = i + 1;
    }
    assert(dst@ =~= src.subrange(0, n as int));
    advance(r, n);
    Ok(())
}

/// Read a length-prefixed block into a new vector.
pub fn r_bytes_vec(r: &mut &[u8]) -> (res: Result<Vec<u8>, String>)
    ensures
        res.is_ok() <==> blob_fits(old(r)@),
        res matches Ok(v) ==> v@ == blob_at(old(r)@) && final(r)@ == after_blob(old(r)@),
{
    let n = r_u32(r)? as usize;
    if r.len() < n {
        return Err("snapshot: unexpected EOF (bytes_vec)".to_string());
    }
    let v = vstd::slice::slice_to_vec(&r[0..n]);
    advance(r, n);
    Ok(v)
}

// ─── Cursor arithmetic ──────────────────────────────────────────────────

pub proof fn lemma_rest_rest(s: Seq<u8>, a: int, b: int)
    requires
        0 <= a,
        0 <= b,
        a + b <= s.len(),
    ensures
        rest_from(rest_from(s, a), b) == rest_from(s, a + b),
{
    assert(rest_from(rest_from(s, a), b) =~= rest_from(s, a + b));
}

// ─── Save-state layout ──────────────────────────────────────────────────

/// Format version written after the magic header.
pub const SNAPSHOT_VERSION: u8 = 4;

/// The 8-byte magic header `"SNES01\0\0"`.
pub open spec fn magic_bytes() -> Seq<u8> {
    seq![0x53u8, 0x4E, 0x45, 0x53, 0x30, 0x31, 0x00, 0x00]
}

/// Number of bytes of the bus register record.
pub const BUS_REGS_LEN: usize = 43;

/// Number of bytes of the first part of the bus register record.
pub const BUS_REGS_HEAD_LEN: usize = 20;

/// First part of the bus register record: NMITIMEN, HTIME, VTIME, HDMAEN,
/// MEMSEL, the math registers and the WRAM port address.
pub open spec fn regs_head_bytes(b: BusState) -> Seq<u8> {
    seq![b.nmitimen] + spec_u16_to_le_bytes(b.htime) + spec_u16_to_le_bytes(b.vtime)
        + seq![b.hdmaen, b.memsel, b.wrmpya, b.wrmpyb] + spec_u16_to_le_bytes(b.wrdiv) + seq![b.wrdivb]
        + spec_u16_to_le_bytes(b.rddiv) + spec_u16_to_le_bytes(b.rdmpy) + spec_u32_to_le_bytes(b.wram_addr)
}

/// Second part: the five status flags, the auto-joypad timer and result,
/// the open-bus byte, the pending DMA cycles, and the last write's bank
/// and PC.
pub open spec fn regs_tail_bytes(b: BusState) -> Seq<u8> {
    seq![bool_byte(b.vblank), bool_byte(b.hblank), bool_byte(b.nmi_flag), bool_byte(b.irq_flag), bool_byte(b.auto_joypad_busy)]
        + spec_u32_to_le_bytes(b.auto_joypad_timer) + spec_u16_to_le_bytes(b.auto_joypad_result)
        + seq![b.open_bus] + spec_u64_to_le_bytes(b.pending_dma_cycles) + seq![b.last_write_bank]
        + spec_u16_to_le_bytes(b.last_write_pc)
}

/// The bus register record. The master clock and APU sync point are not
/// recorded.
pub open spec fn bus_regs_bytes(b: BusState) -> Seq<u8> {
    regs_head_bytes(b) + regs_tail_bytes(b)
}

/// `b` with the registers of the first part decoded from the start of `s`.
pub open spec fn with_head_from(b: BusState, s: Seq<u8>) -> BusState {
    BusState {
        nmitimen: s[0],
        htime: u16_at(s, 1),
        vtime: u16_at(s, 3),
        hdmaen: s[5],
        memsel: s[6],
        wrmpya: s[7],
        wrmpyb: s[8],
        wrdiv: u16_at(s, 9),
        wrdivb: s[11],
        rddiv: u16_at(s, 12),
        rdmpy: u16_at(s, 14),
        wram_addr: u32_at(s, 16),
        ..b
    }
}

/// `b` with the registers of the second part decoded from the start of `s`.
pub open spec fn with_tail_from(b: BusState, s: Seq<u8>) -> BusState {
    BusState {
        vblank: s[0] != 0,
        hblank: s[1] != 0,
        nmi_flag: s[2] != 0,
        irq_flag: s[3] != 0,
        auto_joypad_busy: s[4] != 0,
        auto_joypad_timer: u32_at(s, 5),
        auto_joypad_result: u16_at(s, 9),
        open_bus: s[11],
        pending_dma_cycles: u64_at(s, 12),
        last_write_bank: s[20],
        last_write_pc: u16_at(s, 21),
        ..b
    }
}

/// `b` with its recorded registers decoded from the record at the start of `s`.
pub open spec fn with_regs_from(b: BusState, s: Seq<u8>) -> BusState {
    with_tail_from(with_head_from(b, s), rest_from(s, BUS_REGS_HEAD_LEN as int))
}

/// `b` with every register that a save state records taken from `c`.
pub open spec fn with_regs_of(b: BusState, c: BusState) -> BusState {
    BusState {
        nmitimen: c.nmitimen,
        htime: c.htime,
        vtime: c.vtime,
        hdmaen: c.hdmaen,
        memsel: c.memsel,
        wrmpya: c.wrmpya,
        wrmpyb: c.wrmpyb,
        wrdiv: c.wrdiv,
        wrdivb: c.wrdivb,
        rddiv: c.rddiv,
        rdmpy: c.rdmpy,
        wram_addr: c.wram_addr,
        vblank: c.vblank,
        hblank: c.hblank,
        nmi_flag: c.nmi_flag,
        irq_flag: c.irq_flag,
        auto_joypad_busy: c.auto_joypad_busy,
        auto_joypad_timer: c.auto_joypad_timer,
        auto_joypad_result: c.auto_joypad_result,
        open_bus: c.open_bus,
        pending_dma_cycles: c.pending_dma_cycles,
        last_write_bank: c.last_write_bank,
        last_write_pc: c.last_write_pc,
        ..b
    }
}

proof fn lemma_regs_record_decodes(b: BusState, c: BusState, rest: Seq<u8>)
    ensures
        bus_regs_bytes(c).len() == BUS_REGS_LEN,
        with_regs_from(b, bus_regs_bytes(c) + rest) == with_regs_of(b, c),
        rest_from(bus_regs_bytes(c) + rest, BUS_REGS_LEN as int) == rest,
{
    lemma_auto_spec_u16_to_from_le_bytes();
    lemma_auto_spec_u32_to_from_le_bytes();
    lemma_auto_spec_u64_to_from_le_bytes();
    let s = bus_regs_bytes(c) + rest;
    assert(s.subrange(1, 3) =~= spec_u16_to_le_bytes(c.htime));
    assert(s.subrange(3, 5) =~= spec_u16_to_le_bytes(c.vtime));
    assert(s.subrange(9, 11) =~= spec_u16_to_le_bytes(c.wrdiv));
    assert(s.subrange(12, 14) =~= spec_u16_to_le_bytes(c.rddiv));
    assert(s.subrange(14, 16) =~= spec_u16_to_le_bytes(c.rdmpy));
    assert(s.subrange(16, 20) =~= spec_u32_to_le_bytes(c.wram_addr));
    let t = rest_from(s, BUS_REGS_HEAD_LEN as int);
    assert(t =~= regs_tail_bytes(c) + rest);
    assert(t.subrange(5, 9) =~= spec_u32_to_le_bytes(c.auto_joypad_timer));
    assert(t.subrange(9, 11) =~= spec_u16_to_le_bytes(c.auto_joypad_result));
    assert(t.subrange(12, 20) =~= spec_u64_to_le_bytes(c.pending_dma_cycles));
    assert(t.subrange(21, 23) =~= spec_u16_to_le_bytes(c.last_write_pc));
    assert(rest_from(s, BUS_REGS_LEN as int) =~= rest);
}

/// State of the chips outside the bus (PPU, joypad, APU) as opaque byte
/// strings, written into and read back from a save state unchanged.
pub struct DeviceStates {
    pub ppu: Vec<u8>,
    pub joypad: Vec<u8>,
    pub apu: Vec<u8>,
}

/// The bus record: WRAM and SRAM (length-prefixed), the registers, the PPU
/// blob, the DMA channels, the joypad blob and the APU blob.
pub open spec fn bus_state_bytes(b: BusState, d: &DeviceStates) -> Seq<u8> {
    blob_bytes(b.wram) + blob_bytes(b.sram) + bus_regs_bytes(b) + blob_bytes(d.ppu@)
        + crate::dma::channels_bytes(b.channels, 8) + blob_bytes(d.joypad@) + blob_bytes(d.apu@)
}

// Positions inside a bus record that starts `s`.
pub open spec fn after_wram(s: Seq<u8>) -> Seq<u8> {
    after_blob(s)
}

pub open spec fn after_sram(s: Seq<u8>) -> Seq<u8> {
    after_blob(after_wram(s))
}

pub open spec fn at_ppu(s: Seq<u8>) -> Seq<u8> {
    rest_from(after_sram(s), BUS_REGS_LEN as int)
}

pub open spec fn at_dma(s: Seq<u8>) -> Seq<u8> {
    after_blob(at_ppu(s))
}

pub open spec fn at_joypad(s: Seq<u8>) -> Seq<u8> {
    rest_from(at_dma(s), DMA_STATE_LEN as int)
}

pub open spec fn at_apu(s: Seq<u8>) -> Seq<u8> {
    after_blob(at_joypad(s))
}

/// What follows the bus record at the start of `s`.
pub open spec fn after_bus(s: Seq<u8>) -> Seq<u8> {
    after_blob(at_apu(s))
}

/// `s` starts with a well-formed bus record for a bus whose SRAM holds
/// `sram_len` bytes.
pub open spec fn bus_record_ok(s: Seq<u8>, sram_len: nat) -> bool {
    &&& blob_fits(s)
    &&& u32_at(s, 0) == crate::bus::WRAM_SIZE
    &&& blob_fits(after_wram(s))
    &&& u32_at(after_wram(s), 0) == sram_len
    &&& after_sram(s).len() >= BUS_REGS_LEN
    &&& blob_fits(at_ppu(s))
    &&& at_dma(s).len() >= DMA_STATE_LEN
    &&& blob_fits(at_joypad(s))
    &&& blob_fits(at_apu(s))
}

/// Bus `n` was restored from the bus record at the start of `s` into bus
/// `o`: WRAM, SRAM, the recorded registers and the DMA channels come from
/// the record; the cartridge ROM and header, the scanline target, the
/// master clock and the APU sync point stay as they were.
pub open spec fn bus_restored_from(n: BusState, o: BusState, s: Seq<u8>) -> bool {
    &&& n == BusState {
        wram: blob_at(s),
        sram: blob_at(after_wram(s)),
        channels: n.channels,
        ..with_regs_from(o, after_sram(s))
    }
    &&& n.channels.len() == 8
    &&& forall|k: int| 0 <= k < 8 ==> #[trigger] n.channels[k] == crate::dma::channel_from(
        at_dma(s).subrange(k * 14, k * 14 + 14),
    )
}

/// Devices decoded from the bus record at the start of `s`.
pub open spec fn devices_restored_from(d: &DeviceStates, s: Seq<u8>) -> bool {
    &&& d.ppu@ == blob_at(at_ppu(s))
    &&& d.joypad@ == blob_at(at_joypad(s))
    &&& d.apu@ == blob_at(at_apu(s))
}

// ─── CPU, DMA, joypad, PPU records ──────────────────────────────────────

pub fn write_cpu(out: &mut Vec<u8>, cpu: &Cpu)
    ensures
        final(out)@ == old(out)@ + cpu_state_bytes(cpu),
{
    cpu.snapshot_write(out);
}

pub fn read_cpu(r: &mut &[u8], cpu: &mut Cpu) -> (res: Result<(), String>)
    ensures
        res.is_ok() <==> old(r)@.len() >= CPU_STATE_LEN,
        res is Ok ==> cpu_restored_from(final(cpu), old(r)@) && final(r)@ == rest_from(old(r)@, CPU_STATE_LEN as int),
        cpu_same_unsaved(final(cpu), old(cpu)),
{
    cpu.snapshot_read(r)
}

pub fn write_dma(out: &mut Vec<u8>, dma: &Dma)
    ensures
        final(out)@ == old(out)@ + dma_state_bytes(dma),
{
    dma.snapshot_write(out);
}

pub fn read_dma(r: &mut &[u8], dma: &mut Dma) -> (res: Result<(), String>)
    ensures
        res.is_ok() <==> old(r)@.len() >= DMA_STATE_LEN,
        res is Ok ==> dma_restored_from(final(dma), old(r)@) && final(r)@ == rest_from(old(r)@, DMA_STATE_LEN as int),
{
    dma.snapshot_read(r)
}

/// Append the joypad's state blob (length-prefixed).
pub fn write_joypad(out: &mut Vec<u8>, state: &[u8])
    ensures
        final(out)@ == old(out)@ + spec_u32_to_le_bytes(state@.len() as u32) + state@,
{
    w_bytes(out, state);
}

/// Read the joypad's state blob.
pub fn read_joypad(r: &mut &[u8]) -> (res: Result<Vec<u8>, String>)
    ensures
        res.is_ok() <==> blob_fits(old(r)@),
        res matches Ok(v) ==> v@ == blob_at(old(r)@) && final(r)@ == after_blob(old(r)@),
{
    r_bytes_vec(r)
}

/// Append the PPU's state blob (length-prefixed).
pub fn write_ppu(out: &mut Vec<u8>, state: &[u8])
    ensures
        final(out)@ == old(out)@ + spec_u32_to_le_bytes(state@.len() as u32) + state@,
{
    w_bytes(out, state);
}

/// Read the PPU's state blob.
pub fn read_ppu(r: &mut &[u8]) -> (res: Result<Vec<u8>, String>)
    ensures
        res.is_ok() <==> blob_fits(old(r)@),
        res matches Ok(v) ==> v@ == blob_at(old(r)@) && final(r)@ == after_blob(old(r)@),
{
    r_bytes_vec(r)
}

// ─── Bus ────────────────────────────────────────────────────────────────

fn write_regs_head(out: &mut Vec<u8>, bus: &Bus)
    ensures
        final(out)@ == old(out)@ + regs_head_bytes(bus@),
{
    w_u8(out, bus.nmitimen);
    w_u16(out, bus.htime);
    w_u16(out, bus.vtime);
    w_u8(out, bus.hdmaen);
    w_u8(out, bus.memsel);
    w_u8(out, bus.wrmpya);
    w_u8(out, bus.wrmpyb);
    w_u16(out, bus.wrdiv);
    w_u8(out, bus.wrdivb);
    w_u16(out, bus.rddiv);
    w_u16(out, bus.rdmpy);
    w_u32(out, bus.wram_addr);
    assert(out@ =~= old(out)@ + regs_head_bytes(bus@));
}

fn write_regs_tail(out: &mut Vec<u8>, bus: &Bus)
    ensures
        final(out)@ == old(out)@ + regs_tail_bytes(bus@),
{
    w_bool(out, bus.vblank);
    w_bool(out, bus.hblank);
    w_bool(out, bus.nmi_flag);
    w_bool(out, bus.irq_flag);
    w_bool(out, bus.auto_joypad_busy);
    w_u32(out, bus.auto_joypad_timer);
    w_u16(out, bus.auto_joypad_result);
    w_u8(out, bus.open_bus);
    w_u64(out, bus.pending_dma_cycles);
    w_u8(out, bus.last_write_bank);
    w_u16(out, bus.last_write_pc);
    assert(out@ =~= old(out)@ + regs_tail_bytes(bus@));
}

/// Append the bus register record.
fn write_bus_regs(out: &mut Vec<u8>, bus: &Bus)
    ensures
        final(out)@ == old(out)@ + bus_regs_bytes(bus@),
{
    write_regs_head(out, bus);
    write_regs_tail(out, bus);
    assert(out@ =~= old(out)@ + bus_regs_bytes(bus@));
}

fn read_regs_head(r: &mut &[u8], bus: &mut Bus) -> (res: Result<(), String>)
    ensures
        res.is_ok() <==> old(r)@.len() >= BUS_REGS_HEAD_LEN,
        res is Ok ==> final(bus)@ == with_head_from(old(bus)@, old(r)@)
            && final(r)@ == rest_from(old(r)@, BUS_REGS_HEAD_LEN as int),
        final(bus)@ == with_regs_of(old(bus)@, final(bus)@),
{
    let ghost s = r@;
    bus.nmitimen = r_u8(r)?;
    assert(r@ =~= rest_from(s, 1));
    bus.htime = r_u16(r)?;
    assert(rest_from(s, 1).subrange(0, 2) =~= s.subrange(1, 3));
    assert(r@ =~= rest_from(s, 3));
    bus.vtime = r_u16(r)?;
    assert(rest_from(s, 3).subrange(0, 2) =~= s.subrange(3, 5));
    assert(r@ =~= rest_from(s, 5));
    bus.hdmaen = r_u8(r)?;
    assert(r@ =~= rest_from(s, 6));
    bus.memsel = r_u8(r)?;
    assert(r@ =~= rest_from(s, 7));
    bus.wrmpya = r_u8(r)?;
    assert(r@ =~= rest_from(s, 8));
    bus.wrmpyb = r_u8(r)?;
    assert(r@ =~= rest_from(s, 9));
    bus.wrdiv = r_u16(r)?;
    assert(rest_from(s, 9).subrange(0, 2) =~= s.subrange(9, 11));
    assert(r@ =~= rest_from(s, 11));
    bus.wrdivb = r_u8(r)?;
    assert(r@ =~= rest_from(s, 12));
    bus.rddiv = r_u16(r)?;
    assert(rest_from(s, 12).subrange(0, 2) =~= s.subrange(12, 14));
    assert(r@ =~= rest_from(s, 14));
    bus.rdmpy = r_u16(r)?;
    assert(rest_from(s, 14).subrange(0, 2) =~= s.subrange(14, 16));
    assert(r@ =~= rest_from(s, 16));
    bus.wram_addr = r_u32(r)?;
    assert(rest_from(s, 16).subrange(0, 4) =~= s.subrange(16, 20));
    assert(r@ =~= rest_from(s, 20));
    Ok(())
}

#[verifier::rlimit(60)]
fn read_regs_tail(r: &mut &[u8], bus: &mut Bus) -> (res: Result<(), String>)
    ensures
        res.is_ok() <==> old(r)@.len() >= BUS_REGS_LEN - BUS_REGS_HEAD_LEN,
        res is Ok ==> final(bus)@ == with_tail_from(old(bus)@, old(r)@)
            && final(r)@ == rest_from(old(r)@, BUS_REGS_LEN - BUS_REGS_HEAD_LEN),
        final(bus)@ == with_regs_of(old(bus)@, final(bus)@),
{
    let ghost s = r@;
    bus.vblank = r_bool(r)?;
    assert(r@ =~= rest_from(s, 1));
    bus.hblank = r_bool(r)?;
    assert(r@ =~= rest_from(s, 2));
    bus.nmi_flag = r_bool(r)?;
    assert(r@ =~= rest_from(s, 3));
    bus.irq_flag = r_bool(r)?;
    assert(r@ =~= rest_from(s, 4));
    bus.auto_joypad_busy = r_bool(r)?;
    assert(r@ =~= rest_from(s, 5));
    bus.auto_joypad_timer = r_u32(r)?;
    assert(rest_from(s, 5).subrange(0, 4) =~= s.subrange(5, 9));
    assert(r@ =~= rest_from(s, 9));
    bus.auto_joypad_result = r_u16(r)?;
    assert(rest_from(s, 9).subrange(0, 2) =~= s.subrange(9, 11));
    assert(r@ =~= rest_from(s, 11));
    bus.open_bus = r_u8(r)?;
    assert(r@ =~= rest_from(s, 12));
    bus.pending_dma_cycles = r_u64(r)?;
    assert(rest_from(s, 12).subrange(0, 8) =~= s.subrange(12, 20));
    assert(r@ =~= rest_from(s, 20));
    bus.last_write_bank = r_u8(r)?;
    assert(r@ =~= rest_from(s, 21));
    bus.last_write_pc = r_u16(r)?;
    assert(rest_from(s, 21).subrange(0, 2) =~= s.subrange(21, 23));
    assert(r@ =~= rest_from(s, 23));
    Ok(())
}

/// Read the bus register record. Only the recorded registers change.
fn read_bus_regs(r: &mut &[u8], bus: &mut Bus) -> (res: Result<(), String>)
    ensures
        res.is_ok() <==> old(r)@.len() >= BUS_REGS_LEN,
        res is Ok ==> final(bus)@ == with_regs_from(old(bus)@, old(r)@)
            && final(r)@ == rest_from(old(r)@, BUS_REGS_LEN as int),
        final(bus)@ == with_regs_of(old(bus)@, final(bus)@),
{
    let ghost s = r@;
    read_regs_head(r, bus)?;
    read_regs_tail(r, bus)?;
    proof {
        lemma_rest_rest(s, BUS_REGS_HEAD_LEN as int, (BUS_REGS_LEN - BUS_REGS_HEAD_LEN) as int);
    }
    Ok(())
}

/// Text of the error for a saved SRAM whose size differs from the cartridge's.
pub open spec fn sram_mismatch_text(expected: usize, got: usize) -> Seq<char> {
    "snapshot: SRAM size mismatch (expected "@ + decimal(expected as nat) + ", got "@ + decimal(got as nat) + ")"@
}

/// Formats the SRAM-size error with `format!` (`{}` prints the sizes in
/// decimal).
#[verifier::external_body]
fn sram_mismatch_error(expected: usize, got: usize) -> (s: String)
    ensures
        s@ == sram_mismatch_text(expected, got),
{
    format!("snapshot: SRAM size mismatch (expected {}, got {})", expected, got)
}

/// `n` agrees with `o` on everything that a bus record does not hold:
/// the cartridge ROM and header, the scanline target, the master clock
/// and the APU sync point.
pub open spec fn same_unrecorded(n: BusState, o: BusState) -> bool {
    &&& n.rom == o.rom
    &&& n.title == o.title
    &&& n.map_mode == o.map_mode
    &&& n.rom_size == o.rom_size
    &&& n.ram_size == o.ram_size
    &&& n.country == o.country
    &&& n.version == o.version
    &&& n.checksum == o.checksum
    &&& n.checksum_complement == o.checksum_complement
    &&& n.current_scanline_target == o.current_scanline_target
    &&& n.master_clock == o.master_clock
    &&& n.last_apu_sync == o.last_apu_sync
}

/// `n` has the cartridge ROM and header and the scanline target of `o`.
pub open spec fn same_cartridge(n: BusState, o: BusState) -> bool {
    &&& n.rom == o.rom
    &&& n.title == o.title
    &&& n.map_mode == o.map_mode
    &&& n.rom_size == o.rom_size
    &&& n.ram_size == o.ram_size
    &&& n.country == o.country
    &&& n.version == o.version
    &&& n.checksum == o.checksum
    &&& n.checksum_complement == o.checksum_complement
    &&& n.current_scanline_target == o.current_scanline_target
}

/// Append the bus record: WRAM, SRAM, registers, then the PPU blob, the
/// DMA channels, the joypad blob and the APU blob.
pub fn write_bus(out: &mut Vec<u8>, bus: &Bus, devices: &DeviceStates)
    ensures
        final(out)@ == old(out)@ + bus_state_bytes(bus@, devices),
{
    w_bytes(out, bus.wram.as_slice());
    w_bytes(out, bus.cart.sram.as_slice());
    write_bus_regs(out, bus);
    write_ppu(out, devices.ppu.as_slice());
    write_dma(out, &bus.dma);
    write_joypad(out, devices.joypad.as_slice());
    w_bytes(out, devices.apu.as_slice());
    assert(out@ =~= old(out)@ + bus_state_bytes(bus@, devices));
}

/// Read a bus record into `bus` and return the device blobs it holds.
/// It succeeds exactly when the record is complete, its WRAM block has
/// 128 KiB and its SRAM block the size of the cartridge's SRAM.
#[verifier::rlimit(60)]
pub fn read_bus(r: &mut &[u8], bus: &mut Bus) -> (res: Result<DeviceStates, String>)
    requires
        old(bus).wf(),
    ensures
        res.is_ok() <==> bus_record_ok(old(r)@, old(bus).cart.sram@.len()),
        res matches Ok(d) ==> bus_restored_from(final(bus)@, old(bus)@, old(r)@)
            && devices_restored_from(&d, old(r)@) && final(r)@ == after_bus(old(r)@),
        same_unrecorded(final(bus)@, old(bus)@),
        final(bus).wram@.len() == WRAM_SIZE,
{
    let ghost s = r@;
    let ghost o = bus@;
    r_bytes_into(r, bus.wram.as_mut_slice())?;
    let sram = r_bytes_vec(r)?;
    if sram.len() != bus.cart.sram.len() {
        return Err(sram_mismatch_error(bus.cart.sram.len(), sram.len()));
    }
    bus.cart.sram = sram;
    let ghost before_regs = bus@;
    read_bus_regs(r, bus)?;
    assert(bus@ == with_regs_from(before_regs, after_sram(s)));
    let ppu = read_ppu(r)?;
    read_dma(r, &mut bus.dma)?;
    let joypad = read_joypad(r)?;
    let apu = r_bytes_vec(r)?;
    assert(bus.dma.channels@.len() == 8);
    Ok(DeviceStates { ppu, joypad, apu })
}

// ─── Whole save states ──────────────────────────────────────────────────

/// The save state of a CPU, a bus, a frame counter and the device blobs.
pub open spec fn snapshot_bytes(c: &Cpu, b: BusState, frame_count: u64, d: &DeviceStates) -> Seq<u8> {
    magic_bytes() + seq![SNAPSHOT_VERSION] + cpu_state_bytes(c) + bus_state_bytes(b, d)
        + spec_u64_to_le_bytes(frame_count)
}

/// Where the CPU record of a save state starts.
pub open spec fn at_cpu(s: Seq<u8>) -> Seq<u8> {
    rest_from(s, 9)
}

/// Where the bus record of a save state starts.
pub open spec fn at_bus(s: Seq<u8>) -> Seq<u8> {
    rest_from(s, 9 + CPU_STATE_LEN)
}

/// `s` is a complete save state of this version for a bus whose SRAM
/// holds `sram_len` bytes.
pub open spec fn snapshot_ok(s: Seq<u8>, sram_len: nat) -> bool {
    &&& s.len() >= 9
    &&& s.subrange(0, 8) == magic_bytes()
    &&& s[8] == SNAPSHOT_VERSION
    &&& at_cpu(s).len() >= CPU_STATE_LEN
    &&& bus_record_ok(at_bus(s), sram_len)
    &&& after_bus(at_bus(s)).len() >= 8
}

/// CPU `c`, bus `n`, frame counter `fc` and device blobs `d` were restored
/// from the save state `s` into the CPU `oc` and the bus `o`: every
/// recorded field comes from `s`, the rest stays, and the master clock and
/// APU sync point restart at the restored cycle count.
pub open spec fn state_restored_from(
    c: &Cpu,
    n: BusState,
    fc: u64,
    d: &DeviceStates,
    oc: &Cpu,
    o: BusState,
    s: Seq<u8>,
) -> bool {
    &&& cpu_restored_from(c, at_cpu(s))
    &&& cpu_same_unsaved(c, oc)
    &&& bus_restored_from(n, BusState { master_clock: c.cycles, last_apu_sync: c.cycles, ..o }, at_bus(s))
    &&& devices_restored_from(d, at_bus(s))
    &&& fc == u64_at(after_bus(at_bus(s)), 0)
}

/// Text of the error for a save state of another version.
pub open spec fn unsupported_version_text(version: u8) -> Seq<char> {
    "snapshot: unsupported version "@ + decimal(version as nat)
}

/// Formats the version error with `format!` (`{}` prints the version in
/// decimal).
#[verifier::external_body]
fn unsupported_version_error(version: u8) -> (s: String)
    ensures
        s@ == unsupported_version_text(version),
{
    format!("snapshot: unsupported version {}", version)
}

/// Append the magic header.
fn write_magic(out: &mut Vec<u8>)
    ensures
        final(out)@ == old(out)@ + magic_bytes(),
{
    out.push(0x53);
    out.push(0x4E);
    out.push(0x45);
    out.push(0x53);
    out.push(0x30);
    out.push(0x31);
    out.push(0x00);
    out.push(0x00);
    assert(out@ =~= old(out)@ + magic_bytes());
}

/// The first eight bytes are the magic header.
fn has_magic(bytes: &[u8]) -> (r: bool)
    requires
        bytes@.len() >= 8,
    ensures
        r == (bytes@.subrange(0, 8) == magic_bytes()),
{
    let r = bytes[0] == 0x53 && bytes[1] == 0x4E && bytes[2] == 0x45 && bytes[3] == 0x53
        && bytes[4] == 0x30 && bytes[5] == 0x31 && bytes[6] == 0x00 && bytes[7] == 0x00;
    if r {
        assert(bytes@.subrange(0, 8) =~= magic_bytes());
    } else {
        assert(bytes@.subrange(0, 8) != magic_bytes()) by {
            if bytes@.subrange(0, 8) == magic_bytes() {
                assert(bytes@[0] == bytes@.subrange(0, 8)[0]);
                assert(bytes@[1] == bytes@.subrange(0, 8)[1]);
                assert(bytes@[2] == bytes@.subrange(0, 8)[2]);
                assert(bytes@[3] == bytes@.subrange(0, 8)[3]);
                assert(bytes@[4] == bytes@.subrange(0, 8)[4]);
                assert(bytes@[5] == bytes@.subrange(0, 8)[5]);
                assert(bytes@[6] == bytes@.subrange(0, 8)[6]);
                assert(bytes@[7] == bytes@.subrange(0, 8)[7]);
            }
        }
    }
    r
}

/// Serialize a CPU, a bus, the frame counter and the device blobs into a
/// save state. The ROM is not included.
pub fn snapshot_state(cpu: &Cpu, bus: &Bus, frame_count: u64, devices: &DeviceStates) -> (out: Vec<u8>)
    ensures
        out@ == snapshot_bytes(cpu, bus@, frame_count, devices),
{
    let mut out: Vec<u8> = Vec::new();
    write_magic(&mut out);
    out.push(SNAPSHOT_VERSION);
    write_cpu(&mut out, cpu);
    write_bus(&mut out, bus, devices);
    w_u64(&mut out, frame_count);
    assert(out@ =~= snapshot_bytes(cpu, bus@, frame_count, devices));
    out
}

/// Restore a CPU, a bus and the frame counter from a save state made by
/// [`snapshot_state`], and hand back the device blobs it holds. It fails
/// on a state shorter than its header, with another magic header or
/// version, cut short, or made for an SRAM of another size.
pub fn restore_state(cpu: &mut Cpu, bus: &mut Bus, frame_count: &mut u64, bytes: &[u8]) -> (res: Result<DeviceStates, String>)
    requires
        old(bus).wf(),
    ensures
        res.is_ok() <==> snapshot_ok(bytes@, old(bus).cart.sram@.len()),
        res matches Ok(d) ==> state_restored_from(
            final(cpu),
            final(bus)@,
            *final(frame_count),
            &d,
            old(cpu),
            old(bus)@,
            bytes@,
        ),
        bytes@.len() < 9 ==> (res matches Err(e) && e@ == "snapshot: too short"@),
        bytes@.len() >= 9 && bytes@.subrange(0, 8) != magic_bytes() ==> (res matches Err(e) && e@
            == "snapshot: bad magic header"@),
        bytes@.len() >= 9 && bytes@.subrange(0, 8) == magic_bytes() && bytes@[8] != SNAPSHOT_VERSION
            ==> (res matches Err(e) && e@ == unsupported_version_text(bytes@[8])),
        bytes@.len() < 9 || bytes@.subrange(0, 8) != magic_bytes() || bytes@[8] != SNAPSHOT_VERSION
            ==> *final(cpu) == *old(cpu) && final(bus)@ == old(bus)@ && *final(frame_count) == *old(frame_count),
        res is Err ==> *final(frame_count) == *old(frame_count),
        cpu_same_unsaved(final(cpu), old(cpu)),
        same_cartridge(final(bus)@, old(bus)@),
        final(bus).wram@.len() == WRAM_SIZE,
{
    if bytes.len() < 9 {
        return Err("snapshot: too short".to_string());
    }
    if !has_magic(bytes) {
        return Err("snapshot: bad magic header".to_string());
    }
    if bytes[8] != SNAPSHOT_VERSION {
        return Err(unsupported_version_error(bytes[8]));
    }
    let mut r: &[u8] = &bytes[9..bytes.len()];
    assert(r@ =~= at_cpu(bytes@));
    read_cpu(&mut r, cpu)?;
    assert(r@ =~= at_bus(bytes@));
    let devices = read_bus(&mut r, bus)?;
    bus.master_clock = cpu.cycles;
    bus.last_apu_sync = cpu.cycles;
    *frame_count = r_u64(&mut r)?;
    Ok(devices)
}

// ─── Emulator ───────────────────────────────────────────────────────────

/// The machine state that a save state covers.
pub struct Emulator {
    pub cpu: Cpu,
    pub bus: Bus,
    pub frame_count: u64,
}

impl Emulator {
    /// Serialize the emulator, with the device blobs, into a save state.
    pub fn snapshot(&self, devices: &DeviceStates) -> (out: Vec<u8>)
        ensures
            out@ == snapshot_bytes(&self.cpu, self.bus@, self.frame_count, devices),
    {
        snapshot_state(&self.cpu, &self.bus, self.frame_count, devices)
    }

    /// Restore the emulator from a save state made by [`Emulator::snapshot`]
    /// and hand back its device blobs. The frame counter changes only when
    /// the whole state was read.
    pub fn restore_snapshot(&mut self, bytes: &[u8]) -> (res: Result<DeviceStates, String>)
        requires
            old(self).bus.wf(),
        ensures
            res.is_ok() <==> snapshot_ok(bytes@, old(self).bus.cart.sram@.len()),
            res matches Ok(d) ==> state_restored_from(
                &final(self).cpu,
                final(self).bus@,
                final(self).frame_count,
                &d,
                &old(self).cpu,
                old(self).bus@,
                bytes@,
            ),
            res is Err ==> final(self).frame_count == old(self).frame_count,
            cpu_same_unsaved(&final(self).cpu, &old(self).cpu),
            same_cartridge(final(self).bus@, old(self).bus@),
    {
        let mut fc = self.frame_count;
        let devices = restore_state(&mut self.cpu, &mut self.bus, &mut fc, bytes)?;
        self.frame_count = fc;
        Ok(devices)
    }
}

// ─── Laws ───────────────────────────────────────────────────────────────

/// A length-prefixed block decodes to its bytes, whatever follows.
pub proof fn lemma_blob_decodes(b: Seq<u8>, rest: Seq<u8>)
    requires
        b.len() <= u32::MAX,
    ensures
        blob_fits(blob_bytes(b) + rest),
        u32_at(blob_bytes(b) + rest, 0) == b.len(),
        blob_at(blob_bytes(b) + rest) == b,
        after_blob(blob_bytes(b) + rest) == rest,
{
    lemma_auto_spec_u32_to_from_le_bytes();
    let s = blob_bytes(b) + rest;
    assert(s.subrange(0, 4) =~= spec_u32_to_le_bytes(b.len() as u32));
    assert(blob_at(s) =~= b);
    assert(after_blob(s) =~= rest);
}

/// What restoring the state of bus `b` into bus `o` gives: `b`, with the
/// cartridge and scanline target of `o` and the APU clocks at `cycles`.
pub open spec fn restored_bus(b: BusState, o: BusState, cycles: u64) -> BusState {
    BusState {
        rom: o.rom,
        title: o.title,
        map_mode: o.map_mode,
        rom_size: o.rom_size,
        ram_size: o.ram_size,
        country: o.country,
        version: o.version,
        checksum: o.checksum,
        checksum_complement: o.checksum_complement,
        current_scanline_target: o.current_scanline_target,
        master_clock: cycles,
        last_apu_sync: cycles,
        ..b
    }
}

// Pieces of a bus record followed by `rest`, from the APU blob back to
// the SRAM block.
pub open spec fn tail_apu(d: &DeviceStates, rest: Seq<u8>) -> Seq<u8> {
    blob_bytes(d.apu@) + rest
}

pub open spec fn tail_joypad(d: &DeviceStates, rest: Seq<u8>) -> Seq<u8> {
    blob_bytes(d.joypad@) + tail_apu(d, rest)
}

pub open spec fn tail_dma(b: BusState, d: &DeviceStates, rest: Seq<u8>) -> Seq<u8> {
    crate::dma::channels_bytes(b.channels, 8) + tail_joypad(d, rest)
}

pub open spec fn tail_ppu(b: BusState, d: &DeviceStates, rest: Seq<u8>) -> Seq<u8> {
    blob_bytes(d.ppu@) + tail_dma(b, d, rest)
}

pub open spec fn tail_regs(b: BusState, d: &DeviceStates, rest: Seq<u8>) -> Seq<u8> {
    bus_regs_bytes(b) + tail_ppu(b, d, rest)
}

pub open spec fn tail_sram(b: BusState, d: &DeviceStates, rest: Seq<u8>) -> Seq<u8> {
    blob_bytes(b.sram) + tail_regs(b, d, rest)
}

proof fn lemma_bus_record_nested(b: BusState, d: &DeviceStates, rest: Seq<u8>)
    ensures
        bus_state_bytes(b, d) + rest == blob_bytes(b.wram) + tail_sram(b, d, rest),
{
    assert(bus_state_bytes(b, d) + rest =~= blob_bytes(b.wram) + tail_sram(b, d, rest));
}

/// A bus record followed by `rest` decodes, piece by piece, to the bus
/// and device blobs it records.
proof fn lemma_bus_record_layout(b: BusState, d: &DeviceStates, rest: Seq<u8>)
    requires
        b.wram.len() == WRAM_SIZE,
        b.sram.len() <= u32::MAX,
        d.ppu@.len() <= u32::MAX,
        d.joypad@.len() <= u32::MAX,
        d.apu@.len() <= u32::MAX,
    ensures
        bus_record_ok(bus_state_bytes(b, d) + rest, b.sram.len()),
        blob_at(bus_state_bytes(b, d) + rest) == b.wram,
        blob_at(after_wram(bus_state_bytes(b, d) + rest)) == b.sram,
        after_sram(bus_state_bytes(b, d) + rest) == tail_regs(b, d, rest),
        at_dma(bus_state_bytes(b, d) + rest) == tail_dma(b, d, rest),
        blob_at(at_ppu(bus_state_bytes(b, d) + rest)) == d.ppu@,
        blob_at(at_joypad(bus_state_bytes(b, d) + rest)) == d.joypad@,
        blob_at(at_apu(bus_state_bytes(b, d) + rest)) == d.apu@,
        after_bus(bus_state_bytes(b, d) + rest) == rest,
{
    let t = bus_state_bytes(b, d) + rest;
    lemma_bus_record_nested(b, d, rest);
    lemma_blob_decodes(b.wram, tail_sram(b, d, rest));
    lemma_blob_decodes(b.sram, tail_regs(b, d, rest));
    lemma_regs_record_decodes(b, b, tail_ppu(b, d, rest));
    lemma_blob_decodes(d.ppu@, tail_dma(b, d, rest));
    crate::dma::lemma_channels_record_decodes(b.channels, tail_joypad(d, rest));
    lemma_blob_decodes(d.joypad@, tail_apu(d, rest));
    lemma_blob_decodes(d.apu@, rest);
}

/// The parts of the save state of `cpu`, `bus`, `fc` and `d`.
proof fn lemma_snapshot_layout(cpu: &Cpu, bus: &Bus, fc: u64, d: &DeviceStates)
    requires
        bus.wf(),
        bus.cart.sram@.len() <= u32::MAX,
        d.ppu@.len() <= u32::MAX,
        d.joypad@.len() <= u32::MAX,
        d.apu@.len() <= u32::MAX,
    ensures
        snapshot_bytes(cpu, bus@, fc, d).len() >= 9,
        snapshot_bytes(cpu, bus@, fc, d).subrange(0, 8) == magic_bytes(),
        snapshot_bytes(cpu, bus@, fc, d)[8] == SNAPSHOT_VERSION,
        at_cpu(snapshot_bytes(cpu, bus@, fc, d)) == cpu_state_bytes(cpu) + (bus_state_bytes(bus@, d)
            + spec_u64_to_le_bytes(fc)),
        at_bus(snapshot_bytes(cpu, bus@, fc, d)) == bus_state_bytes(bus@, d) + spec_u64_to_le_bytes(fc),
{
    let b = bus@;
    let s = snapshot_bytes(cpu, b, fc, d);
    let rest = bus_state_bytes(b, d) + spec_u64_to_le_bytes(fc);
    lemma_auto_spec_u16_to_from_le_bytes();
    lemma_auto_spec_u64_to_from_le_bytes();
    assert(cpu_state_bytes(cpu).len() == CPU_STATE_LEN);
    assert(s =~= magic_bytes() + seq![SNAPSHOT_VERSION] + (cpu_state_bytes(cpu) + rest));
    assert(s.subrange(0, 8) =~= magic_bytes());
    assert(at_cpu(s) =~= cpu_state_bytes(cpu) + rest);
    assert(rest_from(at_cpu(s), CPU_STATE_LEN as int) =~= rest);
    lemma_rest_rest(s, 9, CPU_STATE_LEN as int);
}

/// A bus restored from a bus record holds what the record holds, and the
/// device blobs read with it are those that were written.
proof fn lemma_bus_record_roundtrip(
    b: BusState,
    d: &DeviceStates,
    rest: Seq<u8>,
    o: BusState,
    n: BusState,
    d2: &DeviceStates,
)
    requires
        b.wram.len() == WRAM_SIZE,
        b.channels.len() == 8,
        b.sram.len() <= u32::MAX,
        d.ppu@.len() <= u32::MAX,
        d.joypad@.len() <= u32::MAX,
        d.apu@.len() <= u32::MAX,
        bus_restored_from(n, o, bus_state_bytes(b, d) + rest),
        devices_restored_from(d2, bus_state_bytes(b, d) + rest),
    ensures
        n == (BusState { wram: b.wram, sram: b.sram, channels: b.channels, ..with_regs_of(o, b) }),
        d2.ppu@ == d.ppu@,
        d2.joypad@ == d.joypad@,
        d2.apu@ == d.apu@,
{
    lemma_bus_record_layout(b, d, rest);
    lemma_regs_record_decodes(o, b, tail_ppu(b, d, rest));
    crate::dma::lemma_channels_record_decodes(b.channels, tail_joypad(d, rest));
    assert(n.channels =~= b.channels);
}

/// A save state is accepted by every bus whose SRAM has the size of the
/// saved bus's SRAM.
pub proof fn lemma_snapshot_accepted(cpu: &Cpu, bus: &Bus, fc: u64, d: &DeviceStates)
    requires
        bus.wf(),
        bus.cart.sram@.len() <= u32::MAX,
        d.ppu@.len() <= u32::MAX,
        d.joypad@.len() <= u32::MAX,
        d.apu@.len() <= u32::MAX,
    ensures
        snapshot_ok(snapshot_bytes(cpu, bus@, fc, d), bus.cart.sram@.len()),
{
    let fcb = spec_u64_to_le_bytes(fc);
    lemma_snapshot_layout(cpu, bus, fc, d);
    lemma_bus_record_layout(bus@, d, fcb);
    lemma_le_decode_encode(0, 0, fc, Seq::empty());
}

/// Restoring a save state gives back what was saved: the CPU's recorded
/// registers, the bus's WRAM, SRAM, registers and DMA channels, the frame
/// counter and the device blobs. The restored bus keeps its own cartridge
/// and scanline target, and its APU clocks restart at the saved cycle
/// count.
pub proof fn lemma_snapshot_roundtrip(
    cpu: &Cpu,
    bus: &Bus,
    fc: u64,
    d: &DeviceStates,
    target_cpu: &Cpu,
    target: &Bus,
    cpu2: &Cpu,
    bus2: BusState,
    fc2: u64,
    d2: &DeviceStates,
)
    requires
        bus.wf(),
        bus.cart.sram@.len() <= u32::MAX,
        d.ppu@.len() <= u32::MAX,
        d.joypad@.len() <= u32::MAX,
        d.apu@.len() <= u32::MAX,
        state_restored_from(cpu2, bus2, fc2, d2, target_cpu, target@, snapshot_bytes(cpu, bus@, fc, d)),
    ensures
        cpu_same_saved(cpu2, cpu),
        cpu_same_unsaved(cpu2, target_cpu),
        bus2 == restored_bus(bus@, target@, cpu.cycles),
        fc2 == fc,
        d2.ppu@ == d.ppu@,
        d2.joypad@ == d.joypad@,
        d2.apu@ == d.apu@,
{
    let s = snapshot_bytes(cpu, bus@, fc, d);
    let fcb = spec_u64_to_le_bytes(fc);
    lemma_snapshot_layout(cpu, bus, fc, d);
    lemma_bus_record_layout(bus@, d, fcb);
    lemma_le_decode_encode(0, 0, fc, Seq::empty());
    assert(fcb + Seq::<u8>::empty() =~= fcb);
    lemma_cpu_record_decodes(cpu, cpu2, bus_state_bytes(bus@, d) + fcb);
    let o2 = BusState { master_clock: cpu2.cycles, last_apu_sync: cpu2.cycles, ..target@ };
    lemma_bus_record_roundtrip(bus@, d, fcb, o2, bus2, d2);
}

/// Saving a restored state gives back the save state it was restored from.
pub proof fn lemma_snapshot_idempotent(
    cpu: &Cpu,
    bus: &Bus,
    fc: u64,
    d: &DeviceStates,
    target_cpu: &Cpu,
    target: &Bus,
    cpu2: &Cpu,
    bus2: BusState,
    fc2: u64,
    d2: &DeviceStates,
)
    requires
        bus.wf(),
        bus.cart.sram@.len() <= u32::MAX,
        d.ppu@.len() <= u32::MAX,
        d.joypad@.len() <= u32::MAX,
        d.apu@.len() <= u32::MAX,
        state_restored_from(cpu2, bus2, fc2, d2, target_cpu, target@, snapshot_bytes(cpu, bus@, fc, d)),
    ensures
        snapshot_bytes(cpu2, bus2, fc2, d2) == snapshot_bytes(cpu, bus@, fc, d),
{
    lemma_snapshot_roundtrip(cpu, bus, fc, d, target_cpu, target, cpu2, bus2, fc2, d2);
    assert(cpu_state_bytes(cpu2) == cpu_state_bytes(cpu));
    assert(bus_state_bytes(bus2, d2) == bus_state_bytes(bus@, d));
}

} // verus!
