//! The eight DMA channels of the S-CPU.
//!
//! General DMA halts the CPU and moves data between the A-bus (ROM, WRAM)
//! and the B-bus (PPU and APU registers at `$2100-$21FF`); HDMA moves a few
//! bytes per scanline from a table.
use vstd::prelude::*;
use vstd::bytes::*;
use crate::snapshot::{w_u8, w_u16, w_bool, r_u8, r_u16, r_bool, u16_at, rest_from, bool_byte};

verus! {

#[derive(Clone, Copy)]
pub struct DmaChannel {
    /// `$43x0` — control: direction (bit 7), HDMA indirect (bit 6),
    /// A-bus decrement (bit 4), fixed A-bus address (bit 3), mode (bits 0-2).
    pub control: u8,
    /// `$43x1` — B-bus register (`$2100 + dest`).
    pub dest: u8,
    /// `$43x2-$43x3` — A-bus address (HDMA: table start).
    pub src_addr: u16,
    /// `$43x4` — A-bus bank (HDMA: table bank).
    pub src_bank: u8,
    /// `$43x5-$43x6` — byte count (HDMA: indirect data address).
    pub size: u16,
    /// `$43x7` — HDMA indirect bank.
    pub hdma_indirect_bank: u8,
    /// `$43x8-$43x9` — HDMA table current address.
    pub hdma_addr: u16,
    /// `$43xA` — HDMA line counter.
    pub hdma_line_counter: u8,
    /// `$43xB` (and `$43xF`) — unused, but readable and writable.
    pub unused: u8,
    /// The channel's HDMA table reached its `$00` terminator.
    pub hdma_terminated: bool,
    /// HDMA transfers data on the current scanline.
    pub hdma_do_transfer: bool,
}

pub open spec fn zero_channel() -> DmaChannel {
    DmaChannel {
        control: 0,
        dest: 0,
        src_addr: 0,
        src_bank: 0,
        size: 0,
        hdma_indirect_bank: 0,
        hdma_addr: 0,
        hdma_line_counter: 0,
        unused: 0,
        hdma_terminated: false,
        hdma_do_transfer: false,
    }
}

impl Default for DmaChannel {
    fn default() -> (c: Self)
        ensures
            c == zero_channel(),
    {
        DmaChannel {
            control: 0,
            dest: 0,
            src_addr: 0,
            src_bank: 0,
            size: 0,
            hdma_indirect_bank: 0,
            hdma_addr: 0,
            hdma_line_counter: 0,
            unused: 0,
            hdma_terminated: false,
            hdma_do_transfer: false,
        }
    }
}

pub struct Dma {
    pub channels: [DmaChannel; 8],
}

/// Channel addressed by a register address `$43xR`.
pub open spec fn channel_of(addr: u16) -> int {
    ((addr >> 4) & 0x07) as int
}

/// Register of a channel addressed by `$43xR`.
pub open spec fn reg_of(addr: u16) -> u16 {
    addr & 0x0F
}

/// Value read from register `reg` of a channel.
pub open spec fn channel_read(c: DmaChannel, reg: u16) -> u8 {
    if reg == 0x0 {
        c.control
    } else if reg == 0x1 {
        c.dest
    } else if reg == 0x2 {
        c.src_addr as u8
    } else if reg == 0x3 {
        (c.src_addr >> 8) as u8
    } else if reg == 0x4 {
        c.src_bank
    } else if reg == 0x5 {
        c.size as u8
    } else if reg == 0x6 {
        (c.size >> 8) as u8
    } else if reg == 0x7 {
        c.hdma_indirect_bank
    } else if reg == 0x8 {
        c.hdma_addr as u8
    } else if reg == 0x9 {
        (c.hdma_addr >> 8) as u8
    } else if reg == 0xA {
        c.hdma_line_counter
    } else if reg == 0xB || reg == 0xF {
        c.unused
    } else {
        0
    }
}

/// `w` with its low byte replaced by `v`.
pub open spec fn set_low(w: u16, v: u8) -> u16 {
    (w & 0xFF00) | v as u16
}

/// `w` with its high byte replaced by `v`.
pub open spec fn set_high(w: u16, v: u8) -> u16 {
    (w & 0x00FF) | ((v as u16) << 8)
}

/// A channel after writing `val` to its register `reg`.
pub open spec fn channel_write(c: DmaChannel, reg: u16, val: u8) -> DmaChannel {
    if reg == 0x0 {
        DmaChannel { control: val, ..c }
    } else if reg == 0x1 {
        DmaChannel { dest: val, ..c }
    } else if reg == 0x2 {
        DmaChannel { src_addr: set_low(c.src_addr, val), ..c }
    } else if reg == 0x3 {
        DmaChannel { src_addr: set_high(c.src_addr, val), ..c }
    } else if reg == 0x4 {
        DmaChannel { src_bank: val, ..c }
    } else if reg == 0x5 {
        DmaChannel { size: set_low(c.size, val), ..c }
    } else if reg == 0x6 {
        DmaChannel { size: set_high(c.size, val), ..c }
    } else if reg == 0x7 {
        DmaChannel { hdma_indirect_bank: val, ..c }
    } else if reg == 0x8 {
        DmaChannel { hdma_addr: set_low(c.hdma_addr, val), ..c }
    } else if reg == 0x9 {
        DmaChannel { hdma_addr: set_high(c.hdma_addr, val), ..c }
    } else if reg == 0xA {
        DmaChannel { hdma_line_counter: val, ..c }
    } else if reg == 0xB || reg == 0xF {
        DmaChannel { unused: val, ..c }
    } else {
        c
    }
}

/// Writing a register and reading it back gives the byte written, for
/// every register that is backed by storage (`$43x0-$43xB`, `$43xF`);
/// `$43xB` and `$43xF` are one register, so a write through either reads
/// back through both; `$43xC-$43xE` always read 0.
pub proof fn lemma_register_write_read(c: DmaChannel, reg: u16, val: u8)
    requires
        reg <= 0xB || reg == 0xF,
    ensures
        channel_read(channel_write(c, reg, val), reg) == val,
        reg == 0xB || reg == 0xF ==> channel_read(channel_write(c, reg, val), 0xB) == val && channel_read(
            channel_write(c, reg, val),
            0xF,
        ) == val,
        forall|r: u16| 0xC <= r <= 0xE ==> #[trigger] channel_read(channel_write(c, reg, val), r) == 0,
{
    let w = c.src_addr;
    let s = c.size;
    let h = c.hdma_addr;
    assert(set_low(w, val) as u8 == val && (set_high(w, val) >> 8) as u8 == val && set_low(s, val) as u8 == val && (
    set_high(s, val) >> 8) as u8 == val && set_low(h, val) as u8 == val && (set_high(h, val) >> 8) as u8 == val)
        by (bit_vector);
}

/// Writing one register leaves the other registers' read values alone.
pub proof fn lemma_register_write_other(c: DmaChannel, reg: u16, other: u16, val: u8)
    requires
        reg <= 0xF,
        other <= 0xF,
        reg != other,
        !((reg == 0xB || reg == 0xF) && (other == 0xB || other == 0xF)),
    ensures
        channel_read(channel_write(c, reg, val), other) == channel_read(c, other),
{
    let w = c.src_addr;
    let s = c.size;
    let h = c.hdma_addr;
    assert((set_low(w, val) >> 8) as u8 == (w >> 8) as u8 && set_high(w, val) as u8 == w as u8 && (set_low(s, val)
        >> 8) as u8 == (s >> 8) as u8 && set_high(s, val) as u8 == s as u8 && (set_low(h, val) >> 8) as u8 == (h
        >> 8) as u8 && set_high(h, val) as u8 == h as u8) by (bit_vector);
}

/// The 16-bit DMA registers, in arithmetic: `$43x2`/`$43x3` are the low
/// and high byte of the A-bus address, `$43x5`/`$43x6` of the byte count
/// and `$43x8`/`$43x9` of the HDMA table address. A write of `v` to a low
/// byte register keeps the high byte and makes the low byte `v`; a write
/// to a high byte register keeps the low byte and makes the high byte
/// `v`; reads give the low byte as `x mod 256` and the high byte as
/// `x / 256`. The 8-bit registers take the byte written, and every other
/// field of the channel stays as it was.
pub proof fn lemma_register_bytes(c: DmaChannel, v: u8)
    ensures
        channel_write(c, 0x2, v).src_addr as int == (c.src_addr as int / 256) * 256 + v,
        channel_write(c, 0x3, v).src_addr as int == v * 256 + c.src_addr as int % 256,
        channel_write(c, 0x5, v).size as int == (c.size as int / 256) * 256 + v,
        channel_write(c, 0x6, v).size as int == v * 256 + c.size as int % 256,
        channel_write(c, 0x8, v).hdma_addr as int == (c.hdma_addr as int / 256) * 256 + v,
        channel_write(c, 0x9, v).hdma_addr as int == v * 256 + c.hdma_addr as int % 256,
        channel_read(c, 0x2) as int == c.src_addr as int % 256,
        channel_read(c, 0x3) as int == c.src_addr as int / 256,
        channel_read(c, 0x5) as int == c.size as int % 256,
        channel_read(c, 0x6) as int == c.size as int / 256,
        channel_read(c, 0x8) as int == c.hdma_addr as int % 256,
        channel_read(c, 0x9) as int == c.hdma_addr as int / 256,
        channel_write(c, 0x0, v) == (DmaChannel { control: v, ..c }),
        channel_write(c, 0x1, v) == (DmaChannel { dest: v, ..c }),
        channel_write(c, 0x4, v) == (DmaChannel { src_bank: v, ..c }),
        channel_write(c, 0x7, v) == (DmaChannel { hdma_indirect_bank: v, ..c }),
        channel_write(c, 0xA, v) == (DmaChannel { hdma_line_counter: v, ..c }),
        channel_write(c, 0x2, v) == (DmaChannel { src_addr: channel_write(c, 0x2, v).src_addr, ..c }),
        channel_write(c, 0x3, v) == (DmaChannel { src_addr: channel_write(c, 0x3, v).src_addr, ..c }),
        channel_write(c, 0x5, v) == (DmaChannel { size: channel_write(c, 0x5, v).size, ..c }),
        channel_write(c, 0x6, v) == (DmaChannel { size: channel_write(c, 0x6, v).size, ..c }),
        channel_write(c, 0x8, v) == (DmaChannel { hdma_addr: channel_write(c, 0x8, v).hdma_addr, ..c }),
        channel_write(c, 0x9, v) == (DmaChannel { hdma_addr: channel_write(c, 0x9, v).hdma_addr, ..c }),
{
    lemma_word_bytes(c.src_addr, v, 0, 0);
    lemma_word_bytes(c.size, v, 0, 0);
    lemma_word_bytes(c.hdma_addr, v, 0, 0);
}

/// Byte arithmetic of a 16-bit register.
pub(crate) proof fn lemma_word_bytes(x: u16, v: u8, lo: u8, hi: u8)
    ensures
        set_low(x, v) as int == (x as int / 256) * 256 + v,
        set_high(x, v) as int == v * 256 + x as int % 256,
        x as u8 as int == x as int % 256,
        (x >> 8) as u8 as int == x as int / 256,
        set_high(set_low(x, lo), hi) as int == hi * 256 + lo,
        set_low(set_high(x, hi), lo) as int == hi * 256 + lo,
{
    assert(((x & 0xFF00) | v as u16) == (x / 256) * 256 + v as u16 && ((x & 0x00FF) | ((v as u16) << 8)) == (v
        as u16) * 256 + x % 256 && x as u8 == x % 256 && ((x >> 8) as u8) as u16 == x / 256 && ((((x & 0xFF00)
        | lo as u16) & 0x00FF) | ((hi as u16) << 8)) == (hi as u16) * 256 + lo as u16 && ((((x & 0x00FF) | ((
    hi as u16) << 8)) & 0xFF00) | lo as u16) == (hi as u16) * 256 + lo as u16) by (bit_vector);
}

/// Programming a 16-bit register as its two bytes, in either order, sets
/// it to `hi * 256 + lo`: the A-bus address through `$43x2`/`$43x3`, the
/// byte count through `$43x5`/`$43x6`, the table address through
/// `$43x8`/`$43x9`.
pub proof fn lemma_register_pairs(c: DmaChannel, lo: u8, hi: u8)
    ensures
        channel_write(channel_write(c, 0x2, lo), 0x3, hi).src_addr as int == hi * 256 + lo,
        channel_write(channel_write(c, 0x3, hi), 0x2, lo).src_addr as int == hi * 256 + lo,
        channel_write(channel_write(c, 0x5, lo), 0x6, hi).size as int == hi * 256 + lo,
        channel_write(channel_write(c, 0x6, hi), 0x5, lo).size as int == hi * 256 + lo,
        channel_write(channel_write(c, 0x8, lo), 0x9, hi).hdma_addr as int == hi * 256 + lo,
        channel_write(channel_write(c, 0x9, hi), 0x8, lo).hdma_addr as int == hi * 256 + lo,
{
    lemma_word_bytes(c.src_addr, 0, lo, hi);
    lemma_word_bytes(c.size, 0, lo, hi);
    lemma_word_bytes(c.hdma_addr, 0, lo, hi);
}

/// A register address `$43xR` (`$4300-$437F`) reaches register `R` of
/// channel `x`.
pub proof fn lemma_register_address(addr: u16)
    requires
        0x4300 <= addr <= 0x437F,
    ensures
        channel_of(addr) == (addr - 0x4300) / 16,
        reg_of(addr) == (addr - 0x4300) % 16,
{
    assert(((addr >> 4) & 0x07) == (addr - 0x4300) / 16 && addr & 0x0F == (addr - 0x4300) % 16) by (bit_vector)
        requires
            0x4300 <= addr <= 0x437F,
    ;
}

/// B-bus register offsets for each transfer unit, by mode.
pub const DMA_TRANSFER_PATTERNS: [[u8; 4]; 8] = [
    [0, 0, 0, 0],
    [0, 1, 0, 1],
    [0, 0, 0, 0],
    [0, 0, 1, 1],
    [0, 1, 2, 3],
    [0, 1, 0, 1],
    [0, 0, 0, 0],
    [0, 0, 1, 1],
];

/// Transfer unit length per mode.
pub const DMA_TRANSFER_SIZES: [u8; 8] = [1, 2, 2, 4, 4, 4, 2, 4];

/// Number of bytes of one channel's record in a save state.
pub const CHANNEL_STATE_LEN: usize = 14;

/// Number of bytes of the DMA record in a save state.
pub const DMA_STATE_LEN: usize = 112;

/// A channel's save-state record: its eleven registers in register order
/// (16-bit ones little-endian), then the two HDMA runtime flags.
pub open spec fn channel_bytes(c: DmaChannel) -> Seq<u8> {
    seq![c.control, c.dest] + spec_u16_to_le_bytes(c.src_addr) + seq![c.src_bank]
        + spec_u16_to_le_bytes(c.size) + seq![c.hdma_indirect_bank] + spec_u16_to_le_bytes(c.hdma_addr)
        + seq![c.hdma_line_counter, c.unused, bool_byte(c.hdma_terminated), bool_byte(c.hdma_do_transfer)]
}

/// The channel decoded from the record at the start of `s`.
pub open spec fn channel_from(s: Seq<u8>) -> DmaChannel {
    DmaChannel {
        control: s[0],
        dest: s[1],
        src_addr: u16_at(s, 2),
        src_bank: s[4],
        size: u16_at(s, 5),
        hdma_indirect_bank: s[7],
        hdma_addr: u16_at(s, 8),
        hdma_line_counter: s[10],
        unused: s[11],
        hdma_terminated: s[12] != 0,
        hdma_do_transfer: s[13] != 0,
    }
}

/// Records of the first `k` channels.
pub open spec fn channels_bytes(chs: Seq<DmaChannel>, k: nat) -> Seq<u8>
    decreases k,
{
    if k == 0 {
        Seq::empty()
    } else {
        channels_bytes(chs, (k - 1) as nat) + channel_bytes(chs[k - 1])
    }
}

/// The DMA record of a save state: the eight channel records in order.
pub open spec fn dma_state_bytes(d: &Dma) -> Seq<u8> {
    channels_bytes(d.channels@, 8)
}

/// The channels are those decoded from the DMA record at the start of `s`.
pub open spec fn dma_restored_from(d: &Dma, s: Seq<u8>) -> bool {
    forall|k: int| 0 <= k < 8 ==> #[trigger] d.channels@[k] == channel_from(
        s.subrange(k * CHANNEL_STATE_LEN, k * CHANNEL_STATE_LEN + CHANNEL_STATE_LEN),
    )
}

pub proof fn lemma_channel_record_decodes(c: DmaChannel, rest: Seq<u8>)
    ensures
        channel_bytes(c).len() == CHANNEL_STATE_LEN,
        channel_from(channel_bytes(c) + rest) == c,
{
    lemma_auto_spec_u16_to_from_le_bytes();
    let s = channel_bytes(c) + rest;
    assert(s.subrange(2, 4) =~= spec_u16_to_le_bytes(c.src_addr));
    assert(s.subrange(5, 7) =~= spec_u16_to_le_bytes(c.size));
    assert(s.subrange(8, 10) =~= spec_u16_to_le_bytes(c.hdma_addr));
}

proof fn lemma_channels_bytes_len(chs: Seq<DmaChannel>, k: nat)
    ensures
        channels_bytes(chs, k).len() == k * CHANNEL_STATE_LEN,
    decreases k,
{
    if k > 0 {
        lemma_channels_bytes_len(chs, (k - 1) as nat);
        lemma_channel_record_decodes(chs[k - 1], Seq::empty());
    }
}

proof fn lemma_channels_bytes_slot(chs: Seq<DmaChannel>, k: nat, j: int)
    requires
        0 <= j < k,
    ensures
        channels_bytes(chs, k).subrange(j * CHANNEL_STATE_LEN, j * CHANNEL_STATE_LEN + CHANNEL_STATE_LEN)
            == channel_bytes(chs[j]),
    decreases k,
{
    lemma_channels_bytes_len(chs, k);
    lemma_channels_bytes_len(chs, (k - 1) as nat);
    lemma_channel_record_decodes(chs[k - 1], Seq::empty());
    let prev = channels_bytes(chs, (k - 1) as nat);
    if j == k - 1 {
        assert(channels_bytes(chs, k).subrange(j * 14, j * 14 + 14) =~= channel_bytes(chs[j]));
    } else {
        lemma_channels_bytes_slot(chs, (k - 1) as nat, j);
        assert(channels_bytes(chs, k).subrange(j * 14, j * 14 + 14) =~= prev.subrange(j * 14, j * 14 + 14));
    }
}

/// The records of eight channels decode, slot by slot, to those channels,
/// whatever follows.
pub proof fn lemma_channels_record_decodes(chs: Seq<DmaChannel>, rest: Seq<u8>)
    ensures
        channels_bytes(chs, 8).len() == DMA_STATE_LEN,
        rest_from(channels_bytes(chs, 8) + rest, DMA_STATE_LEN as int) == rest,
        forall|k: int| 0 <= k < 8 ==> channel_from(
            #[trigger] (channels_bytes(chs, 8) + rest).subrange(k * 14, k * 14 + 14),
        ) == chs[k],
{
    let s = channels_bytes(chs, 8) + rest;
    lemma_channels_bytes_len(chs, 8);
    assert forall|k: int| 0 <= k < 8 implies channel_from(
        #[trigger] s.subrange(k * 14, k * 14 + 14),
    ) == chs[k] by {
        lemma_channels_bytes_slot(chs, 8, k);
        assert(s.subrange(k * 14, k * 14 + 14) =~= channels_bytes(chs, 8).subrange(k * 14, k * 14 + 14));
        lemma_channel_record_decodes(chs[k], Seq::empty());
        assert(channel_bytes(chs[k]) + Seq::<u8>::empty() =~= channel_bytes(chs[k]));
    }
    assert(rest_from(s, DMA_STATE_LEN as int) =~= rest);
}

/// The DMA record decodes to the channels it records, whatever follows.
pub proof fn lemma_dma_record_decodes(d: &Dma, e: &Dma, rest: Seq<u8>)
    requires
        dma_restored_from(e, dma_state_bytes(d) + rest),
    ensures
        e.channels@ == d.channels@,
        dma_state_bytes(d).len() == DMA_STATE_LEN,
        rest_from(dma_state_bytes(d) + rest, DMA_STATE_LEN as int) == rest,
{
    let s = dma_state_bytes(d) + rest;
    lemma_channels_bytes_len(d.channels@, 8);
    assert forall|k: int| 0 <= k < 8 implies e.channels@[k] == d.channels@[k] by {
        lemma_channels_bytes_slot(d.channels@, 8, k);
        assert(s.subrange(k * 14, k * 14 + 14) =~= dma_state_bytes(d).subrange(k * 14, k * 14 + 14));
        lemma_channel_record_decodes(d.channels@[k], Seq::empty());
        assert(channel_bytes(d.channels@[k]) + Seq::<u8>::empty() =~= channel_bytes(d.channels@[k]));
    }
    assert(e.channels@ =~= d.channels@);
    assert(rest_from(s, DMA_STATE_LEN as int) =~= rest);
}

impl Dma {
    pub fn new() -> (d: Self)
        ensures
            forall|k: int| 0 <= k < 8 ==> d.channels@[k] == zero_channel(),
    {
        let c = DmaChannel::default();
        Self { channels: [c, c, c, c, c, c, c, c] }
    }

    /// Read a DMA register (`$4300-$437F`): channel `(addr >> 4) & 7`,
    /// register `addr & $F`; registers `$43xC-$43xE` read 0.
    pub fn read(&self, addr: u16) -> (v: u8)
        ensures
            v == channel_read(self.channels@[channel_of(addr)], reg_of(addr)),
    {
        let ch = ((addr >> 4) & 0x07) as usize;
        let reg = addr & 0x0F;
        assert((addr >> 4) & 0x07 < 8) by (bit_vector);
        let c = &self.channels[ch];
        if reg == 0x0 {
            c.control
        } else if reg == 0x1 {
            c.dest
        } else if reg == 0x2 {
            c.src_addr as u8
        } else if reg == 0x3 {
            (c.src_addr >> 8) as u8
        } else if reg == 0x4 {
            c.src_bank
        } else if reg == 0x5 {
            c.size as u8
        } else if reg == 0x6 {
            (c.size >> 8) as u8
        } else if reg == 0x7 {
            c.hdma_indirect_bank
        } else if reg == 0x8 {
            c.hdma_addr as u8
        } else if reg == 0x9 {
            (c.hdma_addr >> 8) as u8
        } else if reg == 0xA {
            c.hdma_line_counter
        } else if reg == 0xB || reg == 0xF {
            c.unused
        } else {
            0
        }
    }

    /// Write a DMA register (`$4300-$437F`); writes to `$43xC-$43xE` are
    /// ignored.
    pub fn write(&mut self, addr: u16, val: u8)
        ensures
            final(self).channels@ == old(self).channels@.update(
                channel_of(addr),
                channel_write(old(self).channels@[channel_of(addr)], reg_of(addr), val),
            ),
    {
        let ch = ((addr >> 4) & 0x07) as usize;
        let reg = addr & 0x0F;
        assert((addr >> 4) & 0x07 < 8) by (bit_vector);
        let mut c = self.channels[ch];
        if reg == 0x0 {
            c.control = val;
        } else if reg == 0x1 {
            c.dest = val;
        } else if reg == 0x2 {
            c.src_addr = (c.src_addr & 0xFF00) | val as u16;
        } else if reg == 0x3 {
            c.src_addr = (c.src_addr & 0x00FF) | ((val as u16) << 8);
        } else if reg == 0x4 {
            c.src_bank = val;
        } else if reg == 0x5 {
            c.size = (c.size & 0xFF00) | val as u16;
        } else if reg == 0x6 {
            c.size = (c.size & 0x00FF) | ((val as u16) << 8);
        } else if reg == 0x7 {
            c.hdma_indirect_bank = val;
        } else if reg == 0x8 {
            c.hdma_addr = (c.hdma_addr & 0xFF00) | val as u16;
        } else if reg == 0x9 {
            c.hdma_addr = (c.hdma_addr & 0x00FF) | ((val as u16) << 8);
        } else if reg == 0xA {
            c.hdma_line_counter = val;
        } else if reg == 0xB || reg == 0xF {
            c.unused = val;
        }
        self.channels[ch] = c;
    }

    /// Append one channel record.
    fn write_channel(out: &mut Vec<u8>, c: DmaChannel)
        ensures
            final(out)@ == old(out)@ + channel_bytes(c),
    {
        w_u8(out, c.control);
        w_u8(out, c.dest);
        w_u16(out, c.src_addr);
        w_u8(out, c.src_bank);
        w_u16(out, c.size);
        w_u8(out, c.hdma_indirect_bank);
        w_u16(out, c.hdma_addr);
        w_u8(out, c.hdma_line_counter);
        w_u8(out, c.unused);
        w_bool(out, c.hdma_terminated);
        w_bool(out, c.hdma_do_transfer);
        assert(out@ =~= old(out)@ + channel_bytes(c));
    }

    /// Append the DMA record of a save state.
    pub fn snapshot_write(&self, out: &mut Vec<u8>)
        ensures
            final(out)@ == old(out)@ + dma_state_bytes(self),
    {
        let ghost start = out@;
        let mut k: usize = 0;
        while k < 8
            invariant
                k <= 8,
                out@ == start + channels_bytes(self.channels@, k as nat),
            decreases 8 - k,
        {
            Self::write_channel(out, self.channels[k]);
            k = k + 1;
            assert(channels_bytes(self.channels@, k as nat)
                == channels_bytes(self.channels@, (k - 1) as nat) + channel_bytes(self.channels@[k - 1]));
            assert(out@ =~= start + channels_bytes(self.channels@, k as nat));
        }
    }

    /// Read one channel record.
    fn read_channel(r: &mut &[u8]) -> (res: Result<DmaChannel, String>)
        ensures
            res.is_ok() <==> old(r)@.len() >= CHANNEL_STATE_LEN,
            res matches Ok(c) ==> c == channel_from(old(r)@)
                && final(r)@ == rest_from(old(r)@, CHANNEL_STATE_LEN as int),
    {
        let ghost s = r@;
        let control = r_u8(r)?;
        let dest = r_u8(r)?;
        assert(r@ =~= rest_from(s, 2));
        let src_addr = r_u16(r)?;
        assert(r@ =~= rest_from(s, 4));
        assert(rest_from(s, 2).subrange(0, 2) =~= s.subrange(2, 4));
        let src_bank = r_u8(r)?;
        assert(r@ =~= rest_from(s, 5));
        let size = r_u16(r)?;
        assert(r@ =~= rest_from(s, 7));
        assert(rest_from(s, 5).subrange(0, 2) =~= s.subrange(5, 7));
        let hdma_indirect_bank = r_u8(r)?;
        assert(r@ =~= rest_from(s, 8));
        let hdma_addr = r_u16(r)?;
        assert(r@ =~= rest_from(s, 10));
        assert(rest_from(s, 8).subrange(0, 2) =~= s.subrange(8, 10));
        let hdma_line_counter = r_u8(r)?;
        let unused = r_u8(r)?;
        let hdma_terminated = r_bool(r)?;
        let hdma_do_transfer = r_bool(r)?;
        assert(r@ =~= rest_from(s, 14));
        Ok(DmaChannel {
            control,
            dest,
            src_addr,
            src_bank,
            size,
            hdma_indirect_bank,
            hdma_addr,
            hdma_line_counter,
            unused,
            hdma_terminated,
            hdma_do_transfer,
        })
    }

    /// Read the DMA record: succeeds exactly when 112 bytes are left, and
    /// then sets all eight channels from them.
    pub fn snapshot_read(&mut self, r: &mut &[u8]) -> (res: Result<(), String>)
        ensures
            res.is_ok() <==> old(r)@.len() >= DMA_STATE_LEN,
            res is Ok ==> dma_restored_from(final(self), old(r)@)
                && final(r)@ == rest_from(old(r)@, DMA_STATE_LEN as int),
    {
        let ghost s = r@;
        let mut k: usize = 0;
        while k < 8
            invariant
                k <= 8,
                s == old(r)@,
                s.len() >= k * CHANNEL_STATE_LEN,
                r@ == rest_from(s, k * CHANNEL_STATE_LEN),
                forall|j: int| 0 <= j < k ==> #[trigger] self.channels@[j] == channel_from(
                    s.subrange(j * CHANNEL_STATE_LEN, j * CHANNEL_STATE_LEN + CHANNEL_STATE_LEN),
                ),
            decreases 8 - k,
        {
            let c = match Self::read_channel(r) {
                Ok(c) => c,
                Err(e) => {
                    assert(s.len() < DMA_STATE_LEN) by {
                        assert(rest_from(s, k * CHANNEL_STATE_LEN).len() == s.len() - k * CHANNEL_STATE_LEN);
                    }
                    return Err(e);
                },
            };
            proof {
                let lo = k * CHANNEL_STATE_LEN;
                assert(rest_from(s, lo).subrange(0, 14) =~= s.subrange(lo as int, lo + 14));
                assert forall|i: int| 0 <= i < 14 implies #[trigger] rest_from(s, lo)[i] == s.subrange(lo as int, lo + 14)[i] by {}
                assert(channel_from(rest_from(s, lo)) == channel_from(s.subrange(lo as int, lo + 14))) by {
                    let a = rest_from(s, lo);
                    let b = s.subrange(lo as int, lo + 14);
                    assert(a.subrange(2, 4) =~= b.subrange(2, 4));
                    assert(a.subrange(5, 7) =~= b.subrange(5, 7));
                    assert(a.subrange(8, 10) =~= b.subrange(8, 10));
                }
                assert(rest_from(rest_from(s, lo), 14) =~= rest_from(s, lo + 14));
            }
            self.channels[k] = c;
            k = k + 1;
        }
        Ok(())
    }
}

} // verus!
