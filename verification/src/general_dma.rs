//! General-purpose DMA: channels moving bytes between the A-bus and the
//! B-bus through the bus's own read and write dispatch.
//!
//! The model of a transfer is a fold over its bytes: each byte is a read
//! on one bus and a write of the byte read on the other, after which the
//! channel's A-bus address steps. Where a peripheral answers a read, the
//! byte is whatever it gave; the model takes those bytes as a parameter.
use vstd::prelude::*;
use crate::bus::{
    Bus, BusState, BusTarget, Peripherals, bus_target, read_state, read_value, write_state, read_outcome, write_outcome,
    cpu_register_read_state, cpu_register_write_state, synced, dma_count, advanced_addr, after_transfer, enabled,
    a_to_b_only, units_before, channels_after_dma, general_dma_post, dma_room, pure_memory,
    lemma_read_state_frame, lemma_write_state_frame, lemma_b_bus_write_keeps_channels,
    lemma_pure_memory_reads_are_pure, lemma_wram_port_stays_17_bit, IoRequest, read_calls, write_calls, data_calls,
    calls_extend, lemma_data_calls_of_access, lemma_calls_extend_trans, lemma_calls_append,
    read_requests, write_requests,
};
use crate::dma::{DmaChannel, DMA_TRANSFER_PATTERNS, DMA_TRANSFER_SIZES};

verus! {

/// The bus model without its cycle counters (master clock, APU sync point,
/// pending DMA cycles), which DMA accounts for on its own.
pub open spec fn without_clocks(s: BusState) -> BusState {
    BusState { master_clock: 0, last_apu_sync: 0, pending_dma_cycles: 0, ..s }
}

/// Bytes per transfer unit of a DMA mode (`DMA_TRANSFER_SIZES`).
pub open spec fn unit_size(mode: int) -> int {
    if mode == 0 {
        1
    } else if mode == 1 || mode == 2 || mode == 6 {
        2
    } else {
        4
    }
}

/// B-bus register offset of byte `i` of a unit in a DMA mode
/// (`DMA_TRANSFER_PATTERNS`).
pub open spec fn unit_offset(mode: int, i: int) -> int {
    if mode == 1 || mode == 5 {
        if i == 1 || i == 3 { 1 } else { 0 }
    } else if mode == 3 || mode == 7 {
        if i >= 2 { 1 } else { 0 }
    } else if mode == 4 {
        i
    } else {
        0
    }
}

/// B-bus address of byte `k` of a transfer on channel `c`.
pub open spec fn dma_b_addr(c: DmaChannel, k: int) -> u16 {
    let mode = (c.control & 0x07) as int;
    (0x2100 + c.dest as int + unit_offset(mode, k % unit_size(mode))) as u16
}

/// Where the bytes of a transfer go on the B-bus, by the mode in control
/// bits 0-2 (`$21xx` being the channel's destination register): modes 0,
/// 2 and 6 send every byte to `$21xx`; modes 1 and 5 alternate `$21xx`,
/// `$21xx+1`; modes 3 and 7 send two bytes to each of `$21xx`, `$21xx+1`
/// in turn; mode 4 cycles through `$21xx` to `$21xx+3`.
pub proof fn lemma_b_bus_pattern(c: DmaChannel, k: nat)
    ensures
        ({
            let mode = c.control & 0x07;
            let base = 0x2100 + c.dest as int;
            &&& (mode == 0 || mode == 2 || mode == 6) ==> dma_b_addr(c, k as int) == base
            &&& (mode == 1 || mode == 5) ==> dma_b_addr(c, k as int) == base + k % 2
            &&& (mode == 3 || mode == 7) ==> dma_b_addr(c, k as int) == base + (k % 4) / 2
            &&& mode == 4 ==> dma_b_addr(c, k as int) == base + k % 4
        }),
{
    vstd::arithmetic::div_mod::lemma_mod_bound(k as int, 4);
    vstd::arithmetic::div_mod::lemma_mod_bound(k as int, 2);
    vstd::arithmetic::div_mod::lemma_mod_mod(k as int, 2, 2);
    assert((k % 4) % 2 == k % 2) by {
        vstd::arithmetic::div_mod::lemma_mod_mod(k as int, 2, 2);
        vstd::arithmetic::div_mod::lemma_fundamental_div_mod(k as int, 4);
        vstd::arithmetic::div_mod::lemma_fundamental_div_mod(k as int, 2);
        vstd::arithmetic::div_mod::lemma_fundamental_div_mod(k as int % 4, 2);
        vstd::arithmetic::div_mod::lemma_mod_multiples_vanish((k as int / 4) * 2, k as int % 4, 2);
        assert(k as int == (k as int / 4) * 2 * 2 + k as int % 4) by (nonlinear_arith)
            requires
                k as int == 4 * (k as int / 4) + k as int % 4,
        ;
    }
}

/// The channel moves B-bus to A-bus (control bit 7).
pub open spec fn b_to_a(c: DmaChannel) -> bool {
    c.control & 0x80 != 0
}

/// Bus model after one DMA byte on channel `ch` between B-bus address
/// `b_addr` and the A-bus address in the channel's registers, `v` being
/// the byte read: a read and a write through the ordinary dispatch.
#[verifier::opaque]
pub open spec fn dma_moved(s: BusState, ch: int, b_addr: u16, to_a: bool, v: u8) -> BusState {
    let a = s.channels[ch];
    if to_a {
        write_state(read_state(s, 0, b_addr), a.src_bank, a.src_addr, v)
    } else {
        write_state(read_state(s, a.src_bank, a.src_addr), 0, b_addr, v)
    }
}

/// The byte that read yields when the bus itself answers it.
#[verifier::opaque]
pub open spec fn dma_move_read(s: BusState, ch: int, b_addr: u16, to_a: bool) -> Option<u8> {
    let a = s.channels[ch];
    if to_a {
        read_value(s, 0, b_addr)
    } else {
        read_value(s, a.src_bank, a.src_addr)
    }
}

/// Bus model after byte `k` of a transfer on channel `ch` that started
/// with registers `c`: the byte is moved, then the A-bus address steps as
/// `c` says (fixed, down or up).
pub open spec fn dma_unit(s: BusState, ch: int, c: DmaChannel, k: int, v: u8) -> BusState {
    let moved = dma_moved(s, ch, dma_b_addr(c, k), b_to_a(c), v);
    let m = moved.channels[ch];
    let next = if c.control & 0x08 != 0 {
        m.src_addr
    } else if c.control & 0x10 != 0 {
        m.src_addr.wrapping_sub(1)
    } else {
        m.src_addr.wrapping_add(1)
    };
    BusState { channels: moved.channels.update(ch, DmaChannel { src_addr: next, ..m }), ..moved }
}

/// Bus model, without clocks, after the first `k` bytes of a transfer on
/// channel `ch` that started with registers `c`, the reads giving `vals`.
pub open spec fn dma_units(s: BusState, ch: int, c: DmaChannel, vals: Seq<u8>, k: nat) -> BusState
    decreases k,
{
    if k == 0 {
        s
    } else {
        without_clocks(dma_unit(dma_units(s, ch, c, vals, (k - 1) as nat), ch, c, k - 1, vals[k - 1]))
    }
}

/// `vals` holds the bytes of the first `n` reads of that transfer: where
/// the bus itself answered a read, the byte is what it answered.
pub open spec fn dma_reads_ok(s: BusState, ch: int, c: DmaChannel, vals: Seq<u8>, n: nat) -> bool {
    &&& vals.len() == n
    &&& forall|k: nat| #![trigger dma_units(s, ch, c, vals, k)] k < n ==> (dma_move_read(
        dma_units(s, ch, c, vals, k),
        ch,
        dma_b_addr(c, k as int),
        b_to_a(c),
    ) matches Some(x) ==> vals[k as int] == x)
}

/// Bus model, without clocks, after channel `ch` moved all its bytes and
/// its size register went to 0.
pub open spec fn dma_channel_done(s: BusState, ch: int, vals: Seq<u8>) -> BusState {
    let c = s.channels[ch];
    let t = dma_units(s, ch, c, vals, dma_count(c) as nat);
    BusState { channels: t.channels.update(ch, DmaChannel { size: 0, ..t.channels[ch] }), ..t }
}

/// Bus model, without clocks, after the enabled channels among the first
/// `k` transferred in order, channel `j` reading `vals[j]`.
pub open spec fn dma_channels(s: BusState, mask: u8, vals: Seq<Seq<u8>>, k: nat) -> BusState
    decreases k,
{
    if k == 0 {
        s
    } else {
        let p = dma_channels(s, mask, vals, (k - 1) as nat);
        if enabled(mask, k - 1) {
            dma_channel_done(p, k - 1, vals[k - 1])
        } else {
            p
        }
    }
}

/// `vals[j]` holds the bytes each enabled channel `j < n` read.
pub open spec fn dma_all_reads_ok(s: BusState, mask: u8, vals: Seq<Seq<u8>>, n: nat) -> bool {
    forall|k: nat| #![trigger dma_channels(s, mask, vals, k)] k < n && enabled(mask, k as int) ==> {
        let p = dma_channels(s, mask, vals, k);
        dma_reads_ok(p, k as int, p.channels[k as int], vals[k as int], dma_count(p.channels[k as int]) as nat)
    }
}

/// Bytes moved by the enabled channels among the first `k`, each counted
/// from its registers when its transfer starts.
pub open spec fn units_done(s: BusState, mask: u8, vals: Seq<Seq<u8>>, k: nat) -> int
    decreases k,
{
    if k == 0 {
        0
    } else {
        units_done(s, mask, vals, (k - 1) as nat) + if enabled(mask, k - 1) {
            dma_count(dma_channels(s, mask, vals, (k - 1) as nat).channels[k - 1])
        } else {
            0
        }
    }
}

/// `new` is `old` after a general DMA whose reads gave `vals`: apart from
/// the cycle counters, the bus is what moving every byte through the
/// ordinary read and write dispatch gives, and the master clock advanced
/// by 8 master cycles per byte moved.
pub open spec fn dma_data_moved(old: BusState, new: BusState, mask: u8, vals: Seq<Seq<u8>>) -> bool {
    &&& vals.len() == 8
    &&& dma_all_reads_ok(without_clocks(old), mask, vals, 8)
    &&& without_clocks(new) == dma_channels(without_clocks(old), mask, vals, 8)
    &&& new.master_clock - old.master_clock == 8 * units_done(without_clocks(old), mask, vals, 8)
}

/// A transfer keeps the WRAM port address within 17 bits.
proof fn lemma_units_wram_port(s: BusState, ch: int, c: DmaChannel, vals: Seq<u8>, k: nat)
    requires
        s.wram_addr <= 0x1FFFF,
    ensures
        dma_units(s, ch, c, vals, k).wram_addr <= 0x1FFFF,
    decreases k,
{
    if k > 0 {
        lemma_units_wram_port(s, ch, c, vals, (k - 1) as nat);
        let p = dma_units(s, ch, c, vals, (k - 1) as nat);
        let a = p.channels[ch];
        let b = dma_b_addr(c, k - 1);
        let v = vals[k - 1];
        reveal(dma_moved);
        lemma_wram_port_stays_17_bit(p, 0, b, v);
        lemma_wram_port_stays_17_bit(p, a.src_bank, a.src_addr, v);
        lemma_wram_port_stays_17_bit(read_state(p, 0, b), a.src_bank, a.src_addr, v);
        lemma_wram_port_stays_17_bit(read_state(p, a.src_bank, a.src_addr), 0, b, v);
    }
}

/// A general DMA keeps the WRAM port address within 17 bits.
proof fn lemma_channels_wram_port(s: BusState, mask: u8, vals: Seq<Seq<u8>>, k: nat)
    requires
        s.wram_addr <= 0x1FFFF,
    ensures
        dma_channels(s, mask, vals, k).wram_addr <= 0x1FFFF,
    decreases k,
{
    if k > 0 {
        lemma_channels_wram_port(s, mask, vals, (k - 1) as nat);
        let p = dma_channels(s, mask, vals, (k - 1) as nat);
        lemma_units_wram_port(p, k - 1, p.channels[k - 1], vals[k - 1], dma_count(p.channels[k - 1]) as nat);
    }
}

/// The calls, catch-ups aside, that moving one DMA byte `v` on channel
/// `ch` between B-bus address `b_addr` and the channel's A-bus address
/// makes: those of the read, then those of the write.
pub open spec fn move_calls(s: BusState, ch: int, b_addr: u16, to_a: bool, v: u8) -> Seq<IoRequest> {
    let a = s.channels[ch];
    if to_a {
        read_calls(bus_target(s.map_mode, 0, b_addr), v) + write_calls(bus_target(s.map_mode, a.src_bank, a.src_addr), v)
    } else {
        read_calls(bus_target(s.map_mode, a.src_bank, a.src_addr), v) + write_calls(bus_target(s.map_mode, 0, b_addr), v)
    }
}

/// The calls, catch-ups aside, of the first `k` bytes of a transfer on
/// channel `ch` that started with registers `c`, the reads giving `vals`.
pub open spec fn units_calls(s: BusState, ch: int, c: DmaChannel, vals: Seq<u8>, k: nat) -> Seq<IoRequest>
    decreases k,
{
    if k == 0 {
        Seq::empty()
    } else {
        units_calls(s, ch, c, vals, (k - 1) as nat) + move_calls(
            dma_units(s, ch, c, vals, (k - 1) as nat),
            ch,
            dma_b_addr(c, k - 1),
            b_to_a(c),
            vals[k - 1],
        )
    }
}

/// The calls, catch-ups aside, of the enabled channels among the first
/// `k`, in channel order.
pub open spec fn channels_calls(s: BusState, mask: u8, vals: Seq<Seq<u8>>, k: nat) -> Seq<IoRequest>
    decreases k,
{
    if k == 0 {
        Seq::empty()
    } else {
        let p = dma_channels(s, mask, vals, (k - 1) as nat);
        channels_calls(s, mask, vals, (k - 1) as nat) + if enabled(mask, k - 1) {
            units_calls(p, k - 1, p.channels[k - 1], vals[k - 1], dma_count(p.channels[k - 1]) as nat)
        } else {
            Seq::empty()
        }
    }
}

/// The peripherals' calls go from `before` to `after` in a general DMA
/// from `old` to `new` with enable mask `mask`: the calls are only
/// appended, and, the APU catch-ups aside, they are those of reading and
/// writing every byte moved through the ordinary dispatch, in order, the
/// reads giving the bytes that move the bus from `old` to `new`.
pub open spec fn dma_calls_made(
    old: BusState,
    new: BusState,
    mask: u8,
    before: Seq<IoRequest>,
    after: Seq<IoRequest>,
) -> bool {
    exists|vals: Seq<Seq<u8>>|
        #[trigger] dma_data_moved(old, new, mask, vals) && calls_extend(
            before,
            after,
            channels_calls(without_clocks(old), mask, vals, 8),
        )
}

proof fn lemma_cpu_register_write_ignores_clocks(s: BusState, a: u16, val: u8)
    ensures
        without_clocks(cpu_register_write_state(without_clocks(s), a, val)) == without_clocks(
            cpu_register_write_state(s, a, val),
        ),
        cpu_register_write_state(s, a, val).channels == s.channels,
        cpu_register_write_state(s, a, val).map_mode == s.map_mode,
{
}

proof fn lemma_read_outcome_ignores_clocks(s: BusState, t: BusTarget, bank: u8, addr: u16)
    ensures
        read_outcome(without_clocks(s), t, bank, addr).1 == read_outcome(s, t, bank, addr).1,
        without_clocks(read_outcome(without_clocks(s), t, bank, addr).0) == without_clocks(
            read_outcome(s, t, bank, addr).0,
        ),
        read_outcome(s, t, bank, addr).0.channels == s.channels,
        read_outcome(s, t, bank, addr).0.map_mode == s.map_mode,
{
    let w = without_clocks(s);
    match t {
        BusTarget::CpuRegister(a) => {
            assert(without_clocks(cpu_register_read_state(w, a)) == without_clocks(cpu_register_read_state(s, a)));
        },
        BusTarget::WmData => {},
        BusTarget::ApuPort(_) => {
            assert(without_clocks(synced(w)) == without_clocks(synced(s)));
        },
        _ => {
            assert(read_outcome(s, t, bank, addr).0 == s);
            assert(read_outcome(w, t, bank, addr).0 == w);
        },
    }
}

proof fn lemma_write_outcome_ignores_clocks(s: BusState, t: BusTarget, val: u8)
    ensures
        without_clocks(write_outcome(without_clocks(s), t, val)) == without_clocks(write_outcome(s, t, val)),
        write_outcome(s, t, val).map_mode == s.map_mode,
{
    let w = without_clocks(s);
    match t {
        BusTarget::CpuRegister(a) => {
            lemma_cpu_register_write_ignores_clocks(s, a, val);
        },
        BusTarget::ApuPort(_) => {
            assert(without_clocks(synced(w)) == without_clocks(synced(s)));
        },
        BusTarget::Wram(_) => {},
        BusTarget::WmData => {},
        BusTarget::WmAddL => {},
        BusTarget::WmAddM => {},
        BusTarget::WmAddH => {},
        BusTarget::DmaRegister(_) => {},
        BusTarget::Sram(_) => {},
        _ => {
            assert(write_outcome(s, t, val) == s);
            assert(write_outcome(w, t, val) == w);
        },
    }
}

/// The first `k` bytes of a transfer depend on the first `k` bytes read only.
proof fn lemma_units_prefix(s: BusState, ch: int, c: DmaChannel, vals: Seq<u8>, vals2: Seq<u8>, k: nat)
    requires
        k <= vals.len(),
        k <= vals2.len(),
        forall|j: int| 0 <= j < k ==> vals[j] == vals2[j],
    ensures
        dma_units(s, ch, c, vals, k) == dma_units(s, ch, c, vals2, k),
        units_calls(s, ch, c, vals, k) == units_calls(s, ch, c, vals2, k),
    decreases k,
{
    if k > 0 {
        lemma_units_prefix(s, ch, c, vals, vals2, (k - 1) as nat);
    }
}

/// Extending the bytes read by one byte that the next read could give
/// extends the transfer by one byte.
proof fn lemma_units_extend(s: BusState, ch: int, c: DmaChannel, vals: Seq<u8>, v: u8, k: nat)
    requires
        dma_reads_ok(s, ch, c, vals, k),
        dma_move_read(dma_units(s, ch, c, vals, k), ch, dma_b_addr(c, k as int), b_to_a(c)) matches Some(x) ==> v == x,
    ensures
        dma_reads_ok(s, ch, c, vals.push(v), k + 1),
        dma_units(s, ch, c, vals.push(v), k + 1) == without_clocks(dma_unit(dma_units(s, ch, c, vals, k), ch, c, k as int, v)),
        units_calls(s, ch, c, vals.push(v), k + 1) == units_calls(s, ch, c, vals, k) + move_calls(
            dma_units(s, ch, c, vals, k),
            ch,
            dma_b_addr(c, k as int),
            b_to_a(c),
            v,
        ),
{
    let vals2 = vals.push(v);
    lemma_units_prefix(s, ch, c, vals, vals2, k);
    assert forall|j: nat| #![trigger dma_units(s, ch, c, vals2, j)] j < k + 1 implies (dma_move_read(
        dma_units(s, ch, c, vals2, j),
        ch,
        dma_b_addr(c, j as int),
        b_to_a(c),
    ) matches Some(x) ==> vals2[j as int] == x) by {
        lemma_units_prefix(s, ch, c, vals, vals2, j);
        if j < k {
            assert(dma_units(s, ch, c, vals, j) == dma_units(s, ch, c, vals2, j));
        }
    }
}

/// The first `k` channels depend on the bytes read by those channels only.
proof fn lemma_channels_prefix(s: BusState, mask: u8, vals: Seq<Seq<u8>>, vals2: Seq<Seq<u8>>, k: nat)
    requires
        k <= vals.len(),
        k <= vals2.len(),
        forall|j: int| 0 <= j < k ==> vals[j] == vals2[j],
    ensures
        dma_channels(s, mask, vals, k) == dma_channels(s, mask, vals2, k),
        units_done(s, mask, vals, k) == units_done(s, mask, vals2, k),
        channels_calls(s, mask, vals, k) == channels_calls(s, mask, vals2, k),
    decreases k,
{
    if k > 0 {
        lemma_channels_prefix(s, mask, vals, vals2, (k - 1) as nat);
    }
}

/// Recording the bytes that enabled channel `k` read extends the run by
/// that channel.
proof fn lemma_channels_extend(s: BusState, mask: u8, all: Seq<Seq<u8>>, vals: Seq<u8>, k: nat)
    requires
        k < 8,
        all.len() == 8,
        enabled(mask, k as int),
        dma_all_reads_ok(s, mask, all, k),
        ({
            let p = dma_channels(s, mask, all, k);
            dma_reads_ok(p, k as int, p.channels[k as int], vals, dma_count(p.channels[k as int]) as nat)
        }),
    ensures
        dma_all_reads_ok(s, mask, all.update(k as int, vals), k + 1),
        dma_channels(s, mask, all.update(k as int, vals), k + 1) == dma_channel_done(
            dma_channels(s, mask, all, k),
            k as int,
            vals,
        ),
        units_done(s, mask, all.update(k as int, vals), k + 1) == units_done(s, mask, all, k) + dma_count(
            dma_channels(s, mask, all, k).channels[k as int],
        ),
        ({
            let p = dma_channels(s, mask, all, k);
            channels_calls(s, mask, all.update(k as int, vals), k + 1) == channels_calls(s, mask, all, k) + units_calls(
                p,
                k as int,
                p.channels[k as int],
                vals,
                dma_count(p.channels[k as int]) as nat,
            )
        }),
{
    let all2 = all.update(k as int, vals);
    lemma_channels_prefix(s, mask, all, all2, k);
    assert forall|j: nat| #![trigger dma_channels(s, mask, all2, j)] j < k + 1 && enabled(mask, j as int) implies {
        let p = dma_channels(s, mask, all2, j);
        dma_reads_ok(p, j as int, p.channels[j as int], all2[j as int], dma_count(p.channels[j as int]) as nat)
    } by {
        lemma_channels_prefix(s, mask, all, all2, j);
        if j < k {
            assert(dma_channels(s, mask, all, j) == dma_channels(s, mask, all2, j));
        }
    }
}

/// A channel that is not enabled leaves the run as it was.
proof fn lemma_channels_skip(s: BusState, mask: u8, all: Seq<Seq<u8>>, k: nat)
    requires
        !enabled(mask, k as int),
        dma_all_reads_ok(s, mask, all, k),
    ensures
        dma_all_reads_ok(s, mask, all, k + 1),
        dma_channels(s, mask, all, k + 1) == dma_channels(s, mask, all, k),
        units_done(s, mask, all, k + 1) == units_done(s, mask, all, k),
        channels_calls(s, mask, all, k + 1) == channels_calls(s, mask, all, k),
{
    assert(channels_calls(s, mask, all, k) + Seq::<IoRequest>::empty() =~= channels_calls(s, mask, all, k));
}

/// One more byte of a transfer, in terms of the bus it starts from.
proof fn lemma_units_step(
    s: BusState,
    ch: int,
    c: DmaChannel,
    vals: Seq<u8>,
    v: u8,
    k: nat,
    before: BusState,
    after: BusState,
)
    requires
        dma_reads_ok(s, ch, c, vals, k),
        without_clocks(before) == dma_units(s, ch, c, vals, k),
        without_clocks(after) == without_clocks(dma_unit(before, ch, c, k as int, v)),
        dma_move_read(before, ch, dma_b_addr(c, k as int), b_to_a(c)) matches Some(x) ==> v == x,
    ensures
        dma_reads_ok(s, ch, c, vals.push(v), k + 1),
        without_clocks(after) == dma_units(s, ch, c, vals.push(v), k + 1),
        units_calls(s, ch, c, vals.push(v), k + 1) == units_calls(s, ch, c, vals, k) + move_calls(
            before,
            ch,
            dma_b_addr(c, k as int),
            b_to_a(c),
            v,
        ),
{
    lemma_dma_unit_ignores_clocks(before, ch, c, k as int, v);
    lemma_units_extend(s, ch, c, vals, v, k);
}

proof fn lemma_unit_offset_bound(mode: int, i: int)
    requires
        0 <= i < unit_size(mode),
    ensures
        0 <= unit_offset(mode, i) <= 3,
{
}

proof fn lemma_mod_step(k: int, n: int)
    requires
        k >= 0,
        1 <= n,
    ensures
        ((k % n) + 1) % n == (k + 1) % n,
        0 <= k % n < n,
{
    vstd::arithmetic::div_mod::lemma_add_mod_noop(k, 1, n);
    vstd::arithmetic::div_mod::lemma_mod_bound(k, n);
    if n > 1 {
        vstd::arithmetic::div_mod::lemma_small_mod(1, n as nat);
    } else {
        vstd::arithmetic::div_mod::lemma_mod_self_0(1);
        vstd::arithmetic::div_mod::lemma_mod_bound(k % n + 1, n);
        vstd::arithmetic::div_mod::lemma_mod_bound(k + 1, n);
    }
}

proof fn lemma_b_addr_bounds(c: DmaChannel, k: int)
    requires
        k >= 0,
    ensures
        0x2100 <= dma_b_addr(c, k) <= 0x2202,
{
    let mode = (c.control & 0x07) as int;
    vstd::arithmetic::div_mod::lemma_mod_bound(k, unit_size(mode));
    lemma_unit_offset_bound(mode, k % unit_size(mode));
}

/// In an A-bus to B-bus transfer only the channel's A-bus address moves.
proof fn lemma_units_a_to_b(s: BusState, ch: int, c: DmaChannel, vals: Seq<u8>, k: nat)
    requires
        !b_to_a(c),
        0 <= ch < 8,
        s.channels.len() == 8,
        s.channels[ch] == c,
    ensures
        dma_units(s, ch, c, vals, k).channels == s.channels.update(
            ch,
            DmaChannel { src_addr: advanced_addr(c, k as int), ..c },
        ),
    decreases k,
{
    if k == 0 {
        assert(s.channels.update(ch, DmaChannel { src_addr: advanced_addr(c, 0), ..c }) =~= s.channels);
    } else {
        let j = (k - 1) as nat;
        lemma_units_a_to_b(s, ch, c, vals, j);
        let p = dma_units(s, ch, c, vals, j);
        lemma_b_addr_bounds(c, j as int);
        lemma_moved_to_b_keeps_channels(p, ch, dma_b_addr(c, j as int), vals[j as int]);
        lemma_advance_step(c, j as int);
        assert(dma_units(s, ch, c, vals, k).channels =~= s.channels.update(
            ch,
            DmaChannel { src_addr: advanced_addr(c, k as int), ..c },
        ));
    }
}

/// An A-bus to B-bus channel ends with size 0 and its A-bus address past
/// the bytes it moved; no other channel changes.
proof fn lemma_channel_done_a_to_b(s: BusState, ch: int, vals: Seq<u8>)
    requires
        !b_to_a(s.channels[ch]),
        0 <= ch < 8,
        s.channels.len() == 8,
    ensures
        dma_channel_done(s, ch, vals).channels == s.channels.update(ch, after_transfer(s.channels[ch])),
{
    let c = s.channels[ch];
    lemma_units_a_to_b(s, ch, c, vals, dma_count(c) as nat);
    assert(dma_channel_done(s, ch, vals).channels =~= s.channels.update(ch, after_transfer(c)));
}

/// A mask enables some channel exactly when it is not zero.
pub(crate) proof fn lemma_mask_enabled(mask: u8)
    ensures
        mask != 0 ==> exists|k: int| 0 <= k < 8 && #[trigger] enabled(mask, k),
        mask == 0 ==> forall|k: int| 0 <= k < 8 ==> !#[trigger] enabled(mask, k),
{
    if mask != 0 {
        assert((mask >> 0u8) & 1 == 1 || (mask >> 1u8) & 1 == 1 || (mask >> 2u8) & 1 == 1 || (mask >> 3u8) & 1 == 1
            || (mask >> 4u8) & 1 == 1 || (mask >> 5u8) & 1 == 1 || (mask >> 6u8) & 1 == 1 || (mask >> 7u8) & 1 == 1)
            by (bit_vector)
            requires
                mask != 0,
        ;
        if enabled(mask, 0) {
        } else if enabled(mask, 1) {
        } else if enabled(mask, 2) {
        } else if enabled(mask, 3) {
        } else if enabled(mask, 4) {
        } else if enabled(mask, 5) {
        } else if enabled(mask, 6) {
        } else {
            assert(enabled(mask, 7));
        }
    } else {
        assert forall|k: int| 0 <= k < 8 implies !#[trigger] enabled(mask, k) by {
            let kk = k as u8;
            assert(mask == 0 ==> (mask >> kk) & 1 == 0) by (bit_vector);
        }
    }
}

/// When every enabled channel moves A-bus to B-bus, each one ends as
/// `after_transfer` of its registers at the start and the bytes moved are
/// those the starting registers give.
proof fn lemma_a_to_b_run(s: BusState, mask: u8, vals: Seq<Seq<u8>>, k: nat)
    requires
        a_to_b_only(s.channels, mask),
        s.channels.len() == 8,
        k <= 8,
    ensures
        units_done(s, mask, vals, k) == units_before(s.channels, mask, k as int),
        dma_channels(s, mask, vals, k).channels.len() == 8,
        forall|j: int| 0 <= j < 8 ==> #[trigger] dma_channels(s, mask, vals, k).channels[j] == if j < k && enabled(
            mask,
            j,
        ) {
            after_transfer(s.channels[j])
        } else {
            s.channels[j]
        },
    decreases k,
{
    if k > 0 {
        let j = (k - 1) as nat;
        lemma_a_to_b_run(s, mask, vals, j);
        let p = dma_channels(s, mask, vals, j);
        assert(p.channels[j as int] == s.channels[j as int]);
        if enabled(mask, j as int) {
            lemma_channel_done_a_to_b(p, j as int, vals[j as int]);
        }
    }
}

/// Reads and writes do not depend on the cycle counters.
proof fn lemma_dispatch_ignores_clocks(s: BusState, bank: u8, addr: u16, val: u8)
    ensures
        read_value(without_clocks(s), bank, addr) == read_value(s, bank, addr),
        without_clocks(read_state(without_clocks(s), bank, addr)) == without_clocks(read_state(s, bank, addr)),
        without_clocks(write_state(without_clocks(s), bank, addr, val)) == without_clocks(write_state(s, bank, addr, val)),
        read_state(s, bank, addr).channels == s.channels,
        read_state(s, bank, addr).map_mode == s.map_mode,
        write_state(s, bank, addr, val).map_mode == s.map_mode,
{
    lemma_read_outcome_ignores_clocks(s, bus_target(s.map_mode, bank, addr), bank, addr);
    lemma_write_outcome_ignores_clocks(s, bus_target(s.map_mode, bank, addr), val);
}

/// One DMA byte does not depend on the cycle counters.
proof fn lemma_moved_ignores_clocks(s: BusState, ch: int, b: u16, to_a: bool, v: u8)
    ensures
        without_clocks(dma_moved(without_clocks(s), ch, b, to_a, v)) == without_clocks(dma_moved(s, ch, b, to_a, v)),
        dma_move_read(without_clocks(s), ch, b, to_a) == dma_move_read(s, ch, b, to_a),
{
    reveal(dma_moved);
    reveal(dma_move_read);
    let a = s.channels[ch];
    if to_a {
        lemma_dispatch_ignores_clocks(s, 0, b, v);
        lemma_dispatch_ignores_clocks(read_state(s, 0, b), a.src_bank, a.src_addr, v);
        lemma_dispatch_ignores_clocks(read_state(without_clocks(s), 0, b), a.src_bank, a.src_addr, v);
    } else {
        lemma_dispatch_ignores_clocks(s, a.src_bank, a.src_addr, v);
        lemma_dispatch_ignores_clocks(read_state(s, a.src_bank, a.src_addr), 0, b, v);
        lemma_dispatch_ignores_clocks(read_state(without_clocks(s), a.src_bank, a.src_addr), 0, b, v);
    }
}

/// A byte moved to the B-bus leaves the DMA channels as they were.
proof fn lemma_moved_to_b_keeps_channels(s: BusState, ch: int, b: u16, v: u8)
    requires
        0x2100 <= b <= 0x2202,
    ensures
        dma_moved(s, ch, b, false, v).channels == s.channels,
{
    reveal(dma_moved);
    let a = s.channels[ch];
    lemma_dispatch_ignores_clocks(s, a.src_bank, a.src_addr, v);
    lemma_b_bus_write_keeps_channels(read_state(s, a.src_bank, a.src_addr), b, v);
}

proof fn lemma_dma_unit_ignores_clocks(s: BusState, ch: int, c: DmaChannel, k: int, v: u8)
    ensures
        without_clocks(dma_unit(without_clocks(s), ch, c, k, v)) == without_clocks(dma_unit(s, ch, c, k, v)),
        dma_move_read(without_clocks(s), ch, dma_b_addr(c, k), b_to_a(c)) == dma_move_read(
            s,
            ch,
            dma_b_addr(c, k),
            b_to_a(c),
        ),
{
    lemma_moved_ignores_clocks(s, ch, dma_b_addr(c, k), b_to_a(c), v);
}

proof fn lemma_advance_step(c: DmaChannel, k: int)
    requires
        k >= 0,
    ensures
        advanced_addr(c, k + 1) == if c.control & 0x08 != 0 {
            advanced_addr(c, k)
        } else if c.control & 0x10 != 0 {
            advanced_addr(c, k).wrapping_sub(1)
        } else {
            advanced_addr(c, k).wrapping_add(1)
        },
{
    let a = c.src_addr as int;
    if c.control & 0x08 == 0 {
        if c.control & 0x10 != 0 {
            vstd::arithmetic::div_mod::lemma_sub_mod_noop(a - k, 1, 0x10000);
            vstd::arithmetic::div_mod::lemma_mod_bound(a - k, 0x10000);
            vstd::arithmetic::div_mod::lemma_mod_bound(a - k - 1, 0x10000);
            vstd::arithmetic::div_mod::lemma_small_mod(1, 0x10000);
            let v = ((a - k) % 0x10000);
            vstd::arithmetic::div_mod::lemma_mod_bound(v - 1, 0x10000);
            if v >= 1 {
                vstd::arithmetic::div_mod::lemma_small_mod((v - 1) as nat, 0x10000);
            } else {
                vstd::arithmetic::div_mod::lemma_mod_add_multiples_vanish(-1, 0x10000);
                vstd::arithmetic::div_mod::lemma_small_mod(0xFFFF, 0x10000);
            }
        } else {
            vstd::arithmetic::div_mod::lemma_add_mod_noop(a + k, 1, 0x10000);
            vstd::arithmetic::div_mod::lemma_mod_bound(a + k, 0x10000);
            vstd::arithmetic::div_mod::lemma_small_mod(1, 0x10000);
            let v = ((a + k) % 0x10000);
            if v + 1 < 0x10000 {
                vstd::arithmetic::div_mod::lemma_small_mod((v + 1) as nat, 0x10000);
            } else {
                vstd::arithmetic::div_mod::lemma_mod_self_0(0x10000);
            }
        }
    }
}

/// The run of a general DMA in which only channel `ch` is enabled: the
/// bus is untouched before that channel and unchanged after it.
proof fn lemma_single_channel_run(s: BusState, ch: int, vals: Seq<Seq<u8>>, k: nat)
    requires
        0 <= ch < 8,
        k <= 8,
    ensures
        dma_channels(s, (1u8 << (ch as u8)) as u8, vals, k) == if k <= ch {
            s
        } else {
            dma_channel_done(s, ch, vals[ch])
        },
    decreases k,
{
    if k > 0 {
        let j = (k - 1) as nat;
        lemma_single_channel_run(s, ch, vals, j);
        let c8 = ch as u8;
        let j8 = j as u8;
        assert(((1u8 << c8) >> j8) & 1 == 1 <==> j8 == c8) by (bit_vector)
            requires
                c8 < 8,
                j8 < 8,
        ;
        assert(enabled((1u8 << c8) as u8, j as int) <==> j == ch);
    }
}

/// DMA and CPU writes take the same path: a general DMA in which one
/// channel moves one byte from plain memory (WRAM, SRAM or ROM) to its
/// B-bus register leaves the bus, but for its cycle counters and that
/// channel's registers, exactly as a CPU write of that byte to that
/// register does.
#[verifier::spinoff_prover]
#[verifier::rlimit(60)]
pub proof fn lemma_dma_byte_is_cpu_write(old: BusState, new: BusState, ch: int)
    requires
        0 <= ch < 8,
        old.channels.len() == 8,
        old.channels[ch].size == 1,
        !b_to_a(old.channels[ch]),
        pure_memory(old.map_mode, old.channels[ch].src_bank, old.channels[ch].src_addr),
        general_dma_post(old, new, (1u8 << (ch as u8)) as u8),
    ensures
        without_clocks(new) == without_clocks(
            BusState {
                channels: old.channels.update(ch, after_transfer(old.channels[ch])),
                ..write_state(
                    old,
                    0,
                    (0x2100 + old.channels[ch].dest) as u16,
                    read_value(old, old.channels[ch].src_bank, old.channels[ch].src_addr)->0,
                )
            },
        ),
{
    let mask = (1u8 << (ch as u8)) as u8;
    let c = old.channels[ch];
    let w = without_clocks(old);
    let vals = choose|vals: Seq<Seq<u8>>| #[trigger] dma_data_moved(old, new, mask, vals);
    assert(dma_data_moved(old, new, mask, vals));
    lemma_single_channel_run(w, ch, vals, 8);
    lemma_single_channel_run(w, ch, vals, ch as nat);
    let b = dma_b_addr(c, 0);
    assert(b == (0x2100 + c.dest) as u16);
    lemma_dispatch_ignores_clocks(old, c.src_bank, c.src_addr, 0);
    let x = read_value(old, c.src_bank, c.src_addr)->0;
    // The single byte read is the memory byte.
    assert(enabled(mask, ch)) by {
        let c8 = ch as u8;
        assert((1u8 << c8) >> c8 & 1 == 1) by (bit_vector)
            requires
                c8 < 8,
        ;
    }
    assert(dma_channels(w, mask, vals, ch as nat) == w);
    assert(dma_units(w, ch, c, vals[ch], 0) == w);
    lemma_moved_from_memory(w, ch, b, x);
    assert(vals[ch][0] == x);
    lemma_dispatch_ignores_clocks(old, 0, b, x);
    lemma_b_bus_write_keeps_channels(w, b, x);
    lemma_b_bus_write_keeps_channels(old, b, x);
    lemma_advance_step(c, 0);
    assert(without_clocks(new).channels =~= old.channels.update(ch, after_transfer(c)));
}

/// A byte moved from plain memory to the B-bus is the memory byte, written
/// as a CPU write would write it.
proof fn lemma_moved_from_memory(s: BusState, ch: int, b: u16, v: u8)
    requires
        pure_memory(s.map_mode, s.channels[ch].src_bank, s.channels[ch].src_addr),
    ensures
        dma_moved(s, ch, b, false, v) == write_state(s, 0, b, v),
        dma_move_read(s, ch, b, false) == read_value(s, s.channels[ch].src_bank, s.channels[ch].src_addr),
{
    reveal(dma_moved);
    reveal(dma_move_read);
    lemma_pure_memory_reads_are_pure(s, s.channels[ch].src_bank, s.channels[ch].src_addr);
}

impl Bus {
    /// General DMA on the channels enabled in `enable_mask`, in channel
    /// order. Each byte is read from one bus and written to the other
    /// through `read`/`write`, so DMA and CPU accesses take the same path;
    /// the APU is caught up every 128 master cycles and at the end.
    #[verifier::spinoff_prover]
    #[verifier::rlimit(50)]
    pub(crate) fn execute_general_dma<P: Peripherals>(&mut self, io: &mut P, enable_mask: u8)
        requires
            old(self).wf(),
            dma_room(old(self)@),
        ensures
            general_dma_post(old(self)@, final(self)@, enable_mask),
            dma_calls_made(old(self)@, final(self)@, enable_mask, old(io).calls(), final(io).calls()),
            enable_mask == 0 ==> *final(io) == *old(io),
        decreases 0int, 7int,
    {
        let ghost start = self@;
        let ghost w0 = without_clocks(start);
        let ghost mut all: Seq<Seq<u8>> = Seq::new(8, |i: int| Seq::<u8>::empty());
        let mut total_cycles: u64 = 0;
        let mut since_sync: u32 = 0;
        let mut ch_idx: u8 = 0;
        let ghost q0 = io.calls();
        proof {
            lemma_calls_append(q0, Seq::empty());
            assert(q0 + Seq::<IoRequest>::empty() =~= q0);
            assert(data_calls(Seq::<IoRequest>::empty()) =~= Seq::<IoRequest>::empty());
        }
        while ch_idx < 8
            invariant
                self.wf(),
                ch_idx <= 8,
                w0 == without_clocks(start),
                all.len() == 8,
                dma_all_reads_ok(w0, enable_mask, all, ch_idx as nat),
                without_clocks(self@) == dma_channels(w0, enable_mask, all, ch_idx as nat),
                self@.rom == start.rom,
                self@.map_mode == start.map_mode,
                dma_room(start),
                total_cycles == 8 * units_done(w0, enable_mask, all, ch_idx as nat),
                total_cycles <= 0x80000 * ch_idx,
                since_sync % 8 == 0,
                since_sync < 128,
                since_sync <= total_cycles,
                self.master_clock == start.master_clock + total_cycles - since_sync,
                self.pending_dma_cycles == start.pending_dma_cycles,
                since_sync == 0 && total_cycles > 0 ==> self.last_apu_sync == self.master_clock,
                total_cycles == 0 ==> self@ == start && *io == *old(io),
                (exists|k: int| 0 <= k < ch_idx && #[trigger] enabled(enable_mask, k)) ==> total_cycles >= 8,
                (forall|k: int| 0 <= k < ch_idx ==> !#[trigger] enabled(enable_mask, k)) ==> total_cycles == 0,
                q0 == old(io).calls(),
                calls_extend(q0, io.calls(), channels_calls(w0, enable_mask, all, ch_idx as nat)),
            decreases 8 - ch_idx,
        {
            let on = (enable_mask >> ch_idx) & 1 == 1;
            proof {
                assert(enabled(enable_mask, ch_idx as int) == on);
            }
            if on {
                let ghost before = self@;
                let ghost qb = io.calls();
                let (cycles, since, Ghost(vals)) = self.dma_channel_transfer(io, ch_idx as usize, since_sync);
                proof {
                    lemma_channels_extend(w0, enable_mask, all, vals, ch_idx as nat);
                    let p = dma_channels(w0, enable_mask, all, ch_idx as nat);
                    assert(without_clocks(before) == p);
                    lemma_calls_extend_trans(
                        q0,
                        qb,
                        io.calls(),
                        channels_calls(w0, enable_mask, all, ch_idx as nat),
                        units_calls(p, ch_idx as int, p.channels[ch_idx as int], vals, dma_count(p.channels[ch_idx as int]) as nat),
                    );
                    all = all.update(ch_idx as int, vals);
                }
                total_cycles = total_cycles + cycles;
                since_sync = since;
            } else {
                proof {
                    lemma_channels_skip(w0, enable_mask, all, ch_idx as nat);
                }
            }
            ch_idx = ch_idx + 1;
        }
        let ghost after_loop = self@;
        let ghost ql = io.calls();
        // Credit the DMA cycles not yet synced.
        if since_sync > 0 {
            self.master_clock = self.master_clock + since_sync as u64;
            let ghost s1 = self@;
            self.sync_apu(io);
            proof {
                lemma_data_calls_of_access(s1, BusTarget::OpenBus, 0);
                lemma_calls_append(ql, crate::bus::catch_up_requests(s1));
                lemma_calls_extend_trans(q0, ql, io.calls(), channels_calls(w0, enable_mask, all, 8), Seq::empty());
                assert(channels_calls(w0, enable_mask, all, 8) + Seq::<IoRequest>::empty() =~= channels_calls(
                    w0,
                    enable_mask,
                    all,
                    8,
                ));
            }
        }
        self.pending_dma_cycles = self.pending_dma_cycles + total_cycles;
        proof {
            lemma_mask_enabled(enable_mask);
            assert(without_clocks(self@) == without_clocks(after_loop));
            assert(dma_data_moved(start, self@, enable_mask, all));
            assert(calls_extend(q0, io.calls(), channels_calls(w0, enable_mask, all, 8)));
            if start.wram_addr <= 0x1FFFF {
                lemma_channels_wram_port(w0, enable_mask, all, 8);
            }
            if a_to_b_only(start.channels, enable_mask) {
                lemma_a_to_b_run(w0, enable_mask, all, 8);
                assert(self@.channels =~= channels_after_dma(start.channels, enable_mask));
            }
        }
    }

    /// Move one byte of a DMA transfer: from B-bus register `b_addr` to
    /// the A-bus address of channel `ch` when `b_to_a`, the other way
    /// otherwise.
    fn dma_move_byte<P: Peripherals>(&mut self, io: &mut P, ch: usize, b_addr: u16, to_a: bool) -> (v: u8)
        requires
            old(self).wf(),
            ch < 8,
            0x2100 <= b_addr <= 0x2202,
        ensures
            final(self).wf(),
            final(self)@ == dma_moved(old(self)@, ch as int, b_addr, to_a, v),
            dma_move_read(old(self)@, ch as int, b_addr, to_a) matches Some(x) ==> v == x,
            final(self).master_clock == old(self).master_clock,
            final(self).pending_dma_cycles == old(self).pending_dma_cycles,
            final(self)@.rom == old(self)@.rom,
            final(self)@.map_mode == old(self)@.map_mode,
            final(self).last_apu_sync == old(self).last_apu_sync || final(self).last_apu_sync == old(self).master_clock,
            calls_extend(old(io).calls(), final(io).calls(), move_calls(old(self)@, ch as int, b_addr, to_a, v)),
        decreases 0int, 4int,
    {
        proof {
            reveal(dma_moved);
            reveal(dma_move_read);
        }
        let a_bank = self.dma.channels[ch].src_bank;
        let a_addr = self.dma.channels[ch].src_addr;
        if to_a {
            let ghost s0 = self@;
            let ghost q0 = io.calls();
            let val = self.read(io, 0x00, b_addr);
            proof {
                lemma_read_state_frame(s0, 0x00, b_addr);
            }
            let ghost s1 = self@;
            let ghost q1 = io.calls();
            self.write_inner(io, a_bank, a_addr, val, true);
            proof {
                lemma_write_state_frame(s1, a_bank, a_addr, val);
                let tr = bus_target(s0.map_mode, 0, b_addr);
                let tw = bus_target(s0.map_mode, a_bank, a_addr);
                lemma_data_calls_of_access(s0, tr, val);
                lemma_data_calls_of_access(s1, tw, val);
                lemma_calls_append(q0, read_requests(s0, tr, val));
                lemma_calls_append(q1, write_requests(s1, tw, val));
                lemma_calls_extend_trans(q0, q1, io.calls(), read_calls(tr, val), write_calls(tw, val));
            }
            val
        } else {
            let ghost s0 = self@;
            let ghost q0 = io.calls();
            let val = self.read(io, a_bank, a_addr);
            proof {
                lemma_read_state_frame(s0, a_bank, a_addr);
            }
            let ghost s1 = self@;
            let ghost q1 = io.calls();
            self.write_inner(io, 0x00, b_addr, val, true);
            proof {
                lemma_write_state_frame(s1, 0x00, b_addr, val);
                lemma_b_bus_write_keeps_channels(s1, b_addr, val);
                assert((0x00u8 & 0x7F) == 0) by (bit_vector);
                let tr = bus_target(s0.map_mode, a_bank, a_addr);
                let tw = bus_target(s0.map_mode, 0, b_addr);
                lemma_data_calls_of_access(s0, tr, val);
                lemma_data_calls_of_access(s1, tw, val);
                lemma_calls_append(q0, read_requests(s0, tr, val));
                lemma_calls_append(q1, write_requests(s1, tw, val));
                lemma_calls_extend_trans(q0, q1, io.calls(), read_calls(tr, val), write_calls(tw, val));
            }
            val
        }
    }

    /// General DMA of one channel. Returns the master cycles spent (8 per
    /// byte) and the cycles not yet credited to the master clock.
    /// Byte `k` of a transfer on channel `ch` that started with registers
    /// `c0`: move it, step the A-bus address, count its 8 master cycles
    /// and, every 128 of them, run the APU up to the master clock.
    /// Returns the byte read and the cycles not yet credited to the clock.
    #[verifier::spinoff_prover]
    fn dma_step<P: Peripherals>(
        &mut self,
        io: &mut P,
        ch: usize,
        b_addr: u16,
        to_a: bool,
        fixed_a: bool,
        decrement_a: bool,
        since: u32,
        Ghost(c0): Ghost<DmaChannel>,
        Ghost(k): Ghost<int>,
    ) -> (res: (u8, u32))
        requires
            old(self).wf(),
            ch < 8,
            0x2100 <= b_addr <= 0x2202,
            b_addr == dma_b_addr(c0, k),
            to_a == b_to_a(c0),
            fixed_a == (c0.control & 0x08 != 0),
            decrement_a == (c0.control & 0x10 != 0),
            since % 8 == 0,
            since < 128,
            old(self).master_clock + since + 8 <= u64::MAX,
        ensures
            final(self).wf(),
            without_clocks(final(self)@) == without_clocks(dma_unit(old(self)@, ch as int, c0, k, res.0)),
            dma_move_read(old(self)@, ch as int, dma_b_addr(c0, k), b_to_a(c0)) matches Some(x) ==> res.0 == x,
            final(self)@.rom == old(self)@.rom,
            final(self)@.map_mode == old(self)@.map_mode,
            final(self).pending_dma_cycles == old(self).pending_dma_cycles,
            res.1 % 8 == 0,
            res.1 < 128,
            res.1 <= since + 8,
            final(self).master_clock == old(self).master_clock + since + 8 - res.1,
            res.1 == 0 ==> final(self).last_apu_sync == final(self).master_clock,
            calls_extend(
                old(io).calls(),
                final(io).calls(),
                move_calls(old(self)@, ch as int, dma_b_addr(c0, k), b_to_a(c0), res.0),
            ),
        decreases 0int, 5int,
    {
        let ghost s0 = self@;
        let ghost q0 = io.calls();
        let v = self.dma_move_byte(io, ch, b_addr, to_a);
        let ghost q1 = io.calls();
        self.dma_step_address(ch, fixed_a, decrement_a);
        let since2 = self.dma_tick(io, since);
        proof {
            lemma_calls_extend_trans(q0, q1, io.calls(), move_calls(s0, ch as int, b_addr, to_a, v), Seq::empty());
            assert(move_calls(s0, ch as int, b_addr, to_a, v) + Seq::<IoRequest>::empty() =~= move_calls(
                s0,
                ch as int,
                b_addr,
                to_a,
                v,
            ));
        }
        (v, since2)
    }

    /// Step channel `ch`'s A-bus address: fixed, down or up by one.
    fn dma_step_address(&mut self, ch: usize, fixed_a: bool, decrement_a: bool)
        requires
            ch < 8,
        ensures
            final(self)@ == (BusState {
                channels: old(self)@.channels.update(
                    ch as int,
                    DmaChannel {
                        src_addr: if fixed_a {
                            old(self)@.channels[ch as int].src_addr
                        } else if decrement_a {
                            old(self)@.channels[ch as int].src_addr.wrapping_sub(1)
                        } else {
                            old(self)@.channels[ch as int].src_addr.wrapping_add(1)
                        },
                        ..old(self)@.channels[ch as int]
                    },
                ),
                ..old(self)@
            }),
    {
        if !fixed_a {
            let cur = self.dma.channels[ch].src_addr;
            let next = if decrement_a { cur.wrapping_sub(1) } else { cur.wrapping_add(1) };
            self.dma.channels[ch].src_addr = next;
        }
        proof {
            let o = old(self)@;
            assert(self@.channels =~= o.channels.update(
                ch as int,
                DmaChannel {
                    src_addr: if fixed_a {
                        o.channels[ch as int].src_addr
                    } else if decrement_a {
                        o.channels[ch as int].src_addr.wrapping_sub(1)
                    } else {
                        o.channels[ch as int].src_addr.wrapping_add(1)
                    },
                    ..o.channels[ch as int]
                },
            ));
        }
    }

    /// Count one DMA byte's 8 master cycles; every 128 of them, credit them
    /// to the master clock and run the APU up to it. Returns the cycles
    /// not yet credited.
    fn dma_tick<P: Peripherals>(&mut self, io: &mut P, since: u32) -> (since2: u32)
        requires
            old(self).wf(),
            since % 8 == 0,
            since < 128,
            old(self).master_clock + since + 8 <= u64::MAX,
        ensures
            final(self).wf(),
            without_clocks(final(self)@) == without_clocks(old(self)@),
            final(self).pending_dma_cycles == old(self).pending_dma_cycles,
            since2 % 8 == 0,
            since2 < 128,
            since2 <= since + 8,
            final(self).master_clock == old(self).master_clock + since + 8 - since2,
            since2 == 0 ==> final(self).last_apu_sync == final(self).master_clock,
            calls_extend(old(io).calls(), final(io).calls(), Seq::empty()),
    {
        let ghost q0 = io.calls();
        let mut since2 = since + 8;
        if since2 >= 128 {
            self.master_clock = self.master_clock + since2 as u64;
            let ghost s1 = self@;
            self.sync_apu(io);
            proof {
                lemma_data_calls_of_access(s1, BusTarget::OpenBus, 0);
                lemma_calls_append(q0, crate::bus::catch_up_requests(s1));
            }
            since2 = 0;
        } else {
            proof {
                lemma_calls_append(q0, Seq::empty());
                assert(q0 + Seq::<IoRequest>::empty() =~= q0);
                assert(data_calls(Seq::<IoRequest>::empty()) =~= Seq::<IoRequest>::empty());
            }
        }
        since2
    }

    #[verifier::spinoff_prover]
    #[verifier::rlimit(50)]
    fn dma_channel_transfer<P: Peripherals>(&mut self, io: &mut P, ch: usize, since_sync: u32) -> (res: (
        u64,
        u32,
        Ghost<Seq<u8>>,
    ))
        requires
            old(self).wf(),
            ch < 8,
            since_sync % 8 == 0,
            since_sync < 128,
            old(self).master_clock + since_sync + 8 * 0x10000 <= u64::MAX,
        ensures
            final(self).wf(),
            final(self)@.rom == old(self)@.rom,
            final(self)@.map_mode == old(self)@.map_mode,
            res.0 == 8 * dma_count(old(self)@.channels[ch as int]),
            res.1 % 8 == 0,
            res.1 < 128,
            res.1 <= since_sync + res.0,
            final(self).master_clock == old(self).master_clock + since_sync + res.0 - res.1,
            final(self).pending_dma_cycles == old(self).pending_dma_cycles,
            res.1 == 0 ==> final(self).last_apu_sync == final(self).master_clock,
            dma_reads_ok(
                without_clocks(old(self)@),
                ch as int,
                old(self)@.channels[ch as int],
                res.2@,
                dma_count(old(self)@.channels[ch as int]) as nat,
            ),
            without_clocks(final(self)@) == dma_channel_done(without_clocks(old(self)@), ch as int, res.2@),
            !b_to_a(old(self)@.channels[ch as int]) ==> final(self)@.channels == old(self)@.channels.update(
                ch as int,
                after_transfer(old(self)@.channels[ch as int]),
            ),
            calls_extend(
                old(io).calls(),
                final(io).calls(),
                units_calls(
                    without_clocks(old(self)@),
                    ch as int,
                    old(self)@.channels[ch as int],
                    res.2@,
                    dma_count(old(self)@.channels[ch as int]) as nat,
                ),
            ),
        decreases 0int, 6int,
    {
        let ghost c0 = self.dma.channels@[ch as int];
        let control = self.dma.channels[ch].control;
        let mode = (control & 0x07) as usize;
        assert(control & 0x07 < 8) by (bit_vector);
        let direction = control & 0x80 != 0;
        let fixed_a = control & 0x08 != 0;
        let decrement_a = control & 0x10 != 0;
        let dest_base: u16 = 0x2100u16 + self.dma.channels[ch].dest as u16;
        let transfer_size = DMA_TRANSFER_SIZES[mode];
        let pattern = DMA_TRANSFER_PATTERNS[mode];
        assert(transfer_size == unit_size(mode as int));
        assert(forall|i: int| 0 <= i < transfer_size ==> pattern@[i] == unit_offset(mode as int, i));
        let count: u32 = if self.dma.channels[ch].size == 0 { 0x10000u32 } else { self.dma.channels[ch].size as u32 };
        let mut remaining: u32 = count;
        let mut unit_idx: u8 = 0;
        let mut total: u64 = 0;
        let mut since: u32 = since_sync;
        let ghost start = self@;
        let ghost w0 = without_clocks(start);
        let ghost mut vals: Seq<u8> = Seq::empty();
        let ghost q0 = io.calls();
        proof {
            lemma_calls_append(q0, Seq::empty());
            assert(q0 + Seq::<IoRequest>::empty() =~= q0);
            assert(data_calls(Seq::<IoRequest>::empty()) =~= Seq::<IoRequest>::empty());
        }
        while remaining > 0
            invariant
                self.wf(),
                ch < 8,
                self@.rom == start.rom,
                self@.map_mode == start.map_mode,
                c0 == start.channels[ch as int],
                w0 == without_clocks(start),
                1 <= transfer_size <= 4,
                transfer_size == unit_size(mode as int),
                mode == (c0.control & 0x07) as int,
                unit_idx < transfer_size,
                unit_idx == (count - remaining) % (transfer_size as int),
                forall|i: int| 0 <= i < transfer_size ==> pattern@[i] == unit_offset(mode as int, i),
                dest_base == 0x2100 + c0.dest,
                direction == b_to_a(c0),
                fixed_a == (c0.control & 0x08 != 0),
                decrement_a == (c0.control & 0x10 != 0),
                count as int == dma_count(c0),
                remaining <= count,
                total == 8 * (count - remaining),
                since % 8 == 0,
                since < 128,
                since <= since_sync + total,
                start.master_clock + since_sync + 8 * 0x10000 <= u64::MAX,
                self.master_clock == start.master_clock + since_sync + total - since,
                self.pending_dma_cycles == start.pending_dma_cycles,
                since == 0 && total > 0 ==> self.last_apu_sync == self.master_clock,
                dma_reads_ok(w0, ch as int, c0, vals, (count - remaining) as nat),
                without_clocks(self@) == dma_units(w0, ch as int, c0, vals, (count - remaining) as nat),
                calls_extend(q0, io.calls(), units_calls(w0, ch as int, c0, vals, (count - remaining) as nat)),
            decreases remaining,
        {
            let ghost k: int = count - remaining;
            let ghost before = self@;
            let ghost qb = io.calls();
            proof {
                lemma_unit_offset_bound(mode as int, unit_idx as int);
            }
            let b_addr: u16 = dest_base + pattern[unit_idx as usize] as u16;
            let (v, since2) = self.dma_step(io, ch, b_addr, direction, fixed_a, decrement_a, since, Ghost(c0), Ghost(k));
            proof {
                lemma_units_step(w0, ch as int, c0, vals, v, k as nat, before, self@);
                lemma_calls_extend_trans(
                    q0,
                    qb,
                    io.calls(),
                    units_calls(w0, ch as int, c0, vals, k as nat),
                    move_calls(before, ch as int, dma_b_addr(c0, k), b_to_a(c0), v),
                );
                vals = vals.push(v);
                lemma_mod_step(k, transfer_size as int);
            }
            since = since2;
            unit_idx = (unit_idx + 1) % transfer_size;
            remaining = remaining - 1;
            total = total + 8;
        }
        let ghost before_size = self@;
        self.dma.channels[ch].size = 0;
        proof {
            assert(without_clocks(self@).channels =~= dma_channel_done(w0, ch as int, vals).channels);
            assert(without_clocks(self@) == dma_channel_done(w0, ch as int, vals));
            if !direction {
                lemma_channel_done_a_to_b(w0, ch as int, vals);
            }
        }
        (total, since, Ghost(vals))
    }
}

} // verus!
