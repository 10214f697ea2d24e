//! HDMA: per-scanline transfers driven by tables in memory, through the
//! bus's own read and write dispatch.
use vstd::prelude::*;
use crate::bus::{
    Bus, BusState, Peripherals, read_state, read_value, write_state, synced, bus_wf, enabled,
    lemma_read_state_frame, lemma_write_state_frame, lemma_b_bus_write_keeps_channels, IoRequest, read_requests,
    write_requests, bus_target, catch_up_requests,
};
use crate::dma::{DmaChannel, DMA_TRANSFER_PATTERNS, DMA_TRANSFER_SIZES};
use crate::general_dma::lemma_mask_enabled;

verus! {

/// What HDMA keeps: the cycle counters, the cartridge ROM and map mode;
/// the APU is at most caught up.
pub open spec fn hdma_frame(old: BusState, new: BusState) -> bool {
    &&& bus_wf(new)
    &&& new.rom == old.rom
    &&& new.map_mode == old.map_mode
    &&& new.master_clock == old.master_clock
    &&& new.pending_dma_cycles == old.pending_dma_cycles
    &&& (new.last_apu_sync == old.last_apu_sync || new.last_apu_sync == old.master_clock)
}

/// Channel `c1` is channel `c0` after loading an HDMA table entry: only
/// the table address, line counter, flags and (indirect mode) the data
/// address change; a `$00` line count terminates the channel after one
/// byte; otherwise the line counter is non-zero, the channel transfers on
/// the next line, and the table address has moved past the entry (1 byte,
/// or 3 in indirect mode).
pub open spec fn hdma_entry_loaded(c0: DmaChannel, c1: DmaChannel) -> bool {
    let indirect = c0.control & 0x40 != 0;
    &&& c1.control == c0.control
    &&& c1.dest == c0.dest
    &&& c1.src_addr == c0.src_addr
    &&& c1.src_bank == c0.src_bank
    &&& c1.hdma_indirect_bank == c0.hdma_indirect_bank
    &&& c1.unused == c0.unused
    &&& c1.hdma_terminated ==> {
        &&& c1.hdma_addr == c0.hdma_addr.wrapping_add(1)
        &&& c1.size == c0.size
        &&& c1.hdma_line_counter == c0.hdma_line_counter
        &&& c1.hdma_do_transfer == c0.hdma_do_transfer
    }
    &&& !c1.hdma_terminated ==> {
        &&& c1.hdma_do_transfer
        &&& c1.hdma_line_counter != 0
        &&& c1.hdma_addr == if indirect { c0.hdma_addr.wrapping_add(3) } else { c0.hdma_addr.wrapping_add(1) }
        &&& !indirect ==> c1.size == c0.size
    }
}

/// HDMA line-counter step: bit 7 (repeat) kept, bits 0-6 decremented
/// with wrap-around.
pub open spec fn hdma_counter_step(counter: u8) -> u8 {
    (counter & 0x80) | ((counter & 0x7F).wrapping_sub(1) & 0x7F)
}

/// The line counter counts down in its low 7 bits, from 0 back to 127,
/// and keeps the repeat flag in bit 7.
pub proof fn lemma_counter_counts_down(counter: u8)
    ensures
        hdma_counter_step(counter) / 128 == counter / 128,
        hdma_counter_step(counter) % 128 == if counter % 128 == 0 { 127 } else { counter % 128 - 1 },
{
    assert((((counter & 0x80) | ((counter & 0x7F).wrapping_sub(1) & 0x7F)) / 128 == counter / 128) && (((counter
        & 0x80) | ((counter & 0x7F).wrapping_sub(1) & 0x7F)) % 128 == if counter % 128 == 0 {
        127u8
    } else {
        (counter % 128 - 1) as u8
    })) by (bit_vector);
}

/// Channel `c` after moving one scanline's HDMA data: the indirect data
/// address (indirect mode) or the table address advances by the unit size.
pub open spec fn hdma_transferred(c: DmaChannel) -> DmaChannel {
    let n = DMA_TRANSFER_SIZES@[(c.control & 0x07) as int];
    if c.control & 0x40 != 0 {
        DmaChannel { size: ((c.size as int + n) % 0x10000) as u16, ..c }
    } else {
        DmaChannel { hdma_addr: ((c.hdma_addr as int + n) % 0x10000) as u16, ..c }
    }
}

/// Channel `c1` is active channel `c0` after one scanline of HDMA: it
/// transfers if flagged, its line counter steps, and when the count runs
/// out the next table entry is loaded; otherwise it transfers on the next
/// line only in repeat mode (counter bit 7).
pub open spec fn hdma_line_done(c0: DmaChannel, c1: DmaChannel) -> bool {
    let t = if c0.hdma_do_transfer { hdma_transferred(c0) } else { c0 };
    let count = hdma_counter_step(c0.hdma_line_counter);
    let stepped = DmaChannel { hdma_line_counter: count, ..t };
    if count & 0x7F == 0 {
        hdma_entry_loaded(stepped, c1)
    } else {
        c1 == DmaChannel { hdma_do_transfer: c0.hdma_line_counter & 0x80 != 0, ..stepped }
    }
}

// ─── What HDMA moves ────────────────────────────────────────────────────

/// A-bus address the next HDMA data byte of channel `c` comes from: the
/// indirect data address (bank `$43x7`) in indirect mode, else the table
/// address (bank `$43x4`).
pub open spec fn hdma_source(c: DmaChannel, indirect: bool) -> (u8, u16) {
    if indirect {
        (c.hdma_indirect_bank, c.size)
    } else {
        (c.src_bank, c.hdma_addr)
    }
}

/// Channel `c` with its data source address stepped by one.
pub open spec fn hdma_source_stepped(c: DmaChannel, indirect: bool) -> DmaChannel {
    if indirect {
        DmaChannel { size: c.size.wrapping_add(1), ..c }
    } else {
        DmaChannel { hdma_addr: c.hdma_addr.wrapping_add(1), ..c }
    }
}

/// Bus model after byte `i` of one scanline's transfer on channel `ch`
/// (registers `c0` at its start), `v` being the byte read: the read, the
/// source address step, then the write to the B-bus register, through
/// the ordinary dispatch.
#[verifier::opaque]
pub open spec fn hdma_byte(s: BusState, ch: int, c0: DmaChannel, i: int, v: u8) -> BusState {
    let indirect = c0.control & 0x40 != 0;
    let src = hdma_source(s.channels[ch], indirect);
    let r = read_state(s, src.0, src.1);
    let stepped = BusState {
        channels: r.channels.update(ch, hdma_source_stepped(r.channels[ch], indirect)),
        ..r
    };
    write_state(stepped, 0, (0x2100 + c0.dest + DMA_TRANSFER_PATTERNS@[(c0.control & 0x07) as int]@[i]) as u16, v)
}

/// Bus model after the first `i` bytes of that transfer, the reads giving
/// `vals`.
pub open spec fn hdma_bytes(s: BusState, ch: int, c0: DmaChannel, vals: Seq<u8>, i: nat) -> BusState
    decreases i,
{
    if i == 0 {
        s
    } else {
        hdma_byte(hdma_bytes(s, ch, c0, vals, (i - 1) as nat), ch, c0, i - 1, vals[i - 1])
    }
}

/// `vals` holds the bytes of the first `n` reads of that transfer, as the
/// bus answered them where it did.
pub open spec fn hdma_bytes_ok(s: BusState, ch: int, c0: DmaChannel, vals: Seq<u8>, n: nat) -> bool {
    &&& vals.len() == n
    &&& forall|i: nat| #![trigger hdma_bytes(s, ch, c0, vals, i)] i < n ==> {
        let p = hdma_bytes(s, ch, c0, vals, i);
        let src = hdma_source(p.channels[ch], c0.control & 0x40 != 0);
        read_value(p, src.0, src.1) matches Some(x) ==> vals[i as int] == x
    }
}

/// The bus model after the line-count byte `lc` of channel `ch`'s next
/// table entry was read: the table address steps past it, and a zero
/// count terminates the channel while another one becomes its line
/// counter and flags a transfer.
#[verifier::opaque]
pub open spec fn hdma_count_read(s: BusState, ch: int, lc: u8) -> BusState {
    let c = s.channels[ch];
    let r = read_state(s, c.src_bank, c.hdma_addr);
    let c1 = r.channels[ch];
    let next = if lc == 0 {
        DmaChannel { hdma_addr: c.hdma_addr.wrapping_add(1), hdma_terminated: true, ..c1 }
    } else {
        DmaChannel { hdma_addr: c.hdma_addr.wrapping_add(1), hdma_line_counter: lc, hdma_do_transfer: true, ..c1 }
    };
    BusState { channels: r.channels.update(ch, next), ..r }
}

/// The bus model after reading the 16-bit indirect data address `lo`,
/// `hi` of an entry: the size registers take it and the table address
/// steps past it.
#[verifier::opaque]
pub open spec fn hdma_pointer_read(s: BusState, ch: int, lo: u8, hi: u8) -> BusState {
    let c = s.channels[ch];
    let r2 = read_state(s, c.src_bank, c.hdma_addr);
    let r3 = read_state(r2, c.src_bank, c.hdma_addr.wrapping_add(1));
    let c3 = r3.channels[ch];
    BusState {
        channels: r3.channels.update(
            ch,
            DmaChannel { size: (lo as u16) | ((hi as u16) << 8), hdma_addr: c.hdma_addr.wrapping_add(2), ..c3 },
        ),
        ..r3
    }
}

/// The bus model after channel `ch` loaded its next table entry, the
/// reads giving `bytes` (the count, then in indirect mode the address).
#[verifier::opaque]
pub open spec fn hdma_entry_state(s: BusState, ch: int, bytes: Seq<u8>) -> BusState {
    let s1 = hdma_count_read(s, ch, bytes[0]);
    if bytes[0] != 0 && s.channels[ch].control & 0x40 != 0 {
        hdma_pointer_read(s1, ch, bytes[1], bytes[2])
    } else {
        s1
    }
}

/// `bytes` holds what loading channel `ch`'s next entry read, as the bus
/// answered where it did.
#[verifier::opaque]
pub open spec fn hdma_entry_ok(s: BusState, ch: int, bytes: Seq<u8>) -> bool {
    let c = s.channels[ch];
    let indirect = c.control & 0x40 != 0;
    &&& bytes.len() >= 1
    &&& read_value(s, c.src_bank, c.hdma_addr) matches Some(x) ==> bytes[0] == x
    &&& bytes.len() == if bytes[0] != 0 && indirect { 3int } else { 1int }
    &&& bytes[0] != 0 && indirect ==> {
        let s1 = hdma_count_read(s, ch, bytes[0]);
        let c1 = s1.channels[ch];
        let r2 = read_state(s1, c1.src_bank, c1.hdma_addr);
        &&& read_value(s1, c1.src_bank, c1.hdma_addr) matches Some(x) ==> bytes[1] == x
        &&& read_value(r2, c1.src_bank, c1.hdma_addr.wrapping_add(1)) matches Some(x) ==> bytes[2] == x
    }
}

/// Bus model after channel `k` moved its data for the line, if flagged,
/// the reads giving `vals`.
pub open spec fn hdma_line_transferred(s: BusState, k: int, vals: Seq<u8>) -> BusState {
    let c0 = s.channels[k];
    if c0.hdma_do_transfer {
        hdma_bytes(s, k, c0, vals, hdma_unit_len(c0))
    } else {
        s
    }
}

/// Bus model after channel `k` moved its data for the line, if flagged,
/// and stepped its line counter.
pub open spec fn hdma_line_stepped(s: BusState, k: int, vals: Seq<u8>) -> BusState {
    let t = hdma_line_transferred(s, k, vals);
    let tc = t.channels[k];
    BusState {
        channels: t.channels.update(k, DmaChannel { hdma_line_counter: hdma_counter_step(tc.hdma_line_counter), ..tc }),
        ..t
    }
}

/// Bus model after one scanline of HDMA on active channel `k`: transfer
/// if flagged, step the counter, then load the next entry (its reads
/// giving `entry`) when the count ran out, or else flag a transfer for
/// the next line only in repeat mode.
#[verifier::opaque]
pub open spec fn hdma_line_state(s: BusState, k: int, vals: Seq<u8>, entry: Seq<u8>) -> BusState {
    let counter = hdma_line_transferred(s, k, vals).channels[k].hdma_line_counter;
    let st = hdma_line_stepped(s, k, vals);
    if hdma_counter_step(counter) & 0x7F == 0 {
        hdma_entry_state(st, k, entry)
    } else {
        BusState {
            channels: st.channels.update(k, DmaChannel { hdma_do_transfer: counter & 0x80 != 0, ..st.channels[k] }),
            ..st
        }
    }
}

/// `vals` and `entry` hold what that line's reads gave.
#[verifier::opaque]
pub open spec fn hdma_line_ok(s: BusState, k: int, vals: Seq<u8>, entry: Seq<u8>) -> bool {
    let c0 = s.channels[k];
    let counter = hdma_line_transferred(s, k, vals).channels[k].hdma_line_counter;
    &&& c0.hdma_do_transfer ==> hdma_bytes_ok(s, k, c0, vals, hdma_unit_len(c0))
    &&& hdma_counter_step(counter) & 0x7F == 0 ==> hdma_entry_ok(hdma_line_stepped(s, k, vals), k, entry)
}

/// A channel HDMA runs this line: enabled in `mask` and not terminated.
pub open spec fn hdma_active(s: BusState, mask: u8, k: int) -> bool {
    enabled(mask, k) && !s.channels[k].hdma_terminated
}

/// Bus model after one scanline of HDMA on the first `k` channels, channel
/// `j` reading `transfers[j]` and `entries[j]`.
pub open spec fn hdma_lines(s: BusState, mask: u8, transfers: Seq<Seq<u8>>, entries: Seq<Seq<u8>>, k: nat) -> BusState
    decreases k,
{
    if k == 0 {
        s
    } else {
        let p = hdma_lines(s, mask, transfers, entries, (k - 1) as nat);
        if hdma_active(p, mask, k - 1) {
            hdma_line_state(p, k - 1, transfers[k - 1], entries[k - 1])
        } else {
            p
        }
    }
}

/// The reads of every active channel among the first `n` are recorded.
pub open spec fn hdma_lines_ok(s: BusState, mask: u8, transfers: Seq<Seq<u8>>, entries: Seq<Seq<u8>>, n: nat) -> bool {
    forall|k: nat| #![trigger hdma_lines(s, mask, transfers, entries, k)] k < n && hdma_active(
        hdma_lines(s, mask, transfers, entries, k),
        mask,
        k as int,
    ) ==> hdma_line_ok(hdma_lines(s, mask, transfers, entries, k), k as int, transfers[k as int], entries[k as int])
}

/// `new` is `s` after one scanline of HDMA whose reads gave `transfers`
/// and `entries`: exactly what moving each byte through the ordinary
/// dispatch gives.
pub open spec fn hdma_line_moved(s: BusState, new: BusState, transfers: Seq<Seq<u8>>, entries: Seq<Seq<u8>>) -> bool {
    &&& transfers.len() == 8
    &&& entries.len() == 8
    &&& hdma_lines_ok(s, s.hdmaen, transfers, entries, 8)
    &&& new == hdma_lines(s, s.hdmaen, transfers, entries, 8)
}

/// Channel `c` at the start of a frame: an enabled one restarts its table
/// at the source address and will transfer; a disabled one is terminated.
pub open spec fn hdma_restart(c: DmaChannel, on: bool) -> DmaChannel {
    if on {
        DmaChannel { hdma_addr: c.src_addr, hdma_terminated: false, hdma_do_transfer: true, ..c }
    } else {
        DmaChannel { hdma_terminated: true, ..c }
    }
}

/// The bus model with every channel restarted for a new frame.
pub open spec fn hdma_restarted(s: BusState) -> BusState {
    BusState { channels: Seq::new(8, |k: int| hdma_restart(s.channels[k], enabled(s.hdmaen, k))), ..s }
}

/// Bus model after the first `k` active channels loaded their first table
/// entry, channel `j`'s reads giving `entries[j]`.
pub open spec fn hdma_entries(s: BusState, mask: u8, entries: Seq<Seq<u8>>, k: nat) -> BusState
    decreases k,
{
    if k == 0 {
        s
    } else {
        let p = hdma_entries(s, mask, entries, (k - 1) as nat);
        if hdma_active(p, mask, k - 1) {
            hdma_entry_state(p, k - 1, entries[k - 1])
        } else {
            p
        }
    }
}

/// The reads of every active channel among the first `n` are recorded.
pub open spec fn hdma_entries_ok(s: BusState, mask: u8, entries: Seq<Seq<u8>>, n: nat) -> bool {
    forall|k: nat| #![trigger hdma_entries(s, mask, entries, k)] k < n && hdma_active(
        hdma_entries(s, mask, entries, k),
        mask,
        k as int,
    ) ==> hdma_entry_ok(hdma_entries(s, mask, entries, k), k as int, entries[k as int])
}

/// `new` is `s` after HDMA started a frame, the entry loads reading
/// `entries`: every channel restarted, then each active one loaded its
/// first entry through the ordinary read dispatch.
pub open spec fn hdma_frame_started(s: BusState, new: BusState, entries: Seq<Seq<u8>>) -> bool {
    &&& entries.len() == 8
    &&& hdma_entries_ok(hdma_restarted(s), s.hdmaen, entries, 8)
    &&& new == hdma_entries(hdma_restarted(s), s.hdmaen, entries, 8)
}

/// B-bus register that byte `i` of a transfer on registers `c0` goes to.
pub open spec fn hdma_b_addr(c0: DmaChannel, i: int) -> u16 {
    (0x2100 + c0.dest + DMA_TRANSFER_PATTERNS@[(c0.control & 0x07) as int]@[i]) as u16
}

/// The calls on the peripherals of byte `i` of a scanline's transfer (the
/// read from the data source, then the write to the B-bus register), as
/// in `hdma_byte`.
pub open spec fn hdma_byte_calls(s: BusState, ch: int, c0: DmaChannel, i: int, v: u8) -> Seq<IoRequest> {
    let indirect = c0.control & 0x40 != 0;
    let src = hdma_source(s.channels[ch], indirect);
    let r = read_state(s, src.0, src.1);
    let stepped = BusState { channels: r.channels.update(ch, hdma_source_stepped(r.channels[ch], indirect)), ..r };
    read_requests(s, bus_target(s.map_mode, src.0, src.1), v) + write_requests(
        stepped,
        bus_target(stepped.map_mode, 0, hdma_b_addr(c0, i)),
        v,
    )
}

/// The calls of the first `i` bytes of that transfer.
pub open spec fn hdma_bytes_calls(s: BusState, ch: int, c0: DmaChannel, vals: Seq<u8>, i: nat) -> Seq<IoRequest>
    decreases i,
{
    if i == 0 {
        Seq::empty()
    } else {
        hdma_bytes_calls(s, ch, c0, vals, (i - 1) as nat) + hdma_byte_calls(
            hdma_bytes(s, ch, c0, vals, (i - 1) as nat),
            ch,
            c0,
            i - 1,
            vals[i - 1],
        )
    }
}

/// The calls of loading channel `ch`'s next table entry, as in
/// `hdma_entry_state`: the count read, then in indirect mode the two
/// address reads.
pub open spec fn hdma_entry_calls(s: BusState, ch: int, bytes: Seq<u8>) -> Seq<IoRequest> {
    let c = s.channels[ch];
    let count = read_requests(s, bus_target(s.map_mode, c.src_bank, c.hdma_addr), bytes[0]);
    if bytes[0] != 0 && c.control & 0x40 != 0 {
        let s1 = hdma_count_read(s, ch, bytes[0]);
        let c1 = s1.channels[ch];
        let r2 = read_state(s1, c1.src_bank, c1.hdma_addr);
        count + read_requests(s1, bus_target(s1.map_mode, c1.src_bank, c1.hdma_addr), bytes[1]) + read_requests(
            r2,
            bus_target(r2.map_mode, c1.src_bank, c1.hdma_addr.wrapping_add(1)),
            bytes[2],
        )
    } else {
        count
    }
}

/// The calls of one scanline of HDMA on active channel `k`, as in
/// `hdma_line_state`.
pub open spec fn hdma_line_calls(s: BusState, k: int, vals: Seq<u8>, entry: Seq<u8>) -> Seq<IoRequest> {
    let c0 = s.channels[k];
    let counter = hdma_line_transferred(s, k, vals).channels[k].hdma_line_counter;
    (if c0.hdma_do_transfer { hdma_bytes_calls(s, k, c0, vals, hdma_unit_len(c0)) } else { Seq::empty() }) + (
    if hdma_counter_step(counter) & 0x7F == 0 {
        hdma_entry_calls(hdma_line_stepped(s, k, vals), k, entry)
    } else {
        Seq::empty()
    })
}

/// The calls of one scanline of HDMA on the first `k` channels.
pub open spec fn hdma_lines_calls(
    s: BusState,
    mask: u8,
    transfers: Seq<Seq<u8>>,
    entries: Seq<Seq<u8>>,
    k: nat,
) -> Seq<IoRequest>
    decreases k,
{
    if k == 0 {
        Seq::empty()
    } else {
        let p = hdma_lines(s, mask, transfers, entries, (k - 1) as nat);
        hdma_lines_calls(s, mask, transfers, entries, (k - 1) as nat) + if hdma_active(p, mask, k - 1) {
            hdma_line_calls(p, k - 1, transfers[k - 1], entries[k - 1])
        } else {
            Seq::empty()
        }
    }
}

/// The calls of the first `k` active channels loading their first entry.
pub open spec fn hdma_entries_calls(s: BusState, mask: u8, entries: Seq<Seq<u8>>, k: nat) -> Seq<IoRequest>
    decreases k,
{
    if k == 0 {
        Seq::empty()
    } else {
        let p = hdma_entries(s, mask, entries, (k - 1) as nat);
        hdma_entries_calls(s, mask, entries, (k - 1) as nat) + if hdma_active(p, mask, k - 1) {
            hdma_entry_calls(p, k - 1, entries[k - 1])
        } else {
            Seq::empty()
        }
    }
}

/// Number of bytes one scanline of HDMA moves on channel `c`.
pub open spec fn hdma_unit_len(c: DmaChannel) -> nat {
    DMA_TRANSFER_SIZES@[(c.control & 0x07) as int] as nat
}

/// The first `i` bytes of a transfer depend on the first `i` bytes read.
proof fn lemma_hdma_bytes_prefix(s: BusState, ch: int, c0: DmaChannel, vals: Seq<u8>, vals2: Seq<u8>, i: nat)
    requires
        i <= vals.len(),
        i <= vals2.len(),
        forall|j: int| 0 <= j < i ==> vals[j] == vals2[j],
    ensures
        hdma_bytes(s, ch, c0, vals, i) == hdma_bytes(s, ch, c0, vals2, i),
        hdma_bytes_calls(s, ch, c0, vals, i) == hdma_bytes_calls(s, ch, c0, vals2, i),
    decreases i,
{
    if i > 0 {
        lemma_hdma_bytes_prefix(s, ch, c0, vals, vals2, (i - 1) as nat);
    }
}

proof fn lemma_hdma_bytes_extend(s: BusState, ch: int, c0: DmaChannel, vals: Seq<u8>, v: u8, i: nat)
    requires
        hdma_bytes_ok(s, ch, c0, vals, i),
        ({
            let p = hdma_bytes(s, ch, c0, vals, i);
            let src = hdma_source(p.channels[ch], c0.control & 0x40 != 0);
            read_value(p, src.0, src.1) matches Some(x) ==> v == x
        }),
    ensures
        hdma_bytes_ok(s, ch, c0, vals.push(v), i + 1),
        hdma_bytes(s, ch, c0, vals.push(v), i + 1) == hdma_byte(hdma_bytes(s, ch, c0, vals, i), ch, c0, i as int, v),
        hdma_bytes_calls(s, ch, c0, vals.push(v), i + 1) == hdma_bytes_calls(s, ch, c0, vals, i) + hdma_byte_calls(
            hdma_bytes(s, ch, c0, vals, i),
            ch,
            c0,
            i as int,
            v,
        ),
{
    let vals2 = vals.push(v);
    lemma_hdma_bytes_prefix(s, ch, c0, vals, vals2, i);
    assert forall|j: nat| #![trigger hdma_bytes(s, ch, c0, vals2, j)] j < i + 1 implies {
        let p = hdma_bytes(s, ch, c0, vals2, j);
        let src = hdma_source(p.channels[ch], c0.control & 0x40 != 0);
        read_value(p, src.0, src.1) matches Some(x) ==> vals2[j as int] == x
    } by {
        lemma_hdma_bytes_prefix(s, ch, c0, vals, vals2, j);
        if j < i {
            assert(hdma_bytes(s, ch, c0, vals, j) == hdma_bytes(s, ch, c0, vals2, j));
        }
    }
}

/// The calls of one HDMA byte are those of its read from `before` and of
/// its write from `s1`, the bus after the read and the source step.
proof fn lemma_byte_calls_split(
    before: BusState,
    s1: BusState,
    ch: int,
    c0: DmaChannel,
    i: int,
    v: u8,
    q0: Seq<IoRequest>,
    q1: Seq<IoRequest>,
    q2: Seq<IoRequest>,
)
    requires
        ({
            let indirect = c0.control & 0x40 != 0;
            let src = hdma_source(before.channels[ch], indirect);
            let r = read_state(before, src.0, src.1);
            &&& s1 == (BusState { channels: r.channels.update(ch, hdma_source_stepped(r.channels[ch], indirect)), ..r })
            &&& q1 == q0 + read_requests(before, bus_target(before.map_mode, src.0, src.1), v)
            &&& q2 == q1 + write_requests(s1, bus_target(s1.map_mode, 0, hdma_b_addr(c0, i)), v)
        }),
    ensures
        q2 == q0 + hdma_byte_calls(before, ch, c0, i, v),
{
    let indirect = c0.control & 0x40 != 0;
    let src = hdma_source(before.channels[ch], indirect);
    let a = read_requests(before, bus_target(before.map_mode, src.0, src.1), v);
    let b = write_requests(s1, bus_target(s1.map_mode, 0, hdma_b_addr(c0, i)), v);
    assert(q0 + a + b =~= q0 + (a + b));
}

/// A 16-bit address stepped by one more, written modulo 2^16.
proof fn lemma_wrap_step(x: u16, i: int)
    requires
        i >= 0,
    ensures
        (((x as int + i) % 0x10000) as u16).wrapping_add(1) == ((x as int + i + 1) % 0x10000) as u16,
{
    vstd::arithmetic::div_mod::lemma_add_mod_noop(x as int + i, 1, 0x10000);
    vstd::arithmetic::div_mod::lemma_small_mod(1, 0x10000);
    vstd::arithmetic::div_mod::lemma_mod_bound(x as int + i, 0x10000);
    let v = (x as int + i) % 0x10000;
    if v + 1 < 0x10000 {
        vstd::arithmetic::div_mod::lemma_small_mod((v + 1) as nat, 0x10000);
    } else {
        vstd::arithmetic::div_mod::lemma_mod_self_0(0x10000);
    }
}

proof fn lemma_lines_prefix(
    s: BusState,
    mask: u8,
    tr: Seq<Seq<u8>>,
    en: Seq<Seq<u8>>,
    tr2: Seq<Seq<u8>>,
    en2: Seq<Seq<u8>>,
    k: nat,
)
    requires
        k <= tr.len(),
        k <= tr2.len(),
        k <= en.len(),
        k <= en2.len(),
        forall|j: int| 0 <= j < k ==> tr[j] == tr2[j] && en[j] == en2[j],
    ensures
        hdma_lines(s, mask, tr, en, k) == hdma_lines(s, mask, tr2, en2, k),
        hdma_lines_calls(s, mask, tr, en, k) == hdma_lines_calls(s, mask, tr2, en2, k),
    decreases k,
{
    if k > 0 {
        lemma_lines_prefix(s, mask, tr, en, tr2, en2, (k - 1) as nat);
    }
}

/// Recording what active channel `k` read extends the line by it.
proof fn lemma_lines_extend(
    s: BusState,
    mask: u8,
    tr: Seq<Seq<u8>>,
    en: Seq<Seq<u8>>,
    vals: Seq<u8>,
    entry: Seq<u8>,
    k: nat,
)
    requires
        k < 8,
        tr.len() == 8,
        en.len() == 8,
        hdma_lines_ok(s, mask, tr, en, k),
        hdma_active(hdma_lines(s, mask, tr, en, k), mask, k as int)
            ==> hdma_line_ok(hdma_lines(s, mask, tr, en, k), k as int, vals, entry),
    ensures
        hdma_lines_ok(s, mask, tr.update(k as int, vals), en.update(k as int, entry), k + 1),
        hdma_lines(s, mask, tr.update(k as int, vals), en.update(k as int, entry), k + 1) == if hdma_active(
            hdma_lines(s, mask, tr, en, k),
            mask,
            k as int,
        ) {
            hdma_line_state(hdma_lines(s, mask, tr, en, k), k as int, vals, entry)
        } else {
            hdma_lines(s, mask, tr, en, k)
        },
        hdma_lines_calls(s, mask, tr.update(k as int, vals), en.update(k as int, entry), k + 1) == hdma_lines_calls(
            s,
            mask,
            tr,
            en,
            k,
        ) + if hdma_active(hdma_lines(s, mask, tr, en, k), mask, k as int) {
            hdma_line_calls(hdma_lines(s, mask, tr, en, k), k as int, vals, entry)
        } else {
            Seq::<IoRequest>::empty()
        },
{
    let tr2 = tr.update(k as int, vals);
    let en2 = en.update(k as int, entry);
    lemma_lines_prefix(s, mask, tr, en, tr2, en2, k);
    assert forall|j: nat| #![trigger hdma_lines(s, mask, tr2, en2, j)] j < k + 1 && hdma_active(
        hdma_lines(s, mask, tr2, en2, j),
        mask,
        j as int,
    ) implies hdma_line_ok(hdma_lines(s, mask, tr2, en2, j), j as int, tr2[j as int], en2[j as int]) by {
        lemma_lines_prefix(s, mask, tr, en, tr2, en2, j);
        if j < k {
            assert(hdma_lines(s, mask, tr, en, j) == hdma_lines(s, mask, tr2, en2, j));
        }
    }
}

proof fn lemma_entries_prefix(s: BusState, mask: u8, en: Seq<Seq<u8>>, en2: Seq<Seq<u8>>, k: nat)
    requires
        k <= en.len(),
        k <= en2.len(),
        forall|j: int| 0 <= j < k ==> en[j] == en2[j],
    ensures
        hdma_entries(s, mask, en, k) == hdma_entries(s, mask, en2, k),
        hdma_entries_calls(s, mask, en, k) == hdma_entries_calls(s, mask, en2, k),
    decreases k,
{
    if k > 0 {
        lemma_entries_prefix(s, mask, en, en2, (k - 1) as nat);
    }
}

/// Recording what active channel `k`'s entry load read extends the run.
proof fn lemma_entries_extend(s: BusState, mask: u8, en: Seq<Seq<u8>>, entry: Seq<u8>, k: nat)
    requires
        k < 8,
        en.len() == 8,
        hdma_entries_ok(s, mask, en, k),
        hdma_active(hdma_entries(s, mask, en, k), mask, k as int) ==> hdma_entry_ok(
            hdma_entries(s, mask, en, k),
            k as int,
            entry,
        ),
    ensures
        hdma_entries_ok(s, mask, en.update(k as int, entry), k + 1),
        hdma_entries(s, mask, en.update(k as int, entry), k + 1) == if hdma_active(
            hdma_entries(s, mask, en, k),
            mask,
            k as int,
        ) {
            hdma_entry_state(hdma_entries(s, mask, en, k), k as int, entry)
        } else {
            hdma_entries(s, mask, en, k)
        },
        hdma_entries_calls(s, mask, en.update(k as int, entry), k + 1) == hdma_entries_calls(s, mask, en, k)
            + if hdma_active(hdma_entries(s, mask, en, k), mask, k as int) {
            hdma_entry_calls(hdma_entries(s, mask, en, k), k as int, entry)
        } else {
            Seq::<IoRequest>::empty()
        },
{
    let en2 = en.update(k as int, entry);
    lemma_entries_prefix(s, mask, en, en2, k);
    assert forall|j: nat| #![trigger hdma_entries(s, mask, en2, j)] j < k + 1 && hdma_active(
        hdma_entries(s, mask, en2, j),
        mask,
        j as int,
    ) implies hdma_entry_ok(hdma_entries(s, mask, en2, j), j as int, en2[j as int]) by {
        lemma_entries_prefix(s, mask, en, en2, j);
        if j < k {
            assert(hdma_entries(s, mask, en, j) == hdma_entries(s, mask, en2, j));
        }
    }
}

impl Bus {
    /// Read one byte for HDMA; the DMA registers are left alone.
    fn hdma_read<P: Peripherals>(&mut self, io: &mut P, bank: u8, addr: u16) -> (v: u8)
        requires
            old(self).wf(),
        ensures
            hdma_frame(old(self)@, final(self)@),
            final(self)@ == read_state(old(self)@, bank, addr),
            final(self)@.channels == old(self)@.channels,
            final(self).hdmaen == old(self).hdmaen,
            read_value(old(self)@, bank, addr) matches Some(x) ==> v == x,
            final(io).calls() == old(io).calls() + read_requests(old(self)@, bus_target(old(self)@.map_mode, bank, addr), v),
    {
        let ghost s0 = self@;
        let v = self.read(io, bank, addr);
        proof {
            lemma_read_state_frame(s0, bank, addr);
        }
        v
    }

    /// Load the next HDMA table entry of channel `ch`: a line-count byte
    /// (0 terminates the channel) and, in indirect mode, a 16-bit data
    /// address, which is kept in the size registers.
    #[verifier::spinoff_prover]
    fn hdma_load_entry<P: Peripherals>(&mut self, io: &mut P, ch: u8) -> (bytes: Ghost<Seq<u8>>)
        requires
            old(self).wf(),
            ch < 8,
            !old(self)@.channels[ch as int].hdma_terminated,
        ensures
            hdma_frame(old(self)@, final(self)@),
            final(self).hdmaen == old(self).hdmaen,
            final(self)@.channels == old(self)@.channels.update(ch as int, final(self)@.channels[ch as int]),
            hdma_entry_loaded(old(self)@.channels[ch as int], final(self)@.channels[ch as int]),
            ({
                let c0 = old(self)@.channels[ch as int];
                let c1 = final(self)@.channels[ch as int];
                read_value(old(self)@, c0.src_bank, c0.hdma_addr) matches Some(lc) ==> {
                    &&& c1.hdma_terminated == (lc == 0)
                    &&& lc != 0 ==> c1.hdma_line_counter == lc
                }
            }),
            hdma_entry_ok(old(self)@, ch as int, bytes@),
            final(self)@ == hdma_entry_state(old(self)@, ch as int, bytes@),
            final(io).calls() == old(io).calls() + hdma_entry_calls(old(self)@, ch as int, bytes@),
    {
        proof {
            reveal(hdma_entry_state);
            reveal(hdma_entry_ok);
        }
        let idx = ch as usize;
        let ghost s0 = self@;
        let line_count = self.hdma_read_count(io, idx);
        // Indirect mode: a 16-bit data address follows in the table.
        let indirect = self.dma.channels[idx].control & 0x40 != 0;
        if line_count != 0 && indirect {
            let ghost s1 = self@;
            let ghost q1 = io.calls();
            let (lo, hi) = self.hdma_read_pointer(io, idx);
            proof {
                let a = s0.channels[ch as int].hdma_addr;
                assert(a.wrapping_add(1).wrapping_add(2) == a.wrapping_add(3));
                reveal(hdma_count_read);
                lemma_read_state_frame(s0, s0.channels[ch as int].src_bank, a);
                assert(io.calls() =~= old(io).calls() + hdma_entry_calls(s0, ch as int, seq![line_count, lo, hi]));
            }
            let ghost b = seq![line_count, lo, hi];
            Ghost(b)
        } else {
            let ghost b = seq![line_count];
            assert(io.calls() =~= old(io).calls() + hdma_entry_calls(s0, ch as int, b));
            Ghost(b)
        }
    }

    /// Read the line count of channel `idx`'s next table entry.
    fn hdma_read_count<P: Peripherals>(&mut self, io: &mut P, idx: usize) -> (lc: u8)
        requires
            old(self).wf(),
            idx < 8,
        ensures
            ({
                let c0 = old(self)@.channels[idx as int];
                final(io).calls() == old(io).calls() + read_requests(
                    old(self)@,
                    bus_target(old(self)@.map_mode, c0.src_bank, c0.hdma_addr),
                    lc,
                )
            }),
            hdma_frame(old(self)@, final(self)@),
            final(self).hdmaen == old(self).hdmaen,
            final(self)@ == hdma_count_read(old(self)@, idx as int, lc),
            ({
                let c0 = old(self)@.channels[idx as int];
                &&& read_value(old(self)@, c0.src_bank, c0.hdma_addr) matches Some(x) ==> lc == x
                &&& final(self)@.channels == old(self)@.channels.update(
                    idx as int,
                    if lc == 0 {
                        DmaChannel { hdma_addr: c0.hdma_addr.wrapping_add(1), hdma_terminated: true, ..c0 }
                    } else {
                        DmaChannel {
                            hdma_addr: c0.hdma_addr.wrapping_add(1),
                            hdma_line_counter: lc,
                            hdma_do_transfer: true,
                            ..c0
                        }
                    },
                )
            }),
    {
        let ghost s0 = self@;
        let bank = self.dma.channels[idx].src_bank;
        let addr = self.dma.channels[idx].hdma_addr;
        let line_count = self.hdma_read(io, bank, addr);
        self.dma.channels[idx].hdma_addr = addr.wrapping_add(1);
        if line_count == 0 {
            self.dma.channels[idx].hdma_terminated = true;
        } else {
            self.dma.channels[idx].hdma_line_counter = line_count;
            self.dma.channels[idx].hdma_do_transfer = true;
        }
        proof {
            reveal(hdma_count_read);
            assert(self@.channels =~= hdma_count_read(s0, idx as int, line_count).channels);
        }
        line_count
    }

    /// Read the 16-bit indirect data address at channel `idx`'s table
    /// address into its size registers.
    fn hdma_read_pointer<P: Peripherals>(&mut self, io: &mut P, idx: usize) -> (r: (u8, u8))
        requires
            old(self).wf(),
            idx < 8,
        ensures
            ({
                let c0 = old(self)@.channels[idx as int];
                let r2 = read_state(old(self)@, c0.src_bank, c0.hdma_addr);
                final(io).calls() == old(io).calls() + read_requests(
                    old(self)@,
                    bus_target(old(self)@.map_mode, c0.src_bank, c0.hdma_addr),
                    r.0,
                ) + read_requests(r2, bus_target(r2.map_mode, c0.src_bank, c0.hdma_addr.wrapping_add(1)), r.1)
            }),
            hdma_frame(old(self)@, final(self)@),
            final(self).hdmaen == old(self).hdmaen,
            final(self)@ == hdma_pointer_read(old(self)@, idx as int, r.0, r.1),
            ({
                let c0 = old(self)@.channels[idx as int];
                let r2 = read_state(old(self)@, c0.src_bank, c0.hdma_addr);
                &&& read_value(old(self)@, c0.src_bank, c0.hdma_addr) matches Some(x) ==> r.0 == x
                &&& read_value(r2, c0.src_bank, c0.hdma_addr.wrapping_add(1)) matches Some(x) ==> r.1 == x
                &&& final(self)@.channels == old(self)@.channels.update(
                    idx as int,
                    DmaChannel {
                        size: (r.0 as u16) | ((r.1 as u16) << 8),
                        hdma_addr: c0.hdma_addr.wrapping_add(2),
                        ..c0
                    },
                )
            }),
    {
        let ghost s0 = self@;
        let bank = self.dma.channels[idx].src_bank;
        let tbl_addr = self.dma.channels[idx].hdma_addr;
        let lo8 = self.hdma_read(io, bank, tbl_addr);
        proof {
            lemma_read_state_frame(s0, bank, tbl_addr);
        }
        let hi8 = self.hdma_read(io, bank, tbl_addr.wrapping_add(1));
        let lo = lo8 as u16;
        let hi = hi8 as u16;
        self.dma.channels[idx].size = lo | (hi << 8);
        self.dma.channels[idx].hdma_addr = tbl_addr.wrapping_add(2);
        proof {
            reveal(hdma_pointer_read);
            assert(self@.channels =~= hdma_pointer_read(s0, idx as int, lo8, hi8).channels);
        }
        (lo8, hi8)
    }

    /// Initialize HDMA at the start of a frame: disabled channels are
    /// marked terminated; enabled ones restart their table at the source
    /// address and load its first entry. Nothing happens when no channel
    /// is enabled.
    #[verifier::spinoff_prover]
    pub fn hdma_init_frame<P: Peripherals>(&mut self, io: &mut P)
        requires
            old(self).wf(),
        ensures
            old(self).hdmaen == 0 ==> final(self)@ == old(self)@ && *final(io) == *old(io),
            hdma_frame(old(self)@, final(self)@),
            final(self).hdmaen == old(self).hdmaen,
            old(self).hdmaen != 0 ==> forall|k: int| 0 <= k < 8 ==> {
                let c0 = #[trigger] old(self)@.channels[k];
                let c1 = final(self)@.channels[k];
                &&& !enabled(old(self).hdmaen, k) ==> c1 == DmaChannel { hdma_terminated: true, ..c0 }
                &&& enabled(old(self).hdmaen, k) ==> hdma_entry_loaded(
                    DmaChannel { hdma_addr: c0.src_addr, hdma_terminated: false, hdma_do_transfer: true, ..c0 },
                    c1,
                )
            },
            old(self).hdmaen != 0 ==> exists|en: Seq<Seq<u8>>|
                #[trigger] hdma_frame_started(old(self)@, final(self)@, en) && final(io).calls() == old(io).calls()
                    + hdma_entries_calls(hdma_restarted(old(self)@), old(self).hdmaen, en, 8),
    {
        if self.hdmaen == 0 {
            return;
        }
        let ghost start = self@;
        let mut ch: u8 = 0;
        while ch < 8
            invariant
                self.wf(),
                start == old(self)@,
                start.hdmaen != 0,
                ch <= 8,
                hdma_frame(start, self@),
                self.hdmaen == start.hdmaen,
                self@.channels.len() == 8,
                self@ == (BusState { channels: self@.channels, ..start }),
                forall|k: int| 0 <= k < 8 ==> #[trigger] self@.channels[k] == if k >= ch {
                    start.channels[k]
                } else if enabled(start.hdmaen, k) {
                    DmaChannel { hdma_addr: start.channels[k].src_addr, hdma_terminated: false, hdma_do_transfer: true, ..start.channels[k] }
                } else {
                    DmaChannel { hdma_terminated: true, ..start.channels[k] }
                },
            decreases 8 - ch,
        {
            if self.hdmaen & (1 << ch) == 0 {
                self.dma.channels[ch as usize].hdma_terminated = true;
            } else {
                let src = self.dma.channels[ch as usize].src_addr;
                self.dma.channels[ch as usize].hdma_addr = src;
                self.dma.channels[ch as usize].hdma_terminated = false;
                self.dma.channels[ch as usize].hdma_do_transfer = true;
            }
            proof {
                let m = start.hdmaen;
                let c = ch;
                assert((m & (1u8 << c) == 0) == !((m >> c) & 1 == 1)) by (bit_vector)
                    requires
                        c < 8,
                ;
            }
            ch = ch + 1;
        }
        let ghost mid = self@;
        proof {
            assert(mid.channels =~= hdma_restarted(start).channels);
        }
        let ghost mut en: Seq<Seq<u8>> = Seq::new(8, |i: int| Seq::<u8>::empty());
        let ghost q0 = io.calls();
        assert(q0 + Seq::<IoRequest>::empty() =~= q0);
        // Load the first table entry of each enabled channel.
        let mut ch: u8 = 0;
        while ch < 8
            invariant
                self.wf(),
                mid == hdma_restarted(start),
                en.len() == 8,
                hdma_entries_ok(mid, start.hdmaen, en, ch as nat),
                self@ == hdma_entries(mid, start.hdmaen, en, ch as nat),
                q0 == old(io).calls(),
                io.calls() == q0 + hdma_entries_calls(mid, start.hdmaen, en, ch as nat),
                start == old(self)@,
                start.hdmaen != 0,
                ch <= 8,
                hdma_frame(start, self@),
                self.hdmaen == start.hdmaen,
                self@.channels.len() == 8,
                mid.channels.len() == 8,
                forall|k: int| 0 <= k < 8 ==> #[trigger] mid.channels[k] == if enabled(start.hdmaen, k) {
                    DmaChannel { hdma_addr: start.channels[k].src_addr, hdma_terminated: false, hdma_do_transfer: true, ..start.channels[k] }
                } else {
                    DmaChannel { hdma_terminated: true, ..start.channels[k] }
                },
                forall|k: int| 0 <= k < 8 ==> {
                    &&& (k >= ch || !enabled(start.hdmaen, k)) ==> #[trigger] self@.channels[k] == mid.channels[k]
                    &&& (k < ch && enabled(start.hdmaen, k)) ==> hdma_entry_loaded(mid.channels[k], self@.channels[k])
                },
            decreases 8 - ch,
        {
            let on = self.hdmaen & (1 << ch) != 0;
            proof {
                let m = start.hdmaen;
                let c = ch;
                assert((m & (1u8 << c) != 0) == ((m >> c) & 1 == 1)) by (bit_vector)
                    requires
                        c < 8,
                ;
            }
            let ghost mut entry: Seq<u8> = Seq::empty();
            if on && !self.dma.channels[ch as usize].hdma_terminated {
                let Ghost(e) = self.hdma_load_entry(io, ch);
                proof {
                    entry = e;
                }
            }
            proof {
                lemma_entries_extend(mid, start.hdmaen, en, entry, ch as nat);
                assert(io.calls() =~= q0 + hdma_entries_calls(mid, start.hdmaen, en.update(ch as int, entry), ch as nat + 1));
                en = en.update(ch as int, entry);
            }
            ch = ch + 1;
        }
        proof {
            assert(hdma_frame_started(start, self@, en));
        }
    }

    /// One byte of an HDMA transfer: read it from the channel's data
    /// source, step the source address, write it to `b_addr`.
    #[verifier::spinoff_prover]
    #[verifier::rlimit(60)]
    fn hdma_transfer_byte<P: Peripherals>(
        &mut self,
        io: &mut P,
        idx: usize,
        indirect: bool,
        b_addr: u16,
        Ghost(c0): Ghost<DmaChannel>,
        Ghost(i): Ghost<int>,
    ) -> (v: u8)
        requires
            old(self).wf(),
            idx < 8,
            indirect == (c0.control & 0x40 != 0),
            0x2100 <= b_addr <= 0x2202,
            b_addr == (0x2100 + c0.dest + DMA_TRANSFER_PATTERNS@[(c0.control & 0x07) as int]@[i]) as u16,
        ensures
            final(self).wf(),
            final(self)@ == hdma_byte(old(self)@, idx as int, c0, i, v),
            ({
                let src = hdma_source(old(self)@.channels[idx as int], indirect);
                read_value(old(self)@, src.0, src.1) matches Some(x) ==> v == x
            }),
            hdma_frame(old(self)@, final(self)@),
            final(self).hdmaen == old(self).hdmaen,
            final(self)@.channels == old(self)@.channels.update(
                idx as int,
                hdma_source_stepped(old(self)@.channels[idx as int], indirect),
            ),
            final(io).calls() == old(io).calls() + hdma_byte_calls(old(self)@, idx as int, c0, i, v),
    {
        proof {
            reveal(hdma_byte);
        }
        let ghost before = self@;
        let val = if indirect {
            // Indirect: bank from $43x7, address from $43x5-$43x6.
            let data_bank = self.dma.channels[idx].hdma_indirect_bank;
            let data_addr = self.dma.channels[idx].size;
            let v = self.hdma_read(io, data_bank, data_addr);
            self.dma.channels[idx].size = data_addr.wrapping_add(1);
            v
        } else {
            // Direct: bank from $43x4, address from $43x8-$43x9.
            let bank = self.dma.channels[idx].src_bank;
            let addr = self.dma.channels[idx].hdma_addr;
            let v = self.hdma_read(io, bank, addr);
            self.dma.channels[idx].hdma_addr = addr.wrapping_add(1);
            v
        };
        let ghost s1 = self@;
        proof {
            assert(s1.channels =~= before.channels.update(
                idx as int,
                hdma_source_stepped(before.channels[idx as int], indirect),
            ));
            let src = hdma_source(before.channels[idx as int], indirect);
            lemma_read_state_frame(before, src.0, src.1);
        }
        // Write to the B-bus register through `write`, as the CPU does.
        let ghost q1 = io.calls();
        self.write_inner(io, 0x00, b_addr, val, true);
        proof {
            lemma_byte_calls_split(before, s1, idx as int, c0, i, val, old(io).calls(), q1, io.calls());
            lemma_write_state_frame(s1, 0x00, b_addr, val);
            lemma_b_bus_write_keeps_channels(s1, b_addr, val);
            assert((0x00u8 & 0x7F) == 0) by (bit_vector);
        }
        val
    }

    /// Move one scanline's worth of HDMA data for channel `ch` to its
    /// B-bus registers, reading from the indirect data address (which
    /// advances) or from the table (whose address advances).
    #[verifier::spinoff_prover]
    #[verifier::rlimit(40)]
    fn hdma_transfer<P: Peripherals>(&mut self, io: &mut P, ch: u8) -> (vals: Ghost<Seq<u8>>)
        requires
            old(self).wf(),
            ch < 8,
        ensures
            hdma_frame(old(self)@, final(self)@),
            final(self).hdmaen == old(self).hdmaen,
            final(self)@.channels == old(self)@.channels.update(
                ch as int,
                hdma_transferred(old(self)@.channels[ch as int]),
            ),
            hdma_bytes_ok(
                old(self)@,
                ch as int,
                old(self)@.channels[ch as int],
                vals@,
                hdma_unit_len(old(self)@.channels[ch as int]),
            ),
            final(self)@ == hdma_bytes(
                old(self)@,
                ch as int,
                old(self)@.channels[ch as int],
                vals@,
                hdma_unit_len(old(self)@.channels[ch as int]),
            ),
            final(io).calls() == old(io).calls() + hdma_bytes_calls(
                old(self)@,
                ch as int,
                old(self)@.channels[ch as int],
                vals@,
                hdma_unit_len(old(self)@.channels[ch as int]),
            ),
    {
        let idx = ch as usize;
        let ghost c0 = self@.channels[ch as int];
        let control = self.dma.channels[idx].control;
        let mode = (control & 0x07) as usize;
        assert(control & 0x07 < 8) by (bit_vector);
        let indirect = control & 0x40 != 0;
        let dest_base: u16 = 0x2100u16 + self.dma.channels[idx].dest as u16;
        let transfer_size = DMA_TRANSFER_SIZES[mode];
        let pattern = DMA_TRANSFER_PATTERNS[mode];
        let ghost start = self@;
        let ghost mut vals: Seq<u8> = Seq::empty();
        let ghost q0 = io.calls();
        assert(q0 + Seq::<IoRequest>::empty() =~= q0);
        let mut i: u8 = 0;
        while i < transfer_size
            invariant
                q0 == old(io).calls(),
                io.calls() == q0 + hdma_bytes_calls(start, ch as int, c0, vals, i as nat),
                self.wf(),
                ch < 8,
                idx == ch,
                start == old(self)@,
                mode == (c0.control & 0x07) as int,
                pattern == DMA_TRANSFER_PATTERNS@[mode as int],
                transfer_size == DMA_TRANSFER_SIZES@[mode as int],
                dest_base == 0x2100 + c0.dest,
                hdma_bytes_ok(start, ch as int, c0, vals, i as nat),
                self@ == hdma_bytes(start, ch as int, c0, vals, i as nat),
                c0 == start.channels[ch as int],
                indirect == (c0.control & 0x40 != 0),
                transfer_size <= 4,
                i <= transfer_size,
                forall|j: int| 0 <= j < 4 ==> pattern@[j] <= 3,
                0x2100 <= dest_base <= 0x21FF,
                hdma_frame(start, self@),
                self.hdmaen == start.hdmaen,
                self@.channels == start.channels.update(
                    ch as int,
                    if indirect {
                        DmaChannel { size: ((c0.size as int + i) % 0x10000) as u16, ..c0 }
                    } else {
                        DmaChannel { hdma_addr: ((c0.hdma_addr as int + i) % 0x10000) as u16, ..c0 }
                    },
                ),
            decreases transfer_size - i,
        {
            let b_addr: u16 = dest_base + pattern[i as usize] as u16;
            let ghost before = self@;
            let ghost qb = io.calls();
            let val = self.hdma_transfer_byte(io, idx, indirect, b_addr, Ghost(c0), Ghost(i as int));
            proof {
                lemma_hdma_bytes_extend(start, ch as int, c0, vals, val, i as nat);
                assert(io.calls() =~= q0 + (hdma_bytes_calls(start, ch as int, c0, vals, i as nat) + hdma_byte_calls(
                    before,
                    ch as int,
                    c0,
                    i as int,
                    val,
                )));
                vals = vals.push(val);
                lemma_wrap_step(c0.size, i as int);
                lemma_wrap_step(c0.hdma_addr, i as int);
                assert(self@.channels =~= start.channels.update(
                    ch as int,
                    if indirect {
                        DmaChannel { size: ((c0.size as int + i + 1) % 0x10000) as u16, ..c0 }
                    } else {
                        DmaChannel { hdma_addr: ((c0.hdma_addr as int + i + 1) % 0x10000) as u16, ..c0 }
                    },
                ));
            }
            i = i + 1;
        }
        Ghost(vals)
    }

    /// One scanline of HDMA on active channel `ch`. Returns what the
    /// transfer and the entry load read.
    #[verifier::spinoff_prover]
    #[verifier::rlimit(60)]
    fn hdma_channel_line<P: Peripherals>(&mut self, io: &mut P, ch: u8) -> (r: (Ghost<Seq<u8>>, Ghost<Seq<u8>>))
        requires
            old(self).wf(),
            ch < 8,
            !old(self)@.channels[ch as int].hdma_terminated,
        ensures
            hdma_frame(old(self)@, final(self)@),
            final(self).hdmaen == old(self).hdmaen,
            final(self)@ == hdma_line_state(old(self)@, ch as int, r.0@, r.1@),
            hdma_line_ok(old(self)@, ch as int, r.0@, r.1@),
            final(self)@.channels == old(self)@.channels.update(ch as int, final(self)@.channels[ch as int]),
            hdma_line_done(old(self)@.channels[ch as int], final(self)@.channels[ch as int]),
            final(io).calls() == old(io).calls() + hdma_line_calls(old(self)@, ch as int, r.0@, r.1@),
    {
        proof {
            reveal(hdma_line_state);
            reveal(hdma_line_ok);
        }
        let idx = ch as usize;
        let ghost c0 = self@.channels[ch as int];
        let ghost s0 = self@;
        let ghost mut vals: Seq<u8> = Seq::empty();
        let ghost mut entry: Seq<u8> = seq![0u8];
        let ghost q0 = io.calls();
        if self.dma.channels[idx].hdma_do_transfer {
            let Ghost(v) = self.hdma_transfer(io, ch);
            proof {
                vals = v;
            }
        }
        let ghost t = self@;
        let ghost qt = io.calls();
        assert(t == hdma_line_transferred(s0, ch as int, vals));
        assert(qt =~= q0 + (if c0.hdma_do_transfer {
            hdma_bytes_calls(s0, ch as int, c0, vals, hdma_unit_len(c0))
        } else {
            Seq::<IoRequest>::empty()
        }));
        // Step the line counter (bits 0-6 only).
        let counter = self.dma.channels[idx].hdma_line_counter;
        let new_count = (counter & 0x80) | ((counter & 0x7F).wrapping_sub(1) & 0x7F);
        self.dma.channels[idx].hdma_line_counter = new_count;
        proof {
            assert(self@.channels =~= hdma_line_stepped(s0, ch as int, vals).channels);
        }
        if new_count & 0x7F == 0 {
            let Ghost(e) = self.hdma_load_entry(io, ch);
            proof {
                entry = e;
            }
        } else {
            // Repeat mode (bit 7): transfer every line.
            self.dma.channels[idx].hdma_do_transfer = counter & 0x80 != 0;
            proof {
                let st = hdma_line_stepped(s0, ch as int, vals);
                assert(self@.channels =~= st.channels.update(
                    ch as int,
                    DmaChannel { hdma_do_transfer: counter & 0x80 != 0, ..st.channels[ch as int] },
                ));
            }
        }
        proof {
            assert(self@.channels =~= old(self)@.channels.update(ch as int, self@.channels[ch as int]));
            assert(io.calls() =~= q0 + hdma_line_calls(s0, ch as int, vals, entry));
        }
        (Ghost(vals), Ghost(entry))
    }

    /// Run HDMA for one scanline: for each enabled, unterminated channel,
    /// transfer if flagged, step the line counter, and load the next
    /// table entry when the count runs out (otherwise transfer again next
    /// line only in repeat mode, bit 7). The APU is caught up first.
    /// Nothing happens when no channel is enabled. Every byte moves through
    /// the ordinary read and write dispatch (`hdma_line_moved`).
    #[verifier::spinoff_prover]
    pub fn hdma_run_scanline<P: Peripherals>(&mut self, io: &mut P)
        requires
            old(self).wf(),
        ensures
            old(self).hdmaen == 0 ==> final(self)@ == old(self)@ && *final(io) == *old(io),
            hdma_frame(old(self)@, final(self)@),
            final(self).hdmaen == old(self).hdmaen,
            old(self).hdmaen != 0 ==> final(self).last_apu_sync == old(self).master_clock,
            forall|k: int| 0 <= k < 8 && (!enabled(old(self).hdmaen, k) || old(self)@.channels[k].hdma_terminated)
                ==> #[trigger] final(self)@.channels[k] == old(self)@.channels[k],
            forall|k: int| 0 <= k < 8 && enabled(old(self).hdmaen, k) && !old(self)@.channels[k].hdma_terminated
                ==> hdma_line_done(old(self)@.channels[k], #[trigger] final(self)@.channels[k]),
            old(self).hdmaen != 0 ==> exists|tr: Seq<Seq<u8>>, en: Seq<Seq<u8>>|
                #[trigger] hdma_line_moved(synced(old(self)@), final(self)@, tr, en) && final(io).calls() == old(
                    io,
                ).calls() + catch_up_requests(old(self)@) + hdma_lines_calls(
                    synced(old(self)@),
                    old(self).hdmaen,
                    tr,
                    en,
                    8,
                ),
    {
        if self.hdmaen == 0 {
            proof {
                lemma_mask_enabled(self.hdmaen);
            }
            return;
        }
        // Catch the APU up before the transfers begin.
        self.sync_apu(io);
        let ghost start = self@;
        let ghost q1 = io.calls();
        assert(q1 + Seq::<IoRequest>::empty() =~= q1);
        let ghost mut tr: Seq<Seq<u8>> = Seq::new(8, |i: int| Seq::<u8>::empty());
        let ghost mut en: Seq<Seq<u8>> = Seq::new(8, |i: int| Seq::<u8>::empty());
        let mut ch: u8 = 0;
        while ch < 8
            invariant
                self.wf(),
                ch <= 8,
                start == synced(old(self)@),
                hdma_frame(start, self@),
                self.hdmaen == start.hdmaen,
                self.last_apu_sync == start.master_clock,
                self@.channels.len() == 8,
                tr.len() == 8,
                en.len() == 8,
                hdma_lines_ok(start, start.hdmaen, tr, en, ch as nat),
                self@ == hdma_lines(start, start.hdmaen, tr, en, ch as nat),
                q1 == old(io).calls() + catch_up_requests(old(self)@),
                io.calls() == q1 + hdma_lines_calls(start, start.hdmaen, tr, en, ch as nat),
                forall|k: int| 0 <= k < 8 && (k >= ch || !enabled(start.hdmaen, k) || start.channels[k].hdma_terminated)
                    ==> #[trigger] self@.channels[k] == start.channels[k],
                forall|k: int| 0 <= k < ch && enabled(start.hdmaen, k) && !start.channels[k].hdma_terminated
                    ==> hdma_line_done(start.channels[k], #[trigger] self@.channels[k]),
            decreases 8 - ch,
        {
            let idx = ch as usize;
            let on = self.hdmaen & (1 << ch) != 0;
            proof {
                let m = start.hdmaen;
                let c = ch;
                assert((m & (1u8 << c) != 0) == ((m >> c) & 1 == 1)) by (bit_vector)
                    requires
                        c < 8,
                ;
            }
            let ghost before = self@;
            let ghost qb = io.calls();
            let ghost mut vals: Seq<u8> = Seq::empty();
            let ghost mut entry: Seq<u8> = Seq::empty();
            if on && !self.dma.channels[idx].hdma_terminated {
                let (Ghost(v), Ghost(e)) = self.hdma_channel_line(io, ch);
                proof {
                    vals = v;
                    entry = e;
                    assert forall|k: int| 0 <= k < 8 && (k >= ch + 1 || !enabled(start.hdmaen, k) || start.channels[k].hdma_terminated)
                        implies #[trigger] self@.channels[k] == start.channels[k] by {}
                    assert forall|k: int| 0 <= k < ch + 1 && enabled(start.hdmaen, k) && !start.channels[k].hdma_terminated
                        implies hdma_line_done(start.channels[k], #[trigger] self@.channels[k]) by {}
                }
            }
            proof {
                lemma_lines_extend(start, start.hdmaen, tr, en, vals, entry, ch as nat);
                assert(io.calls() =~= q1 + hdma_lines_calls(start, start.hdmaen, tr.update(ch as int, vals), en.update(
                    ch as int,
                    entry,
                ), ch as nat + 1));
                tr = tr.update(ch as int, vals);
                en = en.update(ch as int, entry);
            }
            ch = ch + 1;
        }
        proof {
            assert(hdma_line_moved(start, self@, tr, en));
            assert(io.calls() == old(io).calls() + catch_up_requests(old(self)@) + hdma_lines_calls(
                start,
                start.hdmaen,
                tr,
                en,
                8,
            ));
        }
    }
}

} // verus!
