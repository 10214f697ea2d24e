//! The SNES memory bus: address decoding and register dispatch.
//!
//! Every CPU read/write and DMA transfer flows through here. A 24-bit
//! address `bank:addr` is decoded (banks `$80-$FF` mirror `$00-$7F`) and
//! routed to WRAM, cartridge ROM/SRAM, the CPU's own registers, the DMA
//! registers, or a peripheral (PPU, APU ports, joypad), which the caller
//! supplies through [`Peripherals`].
use vstd::prelude::*;
use crate::dma::{Dma, DmaChannel, channel_of, reg_of, channel_read, channel_write};
use crate::rom::{Cartridge, MapMode, rom_offset};
use crate::general_dma::{dma_data_moved, dma_calls_made};

verus! {

/// A call the bus makes on the peripherals; a read carries the byte the
/// peripheral answered.
pub enum IoRequest {
    PpuRead { addr: u16, value: u8 },
    PpuWrite { addr: u16, value: u8 },
    ApuRead { port: u8, value: u8 },
    ApuWrite { port: u8, value: u8 },
    /// The APU is run for `master_cycles` master-clock cycles.
    ApuCatchUp { master_cycles: u32 },
    JoypadRead { value: u8 },
    JoypadStrobe { value: u8 },
}

/// The chips behind the B-bus that the bus dispatches to. An
/// implementation is modelled by the calls it has received so far, the
/// byte each read would answer in its current state, and its state after
/// the APU has run; every method records its call.
pub trait Peripherals: Sized {
    /// Every call received so far, in order.
    spec fn calls(&self) -> Seq<IoRequest>;

    /// The byte a read of PPU register `addr` answers in this state.
    spec fn ppu_answer(&self, addr: u16) -> u8;

    /// The byte APU port `port` shows the main CPU in this state.
    spec fn apu_answer(&self, port: u8) -> u8;

    /// The byte a serial joypad read answers in this state.
    spec fn joypad_answer(&self) -> u8;

    /// The chips after the APU has run for `master_cycles` master cycles.
    spec fn after_catch_up(&self, master_cycles: u32) -> Self;

    /// A PPU register read (`$2134-$213F`).
    fn ppu_read(&mut self, addr: u16) -> (v: u8)
        ensures
            v == old(self).ppu_answer(addr),
            final(self).calls() == old(self).calls().push(IoRequest::PpuRead { addr, value: v }),
    ;

    /// A PPU register write (`$2100-$213F`).
    fn ppu_write(&mut self, addr: u16, val: u8)
        ensures
            final(self).calls() == old(self).calls().push(IoRequest::PpuWrite { addr, value: val }),
    ;

    /// The main CPU reads APU port `port` (0-3).
    fn apu_read(&mut self, port: u8) -> (v: u8)
        ensures
            v == old(self).apu_answer(port),
            final(self).calls() == old(self).calls().push(IoRequest::ApuRead { port, value: v }),
    ;

    /// The main CPU writes APU port `port` (0-3).
    fn apu_write(&mut self, port: u8, val: u8)
        ensures
            final(self).calls() == old(self).calls().push(IoRequest::ApuWrite { port, value: val }),
    ;

    /// Run the APU for `master_cycles` master-clock cycles.
    fn apu_catch_up(&mut self, master_cycles: u32)
        ensures
            *final(self) == old(self).after_catch_up(master_cycles),
            final(self).calls() == old(self).calls().push(IoRequest::ApuCatchUp { master_cycles }),
    ;

    /// Serial joypad read (`$4016`).
    fn joypad_read_serial(&mut self) -> (v: u8)
        ensures
            v == old(self).joypad_answer(),
            final(self).calls() == old(self).calls().push(IoRequest::JoypadRead { value: v }),
    ;

    /// Joypad strobe write (`$4016`).
    fn joypad_write_strobe(&mut self, val: u8)
        ensures
            final(self).calls() == old(self).calls().push(IoRequest::JoypadStrobe { value: val }),
    ;
}

/// No chips attached: every read answers 0 and writes go nowhere; the
/// calls are still recorded.
pub struct NoChips {
    pub received: Ghost<Seq<IoRequest>>,
}

impl NoChips {
    pub fn new() -> (c: Self)
        ensures
            c.calls() == Seq::<IoRequest>::empty(),
    {
        NoChips { received: Ghost(Seq::empty()) }
    }
}

impl Peripherals for NoChips {
    open spec fn calls(&self) -> Seq<IoRequest> {
        self.received@
    }

    open spec fn ppu_answer(&self, addr: u16) -> u8 {
        0
    }

    open spec fn apu_answer(&self, port: u8) -> u8 {
        0
    }

    open spec fn joypad_answer(&self) -> u8 {
        0
    }

    open spec fn after_catch_up(&self, master_cycles: u32) -> Self {
        NoChips { received: Ghost(self.received@.push(IoRequest::ApuCatchUp { master_cycles })) }
    }

    fn ppu_read(&mut self, addr: u16) -> (v: u8) {
        self.received = Ghost(self.received@.push(IoRequest::PpuRead { addr, value: 0 }));
        0
    }

    fn ppu_write(&mut self, addr: u16, val: u8) {
        self.received = Ghost(self.received@.push(IoRequest::PpuWrite { addr, value: val }));
    }

    fn apu_read(&mut self, port: u8) -> (v: u8) {
        self.received = Ghost(self.received@.push(IoRequest::ApuRead { port, value: 0 }));
        0
    }

    fn apu_write(&mut self, port: u8, val: u8) {
        self.received = Ghost(self.received@.push(IoRequest::ApuWrite { port, value: val }));
    }

    fn apu_catch_up(&mut self, master_cycles: u32) {
        self.received = Ghost(self.received@.push(IoRequest::ApuCatchUp { master_cycles }));
    }

    fn joypad_read_serial(&mut self) -> (v: u8) {
        self.received = Ghost(self.received@.push(IoRequest::JoypadRead { value: 0 }));
        0
    }

    fn joypad_write_strobe(&mut self, val: u8) {
        self.received = Ghost(self.received@.push(IoRequest::JoypadStrobe { value: val }));
    }
}

pub const WRAM_SIZE: usize = 0x20000;

pub struct Bus {
    pub cart: Cartridge,
    /// 128 KiB work RAM.
    pub wram: Vec<u8>,
    pub dma: Dma,
    /// `$4200` — NMI/IRQ enable.
    pub nmitimen: u8,
    /// `$4207-$4208`.
    pub htime: u16,
    /// `$4209-$420A`.
    pub vtime: u16,
    /// `$420C` — HDMA channel enable.
    pub hdmaen: u8,
    /// `$420D` — FastROM select.
    pub memsel: u8,
    /// `$4202`.
    pub wrmpya: u8,
    /// `$4203`.
    pub wrmpyb: u8,
    /// `$4204-$4205`.
    pub wrdiv: u16,
    /// `$4206`.
    pub wrdivb: u8,
    /// `$4214-$4215` — division result.
    pub rddiv: u16,
    /// `$4216-$4217` — multiplication result / division remainder.
    pub rdmpy: u16,
    /// `$2181-$2183` — WRAM data port address (17 bits).
    pub wram_addr: u32,
    pub vblank: bool,
    pub hblank: bool,
    /// Set on VBlank, cleared by reading `$4210`.
    pub nmi_flag: bool,
    /// Set on an H/V-count match, cleared by reading `$4211`.
    pub irq_flag: bool,
    pub auto_joypad_busy: bool,
    /// Countdown of the auto-joypad busy window, in master cycles.
    pub auto_joypad_timer: u32,
    /// Joypad state latched when auto-joypad polling started.
    pub auto_joypad_result: u16,
    pub open_bus: u8,
    /// DMA cycles still to be charged to the CPU.
    pub pending_dma_cycles: u64,
    /// Last CPU bank/PC before a write (diagnostics).
    pub last_write_bank: u8,
    pub last_write_pc: u16,
    /// Master-cycle deadline of the current scanline.
    pub current_scanline_target: u64,
    /// Running master-cycle counter within the current scanline.
    pub master_clock: u64,
    /// Master-cycle value up to which the APU has been run.
    pub last_apu_sync: u64,
}

/// Mathematical model of the bus: every field, with vectors as sequences.
pub struct BusState {
    pub rom: Seq<u8>,
    pub sram: Seq<u8>,
    pub title: Seq<char>,
    pub map_mode: MapMode,
    pub rom_size: usize,
    pub ram_size: usize,
    pub country: u8,
    pub version: u8,
    pub checksum: u16,
    pub checksum_complement: u16,
    pub wram: Seq<u8>,
    pub channels: Seq<DmaChannel>,
    pub nmitimen: u8,
    pub htime: u16,
    pub vtime: u16,
    pub hdmaen: u8,
    pub memsel: u8,
    pub wrmpya: u8,
    pub wrmpyb: u8,
    pub wrdiv: u16,
    pub wrdivb: u8,
    pub rddiv: u16,
    pub rdmpy: u16,
    pub wram_addr: u32,
    pub vblank: bool,
    pub hblank: bool,
    pub nmi_flag: bool,
    pub irq_flag: bool,
    pub auto_joypad_busy: bool,
    pub auto_joypad_timer: u32,
    pub auto_joypad_result: u16,
    pub open_bus: u8,
    pub pending_dma_cycles: u64,
    pub last_write_bank: u8,
    pub last_write_pc: u16,
    pub current_scanline_target: u64,
    pub master_clock: u64,
    pub last_apu_sync: u64,
}

impl View for Bus {
    type V = BusState;

    open spec fn view(&self) -> BusState {
        BusState {
            rom: self.cart.rom@,
            sram: self.cart.sram@,
            title: self.cart.title@,
            map_mode: self.cart.map_mode,
            rom_size: self.cart.rom_size,
            ram_size: self.cart.ram_size,
            country: self.cart.country,
            version: self.cart.version,
            checksum: self.cart.checksum,
            checksum_complement: self.cart.checksum_complement,
            wram: self.wram@,
            channels: self.dma.channels@,
            nmitimen: self.nmitimen,
            htime: self.htime,
            vtime: self.vtime,
            hdmaen: self.hdmaen,
            memsel: self.memsel,
            wrmpya: self.wrmpya,
            wrmpyb: self.wrmpyb,
            wrdiv: self.wrdiv,
            wrdivb: self.wrdivb,
            rddiv: self.rddiv,
            rdmpy: self.rdmpy,
            wram_addr: self.wram_addr,
            vblank: self.vblank,
            hblank: self.hblank,
            nmi_flag: self.nmi_flag,
            irq_flag: self.irq_flag,
            auto_joypad_busy: self.auto_joypad_busy,
            auto_joypad_timer: self.auto_joypad_timer,
            auto_joypad_result: self.auto_joypad_result,
            open_bus: self.open_bus,
            pending_dma_cycles: self.pending_dma_cycles,
            last_write_bank: self.last_write_bank,
            last_write_pc: self.last_write_pc,
            current_scanline_target: self.current_scanline_target,
            master_clock: self.master_clock,
            last_apu_sync: self.last_apu_sync,
        }
    }
}

/// What a bus address reaches.
pub enum BusTarget {
    /// A WRAM cell (index into the 128 KiB).
    Wram(u32),
    /// PPU register range `$2100-$213F` (readable from `$2134`).
    Ppu(u16),
    /// APU port 0-3 (`$2140-$217F`, mirrored every 4 bytes).
    ApuPort(u8),
    /// `$2180` WMDATA.
    WmData,
    /// `$2181` WMADDL.
    WmAddL,
    /// `$2182` WMADDM.
    WmAddM,
    /// `$2183` WMADDH.
    WmAddH,
    /// `$4016` joypad serial port.
    JoypadSerial,
    /// `$4017` second joypad port (not connected).
    Joypad2,
    /// CPU register `$4200-$42FF`.
    CpuRegister(u16),
    /// DMA register `$4300-$437F`.
    DmaRegister(u16),
    /// A cartridge SRAM cell (offset into SRAM; may lie beyond it).
    Sram(u32),
    /// Cartridge ROM.
    Rom,
    /// Nothing answers: reads give the open-bus byte, writes are dropped.
    OpenBus,
}

/// Decoding of the system area (banks `$00-$3F`) for bank `eb`.
pub open spec fn system_target(mode: MapMode, eb: u8, addr: u16) -> BusTarget {
    if addr <= 0x1FFF {
        BusTarget::Wram(addr as u32)
    } else if 0x2100 <= addr <= 0x213F {
        BusTarget::Ppu(addr)
    } else if 0x2140 <= addr <= 0x217F {
        BusTarget::ApuPort((addr & 3) as u8)
    } else if addr == 0x2180 {
        BusTarget::WmData
    } else if addr == 0x2181 {
        BusTarget::WmAddL
    } else if addr == 0x2182 {
        BusTarget::WmAddM
    } else if addr == 0x2183 {
        BusTarget::WmAddH
    } else if addr == 0x4016 {
        BusTarget::JoypadSerial
    } else if addr == 0x4017 {
        BusTarget::Joypad2
    } else if 0x4200 <= addr <= 0x42FF {
        BusTarget::CpuRegister(addr)
    } else if 0x4300 <= addr <= 0x437F {
        BusTarget::DmaRegister(addr)
    } else if 0x20 <= eb && 0x6000 <= addr <= 0x7FFF && mode == MapMode::HiROM {
        BusTarget::Sram(((eb - 0x20) * 0x2000 + (addr - 0x6000)) as u32)
    } else if addr >= 0x8000 {
        BusTarget::Rom
    } else {
        BusTarget::OpenBus
    }
}

/// What `bank:addr` reaches under map mode `mode`.
pub open spec fn bus_target(mode: MapMode, bank: u8, addr: u16) -> BusTarget {
    let eb = bank & 0x7F;
    if eb == 0x7E {
        BusTarget::Wram(addr as u32)
    } else if eb == 0x7F {
        BusTarget::Wram((0x10000 + addr) as u32)
    } else if eb <= 0x3F {
        system_target(mode, eb, addr)
    } else if eb <= 0x6F {
        if addr <= 0x7FFF && mode == MapMode::LoROM {
            system_target(mode, 0, addr)
        } else {
            BusTarget::Rom
        }
    } else if addr <= 0x7FFF && mode == MapMode::LoROM {
        BusTarget::Sram(((eb - 0x70) * 0x8000 + addr) as u32)
    } else {
        BusTarget::Rom
    }
}

/// Banks `$80-$FF` decode exactly as `$00-$7F`.
pub proof fn lemma_bank_mirroring(mode: MapMode, bank: u8, addr: u16)
    ensures
        bus_target(mode, bank | 0x80, addr) == bus_target(mode, bank & 0x7F, addr),
{
    assert((bank | 0x80) & 0x7F == bank & 0x7F && (bank & 0x7F) & 0x7F == bank & 0x7F) by (bit_vector);
}

/// The low WRAM mirror (`$00-$3F:0000-1FFF`) reaches the same cells as
/// bank `$7E`.
pub proof fn lemma_low_wram_mirror(mode: MapMode, bank: u8, addr: u16)
    requires
        bank & 0x7F <= 0x3F,
        addr <= 0x1FFF,
    ensures
        bus_target(mode, bank, addr) == bus_target(mode, 0x7E, addr),
        bus_target(mode, bank, addr) == BusTarget::Wram(addr as u32),
{
    assert(0x7Eu8 & 0x7F == 0x7E) by (bit_vector);
}

/// The APU port range `$2140-$217F` of the system banks is 16 mirrors of
/// the four ports: an address reaches port `addr & 3`.
pub proof fn lemma_apu_port_mirrors(mode: MapMode, bank: u8, addr: u16)
    requires
        bank & 0x7F <= 0x3F,
        0x2140 <= addr <= 0x217F,
    ensures
        bus_target(mode, bank, addr) == BusTarget::ApuPort((addr & 3) as u8),
        bus_target(mode, bank, addr) == bus_target(mode, 0, (0x2140 + (addr & 3)) as u16),
{
    assert(0u8 & 0x7F == 0) by (bit_vector);
    assert(addr & 3 <= 3 && ((0x2140 + (addr & 3)) as u16) & 3 == addr & 3) by (bit_vector)
        requires
            0x2140 <= addr <= 0x217F,
    ;
}

/// Every WRAM cell a bus address reaches lies inside WRAM.
pub proof fn lemma_wram_target_in_range(mode: MapMode, bank: u8, addr: u16)
    ensures
        bus_target(mode, bank, addr) matches BusTarget::Wram(i) ==> i < WRAM_SIZE,
{
}

/// The model after the APU has been caught up.
pub open spec fn synced(s: BusState) -> BusState {
    BusState { last_apu_sync: s.master_clock, ..s }
}

/// ROM byte at `bank:addr`.
pub open spec fn rom_read(s: BusState, bank: u8, addr: u16) -> u8 {
    if s.rom.len() == 0 {
        0
    } else {
        s.rom[rom_offset(s.map_mode, bank, addr) % (s.rom.len() as int)]
    }
}

pub open spec fn flag_bit(flag: bool, bit: u8) -> u8 {
    if flag { bit } else { 0 }
}

/// Value of a CPU register read (`$4200-$42FF`).
pub open spec fn cpu_register_value(s: BusState, addr: u16) -> u8 {
    if addr == 0x4210 {
        flag_bit(s.nmi_flag, 0x80) | 0x02
    } else if addr == 0x4211 {
        flag_bit(s.irq_flag, 0x80)
    } else if addr == 0x4212 {
        flag_bit(s.vblank, 0x80) | flag_bit(s.hblank, 0x40) | flag_bit(s.auto_joypad_busy, 0x01)
    } else if addr == 0x4214 {
        s.rddiv as u8
    } else if addr == 0x4215 {
        (s.rddiv >> 8) as u8
    } else if addr == 0x4216 {
        s.rdmpy as u8
    } else if addr == 0x4217 {
        (s.rdmpy >> 8) as u8
    } else if addr == 0x4218 {
        s.auto_joypad_result as u8
    } else if addr == 0x4219 {
        (s.auto_joypad_result >> 8) as u8
    } else if 0x421A <= addr <= 0x421F {
        0
    } else {
        s.open_bus
    }
}

/// Bus model after a CPU register read: `$4210` clears the NMI flag and
/// `$4211` the IRQ flag.
pub open spec fn cpu_register_read_state(s: BusState, addr: u16) -> BusState {
    if addr == 0x4210 {
        BusState { nmi_flag: false, ..s }
    } else if addr == 0x4211 {
        BusState { irq_flag: false, ..s }
    } else {
        s
    }
}

/// State after a read of a target and the value it yields when the bus
/// itself answers (`None` when a peripheral answers).
pub open spec fn read_outcome(s: BusState, target: BusTarget, bank: u8, addr: u16) -> (BusState, Option<u8>) {
    match target {
        BusTarget::Wram(i) => (s, Some(s.wram[i as int])),
        BusTarget::Ppu(a) => (s, if a >= 0x2134 { None } else { Some(s.open_bus) }),
        BusTarget::ApuPort(_) => (synced(s), None),
        BusTarget::WmData => (
            BusState { wram_addr: ((s.wram_addr + 1) as u32) & 0x1FFFF, ..s },
            Some(s.wram[(s.wram_addr & 0x1FFFF) as int]),
        ),
        BusTarget::WmAddL => (s, Some(s.wram_addr as u8)),
        BusTarget::WmAddM => (s, Some((s.wram_addr >> 8) as u8)),
        BusTarget::WmAddH => (s, Some((s.wram_addr >> 16) as u8)),
        BusTarget::JoypadSerial => (s, None),
        BusTarget::Joypad2 => (s, Some(0)),
        BusTarget::CpuRegister(a) => (cpu_register_read_state(s, a), Some(cpu_register_value(s, a))),
        BusTarget::DmaRegister(a) => (s, Some(channel_read(s.channels[channel_of(a)], reg_of(a)))),
        BusTarget::Sram(off) => (s, Some(if off < s.sram.len() { s.sram[off as int] } else { s.open_bus })),
        BusTarget::Rom => (s, Some(rom_read(s, bank, addr))),
        BusTarget::OpenBus => (s, Some(s.open_bus)),
    }
}

/// Bus model after reading `bank:addr`.
pub open spec fn read_state(s: BusState, bank: u8, addr: u16) -> BusState {
    read_outcome(s, bus_target(s.map_mode, bank, addr), bank, addr).0
}

/// Byte a read of `bank:addr` yields when the bus itself answers.
pub open spec fn read_value(s: BusState, bank: u8, addr: u16) -> Option<u8> {
    read_outcome(s, bus_target(s.map_mode, bank, addr), bank, addr).1
}

/// Master cycles per CPU access at `bank:addr`: FastROM (ROM at
/// `$8000-$FFFF` in banks `$80-$FF` with MEMSEL bit 0 set) takes 6, every
/// other access 8.
pub open spec fn access_speed(memsel: u8, bank: u8, addr: u16) -> int {
    if bank >= 0x80 && addr >= 0x8000 && memsel & 0x01 != 0 { 6 } else { 8 }
}

/// The catch-up a port access hands the APU first: the master cycles it
/// is owed (truncated to 32 bits), or nothing when it is not behind.
pub open spec fn catch_up_requests(s: BusState) -> Seq<IoRequest> {
    if s.master_clock > s.last_apu_sync {
        seq![IoRequest::ApuCatchUp { master_cycles: (s.master_clock - s.last_apu_sync) as u32 }]
    } else {
        Seq::empty()
    }
}

/// The chips after a port access has caught the APU up.
pub open spec fn chips_synced<P: Peripherals>(io: P, s: BusState) -> P {
    if s.master_clock > s.last_apu_sync {
        io.after_catch_up((s.master_clock - s.last_apu_sync) as u32)
    } else {
        io
    }
}

/// The byte a peripheral answers to a read of target `t`: the PPU
/// register, the APU port after the APU has been caught up, or the joypad.
pub open spec fn read_answer<P: Peripherals>(io: P, s: BusState, t: BusTarget) -> u8 {
    match t {
        BusTarget::Ppu(a) => io.ppu_answer(a),
        BusTarget::ApuPort(p) => chips_synced(io, s).apu_answer(p),
        BusTarget::JoypadSerial => io.joypad_answer(),
        _ => 0,
    }
}

/// Requests a read of target `t` hands the peripherals, `v` being the
/// byte the read returns: a PPU register from `$2134` up is read, an APU
/// port is read after the APU is caught up, and `$4016` reads the joypad.
pub open spec fn read_requests(s: BusState, t: BusTarget, v: u8) -> Seq<IoRequest> {
    match t {
        BusTarget::Ppu(a) => if a >= 0x2134 { seq![IoRequest::PpuRead { addr: a, value: v }] } else { Seq::empty() },
        BusTarget::ApuPort(p) => catch_up_requests(s).push(IoRequest::ApuRead { port: p, value: v }),
        BusTarget::JoypadSerial => seq![IoRequest::JoypadRead { value: v }],
        _ => Seq::empty(),
    }
}

/// Requests a write of `val` to target `t` hands the peripherals.
pub open spec fn write_requests(s: BusState, t: BusTarget, val: u8) -> Seq<IoRequest> {
    match t {
        BusTarget::Ppu(a) => seq![IoRequest::PpuWrite { addr: a, value: val }],
        BusTarget::ApuPort(p) => catch_up_requests(s).push(IoRequest::ApuWrite { port: p, value: val }),
        BusTarget::JoypadSerial => seq![IoRequest::JoypadStrobe { value: val }],
        _ => Seq::empty(),
    }
}

/// The calls a read of target `t` makes other than catching the APU up.
pub open spec fn read_calls(t: BusTarget, v: u8) -> Seq<IoRequest> {
    match t {
        BusTarget::Ppu(a) => if a >= 0x2134 { seq![IoRequest::PpuRead { addr: a, value: v }] } else { Seq::empty() },
        BusTarget::ApuPort(p) => seq![IoRequest::ApuRead { port: p, value: v }],
        BusTarget::JoypadSerial => seq![IoRequest::JoypadRead { value: v }],
        _ => Seq::empty(),
    }
}

/// The calls a write of `val` to target `t` makes other than catching the
/// APU up.
pub open spec fn write_calls(t: BusTarget, val: u8) -> Seq<IoRequest> {
    match t {
        BusTarget::Ppu(a) => seq![IoRequest::PpuWrite { addr: a, value: val }],
        BusTarget::ApuPort(p) => seq![IoRequest::ApuWrite { port: p, value: val }],
        BusTarget::JoypadSerial => seq![IoRequest::JoypadStrobe { value: val }],
        _ => Seq::empty(),
    }
}

/// The calls in `q` other than APU catch-ups, in order.
pub open spec fn data_calls(q: Seq<IoRequest>) -> Seq<IoRequest>
    decreases q.len(),
{
    if q.len() == 0 {
        Seq::empty()
    } else if q.last() is ApuCatchUp {
        data_calls(q.drop_last())
    } else {
        data_calls(q.drop_last()).push(q.last())
    }
}

/// `after` extends the calls `before`, and the calls added, catch-ups
/// aside, are `added`.
pub open spec fn calls_extend(before: Seq<IoRequest>, after: Seq<IoRequest>, added: Seq<IoRequest>) -> bool {
    &&& before.is_prefix_of(after)
    &&& data_calls(after) == data_calls(before) + added
}

/// Leaving out catch-ups distributes over concatenation.
pub proof fn lemma_data_calls_add(a: Seq<IoRequest>, b: Seq<IoRequest>)
    ensures
        data_calls(a + b) == data_calls(a) + data_calls(b),
    decreases b.len(),
{
    if b.len() == 0 {
        assert(a + b =~= a);
        assert(data_calls(a) + data_calls(b) =~= data_calls(a));
    } else {
        lemma_data_calls_add(a, b.drop_last());
        assert((a + b).drop_last() =~= a + b.drop_last());
        assert((a + b).last() == b.last());
        assert(data_calls(a) + data_calls(b.drop_last()).push(b.last()) =~= (data_calls(a) + data_calls(
            b.drop_last(),
        )).push(b.last()));
    }
}

/// What reads and writes add to the calls, catch-ups aside.
pub proof fn lemma_data_calls_of_access(s: BusState, t: BusTarget, v: u8)
    ensures
        data_calls(read_requests(s, t, v)) == read_calls(t, v),
        data_calls(write_requests(s, t, v)) == write_calls(t, v),
        data_calls(catch_up_requests(s)) == Seq::<IoRequest>::empty(),
{
    reveal_with_fuel(data_calls, 3);
    let c = catch_up_requests(s);
    assert(data_calls(c) =~= Seq::<IoRequest>::empty()) by {
        if c.len() > 0 {
            assert(c.drop_last() =~= Seq::<IoRequest>::empty());
        }
    }
    match t {
        BusTarget::ApuPort(p) => {
            lemma_data_calls_add(c, seq![IoRequest::ApuRead { port: p, value: v }]);
            lemma_data_calls_add(c, seq![IoRequest::ApuWrite { port: p, value: v }]);
            assert(c.push(IoRequest::ApuRead { port: p, value: v }) =~= c + seq![IoRequest::ApuRead { port: p, value: v }]);
            assert(c.push(IoRequest::ApuWrite { port: p, value: v }) =~= c + seq![IoRequest::ApuWrite { port: p, value: v }]);
            assert(seq![IoRequest::ApuRead { port: p, value: v }].drop_last() =~= Seq::<IoRequest>::empty());
            assert(seq![IoRequest::ApuWrite { port: p, value: v }].drop_last() =~= Seq::<IoRequest>::empty());
        },
        BusTarget::Ppu(a) => {
            assert(seq![IoRequest::PpuRead { addr: a, value: v }].drop_last() =~= Seq::<IoRequest>::empty());
            assert(seq![IoRequest::PpuWrite { addr: a, value: v }].drop_last() =~= Seq::<IoRequest>::empty());
        },
        BusTarget::JoypadSerial => {
            assert(seq![IoRequest::JoypadRead { value: v }].drop_last() =~= Seq::<IoRequest>::empty());
            assert(seq![IoRequest::JoypadStrobe { value: v }].drop_last() =~= Seq::<IoRequest>::empty());
        },
        _ => {},
    }
}

/// Extending calls twice extends them by both additions.
pub proof fn lemma_calls_extend_trans(
    a: Seq<IoRequest>,
    b: Seq<IoRequest>,
    c: Seq<IoRequest>,
    x: Seq<IoRequest>,
    y: Seq<IoRequest>,
)
    requires
        calls_extend(a, b, x),
        calls_extend(b, c, y),
    ensures
        calls_extend(a, c, x + y),
{
    assert(a =~= c.subrange(0, a.len() as int)) by {
        assert(a =~= b.subrange(0, a.len() as int));
        assert(b =~= c.subrange(0, b.len() as int));
        assert forall|i: int| 0 <= i < a.len() implies a[i] == c[i] by {
            assert(a[i] == b.subrange(0, a.len() as int)[i]);
            assert(b[i] == c.subrange(0, b.len() as int)[i]);
        }
    }
    assert(data_calls(a) + x + y =~= data_calls(a) + (x + y));
}

/// Appending calls extends them by what the appended calls hold,
/// catch-ups aside.
pub proof fn lemma_calls_append(a: Seq<IoRequest>, q: Seq<IoRequest>)
    ensures
        calls_extend(a, a + q, data_calls(q)),
{
    lemma_data_calls_add(a, q);
    assert(a =~= (a + q).subrange(0, a.len() as int));
}

/// A read of this target involves a peripheral.
pub open spec fn reaches_peripheral_on_read(t: BusTarget) -> bool {
    ||| t matches BusTarget::Ppu(a) && a >= 0x2134
    ||| t is ApuPort
    ||| t is JoypadSerial
}

/// The bus is consistent: WRAM has its full size, the WRAM port address
/// can be incremented, and the APU is not ahead of the master clock.
pub open spec fn bus_wf(s: BusState) -> bool {
    &&& s.wram.len() == WRAM_SIZE
    &&& s.wram_addr < u32::MAX
    &&& s.master_clock >= s.last_apu_sync
}

/// Reads of `bank:addr` have no side effect and no peripheral answers:
/// WRAM, ROM and SRAM, but none of the I/O registers.
pub open spec fn pure_memory(mode: MapMode, bank: u8, addr: u16) -> bool {
    let eb = bank & 0x7F;
    ||| eb == 0x7E || eb == 0x7F
    ||| eb <= 0x3F && addr <= 0x1FFF
    ||| eb <= 0x3F && addr >= 0x8000
    ||| 0x20 <= eb <= 0x3F && 0x6000 <= addr <= 0x7FFF && mode == MapMode::HiROM
    ||| 0x40 <= eb <= 0x6F && addr <= 0x7FFF && mode == MapMode::HiROM
    ||| 0x40 <= eb <= 0x6F && addr >= 0x8000
    ||| 0x70 <= eb <= 0x7D
}

/// What `pure_memory` promises holds: such reads leave the bus alone and
/// the bus itself supplies the byte.
pub proof fn lemma_pure_memory_reads_are_pure(s: BusState, bank: u8, addr: u16)
    requires
        pure_memory(s.map_mode, bank, addr),
    ensures
        read_state(s, bank, addr) == s,
        read_value(s, bank, addr) is Some,
        !reaches_peripheral_on_read(bus_target(s.map_mode, bank, addr)),
{
}

/// Bus model after a CPU register write (`$4200-$42FF`). `$4203` starts
/// the 8×8 multiplication and `$4206` the 16/8 division (a zero divisor
/// gives quotient `$FFFF` and the dividend as remainder). `$420B` starts
/// general DMA and is described by `general_dma_post`.
pub open spec fn cpu_register_write_state(s: BusState, addr: u16, val: u8) -> BusState {
    if addr == 0x4200 {
        BusState { nmitimen: val, ..s }
    } else if addr == 0x4202 {
        BusState { wrmpya: val, ..s }
    } else if addr == 0x4203 {
        BusState { wrmpyb: val, rdmpy: (s.wrmpya as int * val as int) as u16, ..s }
    } else if addr == 0x4204 {
        BusState { wrdiv: crate::dma::set_low(s.wrdiv, val), ..s }
    } else if addr == 0x4205 {
        BusState { wrdiv: crate::dma::set_high(s.wrdiv, val), ..s }
    } else if addr == 0x4206 {
        if val != 0 {
            BusState { wrdivb: val, rddiv: (s.wrdiv / (val as u16)) as u16, rdmpy: (s.wrdiv % (val as u16)) as u16, ..s }
        } else {
            BusState { wrdivb: val, rddiv: 0xFFFF, rdmpy: s.wrdiv, ..s }
        }
    } else if addr == 0x4207 {
        BusState { htime: (s.htime & 0x100) | val as u16, ..s }
    } else if addr == 0x4208 {
        BusState { htime: (s.htime & 0x0FF) | (((val & 0x01) as u16) << 8), ..s }
    } else if addr == 0x4209 {
        BusState { vtime: (s.vtime & 0x100) | val as u16, ..s }
    } else if addr == 0x420A {
        BusState { vtime: (s.vtime & 0x0FF) | (((val & 0x01) as u16) << 8), ..s }
    } else if addr == 0x420C {
        BusState { hdmaen: val, ..s }
    } else if addr == 0x420D {
        BusState { memsel: val, ..s }
    } else {
        s
    }
}

/// Bus model after writing `val` to a target (other than the DMA trigger).
pub open spec fn write_outcome(s: BusState, target: BusTarget, val: u8) -> BusState {
    match target {
        BusTarget::Wram(i) => BusState { wram: s.wram.update(i as int, val), ..s },
        BusTarget::Ppu(_) => s,
        BusTarget::ApuPort(_) => synced(s),
        BusTarget::WmData => BusState {
            wram: s.wram.update((s.wram_addr & 0x1FFFF) as int, val),
            wram_addr: ((s.wram_addr + 1) as u32) & 0x1FFFF,
            ..s
        },
        BusTarget::WmAddL => BusState { wram_addr: (s.wram_addr & 0x1FF00) | val as u32, ..s },
        BusTarget::WmAddM => BusState { wram_addr: (s.wram_addr & 0x100FF) | ((val as u32) << 8), ..s },
        BusTarget::WmAddH => BusState { wram_addr: (s.wram_addr & 0x0FFFF) | (((val & 0x01) as u32) << 16), ..s },
        BusTarget::JoypadSerial => s,
        BusTarget::Joypad2 => s,
        BusTarget::CpuRegister(a) => cpu_register_write_state(s, a, val),
        BusTarget::DmaRegister(a) => BusState {
            channels: s.channels.update(channel_of(a), channel_write(s.channels[channel_of(a)], reg_of(a), val)),
            ..s
        },
        BusTarget::Sram(off) => if off < s.sram.len() {
            BusState { sram: s.sram.update(off as int, val), ..s }
        } else {
            s
        },
        BusTarget::Rom => s,
        BusTarget::OpenBus => s,
    }
}

/// Bus model after writing `val` to `bank:addr` (other than the DMA trigger).
pub open spec fn write_state(s: BusState, bank: u8, addr: u16, val: u8) -> BusState {
    write_outcome(s, bus_target(s.map_mode, bank, addr), val)
}

/// The CPU's math unit, through the ordinary bus dispatch of banks
/// `$00-$3F` (and their mirrors). Writing WRMPYB (`$4203`) multiplies:
/// RDMPY becomes WRMPYA times the byte. The dividend is written as its low
/// (`$4204`) and high (`$4205`) byte. Writing WRDIVB (`$4206`) divides:
/// for a divisor `d` other than 0, RDDIV is the quotient rounded down and
/// RDMPY the remainder (`RDDIV * d + RDMPY == WRDIV`, `RDMPY < d`); a
/// divisor of 0 gives RDDIV `$FFFF` and leaves the dividend in RDMPY.
/// RDDIV reads as its low (`$4214`) and high (`$4215`) byte, RDMPY as
/// `$4216`/`$4217`.
pub proof fn lemma_math_unit(s: BusState, bank: u8, v: u8)
    requires
        bank & 0x7F <= 0x3F,
    ensures
        write_state(s, bank, 0x4203, v).rdmpy as int == s.wrmpya as int * v as int,
        write_state(s, bank, 0x4204, v).wrdiv as int == (s.wrdiv as int / 256) * 256 + v,
        write_state(s, bank, 0x4205, v).wrdiv as int == v * 256 + s.wrdiv as int % 256,
        v != 0 ==> write_state(s, bank, 0x4206, v).rddiv as int * v as int + write_state(s, bank, 0x4206, v).rdmpy
            == s.wrdiv as int,
        v != 0 ==> write_state(s, bank, 0x4206, v).rdmpy < v,
        v == 0 ==> write_state(s, bank, 0x4206, v).rddiv == 0xFFFF && write_state(s, bank, 0x4206, v).rdmpy
            == s.wrdiv,
        read_value(s, bank, 0x4214)->0 as int + 256 * read_value(s, bank, 0x4215)->0 as int == s.rddiv as int,
        read_value(s, bank, 0x4216)->0 as int + 256 * read_value(s, bank, 0x4217)->0 as int == s.rdmpy as int,
{
    let a = s.wrmpya;
    assert(a as int * v as int <= 65025) by (nonlinear_arith)
        requires
            a <= 255,
            v <= 255,
    ;
    crate::dma::lemma_word_bytes(s.wrdiv, v, 0, 0);
    crate::dma::lemma_word_bytes(s.rddiv, v, 0, 0);
    crate::dma::lemma_word_bytes(s.rdmpy, v, 0, 0);
    if v != 0 {
        let w = s.wrdiv as int;
        let d = v as int;
        vstd::arithmetic::div_mod::lemma_fundamental_div_mod(w, d);
        vstd::arithmetic::div_mod::lemma_mod_bound(w, d);
        vstd::arithmetic::div_mod::lemma_div_pos_is_pos(w, d);
        vstd::arithmetic::div_mod::lemma_div_is_ordered_by_denominator(w, 1, d);
        assert((s.wrdiv / (v as u16)) as int == w / d);
        assert((s.wrdiv % (v as u16)) as int == w % d);
        assert(w / d * d == d * (w / d)) by (nonlinear_arith);
    }
}

/// The CPU's other registers, through banks `$00-$3F` (and their
/// mirrors). NMITIMEN (`$4200`), WRMPYA (`$4202`), HDMAEN (`$420C`) and
/// MEMSEL (`$420D`) take the byte written; the H and V timers are 9 bits,
/// `$4207`/`$4209` setting bits 0-7 and `$4208`/`$420A` bit 8 (from bit 0
/// of the byte), each keeping the other bits. Reading `$4210` gives the
/// NMI flag in bit 7 (with the CPU version 2 in the low bits) and clears
/// the flag; `$4211` likewise for the IRQ flag; `$4212` gives VBlank in
/// bit 7, HBlank in bit 6 and the auto-joypad busy flag in bit 0; and
/// `$4218`/`$4219` the low and high byte of the auto-joypad result.
pub proof fn lemma_cpu_registers(s: BusState, bank: u8, v: u8)
    requires
        bank & 0x7F <= 0x3F,
    ensures
        write_state(s, bank, 0x4200, v).nmitimen == v,
        write_state(s, bank, 0x4202, v).wrmpya == v,
        write_state(s, bank, 0x420C, v).hdmaen == v,
        write_state(s, bank, 0x420D, v).memsel == v,
        write_state(s, bank, 0x4207, v).htime as int == ((s.htime as int / 256) % 2) * 256 + v,
        write_state(s, bank, 0x4208, v).htime as int == (v as int % 2) * 256 + s.htime as int % 256,
        write_state(s, bank, 0x4209, v).vtime as int == ((s.vtime as int / 256) % 2) * 256 + v,
        write_state(s, bank, 0x420A, v).vtime as int == (v as int % 2) * 256 + s.vtime as int % 256,
        read_value(s, bank, 0x4210) == Some(if s.nmi_flag { 0x82u8 } else { 0x02u8 }),
        !read_state(s, bank, 0x4210).nmi_flag,
        read_value(s, bank, 0x4211) == Some(if s.irq_flag { 0x80u8 } else { 0x00u8 }),
        !read_state(s, bank, 0x4211).irq_flag,
        read_value(s, bank, 0x4212)->0 as int == (if s.vblank { 0x80int } else { 0 }) + (if s.hblank {
            0x40int
        } else {
            0
        }) + (if s.auto_joypad_busy { 1int } else { 0 }),
        read_value(s, bank, 0x4218)->0 as int + 256 * read_value(s, bank, 0x4219)->0 as int
            == s.auto_joypad_result as int,
{
    let h = s.htime;
    let t = s.vtime;
    assert(((h & 0x100) | v as u16) == ((h / 256) % 2) * 256 + v as u16 && ((h & 0x0FF) | (((v & 0x01) as u16) << 8))
        == ((v % 2) as u16) * 256 + h % 256 && ((t & 0x100) | v as u16) == ((t / 256) % 2) * 256 + v as u16 && ((t
        & 0x0FF) | (((v & 0x01) as u16) << 8)) == ((v % 2) as u16) * 256 + t % 256 && (0x80u8 | 0x02) == 0x82u8 && (
    0u8 | 0x02) == 0x02u8 && (0x80u8 | 0x40u8 | 0x01u8) == 0xC1u8 && (0x80u8 | 0x40u8 | 0u8) == 0xC0u8 && (0x80u8
        | 0u8 | 0x01u8) == 0x81u8 && (0x80u8 | 0u8 | 0u8) == 0x80u8 && (0u8 | 0x40u8 | 0x01u8) == 0x41u8 && (0u8
        | 0x40u8 | 0u8) == 0x40u8 && (0u8 | 0u8 | 0x01u8) == 0x01u8 && (0u8 | 0u8 | 0u8) == 0u8) by (bit_vector);
    crate::dma::lemma_word_bytes(s.auto_joypad_result, v, 0, 0);
}

/// The WRAM data port, through banks `$00-$3F` (and their mirrors), with
/// its 17-bit address `w`: writing `$2181` replaces bits 0-7 of `w`,
/// `$2182` bits 8-15 and `$2183` bit 16 (from bit 0 of the byte), each
/// keeping the other bits; writing `$2180` stores the byte at WRAM cell
/// `w` and reading it gives that cell, and either steps `w` by one,
/// wrapping at 128 KiB; `$2181`-`$2183` read back the three bytes of `w`.
pub proof fn lemma_wram_port(s: BusState, bank: u8, v: u8)
    requires
        bank & 0x7F <= 0x3F,
        s.wram_addr <= 0x1FFFF,
        s.wram.len() == WRAM_SIZE,
    ensures
        write_state(s, bank, 0x2181, v).wram_addr as int == (s.wram_addr as int / 256) * 256 + v,
        write_state(s, bank, 0x2182, v).wram_addr as int == (s.wram_addr as int / 65536) * 65536 + v * 256
            + s.wram_addr as int % 256,
        write_state(s, bank, 0x2183, v).wram_addr as int == (v as int % 2) * 65536 + s.wram_addr as int % 65536,
        write_state(s, bank, 0x2180, v).wram == s.wram.update(s.wram_addr as int, v),
        write_state(s, bank, 0x2180, v).wram_addr as int == (s.wram_addr as int + 1) % 0x20000,
        read_value(s, bank, 0x2180) == Some(s.wram[s.wram_addr as int]),
        read_state(s, bank, 0x2180).wram_addr as int == (s.wram_addr as int + 1) % 0x20000,
        read_value(s, bank, 0x2181)->0 as int + 256 * read_value(s, bank, 0x2182)->0 as int + 65536 * read_value(
            s,
            bank,
            0x2183,
        )->0 as int == s.wram_addr as int,
{
    let w = s.wram_addr;
    assert(((w & 0x1FF00) | v as u32) == (w / 256) * 256 + v as u32 && ((w & 0x100FF) | ((v as u32) << 8)) == (w
        / 65536) * 65536 + (v as u32) * 256 + w % 256 && ((w & 0x0FFFF) | (((v & 0x01) as u32) << 16)) == ((v % 2)
        as u32) * 65536 + w % 65536 && (w & 0x1FFFF) == w && ((w + 1) as u32) & 0x1FFFF == (w + 1) % 0x20000 && (w
        as u8) as u32 + 256 * ((w >> 8) as u8) as u32 + 65536 * ((w >> 16) as u8) as u32 == w) by (bit_vector)
        requires
            w <= 0x1FFFF,
    ;
}

/// The WRAM port address stays within 17 bits across any read, and any
/// write other than the DMA trigger.
pub proof fn lemma_wram_port_stays_17_bit(s: BusState, bank: u8, addr: u16, val: u8)
    requires
        s.wram_addr <= 0x1FFFF,
    ensures
        read_state(s, bank, addr).wram_addr <= 0x1FFFF,
        write_state(s, bank, addr, val).wram_addr <= 0x1FFFF,
{
    let w = s.wram_addr;
    assert(((w + 1) as u32) & 0x1FFFF <= 0x1FFFF && (w & 0x1FF00) | val as u32 <= 0x1FFFF && (w & 0x100FF) | ((
    val as u32) << 8) <= 0x1FFFF && (w & 0x0FFFF) | (((val & 0x01) as u32) << 16) <= 0x1FFFF) by (bit_vector)
        requires
            w <= 0x1FFFF,
    ;
}

/// A write to this target involves a peripheral.
pub open spec fn reaches_peripheral_on_write(t: BusTarget) -> bool {
    ||| t is Ppu
    ||| t is ApuPort
    ||| t is JoypadSerial
}

/// `bank:addr` is MDMAEN (`$420B`), whose write starts general DMA.
pub open spec fn is_dma_trigger(mode: MapMode, bank: u8, addr: u16) -> bool {
    bus_target(mode, bank, addr) == BusTarget::CpuRegister(0x420B)
}

/// Most master cycles one general DMA can take: 8 channels of 64 KiB at
/// 8 cycles a byte.
pub const MAX_DMA_CYCLES: u64 = 0x40_0000;

/// The cycle counters can absorb a full general DMA.
pub open spec fn dma_room(s: BusState) -> bool {
    &&& s.master_clock <= u64::MAX - MAX_DMA_CYCLES
    &&& s.pending_dma_cycles <= u64::MAX - MAX_DMA_CYCLES
}

/// Bytes a channel moves: its size, where 0 means 64 KiB.
pub open spec fn dma_count(c: DmaChannel) -> int {
    if c.size == 0 { 0x10000 } else { c.size as int }
}

/// A-bus address of a channel after `k` bytes: fixed (control bit 3),
/// decrementing (bit 4) or incrementing, wrapping within the bank.
pub open spec fn advanced_addr(c: DmaChannel, k: int) -> u16 {
    if c.control & 0x08 != 0 {
        c.src_addr
    } else if c.control & 0x10 != 0 {
        ((c.src_addr as int - k) % 0x10000) as u16
    } else {
        ((c.src_addr as int + k) % 0x10000) as u16
    }
}

/// Reads never touch the cycle counters, the cartridge ROM or the DMA
/// registers; at most they catch the APU up.
pub proof fn lemma_read_state_frame(s: BusState, bank: u8, addr: u16)
    ensures
        read_state(s, bank, addr).master_clock == s.master_clock,
        read_state(s, bank, addr).pending_dma_cycles == s.pending_dma_cycles,
        read_state(s, bank, addr).rom == s.rom,
        read_state(s, bank, addr).map_mode == s.map_mode,
        read_state(s, bank, addr).channels == s.channels,
        read_state(s, bank, addr).last_apu_sync == s.last_apu_sync
            || read_state(s, bank, addr).last_apu_sync == s.master_clock,
{
}

/// Writes other than the DMA trigger never touch the cycle counters or
/// the cartridge ROM; at most they catch the APU up.
pub proof fn lemma_write_state_frame(s: BusState, bank: u8, addr: u16, val: u8)
    ensures
        write_state(s, bank, addr, val).master_clock == s.master_clock,
        write_state(s, bank, addr, val).pending_dma_cycles == s.pending_dma_cycles,
        write_state(s, bank, addr, val).rom == s.rom,
        write_state(s, bank, addr, val).map_mode == s.map_mode,
        write_state(s, bank, addr, val).last_apu_sync == s.last_apu_sync
            || write_state(s, bank, addr, val).last_apu_sync == s.master_clock,
{
}

/// A read of a memory cell gives back what a write to the same cell
/// wrote, through whichever address (or mirror) reaches that cell, and the
/// read changes nothing.
pub proof fn lemma_write_then_read(s: BusState, wbank: u8, waddr: u16, rbank: u8, raddr: u16, val: u8)
    requires
        bus_wf(s),
        bus_target(s.map_mode, wbank, waddr) == bus_target(s.map_mode, rbank, raddr),
        bus_target(s.map_mode, wbank, waddr) is Wram || (bus_target(s.map_mode, wbank, waddr) matches BusTarget::Sram(
            off,
        ) && off < s.sram.len()),
    ensures
        read_value(write_state(s, wbank, waddr, val), rbank, raddr) == Some(val),
        read_state(write_state(s, wbank, waddr, val), rbank, raddr) == write_state(s, wbank, waddr, val),
{
    lemma_wram_target_in_range(s.map_mode, wbank, waddr);
}

/// A write to a memory cell leaves every other memory cell as it was.
pub proof fn lemma_write_keeps_other_cells(s: BusState, wbank: u8, waddr: u16, rbank: u8, raddr: u16, val: u8)
    requires
        bus_wf(s),
        bus_target(s.map_mode, wbank, waddr) != bus_target(s.map_mode, rbank, raddr),
        bus_target(s.map_mode, wbank, waddr) is Wram || bus_target(s.map_mode, wbank, waddr) is Sram,
        bus_target(s.map_mode, rbank, raddr) is Wram || bus_target(s.map_mode, rbank, raddr) is Sram,
    ensures
        read_value(write_state(s, wbank, waddr, val), rbank, raddr) == read_value(s, rbank, raddr),
{
    lemma_wram_target_in_range(s.map_mode, wbank, waddr);
    lemma_wram_target_in_range(s.map_mode, rbank, raddr);
}

/// Writes to ROM, and to addresses that nothing answers, change nothing.
pub proof fn lemma_rom_writes_ignored(s: BusState, bank: u8, addr: u16, val: u8)
    requires
        bus_target(s.map_mode, bank, addr) is Rom || bus_target(s.map_mode, bank, addr) is OpenBus,
    ensures
        write_state(s, bank, addr, val) == s,
{
}

/// Just-in-time APU synchronisation: every access to an APU port first
/// runs the APU up to the master clock, and no other access (but the DMA
/// trigger) moves the APU sync point. Catching up twice is catching up once.
pub proof fn lemma_port_access_syncs(s: BusState, bank: u8, addr: u16, val: u8)
    ensures
        bus_target(s.map_mode, bank, addr) is ApuPort ==> read_state(s, bank, addr) == synced(s)
            && write_state(s, bank, addr, val) == synced(s),
        !(bus_target(s.map_mode, bank, addr) is ApuPort) ==> read_state(s, bank, addr).last_apu_sync
            == s.last_apu_sync && write_state(s, bank, addr, val).last_apu_sync == s.last_apu_sync,
        synced(synced(s)) == synced(s),
        s.master_clock == s.last_apu_sync ==> synced(s) == s,
        catch_up_requests(synced(s)) == Seq::<IoRequest>::empty(),
{
}

/// Banks `$80-$FF` mirror `$00-$7F` for whole accesses: a read or write
/// through either bank changes the bus alike, yields the same byte (from
/// the bus, or from the same peripheral answer), and hands the
/// peripherals the same calls.
pub proof fn lemma_mirrored_access<P: Peripherals>(s: BusState, io: P, bank: u8, addr: u16, v: u8, val: u8)
    ensures
        read_answer(io, s, bus_target(s.map_mode, bank | 0x80, addr)) == read_answer(
            io,
            s,
            bus_target(s.map_mode, bank & 0x7F, addr),
        ),
        read_state(s, bank | 0x80, addr) == read_state(s, bank & 0x7F, addr),
        read_value(s, bank | 0x80, addr) == read_value(s, bank & 0x7F, addr),
        read_requests(s, bus_target(s.map_mode, bank | 0x80, addr), v) == read_requests(
            s,
            bus_target(s.map_mode, bank & 0x7F, addr),
            v,
        ),
        write_state(s, bank | 0x80, addr, val) == write_state(s, bank & 0x7F, addr, val),
        write_requests(s, bus_target(s.map_mode, bank | 0x80, addr), val) == write_requests(
            s,
            bus_target(s.map_mode, bank & 0x7F, addr),
            val,
        ),
{
    lemma_bank_mirroring(s.map_mode, bank, addr);
    assert((bank | 0x80) & 0x7F == bank & 0x7F && (bank & 0x7F) & 0x7F == bank & 0x7F && (bank | 0x80) & 0x3F
        == (bank & 0x7F) & 0x3F) by (bit_vector);
    assert(rom_read(s, bank | 0x80, addr) == rom_read(s, bank & 0x7F, addr));
}

/// B-bus writes (`$2100-$2202`) never reach the DMA registers.
pub proof fn lemma_b_bus_write_keeps_channels(s: BusState, addr: u16, val: u8)
    requires
        0x2100 <= addr <= 0x2202,
    ensures
        write_state(s, 0, addr, val).channels == s.channels,
{
    assert(0u8 & 0x7F == 0) by (bit_vector);
}

/// A channel after its general DMA transfer.
pub open spec fn after_transfer(c: DmaChannel) -> DmaChannel {
    DmaChannel { size: 0, src_addr: advanced_addr(c, dma_count(c)), ..c }
}

pub open spec fn enabled(mask: u8, k: int) -> bool {
    (mask >> (k as u8)) & 1 == 1
}

/// Every channel enabled in `mask` transfers A-bus to B-bus (control bit 7
/// clear), so no DMA write lands on the A-bus.
pub open spec fn a_to_b_only(chs: Seq<DmaChannel>, mask: u8) -> bool {
    forall|k: int| 0 <= k < 8 && #[trigger] enabled(mask, k) ==> chs[k].control & 0x80 == 0
}

/// Bytes moved by the enabled channels among the first `k`.
pub open spec fn units_before(chs: Seq<DmaChannel>, mask: u8, k: int) -> int
    decreases k,
{
    if k <= 0 {
        0
    } else {
        units_before(chs, mask, k - 1) + if enabled(mask, k - 1) { dma_count(chs[k - 1]) } else { 0 }
    }
}

/// The channels after a general DMA when every transfer goes A-bus to B-bus.
pub open spec fn channels_after_dma(chs: Seq<DmaChannel>, mask: u8) -> Seq<DmaChannel> {
    Seq::new(8, |k: int| if enabled(mask, k) { after_transfer(chs[k]) } else { chs[k] })
}

/// What holds after a general DMA with enable mask `mask`: the CPU is
/// charged 8 master cycles per byte moved and the master clock advances
/// by as much, the APU is caught up, and a zero mask changes nothing.
/// When every enabled channel moves A-bus to B-bus, the bytes moved and
/// the final channel registers are exact: each enabled channel ends with
/// size 0 and its A-bus address advanced past the bytes it moved. In
/// every case the data moved is exact up to what peripherals answer:
/// apart from the cycle counters, the bus is what reading and writing
/// each byte through the ordinary dispatch gives (`dma_data_moved`).
pub open spec fn general_dma_post(old: BusState, new: BusState, mask: u8) -> bool {
    &&& bus_wf(new)
    &&& new.rom == old.rom
    &&& new.map_mode == old.map_mode
    &&& new.pending_dma_cycles - old.pending_dma_cycles == new.master_clock - old.master_clock
    &&& (new.master_clock - old.master_clock) % 8 == 0
    &&& 0 <= new.master_clock - old.master_clock <= MAX_DMA_CYCLES
    &&& (mask != 0 ==> new.master_clock - old.master_clock >= 8)
    &&& (a_to_b_only(old.channels, mask) ==> new.master_clock - old.master_clock == 8 * units_before(
        old.channels,
        mask,
        8,
    ))
    &&& (mask == 0 ==> new == old)
    &&& (mask != 0 ==> new.last_apu_sync == new.master_clock)
    &&& (a_to_b_only(old.channels, mask) ==> new.channels == channels_after_dma(old.channels, mask))
    &&& exists|vals: Seq<Seq<u8>>| #[trigger] dma_data_moved(old, new, mask, vals)
    &&& (old.wram_addr <= 0x1FFFF ==> new.wram_addr <= 0x1FFFF)
}

impl Bus {
    pub open spec fn wf(&self) -> bool {
        bus_wf(self@)
    }

    pub fn new(cart: Cartridge) -> (bus: Self)
        ensures
            bus.wf(),
            bus.cart == cart,
            bus.wram@ == Seq::new(WRAM_SIZE as nat, |i: int| 0u8),
            forall|k: int| 0 <= k < 8 ==> bus.dma.channels@[k] == crate::dma::zero_channel(),
            bus.nmitimen == 0 && bus.htime == 0x1FF && bus.vtime == 0x1FF && bus.hdmaen == 0 && bus.memsel == 0,
            bus.wrmpya == 0xFF && bus.wrmpyb == 0 && bus.wrdiv == 0xFFFF && bus.wrdivb == 0,
            bus.rddiv == 0 && bus.rdmpy == 0 && bus.wram_addr == 0,
            !bus.vblank && !bus.hblank && !bus.nmi_flag && !bus.irq_flag && !bus.auto_joypad_busy,
            bus.auto_joypad_timer == 0 && bus.auto_joypad_result == 0 && bus.open_bus == 0,
            bus.pending_dma_cycles == 0 && bus.last_write_bank == 0 && bus.last_write_pc == 0,
            bus.current_scanline_target == 0 && bus.master_clock == 0 && bus.last_apu_sync == 0,
    {
        let wram = vec![0u8; WRAM_SIZE];
        assert(wram@ =~= Seq::new(WRAM_SIZE as nat, |i: int| 0u8));
        Self {
            cart,
            wram,
            dma: Dma::new(),
            nmitimen: 0,
            htime: 0x1FF,
            vtime: 0x1FF,
            hdmaen: 0,
            memsel: 0,
            wrmpya: 0xFF,
            wrmpyb: 0,
            wrdiv: 0xFFFF,
            wrdivb: 0,
            rddiv: 0,
            rdmpy: 0,
            wram_addr: 0,
            vblank: false,
            hblank: false,
            nmi_flag: false,
            irq_flag: false,
            auto_joypad_busy: false,
            auto_joypad_timer: 0,
            auto_joypad_result: 0,
            open_bus: 0,
            pending_dma_cycles: 0,
            last_write_bank: 0,
            last_write_pc: 0,
            current_scanline_target: 0,
            master_clock: 0,
            last_apu_sync: 0,
        }
    }

    /// True when reads from `bank:addr` have no side effects and the
    /// address cannot change except by NMI/IRQ/HDMA: WRAM, SRAM and ROM
    /// qualify, I/O registers (`$2100-$5FFF`) do not.
    pub fn is_pure_memory(&self, bank: u8, addr: u16) -> (r: bool)
        ensures
            r == pure_memory(self.cart.map_mode, bank, addr),
    {
        let eb = bank & 0x7F;
        let hirom = match self.cart.map_mode {
            MapMode::HiROM => true,
            MapMode::LoROM => false,
        };
        if eb == 0x7E || eb == 0x7F {
            true
        } else if eb <= 0x3F && addr <= 0x1FFF {
            true
        } else if eb <= 0x3F && addr >= 0x8000 {
            true
        } else if 0x20 <= eb && eb <= 0x3F && 0x6000 <= addr && addr <= 0x7FFF && hirom {
            true
        } else if 0x40 <= eb && eb <= 0x6F && addr <= 0x7FFF && hirom {
            true
        } else if 0x40 <= eb && eb <= 0x6F && addr >= 0x8000 {
            true
        } else if 0x70 <= eb && eb <= 0x7D {
            true
        } else {
            false
        }
    }

    /// Master cycles per CPU access at `bank:addr`: 6 for FastROM (ROM at
    /// `$8000-$FFFF` in banks `$80-$FF` with MEMSEL bit 0 set), 8 otherwise.
    pub fn cpu_cycle_speed(&self, bank: u8, addr: u16) -> (r: u64)
        ensures
            r == access_speed(self.memsel, bank, addr),
    {
        if bank >= 0x80 && addr >= 0x8000 && self.memsel & 0x01 != 0 {
            6
        } else {
            8
        }
    }

    /// Run the APU up to the master clock: when it is behind, it is run
    /// once for the master cycles it is owed (truncated to 32 bits);
    /// otherwise nothing happens.
    pub fn sync_apu<P: Peripherals>(&mut self, io: &mut P)
        requires
            old(self).wf(),
        ensures
            final(self)@ == synced(old(self)@),
            *final(io) == chips_synced(*old(io), old(self)@),
            final(io).calls() == old(io).calls() + catch_up_requests(old(self)@),
            old(self).master_clock == old(self).last_apu_sync ==> *final(io) == *old(io),
    {
        let delta = self.master_clock - self.last_apu_sync;
        if delta > 0 {
            io.apu_catch_up(delta as u32);
            self.last_apu_sync = self.master_clock;
            assert(io.calls() =~= old(io).calls() + catch_up_requests(old(self)@));
        } else {
            assert(io.calls() + catch_up_requests(old(self)@) =~= io.calls());
        }
    }

    /// Read a CPU register (`$4200-$42FF`).
    fn read_cpu_register(&mut self, addr: u16) -> (v: u8)
        ensures
            final(self)@ == cpu_register_read_state(old(self)@, addr),
            v == cpu_register_value(old(self)@, addr),
    {
        if addr == 0x4210 {
            let val = if self.nmi_flag { 0x80u8 } else { 0x00u8 } | 0x02;
            self.nmi_flag = false;
            val
        } else if addr == 0x4211 {
            let val = if self.irq_flag { 0x80u8 } else { 0x00u8 };
            self.irq_flag = false;
            val
        } else if addr == 0x4212 {
            (if self.vblank { 0x80u8 } else { 0 }) | (if self.hblank { 0x40u8 } else { 0 }) | (if self.auto_joypad_busy {
                0x01u8
            } else {
                0
            })
        } else if addr == 0x4214 {
            self.rddiv as u8
        } else if addr == 0x4215 {
            (self.rddiv >> 8) as u8
        } else if addr == 0x4216 {
            self.rdmpy as u8
        } else if addr == 0x4217 {
            (self.rdmpy >> 8) as u8
        } else if addr == 0x4218 {
            self.auto_joypad_result as u8
        } else if addr == 0x4219 {
            (self.auto_joypad_result >> 8) as u8
        } else if 0x421A <= addr && addr <= 0x421F {
            0
        } else {
            self.open_bus
        }
    }

    /// Read from the system area (banks `$00-$3F`; `eb` is the bank with
    /// bit 7 cleared, `bank` the bank as addressed).
    fn read_system<P: Peripherals>(&mut self, io: &mut P, eb: u8, bank: u8, addr: u16) -> (v: u8)
        requires
            old(self).wf(),
            eb <= 0x3F,
            eb == bank & 0x7F || (eb == 0 && bank == 0),
        ensures
            final(self)@ == read_outcome(old(self)@, system_target(old(self).cart.map_mode, eb, addr), bank, addr).0,
            read_outcome(old(self)@, system_target(old(self).cart.map_mode, eb, addr), bank, addr).1 matches Some(x)
                ==> v == x,
            !reaches_peripheral_on_read(system_target(old(self).cart.map_mode, eb, addr)) ==> *final(io) == *old(io),
            final(io).calls() == old(io).calls() + read_requests(
                old(self)@,
                system_target(old(self).cart.map_mode, eb, addr),
                v,
            ),
            read_outcome(old(self)@, system_target(old(self).cart.map_mode, eb, addr), bank, addr).1 is None
                ==> v == read_answer(*old(io), old(self)@, system_target(old(self).cart.map_mode, eb, addr)),
            final(self).wf(),
    {
        proof {
            assert(old(io).calls() + Seq::<IoRequest>::empty() =~= old(io).calls());
        }
        let hirom = match self.cart.map_mode {
            MapMode::HiROM => true,
            MapMode::LoROM => false,
        };
        if addr <= 0x1FFF {
            self.wram[addr as usize]
        } else if 0x2100 <= addr && addr <= 0x213F {
            if addr >= 0x2134 {
                io.ppu_read(addr)
            } else {
                self.open_bus
            }
        } else if 0x2140 <= addr && addr <= 0x217F {
            // Catch the APU up to the exact cycle of this port read.
            self.sync_apu(io);
            let port = (addr & 3) as u8;
            let v = io.apu_read(port);
            assert(io.calls() =~= old(io).calls() + catch_up_requests(old(self)@).push(
                IoRequest::ApuRead { port, value: v },
            ));
            v
        } else if addr == 0x2180 {
            let wa = self.wram_addr;
            assert(wa & 0x1FFFF < 0x20000 && ((wa + 1) as u32) & 0x1FFFF <= 0x1FFFF) by (bit_vector);
            let val = self.wram[(self.wram_addr & 0x1FFFF) as usize];
            self.wram_addr = (self.wram_addr + 1) & 0x1FFFF;
            val
        } else if addr == 0x2181 {
            self.wram_addr as u8
        } else if addr == 0x2182 {
            (self.wram_addr >> 8) as u8
        } else if addr == 0x2183 {
            (self.wram_addr >> 16) as u8
        } else if addr == 0x4016 {
            io.joypad_read_serial()
        } else if addr == 0x4017 {
            0
        } else if 0x4200 <= addr && addr <= 0x42FF {
            self.read_cpu_register(addr)
        } else if 0x4300 <= addr && addr <= 0x437F {
            self.dma.read(addr)
        } else if 0x20 <= eb && 0x6000 <= addr && addr <= 0x7FFF && hirom {
            let offset = ((eb - 0x20) as usize) * 0x2000 + (addr as usize - 0x6000);
            if offset < self.cart.sram.len() {
                self.cart.sram[offset]
            } else {
                self.open_bus
            }
        } else if addr >= 0x8000 {
            self.cart.read(bank, addr)
        } else {
            self.open_bus
        }
    }

    /// Read a byte from the bus. Banks `$80-$FF` mirror `$00-$7F`; LoROM
    /// banks `$40-$6F` below `$8000` mirror the system area. Some reads
    /// have side effects: `$2180` advances the WRAM port, `$4210`/`$4211`
    /// clear the NMI/IRQ flag, and an APU port read first catches the APU
    /// up to the master clock.
    pub fn read<P: Peripherals>(&mut self, io: &mut P, bank: u8, addr: u16) -> (v: u8)
        requires
            old(self).wf(),
        ensures
            final(self)@ == read_state(old(self)@, bank, addr),
            read_value(old(self)@, bank, addr) matches Some(x) ==> v == x,
            !reaches_peripheral_on_read(bus_target(old(self).cart.map_mode, bank, addr)) ==> *final(io) == *old(io),
            final(io).calls() == old(io).calls() + read_requests(
                old(self)@,
                bus_target(old(self).cart.map_mode, bank, addr),
                v,
            ),
            read_value(old(self)@, bank, addr) is None ==> v == read_answer(
                *old(io),
                old(self)@,
                bus_target(old(self).cart.map_mode, bank, addr),
            ),
            read_value(old(self)@, bank, addr) is Some ==> *final(io) == *old(io),
            old(self).wram_addr <= 0x1FFFF ==> final(self).wram_addr <= 0x1FFFF,
            final(self).wf(),
    {
        proof {
            if old(self).wram_addr <= 0x1FFFF {
                lemma_wram_port_stays_17_bit(old(self)@, bank, addr, 0);
            }
        }
        let eb = bank & 0x7F;
        proof {
            assert(old(io).calls() + Seq::<IoRequest>::empty() =~= old(io).calls());
        }
        let hirom = match self.cart.map_mode {
            MapMode::HiROM => true,
            MapMode::LoROM => false,
        };
        if eb == 0x7E {
            self.wram[addr as usize]
        } else if eb == 0x7F {
            self.wram[0x10000 + addr as usize]
        } else if eb <= 0x3F {
            self.read_system(io, eb, bank, addr)
        } else if eb <= 0x6F {
            if addr <= 0x7FFF && !hirom {
                // LoROM: mirror of the system area.
                self.read_system(io, 0, 0x00, addr)
            } else {
                self.cart.read(bank, addr)
            }
        } else if addr <= 0x7FFF && !hirom {
            // LoROM SRAM, banks $70-$7D.
            let offset = ((eb - 0x70) as usize) * 0x8000 + addr as usize;
            if offset < self.cart.sram.len() {
                self.cart.sram[offset]
            } else {
                self.open_bus
            }
        } else {
            self.cart.read(bank, addr)
        }
    }

    /// Write a CPU register (`$4200-$42FF`). A write to `$420B` starts a
    /// general DMA on the channels it enables, unless the write is itself
    /// made by a DMA transfer (`from_dma`), in which case it is dropped:
    /// a transfer that started general DMA again from inside itself could
    /// nest without bound, and the run would have no end to prove.
    fn write_cpu_register<P: Peripherals>(&mut self, io: &mut P, addr: u16, val: u8, from_dma: bool)
        requires
            old(self).wf(),
            addr == 0x420B && !from_dma ==> dma_room(old(self)@),
        ensures
            final(self).wf(),
            !(addr == 0x420B && !from_dma) ==> final(self)@ == cpu_register_write_state(old(self)@, addr, val)
                && *final(io) == *old(io),
            addr == 0x420B && !from_dma ==> general_dma_post(old(self)@, final(self)@, val)
                && dma_calls_made(old(self)@, final(self)@, val, old(io).calls(), final(io).calls())
                && (val == 0 ==> *final(io) == *old(io)),
        decreases (if from_dma { 0int } else { 1int }), 1int,
    {
        if addr == 0x4200 {
            self.nmitimen = val;
        } else if addr == 0x4202 {
            self.wrmpya = val;
        } else if addr == 0x4203 {
            // Writing WRMPYB starts the multiplication.
            self.wrmpyb = val;
            let a = self.wrmpya;
            assert(a as u16 * val as u16 <= 65025) by (nonlinear_arith)
                requires
                    a <= 255,
                    val <= 255,
            ;
            self.rdmpy = self.wrmpya as u16 * val as u16;
        } else if addr == 0x4204 {
            self.wrdiv = (self.wrdiv & 0xFF00) | val as u16;
        } else if addr == 0x4205 {
            self.wrdiv = (self.wrdiv & 0x00FF) | ((val as u16) << 8);
        } else if addr == 0x4206 {
            // Writing WRDIVB starts the division.
            self.wrdivb = val;
            if val != 0 {
                self.rddiv = self.wrdiv / val as u16;
                self.rdmpy = self.wrdiv % val as u16;
            } else {
                self.rddiv = 0xFFFF;
                self.rdmpy = self.wrdiv;
            }
        } else if addr == 0x4207 {
            self.htime = (self.htime & 0x100) | val as u16;
        } else if addr == 0x4208 {
            self.htime = (self.htime & 0x0FF) | (((val & 0x01) as u16) << 8);
        } else if addr == 0x4209 {
            self.vtime = (self.vtime & 0x100) | val as u16;
        } else if addr == 0x420A {
            self.vtime = (self.vtime & 0x0FF) | (((val & 0x01) as u16) << 8);
        } else if addr == 0x420B {
            if !from_dma {
                self.execute_general_dma(io, val);
            }
        } else if addr == 0x420C {
            self.hdmaen = val;
        } else if addr == 0x420D {
            self.memsel = val;
        }
    }

    /// Write to the system area (banks `$00-$3F`).
    fn write_system<P: Peripherals>(&mut self, io: &mut P, eb: u8, addr: u16, val: u8, from_dma: bool)
        requires
            old(self).wf(),
            eb <= 0x3F,
            system_target(old(self).cart.map_mode, eb, addr) == BusTarget::CpuRegister(0x420B) && !from_dma
                ==> dma_room(old(self)@),
        ensures
            final(self).wf(),
            ({
                let t = system_target(old(self).cart.map_mode, eb, addr);
                &&& (t == BusTarget::CpuRegister(0x420B) && !from_dma) ==> general_dma_post(
                    old(self)@,
                    final(self)@,
                    val,
                ) && dma_calls_made(old(self)@, final(self)@, val, old(io).calls(), final(io).calls()) && (val == 0
                    ==> *final(io) == *old(io))
                &&& !(t == BusTarget::CpuRegister(0x420B) && !from_dma) ==> final(self)@ == write_outcome(
                    old(self)@,
                    t,
                    val,
                )
                &&& !reaches_peripheral_on_write(t) && !(t == BusTarget::CpuRegister(0x420B) && !from_dma)
                    ==> *final(io) == *old(io)
                &&& !(t == BusTarget::CpuRegister(0x420B) && !from_dma) ==> final(io).calls()
                    == old(io).calls() + write_requests(old(self)@, t, val)
            }),
        decreases (if from_dma { 0int } else { 1int }), 2int,
    {
        proof {
            assert(old(io).calls() + Seq::<IoRequest>::empty() =~= old(io).calls());
        }
        let hirom = match self.cart.map_mode {
            MapMode::HiROM => true,
            MapMode::LoROM => false,
        };
        if addr <= 0x1FFF {
            self.wram[addr as usize] = val;
        } else if 0x2100 <= addr && addr <= 0x213F {
            io.ppu_write(addr, val);
        } else if 0x2140 <= addr && addr <= 0x217F {
            // Catch the APU up before the CPU writes new port data.
            self.sync_apu(io);
            let port = (addr & 3) as u8;
            io.apu_write(port, val);
            assert(io.calls() =~= old(io).calls() + catch_up_requests(old(self)@).push(
                IoRequest::ApuWrite { port, value: val },
            ));
        } else if addr == 0x2180 {
            let wa = self.wram_addr;
            assert(wa & 0x1FFFF < 0x20000 && ((wa + 1) as u32) & 0x1FFFF <= 0x1FFFF) by (bit_vector);
            self.wram[(self.wram_addr & 0x1FFFF) as usize] = val;
            self.wram_addr = (self.wram_addr + 1) & 0x1FFFF;
        } else if addr == 0x2181 {
            let wa = self.wram_addr;
            assert((wa & 0x1FF00) | val as u32 <= 0x1FFFF) by (bit_vector);
            self.wram_addr = (self.wram_addr & 0x1FF00) | val as u32;
        } else if addr == 0x2182 {
            let wa = self.wram_addr;
            assert((wa & 0x100FF) | ((val as u32) << 8) <= 0x1FFFF) by (bit_vector);
            self.wram_addr = (self.wram_addr & 0x100FF) | ((val as u32) << 8);
        } else if addr == 0x2183 {
            let wa = self.wram_addr;
            assert((wa & 0x0FFFF) | (((val & 0x01) as u32) << 16) <= 0x1FFFF) by (bit_vector);
            self.wram_addr = (self.wram_addr & 0x0FFFF) | (((val & 0x01) as u32) << 16);
        } else if addr == 0x4016 {
            io.joypad_write_strobe(val);
        } else if addr == 0x4017 {
        } else if 0x4200 <= addr && addr <= 0x42FF {
            self.write_cpu_register(io, addr, val, from_dma);
        } else if 0x4300 <= addr && addr <= 0x437F {
            self.dma.write(addr, val);
        } else if 0x20 <= eb && 0x6000 <= addr && addr <= 0x7FFF && hirom {
            let offset = ((eb - 0x20) as usize) * 0x2000 + (addr as usize - 0x6000);
            if offset < self.cart.sram.len() {
                self.cart.sram[offset] = val;
            }
        }
        // ROM and unmapped addresses: writes ignored.
    }

    /// Write a byte through the bus, as a DMA transfer does when `from_dma`.
    pub(crate) fn write_inner<P: Peripherals>(&mut self, io: &mut P, bank: u8, addr: u16, val: u8, from_dma: bool)
        requires
            old(self).wf(),
            is_dma_trigger(old(self).cart.map_mode, bank, addr) && !from_dma ==> dma_room(old(self)@),
        ensures
            final(self).wf(),
            is_dma_trigger(old(self).cart.map_mode, bank, addr) && !from_dma ==> general_dma_post(
                old(self)@,
                final(self)@,
                val,
            ) && dma_calls_made(old(self)@, final(self)@, val, old(io).calls(), final(io).calls()) && (val == 0
                ==> *final(io) == *old(io)),
            !(is_dma_trigger(old(self).cart.map_mode, bank, addr) && !from_dma) ==> final(self)@ == write_state(
                old(self)@,
                bank,
                addr,
                val,
            ),
            !reaches_peripheral_on_write(bus_target(old(self).cart.map_mode, bank, addr))
                && !(is_dma_trigger(old(self).cart.map_mode, bank, addr) && !from_dma) ==> *final(io) == *old(io),
            !(is_dma_trigger(old(self).cart.map_mode, bank, addr) && !from_dma) ==> final(io).calls()
                == old(io).calls() + write_requests(old(self)@, bus_target(old(self).cart.map_mode, bank, addr), val),
        decreases (if from_dma { 0int } else { 1int }), 3int,
    {
        let eb = bank & 0x7F;
        proof {
            assert(old(io).calls() + Seq::<IoRequest>::empty() =~= old(io).calls());
        }
        let hirom = match self.cart.map_mode {
            MapMode::HiROM => true,
            MapMode::LoROM => false,
        };
        if eb == 0x7E {
            self.wram[addr as usize] = val;
        } else if eb == 0x7F {
            self.wram[0x10000 + addr as usize] = val;
        } else if eb <= 0x3F {
            self.write_system(io, eb, addr, val, from_dma);
        } else if eb <= 0x6F {
            if addr <= 0x7FFF && !hirom {
                // LoROM: mirror of the system area.
                self.write_system(io, 0, addr, val, from_dma);
            }
            // Otherwise ROM: writes ignored.
        } else if addr <= 0x7FFF && !hirom {
            // LoROM SRAM, banks $70-$7D.
            let offset = ((eb - 0x70) as usize) * 0x8000 + addr as usize;
            if offset < self.cart.sram.len() {
                self.cart.sram[offset] = val;
            }
        }
        // ROM: writes ignored.
    }

    /// Write a byte to the bus. Banks `$80-$FF` mirror `$00-$7F`; LoROM
    /// banks `$40-$6F` below `$8000` mirror the system area; ROM writes
    /// are ignored. A write to `$420B` runs general DMA.
    pub fn write<P: Peripherals>(&mut self, io: &mut P, bank: u8, addr: u16, val: u8)
        requires
            old(self).wf(),
            is_dma_trigger(old(self).cart.map_mode, bank, addr) ==> dma_room(old(self)@),
        ensures
            final(self).wf(),
            is_dma_trigger(old(self).cart.map_mode, bank, addr) ==> general_dma_post(old(self)@, final(self)@, val)
                && dma_calls_made(old(self)@, final(self)@, val, old(io).calls(), final(io).calls())
                && (val == 0 ==> *final(io) == *old(io)),
            !is_dma_trigger(old(self).cart.map_mode, bank, addr) ==> final(self)@ == write_state(
                old(self)@,
                bank,
                addr,
                val,
            ),
            !reaches_peripheral_on_write(bus_target(old(self).cart.map_mode, bank, addr))
                && !is_dma_trigger(old(self).cart.map_mode, bank, addr) ==> *final(io) == *old(io),
            !is_dma_trigger(old(self).cart.map_mode, bank, addr) ==> final(io).calls() == old(io).calls()
                + write_requests(old(self)@, bus_target(old(self).cart.map_mode, bank, addr), val),
            old(self).wram_addr <= 0x1FFFF ==> final(self).wram_addr <= 0x1FFFF,
    {
        proof {
            if old(self).wram_addr <= 0x1FFFF {
                lemma_wram_port_stays_17_bit(old(self)@, bank, addr, val);
            }
        }
        self.write_inner(io, bank, addr, val, false);
    }

}

} // verus!
