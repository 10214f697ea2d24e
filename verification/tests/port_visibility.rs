//! APU port visibility under just-in-time APU synchronisation, and HDMA.

use zelda_a_link_to_the_past::bus::{Bus, IoRequest, Peripherals};
use zelda_a_link_to_the_past::rom::{Cartridge, MapMode};

/// Stand-in chips: the two APU port arrays, the PPU registers, and the
/// master cycles the APU was run for.
#[derive(Clone)]
struct Chips {
    ppu_regs: [u8; 0x40],
    ports_from_main: [u8; 4],
    ports_to_main: [u8; 4],
    apu_cycles: u64,
}

impl Chips {
    fn new() -> Self {
        Chips { ppu_regs: [0; 0x40], ports_from_main: [0; 4], ports_to_main: [0; 4], apu_cycles: 0 }
    }
}

impl Peripherals for Chips {
    fn calls(&self) -> vstd::seq::Seq<IoRequest> {
        unreachable!()
    }
    fn ppu_answer(&self, addr: u16) -> u8 {
        self.ppu_regs[(addr & 0x3F) as usize]
    }
    fn apu_answer(&self, port: u8) -> u8 {
        self.ports_to_main[(port & 3) as usize]
    }
    fn joypad_answer(&self) -> u8 {
        0
    }
    fn after_catch_up(&self, master_cycles: u32) -> Self {
        let mut next = self.clone();
        next.apu_cycles += master_cycles as u64;
        next
    }
    fn ppu_read(&mut self, addr: u16) -> u8 {
        self.ppu_regs[(addr & 0x3F) as usize]
    }
    fn ppu_write(&mut self, addr: u16, val: u8) {
        self.ppu_regs[(addr & 0x3F) as usize] = val;
    }
    fn apu_read(&mut self, port: u8) -> u8 {
        self.ports_to_main[(port & 3) as usize]
    }
    fn apu_write(&mut self, port: u8, val: u8) {
        self.ports_from_main[(port & 3) as usize] = val;
    }
    fn apu_catch_up(&mut self, master_cycles: u32) {
        self.apu_cycles += master_cycles as u64;
    }
    fn joypad_read_serial(&mut self) -> u8 {
        0
    }
    fn joypad_write_strobe(&mut self, _val: u8) {}
}

fn test_bus() -> Bus {
    let cart = Cartridge {
        rom: vec![0u8; 0x10000],
        sram: vec![0u8; 0x2000],
        title: "TEST".to_string(),
        map_mode: MapMode::LoROM,
        rom_size: 0,
        ram_size: 0x2000,
        country: 0,
        version: 0,
        checksum: 0,
        checksum_complement: 0,
    };
    Bus::new(cart)
}

#[test]
fn cpu_write_to_apu_port_is_visible_to_spc() {
    let mut io = Chips::new();
    let mut bus = test_bus();
    bus.write(&mut io, 0x00, 0x2140, 0x42);
    assert_eq!(io.ports_from_main[0], 0x42, "CPU write to $2140 must be immediately visible in ports_from_main[0]");
}

#[test]
fn cpu_write_to_all_four_ports() {
    let mut io = Chips::new();
    let mut bus = test_bus();
    bus.write(&mut io, 0x00, 0x2140, 0xAA);
    bus.write(&mut io, 0x00, 0x2141, 0xBB);
    bus.write(&mut io, 0x00, 0x2142, 0xCC);
    bus.write(&mut io, 0x00, 0x2143, 0xDD);
    assert_eq!(io.ports_from_main[0], 0xAA);
    assert_eq!(io.ports_from_main[1], 0xBB);
    assert_eq!(io.ports_from_main[2], 0xCC);
    assert_eq!(io.ports_from_main[3], 0xDD);
}

#[test]
fn spc_port_write_visible_to_cpu_after_sync() {
    let mut io = Chips::new();
    let mut bus = test_bus();
    io.ports_to_main[0] = 0x55;
    let val = bus.read(&mut io, 0x00, 0x2140);
    assert_eq!(val, 0x55, "CPU read from $2140 must see SPC port 0 value: expected 0x55, got {:#04x}", val);
}

#[test]
fn port_mirrors_work() {
    let mut io = Chips::new();
    let mut bus = test_bus();
    bus.write(&mut io, 0x00, 0x2144, 0x77);
    assert_eq!(io.ports_from_main[0], 0x77, "$2144 write must mirror to port 0");

    io.ports_to_main[2] = 0x88;
    let val = bus.read(&mut io, 0x00, 0x2146);
    assert_eq!(val, 0x88, "$2146 read must mirror port 2");
}

#[test]
fn jit_sync_called_on_port_read() {
    let mut io = Chips::new();
    let mut bus = test_bus();
    bus.master_clock = 1000;
    bus.last_apu_sync = 0;
    let _val = bus.read(&mut io, 0x00, 0x2140);
    assert_eq!(bus.last_apu_sync, bus.master_clock, "Port read must trigger APU sync: last_apu_sync should equal master_clock");
    assert_eq!(io.apu_cycles, 1000);
}

#[test]
fn jit_sync_called_on_port_write() {
    let mut io = Chips::new();
    let mut bus = test_bus();
    bus.master_clock = 500;
    bus.last_apu_sync = 0;
    bus.write(&mut io, 0x00, 0x2141, 0x99);
    assert_eq!(bus.last_apu_sync, bus.master_clock, "Port write must trigger APU sync: last_apu_sync should equal master_clock");
}

#[test]
fn non_apu_read_does_not_sync() {
    let mut io = Chips::new();
    let mut bus = test_bus();
    bus.master_clock = 1000;
    bus.last_apu_sync = 0;
    let _val = bus.read(&mut io, 0x00, 0x0100);
    assert_eq!(bus.last_apu_sync, 0, "WRAM read must NOT trigger APU sync");
    assert_eq!(io.apu_cycles, 0);
}

#[test]
fn sync_apu_is_idempotent_when_caught_up() {
    let mut io = Chips::new();
    let mut bus = test_bus();
    bus.master_clock = 500;
    bus.last_apu_sync = 500;
    let cycles_before = io.apu_cycles;
    bus.sync_apu(&mut io);
    let cycles_after = io.apu_cycles;
    assert_eq!(cycles_before, cycles_after, "sync_apu when already caught up must not advance APU cycles");
}

// ─── HDMA ───────────────────────────────────────────────────────────────

#[test]
fn hdma_direct_table_runs_line_by_line() {
    let mut io = Chips::new();
    let mut bus = test_bus();
    bus.wram[0x800] = 0x02;
    bus.wram[0x801] = 0xAA;
    bus.wram[0x802] = 0x01;
    bus.wram[0x803] = 0xBB;
    bus.wram[0x804] = 0x00;
    bus.dma.channels[0].control = 0x00;
    bus.dma.channels[0].dest = 0x21;
    bus.dma.channels[0].src_bank = 0x7E;
    bus.dma.channels[0].src_addr = 0x0800;
    bus.hdmaen = 0x01;

    bus.hdma_init_frame(&mut io);
    assert_eq!(bus.dma.channels[0].hdma_line_counter, 2);
    assert_eq!(bus.dma.channels[0].hdma_addr, 0x0801);
    assert!(bus.dma.channels[1].hdma_terminated, "disabled channels are terminated");

    bus.hdma_run_scanline(&mut io);
    assert_eq!(io.ppu_regs[0x21], 0xAA);
    assert!(!bus.dma.channels[0].hdma_do_transfer, "repeat bit clear: no transfer on the next line");

    io.ppu_regs[0x21] = 0;
    bus.hdma_run_scanline(&mut io);
    assert_eq!(io.ppu_regs[0x21], 0, "second line of the entry transfers nothing");
    assert_eq!(bus.dma.channels[0].hdma_line_counter, 1, "next entry loaded");

    bus.hdma_run_scanline(&mut io);
    assert_eq!(io.ppu_regs[0x21], 0xBB);
    assert!(bus.dma.channels[0].hdma_terminated, "a zero line count ends the table");

    io.ppu_regs[0x21] = 0;
    bus.hdma_run_scanline(&mut io);
    assert_eq!(io.ppu_regs[0x21], 0);
}

#[test]
fn hdma_indirect_reads_through_pointer() {
    let mut io = Chips::new();
    let mut bus = test_bus();
    bus.wram[0x900] = 0x81; // repeat, 1 line
    bus.wram[0x901] = 0x00;
    bus.wram[0x902] = 0x0A; // data at $0A00
    bus.wram[0x903] = 0x00;
    bus.wram[0xA00] = 0x11;
    bus.wram[0xA01] = 0x22;
    bus.dma.channels[3].control = 0x41; // indirect, mode 1
    bus.dma.channels[3].dest = 0x18;
    bus.dma.channels[3].src_bank = 0x00;
    bus.dma.channels[3].src_addr = 0x0900;
    bus.dma.channels[3].hdma_indirect_bank = 0x00;
    bus.hdmaen = 0x08;

    bus.hdma_init_frame(&mut io);
    assert_eq!(bus.dma.channels[3].size, 0x0A00);
    assert_eq!(bus.dma.channels[3].hdma_addr, 0x0903);
    bus.hdma_run_scanline(&mut io);
    assert_eq!(io.ppu_regs[0x18], 0x11);
    assert_eq!(io.ppu_regs[0x19], 0x22);
    assert_eq!(bus.dma.channels[3].size, 0x0A02);
    assert!(bus.dma.channels[3].hdma_terminated, "next line count read as 0");
}

#[test]
fn hdma_disabled_changes_nothing() {
    let mut io = Chips::new();
    let mut bus = test_bus();
    bus.dma.channels[0].src_addr = 0x1234;
    bus.hdma_init_frame(&mut io);
    bus.hdma_run_scanline(&mut io);
    assert_eq!(bus.dma.channels[0].hdma_addr, 0);
    assert!(!bus.dma.channels[0].hdma_terminated);
}

#[test]
fn sync_apu_hands_over_owed_cycles_once() {
    let mut io = Chips::new();
    let mut bus = test_bus();
    bus.master_clock = 1234;
    bus.last_apu_sync = 1000;
    bus.read(&mut io, 0x00, 0x2143);
    assert_eq!(io.apu_cycles, 234, "the APU is run for exactly the cycles it was owed");
    bus.read(&mut io, 0x80, 0x2147);
    assert_eq!(io.apu_cycles, 234, "a second access while caught up runs nothing");
}
