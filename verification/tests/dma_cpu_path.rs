//! CPU writes and general-DMA writes to the same B-bus target go through
//! the same dispatch, and DMA charges its cycles to the CPU.

use zelda_a_link_to_the_past::bus::{Bus, IoRequest, Peripherals};
use zelda_a_link_to_the_past::rom::{Cartridge, MapMode};

/// Stand-in chips that record what reaches them.
#[derive(Clone)]
struct Chips {
    ppu_regs: [u8; 0x40],
    ports_from_main: [u8; 4],
    ports_to_main: [u8; 4],
}

impl Chips {
    fn new() -> Self {
        Chips { ppu_regs: [0; 0x40], ports_from_main: [0; 4], ports_to_main: [0; 4] }
    }
}

impl Peripherals for Chips {
    fn calls(&self) -> vstd::seq::Seq<IoRequest> {
        unreachable!()
    }
    fn ppu_answer(&self, addr: u16) -> u8 {
        self.ppu_regs[(addr & 0x3F) as usize]
    }
    fn apu_answer(&self, port: u8) -> u8 {
        self.ports_to_main[(port & 3) as usize]
    }
    fn joypad_answer(&self) -> u8 {
        0
    }
    fn after_catch_up(&self, _master_cycles: u32) -> Self {
        self.clone()
    }
    fn ppu_read(&mut self, addr: u16) -> u8 {
        self.ppu_regs[(addr & 0x3F) as usize]
    }
    fn ppu_write(&mut self, addr: u16, val: u8) {
        self.ppu_regs[(addr & 0x3F) as usize] = val;
    }
    fn apu_read(&mut self, port: u8) -> u8 {
        self.ports_to_main[(port & 3) as usize]
    }
    fn apu_write(&mut self, port: u8, val: u8) {
        self.ports_from_main[(port & 3) as usize] = val;
    }
    fn apu_catch_up(&mut self, _master_cycles: u32) {}
    fn joypad_read_serial(&mut self) -> u8 {
        0
    }
    fn joypad_write_strobe(&mut self, _val: u8) {}
}

fn test_bus() -> Bus {
    let cart = Cartridge {
        rom: vec![0u8; 0x10000],
        sram: vec![0u8; 0x2000],
        title: "TEST".to_string(),
        map_mode: MapMode::LoROM,
        rom_size: 0,
        ram_size: 0x2000,
        country: 0,
        version: 0,
        checksum: 0,
        checksum_complement: 0,
    };
    Bus::new(cart)
}

#[test]
fn cpu_write_and_dma_write_same_apu_port() {
    let mut io_cpu = Chips::new();
    let mut bus_cpu = test_bus();
    bus_cpu.write(&mut io_cpu, 0x00, 0x2140, 0xAB);
    let cpu_port_val = io_cpu.ports_from_main[0];

    let mut io_dma = Chips::new();
    let mut bus_dma = test_bus();
    bus_dma.wram[0x100] = 0xAB;
    bus_dma.dma.channels[0].control = 0x00;
    bus_dma.dma.channels[0].dest = 0x40;
    bus_dma.dma.channels[0].src_addr = 0x0100;
    bus_dma.dma.channels[0].src_bank = 0x00;
    bus_dma.dma.channels[0].size = 1;
    bus_dma.write(&mut io_dma, 0x00, 0x420B, 0x01);
    let dma_port_val = io_dma.ports_from_main[0];

    assert_eq!(
        cpu_port_val, dma_port_val,
        "CPU write and DMA write to $2140 must produce the same port value: CPU={:#04x}, DMA={:#04x}",
        cpu_port_val, dma_port_val
    );
    assert_eq!(cpu_port_val, 0xAB);
}

#[test]
fn cpu_write_and_dma_write_same_ppu_register() {
    let mut io_cpu = Chips::new();
    let mut bus_cpu = test_bus();
    bus_cpu.write(&mut io_cpu, 0x00, 0x2100, 0x0F);
    let cpu_inidisp = io_cpu.ppu_regs[0];

    let mut io_dma = Chips::new();
    let mut bus_dma = test_bus();
    bus_dma.wram[0x200] = 0x0F;
    bus_dma.dma.channels[0].control = 0x00;
    bus_dma.dma.channels[0].dest = 0x00;
    bus_dma.dma.channels[0].src_addr = 0x0200;
    bus_dma.dma.channels[0].src_bank = 0x00;
    bus_dma.dma.channels[0].size = 1;
    bus_dma.write(&mut io_dma, 0x00, 0x420B, 0x01);
    let dma_inidisp = io_dma.ppu_regs[0];

    assert_eq!(
        cpu_inidisp, dma_inidisp,
        "CPU and DMA writes to INIDISP must produce the same PPU state: CPU={:#04x}, DMA={:#04x}",
        cpu_inidisp, dma_inidisp
    );
    assert_eq!(cpu_inidisp, 0x0F);
}

#[test]
fn cpu_write_and_dma_write_same_wram_via_wmdata() {
    let mut io = Chips::new();
    let mut bus_cpu = test_bus();
    bus_cpu.wram_addr = 0x1000;
    bus_cpu.write(&mut io, 0x00, 0x2180, 0x42);
    let cpu_val = bus_cpu.wram[0x1000];
    let cpu_addr_after = bus_cpu.wram_addr;

    let mut bus_dma = test_bus();
    bus_dma.wram_addr = 0x1000;
    bus_dma.wram[0x300] = 0x42;
    bus_dma.dma.channels[0].control = 0x00;
    bus_dma.dma.channels[0].dest = 0x80;
    bus_dma.dma.channels[0].src_addr = 0x0300;
    bus_dma.dma.channels[0].src_bank = 0x00;
    bus_dma.dma.channels[0].size = 1;
    bus_dma.write(&mut io, 0x00, 0x420B, 0x01);
    let dma_val = bus_dma.wram[0x1000];
    let dma_addr_after = bus_dma.wram_addr;

    assert_eq!(cpu_val, dma_val, "WMDATA write target must match");
    assert_eq!(cpu_val, 0x42);
    assert_eq!(
        cpu_addr_after, dma_addr_after,
        "WMDATA auto-increment must match: CPU={}, DMA={}",
        cpu_addr_after, dma_addr_after
    );
}

#[test]
fn dma_accumulates_pending_cycles() {
    let mut io = Chips::new();
    let mut bus = test_bus();

    bus.wram[0x400] = 0x01;
    bus.wram[0x401] = 0x02;
    bus.wram[0x402] = 0x03;
    bus.wram[0x403] = 0x04;
    bus.dma.channels[0].control = 0x00;
    bus.dma.channels[0].dest = 0x00;
    bus.dma.channels[0].src_addr = 0x0400;
    bus.dma.channels[0].src_bank = 0x00;
    bus.dma.channels[0].size = 4;

    bus.write(&mut io, 0x00, 0x420B, 0x01);

    assert_eq!(
        bus.pending_dma_cycles, 32,
        "4-byte DMA should produce 32 pending master cycles, got {}",
        bus.pending_dma_cycles
    );
}

// ─── Further cases ──────────────────────────────────────────────────────

#[test]
fn dma_mode1_alternates_registers_and_advances_channel() {
    let mut io = Chips::new();
    let mut bus = test_bus();
    for i in 0..4 {
        bus.wram[0x500 + i] = 0x10 + i as u8;
    }
    bus.dma.channels[1].control = 0x01;
    bus.dma.channels[1].dest = 0x18;
    bus.dma.channels[1].src_addr = 0x0500;
    bus.dma.channels[1].size = 4;
    bus.write(&mut io, 0x00, 0x420B, 0x02);
    assert_eq!(io.ppu_regs[0x18], 0x12);
    assert_eq!(io.ppu_regs[0x19], 0x13);
    assert_eq!(bus.dma.channels[1].size, 0, "size counts down to 0");
    assert_eq!(bus.dma.channels[1].src_addr, 0x0504);
    assert_eq!(bus.pending_dma_cycles, 32);
}

#[test]
fn dma_size_zero_moves_64k() {
    let mut io = Chips::new();
    let mut bus = test_bus();
    bus.dma.channels[0].control = 0x08; // fixed source address
    bus.dma.channels[0].dest = 0x40;
    bus.dma.channels[0].src_addr = 0x0000;
    bus.dma.channels[0].size = 0;
    bus.write(&mut io, 0x00, 0x420B, 0x01);
    assert_eq!(bus.pending_dma_cycles, 0x10000 * 8);
    assert_eq!(bus.dma.channels[0].src_addr, 0, "fixed source does not move");
}

#[test]
fn dma_b_to_a_reads_the_peripheral() {
    let mut io = Chips::new();
    io.ports_to_main[1] = 0x5C;
    let mut bus = test_bus();
    bus.dma.channels[0].control = 0x80;
    bus.dma.channels[0].dest = 0x41;
    bus.dma.channels[0].src_addr = 0x0600;
    bus.dma.channels[0].size = 2;
    bus.write(&mut io, 0x00, 0x420B, 0x01);
    assert_eq!(bus.wram[0x600], 0x5C);
    assert_eq!(bus.wram[0x601], 0x5C);
}

#[test]
fn dma_with_no_channels_does_nothing() {
    let mut io = Chips::new();
    let mut bus = test_bus();
    bus.dma.channels[0].size = 4;
    bus.write(&mut io, 0x00, 0x420B, 0x00);
    assert_eq!(bus.pending_dma_cycles, 0);
    assert_eq!(bus.dma.channels[0].size, 4);
}

#[test]
fn b_to_a_dma_charges_eight_cycles_per_byte() {
    let mut io = Chips::new();
    let mut bus = test_bus();
    bus.wram[0x0300] = 0x11;
    bus.wram[0x0301] = 0x22;
    bus.wram[0x0302] = 0x33;
    bus.wram_addr = 0x0300;
    bus.dma.channels[1].control = 0x80; // B-bus to A-bus, one register
    bus.dma.channels[1].dest = 0x80; // $2180, the WRAM data port
    bus.dma.channels[1].src_addr = 0x0400;
    bus.dma.channels[1].src_bank = 0x7E;
    bus.dma.channels[1].size = 3;
    bus.write(&mut io, 0x00, 0x420B, 0x02);
    assert_eq!(bus.pending_dma_cycles, 24);
    assert_eq!(bus.master_clock, 24);
    assert_eq!(&bus.wram[0x0400..0x0403], &[0x11, 0x22, 0x33]);
    assert_eq!(bus.dma.channels[1].size, 0);
    assert_eq!(bus.dma.channels[1].src_addr, 0x0403);
    assert_eq!(bus.wram_addr, 0x0303);
}
