//! Bus dispatch and address decoding, with recording stand-ins for the
//! PPU, APU and joypad.

use zelda_a_link_to_the_past::bus::{Bus, IoRequest, NoChips, Peripherals};
use zelda_a_link_to_the_past::rom::{Cartridge, MapMode};

/// Stand-in chips: the PPU keeps its registers, the APU its two port
/// arrays (the SPC700 side answers $AA/$BB at power-on like the IPL ROM).
#[derive(Clone)]
struct Chips {
    ppu_regs: [u8; 0x40],
    ports_from_main: [u8; 4],
    ports_to_main: [u8; 4],
    apu_cycles: u64,
    strobe: u8,
}

impl Chips {
    fn new() -> Self {
        Chips { ppu_regs: [0; 0x40], ports_from_main: [0; 4], ports_to_main: [0xAA, 0xBB, 0, 0], apu_cycles: 0, strobe: 0 }
    }
}

impl Peripherals for Chips {
    fn calls(&self) -> vstd::seq::Seq<IoRequest> {
        unreachable!()
    }
    fn ppu_answer(&self, addr: u16) -> u8 {
        self.ppu_regs[(addr & 0x3F) as usize]
    }
    fn apu_answer(&self, port: u8) -> u8 {
        self.ports_to_main[(port & 3) as usize]
    }
    fn joypad_answer(&self) -> u8 {
        1
    }
    fn after_catch_up(&self, master_cycles: u32) -> Self {
        let mut next = self.clone();
        next.apu_cycles += master_cycles as u64;
        next
    }
    fn ppu_read(&mut self, addr: u16) -> u8 {
        self.ppu_regs[(addr & 0x3F) as usize]
    }
    fn ppu_write(&mut self, addr: u16, val: u8) {
        self.ppu_regs[(addr & 0x3F) as usize] = val;
    }
    fn apu_read(&mut self, port: u8) -> u8 {
        self.ports_to_main[(port & 3) as usize]
    }
    fn apu_write(&mut self, port: u8, val: u8) {
        self.ports_from_main[(port & 3) as usize] = val;
    }
    fn apu_catch_up(&mut self, master_cycles: u32) {
        self.apu_cycles += master_cycles as u64;
    }
    fn joypad_read_serial(&mut self) -> u8 {
        1
    }
    fn joypad_write_strobe(&mut self, val: u8) {
        self.strobe = val;
    }
}

fn test_bus() -> Bus {
    let mut rom = vec![0u8; 0x8000];
    rom[0] = 0xAB;
    rom[0x7FFC] = 0x00;
    rom[0x7FFD] = 0x80;
    let cart = Cartridge {
        rom,
        sram: vec![0u8; 8192],
        title: "TEST".to_string(),
        map_mode: MapMode::LoROM,
        rom_size: 0x8000,
        ram_size: 8192,
        country: 0,
        version: 0,
        checksum: 0,
        checksum_complement: 0,
    };
    Bus::new(cart)
}

#[test]
fn bus_wram_write_read_roundtrip() {
    let mut io = Chips::new();
    let mut bus = test_bus();
    bus.write(&mut io, 0x7E, 0x0000, 0x42);
    assert_eq!(bus.read(&mut io, 0x7E, 0x0000), 0x42);

    bus.write(&mut io, 0x00, 0x0010, 0x55);
    assert_eq!(bus.read(&mut io, 0x00, 0x0010), 0x55);

    bus.write(&mut io, 0x7E, 0x0010, 0x77);
    assert_eq!(bus.read(&mut io, 0x00, 0x0010), 0x77, "Low mirror must share WRAM with bank $7E");
}

#[test]
fn bus_wram_upper_bank() {
    let mut io = Chips::new();
    let mut bus = test_bus();
    bus.write(&mut io, 0x7F, 0x0000, 0xBB);
    assert_eq!(bus.read(&mut io, 0x7F, 0x0000), 0xBB);
    assert_eq!(bus.wram[0x10000], 0xBB);
}

#[test]
fn bus_bank_mirroring() {
    let mut io = Chips::new();
    let mut bus = test_bus();
    bus.write(&mut io, 0x00, 0x0000, 0x12);
    assert_eq!(bus.read(&mut io, 0x80, 0x0000), 0x12, "Bank $80 must mirror bank $00");
}

#[test]
fn bus_rom_read() {
    let mut io = Chips::new();
    let mut bus = test_bus();
    let val = bus.read(&mut io, 0x00, 0x8000);
    assert_eq!(val, 0xAB, "ROM read at $00:8000 should return first ROM byte");
}

#[test]
fn bus_rom_write_ignored() {
    let mut io = Chips::new();
    let mut bus = test_bus();
    let original = bus.read(&mut io, 0x00, 0x8000);
    bus.write(&mut io, 0x00, 0x8000, 0xFF);
    assert_eq!(bus.read(&mut io, 0x00, 0x8000), original, "ROM writes should be ignored");
}

#[test]
fn bus_sram_read_write_roundtrip() {
    let mut io = Chips::new();
    let mut bus = test_bus();
    bus.write(&mut io, 0x70, 0x0000, 0x99);
    assert_eq!(bus.read(&mut io, 0x70, 0x0000), 0x99);
    assert_eq!(bus.cart.sram[0], 0x99);
}

#[test]
fn bus_ppu_register_dispatch() {
    let mut io = Chips::new();
    let mut bus = test_bus();
    bus.write(&mut io, 0x00, 0x2100, 0x0F);
    assert_eq!(io.ppu_regs[0], 0x0F, "$2100 write should reach PPU INIDISP");
}

#[test]
fn bus_apu_port_dispatch() {
    let mut io = Chips::new();
    let mut bus = test_bus();
    bus.write(&mut io, 0x00, 0x2140, 0x42);
    assert_eq!(io.ports_from_main[0], 0x42);
    let val = bus.read(&mut io, 0x00, 0x2140);
    assert_eq!(val, 0xAA, "APU should initially respond with $AA on port 0");
}

#[test]
fn bus_apu_port_mirroring() {
    let mut io = Chips::new();
    let mut bus = test_bus();
    let v1 = bus.read(&mut io, 0x00, 0x2140);
    let v2 = bus.read(&mut io, 0x00, 0x2144);
    let v3 = bus.read(&mut io, 0x00, 0x2178);
    assert_eq!(v1, v2, "APU port mirrors should return same value");
    assert_eq!(v2, v3, "APU port mirrors should return same value");
}

#[test]
fn bus_dma_register_dispatch() {
    let mut io = Chips::new();
    let mut bus = test_bus();
    bus.write(&mut io, 0x00, 0x4301, 0x18);
    assert_eq!(bus.read(&mut io, 0x00, 0x4301), 0x18, "DMA register write/read should roundtrip");
}

#[test]
fn bus_math_multiply() {
    let mut io = Chips::new();
    let mut bus = test_bus();
    bus.write(&mut io, 0x00, 0x4202, 10);
    bus.write(&mut io, 0x00, 0x4203, 20);
    let lo = bus.read(&mut io, 0x00, 0x4216) as u16;
    let hi = bus.read(&mut io, 0x00, 0x4217) as u16;
    assert_eq!(lo | (hi << 8), 200, "10 * 20 should = 200");
}

#[test]
fn bus_math_divide() {
    let mut io = Chips::new();
    let mut bus = test_bus();
    bus.write(&mut io, 0x00, 0x4204, 200);
    bus.write(&mut io, 0x00, 0x4205, 0);
    bus.write(&mut io, 0x00, 0x4206, 10);
    let quot_lo = bus.read(&mut io, 0x00, 0x4214) as u16;
    let quot_hi = bus.read(&mut io, 0x00, 0x4215) as u16;
    assert_eq!(quot_lo | (quot_hi << 8), 20, "200 / 10 should = 20");
    let rem_lo = bus.read(&mut io, 0x00, 0x4216) as u16;
    let rem_hi = bus.read(&mut io, 0x00, 0x4217) as u16;
    assert_eq!(rem_lo | (rem_hi << 8), 0, "200 % 10 should = 0");
}

#[test]
fn bus_math_divide_by_zero() {
    let mut io = Chips::new();
    let mut bus = test_bus();
    bus.write(&mut io, 0x00, 0x4204, 100);
    bus.write(&mut io, 0x00, 0x4205, 0);
    bus.write(&mut io, 0x00, 0x4206, 0);
    let quot_lo = bus.read(&mut io, 0x00, 0x4214) as u16;
    let quot_hi = bus.read(&mut io, 0x00, 0x4215) as u16;
    assert_eq!(quot_lo | (quot_hi << 8), 0xFFFF, "Division by zero should return $FFFF");
    let rem_lo = bus.read(&mut io, 0x00, 0x4216) as u16;
    let rem_hi = bus.read(&mut io, 0x00, 0x4217) as u16;
    assert_eq!(rem_lo | (rem_hi << 8), 100, "Division by zero leaves the dividend as remainder");
}

#[test]
fn bus_rdnmi_clears_flag() {
    let mut io = Chips::new();
    let mut bus = test_bus();
    bus.nmi_flag = true;
    let val = bus.read(&mut io, 0x00, 0x4210);
    assert_ne!(val & 0x80, 0, "RDNMI should return NMI flag");
    assert!(!bus.nmi_flag, "Reading $4210 must clear NMI flag");
}

#[test]
fn bus_timeup_clears_irq_flag() {
    let mut io = Chips::new();
    let mut bus = test_bus();
    bus.irq_flag = true;
    let val = bus.read(&mut io, 0x00, 0x4211);
    assert_ne!(val & 0x80, 0, "TIMEUP should return IRQ flag");
    assert!(!bus.irq_flag, "Reading $4211 must clear IRQ flag");
}

#[test]
fn bus_hvbjoy_reflects_vblank() {
    let mut io = Chips::new();
    let mut bus = test_bus();
    bus.vblank = true;
    let val = bus.read(&mut io, 0x00, 0x4212);
    assert_ne!(val & 0x80, 0, "HVBJOY bit 7 should reflect vblank");

    bus.vblank = false;
    let val = bus.read(&mut io, 0x00, 0x4212);
    assert_eq!(val & 0x80, 0, "HVBJOY bit 7 should be clear outside vblank");
}

#[test]
fn bus_is_pure_memory_wram() {
    let bus = test_bus();
    assert!(bus.is_pure_memory(0x7E, 0x0000), "Bank $7E should be pure memory");
    assert!(bus.is_pure_memory(0x7F, 0x0000), "Bank $7F should be pure memory");
    assert!(bus.is_pure_memory(0x00, 0x0000), "Low WRAM mirror should be pure");
}

#[test]
fn bus_is_pure_memory_io_is_not_pure() {
    let bus = test_bus();
    assert!(!bus.is_pure_memory(0x00, 0x2100), "PPU registers should not be pure memory");
    assert!(!bus.is_pure_memory(0x00, 0x2140), "APU ports should not be pure memory");
    assert!(!bus.is_pure_memory(0x00, 0x4210), "CPU registers should not be pure memory");
}

#[test]
fn bus_is_pure_memory_rom() {
    let bus = test_bus();
    assert!(bus.is_pure_memory(0x00, 0x8000), "ROM should be pure memory");
}

#[test]
fn bus_lorom_formula() {
    let mut io = Chips::new();
    let mut rom = vec![0u8; 0x10000];
    rom[0] = 0x11;
    rom[0x8000] = 0x22;
    rom[0x7FFC] = 0x00;
    rom[0x7FFD] = 0x80;
    let cart = Cartridge {
        rom,
        sram: vec![],
        title: "TEST".to_string(),
        map_mode: MapMode::LoROM,
        rom_size: 0x10000,
        ram_size: 0,
        country: 0,
        version: 0,
        checksum: 0,
        checksum_complement: 0,
    };
    let mut bus = Bus::new(cart);
    assert_eq!(bus.read(&mut io, 0x00, 0x8000), 0x11, "Bank $00 LoROM mapping");
    assert_eq!(bus.read(&mut io, 0x01, 0x8000), 0x22, "Bank $01 LoROM mapping");
}

#[test]
fn bus_wram_data_port() {
    let mut io = Chips::new();
    let mut bus = test_bus();
    bus.write(&mut io, 0x00, 0x2181, 0x00);
    bus.write(&mut io, 0x00, 0x2182, 0x00);
    bus.write(&mut io, 0x00, 0x2183, 0x00);

    bus.write(&mut io, 0x00, 0x2180, 0xAA);
    bus.write(&mut io, 0x00, 0x2180, 0xBB);

    assert_eq!(bus.read(&mut io, 0x7E, 0x0000), 0xAA, "WMDATA write should go to WRAM[0]");
    assert_eq!(bus.read(&mut io, 0x7E, 0x0001), 0xBB, "WMDATA auto-increments");
}

// ─── Further cases ──────────────────────────────────────────────────────

#[test]
fn bus_wram_port_address_registers_read_back() {
    let mut io = Chips::new();
    let mut bus = test_bus();
    bus.write(&mut io, 0x00, 0x2181, 0x34);
    bus.write(&mut io, 0x00, 0x2182, 0x12);
    bus.write(&mut io, 0x00, 0x2183, 0xFF);
    assert_eq!(bus.wram_addr, 0x11234, "WMADDH keeps only bit 0");
    bus.wram[0x11234] = 0x5A;
    assert_eq!(bus.read(&mut io, 0x00, 0x2180), 0x5A);
    assert_eq!(bus.wram_addr, 0x11235);
}

#[test]
fn bus_wram_port_wraps_at_128k() {
    let mut io = Chips::new();
    let mut bus = test_bus();
    bus.wram_addr = 0x1FFFF;
    bus.write(&mut io, 0x00, 0x2180, 0x66);
    assert_eq!(bus.wram[0x1FFFF], 0x66);
    assert_eq!(bus.wram_addr, 0, "port address wraps to 0");
}

#[test]
fn bus_fastrom_speed() {
    let mut io = Chips::new();
    let mut bus = test_bus();
    assert_eq!(bus.cpu_cycle_speed(0x80, 0x8000), 8);
    bus.write(&mut io, 0x00, 0x420D, 0x01);
    assert_eq!(bus.cpu_cycle_speed(0x80, 0x8000), 6);
    assert_eq!(bus.cpu_cycle_speed(0x00, 0x8000), 8);
}

#[test]
fn bus_hirom_sram_window() {
    let mut io = Chips::new();
    let cart = Cartridge {
        rom: vec![0u8; 0x10000],
        sram: vec![0u8; 0x2000],
        title: "HI".to_string(),
        map_mode: MapMode::HiROM,
        rom_size: 0x10000,
        ram_size: 0x2000,
        country: 0,
        version: 0,
        checksum: 0,
        checksum_complement: 0,
    };
    let mut bus = Bus::new(cart);
    bus.write(&mut io, 0x20, 0x6005, 0x3C);
    assert_eq!(bus.cart.sram[5], 0x3C);
    assert_eq!(bus.read(&mut io, 0xA0, 0x6005), 0x3C);
    assert_eq!(bus.read(&mut io, 0x21, 0x6005), bus.open_bus, "beyond the SRAM reads open bus");
}

#[test]
fn bus_joypad_registers() {
    let mut io = Chips::new();
    let mut bus = test_bus();
    bus.write(&mut io, 0x00, 0x4016, 0x01);
    assert_eq!(io.strobe, 0x01);
    assert_eq!(bus.read(&mut io, 0x00, 0x4016), 1);
    bus.auto_joypad_result = 0x8040;
    assert_eq!(bus.read(&mut io, 0x00, 0x4218), 0x40);
    assert_eq!(bus.read(&mut io, 0x00, 0x4219), 0x80);
}

#[test]
fn bus_sync_apu_runs_the_difference() {
    let mut io = Chips::new();
    let mut bus = test_bus();
    bus.master_clock = 1000;
    bus.last_apu_sync = 400;
    bus.sync_apu(&mut io);
    assert_eq!(io.apu_cycles, 600);
    assert_eq!(bus.last_apu_sync, 1000);
    bus.sync_apu(&mut io);
    assert_eq!(io.apu_cycles, 600, "a second sync runs nothing");
}

#[test]
fn bus_write_keeps_other_cells() {
    let mut io = Chips::new();
    let mut bus = test_bus();
    bus.write(&mut io, 0x7E, 0x0100, 0x11);
    bus.write(&mut io, 0x70, 0x0002, 0x22);
    bus.write(&mut io, 0x7E, 0x0101, 0x33);
    bus.write(&mut io, 0x70, 0x0003, 0x44);
    assert_eq!(bus.read(&mut io, 0x7E, 0x0100), 0x11);
    assert_eq!(bus.read(&mut io, 0x70, 0x0002), 0x22);
    assert_eq!(bus.read(&mut io, 0x00, 0x0101), 0x33);
    assert_eq!(bus.read(&mut io, 0xF0, 0x0003), 0x44, "bank $F0 mirrors the LoROM SRAM bank");
}

#[test]
fn bus_plain_memory_reads_change_nothing() {
    let mut io = Chips::new();
    let mut bus = test_bus();
    bus.master_clock = 777;
    bus.nmi_flag = true;
    bus.wram_addr = 0x55;
    let _ = bus.read(&mut io, 0x7E, 0x1234);
    let _ = bus.read(&mut io, 0x00, 0x9000);
    let _ = bus.read(&mut io, 0x70, 0x0010);
    assert_eq!(bus.last_apu_sync, 0);
    assert!(bus.nmi_flag);
    assert_eq!(bus.wram_addr, 0x55);
    assert_eq!(io.apu_cycles, 0);
}

#[test]
fn bus_fastrom_only_in_rom_half() {
    let mut io = Chips::new();
    let mut bus = test_bus();
    bus.write(&mut io, 0x00, 0x420D, 0x01);
    assert_eq!(bus.cpu_cycle_speed(0x80, 0x1000), 8, "WRAM in a high bank stays slow");
    assert_eq!(bus.cpu_cycle_speed(0xC0, 0x7FFF), 8);
    assert_eq!(bus.cpu_cycle_speed(0xFF, 0xFFFF), 6);
}

#[test]
fn bus_with_no_chips_attached() {
    let mut io = NoChips::new();
    let mut bus = test_bus();
    bus.master_clock = 40;
    assert_eq!(bus.read(&mut io, 0x00, 0x2140), 0);
    assert_eq!(bus.last_apu_sync, 40);
    assert_eq!(bus.read(&mut io, 0x00, 0x2134), 0);
    bus.write(&mut io, 0x00, 0x0000, 0x5A);
    assert_eq!(bus.read(&mut io, 0x80, 0x0000), 0x5A);
}
