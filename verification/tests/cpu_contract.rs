//! The 65C816 register file, stack, interrupts and the idle-loop fast path.

use zelda_a_link_to_the_past::bus::{Bus, IoRequest, Peripherals};
use zelda_a_link_to_the_past::cpu::{Cpu, StatusRegister, StepStart};
use zelda_a_link_to_the_past::rom::{Cartridge, MapMode};

/// Stand-in chips that answer every read with 0 and ignore writes.
struct Quiet;

impl Peripherals for Quiet {
    fn calls(&self) -> vstd::seq::Seq<IoRequest> {
        unreachable!()
    }
    fn ppu_answer(&self, _addr: u16) -> u8 {
        0
    }
    fn apu_answer(&self, _port: u8) -> u8 {
        0
    }
    fn joypad_answer(&self) -> u8 {
        0
    }
    fn after_catch_up(&self, _master_cycles: u32) -> Self {
        Quiet
    }
    fn ppu_read(&mut self, _addr: u16) -> u8 {
        0
    }
    fn ppu_write(&mut self, _addr: u16, _val: u8) {}
    fn apu_read(&mut self, _port: u8) -> u8 {
        0
    }
    fn apu_write(&mut self, _port: u8, _val: u8) {}
    fn apu_catch_up(&mut self, _master_cycles: u32) {}
    fn joypad_read_serial(&mut self) -> u8 {
        0
    }
    fn joypad_write_strobe(&mut self, _val: u8) {}
}

fn bus_with_rom(rom: Vec<u8>) -> Bus {
    let cart = Cartridge {
        rom,
        sram: vec![0u8; 0],
        title: "TEST".to_string(),
        map_mode: MapMode::LoROM,
        rom_size: 0x8000,
        ram_size: 0,
        country: 0,
        version: 0,
        checksum: 0,
        checksum_complement: 0,
    };
    Bus::new(cart)
}

fn test_bus() -> Bus {
    let mut rom = vec![0u8; 0x8000];
    rom[0x7FFC] = 0x00;
    rom[0x7FFD] = 0x80;
    bus_with_rom(rom)
}

#[test]
fn cpu_reset_loads_reset_vector() {
    let mut cpu = Cpu::new();
    let mut bus = test_bus();
    cpu.reset(&mut bus, &mut Quiet);
    assert_eq!(cpu.pc, 0x8000, "PC should be loaded from reset vector");
    assert_eq!(cpu.pbr, 0, "PBR should be 0 after reset");
}

#[test]
fn cpu_reset_enters_emulation_mode() {
    let mut cpu = Cpu::new();
    let mut bus = test_bus();
    cpu.emulation = false;
    cpu.reset(&mut bus, &mut Quiet);
    assert!(cpu.emulation, "CPU should be in emulation mode after reset");
}

#[test]
fn cpu_reset_initializes_stack() {
    let mut cpu = Cpu::new();
    let mut bus = test_bus();
    cpu.reset(&mut bus, &mut Quiet);
    assert_eq!(cpu.sp, 0x01FF, "SP should be $01FF after reset");
}

#[test]
fn cpu_emulation_mode_forces_8bit() {
    let mut cpu = Cpu::new();
    cpu.emulation = true;
    assert!(cpu.is_m8(), "Emulation mode must force M=8-bit");
    assert!(cpu.is_x8(), "Emulation mode must force X=8-bit");
}

#[test]
fn cpu_native_mode_respects_flags() {
    let mut cpu = Cpu::new();
    cpu.emulation = false;

    cpu.p.m = false;
    cpu.p.x = false;
    assert!(!cpu.is_m8(), "Native mode with M=0 should be 16-bit accumulator");
    assert!(!cpu.is_x8(), "Native mode with X=0 should be 16-bit index");

    cpu.p.m = true;
    cpu.p.x = true;
    assert!(cpu.is_m8(), "Native mode with M=1 should be 8-bit accumulator");
    assert!(cpu.is_x8(), "Native mode with X=1 should be 8-bit index");
}

#[test]
fn cpu_status_register_pack_unpack_roundtrip() {
    let p = StatusRegister { n: true, v: true, m: true, x: true, d: true, i: true, z: true, c: true };
    let byte = p.to_byte(false);
    assert_eq!(byte, 0xFF, "All flags on should pack to 0xFF in native mode");

    let mut p2 = StatusRegister { n: false, v: false, m: false, x: false, d: false, i: false, z: false, c: false };
    p2.from_byte(byte, false);
    assert_eq!(p2.n, true);
    assert_eq!(p2.v, true);
    assert_eq!(p2.m, true);
    assert_eq!(p2.x, true);
    assert_eq!(p2.d, true);
    assert_eq!(p2.i, true);
    assert_eq!(p2.z, true);
    assert_eq!(p2.c, true);

    let p3 = StatusRegister { n: false, v: false, m: false, x: false, d: false, i: false, z: false, c: false };
    let byte3 = p3.to_byte(false);
    assert_eq!(byte3, 0x00, "All flags off should pack to 0x00 in native mode");
}

#[test]
fn cpu_emulation_mode_status_sets_bit5() {
    let p = StatusRegister { n: false, v: false, m: false, x: false, d: false, i: false, z: false, c: false };
    let byte = p.to_byte(true);
    assert_ne!(byte & 0x20, 0, "Bit 5 must be set in emulation mode");
}

#[test]
fn cpu_stack_wraps_in_emulation_mode() {
    let mut cpu = Cpu::new();
    let mut bus = test_bus();
    cpu.emulation = true;
    cpu.sp = 0x0100;

    cpu.push_byte(&mut bus, &mut Quiet, 0x42);
    assert_eq!(cpu.sp & 0xFF00, 0x0100, "SP high byte must stay at $01xx in emulation mode");
    assert_eq!(cpu.sp, 0x01FF);
    assert_eq!(bus.wram[0x0100], 0x42);
}

#[test]
fn cpu_update_nz8_sets_correct_flags() {
    let mut cpu = Cpu::new();

    cpu.update_nz8(0);
    assert!(cpu.p.z, "Z flag should be set for 0");
    assert!(!cpu.p.n, "N flag should be clear for 0");

    cpu.update_nz8(0x80);
    assert!(!cpu.p.z, "Z flag should be clear for 0x80");
    assert!(cpu.p.n, "N flag should be set for 0x80");

    cpu.update_nz8(0x42);
    assert!(!cpu.p.z, "Z flag should be clear for 0x42");
    assert!(!cpu.p.n, "N flag should be clear for 0x42");
}

#[test]
fn cpu_update_nz16_sets_correct_flags() {
    let mut cpu = Cpu::new();

    cpu.update_nz16(0);
    assert!(cpu.p.z);
    assert!(!cpu.p.n);

    cpu.update_nz16(0x8000);
    assert!(!cpu.p.z);
    assert!(cpu.p.n);

    cpu.update_nz16(0x0001);
    assert!(!cpu.p.z);
    assert!(!cpu.p.n);
}

// ─── Further cases ──────────────────────────────────────────────────────

#[test]
fn cpu_status_emulation_from_byte_forces_mx() {
    let mut p = StatusRegister { n: false, v: false, m: false, x: false, d: false, i: false, z: false, c: false };
    p.from_byte(0x00, true);
    assert!(p.m && p.x, "emulation mode keeps M and X set");
    assert!(!p.n && !p.c);
    assert_eq!(StatusRegister::new().to_byte(false), 0x34);
}

#[test]
fn cpu_update_nz_follows_width() {
    let mut cpu = Cpu::new();
    cpu.emulation = false;
    cpu.p.m = true;
    cpu.update_nz_a(0x0100);
    assert!(cpu.p.z, "8-bit accumulator looks at the low byte only");
    cpu.p.m = false;
    cpu.update_nz_a(0x0100);
    assert!(!cpu.p.z);
    cpu.p.x = false;
    cpu.update_nz_x(0x8000);
    assert!(cpu.p.n);
    cpu.p.x = true;
    cpu.update_nz_x(0x8000);
    assert!(!cpu.p.n && cpu.p.z);
}

#[test]
fn cpu_push_pull_word_roundtrip() {
    let mut cpu = Cpu::new();
    let mut bus = test_bus();
    cpu.emulation = false;
    cpu.sp = 0x1FF0;
    cpu.push_word(&mut bus, &mut Quiet, 0xBEEF);
    assert_eq!(cpu.sp, 0x1FEE);
    assert_eq!(bus.wram[0x1FF0], 0xBE, "high byte pushed first");
    assert_eq!(bus.wram[0x1FEF], 0xEF);
    let v = cpu.pull_word(&mut bus, &mut Quiet);
    assert_eq!(v, 0xBEEF);
    assert_eq!(cpu.sp, 0x1FF0);
}

#[test]
fn cpu_pull_byte_wraps_in_emulation_mode() {
    let mut cpu = Cpu::new();
    let mut bus = test_bus();
    cpu.emulation = true;
    cpu.sp = 0x01FF;
    bus.wram[0x0100] = 0x77;
    let v = cpu.pull_byte(&mut bus, &mut Quiet);
    assert_eq!(v, 0x77);
    assert_eq!(cpu.sp, 0x0100);
}

#[test]
fn cpu_fetch_advances_pc() {
    let mut rom = vec![0u8; 0x8000];
    rom[0] = 0x12;
    rom[1] = 0x34;
    rom[2] = 0x56;
    rom[3] = 0x78;
    rom[4] = 0x9A;
    rom[5] = 0xBC;
    let mut bus = bus_with_rom(rom);
    let mut cpu = Cpu::new();
    cpu.pc = 0x8000;
    assert_eq!(cpu.fetch_byte(&mut bus, &mut Quiet), 0x12);
    assert_eq!(cpu.fetch_word(&mut bus, &mut Quiet), 0x5634);
    assert_eq!(cpu.fetch_long(&mut bus, &mut Quiet), (0xBC, 0x9A78));
    assert_eq!(cpu.pc, 0x8006);
}

#[test]
fn cpu_nmi_native_pushes_frame_and_jumps() {
    let mut rom = vec![0u8; 0x8000];
    rom[0x7FEA] = 0x34;
    rom[0x7FEB] = 0x92;
    let mut bus = bus_with_rom(rom);
    let mut cpu = Cpu::new();
    cpu.emulation = false;
    cpu.pbr = 0x05;
    cpu.pc = 0x1234;
    cpu.sp = 0x1FFF;
    cpu.p = StatusRegister { n: true, v: false, m: false, x: false, d: true, i: false, z: false, c: true };
    cpu.handle_nmi(&mut bus, &mut Quiet);
    assert_eq!(bus.wram[0x1FFF], 0x05, "PBR pushed first");
    assert_eq!(bus.wram[0x1FFE], 0x12);
    assert_eq!(bus.wram[0x1FFD], 0x34);
    assert_eq!(bus.wram[0x1FFC], 0x89, "status byte");
    assert_eq!(cpu.sp, 0x1FFB);
    assert_eq!(cpu.pbr, 0);
    assert_eq!(cpu.pc, 0x9234);
    assert!(cpu.p.i && !cpu.p.d);
}

#[test]
fn cpu_irq_emulation_clears_break_bit() {
    let mut rom = vec![0u8; 0x8000];
    rom[0x7FFE] = 0x00;
    rom[0x7FFF] = 0x90;
    let mut bus = bus_with_rom(rom);
    let mut cpu = Cpu::new();
    cpu.emulation = true;
    cpu.pc = 0x8123;
    cpu.sp = 0x01FF;
    cpu.p.i = false;
    cpu.handle_irq(&mut bus, &mut Quiet);
    assert_eq!(bus.wram[0x01FF], 0x81);
    assert_eq!(bus.wram[0x01FE], 0x23);
    assert_eq!(bus.wram[0x01FD] & 0x10, 0, "B flag clear on IRQ");
    assert_eq!(bus.wram[0x01FD] & 0x20, 0x20);
    assert_eq!(cpu.sp, 0x01FC);
    assert_eq!(cpu.pc, 0x9000);
    assert!(cpu.p.i);
}

#[test]
fn cpu_idle_skip_fast_forwards_polling_loop() {
    let mut rom = vec![0u8; 0x8000];
    rom[0] = 0xA5; // LDA $10
    rom[1] = 0x10;
    rom[2] = 0xF0; // BEQ -4
    rom[3] = 0xFC;
    let mut bus = bus_with_rom(rom);
    bus.current_scanline_target = 1000;
    bus.wram[0x10] = 0x00;
    let mut cpu = Cpu::new();
    cpu.pc = 0x8000;
    cpu.a = 0x1234;
    let res = cpu.try_idle_skip(&mut bus, &mut Quiet);
    // One iteration: LDA 8+8+8, BEQ 8+8+6 = 46 master cycles;
    // (1000 - 100) / 46 = 19 iterations.
    assert_eq!(res, Some(19 * 46), "the skipped cycles are returned to the caller");
    assert_eq!(cpu.cycles, 0, "the caller credits them");
    assert_eq!(cpu.idle_skip_hits, 1);
    assert_eq!(cpu.idle_skip_cycles, 874);
    assert_eq!(cpu.pc, 0x8000, "PC stays on the LDA");
    assert_eq!(cpu.a, 0x1200);
    assert!(cpu.p.z);
}

#[test]
fn cpu_idle_skip_declines_without_pattern_or_budget() {
    let mut rom = vec![0u8; 0x8000];
    rom[0] = 0xA5;
    rom[1] = 0x10;
    rom[2] = 0xF0;
    rom[3] = 0xFC;
    let mut bus = bus_with_rom(rom);
    let mut cpu = Cpu::new();
    cpu.pc = 0x8000;
    bus.current_scanline_target = 100;
    assert_eq!(cpu.try_idle_skip(&mut bus, &mut Quiet), None, "budget not above the margin");
    cpu.p.m = false;
    bus.current_scanline_target = 10000;
    assert_eq!(cpu.try_idle_skip(&mut bus, &mut Quiet), None, "16-bit accumulator");
    cpu.p.m = true;
    cpu.pc = 0x8001;
    assert_eq!(cpu.try_idle_skip(&mut bus, &mut Quiet), None, "no LDA at PC");
    assert_eq!(cpu.cycles, 0);
}

#[test]
fn cpu_idle_skip_shortens_joypad_window() {
    let mut rom = vec![0u8; 0x8000];
    rom[0] = 0xA5;
    rom[1] = 0x10;
    rom[2] = 0xF0;
    rom[3] = 0xFC;
    let mut bus = bus_with_rom(rom);
    bus.current_scanline_target = 1000;
    bus.auto_joypad_busy = true;
    bus.auto_joypad_timer = 1000;
    let mut cpu = Cpu::new();
    cpu.pc = 0x8000;
    assert_eq!(cpu.try_idle_skip(&mut bus, &mut Quiet), Some(874));
    assert!(bus.auto_joypad_busy);
    assert_eq!(bus.auto_joypad_timer, 1000 - 874);
}

#[test]
fn cpu_idle_skip_leaves_cpu_alone_when_no_iteration_fits() {
    let mut rom = vec![0u8; 0x8000];
    rom[0] = 0xA5;
    rom[1] = 0x10;
    rom[2] = 0xF0;
    rom[3] = 0xFC;
    let mut bus = bus_with_rom(rom);
    bus.wram[0x10] = 0x80;
    bus.current_scanline_target = 120;
    let mut cpu = Cpu::new();
    cpu.pc = 0x8000;
    assert_eq!(cpu.try_idle_skip(&mut bus, &mut Quiet), None);
    assert_eq!(cpu.a, 0);
    assert!(!cpu.p.n && !cpu.p.z);
    assert_eq!(cpu.cycles, 0);
    assert_eq!(cpu.pc, 0x8000);
}

#[test]
fn step_start_stopped_cpu_stays_halted() {
    let mut bus = test_bus();
    let mut cpu = Cpu::new();
    cpu.stopped = true;
    cpu.nmi_pending = true;
    assert_eq!(cpu.step_interrupts(&mut bus, &mut Quiet), StepStart::Halted(6));
    assert!(cpu.nmi_pending, "a stopped CPU takes no NMI");
}

#[test]
fn step_start_waiting_cpu_wakes_on_nmi() {
    let mut rom = vec![0u8; 0x8000];
    rom[0x7FFA] = 0x00;
    rom[0x7FFB] = 0x90;
    let mut bus = bus_with_rom(rom);
    let mut cpu = Cpu::new();
    cpu.waiting = true;
    assert_eq!(cpu.step_interrupts(&mut bus, &mut Quiet), StepStart::Halted(6));
    assert!(cpu.waiting);
    cpu.nmi_pending = true;
    cpu.pc = 0x8123;
    assert_eq!(cpu.step_interrupts(&mut bus, &mut Quiet), StepStart::Nmi);
    assert!(!cpu.waiting && !cpu.nmi_pending);
    assert_eq!(cpu.pc, 0x9000);
}

#[test]
fn step_start_masked_irq_is_not_taken() {
    let mut bus = test_bus();
    let mut cpu = Cpu::new();
    cpu.irq_pending = true;
    cpu.p.i = true;
    assert_eq!(cpu.step_interrupts(&mut bus, &mut Quiet), StepStart::Execute);
    assert!(cpu.irq_pending);
    cpu.p.i = false;
    assert_eq!(cpu.step_interrupts(&mut bus, &mut Quiet), StepStart::Irq);
    assert!(!cpu.irq_pending && cpu.p.i);
}

#[test]
fn cpu_nmi_clears_pending_flag() {
    let mut cpu = Cpu::new();
    let mut bus = test_bus();
    cpu.reset(&mut bus, &mut Quiet);
    cpu.nmi_pending = true;
    cpu.step_interrupts(&mut bus, &mut Quiet);
    assert!(!cpu.nmi_pending, "NMI pending should be cleared after handling");
}

#[test]
fn cpu_irq_clears_pending_when_enabled() {
    let mut cpu = Cpu::new();
    let mut bus = test_bus();
    cpu.reset(&mut bus, &mut Quiet);
    cpu.p.i = false;
    cpu.irq_pending = true;
    cpu.step_interrupts(&mut bus, &mut Quiet);
    assert!(!cpu.irq_pending, "IRQ pending should be cleared after handling");
}

#[test]
fn cpu_irq_not_handled_when_masked() {
    let mut cpu = Cpu::new();
    let mut bus = test_bus();
    cpu.reset(&mut bus, &mut Quiet);
    cpu.p.i = true;
    cpu.irq_pending = true;
    cpu.step_interrupts(&mut bus, &mut Quiet);
    assert!(cpu.irq_pending, "IRQ should remain pending when masked");
}

#[test]
fn cpu_stopped_burns_cycles() {
    let mut cpu = Cpu::new();
    let mut bus = test_bus();
    cpu.stopped = true;
    let elapsed = match cpu.step_interrupts(&mut bus, &mut Quiet) {
        StepStart::Halted(cycles) => cycles,
        _ => 0,
    };
    assert!(elapsed > 0, "Stopped CPU must still return cycles");
}

#[test]
fn cpu_waiting_burns_cycles_until_interrupt() {
    let mut cpu = Cpu::new();
    let mut bus = test_bus();
    cpu.waiting = true;
    cpu.nmi_pending = false;
    cpu.irq_pending = false;
    let elapsed = match cpu.step_interrupts(&mut bus, &mut Quiet) {
        StepStart::Halted(cycles) => cycles,
        _ => 0,
    };
    assert!(elapsed > 0, "Waiting CPU must still return cycles");
    assert!(cpu.waiting, "CPU should still be waiting without interrupt");
}

#[test]
fn cpu_nmi_with_stack_over_dma_trigger() {
    // Native mode with SP at $420C: the second push lands on $420B and
    // starts a general DMA whose enable mask is the pushed byte (0 here).
    let mut rom = vec![0u8; 0x8000];
    rom[0x7FEA] = 0x00;
    rom[0x7FEB] = 0x90;
    let mut bus = bus_with_rom(rom);
    let mut cpu = Cpu::new();
    cpu.emulation = false;
    cpu.pbr = 0x00;
    cpu.pc = 0x0034;
    cpu.sp = 0x420C;
    cpu.handle_nmi(&mut bus, &mut Quiet);
    assert_eq!(cpu.sp, 0x4208);
    assert_eq!(cpu.pc, 0x9000);
    assert_eq!(bus.pending_dma_cycles, 0, "an empty enable mask moves nothing");
    assert_eq!(bus.hdmaen, 0x00, "PBR pushed into $420C");
}
