//! Laws of the pure transformations: the status-register packing, save
//! state round trips, VRAM address remapping and cycle accumulation.

use std::collections::HashSet;
use zelda_a_link_to_the_past::bus::Bus;
use zelda_a_link_to_the_past::cpu::{Cpu, StatusRegister};
use zelda_a_link_to_the_past::rom::{Cartridge, MapMode};
use zelda_a_link_to_the_past::snapshot::{restore_state, snapshot_state, DeviceStates};

fn flags_of(bits: u8) -> StatusRegister {
    StatusRegister {
        n: bits & 0x80 != 0,
        v: bits & 0x40 != 0,
        m: bits & 0x20 != 0,
        x: bits & 0x10 != 0,
        d: bits & 0x08 != 0,
        i: bits & 0x04 != 0,
        z: bits & 0x02 != 0,
        c: bits & 0x01 != 0,
    }
}

fn cleared() -> StatusRegister {
    StatusRegister { n: false, v: false, m: false, x: false, d: false, i: false, z: false, c: false }
}

#[test]
fn section_retraction_native_mode_exhaustive() {
    for bits in 0..=255u8 {
        let original = flags_of(bits);
        let byte = original.to_byte(false);
        let mut restored = cleared();
        restored.from_byte(byte, false);

        assert_eq!(restored.n, original.n, "N flag roundtrip failed for bits 0x{:02X}", bits);
        assert_eq!(restored.v, original.v, "V flag roundtrip failed for bits 0x{:02X}", bits);
        assert_eq!(restored.m, original.m, "M flag roundtrip failed for bits 0x{:02X}", bits);
        assert_eq!(restored.x, original.x, "X flag roundtrip failed for bits 0x{:02X}", bits);
        assert_eq!(restored.d, original.d, "D flag roundtrip failed for bits 0x{:02X}", bits);
        assert_eq!(restored.i, original.i, "I flag roundtrip failed for bits 0x{:02X}", bits);
        assert_eq!(restored.z, original.z, "Z flag roundtrip failed for bits 0x{:02X}", bits);
        assert_eq!(restored.c, original.c, "C flag roundtrip failed for bits 0x{:02X}", bits);
    }
}

#[test]
fn section_retraction_emulation_mode_forces_mx() {
    for bits in 0..=255u8 {
        let original = flags_of(bits);
        let byte = original.to_byte(true);
        let mut restored = cleared();
        restored.from_byte(byte, true);

        assert!(restored.m, "M must be forced true in emulation mode");
        assert!(restored.x, "X must be forced true in emulation mode");

        assert_eq!(restored.n, original.n, "N flag roundtrip failed (emulation) for bits 0x{:02X}", bits);
        assert_eq!(restored.v, original.v, "V flag roundtrip failed (emulation) for bits 0x{:02X}", bits);
        assert_eq!(restored.d, original.d, "D flag roundtrip failed (emulation) for bits 0x{:02X}", bits);
        assert_eq!(restored.i, original.i, "I flag roundtrip failed (emulation) for bits 0x{:02X}", bits);
        assert_eq!(restored.z, original.z, "Z flag roundtrip failed (emulation) for bits 0x{:02X}", bits);
        assert_eq!(restored.c, original.c, "C flag roundtrip failed (emulation) for bits 0x{:02X}", bits);
    }
}

#[test]
fn section_retraction_to_byte_is_injective_native() {
    let mut seen = HashSet::new();
    for bits in 0..=255u8 {
        let p = flags_of(bits);
        let byte = p.to_byte(false);
        assert!(seen.insert(byte), "to_byte must be injective: bits 0x{:02X} collided", bits);
    }
    assert_eq!(seen.len(), 256, "All 256 flag combinations must produce distinct bytes");
}

#[test]
fn section_retraction_every_byte_is_reached() {
    for b in 0..=255u8 {
        let mut p = cleared();
        p.from_byte(b, false);
        assert_eq!(p.to_byte(false), b);
    }
}

// ─── Save states ────────────────────────────────────────────────────────

fn test_bus() -> Bus {
    let mut rom = vec![0u8; 0x8000];
    rom[0x7FFC] = 0x00;
    rom[0x7FFD] = 0x80;
    let cart = Cartridge {
        rom,
        sram: vec![0u8; 0x2000],
        title: "SNAP-TEST".to_string(),
        map_mode: MapMode::LoROM,
        rom_size: 0x8000,
        ram_size: 0x2000,
        country: 0,
        version: 0,
        checksum: 0,
        checksum_complement: 0,
    };
    Bus::new(cart)
}

fn no_devices() -> DeviceStates {
    DeviceStates { ppu: Vec::new(), joypad: Vec::new(), apu: Vec::new() }
}

#[test]
fn snapshot_roundtrip_cpu_registers() {
    let mut cpu = Cpu::new();
    let bus = test_bus();

    cpu.a = 0xBEEF;
    cpu.x = 0x1234;
    cpu.y = 0x5678;
    cpu.sp = 0x01FF;
    cpu.dp = 0x0100;
    cpu.pc = 0xABCD;
    cpu.pbr = 0x12;
    cpu.dbr = 0x34;
    cpu.emulation = false;
    cpu.cycles = 999999;
    cpu.p = StatusRegister { n: true, v: false, m: true, x: false, d: true, i: false, z: true, c: false };

    let frame_count = 42u64;
    let blob = snapshot_state(&cpu, &bus, frame_count, &no_devices());

    let mut cpu2 = Cpu::new();
    let mut bus2 = test_bus();
    let mut fc2 = 0u64;
    restore_state(&mut cpu2, &mut bus2, &mut fc2, &blob).unwrap();

    assert_eq!(cpu2.a, 0xBEEF, "A register roundtrip");
    assert_eq!(cpu2.x, 0x1234, "X register roundtrip");
    assert_eq!(cpu2.y, 0x5678, "Y register roundtrip");
    assert_eq!(cpu2.sp, 0x01FF, "SP roundtrip");
    assert_eq!(cpu2.dp, 0x0100, "DP roundtrip");
    assert_eq!(cpu2.pc, 0xABCD, "PC roundtrip");
    assert_eq!(cpu2.pbr, 0x12, "PBR roundtrip");
    assert_eq!(cpu2.dbr, 0x34, "DBR roundtrip");
    assert_eq!(cpu2.emulation, false, "Emulation mode roundtrip");
    assert_eq!(cpu2.cycles, 999999, "Cycles roundtrip");
    assert_eq!(fc2, 42, "Frame count roundtrip");

    assert_eq!(cpu2.p.n, true, "P.N roundtrip");
    assert_eq!(cpu2.p.v, false, "P.V roundtrip");
    assert_eq!(cpu2.p.m, true, "P.M roundtrip");
    assert_eq!(cpu2.p.x, false, "P.X roundtrip");
    assert_eq!(cpu2.p.d, true, "P.D roundtrip");
    assert_eq!(cpu2.p.i, false, "P.I roundtrip");
    assert_eq!(cpu2.p.z, true, "P.Z roundtrip");
    assert_eq!(cpu2.p.c, false, "P.C roundtrip");
}

#[test]
fn snapshot_roundtrip_wram() {
    let cpu = Cpu::new();
    let mut bus = test_bus();

    bus.wram[0] = 0xDE;
    bus.wram[0x1FFF] = 0xAD;
    bus.wram[0x10000] = 0xBE;
    bus.wram[0x1FFFF] = 0xEF;

    let blob = snapshot_state(&cpu, &bus, 0, &no_devices());

    let mut cpu2 = Cpu::new();
    let mut bus2 = test_bus();
    let mut fc2 = 0u64;
    restore_state(&mut cpu2, &mut bus2, &mut fc2, &blob).unwrap();

    assert_eq!(bus2.wram[0], 0xDE, "WRAM[0] roundtrip");
    assert_eq!(bus2.wram[0x1FFF], 0xAD, "WRAM[0x1FFF] roundtrip");
    assert_eq!(bus2.wram[0x10000], 0xBE, "WRAM[0x10000] roundtrip");
    assert_eq!(bus2.wram[0x1FFFF], 0xEF, "WRAM[0x1FFFF] roundtrip");
}

#[test]
fn snapshot_roundtrip_sram() {
    let cpu = Cpu::new();
    let mut bus = test_bus();

    bus.cart.sram[0] = 0x42;
    bus.cart.sram[0x1FFF] = 0x99;

    let blob = snapshot_state(&cpu, &bus, 0, &no_devices());

    let mut cpu2 = Cpu::new();
    let mut bus2 = test_bus();
    let mut fc2 = 0u64;
    restore_state(&mut cpu2, &mut bus2, &mut fc2, &blob).unwrap();

    assert_eq!(bus2.cart.sram[0], 0x42, "SRAM[0] roundtrip");
    assert_eq!(bus2.cart.sram[0x1FFF], 0x99, "SRAM[0x1FFF] roundtrip");
}

#[test]
fn snapshot_roundtrip_is_idempotent() {
    let mut cpu = Cpu::new();
    let mut bus = test_bus();
    cpu.a = 0x1234;
    bus.wram[42] = 0xFF;

    let blob1 = snapshot_state(&cpu, &bus, 7, &no_devices());

    let mut cpu2 = Cpu::new();
    let mut bus2 = test_bus();
    let mut fc2 = 0u64;
    let devices2 = restore_state(&mut cpu2, &mut bus2, &mut fc2, &blob1).unwrap();

    let blob2 = snapshot_state(&cpu2, &bus2, fc2, &devices2);

    let mut cpu3 = Cpu::new();
    let mut bus3 = test_bus();
    let mut fc3 = 0u64;
    restore_state(&mut cpu3, &mut bus3, &mut fc3, &blob2).unwrap();

    assert_eq!(cpu2.a, cpu3.a, "Idempotent: A register");
    assert_eq!(bus2.wram[42], bus3.wram[42], "Idempotent: WRAM");
    assert_eq!(fc2, fc3, "Idempotent: frame count");

    assert_eq!(blob1, blob2, "Adjunction unit idempotency: snapshot(restore(snapshot(s))) = snapshot(s)");
}

// ─── VRAM address remapping (replicated PPU logic) ──────────────────────

fn vram_remap(mode: u8, addr: u16) -> u16 {
    match mode {
        0 => addr,
        1 => (addr & 0xFF00) | ((addr & 0x001F) << 3) | ((addr >> 5) & 7),
        2 => (addr & 0xFE00) | ((addr & 0x003F) << 3) | ((addr >> 6) & 7),
        3 => (addr & 0xFC00) | ((addr & 0x007F) << 3) | ((addr >> 7) & 7),
        _ => addr,
    }
}

#[test]
fn vram_remap_mode0_is_identity() {
    for addr in (0..=0xFFFFu32).step_by(257) {
        let a = addr as u16;
        assert_eq!(vram_remap(0, a), a, "Remap mode 0 must be identity: addr=0x{:04X}", a);
    }
}

#[test]
fn vram_remap_mode1_is_bijective() {
    let mut outputs = HashSet::new();
    for low in 0..=255u16 {
        let remapped = vram_remap(1, low);
        assert!(remapped <= 0xFF, "Mode 1 must preserve high byte: input 0x{:04X} gave 0x{:04X}", low, remapped);
        assert!(outputs.insert(remapped), "Mode 1 must be injective in low block: collision at output 0x{:04X}", remapped);
    }
    assert_eq!(outputs.len(), 256, "Mode 1 must be surjective in low block");
}

#[test]
fn vram_remap_mode2_is_bijective() {
    let mut outputs = HashSet::new();
    for low in 0..512u16 {
        let remapped = vram_remap(2, low);
        assert!(remapped < 512, "Mode 2 must preserve high bits: input 0x{:04X} gave 0x{:04X}", low, remapped);
        assert!(outputs.insert(remapped), "Mode 2 must be injective: collision at 0x{:04X}", remapped);
    }
    assert_eq!(outputs.len(), 512, "Mode 2 must be surjective");
}

#[test]
fn vram_remap_mode3_is_bijective() {
    let mut outputs = HashSet::new();
    for low in 0..1024u16 {
        let remapped = vram_remap(3, low);
        assert!(remapped < 1024, "Mode 3 must preserve high bits: input 0x{:04X} gave 0x{:04X}", low, remapped);
        assert!(outputs.insert(remapped), "Mode 3 must be injective: collision at 0x{:04X}", remapped);
    }
    assert_eq!(outputs.len(), 1024, "Mode 3 must be surjective");
}

#[test]
fn vram_remap_preserves_high_bits() {
    let masks: [(u8, u16); 3] = [(1, 0xFF00), (2, 0xFE00), (3, 0xFC00)];
    for &(mode, mask) in &masks {
        for addr in (0..=0xFFFFu32).step_by(511) {
            let a = addr as u16;
            let remapped = vram_remap(mode, a);
            assert_eq!(
                remapped & mask,
                a & mask,
                "Mode {} must preserve high bits: addr=0x{:04X}, remapped=0x{:04X}",
                mode,
                a,
                remapped
            );
        }
    }
}

// ─── Cycle accumulation ─────────────────────────────────────────────────

#[test]
fn writer_monad_unit() {
    let cycles: u64 = 12345678;
    assert_eq!(cycles + 0, cycles, "Writer monad unit: 0 is identity for cycle addition");
    assert_eq!(0 + cycles, cycles, "Writer monad unit: left identity");
}

#[test]
fn writer_monad_associativity() {
    let a: u64 = 6;
    let b: u64 = 12;
    let c: u64 = 8;
    assert_eq!((a + b) + c, a + (b + c), "Writer monad associativity: cycle accumulation must be associative");
}

#[test]
fn writer_monad_no_overflow_at_realistic_scale() {
    let cycles_per_frame: u64 = 1364 * 262;
    let frames_per_year: u64 = 60 * 60 * 60 * 24 * 365;
    let total = cycles_per_frame.checked_mul(frames_per_year);
    assert!(total.is_some(), "Writer monad: u64 must not overflow at realistic scale");
    assert!(total.unwrap() < u64::MAX / 1000, "Writer monad: realistic cycle count must have huge headroom in u64");
}
