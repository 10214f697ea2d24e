//! Save-state encoding: the byte helpers, the record layout, error cases,
//! and the emulator-level entry points.

use zelda_a_link_to_the_past::bus::Bus;
use zelda_a_link_to_the_past::cpu::Cpu;
use zelda_a_link_to_the_past::dma::Dma;
use zelda_a_link_to_the_past::rom::{Cartridge, MapMode};
use zelda_a_link_to_the_past::snapshot::{
    r_bool, r_bytes_into, r_bytes_vec, r_i16, r_u16, r_u32, r_u64, r_u8, read_bus, read_cpu, read_dma, restore_state,
    snapshot_state, w_bool, w_bytes, w_i16, w_u16, w_u32, w_u64, w_u8, write_bus, write_cpu, write_dma, DeviceStates,
    Emulator, SNAPSHOT_VERSION,
};

fn test_bus(sram: usize) -> Bus {
    let cart = Cartridge {
        rom: vec![0u8; 0x8000],
        sram: vec![0u8; sram],
        title: "SNAP".to_string(),
        map_mode: MapMode::LoROM,
        rom_size: 0x8000,
        ram_size: sram,
        country: 0,
        version: 0,
        checksum: 0,
        checksum_complement: 0,
    };
    Bus::new(cart)
}

fn devices() -> DeviceStates {
    DeviceStates { ppu: vec![1, 2, 3], joypad: vec![9], apu: vec![7; 40] }
}

#[test]
fn writers_are_little_endian() {
    let mut out = Vec::new();
    w_u8(&mut out, 0xAB);
    w_u16(&mut out, 0x1234);
    w_u32(&mut out, 0xDEADBEEF);
    w_u64(&mut out, 0x0102030405060708);
    w_i16(&mut out, -2);
    w_bool(&mut out, true);
    w_bool(&mut out, false);
    w_bytes(&mut out, &[5, 6]);
    assert_eq!(
        out,
        vec![
            0xAB, 0x34, 0x12, 0xEF, 0xBE, 0xAD, 0xDE, 8, 7, 6, 5, 4, 3, 2, 1, 0xFE, 0xFF, 1, 0, 2, 0, 0, 0, 5, 6
        ]
    );
}

#[test]
fn readers_decode_what_writers_wrote() {
    let mut out = Vec::new();
    w_u8(&mut out, 0xAB);
    w_u16(&mut out, 0x1234);
    w_u32(&mut out, 0xDEADBEEF);
    w_u64(&mut out, u64::MAX - 5);
    w_i16(&mut out, -300);
    w_bool(&mut out, true);
    w_bytes(&mut out, &[5, 6, 7]);
    w_bytes(&mut out, &[8, 9]);
    let mut r: &[u8] = &out;
    assert_eq!(r_u8(&mut r), Ok(0xAB));
    assert_eq!(r_u16(&mut r), Ok(0x1234));
    assert_eq!(r_u32(&mut r), Ok(0xDEADBEEF));
    assert_eq!(r_u64(&mut r), Ok(u64::MAX - 5));
    assert_eq!(r_i16(&mut r), Ok(-300));
    assert_eq!(r_bool(&mut r), Ok(true));
    let mut dst = [0u8; 3];
    assert_eq!(r_bytes_into(&mut r, &mut dst), Ok(()));
    assert_eq!(dst, [5, 6, 7]);
    assert_eq!(r_bytes_vec(&mut r), Ok(vec![8, 9]));
    assert!(r.is_empty());
}

#[test]
fn readers_fail_at_end_of_input() {
    let data = [1u8, 2, 3];
    let mut r: &[u8] = &data;
    assert_eq!(r_u32(&mut r), Err("snapshot: unexpected EOF (u32)".to_string()));
    assert_eq!(r.len(), 3, "a failed read leaves the cursor");
    assert_eq!(r_u64(&mut r), Err("snapshot: unexpected EOF (u64)".to_string()));
    assert_eq!(r_u16(&mut r), Ok(0x0201));
    assert_eq!(r_u16(&mut r), Err("snapshot: unexpected EOF (u16)".to_string()));
    assert_eq!(r_bool(&mut r), Ok(true));
    assert_eq!(r_u8(&mut r), Err("snapshot: unexpected EOF (u8)".to_string()));
}

#[test]
fn bytes_into_checks_the_length() {
    let mut out = Vec::new();
    w_bytes(&mut out, &[1, 2, 3, 4]);
    let mut r: &[u8] = &out;
    let mut dst = [0u8; 3];
    assert_eq!(
        r_bytes_into(&mut r, &mut dst),
        Err("snapshot: byte length mismatch (expected 3, got 4)".to_string())
    );
    assert_eq!(dst, [0, 0, 0]);
    let short = [4u8, 0, 0, 0, 1];
    let mut r: &[u8] = &short;
    let mut dst4 = [0u8; 4];
    assert_eq!(r_bytes_into(&mut r, &mut dst4), Err("snapshot: unexpected EOF (bytes)".to_string()));
    let mut r: &[u8] = &short;
    assert_eq!(r_bytes_vec(&mut r), Err("snapshot: unexpected EOF (bytes_vec)".to_string()));
}

#[test]
fn cpu_record_is_28_bytes() {
    let mut cpu = Cpu::new();
    cpu.a = 0x1122;
    cpu.cycles = 77;
    cpu.waiting = true;
    let mut out = Vec::new();
    write_cpu(&mut out, &cpu);
    assert_eq!(out.len(), 28);
    assert_eq!(&out[0..2], &[0x22, 0x11]);
    assert_eq!(out[14], 0x34, "status byte packed as in native mode");
    assert_eq!(out[27], 1);
    let mut back = Cpu::new();
    back.trace = true;
    let mut r: &[u8] = &out;
    read_cpu(&mut r, &mut back).unwrap();
    assert_eq!(back.a, 0x1122);
    assert_eq!(back.cycles, 77);
    assert!(back.waiting);
    assert!(back.trace, "unrecorded fields stay");
    let mut r: &[u8] = &out[..27];
    assert!(read_cpu(&mut r, &mut back).is_err());
}

#[test]
fn dma_record_roundtrip() {
    let mut dma = Dma::new();
    dma.write(0x4312, 0x34);
    dma.write(0x4313, 0x12);
    dma.channels[7].hdma_terminated = true;
    let mut out = Vec::new();
    write_dma(&mut out, &dma);
    assert_eq!(out.len(), 112);
    let mut back = Dma::new();
    let mut r: &[u8] = &out;
    read_dma(&mut r, &mut back).unwrap();
    assert_eq!(back.read(0x4312), 0x34);
    assert_eq!(back.read(0x4313), 0x12);
    assert!(back.channels[7].hdma_terminated);
    assert!(r.is_empty());
}

#[test]
fn bus_record_roundtrip() {
    let mut bus = test_bus(16);
    bus.wram[5] = 0x55;
    bus.cart.sram[3] = 0x33;
    bus.nmitimen = 0x81;
    bus.htime = 0x123;
    bus.wram_addr = 0x1ABCD;
    bus.hblank = true;
    bus.auto_joypad_timer = 4000;
    bus.pending_dma_cycles = 1 << 40;
    bus.last_write_pc = 0xCAFE;
    bus.dma.channels[2].size = 0x4000;
    let mut out = Vec::new();
    write_bus(&mut out, &bus, &devices());
    assert_eq!(out.len(), 4 + 0x20000 + 4 + 16 + 43 + 4 + 3 + 112 + 4 + 1 + 4 + 40);

    let mut back = test_bus(16);
    let mut r: &[u8] = &out;
    let d = read_bus(&mut r, &mut back).unwrap();
    assert!(r.is_empty());
    assert_eq!(d.ppu, vec![1, 2, 3]);
    assert_eq!(d.joypad, vec![9]);
    assert_eq!(d.apu, vec![7; 40]);
    assert_eq!(back.wram[5], 0x55);
    assert_eq!(back.cart.sram[3], 0x33);
    assert_eq!(back.nmitimen, 0x81);
    assert_eq!(back.htime, 0x123);
    assert_eq!(back.wram_addr, 0x1ABCD);
    assert!(back.hblank);
    assert_eq!(back.auto_joypad_timer, 4000);
    assert_eq!(back.pending_dma_cycles, 1 << 40);
    assert_eq!(back.last_write_pc, 0xCAFE);
    assert_eq!(back.dma.channels[2].size, 0x4000);
}

#[test]
fn bus_record_rejects_other_sram_size() {
    let bus = test_bus(16);
    let mut out = Vec::new();
    write_bus(&mut out, &bus, &devices());
    let mut other = test_bus(8192);
    let mut r: &[u8] = &out;
    assert_eq!(
        read_bus(&mut r, &mut other).err(),
        Some("snapshot: SRAM size mismatch (expected 8192, got 16)".to_string())
    );
}

#[test]
fn snapshot_starts_with_magic_and_version() {
    let blob = snapshot_state(&Cpu::new(), &test_bus(0), 3, &devices());
    assert_eq!(&blob[0..8], b"SNES01\0\0");
    assert_eq!(blob[8], SNAPSHOT_VERSION);
    assert_eq!(blob[8], 4);
    assert_eq!(&blob[blob.len() - 8..], &3u64.to_le_bytes());
}

#[test]
fn restore_rejects_bad_headers() {
    let mut cpu = Cpu::new();
    let mut bus = test_bus(0);
    let mut fc = 5u64;
    assert_eq!(
        restore_state(&mut cpu, &mut bus, &mut fc, &[0u8; 8]).err(),
        Some("snapshot: too short".to_string())
    );
    let mut blob = snapshot_state(&Cpu::new(), &test_bus(0), 9, &devices());
    blob[0] = b'X';
    assert_eq!(
        restore_state(&mut cpu, &mut bus, &mut fc, &blob).err(),
        Some("snapshot: bad magic header".to_string())
    );
    blob[0] = b'S';
    blob[8] = 3;
    assert_eq!(
        restore_state(&mut cpu, &mut bus, &mut fc, &blob).err(),
        Some("snapshot: unsupported version 3".to_string())
    );
    assert_eq!(fc, 5, "a rejected header changes nothing");
}

#[test]
fn restore_rejects_truncated_state() {
    let blob = snapshot_state(&Cpu::new(), &test_bus(0), 9, &devices());
    let mut cpu = Cpu::new();
    let mut bus = test_bus(0);
    let mut fc = 0u64;
    assert!(restore_state(&mut cpu, &mut bus, &mut fc, &blob[..blob.len() - 1]).is_err());
    assert_eq!(fc, 0);
    assert!(restore_state(&mut cpu, &mut bus, &mut fc, &blob[..20]).is_err());
}

#[test]
fn restore_restarts_apu_clocks_at_cycle_count() {
    let mut cpu = Cpu::new();
    cpu.cycles = 123456;
    let blob = snapshot_state(&cpu, &test_bus(0), 0, &devices());
    let mut cpu2 = Cpu::new();
    let mut bus2 = test_bus(0);
    bus2.master_clock = 5;
    bus2.last_apu_sync = 1;
    let mut fc = 0u64;
    restore_state(&mut cpu2, &mut bus2, &mut fc, &blob).unwrap();
    assert_eq!(bus2.master_clock, 123456);
    assert_eq!(bus2.last_apu_sync, 123456);
}

#[test]
fn snapshot_roundtrip_device_blobs() {
    let blob = snapshot_state(&Cpu::new(), &test_bus(0x2000), 0, &devices());
    let mut cpu2 = Cpu::new();
    let mut bus2 = test_bus(0x2000);
    let mut fc = 0u64;
    let d = restore_state(&mut cpu2, &mut bus2, &mut fc, &blob).unwrap();
    assert_eq!(d.ppu, vec![1, 2, 3]);
    assert_eq!(d.joypad, vec![9]);
    assert_eq!(d.apu, vec![7; 40]);
}

#[test]
fn emulator_snapshot_and_restore() {
    let mut emu = Emulator { cpu: Cpu::new(), bus: test_bus(0x2000), frame_count: 77 };
    emu.cpu.x = 0x4444;
    emu.bus.wram[100] = 0x10;
    let blob = emu.snapshot(&devices());

    let mut other = Emulator { cpu: Cpu::new(), bus: test_bus(0x2000), frame_count: 1 };
    let d = other.restore_snapshot(&blob).unwrap();
    assert_eq!(other.frame_count, 77);
    assert_eq!(other.cpu.x, 0x4444);
    assert_eq!(other.bus.wram[100], 0x10);
    assert_eq!(d.joypad, vec![9]);

    let mut third = Emulator { cpu: Cpu::new(), bus: test_bus(0x2000), frame_count: 1 };
    assert!(third.restore_snapshot(&blob[..blob.len() - 2]).is_err());
    assert_eq!(third.frame_count, 1, "frame counter kept on failure");
}
