//! Cartridge decoding and ROM address mapping.

use zelda_a_link_to_the_past::rom::{
    detect_map_mode, header_offset, score_header, special_chip_name, Cartridge, MapMode, HIROM_HEADER_OFFSET,
    LOROM_HEADER_OFFSET,
};

#[test]
fn rom_lorom_read_formula() {
    // LoROM: offset = (bank & 0x7F) * 0x8000 + (addr - 0x8000)
    let mut rom = vec![0u8; 0x10000]; // 64KB
    rom[0] = 0xAA;          // bank 0, addr $8000
    rom[0x7FFF] = 0xBB;     // bank 0, addr $FFFF
    rom[0x8000] = 0xCC;     // bank 1, addr $8000

    let cart = Cartridge {
        rom,
        sram: vec![],
        title: "TEST".to_string(),
        map_mode: MapMode::LoROM,
        rom_size: 0x10000,
        ram_size: 0,
        country: 0,
        version: 0,
        checksum: 0,
        checksum_complement: 0,
    };

    assert_eq!(cart.read(0x00, 0x8000), 0xAA, "Bank $00, addr $8000 → offset 0");
    assert_eq!(cart.read(0x00, 0xFFFF), 0xBB, "Bank $00, addr $FFFF → offset $7FFF");
    assert_eq!(cart.read(0x01, 0x8000), 0xCC, "Bank $01, addr $8000 → offset $8000");
}

#[test]
fn rom_lorom_bank_masking() {
    // Bank $80+ should be masked to $00+ via & 0x7F
    let mut rom = vec![0u8; 0x8000];
    rom[0] = 0x42;

    let cart = Cartridge {
        rom,
        sram: vec![],
        title: "TEST".to_string(),
        map_mode: MapMode::LoROM,
        rom_size: 0x8000,
        ram_size: 0,
        country: 0,
        version: 0,
        checksum: 0,
        checksum_complement: 0,
    };

    assert_eq!(
        cart.read(0x80, 0x8000),
        0x42,
        "Bank $80 should mirror bank $00"
    );
}

#[test]
fn rom_out_of_range_mirrors() {
    // Reading beyond ROM size should mirror (offset % rom.len()),
    // matching real SNES hardware with under-decoded address lines.
    let rom = vec![0xAAu8; 0x8000]; // 32KB ROM, all 0xAA

    let cart = Cartridge {
        rom,
        sram: vec![],
        title: "TEST".to_string(),
        map_mode: MapMode::LoROM,
        rom_size: 0x8000,
        ram_size: 0,
        country: 0,
        version: 0,
        checksum: 0,
        checksum_complement: 0,
    };

    // Bank 2 would need offset $10000 which exceeds 32KB ROM — mirrors back
    assert_eq!(
        cart.read(0x02, 0x8000),
        0xAA,
        "Out-of-range ROM read should mirror"
    );
}

#[test]
fn rom_map_mode_enum() {
    assert_ne!(MapMode::LoROM, MapMode::HiROM);
}

#[test]
fn rom_header_parsing_via_load() {
    // We can test the constructor directly (Cartridge struct fields)
    let cart = Cartridge {
        rom: vec![0u8; 0x8000],
        sram: vec![0u8; 8192],
        title: "ZELDA".to_string(),
        map_mode: MapMode::LoROM,
        rom_size: 0x8000,
        ram_size: 8192,
        country: 1,
        version: 0,
        checksum: 0xABCD,
        checksum_complement: 0x5432,
    };

    assert_eq!(cart.title, "ZELDA");
    assert_eq!(cart.map_mode, MapMode::LoROM);
    assert_eq!(cart.ram_size, 8192);
    assert_eq!(cart.checksum, 0xABCD);
}

// ─── Image decoding ─────────────────────────────────────────────────────

/// A ROM of `size` bytes with an internal header at `off`.
fn image_with_header(size: usize, off: usize, title: &[u8], map_byte: u8, rom_type: u8) -> Vec<u8> {
    let mut rom = vec![0u8; size];
    for i in 0..21 {
        rom[off + i] = if i < title.len() { title[i] } else { b' ' };
    }
    rom[off + 0x15] = map_byte;
    rom[off + 0x16] = rom_type;
    rom[off + 0x17] = 0x0A;
    rom[off + 0x18] = 0x03;
    rom[off + 0x19] = 0x01;
    rom[off + 0x1B] = 0x02;
    rom[off + 0x1C] = 0x32;
    rom[off + 0x1D] = 0x54;
    rom[off + 0x1E] = 0xCD;
    rom[off + 0x1F] = 0xAB;
    rom
}

#[test]
fn rom_header_scoring() {
    let rom = image_with_header(0x8000, LOROM_HEADER_OFFSET, b"ZELDA", 0x20, 0x02);
    // checksum pair (4) + LoROM map byte (2) + 21 printable title bytes
    assert_eq!(score_header(&rom, LOROM_HEADER_OFFSET, false), 27);
    assert_eq!(score_header(&rom, LOROM_HEADER_OFFSET, true), 25);
    assert_eq!(score_header(&rom, HIROM_HEADER_OFFSET, true), 0, "past the end scores 0");
}

#[test]
fn rom_detects_lorom_and_hirom() {
    let lo = image_with_header(0x10000, LOROM_HEADER_OFFSET, b"LOW", 0x20, 0x00);
    assert_eq!(detect_map_mode(&lo), MapMode::LoROM);
    let hi = image_with_header(0x10000, HIROM_HEADER_OFFSET, b"HIGH", 0x21, 0x00);
    assert_eq!(detect_map_mode(&hi), MapMode::HiROM);
    assert_eq!(detect_map_mode(&[]), MapMode::LoROM, "ties go to LoROM");
    assert_eq!(header_offset(MapMode::LoROM), 0x7FC0);
    assert_eq!(header_offset(MapMode::HiROM), 0xFFC0);
}

#[test]
fn rom_special_chips() {
    assert_eq!(special_chip_name(0x20, 0x02), None);
    assert_eq!(special_chip_name(0x23, 0x35), Some("SA-1"));
    assert_eq!(special_chip_name(0x20, 0x03), Some("OBC-1"));
    assert_eq!(special_chip_name(0x30, 0x05), Some("DSP-1"));
    assert_eq!(special_chip_name(0x40, 0x05), Some("unknown coprocessor"));
    assert_eq!(special_chip_name(0x20, 0x13), Some("SuperFX"));
    assert_eq!(special_chip_name(0x20, 0x55), Some("S-RTC"));
    assert_eq!(special_chip_name(0x20, 0x43), Some("S-DD1"));
    assert_eq!(special_chip_name(0x20, 0xE3), Some("other (Game Boy, etc.)"));
    assert_eq!(special_chip_name(0x20, 0xF6), Some("ST010/ST011"));
    assert_eq!(special_chip_name(0x20, 0x73), Some("unknown coprocessor"));
}

#[test]
fn rom_from_image_decodes_header() {
    let rom = image_with_header(0x8000, LOROM_HEADER_OFFSET, b"ZELDA", 0x20, 0x02);
    let (cart, notes) = Cartridge::from_image(rom.clone(), None).unwrap();
    assert_eq!(cart.title, "ZELDA", "title is trimmed");
    assert_eq!(cart.map_mode, MapMode::LoROM);
    assert_eq!(cart.rom_size, 1024 << 10);
    assert_eq!(cart.ram_size, 8192);
    assert_eq!(cart.sram, vec![0u8; 8192]);
    assert_eq!(cart.country, 1);
    assert_eq!(cart.version, 2);
    assert_eq!(cart.checksum, 0xABCD);
    assert_eq!(cart.checksum_complement, 0x5432);
    assert_eq!(cart.rom, rom);
    assert!(!notes.copier_header_stripped);
    assert!(notes.checksum_matches);
    assert_eq!(notes.special_chip, None);
}

#[test]
fn rom_from_image_strips_copier_header_and_fits_sram() {
    let rom = image_with_header(0x8000, LOROM_HEADER_OFFSET, b"COPY", 0x30, 0x05);
    let mut image = vec![0xEEu8; 512];
    image.extend_from_slice(&rom);
    let (cart, notes) = Cartridge::from_image(image, Some(vec![1, 2, 3])).unwrap();
    assert!(notes.copier_header_stripped);
    assert_eq!(cart.rom, rom);
    assert_eq!(cart.title, "COPY");
    assert_eq!(notes.special_chip, Some("DSP-1"));
    assert_eq!(cart.sram.len(), 8192);
    assert_eq!(&cart.sram[..4], &[1, 2, 3, 0], "short SRAM is zero-padded");
    let (cart2, _) = Cartridge::from_image(rom.clone(), Some(vec![9u8; 10000])).unwrap();
    assert_eq!(cart2.sram, vec![9u8; 8192], "long SRAM is cut");
}

#[test]
fn rom_from_image_keeps_non_ascii_title_bytes() {
    let rom = image_with_header(0x8000, LOROM_HEADER_OFFSET, b"  AB\xFF ", 0x20, 0x00);
    let (cart, _) = Cartridge::from_image(rom, None).unwrap();
    assert_eq!(cart.title, "AB\u{FFFD}", "invalid UTF-8 becomes the replacement character");
}

#[test]
fn rom_from_image_rejects_small_rom() {
    let res = Cartridge::from_image(vec![0u8; 0x1000], None);
    assert_eq!(res.err(), Some("ROM too small (4096 bytes) to contain internal header".to_string()));
    let res = Cartridge::from_image(vec![0u8; 0x1000 + 512], None);
    assert_eq!(res.err(), Some("ROM too small (4096 bytes) to contain internal header".to_string()));
}

#[test]
fn rom_checksum_mismatch_is_reported() {
    let mut rom = image_with_header(0x8000, LOROM_HEADER_OFFSET, b"BAD", 0x20, 0x00);
    rom[LOROM_HEADER_OFFSET + 0x1E] = 0x00;
    let (_, notes) = Cartridge::from_image(rom, None).unwrap();
    assert!(!notes.checksum_matches);
}

#[test]
fn rom_hirom_read_formula() {
    let mut rom = vec![0u8; 0x20000];
    rom[0x10005] = 0x77;
    let cart = Cartridge {
        rom,
        sram: vec![],
        title: "HI".to_string(),
        map_mode: MapMode::HiROM,
        rom_size: 0x20000,
        ram_size: 0,
        country: 0,
        version: 0,
        checksum: 0,
        checksum_complement: 0,
    };
    assert_eq!(cart.read(0xC1, 0x0005), 0x77, "bank & $3F selects the 64 KiB bank");
    assert_eq!(cart.read(0x41, 0x0005), 0x77);
    assert_eq!(cart.read(0x03, 0x0005), 0x77, "mirrors past the ROM size");
}

#[test]
fn rom_summary_line() {
    let cart = Cartridge {
        rom: vec![],
        sram: vec![],
        title: "ZELDA".to_string(),
        map_mode: MapMode::HiROM,
        rom_size: 1024 * 1024,
        ram_size: 8192,
        country: 1,
        version: 3,
        checksum: 0xABCD,
        checksum_complement: 0x5432,
    };
    assert_eq!(cart.summary(), "ROM: \"ZELDA\" | HiROM | 1024KB ROM | 8KB SRAM | v3 | checksum: 0xABCD");
}
