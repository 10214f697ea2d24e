//! SNES cartridge images: header detection, header decoding and the
//! LoROM / HiROM address formulas.
//!
//! A `.smc` image may start with a 512-byte copier header. The internal
//! header sits at `$7FC0` (LoROM) or `$FFC0` (HiROM); which one is real is
//! decided by scoring both candidates.
use vstd::prelude::*;
use vstd::slice::slice_to_vec;
use crate::text::{decimal, hex4};

verus! {

pub const COPIER_HEADER_SIZE: usize = 512;
pub const LOROM_HEADER_OFFSET: usize = 0x7FC0;
pub const HIROM_HEADER_OFFSET: usize = 0xFFC0;

#[derive(Debug, Clone, Copy, PartialEq, Eq, Structural)]
pub enum MapMode {
    LoROM,
    HiROM,
}

pub struct Cartridge {
    /// Raw ROM data with the copier header stripped.
    pub rom: Vec<u8>,
    /// Battery-backed SRAM.
    pub sram: Vec<u8>,
    pub title: String,
    pub map_mode: MapMode,
    pub rom_size: usize,
    pub ram_size: usize,
    pub country: u8,
    pub version: u8,
    pub checksum: u16,
    pub checksum_complement: u16,
}

/// What decoding an image found besides the cartridge itself: the
/// facts a loader reports to the user.
pub struct ImageNotes {
    /// The image carried a 512-byte copier header, which was removed.
    pub copier_header_stripped: bool,
    /// Coprocessor named by the header, if any (see `special_chip_name`).
    pub special_chip: Option<&'static str>,
    /// Whether checksum + complement wraps to `$FFFF`.
    pub checksum_matches: bool,
}

// ─── Specification ──────────────────────────────────────────────────────

/// Little-endian 16-bit value of two bytes.
pub open spec fn le16(lo: u8, hi: u8) -> u16 {
    (hi as int * 256 + lo as int) as u16
}

pub open spec fn printable(b: u8) -> bool {
    0x20 <= b <= 0x7E
}

/// Number of printable ASCII bytes in `s`.
pub open spec fn printable_count(s: Seq<u8>) -> nat
    decreases s.len(),
{
    if s.len() == 0 {
        0
    } else {
        printable_count(s.drop_last()) + if printable(s.last()) { 1nat } else { 0nat }
    }
}

/// Checksum and complement of a header add up to `$FFFF` (mod 2^16).
pub open spec fn checksum_pair_ok(checksum: u16, complement: u16) -> bool {
    (checksum as int + complement as int) % 0x10000 == 0xFFFF
}

/// Score of the 64 header bytes `h` (see `score_header`).
pub open spec fn header_score(h: Seq<u8>, expect_hirom: bool) -> nat {
    let complement = le16(h[0x1C], h[0x1D]);
    let checksum = le16(h[0x1E], h[0x1F]);
    let is_hirom = h[0x15] & 0x0F == 0x01;
    (if checksum_pair_ok(checksum, complement) { 4nat } else { 0nat })
        + (if is_hirom == expect_hirom { 2nat } else { 0nat })
        + printable_count(h.subrange(0, 21))
}

pub open spec fn score_at(rom: Seq<u8>, offset: int, expect_hirom: bool) -> nat {
    if offset + 64 > rom.len() {
        0
    } else {
        header_score(rom.subrange(offset, offset + 64), expect_hirom)
    }
}

pub open spec fn map_mode_of(rom: Seq<u8>) -> MapMode {
    if score_at(rom, HIROM_HEADER_OFFSET as int, true) > score_at(rom, LOROM_HEADER_OFFSET as int, false) {
        MapMode::HiROM
    } else {
        MapMode::LoROM
    }
}

pub open spec fn header_offset_of(mode: MapMode) -> usize {
    match mode {
        MapMode::LoROM => LOROM_HEADER_OFFSET,
        MapMode::HiROM => HIROM_HEADER_OFFSET,
    }
}

/// The coprocessor named by a header's map byte and ROM-type byte.
pub open spec fn chip_name(map_byte: u8, rom_type: u8) -> Option<Seq<char>> {
    if map_byte & 0x0F == 0x03 && rom_type >= 0x03 {
        Some("SA-1"@)
    } else {
        let family = rom_type >> 4;
        if family == 0 {
            if rom_type <= 0x02 {
                None
            } else if map_byte & 0xF0 == 0x00 || map_byte & 0xF0 == 0x30 {
                Some("DSP-1"@)
            } else if map_byte & 0xF0 == 0x20 {
                Some("OBC-1"@)
            } else {
                Some("unknown coprocessor"@)
            }
        } else if family == 1 {
            Some("SuperFX"@)
        } else if family == 2 || family == 5 {
            Some("S-RTC"@)
        } else if family == 3 {
            Some("SA-1"@)
        } else if family == 4 {
            Some("S-DD1"@)
        } else if family == 0xE {
            Some("other (Game Boy, etc.)"@)
        } else if family == 0xF {
            Some("ST010/ST011"@)
        } else {
            Some("unknown coprocessor"@)
        }
    }
}

pub open spec fn str_option_matches(r: Option<&str>, s: Option<Seq<char>>) -> bool {
    match (r, s) {
        (Some(a), Some(b)) => a@ == b,
        (None, None) => true,
        _ => false,
    }
}

/// ROM byte offset addressed by `bank:addr`, before mirroring, as an
/// integer (the LoROM formula subtracts `$8000` with wrap-around in `usize`).
pub open spec fn rom_offset(mode: MapMode, bank: u8, addr: u16) -> int {
    match mode {
        MapMode::LoROM => (bank & 0x7F) as int * 0x8000 + if addr >= 0x8000 {
            addr as int - 0x8000
        } else {
            usize::MAX as int + 1 + addr as int - 0x8000
        },
        MapMode::HiROM => (bank & 0x3F) as int * 0x10000 + addr as int,
    }
}

/// The layout of the ROM in the address space. LoROM: 32 KiB banks at
/// `$8000-$FFFF`, `$00:8000` is the first byte, addresses within a bank
/// are consecutive bytes, the byte after `$bb:FFFF` is `$(bb+1):8000`, and
/// banks `$80-$FF` mirror `$00-$7F`. HiROM: 64 KiB banks, `$00:0000` is the
/// first byte, addresses are consecutive, the byte after `$bb:FFFF` is
/// `$(bb+1):0000` within `$00-$3F`, and banks repeat every `$40`.
pub proof fn lemma_rom_layout(b: u8, a: u16)
    ensures
        rom_offset(MapMode::LoROM, 0, 0x8000) == 0,
        0x8000 <= a < 0xFFFF ==> rom_offset(MapMode::LoROM, b, (a + 1) as u16) == rom_offset(MapMode::LoROM, b, a) + 1,
        b < 0x7F ==> rom_offset(MapMode::LoROM, (b + 1) as u8, 0x8000) == rom_offset(MapMode::LoROM, b, 0xFFFF) + 1,
        rom_offset(MapMode::LoROM, b | 0x80, a) == rom_offset(MapMode::LoROM, b, a),
        rom_offset(MapMode::HiROM, 0, 0) == 0,
        a < 0xFFFF ==> rom_offset(MapMode::HiROM, b, (a + 1) as u16) == rom_offset(MapMode::HiROM, b, a) + 1,
        b < 0x3F ==> rom_offset(MapMode::HiROM, (b + 1) as u8, 0) == rom_offset(MapMode::HiROM, b, 0xFFFF) + 1,
        rom_offset(MapMode::HiROM, (b + 0x40) as u8, a) == rom_offset(MapMode::HiROM, b, a),
{
    assert((b < 0x7F ==> ((b + 1) as u8) & 0x7F == b + 1 && b & 0x7F == b) && (b | 0x80) & 0x7F == b & 0x7F && (b
        < 0x3F ==> ((b + 1) as u8) & 0x3F == b + 1 && b & 0x3F == b) && ((b + 0x40) as u8) & 0x3F == b & 0x3F && 0u8
        & 0x7F == 0 && 0u8 & 0x3F == 0) by (bit_vector);
}

/// `Cartridge::read` computes its offset without `usize` overflow.
pub open spec fn rom_offset_fits(mode: MapMode, bank: u8, addr: u16) -> bool {
    rom_offset(mode, bank, addr) <= usize::MAX
}

impl Cartridge {
    /// Byte returned by `read(bank, addr)`.
    pub open spec fn read_value(&self, bank: u8, addr: u16) -> u8 {
        if self.rom@.len() == 0 {
            0
        } else {
            self.rom@[rom_offset(self.map_mode, bank, addr) % (self.rom@.len() as int)]
        }
    }
}

// ─── Header scoring ─────────────────────────────────────────────────────

/// Score a candidate header location. Higher score = more likely to be
/// the real header: 4 for a checksum/complement pair adding up to `$FFFF`,
/// 2 when the map byte's HiROM-ness matches `expect_hirom`, and 1 per
/// printable title byte.
pub fn score_header(rom: &[u8], offset: usize, expect_hirom: bool) -> (score: u32)
    requires
        offset <= usize::MAX - 64,
    ensures
        score == score_at(rom@, offset as int, expect_hirom),
{
    if offset + 64 > rom.len() {
        return 0;
    }
    let complement: u16 = (rom[offset + 0x1D] as u16) * 256 + rom[offset + 0x1C] as u16;
    let checksum: u16 = (rom[offset + 0x1F] as u16) * 256 + rom[offset + 0x1E] as u16;
    let ghost h = rom@.subrange(offset as int, offset + 64);
    let mut score: u32 = 0;
    if checksum.wrapping_add(complement) == 0xFFFF {
        score = score + 4;
    }
    let map_byte = rom[offset + 0x15];
    let base_map = map_byte & 0x0F;
    let is_hirom = base_map == 0x01;
    if is_hirom == expect_hirom {
        score = score + 2;
    }
    let ghost fixed = score;
    let mut i: usize = 0;
    while i < 21
        invariant
            offset <= usize::MAX - 64,
            offset + 64 <= rom@.len(),
            h == rom@.subrange(offset as int, offset + 64),
            i <= 21,
            fixed <= 6,
            score == fixed + printable_count(h.subrange(0, i as int)),
            printable_count(h.subrange(0, i as int)) <= i,
        decreases 21 - i,
    {
        let b = rom[offset + i];
        proof {
            assert(h.subrange(0, i + 1).drop_last() =~= h.subrange(0, i as int));
        }
        if 0x20 <= b && b <= 0x7E {
            score = score + 1;
        }
        i = i + 1;
    }
    score
}

/// Detect whether a ROM image is LoROM or HiROM by scoring headers at
/// both candidate offsets (`$7FC0` for LoROM, `$FFC0` for HiROM). Ties go
/// to LoROM.
pub fn detect_map_mode(rom: &[u8]) -> (mode: MapMode)
    ensures
        mode == map_mode_of(rom@),
{
    let lo_score = score_header(rom, LOROM_HEADER_OFFSET, false);
    let hi_score = score_header(rom, HIROM_HEADER_OFFSET, true);
    if hi_score > lo_score {
        MapMode::HiROM
    } else {
        MapMode::LoROM
    }
}

/// Byte offset of the internal header for the given map mode.
pub fn header_offset(mode: MapMode) -> (off: usize)
    ensures
        off == header_offset_of(mode),
{
    match mode {
        MapMode::LoROM => LOROM_HEADER_OFFSET,
        MapMode::HiROM => HIROM_HEADER_OFFSET,
    }
}

/// Decode the ROM type byte (`$xFD6`) into a human-readable chip name.
/// Returns `None` for plain ROM/RAM/battery configurations that don't
/// require a coprocessor. SA-1 is recognised by a map byte of `$x3`
/// together with a coprocessor ROM type; otherwise the high nibble of the
/// ROM type names the chip.
pub fn special_chip_name(map_byte: u8, rom_type: u8) -> (name: Option<&'static str>)
    ensures
        str_option_matches(name, chip_name(map_byte, rom_type)),
{
    if map_byte & 0x0F == 0x03 && rom_type >= 0x03 {
        return Some("SA-1");
    }
    let family = rom_type >> 4;
    if family == 0 {
        if rom_type <= 0x02 {
            None
        } else {
            let high = map_byte & 0xF0;
            if high == 0x00 || high == 0x30 {
                Some("DSP-1")
            } else if high == 0x20 {
                Some("OBC-1")
            } else {
                Some("unknown coprocessor")
            }
        }
    } else if family == 1 {
        Some("SuperFX")
    } else if family == 2 || family == 5 {
        Some("S-RTC")
    } else if family == 3 {
        Some("SA-1")
    } else if family == 4 {
        Some("S-DD1")
    } else if family == 0xE {
        Some("other (Game Boy, etc.)")
    } else if family == 0xF {
        Some("ST010/ST011")
    } else {
        Some("unknown coprocessor")
    }
}

impl Cartridge {
    /// Read a byte from ROM.
    ///
    /// * LoROM: `offset = (bank & $7F) × $8000 + (addr − $8000)` (the
    ///   subtraction wraps in `usize`);
    /// * HiROM: `offset = (bank & $3F) × $10000 + addr`.
    ///
    /// Offsets wrap around the ROM size (mirroring); an empty ROM reads 0.
    pub fn read(&self, bank: u8, addr: u16) -> (v: u8)
        requires
            rom_offset_fits(self.map_mode, bank, addr),
        ensures
            v == self.read_value(bank, addr),
    {
        let offset: usize = match self.map_mode {
            MapMode::LoROM => ((bank & 0x7F) as usize) * 0x8000 + (addr as usize).wrapping_sub(0x8000),
            MapMode::HiROM => ((bank & 0x3F) as usize) * 0x10000 + addr as usize,
        };
        if self.rom.len() == 0 {
            return 0;
        }
        self.rom[offset % self.rom.len()]
    }
}

/// Name of a mapping mode, as its variant is written.
pub open spec fn map_mode_name(mode: MapMode) -> Seq<char> {
    match mode {
        MapMode::LoROM => "LoROM"@,
        MapMode::HiROM => "HiROM"@,
    }
}

/// Text of the one-line cartridge description for the given fields.
pub open spec fn summary_text(
    title: Seq<char>,
    mode: Seq<char>,
    rom_kib: usize,
    ram_kib: usize,
    version: u8,
    checksum: u16,
) -> Seq<char> {
    "ROM: \""@ + title + "\" | "@ + mode + " | "@ + decimal(rom_kib as nat) + "KB ROM | "@ + decimal(ram_kib as nat)
        + "KB SRAM | v"@ + decimal(version as nat) + " | checksum: "@ + hex4(checksum)
}

/// Formats the one-line description with `format!`, whose `{}` prints
/// strings as they are and integers in decimal, and `{:#06X}` a `u16` as
/// `0x` and four upper-case hexadecimal digits.
#[verifier::external_body]
fn format_summary(title: &str, mode: &str, rom_kib: usize, ram_kib: usize, version: u8, checksum: u16) -> (s: String)
    ensures
        s@ == summary_text(title@, mode@, rom_kib, ram_kib, version, checksum),
{
    format!(
        "ROM: \"{}\" | {} | {}KB ROM | {}KB SRAM | v{} | checksum: {:#06X}",
        title,
        mode,
        rom_kib,
        ram_kib,
        version,
        checksum,
    )
}

impl Cartridge {
    /// One-line description: title, mapping mode, ROM and SRAM sizes in
    /// KiB (rounded down), version and checksum.
    pub fn summary(&self) -> (s: String)
        ensures
            s@ == summary_text(
                self.title@,
                map_mode_name(self.map_mode),
                self.rom_size / 1024,
                self.ram_size / 1024,
                self.version,
                self.checksum,
            ),
    {
        let mode: &str = match self.map_mode {
            MapMode::LoROM => "LoROM",
            MapMode::HiROM => "HiROM",
        };
        format_summary(self.title.as_str(), mode, self.rom_size / 1024, self.ram_size / 1024, self.version, self.checksum)
    }
}

// ─── Text helpers ───────────────────────────────────────────────────────

/// Unicode `White_Space` code points, which `str::trim` removes.
pub open spec fn is_white_space(c: char) -> bool {
    let u = c as u32;
    ||| 0x09 <= u <= 0x0D
    ||| u == 0x20
    ||| u == 0x85
    ||| u == 0xA0
    ||| u == 0x1680
    ||| 0x2000 <= u <= 0x200A
    ||| u == 0x2028
    ||| u == 0x2029
    ||| u == 0x202F
    ||| u == 0x205F
    ||| u == 0x3000
}

pub open spec fn trim_start_ws(s: Seq<char>) -> Seq<char>
    decreases s.len(),
{
    if s.len() > 0 && is_white_space(s[0]) {
        trim_start_ws(s.drop_first())
    } else {
        s
    }
}

pub open spec fn trim_end_ws(s: Seq<char>) -> Seq<char>
    decreases s.len(),
{
    if s.len() > 0 && is_white_space(s.last()) {
        trim_end_ws(s.drop_last())
    } else {
        s
    }
}

/// `s` without leading and trailing white space.
pub open spec fn trim_ws(s: Seq<char>) -> Seq<char> {
    trim_end_ws(trim_start_ws(s))
}

/// Characters of a byte string in which every byte is ASCII.
pub open spec fn ascii_chars(b: Seq<u8>) -> Seq<char> {
    b.map(|i: int, x: u8| x as char)
}

pub open spec fn all_ascii(b: Seq<u8>) -> bool {
    forall|i: int| 0 <= i < b.len() ==> b[i] < 0x80
}

/// Text that `String::from_utf8_lossy` makes of a byte string.
pub uninterp spec fn utf8_lossy(bytes: Seq<u8>) -> Seq<char>;

/// Calls `String::from_utf8_lossy`. Its result is named `utf8_lossy`; the
/// contract adds only what the documentation states plainly: an ASCII byte
/// string decodes to the same characters.
#[verifier::external_body]
fn lossy_text(bytes: &[u8]) -> (s: String)
    ensures
        s@ == utf8_lossy(bytes@),
        all_ascii(bytes@) ==> s@ == ascii_chars(bytes@),
{
    String::from_utf8_lossy(bytes).into_owned()
}

/// Calls `str::trim`, which removes leading and trailing Unicode white
/// space, and copies the result into a `String`.
#[verifier::external_body]
fn trimmed_text(s: &str) -> (t: String)
    ensures
        t@ == trim_ws(s@),
{
    s.trim().to_string()
}

// ─── Image decoding ─────────────────────────────────────────────────────

/// An image of `len` bytes carries a 512-byte copier header: its size
/// modulo 1024 is 512.
pub fn has_copier_header(len: usize) -> (r: bool)
    ensures
        r == (len % 1024 == COPIER_HEADER_SIZE),
{
    len % 1024 == COPIER_HEADER_SIZE
}

/// Text of the error for a ROM of `len` bytes, too small for a header.
pub open spec fn rom_too_small_text(len: usize) -> Seq<char> {
    "ROM too small ("@ + decimal(len as nat) + " bytes) to contain internal header"@
}

/// Formats the too-small error with `format!` (`{}` prints the length in
/// decimal).
#[verifier::external_body]
fn rom_too_small_error(len: usize) -> (s: String)
    ensures
        s@ == rom_too_small_text(len),
{
    format!("ROM too small ({} bytes) to contain internal header", len)
}

/// The ROM of an image: the image without a 512-byte copier header, which
/// is present when the size modulo 1024 is 512.
pub open spec fn image_rom(data: Seq<u8>) -> Seq<u8> {
    if data.len() % 1024 == COPIER_HEADER_SIZE as int {
        data.subrange(COPIER_HEADER_SIZE as int, data.len() as int)
    } else {
        data
    }
}

/// The image is large enough to hold a LoROM internal header.
pub open spec fn image_has_header(data: Seq<u8>) -> bool {
    image_rom(data).len() >= LOROM_HEADER_OFFSET + 64
}

/// The 64-byte internal header that decoding uses.
pub open spec fn image_header(data: Seq<u8>) -> Seq<u8> {
    let rom = image_rom(data);
    let off = header_offset_of(map_mode_of(rom)) as int;
    rom.subrange(off, off + 64)
}

/// Size in bytes named by a header size code: `1024 << code`.
pub open spec fn kib_size(code: u8) -> usize {
    1024usize << code
}

/// The ROM- and RAM-size codes of the header can be shifted without
/// overflowing the shift amount (decoding panics otherwise).
pub open spec fn image_size_codes_ok(data: Seq<u8>) -> bool {
    image_has_header(data) ==> {
        let h = image_header(data);
        &&& h[0x17] < usize::BITS
        &&& h[0x18] < usize::BITS
    }
}

/// `d` cut or zero-padded to exactly `n` bytes.
pub open spec fn fit_to(d: Seq<u8>, n: nat) -> Seq<u8> {
    if n <= d.len() {
        d.subrange(0, n as int)
    } else {
        d + Seq::new((n - d.len()) as nat, |i: int| 0u8)
    }
}

pub open spec fn ram_size_of(code: u8) -> usize {
    if code == 0 { 0 } else { kib_size(code) }
}

/// Header fields of a decoded cartridge match the image header.
pub open spec fn cart_matches_image(c: Cartridge, data: Seq<u8>, srm: Option<Vec<u8>>) -> bool {
    let h = image_header(data);
    let ram_size = ram_size_of(h[0x18]);
    &&& c.rom@ == image_rom(data)
    &&& c.map_mode == map_mode_of(image_rom(data))
    &&& c.title@ == trim_ws(utf8_lossy(h.subrange(0, 21)))
    &&& c.rom_size == kib_size(h[0x17])
    &&& c.ram_size == ram_size
    &&& c.country == h[0x19]
    &&& c.version == h[0x1B]
    &&& c.checksum_complement == le16(h[0x1C], h[0x1D])
    &&& c.checksum == le16(h[0x1E], h[0x1F])
    &&& c.sram@ == match srm {
        Some(d) => fit_to(d@, ram_size as nat),
        None => Seq::new(ram_size as nat, |i: int| 0u8),
    }
}

/// Resize a saved SRAM image to the cartridge's RAM size.
fn fit_sram(d: Vec<u8>, n: usize) -> (s: Vec<u8>)
    ensures
        s@ == fit_to(d@, n as nat),
{
    let mut s = d;
    if n <= s.len() {
        s.truncate(n);
    } else {
        let ghost orig = s@;
        while s.len() < n
            invariant
                orig.len() <= s.len() <= n,
                s@ == orig + Seq::new((s.len() - orig.len()) as nat, |i: int| 0u8),
            decreases n - s.len(),
        {
            s.push(0);
            proof {
                assert(s@ =~= orig + Seq::new((s.len() - orig.len()) as nat, |i: int| 0u8));
            }
        }
    }
    s
}

impl Cartridge {
    /// Decode a cartridge image (the bytes of a `.smc`/`.sfc` file) and the
    /// bytes of its saved SRAM, if any.
    ///
    /// A 512-byte copier header is stripped; the map mode is detected by
    /// scoring both header candidates; the header gives title, sizes,
    /// country, version and checksums. SRAM is the saved data cut or
    /// zero-padded to the RAM size, or zeros when nothing was saved.
    /// Fails when the ROM is too small to hold a LoROM header.
    pub fn from_image(data: Vec<u8>, srm: Option<Vec<u8>>) -> (res: Result<(Cartridge, ImageNotes), String>)
        requires
            image_size_codes_ok(data@),
        ensures
            res.is_ok() <==> image_has_header(data@),
            res matches Err(e) ==> e@ == rom_too_small_text(image_rom(data@).len() as usize),
            res matches Ok((c, notes)) ==> {
                let h = image_header(data@);
                &&& cart_matches_image(c, data@, srm)
                &&& notes.copier_header_stripped == (data@.len() % 1024 == COPIER_HEADER_SIZE as int)
                &&& str_option_matches(notes.special_chip, chip_name(h[0x15], h[0x16]))
                &&& notes.checksum_matches == checksum_pair_ok(c.checksum, c.checksum_complement)
            },
    {
        let ghost orig = data@;
        let stripped = has_copier_header(data.len());
        let rom: Vec<u8> = if stripped {
            slice_to_vec(&data.as_slice()[COPIER_HEADER_SIZE..data.len()])
        } else {
            data
        };
        assert(rom@ == image_rom(orig));
        if rom.len() < LOROM_HEADER_OFFSET + 64 {
            return Err(rom_too_small_error(rom.len()));
        }
        let map_mode = detect_map_mode(rom.as_slice());
        let h_off = header_offset(map_mode);
        proof {
            if map_mode == MapMode::HiROM {
                assert(score_at(rom@, HIROM_HEADER_OFFSET as int, true) > 0);
            }
        }
        let ghost h = image_header(orig);
        assert(h == rom@.subrange(h_off as int, h_off + 64));
        let title_raw = lossy_text(&rom.as_slice()[h_off..h_off + 21]);
        assert(rom@.subrange(h_off as int, h_off + 21) =~= h.subrange(0, 21));
        let title = trimmed_text(title_raw.as_str());

        let map_byte = rom[h_off + 0x15];
        let rom_type = rom[h_off + 0x16];
        let rom_size_code = rom[h_off + 0x17];
        let rom_size: usize = 1024usize << rom_size_code;
        let ram_size_code = rom[h_off + 0x18];
        let ram_size: usize = if ram_size_code == 0 { 0 } else { 1024usize << ram_size_code };
        let country = rom[h_off + 0x19];
        let version = rom[h_off + 0x1B];
        let checksum_complement: u16 = (rom[h_off + 0x1D] as u16) * 256 + rom[h_off + 0x1C] as u16;
        let checksum: u16 = (rom[h_off + 0x1F] as u16) * 256 + rom[h_off + 0x1E] as u16;
        let special_chip = special_chip_name(map_byte, rom_type);
        let sram = match srm {
            Some(d) => fit_sram(d, ram_size),
            None => vec![0u8; ram_size],
        };
        proof {
            if srm is None {
                assert(sram@ =~= Seq::new(ram_size as nat, |i: int| 0u8));
            }
        }
        let checksum_matches = checksum.wrapping_add(checksum_complement) == 0xFFFF;
        let cart = Cartridge {
            rom,
            sram,
            title,
            map_mode,
            rom_size,
            ram_size,
            country,
            version,
            checksum,
            checksum_complement,
        };
        let notes = ImageNotes { copier_header_stripped: stripped, special_chip, checksum_matches };
        Ok((cart, notes))
    }
}

} // verus!
