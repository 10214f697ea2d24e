# zelda_a_link_to_the_past — verified SNES core

The logic of a Super Nintendo emulator core, written in Verus and proved
against its contracts:

- `rom` — cartridge images: copier-header stripping, LoROM/HiROM detection
  by header scoring, header decoding, ROM address mapping.
- `bus` — the memory bus: 24-bit address decoding, WRAM/SRAM/ROM access,
  the CPU's own registers (math unit, NMI/IRQ flags, WRAM port), DMA
  register dispatch and just-in-time APU synchronisation. The PPU, the APU
  ports and the joypad are reached through the `Peripherals` trait, whose
  contract models each chip set by the calls it has received and the byte
  each read answers; `NoChips` is a verified set with nothing attached.
- `general_dma`, `hdma` — DMA and HDMA transfers, modelled byte by byte as
  reads and writes through the bus's own dispatch.
- `cpu` — the 65C816 register file, status-byte packing, stack, fetches,
  interrupt entry, the start of a step (STP/WAI/NMI/IRQ), reset and the
  idle-loop fast path.
- `dma` — the DMA channel registers.
- `snapshot` — save states (encoding, decoding and their round trip).
- `spc700` — SPC700 timers and the APU event log.

Instruction decoding and execution, and the PPU, APU (SPC700 core and DSP)
and joypad themselves, are not part of this library.

`tests/` exercises the library on concrete values; `app/` loads a
cartridge image and its battery save from disk.
