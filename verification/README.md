# nupu8

An 8-bit virtual CPU with its own instruction set, a two-pass assembler for
it, and a 128 x 64 pixel display driven through output ports, written in Verus
with the behaviour of each part stated as a contract and proved.

Layout:

- `src/isa.rs` — opcodes, the structured instruction, and its 16-bit encoding
  (`[4 bits opcode][1 bit mode][3 bits register][8 bits operand]`); decoding
  is proved to undo encoding.
- `src/cpu.rs` — registers, flags, 256 bytes of memory, 256 output ports, and
  the three-step fetch / fetch / execute cycle, specified over `Machine`.
- `src/text.rs` — reading source text: lines, trimming, tokens, numbers.
- `src/assembler.rs` — the assembler, specified line by line; an assembled
  program is proved to decode word by word to the instructions of its lines.
- `src/display.rs` — the display and its three ports.
- `src/runner.rs` — the decisions of the interactive run loop.
- `app/` — the command line program: argument parsing, files, the terminal
  user interface and its timing.

Usage:

```bash
nupu-8 run path/to/program.asm --hz 1000   # assemble and run
nupu-8 exec path/to/program.bin --hz 1000  # run an assembled binary
nupu-8 asm path/to/program.asm -o out.bin  # assemble only
```
