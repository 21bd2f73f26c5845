# k2_codegen

A native code generator, verified with Verus. It takes a monomorphized
mid-level program and gives a static ELF executable for x86-64 or AArch64
Linux, or the parts of an x86-64 object file for a C linker.

- `encode`, `aarch64/encode`: instruction encoders, labels and fixups
- `holes`, `aarch64/patched`, `aarch64/stores`: what finished functions leave open, what
  filling an address in leaves, and that stores go where they say
- `peephole`, `behavior`: the optimizer, and the proof that it keeps what code does
- `types`, `layout`, `frame`: type layout and stack frames
- `mir`, `mir_ids`: the program that is compiled
- `lower/`, `aarch64/lower/`: from the program to instructions
- `machine`, `steps`, `aarch64/machine`, `aarch64/steps`, `aarch64/fields`: how
  instructions read back, and what they do on a processor
- `lower/*_effects`, `lower/loops`, `lower/simulation` and in `aarch64/lower/` `effects`,
  `flow`, `loops`, `simulation`, `blocks`, `print_effects` and `decimal`: what lowered code
  does on it
- `link`, `aarch64/link`, `linked`, `aarch64/linked`: placing code and resolving fixups
- `object`, `obj`: symbols and relocations of an object file
- `elf`, `dwarf`, `debug_info`: file formats
- `lines`: where the code of each statement begins that optimizing leaves
- `fmt_native`: format strings
- `compile`, `validate`: whole programs, and the test that a program is well formed
- `bytes`, `text`, `show`, `intern`: small parts shared by the others

Register allocation, the runtime's routines and its memory layout are inputs
(`compile::Support`).

`app/` wraps the library in functions that test the library's conditions and
return errors with `Display`. `tests/` holds byte-exact tests of the encoders
and file formats, and programs that are compiled and then run on small
interpreters of the two instruction sets.
