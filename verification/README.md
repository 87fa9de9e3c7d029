# dumbleodor

A loader for 64-bit ELF executables on x86-64 Linux: it maps the loadable
segments of a program (and of the interpreter the program names), builds the
program's initial stack and jumps to its entry point.

- `src/` is the verified library: page arithmetic (`page`), what the loader
  reads of an ELF file (`elf`, decoded by `xmas_elf`), the loader's decisions
  (`loader64`: base address, segment mappings, interpreter path, entry point,
  initial stack), the auxiliary-vector values (`x64::auxvt`), the loaded
  program (`x64`) and the errors (`error`).
- `app/` performs what the library plans: file copies and reads, `mmap` and
  `memset` through `libc`, the raw argument vector, and the final jump.
- `tests/` runs the library on concrete values and on small ELF images built
  byte by byte.
