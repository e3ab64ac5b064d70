# heap_analyser

Analyse the glibc `malloc` heap of an ELF core dump: per-arena allocated and
free totals, size histograms, and the contents of the fastbin and tcache free
lists. The library is written and proved with [Verus]; the program around it
opens files and prints JSON.

```
heap-analyser report <coredump> [--libc PATH] [--libc-debug PATH] [--force-libc MAPPED_PATH]
heap-analyser check  --libc PATH [--libc-debug PATH]
```

`report` needs a reference libc with symbols, or a stripped one together with
its separate debug file. `check` tells whether a libc has what the analysis
needs.

## Layout

- `src/` - the verified library.
  - `elf` - files, notes, core dumps; all memory is read through `PT_LOAD`.
  - `arch` - register layouts of x86-64 and aarch64.
  - `glibc` - symbols, versions, built-in offsets, and offsets read from DWARF.
  - `heap` - arenas, heaps, chunks, free lists, statistics.
  - `locate` - which mapping of a core is the libc.
  - `analyze`, `commands`, `report` - from parsed files to the finished document.
- `tests/` - runs of the library on synthetic memory and on files built in place.
- `app/` - arguments, memory-mapped files, JSON.

What goes through other crates stands behind small wrappers with stated
contracts: `goblin` parses ELF tables, `gimli` reads DWARF entries, `flate2`
inflates compressed sections, `crc32fast` and `sha2` hash files.

Failures come in two tiers. `Error` means that there is no result at all.
A `Problem` is something that went wrong within a usable analysis; it is listed
in the report, and only a missing `main_arena` or `mp_` or an unknown
architecture makes a libc unusable.

[Verus]: https://github.com/verus-lang/verus
