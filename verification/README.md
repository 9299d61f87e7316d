# hestia

A client for a JVM game that reads the game's state out of the memory of its
process. The library in `src/` is verified with Verus:

- `game`: the memory model (`Readable`, `Writable`, a `MemoryImage`), typed
  little-endian values (`JavaValue`) and `GameProcess`, a process handle with
  the base address and layout (`JvmOffsets`) of the JVM loaded in it.
- `jvm`: HotSpot lookups over that memory: the symbol table (Java string
  hash), the system dictionary, compressed pointers, field tables through
  interfaces and superclasses, object fields and arrays (`JVM_Control`).
- `layout`: the text form of a JVM layout (eighteen decimal or `0x`
  hexadecimal numbers) and its parser.
- `memory`: choosing the game's process and the JVM module by name.
- `utils`: reading entities (position, rotation, visibility, held item) and
  the writes the modules make; the clock.
- `module`: the per-tick decisions of the trigger bot, fast place and the
  rod assist's pull-back.

Every lookup is specified against spec functions over the memory map. Its
`try_` form answers `None` where a read fails, an address overflows or what is
looked for is absent; its plain form asks its caller to know that the lookup
succeeds and gives back the value itself. Implementations of `Readable` are
taken to behave as one fixed map of bytes between two writes.

`app/` is the Windows program around it: process enumeration and memory
access through `winapi`, mouse input, the floating-point aiming, and the
`egui` settings window. The JVM layout is read at start-up from
`jvm_offsets.txt` (or the file named by `HESTIA_OFFSETS`).
