# wasm_os

The kernel-side logic of a small operating system that runs WebAssembly
programs, written in Verus and verified.

- `src/inode.rs`: the file tree (files, directories, input and output
  devices), path lookup, deletion and the `/dev` directory.
- `src/console.rs`: standard input as the keyboard fills it, and how typed
  keys are echoed.
- `src/apps.rs`: the registered programs and which one a command line names.
- `src/wasm.rs`: the host functions that programs import (allocation of
  guest memory, `memcpy`/`memmove`/`memset`, arguments, seeds, timers).
- `src/guest_memory.rs`, `src/random.rs`: the calls into tinywasm (guest
  memory) and rand, with the contracts the proofs rely on; the generator
  records the seed it was given.
- `src/kernel/keyboard.rs`: keyboard scancodes decoded with pc_keyboard and
  handed to standard input.
- `src/kernel/wasm.rs`: the earlier first-fit allocator.
- `src/hydro_std.rs`: what the guest-side standard library hands to
  `putchar`.
- `app/`: the program around the library: globals, the WebAssembly runtime
  and its imports, logging, the QEMU exit port.
