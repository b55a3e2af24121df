# libtt

The host side of a tile-based accelerator: it lays tensors out in tiles, hands
out device memory, plans kernels for the worker cores, prepares the images of
kernels and firmware, and encodes the commands that start them. A function of the
library states in its contract what it returns, or takes the contract of its trait
over, and Verus proves it.

## Layout

- `src/` is the library.
  - `hw`, `cores`, `arith`, `bytes`, `convert`, `text`, `source`, `path`, `error`,
    `float_bits`: the hardware's numbers and what everything else builds on.
  - `dram`: tile layout, interleaving over banks, the allocators of
    all devices, reads and writes.
  - `executable`: executables as they come off the wire, and their checks.
  - `compiler`: compiler commands, generated headers, images that run wherever
    they are placed, and the caches and stores of kernels and firmware.
  - `dispatch`: programs, launch messages, multicast rectangles, dispatch plans.
  - `cq`: the command queue: records, rings, launch templates.
  - `device`: topology, probing, bank tables, firmware uploads.
  - `kernels`: the operations, from shape checks to packed runtime arguments.
  - `bridge`: requests of the host program.
- `app/` touches the machine: device files, memory windows, the compiler, clocks
  and the interface to the host program.
- `tests/` runs the library on concrete values.

## What the contracts speak of

A fallible function has a `*_refusal` spec function that names each failure with
its text; the function fails if and only if it gives one. A type with contents
has a view, and types with an invariant have `wf`. Public proof functions named
`lemma_*` state what holds across functions, such as that reading a buffer gives
back what was written, or that decoding a cache entry gives back the kernel.

Three functions of the standard library are taken on trust: `char::is_whitespace`,
the `Debug` form of a text, and `String::from_utf8`.
