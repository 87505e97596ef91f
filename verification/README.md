# openshmem

The verified core of an OpenSHMEM-style partitioned global address space (PGAS) library, and the
library around it on PMIx, UCX and UCC.

Processing elements (PEs) find each other through PMIx, move bytes with UCX and synchronise with
UCC. The core makes none of those calls. For each operation it holds the rules between them, with
contracts that Verus proves; an operation that takes several outside calls is a small machine that
is told what the last call returned and says which one comes next.

## Layout

| Module | What it holds |
|--------|---------------|
| `heap_model` | what a symmetric heap is, and the laws of allocation |
| `symheap` | the free-list allocator, symmetric pointers, the rkeys of peers |
| `settings` | numbers read from the environment |
| `pod` | plain-old-data values and their bytes |
| `bootstrap` | the exchange of worker addresses and heap keys |
| `init` | the lifecycle of a process |
| `rma` | transport setup, transfers, fences and quiets |
| `coll` | collectives |
| `oob` | the out-of-band allgather that forms a UCC team |
| `error` | errors and their messages |

`app/` makes the outside calls and keeps the process-global state. `tests/` runs the core.

## What is trusted

The core rests on Verus, on `vstd`, and on one contract that is not proved: `pod::native_bytes`,
which says that `u16::to_ne_bytes` stores its bytes in one of the two byte orders.
