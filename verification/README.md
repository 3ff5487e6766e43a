# mappedpages

A crash-consistent, memory-mapped, file-backed fixed-size page provider, verified
with [Verus](https://github.com/verus-lang/verus).

`mappedpages` manages a binary file divided into fixed-size pages.  It hands out
regular pages, protected (copy-on-write) pages and sub-pages, grows the file when
it is full, and keeps its metadata in two checksummed copies so that a crash at any
moment leaves the old state or the new one; only where it tears the references to
the directory of protected pages in page 0 may the file be refused instead.

## Layout

- `src/` is the library.  It decides what is to be read, written, flushed, resized
  and mapped, and performs none of it: an operation returns requests, and goes on
  when it is told how they went.
- `app/` is the file-backed front end: it owns the file and the memory map, carries
  the requests out, and adds locking for threads.
- `tests/` runs the library over a file in memory, with failures and crashes where
  they hurt.

## Reading the proofs

| Module | What it states |
|---|---|
| `bytes`, `checksum`, `bitmap` | little-endian fields, sealed byte strings, one bit per page |
| `meta`, `directory` | the parts of the file: encoding, parsing, and that they undo each other |
| `image` | the state that the bytes of a file stand for (`recover`) |
| `plan` | what a commit stores and flushes, and what a crash may leave of it |
| `durability` | a committed state is found again; a crash leaves the old or the new one |
| `growth` | handing out pages, with the file doubled as often as needed |
| `pager`, `protected`, `sub_allocator`, `bulk`, `task` | the operations, as steps from request to request |
| `ownership`, `checkout` | no page serves twice, every operation keeps it so, and live sub-pages can be borrowed |
| `soundness` | a pager and its file together: the invariant of the whole |
| `history` | any run of operations: the file is found again, and pages keep their bytes |
| `live` | which handles are live after single operations and after batches |
| `iter`, `readonly`, `allocator` | walking pages, reading without writing, generic code |
| `guard` | tests of preconditions for callers that are not verified |

The library relies on one outside function, `crc32fast::hash`, of which it claims
that it computes the CRC32 (IEEE) checksum, stated bit by bit in `checksum`, and
carries `std::io::Error` through unopened.

A torn write of the directory section of page 0 can make its checksum fail; the file
is then refused with `CorruptDirectoryIndex`.  The laws on directory commits say so:
they hold as long as that section reads as the old or the new references.

The laws start from any file that can be opened and in which no page serves twice, also
one that is opened with an alternate page, after a crash that tore page 0, or without a
directory section.  In such a file page 0 may name a page that is damaged; of the first
commit after opening it, `durability` says which torn bytes are left out.  Every commit
leaves the file in order, and from then on a crash leaves the old state or the new one.
