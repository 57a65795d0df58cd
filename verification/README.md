# stormblock

The rules of a storage node, proved with Verus: drives and what is laid out on
them, the protocols that drives are reached and served by, and the filesystem
templates that volumes are cloned from.

- `src/drive/` holds slabs and pools, their registries, the bytes of iSCSI,
  NVMe over TCP, NBD and ublk, the shared-memory rings, and what a device that
  loses power keeps.
- `src/fs/` holds what the node reads of ext4, XFS, GPT and MBR, which space of
  an ext4 filesystem is free, and the life of a template. `creating`, `sealing`,
  `cloning`, `claiming` and `surveying` are runs that say what is to be done next
  and are told what came of it; `lifecycle` is what the first four decide with,
  `survey` what the last does.
- `src/bytes.rs`, `src/text.rs`, `src/ids.rs`, `src/bits.rs`, `src/align.rs`
  and `src/digest.rs` are what the rest is stated with.

The library does no input or output. A function says which bytes to read or
write, or what to do next, and its contract says what those are for every input.
Sockets, files, threads and the kernel are in `app/`, which asks the library at
every turn.

Public proof functions state what holds of several functions together: that
what is written reads back, that a slab opens again as whatever changes left it,
that regions do not overlap, that a request is answered once, that what fails leaves nothing behind.

What is not proved is marked `external_body` or `assume_specification`, each
with a comment that names the function behind it and what is believed of it:
checksums, UUIDs, the bit vector of the slot maps, sorting and a few conversions
of text.
