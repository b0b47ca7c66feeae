# pixie

The verified core of a network disk-imaging agent that boots over UEFI,
stores a machine's disk as a list of content-addressed chunks on a server,
and restores ("flashes") disks from such images. Everything in `src/` is
verified with Verus; `app/` is a small hosted front end.

## Layout

- Disk formats and chunk planning: `chunks` (splitting byte ranges into
  window-aligned chunks), `gpt`, `ext4`, `fat`, `ntfs`, `partition`, `le`.
- Images and transfer: `image` (the chunk table of an image), `upload`
  (hashing, compression and progress while storing), `pull` (packet
  reception with XOR parity recovery), `fetch` (the receive window that
  turns packets into decompressed chunks), `codec` (the BLAKE3, LZ4 and
  DEFLATE calls).
- Devices: `pci`, `disk` (block transfer planning and running a plan
  command by command), `nvme`, `ahci`,
  `e1000`, `rtl8169`, `nic`, `serial`, `input`.
- System: `frames` (physical page bitmap), `heap` (heap growth policy),
  `idt`, `timer`, `timers`, `speed`, `mpsc`, `tasks`, `ui`, `raw_fb`, `logger`,
  `boot`, `boot_options`, `register`, `agent`, `web`, `error`.

Laws that relate several operations are public proof functions next to
the code they speak of (for example `pull::lemma_recovery_restores`,
`fetch::lemma_fetched_chunk_is_stored`, `frames::alloc_then_free_restores`,
`disk::lemma_read_plan_fills_buffer`, `boot::lemma_score_ranking`,
`boot_options::lemma_install_sets_reboot_target`,
`ui::lemma_write_stays_inside`).

## Front end

`app/main.rs` reads a partition image from a file, picks the byte ranges
to store (FAT allocation, swap header, or the whole partition), splits,
hashes and compresses them, and prints the upload progress lines.
