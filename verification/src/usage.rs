//! The usage text.

use crate::args::defaults;
use crate::mode::Mode;
use crate::number::{law_printed_number_is_read_back, number, NumberError};
use crate::size::{law_suffixes_are_binary_multiples, size};
use crate::text::decimal;
use vstd::prelude::*;

verus! {

/// What `--help` prints.
pub const USAGE: &'static str = "\
Disk write throughput benchmark (O_DIRECT + io_uring)

USAGE:
    disk-write-bench --path <FILE> [OPTIONS]

OPTIONS:
    --path <FILE>          Output file. Must be on the filesystem under test.
                           O_DIRECT is unsupported on tmpfs, so avoid /tmp if
                           it is a tmpfs mount.
    --mode <MODE>          direct | direct-sync | uring | buffered  [default: direct]
                             direct      = O_DIRECT + io_uring (bypasses page cache)
                             direct-sync = O_DIRECT + plain write(2), one at a
                                           time; mirrors a simple C write loop
                             uring    = io_uring, page cache in use
                             buffered = write(2), page cache in use
    --block-size <SIZE>    Bytes per write, multiple of 4096  [default: 8m]
                           Accepts k/m/g suffixes.
    --queue-depth <N>      Writes kept in flight               [default: 1]
                           1 = submit-and-wait per write.
    --duration <SECS>      How long to write                   [default: 30]
    --max-bytes <SIZE>     Stop after this many bytes (optional cap)
    --fsync                fsync() at the end and include it in the total time
    --keep                 Do not delete the output file on exit
    --no-prealloc          Skip fallocate. Writes then EXTEND the file, which
                           serializes them on the inode lock (XFS takes it
                           exclusively for size-extending O_DIRECT writes) and
                           makes queue depth irrelevant. Use to demonstrate the
                           effect; not a realistic configuration.

EXAMPLES:
    # 30s O_DIRECT write test with 4 writes in flight
    disk-write-bench --path /mnt/raid0/bench.dat --queue-depth 4

    # Compare against the buffered path
    disk-write-bench --path /mnt/raid0/bench.dat --mode buffered

    # Sweep queue depth to find where the device saturates
    for q in 1 2 4 8 16 32; do
        disk-write-bench --path /mnt/raid0/bench.dat --queue-depth $q --duration 10
    done
";

/// Whether `part` stands in `text` at `i`.
pub open spec fn stands_in(text: Seq<char>, i: int, part: Seq<char>) -> bool {
    0 <= i && i + part.len() <= text.len() && text.subrange(i, i + part.len()) == part
}

/// The usage text tells of every option, of what it takes and does, and of the default that
/// the command line has for it.
pub proof fn law_usage_tells_options_and_defaults()
    ensures
        stands_in(USAGE@, 66, "disk-write-bench --path <FILE> [OPTIONS]"@),
        stands_in(USAGE@, 121, "--path <FILE>          Output file."@),
        stands_in(USAGE@, 325, "--mode <MODE>          direct | direct-sync | uring | buffered  [default: direct]"@),
        stands_in(USAGE@, 436, "direct      = O_DIRECT + io_uring (bypasses page cache)"@),
        stands_in(USAGE@, 521, "direct-sync = O_DIRECT + plain write(2), one at a\n"@),
        stands_in(USAGE@, 679, "uring    = io_uring, page cache in use"@),
        stands_in(USAGE@, 747, "buffered = write(2), page cache in use"@),
        stands_in(USAGE@, 790, "--block-size <SIZE>    Bytes per write, multiple of 4096  [default: 8m]"@),
        stands_in(USAGE@, 889, "Accepts k/m/g suffixes."@),
        stands_in(USAGE@, 917, "--queue-depth <N>      Writes kept in flight               [default: 1]"@),
        stands_in(USAGE@, 1016, "1 = submit-and-wait per write."@),
        stands_in(USAGE@, 1051, "--duration <SECS>      How long to write                   [default: 30]"@),
        stands_in(USAGE@, 1128, "--max-bytes <SIZE>     Stop after this many bytes (optional cap)"@),
        stands_in(USAGE@, 1197, "--fsync                fsync() at the end and include it in the total time"@),
        stands_in(USAGE@, 1276, "--keep                 Do not delete the output file on exit"@),
        stands_in(USAGE@, 1341, "--no-prealloc          Skip fallocate."@),
        defaults().mode == Mode::Direct,
        size("8m"@) == Ok::<nat, NumberError>(defaults().block_size),
        number("1"@, 1) == Ok::<nat, NumberError>(defaults().queue_depth),
        number("30"@, 30) == Ok::<nat, NumberError>(defaults().duration),
        defaults().path is None && defaults().max_bytes is None,
        !defaults().fsync && !defaults().keep && !defaults().no_prealloc,
{
    reveal_strlit(
        "\
Disk write throughput benchmark (O_DIRECT + io_uring)

USAGE:
    disk-write-bench --path <FILE> [OPTIONS]

OPTIONS:
    --path <FILE>          Output file. Must be on the filesystem under test.
                           O_DIRECT is unsupported on tmpfs, so avoid /tmp if
                           it is a tmpfs mount.
    --mode <MODE>          direct | direct-sync | uring | buffered  [default: direct]
                             direct      = O_DIRECT + io_uring (bypasses page cache)
                             direct-sync = O_DIRECT + plain write(2), one at a
                                           time; mirrors a simple C write loop
                             uring    = io_uring, page cache in use
                             buffered = write(2), page cache in use
    --block-size <SIZE>    Bytes per write, multiple of 4096  [default: 8m]
                           Accepts k/m/g suffixes.
    --queue-depth <N>      Writes kept in flight               [default: 1]
                           1 = submit-and-wait per write.
    --duration <SECS>      How long to write                   [default: 30]
    --max-bytes <SIZE>     Stop after this many bytes (optional cap)
    --fsync                fsync() at the end and include it in the total time
    --keep                 Do not delete the output file on exit
    --no-prealloc          Skip fallocate. Writes then EXTEND the file, which
                           serializes them on the inode lock (XFS takes it
                           exclusively for size-extending O_DIRECT writes) and
                           makes queue depth irrelevant. Use to demonstrate the
                           effect; not a realistic configuration.

EXAMPLES:
    # 30s O_DIRECT write test with 4 writes in flight
    disk-write-bench --path /mnt/raid0/bench.dat --queue-depth 4

    # Compare against the buffered path
    disk-write-bench --path /mnt/raid0/bench.dat --mode buffered

    # Sweep queue depth to find where the device saturates
    for q in 1 2 4 8 16 32; do
        disk-write-bench --path /mnt/raid0/bench.dat --queue-depth $q --duration 10
    done
",
    );
    reveal_strlit("disk-write-bench --path <FILE> [OPTIONS]");
    reveal_strlit("--path <FILE>          Output file.");
    reveal_strlit("--mode <MODE>          direct | direct-sync | uring | buffered  [default: direct]");
    reveal_strlit("direct      = O_DIRECT + io_uring (bypasses page cache)");
    reveal_strlit("direct-sync = O_DIRECT + plain write(2), one at a\n");
    reveal_strlit("uring    = io_uring, page cache in use");
    reveal_strlit("buffered = write(2), page cache in use");
    reveal_strlit("--block-size <SIZE>    Bytes per write, multiple of 4096  [default: 8m]");
    reveal_strlit("Accepts k/m/g suffixes.");
    reveal_strlit("--queue-depth <N>      Writes kept in flight               [default: 1]");
    reveal_strlit("1 = submit-and-wait per write.");
    reveal_strlit("--duration <SECS>      How long to write                   [default: 30]");
    reveal_strlit("--max-bytes <SIZE>     Stop after this many bytes (optional cap)");
    reveal_strlit("--fsync                fsync() at the end and include it in the total time");
    reveal_strlit("--keep                 Do not delete the output file on exit");
    reveal_strlit("--no-prealloc          Skip fallocate.");
    assert(USAGE@.subrange(66, 106) =~= "disk-write-bench --path <FILE> [OPTIONS]"@);
    assert(USAGE@.subrange(121, 156) =~= "--path <FILE>          Output file."@);
    assert(USAGE@.subrange(325, 406) =~= "--mode <MODE>          direct | direct-sync | uring | buffered  [default: direct]"@);
    assert(USAGE@.subrange(436, 491) =~= "direct      = O_DIRECT + io_uring (bypasses page cache)"@);
    assert(USAGE@.subrange(521, 571) =~= "direct-sync = O_DIRECT + plain write(2), one at a\n"@);
    assert(USAGE@.subrange(679, 717) =~= "uring    = io_uring, page cache in use"@);
    assert(USAGE@.subrange(747, 785) =~= "buffered = write(2), page cache in use"@);
    assert(USAGE@.subrange(790, 861) =~= "--block-size <SIZE>    Bytes per write, multiple of 4096  [default: 8m]"@);
    assert(USAGE@.subrange(889, 912) =~= "Accepts k/m/g suffixes."@);
    assert(USAGE@.subrange(917, 988) =~= "--queue-depth <N>      Writes kept in flight               [default: 1]"@);
    assert(USAGE@.subrange(1016, 1046) =~= "1 = submit-and-wait per write."@);
    assert(USAGE@.subrange(1051, 1123) =~= "--duration <SECS>      How long to write                   [default: 30]"@);
    assert(USAGE@.subrange(1128, 1192) =~= "--max-bytes <SIZE>     Stop after this many bytes (optional cap)"@);
    assert(USAGE@.subrange(1197, 1271) =~= "--fsync                fsync() at the end and include it in the total time"@);
    assert(USAGE@.subrange(1276, 1336) =~= "--keep                 Do not delete the output file on exit"@);
    assert(USAGE@.subrange(1341, 1379) =~= "--no-prealloc          Skip fallocate."@);
    reveal_strlit("8m");
    reveal_strlit("1");
    reveal_strlit("30");
    reveal_strlit("0123456789");
    reveal_with_fuel(decimal, 3);
    assert("8m"@ =~= decimal(8).push('m'));
    assert("1"@ =~= decimal(1));
    assert("30"@ =~= decimal(30));
    law_suffixes_are_binary_multiples(8);
    law_printed_number_is_read_back(1, 1);
    law_printed_number_is_read_back(30, 30);
}

} // verus!
