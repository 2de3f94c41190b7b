use disk_write_bench::usage::USAGE;

#[test]
fn the_usage_names_every_option() {
    assert!(USAGE.starts_with("Disk write throughput benchmark (O_DIRECT + io_uring)\n\nUSAGE:\n"));
    assert!(USAGE.ends_with("--queue-depth $q --duration 10\n    done\n"));
    for option in [
        "--path <FILE>",
        "--mode <MODE>",
        "--block-size <SIZE>",
        "--queue-depth <N>",
        "--duration <SECS>",
        "--max-bytes <SIZE>",
        "--fsync",
        "--keep",
        "--no-prealloc",
    ] {
        assert!(USAGE.contains(option), "{option}");
    }
}
