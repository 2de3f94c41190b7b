use disk_write_bench::mounts::{directory_to_look_up, filesystem_hint};

const TABLE: &str = "\
sysfs /sys sysfs rw,nosuid 0 0
/dev/root / ext4 rw,relatime 0 0
tmpfs /tmp tmpfs rw 0 0
/dev/md127 /mnt/raid0 xfs rw,noatime 0 0
/dev/other /mnt/raid0 xfs rw 0 0
/dev/sdb /mnt ext4 rw 0 0
";

#[test]
fn the_longest_mount_point_is_chosen() {
    assert_eq!(
        filesystem_hint(Some("/mnt/raid0/data"), Some(TABLE)),
        "xfs on /dev/md127"
    );
    assert_eq!(
        filesystem_hint(Some("/mnt/raid0"), Some(TABLE)),
        "xfs on /dev/md127"
    );
    assert_eq!(
        filesystem_hint(Some("/mnt/raid01"), Some(TABLE)),
        "ext4 on /dev/sdb"
    );
    assert_eq!(
        filesystem_hint(Some("/home/me"), Some(TABLE)),
        "ext4 on /dev/root"
    );
}

#[test]
fn tmpfs_is_warned_about() {
    assert_eq!(
        filesystem_hint(Some("/tmp/x"), Some(TABLE)),
        "tmpfs on tmpfs  <-- tmpfs does not support O_DIRECT"
    );
}

#[test]
fn an_unknown_directory_stands_for_the_root() {
    assert_eq!(filesystem_hint(None, Some(TABLE)), "ext4 on /dev/root");
}

#[test]
fn without_a_matching_mount_the_filesystem_is_unknown() {
    assert_eq!(filesystem_hint(Some("/x"), None), "unknown");
    assert_eq!(filesystem_hint(None, None), "unknown");
    assert_eq!(filesystem_hint(Some("/x"), Some("")), "unknown");
    assert_eq!(
        filesystem_hint(Some("/x"), Some("dev /y ext4 rw 0 0\n")),
        "unknown"
    );
}

#[test]
fn short_lines_lack_their_words() {
    // An empty mount point is a prefix of every path, and any other prefix is longer.
    assert_eq!(filesystem_hint(Some("/x"), Some("\n")), " on ");
    assert_eq!(filesystem_hint(Some("/x"), Some("dev\n")), " on dev");
    assert_eq!(filesystem_hint(Some("/x"), Some("dev /")), " on dev");
    assert_eq!(
        filesystem_hint(Some("/x"), Some("\ndev / ext4\n\n")),
        "ext4 on dev"
    );
}

#[test]
fn mount_points_are_compared_by_bytes() {
    // "/é/." takes more bytes than "/é", though both name the same directory.
    assert_eq!(
        filesystem_hint(Some("/é/a"), Some("one /é ext4\ntwo /é/. xfs\n")),
        "xfs on two"
    );
    // Four characters each, and the one with an accented letter is longer.
    assert_eq!(
        filesystem_hint(Some("/a/é"), Some("one /a// ext4\ntwo /a/é xfs\n")),
        "xfs on two"
    );
}

#[test]
fn the_directory_of_a_file_is_looked_up() {
    assert_eq!(directory_to_look_up("/mnt/raid0/bench.dat"), Some("/mnt/raid0"));
    assert_eq!(directory_to_look_up("data/bench.dat"), Some("data"));
    assert_eq!(directory_to_look_up("/bench.dat"), Some("/"));
    assert_eq!(directory_to_look_up("./bench.dat"), Some("."));
    assert_eq!(directory_to_look_up("/"), None);
    assert_eq!(directory_to_look_up(""), None);
}

#[test]
fn a_bare_file_name_is_looked_up_in_the_current_directory() {
    assert_eq!(directory_to_look_up("bench.dat"), Some("."));
    // In /mnt/raid0 that is /mnt/raid0.
    assert_eq!(
        filesystem_hint(
            Some("/mnt/raid0"),
            Some("/dev/root / ext4 rw 0 0\n/dev/md0 /mnt/raid0 xfs rw 0 0\n")
        ),
        "xfs on /dev/md0"
    );
}
