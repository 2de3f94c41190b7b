use disk_write_bench::path::{parent, path_starts_with};
use std::path::Path;

fn sample_paths() -> Vec<String> {
    let parts = ["", ".", "..", "a", "b", "ab", "a.", "é"];
    let mut paths: Vec<String> = Vec::new();
    for root in ["", "/", "//"] {
        for x in parts {
            for y in parts {
                for z in ["", "/", "/a", "/./b", "/.", "//"] {
                    paths.push(format!("{root}{x}/{y}{z}"));
                    paths.push(format!("{root}{x}{y}{z}"));
                }
            }
        }
    }
    paths.sort();
    paths.dedup();
    paths
}

#[test]
fn parents_agree_with_std() {
    for p in sample_paths() {
        assert_eq!(
            parent(&p),
            Path::new(&p).parent().map(|d| d.to_str().unwrap()),
            "{p:?}"
        );
    }
    assert_eq!(parent(""), None);
    assert_eq!(parent("/"), None);
    assert_eq!(parent("bench.dat"), Some(""));
    assert_eq!(parent("/mnt/raid0/bench.dat"), Some("/mnt/raid0"));
}

#[test]
fn prefixes_agree_with_std() {
    let paths = sample_paths();
    for p in &paths {
        for base in &paths {
            assert_eq!(
                path_starts_with(p, base),
                Path::new(p).starts_with(base),
                "{p:?} {base:?}"
            );
        }
    }
}

#[test]
fn only_whole_components_match() {
    assert!(path_starts_with("/mnt/raid0/dir", "/mnt/raid0"));
    assert!(!path_starts_with("/mnt/raid01", "/mnt/raid0"));
    assert!(!path_starts_with("/mnt", "/mnt/raid0"));
}

#[test]
fn prefixes_are_ordered() {
    assert!(path_starts_with("/a/b/c", "/a/b/c"));
    assert!(path_starts_with("/a/b/c", "/a/b"));
    assert!(path_starts_with("/a/b", "/a"));
    assert!(path_starts_with("/a/b/c", "/a"));
}

#[test]
fn the_root_is_above_absolute_paths_only() {
    assert!(path_starts_with("/", "/"));
    assert!(path_starts_with("/a", "/"));
    assert!(!path_starts_with("a", "/"));
    assert!(!path_starts_with("", "/"));
    // Nothing is a prefix of everything.
    assert!(path_starts_with("a", ""));
    assert!(path_starts_with("", ""));
}
