use disk_write_bench::split::{split, split_lines, split_words, Separator};

const SAMPLES: [&str; 23] = [
    "",
    "\n",
    "a",
    "a\n",
    "a\nb",
    "a\n\nb\n",
    "\n\n",
    " ",
    "  a  b ",
    "a\tb\u{a0}c\u{2003}d",
    "dev /mnt ext4 rw 0 0",
    "/",
    "//",
    "/a/b/",
    "é/ü",
    "a/\nb c",
    "\r\n",
    "\r",
    "a\r",
    "a b\r\nc d\r\n",
    "a\r\r\nb\r",
    "a\rb\r\n\r\n",
    "\n\r",
];

#[test]
fn lines_agree_with_std() {
    for s in SAMPLES {
        assert_eq!(split_lines(s), s.lines().collect::<Vec<&str>>(), "{s:?}");
    }
}

#[test]
fn words_agree_with_std() {
    for s in SAMPLES {
        assert_eq!(
            split_words(s),
            s.split_whitespace().collect::<Vec<&str>>(),
            "{s:?}"
        );
    }
}

#[test]
fn pieces_agree_with_std() {
    for s in SAMPLES {
        assert_eq!(
            split(s, Separator::Slash),
            s.split('/').collect::<Vec<&str>>(),
            "{s:?}"
        );
    }
}
