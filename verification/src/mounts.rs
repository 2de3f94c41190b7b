//! Which filesystem a path is on, from the mount table.

use crate::path::{
    lemma_bare_name_has_empty_parent, parent, parent_path, path_starts_with, starts_with,
};
use crate::split::{lines, split_lines, split_words, views, words};
use crate::text::same;
use vstd::prelude::*;
use vstd::string::*;
use vstd::utf8::encode_utf8;

verus! {

/// A line of the mount table: the device, where it is mounted, and its filesystem.
pub struct Mount {
    pub device: Seq<char>,
    pub point: Seq<char>,
    pub fstype: Seq<char>,
}

/// The `i`th word, or nothing where the line is too short.
pub open spec fn word(line: Seq<char>, i: int) -> Seq<char> {
    if i < words(line).len() {
        words(line)[i]
    } else {
        Seq::<char>::empty()
    }
}

/// What a line of the mount table says.
pub open spec fn mount_of(line: Seq<char>) -> Mount {
    Mount { device: word(line, 0), point: word(line, 1), fstype: word(line, 2) }
}

/// What the mount table says, line by line.
pub open spec fn mount_table(mounts: Seq<char>) -> Seq<Mount> {
    Seq::new(lines(mounts).len(), |i: int| mount_of(lines(mounts)[i]))
}

/// How many bytes `s` takes in UTF-8.
pub open spec fn byte_len(s: Seq<char>) -> nat {
    encode_utf8(s).len()
}

/// The line of the table whose mount point is the longest prefix of `target`; the first of
/// them where several are as long.
pub open spec fn longest_prefix(table: Seq<Mount>, target: Seq<char>) -> Option<int>
    decreases table.len(),
{
    if table.len() == 0 {
        None
    } else {
        let before = longest_prefix(table.drop_last(), target);
        let point = table.last().point;
        if starts_with(target, point) && match before {
            Some(i) => byte_len(point) > byte_len(table[i].point),
            None => true,
        } {
            Some(table.len() - 1)
        } else {
            before
        }
    }
}

/// A mount in words, with a warning where `O_DIRECT` cannot be used.
pub open spec fn mount_text(fstype: Seq<char>, device: Seq<char>) -> Seq<char> {
    fstype + " on "@ + device + (if fstype == "tmpfs"@ {
        "  <-- tmpfs does not support O_DIRECT"@
    } else {
        ""@
    })
}

/// The directory whose filesystem a file at `path` is on: the parent of the path, which is the
/// current directory where the path is a bare file name. The root has no parent.
pub open spec fn lookup_path(path: Seq<char>) -> Option<Seq<char>> {
    match parent_path(path) {
        Some(d) => Some(
            if d.len() == 0 {
                "."@
            } else {
                d
            },
        ),
        None => None,
    }
}

/// The filesystem of the directory `target` by the mount table. A directory that is not known
/// stands for the root; without a mount table, or a mount that contains the directory, the
/// filesystem is unknown.
pub open spec fn hint(target: Option<Seq<char>>, mounts: Option<Seq<char>>) -> Seq<char> {
    let dir = match target {
        Some(t) => t,
        None => "/"@,
    };
    match mounts {
        Some(m) => match longest_prefix(mount_table(m), dir) {
            Some(i) => mount_text(mount_table(m)[i].fstype, mount_table(m)[i].device),
            None => "unknown"@,
        },
        None => "unknown"@,
    }
}

fn nth_word<'a>(line: &Vec<&'a str>, i: usize) -> (r: &'a str)
    ensures
        r@ == (if i < line.len() {
            line[i as int]@
        } else {
            Seq::<char>::empty()
        }),
{
    if i < line.len() {
        line[i]
    } else {
        proof {
            reveal_strlit("");
            assert(""@ =~= Seq::<char>::empty());
        }
        ""
    }
}

fn mount_words(fstype: &str, device: &str) -> (r: String)
    ensures
        r@ == mount_text(fstype@, device@),
{
    let mut r = fstype.to_owned();
    r.append(" on ");
    r.append(device);
    r.append(
        if same(fstype, "tmpfs") {
            "  <-- tmpfs does not support O_DIRECT"
        } else {
            ""
        },
    );
    r
}

/// The directory to look up for a file at `path`, if there is one.
pub fn directory_to_look_up<'a>(path: &'a str) -> (r: Option<&'a str>)
    ensures
        match r {
            Some(d) => lookup_path(path@) == Some(d@),
            None => lookup_path(path@) is None,
        },
{
    match parent(path) {
        Some(d) => if d.is_empty() {
            Some(".")
        } else {
            Some(d)
        },
        None => None,
    }
}

/// Best-effort filesystem type for the mount point that contains the directory `target`, from
/// the mount table `mounts` by longest-prefix match. Reported because O_DIRECT support and
/// achievable throughput both depend on it (notably, tmpfs rejects O_DIRECT).
pub fn filesystem_hint(target: Option<&str>, mounts: Option<&str>) -> (r: String)
    ensures
        r@ == hint(
            match target {
                Some(t) => Some(t@),
                None => None,
            },
            match mounts {
                Some(m) => Some(m@),
                None => None,
            },
        ),
{
    let dir = match target {
        Some(t) => t,
        None => "/",
    };
    let mounts = match mounts {
        Some(m) => m,
        None => {
            return "unknown".to_owned();
        },
    };
    let table = split_lines(mounts);
    let ghost all = mount_table(mounts@);
    proof {
        assert(views(table@).len() == table.len());
    }
    let mut best: Option<(usize, &str, &str)> = None;
    let mut i: usize = 0;
    assert(all.take(0) =~= Seq::<Mount>::empty());
    while i < table.len()
        invariant
            i <= table.len(),
            views(table@) == lines(mounts@),
            all == mount_table(mounts@),
            all.len() == table.len(),
            match best {
                Some((len, fstype, device)) => {
                    &&& longest_prefix(all.take(i as int), dir@) matches Some(k)
                    &&& 0 <= k < i
                    &&& len == byte_len(all[k].point)
                    &&& fstype@ == all[k].fstype
                    &&& device@ == all[k].device
                },
                None => longest_prefix(all.take(i as int), dir@) is None,
            },
        decreases table.len() - i,
    {
        assert(views(table@)[i as int] == table[i as int]@);
        let line = split_words(table[i]);
        proof {
            assert(views(line@).len() == line.len());
            assert(forall|k: int| 0 <= k < line.len() ==> views(line@)[k] == #[trigger] line[k]@);
            assert(all.take(i + 1).drop_last() =~= all.take(i as int));
            assert(all.take(i + 1).last() == all[i as int]);
        }
        let device = nth_word(&line, 0);
        let point = nth_word(&line, 1);
        let fstype = nth_word(&line, 2);
        assert(all[i as int] == (Mount { device: device@, point: point@, fstype: fstype@ }));
        let len: usize = point.as_bytes().len();
        if path_starts_with(dir, point) && match best {
            Some((n, _, _)) => len > n,
            None => true,
        } {
            best = Some((len, fstype, device));
        }
        i += 1;
    }
    assert(all.take(i as int) =~= all);
    match best {
        Some((_, fstype, device)) => mount_words(fstype, device),
        None => "unknown".to_owned(),
    }
}

/// A bare file name is looked up in the current directory, and what is looked up is never
/// empty.
pub proof fn law_bare_name_is_looked_up_here(path: Seq<char>)
    ensures
        path.len() > 0 && !path.contains('/') ==> lookup_path(path) == Some("."@),
        lookup_path(path) matches Some(d) ==> d.len() > 0,
{
    reveal_strlit(".");
    if path.len() > 0 && !path.contains('/') {
        lemma_bare_name_has_empty_parent(path);
    }
}

/// The chosen line's mount point is a prefix of `target`. No other such line has a longer
/// mount point, and none before it has one as long. There is a chosen line as soon as some
/// line's mount point is a prefix.
pub proof fn law_first_longest_prefix_is_chosen(table: Seq<Mount>, target: Seq<char>)
    ensures
        match longest_prefix(table, target) {
            Some(i) => {
                &&& 0 <= i < table.len()
                &&& starts_with(target, table[i].point)
                &&& forall|j: int|
                    0 <= j < table.len() && #[trigger] starts_with(target, table[j].point)
                        ==> byte_len(table[j].point) <= byte_len(table[i].point) && (j < i
                        ==> byte_len(table[j].point) < byte_len(table[i].point))
            },
            None => forall|j: int|
                0 <= j < table.len() ==> !#[trigger] starts_with(target, table[j].point),
        },
    decreases table.len(),
{
    if table.len() > 0 {
        let t = table.drop_last();
        law_first_longest_prefix_is_chosen(t, target);
        assert forall|j: int| 0 <= j < table.len() - 1 implies #[trigger] table[j] == t[j] by {}
    }
}

/// A mount is reported with a warning exactly where it is a tmpfs.
pub proof fn law_tmpfs_is_warned_about(fstype: Seq<char>, device: Seq<char>)
    ensures
        mount_text(fstype, device) == fstype + " on "@ + device <==> fstype != "tmpfs"@,
{
    reveal_strlit("");
    reveal_strlit("  <-- tmpfs does not support O_DIRECT");
    let plain = fstype + " on "@ + device;
    if fstype != "tmpfs"@ {
        assert(plain + ""@ =~= plain);
    } else {
        assert(mount_text(fstype, device).len() != plain.len());
    }
}

/// The `i`th of some words, or nothing where there are fewer.
pub open spec fn nth_or_nothing(ws: Seq<Seq<char>>, i: int) -> Seq<char> {
    if i < ws.len() {
        ws[i]
    } else {
        Seq::<char>::empty()
    }
}

/// The mount table has an entry for each line of the text, and the entry is made of the first
/// three words of its line.
pub proof fn law_table_has_every_line(mounts: Seq<char>, i: int)
    ensures
        mount_table(mounts).len() == lines(mounts).len(),
        0 <= i < lines(mounts).len() ==> {
            let ws = words(lines(mounts)[i]);
            &&& mount_table(mounts)[i].device == nth_or_nothing(ws, 0)
            &&& mount_table(mounts)[i].point == nth_or_nothing(ws, 1)
            &&& mount_table(mounts)[i].fstype == nth_or_nothing(ws, 2)
        },
{
}

/// Whether the `i`th line of the mount table names a mount that contains `dir`: its second word
/// is a prefix of `dir`, component by component.
pub open spec fn line_contains(mounts: Seq<char>, dir: Seq<char>, i: int) -> bool {
    &&& 0 <= i < lines(mounts).len()
    &&& starts_with(dir, nth_or_nothing(words(lines(mounts)[i]), 1))
}

/// How long the mount point of the `i`th line is, in bytes.
pub open spec fn point_bytes(mounts: Seq<char>, i: int) -> nat {
    encode_utf8(nth_or_nothing(words(lines(mounts)[i]), 1)).len()
}

/// Among all lines of the mount table whose mount contains the directory, wherever they stand,
/// the hint names the filesystem and the device of the first with the longest mount point, and
/// warns where the filesystem is `tmpfs`.
pub proof fn law_hint_names_the_innermost_mount(dir: Seq<char>, mounts: Seq<char>, i: int)
    requires
        line_contains(mounts, dir, i),
        forall|j: int| #[trigger]
            line_contains(mounts, dir, j) ==> point_bytes(mounts, j) <= point_bytes(mounts, i),
        forall|j: int| #[trigger]
            line_contains(mounts, dir, j) && j < i ==> point_bytes(mounts, j) < point_bytes(
                mounts,
                i,
            ),
    ensures
        ({
            let ws = words(lines(mounts)[i]);
            let fstype = nth_or_nothing(ws, 2);
            hint(Some(dir), Some(mounts)) == fstype + " on "@ + nth_or_nothing(ws, 0) + (if fstype
                == "tmpfs"@ {
                "  <-- tmpfs does not support O_DIRECT"@
            } else {
                Seq::<char>::empty()
            })
        }),
{
    let table = mount_table(mounts);
    reveal_strlit("");
    assert(""@ =~= Seq::<char>::empty());
    law_first_longest_prefix_is_chosen(table, dir);
    assert(starts_with(dir, table[i].point));
    let k = longest_prefix(table, dir)->0;
    assert(line_contains(mounts, dir, k));
    assert(point_bytes(mounts, k) == byte_len(table[k].point));
    assert(point_bytes(mounts, i) == byte_len(table[i].point));
    assert(k == i);
}

/// Where no line of the mount table names a mount that contains the directory, and where there
/// is no table, the filesystem is unknown; and a directory that is not known stands for the
/// root.
pub proof fn law_hint_without_a_mount(dir: Seq<char>, mounts: Seq<char>)
    ensures
        (forall|j: int| !#[trigger] line_contains(mounts, dir, j)) ==> hint(
            Some(dir),
            Some(mounts),
        ) == "unknown"@,
        hint(Some(dir), None) == "unknown"@,
        hint(None, None) == "unknown"@,
        hint(None, Some(mounts)) == hint(Some("/"@), Some(mounts)),
{
    let table = mount_table(mounts);
    law_first_longest_prefix_is_chosen(table, dir);
    if forall|j: int| !#[trigger] line_contains(mounts, dir, j) {
        if let Some(i) = longest_prefix(table, dir) {
            assert(line_contains(mounts, dir, i));
        }
    }
}

/// The directory to look up is the parent of the path, and the current directory where the
/// parent is empty.
pub proof fn law_directory_is_the_parent(path: Seq<char>)
    ensures
        lookup_path(path) is Some <==> parent_path(path) is Some,
        parent_path(path) matches Some(d) ==> lookup_path(path) == Some(
            if d.len() > 0 {
                d
            } else {
                "."@
            },
        ),
{
}

} // verus!
