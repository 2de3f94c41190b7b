//! The order of the options on a command line.

use crate::args::{
    command_line, defaults, finished, read_from, takes_value, unknown_argument, value_missing,
    with_value, Draft, Outcome,
};
use crate::text::debug_quoted;
use vstd::prelude::*;

verus! {

/// An option together with its value, if it takes one and has one.
#[verifier::ext_equal]
pub struct Group {
    pub arg: Seq<char>,
    pub value: Option<Seq<char>>,
}

/// How many arguments the first group of a command line that is not empty takes up.
pub open spec fn first_len(argv: Seq<Seq<char>>) -> int {
    if takes_value(argv[0]) && argv.len() > 1 {
        2
    } else {
        1
    }
}

/// The option groups of a command line, in order.
pub open spec fn groups(argv: Seq<Seq<char>>) -> Seq<Group>
    decreases argv.len(),
{
    if argv.len() == 0 {
        Seq::empty()
    } else {
        let n = first_len(argv);
        let first = Group {
            arg: argv[0],
            value: if n == 2 {
                Some(argv[1])
            } else {
                None
            },
        };
        seq![first] + groups(argv.skip(n))
    }
}

/// `d` with the option group `g` read.
#[verifier::opaque]
pub open spec fn with_group(d: Draft, g: Group) -> Result<Draft, Outcome> {
    if g.arg == "-h"@ || g.arg == "--help"@ {
        Err(Outcome::Help)
    } else if takes_value(g.arg) {
        match g.value {
            Some(v) => with_value(d, g.arg, v),
            None => Err(Outcome::Invalid(value_missing(g.arg))),
        }
    } else if g.arg == "--keep"@ {
        Ok(Draft { keep: true, ..d })
    } else if g.arg == "--fsync"@ {
        Ok(Draft { fsync: true, ..d })
    } else if g.arg == "--no-prealloc"@ {
        Ok(Draft { no_prealloc: true, ..d })
    } else {
        Err(Outcome::Invalid(unknown_argument(debug_quoted(g.arg))))
    }
}

/// What the option groups `gs` come to, with the settings `d` read before them.
pub open spec fn read_groups(gs: Seq<Group>, d: Draft) -> Outcome
    decreases gs.len(),
{
    if gs.len() == 0 {
        finished(d)
    } else {
        match with_group(d, gs[0]) {
            Ok(next) => read_groups(gs.drop_first(), next),
            Err(o) => o,
        }
    }
}

/// Whether no option occurs twice.
pub open spec fn no_option_twice(gs: Seq<Group>) -> bool {
    forall|i: int, j: int|
        0 <= i < j < gs.len() ==> (#[trigger] gs[i]).arg != (#[trigger] gs[j]).arg
}

proof fn lemma_read_from_skips(argv: Seq<Seq<char>>, i: int, j: int, d: Draft)
    requires
        0 <= i <= argv.len(),
        0 <= j,
    ensures
        read_from(argv, i + j, d) == read_from(argv.skip(i), j, d),
    decreases argv.len() - i - j,
{
    let rest = argv.skip(i);
    if i + j < argv.len() {
        let arg = argv[i + j];
        assert(rest[j] == arg);
        if arg == "-h"@ || arg == "--help"@ {
        } else if takes_value(arg) {
            if i + j + 1 < argv.len() {
                assert(rest[j + 1] == argv[i + j + 1]);
                if let Ok(next) = with_value(d, arg, argv[i + j + 1]) {
                    lemma_read_from_skips(argv, i, j + 2, next);
                }
            }
        } else if arg == "--keep"@ {
            lemma_read_from_skips(argv, i, j + 1, Draft { keep: true, ..d });
        } else if arg == "--fsync"@ {
            lemma_read_from_skips(argv, i, j + 1, Draft { fsync: true, ..d });
        } else if arg == "--no-prealloc"@ {
            lemma_read_from_skips(argv, i, j + 1, Draft { no_prealloc: true, ..d });
        }
    }
}

/// A command line is read group by group.
pub proof fn law_command_line_is_read_by_groups(argv: Seq<Seq<char>>, d: Draft)
    ensures
        read_from(argv, 0, d) == read_groups(groups(argv), d),
    decreases argv.len(),
{
    if argv.len() > 0 {
        let gs = groups(argv);
        let n = first_len(argv);
        assert(gs.drop_first() =~= groups(argv.skip(n)));
        reveal(with_group);
        if let Ok(next) = with_group(d, gs[0]) {
            lemma_read_from_skips(argv, n, 0, next);
            law_command_line_is_read_by_groups(argv.skip(n), next);
        }
    }
}

/// An option group sets one setting, of its own, to a value that does not depend on the others.
proof fn lemma_group_sets_one_setting(d: Draft, e: Draft, g: Group)
    requires
        with_group(d, g) is Ok,
    ensures
        with_group(e, g) is Ok,
        ({
            let x = with_group(d, g)->Ok_0;
            let y = with_group(e, g)->Ok_0;
            ||| g.arg == "--path"@ && x == (Draft { path: y.path, ..d }) && y == (Draft {
                path: x.path,
                ..e
            })
            ||| g.arg == "--block-size"@ && x == (Draft { block_size: y.block_size, ..d }) && y == (
            Draft { block_size: x.block_size, ..e })
            ||| g.arg == "--queue-depth"@ && x == (Draft { queue_depth: y.queue_depth, ..d }) && y
                == (Draft { queue_depth: x.queue_depth, ..e })
            ||| g.arg == "--duration"@ && x == (Draft { duration: y.duration, ..d }) && y == (
            Draft { duration: x.duration, ..e })
            ||| g.arg == "--mode"@ && x == (Draft { mode: y.mode, ..d }) && y == (Draft {
                mode: x.mode,
                ..e
            })
            ||| g.arg == "--max-bytes"@ && x == (Draft { max_bytes: y.max_bytes, ..d }) && y == (
            Draft { max_bytes: x.max_bytes, ..e })
            ||| g.arg == "--keep"@ && x == (Draft { keep: y.keep, ..d }) && y == (Draft {
                keep: x.keep,
                ..e
            })
            ||| g.arg == "--fsync"@ && x == (Draft { fsync: y.fsync, ..d }) && y == (Draft {
                fsync: x.fsync,
                ..e
            })
            ||| g.arg == "--no-prealloc"@ && x == (Draft { no_prealloc: y.no_prealloc, ..d }) && y
                == (Draft { no_prealloc: x.no_prealloc, ..e })
        }),
{
    reveal(with_group);
}

/// A group that cannot be read never comes to a run.
proof fn lemma_bad_group_is_no_run(d: Draft, g: Group)
    ensures
        with_group(d, g) matches Err(o) ==> !(o is Run),
{
    reveal(with_group);
}

/// Two different options, with values or without, set the same settings in either order.
pub proof fn law_options_commute(d: Draft, a: Group, b: Group)
    requires
        a.arg != b.arg,
        with_group(d, a) is Ok,
        with_group(with_group(d, a)->Ok_0, b) is Ok,
    ensures
        with_group(d, b) is Ok,
        with_group(with_group(d, b)->Ok_0, a) == with_group(with_group(d, a)->Ok_0, b),
{
    let first = with_group(d, a)->Ok_0;
    lemma_group_sets_one_setting(first, d, b);
    lemma_group_sets_one_setting(d, with_group(d, b)->Ok_0, a);
}

/// The option groups with the `k`th moved to the front.
spec fn fronted(gs: Seq<Group>, k: int) -> Seq<Group> {
    seq![gs[k]] + gs.remove(k)
}

proof fn lemma_group_moves_to_the_front(gs: Seq<Group>, k: int, d: Draft)
    requires
        0 <= k < gs.len(),
        no_option_twice(gs),
        read_groups(gs, d) is Run,
    ensures
        read_groups(fronted(gs, k), d) == read_groups(gs, d),
    decreases k,
{
    if k == 0 {
        assert(fronted(gs, k) =~= gs);
    } else {
        let rest = gs.drop_first();
        let next = with_group(d, gs[0])->Ok_0;
        lemma_bad_group_is_no_run(d, gs[0]);
        lemma_bad_group_is_no_run(next, gs[k]);
        assert forall|i: int, j: int| 0 <= i < j < rest.len() implies (
        #[trigger] rest[i]).arg != (#[trigger] rest[j]).arg by {
            assert(rest[i] == gs[i + 1]);
            assert(rest[j] == gs[j + 1]);
        }
        lemma_group_moves_to_the_front(rest, k - 1, next);
        let inner = fronted(rest, k - 1);
        assert(inner[0] == gs[k]);
        assert(inner.drop_first() =~= rest.remove(k - 1));
        assert(with_group(next, gs[k]) is Ok);
        assert(gs[0].arg != gs[k].arg);
        law_options_commute(d, gs[0], gs[k]);
        let first = with_group(d, gs[k])->Ok_0;
        let moved = fronted(gs, k);
        assert(moved[0] == gs[k]);
        assert(moved.drop_first() =~= gs.remove(k));
        assert(gs.remove(k)[0] == gs[0]);
        assert(gs.remove(k).drop_first() =~= rest.remove(k - 1));
        let both = with_group(next, gs[k])->Ok_0;
        assert(read_groups(inner, next) == read_groups(rest.remove(k - 1), both));
        assert(read_groups(gs.remove(k), first) == read_groups(rest.remove(k - 1), both));
        assert(read_groups(moved, d) == read_groups(gs.remove(k), first));
    }
}

proof fn lemma_groups_in_any_order(gs: Seq<Group>, other: Seq<Group>, d: Draft)
    requires
        no_option_twice(gs),
        gs.to_multiset() == other.to_multiset(),
        read_groups(gs, d) is Run,
    ensures
        read_groups(other, d) == read_groups(gs, d),
    decreases gs.len(),
{
    broadcast use vstd::seq_lib::group_to_multiset_ensures;

    assert(gs.len() == gs.to_multiset().len());
    assert(other.len() == other.to_multiset().len());
    if gs.len() == 0 {
        assert(gs =~= other);
    } else {
        assert(other.contains(other[0]));
        assert(gs.to_multiset().contains(other[0]));
        let k = choose|k: int| 0 <= k < gs.len() && gs[k] == other[0];
        lemma_group_moves_to_the_front(gs, k, d);
        let moved = fronted(gs, k);
        let left = gs.remove(k);
        assert(moved[0] == gs[k]);
        assert(moved.drop_first() =~= left);
        let next = with_group(d, other[0])->Ok_0;
        lemma_bad_group_is_no_run(d, other[0]);
        assert(other.drop_first() =~= other.remove(0));
        assert(left.to_multiset() =~= other.drop_first().to_multiset());
        assert forall|i: int, j: int| 0 <= i < j < left.len() implies (
        #[trigger] left[i]).arg != (#[trigger] left[j]).arg by {
            let a = if i < k {
                i
            } else {
                i + 1
            };
            let b = if j < k {
                j
            } else {
                j + 1
            };
            assert(left[i] == gs[a]);
            assert(left[j] == gs[b]);
        }
        lemma_groups_in_any_order(left, other.drop_first(), next);
    }
}

/// The order of the options does not matter: a command line on which no option occurs twice,
/// and which comes to a run, comes to a run with the same settings with its option groups in
/// any other order.
pub proof fn law_order_of_options_does_not_matter(argv: Seq<Seq<char>>, other: Seq<Seq<char>>)
    requires
        command_line(argv) is Run,
        no_option_twice(groups(argv)),
        groups(argv).to_multiset() == groups(other).to_multiset(),
    ensures
        command_line(other) == command_line(argv),
{
    law_command_line_is_read_by_groups(argv, defaults());
    law_command_line_is_read_by_groups(other, defaults());
    lemma_groups_in_any_order(groups(argv), groups(other), defaults());
}

} // verus!
