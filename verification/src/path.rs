//! Unix paths, compared component by component.

use crate::split::{
    law_text_parts_at_each_separator, lemma_pieces_nonempty, pieces, split, views, Separator,
};
use crate::text::same;
use vstd::prelude::*;
use vstd::string::*;

verus! {

/// Whether a piece of a path between slashes names something: an empty piece and a dot do not.
pub open spec fn is_name(piece: Seq<char>) -> bool {
    piece.len() > 0 && piece != "."@
}

/// The components of the path `p`: a slash where it starts with one, a dot where its first
/// piece is a dot, then the names between the slashes.
pub open spec fn components(p: Seq<char>) -> Seq<Seq<char>> {
    let parts = pieces(p, Separator::Slash);
    let head = if p.len() > 0 && p[0] == '/' {
        seq!["/"@]
    } else if parts[0] == "."@ {
        seq!["."@]
    } else {
        Seq::<Seq<char>>::empty()
    };
    head + parts.filter(|piece: Seq<char>| is_name(piece))
}

/// Whether the components of `base` are the first components of `p`.
pub open spec fn starts_with(p: Seq<char>, base: Seq<char>) -> bool {
    components(base).is_prefix_of(components(p))
}

fn split_components<'a>(p: &'a str) -> (r: Vec<&'a str>)
    ensures
        views(r@) == components(p@),
{
    let parts = split(p, Separator::Slash);
    proof {
        lemma_pieces_nonempty(p@, Separator::Slash);
        assert(views(parts@).len() == parts.len());
    }
    let ghost all = views(parts@);
    let ghost kept = |piece: Seq<char>| is_name(piece);
    let mut r: Vec<&'a str> = Vec::new();
    assert(all[0] == parts[0]@);
    if !p.is_empty() && p.get_char(0) == '/' {
        r.push("/");
    } else if same(parts[0], ".") {
        r.push(".");
    }
    let ghost head = views(r@);
    proof {
        let expected = if p@.len() > 0 && p@[0] == '/' {
            seq!["/"@]
        } else if all[0] == "."@ {
            seq!["."@]
        } else {
            Seq::<Seq<char>>::empty()
        };
        assert(head =~= expected);
        assert(all.take(0).filter(kept) =~= Seq::<Seq<char>>::empty());
        assert(views(r@) =~= head + all.take(0).filter(kept));
    }
    let mut i: usize = 0;
    while i < parts.len()
        invariant
            i <= parts.len(),
            all == views(parts@),
            kept == (|piece: Seq<char>| is_name(piece)),
            views(r@) == head + all.take(i as int).filter(kept),
        decreases parts.len() - i,
    {
        let ghost before = r@;
        let ghost upto = all.take(i + 1);
        assert(upto.drop_last() =~= all.take(i as int));
        assert(upto.last() == parts[i as int]@);
        reveal(Seq::filter);
        if !parts[i].is_empty() && !same(parts[i], ".") {
            r.push(parts[i]);
            assert(views(r@) =~= views(before).push(parts[i as int]@));
            assert(views(r@) =~= head + upto.filter(kept));
        }
        i += 1;
    }
    assert(all.take(i as int) =~= all);
    r
}

/// Whether `base` is a prefix of `p`. Only whole components match.
pub fn path_starts_with(p: &str, base: &str) -> (r: bool)
    ensures
        r == starts_with(p@, base@),
{
    let long = split_components(p);
    let short = split_components(base);
    proof {
        assert(views(long@).len() == long.len());
        assert(views(short@).len() == short.len());
    }
    if short.len() > long.len() {
        return false;
    }
    let mut i: usize = 0;
    while i < short.len()
        invariant
            i <= short.len() <= long.len(),
            views(long@) == components(p@),
            views(short@) == components(base@),
            forall|j: int| 0 <= j < i ==> views(short@)[j] == views(long@)[j],
        decreases short.len() - i,
    {
        assert(views(short@)[i as int] == short[i as int]@);
        assert(views(long@)[i as int] == long[i as int]@);
        if !same(short[i], long[i]) {
            assert(components(base@)[i as int] != components(p@)[i as int]);
            return false;
        }
        i += 1;
    }
    assert(components(base@) =~= components(p@).take(short.len() as int));
    true
}

/// Every path is a prefix of itself, and a prefix of a prefix is a prefix.
pub proof fn law_prefixes_are_ordered(a: Seq<char>, b: Seq<char>, c: Seq<char>)
    ensures
        starts_with(a, a),
        starts_with(a, b) && starts_with(b, c) ==> starts_with(a, c),
{
    let x = components(a);
    let y = components(b);
    let z = components(c);
    assert(x.is_prefix_of(x));
    if starts_with(a, b) && starts_with(b, c) {
        assert forall|i: int| 0 <= i < z.len() implies z[i] == x[i] by {
            assert(z[i] == y[i]);
            assert(y[i] == x[i]);
        }
        assert(z =~= x.subrange(0, z.len() as int));
    }
}

/// The root is a prefix of every absolute path, and of no relative path.
pub proof fn law_root_is_above_absolute_paths(p: Seq<char>)
    ensures
        starts_with(p, "/"@) <==> p.len() > 0 && p[0] == '/',
{
    let root = "/"@;
    reveal_strlit("/");
    reveal_strlit(".");
    reveal(Seq::filter);
    assert(root.drop_last() =~= Seq::<char>::empty());
    let parts = pieces(root, Separator::Slash);
    reveal_with_fuel(pieces, 2);
    assert(parts =~= seq![Seq::<char>::empty(), Seq::<char>::empty()]);
    let kept = |piece: Seq<char>| is_name(piece);
    reveal_with_fuel(Seq::filter, 3);
    assert(parts.drop_last() =~= seq![Seq::<char>::empty()]);
    assert(parts.drop_last().drop_last() =~= Seq::<Seq<char>>::empty());
    assert(parts.filter(kept) =~= Seq::<Seq<char>>::empty());
    assert(components(root) =~= seq![root]);
    let c = components(p);
    if p.len() > 0 && p[0] == '/' {
        assert(c[0] == root);
        assert(components(root) =~= c.subrange(0, 1));
    } else if starts_with(p, root) {
        assert(components(root)[0] == c.subrange(0, 1)[0]);
        assert(c[0] == root);
        let all = pieces(p, Separator::Slash);
        if all[0] == "."@ {
            assert(c[0] == "."@);
            assert("."@[0] == '.');
            assert(root[0] == '/');
        } else {
            assert(c =~= all.filter(kept));
            all.lemma_filter_contains_rev(kept, root);
            let i = choose|i: int| 0 <= i < all.len() && all[i] == root;
            lemma_no_slash_in_pieces(p, i);
            assert(root[0] == '/');
        }
    }
}

proof fn lemma_no_slash_in_pieces(s: Seq<char>, i: int)
    requires
        0 <= i < pieces(s, Separator::Slash).len(),
    ensures
        forall|j: int|
            0 <= j < pieces(s, Separator::Slash)[i].len() ==> #[trigger] pieces(
                s,
                Separator::Slash,
            )[i][j] != '/',
    decreases s.len(),
{
    if s.len() > 0 {
        lemma_pieces_nonempty(s.drop_last(), Separator::Slash);
        let before = pieces(s.drop_last(), Separator::Slash);
        if i < before.len() {
            lemma_no_slash_in_pieces(s.drop_last(), i);
        }
    }
}

/// The length of the shortest prefix of `p`, from `k` characters on, whose components are
/// `wanted`.
pub open spec fn prefix_len(p: Seq<char>, wanted: Seq<Seq<char>>, k: int) -> Option<int>
    decreases p.len() + 1 - k,
{
    if k < 0 || k > p.len() {
        None
    } else if components(p.take(k)) == wanted {
        Some(k)
    } else {
        prefix_len(p, wanted, k + 1)
    }
}

/// Whether the path `p` has a parent: it is not empty, and does not end at the root.
pub open spec fn has_parent(p: Seq<char>) -> bool {
    components(p).len() > 0 && components(p).last() != "/"@
}

/// The path `p` without its last component, and without what separates it from the others.
pub open spec fn parent_path(p: Seq<char>) -> Option<Seq<char>> {
    if has_parent(p) {
        match prefix_len(p, components(p).drop_last(), 0) {
            Some(k) => Some(p.take(k)),
            None => None,
        }
    } else {
        None
    }
}

fn has_components(p: &str, wanted: &Vec<&str>, count: usize) -> (r: bool)
    requires
        count <= wanted.len(),
    ensures
        r == (components(p@) == views(wanted@).take(count as int)),
{
    let c = split_components(p);
    let ghost all = views(wanted@);
    proof {
        assert(views(c@).len() == c.len());
        assert(all.len() == wanted.len());
    }
    if c.len() != count {
        assert(components(p@).len() != all.take(count as int).len());
        return false;
    }
    let mut i: usize = 0;
    while i < count
        invariant
            i <= count == c.len(),
            count <= wanted.len(),
            all == views(wanted@),
            views(c@) == components(p@),
            forall|j: int| 0 <= j < i ==> views(c@)[j] == all[j],
        decreases count - i,
    {
        assert(views(c@)[i as int] == c[i as int]@);
        assert(all[i as int] == wanted[i as int]@);
        if !same(c[i], wanted[i]) {
            assert(components(p@)[i as int] != all.take(count as int)[i as int]);
            return false;
        }
        i += 1;
    }
    assert(components(p@) =~= all.take(count as int));
    true
}

/// The path without its last component, if it has one.
pub fn parent<'a>(p: &'a str) -> (r: Option<&'a str>)
    ensures
        match r {
            Some(d) => parent_path(p@) == Some(d@),
            None => parent_path(p@) is None,
        },
        r is Some <==> has_parent(p@),
{
    let c = split_components(p);
    let count: usize = c.len();
    proof {
        assert(views(c@).len() == c.len());
        assert(count > 0 ==> views(c@).last() == c[count - 1]@);
    }
    if count == 0 || same(c[count - 1], "/") {
        return None;
    }
    let ghost wanted = components(p@).drop_last();
    assert(wanted =~= views(c@).take(count - 1));
    let len: usize = p.unicode_len();
    let mut k: usize = 0;
    while k < len
        invariant
            k <= len == p@.len(),
            c.len() == count > 0,
            wanted == views(c@).take(count - 1),
            wanted == components(p@).drop_last(),
            has_parent(p@),
            prefix_len(p@, wanted, 0) == prefix_len(p@, wanted, k as int),
        decreases len - k,
    {
        let d = p.substring_char(0, k);
        assert(d@ =~= p@.take(k as int));
        if has_components(d, &c, count - 1) {
            return Some(d);
        }
        k += 1;
    }
    proof {
        let j = lemma_parent_prefix(p@);
        lemma_prefix_is_found(p@, wanted, 0, j);
        assert(p@.take(len as int) =~= p@);
        assert(components(p@).len() != wanted.len());
        assert(prefix_len(p@, wanted, len + 1) is None);
    }
    None
}

proof fn lemma_prefix_is_found(p: Seq<char>, wanted: Seq<Seq<char>>, k: int, j: int)
    requires
        0 <= k <= j <= p.len(),
        components(p.take(j)) == wanted,
    ensures
        prefix_len(p, wanted, k) matches Some(n) && k <= n <= j && components(p.take(n)) == wanted,
    decreases j - k,
{
    if components(p.take(k)) != wanted {
        lemma_prefix_is_found(p, wanted, k + 1, j);
    }
}

proof fn lemma_single_piece(s: Seq<char>)
    requires
        pieces(s, Separator::Slash).len() == 1,
    ensures
        pieces(s, Separator::Slash)[0] == s,
    decreases s.len(),
{
    if s.len() > 0 {
        lemma_pieces_nonempty(s.drop_last(), Separator::Slash);
        lemma_single_piece(s.drop_last());
        assert(pieces(s, Separator::Slash)[0] =~= s);
    }
}

/// One more character leaves the components as they are, adds one, or changes the last one.
proof fn lemma_one_more_character(p: Seq<char>)
    requires
        p.len() > 0,
    ensures
        ({
            let before = components(p.drop_last());
            let now = components(p);
            ||| now == before
            ||| now.len() > 0 && now.drop_last() == before
            ||| now.len() > 0 && before.len() > 0 && before.last() != "/"@ && now.drop_last()
                == before.drop_last()
        }),
{
    let q = p.drop_last();
    let c = p.last();
    let b = pieces(q, Separator::Slash);
    let a = pieces(p, Separator::Slash);
    let kept = |piece: Seq<char>| is_name(piece);
    let before = components(q);
    let now = components(p);
    lemma_pieces_nonempty(q, Separator::Slash);
    reveal(Seq::filter);
    reveal_strlit(".");
    reveal_strlit("/");
    assert("/"@[0] == '/');
    if c == '/' {
        assert(a.drop_last() =~= b);
        assert(a.filter(kept) =~= b.filter(kept));
        if q.len() == 0 {
            assert(b.drop_last() =~= Seq::<Seq<char>>::empty());
            assert(b.drop_last().filter(kept) =~= Seq::<Seq<char>>::empty());
            assert(b.filter(kept) =~= Seq::<Seq<char>>::empty());
            assert(now.drop_last() =~= before);
        } else {
            assert(a[0] == b[0]);
            assert(p[0] == q[0]);
        }
    } else {
        let l = b.last();
        let x = l.push(c);
        let base = b.drop_last().filter(kept);
        assert(a.drop_last() =~= b.drop_last());
        assert(a.filter(kept) == (if is_name(x) {
            base.push(x)
        } else {
            base
        }));
        assert(b.filter(kept) == (if is_name(l) {
            base.push(l)
        } else {
            base
        }));
        lemma_no_slash_in_pieces(q, b.len() - 1);
        assert(is_name(l) ==> l != "/"@) by {
            if is_name(l) {
                assert(l[0] != '/');
            }
        }
        if b.len() > 1 {
            assert(a[0] == b[0]);
            assert(q.len() > 0);
            assert(p[0] == q[0]);
            let h = now.take(now.len() - a.filter(kept).len());
            assert(now =~= h + a.filter(kept));
            assert(before =~= h + b.filter(kept));
            if is_name(x) {
                assert(now =~= (h + base).push(x));
                assert(now.drop_last() =~= h + base);
                if is_name(l) {
                    assert(before =~= (h + base).push(l));
                    assert(before.drop_last() =~= h + base);
                    assert(before.last() == l);
                } else {
                    assert(before =~= h + base);
                }
            } else {
                assert(x == "."@);
                assert(l.len() == 0);
            }
        } else {
            lemma_single_piece(q);
            assert(l == q);
            assert(x =~= p);
            assert(base =~= Seq::<Seq<char>>::empty());
            assert(p[0] != '/') by {
                if q.len() > 0 {
                    assert(l[0] != '/');
                }
            }
            assert(a[0] == p);
            assert(now.len() == 1);
            assert(now.drop_last() =~= Seq::<Seq<char>>::empty());
            if q.len() == 0 {
                assert(before =~= Seq::<Seq<char>>::empty());
            } else {
                assert(q[0] == l[0]);
                assert(before.len() == 1);
                assert(before.drop_last() =~= Seq::<Seq<char>>::empty());
                if q == "."@ {
                    assert(before.last() == "."@);
                    assert("."@[0] != "/"@[0]);
                } else {
                    assert(before.last() == q);
                }
            }
        }
    }
}

/// Some prefix of a path with a parent has its components but the last.
proof fn lemma_parent_prefix(p: Seq<char>) -> (k: int)
    requires
        has_parent(p),
    ensures
        0 <= k <= p.len(),
        components(p.take(k)) == components(p).drop_last(),
    decreases p.len(),
{
    if p.len() == 0 {
        let parts = pieces(p, Separator::Slash);
        let kept = |piece: Seq<char>| is_name(piece);
        reveal(Seq::filter);
        reveal_strlit(".");
        assert("."@.len() == 1);
        assert(parts.drop_last() =~= Seq::<Seq<char>>::empty());
        assert(parts.drop_last().filter(kept) =~= Seq::<Seq<char>>::empty());
        assert(parts.filter(kept) =~= Seq::<Seq<char>>::empty());
        assert(components(p).len() == 0);
        0
    } else {
        let q = p.drop_last();
        lemma_one_more_character(p);
        if components(p) != components(q) && components(p).drop_last() == components(q) {
            assert(p.take(q.len() as int) =~= q);
            q.len() as int
        } else {
            let k = lemma_parent_prefix(q);
            assert(p.take(k) =~= q.take(k));
            k
        }
    }
}

proof fn lemma_no_slash_is_one_piece(s: Seq<char>)
    requires
        !s.contains('/'),
    ensures
        pieces(s, Separator::Slash).len() == 1,
    decreases s.len(),
{
    if s.len() > 0 {
        assert(s[s.len() - 1] != '/');
        assert forall|i: int| 0 <= i < s.len() - 1 implies s.drop_last()[i] != '/' by {
            assert(s[i] != '/');
        }
        lemma_no_slash_is_one_piece(s.drop_last());
    }
}

pub(crate) proof fn lemma_bare_name_has_empty_parent(p: Seq<char>)
    requires
        p.len() > 0,
        !p.contains('/'),
    ensures
        parent_path(p) == Some(Seq::<char>::empty()),
{
    let parts = pieces(p, Separator::Slash);
    let kept = |piece: Seq<char>| is_name(piece);
    lemma_no_slash_is_one_piece(p);
    lemma_single_piece(p);
    reveal(Seq::filter);
    reveal_strlit(".");
    reveal_strlit("/");
    assert("/"@[0] == '/');
    assert(p[0] != '/');
    assert(parts.drop_last() =~= Seq::<Seq<char>>::empty());
    assert(parts.drop_last().filter(kept) =~= Seq::<Seq<char>>::empty());
    assert(components(p) =~= seq![p]);
    let none = Seq::<char>::empty();
    let no_parts = pieces(none, Separator::Slash);
    assert(no_parts.drop_last() =~= Seq::<Seq<char>>::empty());
    assert(no_parts.drop_last().filter(kept) =~= Seq::<Seq<char>>::empty());
    assert(no_parts.filter(kept) =~= Seq::<Seq<char>>::empty());
    assert(components(none) =~= Seq::<Seq<char>>::empty());
    assert(components(p).drop_last() =~= components(none));
    assert(p.take(0) =~= none);
    assert(prefix_len(p, components(p).drop_last(), 0) == Some(0int));
}

/// A path with a parent is its parent and one more component.
pub proof fn law_parent_drops_the_last_component(p: Seq<char>)
    ensures
        parent_path(p) is Some <==> has_parent(p),
        parent_path(p) matches Some(d) ==> components(d) == components(p).drop_last()
            && starts_with(p, d),
{
    if has_parent(p) {
        let j = lemma_parent_prefix(p);
        lemma_prefix_is_found(p, components(p).drop_last(), 0, j);
        let d = parent_path(p)->0;
        assert(components(d) =~= components(p).subrange(0, components(d).len() as int));
    }
}

/// What the components of a path are, from its last piece on. A path without a slash is one
/// component, unless it is empty. A slash at the start is a component. Behind a slash, an empty
/// piece and a dot add nothing, and any other piece is one more component, however many there
/// are before it.
pub proof fn law_components_are_what_slashes_separate(p: Seq<char>, q: Seq<char>)
    requires
        forall|i: int| 0 <= i < q.len() ==> #[trigger] q[i] != '/',
    ensures
        components(q) == (if q.len() == 0 {
            Seq::<Seq<char>>::empty()
        } else {
            seq![q]
        }),
        components(p.push('/') + q) == (if p.len() == 0 {
            seq!["/"@]
        } else {
            components(p)
        }) + (if q.len() == 0 || q == "."@ {
            Seq::<Seq<char>>::empty()
        } else {
            seq![q]
        }),
{
    let by = Separator::Slash;
    let kept = |piece: Seq<char>| is_name(piece);
    let none = Seq::<Seq<char>>::empty();
    law_text_parts_at_each_separator(q, '/', p, by);
    assert(pieces(q, by) == seq![q]);
    reveal(Seq::filter);
    reveal_strlit(".");
    let one = seq![q];
    assert(one.drop_last() =~= none);
    assert(one.drop_last().filter(kept) =~= none);
    assert(one.filter(kept) =~= (if is_name(q) {
        seq![q]
    } else {
        none
    }));
    assert(components(q) =~= (if q.len() == 0 {
        none
    } else {
        seq![q]
    }));
    law_text_parts_at_each_separator(p, '/', q, by);
    lemma_pieces_nonempty(p, by);
    let s = p.push('/') + q;
    assert(pieces(s, by) == pieces(p, by) + one);
    Seq::filter_distributes_over_add(pieces(p, by), one, kept);
    if p.len() == 0 {
        assert(p =~= Seq::<char>::empty());
        assert(s[0] == '/');
        let empty = seq![Seq::<char>::empty()];
        assert(pieces(p, by) == empty);
        assert(empty.drop_last() =~= none);
        assert(empty.drop_last().filter(kept) =~= none);
        assert(empty.filter(kept) =~= none);
        assert(components(s) =~= seq!["/"@] + one.filter(kept));
    } else {
        assert(s[0] == p[0]);
        assert(pieces(s, by)[0] == pieces(p, by)[0]);
        assert(components(s) =~= components(p) + one.filter(kept));
    }
}

/// One path is a prefix of another exactly where each of its components is there, in the same
/// place; and a path is a prefix of whatever is put behind it after a slash.
pub proof fn law_prefix_compares_every_component(p: Seq<char>, base: Seq<char>, name: Seq<char>)
    ensures
        starts_with(p, base) <==> {
            &&& components(base).len() <= components(p).len()
            &&& forall|i: int|
                0 <= i < components(base).len() ==> #[trigger] components(base)[i]
                    == components(p)[i]
        },
        p.len() > 0 && (forall|i: int| 0 <= i < name.len() ==> #[trigger] name[i] != '/')
            ==> starts_with(p.push('/') + name, p),
{
    let x = components(base);
    let y = components(p);
    if starts_with(p, base) {
        assert forall|i: int| 0 <= i < x.len() implies #[trigger] x[i] == y[i] by {
            assert(x[i] == y.subrange(0, x.len() as int)[i]);
        }
    }
    if x.len() <= y.len() && forall|i: int| 0 <= i < x.len() ==> #[trigger] x[i] == y[i] {
        assert(x =~= y.subrange(0, x.len() as int));
    }
    if p.len() > 0 && forall|i: int| 0 <= i < name.len() ==> #[trigger] name[i] != '/' {
        law_components_are_what_slashes_separate(p, name);
        let z = components(p.push('/') + name);
        assert(y =~= z.subrange(0, y.len() as int));
    }
}

/// A path has a parent unless it is empty or ends at the root, and the parent is the shortest
/// prefix, character by character, with all components but the last.
pub proof fn law_parent_is_the_shortest_such_prefix(p: Seq<char>, j: int)
    ensures
        parent_path(p) is Some <==> components(p).len() > 0 && components(p).last() != "/"@,
        parent_path(p) matches Some(d) ==> {
            &&& d.len() <= p.len()
            &&& d == p.take(d.len() as int)
            &&& components(d) == components(p).drop_last()
            &&& 0 <= j < d.len() ==> components(p.take(j)) != components(p).drop_last()
        },
{
    law_parent_drops_the_last_component(p);
    if has_parent(p) {
        let wanted = components(p).drop_last();
        let i = lemma_parent_prefix(p);
        lemma_prefix_is_found(p, wanted, 0, i);
        let n = prefix_len(p, wanted, 0)->0;
        assert(p.take(n).len() == n);
        if 0 <= j < n && components(p.take(j)) == wanted {
            lemma_prefix_is_found(p, wanted, 0, j);
        }
    }
}

} // verus!
