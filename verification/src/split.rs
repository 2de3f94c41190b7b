//! Cutting text into pieces.

use crate::text::{chars_of, is_white_space, white_space};
use vstd::prelude::*;
use vstd::string::*;

verus! {

/// What a text is cut at.
#[derive(Clone, Copy, PartialEq, Eq, Debug, Structural)]
pub enum Separator {
    Slash,
    Newline,
    Space,
}

impl Separator {
    /// Whether the text is cut at `c`.
    pub open spec fn cuts(self, c: char) -> bool {
        match self {
            Separator::Slash => c == '/',
            Separator::Newline => c == '\n',
            Separator::Space => white_space(c),
        }
    }

    fn cuts_at(self, c: char) -> (r: bool)
        ensures
            r == self.cuts(c),
    {
        match self {
            Separator::Slash => c == '/',
            Separator::Newline => c == '\n',
            Separator::Space => is_white_space(c),
        }
    }
}

/// The pieces of `s` before, between and behind the separators. There is one more of them than
/// there are separators, and any of them may be empty.
pub open spec fn pieces(s: Seq<char>, by: Separator) -> Seq<Seq<char>>
    decreases s.len(),
{
    if s.len() == 0 {
        seq![Seq::<char>::empty()]
    } else {
        let before = pieces(s.drop_last(), by);
        if by.cuts(s.last()) {
            before.push(Seq::<char>::empty())
        } else {
            before.drop_last().push(before.last().push(s.last()))
        }
    }
}

/// The characters of each string.
pub open spec fn views(v: Seq<&str>) -> Seq<Seq<char>> {
    Seq::new(v.len(), |i: int| v[i]@)
}

/// Cuts `s` into its pieces.
pub fn split<'a>(s: &'a str, by: Separator) -> (r: Vec<&'a str>)
    ensures
        views(r@) == pieces(s@, by),
{
    let cs = chars_of(s);
    let mut out: Vec<&'a str> = Vec::new();
    let mut start: usize = 0;
    let mut i: usize = 0;
    assert(s@.take(0) =~= Seq::<char>::empty());
    assert(pieces(s@.take(0), by) =~= views(out@).push(s@.subrange(0, 0)));
    while i < cs.len()
        invariant
            cs@ == s@,
            start <= i <= cs.len(),
            pieces(s@.take(i as int), by) == views(out@).push(s@.subrange(start as int, i as int)),
        decreases cs.len() - i,
    {
        let ghost head = s@.take(i + 1);
        let ghost kept = views(out@);
        let ghost piece = s@.subrange(start as int, i as int);
        assert(head.drop_last() =~= s@.take(i as int));
        assert(head.last() == cs[i as int]);
        assert(kept.push(piece).drop_last() =~= kept);
        if by.cuts_at(cs[i]) {
            out.push(s.substring_char(start, i));
            start = i + 1;
            assert(views(out@) =~= kept.push(piece));
            assert(s@.subrange(i + 1, i + 1) =~= Seq::<char>::empty());
        } else {
            assert(s@.subrange(start as int, i + 1) =~= piece.push(cs[i as int]));
        }
        i += 1;
    }
    assert(s@.take(i as int) =~= s@);
    let ghost kept = views(out@);
    out.push(s.substring_char(start, i));
    assert(views(out@) =~= kept.push(s@.subrange(start as int, i as int)));
    out
}

pub(crate) proof fn lemma_pieces_nonempty(s: Seq<char>, by: Separator)
    ensures
        pieces(s, by).len() >= 1,
    decreases s.len(),
{
    if s.len() > 0 {
        lemma_pieces_nonempty(s.drop_last(), by);
    }
}

/// A line without the carriage return at its end, if it has one.
pub open spec fn without_return(line: Seq<char>) -> Seq<char> {
    if line.len() > 0 && line.last() == '\r' {
        line.drop_last()
    } else {
        line
    }
}

/// The lines of `s`. A newline, or a carriage return and a newline, ends a line, and the last
/// line may lack its newline.
pub open spec fn lines(s: Seq<char>) -> Seq<Seq<char>> {
    let p = pieces(s, Separator::Newline);
    let ended = p.drop_last().map_values(|line: Seq<char>| without_return(line));
    if p.last().len() == 0 {
        ended
    } else {
        ended.push(p.last())
    }
}

fn drop_return<'a>(line: &'a str) -> (r: &'a str)
    ensures
        r@ == without_return(line@),
{
    let n: usize = line.unicode_len();
    if n > 0 && line.get_char(n - 1) == '\r' {
        let r = line.substring_char(0, n - 1);
        assert(r@ =~= line@.drop_last());
        r
    } else {
        line
    }
}

/// Cuts `s` into lines.
pub fn split_lines<'a>(s: &'a str) -> (r: Vec<&'a str>)
    ensures
        views(r@) == lines(s@),
{
    let p = split(s, Separator::Newline);
    let ghost all = views(p@);
    proof {
        lemma_pieces_nonempty(s@, Separator::Newline);
        assert(all.len() == p.len());
    }
    let count: usize = p.len() - 1;
    let ghost ended = all.drop_last().map_values(|line: Seq<char>| without_return(line));
    let mut r: Vec<&'a str> = Vec::new();
    let mut i: usize = 0;
    while i < count
        invariant
            i <= count == p.len() - 1,
            all == views(p@),
            ended == all.drop_last().map_values(|line: Seq<char>| without_return(line)),
            views(r@) == ended.take(i as int),
        decreases count - i,
    {
        let ghost before = r@;
        assert(all.drop_last()[i as int] == p[i as int]@);
        r.push(drop_return(p[i]));
        assert(views(r@) =~= views(before).push(ended[i as int]));
        assert(ended.take(i + 1) =~= ended.take(i as int).push(ended[i as int]));
        i += 1;
    }
    assert(ended.take(i as int) =~= ended);
    let last = p[count];
    assert(all.last() == last@);
    if !last.is_empty() {
        let ghost before = r@;
        r.push(last);
        assert(views(r@) =~= views(before).push(last@));
    }
    r
}

/// The runs of characters between white space.
pub open spec fn words(s: Seq<char>) -> Seq<Seq<char>> {
    pieces(s, Separator::Space).filter(|w: Seq<char>| w.len() > 0)
}

/// Cuts `s` at white space, and keeps what is not empty.
pub fn split_words<'a>(s: &'a str) -> (r: Vec<&'a str>)
    ensures
        views(r@) == words(s@),
{
    let p = split(s, Separator::Space);
    let ghost all = views(p@);
    let ghost kept = |w: Seq<char>| w.len() > 0;
    let mut r: Vec<&'a str> = Vec::new();
    let mut i: usize = 0;
    assert(views(r@) =~= all.take(0).filter(kept));
    while i < p.len()
        invariant
            i <= p.len(),
            all == views(p@),
            kept == (|w: Seq<char>| w.len() > 0),
            views(r@) == all.take(i as int).filter(kept),
        decreases p.len() - i,
    {
        let ghost before = r@;
        let ghost head = all.take(i + 1);
        assert(head.drop_last() =~= all.take(i as int));
        assert(head.last() == p[i as int]@);
        reveal(Seq::filter);
        if !p[i].is_empty() {
            r.push(p[i]);
            assert(views(r@) =~= views(before).push(p[i as int]@));
        }
        i += 1;
    }
    assert(all.take(i as int) =~= all);
    r
}

/// What the separators are.
pub proof fn law_what_a_text_is_cut_at(c: char)
    ensures
        Separator::Slash.cuts(c) <==> c == '/',
        Separator::Newline.cuts(c) <==> c == '\n',
        Separator::Space.cuts(c) <==> white_space(c),
{
}

/// A text without a separator is one piece, and at a separator anywhere in a text the pieces
/// before it and those behind it part. So every piece is found, however many there are.
pub proof fn law_text_parts_at_each_separator(a: Seq<char>, c: char, b: Seq<char>, by: Separator)
    ensures
        (forall|i: int| 0 <= i < a.len() ==> !by.cuts(#[trigger] a[i])) ==> pieces(a, by) == seq![
            a,
        ],
        by.cuts(c) ==> pieces(a.push(c) + b, by) == pieces(a, by) + pieces(b, by),
{
    if forall|i: int| 0 <= i < a.len() ==> !by.cuts(#[trigger] a[i]) {
        lemma_one_piece(a, by);
    }
    if by.cuts(c) {
        lemma_pieces_part(a, c, b, by);
    }
}

proof fn lemma_one_piece(s: Seq<char>, by: Separator)
    requires
        forall|i: int| 0 <= i < s.len() ==> !by.cuts(#[trigger] s[i]),
    ensures
        pieces(s, by) == seq![s],
    decreases s.len(),
{
    if s.len() == 0 {
        assert(s =~= Seq::<char>::empty());
    } else {
        let t = s.drop_last();
        assert forall|i: int| 0 <= i < t.len() implies !by.cuts(#[trigger] t[i]) by {
            assert(t[i] == s[i]);
        }
        lemma_one_piece(t, by);
        assert(!by.cuts(s[s.len() - 1]));
        assert(t.push(s.last()) =~= s);
        assert(pieces(s, by) =~= seq![s]);
    }
}

proof fn lemma_pieces_part(a: Seq<char>, c: char, b: Seq<char>, by: Separator)
    requires
        by.cuts(c),
    ensures
        pieces(a.push(c) + b, by) == pieces(a, by) + pieces(b, by),
    decreases b.len(),
{
    let s = a.push(c) + b;
    if b.len() == 0 {
        assert(s =~= a.push(c));
        assert(s.drop_last() =~= a);
        assert(b =~= Seq::<char>::empty());
        assert(pieces(s, by) =~= pieces(a, by) + pieces(b, by));
    } else {
        let rest = b.drop_last();
        assert(s.drop_last() =~= a.push(c) + rest);
        assert(s.last() == b.last());
        lemma_pieces_part(a, c, rest, by);
        lemma_pieces_nonempty(rest, by);
        assert(pieces(s, by) =~= pieces(a, by) + pieces(b, by));
    }
}

/// Every line is found: the text up to a newline is the first line, without the carriage
/// return that may end it, and the lines of what is behind the newline follow. A text without a
/// newline is one line, or none where it is empty.
pub proof fn law_lines_end_at_each_newline(a: Seq<char>, b: Seq<char>)
    requires
        forall|i: int| 0 <= i < a.len() ==> #[trigger] a[i] != '\n',
    ensures
        lines(a) == (if a.len() == 0 {
            Seq::<Seq<char>>::empty()
        } else {
            seq![a]
        }),
        lines(a.push('\n') + b) == seq![
            if a.len() > 0 && a.last() == '\r' {
                a.drop_last()
            } else {
                a
            },
        ] + lines(b),
{
    let by = Separator::Newline;
    law_text_parts_at_each_separator(a, '\n', b, by);
    lemma_pieces_nonempty(b, by);
    assert(lines(a) =~= (if a.len() == 0 {
        Seq::<Seq<char>>::empty()
    } else {
        seq![a]
    }));
    let p = pieces(b, by);
    let f = |line: Seq<char>| without_return(line);
    let all = seq![a] + p;
    assert(all.drop_last() =~= seq![a] + p.drop_last());
    assert(all.drop_last().map_values(f) =~= seq![without_return(a)] + p.drop_last().map_values(f));
    assert(lines(a.push('\n') + b) =~= seq![without_return(a)] + lines(b));
}

/// Every word is found: the words before white space anywhere in a text and those behind it
/// are the words of the text. A text without white space is one word, or none where it is
/// empty.
pub proof fn law_words_end_at_white_space(a: Seq<char>, c: char, b: Seq<char>)
    ensures
        (forall|i: int| 0 <= i < a.len() ==> !white_space(#[trigger] a[i])) ==> words(a) == (
        if a.len() == 0 {
            Seq::<Seq<char>>::empty()
        } else {
            seq![a]
        }),
        white_space(c) ==> words(a.push(c) + b) == words(a) + words(b),
{
    let by = Separator::Space;
    let kept = |w: Seq<char>| w.len() > 0;
    law_text_parts_at_each_separator(a, c, b, by);
    if forall|i: int| 0 <= i < a.len() ==> !white_space(#[trigger] a[i]) {
        assert forall|i: int| 0 <= i < a.len() implies !by.cuts(#[trigger] a[i]) by {
            assert(!white_space(a[i]));
        }
        reveal(Seq::filter);
        let one = seq![a];
        assert(one.drop_last() =~= Seq::<Seq<char>>::empty());
        assert(one.drop_last().filter(kept) =~= Seq::<Seq<char>>::empty());
        assert(one.filter(kept) =~= (if a.len() == 0 {
            Seq::<Seq<char>>::empty()
        } else {
            seq![a]
        }));
    }
    if white_space(c) {
        Seq::filter_distributes_over_add(pieces(a, by), pieces(b, by), kept);
    }
}

/// The texts of some strings are those of each of them, in order.
pub proof fn law_views_are_of_each_string(v: Seq<&str>, i: int)
    ensures
        views(v).len() == v.len(),
        0 <= i < v.len() ==> views(v)[i] == v[i]@,
{
}

} // verus!
