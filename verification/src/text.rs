//! Text as sequences of characters: splitting at a separator, comparing, and
//! telling the characters that a device's name starts with.

use vstd::prelude::*;
use vstd::std_specs::iter::IteratorSpec;

verus! {

/// The pieces of `s` between the occurrences of `sep`, in order. There is
/// always at least one piece; a piece may be empty.
pub open spec fn split(s: Seq<char>, sep: char) -> Seq<Seq<char>>
    decreases s.len(),
{
    if s.len() == 0 {
        seq![Seq::empty()]
    } else {
        let before = split(s.drop_last(), sep);
        if s.last() == sep {
            before.push(Seq::empty())
        } else {
            before.drop_last().push(before.last().push(s.last()))
        }
    }
}

/// The pieces put together again, with `sep` between each two.
pub open spec fn join(pieces: Seq<Seq<char>>, sep: char) -> Seq<char>
    decreases pieces.len(),
{
    if pieces.len() == 0 {
        Seq::empty()
    } else if pieces.len() == 1 {
        pieces[0]
    } else {
        join(pieces.drop_last(), sep).push(sep) + pieces.last()
    }
}

/// Whether no piece holds `sep`.
pub open spec fn free_of(pieces: Seq<Seq<char>>, sep: char) -> bool {
    forall|i: int| 0 <= i < pieces.len() ==> !(#[trigger] pieces[i]).contains(sep)
}

/// Splitting gives at least one piece, and no piece holds the separator.
pub proof fn lemma_split_pieces(s: Seq<char>, sep: char)
    ensures
        split(s, sep).len() >= 1,
        free_of(split(s, sep), sep),
    decreases s.len(),
{
    if s.len() > 0 {
        lemma_split_pieces(s.drop_last(), sep);
        let before = split(s.drop_last(), sep);
        if s.last() != sep {
            let grown = before.last().push(s.last());
            assert(!grown.contains(sep)) by {
                vstd::seq_lib::lemma_seq_contains_after_push(before.last(), s.last(), sep);
            }
        }
    }
}

/// The pieces of a text, joined, are the text.
pub proof fn lemma_join_split(s: Seq<char>, sep: char)
    ensures
        join(split(s, sep), sep) == s,
    decreases s.len(),
{
    if s.len() > 0 {
        let front = s.drop_last();
        lemma_join_split(front, sep);
        lemma_split_pieces(front, sep);
        let before = split(front, sep);
        let now = split(s, sep);
        assert(s =~= front.push(s.last()));
        if s.last() == sep {
            assert(now.drop_last() =~= before);
            assert(join(now, sep) =~= join(before, sep).push(sep));
        } else if before.len() == 1 {
            assert(join(now, sep) =~= join(before, sep).push(s.last()));
        } else {
            assert(now.drop_last() =~= before.drop_last());
            assert(join(now, sep) =~= join(before, sep).push(s.last()));
        }
    }
}

/// Text that holds no separator, put behind another text, lengthens the last
/// piece of that text.
proof fn lemma_split_append(s: Seq<char>, tail: Seq<char>, sep: char)
    requires
        !tail.contains(sep),
    ensures
        split(s + tail, sep) == split(s, sep).drop_last().push(split(s, sep).last() + tail),
    decreases tail.len(),
{
    lemma_split_pieces(s, sep);
    let pieces = split(s, sep);
    if tail.len() == 0 {
        assert(s + tail =~= s);
        assert(pieces.last() + tail =~= pieces.last());
        assert(pieces.drop_last().push(pieces.last()) =~= pieces);
    } else {
        let front = tail.drop_last();
        assert(!front.contains(sep)) by {
            if front.contains(sep) {
                let i = choose|i: int| 0 <= i < front.len() && front[i] == sep;
                assert(tail[i] == sep);
            }
        }
        assert(tail.last() != sep) by {
            assert(tail[tail.len() - 1] == tail.last());
        }
        lemma_split_append(s, front, sep);
        assert((s + tail).drop_last() =~= s + front);
        assert((pieces.last() + front).push(tail.last()) =~= pieces.last() + tail);
        assert(pieces.drop_last().push(pieces.last() + front).drop_last() =~= pieces.drop_last());
    }
}

/// Pieces that hold no separator, joined and split again, are the same
/// pieces: so `split` is the only way to take a text apart into such pieces.
pub proof fn lemma_split_join(pieces: Seq<Seq<char>>, sep: char)
    requires
        pieces.len() >= 1,
        free_of(pieces, sep),
    ensures
        split(join(pieces, sep), sep) == pieces,
    decreases pieces.len(),
{
    let last = pieces.last();
    assert(!last.contains(sep)) by {
        assert(pieces[pieces.len() - 1] == last);
    }
    if pieces.len() == 1 {
        lemma_split_append(Seq::empty(), last, sep);
        assert(Seq::<char>::empty() + last =~= last);
        assert(split(Seq::empty(), sep).drop_last().push(Seq::<char>::empty() + last) =~= pieces);
    } else {
        let front = pieces.drop_last();
        assert(free_of(front, sep)) by {
            assert forall|i: int| 0 <= i < front.len() implies !(#[trigger] front[i]).contains(
                sep,
            ) by {
                assert(front[i] == pieces[i]);
            }
        }
        lemma_split_join(front, sep);
        let head = join(front, sep).push(sep);
        assert(head.drop_last() =~= join(front, sep));
        assert(split(head, sep) == front.push(Seq::empty()));
        lemma_split_append(head, last, sep);
        assert(Seq::<char>::empty() + last =~= last);
        assert(front.push(Seq::empty()).drop_last().push(last) =~= pieces);
    }
}

/// The texts that the string slices of `v` hold.
pub open spec fn texts(v: Seq<&str>) -> Seq<Seq<char>> {
    v.map_values(|t: &str| t@)
}

/// Splitting the text before `i` and then the character at `i`: a separator
/// opens a new, empty piece, and any other character joins the last piece.
proof fn lemma_split_step(s: Seq<char>, sep: char, i: int, done: Seq<Seq<char>>, start: int)
    requires
        0 <= start <= i < s.len(),
        split(s.take(i), sep) == done.push(s.subrange(start, i)),
    ensures
        s[i] == sep ==> split(s.take(i + 1), sep) == done.push(s.subrange(start, i)).push(
            s.subrange(i + 1, i + 1),
        ),
        s[i] != sep ==> split(s.take(i + 1), sep) == done.push(s.subrange(start, i + 1)),
{
    let upto = s.take(i + 1);
    assert(upto.drop_last() =~= s.take(i));
    assert(upto.last() == s[i]);
    let before = split(s.take(i), sep);
    if s[i] == sep {
        assert(s.subrange(i + 1, i + 1) =~= Seq::<char>::empty());
    } else {
        assert(before.drop_last() =~= done);
        assert(before.last().push(s[i]) =~= s.subrange(start, i + 1));
    }
}

/// Splits `s` at every `sep`.
pub fn pieces<'a>(s: &'a str, sep: char) -> (out: Vec<&'a str>)
    ensures
        texts(out@) == split(s@, sep),
{
    let n = s.unicode_len();
    let mut out: Vec<&'a str> = Vec::new();
    let mut start: usize = 0;
    let mut i: usize = 0;
    proof {
        assert(s@.take(0) =~= Seq::<char>::empty());
        assert(texts(out@).push(s@.subrange(0, 0)) =~= seq![Seq::<char>::empty()]);
    }
    for c in it: s.chars()
        invariant
            it.seq() == s@,
            n == s@.len(),
            i == it.index(),
            start <= i,
            split(s@.take(i as int), sep) == texts(out@).push(s@.subrange(start as int, i as int)),
    {
        proof {
            lemma_split_step(s@, sep, i as int, texts(out@), start as int);
        }
        if c == sep {
            let piece = s.substring_char(start, i);
            proof {
                assert(texts(out@.push(piece)) =~= texts(out@).push(piece@));
            }
            out.push(piece);
            start = i + 1;
        }
        i = i + 1;
    }
    let piece = s.substring_char(start, i);
    proof {
        assert(texts(out@.push(piece)) =~= texts(out@).push(piece@));
        assert(s@.take(i as int) =~= s@);
    }
    out.push(piece);
    out
}

/// Whether `a` and `b` hold the same text.
pub fn same_text(a: &str, b: &str) -> (same: bool)
    ensures
        same == (a@ == b@),
{
    let mut left = a.chars();
    let mut right = b.chars();
    let ghost mut k: int = 0;
    loop
        invariant
            0 <= k <= a@.len(),
            k <= b@.len(),
            left.remaining() == a@.skip(k),
            right.remaining() == b@.skip(k),
            a@.take(k) == b@.take(k),
        decreases a@.len() - k,
    {
        let x = left.next();
        let y = right.next();
        match (x, y) {
            (Some(c), Some(d)) => {
                if c != d {
                    assert(a@[k] != b@[k]);
                    return false;
                }
                proof {
                    assert(a@.take(k + 1) =~= a@.take(k).push(a@[k]));
                    assert(b@.take(k + 1) =~= b@.take(k).push(b@[k]));
                    assert(a@.skip(k).drop_first() =~= a@.skip(k + 1));
                    assert(b@.skip(k).drop_first() =~= b@.skip(k + 1));
                    k = k + 1;
                }
            },
            (None, None) => {
                proof {
                    assert(a@.take(k) =~= a@);
                    assert(b@.take(k) =~= b@);
                }
                return true;
            },
            _ => {
                assert(a@.len() != b@.len());
                return false;
            },
        }
    }
}

/// Whether `c` is one of `0` to `9` or `A` to `F`: a hexadecimal digit in
/// upper case.
pub open spec fn is_upper_hex(c: char) -> bool {
    ('0' <= c && c <= '9') || ('A' <= c && c <= 'F')
}

/// Whether `c` is a hexadecimal digit in upper case.
pub fn upper_hex(c: char) -> (hex: bool)
    ensures
        hex == is_upper_hex(c),
{
    (c >= '0' && c <= '9') || (c >= 'A' && c <= 'F')
}

} // verus!
