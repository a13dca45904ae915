//! Numbering the lines of a log as they are read, and telling gzip files by their name.
use crate::text::{chars_of, string_from_chars};
use vstd::prelude::*;

verus! {

/// `s` without one trailing `\n`, and then without one trailing `\r`.
pub open spec fn strip_line_ending(s: Seq<char>) -> Seq<char> {
    let a = if s.len() > 0 && s.last() == '\n' { s.drop_last() } else { s };
    if a.len() > 0 && a.last() == '\r' { a.drop_last() } else { a }
}

/// Takes the line ending off a line as it was read.
pub fn strip_ending(line: &str) -> (s: String)
    ensures
        s@ == strip_line_ending(line@),
{
    let mut v = chars_of(line);
    if v.len() > 0 && v[v.len() - 1] == '\n' {
        v.pop();
    }
    if v.len() > 0 && v[v.len() - 1] == '\r' {
        v.pop();
    }
    string_from_chars(&v)
}

/// Numbers the lines of a log as they are read, from 1, and hands them on without their line
/// endings.
pub struct LineIterator {
    line_num: usize,
}

impl LineIterator {
    /// How many lines have been handed on.
    pub closed spec fn lines_read(&self) -> nat {
        self.line_num as nat
    }

    /// Nothing read yet.
    pub fn new() -> (it: LineIterator)
        ensures
            it.lines_read() == 0,
    {
        LineIterator { line_num: 0 }
    }

    /// How many lines have been handed on.
    pub fn count(&self) -> (n: usize)
        ensures
            n == self.lines_read(),
    {
        self.line_num
    }

    /// Takes the outcome of the next read: the number of bytes read into `line`, or the read's
    /// error. Nothing read means the end of the input, and nothing comes back; an error is
    /// handed on as it is; a line comes back numbered and without its ending. Only a line
    /// advances the count.
    pub fn next_line(&mut self, read: Result<usize, std::io::Error>, line: String) -> (r: Option<
        Result<(usize, String), std::io::Error>,
    >)
        requires
            read matches Ok(n) && n > 0 ==> old(self).lines_read() < usize::MAX,
        ensures
            match read {
                Ok(n) => if n == 0 {
                    r is None && final(self).lines_read() == old(self).lines_read()
                } else {
                    r matches Some(Ok((k, s))) && k == old(self).lines_read() + 1 && s@
                        == strip_line_ending(line@) && final(self).lines_read() == k
                },
                Err(e) => r matches Some(Err(e2)) && e2 == e && final(self).lines_read()
                    == old(self).lines_read(),
            },
    {
        match read {
            Ok(0) => None,
            Ok(_) => {
                self.line_num = self.line_num + 1;
                Some(Ok((self.line_num, strip_ending(line.as_str()))))
            },
            Err(e) => Some(Err(e)),
        }
    }
}

/// The pieces of a text put one after another.
pub open spec fn joined(pieces: Seq<Seq<char>>) -> Seq<char>
    decreases pieces.len(),
{
    if pieces.len() == 0 {
        Seq::empty()
    } else {
        joined(pieces.drop_last()) + pieces.last()
    }
}

/// A piece as a line read gives it: ending in `\n`, with no `\r` just before that.
pub open spec fn newline_ended(p: Seq<char>) -> bool {
    &&& p.len() > 0
    &&& p.last() == '\n'
    &&& (p.len() >= 2 ==> p[p.len() - 2] != '\r')
}

/// Pieces that each end in a newline, with no carriage return before it, come back whole when
/// each has its ending taken off and a newline put back.
pub proof fn lemma_lines_rejoin(pieces: Seq<Seq<char>>)
    requires
        forall|i: int| 0 <= i < pieces.len() ==> newline_ended(#[trigger] pieces[i]),
    ensures
        joined(pieces.map_values(|p: Seq<char>| strip_line_ending(p) + seq!['\n'])) == joined(pieces),
    decreases pieces.len(),
{
    if pieces.len() > 0 {
        let rest = pieces.drop_last();
        assert forall|i: int| 0 <= i < rest.len() implies newline_ended(#[trigger] rest[i]) by {
            assert(rest[i] == pieces[i]);
        }
        lemma_lines_rejoin(rest);
        let p = pieces.last();
        assert(newline_ended(pieces[pieces.len() - 1]));
        let back = pieces.map_values(|q: Seq<char>| strip_line_ending(q) + seq!['\n']);
        assert(back.drop_last() =~= rest.map_values(|q: Seq<char>| strip_line_ending(q) + seq!['\n']));
        assert(strip_line_ending(p) == p.drop_last());
        assert(p.drop_last() + seq!['\n'] =~= p);
        assert(back.last() == strip_line_ending(p) + seq!['\n']);
    }
}

/// The position of the first `\n` in `c` at or after `i`, or -1 where there is none.
pub open spec fn newline_from(c: Seq<char>, i: int) -> int
    decreases c.len() - i,
{
    if i < 0 || i >= c.len() {
        -1
    } else if c[i] == '\n' {
        i
    } else {
        newline_from(c, i + 1)
    }
}

/// What successive line reads give of the text `c`: each read takes the text up to and
/// including the next `\n`, or the rest of the text where no `\n` is left.
pub open spec fn line_pieces(c: Seq<char>) -> Seq<Seq<char>>
    decreases c.len(),
{
    if c.len() == 0 {
        Seq::empty()
    } else {
        let e = newline_from(c, 0);
        let cut = if 0 <= e < c.len() { e + 1 } else { c.len() as int };
        seq![c.take(cut)] + line_pieces(c.skip(cut))
    }
}

/// The items numbering gives for the reads of `c`: the line number from 1 and the line without
/// its ending, in order (what `LineIterator::next_line` hands on read by read).
pub open spec fn numbered_lines(c: Seq<char>) -> Seq<(int, Seq<char>)> {
    Seq::new(
        line_pieces(c).len(),
        |i: int| (i + 1, strip_line_ending(line_pieces(c)[i])),
    )
}

proof fn lemma_newline_from(c: Seq<char>, i: int)
    requires
        0 <= i <= c.len(),
    ensures
        newline_from(c, i) == -1 || (i <= newline_from(c, i) < c.len() && c[newline_from(c, i)]
            == '\n'),
        newline_from(c, i) == -1 ==> forall|j: int| i <= j < c.len() ==> c[j] != '\n',
    decreases c.len() - i,
{
    if i < c.len() && c[i] != '\n' {
        lemma_newline_from(c, i + 1);
    }
}

proof fn lemma_joined_prepend(a: Seq<char>, rest: Seq<Seq<char>>)
    ensures
        joined(seq![a] + rest) == a + joined(rest),
    decreases rest.len(),
{
    let s = seq![a] + rest;
    if rest.len() == 0 {
        assert(s.drop_last() =~= Seq::<Seq<char>>::empty());
        assert(s.last() == a);
        assert(joined(s) == joined(s.drop_last()) + s.last());
        assert(Seq::<char>::empty() + a =~= a);
        assert(a + Seq::<char>::empty() =~= a);
    } else {
        lemma_joined_prepend(a, rest.drop_last());
        assert(s.drop_last() =~= seq![a] + rest.drop_last());
        assert(s.last() == rest.last());
        assert(joined(s) == joined(s.drop_last()) + s.last());
        assert(joined(rest) == joined(rest.drop_last()) + rest.last());
        assert(a + joined(rest.drop_last()) + rest.last() =~= a + (joined(rest.drop_last())
            + rest.last()));
    }
}

proof fn lemma_pieces_of_text(c: Seq<char>)
    requires
        forall|j: int| 0 <= j < c.len() ==> #[trigger] c[j] != '\r',
        c.len() == 0 || c.last() == '\n',
    ensures
        joined(line_pieces(c)) == c,
        forall|i: int| 0 <= i < line_pieces(c).len() ==> newline_ended(#[trigger] line_pieces(c)[i]),
    decreases c.len(),
{
    if c.len() > 0 {
        lemma_newline_from(c, 0);
        let e = newline_from(c, 0);
        assert(e != -1) by {
            if e == -1 {
                assert(c[c.len() - 1] != '\n');
            }
        }
        let head = c.take(e + 1);
        let tail = c.skip(e + 1);
        assert forall|j: int| 0 <= j < tail.len() implies #[trigger] tail[j] != '\r' by {
            assert(tail[j] == c[e + 1 + j]);
        }
        if tail.len() > 0 {
            assert(tail.last() == c.last());
        }
        lemma_pieces_of_text(tail);
        let ps = line_pieces(c);
        assert(ps == seq![head] + line_pieces(tail));
        lemma_joined_prepend(head, line_pieces(tail));
        assert(head + tail =~= c);
        assert(head.last() == '\n');
        if head.len() >= 2 {
            assert(head[head.len() - 2] == c[head.len() - 2]);
        }
        assert(newline_ended(head));
        assert forall|i: int| 0 <= i < ps.len() implies newline_ended(#[trigger] ps[i]) by {
            if i > 0 {
                assert(ps[i] == line_pieces(tail)[i - 1]);
            }
        }
    }
}

/// Reading a text with no carriage returns that is empty or ends in a newline, line by line:
/// the lines come numbered 1, 2, ... in order, and put one after another, each with a newline
/// after it, they give back the text.
pub proof fn lemma_read_round_trip(c: Seq<char>)
    requires
        forall|j: int| 0 <= j < c.len() ==> #[trigger] c[j] != '\r',
        c.len() == 0 || c.last() == '\n',
    ensures
        forall|i: int| 0 <= i < numbered_lines(c).len() ==> (#[trigger] numbered_lines(c)[i]).0 == i + 1,
        joined(numbered_lines(c).map_values(|item: (int, Seq<char>)| item.1 + seq!['\n'])) == c,
{
    lemma_pieces_of_text(c);
    let ps = line_pieces(c);
    lemma_lines_rejoin(ps);
    assert(numbered_lines(c).map_values(|item: (int, Seq<char>)| item.1 + seq!['\n'])
        =~= ps.map_values(|p: Seq<char>| strip_line_ending(p) + seq!['\n']));
}

/// Whether a file extension is `gz` in any mix of cases.
pub open spec fn is_gzip_ext(ext: Seq<char>) -> bool {
    ext.len() == 2 && (ext[0] == 'g' || ext[0] == 'G') && (ext[1] == 'z' || ext[1] == 'Z')
}

/// Whether a file with extension `ext` is read through a gzip decoder.
pub fn is_gzip_extension(ext: &str) -> (b: bool)
    ensures
        b == is_gzip_ext(ext@),
{
    let v = chars_of(ext);
    v.len() == 2 && (v[0] == 'g' || v[0] == 'G') && (v[1] == 'z' || v[1] == 'Z')
}

} // verus!
