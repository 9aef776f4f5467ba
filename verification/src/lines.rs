//! The lines of a file, read off its bytes.
//!
//! Windows-1252, the encoding of the active plugins file, has one byte for
//! each character and keeps the line feed and the carriage return at their
//! ASCII values, so a file falls into lines before any of it is decoded.
use vstd::prelude::*;

verus! {

/// `\n`, which ends a line.
pub const LINE_FEED: u8 = 0x0A;

/// `\r`, which stands before the line feed in files from Windows.
pub const CARRIAGE_RETURN: u8 = 0x0D;

/// What a file holds, if there is one.
pub open spec fn content_view(content: Option<&[u8]>) -> Option<Seq<u8>> {
    match content {
        Some(bytes) => Some(bytes@),
        None => None,
    }
}

/// How many bytes stand before the first line feed of `bytes`; where it holds
/// no line feed, how many bytes it has.
pub open spec fn first_line_len(bytes: Seq<u8>) -> int
    decreases bytes.len(),
{
    if bytes.len() == 0 || bytes[0] == LINE_FEED {
        0
    } else {
        1 + first_line_len(bytes.drop_first())
    }
}

/// The lines of `bytes`, each without the line feed that ends it. The last
/// line need not end in a line feed, and a final line feed starts no further
/// line.
pub open spec fn lines(bytes: Seq<u8>) -> Seq<Seq<u8>>
    decreases bytes.len(),
{
    if bytes.len() == 0 {
        Seq::empty()
    } else {
        let len = first_line_len(bytes);
        if 0 <= len < bytes.len() {
            seq![bytes.take(len)] + lines(bytes.skip(len + 1))
        } else {
            seq![bytes]
        }
    }
}

/// `line` without the carriage return at its end, if it has one: what is left
/// of a line of a file with `\r\n` line endings.
pub open spec fn without_carriage_return(line: Seq<u8>) -> Seq<u8> {
    if line.len() > 0 && line.last() == CARRIAGE_RETURN {
        line.drop_last()
    } else {
        line
    }
}

/// `lines` put together to one text, a line feed behind each line.
pub open spec fn joined(lines: Seq<Seq<u8>>) -> Seq<u8>
    decreases lines.len(),
{
    if lines.len() == 0 {
        Seq::empty()
    } else {
        joined(lines.drop_last()) + lines.last().push(LINE_FEED)
    }
}

/// Whether none of `lines` holds a line feed.
pub open spec fn are_single_lines(lines: Seq<Seq<u8>>) -> bool {
    forall|index: int| 0 <= index < lines.len() ==> !(#[trigger] lines[index]).contains(LINE_FEED)
}

/// `first_line_len` is the one position that is a line feed or the end and has
/// no line feed before it.
pub proof fn lemma_first_line_len(bytes: Seq<u8>, len: int)
    requires
        0 <= len <= bytes.len(),
        forall|i: int| 0 <= i < len ==> bytes[i] != LINE_FEED,
        len < bytes.len() ==> bytes[len] == LINE_FEED,
    ensures
        first_line_len(bytes) == len,
    decreases len,
{
    if len > 0 {
        let rest = bytes.drop_first();
        assert forall|i: int| 0 <= i < len - 1 implies rest[i] != LINE_FEED by {
            assert(rest[i] == bytes[i + 1]);
        }
        lemma_first_line_len(rest, len - 1);
    }
}

/// What `first_line_len` is, whatever the bytes.
pub proof fn lemma_first_line_len_bounds(bytes: Seq<u8>)
    ensures
        0 <= first_line_len(bytes) <= bytes.len(),
        forall|i: int| 0 <= i < first_line_len(bytes) ==> bytes[i] != LINE_FEED,
        first_line_len(bytes) < bytes.len() ==> bytes[first_line_len(bytes)] == LINE_FEED,
    decreases bytes.len(),
{
    if !(bytes.len() == 0 || bytes[0] == LINE_FEED) {
        let rest = bytes.drop_first();
        lemma_first_line_len_bounds(rest);
        assert forall|i: int| 0 <= i < first_line_len(bytes) implies bytes[i] != LINE_FEED by {
            if i > 0 {
                assert(rest[i - 1] == bytes[i]);
            }
        }
        if first_line_len(bytes) < bytes.len() {
            assert(rest[first_line_len(rest)] == bytes[first_line_len(bytes)]);
        }
    }
}

/// No line of a text holds a line feed.
pub proof fn lemma_lines_are_single(bytes: Seq<u8>)
    ensures
        are_single_lines(lines(bytes)),
    decreases bytes.len(),
{
    if bytes.len() > 0 {
        lemma_first_line_len_bounds(bytes);
        let len = first_line_len(bytes);
        let first = bytes.take(len);
        assert(!first.contains(LINE_FEED)) by {
            if first.contains(LINE_FEED) {
                let at = choose|at: int| 0 <= at < first.len() && first[at] == LINE_FEED;
                assert(bytes[at] == LINE_FEED);
            }
        }
        if len < bytes.len() {
            lemma_lines_are_single(bytes.skip(len + 1));
            let rest = lines(bytes.skip(len + 1));
            assert forall|index: int| 0 <= index < lines(bytes).len() implies !(
            #[trigger] lines(bytes)[index]).contains(LINE_FEED) by {
                if index > 0 {
                    assert(lines(bytes)[index] == rest[index - 1]);
                }
            }
        } else {
            assert(first =~= bytes);
        }
    }
}

/// Lines put together begin with the first line and its line feed.
pub proof fn lemma_joined_first(lines: Seq<Seq<u8>>)
    requires
        lines.len() > 0,
    ensures
        joined(lines) == lines.first().push(LINE_FEED) + joined(lines.drop_first()),
    decreases lines.len(),
{
    if lines.len() == 1 {
        assert(lines.drop_last() =~= Seq::empty());
        assert(lines.drop_first() =~= Seq::empty());
        assert(joined(lines) =~= lines.first().push(LINE_FEED) + joined(lines.drop_first()));
    } else {
        lemma_joined_first(lines.drop_last());
        assert(lines.drop_last().drop_first() =~= lines.drop_first().drop_last());
        assert(lines.drop_first().last() == lines.last());
        assert(lines.drop_last().first() == lines.first());
        assert(joined(lines) =~= lines.first().push(LINE_FEED) + joined(lines.drop_first()));
    }
}

/// A text that begins with lines put together has these lines first, and
/// then the lines of the rest.
pub proof fn lemma_lines_of_joined(first_lines: Seq<Seq<u8>>, rest: Seq<u8>)
    requires
        are_single_lines(first_lines),
    ensures
        lines(joined(first_lines) + rest) == first_lines + lines(rest),
    decreases first_lines.len(),
{
    if first_lines.len() == 0 {
        assert(joined(first_lines) + rest =~= rest);
        assert(first_lines + lines(rest) =~= lines(rest));
    } else {
        let first = first_lines.first();
        let others = first_lines.drop_first();
        let text = joined(first_lines) + rest;
        lemma_joined_first(first_lines);
        assert(text =~= first.push(LINE_FEED) + (joined(others) + rest));
        assert forall|at: int| 0 <= at < first.len() implies text[at] != LINE_FEED by {
            assert(first.contains(text[at]));
        }
        lemma_first_line_len(text, first.len() as int);
        assert(text.take(first.len() as int) =~= first);
        assert(text.skip(first.len() as int + 1) =~= joined(others) + rest);
        assert forall|index: int| 0 <= index < others.len() implies !(#[trigger] others[index]).contains(
            LINE_FEED,
        ) by {
            assert(others[index] == first_lines[index + 1]);
        }
        lemma_lines_of_joined(others, rest);
        assert(lines(text) =~= first_lines + lines(rest));
    }
}

/// Lines that are put together and split again are the same lines.
pub proof fn lemma_lines_of_joined_alone(single_lines: Seq<Seq<u8>>)
    requires
        are_single_lines(single_lines),
    ensures
        lines(joined(single_lines)) == single_lines,
{
    lemma_lines_of_joined(single_lines, Seq::empty());
    assert(joined(single_lines) + Seq::<u8>::empty() =~= joined(single_lines));
    assert(single_lines + lines(Seq::<u8>::empty()) =~= single_lines);
}

/// `bytes` with a line feed at the end, unless they end in one or are none.
pub open spec fn terminated(bytes: Seq<u8>) -> Seq<u8> {
    if bytes.len() == 0 || bytes.last() == LINE_FEED {
        bytes
    } else {
        bytes.push(LINE_FEED)
    }
}

/// The lines of a text, put together, are the text, but that its last line
/// ends in a line feed even if it did not before.
pub proof fn lemma_joined_lines(bytes: Seq<u8>)
    ensures
        joined(lines(bytes)) == terminated(bytes),
    decreases bytes.len(),
{
    if bytes.len() == 0 {
    } else {
        lemma_first_line_len_bounds(bytes);
        let len = first_line_len(bytes);
        lemma_joined_first(lines(bytes));
        if len < bytes.len() {
            let rest = bytes.skip(len + 1);
            lemma_joined_lines(rest);
            assert(lines(bytes).drop_first() =~= lines(rest));
            assert(bytes.take(len).push(LINE_FEED) =~= bytes.take(len + 1));
            if rest.len() > 0 {
                assert(rest.last() == bytes.last());
            }
            assert(bytes.take(len + 1) + rest =~= bytes);
            assert(joined(lines(bytes)) =~= terminated(bytes));
        } else {
            assert(lines(bytes).drop_first() =~= Seq::empty());
            assert(bytes.last() != LINE_FEED);
            assert(joined(lines(bytes)) =~= terminated(bytes));
        }
    }
}

/// The first lines of some lines, put together, are what all of them, put
/// together, begin with.
pub proof fn lemma_joined_take(all: Seq<Seq<u8>>, count: int)
    requires
        0 <= count <= all.len(),
    ensures
        joined(all.take(count)).len() <= joined(all).len(),
        joined(all.take(count)) == joined(all).take(joined(all.take(count)).len() as int),
    decreases all.len() - count,
{
    if count == all.len() {
        assert(all.take(count) =~= all);
        assert(joined(all) =~= joined(all).take(joined(all).len() as int));
    } else {
        lemma_joined_take(all, count + 1);
        assert(all.take(count + 1).drop_last() =~= all.take(count));
        let more = joined(all.take(count + 1));
        let fewer = joined(all.take(count));
        assert(fewer =~= more.take(fewer.len() as int));
        assert(fewer =~= joined(all).take(fewer.len() as int));
    }
}

/// The length of the first line of `bytes`.
pub fn first_line_length(bytes: &[u8]) -> (len: usize)
    ensures
        len == first_line_len(bytes@),
        len <= bytes@.len(),
{
    let mut len: usize = 0;
    while len < bytes.len() && bytes[len] != LINE_FEED
        invariant
            len <= bytes@.len(),
            forall|i: int| 0 <= i < len ==> bytes@[i] != LINE_FEED,
        decreases bytes@.len() - len,
    {
        len += 1;
    }
    proof {
        lemma_first_line_len(bytes@, len as int);
    }
    len
}

/// `line` without the carriage return at its end.
pub fn strip_carriage_return(line: &[u8]) -> (stripped: &[u8])
    ensures
        stripped@ == without_carriage_return(line@),
{
    let len = line.len();
    if len > 0 && line[len - 1] == CARRIAGE_RETURN {
        let stripped = &line[0..len - 1];
        assert(stripped@ =~= line@.drop_last());
        stripped
    } else {
        line
    }
}

/// What the slices of `found` hold, in their order.
pub open spec fn slice_views(found: Seq<&[u8]>) -> Seq<Seq<u8>> {
    found.map_values(|line: &[u8]| line@)
}

/// The lines of `bytes`, in their order.
pub fn split_lines(bytes: &[u8]) -> (found: Vec<&[u8]>)
    ensures
        slice_views(found@) == lines(bytes@),
{
    let mut found: Vec<&[u8]> = Vec::new();
    let mut start: usize = 0;
    assert(bytes@.skip(0) =~= bytes@);
    while start < bytes.len()
        invariant
            start <= bytes@.len(),
            lines(bytes@) == slice_views(found@) + lines(bytes@.skip(start as int)),
        decreases bytes@.len() - start,
    {
        let rest = &bytes[start..bytes.len()];
        assert(rest@ =~= bytes@.skip(start as int));
        let len = first_line_length(rest);
        let line = &rest[0..len];
        assert(line@ =~= rest@.take(len as int));
        let ghost before = slice_views(found@);
        found.push(line);
        assert(slice_views(found@) =~= before.push(line@));
        if len < rest.len() {
            assert(rest@.skip(len + 1) =~= bytes@.skip(start + len + 1));
            assert(before.push(line@) + lines(rest@.skip(len + 1)) =~= before + lines(rest@));
            start = start + len + 1;
        } else {
            assert(lines(bytes@.skip(bytes@.len() as int)) =~= Seq::empty());
            assert(line@ =~= rest@);
            assert(lines(rest@) =~= seq![rest@]);
            assert(before.push(line@) + Seq::<Seq<u8>>::empty() =~= before + lines(rest@));
            start = bytes.len();
        }
    }
    assert(slice_views(found@) + lines(bytes@.skip(start as int)) =~= slice_views(found@));
    found
}

} // verus!
