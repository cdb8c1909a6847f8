//! Text: its lines, and the joining of texts.

use vstd::prelude::*;

verus! {

/// `String::push` puts one character behind those that the string holds.
pub assume_specification[ String::push ](s: &mut String, c: char)
    ensures
        final(s)@ == old(s)@.push(c),
;

/// The characters of a string, in order.
pub(crate) fn to_chars(s: &str) -> (chars: Vec<char>)
    ensures
        chars@ == s@,
{
    let mut chars: Vec<char> = Vec::new();
    for c in iter: s.chars()
        invariant
            chars@ == iter.seq().take(iter.index() as int),
            iter.seq() == s@,
    {
        chars.push(c);
    }
    chars
}

/// The string made of the characters from `from` up to `to`.
pub(crate) fn from_chars(chars: &Vec<char>, from: usize, to: usize) -> (s: String)
    requires
        from <= to <= chars@.len(),
    ensures
        s@ == chars@.subrange(from as int, to as int),
{
    let mut s = String::new();
    let mut i: usize = from;
    while i < to
        invariant
            from <= i <= to <= chars@.len(),
            s@ == chars@.subrange(from as int, i as int),
        decreases to - i,
    {
        s.push(chars[i]);
        i = i + 1;
    }
    s
}

/// The views of a sequence of strings.
pub open spec fn views(strings: Seq<String>) -> Seq<Seq<char>> {
    strings.map_values(|s: String| s@)
}

/// The parts one behind the other, with the separator between each two of them.
pub open spec fn joined(parts: Seq<Seq<char>>, separator: Seq<char>) -> Seq<char>
    decreases parts.len(),
{
    if parts.len() == 0 {
        Seq::empty()
    } else if parts.len() == 1 {
        parts[0]
    } else {
        joined(parts.drop_last(), separator) + separator + parts.last()
    }
}

/// Joins the parts, with the separator between each two of them.
pub fn join(parts: &Vec<String>, separator: &str) -> (s: String)
    ensures
        s@ == joined(views(parts@), separator@),
{
    let mut s = String::new();
    let mut i: usize = 0;
    while i < parts.len()
        invariant
            i <= parts@.len(),
            s@ == joined(views(parts@).take(i as int), separator@),
        decreases parts@.len() - i,
    {
        proof {
            let more = views(parts@).take(i + 1);
            assert(more.drop_last() =~= views(parts@).take(i as int));
            assert(more.last() == parts@[i as int]@);
        }
        if i > 0 {
            s.append(separator);
        }
        s.append(parts[i].as_str());
        assert(s@ =~= joined(views(parts@).take(i + 1), separator@));
        i = i + 1;
    }
    assert(views(parts@).take(i as int) =~= views(parts@));
    s
}

/// The line without a carriage return at its end.
pub open spec fn without_carriage_return(line: Seq<char>) -> Seq<char> {
    if line.len() > 0 && line.last() == '\r' {
        line.drop_last()
    } else {
        line
    }
}

/// The lines of a text. A line ends at a line feed, or at a carriage return followed by a line
/// feed; the end of the last line is optional.
pub open spec fn text_lines(text: Seq<char>) -> Seq<Seq<char>>
    decreases text.len(),
{
    if text.len() == 0 {
        Seq::empty()
    } else if !text.contains('\n') {
        seq![text]
    } else {
        let end = text.index_of_first('\n')->0;
        proof {
            text.index_of_first_ensures('\n');
        }
        seq![without_carriage_return(text.take(end))] + text_lines(text.skip(end + 1))
    }
}

pub(crate) proof fn lemma_line_feed(text: Seq<char>, end: int)
    requires
        0 <= end < text.len(),
        text[end] == '\n',
        forall|k: int| 0 <= k < end ==> text[k] != '\n',
    ensures
        text_lines(text) == seq![without_carriage_return(text.take(end))] + text_lines(
            text.skip(end + 1),
        ),
{
    assert(text.contains('\n'));
    text.index_of_first_ensures('\n');
    let first = text.index_of_first('\n')->0;
    assert(first == end);
}

/// Splits a text into its lines.
pub fn lines(text: &str) -> (res: Vec<String>)
    ensures
        views(res@) == text_lines(text@),
{
    let chars = to_chars(text);
    let mut res: Vec<String> = Vec::new();
    let mut start: usize = 0;
    let mut i: usize = 0;
    assert(chars@.skip(0) =~= text@);
    assert(views(res@) + text_lines(text@) =~= text_lines(text@));
    while i < chars.len()
        invariant
            start <= i <= chars@.len(),
            chars@ == text@,
            forall|k: int| start <= k < i ==> chars@[k] != '\n',
            views(res@) + text_lines(chars@.skip(start as int)) == text_lines(text@),
        decreases chars@.len() - i,
    {
        if chars[i] == '\n' {
            let end: usize = if i > start && chars[i - 1] == '\r' {
                i - 1
            } else {
                i
            };
            let ghost before = res@;
            let line = from_chars(&chars, start, end);
            proof {
                let rest = chars@.skip(start as int);
                lemma_line_feed(rest, i - start);
                assert(rest.take(i - start) =~= chars@.subrange(start as int, i as int));
                assert(line@ =~= without_carriage_return(rest.take(i - start)));
                assert(rest.skip(i - start + 1) =~= chars@.skip(i + 1));
            }
            res.push(line);
            proof {
                assert(views(res@) =~= views(before) + seq![line@]);
                assert(views(res@) + text_lines(chars@.skip(i + 1)) =~= views(before) + (seq![line@]
                    + text_lines(chars@.skip(i + 1))));
            }
            start = i + 1;
        }
        i = i + 1;
    }
    if start < chars.len() {
        let ghost before = res@;
        let line = from_chars(&chars, start, chars.len());
        proof {
            let rest = chars@.skip(start as int);
            assert(!rest.contains('\n'));
            assert(line@ =~= rest);
        }
        res.push(line);
        assert(views(res@) =~= views(before) + seq![line@]);
    } else {
        assert(views(res@) + text_lines(chars@.skip(start as int)) =~= views(res@));
    }
    res
}

/// What follows the end of a line is split into lines on its own.
proof fn lemma_lines_behind_line_feed(text: Seq<char>, more: Seq<char>)
    requires
        text.len() > 0,
        text.last() == '\n',
    ensures
        text_lines(text + more) == text_lines(text) + text_lines(more),
    decreases text.len(),
{
    let both = text + more;
    assert(text.contains(text.last()));
    text.index_of_first_ensures('\n');
    let end = text.index_of_first('\n')->0;
    lemma_line_feed(text, end);
    lemma_line_feed(both, end);
    assert(both.take(end) =~= text.take(end));
    assert(both.skip(end + 1) =~= text.skip(end + 1) + more);
    let rest = text.skip(end + 1);
    if rest.len() > 0 {
        lemma_lines_behind_line_feed(rest, more);
    } else {
        assert(rest + more =~= more);
    }
    assert(text_lines(both) =~= text_lines(text) + text_lines(more));
}

/// The text is a line on its own: it holds no line feed and does not end with a carriage return.
pub open spec fn is_line(text: Seq<char>) -> bool {
    !text.contains('\n') && (text.len() > 0 ==> text.last() != '\r')
}

proof fn lemma_lines_of_ended(parts: Seq<Seq<char>>)
    requires
        parts.len() > 0,
        forall|i: int| 0 <= i < parts.len() ==> is_line(#[trigger] parts[i]),
    ensures
        text_lines(joined(parts, "\n"@) + "\n"@) == parts,
    decreases parts.len(),
{
    reveal_strlit("\n");
    let last = parts.last();
    let ended = last + "\n"@;
    assert(is_line(parts[parts.len() - 1]));
    assert forall|k: int| 0 <= k < last.len() implies ended[k] != '\n' by {
        assert(last.contains(last[k]));
    }
    lemma_line_feed(ended, last.len() as int);
    assert(ended.take(last.len() as int) =~= last);
    assert(ended.skip(last.len() as int + 1) =~= Seq::empty());
    assert(text_lines(ended) =~= seq![last]);
    if parts.len() == 1 {
        assert(parts =~= seq![last]);
    } else {
        let before = parts.drop_last();
        assert forall|i: int| 0 <= i < before.len() implies is_line(#[trigger] before[i]) by {
            assert(before[i] == parts[i]);
        }
        lemma_lines_of_ended(before);
        let head = joined(before, "\n"@) + "\n"@;
        lemma_lines_behind_line_feed(head, ended);
        assert(joined(parts, "\n"@) + "\n"@ =~= head + ended);
        assert(before + seq![last] =~= parts);
    }
}

/// Lines that are joined by line feeds are the lines of the text that comes of it, as long as the
/// last one is not empty.
pub proof fn lemma_lines_of_joined(parts: Seq<Seq<char>>)
    requires
        parts.len() > 0 ==> parts.last().len() > 0,
        forall|i: int| 0 <= i < parts.len() ==> is_line(#[trigger] parts[i]),
    ensures
        text_lines(joined(parts, "\n"@)) == parts,
{
    if parts.len() > 0 {
        reveal_strlit("\n");
        let last = parts.last();
        assert(is_line(parts[parts.len() - 1]));
        assert(text_lines(last) =~= seq![last]);
        if parts.len() == 1 {
            assert(parts =~= seq![last]);
        } else {
            let before = parts.drop_last();
            assert forall|i: int| 0 <= i < before.len() implies is_line(#[trigger] before[i]) by {
                assert(before[i] == parts[i]);
            }
            lemma_lines_of_ended(before);
            let head = joined(before, "\n"@) + "\n"@;
            lemma_lines_behind_line_feed(head, last);
            assert(joined(parts, "\n"@) =~= head + last);
            assert(before + seq![last] =~= parts);
        }
    } else {
        assert(text_lines(joined(parts, "\n"@)) =~= parts);
    }
}

} // verus!
