//! Lines, joining and matching.

use vstd::prelude::*;

use crate::characters::{
    folded_code, lemma_matches_characters, same_text_but_for_case, text_occurs_at,
};
use crate::laws::{in_order, lemma_one_more_place};
use crate::matching::{lines_near_match, matched_lines, matches_text, near_match};
use crate::text::{joined, lemma_line_feed, lemma_lines_of_joined, text_lines, views};

verus! {

/// The views of strings are as many as the strings, each that of the string in its place.
pub proof fn law_views(strings: Seq<String>)
    ensures
        views(strings).len() == strings.len(),
        forall|i: int| 0 <= i < strings.len() ==> #[trigger] views(strings)[i] == strings[i]@,
{
}

/// No parts join to nothing, one part to itself, and parts behind others to what the first join
/// to, the separator, and what the others join to.
pub proof fn law_join(
    first: Seq<Seq<char>>,
    second: Seq<Seq<char>>,
    part: Seq<char>,
    separator: Seq<char>,
)
    ensures
        joined(Seq::empty(), separator) == Seq::<char>::empty(),
        joined(seq![part], separator) == part,
        first.len() > 0 && second.len() > 0 ==> joined(first + second, separator) == joined(
            first,
            separator,
        ) + separator + joined(second, separator),
    decreases second.len(),
{
    if first.len() > 0 && second.len() > 0 {
        let all = first + second;
        assert(all.drop_last() =~= first + second.drop_last());
        assert(all.last() == second.last());
        if second.len() == 1 {
            assert(all.drop_last() =~= first);
            assert(second =~= seq![second[0]]);
        } else {
            law_join(first, second.drop_last(), part, separator);
            assert(joined(all, separator) =~= joined(first, separator) + separator + joined(
                second,
                separator,
            ));
        }
    }
}

/// Every part stands in what the parts are joined to.
pub proof fn law_join_keeps_every_part(parts: Seq<Seq<char>>, separator: Seq<char>, i: int)
    requires
        0 <= i < parts.len(),
    ensures
        exists|before: Seq<char>, behind: Seq<char>|
            joined(parts, separator) == #[trigger] (before + parts[i] + behind),
    decreases parts.len(),
{
    let all = joined(parts, separator);
    if i == parts.len() - 1 {
        let none = Seq::<char>::empty();
        if parts.len() == 1 {
            assert(all =~= none + parts[i] + none);
        } else {
            let before = joined(parts.drop_last(), separator) + separator;
            assert(all =~= before + parts[i] + none);
        }
    } else {
        law_join_keeps_every_part(parts.drop_last(), separator, i);
        let (before, behind) = choose|before: Seq<char>, behind: Seq<char>|
            joined(parts.drop_last(), separator) == #[trigger] (before + parts[i] + behind);
        assert(all =~= before + parts[i] + (behind + separator + parts.last()));
    }
}

/// The empty text has no line, and a text without a line feed is one line. A line feed ends a line,
/// with the carriage return before it, and the rest of the text is split on its own.
pub proof fn law_lines(line: Seq<char>, rest: Seq<char>)
    requires
        forall|i: int| 0 <= i < line.len() ==> line[i] != '\n',
    ensures
        text_lines(Seq::empty()).len() == 0,
        line.len() > 0 ==> text_lines(line) == seq![line],
        text_lines(line + seq!['\n'] + rest) == seq![
            if line.len() > 0 && line[line.len() - 1] == '\r' {
                line.take(line.len() - 1)
            } else {
                line
            },
        ] + text_lines(rest),
{
    let text = line + seq!['\n'] + rest;
    let end = line.len() as int;
    assert(text[end] == '\n');
    assert forall|k: int| 0 <= k < end implies text[k] != '\n' by {
        assert(text[k] == line[k]);
    }
    lemma_line_feed(text, end);
    assert(text.take(end) =~= line);
    assert(text.skip(end + 1) =~= rest);
    if line.len() > 0 {
        assert(line.take(line.len() - 1) =~= line.drop_last());
        assert(!line.contains('\n'));
    }
}

/// Texts that are lines, joined by line feeds, are the lines of what comes of it.
pub proof fn law_lines_of_joined(parts: Seq<Seq<char>>)
    requires
        parts.len() > 0 ==> parts[parts.len() - 1].len() > 0,
        forall|i: int, k: int|
            0 <= i < parts.len() && 0 <= k < parts[i].len() ==> #[trigger] parts[i][k] != '\n'
                && parts[i][k] != '\r',
    ensures
        text_lines(joined(parts, "\n"@)) == parts,
{
    assert forall|i: int| 0 <= i < parts.len() implies crate::text::is_line(
        #[trigger] parts[i],
    ) by {
        let part = parts[i];
        assert forall|k: int| 0 <= k < part.len() implies part[k] != '\n' by {
            assert(parts[i][k] != '\n');
        }
        if part.len() > 0 {
            assert(parts[i][part.len() - 1] != '\r');
        }
    }
    lemma_lines_of_joined(parts);
}

/// The characters are the same, or the upper and the lower case form of an ASCII letter.
pub open spec fn same_letter(a: char, b: char) -> bool {
    ||| a == b
    ||| 'A' <= a <= 'Z' && b as int == a as int + 32
    ||| 'A' <= b <= 'Z' && a as int == b as int + 32
}

/// The characters of the needle stand in the haystack from the place on, but for the case of ASCII
/// letters.
pub open spec fn stands_at(haystack: Seq<char>, needle: Seq<char>, at: int) -> bool {
    &&& 0 <= at
    &&& at + needle.len() <= haystack.len()
    &&& forall|i: int| 0 <= i < needle.len() ==> same_letter(#[trigger] haystack[at + i], needle[i])
}

/// A text matches a keyword exactly where the characters of the keyword stand somewhere in it, one
/// behind the other, but for the case of ASCII letters.
pub proof fn law_matching(haystack: Seq<char>, needle: Seq<char>)
    ensures
        matches_text(haystack, needle) <==> exists|at: int| stands_at(haystack, needle, at),
{
    lemma_matches_characters(haystack, needle);
    assert forall|at: int| text_occurs_at(haystack, needle, at) == stands_at(
        haystack,
        needle,
        at,
    ) by {
        if 0 <= at && at + needle.len() <= haystack.len() {
            let window = haystack.subrange(at, at + needle.len());
            assert forall|i: int| 0 <= i < needle.len() implies same_letter(
                #[trigger] haystack[at + i],
                needle[i],
            ) == (folded_code(window[i]) == folded_code(needle[i])) by {
                assert(window[i] == haystack[at + i]);
            }
            if same_text_but_for_case(window, needle) {
                assert forall|i: int| 0 <= i < needle.len() implies same_letter(
                    #[trigger] haystack[at + i],
                    needle[i],
                ) by {
                    assert(folded_code(window[i]) == folded_code(needle[i]));
                }
            }
            if stands_at(haystack, needle, at) {
                assert forall|i: int| 0 <= i < window.len() implies folded_code(
                    #[trigger] window[i],
                ) == folded_code(needle[i]) by {
                    assert(same_letter(haystack[at + i], needle[i]));
                }
            }
        }
    }
    if exists|at: int| stands_at(haystack, needle, at) {
        let at = choose|at: int| stands_at(haystack, needle, at);
        assert(text_occurs_at(haystack, needle, at));
    }
    if exists|at: int| text_occurs_at(haystack, needle, at) {
        let at = choose|at: int| text_occurs_at(haystack, needle, at);
        assert(stands_at(haystack, needle, at));
    }
}

proof fn lemma_near_places(
    lines: Seq<Seq<char>>,
    keyword: Seq<char>,
    context: int,
    count: nat,
) -> (places: Seq<int>)
    requires
        count <= lines.len(),
    ensures
        in_order(places, count),
        ({
            let shown = lines_near_match(
                lines,
                keyword,
                context,
                lines.len() as int,
                count as int,
            );
            &&& shown.len() == places.len()
            &&& forall|k: int| 0 <= k < places.len() ==> #[trigger] shown[k] == lines[places[k]]
        }),
        forall|i: int|
            0 <= i < count ==> (#[trigger] places.contains(i) <==> near_match(
                lines,
                keyword,
                context,
                lines.len() as int,
                i,
            )),
    decreases count,
{
    if count == 0 {
        Seq::empty()
    } else {
        let last = (count - 1) as nat;
        let before = lemma_near_places(lines, keyword, context, last);
        lemma_one_more_place(before, last);
        if near_match(lines, keyword, context, lines.len() as int, last as int) {
            let places = before.push(last as int);
            assert forall|i: int| 0 <= i < count implies (#[trigger] places.contains(i)
                <==> near_match(lines, keyword, context, lines.len() as int, i)) by {
                assert(places.contains(i) <==> before.contains(i) || i == last);
            }
            places
        } else {
            before
        }
    }
}

/// What is shown of a text are lines of it, in their order and each once: exactly those at most
/// `context` lines away from a line that matches the keyword. The empty keyword shows nothing.
pub proof fn law_shown_lines(text: Seq<char>, keyword: Seq<char>, context: int) -> (places: Seq<
    int,
>)
    ensures
        in_order(places, text_lines(text).len()),
        matched_lines(text, keyword, context).len() == places.len(),
        forall|k: int|
            0 <= k < places.len() ==> #[trigger] matched_lines(text, keyword, context)[k]
                == text_lines(text)[places[k]],
        keyword.len() == 0 ==> places.len() == 0,
        keyword.len() > 0 ==> forall|i: int|
            0 <= i < text_lines(text).len() ==> (#[trigger] places.contains(i) <==> exists|j: int|
                0 <= j < text_lines(text).len() && i - context <= j <= i + context
                    && #[trigger] matches_text(text_lines(text)[j], keyword)),
{
    let all = text_lines(text);
    if keyword.len() == 0 {
        Seq::empty()
    } else {
        lemma_near_places(all, keyword, context, all.len())
    }
}

} // verus!
