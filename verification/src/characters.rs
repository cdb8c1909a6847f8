//! Matching the UTF-8 forms of two texts comes to the same as matching their characters.

use vstd::prelude::*;
use vstd::utf8::{
    char_is_scalar, decode_first_scalar, encode_scalar, encode_utf8, encode_utf8_first_scalar,
    has_width_1_encoding, is_continuation_byte, leading_byte_width_1, length_of_first_scalar,
    valid_first_scalar,
};

use crate::matching::{
    folded, lines_near_match, matched_lines, matches_text, near_match, occurs, occurs_at,
};
use crate::text::{text_lines, without_carriage_return};

verus! {

/// The code of the character, with that of a lower case ASCII letter for an upper case one.
pub open spec fn folded_code(c: char) -> int {
    if 'A' <= c <= 'Z' {
        c as int + 32
    } else {
        c as int
    }
}

/// Both texts hold the same characters, but for the case of ASCII letters.
pub open spec fn same_text_but_for_case(a: Seq<char>, b: Seq<char>) -> bool {
    a.len() == b.len() && forall|i: int|
        0 <= i < a.len() ==> folded_code(#[trigger] a[i]) == folded_code(b[i])
}

/// The needle stands in the haystack at the given place, but for the case of ASCII letters.
pub open spec fn text_occurs_at(haystack: Seq<char>, needle: Seq<char>, at: int) -> bool {
    0 <= at <= haystack.len() - needle.len() && same_text_but_for_case(
        haystack.subrange(at, at + needle.len()),
        needle,
    )
}

/// A character has the same code whatever integer tells it.
proof fn lemma_code(c: char)
    ensures
        c as u32 as int == c as int,
{
}

/// The form of the first character: how long it is, and what its bytes look like.
proof fn lemma_first_char(text: Seq<char>)
    requires
        text.len() > 0,
    ensures
        ({
            let bytes = encode_utf8(text);
            let width = encode_scalar(text[0] as u32).len();
            &&& 1 <= width <= bytes.len()
            &&& bytes.skip(width as int) == encode_utf8(text.drop_first())
            &&& width == length_of_first_scalar(bytes)
            &&& valid_first_scalar(bytes)
            &&& decode_first_scalar(bytes) == text[0] as u32
            &&& !is_continuation_byte(bytes[0])
            &&& forall|i: int| 1 <= i < width ==> is_continuation_byte(#[trigger] bytes[i])
            &&& width == 1 <==> bytes[0] < 128
            &&& width == 1 ==> bytes[0] as int == text[0] as int
        }),
{
    let bytes = encode_utf8(text);
    let code = text[0] as u32;
    let form = encode_scalar(code);
    encode_utf8_first_scalar(text);
    char_is_scalar(text[0]);
    lemma_code(text[0]);
    assert(bytes =~= form + encode_utf8(text.drop_first()));
    assert(bytes.skip(form.len() as int) =~= encode_utf8(text.drop_first()));
    if has_width_1_encoding(code) {
        assert(leading_byte_width_1(code) == code) by (bit_vector)
            requires
                has_width_1_encoding(code),
        ;
        assert(bytes[0] == form[0]);
    }
}

/// Where the first bytes of two texts are the same but for case, so is the first character.
proof fn lemma_same_first_char(haystack: Seq<char>, needle: Seq<char>)
    requires
        needle.len() > 0,
        haystack.len() > 0,
        occurs_at(encode_utf8(haystack), encode_utf8(needle), 0),
    ensures
        encode_scalar(haystack[0] as u32).len() == encode_scalar(needle[0] as u32).len(),
        folded_code(haystack[0]) == folded_code(needle[0]),
        occurs_at(encode_utf8(haystack.drop_first()), encode_utf8(needle.drop_first()), 0),
{
    let h = encode_utf8(haystack);
    let n = encode_utf8(needle);
    let width = encode_scalar(needle[0] as u32).len() as int;
    lemma_first_char(haystack);
    lemma_first_char(needle);
    lemma_code(haystack[0]);
    lemma_code(needle[0]);
    let window = h.subrange(0, n.len() as int);
    assert forall|i: int| 0 <= i < n.len() implies folded(h[i]) == folded(n[i]) by {
        assert(window[i] == h[i]);
    }
    assert(folded(h[0]) == folded(n[0]));
    if n[0] < 128 {
        assert(h[0] < 128);
    } else {
        assert(h[0] == n[0]);
        assert(length_of_first_scalar(h) == length_of_first_scalar(n));
        assert forall|i: int| 1 <= i < width implies h[i] == n[i] by {
            assert(folded(h[i]) == folded(n[i]));
            assert(is_continuation_byte(h[i]));
            assert(is_continuation_byte(n[i]));
        }
        assert(decode_first_scalar(h) == decode_first_scalar(n));
    }
    let h_rest = encode_utf8(haystack.drop_first());
    let n_rest = encode_utf8(needle.drop_first());
    assert forall|i: int| 0 <= i < n_rest.len() implies folded(
        #[trigger] h_rest.subrange(0, n_rest.len() as int)[i],
    ) == folded(n_rest[i]) by {
        assert(h_rest[i] == h[width + i]);
        assert(n_rest[i] == n[width + i]);
        assert(folded(h[width + i]) == folded(n[width + i]));
    }
}

/// Where the first characters of two texts are the same but for case, so are their bytes.
proof fn lemma_same_first_bytes(haystack: Seq<char>, needle: Seq<char>)
    requires
        needle.len() > 0,
        haystack.len() > 0,
        folded_code(haystack[0]) == folded_code(needle[0]),
        occurs_at(encode_utf8(haystack.drop_first()), encode_utf8(needle.drop_first()), 0),
    ensures
        occurs_at(encode_utf8(haystack), encode_utf8(needle), 0),
{
    let h = encode_utf8(haystack);
    let n = encode_utf8(needle);
    lemma_first_char(haystack);
    lemma_first_char(needle);
    let width = encode_scalar(needle[0] as u32).len() as int;
    assert(encode_scalar(haystack[0] as u32).len() == width);
    let h_rest = encode_utf8(haystack.drop_first());
    let n_rest = encode_utf8(needle.drop_first());
    assert forall|i: int| 0 <= i < n.len() implies folded(
        #[trigger] h.subrange(0, n.len() as int)[i],
    ) == folded(n[i]) by {
        if i < width {
            if haystack[0] == needle[0] {
                assert(h[i] == encode_scalar(haystack[0] as u32)[i]);
                assert(n[i] == encode_scalar(needle[0] as u32)[i]);
            }
        } else {
            assert(h[i] == h_rest[i - width]);
            assert(n[i] == n_rest[i - width]);
            assert(h_rest.subrange(0, n_rest.len() as int)[i - width] == h_rest[i - width]);
        }
    }
}

/// At the start of a text, bytes match where characters do.
proof fn lemma_prefix(haystack: Seq<char>, needle: Seq<char>)
    ensures
        occurs_at(encode_utf8(haystack), encode_utf8(needle), 0) == text_occurs_at(
            haystack,
            needle,
            0,
        ),
    decreases needle.len(),
{
    if needle.len() == 0 {
        assert(encode_utf8(needle).len() == 0);
    } else if haystack.len() == 0 {
        assert(encode_utf8(haystack).len() == 0);
        lemma_first_char(needle);
    } else {
        lemma_prefix(haystack.drop_first(), needle.drop_first());
        let h = haystack.subrange(0, needle.len() as int);
        let h_rest = haystack.drop_first().subrange(0, needle.len() - 1);
        if occurs_at(encode_utf8(haystack), encode_utf8(needle), 0) {
            lemma_same_first_char(haystack, needle);
            assert forall|i: int| 0 <= i < needle.len() implies folded_code(#[trigger] h[i])
                == folded_code(needle[i]) by {
                if i > 0 {
                    assert(h_rest[i - 1] == h[i]);
                    assert(needle.drop_first()[i - 1] == needle[i]);
                }
            }
        }
        if text_occurs_at(haystack, needle, 0) {
            assert(h[0] == haystack[0]);
            assert forall|i: int| 0 <= i < needle.len() - 1 implies folded_code(
                #[trigger] h_rest[i],
            ) == folded_code(needle.drop_first()[i]) by {
                assert(h[i + 1] == h_rest[i]);
            }
            lemma_same_first_bytes(haystack, needle);
        }
    }
}

/// Where bytes match, characters match.
proof fn lemma_bytes_to_text(haystack: Seq<char>, needle: Seq<char>, at: int) -> (place: int)
    requires
        occurs_at(encode_utf8(haystack), encode_utf8(needle), at),
    ensures
        text_occurs_at(haystack, needle, place),
    decreases haystack.len(),
{
    lemma_prefix(haystack, needle);
    if needle.len() == 0 {
        assert(encode_utf8(needle).len() == 0);
        0
    } else if at == 0 {
        0
    } else {
        let h = encode_utf8(haystack);
        let n = encode_utf8(needle);
        lemma_first_char(needle);
        if haystack.len() == 0 {
            assert(h.len() == 0);
        }
        lemma_first_char(haystack);
        let width = encode_scalar(haystack[0] as u32).len() as int;
        let window = h.subrange(at, at + n.len());
        assert(folded(window[0]) == folded(n[0]));
        assert(at >= width);
        let rest = encode_utf8(haystack.drop_first());
        assert(rest.subrange(at - width, at - width + n.len()) =~= window);
        let place = lemma_bytes_to_text(haystack.drop_first(), needle, at - width);
        assert(haystack.drop_first().subrange(place, place + needle.len()) =~= haystack.subrange(
            place + 1,
            place + 1 + needle.len(),
        ));
        place + 1
    }
}

/// Where characters match, bytes match.
proof fn lemma_text_to_bytes(haystack: Seq<char>, needle: Seq<char>, place: int) -> (at: int)
    requires
        text_occurs_at(haystack, needle, place),
    ensures
        occurs_at(encode_utf8(haystack), encode_utf8(needle), at),
    decreases haystack.len(),
{
    lemma_prefix(haystack, needle);
    if place == 0 {
        0
    } else {
        let h = encode_utf8(haystack);
        let n = encode_utf8(needle);
        lemma_first_char(haystack);
        let width = encode_scalar(haystack[0] as u32).len() as int;
        assert(haystack.drop_first().subrange(place - 1, place - 1 + needle.len())
            =~= haystack.subrange(place, place + needle.len()));
        let at = lemma_text_to_bytes(haystack.drop_first(), needle, place - 1);
        let rest = encode_utf8(haystack.drop_first());
        assert(rest.subrange(at, at + n.len()) =~= h.subrange(at + width, at + width + n.len()));
        at + width
    }
}

/// A text matches a keyword exactly where the characters of the keyword stand one behind the other
/// in it, but for the case of ASCII letters.
pub proof fn lemma_matches_characters(haystack: Seq<char>, needle: Seq<char>)
    ensures
        matches_text(haystack, needle) <==> exists|at: int| text_occurs_at(haystack, needle, at),
{
    if matches_text(haystack, needle) {
        let at = choose|at: int| occurs_at(encode_utf8(haystack), encode_utf8(needle), at);
        let place = lemma_bytes_to_text(haystack, needle, at);
    }
    if exists|at: int| text_occurs_at(haystack, needle, at) {
        let place = choose|at: int| text_occurs_at(haystack, needle, at);
        let at = lemma_text_to_bytes(haystack, needle, place);
        assert(occurs(encode_utf8(haystack), encode_utf8(needle)));
    }
}

/// Whether a text matches a keyword does not depend on the case of ASCII letters in either.
pub proof fn lemma_case_does_not_matter(
    haystack1: Seq<char>,
    needle1: Seq<char>,
    haystack2: Seq<char>,
    needle2: Seq<char>,
)
    requires
        same_text_but_for_case(haystack1, haystack2),
        same_text_but_for_case(needle1, needle2),
    ensures
        matches_text(haystack1, needle1) == matches_text(haystack2, needle2),
{
    lemma_matches_characters(haystack1, needle1);
    lemma_matches_characters(haystack2, needle2);
    assert forall|at: int| text_occurs_at(haystack1, needle1, at) == text_occurs_at(
        haystack2,
        needle2,
        at,
    ) by {
        if 0 <= at <= haystack1.len() - needle1.len() {
            let w1 = haystack1.subrange(at, at + needle1.len());
            let w2 = haystack2.subrange(at, at + needle2.len());
            assert forall|i: int| 0 <= i < w1.len() implies folded_code(w1[i]) == folded_code(
                w2[i],
            ) by {
                assert(w1[i] == haystack1[at + i]);
                assert(w2[i] == haystack2[at + i]);
            }
            if text_occurs_at(haystack1, needle1, at) {
                assert forall|i: int| 0 <= i < w2.len() implies folded_code(#[trigger] w2[i])
                    == folded_code(needle2[i]) by {
                    assert(folded_code(w1[i]) == folded_code(needle1[i]));
                }
            }
            if text_occurs_at(haystack2, needle2, at) {
                assert forall|i: int| 0 <= i < w1.len() implies folded_code(#[trigger] w1[i])
                    == folded_code(needle1[i]) by {
                    assert(folded_code(w2[i]) == folded_code(needle2[i]));
                }
            }
        }
    }
}

/// The empty keyword matches every text.
pub proof fn lemma_empty_keyword_matches(haystack: Seq<char>)
    ensures
        matches_text(haystack, Seq::empty()),
{
    assert(encode_utf8(Seq::<char>::empty()).len() == 0);
    assert(occurs_at(encode_utf8(haystack), encode_utf8(Seq::empty()), 0));
}

/// The keyword lies within one line: it holds neither a line feed nor a carriage return.
pub open spec fn in_one_line(keyword: Seq<char>) -> bool {
    !keyword.contains('\n') && !keyword.contains('\r')
}

/// A keyword that stands in a text and lies within one line stands in one of its lines.
proof fn lemma_line_with_keyword(text: Seq<char>, keyword: Seq<char>, at: int) -> (line: int)
    requires
        keyword.len() > 0,
        in_one_line(keyword),
        text_occurs_at(text, keyword, at),
    ensures
        0 <= line < text_lines(text).len(),
        matches_text(text_lines(text)[line], keyword),
    decreases text.len(),
{
    let window = text.subrange(at, at + keyword.len());
    assert forall|i: int| 0 <= i < keyword.len() implies #[trigger] text[at + i] != '\n' && text[at
        + i] != '\r' by {
        assert(window[i] == text[at + i]);
        assert(folded_code(window[i]) == folded_code(keyword[i]));
        assert(keyword.contains(keyword[i]));
    }
    if !text.contains('\n') {
        lemma_matches_characters(text, keyword);
        0
    } else {
        text.index_of_first_ensures('\n');
        let end = text.index_of_first('\n')->0;
        let first = text.take(end);
        let line = without_carriage_return(first);
        if at + keyword.len() <= end {
            assert(text[at + (keyword.len() - 1)] != '\r');
            if line != first {
                assert(first[end - 1] == '\r');
                assert(text[end - 1] == '\r');
            }
            assert(line.subrange(at, at + keyword.len()) =~= window);
            lemma_matches_characters(line, keyword);
            assert(text_occurs_at(line, keyword, at));
            assert(text_lines(text)[0] == line);
            0
        } else {
            if at <= end {
                assert(text[at + (end - at)] != '\n');
            }
            let rest = text.skip(end + 1);
            assert(rest.subrange(at - end - 1, at - end - 1 + keyword.len()) =~= window);
            let line = lemma_line_with_keyword(rest, keyword, at - end - 1);
            assert(text_lines(text)[line + 1] == text_lines(rest)[line]);
            line + 1
        }
    }
}

/// Every line near a match is among those that are shown.
proof fn lemma_shown(
    lines: Seq<Seq<char>>,
    keyword: Seq<char>,
    context: int,
    seen: int,
    count: int,
    i: int,
)
    requires
        0 <= i < count,
        near_match(lines, keyword, context, seen, i),
    ensures
        lines_near_match(lines, keyword, context, seen, count).contains(lines[i]),
    decreases count,
{
    let before = lines_near_match(lines, keyword, context, seen, count - 1);
    let all = lines_near_match(lines, keyword, context, seen, count);
    if i == count - 1 {
        assert(all[before.len() as int] == lines[i]);
    } else {
        lemma_shown(lines, keyword, context, seen, count - 1, i);
        let k = before.index_of(lines[i]);
        assert(all[k] == lines[i]);
    }
}

/// Where a text matches a keyword that lies within one line, a line that matches it is shown, also
/// where the keyword is looked up in other case.
pub proof fn lemma_match_is_shown(
    text: Seq<char>,
    keyword: Seq<char>,
    lowered: Seq<char>,
    context: int,
)
    requires
        keyword.len() > 0,
        in_one_line(keyword),
        matches_text(text, keyword),
        same_text_but_for_case(keyword, lowered),
        context >= 0,
    ensures
        exists|line: Seq<char>| #[trigger]
            matched_lines(text, lowered, context).contains(line) && matches_text(line, lowered),
{
    lemma_matches_characters(text, keyword);
    let at = choose|at: int| text_occurs_at(text, keyword, at);
    let i = lemma_line_with_keyword(text, keyword, at);
    let all = text_lines(text);
    assert(same_text_but_for_case(all[i], all[i]));
    lemma_case_does_not_matter(all[i], keyword, all[i], lowered);
    assert(matches_text(all[i], lowered));
    assert(near_match(all, lowered, context, all.len() as int, i));
    lemma_shown(all, lowered, context, all.len() as int, all.len() as int, i);
    assert(matched_lines(text, lowered, context).contains(all[i]));
}

} // verus!
