//! Finding a keyword in a text, and the lines around its occurrences.

use vstd::prelude::*;
use vstd::utf8::encode_utf8;

use crate::text::{lines, text_lines, views};

verus! {

/// The byte, with an upper case ASCII letter made lower case.
pub open spec fn folded(byte: u8) -> u8 {
    if 65 <= byte <= 90 {
        (byte + 32) as u8
    } else {
        byte
    }
}

/// Both sequences hold the same bytes, but for the case of ASCII letters.
pub open spec fn same_but_for_case(a: Seq<u8>, b: Seq<u8>) -> bool {
    a.len() == b.len() && forall|i: int|
        0 <= i < a.len() ==> folded(#[trigger] a[i]) == folded(b[i])
}

/// The needle stands in the haystack at the given place, but for the case of ASCII letters.
pub open spec fn occurs_at(haystack: Seq<u8>, needle: Seq<u8>, at: int) -> bool {
    0 <= at <= haystack.len() - needle.len() && same_but_for_case(
        haystack.subrange(at, at + needle.len()),
        needle,
    )
}

/// The needle stands somewhere in the haystack, but for the case of ASCII letters.
pub open spec fn occurs(haystack: Seq<u8>, needle: Seq<u8>) -> bool {
    exists|at: int| occurs_at(haystack, needle, at)
}

/// The UTF-8 form of the needle occurs in that of the haystack.
pub open spec fn matches_text(haystack: Seq<char>, needle: Seq<char>) -> bool {
    occurs(encode_utf8(haystack), encode_utf8(needle))
}

fn fold(byte: u8) -> (res: u8)
    ensures
        res == folded(byte),
{
    if 65 <= byte && byte <= 90 {
        byte + 32
    } else {
        byte
    }
}

/// Tells whether the needle stands in the haystack at the given place.
fn window_matches(haystack: &[u8], needle: &[u8], at: usize) -> (res: bool)
    requires
        at + needle@.len() <= haystack@.len(),
    ensures
        res == occurs_at(haystack@, needle@, at as int),
{
    let ghost window = haystack@.subrange(at as int, at + needle@.len());
    let size: usize = haystack.len();
    let mut i: usize = 0;
    while i < needle.len()
        invariant
            i <= needle@.len(),
            at + needle@.len() <= haystack@.len(),
            size == haystack@.len(),
            window == haystack@.subrange(at as int, at + needle@.len()),
            forall|k: int| 0 <= k < i ==> folded(#[trigger] window[k]) == folded(needle@[k]),
        decreases needle@.len() - i,
    {
        if fold(haystack[at + i]) != fold(needle[i]) {
            assert(folded(window[i as int]) != folded(needle@[i as int]));
            return false;
        }
        assert(window[i as int] == haystack@[at + i]);
        i = i + 1;
    }
    true
}

/// Tells whether `needle` occurs in `haystack`, without regard to the case of ASCII letters.
/// All other characters have to be the same. The empty needle occurs everywhere.
pub fn contains_ignore_ascii_case(haystack: &str, needle: &str) -> (res: bool)
    ensures
        res == matches_text(haystack@, needle@),
{
    let haystack_bytes = haystack.as_bytes();
    let needle_bytes = needle.as_bytes();
    if needle_bytes.len() == 0 {
        assert(occurs_at(haystack_bytes@, needle_bytes@, 0));
        return true;
    }
    if haystack_bytes.len() < needle_bytes.len() {
        return false;
    }
    let last: usize = haystack_bytes.len() - needle_bytes.len();
    let mut at: usize = 0;
    while at <= last
        invariant
            haystack_bytes@ == encode_utf8(haystack@),
            needle_bytes@ == encode_utf8(needle@),
            needle_bytes@.len() > 0,
            last == haystack_bytes@.len() - needle_bytes@.len(),
            last < usize::MAX,
            at <= last + 1,
            forall|k: int| 0 <= k < at ==> !occurs_at(haystack_bytes@, needle_bytes@, k),
        decreases last + 1 - at,
    {
        if window_matches(haystack_bytes, needle_bytes, at) {
            return true;
        }
        at = at + 1;
    }
    false
}

/// One of the first `seen` lines matches the keyword and lies at most `context` lines away from
/// line `i`.
pub open spec fn near_match(
    lines: Seq<Seq<char>>,
    keyword: Seq<char>,
    context: int,
    seen: int,
    i: int,
) -> bool {
    exists|j: int|
        0 <= j < seen && i - context <= j <= i + context && #[trigger] matches_text(
            lines[j],
            keyword,
        )
}

/// Those of the first `count` lines that are near a match in the first `seen` lines, each once and
/// in their order.
pub open spec fn lines_near_match(
    lines: Seq<Seq<char>>,
    keyword: Seq<char>,
    context: int,
    seen: int,
    count: int,
) -> Seq<Seq<char>>
    decreases count,
{
    if count <= 0 {
        Seq::empty()
    } else {
        let before = lines_near_match(lines, keyword, context, seen, count - 1);
        if near_match(lines, keyword, context, seen, count - 1) {
            before.push(lines[count - 1])
        } else {
            before
        }
    }
}

/// The lines of a text that match the keyword, and up to `context` lines before and behind each of
/// them. The empty keyword gives none.
pub open spec fn matched_lines(text: Seq<char>, keyword: Seq<char>, context: int) -> Seq<
    Seq<char>,
> {
    if keyword.len() == 0 {
        Seq::empty()
    } else {
        let all = text_lines(text);
        lines_near_match(all, keyword, context, all.len() as int, all.len() as int)
    }
}

/// Where the same lines are near a match, whatever number of lines was seen, the same lines are
/// collected.
proof fn lemma_same_near(
    lines: Seq<Seq<char>>,
    keyword: Seq<char>,
    context: int,
    seen1: int,
    seen2: int,
    count: int,
)
    requires
        forall|k: int|
            0 <= k < count ==> near_match(lines, keyword, context, seen1, k) == near_match(
                lines,
                keyword,
                context,
                seen2,
                k,
            ),
    ensures
        lines_near_match(lines, keyword, context, seen1, count) == lines_near_match(
            lines,
            keyword,
            context,
            seen2,
            count,
        ),
    decreases count,
{
    if count > 0 {
        lemma_same_near(lines, keyword, context, seen1, seen2, count - 1);
    }
}

/// Lines that are not near a match add nothing.
proof fn lemma_gap(
    lines: Seq<Seq<char>>,
    keyword: Seq<char>,
    context: int,
    seen: int,
    from: int,
    to: int,
)
    requires
        0 <= from <= to,
        forall|k: int| from <= k < to ==> !near_match(lines, keyword, context, seen, k),
    ensures
        lines_near_match(lines, keyword, context, seen, to) == lines_near_match(
            lines,
            keyword,
            context,
            seen,
            from,
        ),
    decreases to - from,
{
    if from < to {
        lemma_gap(lines, keyword, context, seen, from, to - 1);
    }
}

/// The lines up to `upto` have been decided by the first `i` lines: the last match that added
/// lines reached exactly so far, and nothing behind is near a match.
spec fn decided(
    lines: Seq<Seq<char>>,
    keyword: Seq<char>,
    context: int,
    i: int,
    upto: int,
) -> bool {
    &&& 0 <= upto <= lines.len()
    &&& forall|k: int| upto <= k < lines.len() ==> !near_match(lines, keyword, context, i, k)
    &&& upto > 0 ==> exists|j: int|
        0 <= j < i && #[trigger] matches_text(lines[j], keyword) && (upto == j + context + 1
            || upto == lines.len()) && upto <= j + context + 1
}

/// A match in line `i` makes the lines from `i - context` up to `end` near a match, and changes
/// nothing before `upto`.
proof fn lemma_match(
    lines: Seq<Seq<char>>,
    keyword: Seq<char>,
    context: int,
    i: int,
    seen: int,
    upto: int,
    start: int,
    end: int,
)
    requires
        0 <= i < lines.len(),
        seen == i + 1,
        context >= 0,
        decided(lines, keyword, context, i, upto),
        matches_text(lines[i], keyword),
        start == (if i >= context { i - context } else { 0 }),
        end == (if context >= lines.len() - i { lines.len() as int } else { i + context + 1 }),
    ensures
        upto <= end,
        decided(lines, keyword, context, seen, end),
        lines_near_match(lines, keyword, context, seen, (if start >= upto { start } else { upto }))
            == lines_near_match(lines, keyword, context, i, upto),
        forall|k: int| start <= k < end ==> near_match(lines, keyword, context, seen, k),
{
    let next = if start >= upto {
        start
    } else {
        upto
    };
    assert forall|k: int| 0 <= k < upto implies near_match(lines, keyword, context, i, k)
        == near_match(lines, keyword, context, seen, k) by {
        if near_match(lines, keyword, context, i, k) {
            let j = choose|j: int|
                0 <= j < i && k - context <= j <= k + context && #[trigger] matches_text(
                    lines[j],
                    keyword,
                );
            assert(matches_text(lines[j], keyword));
        }
        if near_match(lines, keyword, context, seen, k) && k >= start {
            let j = choose|j: int|
                0 <= j < i && #[trigger] matches_text(lines[j], keyword) && (upto == j + context + 1
                    || upto == lines.len()) && upto <= j + context + 1;
            assert(matches_text(lines[j], keyword));
        }
    }
    lemma_same_near(lines, keyword, context, i, seen, upto);
    assert forall|k: int| upto <= k < next implies !near_match(
        lines,
        keyword,
        context,
        seen,
        k,
    ) by {
        if near_match(lines, keyword, context, seen, k) {
            let j = choose|j: int|
                0 <= j < i + 1 && k - context <= j <= k + context && #[trigger] matches_text(
                    lines[j],
                    keyword,
                );
            assert(j < i);
            assert(near_match(lines, keyword, context, i, k));
        }
    }
    lemma_gap(lines, keyword, context, seen, upto, next);
    assert forall|k: int| start <= k < end implies near_match(
        lines,
        keyword,
        context,
        seen,
        k,
    ) by {
        assert(matches_text(lines[i], keyword));
    }
    assert forall|k: int| end <= k < lines.len() implies !near_match(
        lines,
        keyword,
        context,
        seen,
        k,
    ) by {
        if near_match(lines, keyword, context, seen, k) {
            let j = choose|j: int|
                0 <= j < i + 1 && k - context <= j <= k + context && #[trigger] matches_text(
                    lines[j],
                    keyword,
                );
            assert(false);
        }
    }
}

/// A line that does not match changes nothing.
proof fn lemma_no_match(
    lines: Seq<Seq<char>>,
    keyword: Seq<char>,
    context: int,
    i: int,
    seen: int,
    upto: int,
)
    requires
        0 <= i < lines.len(),
        seen == i + 1,
        decided(lines, keyword, context, i, upto),
        !matches_text(lines[i], keyword),
    ensures
        decided(lines, keyword, context, seen, upto),
        lines_near_match(lines, keyword, context, seen, upto) == lines_near_match(
            lines,
            keyword,
            context,
            i,
            upto,
        ),
{
    assert forall|k: int| near_match(lines, keyword, context, i, k) == near_match(
        lines,
        keyword,
        context,
        seen,
        k,
    ) by {
        if near_match(lines, keyword, context, i, k) {
            let j = choose|j: int|
                0 <= j < i && k - context <= j <= k + context && #[trigger] matches_text(
                    lines[j],
                    keyword,
                );
            assert(matches_text(lines[j], keyword));
        }
        if near_match(lines, keyword, context, seen, k) {
            let j = choose|j: int|
                0 <= j < i + 1 && k - context <= j <= k + context && #[trigger] matches_text(
                    lines[j],
                    keyword,
                );
            assert(j != i);
        }
    }
    lemma_same_near(lines, keyword, context, i, seen, upto);
}

/// The lines of `text` in which `keyword` occurs, with up to `context_lines` lines before and
/// behind each of them. Every line comes once, in the order of the text.
pub fn extract_matched_lines(text: &str, keyword: &str, context_lines: usize) -> (res: Vec<String>)
    ensures
        views(res@) == matched_lines(text@, keyword@, context_lines as int),
{
    let mut result: Vec<String> = Vec::new();
    if keyword.unicode_len() == 0 {
        assert(views(result@) =~= Seq::empty());
        return result;
    }
    let all = lines(text);
    let ghost model = views(all@);
    let ghost context = context_lines as int;
    // The lines before this one have been decided.
    let mut upto: usize = 0;
    let mut i: usize = 0;
    assert(views(result@) =~= lines_near_match(model, keyword@, context, 0, 0));
    while i < all.len()
        invariant
            i <= all@.len(),
            model == views(all@),
            context == context_lines as int,
            upto <= all@.len(),
            decided(model, keyword@, context, i as int, upto as int),
            views(result@) == lines_near_match(model, keyword@, context, i as int, upto as int),
        decreases all@.len() - i,
    {
        let ghost seen = i + 1;
        assert(model[i as int] == all@[i as int]@);
        if contains_ignore_ascii_case(all[i].as_str(), keyword) {
            let start: usize = if i >= context_lines {
                i - context_lines
            } else {
                0
            };
            let end: usize = if context_lines >= all.len() - i {
                all.len()
            } else {
                i + context_lines + 1
            };
            proof {
                lemma_match(
                    model,
                    keyword@,
                    context,
                    i as int,
                    seen,
                    upto as int,
                    start as int,
                    end as int,
                );
            }
            let mut next: usize = if start >= upto {
                start
            } else {
                upto
            };
            while next < end
                invariant
                    start <= next <= end <= all@.len(),
                    model == views(all@),
                    views(result@) == lines_near_match(
                        model,
                        keyword@,
                        context,
                        seen,
                        next as int,
                    ),
                    forall|k: int|
                        start <= k < end ==> near_match(model, keyword@, context, seen, k),
                decreases end - next,
            {
                assert(near_match(model, keyword@, context, seen, next as int));
                let ghost before = result@;
                result.push(all[next].clone());
                assert(views(result@) =~= views(before).push(model[next as int]));
                next = next + 1;
            }
            upto = end;
        } else {
            proof {
                lemma_no_match(model, keyword@, context, i as int, seen, upto as int);
            }
        }
        i = i + 1;
    }
    proof {
        lemma_gap(
            model,
            keyword@,
            context,
            all@.len() as int,
            upto as int,
            all@.len() as int,
        );
    }
    result
}

} // verus!
