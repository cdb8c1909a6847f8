//! Which documents the parser can take on.

use vstd::prelude::*;

use crate::limits::{
    after_name, after_spaces, attributes_fit, clock_fits, codes, digit_value, fraction_fits,
    place_of, resolved_codes, tag_at_fits, tag_end, tag_fits, time_fits, within_limits,
};

verus! {

/// The text is made of decimal digits.
pub open spec fn all_digits(text: Seq<char>) -> bool {
    forall|i: int| 0 <= i < text.len() ==> '0' <= #[trigger] text[i] <= '9'
}

/// The number that the digits tell.
pub open spec fn number(digits: Seq<char>) -> int
    decreases digits.len(),
{
    if digits.len() == 0 {
        0
    } else {
        number(digits.drop_last()) * 10 + (digits.last() as int - 48)
    }
}

/// The milliseconds that the digits behind a point tell. Those behind the third do not count.
pub open spec fn milliseconds(fraction: Seq<char>) -> int {
    if fraction.len() == 0 {
        0
    } else if fraction.len() == 1 {
        number(fraction) * 100
    } else if fraction.len() == 2 {
        number(fraction) * 10
    } else {
        number(fraction.take(3))
    }
}

proof fn lemma_number_grows(digits: Seq<char>, n: int, m: int)
    requires
        all_digits(digits),
        0 <= n <= m <= digits.len(),
    ensures
        0 <= number(digits.take(n)) <= number(digits.take(m)),
    decreases m,
{
    if m > 0 {
        assert(digits.take(m).drop_last() =~= digits.take(m - 1));
        assert('0' <= digits[m - 1] <= '9');
        lemma_number_grows(digits, if n < m { n } else { m - 1 }, m - 1);
    }
}

/// A run of digits, read from its start, comes to the number that it tells.
proof fn lemma_digits(
    time: Seq<int>,
    at: int,
    digits: Seq<char>,
    n: int,
    colons: int,
    total: int,
)
    requires
        all_digits(digits),
        0 <= n <= digits.len(),
        0 <= at,
        at + digits.len() <= time.len(),
        forall|i: int| 0 <= i < digits.len() ==> #[trigger] time[at + i] == digits[i] as int,
    ensures
        clock_fits(time, at, colons, total, 0) == (if number(digits.take(n)) > u32::MAX {
            false
        } else {
            clock_fits(time, at + n, colons, total, number(digits.take(n)))
        }),
    decreases n,
{
    if n == 0 {
        assert(digits.take(0).len() == 0);
    } else {
        lemma_digits(time, at, digits, n - 1, colons, total);
        lemma_number_grows(digits, n - 1, n);
        lemma_number_grows(digits, 0, n - 1);
        assert(digits.take(n).drop_last() =~= digits.take(n - 1));
        assert(time[at + (n - 1)] == digits[n - 1] as int);
        assert('0' <= digits[n - 1] <= '9');
        assert(digit_value(time[at + n - 1], 10) == Some(digits[n - 1] as int - 48));
        let before = number(digits.take(n - 1));
        let now = number(digits.take(n));
        assert(now == before * 10 + (digits[n - 1] as int - 48));
        if before <= u32::MAX {
            assert(clock_fits(time, at + (n - 1), colons, total, before) == clock_fits(
                time,
                at + (n - 1) + 1,
                colons,
                total,
                now,
            ));
            if now > u32::MAX {
                assert(!clock_fits(time, at + n, colons, total, now));
            }
        }
    }
}

/// The digits behind a point come to the milliseconds that they tell.
proof fn lemma_fraction(time: Seq<int>, at: int, digits: Seq<char>, n: int, seconds: int)
    requires
        all_digits(digits),
        0 <= n <= digits.len(),
        0 <= at,
        at + digits.len() == time.len(),
        forall|i: int| 0 <= i < digits.len() ==> #[trigger] time[at + i] == digits[i] as int,
    ensures
        fraction_fits(time, at, seconds, 0, 0) == fraction_fits(
            time,
            at + n,
            seconds,
            if n < 3 {
                n
            } else {
                3
            },
            number(
                digits.take(
                    if n < 3 {
                        n
                    } else {
                        3
                    },
                ),
            ),
        ),
    decreases n,
{
    if n == 0 {
        assert(digits.take(0).len() == 0);
    } else {
        lemma_fraction(time, at, digits, n - 1, seconds);
        assert(time[at + (n - 1)] == digits[n - 1] as int);
        assert('0' <= digits[n - 1] <= '9');
        assert(digit_value(time[at + n - 1], 10) == Some(digits[n - 1] as int - 48));
        if n <= 3 {
            assert(digits.take(n).drop_last() =~= digits.take(n - 1));
        }
    }
}

/// The end of a time: its last number, and the fraction behind a point where there is one.
proof fn lemma_last_number(
    time: Seq<int>,
    at: int,
    digits: Seq<char>,
    fraction: Option<Seq<char>>,
    colons: int,
    total: int,
)
    requires
        total >= 0,
        all_digits(digits),
        0 <= at,
        match fraction {
            Some(f) => all_digits(f) && time.len() == at + digits.len() + 1 + f.len() && time[at
                + digits.len()] == 46 && forall|i: int|
                0 <= i < f.len() ==> #[trigger] time[at + digits.len() + 1 + i] == f[i] as int,
            None => time.len() == at + digits.len(),
        },
        forall|i: int| 0 <= i < digits.len() ==> #[trigger] time[at + i] == digits[i] as int,
    ensures
        clock_fits(time, at, colons, total, 0) <==> (total * 60 + number(digits)) * 1000 + (
        match fraction {
            Some(f) => milliseconds(f),
            None => 0,
        }) <= u32::MAX,
{
    let end = at + digits.len();
    lemma_digits(time, at, digits, digits.len() as int, colons, total);
    assert(digits.take(digits.len() as int) =~= digits);
    lemma_number_grows(digits, 0, digits.len() as int);
    if let Some(f) = fraction {
        assert forall|i: int| 0 <= i < f.len() implies #[trigger] time[(end + 1) + i]
            == f[i] as int by {
            assert(time[at + digits.len() + 1 + i] == f[i] as int);
        }
        lemma_fraction(time, end + 1, f, f.len() as int, total * 60 + number(digits));
        lemma_number_grows(f, 0, f.len() as int);
        assert(f.take(f.len() as int) =~= f);
        if f.len() >= 3 {
            lemma_number_grows(f, 0, 3);
        }
        assert(f.take(0).len() == 0);
    }
}

/// The time as it is written: the numbers with colons between them, and a fraction behind a point.
pub open spec fn written_time(numbers: Seq<Seq<char>>, fraction: Option<Seq<char>>) -> Seq<char> {
    let clock = if numbers.len() == 1 {
        numbers[0]
    } else if numbers.len() == 2 {
        numbers[0] + seq![':'] + numbers[1]
    } else {
        numbers[0] + seq![':'] + numbers[1] + seq![':'] + numbers[2]
    };
    match fraction {
        Some(fraction) => clock + seq!['.'] + fraction,
        None => clock,
    }
}

/// The milliseconds of a time of seconds, of minutes and seconds, or of hours, minutes and seconds.
pub open spec fn told_time(numbers: Seq<Seq<char>>, fraction: Option<Seq<char>>) -> int {
    let seconds = if numbers.len() == 1 {
        number(numbers[0])
    } else if numbers.len() == 2 {
        number(numbers[0]) * 60 + number(numbers[1])
    } else {
        number(numbers[0]) * 3600 + number(numbers[1]) * 60 + number(numbers[2])
    };
    seconds * 1000 + (match fraction {
        Some(fraction) => milliseconds(fraction),
        None => 0,
    })
}

/// A time of one to three numbers fits exactly where its milliseconds can be told by an integer of
/// 32 bits.
pub proof fn law_time(numbers: Seq<Seq<char>>, fraction: Option<Seq<char>>)
    requires
        1 <= numbers.len() <= 3,
        forall|i: int| 0 <= i < numbers.len() ==> all_digits(#[trigger] numbers[i]),
        fraction matches Some(f) ==> all_digits(f),
    ensures
        clock_fits(codes(written_time(numbers, fraction)), 0, 0, 0, 0) <==> told_time(
            numbers,
            fraction,
        ) <= 0xffff_ffff,
{
    let time = codes(written_time(numbers, fraction));
    let a = numbers[0];
    assert(all_digits(numbers[0]));
    lemma_number_grows(a, 0, a.len() as int);
    assert(a.take(a.len() as int) =~= a);
    assert(a.take(0).len() == 0);
    if let Some(f) = fraction {
        lemma_number_grows(f, 0, f.len() as int);
        assert(f.take(f.len() as int) =~= f);
        if f.len() >= 3 {
            lemma_number_grows(f, 0, 3);
        }
    }
    if numbers.len() == 1 {
        lemma_last_number(time, 0, a, fraction, 0, 0);
    } else {
        let b = numbers[1];
        assert(all_digits(numbers[1]));
        lemma_number_grows(b, 0, b.len() as int);
        assert(b.take(b.len() as int) =~= b);
        assert(time[a.len() as int] == 58);
        lemma_digits(time, 0, a, a.len() as int, 0, 0);
        let at = a.len() as int + 1;
        if numbers.len() == 2 {
            lemma_last_number(time, at, b, fraction, 1, number(a));
        } else {
            let c = numbers[2];
            assert(all_digits(numbers[2]));
            lemma_number_grows(c, 0, c.len() as int);
            assert(c.take(c.len() as int) =~= c);
            lemma_digits(time, at, b, b.len() as int, 1, number(a));
            assert(time[at + b.len()] == 58);
            lemma_last_number(
                time,
                at + b.len() + 1,
                c,
                fraction,
                2,
                number(a) * 60 + number(b),
            );
        }
    }
}

/// The text holds four digits in a row.
pub open spec fn has_four_digits(text: Seq<char>) -> bool {
    exists|i: int|
        0 <= i && i + 4 <= text.len() && all_digits(#[trigger] text.subrange(i, i + 4))
}

spec fn below(k: int) -> int {
    if k == 0 {
        0
    } else if k == 1 {
        9
    } else if k == 2 {
        99
    } else {
        999
    }
}

proof fn lemma_short_fraction_fits(
    time: Seq<int>,
    at: int,
    seconds: int,
    digits: int,
    fraction: int,
)
    requires
        0 <= at,
        0 <= seconds <= 3_657_339,
        0 <= digits <= 3,
        0 <= fraction <= below(digits),
    ensures
        fraction_fits(time, at, seconds, digits, fraction),
    decreases time.len() - at,
{
    if at < time.len() {
        if let Some(digit) = digit_value(time[at], 10) {
            if digits < 3 {
                lemma_short_fraction_fits(
                    time,
                    at + 1,
                    seconds,
                    digits + 1,
                    fraction * 10 + digit,
                );
            } else {
                lemma_short_fraction_fits(time, at + 1, seconds, digits, fraction);
            }
        }
    }
}

/// Numbers of at most three digits never come to too much.
proof fn lemma_short_numbers_fit(
    value: Seq<char>,
    at: int,
    colons: int,
    total: int,
    current: int,
    run: int,
)
    requires
        !has_four_digits(value),
        0 <= run <= at <= value.len(),
        run <= 3,
        all_digits(value.subrange(at - run, at)),
        0 <= colons <= 2,
        0 <= current <= below(run),
        colons == 0 ==> total == 0,
        colons == 1 ==> 0 <= total <= 999,
        colons == 2 ==> 0 <= total <= 60_939,
    ensures
        clock_fits(codes(value), at, colons, total, current),
    decreases value.len() - at,
{
    let time = codes(value);
    if at < value.len() {
        let c = value[at];
        assert(time[at] == c as int);
        if c == '.' {
            lemma_short_fraction_fits(time, at + 1, total * 60 + current, 0, 0);
        } else if c == ':' {
            if colons < 2 {
                lemma_short_numbers_fit(value, at + 1, colons + 1, total * 60 + current, 0, 0);
            }
        } else if '0' <= c <= '9' {
            let digits = value.subrange(at - run, at + 1);
            assert forall|i: int| 0 <= i < digits.len() implies '0' <= #[trigger] digits[i]
                <= '9' by {
                if i < run {
                    assert(value.subrange(at - run, at)[i] == digits[i]);
                }
            }
            if run == 3 {
                assert(value.subrange(at - 3, (at - 3) + 4) =~= digits);
            }
            lemma_short_numbers_fit(
                value,
                at + 1,
                colons,
                total,
                current * 10 + (c as int - 48),
                run + 1,
            );
        }
    }
}

proof fn lemma_nothing_to_resolve(value: Seq<char>, at: int)
    requires
        !value.contains('&'),
        0 <= at <= value.len(),
    ensures
        resolved_codes(value, at) == Some(codes(value).skip(at)),
    decreases value.len() - at,
{
    if at < value.len() {
        assert(value.contains(value[at]));
        lemma_nothing_to_resolve(value, at + 1);
        assert(seq![value[at] as int] + codes(value).skip(at + 1) =~= codes(value).skip(at));
    } else {
        assert(codes(value).skip(at) =~= Seq::empty());
    }
}

proof fn lemma_short_time_fits(value: Seq<char>, in_span: bool)
    requires
        !value.contains('&'),
        !has_four_digits(value),
    ensures
        time_fits(value, in_span),
{
    lemma_nothing_to_resolve(value, 0);
    assert(codes(value).skip(0) =~= codes(value));
    lemma_short_numbers_fit(value, 0, 0, 0, 0, 0);
}

proof fn lemma_scans(tag: Seq<char>, at: int, c: char)
    requires
        0 <= at <= tag.len(),
    ensures
        at <= after_spaces(tag, at) <= tag.len(),
        at <= after_name(tag, at) <= tag.len(),
        at <= place_of(tag, at, c) <= tag.len(),
        place_of(tag, at, c) < tag.len() ==> tag[place_of(tag, at, c)] == c,
        forall|k: int| at <= k < place_of(tag, at, c) ==> tag[k] != c,
    decreases tag.len() - at,
{
    if at < tag.len() {
        lemma_scans(tag, at + 1, c);
    }
}

/// A quoted value of an attribute `begin` or `end`: the places of the name, of the first character
/// of the value and of the quote behind it.
pub open spec fn is_time_value(text: Seq<char>, name: int, from: int, to: int) -> bool {
    &&& 0 <= name < from <= to < text.len()
    &&& (name + 5 < from && text.subrange(name, name + 5) == "begin"@) || (name + 3 < from
        && text.subrange(name, name + 3) == "end"@)
    &&& text[to] == '"' || text[to] == '\''
    &&& text[from - 1] == text[to]
    &&& !text.subrange(from, to).contains(text[to])
}

proof fn lemma_bad_attribute(tag: Seq<char>, at: int, in_span: bool) -> (found: (int, int, int))
    requires
        0 <= at <= tag.len(),
        !attributes_fit(tag, at, in_span),
    ensures
        is_time_value(tag, found.0, found.1, found.2),
        !time_fits(tag.subrange(found.1, found.2), in_span),
    decreases tag.len() - at,
{
    let start = after_spaces(tag, at);
    let name_end = after_name(tag, start + 1);
    let equals = after_spaces(tag, name_end);
    let quote = after_spaces(tag, equals + 1);
    let close = place_of(tag, quote + 1, tag[quote]);
    let name = tag.subrange(start, name_end);
    let value = tag.subrange(quote + 1, close);
    lemma_scans(tag, quote + 1, tag[quote]);
    reveal_strlit("begin");
    reveal_strlit("end");
    if (name == "begin"@ || name == "end"@) && !time_fits(value, in_span) {
        assert(!value.contains(tag[close])) by {
            if value.contains(tag[close]) {
                let k = value.index_of(tag[close]);
                assert(tag[quote + 1 + k] == tag[quote]);
            }
        }
        assert(tag.subrange(start, start + name.len()) =~= name);
        (start, quote + 1, close)
    } else {
        lemma_bad_attribute(tag, close + 1, in_span)
    }
}

proof fn lemma_tag_end_is_inside(content: Seq<char>, at: int, quote: Option<char>)
    requires
        0 <= at,
    ensures
        tag_end(content, at, quote) matches Some(end) ==> at <= end < content.len(),
    decreases content.len() - at,
{
    if at < content.len() {
        lemma_tag_end_is_inside(content, at + 1, None);
        lemma_tag_end_is_inside(content, at + 1, Some(content[at]));
        lemma_tag_end_is_inside(content, at + 1, quote);
    }
}

/// A document of an ordinary length is refused only where the value of an attribute `begin` or
/// `end` holds a reference or four digits in a row.
pub proof fn law_refused(content: Seq<char>) -> (found: (int, int, int))
    requires
        content.len() <= 0xffff_ffff,
        !within_limits(content),
    ensures
        is_time_value(content, found.0, found.1, found.2),
        ({
            let value = content.subrange(found.1, found.2);
            value.contains('&') || has_four_digits(value)
        }),
{
    let at = choose|at: int|
        0 < at <= content.len() && content[at - 1] == '<' && !#[trigger] tag_at_fits(content, at);
    lemma_tag_end_is_inside(content, at, None);
    let end = tag_end(content, at, None)->0;
    let tag = content.subrange(at, end);
    assert(!tag_fits(tag));
    let in_span = !(tag.len() > 1 && tag.take(1) == "p"@ && crate::limits::is_xml_space(tag[1])
        && !attributes_fit(tag, 1, false));
    let start: int = if in_span {
        4
    } else {
        1
    };
    let found = lemma_bad_attribute(tag, start, in_span);
    let value = tag.subrange(found.1, found.2);
    if !value.contains('&') && !has_four_digits(value) {
        lemma_short_time_fits(value, in_span);
    }
    let (name, from, to) = (at + found.0, at + found.1, at + found.2);
    reveal_strlit("begin");
    reveal_strlit("end");
    assert(content.subrange(from, to) =~= value);
    if found.0 + 5 < found.1 {
        assert(content.subrange(name, name + 5) =~= tag.subrange(found.0, found.0 + 5));
    }
    assert(content.subrange(name, name + 3) =~= tag.subrange(found.0, found.0 + 3));
    assert(tag[found.2] == content[to]);
    assert(tag[found.1 - 1] == content[from - 1]);
    (name, from, to)
}

proof fn lemma_skips(text: Seq<char>, from: int, to: int, c: char)
    requires
        0 <= from <= to < text.len(),
    ensures
        (forall|k: int| from <= k < to ==> text[k] != c) && text[to] == c ==> place_of(
            text,
            from,
            c,
        ) == to,
        (forall|k: int|
            from <= k < to ==> text[k] != '>' && text[k] != '"' && text[k] != '\'') ==> tag_end(
            text,
            from,
            None,
        ) == tag_end(text, to, None),
        (forall|k: int| from <= k < to ==> text[k] != c) ==> tag_end(text, from, Some(c))
            == tag_end(text, to, Some(c)),
        (forall|k: int|
            from <= k < to ==> !crate::limits::is_xml_space(text[k]) && text[k] != '=') && text[to]
            == '=' ==> after_name(text, from) == to,
    decreases to - from,
{
    if from < to {
        lemma_skips(text, from + 1, to, c);
    }
}

/// The places of a tag with one attribute: its name up to `space`, the name of the attribute behind
/// that up to `equals`, and the value between two quotes.
spec fn is_simple_tag(tag: Seq<char>, space: int, equals: int) -> bool {
    &&& 0 < space < space + 1 < equals
    &&& equals + 2 < tag.len()
    &&& tag[space] == ' '
    &&& tag[equals] == '='
    &&& tag[equals + 1] == '"'
    &&& tag[tag.len() - 1] == '"'
    &&& forall|k: int|
        0 <= k < equals && k != space ==> 'a' <= #[trigger] tag[k] <= 'z'
    &&& forall|k: int| equals + 1 < k < tag.len() - 1 ==> #[trigger] tag[k] != '"'
}

proof fn lemma_end_of_simple_tag(
    content: Seq<char>,
    at: int,
    tag: Seq<char>,
    space: int,
    equals: int,
)
    requires
        is_simple_tag(tag, space, equals),
        0 <= at,
        at + tag.len() < content.len(),
        forall|k: int| 0 <= k < tag.len() ==> #[trigger] content[at + k] == tag[k],
        content[at + tag.len()] == '>',
    ensures
        tag_end(content, at, None) == Some(at + tag.len()),
{
    let quote = at + equals + 1;
    let close = at + tag.len() - 1;
    assert forall|k: int| at <= k < quote implies content[k] != '>' && content[k] != '"'
        && content[k] != '\'' by {
        assert(content[at + (k - at)] == tag[k - at]);
    }
    lemma_skips(content, at, quote, '"');
    assert(content[at + (equals + 1)] == '"');
    assert forall|k: int| quote + 1 <= k < close implies content[k] != '"' by {
        assert(content[at + (k - at)] == tag[k - at]);
    }
    lemma_skips(content, quote + 1, close, '"');
    assert(content[at + (tag.len() - 1)] == '"');
    assert(tag_end(content, quote, None) == tag_end(content, quote + 1, Some('"')));
    assert(tag_end(content, close, Some('"')) == tag_end(content, close + 1, None));
    assert(tag_end(content, close + 1, None) == Some(close + 1));
}

proof fn lemma_attribute_of_simple_tag(tag: Seq<char>, space: int, equals: int, in_span: bool)
    requires
        is_simple_tag(tag, space, equals),
        tag.subrange(space + 1, equals) == "begin"@ || tag.subrange(space + 1, equals) == "end"@,
        attributes_fit(tag, space, in_span),
    ensures
        time_fits(tag.subrange(equals + 2, tag.len() - 1), in_span),
{
    let start = space + 1;
    let close = tag.len() - 1;
    assert('a' <= tag[start] <= 'z');
    assert(after_spaces(tag, start) == start);
    assert(after_spaces(tag, space) == start);
    assert forall|k: int| start + 1 <= k < equals implies !crate::limits::is_xml_space(tag[k])
        && tag[k] != '=' by {
        assert('a' <= tag[k] <= 'z');
    }
    lemma_skips(tag, start + 1, equals, '"');
    assert(after_spaces(tag, equals) == equals);
    assert(after_spaces(tag, equals + 1) == equals + 1);
    lemma_skips(tag, equals + 2, close, '"');
}

/// A document with a tag of a line or a span whose attribute `begin` or `end` holds a time, without
/// references, is within the limits only where the time fits.
pub proof fn law_times_are_checked(
    before: Seq<char>,
    tag_name: Seq<char>,
    word: Seq<char>,
    time: Seq<char>,
    behind: Seq<char>,
)
    requires
        tag_name == "p"@ || tag_name == "span"@,
        word == "begin"@ || word == "end"@,
        !time.contains('"'),
        !time.contains('&'),
        within_limits(
            before + seq!['<'] + (tag_name + seq![' '] + word + seq!['=', '"'] + time + seq!['"'])
                + seq!['>'] + behind,
        ),
    ensures
        clock_fits(codes(time), 0, 0, 0, 0),
{
    let tag = tag_name + seq![' '] + word + seq!['=', '"'] + time + seq!['"'];
    let content = before + seq!['<'] + tag + seq!['>'] + behind;
    let at = before.len() as int + 1;
    let space = tag_name.len() as int;
    let equals = space + 1 + word.len();
    lemma_is_simple_tag(tag_name, word, time);
    assert(content[at - 1] == '<');
    assert(tag_at_fits(content, at));
    assert(content.subrange(at, at + tag.len()) =~= tag);
    assert forall|k: int| 0 <= k < tag.len() implies #[trigger] content[at + k] == tag[k] by {}
    lemma_end_of_simple_tag(content, at, tag, space, equals);
    assert(tag_fits(tag));
    assert(tag.take(space) =~= tag_name);
    let in_span = tag_name == "span"@;
    assert("p"@.len() == 1 && "span"@.len() == 4) by {
        reveal_strlit("p");
        reveal_strlit("span");
    }
    assert(attributes_fit(tag, space, in_span));
    assert(tag.subrange(space + 1, equals) =~= word);
    assert(tag.subrange(equals + 2, tag.len() - 1) =~= time);
    lemma_attribute_of_simple_tag(tag, space, equals, in_span);
    lemma_nothing_to_resolve(time, 0);
    assert(codes(time).skip(0) =~= codes(time));
}

proof fn lemma_is_simple_tag(tag_name: Seq<char>, word: Seq<char>, time: Seq<char>)
    requires
        tag_name == "p"@ || tag_name == "span"@,
        word == "begin"@ || word == "end"@,
        !time.contains('"'),
    ensures
        is_simple_tag(
            tag_name + seq![' '] + word + seq!['=', '"'] + time + seq!['"'],
            tag_name.len() as int,
            tag_name.len() as int + 1 + word.len(),
        ),
{
    reveal_strlit("p");
    reveal_strlit("span");
    reveal_strlit("begin");
    reveal_strlit("end");
    let tag = tag_name + seq![' '] + word + seq!['=', '"'] + time + seq!['"'];
    let space = tag_name.len() as int;
    let equals = space + 1 + word.len();
    assert forall|k: int| 0 <= k < tag_name.len() implies 'a' <= #[trigger] tag_name[k] <= 'z' by {}
    assert forall|k: int| 0 <= k < word.len() implies 'a' <= #[trigger] word[k] <= 'z' by {}
    assert forall|k: int| 0 <= k < equals && k != space implies 'a' <= #[trigger] tag[k] <= 'z' by {
        if k < space {
            assert(tag[k] == tag_name[k]);
        } else {
            assert(tag[k] == word[k - space - 1]);
        }
    }
    assert forall|k: int| equals + 1 < k < tag.len() - 1 implies #[trigger] tag[k] != '"' by {
        assert(tag[k] == time[k - equals - 2]);
        assert(time.contains(time[k - equals - 2]));
    }
}

} // verus!
