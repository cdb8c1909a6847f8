//! The documents that the parser can take on: those in which no count of it overflows.
//!
//! A time is a number of seconds, minutes and seconds or hours, minutes and seconds, separated by
//! colons, with a fraction behind a point. Times stand in the attributes `begin` and `end` of lines
//! and spans, and the parser counts them in milliseconds, in integers of 32 bits.

use vstd::prelude::*;

use crate::text::to_chars;

verus! {

/// A space between the parts of an XML tag.
pub open spec fn is_xml_space(c: char) -> bool {
    c == ' ' || c == '\t' || c == '\r' || c == '\n'
}

/// A quote around the value of an attribute.
pub open spec fn is_quote(c: char) -> bool {
    c == '"' || c == '\''
}

/// The first place from `at` on that holds no space.
pub open spec fn after_spaces(tag: Seq<char>, at: int) -> int
    decreases tag.len() - at,
{
    if 0 <= at < tag.len() && is_xml_space(tag[at]) {
        after_spaces(tag, at + 1)
    } else {
        at
    }
}

/// The first place from `at` on that holds a space or an equals sign.
pub open spec fn after_name(tag: Seq<char>, at: int) -> int
    decreases tag.len() - at,
{
    if 0 <= at < tag.len() && !is_xml_space(tag[at]) && tag[at] != '=' {
        after_name(tag, at + 1)
    } else {
        at
    }
}

/// The first place from `at` on that holds the character.
pub open spec fn place_of(text: Seq<char>, at: int, c: char) -> int
    decreases text.len() - at,
{
    if 0 <= at < text.len() && text[at] != c {
        place_of(text, at + 1, c)
    } else {
        at
    }
}

/// The place of the `>` that ends a tag which goes on at `at`, with `quote` where a quote is open.
pub open spec fn tag_end(content: Seq<char>, at: int, quote: Option<char>) -> Option<int>
    decreases content.len() - at,
{
    if at < 0 || at >= content.len() {
        None
    } else {
        match quote {
            Some(q) => tag_end(
                content,
                at + 1,
                if content[at] == q {
                    None
                } else {
                    quote
                },
            ),
            None => if content[at] == '>' {
                Some(at)
            } else if is_quote(content[at]) {
                tag_end(content, at + 1, Some(content[at]))
            } else {
                tag_end(content, at + 1, None)
            },
        }
    }
}

/// The value of a digit in the given base, where the code is that of one.
pub open spec fn digit_value(code: int, base: int) -> Option<int> {
    if 48 <= code <= 57 {
        Some(code - 48)
    } else if base == 16 && 97 <= code <= 102 {
        Some(code - 87)
    } else if base == 16 && 65 <= code <= 70 {
        Some(code - 55)
    } else {
        None
    }
}

/// The number that the digits tell, where they are nothing but digits.
pub open spec fn number_value(digits: Seq<char>, base: int) -> Option<int>
    decreases digits.len(),
{
    if digits.len() == 0 {
        Some(0)
    } else {
        match (
            number_value(digits.drop_last(), base),
            digit_value(digits.last() as int, base),
        ) {
            (Some(before), Some(digit)) => Some(before * base + digit),
            _ => None,
        }
    }
}

/// The code of the character that a numeric reference stands for, by what follows its `#`.
pub open spec fn referenced_code(number: Seq<char>) -> Option<int> {
    let hex = number.len() > 0 && number[0] == 'x';
    let digits = if hex {
        number.drop_first()
    } else {
        number
    };
    match number_value(
        digits,
        if hex {
            16
        } else {
            10
        },
    ) {
        Some(code) => if digits.len() > 0 && (0 < code < 0xd800 || 0xdfff < code <= 0x10ffff) {
            Some(code)
        } else {
            None
        },
        None => None,
    }
}

/// The code of the character that a reference stands for, by what stands between its `&` and `;`.
pub open spec fn reference_code(name: Seq<char>) -> Option<int> {
    if name.len() > 0 && name[0] == '#' {
        referenced_code(name.drop_first())
    } else if name == "lt"@ {
        Some('<' as int)
    } else if name == "gt"@ {
        Some('>' as int)
    } else if name == "amp"@ {
        Some('&' as int)
    } else if name == "apos"@ {
        Some('\'' as int)
    } else if name == "quot"@ {
        Some('"' as int)
    } else {
        None
    }
}

/// The codes of the characters.
pub open spec fn codes(value: Seq<char>) -> Seq<int> {
    value.map_values(|c: char| c as int)
}

/// The codes of the characters from `at` on with the references resolved, unless one of them is
/// not valid.
pub open spec fn resolved_codes(value: Seq<char>, at: int) -> Option<Seq<int>>
    decreases value.len() - at,
{
    if at < 0 || at >= value.len() {
        Some(Seq::empty())
    } else if value[at] != '&' {
        match resolved_codes(value, at + 1) {
            Some(rest) => Some(seq![value[at] as int] + rest),
            None => None,
        }
    } else {
        let end = place_of(value, at + 1, ';');
        if at < end < value.len() && !value.subrange(at + 1, end).contains('&') {
            match (reference_code(value.subrange(at + 1, end)), resolved_codes(value, end + 1)) {
                (Some(code), Some(rest)) => Some(seq![code] + rest),
                _ => None,
            }
        } else {
            None
        }
    }
}

/// A number of milliseconds that an integer of 32 bits can tell.
pub open spec fn can_be_told(milliseconds: int) -> bool {
    milliseconds <= u32::MAX
}

/// The fraction of a time that goes on at `at`, with `digits` digits read that tell `fraction`, is
/// rejected, or the time with this number of whole seconds can be told in milliseconds. Digits
/// behind the third are not looked at.
pub open spec fn fraction_fits(
    time: Seq<int>,
    at: int,
    seconds: int,
    digits: int,
    fraction: int,
) -> bool
    decreases time.len() - at,
{
    if at < 0 || at >= time.len() {
        can_be_told(
            seconds * 1000 + (if digits == 1 {
                fraction * 100
            } else if digits == 2 {
                fraction * 10
            } else {
                fraction
            }),
        )
    } else {
        match digit_value(time[at], 10) {
            Some(digit) => if digits < 3 {
                fraction_fits(time, at + 1, seconds, digits + 1, fraction * 10 + digit)
            } else {
                fraction_fits(time, at + 1, seconds, digits, fraction)
            },
            None => true,
        }
    }
}

/// The time that goes on at `at`, with `colons` colons read, `current` behind the last of them and
/// `total` before it, is rejected or can be told in milliseconds, and so can each of its numbers
/// by itself.
pub open spec fn clock_fits(
    time: Seq<int>,
    at: int,
    colons: int,
    total: int,
    current: int,
) -> bool
    decreases time.len() - at,
{
    if current > u32::MAX {
        false
    } else if at < 0 || at >= time.len() {
        can_be_told((total * 60 + current) * 1000)
    } else if time[at] == '.' as int {
        fraction_fits(time, at + 1, total * 60 + current, 0, 0)
    } else if time[at] == ':' as int {
        colons >= 2 || clock_fits(time, at + 1, colons + 1, total * 60 + current, 0)
    } else {
        match digit_value(time[at], 10) {
            Some(digit) => clock_fits(time, at + 1, colons, total, current * 10 + digit),
            None => true,
        }
    }
}

/// The value of a time attribute fits, with its references resolved, and for a span (where they
/// are not always resolved) also as it stands.
pub open spec fn time_fits(value: Seq<char>, in_span: bool) -> bool {
    &&& resolved_codes(value, 0) matches Some(time) ==> clock_fits(time, 0, 0, 0, 0)
    &&& in_span ==> clock_fits(codes(value), 0, 0, 0, 0)
}

/// The times among the attributes of the tag fit, from the one that follows `at` up to the first
/// place that is no attribute.
pub open spec fn attributes_fit(tag: Seq<char>, at: int, in_span: bool) -> bool
    decreases tag.len() - at,
{
    let start = after_spaces(tag, at);
    let name_end = after_name(tag, start + 1);
    let equals = after_spaces(tag, name_end);
    let quote = after_spaces(tag, equals + 1);
    let close = place_of(tag, quote + 1, tag[quote]);
    if 0 <= at <= start < name_end <= equals < quote < close < tag.len() && tag[equals] == '='
        && is_quote(tag[quote]) {
        let name = tag.subrange(start, name_end);
        &&& name == "begin"@ || name == "end"@ ==> time_fits(
            tag.subrange(quote + 1, close),
            in_span,
        )
        &&& attributes_fit(tag, close + 1, in_span)
    } else {
        true
    }
}

/// The times of the tag fit, if it is that of a line or a span: `<p ...>` or `<span ...>`.
pub open spec fn tag_fits(tag: Seq<char>) -> bool {
    &&& tag.len() > 1 && tag.take(1) == "p"@ && is_xml_space(tag[1]) ==> attributes_fit(
        tag,
        1,
        false,
    )
    &&& tag.len() > 4 && tag.take(4) == "span"@ && is_xml_space(tag[4]) ==> attributes_fit(
        tag,
        4,
        true,
    )
}

/// The times of the tag that starts with the `<` before `at` fit, if it ends.
pub open spec fn tag_at_fits(content: Seq<char>, at: int) -> bool {
    match tag_end(content, at, None) {
        Some(end) => tag_fits(content.subrange(at, end)),
        None => true,
    }
}

/// The document is one that the parser can count in: it has at most as many characters as an
/// integer of 32 bits can tell, and so are the times of its lines and spans in milliseconds. A tag
/// counts wherever it stands, also in a comment.
pub open spec fn within_limits(content: Seq<char>) -> bool {
    content.len() <= u32::MAX && forall|at: int|
        0 < at <= content.len() && content[at - 1] == '<' ==> #[trigger] tag_at_fits(content, at)
}

fn is_space(c: char) -> (res: bool)
    ensures
        res == is_xml_space(c),
{
    c == ' ' || c == '\t' || c == '\r' || c == '\n'
}

fn skip_spaces(tag: &Vec<char>, from: usize) -> (at: usize)
    requires
        from <= tag@.len(),
    ensures
        at == after_spaces(tag@, from as int),
        from <= at <= tag@.len(),
{
    let mut at: usize = from;
    while at < tag.len() && is_space(tag[at])
        invariant
            from <= at <= tag@.len(),
            after_spaces(tag@, at as int) == after_spaces(tag@, from as int),
        decreases tag@.len() - at,
    {
        at = at + 1;
    }
    at
}

fn skip_name(tag: &Vec<char>, from: usize) -> (at: usize)
    requires
        from <= tag@.len(),
    ensures
        at == after_name(tag@, from as int),
        from <= at <= tag@.len(),
{
    let mut at: usize = from;
    while at < tag.len() && !is_space(tag[at]) && tag[at] != '='
        invariant
            from <= at <= tag@.len(),
            after_name(tag@, at as int) == after_name(tag@, from as int),
        decreases tag@.len() - at,
    {
        at = at + 1;
    }
    at
}

fn find_char(text: &Vec<char>, from: usize, c: char) -> (at: usize)
    requires
        from <= text@.len(),
    ensures
        at == place_of(text@, from as int, c),
        from <= at <= text@.len(),
        at < text@.len() ==> text@[at as int] == c,
        forall|k: int| from <= k < at ==> text@[k] != c,
{
    let mut at: usize = from;
    while at < text.len() && text[at] != c
        invariant
            from <= at <= text@.len(),
            place_of(text@, at as int, c) == place_of(text@, from as int, c),
            forall|k: int| from <= k < at ==> text@[k] != c,
        decreases text@.len() - at,
    {
        at = at + 1;
    }
    at
}

fn find_tag_end(content: &Vec<char>, from: usize) -> (end: Option<usize>)
    requires
        from <= content@.len(),
    ensures
        match end {
            Some(end) => from <= end < content@.len() && tag_end(content@, from as int, None)
                == Some(end as int),
            None => tag_end(content@, from as int, None) is None,
        },
{
    let mut at: usize = from;
    let mut quote: Option<char> = None;
    while at < content.len()
        invariant
            from <= at <= content@.len(),
            tag_end(content@, at as int, quote) == tag_end(content@, from as int, None),
        decreases content@.len() - at,
    {
        let c = content[at];
        match quote {
            Some(q) => {
                if c == q {
                    quote = None;
                }
            },
            None => {
                if c == '>' {
                    return Some(at);
                }
                if c == '"' || c == '\'' {
                    quote = Some(c);
                }
            },
        }
        at = at + 1;
    }
    None
}

fn copy_range(chars: &Vec<char>, from: usize, to: usize) -> (res: Vec<char>)
    requires
        from <= to <= chars@.len(),
    ensures
        res@ == chars@.subrange(from as int, to as int),
{
    let mut res: Vec<char> = Vec::new();
    let mut i: usize = from;
    while i < to
        invariant
            from <= i <= to <= chars@.len(),
            res@ == chars@.subrange(from as int, i as int),
        decreases to - i,
    {
        res.push(chars[i]);
        i = i + 1;
    }
    res
}

fn is_word(chars: &Vec<char>, word: &str) -> (res: bool)
    ensures
        res == (chars@ == word@),
{
    let expected = to_chars(word);
    if chars.len() != expected.len() {
        return false;
    }
    let mut i: usize = 0;
    while i < chars.len()
        invariant
            i <= chars@.len(),
            chars@.len() == expected@.len(),
            expected@ == word@,
            forall|k: int| 0 <= k < i ==> chars@[k] == expected@[k],
        decreases chars@.len() - i,
    {
        if chars[i] != expected[i] {
            return false;
        }
        i = i + 1;
    }
    assert(chars@ =~= word@);
    true
}

fn code_of(c: char) -> (code: u32)
    ensures
        code == c as int,
{
    c as u32
}

fn digit_of(code: u32, base: u32) -> (digit: Option<u32>)
    requires
        base == 10 || base == 16,
    ensures
        match digit {
            Some(digit) => digit < base && digit_value(code as int, base as int) == Some(
                digit as int,
            ),
            None => digit_value(code as int, base as int) is None,
        },
{
    if 48 <= code && code <= 57 {
        Some(code - 48)
    } else if base == 16 && 97 <= code && code <= 102 {
        Some(code - 87)
    } else if base == 16 && 65 <= code && code <= 70 {
        Some(code - 55)
    } else {
        None
    }
}

/// The number that the digits from `from` on tell, or the first one above all codes for a number
/// above them.
fn read_number(chars: &Vec<char>, from: usize, base: u32) -> (res: Option<u32>)
    requires
        base == 10 || base == 16,
        from <= chars@.len(),
    ensures
        match res {
            Some(value) => number_value(chars@.skip(from as int), base as int) matches Some(v) && (
            v == value || (v > 0x10ffff && value == 0x110000)),
            None => number_value(chars@.skip(from as int), base as int) is None,
        },
{
    let ghost digits = chars@.skip(from as int);
    let mut value: u32 = 0;
    let mut i: usize = from;
    while i < chars.len()
        invariant
            base == 10 || base == 16,
            from <= i <= chars@.len(),
            digits == chars@.skip(from as int),
            value <= 0x110000,
            number_value(digits.take(i - from), base as int) matches Some(v) && (v == value || (v
                > 0x10ffff && value == 0x110000)),
        decreases chars@.len() - i,
    {
        let ghost next = digits.take(i - from + 1);
        assert(next.drop_last() =~= digits.take(i - from));
        assert(next.last() == chars@[i as int]);
        match digit_of(code_of(chars[i]), base) {
            Some(digit) => {
                proof {
                    let v = number_value(digits.take(i - from), base as int)->0;
                    let b = base as int;
                    assert(v * b == 10 * v && value * b == 10 * value || v * b == 16 * v && value
                        * b == 16 * value) by (nonlinear_arith)
                        requires
                            b == 10 || b == 16,
                    ;
                }
                value = value * base + digit;
                if value > 0x110000 {
                    value = 0x110000;
                }
            },
            None => {
                proof {
                    lemma_number_stays_invalid(digits, i - from + 1, base as int);
                }
                return None;
            },
        }
        i = i + 1;
    }
    assert(digits.take(i - from) =~= digits);
    Some(value)
}

/// Behind something that is no digit, further characters make no number.
proof fn lemma_number_stays_invalid(digits: Seq<char>, count: int, base: int)
    requires
        0 <= count <= digits.len(),
        number_value(digits.take(count), base) is None,
    ensures
        number_value(digits, base) is None,
    decreases digits.len() - count,
{
    if count < digits.len() {
        let next = digits.take(count + 1);
        assert(next.drop_last() =~= digits.take(count));
        lemma_number_stays_invalid(digits, count + 1, base);
    } else {
        assert(digits.take(count) =~= digits);
    }
}

fn resolve_reference(name: &Vec<char>) -> (code: Option<u32>)
    ensures
        match code {
            Some(code) => reference_code(name@) == Some(code as int),
            None => reference_code(name@) is None,
        },
{
    if name.len() > 0 && name[0] == '#' {
        let ghost number = name@.drop_first();
        let hex = name.len() > 1 && name[1] == 'x';
        let (from, base): (usize, u32) = if hex {
            (2, 16)
        } else {
            (1, 10)
        };
        proof {
            assert(hex == (number.len() > 0 && number[0] == 'x'));
            assert(number.drop_first() =~= name@.skip(2) || name@.len() < 2);
            assert(number =~= name@.skip(1));
        }
        if from >= name.len() {
            return None;
        }
        match read_number(name, from, base) {
            Some(value) => if (0 < value && value < 0xd800) || (0xdfff < value && value
                <= 0x10ffff) {
                Some(value)
            } else {
                None
            },
            None => None,
        }
    } else if is_word(name, "lt") {
        Some('<' as u32)
    } else if is_word(name, "gt") {
        Some('>' as u32)
    } else if is_word(name, "amp") {
        Some('&' as u32)
    } else if is_word(name, "apos") {
        Some('\'' as u32)
    } else if is_word(name, "quot") {
        Some('"' as u32)
    } else {
        None
    }
}

spec fn as_codes(codes: Seq<u32>) -> Seq<int> {
    codes.map_values(|code: u32| code as int)
}

fn raw_codes(value: &Vec<char>) -> (res: Vec<u32>)
    ensures
        as_codes(res@) == codes(value@),
{
    let mut res: Vec<u32> = Vec::new();
    let mut i: usize = 0;
    while i < value.len()
        invariant
            i <= value@.len(),
            as_codes(res@) == codes(value@).take(i as int),
        decreases value@.len() - i,
    {
        let ghost before = res@;
        res.push(code_of(value[i]));
        proof {
            assert(as_codes(res@) =~= as_codes(before).push(value@[i as int] as int));
            assert(codes(value@).take(i + 1) =~= codes(value@).take(i as int).push(
                value@[i as int] as int,
            ));
        }
        i = i + 1;
    }
    assert(codes(value@).take(i as int) =~= codes(value@));
    res
}

/// What has been resolved, with what is still to be resolved behind it.
spec fn continued(done: Seq<int>, rest: Option<Seq<int>>) -> Option<Seq<int>> {
    match rest {
        Some(rest) => Some(done + rest),
        None => None,
    }
}

fn resolve_codes(value: &Vec<char>) -> (res: Option<Vec<u32>>)
    ensures
        match res {
            Some(res) => resolved_codes(value@, 0) == Some(as_codes(res@)),
            None => resolved_codes(value@, 0) is None,
        },
{
    let mut res: Vec<u32> = Vec::new();
    let mut at: usize = 0;
    proof {
        assert(as_codes(res@) =~= Seq::empty());
        if let Some(rest) = resolved_codes(value@, 0) {
            assert(as_codes(res@) + rest =~= rest);
        }
    }
    while at < value.len()
        invariant
            at <= value@.len(),
            continued(as_codes(res@), resolved_codes(value@, at as int)) == resolved_codes(
                value@,
                0,
            ),
        decreases value@.len() - at,
    {
        let ghost done = as_codes(res@);
        let ghost start = at as int;
        if value[at] != '&' {
            let code: u32 = code_of(value[at]);
            res.push(code);
            at = at + 1;
            proof {
                assert(as_codes(res@) =~= done.push(code as int));
                if let Some(rest) = resolved_codes(value@, start + 1) {
                    assert(as_codes(res@) + rest =~= done + (seq![code as int] + rest));
                }
            }
        } else {
            let end: usize = find_char(value, at + 1, ';');
            let other: usize = find_char(value, at + 1, '&');
            let ghost name = value@.subrange(start + 1, end as int);
            proof {
                if other < end {
                    assert(name[other - start - 1] == '&');
                    assert(name.contains('&'));
                } else {
                    assert(!name.contains('&')) by {
                        assert forall|k: int| 0 <= k < name.len() implies name[k] != '&' by {
                            assert(name[k] == value@[start + 1 + k]);
                        }
                    }
                }
            }
            if end >= value.len() || other < end {
                return None;
            }
            let reference = copy_range(value, at + 1, end);
            match resolve_reference(&reference) {
                Some(code) => {
                    res.push(code);
                    at = end + 1;
                    proof {
                        assert(as_codes(res@) =~= done.push(code as int));
                        if let Some(rest) = resolved_codes(value@, end + 1) {
                            assert(as_codes(res@) + rest =~= done + (seq![code as int] + rest));
                        }
                    }
                },
                None => {
                    return None;
                },
            }
        }
    }
    assert(as_codes(res@) + Seq::<int>::empty() =~= as_codes(res@));
    Some(res)
}

fn check_fraction(time: &Vec<u32>, from: usize, seconds: u64) -> (res: bool)
    requires
        from <= time@.len(),
        seconds <= 0x1000_0000_0000,
    ensures
        res == fraction_fits(as_codes(time@), from as int, seconds as int, 0, 0),
{
    let ghost model = as_codes(time@);
    let mut at: usize = from;
    let mut digits: u64 = 0;
    let mut fraction: u64 = 0;
    while at < time.len()
        invariant
            from <= at <= time@.len(),
            model == as_codes(time@),
            digits <= 3,
            digits == 0 ==> fraction == 0,
            digits == 1 ==> fraction < 10,
            digits == 2 ==> fraction < 100,
            fraction < 1000,
            fraction_fits(
                model,
                at as int,
                seconds as int,
                digits as int,
                fraction as int,
            ) == fraction_fits(model, from as int, seconds as int, 0, 0),
        decreases time@.len() - at,
    {
        assert(model[at as int] == time@[at as int] as int);
        match digit_of(time[at], 10) {
            Some(digit) => {
                if digits < 3 {
                    fraction = fraction * 10 + digit as u64;
                    digits = digits + 1;
                }
            },
            None => {
                return true;
            },
        }
        at = at + 1;
    }
    let scaled: u64 = if digits == 1 {
        fraction * 100
    } else if digits == 2 {
        fraction * 10
    } else {
        fraction
    };
    seconds * 1000 + scaled <= u32::MAX as u64
}

fn check_clock(time: &Vec<u32>) -> (res: bool)
    ensures
        res == clock_fits(as_codes(time@), 0, 0, 0, 0),
{
    let ghost model = as_codes(time@);
    let mut at: usize = 0;
    let mut colons: u64 = 0;
    let mut total: u64 = 0;
    let mut current: u64 = 0;
    while at < time.len()
        invariant
            at <= time@.len(),
            model == as_codes(time@),
            colons <= 2,
            current <= u32::MAX,
            colons == 0 ==> total == 0,
            colons == 1 ==> total <= u32::MAX,
            total <= 61 * u32::MAX as u64,
            clock_fits(model, at as int, colons as int, total as int, current as int)
                == clock_fits(model, 0, 0, 0, 0),
        decreases time@.len() - at,
    {
        assert(model[at as int] == time@[at as int] as int);
        let code: u32 = time[at];
        if code == '.' as u32 {
            return check_fraction(time, at + 1, total * 60 + current);
        }
        if code == ':' as u32 {
            if colons >= 2 {
                return true;
            }
            colons = colons + 1;
            total = total * 60 + current;
            current = 0;
        } else {
            match digit_of(code, 10) {
                Some(digit) => {
                    current = current * 10 + digit as u64;
                    if current > u32::MAX as u64 {
                        assert(!clock_fits(
                            model,
                            at + 1,
                            colons as int,
                            total as int,
                            current as int,
                        ));
                        return false;
                    }
                },
                None => {
                    return true;
                },
            }
        }
        at = at + 1;
    }
    (total * 60 + current) * 1000 <= u32::MAX as u64
}

fn check_time(value: &Vec<char>, in_span: bool) -> (res: bool)
    ensures
        res == time_fits(value@, in_span),
{
    if let Some(time) = resolve_codes(value) {
        if !check_clock(&time) {
            return false;
        }
    }
    !in_span || check_clock(&raw_codes(value))
}

fn check_attributes(tag: &Vec<char>, from: usize, in_span: bool) -> (res: bool)
    requires
        from <= tag@.len(),
    ensures
        res == attributes_fit(tag@, from as int, in_span),
{
    let size: usize = tag.len();
    let mut at: usize = from;
    loop
        invariant
            size == tag@.len(),
            from <= at <= size,
            attributes_fit(tag@, at as int, in_span) == attributes_fit(
                tag@,
                from as int,
                in_span,
            ),
        decreases size - at,
    {
        let start: usize = skip_spaces(tag, at);
        if start >= size {
            return true;
        }
        let name_end: usize = skip_name(tag, start + 1);
        let equals: usize = skip_spaces(tag, name_end);
        if equals >= size || tag[equals] != '=' {
            return true;
        }
        let quote: usize = skip_spaces(tag, equals + 1);
        if quote >= size || (tag[quote] != '"' && tag[quote] != '\'') {
            return true;
        }
        let close: usize = find_char(tag, quote + 1, tag[quote]);
        if close >= size {
            return true;
        }
        let name = copy_range(tag, start, name_end);
        if is_word(&name, "begin") || is_word(&name, "end") {
            let value = copy_range(tag, quote + 1, close);
            if !check_time(&value, in_span) {
                return false;
            }
        }
        at = close + 1;
    }
}

fn check_tag(tag: &Vec<char>) -> (res: bool)
    ensures
        res == tag_fits(tag@),
{
    proof {
        reveal_strlit("p");
        reveal_strlit("span");
        if tag@.len() > 1 && tag@[0] == 'p' {
            assert(tag@.take(1) =~= "p"@);
        }
        if tag@.len() > 4 && tag@[0] == 's' && tag@[1] == 'p' && tag@[2] == 'a' && tag@[3] == 'n' {
            assert(tag@.take(4) =~= "span"@);
        }
        if tag@.len() > 1 {
            assert(tag@.take(1)[0] == tag@[0]);
        }
        if tag@.len() > 4 {
            assert(tag@.take(4)[0] == tag@[0]);
            assert(tag@.take(4)[1] == tag@[1]);
            assert(tag@.take(4)[2] == tag@[2]);
            assert(tag@.take(4)[3] == tag@[3]);
        }
    }
    if tag.len() > 1 && tag[0] == 'p' && is_space(tag[1]) {
        return check_attributes(tag, 1, false);
    }
    if tag.len() > 4 && tag[0] == 's' && tag[1] == 'p' && tag[2] == 'a' && tag[3] == 'n'
        && is_space(tag[4]) {
        return check_attributes(tag, 4, true);
    }
    true
}

/// Tells whether a document is one that the parser can count in.
pub fn fits_parser(content: &str) -> (res: bool)
    ensures
        res == within_limits(content@),
{
    let chars = to_chars(content);
    if chars.len() as u64 > u32::MAX as u64 {
        return false;
    }
    let mut at: usize = 0;
    while at < chars.len()
        invariant
            at <= chars@.len(),
            chars@ == content@,
            forall|k: int|
                0 < k <= at && content@[k - 1] == '<' ==> #[trigger] tag_at_fits(content@, k),
        decreases chars@.len() - at,
    {
        if chars[at] == '<' {
            if let Some(end) = find_tag_end(&chars, at + 1) {
                let tag = copy_range(&chars, at + 1, end);
                if !check_tag(&tag) {
                    assert(!tag_at_fits(content@, at + 1));
                    return false;
                }
            }
            assert(tag_at_fits(content@, at + 1));
        }
        at = at + 1;
    }
    true
}

} // verus!
