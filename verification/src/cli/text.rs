//! Reading numbers and lists out of the text of an argument.

use vstd::prelude::*;
use vstd::string::*;

verus! {

/// Whether `c` is a decimal digit.
pub open spec fn spec_is_digit(c: char) -> bool {
    48 <= c as u32 <= 57
}

/// Whether `c` is white space: a character with the Unicode property
/// `White_Space`.
pub open spec fn spec_is_whitespace(c: char) -> bool {
    let code = c as u32;
    ||| 0x09 <= code <= 0x0D
    ||| code == 0x20
    ||| code == 0x85
    ||| code == 0xA0
    ||| code == 0x1680
    ||| 0x2000 <= code <= 0x200A
    ||| code == 0x2028
    ||| code == 0x2029
    ||| code == 0x202F
    ||| code == 0x205F
    ||| code == 0x3000
}

/// `text` without the characters equal to `removed`.
pub open spec fn spec_without(text: Seq<char>, removed: char) -> Seq<char>
    decreases text.len(),
{
    if text.len() == 0 {
        Seq::empty()
    } else if text.last() == removed {
        spec_without(text.drop_last(), removed)
    } else {
        spec_without(text.drop_last(), removed).push(text.last())
    }
}

/// The number that the digits of `text` spell; `None` where `text` is empty
/// or holds anything but digits.
pub open spec fn spec_digits_value(text: Seq<char>) -> Option<nat>
    decreases text.len(),
{
    if text.len() == 0 || !spec_is_digit(text.last()) {
        None
    } else if text.len() == 1 {
        Some((text.last() as u32 - 48) as nat)
    } else {
        match spec_digits_value(text.drop_last()) {
            Some(value) => Some(10 * value + (text.last() as u32 - 48) as nat),
            None => None,
        }
    }
}

/// The number that `text` spells, as the standard library reads an unsigned
/// integer: digits, after a plus sign or without, and a value of `max` at
/// most.
pub open spec fn spec_parse_unsigned(text: Seq<char>, max: nat) -> Option<nat> {
    let digits = if text.len() > 0 && text[0] == '+' {
        text.skip(1)
    } else {
        text
    };
    match spec_digits_value(digits) {
        Some(value) => if value <= max {
            Some(value)
        } else {
            None
        },
        None => None,
    }
}

/// `text` without the white space at its start.
pub open spec fn spec_trim_start(text: Seq<char>) -> Seq<char>
    decreases text.len(),
{
    if text.len() > 0 && spec_is_whitespace(text[0]) {
        spec_trim_start(text.skip(1))
    } else {
        text
    }
}

/// `text` without the white space at its end.
pub open spec fn spec_trim_end(text: Seq<char>) -> Seq<char>
    decreases text.len(),
{
    if text.len() > 0 && spec_is_whitespace(text.last()) {
        spec_trim_end(text.drop_last())
    } else {
        text
    }
}

/// `text` without the white space at its start and at its end.
pub open spec fn spec_trim(text: Seq<char>) -> Seq<char> {
    spec_trim_end(spec_trim_start(text))
}

/// Where the first comma of `text` stands; its length where it has none.
pub open spec fn spec_comma_index(text: Seq<char>) -> nat
    decreases text.len(),
{
    if text.len() == 0 || text[0] == ',' {
        0
    } else {
        1 + spec_comma_index(text.skip(1))
    }
}

/// Whether `c` is a decimal digit.
pub fn is_digit(c: char) -> (yes: bool)
    ensures
        yes == spec_is_digit(c),
{
    let code: u32 = c as u32;
    48 <= code && code <= 57
}

/// Whether `c` is white space.
pub fn is_whitespace(c: char) -> (yes: bool)
    ensures
        yes == spec_is_whitespace(c),
{
    let code: u32 = c as u32;
    (0x09 <= code && code <= 0x0D) || code == 0x20 || code == 0x85 || code == 0xA0 || code
        == 0x1680 || (0x2000 <= code && code <= 0x200A) || code == 0x2028 || code == 0x2029
        || code == 0x202F || code == 0x205F || code == 0x3000
}

/// The characters of `text`.
pub fn text_chars(text: &str) -> (chars: Vec<char>)
    ensures
        chars@ == text@,
{
    let len: usize = text.unicode_len();
    let mut chars: Vec<char> = Vec::new();
    let mut i: usize = 0;
    while i < len
        invariant
            i <= len,
            len == text@.len(),
            chars@ == text@.subrange(0, i as int),
        decreases len - i,
    {
        chars.push(text.get_char(i));
        i = i + 1;
        assert(chars@ =~= text@.subrange(0, i as int));
    }
    assert(text@.subrange(0, len as int) =~= text@);
    chars
}

/// Reads the characters from `from` up to `to` as an unsigned number of
/// `max` at most, leaving out every comma where `commas` allows them.
pub fn parse_unsigned(chars: &Vec<char>, from: usize, to: usize, max: usize, commas: bool) -> (value:
    Option<usize>)
    requires
        from <= to <= chars@.len(),
    ensures
        value == match spec_parse_unsigned(
            if commas {
                spec_without(chars@.subrange(from as int, to as int), ',')
            } else {
                chars@.subrange(from as int, to as int)
            },
            max as nat,
        ) {
            Some(value) => Some(value as usize),
            None => None,
        },
{
    let ghost whole = chars@.subrange(from as int, to as int);
    // the characters that count
    let mut kept: Vec<char> = Vec::new();
    let mut i: usize = from;
    assert(whole.subrange(0, 0) =~= Seq::<char>::empty());
    while i < to
        invariant
            from <= i <= to <= chars@.len(),
            whole == chars@.subrange(from as int, to as int),
            kept@ == if commas {
                spec_without(whole.subrange(0, i - from), ',')
            } else {
                whole.subrange(0, i - from)
            },
        decreases to - i,
    {
        let c: char = chars[i];
        assert(whole.subrange(0, i - from + 1).drop_last() =~= whole.subrange(0, i - from));
        assert(whole.subrange(0, i - from + 1).last() == c);
        if !(commas && c == ',') {
            kept.push(c);
            assert(!commas ==> kept@ =~= whole.subrange(0, i - from + 1));
        }
        i = i + 1;
    }
    assert(whole.subrange(0, to - from) =~= whole);
    let start: usize = if kept.len() > 0 && kept[0] == '+' {
        1
    } else {
        0
    };
    let ghost digits = kept@.skip(start as int);
    assert(kept@.skip(0) =~= kept@);
    if start == kept.len() {
        return None;
    }
    let mut value: usize = 0;
    let mut too_large: bool = false;
    let mut k: usize = start;
    while k < kept.len()
        invariant
            start <= k <= kept@.len(),
            start < kept@.len(),
            from <= to <= chars@.len(),
            kept@ == if commas {
                spec_without(chars@.subrange(from as int, to as int), ',')
            } else {
                chars@.subrange(from as int, to as int)
            },
            start == if kept@.len() > 0 && kept@[0] == '+' {
                1int
            } else {
                0int
            },
            kept@.skip(0) == kept@,
            digits == kept@.skip(start as int),
            k > start ==> spec_digits_value(digits.subrange(0, k - start)) is Some,
            k > start ==> (too_large <==> spec_digits_value(digits.subrange(0, k - start))->Some_0
                > max),
            k > start && !too_large ==> value == spec_digits_value(
                digits.subrange(0, k - start),
            )->Some_0,
            k == start ==> value == 0 && !too_large,
            value <= max,
        decreases kept.len() - k,
    {
        let c: char = kept[k];
        let ghost before = digits.subrange(0, k - start);
        let ghost after = digits.subrange(0, k - start + 1);
        assert(after.drop_last() =~= before);
        assert(after.last() == c);
        if !is_digit(c) {
            proof {
                assert(digits[k - start] == c);
                lemma_no_digits_value(digits, k - start);
            }
            return None;
        }
        let digit: usize = (c as u32 - 48) as usize;
        if !too_large {
            if digit > max || value > (max - digit) / 10 {
                too_large = true;
            } else {
                value = value * 10 + digit;
            }
        }
        k = k + 1;
    }
    assert(digits.subrange(0, kept@.len() - start) =~= digits);
    if too_large {
        None
    } else {
        Some(value)
    }
}

proof fn lemma_no_digits_value(text: Seq<char>, at: int)
    requires
        0 <= at < text.len(),
        !spec_is_digit(text[at]),
    ensures
        spec_digits_value(text) is None,
    decreases text.len(),
{
    if at < text.len() - 1 {
        lemma_no_digits_value(text.drop_last(), at);
    }
}

/// Finds in the characters from `from` up to `to` what is left once the
/// white space at both ends is taken away.
pub fn trim_bounds(chars: &Vec<char>, from: usize, to: usize) -> (bounds: (usize, usize))
    requires
        from <= to <= chars@.len(),
    ensures
        from <= bounds.0 <= bounds.1 <= to,
        chars@.subrange(bounds.0 as int, bounds.1 as int) == spec_trim(
            chars@.subrange(from as int, to as int),
        ),
        to - bounds.0 == spec_trim_start(chars@.subrange(from as int, to as int)).len(),
{
    let mut start: usize = from;
    while start < to && is_whitespace(chars[start])
        invariant
            from <= start <= to <= chars@.len(),
            spec_trim_start(chars@.subrange(from as int, to as int)) == spec_trim_start(
                chars@.subrange(start as int, to as int),
            ),
        decreases to - start,
    {
        assert(chars@.subrange(start as int, to as int).skip(1) =~= chars@.subrange(
            start + 1,
            to as int,
        ));
        start = start + 1;
    }
    let mut end: usize = to;
    while end > start && is_whitespace(chars[end - 1])
        invariant
            start <= end <= to <= chars@.len(),
            spec_trim_end(chars@.subrange(start as int, to as int)) == spec_trim_end(
                chars@.subrange(start as int, end as int),
            ),
        decreases end - start,
    {
        assert(chars@.subrange(start as int, end as int).drop_last() =~= chars@.subrange(
            start as int,
            end - 1,
        ));
        end = end - 1;
    }
    (start, end)
}

/// Finds the first comma at or behind `from`; the length where there is none.
pub fn find_comma(chars: &Vec<char>, from: usize) -> (at: usize)
    requires
        from <= chars@.len(),
    ensures
        from <= at <= chars@.len(),
        at - from == spec_comma_index(chars@.skip(from as int)),
        at < chars@.len() ==> chars@[at as int] == ',',
{
    let mut at: usize = from;
    while at < chars.len() && chars[at] != ','
        invariant
            from <= at <= chars@.len(),
            spec_comma_index(chars@.skip(from as int)) == at - from + spec_comma_index(
                chars@.skip(at as int),
            ),
        decreases chars.len() - at,
    {
        assert(chars@.skip(at as int).skip(1) =~= chars@.skip(at + 1));
        at = at + 1;
    }
    at
}

} // verus!
