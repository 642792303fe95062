//! The `COLSxROWS` equal-grid shorthand.

use vstd::prelude::*;

use crate::config::GridSpec;

verus! {

/// Unicode `White_Space`, the set that `char::is_whitespace` tests.
pub open spec fn is_unicode_whitespace(c: char) -> bool {
    let v = c as u32;
    ||| 0x09 <= v <= 0x0d
    ||| v == 0x20
    ||| v == 0x85
    ||| v == 0xa0
    ||| v == 0x1680
    ||| 0x2000 <= v <= 0x200a
    ||| v == 0x2028
    ||| v == 0x2029
    ||| v == 0x202f
    ||| v == 0x205f
    ||| v == 0x3000
}

/// Drop leading whitespace.
pub open spec fn trim_start(s: Seq<char>) -> Seq<char>
    decreases s.len(),
{
    if s.len() > 0 && is_unicode_whitespace(s[0]) {
        trim_start(s.drop_first())
    } else {
        s
    }
}

/// Drop trailing whitespace.
pub open spec fn trim_end(s: Seq<char>) -> Seq<char>
    decreases s.len(),
{
    if s.len() > 0 && is_unicode_whitespace(s.last()) {
        trim_end(s.drop_last())
    } else {
        s
    }
}

/// ASCII `A`-`Z` become `a`-`z`; every other character is unchanged.
pub open spec fn ascii_lower(c: char) -> char {
    if 'A' <= c <= 'Z' {
        ((c as u32) + 32) as char
    } else {
        c
    }
}

/// The grid text after trimming whitespace and lowering ASCII letters.
pub open spec fn normalized_grid_text(s: Seq<char>) -> Seq<char> {
    trim_end(trim_start(s)).map_values(|c: char| ascii_lower(c))
}

/// Position of the first `c` in `s`.
pub open spec fn first_index_of(s: Seq<char>, c: char) -> Option<int>
    decreases s.len(),
{
    if s.len() == 0 {
        None
    } else if s[0] == c {
        Some(0)
    } else {
        match first_index_of(s.drop_first(), c) {
            Some(i) => Some(i + 1),
            None => None,
        }
    }
}

pub open spec fn is_ascii_digit(c: char) -> bool {
    '0' <= c <= '9'
}

pub open spec fn all_digits(d: Seq<char>) -> bool {
    forall|i: int| 0 <= i < d.len() ==> is_ascii_digit(#[trigger] d[i])
}

/// The value of a string of decimal digits.
pub open spec fn digits_value(d: Seq<char>) -> int
    decreases d.len(),
{
    if d.len() == 0 {
        0
    } else {
        digits_value(d.drop_last()) * 10 + ((d.last() as u32) - ('0' as u32))
    }
}

/// What `str::parse::<u32>` accepts: an optional `+`, then one or more
/// decimal digits whose value fits in 32 bits.
pub open spec fn parse_u32_text(s: Seq<char>) -> Option<u32> {
    let d = if s.len() > 0 && s[0] == '+' {
        s.drop_first()
    } else {
        s
    };
    if d.len() > 0 && all_digits(d) && digits_value(d) <= u32::MAX {
        Some(digits_value(d) as u32)
    } else {
        None
    }
}

/// Why a grid shorthand was refused.
#[derive(Clone, Copy, Debug, PartialEq, Eq, Structural)]
pub enum GridParseError {
    /// No `x` separates the column and row counts.
    Syntax,
    /// The column count is not an unsigned 32-bit integer.
    Columns,
    /// The row count is not an unsigned 32-bit integer.
    Rows,
    /// One of the counts is zero.
    Zero,
}

/// The message reported for each refusal.
pub open spec fn grid_error_text(error: GridParseError) -> Seq<char> {
    match error {
        GridParseError::Syntax => "grid must use COLSxROWS syntax, for example 2x2"@,
        GridParseError::Columns => "grid column count is not an unsigned integer"@,
        GridParseError::Rows => "grid row count is not an unsigned integer"@,
        GridParseError::Zero => "grid dimensions must be non-zero"@,
    }
}

/// The grid, or the refusal, that the text `s` denotes.
pub open spec fn grid_text_outcome(s: Seq<char>) -> Result<(u32, u32), GridParseError> {
    let n = normalized_grid_text(s);
    match first_index_of(n, 'x') {
        None => Err(GridParseError::Syntax),
        Some(p) => match parse_u32_text(n.take(p)) {
            None => Err(GridParseError::Columns),
            Some(columns) => match parse_u32_text(n.skip(p + 1)) {
                None => Err(GridParseError::Rows),
                Some(rows) => if columns == 0 || rows == 0 {
                    Err(GridParseError::Zero)
                } else {
                    Ok((columns, rows))
                },
            },
        },
    }
}

fn is_whitespace(c: char) -> (ws: bool)
    ensures
        ws == is_unicode_whitespace(c),
{
    let v = c as u32;
    (0x09 <= v && v <= 0x0d) || v == 0x20 || v == 0x85 || v == 0xa0 || v == 0x1680 || (0x2000 <= v
        && v <= 0x200a) || v == 0x2028 || v == 0x2029 || v == 0x202f || v == 0x205f || v == 0x3000
}

fn lower(c: char) -> (l: char)
    ensures
        l == ascii_lower(c),
{
    if 'A' <= c && c <= 'Z' {
        ((c as u8) + 32) as char
    } else {
        c
    }
}

proof fn lemma_digits_value_nonnegative(d: Seq<char>)
    requires
        all_digits(d),
    ensures
        digits_value(d) >= 0,
    decreases d.len(),
{
    if d.len() > 0 {
        assert(is_ascii_digit(d[d.len() - 1]));
        lemma_digits_value_nonnegative(d.drop_last());
    }
}

/// Appending digits never decreases the value.
proof fn lemma_digits_value_prefix(d: Seq<char>, k: int)
    requires
        all_digits(d),
        0 <= k <= d.len(),
    ensures
        digits_value(d.take(k)) <= digits_value(d),
    decreases d.len() - k,
{
    if k < d.len() {
        let t = d.take(k + 1);
        assert(t.drop_last() =~= d.take(k));
        assert(is_ascii_digit(t[k]));
        assert(all_digits(d.take(k))) by {
            assert forall|i: int| 0 <= i < k implies is_ascii_digit(#[trigger] d.take(k)[i]) by {
                assert(d.take(k)[i] == d[i]);
            }
        }
        lemma_digits_value_nonnegative(d.take(k));
        lemma_digits_value_prefix(d, k + 1);
    } else {
        assert(d.take(k) =~= d);
    }
}

/// `parse_u32_text` of `chars[start..end]`.
fn parse_u32_chars(chars: &Vec<char>, start: usize, end: usize) -> (value: Option<u32>)
    requires
        start <= end <= chars@.len(),
    ensures
        value == parse_u32_text(chars@.subrange(start as int, end as int)),
{
    let ghost s = chars@.subrange(start as int, end as int);
    let mut first = start;
    if start < end && chars[start] == '+' {
        first = start + 1;
    }
    let ghost d = chars@.subrange(first as int, end as int);
    proof {
        if start < end && s[0] == '+' {
            assert(d =~= s.drop_first());
        } else {
            assert(d =~= s);
        }
    }
    if first == end {
        return None;
    }
    let mut value: u64 = 0;
    let mut i = first;
    while i < end
        invariant
            first <= i <= end <= chars@.len(),
            d == chars@.subrange(first as int, end as int),
            s == chars@.subrange(start as int, end as int),
            d == (if s.len() > 0 && s[0] == '+' {
                s.drop_first()
            } else {
                s
            }),
            all_digits(d.take(i - first)),
            value == digits_value(d.take(i - first)),
            value <= u32::MAX,
        decreases end - i,
    {
        let c = chars[i];
        if !('0' <= c && c <= '9') {
            assert(d[i - first] == c);
            assert(!is_ascii_digit(d[i - first]));
            assert(!all_digits(d));
            return None;
        }
        let ghost k = i - first;
        assert(d.take(k + 1).drop_last() =~= d.take(k));
        assert(d.take(k + 1).last() == c);
        value = value * 10 + ((c as u32) - ('0' as u32)) as u64;
        assert(value == digits_value(d.take(k + 1)));
        assert forall|j: int| 0 <= j < k + 1 implies is_ascii_digit(#[trigger] d.take(k + 1)[j]) by {
            if j < k {
                assert(d.take(k + 1)[j] == d.take(k)[j]);
            }
        }
        if value > 0xffff_ffff {
            proof {
                assert forall|j: int| 0 <= j < k + 1 implies is_ascii_digit(#[trigger] d[j]) by {
                    assert(d.take(k + 1)[j] == d[j]);
                }
                if all_digits(d) {
                    lemma_digits_value_prefix(d, k + 1);
                }
            }
            return None;
        }
        i = i + 1;
    }
    assert(d.take(end - first) =~= d);
    Some(value as u32)
}

/// Parse the `COLSxROWS` grid shorthand, such as `2x2`, `1x2`, or `5x5`.
/// Surrounding whitespace is ignored and the separator may be `x` or `X`.
pub fn parse_grid(value: &str) -> (result: Result<GridSpec, String>)
    ensures
        match grid_text_outcome(value@) {
            Ok((columns, rows)) => result == Ok::<GridSpec, String>(GridSpec { columns, rows }),
            Err(error) => result matches Err(message) && message@ == grid_error_text(error),
        },
{
    let length = value.unicode_len();
    let mut raw: Vec<char> = Vec::new();
    let mut i: usize = 0;
    while i < length
        invariant
            length == value@.len(),
            i <= length,
            raw@ =~= value@.take(i as int),
        decreases length - i,
    {
        raw.push(value.get_char(i));
        i = i + 1;
    }
    assert(value@.take(length as int) =~= value@);

    // Trim leading whitespace.
    let mut start: usize = 0;
    while start < length && is_whitespace(raw[start])
        invariant
            start <= length == raw@.len(),
            trim_start(raw@) == trim_start(raw@.skip(start as int)),
        decreases length - start,
    {
        assert(raw@.skip(start as int).drop_first() =~= raw@.skip(start + 1));
        start = start + 1;
    }
    let ghost head = raw@.skip(start as int);
    assert(trim_start(head) == head);
    assert(head =~= raw@.subrange(start as int, length as int));

    // Trim trailing whitespace.
    let mut end: usize = length;
    while end > start && is_whitespace(raw[end - 1])
        invariant
            start <= end <= length == raw@.len(),
            trim_end(head) == trim_end(raw@.subrange(start as int, end as int)),
        decreases end - start,
    {
        assert(raw@.subrange(start as int, end as int).drop_last() =~= raw@.subrange(
            start as int,
            end - 1,
        ));
        end = end - 1;
    }
    let ghost trimmed = raw@.subrange(start as int, end as int);
    assert(trim_end(trimmed) == trimmed);

    // Lower ASCII letters.
    let mut text: Vec<char> = Vec::new();
    let mut k: usize = start;
    while k < end
        invariant
            start <= k <= end <= length == raw@.len(),
            text@ =~= raw@.subrange(start as int, k as int).map_values(|c: char| ascii_lower(c)),
        decreases end - k,
    {
        text.push(lower(raw[k]));
        k = k + 1;
    }
    let ghost normalized = text@;
    assert(normalized == normalized_grid_text(value@));

    // Find the separator.
    let mut p: usize = 0;
    assert(text@.skip(0) =~= text@);
    while p < text.len() && text[p] != 'x'
        invariant
            p <= text@.len(),
            first_index_of(text@, 'x') == match first_index_of(text@.skip(p as int), 'x') {
                Some(j) => Some(j + p),
                None => None,
            },
        decreases text@.len() - p,
    {
        assert(text@.skip(p as int).drop_first() =~= text@.skip(p + 1));
        p = p + 1;
    }
    if p == text.len() {
        assert(text@.skip(p as int) =~= Seq::<char>::empty());
        return Err(String::from_str("grid must use COLSxROWS syntax, for example 2x2"));
    }
    assert(first_index_of(text@, 'x') == Some(p as int));
    assert(text@.subrange(0, p as int) =~= text@.take(p as int));
    assert(text@.subrange(p + 1, text@.len() as int) =~= text@.skip(p + 1));
    let columns = match parse_u32_chars(&text, 0, p) {
        Some(columns) => columns,
        None => {
            return Err(String::from_str("grid column count is not an unsigned integer"));
        },
    };
    let rows = match parse_u32_chars(&text, p + 1, text.len()) {
        Some(rows) => rows,
        None => {
            return Err(String::from_str("grid row count is not an unsigned integer"));
        },
    };
    if columns == 0 || rows == 0 {
        return Err(String::from_str("grid dimensions must be non-zero"));
    }
    Ok(GridSpec { columns, rows })
}

} // verus!
