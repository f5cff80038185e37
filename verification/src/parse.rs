//! Reading numbers from a line of text. A line is split at every blank into
//! fields; a field is a whole number in decimal, with white space around it
//! and a sign before it allowed; a field that is no such number, or a number
//! that does not fit 32 bits, counts as zero.

use vstd::prelude::*;
use vstd::string::StringSliceAdditionalSpecFns;

verus! {

/// The three bytes encode a white-space character: U+1680, U+2000 to
/// U+200A, U+2028, U+2029, U+202F, U+205F or U+3000.
pub open spec fn is_wide_space(a: u8, b: u8, c: u8) -> bool {
    ||| a == 0xE1 && b == 0x9A && c == 0x80
    ||| a == 0xE2 && b == 0x80 && (0x80 <= c <= 0x8A || c == 0xA8 || c == 0xA9 || c == 0xAF)
    ||| a == 0xE2 && b == 0x81 && c == 0x9F
    ||| a == 0xE3 && b == 0x80 && c == 0x80
}

/// The byte is a white-space character of its own: a tab, a line feed, a
/// vertical tab, a form feed, a carriage return or a blank.
pub open spec fn is_space(a: u8) -> bool {
    9 <= a <= 13 || a == 32
}

/// The two bytes encode a white-space character: U+0085 or U+00A0.
pub open spec fn is_pair_space(a: u8, b: u8) -> bool {
    a == 0xC2 && (b == 0x85 || b == 0xA0)
}

/// How many bytes the white-space character takes that starts at `i` and
/// ends before `hi`; zero if none does.
pub open spec fn space_at(s: Seq<u8>, i: int, hi: int) -> int {
    if i < hi && is_space(s[i]) {
        1
    } else if i + 1 < hi && is_pair_space(s[i], s[i + 1]) {
        2
    } else if i + 2 < hi && is_wide_space(s[i], s[i + 1], s[i + 2]) {
        3
    } else {
        0
    }
}

/// How many bytes the white-space character takes that ends before `j` and
/// starts at `lo` or later; zero if none does.
pub open spec fn space_before(s: Seq<u8>, lo: int, j: int) -> int {
    if lo < j && is_space(s[j - 1]) {
        1
    } else if lo + 1 < j && is_pair_space(s[j - 2], s[j - 1]) {
        2
    } else if lo + 2 < j && is_wide_space(s[j - 3], s[j - 2], s[j - 1]) {
        3
    } else {
        0
    }
}

/// Where the text between `i` and `hi` starts once the white space before
/// it is left out.
pub open spec fn ink_start(s: Seq<u8>, i: int, hi: int) -> int
    decreases hi - i,
{
    if space_at(s, i, hi) > 0 {
        ink_start(s, i + space_at(s, i, hi), hi)
    } else {
        i
    }
}

/// Where the text between `lo` and `j` ends once the white space after it
/// is left out.
pub open spec fn ink_end(s: Seq<u8>, lo: int, j: int) -> int
    decreases j - lo,
{
    if space_before(s, lo, j) > 0 {
        ink_end(s, lo, j - space_before(s, lo, j))
    } else {
        j
    }
}

/// The byte is a decimal digit.
pub open spec fn is_digit(a: u8) -> bool {
    48 <= a <= 57
}

/// All bytes are decimal digits.
pub open spec fn all_digits(s: Seq<u8>) -> bool {
    forall|i: int| 0 <= i < s.len() ==> is_digit(#[trigger] s[i])
}

/// The number that a row of digits spells.
pub open spec fn digits_value(s: Seq<u8>) -> int
    decreases s.len(),
{
    if s.len() == 0 {
        0
    } else {
        10 * digits_value(s.drop_last()) + (s.last() - 48)
    }
}

/// The 32-bit number that the bytes spell: a row of at least one digit,
/// with `+` or `-` before it allowed. None if they spell no such number.
pub open spec fn number(s: Seq<u8>) -> Option<int> {
    let signed = s.len() > 0 && (s[0] == 43 || s[0] == 45);
    let body = if signed {
        s.skip(1)
    } else {
        s
    };
    let value = if signed && s[0] == 45 {
        -digits_value(body)
    } else {
        digits_value(body)
    };
    if body.len() > 0 && all_digits(body) && i32::MIN <= value <= i32::MAX {
        Some(value)
    } else {
        None
    }
}

/// What the bytes from `lo` to `hi` count for: the number that they spell
/// between the white space, or zero if they spell none.
pub open spec fn field_value(s: Seq<u8>, lo: int, hi: int) -> int {
    let a = ink_start(s, lo, hi);
    let b = ink_end(s, a, hi);
    match number(s.subrange(a, b)) {
        Some(v) => v,
        None => 0,
    }
}

/// What a text counts for as a number.
pub open spec fn atoi_of(s: Seq<u8>) -> int {
    field_value(s, 0, s.len() as int)
}

/// Where the first blank at or after `from` stands; the text's length if
/// there is none.
pub open spec fn next_blank(s: Seq<u8>, from: int) -> int
    decreases s.len() - from,
{
    if from >= s.len() {
        s.len() as int
    } else if s[from] == 32 {
        from
    } else {
        next_blank(s, from + 1)
    }
}

/// The numbers of the fields of a line from `from` on, a field ending at
/// each blank and at the line's end.
pub open spec fn values_from(s: Seq<u8>, from: int) -> Seq<int>
    decreases s.len() - from,
{
    let e = next_blank(s, from);
    if from <= e < s.len() {
        seq![field_value(s, from, e)] + values_from(s, e + 1)
    } else {
        seq![field_value(s, from, s.len() as int)]
    }
}

/// The numbers of the fields of a line.
pub open spec fn line_values(s: Seq<u8>) -> Seq<int> {
    values_from(s, 0)
}

/// A longer row of digits spells no smaller a number.
pub proof fn lemma_digits_grow(s: Seq<u8>, n: int)
    requires
        0 <= n <= s.len(),
        all_digits(s),
    ensures
        0 <= digits_value(s.take(n)) <= digits_value(s),
    decreases s.len() - n,
{
    if n < s.len() {
        lemma_digits_grow(s, n + 1);
        assert(s.take(n + 1).drop_last() =~= s.take(n));
        assert(is_digit(s[n]));
        assert forall|j: int| 0 <= j < n implies is_digit(#[trigger] s.take(n)[j]) by {
            assert(is_digit(s[j]));
        }
        lemma_digits_nonneg(s.take(n));
    } else {
        assert(s.take(n) =~= s);
        lemma_digits_nonneg(s);
    }
}

/// A row of digits spells no negative number.
pub proof fn lemma_digits_nonneg(s: Seq<u8>)
    requires
        all_digits(s),
    ensures
        0 <= digits_value(s),
    decreases s.len(),
{
    if s.len() > 0 {
        assert(is_digit(s.last()));
        lemma_digits_nonneg(s.drop_last());
    }
}

/// The 32-bit number that the bytes from `from` to `to` spell, if they
/// spell one.
pub fn parse_number(bytes: &[u8], from: usize, to: usize) -> (r: Option<i32>)
    requires
        from <= to <= bytes@.len(),
    ensures
        r matches Some(v) ==> number(bytes@.subrange(from as int, to as int)) == Some(v as int),
        r is None ==> number(bytes@.subrange(from as int, to as int)) is None,
{
    let ghost s = bytes@.subrange(from as int, to as int);
    let mut i: usize = from;
    let mut negative: bool = false;
    if from < to && (bytes[from] == 43 || bytes[from] == 45) {
        negative = bytes[from] == 45;
        i = from + 1;
    }
    let start: usize = i;
    let ghost signed = start > from;
    let ghost body = bytes@.subrange(start as int, to as int);
    assert(body =~= if signed {
        s.skip(1)
    } else {
        s
    });
    if start == to {
        return None;
    }
    let mut acc: i64 = 0;
    while i < to
        invariant
            start <= i <= to <= bytes@.len(),
            start < to,
            s == bytes@.subrange(from as int, to as int),
            signed == (s.len() > 0 && (s[0] == 43 || s[0] == 45)),
            negative == (signed && s[0] == 45),
            body == bytes@.subrange(start as int, to as int),
            body == if signed {
                s.skip(1)
            } else {
                s
            },
            all_digits(body.take(i - start)),
            acc == digits_value(body.take(i - start)),
            0 <= acc <= 0x8000_0000,
        decreases to - i,
    {
        let c: u8 = bytes[i];
        assert(body[i - start] == c);
        if c < 48 || c > 57 {
            assert(!is_digit(body[i - start]));
            return None;
        }
        let next: i64 = acc * 10 + (c - 48) as i64;
        proof {
            assert(body.take(i - start + 1).drop_last() =~= body.take(i - start));
            assert(body.take(i - start + 1).last() == c);
            assert(next == digits_value(body.take(i - start + 1)));
            assert forall|j: int| 0 <= j < i - start + 1 implies is_digit(
                #[trigger] body.take(i - start + 1)[j],
            ) by {
                if j < i - start {
                    assert(body.take(i - start)[j] == body.take(i - start + 1)[j]);
                }
            }
        }
        if next > 0x8000_0000 {
            proof {
                if all_digits(body) {
                    lemma_digits_grow(body, i - start + 1);
                }
            }
            return None;
        }
        acc = next;
        i = i + 1;
    }
    assert(body.take(to - start) =~= body);
    if negative {
        Some((-acc) as i32)
    } else if acc == 0x8000_0000 {
        None
    } else {
        Some(acc as i32)
    }
}

/// Where the text between `from` and `to` starts once the white space
/// before it is left out.
pub fn skip_space(bytes: &[u8], from: usize, to: usize) -> (r: usize)
    requires
        from <= to <= bytes@.len(),
    ensures
        r == ink_start(bytes@, from as int, to as int),
        from <= r <= to,
{
    let mut i: usize = from;
    loop
        invariant
            from <= i <= to <= bytes@.len(),
            ink_start(bytes@, from as int, to as int) == ink_start(bytes@, i as int, to as int),
        decreases to - i,
    {
        let a: u8 = if i < to {
            bytes[i]
        } else {
            0
        };
        let b: u8 = if i < to && to - i > 1 {
            bytes[i + 1]
        } else {
            0
        };
        let c: u8 = if i < to && to - i > 2 {
            bytes[i + 2]
        } else {
            0
        };
        if i < to && (9 <= a && a <= 13 || a == 32) {
            i = i + 1;
        } else if i < to && to - i > 1 && a == 0xC2 && (b == 0x85 || b == 0xA0) {
            i = i + 2;
        } else if i < to && to - i > 2 && (a == 0xE1 && b == 0x9A && c == 0x80 || a == 0xE2 && b
            == 0x80 && (0x80 <= c && c <= 0x8A || c == 0xA8 || c == 0xA9 || c == 0xAF) || a == 0xE2
            && b == 0x81 && c == 0x9F || a == 0xE3 && b == 0x80 && c == 0x80) {
            i = i + 3;
        } else {
            return i;
        }
    }
}

/// Where the text between `from` and `to` ends once the white space after
/// it is left out.
pub fn drop_space(bytes: &[u8], from: usize, to: usize) -> (r: usize)
    requires
        from <= to <= bytes@.len(),
    ensures
        r == ink_end(bytes@, from as int, to as int),
        from <= r <= to,
{
    let mut j: usize = to;
    loop
        invariant
            from <= j <= to <= bytes@.len(),
            ink_end(bytes@, from as int, to as int) == ink_end(bytes@, from as int, j as int),
        decreases j - from,
    {
        let c: u8 = if from < j {
            bytes[j - 1]
        } else {
            0
        };
        let b: u8 = if from < j && j - from > 1 {
            bytes[j - 2]
        } else {
            0
        };
        let a: u8 = if from < j && j - from > 2 {
            bytes[j - 3]
        } else {
            0
        };
        if from < j && (9 <= c && c <= 13 || c == 32) {
            j = j - 1;
        } else if from < j && j - from > 1 && b == 0xC2 && (c == 0x85 || c == 0xA0) {
            j = j - 2;
        } else if from < j && j - from > 2 && (a == 0xE1 && b == 0x9A && c == 0x80 || a == 0xE2
            && b == 0x80 && (0x80 <= c && c <= 0x8A || c == 0xA8 || c == 0xA9 || c == 0xAF) || a
            == 0xE2 && b == 0x81 && c == 0x9F || a == 0xE3 && b == 0x80 && c == 0x80) {
            j = j - 3;
        } else {
            return j;
        }
    }
}

/// What the bytes from `from` to `to` count for as a number.
pub fn parse_field(bytes: &[u8], from: usize, to: usize) -> (r: i32)
    requires
        from <= to <= bytes@.len(),
    ensures
        r == field_value(bytes@, from as int, to as int),
{
    let a: usize = skip_space(bytes, from, to);
    let b: usize = drop_space(bytes, a, to);
    match parse_number(bytes, a, b) {
        Some(v) => v,
        None => 0,
    }
}

/// What a text counts for as a number: the number that it spells between
/// the white space, or zero if it spells none.
pub fn atoi(str: &str) -> (r: i32)
    ensures
        r == atoi_of(str.spec_bytes()),
{
    let bytes = str.as_bytes();
    parse_field(bytes, 0, bytes.len())
}

/// The numbers of the fields of a line.
pub fn parse_line(line: &str) -> (r: Vec<i32>)
    ensures
        r@.len() == line_values(line.spec_bytes()).len(),
        forall|i: int| 0 <= i < r@.len() ==> r@[i] == line_values(line.spec_bytes())[i],
{
    let bytes = line.as_bytes();
    let ghost s = bytes@;
    let mut out: Vec<i32> = Vec::new();
    let ghost mut done: Seq<int> = Seq::empty();
    let mut start: usize = 0;
    let mut i: usize = 0;
    while i < bytes.len()
        invariant
            start <= i <= bytes@.len(),
            s == bytes@,
            forall|j: int| start <= j < i ==> s[j] != 32,
            line_values(s) =~= done + values_from(s, start as int),
            out@.len() == done.len(),
            forall|j: int| 0 <= j < out@.len() ==> out@[j] == done[j],
        decreases bytes@.len() - i,
    {
        if bytes[i] == 32 {
            proof {
                lemma_blank_found(s, start as int, i as int);
                done = done.push(field_value(s, start as int, i as int));
            }
            out.push(parse_field(bytes, start, i));
            start = i + 1;
        }
        i = i + 1;
    }
    proof {
        lemma_blank_found(s, start as int, s.len() as int);
    }
    out.push(parse_field(bytes, start, bytes.len()));
    out
}

/// The blank that ends the field beginning at `from` is the first one
/// after bytes that are no blanks.
pub proof fn lemma_blank_found(s: Seq<u8>, from: int, e: int)
    requires
        0 <= from <= e <= s.len(),
        e < s.len() ==> s[e] == 32,
        forall|j: int| from <= j < e ==> s[j] != 32,
    ensures
        next_blank(s, from) == e,
    decreases e - from,
{
    if from < e {
        lemma_blank_found(s, from + 1, e);
    }
}

} // verus!
