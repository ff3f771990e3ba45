//! Small helpers on strings.

use vstd::prelude::*;
use vstd::string::StringSliceAdditionalSpecFns;
use vstd::utf8::{is_char_boundary, length_of_first_scalar, pop_first_scalar, valid_utf8};

verus! {

/// `str`'s `==` from std: two string slices are equal exactly when they
/// hold the same characters.
#[verifier::external_body]
pub(crate) fn str_eq(a: &str, b: &str) -> (same: bool)
    ensures
        same == (a@ == b@),
{
    a == b
}

/// What an optional string holds, as characters.
pub open spec fn opt_chars(text: Option<String>) -> Option<Seq<char>> {
    match text {
        Some(s) => Some(s@),
        None => None,
    }
}

/// A copy of an optional string.
pub fn clone_opt_string(text: &Option<String>) -> (copy: Option<String>)
    ensures
        copy == *text,
{
    match text {
        Some(s) => Some(s.clone()),
        None => None,
    }
}

/// Whether an optional string is present and reads `expected`.
pub fn opt_str_is(text: &Option<String>, expected: &str) -> (same: bool)
    ensures
        same == (opt_chars(*text) == Some(expected@)),
{
    match text {
        Some(s) => str_eq(s.as_str(), expected),
        None => false,
    }
}

/// A character boundary of a text is one of each prefix that ends at a
/// character boundary.
pub proof fn lemma_boundary_in_prefix(bytes: Seq<u8>, start: int, end: int)
    requires
        valid_utf8(bytes),
        0 <= start <= end <= bytes.len(),
        is_char_boundary(bytes, start),
        is_char_boundary(bytes, end),
    ensures
        valid_utf8(bytes.subrange(0, end)),
        is_char_boundary(bytes.subrange(0, end), start),
{
    let prefix = bytes.subrange(0, end);
    vstd::utf8::valid_utf8_split(bytes, end);
    vstd::utf8::is_char_boundary_start_end_of_seq(prefix);
    if 0 < start < end {
        vstd::utf8::is_char_boundary_iff_not_is_continuation_byte(bytes, start);
        vstd::utf8::is_char_boundary_iff_not_is_continuation_byte(prefix, start);
        assert(prefix[start] == bytes[start]);
    }
}

/// After an ASCII byte that begins a character, the next character begins.
pub proof fn lemma_boundary_after_ascii(bytes: Seq<u8>, index: int)
    requires
        valid_utf8(bytes),
        0 <= index < bytes.len(),
        is_char_boundary(bytes, index),
        bytes[index] < 0x80,
    ensures
        is_char_boundary(bytes, index + 1),
    decreases bytes.len(),
{
    let rest = pop_first_scalar(bytes);
    let first = length_of_first_scalar(bytes);
    assert(valid_utf8(rest));
    assert(1 <= first <= 4);
    assert(first <= bytes.len());
    assert(rest.len() == bytes.len() - first);
    if index == 0 {
        assert(first == 1);
        assert(is_char_boundary(rest, 0));
        assert(is_char_boundary(bytes, 1));
    } else {
        assert(is_char_boundary(rest, index - first));
        if index - first < 0 {
            assert(!is_char_boundary(rest, index - first));
        }
        if index - first >= rest.len() {
            vstd::utf8::is_char_boundary_start_end_of_seq(rest);
            assert(index - first == rest.len() || !is_char_boundary(rest, index - first));
        }
        assert(rest[index - first] == bytes[index]);
        lemma_boundary_after_ascii(rest, index - first);
        assert(is_char_boundary(bytes, index + 1));
    }
}

/// The part of `text` between two character boundaries.
pub fn str_slice<'a>(text: &'a str, start: usize, end: usize) -> (piece: &'a str)
    requires
        start <= end <= text.spec_bytes().len(),
        is_char_boundary(text.spec_bytes(), start as int),
        is_char_boundary(text.spec_bytes(), end as int),
    ensures
        piece.spec_bytes() == text.spec_bytes().subrange(start as int, end as int),
{
    proof {
        vstd::utf8::encode_utf8_valid_utf8(text@);
        lemma_boundary_in_prefix(text.spec_bytes(), start as int, end as int);
    }
    let piece = text.split_at(end).0.split_at(start).1;
    assert(piece.spec_bytes() =~= text.spec_bytes().subrange(start as int, end as int));
    piece
}

/// What separates the fields of a line.
#[derive(Debug, Clone, Copy, PartialEq, Eq, Structural)]
pub enum Separator {
    /// One ASCII byte.
    Byte(u8),
    /// Any ASCII blank: space, tab, line feed, vertical tab, form feed
    /// or carriage return.
    Blank,
}

/// Whether a byte is an ASCII blank.
pub open spec fn is_blank(byte: u8) -> bool {
    byte == 0x20 || (0x09 <= byte <= 0x0D)
}

impl Separator {
    /// Whether `byte` separates.
    pub open spec fn separates(self, byte: u8) -> bool {
        match self {
            Separator::Byte(b) => byte == b,
            Separator::Blank => is_blank(byte),
        }
    }

    /// Whether the separator is made of ASCII bytes.
    pub open spec fn is_ascii(self) -> bool {
        match self {
            Separator::Byte(b) => b < 0x80,
            Separator::Blank => true,
        }
    }

    fn matches(&self, byte: u8) -> (is: bool)
        ensures
            is == self.separates(byte),
    {
        match self {
            Separator::Byte(b) => byte == *b,
            Separator::Blank => byte == 0x20 || (0x09 <= byte && byte <= 0x0D),
        }
    }
}

/// The pieces between the separators of a text: one more than there are
/// separators, some of them empty where separators meet.
pub open spec fn split_where(s: Seq<u8>, by: Separator) -> Seq<Seq<u8>>
    decreases s.len(),
{
    if s.len() == 0 {
        seq![Seq::empty()]
    } else {
        let rest = split_where(s.drop_first(), by);
        if by.separates(s[0]) {
            seq![Seq::empty()] + rest
        } else {
            seq![seq![s[0]] + rest[0]] + rest.drop_first()
        }
    }
}

/// A text without separators is one piece.
pub proof fn lemma_split_plain(s: Seq<u8>, by: Separator)
    requires
        forall|i: int| 0 <= i < s.len() ==> !by.separates(#[trigger] s[i]),
    ensures
        split_where(s, by) == seq![s],
    decreases s.len(),
{
    if s.len() > 0 {
        let rest = s.drop_first();
        assert forall|i: int| 0 <= i < rest.len() implies !by.separates(#[trigger] rest[i]) by {
            assert(rest[i] == s[i + 1]);
        }
        lemma_split_plain(rest, by);
        assert(seq![s[0]] + rest =~= s);
        assert(split_where(s, by) =~= seq![s]);
    } else {
        assert(s =~= Seq::<u8>::empty());
    }
}

/// The first piece of a text ends at its first separator, and the other
/// pieces are those of what follows the separator.
pub proof fn lemma_split_first(s: Seq<u8>, by: Separator, k: int)
    requires
        0 <= k < s.len(),
        forall|i: int| 0 <= i < k ==> !by.separates(#[trigger] s[i]),
        by.separates(s[k]),
    ensures
        split_where(s, by) == seq![s.take(k)] + split_where(s.skip(k + 1), by),
    decreases k,
{
    let rest = s.drop_first();
    if k == 0 {
        assert(s.take(0) =~= Seq::<u8>::empty());
        assert(s.skip(1) =~= rest);
    } else {
        assert forall|i: int| 0 <= i < k - 1 implies !by.separates(#[trigger] rest[i]) by {
            assert(rest[i] == s[i + 1]);
        }
        assert(rest[k - 1] == s[k]);
        lemma_split_first(rest, by, k - 1);
        assert(rest.skip(k) =~= s.skip(k + 1));
        assert(seq![s[0]] + rest.take(k - 1) =~= s.take(k));
        let tail = split_where(s.skip(k + 1), by);
        assert(split_where(rest, by) == seq![rest.take(k - 1)] + tail);
        assert((seq![rest.take(k - 1)] + tail).drop_first() =~= tail);
        assert(split_where(s, by) =~= seq![s.take(k)] + tail);
    }
}

/// The bytes of each of a list of pieces.
pub open spec fn piece_bytes(pieces: Seq<&str>) -> Seq<Seq<u8>> {
    pieces.map_values(|piece: &str| piece.spec_bytes())
}

/// The pieces of `text` between its separators.
pub fn split_by<'a>(text: &'a str, by: Separator) -> (pieces: Vec<&'a str>)
    requires
        by.is_ascii(),
    ensures
        piece_bytes(pieces@) == split_where(text.spec_bytes(), by),
        pieces@.len() >= 1,
{
    let bytes = text.as_bytes();
    let ghost all = text.spec_bytes();
    let count: usize = bytes.len();
    let mut pieces: Vec<&'a str> = Vec::new();
    let mut start: usize = 0;
    let mut p: usize = 0;
    proof {
        vstd::utf8::encode_utf8_valid_utf8(text@);
        vstd::utf8::is_char_boundary_start_end_of_seq(all);
        assert(all.skip(0) =~= all);
        assert(piece_bytes(pieces@) =~= Seq::<Seq<u8>>::empty());
    }
    while p < count
        invariant
            start <= p <= count,
            count == all.len(),
            all == text.spec_bytes(),
            bytes@ == all,
            valid_utf8(all),
            by.is_ascii(),
            is_char_boundary(all, start as int),
            forall|i: int| start <= i < p ==> !by.separates(#[trigger] all[i]),
            piece_bytes(pieces@) + split_where(all.skip(start as int), by) == split_where(all, by),
        decreases count - p,
    {
        if by.matches(bytes[p]) {
            proof {
                assert(all[p as int] < 0x80);
                let tail = all.skip(start as int);
                assert forall|i: int| 0 <= i < p - start implies !by.separates(
                    #[trigger] tail[i],
                ) by {
                    assert(tail[i] == all[start + i]);
                }
                assert(tail[p - start] == all[p as int]);
                lemma_split_first(tail, by, p - start);
                assert(tail.take(p - start) =~= all.subrange(start as int, p as int));
                assert(tail.skip(p - start + 1) =~= all.skip(p + 1));
                if p > 0 {
                    vstd::utf8::is_char_boundary_iff_not_is_continuation_byte(all, p as int);
                }
                lemma_boundary_after_ascii(all, p as int);
            }
            let piece = str_slice(text, start, p);
            let ghost before = piece_bytes(pieces@);
            pieces.push(piece);
            proof {
                assert(piece_bytes(pieces@) =~= before.push(piece.spec_bytes()));
                assert(before.push(piece.spec_bytes()) + split_where(all.skip(p + 1), by)
                    =~= before + (seq![piece.spec_bytes()] + split_where(all.skip(p + 1), by)));
            }
            start = p + 1;
        }
        p += 1;
    }
    proof {
        let tail = all.skip(start as int);
        assert forall|i: int| 0 <= i < tail.len() implies !by.separates(#[trigger] tail[i]) by {
            assert(tail[i] == all[start + i]);
        }
        lemma_split_plain(tail, by);
        vstd::utf8::is_char_boundary_start_end_of_seq(all);
        assert(tail =~= all.subrange(start as int, count as int));
    }
    let piece = str_slice(text, start, count);
    let ghost before = piece_bytes(pieces@);
    pieces.push(piece);
    proof {
        assert(piece_bytes(pieces@) =~= before.push(piece.spec_bytes()));
        assert(before.push(piece.spec_bytes()) =~= before + seq![piece.spec_bytes()]);
    }
    pieces
}

/// The first `n` pieces without the empty ones.
pub open spec fn filled_among(pieces: Seq<Seq<u8>>, n: int) -> Seq<Seq<u8>>
    decreases n,
{
    if n <= 0 {
        Seq::empty()
    } else if pieces[n - 1].len() > 0 {
        filled_among(pieces, n - 1).push(pieces[n - 1])
    } else {
        filled_among(pieces, n - 1)
    }
}

/// The fields of a line whose fields are separated by blanks.
pub open spec fn blank_fields(line: Seq<u8>) -> Seq<Seq<u8>> {
    let pieces = split_where(line, Separator::Blank);
    filled_among(pieces, pieces.len() as int)
}

/// The fields of `line`, which blanks separate.
pub fn split_blank<'a>(line: &'a str) -> (fields: Vec<&'a str>)
    ensures
        piece_bytes(fields@) == blank_fields(line.spec_bytes()),
{
    let pieces = split_by(line, Separator::Blank);
    let ghost all = piece_bytes(pieces@);
    let mut fields: Vec<&'a str> = Vec::new();
    let mut i: usize = 0;
    proof {
        assert(piece_bytes(fields@) =~= Seq::<Seq<u8>>::empty());
    }
    while i < pieces.len()
        invariant
            i <= pieces.len(),
            all == piece_bytes(pieces@),
            piece_bytes(fields@) == filled_among(all, i as int),
        decreases pieces.len() - i,
    {
        let piece = pieces[i];
        let ghost before = piece_bytes(fields@);
        assert(all[i as int] == piece.spec_bytes());
        if piece.as_bytes().len() > 0 {
            fields.push(piece);
            assert(piece_bytes(fields@) =~= before.push(piece.spec_bytes()));
        }
        i += 1;
    }
    fields
}

/// A line without the carriage return that may end it.
pub open spec fn without_cr(line: Seq<u8>) -> Seq<u8> {
    if line.len() > 0 && line[line.len() - 1] == 0x0D {
        line.drop_last()
    } else {
        line
    }
}

/// The lines of a text: what line feeds separate, each without the
/// carriage return that may end it; after the last line feed nothing
/// counts as a line if nothing follows it.
pub open spec fn lines_of(text: Seq<u8>) -> Seq<Seq<u8>> {
    let pieces = split_where(text, Separator::Byte(0x0A));
    let kept = if pieces.len() > 0 && pieces[pieces.len() - 1].len() == 0 {
        pieces.drop_last()
    } else {
        pieces
    };
    kept.map_values(|line: Seq<u8>| without_cr(line))
}

/// The lines of `text`.
pub fn split_lines<'a>(text: &'a str) -> (lines: Vec<&'a str>)
    ensures
        piece_bytes(lines@) == lines_of(text.spec_bytes()),
{
    let pieces = split_by(text, Separator::Byte(0x0A));
    let ghost all = piece_bytes(pieces@);
    let mut kept: usize = pieces.len();
    assert(all[kept - 1] == pieces@[kept - 1].spec_bytes());
    if pieces[kept - 1].as_bytes().len() == 0 {
        kept -= 1;
    }
    let mut lines: Vec<&'a str> = Vec::new();
    let mut i: usize = 0;
    while i < kept
        invariant
            i <= kept <= pieces.len(),
            all == piece_bytes(pieces@),
            lines.len() == i,
            forall|k: int|
                0 <= k < i ==> (#[trigger] lines@[k]).spec_bytes() == without_cr(all[k]),
        decreases kept - i,
    {
        let piece = pieces[i];
        let bytes = piece.as_bytes();
        let count: usize = bytes.len();
        assert(all[i as int] == piece.spec_bytes());
        if count > 0 && bytes[count - 1] == 0x0D {
            proof {
                let b = piece.spec_bytes();
                vstd::utf8::encode_utf8_valid_utf8(piece@);
                vstd::utf8::is_char_boundary_start_end_of_seq(b);
                if count > 1 {
                    vstd::utf8::is_char_boundary_iff_not_is_continuation_byte(b, count - 1);
                }
                assert(b.subrange(0, count - 1) =~= b.drop_last());
            }
            lines.push(str_slice(piece, 0, count - 1));
        } else {
            lines.push(piece);
        }
        i += 1;
    }
    assert(piece_bytes(lines@) =~= lines_of(text.spec_bytes()));
    lines
}

/// The value of a digit in a radix, if the byte is a digit of that radix.
pub open spec fn digit_of(byte: u8, radix: int) -> Option<int> {
    let value = if 0x30 <= byte <= 0x39 {
        byte - 0x30
    } else if 0x61 <= byte <= 0x7A {
        byte - 0x61 + 10
    } else if 0x41 <= byte <= 0x5A {
        byte - 0x41 + 10
    } else {
        radix
    };
    if value < radix {
        Some(value)
    } else {
        None
    }
}

/// The number that a run of digits reads as, if each byte is a digit.
pub open spec fn digits_value(digits: Seq<u8>, radix: int) -> Option<int>
    decreases digits.len(),
{
    if digits.len() == 0 {
        Some(0)
    } else {
        match (digits_value(digits.drop_last(), radix), digit_of(digits.last(), radix)) {
            (Some(value), Some(digit)) => Some(value * radix + digit),
            _ => None,
        }
    }
}

/// The number that a text reads as: digits, after a `+` or, where
/// `signed`, a `-`. A text without digits is no number.
pub open spec fn number_of(text: Seq<u8>, radix: int, signed: bool) -> Option<int> {
    if text.len() == 0 {
        None
    } else if text[0] == 0x2B {
        if text.len() == 1 {
            None
        } else {
            digits_value(text.skip(1), radix)
        }
    } else if text[0] == 0x2D && signed {
        if text.len() == 1 {
            None
        } else {
            match digits_value(text.skip(1), radix) {
                Some(value) => Some(-value),
                None => None,
            }
        }
    } else {
        digits_value(text, radix)
    }
}

/// The number that a text reads as, where it lies between `low` and `high`.
pub open spec fn number_within(text: Seq<u8>, radix: int, low: int, high: int) -> Option<int> {
    match number_of(text, radix, low < 0) {
        Some(value) => if low <= value <= high {
            Some(value)
        } else {
            None
        },
        None => None,
    }
}

proof fn lemma_digits_grow(digits: Seq<u8>, radix: int, n: int)
    requires
        2 <= radix <= 36,
        0 <= n <= digits.len(),
        digits_value(digits, radix) is Some,
    ensures
        digits_value(digits.take(n), radix) is Some,
        0 <= digits_value(digits.take(n), radix)->0 <= digits_value(digits, radix)->0,
    decreases digits.len() - n,
{
    if n == digits.len() {
        assert(digits.take(n) =~= digits);
        lemma_digits_nonneg(digits, radix);
    } else {
        lemma_digits_grow(digits, radix, n + 1);
        assert(digits.take(n + 1).drop_last() =~= digits.take(n));
        let shorter = digits_value(digits.take(n), radix)->0;
        let digit = digit_of(digits.take(n + 1).last(), radix)->0;
        lemma_digits_nonneg(digits.take(n), radix);
        assert(shorter * radix >= shorter) by (nonlinear_arith)
            requires
                shorter >= 0,
                radix >= 1,
        ;
    }
}

proof fn lemma_digits_nonneg(digits: Seq<u8>, radix: int)
    requires
        2 <= radix <= 36,
        digits_value(digits, radix) is Some,
    ensures
        digits_value(digits, radix)->0 >= 0,
    decreases digits.len(),
{
    if digits.len() > 0 {
        lemma_digits_nonneg(digits.drop_last(), radix);
        let shorter = digits_value(digits.drop_last(), radix)->0;
        assert(shorter * radix >= 0) by (nonlinear_arith)
            requires
                shorter >= 0,
                radix >= 1,
        ;
    }
}

fn digit_value(byte: u8, radix: u8) -> (digit: Option<u8>)
    requires
        2 <= radix <= 36,
    ensures
        match digit {
            Some(d) => digit_of(byte, radix as int) == Some(d as int),
            None => digit_of(byte, radix as int) is None,
        },
{
    let value: u8 = if 0x30 <= byte && byte <= 0x39 {
        byte - 0x30
    } else if 0x61 <= byte && byte <= 0x7A {
        byte - 0x61 + 10
    } else if 0x41 <= byte && byte <= 0x5A {
        byte - 0x41 + 10
    } else {
        radix
    };
    if value < radix {
        Some(value)
    } else {
        None
    }
}

/// Reads digits as a number of at most `limit`.
fn parse_digits(digits: &[u8], from: usize, radix: u8, limit: u64) -> (value: Option<u64>)
    requires
        2 <= radix <= 36,
        from <= digits@.len(),
    ensures
        match value {
            Some(v) => digits_value(digits@.skip(from as int), radix as int) == Some(v as int) && v
                <= limit,
            None => match digits_value(digits@.skip(from as int), radix as int) {
                Some(v) => v > limit,
                None => true,
            },
        },
{
    let ghost run = digits@.skip(from as int);
    let mut value: u64 = 0;
    let mut i: usize = from;
    proof {
        assert(run.take(0) =~= Seq::<u8>::empty());
    }
    while i < digits.len()
        invariant
            from <= i <= digits.len(),
            2 <= radix <= 36,
            run == digits@.skip(from as int),
            digits_value(run.take(i - from), radix as int) == Some(value as int),
            value <= limit,
        decreases digits.len() - i,
    {
        proof {
            assert(run.take(i - from + 1).drop_last() =~= run.take(i - from));
            assert(run.take(i - from + 1).last() == digits@[i as int]);
        }
        let digit = match digit_value(digits[i], radix) {
            Some(d) => d,
            None => {
                proof {
                    if digits_value(run, radix as int) is Some {
                        lemma_digits_grow(run, radix as int, i - from + 1);
                    }
                }
                return None;
            },
        };
        let next = match value.checked_mul(radix as u64) {
            Some(scaled) => scaled.checked_add(digit as u64),
            None => None,
        };
        match next {
            Some(v) => {
                if v > limit {
                    proof {
                        if digits_value(run, radix as int) is Some {
                            lemma_digits_grow(run, radix as int, i - from + 1);
                        }
                    }
                    return None;
                }
                value = v;
            },
            None => {
                proof {
                    if digits_value(run, radix as int) is Some {
                        lemma_digits_grow(run, radix as int, i - from + 1);
                    }
                }
                return None;
            },
        }
        i += 1;
    }
    proof {
        assert(run.take(i - from) =~= run);
    }
    Some(value)
}

/// Reads a text as a number of a radix: whether it is negative, and how
/// large. The number is refused where it lies outside `-below ..= above`.
pub fn parse_number(text: &str, radix: u8, below: u64, above: u64) -> (number: Option<(bool, u64)>)
    requires
        2 <= radix <= 36,
    ensures
        match number {
            Some((negative, size)) => number_within(
                text.spec_bytes(),
                radix as int,
                -(below as int),
                above as int,
            ) == Some(
                if negative {
                    -(size as int)
                } else {
                    size as int
                },
            ) && (negative ==> below > 0),
            None => number_within(text.spec_bytes(), radix as int, -(below as int), above as int)
                is None,
        },
{
    let bytes = text.as_bytes();
    if bytes.len() == 0 {
        return None;
    }
    if bytes[0] == 0x2B {
        if bytes.len() == 1 {
            return None;
        }
        match parse_digits(bytes, 1, radix, above) {
            Some(size) => Some((false, size)),
            None => {
                proof {
                    if digits_value(bytes@.skip(1), radix as int) is Some {
                        lemma_digits_nonneg(bytes@.skip(1), radix as int);
                    }
                }
                None
            },
        }
    } else if bytes[0] == 0x2D && below > 0 {
        if bytes.len() == 1 {
            return None;
        }
        match parse_digits(bytes, 1, radix, below) {
            Some(size) => {
                proof {
                    lemma_digits_nonneg(bytes@.skip(1), radix as int);
                }
                Some((true, size))
            },
            None => {
                proof {
                    if digits_value(bytes@.skip(1), radix as int) is Some {
                        lemma_digits_nonneg(bytes@.skip(1), radix as int);
                    }
                }
                None
            },
        }
    } else {
        proof {
            assert(bytes@.skip(0) =~= bytes@);
        }
        match parse_digits(bytes, 0, radix, above) {
            Some(size) => Some((false, size)),
            None => {
                proof {
                    if digits_value(bytes@, radix as int) is Some {
                        lemma_digits_nonneg(bytes@, radix as int);
                    }
                }
                None
            },
        }
    }
}

/// Reads a decimal number that fits `u16`.
pub fn parse_u16(text: &str) -> (number: Option<u16>)
    ensures
        match number {
            Some(n) => number_within(text.spec_bytes(), 10, 0, 0xFFFF) == Some(n as int),
            None => number_within(text.spec_bytes(), 10, 0, 0xFFFF) is None,
        },
{
    match parse_number(text, 10, 0, 0xFFFF) {
        Some((_, size)) => Some(size as u16),
        None => None,
    }
}

/// Reads a decimal number that fits `u8`.
pub fn parse_u8(text: &str) -> (number: Option<u8>)
    ensures
        match number {
            Some(n) => number_within(text.spec_bytes(), 10, 0, 0xFF) == Some(n as int),
            None => number_within(text.spec_bytes(), 10, 0, 0xFF) is None,
        },
{
    match parse_number(text, 10, 0, 0xFF) {
        Some((_, size)) => Some(size as u8),
        None => None,
    }
}

/// Reads a decimal number that fits `i16`.
pub fn parse_i16(text: &str) -> (number: Option<i16>)
    ensures
        match number {
            Some(n) => number_within(text.spec_bytes(), 10, -0x8000, 0x7FFF) == Some(n as int),
            None => number_within(text.spec_bytes(), 10, -0x8000, 0x7FFF) is None,
        },
{
    match parse_number(text, 10, 0x8000, 0x7FFF) {
        Some((negative, size)) => {
            if negative {
                Some((0 - (size as i32)) as i16)
            } else {
                Some(size as i16)
            }
        },
        None => None,
    }
}

/// Reads a decimal number that fits `usize`.
pub fn parse_usize(text: &str) -> (number: Option<usize>)
    ensures
        match number {
            Some(n) => number_within(text.spec_bytes(), 10, 0, usize::MAX as int) == Some(n as int),
            None => number_within(text.spec_bytes(), 10, 0, usize::MAX as int) is None,
        },
{
    match parse_number(text, 10, 0, usize::MAX as u64) {
        Some((_, size)) => Some(size as usize),
        None => None,
    }
}

} // verus!
