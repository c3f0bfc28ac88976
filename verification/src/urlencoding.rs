//! Percent-encoding of search queries (`application/x-www-form-urlencoded`
//! style: space becomes `+`) and its decoding.

use vstd::prelude::*;
use vstd::utf8::{encode_utf8, is_ascii_chars, is_ascii_chars_encode_utf8};
use crate::text::{chars_of, push_char};

verus! {

/// Bytes that are written as they are: ASCII letters, digits and `-_.~`.
pub open spec fn is_unreserved(b: u8) -> bool {
    ||| (65 <= b <= 90)
    ||| (97 <= b <= 122)
    ||| (48 <= b <= 57)
    ||| b == 45
    ||| b == 95
    ||| b == 46
    ||| b == 126
}

/// Upper-case hexadecimal digit for `n < 16`.
pub open spec fn hex_upper(n: u8) -> char {
    if n < 10 {
        (48 + n) as char
    } else {
        (55 + n) as char
    }
}

/// How one byte is written.
pub open spec fn encode_byte(b: u8) -> Seq<char> {
    if is_unreserved(b) {
        seq![b as char]
    } else if b == 32 {
        seq!['+']
    } else {
        seq!['%', hex_upper(b / 16), hex_upper(b % 16)]
    }
}

/// The encoding of a byte sequence, byte after byte.
pub open spec fn encode_bytes(bs: Seq<u8>) -> Seq<char>
    decreases bs.len(),
{
    if bs.len() == 0 {
        seq![]
    } else {
        encode_byte(bs[0]) + encode_bytes(bs.drop_first())
    }
}

/// The encoding of a string: its UTF-8 bytes, encoded one by one.
pub open spec fn url_encoded(s: Seq<char>) -> Seq<char> {
    encode_bytes(encode_utf8(s))
}

/// Value of a hexadecimal digit of either case.
pub open spec fn hex_digit_value(c: char) -> Option<u8> {
    if '0' <= c <= '9' {
        Some((c as u32 - 48) as u8)
    } else if 'a' <= c <= 'f' {
        Some((c as u32 - 87) as u8)
    } else if 'A' <= c <= 'F' {
        Some((c as u32 - 55) as u8)
    } else {
        None
    }
}

/// Value of one or two hexadecimal digits.
pub open spec fn hex_digits_value(d: Seq<char>) -> Option<u8> {
    if d.len() == 1 {
        hex_digit_value(d[0])
    } else if d.len() == 2 {
        match (hex_digit_value(d[0]), hex_digit_value(d[1])) {
            (Some(a), Some(b)) => Some((a * 16 + b) as u8),
            _ => None,
        }
    } else {
        None
    }
}

/// `u8::from_str_radix(h, 16)` for a text of at most two characters:
/// an optional leading `+`, then hexadecimal digits.
pub open spec fn parse_hex_u8(h: Seq<char>) -> Option<u8> {
    if h.len() == 0 {
        None
    } else if h[0] == '+' {
        if h.len() == 1 {
            None
        } else {
            hex_digits_value(h.drop_first())
        }
    } else {
        hex_digits_value(h)
    }
}

/// Number of characters that a `%` escape starting at `s[0]` consumes.
pub open spec fn escape_len(s: Seq<char>) -> int {
    if s.len() >= 3 {
        3
    } else {
        s.len() as int
    }
}

/// The decoding: `%` takes the (at most two) following characters and, when
/// they read as a hexadecimal byte, yields the character with that code;
/// `+` yields a space; every other character stands for itself.
pub open spec fn url_decoded(s: Seq<char>) -> Seq<char>
    decreases s.len(),
{
    if s.len() == 0 {
        seq![]
    } else if s[0] == '%' {
        let n = escape_len(s);
        let rest = url_decoded(s.skip(n));
        match parse_hex_u8(s.subrange(1, n)) {
            Some(b) => seq![b as char] + rest,
            None => rest,
        }
    } else if s[0] == '+' {
        seq![' '] + url_decoded(s.drop_first())
    } else {
        seq![s[0]] + url_decoded(s.drop_first())
    }
}

fn hex_upper_exec(n: u8) -> (c: char)
    requires
        n < 16,
    ensures
        c == hex_upper(n),
{
    if n < 10 {
        (48 + n) as char
    } else {
        (55 + n) as char
    }
}

/// Percent-encodes `s` byte by byte: unreserved bytes stay, a space becomes `+`,
/// every other byte becomes `%` and two upper-case hexadecimal digits.
pub fn encode(s: &str) -> (r: String)
    ensures
        r@ == url_encoded(s@),
{
    let bytes = s.as_bytes();
    let mut encoded = String::new();
    let mut i: usize = 0;
    assert(bytes@.skip(0) =~= bytes@);
    while i < bytes.len()
        invariant
            i <= bytes@.len(),
            bytes@ == encode_utf8(s@),
            encoded@ + encode_bytes(bytes@.skip(i as int)) == url_encoded(s@),
        decreases bytes.len() - i,
    {
        let byte = bytes[i];
        let ghost before = encoded@;
        assert(bytes@.skip(i as int).drop_first() =~= bytes@.skip(i + 1));
        if (65 <= byte && byte <= 90) || (97 <= byte && byte <= 122) || (48 <= byte && byte <= 57)
            || byte == 45 || byte == 95 || byte == 46 || byte == 126 {
            push_char(&mut encoded, byte as char);
        } else if byte == 32 {
            push_char(&mut encoded, '+');
        } else {
            push_char(&mut encoded, '%');
            push_char(&mut encoded, hex_upper_exec(byte / 16));
            push_char(&mut encoded, hex_upper_exec(byte % 16));
        }
        assert(encoded@ =~= before + encode_byte(byte));
        assert(encoded@ + encode_bytes(bytes@.skip(i + 1)) =~= before + encode_bytes(
            bytes@.skip(i as int),
        ));
        i = i + 1;
    }
    assert(bytes@.skip(i as int) =~= Seq::<u8>::empty());
    assert(encoded@ + Seq::<char>::empty() =~= encoded@);
    encoded
}

fn hex_digit_value_exec(c: char) -> (r: Option<u8>)
    ensures
        r == hex_digit_value(c),
{
    if '0' <= c && c <= '9' {
        Some((c as u32 - 48) as u8)
    } else if 'a' <= c && c <= 'f' {
        Some((c as u32 - 87) as u8)
    } else if 'A' <= c && c <= 'F' {
        Some((c as u32 - 55) as u8)
    } else {
        None
    }
}

/// `u8::from_str_radix(v[start..end], 16)` for at most two characters.
fn parse_hex_u8_exec(v: &Vec<char>, start: usize, end: usize) -> (r: Option<u8>)
    requires
        start <= end <= v.len(),
        end - start <= 2,
    ensures
        r == parse_hex_u8(v@.subrange(start as int, end as int)),
{
    let ghost h = v@.subrange(start as int, end as int);
    if start == end {
        return None;
    }
    let mut s = start;
    if v[start] == '+' {
        if end - start == 1 {
            return None;
        }
        s = start + 1;
        assert(h.drop_first() =~= v@.subrange(s as int, end as int));
    }
    let ghost d = v@.subrange(s as int, end as int);
    if end - s == 1 {
        hex_digit_value_exec(v[s])
    } else {
        match (hex_digit_value_exec(v[s]), hex_digit_value_exec(v[s + 1])) {
            (Some(a), Some(b)) => {
                assert(a < 16 && b < 16);
                Some(a * 16 + b)
            },
            _ => None,
        }
    }
}

/// Decodes `s`: `%` with two hexadecimal digits gives the character with that
/// code, `+` gives a space, anything else stands for itself. An escape that does
/// not read as a byte is dropped. This never fails.
pub fn decode(s: &str) -> (r: Result<String, ()>)
    ensures
        r matches Ok(d) && d@ == url_decoded(s@),
{
    let v = chars_of(s);
    let mut result = String::new();
    let mut i: usize = 0;
    assert(v@.skip(0) =~= v@);
    while i < v.len()
        invariant
            i <= v@.len(),
            v@ == s@,
            result@ + url_decoded(v@.skip(i as int)) == url_decoded(s@),
        decreases v.len() - i,
    {
        let ch = v[i];
        let ghost before = result@;
        let ghost t = v@.skip(i as int);
        if ch == '%' {
            let end = if v.len() - i >= 3 { i + 3 } else { v.len() };
            assert(t.skip(escape_len(t)) =~= v@.skip(end as int));
            assert(t.subrange(1, escape_len(t)) =~= v@.subrange(i + 1, end as int));
            match parse_hex_u8_exec(&v, i + 1, end) {
                Some(byte) => {
                    push_char(&mut result, byte as char);
                    assert(result@ + url_decoded(v@.skip(end as int)) =~= before + url_decoded(t));
                },
                None => {
                    assert(result@ + url_decoded(v@.skip(end as int)) =~= before + url_decoded(t));
                },
            }
            i = end;
        } else {
            assert(t.drop_first() =~= v@.skip(i + 1));
            if ch == '+' {
                push_char(&mut result, ' ');
            } else {
                push_char(&mut result, ch);
            }
            assert(result@ + url_decoded(v@.skip(i + 1)) =~= before + url_decoded(t));
            i = i + 1;
        }
    }
    assert(v@.skip(i as int) =~= Seq::<char>::empty());
    assert(result@ + Seq::<char>::empty() =~= result@);
    Ok(result)
}

proof fn lemma_hex_upper_value(n: u8)
    requires
        n < 16,
    ensures
        hex_digit_value(hex_upper(n)) == Some(n),
        hex_upper(n) != '+',
{
}

proof fn lemma_decode_encoded_byte(b: u8, rest: Seq<char>)
    requires
        b < 128,
    ensures
        url_decoded(encode_byte(b) + rest) == seq![b as char] + url_decoded(rest),
{
    let e = encode_byte(b) + rest;
    if is_unreserved(b) || b == 32 {
        assert(e.drop_first() =~= rest);
    } else {
        lemma_hex_upper_value(b / 16);
        lemma_hex_upper_value(b % 16);
        assert(e.skip(3) =~= rest);
        assert(e.subrange(1, 3) =~= seq![hex_upper(b / 16), hex_upper(b % 16)]);
        assert(seq![hex_upper(b / 16), hex_upper(b % 16)].drop_first().len() == 1);
    }
}

proof fn lemma_decode_encode_bytes(bs: Seq<u8>)
    requires
        forall|i: int| 0 <= i < bs.len() ==> #[trigger] bs[i] < 128,
    ensures
        url_decoded(encode_bytes(bs)) == bs.map_values(|b: u8| b as char),
    decreases bs.len(),
{
    if bs.len() > 0 {
        lemma_decode_encode_bytes(bs.drop_first());
        lemma_decode_encoded_byte(bs[0], encode_bytes(bs.drop_first()));
        assert(bs.map_values(|b: u8| b as char) =~= seq![bs[0] as char] + bs.drop_first().map_values(
            |b: u8| b as char,
        ));
    } else {
        assert(bs.map_values(|b: u8| b as char) =~= Seq::<char>::empty());
    }
}

/// Decoding undoes encoding for every ASCII string.
/// (For other strings each UTF-8 byte comes back as a character of its own.)
pub proof fn lemma_decode_encode_ascii(s: Seq<char>)
    requires
        is_ascii_chars(s),
    ensures
        url_decoded(url_encoded(s)) == s,
{
    is_ascii_chars_encode_utf8(s);
    let bs = encode_utf8(s);
    assert forall|i: int| 0 <= i < bs.len() implies #[trigger] bs[i] < 128 by {
        assert('\0' <= s[i] <= '\u{7f}');
    }
    lemma_decode_encode_bytes(bs);
    let m = bs.map_values(|b: u8| b as char);
    assert forall|i: int| 0 <= i < s.len() implies #[trigger] m[i] == s[i] by {
        assert(s[i] as u8 == bs[i]);
        assert('\0' <= s[i] <= '\u{7f}');
    }
    assert(m =~= s);
}

} // verus!
