//! Query values: percent-encoding and its inverse.
use vstd::prelude::*;
use vstd::string::*;
use vstd::utf8::*;

use crate::text;

verus! {

/// The bytes that stand for themselves in a URL: letters, digits and `-_.~`.
pub open spec fn unreserved(b: u8) -> bool {
    ||| 65 <= b <= 90
    ||| 97 <= b <= 122
    ||| 48 <= b <= 57
    ||| b == 45
    ||| b == 95
    ||| b == 46
    ||| b == 126
}

/// The digit `n`, which is below sixteen, in upper-case hexadecimal.
pub open spec fn hex_digit(n: u8) -> char {
    if n < 10 {
        (48 + n) as char
    } else {
        (55 + n) as char
    }
}

/// A byte, as it is written in a query.
pub open spec fn encoded_byte(b: u8) -> Seq<char> {
    if unreserved(b) {
        seq![b as char]
    } else {
        seq!['%', hex_digit(b / 16), hex_digit(b % 16)]
    }
}

/// Bytes, as they are written in a query.
pub open spec fn encoded_bytes(bytes: Seq<u8>) -> Seq<char>
    decreases bytes.len(),
{
    if bytes.len() == 0 {
        Seq::empty()
    } else {
        encoded_byte(bytes[0]) + encoded_bytes(bytes.drop_first())
    }
}

/// A text, as it is written in a query: its UTF-8 bytes, all but the
/// unreserved ones as `%` and two digits.
pub open spec fn encoded(s: Seq<char>) -> Seq<char> {
    encoded_bytes(encode_utf8(s))
}

/// What a hexadecimal digit stands for.
pub open spec fn hex_value(b: u8) -> Option<u8> {
    if 48 <= b <= 57 {
        Some((b - 48) as u8)
    } else if 65 <= b <= 70 {
        Some((b - 55) as u8)
    } else if 97 <= b <= 102 {
        Some((b - 87) as u8)
    } else {
        None
    }
}

/// The byte that two characters behind a `%` name: two digits, or a plus sign
/// and one digit.
pub open spec fn escaped_byte(high: u8, low: u8) -> Option<u8> {
    match (hex_value(high), hex_value(low)) {
        (Some(h), Some(l)) => Some((16 * h + l) as u8),
        (None, Some(l)) => if high == 43 {
            Some(l)
        } else {
            None
        },
        _ => None,
    }
}

/// What the bytes of a query value stand for. A `+` is a space, and a `%` that
/// no byte follows is itself.
pub open spec fn unescaped(bytes: Seq<u8>) -> Seq<u8>
    decreases bytes.len(),
{
    if bytes.len() == 0 {
        Seq::empty()
    } else if bytes[0] == 37 && bytes.len() > 2 && escaped_byte(bytes[1], bytes[2]) is Some {
        seq![escaped_byte(bytes[1], bytes[2])->0] + unescaped(bytes.skip(3))
    } else if bytes[0] == 43 {
        seq![32u8] + unescaped(bytes.skip(1))
    } else {
        seq![bytes[0]] + unescaped(bytes.skip(1))
    }
}

/// What a query value stands for.
pub open spec fn decoded(s: Seq<char>) -> Seq<char> {
    text::decoded(unescaped(encode_utf8(s)))
}

/// What is written in a query is ASCII, and none of the characters that
/// structure one.
pub proof fn lemma_encoded_bytes(bytes: Seq<u8>)
    ensures
        is_ascii_chars(encoded_bytes(bytes)),
        forall|i: int|
            #![trigger encoded_bytes(bytes)[i]]
            0 <= i < encoded_bytes(bytes).len() ==> encoded_bytes(bytes)[i] == '%' || unreserved(
                encoded_bytes(bytes)[i] as u8,
            ),
    decreases bytes.len(),
{
    if bytes.len() > 0 {
        lemma_encoded_bytes(bytes.drop_first());
        let head = encoded_byte(bytes[0]);
        let tail = encoded_bytes(bytes.drop_first());
        assert forall|i: int| 0 <= i < (head + tail).len() implies '\0' <= #[trigger] (head
            + tail)[i] <= '\u{7f}' && ((head + tail)[i] == '%' || unreserved(
            (head + tail)[i] as u8,
        )) by {
            if i < head.len() {
                assert((head + tail)[i] == head[i]);
            } else {
                assert((head + tail)[i] == tail[i - head.len()]);
            }
        }
    }
}

proof fn lemma_unescaped(bytes: Seq<u8>, form: Seq<u8>)
    requires
        form.len() == encoded_bytes(bytes).len(),
        forall|i: int|
            #![trigger form[i]]
            0 <= i < form.len() ==> form[i] == encoded_bytes(bytes)[i] as u8,
    ensures
        unescaped(form) == bytes,
    decreases bytes.len(),
{
    if bytes.len() > 0 {
        let b = bytes[0];
        let head = encoded_byte(b);
        let tail = encoded_bytes(bytes.drop_first());
        let n = head.len() as int;
        let rest = form.skip(n);
        assert forall|i: int| 0 <= i < rest.len() implies #[trigger] rest[i] == tail[i] as u8 by {
            assert(form[i + n] == (head + tail)[i + n] as u8);
        }
        lemma_unescaped(bytes.drop_first(), rest);
        assert(form[0] == head[0] as u8);
        if !unreserved(b) {
            assert(form[1] == head[1] as u8);
            assert(form[2] == head[2] as u8);
            assert(escaped_byte(form[1], form[2]) == Some(b));
        }
        assert(seq![b] + bytes.drop_first() =~= bytes);
    } else {
        assert(form =~= bytes);
    }
}

/// A query value survives the round trip: what was written stands for the
/// text it was written from.
pub proof fn round_trip(s: Seq<char>)
    ensures
        decoded(encoded(s)) == s,
{
    let bytes = encode_utf8(s);
    lemma_encoded_bytes(bytes);
    is_ascii_chars_encode_utf8(encoded(s));
    lemma_unescaped(bytes, encode_utf8(encoded(s)));
    encode_utf8_valid_utf8(s);
    encode_utf8_decode_utf8(s);
}

/// Nothing that would break a query is written in one: neither `&` nor `=`,
/// neither `?` nor `#`, no slash and no space.
pub proof fn nothing_structural(s: Seq<char>)
    ensures
        forall|i: int|
            #![trigger encoded(s)[i]]
            0 <= i < encoded(s).len() ==> encoded(s)[i] != '&' && encoded(s)[i] != '='
                && encoded(s)[i] != '?' && encoded(s)[i] != '#' && encoded(s)[i] != '/'
                && encoded(s)[i] != ' ' && encoded(s)[i] != '+' && encoded(s)[i] != ':',
{
    lemma_encoded_bytes(encode_utf8(s));
}

/// A hexadecimal digit, in upper case.
fn digit(n: u8) -> (r: char)
    requires
        n < 16,
    ensures
        r == hex_digit(n),
{
    if n < 10 {
        (48 + n) as char
    } else {
        (55 + n) as char
    }
}

/// Percent-encode everything that is not unreserved.
pub fn urlencode(raw: &str) -> (r: String)
    ensures
        r@ == encoded(raw@),
{
    let bytes = raw.as_bytes();
    let mut out: String = String::new();
    let mut i: usize = 0;
    assert(bytes@.skip(0) =~= bytes@);
    assert(out@ + encoded_bytes(bytes@.skip(0)) =~= encoded_bytes(bytes@));
    while i < bytes.len()
        invariant
            i <= bytes@.len(),
            out@ + encoded_bytes(bytes@.skip(i as int)) == encoded_bytes(bytes@),
        decreases bytes@.len() - i,
    {
        let b: u8 = bytes[i];
        let ghost before = out@;
        let ghost rest = bytes@.skip(i as int);
        assert(rest.drop_first() =~= bytes@.skip(i + 1));
        if (65 <= b && b <= 90) || (97 <= b && b <= 122) || (48 <= b && b <= 57) || b == 45 || b
            == 95 || b == 46 || b == 126 {
            out.push(b as char);
        } else {
            out.push('%');
            out.push(digit(b / 16));
            out.push(digit(b % 16));
        }
        assert(out@ =~= before + encoded_byte(b));
        assert(out@ + encoded_bytes(bytes@.skip(i + 1)) =~= before + (encoded_byte(b)
            + encoded_bytes(bytes@.skip(i + 1))));
        i = i + 1;
    }
    assert(out@ + encoded_bytes(bytes@.skip(i as int)) =~= out@);
    out
}

/// What a hexadecimal digit stands for.
fn value(b: u8) -> (r: Option<u8>)
    ensures
        r == hex_value(b),
{
    if 48 <= b && b <= 57 {
        Some(b - 48)
    } else if 65 <= b && b <= 70 {
        Some(b - 55)
    } else if 97 <= b && b <= 102 {
        Some(b - 87)
    } else {
        None
    }
}

/// The byte that two characters behind a `%` name.
fn escape(high: u8, low: u8) -> (r: Option<u8>)
    ensures
        r == escaped_byte(high, low),
{
    match (value(high), value(low)) {
        (Some(h), Some(l)) => Some(16 * h + l),
        (None, Some(l)) => if high == 43 {
            Some(l)
        } else {
            None
        },
        _ => None,
    }
}

/// What a query value stands for.
pub fn urldecode(raw: &str) -> (r: String)
    ensures
        r@ == decoded(raw@),
{
    let bytes = raw.as_bytes();
    let mut out: Vec<u8> = Vec::new();
    let mut i: usize = 0;
    assert(bytes@.skip(0) =~= bytes@);
    assert(out@ + unescaped(bytes@.skip(0)) =~= unescaped(bytes@));
    while i < bytes.len()
        invariant
            i <= bytes@.len(),
            out@ + unescaped(bytes@.skip(i as int)) == unescaped(bytes@),
        decreases bytes@.len() - i,
    {
        let b: u8 = bytes[i];
        let ghost before = out@;
        let ghost rest = bytes@.skip(i as int);
        assert(rest.skip(1) =~= bytes@.skip(i + 1));
        let named: Option<u8> = if b == 37 && bytes.len() - i > 2 {
            assert(rest.skip(3) =~= bytes@.skip(i + 3));
            escape(bytes[i + 1], bytes[i + 2])
        } else {
            None
        };
        let (next, step): (u8, usize) = match named {
            Some(byte) => (byte, 3),
            None => if b == 43 {
                (32, 1)
            } else {
                (b, 1)
            },
        };
        out.push(next);
        assert(out@ + unescaped(bytes@.skip(i + step)) =~= before + (seq![next] + unescaped(
            bytes@.skip(i + step),
        )));
        i = i + step;
    }
    assert(out@ + unescaped(bytes@.skip(i as int)) =~= out@);
    text::utf8_lossy(out.as_slice())
}

proof fn lemma_plain_bytes(bytes: Seq<u8>)
    requires
        forall|i: int| 0 <= i < bytes.len() ==> unreserved(#[trigger] bytes[i]),
    ensures
        encoded_bytes(bytes) == bytes.map_values(|b: u8| b as char),
    decreases bytes.len(),
{
    if bytes.len() > 0 {
        let rest = bytes.drop_first();
        assert forall|i: int| 0 <= i < rest.len() implies unreserved(#[trigger] rest[i]) by {
            assert(unreserved(bytes[i + 1]));
        }
        lemma_plain_bytes(rest);
        assert(unreserved(bytes[0]));
        assert(encoded_bytes(bytes) =~= bytes.map_values(|b: u8| b as char));
    } else {
        assert(encoded_bytes(bytes) =~= bytes.map_values(|b: u8| b as char));
    }
}

/// A letter, a digit, or one of `-_.~`.
pub open spec fn plain(c: char) -> bool {
    ||| 'a' <= c <= 'z'
    ||| 'A' <= c <= 'Z'
    ||| '0' <= c <= '9'
    ||| c == '-'
    ||| c == '_'
    ||| c == '.'
    ||| c == '~'
}

/// A text of letters, digits and `-_.~` is written in a query as it is.
pub proof fn a_plain_text_is_written_as_it_is(s: Seq<char>)
    requires
        forall|i: int| 0 <= i < s.len() ==> plain(#[trigger] s[i]),
    ensures
        encoded(s) == s,
{
    assert forall|i: int| 0 <= i < s.len() implies '\0' <= #[trigger] s[i] <= '\u{7f}'
        && unreserved(s[i] as u8) by {
        assert(plain(s[i]));
    }
    assert(is_ascii_chars(s));
    is_ascii_chars_encode_utf8(s);
    let bytes = encode_utf8(s);
    assert forall|i: int| 0 <= i < bytes.len() implies unreserved(#[trigger] bytes[i]) by {
        assert(unreserved(s[i] as u8));
    }
    lemma_plain_bytes(bytes);
    assert(encoded(s) =~= s);
}

/// Two texts are written in a query apart.
pub proof fn two_texts_are_written_apart(a: &str, b: &str, x: String, y: String)
    requires
        call_ensures(urlencode, (a,), x),
        call_ensures(urlencode, (b,), y),
    ensures
        x@ == y@ ==> a@ == b@,
{
    round_trip(a@);
    round_trip(b@);
}

/// What is written in a query is read out of it again.
pub proof fn what_is_written_is_read(raw: &str, written: String, form: &str, read: String)
    requires
        call_ensures(urlencode, (raw,), written),
        form@ == written@,
        call_ensures(urldecode, (form,), read),
    ensures
        read@ == raw@,
{
    round_trip(raw@);
}

/// A digit, or one of the first six capitals.
pub open spec fn capital_digit(c: char) -> bool {
    '0' <= c <= '9' || 'A' <= c <= 'F'
}

proof fn lemma_escapes(bytes: Seq<u8>)
    ensures
        forall|i: int|
            0 <= i < encoded_bytes(bytes).len() && #[trigger] encoded_bytes(bytes)[i] == '%' ==> i
                + 2 < encoded_bytes(bytes).len() && capital_digit(encoded_bytes(bytes)[i + 1])
                && capital_digit(encoded_bytes(bytes)[i + 2]),
        forall|i: int|
            0 <= i < encoded_bytes(bytes).len() ==> #[trigger] encoded_bytes(bytes)[i] == '%'
                || plain(encoded_bytes(bytes)[i]),
    decreases bytes.len(),
{
    if bytes.len() > 0 {
        let rest = bytes.drop_first();
        lemma_escapes(rest);
        let head = encoded_byte(bytes[0]);
        let tail = encoded_bytes(rest);
        let all = encoded_bytes(bytes);
        let n = head.len() as int;
        let b = bytes[0];
        if !unreserved(b) {
            assert(b / 16 < 16 && b % 16 < 16);
        }
        assert forall|i: int| 0 <= i < all.len() && #[trigger] all[i] == '%' implies i + 2
            < all.len() && capital_digit(all[i + 1]) && capital_digit(all[i + 2]) by {
            if i >= n {
                assert(all[i] == tail[i - n]);
                assert(all[i + 1] == tail[i - n + 1]);
                assert(all[i + 2] == tail[i - n + 2]);
            } else {
                assert(all[i] == head[i]);
            }
        }
        assert forall|i: int| 0 <= i < all.len() implies #[trigger] all[i] == '%' || plain(
            all[i],
        ) by {
            if i >= n {
                assert(all[i] == tail[i - n]);
            } else {
                assert(all[i] == head[i]);
            }
        }
    }
}

/// What cannot stand in a query as it is is escaped by a `%` and two digits, in
/// capitals; nothing else stands in a query than that and letters, digits and
/// `-_.~`.
pub proof fn an_escape_is_two_digits_in_capitals(raw: &str, r: String, i: int)
    requires
        call_ensures(urlencode, (raw,), r),
        0 <= i < r@.len(),
    ensures
        r@[i] == '%' || plain(r@[i]),
        r@[i] == '%' ==> i + 2 < r@.len() && capital_digit(r@[i + 1]) && capital_digit(r@[i + 2]),
{
    lemma_escapes(encode_utf8(raw@));
}

/// A space, for a plus sign.
pub open spec fn spaced(c: char) -> char {
    if c == '+' {
        ' '
    } else {
        c
    }
}

proof fn lemma_unescaped_plain(bytes: Seq<u8>)
    requires
        forall|i: int| 0 <= i < bytes.len() ==> #[trigger] bytes[i] != 37,
    ensures
        unescaped(bytes).len() == bytes.len(),
        forall|i: int|
            0 <= i < bytes.len() ==> #[trigger] unescaped(bytes)[i] == if bytes[i] == 43 {
                32u8
            } else {
                bytes[i]
            },
    decreases bytes.len(),
{
    if bytes.len() > 0 {
        let rest = bytes.skip(1);
        assert forall|i: int| 0 <= i < rest.len() implies #[trigger] rest[i] != 37 by {
            assert(rest[i] == bytes[i + 1]);
        }
        lemma_unescaped_plain(rest);
        assert(bytes[0] != 37);
        assert forall|i: int| 0 <= i < bytes.len() implies #[trigger] unescaped(bytes)[i] == if bytes[i]
            == 43 {
            32u8
        } else {
            bytes[i]
        } by {
            if i > 0 {
                assert(unescaped(bytes)[i] == unescaped(rest)[i - 1]);
                assert(rest[i - 1] == bytes[i]);
            }
        }
    }
}

/// Where nothing is escaped a query is read as it stands, but that every plus
/// sign is a space.
pub proof fn a_plus_sign_is_a_space(s: &str, r: String)
    requires
        call_ensures(urldecode, (s,), r),
        is_ascii_chars(s@),
        forall|i: int| 0 <= i < s@.len() ==> #[trigger] s@[i] != '%',
    ensures
        r@ == s@.map_values(|c: char| spaced(c)),
{
    let meant = s@.map_values(|c: char| spaced(c));
    let bytes = encode_utf8(s@);
    is_ascii_chars_encode_utf8(s@);
    assert forall|i: int| 0 <= i < bytes.len() implies #[trigger] bytes[i] != 37 by {
        assert(s@[i] as u8 == bytes[i]);
        assert(s@[i] != '%');
    }
    lemma_unescaped_plain(bytes);
    assert(is_ascii_chars(meant));
    is_ascii_chars_encode_utf8(meant);
    assert(unescaped(bytes) =~= encode_utf8(meant)) by {
        assert forall|i: int| 0 <= i < bytes.len() implies unescaped(bytes)[i] == encode_utf8(
            meant,
        )[i] by {
            assert(s@[i] as u8 == bytes[i]);
            assert(meant[i] == spaced(s@[i]));
            assert(meant[i] as u8 == encode_utf8(meant)[i]);
        }
    }
    encode_utf8_valid_utf8(meant);
    encode_utf8_decode_utf8(meant);
}

} // verus!
