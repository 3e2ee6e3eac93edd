//! Percent-encoding of menu identifier fragments.
//!
//! The encoding itself is done by the `percent-encoding` crate. Here stands what its two calls
//! mean, and the proof that decoding undoes encoding.
use vstd::prelude::*;
use vstd::utf8::*;

verus! {

/// An ASCII letter or digit, the only bytes that encoding leaves as they are.
pub open spec fn is_ascii_alphanumeric(byte: u8) -> bool {
    0x30 <= byte <= 0x39 || 0x41 <= byte <= 0x5A || 0x61 <= byte <= 0x7A
}

/// The upper case hexadecimal digit of a value below sixteen.
pub open spec fn hex_digit(value: int) -> char {
    if value < 10 {
        (0x30 + value) as char
    } else {
        (0x37 + value) as char
    }
}

/// The value of a hexadecimal digit in either case.
pub open spec fn hex_value(byte: u8) -> Option<int> {
    if 0x30 <= byte <= 0x39 {
        Some(byte - 0x30)
    } else if 0x41 <= byte <= 0x46 {
        Some(byte - 0x37)
    } else if 0x61 <= byte <= 0x66 {
        Some(byte - 0x57)
    } else {
        None
    }
}

/// One byte: itself, or `%` and two hexadecimal digits.
pub open spec fn encoded_byte(byte: u8) -> Seq<char> {
    if is_ascii_alphanumeric(byte) {
        seq![byte as char]
    } else {
        seq!['%', hex_digit(byte as int / 16), hex_digit(byte as int % 16)]
    }
}

/// The percent-encoding of a byte sequence.
pub open spec fn encoded_bytes(bytes: Seq<u8>) -> Seq<char>
    decreases bytes.len(),
{
    if bytes.len() == 0 {
        seq![]
    } else {
        encoded_byte(bytes[0]) + encoded_bytes(bytes.drop_first())
    }
}

/// Percent-decoding of a byte sequence: each `%` that two hexadecimal digits follow gives one
/// byte, every other byte stays.
pub open spec fn decoded_bytes(bytes: Seq<u8>) -> Seq<u8>
    decreases bytes.len(),
{
    if bytes.len() == 0 {
        seq![]
    } else if bytes.len() >= 3 && bytes[0] == 0x25 && hex_value(bytes[1]) is Some && hex_value(
        bytes[2],
    ) is Some {
        seq![(hex_value(bytes[1])->0 * 16 + hex_value(bytes[2])->0) as u8] + decoded_bytes(
            bytes.skip(3),
        )
    } else {
        seq![bytes[0]] + decoded_bytes(bytes.drop_first())
    }
}

/// The percent-encoding of a text: that of its UTF-8 bytes.
pub open spec fn encoded(text: Seq<char>) -> Seq<char> {
    encoded_bytes(encode_utf8(text))
}

/// The text that an encoded text stands for, if its decoded bytes are UTF-8.
pub open spec fn decoded(text: Seq<char>) -> Option<Seq<char>> {
    let bytes = decoded_bytes(encode_utf8(text));
    if valid_utf8(bytes) {
        Some(decode_utf8(bytes))
    } else {
        None
    }
}

/// Calls `percent_encoding::utf8_percent_encode` with the set `NON_ALPHANUMERIC` and writes the
/// outcome into a string.
///
/// Trusted: ASCII letters and digits stay, and every other byte of the UTF-8 form of `value`
/// becomes `%` and two upper case hexadecimal digits.
#[verifier::external_body]
pub(crate) fn encode(value: &str) -> (text: String)
    ensures
        text@ == encoded(value@),
{
    percent_encoding::utf8_percent_encode(value, percent_encoding::NON_ALPHANUMERIC).to_string()
}

/// Calls `percent_encoding::percent_decode_str` and then `decode_utf8` on what it gives.
///
/// Trusted: every `%` with two hexadecimal digits behind it becomes one byte, all other bytes
/// stay, and there is a result just where the bytes are well-formed UTF-8.
#[verifier::external_body]
pub(crate) fn decode(value: &str) -> (text: Option<String>)
    ensures
        match text {
            Some(text) => decoded(value@) == Some(text@),
            None => decoded(value@) is None,
        },
{
    match percent_encoding::percent_decode_str(value).decode_utf8() {
        Ok(text) => Some(text.into_owned()),
        Err(_) => None,
    }
}

/// A character that encoding can produce.
pub open spec fn is_encoded_char(c: char) -> bool {
    c == '%' || '0' <= c <= '9' || 'A' <= c <= 'Z' || 'a' <= c <= 'z'
}

/// An encoded text holds ASCII letters, digits and `%` only.
pub proof fn lemma_encoded_bytes_chars(bytes: Seq<u8>)
    ensures
        forall|i: int|
            0 <= i < encoded_bytes(bytes).len() ==> is_encoded_char(#[trigger] encoded_bytes(bytes)[i]),
        is_ascii_chars(encoded_bytes(bytes)),
    decreases bytes.len(),
{
    if bytes.len() > 0 {
        let first = encoded_byte(bytes[0]);
        let rest = encoded_bytes(bytes.drop_first());
        lemma_encoded_bytes_chars(bytes.drop_first());
        assert forall|i: int| 0 <= i < encoded_bytes(bytes).len() implies is_encoded_char(
            #[trigger] encoded_bytes(bytes)[i],
        ) by {
            if i >= first.len() {
                assert(encoded_bytes(bytes)[i] == rest[i - first.len()]);
            }
        }
    }
}

/// The bytes of an ASCII text, in front of those of another one.
proof fn lemma_ascii_concat(first: Seq<char>, rest: Seq<char>)
    requires
        is_ascii_chars(first),
        is_ascii_chars(rest),
    ensures
        encode_utf8(first + rest) == encode_utf8(first) + encode_utf8(rest),
{
    is_ascii_chars_concat(first + rest, first, rest);
    is_ascii_chars_encode_utf8(first);
    is_ascii_chars_encode_utf8(rest);
    is_ascii_chars_encode_utf8(first + rest);
    assert(encode_utf8(first + rest) =~= encode_utf8(first) + encode_utf8(rest));
}

/// Decoding the bytes of an encoded byte sequence gives the sequence back.
pub proof fn lemma_decoded_encoded_bytes(bytes: Seq<u8>)
    ensures
        decoded_bytes(encode_utf8(encoded_bytes(bytes))) == bytes,
    decreases bytes.len(),
{
    if bytes.len() == 0 {
        assert(encode_utf8(encoded_bytes(bytes)) =~= seq![]);
    } else {
        let first = encoded_byte(bytes[0]);
        let rest = bytes.drop_first();
        let tail = encode_utf8(encoded_bytes(rest));
        let whole = encode_utf8(encoded_bytes(bytes));
        lemma_encoded_bytes_chars(rest);
        lemma_decoded_encoded_bytes(rest);
        assert(is_ascii_chars(first));
        lemma_ascii_concat(first, encoded_bytes(rest));
        is_ascii_chars_encode_utf8(first);
        assert(whole == encode_utf8(first) + tail);
        if is_ascii_alphanumeric(bytes[0]) {
            assert(first[0] as u8 == bytes[0]);
            assert(encode_utf8(first) =~= seq![bytes[0]]);
            assert(whole.drop_first() =~= tail);
        } else {
            let high = bytes[0] as int / 16;
            let low = bytes[0] as int % 16;
            assert(first[0] as u8 == 0x25);
            assert(hex_value(first[1] as u8) == Some(high));
            assert(hex_value(first[2] as u8) == Some(low));
            assert(whole.skip(3) =~= tail);
            assert(high * 16 + low == bytes[0]);
        }
        assert(bytes =~= seq![bytes[0]] + rest);
    }
}

/// Decoding undoes encoding, whatever the text.
pub proof fn decoding_undoes_encoding(text: Seq<char>)
    ensures
        decoded(encoded(text)) == Some(text),
{
    lemma_decoded_encoded_bytes(encode_utf8(text));
    encode_utf8_valid_utf8(text);
    encode_utf8_decode_utf8(text);
}

/// A hexadecimal digit in upper case.
pub open spec fn is_upper_hex(c: char) -> bool {
    '0' <= c <= '9' || 'A' <= c <= 'F'
}

/// Encoding goes byte by byte. An ASCII letter or digit stays, any other byte becomes `%` with its
/// two upper case hexadecimal digits, the higher one first.
pub proof fn bytes_are_encoded_one_by_one(bytes: Seq<u8>, byte: u8)
    ensures
        encoded_bytes(Seq::<u8>::empty()) == Seq::<char>::empty(),
        ({
            let more = encoded_bytes(bytes.push(byte));
            let before = encoded_bytes(bytes);
            if 0x30 <= byte <= 0x39 || 0x41 <= byte <= 0x5A || 0x61 <= byte <= 0x7A {
                more == before.push(byte as char)
            } else {
                &&& more.len() == before.len() + 3
                &&& more.take(before.len() as int) == before
                &&& more[before.len() as int] == '%'
                &&& is_upper_hex(more[before.len() as int + 1])
                &&& is_upper_hex(more[before.len() as int + 2])
                &&& hex_value(more[before.len() as int + 1] as u8) == Some(byte as int / 16)
                &&& hex_value(more[before.len() as int + 2] as u8) == Some(byte as int % 16)
            }
        }),
{
    lemma_encoded_bytes_concat(bytes, seq![byte]);
    assert(bytes.push(byte) =~= bytes + seq![byte]);
    assert(seq![byte].drop_first() =~= seq![]);
    reveal_with_fuel(encoded_bytes, 2);
    let more = encoded_bytes(bytes.push(byte));
    let before = encoded_bytes(bytes);
    assert(encoded_bytes(seq![byte]) =~= encoded_byte(byte));
    if 0x30 <= byte <= 0x39 || 0x41 <= byte <= 0x5A || 0x61 <= byte <= 0x7A {
        assert(more =~= before.push(byte as char));
    } else {
        assert(more.take(before.len() as int) =~= before);
    }
}

/// The encoding of a concatenation is the concatenation of the encodings.
proof fn lemma_encoded_bytes_concat(left: Seq<u8>, right: Seq<u8>)
    ensures
        encoded_bytes(left + right) == encoded_bytes(left) + encoded_bytes(right),
    decreases left.len(),
{
    if left.len() == 0 {
        assert(left + right =~= right);
        assert(encoded_bytes(left) + encoded_bytes(right) =~= encoded_bytes(right));
    } else {
        lemma_encoded_bytes_concat(left.drop_first(), right);
        assert((left + right).drop_first() =~= left.drop_first() + right);
        assert(encoded_bytes(left + right) =~= encoded_bytes(left) + encoded_bytes(right));
    }
}

/// The value of a hexadecimal digit in numbers.
pub proof fn hex_values_in_numbers(byte: u8)
    ensures
        0x30 <= byte <= 0x39 ==> hex_value(byte) == Some(byte as int - 0x30),
        0x41 <= byte <= 0x46 ==> hex_value(byte) == Some(byte as int - 0x41 + 10),
        0x61 <= byte <= 0x66 ==> hex_value(byte) == Some(byte as int - 0x61 + 10),
        hex_value(byte) is Some <==> 0x30 <= byte <= 0x39 || 0x41 <= byte <= 0x46 || 0x61 <= byte
            <= 0x66,
{
}

/// Decoding goes from the front. A byte other than `%` stays, `%` with two hexadecimal digits
/// becomes the byte that these denote, and a `%` without them stays.
pub proof fn bytes_are_decoded_one_by_one(first: u8, rest: Seq<u8>)
    ensures
        decoded_bytes(Seq::<u8>::empty()) == Seq::<u8>::empty(),
        ({
            let whole = seq![first] + rest;
            if first == 0x25 && rest.len() >= 2 && hex_value(rest[0]) is Some && hex_value(
                rest[1],
            ) is Some {
                &&& decoded_bytes(whole).len() > 0
                &&& decoded_bytes(whole)[0] == hex_value(rest[0])->0 * 16 + hex_value(rest[1])->0
                &&& decoded_bytes(whole).skip(1) == decoded_bytes(rest.skip(2))
            } else {
                decoded_bytes(whole) == seq![first] + decoded_bytes(rest)
            }
        }),
{
    let whole = seq![first] + rest;
    assert(whole.drop_first() =~= rest);
    if first == 0x25 && rest.len() >= 2 && hex_value(rest[0]) is Some && hex_value(
        rest[1],
    ) is Some {
        assert(whole.skip(3) =~= rest.skip(2));
        assert(decoded_bytes(whole).skip(1) =~= decoded_bytes(rest.skip(2)));
    }
}

/// A text decodes to another exactly where its decoded bytes are the UTF-8 form of the other one.
pub proof fn decoding_yields_the_text_of_the_bytes(text: Seq<char>, other: Seq<char>)
    ensures
        decoded(text) == Some(other) <==> decoded_bytes(encode_utf8(text)) == encode_utf8(other),
{
    let bytes = decoded_bytes(encode_utf8(text));
    encode_utf8_valid_utf8(other);
    encode_utf8_decode_utf8(other);
    if valid_utf8(bytes) {
        decode_utf8_encode_utf8(bytes);
    }
}

} // verus!
