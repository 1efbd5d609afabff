//! Base-64 text for byte strings.

use vstd::prelude::*;

use crate::decimal::decimal_string;
use crate::pagination::errors::PaginationError;
use crate::text::joined;

verus! {

/// The byte of the padding character `=`.
pub const PADDING: u8 = 61;

/// The ASCII byte that stands for `value` in base 64: capital letters, small
/// letters, digits, `+` and `/`.
pub open spec fn symbol(value: int) -> u8
    recommends
        0 <= value < 64,
{
    if value < 26 {
        (65 + value) as u8
    } else if value < 52 {
        (97 + (value - 26)) as u8
    } else if value < 62 {
        (48 + (value - 52)) as u8
    } else if value == 62 {
        43
    } else {
        47
    }
}

/// The number below 64 that `byte` stands for, if it stands for one.
pub open spec fn sextet(byte: u8) -> Option<int> {
    if 65 <= byte <= 90 {
        Some(byte - 65)
    } else if 97 <= byte <= 122 {
        Some(byte - 97 + 26)
    } else if 48 <= byte <= 57 {
        Some(byte - 48 + 52)
    } else if byte == 43 {
        Some(62)
    } else if byte == 47 {
        Some(63)
    } else {
        None
    }
}

/// `s[i]`, or zero where `s` ends before `i`.
pub open spec fn or_zero(s: Seq<u8>, i: int) -> int {
    if i < s.len() {
        s[i] as int
    } else {
        0
    }
}

/// The sextet at `i`, or zero where `s` ends before `i`.
pub open spec fn sextet_or_zero(s: Seq<u8>, i: int) -> int {
    if i < s.len() {
        sextet(s[i]).unwrap()
    } else {
        0
    }
}

/// The 24 bits of up to three bytes, missing ones taken as zero.
pub open spec fn bits_of_bytes(data: Seq<u8>) -> int {
    or_zero(data, 0) * 65536 + or_zero(data, 1) * 256 + or_zero(data, 2)
}

/// The 24 bits of up to four base-64 digits, missing ones taken as zero.
pub open spec fn bits_of_symbols(text: Seq<u8>) -> int {
    sextet_or_zero(text, 0) * 262144 + sextet_or_zero(text, 1) * 4096 + sextet_or_zero(text, 2) * 64
        + sextet_or_zero(text, 3)
}

/// The four characters for the first three bytes of `data`: six bits each, with
/// padding for bytes that are not there.
pub open spec fn encoded_group(data: Seq<u8>) -> Seq<u8> {
    let bits = bits_of_bytes(data);
    seq![
        symbol(bits / 262144),
        symbol(bits / 4096 % 64),
        if data.len() > 1 {
            symbol(bits / 64 % 64)
        } else {
            PADDING
        },
        if data.len() > 2 {
            symbol(bits % 64)
        } else {
            PADDING
        },
    ]
}

/// The base-64 text of `data`, as ASCII bytes.
pub open spec fn encoded(data: Seq<u8>) -> Seq<u8>
    decreases data.len(),
{
    if data.len() == 0 {
        Seq::empty()
    } else if data.len() <= 3 {
        encoded_group(data)
    } else {
        encoded_group(data) + encoded(data.skip(3))
    }
}

/// The characters of an ASCII text.
pub open spec fn as_chars(text: Seq<u8>) -> Seq<char> {
    Seq::new(text.len(), |i: int| text[i] as char)
}

/// `text` without the padding at its end.
pub open spec fn stripped(text: Seq<u8>) -> Seq<u8>
    decreases text.len(),
{
    if text.len() > 0 && text.last() == PADDING {
        stripped(text.drop_last())
    } else {
        text
    }
}

/// The place of the first byte that is no base-64 digit, or the length of `text`
/// where all of them are.
pub open spec fn first_foreign(text: Seq<u8>) -> int
    decreases text.len(),
{
    if text.len() == 0 || sextet(text[0]) is None {
        0
    } else {
        1 + first_foreign(text.skip(1))
    }
}

/// The bytes that the first four base-64 digits of `text` hold.  Two digits hold
/// one byte and three hold two; a digit left alone still gives a byte.
pub open spec fn decoded_group(text: Seq<u8>) -> Seq<u8> {
    let bits = bits_of_symbols(text);
    if text.len() <= 2 {
        seq![(bits / 65536) as u8]
    } else if text.len() == 3 {
        seq![(bits / 65536) as u8, (bits / 256 % 256) as u8]
    } else {
        seq![(bits / 65536) as u8, (bits / 256 % 256) as u8, (bits % 256) as u8]
    }
}

/// The bytes that base-64 digits without padding hold.
pub open spec fn decoded(text: Seq<u8>) -> Seq<u8>
    decreases text.len(),
{
    if text.len() == 0 {
        Seq::empty()
    } else if text.len() <= 4 {
        decoded_group(text)
    } else {
        decoded_group(text) + decoded(text.skip(4))
    }
}

/// What decoding `text` gives: its bytes, or an error that names the first byte
/// that is no base-64 digit.
pub open spec fn base64_decodes(text: Seq<u8>, res: Result<Vec<u8>, PaginationError>) -> bool {
    let body = stripped(text);
    let foreign = first_foreign(body);
    if foreign == body.len() {
        res matches Ok(data) && data@ == decoded(body)
    } else {
        res matches Err(PaginationError::CursorInvalid(msg)) && msg@
            == "invalid base64 character: "@ + crate::decimal::digits(body[foreign] as nat)
    }
}

/// The character for a value below 64.
fn symbol_char(value: u32) -> (c: char)
    requires
        value < 64,
    ensures
        c == symbol(value as int) as char,
{
    let v = value as u8;
    let byte: u8 = if v < 26 {
        65 + v
    } else if v < 52 {
        97 + (v - 26)
    } else if v < 62 {
        48 + (v - 52)
    } else if v == 62 {
        43
    } else {
        47
    };
    byte as char
}

/// Encodes bytes as base-64 text.
pub fn base64_encode(data: &[u8]) -> (text: String)
    ensures
        text@ == as_chars(encoded(data@)),
{
    let mut text = String::new();
    let mut i: usize = 0;
    proof {
        assert(data@.skip(0) == data@);
        assert(text@ + as_chars(encoded(data@)) == as_chars(encoded(data@)));
    }
    while i < data.len()
        invariant
            0 <= i <= data@.len(),
            text@ + as_chars(encoded(data@.skip(i as int))) == as_chars(encoded(data@)),
        decreases data@.len() - i,
    {
        let left: usize = data.len() - i;
        let b0: u32 = data[i] as u32;
        let b1: u32 = if left > 1 {
            data[i + 1] as u32
        } else {
            0
        };
        let b2: u32 = if left > 2 {
            data[i + 2] as u32
        } else {
            0
        };
        let bits: u32 = b0 * 65536 + b1 * 256 + b2;
        let ghost rest = data@.skip(i as int);
        let ghost before = text@;
        assert(bits == bits_of_bytes(rest));
        text.push(symbol_char(bits / 262144));
        text.push(symbol_char(bits / 4096 % 64));
        if left > 1 {
            text.push(symbol_char(bits / 64 % 64));
        } else {
            text.push('=');
        }
        if left > 2 {
            text.push(symbol_char(bits % 64));
        } else {
            text.push('=');
        }
        let step: usize = if left > 3 {
            3
        } else {
            left
        };
        proof {
            assert(text@ == before + as_chars(encoded_group(rest)));
            let next = data@.skip(i + step);
            if left > 3 {
                assert(rest.skip(3) == next);
            } else {
                assert(next == Seq::<u8>::empty());
            }
            assert(as_chars(encoded(rest)) == as_chars(encoded_group(rest)) + as_chars(
                encoded(next),
            ));
            assert(text@ + as_chars(encoded(next)) == before + as_chars(encoded(rest)));
        }
        i = i + step;
    }
    proof {
        assert(data@.skip(i as int) == Seq::<u8>::empty());
        assert(text@ + as_chars(Seq::<u8>::empty()) == text@);
    }
    text
}

/// The number below 64 that a byte stands for, if it stands for one.
fn sextet_value(byte: u8) -> (value: Option<u32>)
    ensures
        value is Some <==> sextet(byte) is Some,
        value matches Some(v) ==> v < 64 && v == sextet(byte).unwrap(),
{
    if 65 <= byte && byte <= 90 {
        Some((byte - 65) as u32)
    } else if 97 <= byte && byte <= 122 {
        Some((byte - 97) as u32 + 26)
    } else if 48 <= byte && byte <= 57 {
        Some((byte - 48) as u32 + 52)
    } else if byte == 43 {
        Some(62)
    } else if byte == 47 {
        Some(63)
    } else {
        None
    }
}

/// Where no byte before `n` is foreign, the search goes on from `n`.
proof fn lemma_first_foreign_from(text: Seq<u8>, n: int)
    requires
        0 <= n <= text.len(),
        forall|i: int| 0 <= i < n ==> sextet(#[trigger] text[i]) is Some,
    ensures
        first_foreign(text) == n + first_foreign(text.skip(n)),
    decreases n,
{
    if n == 0 {
        assert(text.skip(0) == text);
    } else {
        let rest = text.skip(1);
        assert(sextet(text[0]) is Some);
        assert forall|i: int| 0 <= i < n - 1 implies sextet(#[trigger] rest[i]) is Some by {
            assert(rest[i] == text[i + 1]);
        }
        lemma_first_foreign_from(rest, n - 1);
        assert(rest.skip(n - 1) == text.skip(n));
    }
}

/// Decodes base-64 text, with or without padding.
pub fn base64_decode(input: &str) -> (res: Result<Vec<u8>, PaginationError>)
    ensures
        base64_decodes(vstd::utf8::encode_utf8(input@), res),
{
    let bytes = input.as_bytes();
    let mut end: usize = bytes.len();
    proof {
        assert(bytes@.take(end as int) == bytes@);
    }
    while end > 0 && bytes[end - 1] == PADDING
        invariant
            end <= bytes@.len(),
            stripped(bytes@) == stripped(bytes@.take(end as int)),
        decreases end,
    {
        proof {
            assert(bytes@.take(end as int).drop_last() == bytes@.take(end - 1));
        }
        end = end - 1;
    }
    let ghost body = bytes@.take(end as int);
    assert(stripped(bytes@) == body);
    let mut data: Vec<u8> = Vec::new();
    let mut i: usize = 0;
    proof {
        assert(body.skip(0) == body);
    }
    while i < end
        invariant
            0 <= i <= end <= bytes@.len(),
            body == bytes@.take(end as int),
            stripped(bytes@) == body,
            bytes@ == vstd::utf8::encode_utf8(input@),
            forall|k: int| 0 <= k < i ==> sextet(#[trigger] body[k]) is Some,
            data@ + decoded(body.skip(i as int)) == decoded(body),
        decreases end - i,
    {
        let step: usize = if end - i > 4 {
            4
        } else {
            end - i
        };
        let ghost rest = body.skip(i as int);
        let mut bits: u32 = 0;
        let mut k: usize = 0;
        while k < 4
            invariant
                0 <= k <= 4,
                0 < step <= 4,
                i + step <= end <= bytes@.len(),
                step < 4 ==> i + step == end,
                body == bytes@.take(end as int),
                rest == body.skip(i as int),
                stripped(bytes@) == body,
                bytes@ == vstd::utf8::encode_utf8(input@),
                forall|j: int| 0 <= j < i ==> sextet(#[trigger] body[j]) is Some,
                forall|j: int| 0 <= j < k && j < step ==> sextet(#[trigger] rest[j]) is Some,
                k == 0 ==> bits == 0,
                k == 1 ==> bits == sextet_or_zero(rest, 0),
                k == 2 ==> bits == sextet_or_zero(rest, 0) * 64 + sextet_or_zero(rest, 1),
                k == 3 ==> bits == sextet_or_zero(rest, 0) * 4096 + sextet_or_zero(rest, 1) * 64
                    + sextet_or_zero(rest, 2),
                k == 4 ==> bits == bits_of_symbols(rest),
                k == 1 ==> bits < 64,
                k == 2 ==> bits < 4096,
                k == 3 ==> bits < 262144,
                bits < 16777216,
            decreases 4 - k,
        {
            let value: u32 = if k < step {
                let byte = bytes[i + k];
                assert(byte == rest[k as int]);
                assert(byte == body[i + k]);
                match sextet_value(byte) {
                    Some(value) => value,
                    None => {
                        proof {
                            assert forall|j: int| 0 <= j < i + k implies sextet(
                                #[trigger] body[j],
                            ) is Some by {
                                if j >= i {
                                    assert(rest[j - i] == body[j]);
                                }
                            }
                            lemma_first_foreign_from(body, i + k);
                            assert(body.skip(i + k)[0] == byte);
                        }
                        return Err(
                            PaginationError::CursorInvalid(
                                joined(
                                    "invalid base64 character: ",
                                    decimal_string(byte as u64).as_str(),
                                ),
                            ),
                        );
                    },
                }
            } else {
                0
            };
            bits = bits * 64 + value;
            k = k + 1;
        }
        let ghost before = data@;
        data.push((bits / 65536) as u8);
        if step > 2 {
            data.push((bits / 256 % 256) as u8);
        }
        if step > 3 {
            data.push((bits % 256) as u8);
        }
        proof {
            assert(data@ == before + decoded_group(rest));
            let next = body.skip(i + step);
            if rest.len() > 4 {
                assert(rest.skip(4) == next);
            } else {
                assert(next == Seq::<u8>::empty());
            }
            assert(decoded(rest) == decoded_group(rest) + decoded(next));
            assert(data@ + decoded(next) == before + decoded(rest));
            assert forall|j: int| 0 <= j < i + step implies sextet(#[trigger] body[j]) is Some by {
                if j >= i {
                    assert(rest[j - i] == body[j]);
                }
            }
        }
        i = i + step;
    }
    proof {
        lemma_first_foreign_from(body, end as int);
        assert(body.skip(end as int) == Seq::<u8>::empty());
        assert(data@ + Seq::<u8>::empty() == data@);
    }
    Ok(data)
}

/// The base-64 digits of `data`, without padding.
spec fn unpadded(data: Seq<u8>) -> Seq<u8>
    decreases data.len(),
{
    if data.len() == 0 {
        Seq::empty()
    } else if data.len() <= 3 {
        encoded_group(data).take(data.len() as int + 1)
    } else {
        encoded_group(data) + unpadded(data.skip(3))
    }
}

/// A base-64 digit stands for the value that it was written for.
proof fn lemma_sextet_of_symbol(value: int)
    requires
        0 <= value < 64,
    ensures
        sextet(symbol(value)) == Some(value),
        symbol(value) != PADDING,
        symbol(value) < 128,
{
}

/// Dividing by 64 twice and three times.
proof fn lemma_divided_by_64(n: int)
    ensures
        n / 4096 == n / 64 / 64,
        n / 262144 == n / 4096 / 64,
{
}

/// Three bytes, cut into six-bit pieces and put together again.
#[verifier::spinoff_prover]
proof fn lemma_sextets_of_bytes(b0: int, b1: int, b2: int)
    requires
        0 <= b0 < 256,
        0 <= b1 < 256,
        0 <= b2 < 256,
    ensures
        ({
            let bits = b0 * 65536 + b1 * 256 + b2;
            let v0 = bits / 262144;
            let v1 = bits / 4096 % 64;
            let v2 = bits / 64 % 64;
            let v3 = bits % 64;
            &&& 0 <= v0 < 64
            &&& v0 * 262144 + v1 * 4096 + v2 * 64 + v3 == bits
            &&& b2 == 0 ==> v3 == 0
            &&& b1 == 0 && b2 == 0 ==> v2 == 0
            &&& bits / 65536 == b0
            &&& bits / 256 % 256 == b1
            &&& bits % 256 == b2
        }),
{
    let bits = b0 * 65536 + b1 * 256 + b2;
    assert(bits / 256 == b0 * 256 + b1);
    lemma_divided_by_64(bits);
}

/// The base-64 digits of one group hold the bytes of the group.
#[verifier::spinoff_prover]
proof fn lemma_group_roundtrip(data: Seq<u8>, digits: Seq<u8>)
    requires
        data.len() > 0,
        data.len() <= 3 ==> digits.len() == data.len() + 1,
        data.len() > 3 ==> digits.len() > 4,
        forall|i: int|
            0 <= i < 4 && i < digits.len() ==> #[trigger] digits[i] == encoded_group(data)[i],
    ensures
        forall|i: int|
            0 <= i < 4 && i < digits.len() ==> sextet(#[trigger] digits[i]) is Some && digits[i]
                != PADDING,
        decoded_group(digits) == data.take(if data.len() < 3 {
            data.len() as int
        } else {
            3
        }),
{
    let bits = bits_of_bytes(data);
    lemma_sextets_of_bytes(or_zero(data, 0), or_zero(data, 1), or_zero(data, 2));
    lemma_sextet_of_symbol(bits / 262144);
    lemma_sextet_of_symbol(bits / 4096 % 64);
    lemma_sextet_of_symbol(bits / 64 % 64);
    lemma_sextet_of_symbol(bits % 64);
    assert(digits[0] == symbol(bits / 262144));
    assert(digits[1] == symbol(bits / 4096 % 64));
    assert(data.len() >= 2 ==> digits[2] == symbol(bits / 64 % 64));
    assert(data.len() >= 3 ==> digits[3] == symbol(bits % 64));
    assert(bits_of_symbols(digits) == bits);
}

/// Unpadded digits are digits, hold the data, and lack only the padding.
#[verifier::spinoff_prover]
proof fn lemma_unpadded(data: Seq<u8>)
    ensures
        data.len() > 0 ==> unpadded(data).len() >= 2,
        forall|i: int|
            0 <= i < unpadded(data).len() ==> sextet(#[trigger] unpadded(data)[i]) is Some
                && unpadded(data)[i] != PADDING,
        decoded(unpadded(data)) == data,
        encoded(data) == unpadded(data) || encoded(data) == unpadded(data).push(PADDING)
            || encoded(data) == unpadded(data).push(PADDING).push(PADDING),
    decreases data.len(),
{
    let digits = unpadded(data);
    if data.len() == 0 {
    } else if data.len() <= 3 {
        lemma_group_roundtrip(data, digits);
        let group = encoded_group(data);
        assert(encoded(data) == group);
        if data.len() == 3 {
            assert(group == digits);
        } else if data.len() == 2 {
            assert(group == digits.push(PADDING));
        } else {
            assert(group == digits.push(PADDING).push(PADDING));
        }
    } else {
        let rest = data.skip(3);
        let group = encoded_group(data);
        lemma_unpadded(rest);
        lemma_group_roundtrip(data, digits);
        assert(digits.skip(4) == unpadded(rest));
        assert(decoded(digits) == data.take(3) + rest);
        assert(data.take(3) + rest == data);
        assert forall|i: int| 0 <= i < digits.len() implies sextet(#[trigger] digits[i]) is Some
            && digits[i] != PADDING by {
            if i >= 4 {
                assert(digits[i] == unpadded(rest)[i - 4]);
            }
        }
        assert(group + unpadded(rest).push(PADDING) == digits.push(PADDING));
        assert(group + unpadded(rest).push(PADDING).push(PADDING) == digits.push(PADDING).push(
            PADDING,
        ));
    }
}

/// The bytes of ASCII characters are the characters themselves.
proof fn lemma_ascii_bytes(text: Seq<u8>)
    requires
        forall|i: int| 0 <= i < text.len() ==> #[trigger] text[i] < 128,
    ensures
        vstd::utf8::encode_utf8(as_chars(text)) == text,
{
    let chars = as_chars(text);
    assert(vstd::utf8::is_ascii_chars(chars)) by {
        assert forall|i: int| 0 <= i < chars.len() implies (#[trigger] chars[i] as nat) < 128 by {
            assert(chars[i] == text[i] as char);
        }
    }
    vstd::utf8::is_ascii_chars_encode_utf8(chars);
    assert forall|i: int| 0 <= i < text.len() implies vstd::utf8::encode_utf8(chars)[i]
        == text[i] by {
        assert(chars[i] == text[i] as char);
        assert(chars[i] as u8 == vstd::utf8::encode_utf8(chars)[i]);
    }
    assert(vstd::utf8::encode_utf8(chars) == text);
}

/// Base-64 text is made of the 64 digits and of padding, four characters for
/// every three bytes begun.
pub proof fn law_base64_text(data: Seq<u8>)
    ensures
        encoded(data).len() == (data.len() + 2) / 3 * 4,
        forall|i: int|
            0 <= i < encoded(data).len() ==> sextet(#[trigger] encoded(data)[i]) is Some
                || encoded(data)[i] == PADDING,
    decreases data.len(),
{
    lemma_unpadded(data);
    if data.len() > 3 {
        law_base64_text(data.skip(3));
    }
}

/// Base-64 text of `data`, stripped of its padding, is made of digits that hold
/// `data`.
pub(crate) proof fn lemma_encoded_reads_back(data: Seq<u8>)
    ensures
        ({
            let body = stripped(vstd::utf8::encode_utf8(as_chars(encoded(data))));
            &&& first_foreign(body) == body.len()
            &&& decoded(body) == data
        }),
{
    let text = encoded(data);
    let digits = unpadded(data);
    law_base64_text(data);
    lemma_ascii_bytes(text);
    lemma_unpadded(data);
    assert(stripped(digits) == digits) by {
        if digits.len() > 0 {
            assert(sextet(digits[digits.len() - 1]) is Some);
        }
    }
    assert(digits.push(PADDING).drop_last() == digits);
    assert(digits.push(PADDING).push(PADDING).drop_last() == digits.push(PADDING));
    assert(stripped(digits.push(PADDING)) == digits);
    assert(stripped(text) == digits);
    lemma_first_foreign_from(digits, digits.len() as int);
    assert(digits.skip(digits.len() as int) == Seq::<u8>::empty());
}

/// Decoding what encoding wrote gives the bytes back.
pub proof fn law_base64_roundtrip(data: Seq<u8>, res: Result<Vec<u8>, PaginationError>)
    requires
        base64_decodes(vstd::utf8::encode_utf8(as_chars(encoded(data))), res),
    ensures
        res matches Ok(back) && back@ == data,
{
    lemma_encoded_reads_back(data);
}

/// The 64 digits in order.
proof fn lemma_alphabet(value: int)
    requires
        0 <= value < 64,
    ensures
        ({
            let alphabet = "ABCDEFGHIJKLMNOPQRSTUVWXYZabcdefghijklmnopqrstuvwxyz0123456789+/"@;
            &&& alphabet.len() == 64
            &&& symbol(value) == alphabet[value] as u8
            &&& sextet(alphabet[value] as u8) == Some(value)
        }),
{
    reveal_strlit("ABCDEFGHIJKLMNOPQRSTUVWXYZabcdefghijklmnopqrstuvwxyz0123456789+/");
}

/// The digits of base 64 are the capital letters, the small letters, the ten figures,
/// the plus sign and the slash, in that order, and nothing else is a digit.
pub proof fn law_base64_alphabet(value: int, byte: u8)
    requires
        0 <= value < 64,
    ensures
        ({
            let alphabet = "ABCDEFGHIJKLMNOPQRSTUVWXYZabcdefghijklmnopqrstuvwxyz0123456789+/"@;
            &&& symbol(value) == alphabet[value] as u8
            &&& sextet(alphabet[value] as u8) == Some(value)
            &&& sextet(byte) matches Some(v) ==> 0 <= v < 64 && byte == alphabet[v] as u8
        }),
{
    lemma_alphabet(value);
    if let Some(v) = sextet(byte) {
        lemma_alphabet(v);
    }
}

/// Four digits stand for three bytes: six bits each, from the left.  What is left over is
/// one byte in two digits and two signs of padding, or two bytes in three digits and one.
pub proof fn law_base64_encoding(data: Seq<u8>, g: int)
    requires
        0 <= g,
        3 * g < data.len(),
    ensures
        ({
            let text = encoded(data);
            let a = data[3 * g] as int;
            let b = if 3 * g + 1 < data.len() {
                data[3 * g + 1] as int
            } else {
                0
            };
            let c = if 3 * g + 2 < data.len() {
                data[3 * g + 2] as int
            } else {
                0
            };
            &&& 4 * g + 3 < text.len()
            &&& text[4 * g] == symbol(a / 4)
            &&& text[4 * g + 1] == symbol(a % 4 * 16 + b / 16)
            &&& 3 * g + 1 < data.len() ==> text[4 * g + 2] == symbol(b % 16 * 4 + c / 64)
            &&& 3 * g + 1 >= data.len() ==> text[4 * g + 2] == 61
            &&& 3 * g + 2 < data.len() ==> text[4 * g + 3] == symbol(c % 64)
            &&& 3 * g + 2 >= data.len() ==> text[4 * g + 3] == 61
        }),
    decreases data.len(),
{
    law_base64_text(data);
    if g == 0 {
        let a = or_zero(data, 0);
        let b = or_zero(data, 1);
        let c = or_zero(data, 2);
        lemma_pieces(a, b, c);
        assert(encoded(data).take(4) == encoded_group(data));
        assert forall|i: int| 0 <= i < 4 implies encoded(data)[i] == encoded_group(data)[i] by {
            assert(encoded(data).take(4)[i] == encoded(data)[i]);
        }
    } else {
        let rest = data.skip(3);
        law_base64_encoding(rest, g - 1);
        assert(encoded(data) == encoded_group(data) + encoded(rest));
        assert forall|i: int| 0 <= i < encoded(rest).len() implies encoded(rest)[i]
            == #[trigger] encoded(data)[i + 4] by {}
        assert(encoded(rest)[4 * (g - 1)] == encoded(data)[4 * (g - 1) + 4]);
        assert(encoded(rest)[4 * (g - 1) + 1] == encoded(data)[4 * (g - 1) + 1 + 4]);
        assert(encoded(rest)[4 * (g - 1) + 2] == encoded(data)[4 * (g - 1) + 2 + 4]);
        assert(encoded(rest)[4 * (g - 1) + 3] == encoded(data)[4 * (g - 1) + 3 + 4]);
    }
}

/// The six-bit pieces of three bytes.
#[verifier::spinoff_prover]
proof fn lemma_pieces(b0: int, b1: int, b2: int)
    requires
        0 <= b0 < 256,
        0 <= b1 < 256,
        0 <= b2 < 256,
    ensures
        ({
            let bits = b0 * 65536 + b1 * 256 + b2;
            &&& bits / 262144 == b0 / 4
            &&& bits / 4096 % 64 == b0 % 4 * 16 + b1 / 16
            &&& bits / 64 % 64 == b1 % 16 * 4 + b2 / 64
            &&& bits % 64 == b2 % 64
        }),
{
    let bits = b0 * 65536 + b1 * 256 + b2;
    assert(bits / 4096 == b0 * 16 + b1 / 16);
    assert(bits / 64 == b0 * 1024 + b1 * 4 + b2 / 64);
}

/// Three bytes stand in four digits, eight bits each, from the left; two digits at the
/// end hold one byte, and three hold two.  A digit left alone gives its six bits and two
/// zeros.
pub proof fn law_base64_decoding(text: Seq<u8>, g: int)
    requires
        0 <= g,
        4 * g < text.len(),
        forall|i: int| 0 <= i < text.len() ==> sextet(#[trigger] text[i]) is Some,
    ensures
        ({
            let data = decoded(text);
            let v0 = sextet(text[4 * g])->0;
            let v1 = if 4 * g + 1 < text.len() {
                sextet(text[4 * g + 1])->0
            } else {
                0
            };
            let v2 = if 4 * g + 2 < text.len() {
                sextet(text[4 * g + 2])->0
            } else {
                0
            };
            let v3 = if 4 * g + 3 < text.len() {
                sextet(text[4 * g + 3])->0
            } else {
                0
            };
            &&& 3 * g < data.len()
            &&& data[3 * g] == v0 * 4 + v1 / 16
            &&& 4 * g + 2 < text.len() ==> 3 * g + 1 < data.len() && data[3 * g + 1] == v1 % 16 * 16
                + v2 / 4
            &&& 4 * g + 3 < text.len() ==> 3 * g + 2 < data.len() && data[3 * g + 2] == v2 % 4 * 64
                + v3
            &&& text.len() <= 4 * g + 4 ==> data.len() == 3 * g + (if text.len() <= 4 * g + 2 {
                1int
            } else {
                text.len() - (4 * g + 1)
            })
        }),
    decreases text.len(),
{
    if g == 0 {
        lemma_octets(
            sextet_or_zero(text, 0),
            sextet_or_zero(text, 1),
            sextet_or_zero(text, 2),
            sextet_or_zero(text, 3),
        );
        let group = decoded_group(text);
        assert forall|i: int| 0 <= i < group.len() implies #[trigger] decoded(text)[i]
            == group[i] by {}
    } else {
        let rest = text.skip(4);
        assert forall|i: int| 0 <= i < rest.len() implies sextet(#[trigger] rest[i]) is Some by {
            assert(rest[i] == text[i + 4]);
        }
        law_base64_decoding(rest, g - 1);
        assert(decoded(text) == decoded_group(text) + decoded(rest));
        assert(decoded_group(text).len() == 3);
        assert(rest[4 * (g - 1)] == text[4 * g]);
        assert(4 * g + 1 < text.len() ==> rest[4 * (g - 1) + 1] == text[4 * g + 1]);
        assert(4 * g + 2 < text.len() ==> rest[4 * (g - 1) + 2] == text[4 * g + 2]);
        assert(4 * g + 3 < text.len() ==> rest[4 * (g - 1) + 3] == text[4 * g + 3]);
        assert forall|i: int| 0 <= i < decoded(rest).len() implies decoded(rest)[i]
            == #[trigger] decoded(text)[i + 3] by {}
        assert(decoded(rest)[3 * (g - 1)] == decoded(text)[3 * (g - 1) + 3]);
        assert(3 * (g - 1) + 1 < decoded(rest).len() ==> decoded(rest)[3 * (g - 1) + 1]
            == decoded(text)[3 * (g - 1) + 1 + 3]);
        assert(3 * (g - 1) + 2 < decoded(rest).len() ==> decoded(rest)[3 * (g - 1) + 2]
            == decoded(text)[3 * (g - 1) + 2 + 3]);
    }
}

/// The eight-bit pieces of four digits.
#[verifier::spinoff_prover]
proof fn lemma_octets(v0: int, v1: int, v2: int, v3: int)
    requires
        0 <= v0 < 64,
        0 <= v1 < 64,
        0 <= v2 < 64,
        0 <= v3 < 64,
    ensures
        ({
            let bits = v0 * 262144 + v1 * 4096 + v2 * 64 + v3;
            &&& bits / 65536 == v0 * 4 + v1 / 16
            &&& bits / 256 % 256 == v1 % 16 * 16 + v2 / 4
            &&& bits % 256 == v2 % 4 * 64 + v3
            &&& 0 <= v0 * 4 + v1 / 16 < 256
        }),
{
    let bits = v0 * 262144 + v1 * 4096 + v2 * 64 + v3;
    let high = v0 * 1024 + v1 * 16 + v2 / 4;
    let low = v2 % 4 * 64 + v3;
    assert(v2 * 64 == v2 / 4 * 256 + v2 % 4 * 64);
    assert(bits == high * 256 + low);
    assert(bits / 256 == high);
    assert(high / 256 == v0 * 4 + v1 / 16);
}

/// What decoding answers: padding at the end does not count; the rest is decoded where
/// all of it are digits, and else the first byte that is none is reported.
pub proof fn law_base64_answer(
    digits: Seq<u8>,
    padding: nat,
    i: int,
    res: Result<Vec<u8>, PaginationError>,
)
    requires
        digits.len() > 0 ==> digits.last() != 61,
        base64_decodes(digits + Seq::new(padding, |k: int| 61u8), res),
    ensures
        res is Ok <==> forall|k: int|
            0 <= k < digits.len() ==> sextet(#[trigger] digits[k]) is Some,
        res matches Ok(data) ==> data@ == decoded(digits),
        0 <= i < digits.len() && sextet(digits[i]) is None && (forall|k: int|
            0 <= k < i ==> sextet(#[trigger] digits[k]) is Some) ==> (res matches Err(
            PaginationError::CursorInvalid(msg),
        ) && msg@ == "invalid base64 character: "@ + crate::decimal::digits(digits[i] as nat)),
{
    lemma_stripped_padding(digits, padding);
    if forall|k: int| 0 <= k < digits.len() ==> sextet(#[trigger] digits[k]) is Some {
        lemma_first_foreign_from(digits, digits.len() as int);
        assert(digits.skip(digits.len() as int) == Seq::<u8>::empty());
    } else {
        lemma_first_foreign_is_foreign(digits);
    }
    if 0 <= i < digits.len() && sextet(digits[i]) is None && (forall|k: int|
        0 <= k < i ==> sextet(#[trigger] digits[k]) is Some) {
        lemma_first_foreign_from(digits, i);
        assert(digits.skip(i)[0] == digits[i]);
    }
}

/// Padding is stripped.
proof fn lemma_stripped_padding(digits: Seq<u8>, padding: nat)
    requires
        digits.len() > 0 ==> digits.last() != 61,
    ensures
        stripped(digits + Seq::new(padding, |k: int| 61u8)) == digits,
    decreases padding,
{
    let text = digits + Seq::new(padding, |k: int| 61u8);
    if padding == 0 {
        assert(text == digits);
    } else {
        assert(text.drop_last() == digits + Seq::new((padding - 1) as nat, |k: int| 61u8));
        lemma_stripped_padding(digits, (padding - 1) as nat);
    }
}

/// Where some byte is foreign, the search finds one.
proof fn lemma_first_foreign_is_foreign(text: Seq<u8>)
    ensures
        0 <= first_foreign(text) <= text.len(),
        first_foreign(text) < text.len() ==> sextet(text[first_foreign(text)]) is None,
        first_foreign(text) == text.len() ==> forall|k: int|
            0 <= k < text.len() ==> sextet(#[trigger] text[k]) is Some,
    decreases text.len(),
{
    if text.len() > 0 && sextet(text[0]) is Some {
        let rest = text.skip(1);
        lemma_first_foreign_is_foreign(rest);
        assert forall|k: int|
            first_foreign(text) == text.len() && 0 <= k < text.len() implies sextet(
            #[trigger] text[k],
        ) is Some by {
            if k > 0 {
                assert(rest[k - 1] == text[k]);
            }
        }
    }
}

/// The characters of base-64 text are its bytes.
pub proof fn law_base64_characters(text: Seq<u8>, i: int)
    requires
        0 <= i < text.len(),
    ensures
        as_chars(text).len() == text.len(),
        as_chars(text)[i] == text[i] as char,
{
}

} // verus!
