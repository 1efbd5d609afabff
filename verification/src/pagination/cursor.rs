//! Opaque cursors: a position in an ordered collection, bound to one subject.

use vstd::prelude::*;

use crate::pagination::base64::{base64_decode, base64_encode};
use crate::pagination::errors::PaginationError;
use crate::text::joined;

verus! {

/// An opaque pagination cursor: the position it stands for and the subject whose
/// items it walks.
#[derive(Debug, PartialEq, Eq)]
pub struct Cursor {
    /// The subject (user id) this cursor is bound to.
    pub subject: String,
    /// The timestamp of the position, in seconds since the epoch.
    pub timestamp: u64,
    /// The id of the position, which breaks ties.
    pub id: u64,
}

/// What a cursor says.
pub struct CursorView {
    pub subject: Seq<char>,
    pub timestamp: u64,
    pub id: u64,
}

impl View for Cursor {
    type V = CursorView;

    open spec fn view(&self) -> CursorView {
        CursorView { subject: self.subject@, timestamp: self.timestamp, id: self.id }
    }
}

impl CursorView {
    /// The position: timestamp first, then id.
    pub open spec fn position(self) -> (u64, u64) {
        (self.timestamp, self.id)
    }
}

/// What a cursor says, if there is a cursor.
pub open spec fn cursor_view(cursor: Option<&Cursor>) -> Option<CursorView> {
    match cursor {
        Some(c) => Some(c@),
        None => None,
    }
}

impl Clone for Cursor {
    fn clone(&self) -> (copy: Self)
        ensures
            copy == *self,
    {
        Cursor { subject: self.subject.clone(), timestamp: self.timestamp, id: self.id }
    }
}

/// The last `width` bytes of `n`, most significant first.
pub open spec fn be_bytes(n: nat, width: nat) -> Seq<u8>
    decreases width,
{
    if width == 0 {
        Seq::empty()
    } else {
        be_bytes(n / 256, (width - 1) as nat).push((n % 256) as u8)
    }
}

/// The number that `bytes` stand for, most significant first.
pub open spec fn be_value(bytes: Seq<u8>) -> nat
    decreases bytes.len(),
{
    if bytes.len() == 0 {
        0
    } else {
        be_value(bytes.drop_last()) * 256 + bytes.last() as nat
    }
}

/// The sum of `bytes`.
pub open spec fn byte_sum(bytes: Seq<u8>) -> nat
    decreases bytes.len(),
{
    if bytes.len() == 0 {
        0
    } else {
        byte_sum(bytes.drop_last()) + bytes.last() as nat
    }
}

/// The sum of the sums of all prefixes of `bytes`.
pub open spec fn running_sum(bytes: Seq<u8>) -> nat
    decreases bytes.len(),
{
    if bytes.len() == 0 {
        0
    } else {
        running_sum(bytes.drop_last()) + byte_sum(bytes)
    }
}

/// The Fletcher-16 checksum of `bytes`: both sums modulo 255, the running sum in the
/// high byte and the byte sum in the low byte.
pub open spec fn checksum(bytes: Seq<u8>) -> u16 {
    (running_sum(bytes) % 255 * 256 + byte_sum(bytes) % 255) as u16
}

/// The bytes of a cursor that the checksum covers: the length of the subject in
/// two bytes, the subject, the timestamp and the id.
pub open spec fn cursor_body(cursor: CursorView) -> Seq<u8> {
    let subject = vstd::utf8::encode_utf8(cursor.subject);
    be_bytes(subject.len() % 65536, 2) + subject + be_bytes(cursor.timestamp as nat, 8) + be_bytes(
        cursor.id as nat,
        8,
    )
}

/// The bytes of a cursor.
pub open spec fn cursor_bytes(cursor: CursorView) -> Seq<u8> {
    let body = cursor_body(cursor);
    body + be_bytes(checksum(body) as nat, 2)
}

/// Whether `res` rejects a cursor in the words of `msg`.
pub open spec fn rejected<T>(res: Result<T, PaginationError>, msg: Seq<char>) -> bool {
    res matches Err(PaginationError::CursorInvalid(text)) && text@ == msg
}

/// What the standard library says of `bytes` that are no UTF-8 text.
pub uninterp spec fn utf8_error_text(bytes: Seq<u8>) -> Seq<char>;

/// What reading a cursor from bytes gives.  The bytes have to be those of the layout,
/// neither fewer nor more.
pub open spec fn cursor_decodes(data: Seq<u8>, res: Result<Cursor, PaginationError>) -> bool {
    let body = data.take(data.len() - 2);
    let len = be_value(body.take(2)) as int;
    let subject = body.subrange(2, 2 + len);
    if data.len() < 20 {
        rejected(res, "cursor too short"@)
    } else if checksum(body) != be_value(data.skip(data.len() - 2)) {
        rejected(res, "cursor checksum mismatch"@)
    } else if body.len() < 2 + len + 16 {
        rejected(res, "cursor data truncated"@)
    } else if body.len() > 2 + len + 16 {
        rejected(res, "cursor has surplus data"@)
    } else if !vstd::utf8::valid_utf8(subject) {
        rejected(res, "invalid utf8: "@ + utf8_error_text(subject))
    } else {
        res matches Ok(cursor) && cursor@ == (CursorView {
            subject: vstd::utf8::decode_utf8(subject),
            timestamp: be_value(body.subrange(2 + len, 2 + len + 8)) as u64,
            id: be_value(body.subrange(2 + len + 8, 2 + len + 16)) as u64,
        })
    }
}

/// What validating the scope of a cursor gives: an error that names both subjects
/// where the cursor is bound to another one.
pub open spec fn scope_validated(
    cursor: CursorView,
    expected: Seq<char>,
    res: Result<(), PaginationError>,
) -> bool {
    if cursor.subject == expected {
        res == Ok::<(), PaginationError>(())
    } else {
        scope_mismatch(cursor, expected, res)
    }
}

/// Whether `res` reports that `cursor` is not bound to `expected`.
pub open spec fn scope_mismatch<T>(
    cursor: CursorView,
    expected: Seq<char>,
    res: Result<T, PaginationError>,
) -> bool {
    res matches Err(PaginationError::CursorScopeMismatch { expected: wanted, actual }) && wanted@
        == expected && actual@ == cursor.subject
}

/// `std::string::String::from_utf8` makes a string of bytes that are UTF-8 text
/// and fails on all others.  On failure this hands out the text of the error,
/// which depends on the bytes alone; what it says is left unstated.
#[verifier::external_body]
fn string_from_utf8(bytes: Vec<u8>) -> (res: Result<String, String>)
    ensures
        res is Ok <==> vstd::utf8::valid_utf8(bytes@),
        res matches Ok(text) ==> text@ == vstd::utf8::decode_utf8(bytes@),
        res matches Err(msg) ==> msg@ == utf8_error_text(bytes@),
{
    match String::from_utf8(bytes) {
        Ok(text) => Ok(text),
        Err(e) => Err(format!("{e}")),
    }
}

/// The error for a cursor whose subject is no text, for the reason `detail`.
pub fn subject_not_text(detail: &str) -> (e: PaginationError)
    ensures
        e matches PaginationError::CursorInvalid(msg) && msg@ == "invalid utf8: "@ + detail@,
{
    PaginationError::CursorInvalid(joined("invalid utf8: ", detail))
}

/// Appends the last `width` bytes of `n`, most significant first.
fn push_be_bytes(buf: &mut Vec<u8>, n: u64, width: usize)
    ensures
        final(buf)@ == old(buf)@ + be_bytes(n as nat, width as nat),
    decreases width,
{
    if width > 0 {
        push_be_bytes(buf, n / 256, width - 1);
        buf.push((n % 256) as u8);
    }
    assert(buf@ == old(buf)@ + be_bytes(n as nat, width as nat));
}

/// 256 to the power `n`.
pub open spec fn pow256(n: nat) -> nat
    decreases n,
{
    if n == 0 {
        1
    } else {
        256 * pow256((n - 1) as nat)
    }
}

/// Reads `width` bytes from `start` on as a number, most significant first.
fn read_be(data: &[u8], start: usize, width: usize) -> (n: u64)
    requires
        start + width <= data@.len(),
        width <= 8,
    ensures
        n == be_value(data@.subrange(start as int, start + width)),
        n < pow256(width as nat),
{
    let end: usize = data.len();
    let mut n: u64 = 0;
    let mut k: usize = 0;
    while k < width
        invariant
            k <= width <= 8,
            start + width <= end,
            end == data@.len(),
            n == be_value(data@.subrange(start as int, start + k)),
            n < pow256(k as nat),
        decreases width - k,
    {
        proof {
            let grown = data@.subrange(start as int, start + k + 1);
            assert(grown.drop_last() == data@.subrange(start as int, start + k));
            assert(grown.last() == data@[start + k]);
            reveal_with_fuel(pow256, 9);
            assert(pow256(k as nat) <= 72057594037927936);
        }
        n = n * 256 + data[start + k] as u64;
        k = k + 1;
    }
    n
}

/// A sum may be reduced modulo 255 before something is added to it.
proof fn lemma_reduced_sum(sum: nat, term: nat)
    ensures
        (sum % 255 + term) % 255 == (sum + term) % 255,
        (sum % 255 + term % 255) % 255 == (sum + term) % 255,
{
    vstd::arithmetic::div_mod::lemma_add_mod_noop(sum as int, term as int, 255);
    vstd::arithmetic::div_mod::lemma_add_mod_noop_right(term as int, sum as int, 255);
}

/// The Fletcher-16 checksum of a byte string, which gives away accidental corruption.
pub fn fletcher16(data: &[u8]) -> (sum: u16)
    ensures
        sum == checksum(data@),
{
    let mut sum1: u16 = 0;
    let mut sum2: u16 = 0;
    let mut i: usize = 0;
    while i < data.len()
        invariant
            0 <= i <= data@.len(),
            sum1 == byte_sum(data@.take(i as int)) % 255,
            sum2 == running_sum(data@.take(i as int)) % 255,
            sum1 < 255,
            sum2 < 255,
        decreases data@.len() - i,
    {
        proof {
            assert(data@.take(i + 1).drop_last() == data@.take(i as int));
            assert(data@.take(i + 1).last() == data@[i as int]);
            lemma_reduced_sum(byte_sum(data@.take(i as int)), data@[i as int] as nat);
            lemma_reduced_sum(running_sum(data@.take(i as int)), byte_sum(data@.take(i + 1)));
        }
        sum1 = (sum1 + data[i] as u16) % 255;
        sum2 = (sum2 + sum1) % 255;
        i = i + 1;
    }
    assert(data@.take(i as int) == data@);
    sum2 * 256 + sum1
}

impl Cursor {
    /// Makes a cursor.
    pub fn new(subject: String, timestamp: u64, id: u64) -> (cursor: Self)
        ensures
            cursor == (Cursor { subject, timestamp, id }),
    {
        Cursor { subject, timestamp, id }
    }

    /// Encodes the cursor as bytes, a checksum included.
    pub fn encode(&self) -> (data: Vec<u8>)
        ensures
            data@ == cursor_bytes(self@),
    {
        let subject = self.subject.as_str().as_bytes();
        let mut data: Vec<u8> = Vec::new();
        push_be_bytes(&mut data, (subject.len() % 65536) as u64, 2);
        let ghost prefix = data@;
        data.extend_from_slice(subject);
        assert(data@ == prefix + subject@);
        push_be_bytes(&mut data, self.timestamp, 8);
        push_be_bytes(&mut data, self.id, 8);
        let sum = fletcher16(data.as_slice());
        push_be_bytes(&mut data, sum as u64, 2);
        data
    }

    /// Reads a cursor back from its bytes.
    pub fn decode(data: &[u8]) -> (res: Result<Self, PaginationError>)
        ensures
            cursor_decodes(data@, res),
    {
        if data.len() < 20 {
            return Err(PaginationError::CursorInvalid("cursor too short".to_owned()));
        }
        let (body, sum) = data.split_at(data.len() - 2);
        proof {
            assert(sum@.subrange(0, 2) == data@.skip(data@.len() - 2));
            assert(body@ == data@.take(data@.len() - 2));
        }
        if fletcher16(body) as u64 != read_be(sum, 0, 2) {
            return Err(PaginationError::CursorInvalid("cursor checksum mismatch".to_owned()));
        }
        let len: usize = read_be(body, 0, 2) as usize;
        proof {
            assert(body@.subrange(0, 2) == body@.take(2));
            reveal_with_fuel(pow256, 9);
        }
        if body.len() - 18 < len {
            return Err(PaginationError::CursorInvalid("cursor data truncated".to_owned()));
        }
        if body.len() - 18 > len {
            return Err(PaginationError::CursorInvalid("cursor has surplus data".to_owned()));
        }
        let mut subject_bytes: Vec<u8> = Vec::new();
        subject_bytes.extend_from_slice(vstd::slice::slice_subrange(body, 2, 2 + len));
        proof {
            assert(subject_bytes@ == body@.subrange(2, 2 + len as int));
        }
        let subject = match string_from_utf8(subject_bytes) {
            Ok(subject) => subject,
            Err(msg) => return Err(subject_not_text(msg.as_str())),
        };
        let timestamp: u64 = read_be(body, 2 + len, 8);
        let id: u64 = read_be(body, 2 + len + 8, 8);
        Ok(Cursor { subject, timestamp, id })
    }

    /// Validates that this cursor is bound to the expected subject.
    pub fn validate_scope(&self, expected_subject: &str) -> (res: Result<(), PaginationError>)
        ensures
            scope_validated(self@, expected_subject@, res),
    {
        let expected = expected_subject.to_owned();
        if self.subject == expected {
            Ok(())
        } else {
            Err(PaginationError::CursorScopeMismatch { expected, actual: self.subject.clone() })
        }
    }
}

/// Encodes a cursor as base-64 text, for headers and query parameters.
pub fn encode_cursor_string(cursor: &Cursor) -> (text: String)
    ensures
        text@ == cursor_text(cursor@),
{
    base64_encode(cursor.encode().as_slice())
}

/// The base-64 text of a cursor.
pub open spec fn cursor_text(cursor: CursorView) -> Seq<char> {
    crate::pagination::base64::as_chars(crate::pagination::base64::encoded(cursor_bytes(cursor)))
}

/// What reading a cursor from base-64 text gives: the first failure, or the cursor.
pub open spec fn cursor_text_decodes(text: Seq<u8>, res: Result<Cursor, PaginationError>) -> bool {
    let body = crate::pagination::base64::stripped(text);
    let foreign = crate::pagination::base64::first_foreign(body);
    if foreign == body.len() {
        cursor_decodes(crate::pagination::base64::decoded(body), res)
    } else {
        rejected(
            res,
            "invalid base64 character: "@ + crate::decimal::digits(body[foreign] as nat),
        )
    }
}

/// Reads a cursor back from its base-64 text.
pub fn decode_cursor_string(encoded: &str) -> (res: Result<Cursor, PaginationError>)
    ensures
        cursor_text_decodes(vstd::utf8::encode_utf8(encoded@), res),
{
    match base64_decode(encoded) {
        Ok(data) => Cursor::decode(data.as_slice()),
        Err(e) => Err(e),
    }
}

/// Writing a number in enough bytes and reading it back gives the number.
pub proof fn law_be_bytes_roundtrip(n: nat, width: nat)
    requires
        n < pow256(width),
    ensures
        be_bytes(n, width).len() == width,
        be_value(be_bytes(n, width)) == n,
    decreases width,
{
    if width > 0 {
        law_be_bytes_roundtrip(n / 256, (width - 1) as nat);
        let bytes = be_bytes(n, width);
        assert(bytes.drop_last() == be_bytes(n / 256, (width - 1) as nat));
    }
}

/// What stands where in the bytes of a cursor.
#[verifier::spinoff_prover]
proof fn lemma_cursor_layout(cursor: CursorView)
    ensures
        ({
            let data = cursor_bytes(cursor);
            let body = data.take(data.len() - 2);
            let subject = vstd::utf8::encode_utf8(cursor.subject);
            let len = subject.len() as int;
            &&& data.len() == len + 20
            &&& body == cursor_body(cursor)
            &&& be_value(data.skip(data.len() - 2)) == checksum(body)
            &&& be_value(body.take(2)) == len % 65536
            &&& body.subrange(2, 2 + len) == subject
            &&& be_value(body.subrange(2 + len, 2 + len + 8)) == cursor.timestamp
            &&& be_value(body.subrange(2 + len + 8, 2 + len + 16)) == cursor.id
        }),
{
    let data = cursor_bytes(cursor);
    let body = cursor_body(cursor);
    let subject = vstd::utf8::encode_utf8(cursor.subject);
    let len = subject.len();
    reveal_with_fuel(pow256, 9);
    law_be_bytes_roundtrip(len % 65536, 2);
    law_be_bytes_roundtrip(cursor.timestamp as nat, 8);
    law_be_bytes_roundtrip(cursor.id as nat, 8);
    law_be_bytes_roundtrip(checksum(body) as nat, 2);
    assert(data.take(data.len() - 2) == body);
    assert(data.skip(data.len() - 2) == be_bytes(checksum(body) as nat, 2));
    assert(body.take(2) == be_bytes(len % 65536, 2));
    assert(body.subrange(2, 2 + len as int) == subject);
    assert(body.subrange(2 + len as int, 2 + len as int + 8) == be_bytes(
        cursor.timestamp as nat,
        8,
    ));
    assert(body.subrange(2 + len as int + 8, 2 + len as int + 16) == be_bytes(cursor.id as nat, 8));
}

/// Bytes that are laid out as those of `cursor` decode to it.
proof fn lemma_layout_decodes(
    data: Seq<u8>,
    subject: Seq<u8>,
    cursor: CursorView,
    res: Result<Cursor, PaginationError>,
)
    requires
        ({
            let body = data.take(data.len() - 2);
            let len = subject.len() as int;
            &&& data.len() == len + 20
            &&& be_value(data.skip(data.len() - 2)) == checksum(body)
            &&& be_value(body.take(2)) == len
            &&& body.subrange(2, 2 + len) == subject
            &&& be_value(body.subrange(2 + len, 2 + len + 8)) == cursor.timestamp
            &&& be_value(body.subrange(2 + len + 8, 2 + len + 16)) == cursor.id
        }),
        vstd::utf8::valid_utf8(subject),
        vstd::utf8::decode_utf8(subject) == cursor.subject,
        cursor_decodes(data, res),
    ensures
        res matches Ok(back) && back@ == cursor,
{
}

/// Decoding the bytes of a cursor gives the cursor back, as long as the length of
/// its subject fits the two bytes that hold it.
pub proof fn law_cursor_roundtrip(cursor: CursorView, res: Result<Cursor, PaginationError>)
    requires
        vstd::utf8::encode_utf8(cursor.subject).len() < 65536,
        cursor_decodes(cursor_bytes(cursor), res),
    ensures
        res matches Ok(back) && back@ == cursor,
{
    let subject = vstd::utf8::encode_utf8(cursor.subject);
    lemma_cursor_layout(cursor);
    vstd::utf8::encode_utf8_valid_utf8(cursor.subject);
    vstd::utf8::encode_utf8_decode_utf8(cursor.subject);
    lemma_layout_decodes(cursor_bytes(cursor), subject, cursor, res);
}

/// A subject whose length does not fit the two bytes that hold it gives bytes that no
/// cursor is read from.
pub proof fn law_overlong_cursor_is_rejected(
    cursor: CursorView,
    res: Result<Cursor, PaginationError>,
)
    requires
        vstd::utf8::encode_utf8(cursor.subject).len() >= 65536,
        cursor_decodes(cursor_bytes(cursor), res),
    ensures
        rejected(res, "cursor has surplus data"@),
{
    lemma_cursor_layout(cursor);
}

/// Decoding the base-64 text of a cursor gives the cursor back.
pub proof fn law_cursor_text_roundtrip(cursor: CursorView, res: Result<Cursor, PaginationError>)
    requires
        vstd::utf8::encode_utf8(cursor.subject).len() < 65536,
        cursor_text_decodes(vstd::utf8::encode_utf8(cursor_text(cursor)), res),
    ensures
        res matches Ok(back) && back@ == cursor,
{
    crate::pagination::base64::lemma_encoded_reads_back(cursor_bytes(cursor));
    law_cursor_roundtrip(cursor, res);
}

/// Different cursors have different bytes.
pub proof fn law_cursor_bytes_tell_cursors_apart(first: CursorView, second: CursorView)
    requires
        vstd::utf8::encode_utf8(first.subject).len() < 65536,
        vstd::utf8::encode_utf8(second.subject).len() < 65536,
        first != second,
    ensures
        cursor_bytes(first) != cursor_bytes(second),
{
    lemma_cursor_layout(first);
    lemma_cursor_layout(second);
    vstd::utf8::encode_utf8_decode_utf8(first.subject);
    vstd::utf8::encode_utf8_decode_utf8(second.subject);
}

/// Changing one byte changes the sum by the difference.
proof fn lemma_byte_sum_update(bytes: Seq<u8>, i: int, b: u8)
    requires
        0 <= i < bytes.len(),
    ensures
        byte_sum(bytes.update(i, b)) == byte_sum(bytes) - bytes[i] + b,
    decreases bytes.len(),
{
    let changed = bytes.update(i, b);
    if i == bytes.len() - 1 {
        assert(changed.drop_last() == bytes.drop_last());
    } else {
        assert(changed.drop_last() == bytes.drop_last().update(i, b));
        lemma_byte_sum_update(bytes.drop_last(), i, b);
    }
}

/// The number that two bytes stand for.
proof fn lemma_be_value_two(bytes: Seq<u8>)
    requires
        bytes.len() == 2,
    ensures
        be_value(bytes) == bytes[0] * 256 + bytes[1],
{
    reveal_with_fuel(be_value, 3);
    assert(bytes.drop_last().drop_last() == Seq::<u8>::empty());
}

/// Numbers that differ by less than 255 differ modulo 255.
proof fn lemma_residues_differ(a: int, b: int)
    requires
        a != b,
        -255 < a - b < 255,
    ensures
        a % 255 != b % 255,
{
}

/// Changing a byte of the body changes the checksum, unless 0 and 255 change places.
proof fn lemma_checksum_update(body: Seq<u8>, i: int, b: u8)
    requires
        0 <= i < body.len(),
        b != body[i],
        !interchangeable(b, body[i]),
    ensures
        checksum(body.update(i, b)) != checksum(body),
{
    let changed = body.update(i, b);
    lemma_byte_sum_update(body, i, b);
    lemma_residues_differ(byte_sum(changed) as int, byte_sum(body) as int);
    let high = running_sum(body) % 255;
    let changed_high = running_sum(changed) % 255;
    assert(checksum(body) == high * 256 + byte_sum(body) % 255);
    assert(checksum(changed) == changed_high * 256 + byte_sum(changed) % 255);
}

/// Whether a checksum modulo 255 cannot tell two bytes apart: they are 0 and 255.
pub open spec fn interchangeable(a: u8, b: u8) -> bool {
    (a == 0 && b == 255) || (a == 255 && b == 0)
}

/// No byte of a cursor can be changed alone without the checksum giving it away,
/// except that 0 and 255 stand for the same before the checksum.
pub proof fn law_altered_cursor_is_rejected(
    cursor: CursorView,
    i: int,
    b: u8,
    res: Result<Cursor, PaginationError>,
)
    requires
        0 <= i < cursor_bytes(cursor).len(),
        b != cursor_bytes(cursor)[i],
        i < cursor_body(cursor).len() ==> !interchangeable(b, cursor_bytes(cursor)[i]),
        cursor_decodes(cursor_bytes(cursor).update(i, b), res),
    ensures
        rejected(res, "cursor checksum mismatch"@),
{
    let data = cursor_bytes(cursor);
    let body = data.take(data.len() - 2);
    let sum = data.skip(data.len() - 2);
    let changed = data.update(i, b);
    let changed_body = changed.take(changed.len() - 2);
    let changed_sum = changed.skip(changed.len() - 2);
    lemma_cursor_layout(cursor);
    if i < body.len() {
        assert(changed_body == body.update(i, b));
        assert(changed_sum == sum);
        lemma_checksum_update(body, i, b);
    } else {
        assert(changed_body == body);
        assert(changed_sum == sum.update(i - body.len(), b));
        lemma_be_value_two(sum);
        lemma_be_value_two(changed_sum);
    }
}

/// Numbers are written most significant byte first.
pub proof fn law_be_bytes_are_most_significant_first(n: nat)
    ensures
        be_bytes(n, 2) == seq![(n / 256 % 256) as u8, (n % 256) as u8],
        be_bytes(n, 8) == seq![
            (n / 0x100_0000_0000_0000 % 256) as u8,
            (n / 0x1_0000_0000_0000 % 256) as u8,
            (n / 0x100_0000_0000 % 256) as u8,
            (n / 0x1_0000_0000 % 256) as u8,
            (n / 0x100_0000 % 256) as u8,
            (n / 0x1_0000 % 256) as u8,
            (n / 0x100 % 256) as u8,
            (n % 256) as u8,
        ],
{
    reveal_with_fuel(be_bytes, 9);
    assert(n / 256 / 256 == n / 0x1_0000);
    assert(n / 0x1_0000 / 256 == n / 0x100_0000);
    assert(n / 0x100_0000 / 256 == n / 0x1_0000_0000);
    assert(n / 0x1_0000_0000 / 256 == n / 0x100_0000_0000);
    assert(n / 0x100_0000_0000 / 256 == n / 0x1_0000_0000_0000);
    assert(n / 0x1_0000_0000_0000 / 256 == n / 0x100_0000_0000_0000);
}

/// The checksum grows byte by byte: its low byte is the sum of the bytes modulo 255, and
/// its high byte the sum of the values that the low byte went through.
pub proof fn law_checksum_step(bytes: Seq<u8>, b: u8)
    ensures
        checksum(Seq::empty()) == 0,
        checksum(bytes) / 256 < 255,
        checksum(bytes) % 256 < 255,
        checksum(bytes.push(b)) % 256 == (checksum(bytes) % 256 + b) % 255,
        checksum(bytes.push(b)) / 256 == (checksum(bytes) / 256 + checksum(bytes.push(b)) % 256)
            % 255,
{
    let grown = bytes.push(b);
    assert(grown.drop_last() == bytes);
    let low = byte_sum(bytes) % 255;
    let high = running_sum(bytes) % 255;
    let grown_low = byte_sum(grown) % 255;
    let grown_high = running_sum(grown) % 255;
    assert(checksum(bytes) == high * 256 + low);
    assert(checksum(grown) == grown_high * 256 + grown_low);
    lemma_reduced_sum(byte_sum(bytes), b as nat);
    lemma_reduced_sum(running_sum(bytes), byte_sum(grown));
}

/// The bytes of a cursor: two for the length of the subject, the subject, eight each for
/// the timestamp and the id, and the checksum of all these in two.
pub proof fn law_cursor_layout(cursor: CursorView)
    ensures
        ({
            let data = cursor_bytes(cursor);
            let subject = vstd::utf8::encode_utf8(cursor.subject);
            let len = subject.len() as int;
            let sum = checksum(data.take(len + 18));
            &&& data.len() == len + 20
            &&& data.take(2) == be_bytes((len % 65536) as nat, 2)
            &&& data.subrange(2, 2 + len) == subject
            &&& data.subrange(2 + len, 10 + len) == be_bytes(cursor.timestamp as nat, 8)
            &&& data.subrange(10 + len, 18 + len) == be_bytes(cursor.id as nat, 8)
            &&& data[len + 18] == sum / 256
            &&& data[len + 19] == sum % 256
        }),
{
    let data = cursor_bytes(cursor);
    let body = cursor_body(cursor);
    let subject = vstd::utf8::encode_utf8(cursor.subject);
    let len = subject.len() as int;
    let sum = checksum(body);
    reveal_with_fuel(pow256, 9);
    law_be_bytes_roundtrip(subject.len() % 65536, 2);
    law_be_bytes_roundtrip(cursor.timestamp as nat, 8);
    law_be_bytes_roundtrip(cursor.id as nat, 8);
    law_be_bytes_roundtrip(sum as nat, 2);
    law_be_bytes_are_most_significant_first(sum as nat);
    assert(data.take(len + 18) == body);
    assert(data.take(2) == be_bytes(subject.len() % 65536, 2));
    assert(data.subrange(2, 2 + len) == subject);
    assert(data.subrange(2 + len, 10 + len) == be_bytes(cursor.timestamp as nat, 8));
    assert(data.subrange(10 + len, 18 + len) == be_bytes(cursor.id as nat, 8));
    assert(data[len + 18] == be_bytes(sum as nat, 2)[0]);
    assert(data[len + 19] == be_bytes(sum as nat, 2)[1]);
}

/// Reading bytes as a number and writing the number gives the bytes.
proof fn lemma_be_value_written(bytes: Seq<u8>)
    ensures
        be_bytes(be_value(bytes), bytes.len()) == bytes,
        be_value(bytes) < pow256(bytes.len()),
    decreases bytes.len(),
{
    if bytes.len() > 0 {
        let rest = bytes.drop_last();
        lemma_be_value_written(rest);
        let n = be_value(bytes);
        assert(n / 256 == be_value(rest));
        assert(n % 256 == bytes.last());
        assert(bytes == rest.push(bytes.last()));
    } else {
        assert(be_bytes(0, 0) == bytes);
    }
}

/// Bytes that a cursor is read from are the bytes that the cursor is written as: nothing
/// else is accepted.
pub proof fn law_decoded_cursor_writes_its_bytes(data: Seq<u8>, cursor: Cursor)
    requires
        cursor_decodes(data, Ok(cursor)),
    ensures
        cursor_bytes(cursor@) == data,
{
    let body = data.take(data.len() - 2);
    let sum = data.skip(data.len() - 2);
    let len = be_value(body.take(2)) as int;
    let subject = body.subrange(2, 2 + len);
    let timestamp = body.subrange(2 + len, 2 + len + 8);
    let id = body.subrange(2 + len + 8, 2 + len + 16);
    reveal_with_fuel(pow256, 9);
    lemma_be_value_written(body.take(2));
    lemma_be_value_written(timestamp);
    lemma_be_value_written(id);
    lemma_be_value_written(sum);
    vstd::utf8::decode_utf8_encode_utf8(subject);
    assert(body == body.take(2) + subject + timestamp + id);
    assert(cursor_body(cursor@) == body);
    assert(data == body + sum);
}

/// A cursor is good for its own subject and for no other.
pub proof fn law_scope(cursor: CursorView, expected: Seq<char>, res: Result<(), PaginationError>)
    requires
        scope_validated(cursor, expected, res),
    ensures
        res is Ok <==> cursor.subject == expected,
        res is Err ==> (res matches Err(
            PaginationError::CursorScopeMismatch { expected: wanted, actual },
        ) && wanted@ == expected && actual@ == cursor.subject),
{
}

/// The text of a cursor is the base-64 text of its bytes, and reading it gives what
/// reading the decoded bytes gives, or the error of decoding them.
pub proof fn law_cursor_text_is_its_bytes(
    cursor: CursorView,
    i: int,
    text: Seq<u8>,
    data: Result<Vec<u8>, PaginationError>,
    res: Result<Cursor, PaginationError>,
)
    requires
        crate::pagination::base64::base64_decodes(text, data),
        cursor_text_decodes(text, res),
    ensures
        cursor_text(cursor).len() == crate::pagination::base64::encoded(cursor_bytes(cursor)).len(),
        0 <= i < cursor_text(cursor).len() ==> cursor_text(cursor)[i]
            == crate::pagination::base64::encoded(cursor_bytes(cursor))[i] as char,
        data matches Ok(bytes) ==> cursor_decodes(bytes@, res),
        data matches Err(PaginationError::CursorInvalid(msg)) ==> rejected(res, msg@),
{
}

} // verus!
