use crate::error::PacketError;
use crate::reader::ByteReader;
use crate::text::text_of_bytes;
use vstd::prelude::*;
use vstd::utf8::decode_utf8;
use vstd::utf8::encode_utf8;
use vstd::utf8::valid_utf8;

verus! {

/// The longest string field, in bytes, that a packet can hold.
pub const MAX_STRING_LENGTH: usize = 65535;

/// The number that two bytes spell, the high byte first.
pub open spec fn spec_u16_of(high: u8, low: u8) -> u16 {
    (high as int * 256 + low as int) as u16
}

/// The two bytes that spell a number, the high byte first.
pub open spec fn spec_u16_bytes(value: u16) -> Seq<u8> {
    seq![(value / 256) as u8, (value % 256) as u8]
}

/// What reading a 16-bit number makes of `input`: the number and the count
/// of bytes that it takes.
pub open spec fn spec_read_u16(input: Seq<u8>) -> Result<(u16, nat), PacketError> {
    if input.len() < 2 {
        Err(PacketError::UnexpectedEof)
    } else {
        Ok((spec_u16_of(input[0], input[1]), 2))
    }
}

/// A string field on the wire: the count of its UTF-8 bytes as a 16-bit
/// number, then the bytes.
pub open spec fn spec_utf8_field(text: Seq<char>) -> Seq<u8> {
    spec_u16_bytes(encode_utf8(text).len() as u16) + encode_utf8(text)
}

/// What reading a string field makes of `input`: the text and the count of
/// bytes that it takes.
#[verifier::opaque]
pub open spec fn spec_read_utf8_string(input: Seq<u8>) -> Result<(Seq<char>, nat), PacketError> {
    if input.len() < 2 {
        Err(PacketError::UnexpectedEof)
    } else {
        let size = spec_u16_of(input[0], input[1]) as nat;
        if input.len() < 2 + size {
            Err(PacketError::UnexpectedEof)
        } else if !valid_utf8(input.subrange(2, 2 + size as int)) {
            Err(PacketError::InvalidUtf8)
        } else {
            Ok((decode_utf8(input.subrange(2, 2 + size as int)), 2 + size))
        }
    }
}

/// Reads the 16-bit number that starts at `input[at]`.
pub fn parse_u16(input: &[u8], at: usize) -> (r: Result<u16, PacketError>)
    requires
        at <= input.len(),
    ensures
        match spec_read_u16(input@.skip(at as int)) {
            Ok((value, n)) => r == Ok::<u16, PacketError>(value) && at + n <= input.len(),
            Err(e) => r == Err::<u16, PacketError>(e),
        },
{
    if input.len() - at < 2 {
        return Err(PacketError::UnexpectedEof);
    }
    let high = input[at];
    let low = input[at + 1];
    Ok((high as u16) * 256 + (low as u16))
}

/// Reads the string field that starts at `input[at]`; hands back the text
/// and the place where the field ends.
pub fn parse_utf8_string(input: &[u8], at: usize) -> (r: Result<(String, usize), PacketError>)
    requires
        at <= input.len(),
    ensures
        match spec_read_utf8_string(input@.skip(at as int)) {
            Ok((text, n)) => r is Ok && r->Ok_0.0@ == text && r->Ok_0.1 == at + n && at + n
                <= input.len() && n >= 2,
            Err(e) => r == Err::<(String, usize), PacketError>(e),
        },
{
    reveal(spec_read_utf8_string);
    let size = match parse_u16(input, at) {
        Ok(size) => size as usize,
        Err(e) => { return Err(e); },
    };
    if input.len() - at - 2 < size {
        return Err(PacketError::UnexpectedEof);
    }
    let start = at + 2;
    let end = start + size;
    assert(input@.subrange(start as int, end as int) =~= input@.skip(at as int).subrange(
        2,
        2 + size as int,
    ));
    match text_of_bytes(input, start, end) {
        Some(text) => Ok((text, end)),
        None => Err(PacketError::InvalidUtf8),
    }
}

/// Reads one string field from the stream. Where the bytes ahead hold none,
/// the stream stays where it was.
pub fn read_utf8_string(stream: &mut ByteReader) -> (r: Result<String, PacketError>)
    ensures
        match spec_read_utf8_string(old(stream)@) {
            Ok((text, n)) => {
                &&& r is Ok
                &&& r->Ok_0@ == text
                &&& n <= old(stream)@.len()
                &&& final(stream)@ == old(stream)@.skip(n as int)
            },
            Err(e) => r == Err::<String, PacketError>(e) && *final(stream) == *old(stream),
        },
{
    assert(stream@.skip(0) =~= stream@);
    let parsed = parse_utf8_string(stream.as_slice(), 0);
    match parsed {
        Ok((text, end)) => {
            stream.advance(end);
            Ok(text)
        },
        Err(e) => Err(e),
    }
}

/// Appends the two bytes of a 16-bit number.
pub fn write_u16(stream: &mut Vec<u8>, value: u16)
    ensures
        final(stream)@ == old(stream)@ + spec_u16_bytes(value),
{
    stream.push((value / 256) as u8);
    stream.push((value % 256) as u8);
    assert(stream@ =~= old(stream)@ + spec_u16_bytes(value));
}

/// Appends all of `bytes`.
pub fn write_bytes(stream: &mut Vec<u8>, bytes: &[u8])
    ensures
        final(stream)@ == old(stream)@ + bytes@,
{
    let mut i: usize = 0;
    while i < bytes.len()
        invariant
            i <= bytes@.len(),
            stream@ == old(stream)@ + bytes@.take(i as int),
        decreases bytes@.len() - i,
    {
        stream.push(bytes[i]);
        i += 1;
        assert(stream@ =~= old(stream)@ + bytes@.take(i as int));
    }
    assert(bytes@.take(i as int) =~= bytes@);
}

/// Appends a string field.
pub fn write_utf8_string(stream: &mut Vec<u8>, text: &str)
    requires
        encode_utf8(text@).len() <= MAX_STRING_LENGTH,
    ensures
        final(stream)@ == old(stream)@ + spec_utf8_field(text@),
{
    let bytes = text.as_bytes();
    write_u16(stream, bytes.len() as u16);
    write_bytes(stream, bytes);
    assert(stream@ =~= old(stream)@ + spec_utf8_field(text@));
}

/// A string field that was written is read back as the text it was made from.
pub proof fn lemma_utf8_field_round_trip(text: Seq<char>, rest: Seq<u8>)
    requires
        encode_utf8(text).len() <= MAX_STRING_LENGTH,
    ensures
        spec_read_utf8_string(spec_utf8_field(text) + rest) == Ok::<
            (Seq<char>, nat),
            PacketError,
        >((text, spec_utf8_field(text).len())),
        spec_utf8_field(text).len() == 2 + encode_utf8(text).len(),
{
    reveal(spec_read_utf8_string);
    let bytes = encode_utf8(text);
    let input = spec_utf8_field(text) + rest;
    assert(input[0] == spec_u16_bytes(bytes.len() as u16)[0]);
    assert(input[1] == spec_u16_bytes(bytes.len() as u16)[1]);
    assert(spec_u16_of(input[0], input[1]) == bytes.len());
    assert(input.subrange(2, 2 + bytes.len() as int) =~= bytes);
    vstd::utf8::encode_utf8_valid_utf8(text);
    vstd::utf8::encode_utf8_decode_utf8(text);
}

} // verus!
