use crate::error::PacketError;
use crate::reader::ByteReader;
use vstd::prelude::*;

verus! {

/// The control packet types of MQTT 3.1.1.
#[derive(Debug, Clone, Copy, PartialEq, Eq, Structural)]
pub enum PacketType {
    Connect,
    Connack,
    Publish,
    Puback,
    Subscribe,
    Suback,
    Unsubscribe,
    Unsuback,
    Pingreq,
    Pingresp,
    Disconnect,
}

impl PacketType {
    /// The number that stands for this packet type on the wire.
    pub open spec fn spec_code(self) -> u8 {
        match self {
            PacketType::Connect => 1,
            PacketType::Connack => 2,
            PacketType::Publish => 3,
            PacketType::Puback => 4,
            PacketType::Subscribe => 8,
            PacketType::Suback => 9,
            PacketType::Unsubscribe => 10,
            PacketType::Unsuback => 11,
            PacketType::Pingreq => 12,
            PacketType::Pingresp => 13,
            PacketType::Disconnect => 14,
        }
    }

    /// The packet type that a wire number stands for, if any.
    pub open spec fn spec_from_u8(n: u8) -> Option<PacketType> {
        match n {
            1 => Some(PacketType::Connect),
            2 => Some(PacketType::Connack),
            3 => Some(PacketType::Publish),
            4 => Some(PacketType::Puback),
            8 => Some(PacketType::Subscribe),
            9 => Some(PacketType::Suback),
            10 => Some(PacketType::Unsubscribe),
            11 => Some(PacketType::Unsuback),
            12 => Some(PacketType::Pingreq),
            13 => Some(PacketType::Pingresp),
            14 => Some(PacketType::Disconnect),
            _ => None,
        }
    }

    /// The number that stands for this packet type on the wire.
    pub fn code(self) -> (n: u8)
        ensures
            n == self.spec_code(),
            PacketType::spec_from_u8(n) == Some(self),
    {
        match self {
            PacketType::Connect => 1,
            PacketType::Connack => 2,
            PacketType::Publish => 3,
            PacketType::Puback => 4,
            PacketType::Subscribe => 8,
            PacketType::Suback => 9,
            PacketType::Unsubscribe => 10,
            PacketType::Unsuback => 11,
            PacketType::Pingreq => 12,
            PacketType::Pingresp => 13,
            PacketType::Disconnect => 14,
        }
    }

    /// The packet type that a wire number stands for, if any.
    pub fn from_u8(n: u8) -> (r: Option<PacketType>)
        ensures
            r == PacketType::spec_from_u8(n),
            r is Some <==> (1 <= n <= 4 || 8 <= n <= 14),
            r is Some ==> r->0.spec_code() == n,
    {
        match n {
            1 => Some(PacketType::Connect),
            2 => Some(PacketType::Connack),
            3 => Some(PacketType::Publish),
            4 => Some(PacketType::Puback),
            8 => Some(PacketType::Subscribe),
            9 => Some(PacketType::Suback),
            10 => Some(PacketType::Unsubscribe),
            11 => Some(PacketType::Unsuback),
            12 => Some(PacketType::Pingreq),
            13 => Some(PacketType::Pingresp),
            14 => Some(PacketType::Disconnect),
            _ => None,
        }
    }
}

/// The greatest remaining length that the wire format can say.
pub const MAX_REMAINING_LENGTH: u32 = 268_435_455;

/// The bytes that say a remaining length: seven bits in each, the low ones
/// first, and the top bit set in every byte but the last.
pub open spec fn spec_encode_remaining_length(length: nat) -> Seq<u8>
    decreases length,
{
    if length < 128 {
        seq![length as u8]
    } else {
        seq![(length % 128 + 128) as u8] + spec_encode_remaining_length(length / 128)
    }
}

/// The count of bytes that say a remaining length of at most
/// `MAX_REMAINING_LENGTH`.
pub open spec fn spec_remaining_length_size(length: nat) -> nat {
    if length < 128 {
        1
    } else if length < 16_384 {
        2
    } else if length < 2_097_152 {
        3
    } else {
        4
    }
}

/// What reading a remaining length makes of `input`: the length and the
/// count of bytes that say it. A byte below 128 ends the length; a fourth
/// byte that does not end it is an error.
pub open spec fn spec_decode_remaining_length(input: Seq<u8>) -> Result<(u32, nat), PacketError> {
    if input.len() < 1 {
        Err(PacketError::UnexpectedEof)
    } else if input[0] < 128 {
        Ok((input[0] as u32, 1))
    } else if input.len() < 2 {
        Err(PacketError::UnexpectedEof)
    } else if input[1] < 128 {
        Ok(((input[0] % 128 + input[1] * 128) as u32, 2))
    } else if input.len() < 3 {
        Err(PacketError::UnexpectedEof)
    } else if input[2] < 128 {
        Ok(((input[0] % 128 + (input[1] % 128) * 128 + input[2] * 16_384) as u32, 3))
    } else if input.len() < 4 {
        Err(PacketError::UnexpectedEof)
    } else if input[3] < 128 {
        Ok(
            (
                (input[0] % 128 + (input[1] % 128) * 128 + (input[2] % 128) * 16_384 + input[3]
                    * 2_097_152) as u32,
                4,
            ),
        )
    } else {
        Err(PacketError::InvalidRemainingLength)
    }
}

/// Reads the remaining length that starts at `input[at]`; hands back the
/// length and the place where its bytes end.
pub fn parse_remaining_length(input: &[u8], at: usize) -> (r: Result<(u32, usize), PacketError>)
    requires
        at <= input.len(),
    ensures
        match spec_decode_remaining_length(input@.skip(at as int)) {
            Ok((length, n)) => r == Ok::<(u32, usize), PacketError>((length, (at + n) as usize))
                && at + n <= input.len(),
            Err(e) => r == Err::<(u32, usize), PacketError>(e),
        },
{
    let available = input.len() - at;
    if available < 1 {
        return Err(PacketError::UnexpectedEof);
    }
    let first = input[at];
    if first < 128 {
        return Ok((first as u32, at + 1));
    }
    if available < 2 {
        return Err(PacketError::UnexpectedEof);
    }
    let second = input[at + 1];
    let low: u32 = (first % 128) as u32;
    if second < 128 {
        return Ok((low + (second as u32) * 128, at + 2));
    }
    if available < 3 {
        return Err(PacketError::UnexpectedEof);
    }
    let third = input[at + 2];
    let low: u32 = low + ((second % 128) as u32) * 128;
    if third < 128 {
        return Ok((low + (third as u32) * 16_384, at + 3));
    }
    if available < 4 {
        return Err(PacketError::UnexpectedEof);
    }
    let fourth = input[at + 3];
    let low: u32 = low + ((third % 128) as u32) * 16_384;
    if fourth < 128 {
        return Ok((low + (fourth as u32) * 2_097_152, at + 4));
    }
    Err(PacketError::InvalidRemainingLength)
}

/// The encoding of a remaining length is as long as its size says.
pub proof fn lemma_remaining_length_size(length: nat)
    requires
        length <= MAX_REMAINING_LENGTH,
    ensures
        spec_encode_remaining_length(length).len() == spec_remaining_length_size(length),
{
    reveal_with_fuel(spec_encode_remaining_length, 5);
}

/// A remaining length that was written is read back as it was, whatever
/// follows it.
pub proof fn lemma_remaining_length_round_trip(length: u32, rest: Seq<u8>)
    requires
        length <= MAX_REMAINING_LENGTH,
    ensures
        spec_decode_remaining_length(spec_encode_remaining_length(length as nat) + rest) == Ok::<
            (u32, nat),
            PacketError,
        >((length, spec_remaining_length_size(length as nat))),
{
    reveal_with_fuel(spec_encode_remaining_length, 5);
    let n = length as nat;
    let encoded = spec_encode_remaining_length(n);
    let input = encoded + rest;
    lemma_remaining_length_size(n);
    if n < 128 {
        assert(input[0] == encoded[0]);
    } else if n < 16_384 {
        assert(input[0] == encoded[0]);
        assert(input[1] == encoded[1]);
    } else if n < 2_097_152 {
        assert(input[0] == encoded[0]);
        assert(input[1] == encoded[1]);
        assert(input[2] == encoded[2]);
    } else {
        assert(input[0] == encoded[0]);
        assert(input[1] == encoded[1]);
        assert(input[2] == encoded[2]);
        assert(input[3] == encoded[3]);
    }
}

/// No run of bytes says a remaining length in fewer bytes than its encoding
/// has: the encoding carries no byte that it could do without.
pub proof fn lemma_remaining_length_minimal(input: Seq<u8>)
    requires
        spec_decode_remaining_length(input) is Ok,
    ensures
        spec_encode_remaining_length(spec_decode_remaining_length(input)->Ok_0.0 as nat).len()
            <= spec_decode_remaining_length(input)->Ok_0.1,
        spec_decode_remaining_length(input)->Ok_0.0 <= MAX_REMAINING_LENGTH,
{
    let length = spec_decode_remaining_length(input)->Ok_0.0;
    lemma_remaining_length_size(length as nat);
}

/// A remaining length that does not end within four bytes is rejected as
/// malformed, whatever follows.
pub proof fn lemma_remaining_length_past_four_bytes(input: Seq<u8>)
    requires
        input.len() >= 4,
        forall|i: int| 0 <= i < 4 ==> input[i] >= 128,
    ensures
        spec_decode_remaining_length(input) == Err::<(u32, nat), PacketError>(
            PacketError::InvalidRemainingLength,
        ),
        PacketError::InvalidRemainingLength.spec_is_malformed(),
{
}

/// The last byte of an encoded remaining length is zero only where the
/// length itself is zero.
pub proof fn lemma_remaining_length_no_trailing_zero(length: nat)
    requires
        length <= MAX_REMAINING_LENGTH,
    ensures
        spec_encode_remaining_length(length).last() == 0 ==> length == 0,
{
    reveal_with_fuel(spec_encode_remaining_length, 5);
}

/// The first byte of a packet: the packet type in its high four bits and the
/// flags in its low four.
pub open spec fn spec_control_byte(packet_type: u8, packet_type_flags: u8) -> u8 {
    ((packet_type % 16) * 16 + packet_type_flags % 16) as u8
}

/// The start of every packet: its type, four flags and the count of the
/// bytes that follow the header.
#[derive(Debug, Clone, Copy, PartialEq, Eq, Structural)]
pub struct FixedHeader {
    pub packet_type: u8,
    pub packet_type_flags: u8,
    pub remaining_length: u32,
}

impl FixedHeader {
    /// True of the headers that the wire format can say without loss.
    pub open spec fn spec_encodable(self) -> bool {
        &&& self.packet_type < 16
        &&& self.packet_type_flags < 16
        &&& self.remaining_length <= MAX_REMAINING_LENGTH
    }

    /// The bytes of the header.
    pub open spec fn spec_encode(self) -> Seq<u8> {
        seq![spec_control_byte(self.packet_type, self.packet_type_flags)]
            + spec_encode_remaining_length(self.remaining_length as nat)
    }

    /// What reading a fixed header makes of `input`: the header and the count
    /// of bytes that it takes.
    pub open spec fn spec_read_fixed_header(input: Seq<u8>) -> Result<
        (FixedHeader, nat),
        PacketError,
    > {
        if input.len() < 1 {
            Err(PacketError::UnexpectedEof)
        } else {
            match spec_decode_remaining_length(input.skip(1)) {
                Ok((remaining_length, n)) => Ok(
                    (
                        FixedHeader {
                            packet_type: input[0] / 16,
                            packet_type_flags: input[0] % 16,
                            remaining_length,
                        },
                        n + 1,
                    ),
                ),
                Err(e) => Err(e),
            }
        }
    }

    /// Reads the fixed header that starts at `input[at]`; hands back the
    /// header and the place where it ends.
    pub fn parse_fixed_header(input: &[u8], at: usize) -> (r: Result<
        (FixedHeader, usize),
        PacketError,
    >)
        requires
            at <= input.len(),
        ensures
            match FixedHeader::spec_read_fixed_header(input@.skip(at as int)) {
                Ok((header, n)) => r == Ok::<(FixedHeader, usize), PacketError>(
                    (header, (at + n) as usize),
                ) && at + n <= input.len(),
                Err(e) => r == Err::<(FixedHeader, usize), PacketError>(e),
            },
    {
        if input.len() - at < 1 {
            return Err(PacketError::UnexpectedEof);
        }
        let control = input[at];
        assert(input@.skip(at as int).skip(1) =~= input@.skip(at + 1));
        match parse_remaining_length(input, at + 1) {
            Ok((remaining_length, end)) => Ok(
                (
                    FixedHeader {
                        packet_type: control / 16,
                        packet_type_flags: control % 16,
                        remaining_length,
                    },
                    end,
                ),
            ),
            Err(e) => Err(e),
        }
    }

    /// Reads a fixed header from the stream. Where the bytes ahead hold
    /// none, the stream stays where it was.
    pub fn read_fixed_header(stream: &mut ByteReader) -> (r: Result<FixedHeader, PacketError>)
        ensures
            match FixedHeader::spec_read_fixed_header(old(stream)@) {
                Ok((header, n)) => {
                    &&& r == Ok::<FixedHeader, PacketError>(header)
                    &&& n <= old(stream)@.len()
                    &&& final(stream)@ == old(stream)@.skip(n as int)
                },
                Err(e) => r == Err::<FixedHeader, PacketError>(e) && *final(stream) == *old(
                    stream,
                ),
            },
    {
        assert(stream@.skip(0) =~= stream@);
        let parsed = FixedHeader::parse_fixed_header(stream.as_slice(), 0);
        match parsed {
            Ok((header, end)) => {
                stream.advance(end);
                Ok(header)
            },
            Err(e) => Err(e),
        }
    }

    /// Appends the header to the stream. A remaining length above
    /// `MAX_REMAINING_LENGTH` has no encoding: nothing is written then.
    pub fn write_fixed_header(&self, stream: &mut Vec<u8>) -> (r: Result<(), PacketError>)
        ensures
            r is Ok <==> self.remaining_length <= MAX_REMAINING_LENGTH,
            r is Ok ==> final(stream)@ == old(stream)@ + self.spec_encode(),
            r is Err ==> r == Err::<(), PacketError>(PacketError::Unencodable) && final(stream)@
                == old(stream)@,
    {
        if self.remaining_length > MAX_REMAINING_LENGTH {
            return Err(PacketError::Unencodable);
        }
        let control: u8 = (self.packet_type % 16) * 16 + self.packet_type_flags % 16;
        stream.push(control);
        let written = FixedHeader::encode_remaining_length(stream, self.remaining_length);
        assert(stream@ =~= old(stream)@ + self.spec_encode());
        written
    }

    /// Reads a remaining length from the stream. Where the bytes ahead hold
    /// none, the stream stays where it was.
    pub fn decode_remaining_length(stream: &mut ByteReader) -> (r: Result<u32, PacketError>)
        ensures
            match spec_decode_remaining_length(old(stream)@) {
                Ok((length, n)) => {
                    &&& r == Ok::<u32, PacketError>(length)
                    &&& length <= MAX_REMAINING_LENGTH
                    &&& n <= old(stream)@.len()
                    &&& final(stream)@ == old(stream)@.skip(n as int)
                },
                Err(e) => r == Err::<u32, PacketError>(e) && *final(stream) == *old(stream),
            },
    {
        assert(stream@.skip(0) =~= stream@);
        let parsed = parse_remaining_length(stream.as_slice(), 0);
        match parsed {
            Ok((length, end)) => {
                stream.advance(end);
                Ok(length)
            },
            Err(e) => Err(e),
        }
    }

    /// Appends a remaining length to the stream, in as few bytes as can say
    /// it. One above `MAX_REMAINING_LENGTH` has no encoding: nothing is
    /// written then.
    pub fn encode_remaining_length(stream: &mut Vec<u8>, remaining_length: u32) -> (r: Result<
        (),
        PacketError,
    >)
        ensures
            r is Ok <==> remaining_length <= MAX_REMAINING_LENGTH,
            r is Ok ==> final(stream)@ == old(stream)@ + spec_encode_remaining_length(
                remaining_length as nat,
            ),
            r is Ok ==> final(stream)@.len() == old(stream)@.len() + spec_remaining_length_size(
                remaining_length as nat,
            ),
            r is Err ==> r == Err::<(), PacketError>(PacketError::Unencodable) && final(stream)@
                == old(stream)@,
    {
        if remaining_length > MAX_REMAINING_LENGTH {
            return Err(PacketError::Unencodable);
        }
        let mut pending: u32 = remaining_length;
        let ghost mut written: Seq<u8> = Seq::empty();
        assert(stream@ =~= old(stream)@ + written);
        while pending >= 128
            invariant
                stream@ == old(stream)@ + written,
                written + spec_encode_remaining_length(pending as nat)
                    == spec_encode_remaining_length(remaining_length as nat),
            decreases pending,
        {
            let byte: u8 = (pending % 128) as u8 + 128;
            stream.push(byte);
            proof {
                let next = written.push(byte);
                assert(next + spec_encode_remaining_length((pending / 128) as nat) =~= written
                    + spec_encode_remaining_length(pending as nat));
                written = next;
                assert(stream@ =~= old(stream)@ + written);
            }
            pending = pending / 128;
        }
        stream.push(pending as u8);
        proof {
            assert(stream@ =~= old(stream)@ + spec_encode_remaining_length(
                remaining_length as nat,
            ));
            lemma_remaining_length_size(remaining_length as nat);
        }
        Ok(())
    }
}

/// A fixed header that was written is read back as it was, whatever follows
/// it.
pub proof fn lemma_fixed_header_round_trip(header: FixedHeader, rest: Seq<u8>)
    requires
        header.spec_encodable(),
    ensures
        FixedHeader::spec_read_fixed_header(header.spec_encode() + rest) == Ok::<
            (FixedHeader, nat),
            PacketError,
        >((header, header.spec_encode().len())),
        header.spec_encode().len() == 1 + spec_remaining_length_size(
            header.remaining_length as nat,
        ),
{
    let input = header.spec_encode() + rest;
    let length = spec_encode_remaining_length(header.remaining_length as nat);
    assert(input.skip(1) =~= length + rest);
    assert(input[0] == spec_control_byte(header.packet_type, header.packet_type_flags));
    lemma_remaining_length_round_trip(header.remaining_length, rest);
    lemma_remaining_length_size(header.remaining_length as nat);
}

/// A whole packet on the wire: the fixed header that its type, flags and
/// body call for, then the body.
pub open spec fn spec_frame(packet_type: PacketType, flags: u8, body: Seq<u8>) -> Seq<u8> {
    FixedHeader {
        packet_type: packet_type.spec_code(),
        packet_type_flags: flags,
        remaining_length: body.len() as u32,
    }.spec_encode() + body
}

/// Appends a whole packet to the stream: the fixed header, then `body`. A
/// body longer than `MAX_REMAINING_LENGTH` has no encoding: nothing is
/// written then.
pub fn write_frame(stream: &mut Vec<u8>, packet_type: PacketType, flags: u8, body: &Vec<u8>) -> (r:
    Result<(), PacketError>)
    ensures
        r is Ok <==> body@.len() <= MAX_REMAINING_LENGTH,
        r is Ok ==> final(stream)@ == old(stream)@ + spec_frame(packet_type, flags, body@),
        r is Err ==> r == Err::<(), PacketError>(PacketError::Unencodable) && final(stream)@
            == old(stream)@,
{
    if body.len() > MAX_REMAINING_LENGTH as usize {
        return Err(PacketError::Unencodable);
    }
    let header = FixedHeader {
        packet_type: packet_type.code(),
        packet_type_flags: flags,
        remaining_length: body.len() as u32,
    };
    match header.write_fixed_header(stream) {
        Ok(()) => {
            crate::utils::write_bytes(stream, body.as_slice());
            assert(stream@ =~= old(stream)@ + spec_frame(packet_type, flags, body@));
            Ok(())
        },
        Err(e) => Err(e),
    }
}

/// A whole packet that was written is read back, whatever follows it, as
/// the header it was given and then its body.
pub proof fn lemma_frame_round_trip(packet_type: PacketType, flags: u8, body: Seq<u8>, rest: Seq<u8>)
    requires
        flags < 16,
        body.len() <= MAX_REMAINING_LENGTH,
    ensures
        FixedHeader::spec_read_fixed_header(spec_frame(packet_type, flags, body) + rest) is Ok,
        ({
            let (header, n) = FixedHeader::spec_read_fixed_header(
                spec_frame(packet_type, flags, body) + rest,
            )->Ok_0;
            &&& header.packet_type == packet_type.spec_code()
            &&& header.packet_type_flags == flags
            &&& header.remaining_length == body.len()
            &&& n + body.len() == spec_frame(packet_type, flags, body).len()
            &&& (spec_frame(packet_type, flags, body) + rest).skip(n as int) == body + rest
        }),
{
    let header = FixedHeader {
        packet_type: packet_type.spec_code(),
        packet_type_flags: flags,
        remaining_length: body.len() as u32,
    };
    let input = spec_frame(packet_type, flags, body) + rest;
    assert(input =~= header.spec_encode() + (body + rest));
    lemma_fixed_header_round_trip(header, body + rest);
    assert(input.skip(header.spec_encode().len() as int) =~= body + rest);
}

/// A packet that can be read from a stream after its fixed header.
pub trait ReadablePacket<T: View> {
    /// What reading makes of `input`, the bytes after the fixed header: the
    /// packet and the count of bytes that it takes.
    spec fn spec_read_from(input: Seq<u8>, fixed_header: FixedHeader) -> Result<
        (T::V, nat),
        PacketError,
    >;

    /// Reads the packet from the stream. Where the bytes ahead hold none,
    /// the stream stays where it was.
    fn read_from(stream: &mut ByteReader, fixed_header: FixedHeader) -> (r: Result<T, PacketError>)
        ensures
            match Self::spec_read_from(old(stream)@, fixed_header) {
                Ok((packet, n)) => {
                    &&& r is Ok
                    &&& r->Ok_0@ == packet
                    &&& n <= old(stream)@.len()
                    &&& final(stream)@ == old(stream)@.skip(n as int)
                },
                Err(e) => r == Err::<T, PacketError>(e) && *final(stream) == *old(stream),
            },
    ;
}

/// A packet that can be written to a stream, fixed header and all.
pub trait WritablePacket {
    /// The type that the fixed header names.
    spec fn spec_packet_type(&self) -> PacketType;

    /// The four flags of the fixed header.
    spec fn spec_flags(&self) -> u8;

    /// The bytes after the fixed header.
    spec fn spec_body(&self) -> Seq<u8>;

    /// True of the packets that the wire format can say.
    spec fn spec_encodable(&self) -> bool;

    /// Appends the packet to the stream. One that has no encoding is not
    /// written at all.
    fn write_to(&self, stream: &mut Vec<u8>) -> (r: Result<(), PacketError>)
        ensures
            r is Ok <==> self.spec_encodable(),
            r is Ok ==> final(stream)@ == old(stream)@ + spec_frame(
                self.spec_packet_type(),
                self.spec_flags(),
                self.spec_body(),
            ),
            r is Err ==> r == Err::<(), PacketError>(PacketError::Unencodable) && final(stream)@
                == old(stream)@,
    ;

    /// The count of the bytes after the fixed header.
    fn calculate_remaining_length(&self) -> (n: u32)
        requires
            self.spec_body().len() <= u32::MAX,
        ensures
            n == self.spec_body().len(),
    ;
}

} // verus!
