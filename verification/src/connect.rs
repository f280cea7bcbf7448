use crate::error::PacketError;
use crate::packet::write_frame;
use crate::packet::FixedHeader;
use crate::packet::PacketType;
use crate::packet::ReadablePacket;
use crate::packet::WritablePacket;
use crate::reader::ByteReader;
use crate::text::byte_len;
use crate::utils::lemma_utf8_field_round_trip;
use crate::utils::parse_u16;
use crate::utils::parse_utf8_string;
use crate::utils::spec_read_utf8_string;
use crate::utils::spec_u16_bytes;
use crate::utils::spec_u16_of;
use crate::utils::spec_utf8_field;
use crate::utils::write_u16;
use crate::utils::write_utf8_string;
use crate::utils::MAX_STRING_LENGTH;
use vstd::prelude::*;
use vstd::utf8::encode_utf8;

verus! {

/// The request of a client to open a session.
#[derive(Debug, PartialEq)]
pub struct Connect {
    /// The name under which the broker keeps the client's session.
    pub client_id: String,
    /// The user name, empty where the client gives none.
    pub username: String,
    /// The password, empty where the client gives none.
    pub password: String,
    /// The topic of the last will.
    pub last_will_topic: String,
    /// The message of the last will.
    pub last_will_message: String,
    /// The longest silence, in seconds, that the client promises.
    pub keep_alive: u16,
    /// The quality of service of the last will.
    pub last_will_qos: u8,
    /// 1 where the broker is to forget an earlier session of the client.
    pub clean_session: u8,
    /// 1 where the last will is to be retained when it is published.
    pub last_will_retain: u8,
    /// 1 where the packet holds a last will.
    pub last_will_flag: u8,
}

/// A CONNECT packet as a mathematical value.
pub struct ConnectView {
    pub client_id: Seq<char>,
    pub username: Seq<char>,
    pub password: Seq<char>,
    pub last_will_topic: Seq<char>,
    pub last_will_message: Seq<char>,
    pub keep_alive: u16,
    pub last_will_qos: u8,
    pub clean_session: u8,
    pub last_will_retain: u8,
    pub last_will_flag: u8,
}

impl View for Connect {
    type V = ConnectView;

    open spec fn view(&self) -> ConnectView {
        ConnectView {
            client_id: self.client_id@,
            username: self.username@,
            password: self.password@,
            last_will_topic: self.last_will_topic@,
            last_will_message: self.last_will_message@,
            keep_alive: self.keep_alive,
            last_will_qos: self.last_will_qos,
            clean_session: self.clean_session,
            last_will_retain: self.last_will_retain,
            last_will_flag: self.last_will_flag,
        }
    }
}

impl Clone for Connect {
    fn clone(&self) -> (r: Connect)
        ensures
            r@ == self@,
    {
        Connect {
            client_id: self.client_id.clone(),
            username: self.username.clone(),
            password: self.password.clone(),
            last_will_topic: self.last_will_topic.clone(),
            last_will_message: self.last_will_message.clone(),
            keep_alive: self.keep_alive,
            last_will_qos: self.last_will_qos,
            clean_session: self.clean_session,
            last_will_retain: self.last_will_retain,
            last_will_flag: self.last_will_flag,
        }
    }
}

/// The seven bytes that open the body: the protocol name `MQTT` as a string
/// field, then protocol level 4.
pub open spec fn spec_protocol_bytes() -> Seq<u8> {
    seq![0u8, 4u8, 77u8, 81u8, 84u8, 84u8, 4u8]
}

/// A string field that is there only where `present` holds.
pub open spec fn spec_optional_field(present: bool, text: Seq<char>) -> Seq<u8> {
    if present {
        spec_utf8_field(text)
    } else {
        Seq::empty()
    }
}

/// What reading such a field makes of `input`: the empty text, and no byte
/// taken, where the field is not there.
pub open spec fn spec_read_optional_string(present: bool, input: Seq<u8>) -> Result<
    (Seq<char>, nat),
    PacketError,
> {
    if present {
        spec_read_utf8_string(input)
    } else {
        Ok((Seq::empty(), 0))
    }
}

impl ConnectView {
    /// The connect flags: clean session in bit 1, the will flag in bit 2,
    /// a will quality of service of 1 or 2 in bits 3 and 4, will retain in
    /// bit 5, and bits 6 and 7 where a password and a user name are given.
    pub open spec fn spec_flags(self) -> u8 {
        ((if self.clean_session > 0 { 2int } else { 0 })
            + (if self.last_will_flag > 0 { 4int } else { 0 })
            + (if 0 < self.last_will_qos < 3 { self.last_will_qos * 8 } else { 0 })
            + (if self.last_will_retain > 0 { 32int } else { 0 })
            + (if self.password.len() > 0 { 64int } else { 0 })
            + (if self.username.len() > 0 { 128int } else { 0 })) as u8
    }

    /// The bytes after the fixed header.
    pub open spec fn spec_body(self) -> Seq<u8> {
        spec_protocol_bytes() + seq![self.spec_flags()] + spec_u16_bytes(self.keep_alive)
            + spec_utf8_field(self.client_id)
            + spec_optional_field(self.last_will_flag > 0, self.last_will_topic)
            + spec_optional_field(self.last_will_flag > 0, self.last_will_message)
            + spec_optional_field(self.username.len() > 0, self.username)
            + spec_optional_field(self.password.len() > 0, self.password)
    }

    /// True where every string that the packet puts on the wire fits in a
    /// string field.
    pub open spec fn spec_encodable(self) -> bool {
        &&& encode_utf8(self.client_id).len() <= MAX_STRING_LENGTH
        &&& self.last_will_flag > 0 ==> encode_utf8(self.last_will_topic).len()
            <= MAX_STRING_LENGTH
        &&& self.last_will_flag > 0 ==> encode_utf8(self.last_will_message).len()
            <= MAX_STRING_LENGTH
        &&& encode_utf8(self.username).len() <= MAX_STRING_LENGTH
        &&& encode_utf8(self.password).len() <= MAX_STRING_LENGTH
    }

    /// True of the packets that the wire can carry without loss: each flag
    /// is 0 or 1, the will's quality of service is at most 2, and a packet
    /// without a last will has neither topic nor message.
    pub open spec fn spec_well_formed(self) -> bool {
        &&& self.spec_encodable()
        &&& self.clean_session <= 1
        &&& self.last_will_flag <= 1
        &&& self.last_will_retain <= 1
        &&& self.last_will_qos <= 2
        &&& self.last_will_flag == 0 ==> self.last_will_topic.len() == 0
            && self.last_will_message.len() == 0
    }

    /// What reading a CONNECT body makes of `input`. The seven bytes of
    /// protocol name and level are passed over unread.
    pub open spec fn spec_read(input: Seq<u8>) -> Result<(ConnectView, nat), PacketError> {
        if input.len() < 10 {
            Err(PacketError::UnexpectedEof)
        } else {
            let flags = input[7];
            match spec_read_fields(
                input.skip(10),
                spec_flag(flags, 4) == 1,
                spec_flag(flags, 128) == 1,
                spec_flag(flags, 64) == 1,
            ) {
                Err(e) => Err(e),
                Ok((fields, n)) => Ok(
                    (
                        ConnectView {
                            client_id: fields.0,
                            username: fields.3,
                            password: fields.4,
                            last_will_topic: fields.1,
                            last_will_message: fields.2,
                            keep_alive: spec_u16_of(input[8], input[9]),
                            last_will_qos: spec_will_qos(flags),
                            clean_session: spec_flag(flags, 2),
                            last_will_retain: spec_flag(flags, 32),
                            last_will_flag: spec_flag(flags, 4),
                        },
                        10 + n,
                    ),
                ),
            }
        }
    }
}

/// The bit of `flags` whose place value is `weight`, a power of two.
#[verifier::opaque]
pub open spec fn spec_flag(flags: u8, weight: u8) -> u8 {
    (flags / weight) % 2
}

/// The two bits of the connect flags that hold the will's quality of
/// service.
#[verifier::opaque]
pub open spec fn spec_will_qos(flags: u8) -> u8 {
    (flags / 8) % 4
}

/// The five texts of a CONNECT payload, in the order of the wire: client
/// identifier, will topic, will message, user name, password.
pub type ConnectFields = (Seq<char>, Seq<char>, Seq<char>, Seq<char>, Seq<char>);

/// What reading the payload of a CONNECT makes of `input`: the client
/// identifier, then each of the other four where the flags announce it.
#[verifier::opaque]
pub open spec fn spec_read_fields(
    input: Seq<u8>,
    has_will: bool,
    has_username: bool,
    has_password: bool,
) -> Result<(ConnectFields, nat), PacketError> {
    match spec_read_utf8_string(input) {
        Err(e) => Err(e),
        Ok((client_id, n1)) => match spec_read_optional_string(has_will, input.skip(n1 as int)) {
            Err(e) => Err(e),
            Ok((last_will_topic, n2)) => match spec_read_optional_string(
                has_will,
                input.skip(n1 + n2 as int),
            ) {
                Err(e) => Err(e),
                Ok((last_will_message, n3)) => match spec_read_optional_string(
                    has_username,
                    input.skip(n1 + n2 + n3 as int),
                ) {
                    Err(e) => Err(e),
                    Ok((username, n4)) => match spec_read_optional_string(
                        has_password,
                        input.skip(n1 + n2 + n3 + n4 as int),
                    ) {
                        Err(e) => Err(e),
                        Ok((password, n5)) => Ok(
                            (
                                (client_id, last_will_topic, last_will_message, username, password),
                                n1 + n2 + n3 + n4 + n5,
                            ),
                        ),
                    },
                },
            },
        },
    }
}

/// The bit of `flags` whose place value is `weight`.
fn flag(flags: u8, weight: u8) -> (r: u8)
    requires
        weight > 0,
    ensures
        r == spec_flag(flags, weight),
{
    reveal(spec_flag);
    (flags / weight) % 2
}

/// Reads the string field that starts at `input[at]` where `present` holds,
/// and nothing where it does not.
fn parse_optional_string(present: bool, input: &[u8], at: usize) -> (r: Result<
    (String, usize),
    PacketError,
>)
    requires
        at <= input.len(),
    ensures
        match spec_read_optional_string(present, input@.skip(at as int)) {
            Ok((text, n)) => r is Ok && r->Ok_0.0@ == text && r->Ok_0.1 == at + n && at + n
                <= input.len(),
            Err(e) => r == Err::<(String, usize), PacketError>(e),
        },
{
    if present {
        parse_utf8_string(input, at)
    } else {
        Ok((String::new(), at))
    }
}

/// Reads the payload of a CONNECT that starts at `input[at]`; hands back the
/// five texts and the place where the payload ends.
fn parse_fields(
    input: &[u8],
    at: usize,
    has_will: bool,
    has_username: bool,
    has_password: bool,
) -> (r: Result<(String, String, String, String, String, usize), PacketError>)
    requires
        at <= input.len(),
    ensures
        match spec_read_fields(input@.skip(at as int), has_will, has_username, has_password) {
            Ok((fields, n)) => {
                &&& r is Ok
                &&& r->Ok_0.0@ == fields.0
                &&& r->Ok_0.1@ == fields.1
                &&& r->Ok_0.2@ == fields.2
                &&& r->Ok_0.3@ == fields.3
                &&& r->Ok_0.4@ == fields.4
                &&& r->Ok_0.5 == at + n
                &&& at + n <= input.len()
            },
            Err(e) => r == Err::<(String, String, String, String, String, usize), PacketError>(e),
        },
{
    reveal(spec_read_fields);
    let ghost payload = input@.skip(at as int);
    let (client_id, end1) = match parse_utf8_string(input, at) {
        Ok(found) => found,
        Err(e) => { return Err(e); },
    };
    assert(input@.skip(end1 as int) =~= payload.skip(end1 - at));
    let (last_will_topic, end2) = match parse_optional_string(has_will, input, end1) {
        Ok(found) => found,
        Err(e) => { return Err(e); },
    };
    assert(input@.skip(end2 as int) =~= payload.skip(end2 - at));
    let (last_will_message, end3) = match parse_optional_string(has_will, input, end2) {
        Ok(found) => found,
        Err(e) => { return Err(e); },
    };
    assert(input@.skip(end3 as int) =~= payload.skip(end3 - at));
    let (username, end4) = match parse_optional_string(has_username, input, end3) {
        Ok(found) => found,
        Err(e) => { return Err(e); },
    };
    assert(input@.skip(end4 as int) =~= payload.skip(end4 - at));
    let (password, end5) = match parse_optional_string(has_password, input, end4) {
        Ok(found) => found,
        Err(e) => { return Err(e); },
    };
    Ok((client_id, last_will_topic, last_will_message, username, password, end5))
}

impl Connect {
    /// The connect flags of the packet.
    pub fn get_flags(&self) -> (flags: u8)
        ensures
            flags == self@.spec_flags(),
    {
        let mut flags: u8 = 0;
        if self.clean_session > 0 {
            flags = flags + 2;
        }
        if self.last_will_flag > 0 {
            flags = flags + 4;
        }
        if self.last_will_qos > 0 && self.last_will_qos < 3 {
            flags = flags + self.last_will_qos * 8;
        }
        if self.last_will_retain > 0 {
            flags = flags + 32;
        }
        if !self.password.as_str().is_empty() {
            flags = flags + 64;
        }
        if !self.username.as_str().is_empty() {
            flags = flags + 128;
        }
        flags
    }

    /// Reads the packet whose body starts at `input[at]`; hands back the
    /// packet and the place where it ends.
    pub fn parse(input: &[u8], at: usize) -> (r: Result<(Connect, usize), PacketError>)
        requires
            at <= input.len(),
        ensures
            match ConnectView::spec_read(input@.skip(at as int)) {
                Ok((packet, n)) => r is Ok && r->Ok_0.0@ == packet && r->Ok_0.1 == at + n && at
                    + n <= input.len(),
                Err(e) => r == Err::<(Connect, usize), PacketError>(e),
            },
    {
        reveal(spec_will_qos);
        let ghost body = input@.skip(at as int);
        if input.len() - at < 10 {
            return Err(PacketError::UnexpectedEof);
        }
        let flags = input[at + 7];
        let keep_alive = match parse_u16(input, at + 8) {
            Ok(value) => value,
            Err(e) => { return Err(e); },
        };
        assert(input@.skip(at + 8)[0] == body[8] && input@.skip(at + 8)[1] == body[9]);
        assert(input@.skip(at + 10) =~= body.skip(10));
        let has_will = flag(flags, 4) == 1;
        let has_username = flag(flags, 128) == 1;
        let has_password = flag(flags, 64) == 1;
        match parse_fields(input, at + 10, has_will, has_username, has_password) {
            Err(e) => Err(e),
            Ok((client_id, last_will_topic, last_will_message, username, password, end)) => Ok(
                (
                    Connect {
                        client_id,
                        username,
                        password,
                        last_will_topic,
                        last_will_message,
                        keep_alive,
                        last_will_qos: (flags / 8) % 4,
                        clean_session: flag(flags, 2),
                        last_will_retain: flag(flags, 32),
                        last_will_flag: flag(flags, 4),
                    },
                    end,
                ),
            ),
        }
    }

    /// The bytes after the fixed header, where every string fits in its
    /// field.
    pub fn body_bytes(&self) -> (r: Option<Vec<u8>>)
        ensures
            r is Some <==> self@.spec_encodable(),
            r is Some ==> r->0@ == self@.spec_body(),
    {
        let has_will = self.last_will_flag > 0;
        let has_username = !self.username.as_str().is_empty();
        let has_password = !self.password.as_str().is_empty();
        if byte_len(self.client_id.as_str()) > MAX_STRING_LENGTH || (has_will && (
            byte_len(self.last_will_topic.as_str()) > MAX_STRING_LENGTH
                || byte_len(self.last_will_message.as_str()) > MAX_STRING_LENGTH))
            || byte_len(self.username.as_str()) > MAX_STRING_LENGTH || byte_len(self.password.as_str())
            > MAX_STRING_LENGTH {
            return None;
        }
        let mut body: Vec<u8> = Vec::new();
        body.push(0);
        body.push(4);
        body.push(77);
        body.push(81);
        body.push(84);
        body.push(84);
        body.push(4);
        body.push(self.get_flags());
        write_u16(&mut body, self.keep_alive);
        write_utf8_string(&mut body, self.client_id.as_str());
        if has_will {
            write_utf8_string(&mut body, self.last_will_topic.as_str());
            write_utf8_string(&mut body, self.last_will_message.as_str());
        }
        if has_username {
            write_utf8_string(&mut body, self.username.as_str());
        }
        if has_password {
            write_utf8_string(&mut body, self.password.as_str());
        }
        assert(body@ =~= self@.spec_body());
        Some(body)
    }
}

impl ReadablePacket<Connect> for Connect {
    open spec fn spec_read_from(input: Seq<u8>, fixed_header: FixedHeader) -> Result<
        (ConnectView, nat),
        PacketError,
    > {
        ConnectView::spec_read(input)
    }

    fn read_from(stream: &mut ByteReader, fixed_header: FixedHeader) -> (r: Result<
        Connect,
        PacketError,
    >) {
        assert(stream@.skip(0) =~= stream@);
        let parsed = Connect::parse(stream.as_slice(), 0);
        match parsed {
            Ok((packet, end)) => {
                stream.advance(end);
                Ok(packet)
            },
            Err(e) => Err(e),
        }
    }
}

impl WritablePacket for Connect {
    open spec fn spec_packet_type(&self) -> PacketType {
        PacketType::Connect
    }

    open spec fn spec_flags(&self) -> u8 {
        0
    }

    open spec fn spec_body(&self) -> Seq<u8> {
        self@.spec_body()
    }

    open spec fn spec_encodable(&self) -> bool {
        self@.spec_encodable()
    }

    fn write_to(&self, stream: &mut Vec<u8>) -> (r: Result<(), PacketError>) {
        match self.body_bytes() {
            Some(body) => {
                let written = write_frame(stream, PacketType::Connect, 0, &body);
                written
            },
            None => Err(PacketError::Unencodable),
        }
    }

    fn calculate_remaining_length(&self) -> (n: u32) {
        let mut length: usize = 12 + byte_len(self.client_id.as_str());
        if self.last_will_flag > 0 {
            length = length + 2 + byte_len(self.last_will_topic.as_str());
            length = length + 2 + byte_len(self.last_will_message.as_str());
        }
        if !self.username.as_str().is_empty() {
            length = length + 2 + byte_len(self.username.as_str());
        }
        if !self.password.as_str().is_empty() {
            length = length + 2 + byte_len(self.password.as_str());
        }
        length as u32
    }
}

/// A field that is there only where `present` holds, and is empty where it
/// is not, is read back as the text it was made from.
pub proof fn lemma_optional_field_round_trip(present: bool, text: Seq<char>, rest: Seq<u8>)
    requires
        present ==> encode_utf8(text).len() <= MAX_STRING_LENGTH,
        !present ==> text.len() == 0,
    ensures
        spec_read_optional_string(present, spec_optional_field(present, text) + rest) == Ok::<
            (Seq<char>, nat),
            PacketError,
        >((text, spec_optional_field(present, text).len())),
{
    if present {
        lemma_utf8_field_round_trip(text, rest);
    } else {
        assert(text =~= Seq::<char>::empty());
    }
}

/// Five fields that are each read back from the bytes that start with them
/// are read back together from the bytes that hold them one after the other.
proof fn lemma_fields_in_a_row(
    fields: ConnectFields,
    has_will: bool,
    has_username: bool,
    has_password: bool,
    parts: (Seq<u8>, Seq<u8>, Seq<u8>, Seq<u8>, Seq<u8>),
    rest: Seq<u8>,
)
    requires
        spec_read_utf8_string(parts.0 + (parts.1 + (parts.2 + (parts.3 + (parts.4 + rest)))))
            == Ok::<(Seq<char>, nat), PacketError>((fields.0, parts.0.len())),
        spec_read_optional_string(has_will, parts.1 + (parts.2 + (parts.3 + (parts.4 + rest))))
            == Ok::<(Seq<char>, nat), PacketError>((fields.1, parts.1.len())),
        spec_read_optional_string(has_will, parts.2 + (parts.3 + (parts.4 + rest))) == Ok::<
            (Seq<char>, nat),
            PacketError,
        >((fields.2, parts.2.len())),
        spec_read_optional_string(has_username, parts.3 + (parts.4 + rest)) == Ok::<
            (Seq<char>, nat),
            PacketError,
        >((fields.3, parts.3.len())),
        spec_read_optional_string(has_password, parts.4 + rest) == Ok::<
            (Seq<char>, nat),
            PacketError,
        >((fields.4, parts.4.len())),
    ensures
        spec_read_fields(
            parts.0 + parts.1 + parts.2 + parts.3 + parts.4 + rest,
            has_will,
            has_username,
            has_password,
        ) == Ok::<(ConnectFields, nat), PacketError>(
            (fields, (parts.0 + parts.1 + parts.2 + parts.3 + parts.4).len()),
        ),
{
    reveal(spec_read_fields);
    let tail4 = parts.4 + rest;
    let tail3 = parts.3 + tail4;
    let tail2 = parts.2 + tail3;
    let tail1 = parts.1 + tail2;
    let input = parts.0 + parts.1 + parts.2 + parts.3 + parts.4 + rest;
    assert(input =~= parts.0 + tail1);
    assert(input.skip(parts.0.len() as int) =~= tail1);
    assert(input.skip(parts.0.len() + parts.1.len() as int) =~= tail2);
    assert(input.skip(parts.0.len() + parts.1.len() + parts.2.len() as int) =~= tail3);
    assert(input.skip(parts.0.len() + parts.1.len() + parts.2.len() + parts.3.len() as int)
        =~= tail4);
}

/// The payload of a CONNECT that was written is read back as the five texts
/// it was made from.
pub proof fn lemma_fields_round_trip(
    fields: ConnectFields,
    has_will: bool,
    has_username: bool,
    has_password: bool,
    rest: Seq<u8>,
)
    requires
        encode_utf8(fields.0).len() <= MAX_STRING_LENGTH,
        has_will ==> encode_utf8(fields.1).len() <= MAX_STRING_LENGTH && encode_utf8(
            fields.2,
        ).len() <= MAX_STRING_LENGTH,
        !has_will ==> fields.1.len() == 0 && fields.2.len() == 0,
        has_username ==> encode_utf8(fields.3).len() <= MAX_STRING_LENGTH,
        !has_username ==> fields.3.len() == 0,
        has_password ==> encode_utf8(fields.4).len() <= MAX_STRING_LENGTH,
        !has_password ==> fields.4.len() == 0,
    ensures
        spec_read_fields(
            spec_utf8_field(fields.0) + spec_optional_field(has_will, fields.1)
                + spec_optional_field(has_will, fields.2) + spec_optional_field(
                has_username,
                fields.3,
            ) + spec_optional_field(has_password, fields.4) + rest,
            has_will,
            has_username,
            has_password,
        ) == Ok::<(ConnectFields, nat), PacketError>(
            (
                fields,
                (spec_utf8_field(fields.0) + spec_optional_field(has_will, fields.1)
                    + spec_optional_field(has_will, fields.2) + spec_optional_field(
                    has_username,
                    fields.3,
                ) + spec_optional_field(has_password, fields.4)).len(),
            ),
        ),
{
    let parts = (
        spec_utf8_field(fields.0),
        spec_optional_field(has_will, fields.1),
        spec_optional_field(has_will, fields.2),
        spec_optional_field(has_username, fields.3),
        spec_optional_field(has_password, fields.4),
    );
    let tail4 = parts.4 + rest;
    let tail3 = parts.3 + tail4;
    let tail2 = parts.2 + tail3;
    let tail1 = parts.1 + tail2;
    lemma_utf8_field_round_trip(fields.0, tail1);
    lemma_optional_field_round_trip(has_will, fields.1, tail2);
    lemma_optional_field_round_trip(has_will, fields.2, tail3);
    lemma_optional_field_round_trip(has_username, fields.3, tail4);
    lemma_optional_field_round_trip(has_password, fields.4, rest);
    lemma_fields_in_a_row(fields, has_will, has_username, has_password, parts, rest);
}

/// The connect flags hold each flag of a well-formed packet in its own bits.
pub proof fn lemma_flags_round_trip(packet: ConnectView)
    requires
        packet.clean_session <= 1,
        packet.last_will_flag <= 1,
        packet.last_will_retain <= 1,
        packet.last_will_qos <= 2,
    ensures
        spec_flag(packet.spec_flags(), 2) == packet.clean_session,
        spec_flag(packet.spec_flags(), 4) == packet.last_will_flag,
        spec_will_qos(packet.spec_flags()) == packet.last_will_qos,
        spec_flag(packet.spec_flags(), 32) == packet.last_will_retain,
        spec_flag(packet.spec_flags(), 64) == 1 <==> packet.password.len() > 0,
        spec_flag(packet.spec_flags(), 128) == 1 <==> packet.username.len() > 0,
{
    reveal(spec_flag);
    reveal(spec_will_qos);
}

/// A well-formed CONNECT that was written is read back as it was, whatever
/// follows it.
pub proof fn lemma_connect_round_trip(packet: ConnectView, rest: Seq<u8>)
    requires
        packet.spec_well_formed(),
    ensures
        ConnectView::spec_read(packet.spec_body() + rest) == Ok::<(ConnectView, nat), PacketError>(
            (packet, packet.spec_body().len()),
        ),
{
    let input = packet.spec_body() + rest;
    let head = spec_protocol_bytes() + seq![packet.spec_flags()] + spec_u16_bytes(
        packet.keep_alive,
    );
    let has_will = packet.last_will_flag > 0;
    let has_username = packet.username.len() > 0;
    let has_password = packet.password.len() > 0;
    let fields = (
        packet.client_id,
        packet.last_will_topic,
        packet.last_will_message,
        packet.username,
        packet.password,
    );
    let payload = spec_utf8_field(fields.0) + spec_optional_field(has_will, fields.1)
        + spec_optional_field(has_will, fields.2) + spec_optional_field(has_username, fields.3)
        + spec_optional_field(has_password, fields.4);
    assert(head.len() == 10);
    assert(packet.spec_body() =~= head + payload);
    assert(input =~= head + (payload + rest));
    assert(input[7] == head[7]);
    assert(input[8] == head[8]);
    assert(input[9] == head[9]);
    assert(input.skip(10) =~= payload + rest);
    lemma_flags_round_trip(packet);
    lemma_fields_round_trip(fields, has_will, has_username, has_password, rest);
    assert(payload + rest =~= spec_utf8_field(fields.0) + spec_optional_field(has_will, fields.1)
        + spec_optional_field(has_will, fields.2) + spec_optional_field(has_username, fields.3)
        + spec_optional_field(has_password, fields.4) + rest);
}

} // verus!
