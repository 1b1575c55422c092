use vstd::prelude::*;
use vstd::string::to_string_from_display_ensures;

use crate::codec::{
    be_u32_bytes, be_u32_value, copy_subrange, lemma_be_u32_bytes_of_value,
    lemma_be_u32_roundtrip, u32_from_be, u32_to_be,
};
use crate::text::{decimal, push_decimal};

verus! {

/// What can go wrong when decoding a peer wire message.
#[derive(Debug)]
pub enum MessageError {
    InvalidLength,
    IncompleteData,
    InvalidMessageId(u8),
    IoError(std::io::Error),
    InvalidPayload,
}

impl From<std::io::Error> for MessageError {
    fn from(value: std::io::Error) -> (r: MessageError) {
        MessageError::IoError(value)
    }
}

impl vstd::std_specs::convert::FromSpecImpl<std::io::Error> for MessageError {
    open spec fn obeys_from_spec() -> bool {
        true
    }

    open spec fn from_spec(v: std::io::Error) -> MessageError {
        MessageError::IoError(v)
    }
}

impl MessageError {
    /// The human-readable description of the error.
    pub fn to_string(&self) -> (r: String)
        ensures
            match self {
                MessageError::InvalidLength => r@ == "Invalid message length (too short)"@,
                MessageError::IncompleteData => r@ == "Not enogh data for declared length"@,
                MessageError::InvalidMessageId(id) => r@ == "Invalid message ID: "@ + decimal(
                    *id as nat,
                ),
                MessageError::IoError(e) => exists|t: String|
                    to_string_from_display_ensures::<std::io::Error>(e, t) && r@
                        == "Error while reading message from TcpStream: "@ + t@,
                MessageError::InvalidPayload => r@ == "Invalid payload (too short)"@,
            },
    {
        match self {
            MessageError::InvalidLength => String::from_str("Invalid message length (too short)"),
            MessageError::IncompleteData => String::from_str("Not enogh data for declared length"),
            MessageError::InvalidMessageId(id) => {
                let mut s = String::from_str("Invalid message ID: ");
                push_decimal(&mut s, *id as u64);
                s
            },
            MessageError::IoError(e) => {
                let t = e.to_string();
                let mut s = String::from_str("Error while reading message from TcpStream: ");
                s.append(t.as_str());
                s
            },
            MessageError::InvalidPayload => String::from_str("Invalid payload (too short)"),
        }
    }
}

/// The kinds of peer wire messages, with their one-byte codes 0 to 8.
#[derive(Debug, Clone, Copy, PartialEq, Eq, Structural)]
pub enum MessageId {
    Choke,
    Unchoke,
    Interested,
    NotInterested,
    Have,
    Bitfield,
    Request,
    Piece,
    Cancel,
}

/// The wire code of a message kind.
pub open spec fn id_code(id: MessageId) -> u8 {
    match id {
        MessageId::Choke => 0,
        MessageId::Unchoke => 1,
        MessageId::Interested => 2,
        MessageId::NotInterested => 3,
        MessageId::Have => 4,
        MessageId::Bitfield => 5,
        MessageId::Request => 6,
        MessageId::Piece => 7,
        MessageId::Cancel => 8,
    }
}

/// The message kind of a wire code, if the code names one.
pub open spec fn id_from_code(code: u8) -> Option<MessageId> {
    if code == 0 {
        Some(MessageId::Choke)
    } else if code == 1 {
        Some(MessageId::Unchoke)
    } else if code == 2 {
        Some(MessageId::Interested)
    } else if code == 3 {
        Some(MessageId::NotInterested)
    } else if code == 4 {
        Some(MessageId::Have)
    } else if code == 5 {
        Some(MessageId::Bitfield)
    } else if code == 6 {
        Some(MessageId::Request)
    } else if code == 7 {
        Some(MessageId::Piece)
    } else if code == 8 {
        Some(MessageId::Cancel)
    } else {
        None
    }
}

/// Whether the decoder keeps the bytes after the code for this kind of message.
pub open spec fn carries_payload(id: MessageId) -> bool {
    match id {
        MessageId::Choke | MessageId::Unchoke | MessageId::Interested
        | MessageId::NotInterested => false,
        _ => true,
    }
}

impl MessageId {
    /// The one-byte wire code.
    pub fn code(&self) -> (r: u8)
        ensures
            r == id_code(*self),
    {
        match self {
            MessageId::Choke => 0,
            MessageId::Unchoke => 1,
            MessageId::Interested => 2,
            MessageId::NotInterested => 3,
            MessageId::Have => 4,
            MessageId::Bitfield => 5,
            MessageId::Request => 6,
            MessageId::Piece => 7,
            MessageId::Cancel => 8,
        }
    }

    /// The message kind of a wire code; an unknown code is `InvalidMessageId`.
    pub fn from_u8(value: u8) -> (r: Result<MessageId, MessageError>)
        ensures
            r == (match id_from_code(value) {
                Some(id) => Ok(id),
                None => Err(MessageError::InvalidMessageId(value)),
            }),
    {
        match value {
            0 => Ok(Self::Choke),
            1 => Ok(Self::Unchoke),
            2 => Ok(Self::Interested),
            3 => Ok(Self::NotInterested),
            4 => Ok(Self::Have),
            5 => Ok(Self::Bitfield),
            6 => Ok(Self::Request),
            7 => Ok(Self::Piece),
            8 => Ok(Self::Cancel),
            other => Err(MessageError::InvalidMessageId(other)),
        }
    }
}

impl TryFrom<u8> for MessageId {
    type Error = MessageError;

    fn try_from(value: u8) -> (r: Result<Self, Self::Error>) {
        Self::from_u8(value)
    }
}

impl vstd::std_specs::convert::TryFromSpecImpl<u8> for MessageId {
    open spec fn obeys_try_from_spec() -> bool {
        true
    }

    open spec fn try_from_spec(v: u8) -> Result<Self, MessageError> {
        match id_from_code(v) {
            Some(id) => Ok(id),
            None => Err(MessageError::InvalidMessageId(v)),
        }
    }
}

/// The wire bytes of a message: keep-alive is four zero bytes; otherwise a
/// four-byte big-endian length (code plus payload), the code, and the payload.
pub open spec fn encode(id: Option<MessageId>, payload: Seq<u8>) -> Seq<u8> {
    match id {
        None => seq![0u8, 0u8, 0u8, 0u8],
        Some(i) => be_u32_bytes((1 + payload.len()) as u32) + seq![id_code(i)] + payload,
    }
}

/// What decoding `data` as one whole message gives.
pub open spec fn decode(data: Seq<u8>) -> Result<(Option<MessageId>, Seq<u8>), MessageError> {
    if data.len() < 4 {
        Err(MessageError::InvalidLength)
    } else {
        let len = be_u32_value(data);
        if len == 0 {
            Ok((None, Seq::empty()))
        } else if data.len() != 4 + len {
            Err(MessageError::IncompleteData)
        } else {
            match id_from_code(data[4]) {
                None => Err(MessageError::InvalidMessageId(data[4])),
                Some(id) => Ok(
                    (Some(id), if carries_payload(id) {
                        data.skip(5)
                    } else {
                        Seq::empty()
                    }),
                ),
            }
        }
    }
}

/// Whether a message survives encoding: a keep-alive carries no payload, a
/// kind whose payload the decoder drops carries none either, and the length
/// prefix fits in 32 bits.
pub open spec fn well_formed(id: Option<MessageId>, payload: Seq<u8>) -> bool {
    match id {
        None => payload.len() == 0,
        Some(i) => (!carries_payload(i) ==> payload.len() == 0) && 1 + payload.len()
            <= u32::MAX,
    }
}

/// Decoding an encoded well-formed message gives the same message back.
pub proof fn lemma_decode_encode(id: Option<MessageId>, payload: Seq<u8>)
    requires
        well_formed(id, payload),
    ensures
        decode(encode(id, payload)) == Ok::<_, MessageError>((id, payload)),
{
    let data = encode(id, payload);
    match id {
        None => {
            assert(be_u32_value(data) == 0);
            assert(payload =~= Seq::<u8>::empty());
        },
        Some(i) => {
            let n = (1 + payload.len()) as u32;
            lemma_be_u32_roundtrip(n);
            assert(data.take(4) =~= be_u32_bytes(n));
            assert(be_u32_value(data) == be_u32_value(data.take(4)));
            assert(data[4] == id_code(i));
            if carries_payload(i) {
                assert(data.skip(5) =~= payload);
            } else {
                assert(payload =~= Seq::<u8>::empty());
            }
        },
    }
}

/// Bytes that decode to a message and hold exactly what its length prefix
/// announces are the encoding of that message.
pub proof fn lemma_encode_decode(data: Seq<u8>)
    requires
        decode(data) is Ok,
        data.len() == 4 + (match decode(data) {
            Ok((Some(_), p)) => 1 + p.len(),
            _ => 0,
        }),
    ensures
        decode(data) matches Ok((id, p)) && encode(id, p) == data,
{
    let v = be_u32_value(data);
    lemma_be_u32_bytes_of_value(data.take(4));
    assert(be_u32_value(data.take(4)) == v);
    match decode(data) {
        Ok((None, p)) => {
            assert(data =~= data.take(4));
            assert(be_u32_bytes(0) =~= seq![0u8, 0u8, 0u8, 0u8]);
            assert(encode(None, p) =~= data);
        },
        Ok((Some(i), p)) => {
            assert(data.len() == 4 + v);
            assert(v == 1 + p.len());
            assert(data =~= data.take(4) + seq![data[4]] + data.skip(5));
            assert(encode(Some(i), p) =~= data);
        },
        _ => {},
    }
}

/// The wire codes: a well-formed frame with code 0 to 8 decodes to the kind of
/// that code; for codes 4 to 8 (Have, Bitfield, Request, Piece, Cancel) the
/// payload is every byte after the code, and for codes 0 to 3 (Choke, Unchoke,
/// Interested, NotInterested) it is empty. Codes above 8 are rejected.
pub proof fn lemma_frame_decodes_by_code(code: u8, p: Seq<u8>)
    requires
        1 + p.len() <= u32::MAX,
    ensures
        ({
            let frame = be_u32_bytes((1 + p.len()) as u32) + seq![code] + p;
            &&& code == 0 ==> decode(frame) == Ok::<_, MessageError>((Some(MessageId::Choke), Seq::<u8>::empty()))
            &&& code == 1 ==> decode(frame) == Ok::<_, MessageError>((Some(MessageId::Unchoke), Seq::<u8>::empty()))
            &&& code == 2 ==> decode(frame) == Ok::<_, MessageError>((Some(MessageId::Interested), Seq::<u8>::empty()))
            &&& code == 3 ==> decode(frame) == Ok::<_, MessageError>((Some(MessageId::NotInterested), Seq::<u8>::empty()))
            &&& code == 4 ==> decode(frame) == Ok::<_, MessageError>((Some(MessageId::Have), p))
            &&& code == 5 ==> decode(frame) == Ok::<_, MessageError>((Some(MessageId::Bitfield), p))
            &&& code == 6 ==> decode(frame) == Ok::<_, MessageError>((Some(MessageId::Request), p))
            &&& code == 7 ==> decode(frame) == Ok::<_, MessageError>((Some(MessageId::Piece), p))
            &&& code == 8 ==> decode(frame) == Ok::<_, MessageError>((Some(MessageId::Cancel), p))
            &&& code > 8 ==> decode(frame) == Err::<(Option<MessageId>, Seq<u8>), _>(MessageError::InvalidMessageId(code))
        }),
{
    let n = (1 + p.len()) as u32;
    let frame = be_u32_bytes(n) + seq![code] + p;
    lemma_be_u32_roundtrip(n);
    assert(frame.take(4) =~= be_u32_bytes(n));
    assert(be_u32_value(frame) == be_u32_value(frame.take(4)));
    assert(frame[4] == code);
    assert(frame.skip(5) =~= p);
}

/// A piece payload built from an index, an offset and a block splits back into them.
pub proof fn lemma_piece_payload_roundtrip(index: u32, begin: u32, block: Seq<u8>)
    ensures
        ({
            let payload = be_u32_bytes(index) + be_u32_bytes(begin) + block;
            &&& payload.len() >= 8
            &&& be_u32_value(payload) == index
            &&& be_u32_value(payload.skip(4)) == begin
            &&& payload.skip(8) == block
        }),
{
    let payload = be_u32_bytes(index) + be_u32_bytes(begin) + block;
    lemma_be_u32_roundtrip(index);
    lemma_be_u32_roundtrip(begin);
    assert(payload.take(4) =~= be_u32_bytes(index));
    assert(payload.skip(4).take(4) =~= be_u32_bytes(begin));
    assert(be_u32_value(payload) == be_u32_value(payload.take(4)));
    assert(be_u32_value(payload.skip(4)) == be_u32_value(payload.skip(4).take(4)));
    assert(payload.skip(8) =~= block);
}

/// One peer wire message; `id == None` is a keep-alive.
#[derive(Debug, Clone, PartialEq, Eq)]
pub struct Message {
    pub id: Option<MessageId>,
    pub payload: Vec<u8>,
}

impl Message {
    /// Encodes the message for the wire.
    pub fn to_bytes(&self) -> (r: Vec<u8>)
        requires
            self.payload@.len() + 5 <= usize::MAX,
        ensures
            r@ == encode(self.id, self.payload@),
    {
        match self.id {
            None => {
                let r = vec![0u8, 0u8, 0u8, 0u8];
                assert(r@ =~= encode(self.id, self.payload@));
                r
            },
            Some(id) => {
                let lenght = 1 + self.payload.len();
                let mut buf: Vec<u8> = Vec::with_capacity(4 + lenght);
                let len_bytes = u32_to_be(lenght as u32);
                buf.extend_from_slice(len_bytes.as_slice());
                buf.push(id.code());
                buf.extend_from_slice(self.payload.as_slice());
                assert(buf@ =~= encode(self.id, self.payload@));
                buf
            },
        }
    }

    /// Decodes one whole message, length prefix included.
    pub fn from_bytes(data: &[u8]) -> (r: Result<Self, MessageError>)
        ensures
            match r {
                Ok(m) => decode(data@) == Ok::<_, MessageError>((m.id, m.payload@)),
                Err(e) => decode(data@) == Err::<(Option<MessageId>, Seq<u8>), _>(e),
            },
    {
        if data.len() < 4 {
            return Err(MessageError::InvalidLength);
        }
        let msg_len = u32_from_be(data[0], data[1], data[2], data[3]);
        assert(seq![data@[0], data@[1], data@[2], data@[3]] =~= data@.take(4));
        assert(be_u32_value(data@.take(4)) == be_u32_value(data@));
        if msg_len == 0 {
            let r = Message { id: None, payload: Vec::new() };
            assert(r.payload@ =~= Seq::<u8>::empty());
            return Ok(r);
        }
        if data.len() - 4 != msg_len as usize {
            return Err(MessageError::IncompleteData);
        }
        let id = match MessageId::from_u8(data[4]) {
            Ok(id) => id,
            Err(e) => return Err(e),
        };
        let payload = match id {
            MessageId::Choke
            | MessageId::Unchoke
            | MessageId::Interested
            | MessageId::NotInterested => Vec::new(),
            MessageId::Have
            | MessageId::Bitfield
            | MessageId::Request
            | MessageId::Piece
            | MessageId::Cancel => copy_subrange(data, 5, data.len()),
        };
        assert(carries_payload(id) ==> payload@ =~= data@.skip(5));
        assert(!carries_payload(id) ==> payload@ =~= Seq::<u8>::empty());
        Ok(Message { id: Some(id), payload })
    }

    /// The body length that a four-byte length prefix read off a stream announces.
    pub fn body_length(header: [u8; 4]) -> (r: u32)
        ensures
            r == be_u32_value(header@),
    {
        u32_from_be(header[0], header[1], header[2], header[3])
    }

    /// Decodes a message read off a stream as its length prefix and the body read
    /// after it; a zero length is a keep-alive whatever the body.
    pub fn from_frame(header: [u8; 4], body: &[u8]) -> (r: Result<Self, MessageError>)
        ensures
            match r {
                Ok(m) => decode(header@ + body@) == Ok::<_, MessageError>((m.id, m.payload@)),
                Err(e) => decode(header@ + body@) == Err::<(Option<MessageId>, Seq<u8>), _>(e),
            },
    {
        let mut full_msg: Vec<u8> = Vec::new();
        full_msg.extend_from_slice(header.as_slice());
        full_msg.extend_from_slice(body);
        assert(full_msg@ =~= header@ + body@);
        Message::from_bytes(full_msg.as_slice())
    }

    /// The `Interested` message.
    pub fn interested() -> (r: Message)
        ensures
            r.id == Some(MessageId::Interested),
            r.payload@ == Seq::<u8>::empty(),
    {
        Message { id: Some(MessageId::Interested), payload: Vec::new() }
    }

    /// The keep-alive message.
    pub fn keep_alive() -> (r: Message)
        ensures
            r.id == None::<MessageId>,
            r.payload@ == Seq::<u8>::empty(),
    {
        Message { id: None, payload: vec![] }
    }

    /// A `Request` for `length` bytes at offset `begin` of piece `index`.
    pub fn request(index: u32, begin: u32, length: u32) -> (r: Message)
        ensures
            r.id == Some(MessageId::Request),
            r.payload@ == be_u32_bytes(index) + be_u32_bytes(begin) + be_u32_bytes(length),
    {
        let id = MessageId::Request;
        let mut payload: Vec<u8> = Vec::with_capacity(12);
        payload.extend_from_slice(u32_to_be(index).as_slice());
        payload.extend_from_slice(u32_to_be(begin).as_slice());
        payload.extend_from_slice(u32_to_be(length).as_slice());
        Message { id: Some(id), payload }
    }

    /// A `Have` for piece `piece_index`.
    pub fn have(piece_index: u32) -> (r: Message)
        ensures
            r.id == Some(MessageId::Have),
            r.payload@ == be_u32_bytes(piece_index),
    {
        let id = MessageId::Have;
        let bytes = u32_to_be(piece_index);
        let mut payload: Vec<u8> = Vec::new();
        payload.extend_from_slice(bytes.as_slice());
        Message { id: Some(id), payload: payload }
    }

    /// Splits a `Piece` payload into piece index, offset and block.
    pub fn parse_piece_payload(payload: &[u8]) -> (r: Result<(u32, u32, Vec<u8>), MessageError>)
        ensures
            payload@.len() < 8 ==> r matches Err(MessageError::InvalidPayload),
            payload@.len() >= 8 ==> (r matches Ok((index, begin, block)) && index == be_u32_value(
                payload@,
            ) && begin == be_u32_value(payload@.skip(4)) && block@ == payload@.skip(8)),
    {
        if payload.len() < 8 {
            return Err(MessageError::InvalidPayload);
        }
        let index = u32_from_be(payload[0], payload[1], payload[2], payload[3]);
        let begin = u32_from_be(payload[4], payload[5], payload[6], payload[7]);
        let block = copy_subrange(payload, 8, payload.len());
        assert(block@ =~= payload@.skip(8));
        Ok((index, begin, block))
    }
}

} // verus!
