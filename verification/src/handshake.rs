use vstd::prelude::*;
use vstd::string::to_string_from_display_ensures;

use crate::codec::{bytes_equal, copy_to_array};

verus! {

/// The length of the protocol string "BitTorrent protocol".
pub const PSTR_LEN: u8 = 19;

/// The fixed total length of the handshake message.
pub const HANDSHAKE_LEN: usize = 68;

/// The bytes of "BitTorrent protocol".
pub open spec fn protocol_bytes() -> Seq<u8> {
    seq![66u8, 105, 116, 84, 111, 114, 114, 101, 110, 116, 32, 112, 114, 111, 116, 111, 99, 111, 108]
}

/// The protocol string "BitTorrent protocol" as bytes.
pub fn protocol_string() -> (r: [u8; 19])
    ensures
        r@ == protocol_bytes(),
{
    let r: [u8; 19] = [66u8, 105, 116, 84, 111, 114, 114, 101, 110, 116, 32, 112, 114, 111, 116, 111, 99, 111, 108];
    assert(r@ =~= protocol_bytes());
    r
}

/// The 68-byte BitTorrent handshake message.
#[derive(Debug, Clone)]
pub struct Handshake {
    pub pstrlen: u8,
    pub pstr: [u8; 19],
    pub reserved: [u8; 8],
    pub info_hash: [u8; 20],
    pub peer_id: [u8; 20],
}

/// The wire bytes of a handshake: its fields one after another.
pub open spec fn handshake_bytes(h: Handshake) -> Seq<u8> {
    seq![h.pstrlen] + h.pstr@ + h.reserved@ + h.info_hash@ + h.peer_id@
}

/// Whether 68 received bytes open with the BitTorrent protocol string and its length.
pub open spec fn protocol_matches(buffer: Seq<u8>) -> bool {
    buffer[0] == PSTR_LEN && buffer.subrange(1, 20) == protocol_bytes()
}

/// What went wrong in a handshake.
#[derive(Debug)]
pub enum HandshakeError {
    Io(std::io::Error),
    InvalidLength,
    ProtocolMismatch,
    InfoHashMismatch,
}

impl HandshakeError {
    /// The human-readable description of the error.
    pub fn to_string(&self) -> (r: String)
        ensures
            match self {
                HandshakeError::Io(e) => exists|t: String|
                    to_string_from_display_ensures::<std::io::Error>(e, t) && r@
                        == "I/O error during handshake: "@ + t@,
                HandshakeError::InvalidLength => r@
                    == "Received handshake with incorrect length (must be 68 bytes)"@,
                HandshakeError::ProtocolMismatch => r@
                    == "Peer did not respond with 'BitTorrent protocol'"@,
                HandshakeError::InfoHashMismatch => r@
                    == "Peer's info_hash does not match the torrent's info_hash"@,
            },
    {
        match self {
            HandshakeError::Io(err) => {
                let t = err.to_string();
                let mut s = String::from_str("I/O error during handshake: ");
                s.append(t.as_str());
                s
            },
            HandshakeError::InvalidLength => String::from_str(
                "Received handshake with incorrect length (must be 68 bytes)",
            ),
            HandshakeError::ProtocolMismatch => String::from_str(
                "Peer did not respond with 'BitTorrent protocol'",
            ),
            HandshakeError::InfoHashMismatch => String::from_str(
                "Peer's info_hash does not match the torrent's info_hash",
            ),
        }
    }
}

impl From<std::io::Error> for HandshakeError {
    fn from(err: std::io::Error) -> (r: HandshakeError) {
        HandshakeError::Io(err)
    }
}

impl vstd::std_specs::convert::FromSpecImpl<std::io::Error> for HandshakeError {
    open spec fn obeys_from_spec() -> bool {
        true
    }

    open spec fn from_spec(v: std::io::Error) -> HandshakeError {
        HandshakeError::Io(v)
    }
}

impl Handshake {
    /// Our handshake for a torrent: protocol string, zero reserved bytes, the
    /// info hash and our peer id.
    pub fn new(info_hash: [u8; 20], client_peer_id: [u8; 20]) -> (r: Self)
        ensures
            r.pstrlen == PSTR_LEN,
            r.pstr@ == protocol_bytes(),
            r.reserved@ == Seq::new(8, |i: int| 0u8),
            r.info_hash == info_hash,
            r.peer_id == client_peer_id,
    {
        let r = Handshake {
            pstrlen: PSTR_LEN,
            pstr: protocol_string(),
            reserved: [0u8; 8],
            info_hash: info_hash,
            peer_id: client_peer_id,
        };
        assert(r.reserved@ =~= Seq::new(8, |i: int| 0u8));
        r
    }

    /// The 68 wire bytes of the handshake.
    pub fn to_bytes(&self) -> (r: [u8; 68])
        ensures
            r@ == handshake_bytes(*self),
            r@[0] == self.pstrlen,
            r@.subrange(1, 20) == self.pstr@,
            r@.subrange(20, 28) == self.reserved@,
            r@.subrange(28, 48) == self.info_hash@,
            r@.subrange(48, 68) == self.peer_id@,
    {
        proof {
            lemma_handshake_layout(*self);
        }
        let mut buf: Vec<u8> = Vec::with_capacity(HANDSHAKE_LEN);
        buf.push(self.pstrlen);
        buf.extend_from_slice(self.pstr.as_slice());
        buf.extend_from_slice(self.reserved.as_slice());
        buf.extend_from_slice(self.info_hash.as_slice());
        buf.extend_from_slice(self.peer_id.as_slice());
        assert(buf@ =~= handshake_bytes(*self));
        let r = copy_to_array::<68>(buf.as_slice(), 0);
        assert(r@ =~= handshake_bytes(*self));
        r
    }

    /// Reads a peer's 68-byte handshake and checks the protocol string and that
    /// the info hash is the one expected.
    pub fn from_bytes(buffer: [u8; 68], expected_info_hash: [u8; 20]) -> (r: Result<
        Self,
        HandshakeError,
    >)
        ensures
            !protocol_matches(buffer@) ==> r matches Err(HandshakeError::ProtocolMismatch),
            protocol_matches(buffer@) && buffer@.subrange(28, 48) != expected_info_hash@
                ==> r matches Err(HandshakeError::InfoHashMismatch),
            protocol_matches(buffer@) && buffer@.subrange(28, 48) == expected_info_hash@ ==> (
            r matches Ok(h) && handshake_bytes(h) == buffer@),
            r matches Ok(h) ==> {
                &&& buffer@[0] == PSTR_LEN
                &&& buffer@.subrange(1, 20) == protocol_bytes()
                &&& buffer@.subrange(28, 48) == expected_info_hash@
                &&& h.pstrlen == buffer@[0]
                &&& h.pstr@ == buffer@.subrange(1, 20)
                &&& h.reserved@ == buffer@.subrange(20, 28)
                &&& h.info_hash@ == buffer@.subrange(28, 48)
                &&& h.peer_id@ == buffer@.subrange(48, 68)
            },
    {
        let pstrlen = buffer[0];
        if pstrlen != PSTR_LEN {
            return Err(HandshakeError::ProtocolMismatch);
        }
        let pstr = copy_to_array::<19>(buffer.as_slice(), 1);
        let expected = protocol_string();
        if !bytes_equal(pstr.as_slice(), expected.as_slice()) {
            return Err(HandshakeError::ProtocolMismatch);
        }
        let reserved = copy_to_array::<8>(buffer.as_slice(), 20);
        let info_hash = copy_to_array::<20>(buffer.as_slice(), 28);
        if !bytes_equal(info_hash.as_slice(), expected_info_hash.as_slice()) {
            return Err(HandshakeError::InfoHashMismatch);
        }
        let peer_id = copy_to_array::<20>(buffer.as_slice(), 48);
        let h = Handshake { pstrlen, pstr, reserved, info_hash, peer_id };
        assert(handshake_bytes(h) =~= buffer@);
        proof {
            lemma_handshake_layout(h);
        }
        Ok(h)
    }
}

/// Where each field of a handshake lies in its 68 wire bytes: the length byte
/// first, then the protocol string (bytes 1 to 19), the reserved bytes (20 to
/// 27), the info hash (28 to 47) and the peer id (48 to 67), each as it is.
pub proof fn lemma_handshake_layout(h: Handshake)
    ensures
        handshake_bytes(h).len() == 68,
        handshake_bytes(h)[0] == h.pstrlen,
        handshake_bytes(h).subrange(1, 20) == h.pstr@,
        handshake_bytes(h).subrange(20, 28) == h.reserved@,
        handshake_bytes(h).subrange(28, 48) == h.info_hash@,
        handshake_bytes(h).subrange(48, 68) == h.peer_id@,
        forall|i: int| 0 <= i < 20 ==> #[trigger] handshake_bytes(h)[48 + i] == h.peer_id[i],
        forall|i: int| 0 <= i < 20 ==> #[trigger] handshake_bytes(h)[28 + i] == h.info_hash[i],
{
    let b = handshake_bytes(h);
    assert(b.subrange(1, 20) =~= h.pstr@);
    assert(b.subrange(20, 28) =~= h.reserved@);
    assert(b.subrange(28, 48) =~= h.info_hash@);
    assert(b.subrange(48, 68) =~= h.peer_id@);
}

/// What our handshake puts on the wire is accepted by a peer expecting the same
/// info hash, and read back field for field.
pub proof fn lemma_handshake_roundtrip(h: Handshake, expected_info_hash: [u8; 20])
    requires
        h.pstrlen == PSTR_LEN,
        h.pstr@ == protocol_bytes(),
    ensures
        handshake_bytes(h).len() == HANDSHAKE_LEN,
        protocol_matches(handshake_bytes(h)),
        (handshake_bytes(h).subrange(28, 48) == expected_info_hash@) == (h.info_hash@
            == expected_info_hash@),
{
    let b = handshake_bytes(h);
    assert(b.subrange(1, 20) =~= h.pstr@);
    assert(b.subrange(28, 48) =~= h.info_hash@);
}

} // verus!
