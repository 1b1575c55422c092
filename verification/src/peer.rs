use vstd::prelude::*;

use crate::codec::{be_u16_value, copy_to_array, u16_from_be};

verus! {

/// A peer as the tracker lists it: an IPv4 address (four octets) and a port.
#[derive(Debug, Clone)]
pub struct Peer {
    pub ip: [u8; 4],
    pub port: u16,
}

/// `std::io::Error::new(ErrorKind::InvalidData, message)`: an invalid-data I/O
/// error carrying `message`. Nothing is stated of the opaque error value.
#[verifier::external_body]
fn invalid_data_error(message: &str) -> (r: std::io::Error) {
    std::io::Error::new(std::io::ErrorKind::InvalidData, message)
}

/// The peer that the six bytes of `bytes` starting at `start` describe.
pub open spec fn compact_peer_at(bytes: Seq<u8>, start: int) -> (Seq<u8>, u16) {
    (bytes.subrange(start, start + 4), be_u16_value(bytes[start + 4], bytes[start + 5]))
}

/// Parses the compact peer list: six bytes per peer, four of address and two of
/// big-endian port.
pub fn parse_compact_peers(bytes: &[u8]) -> (r: Result<Vec<Peer>, std::io::Error>)
    ensures
        r is Err <==> bytes@.len() % 6 != 0,
        r matches Ok(peers) ==> {
            &&& peers@.len() * 6 == bytes@.len()
            &&& forall|k: int|
                0 <= k < peers@.len() ==> (#[trigger] peers@[k]).ip@ == compact_peer_at(
                    bytes@,
                    6 * k,
                ).0 && peers@[k].port == compact_peer_at(bytes@, 6 * k).1
        },
{
    if bytes.len() % 6 != 0 {
        return Err(invalid_data_error("Compact peer list length is not a multiple of 6"));
    }
    let mut peers: Vec<Peer> = Vec::new();
    let mut start: usize = 0;
    while start < bytes.len()
        invariant
            bytes@.len() % 6 == 0,
            start % 6 == 0,
            start <= bytes@.len(),
            peers@.len() * 6 == start,
            forall|k: int|
                0 <= k < peers@.len() ==> (#[trigger] peers@[k]).ip@ == compact_peer_at(
                    bytes@,
                    6 * k,
                ).0 && peers@[k].port == compact_peer_at(bytes@, 6 * k).1,
        decreases bytes@.len() - start,
    {
        let ip = copy_to_array::<4>(bytes, start);
        let port = u16_from_be(bytes[start + 4], bytes[start + 5]);
        peers.push(Peer { ip: ip, port: port });
        start = start + 6;
    }
    Ok(peers)
}

} // verus!
