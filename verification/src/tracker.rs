use vstd::prelude::*;

use crate::text::{
    all_digits, decimal, decimal_value, hex_digit, hex_digit_char, lemma_decimal_spells_number,
    push_char, push_decimal,
};
use crate::torrent::VerifiedTorrent;

verus! {

/// The tracker's answer to an announce.
pub struct TrackerResponse {
    /// The interval in seconds to wait between requests.
    pub interval: i64,
    /// The number of seeders.
    pub complete: Option<i64>,
    /// The number of leechers.
    pub incomplete: Option<i64>,
    /// The peers in the compact format: six bytes per peer.
    pub peers: Vec<u8>,
}

/// `%XX` for every byte, with upper-case hexadecimal digits.
pub open spec fn percent_encoding(data: Seq<u8>) -> Seq<char>
    decreases data.len(),
{
    if data.len() == 0 {
        Seq::empty()
    } else {
        let b = data.last();
        percent_encoding(data.drop_last()) + seq![
            '%',
            hex_digit_char((b / 16) as nat),
            hex_digit_char((b % 16) as nat),
        ]
    }
}

/// Percent-encodes every byte of `data` as `%XX`.
pub fn percent_encode_bytes(data: &[u8]) -> (r: String)
    ensures
        r@ == percent_encoding(data@),
{
    let mut encoded = String::new();
    let mut i: usize = 0;
    while i < data.len()
        invariant
            i <= data@.len(),
            encoded@ == percent_encoding(data@.take(i as int)),
        decreases data@.len() - i,
    {
        let byte = data[i];
        push_char(&mut encoded, '%');
        push_char(&mut encoded, hex_digit(byte / 16));
        push_char(&mut encoded, hex_digit(byte % 16));
        proof {
            let t = data@.take(i + 1);
            assert(t.drop_last() =~= data@.take(i as int));
            assert(t.last() == byte);
            assert(encoded@ =~= percent_encoding(t));
        }
        i = i + 1;
    }
    assert(data@.take(data@.len() as int) =~= data@);
    encoded
}

/// The announce URL for a torrent and our peer id.
pub open spec fn tracker_url(
    announce: Seq<char>,
    info_hash: Seq<u8>,
    peer_id: Seq<u8>,
    total_size: nat,
) -> Seq<char> {
    announce + "?info_hash="@ + percent_encoding(info_hash) + "&peer_id="@ + percent_encoding(
        peer_id,
    ) + "&port=6881&uploaded=0&downloaded=0&left="@ + decimal(total_size)
        + "&compact=1&event=started"@
}

/// Builds the tracker announce URL: the info hash and peer id percent-encoded,
/// port 6881, nothing up- or downloaded, the whole size left, compact peers,
/// event `started`.
pub fn build_tracker_url(torrent: &VerifiedTorrent, peer_id: &[u8; 20]) -> (r: String)
    ensures
        r@ == tracker_url(
            torrent.announce@,
            torrent.info_hash@,
            peer_id@,
            torrent.total_size as nat,
        ),
        exists|k: int|
            6 <= k <= r@.len() - 24 && r@.subrange(k - 6, k) == "&left="@ && all_digits(
                #[trigger] r@.subrange(k, r@.len() - 24),
            ) && decimal_value(r@.subrange(k, r@.len() - 24)) == torrent.total_size
                && r@.subrange(r@.len() - 24, r@.len() as int) == "&compact=1&event=started"@,
{
    proof {
        lemma_tracker_url_reports_size(
            torrent.announce@,
            torrent.info_hash@,
            peer_id@,
            torrent.total_size as nat,
        );
        reveal_strlit("&compact=1&event=started");
    }
    let info_hash = torrent.info_hash;
    let total_size = torrent.total_size;
    let info_hash_encoded = percent_encode_bytes(info_hash.as_slice());
    let peer_id_encoded = percent_encode_bytes(peer_id.as_slice());
    let mut url = torrent.announce.clone();
    url.append("?info_hash=");
    url.append(info_hash_encoded.as_str());
    url.append("&peer_id=");
    url.append(peer_id_encoded.as_str());
    url.append("&port=6881&uploaded=0&downloaded=0&left=");
    push_decimal(&mut url, total_size);
    url.append("&compact=1&event=started");
    url
}

/// The tracker URL reports the torrent's whole size: it ends with
/// `&compact=1&event=started`, and the text between the last `&left=` before that
/// tail and the tail is all digits and spells the size in decimal.
pub proof fn lemma_tracker_url_reports_size(
    announce: Seq<char>,
    info_hash: Seq<u8>,
    peer_id: Seq<u8>,
    total_size: nat,
)
    ensures
        ({
            let u = tracker_url(announce, info_hash, peer_id, total_size);
            let tail = "&compact=1&event=started"@;
            exists|k: int|
                6 <= k <= u.len() - tail.len() && u.subrange(k - 6, k) == "&left="@
                    && all_digits(#[trigger] u.subrange(k, u.len() - tail.len())) && decimal_value(
                    u.subrange(k, u.len() - tail.len()),
                ) == total_size && u.subrange(u.len() - tail.len(), u.len() as int) == tail
        }),
{
    reveal_strlit("&compact=1&event=started");
    reveal_strlit("&left=");
    reveal_strlit("&port=6881&uploaded=0&downloaded=0&left=");
    lemma_decimal_spells_number(total_size);
    let tail = "&compact=1&event=started"@;
    let mid = "&port=6881&uploaded=0&downloaded=0&left="@;
    let head = announce + "?info_hash="@ + percent_encoding(info_hash) + "&peer_id="@
        + percent_encoding(peer_id) + mid;
    let d = decimal(total_size);
    let u = tracker_url(announce, info_hash, peer_id, total_size);
    assert(u == head + d + tail);
    let k = head.len() as int;
    assert(u.subrange(k - 6, k) =~= mid.subrange(mid.len() - 6, mid.len() as int));
    assert(mid.subrange(mid.len() - 6, mid.len() as int) =~= "&left="@);
    assert(u.subrange(k, u.len() - tail.len()) =~= d);
    assert(u.subrange(u.len() - tail.len(), u.len() as int) =~= tail);
}

} // verus!
