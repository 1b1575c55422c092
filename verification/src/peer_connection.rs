use vstd::prelude::*;
use vstd::string::to_string_from_display_ensures;

use crate::bitfield::{bit_set, Bitfield};
use crate::codec::{be_u32_bytes, be_u32_value};
use crate::handshake::HandshakeError;
use crate::message::{Message, MessageError, MessageId};
use crate::piece_proggress::{
    after_mark, after_next_requests, block_count, block_size, PieceProgress,
};
use crate::torrent::{piece_size, VerifiedTorrent};
use crate::digest::sha1_of;

verus! {

/// What can end a session with a peer.
#[derive(Debug)]
pub enum ConnectionError {
    PieceNotAvailable,
    PeerChoked,
    InvalidHash,
    Io(std::io::Error),
    Protocol(String),
    Message(MessageError),
    Handshake(HandshakeError),
}

impl ConnectionError {
    /// The human-readable description of the error.
    pub fn to_string(&self) -> (r: String)
        ensures
            match self {
                ConnectionError::PieceNotAvailable => r@ == "Piece not available from peer"@,
                ConnectionError::PeerChoked => r@ == "Peer is choked"@,
                ConnectionError::InvalidHash => r@ == "Invalid piece hash"@,
                ConnectionError::Io(e) => exists|t: String|
                    to_string_from_display_ensures::<std::io::Error>(e, t) && r@ == "I/O error: "@
                        + t@,
                ConnectionError::Protocol(m) => r@ == "Protocol error: "@ + m@,
                ConnectionError::Message(e) => exists|t: String|
                    call_ensures(MessageError::to_string, (e,), t) && r@ == "Message error: "@
                        + t@,
                ConnectionError::Handshake(e) => exists|t: String|
                    call_ensures(HandshakeError::to_string, (e,), t) && r@ == "Handshake error: "@
                        + t@,
            },
    {
        match self {
            ConnectionError::PieceNotAvailable => String::from_str("Piece not available from peer"),
            ConnectionError::PeerChoked => String::from_str("Peer is choked"),
            ConnectionError::InvalidHash => String::from_str("Invalid piece hash"),
            ConnectionError::Io(e) => {
                let t = e.to_string();
                let mut s = String::from_str("I/O error: ");
                s.append(t.as_str());
                s
            },
            ConnectionError::Protocol(msg) => {
                let mut s = String::from_str("Protocol error: ");
                s.append(msg.as_str());
                s
            },
            ConnectionError::Message(e) => {
                let t = e.to_string();
                let mut s = String::from_str("Message error: ");
                s.append(t.as_str());
                s
            },
            ConnectionError::Handshake(e) => {
                let t = e.to_string();
                let mut s = String::from_str("Handshake error: ");
                s.append(t.as_str());
                s
            },
        }
    }
}

impl From<std::io::Error> for ConnectionError {
    fn from(e: std::io::Error) -> (r: Self) {
        ConnectionError::Io(e)
    }
}

impl vstd::std_specs::convert::FromSpecImpl<std::io::Error> for ConnectionError {
    open spec fn obeys_from_spec() -> bool {
        true
    }

    open spec fn from_spec(v: std::io::Error) -> ConnectionError {
        ConnectionError::Io(v)
    }
}

impl From<MessageError> for ConnectionError {
    fn from(e: MessageError) -> (r: Self) {
        ConnectionError::Message(e)
    }
}

impl vstd::std_specs::convert::FromSpecImpl<MessageError> for ConnectionError {
    open spec fn obeys_from_spec() -> bool {
        true
    }

    open spec fn from_spec(v: MessageError) -> ConnectionError {
        ConnectionError::Message(v)
    }
}

impl From<HandshakeError> for ConnectionError {
    fn from(e: HandshakeError) -> (r: Self) {
        ConnectionError::Handshake(e)
    }
}

impl vstd::std_specs::convert::FromSpecImpl<HandshakeError> for ConnectionError {
    open spec fn obeys_from_spec() -> bool {
        true
    }

    open spec fn from_spec(v: HandshakeError) -> ConnectionError {
        ConnectionError::Handshake(v)
    }
}

/// What a message received while waiting for the peer's bitfield means.
pub enum BitfieldWait {
    /// The peer's bitfield arrived.
    Received(Bitfield),
    /// The peer choked (`true`) or unchoked (`false`) us; keep waiting.
    Choked(bool),
    /// Another kind of message; keep waiting.
    Ignored(MessageId),
    /// A keep-alive; keep waiting.
    KeepAlive,
}

/// Decides what a message received while waiting for the bitfield means.
pub fn bitfield_wait_step(msg: Message) -> (r: BitfieldWait)
    ensures
        match msg.id {
            Some(MessageId::Bitfield) => r matches BitfieldWait::Received(bf) && bf@
                == msg.payload@,
            Some(MessageId::Unchoke) => r matches BitfieldWait::Choked(false),
            Some(MessageId::Choke) => r matches BitfieldWait::Choked(true),
            Some(other) => r matches BitfieldWait::Ignored(id) && id == other,
            None => r matches BitfieldWait::KeepAlive,
        },
{
    match msg.id {
        Some(MessageId::Bitfield) => BitfieldWait::Received(Bitfield::from_bytes(msg.payload)),
        Some(MessageId::Unchoke) => BitfieldWait::Choked(false),
        Some(MessageId::Choke) => BitfieldWait::Choked(true),
        Some(other) => BitfieldWait::Ignored(other),
        None => BitfieldWait::KeepAlive,
    }
}

/// The download of one piece from one peer: the piece's bookkeeping and whether
/// the peer currently chokes us.
pub struct PieceDownload {
    pub piece_index: u32,
    pub progress: PieceProgress,
    pub is_choked: bool,
}

/// The part of a piece download that received messages change: whether we are
/// choked, the piece's bytes, which blocks were received, and the byte count.
pub open spec fn session_state(d: PieceDownload) -> (bool, Seq<u8>, Seq<bool>, int) {
    (d.is_choked, d.progress.data@, d.progress.received_blocks@, d.progress.received as int)
}

/// What one received message does to the state of the download of piece
/// `piece_index` of `total` bytes; `None` where the download ends with an error.
pub open spec fn session_step(
    piece_index: u32,
    total: int,
    s: (bool, Seq<u8>, Seq<bool>, int),
    msg: Message,
) -> Option<(bool, Seq<u8>, Seq<bool>, int)> {
    let p = msg.payload@;
    match msg.id {
        Some(MessageId::Piece) => if p.len() < 8 {
            None
        } else if be_u32_value(p) != piece_index {
            Some(s)
        } else {
            let begin = be_u32_value(p.skip(4)) as int;
            let block = p.skip(8);
            if begin + block.len() <= total && !s.2[begin / block_size()] {
                Some(
                    (
                        s.0,
                        s.1.subrange(0, begin) + block + s.1.subrange(begin + block.len(), total),
                        s.2.update(begin / block_size(), true),
                        s.3 + block.len(),
                    ),
                )
            } else {
                Some(s)
            }
        },
        Some(MessageId::Choke) => Some((true, s.1, s.2, s.3)),
        Some(MessageId::Unchoke) => Some((false, s.1, s.2, s.3)),
        Some(_) => None,
        None => Some(s),
    }
}

/// The state after a stream of received messages, or `None` if one of them ends
/// the download with an error.
pub open spec fn run_session(
    piece_index: u32,
    total: int,
    s: (bool, Seq<u8>, Seq<bool>, int),
    msgs: Seq<Message>,
) -> Option<(bool, Seq<u8>, Seq<bool>, int)>
    decreases msgs.len(),
{
    if msgs.len() == 0 {
        Some(s)
    } else {
        match session_step(piece_index, total, s, msgs[0]) {
            None => None,
            Some(next) => run_session(piece_index, total, next, msgs.drop_first()),
        }
    }
}

/// Where a received block of this piece goes: a block that fits the piece and
/// whose slot was not received yet lands at its own offset `begin` (the second
/// four payload bytes), the other bytes stay, its slot becomes received and its
/// length is counted.
pub proof fn lemma_session_step_places_block(
    piece_index: u32,
    total: int,
    s: (bool, Seq<u8>, Seq<bool>, int),
    msg: Message,
)
    requires
        s.1.len() == total,
        msg.id == Some(MessageId::Piece),
        msg.payload@.len() >= 8,
        be_u32_value(msg.payload@) == piece_index,
        be_u32_value(msg.payload@.skip(4)) + msg.payload@.len() - 8 <= total,
        !s.2[be_u32_value(msg.payload@.skip(4)) as int / block_size()],
    ensures
        ({
            let begin = be_u32_value(msg.payload@.skip(4)) as int;
            let block = msg.payload@.skip(8);
            session_step(piece_index, total, s, msg) matches Some(n) && {
                &&& n.0 == s.0
                &&& n.1.len() == total
                &&& n.1.subrange(begin, begin + block.len()) == block
                &&& forall|j: int|
                    0 <= j < total && !(begin <= j < begin + block.len()) ==> #[trigger] n.1[j]
                        == s.1[j]
                &&& n.2 == s.2.update(begin / block_size(), true)
                &&& n.3 == s.3 + block.len()
            }
        }),
{
    let begin = be_u32_value(msg.payload@.skip(4)) as int;
    let block = msg.payload@.skip(8);
    let d = s.1;
    let nd = d.subrange(0, begin) + block + d.subrange(begin + block.len(), total);
    assert(nd.subrange(begin, begin + block.len()) =~= block);
    assert forall|j: int| 0 <= j < total && !(begin <= j < begin + block.len()) implies #[trigger] nd[j]
        == d[j] by {
        if j < begin {
            assert(nd[j] == d.subrange(0, begin)[j]);
        } else {
            assert(nd[j] == d.subrange(begin + block.len(), total)[j - begin - block.len()]);
        }
    }
}

/// A message the download of piece `piece_index` passes over: a keep-alive, or a
/// block of another piece.
pub open spec fn passed_over(piece_index: u32, msg: Message) -> bool {
    ||| msg.id is None
    ||| msg.id == Some(MessageId::Piece) && msg.payload@.len() >= 8 && be_u32_value(msg.payload@)
        != piece_index
}

/// Keep-alives and blocks of other pieces change nothing in a download: slipping
/// one anywhere into a stream of received messages leaves the outcome of the
/// stream as it was.
pub proof fn lemma_passed_over_messages_change_nothing(
    piece_index: u32,
    total: int,
    s: (bool, Seq<u8>, Seq<bool>, int),
    msgs: Seq<Message>,
    k: int,
    m: Message,
)
    requires
        0 <= k <= msgs.len(),
        passed_over(piece_index, m),
    ensures
        run_session(piece_index, total, s, msgs.insert(k, m)) == run_session(
            piece_index,
            total,
            s,
            msgs,
        ),
    decreases k,
{
    let ins = msgs.insert(k, m);
    if k == 0 {
        assert(session_step(piece_index, total, s, m) == Some(s));
        assert(ins[0] == m);
        assert(ins.drop_first() =~= msgs);
    } else {
        assert(ins[0] == msgs[0]);
        assert(ins.drop_first() =~= msgs.drop_first().insert(k - 1, m));
        match session_step(piece_index, total, s, msgs[0]) {
            None => {},
            Some(next) => {
                lemma_passed_over_messages_change_nothing(
                    piece_index,
                    total,
                    next,
                    msgs.drop_first(),
                    k - 1,
                    m,
                );
            },
        }
    }
}

/// Whether a message can be handed to `on_message` without a panic in the
/// bookkeeping: a block for this piece must land where `mark_block` can take it.
pub open spec fn block_in_bounds(d: PieceDownload, msg: Message) -> bool {
    let p = msg.payload@;
    (msg.id == Some(MessageId::Piece) && p.len() >= 8 && be_u32_value(p) == d.piece_index)
        ==> d.progress.mark_in_bounds(be_u32_value(p.skip(4)) as int, p.len() - 8)
}

impl PieceDownload {
    /// The bookkeeping belongs to this piece and is consistent.
    pub open spec fn wf(&self) -> bool {
        &&& self.progress.wf()
        &&& self.progress.index == self.piece_index
    }

    /// Starts downloading piece `piece_index`: the peer must have sent its bitfield
    /// and have the piece.
    pub fn start(
        bitfield: &Option<Bitfield>,
        torrent: &VerifiedTorrent,
        piece_index: u32,
        is_choked: bool,
    ) -> (r: Result<PieceDownload, ConnectionError>)
        ensures
            bitfield is None ==> (r matches Err(ConnectionError::Protocol(m)) && m@
                == "No bitfield"@),
            bitfield matches Some(bf) && !bit_set(bf@, piece_index as int) ==> (r matches Err(
                ConnectionError::PieceNotAvailable,
            )),
            bitfield matches Some(bf) && bit_set(bf@, piece_index as int) ==> (r matches Ok(d)
                && d.wf() && d.piece_index == piece_index && d.is_choked == is_choked
                && d.progress.total_length == piece_size(
                torrent.piece_length as int,
                torrent.total_size as int,
                piece_index as int,
            ) as usize && d.progress.data@ == Seq::new(
                d.progress.total_length as nat,
                |i: int| 0u8,
            ) && d.progress.received_blocks@ == Seq::new(
                block_count(d.progress.total_length as int) as nat,
                |i: int| false,
            ) && d.progress.requested_blocks@ == Seq::new(
                block_count(d.progress.total_length as int) as nat,
                |i: int| false,
            ) && d.progress.received == 0),
    {
        let bf = match bitfield {
            Some(bf) => bf,
            None => {
                return Err(ConnectionError::Protocol(String::from_str("No bitfield")));
            },
        };
        if !bf.has_piece(piece_index as usize) {
            return Err(ConnectionError::PieceNotAvailable);
        }
        let piece_len = torrent.piece_length(piece_index as usize);
        let progress = PieceProgress::new(piece_index, piece_len);
        Ok(PieceDownload { piece_index, progress, is_choked })
    }

    /// Whether the whole piece was received.
    pub fn is_complete(&self) -> (r: bool)
        ensures
            r == (self.progress.received >= self.progress.total_length),
    {
        self.progress.is_complete()
    }

    /// A message received while waiting to be unchoked: only `Unchoke` ends the wait.
    pub fn on_unchoke_wait(&mut self, msg: &Message) -> (r: bool)
        ensures
            r == (msg.id == Some(MessageId::Unchoke)),
            final(self).is_choked == (!r && old(self).is_choked),
            final(self).piece_index == old(self).piece_index,
            final(self).progress == old(self).progress,
    {
        match msg.id {
            Some(MessageId::Unchoke) => {
                self.is_choked = false;
                true
            },
            _ => false,
        }
    }

    /// The `Request` messages to send now: up to `MAX_PIPELINE` blocks not yet
    /// requested or received, which become requested.
    pub fn requests(&mut self) -> (r: Vec<Message>)
        requires
            old(self).wf(),
        ensures
            final(self).wf(),
            final(self).piece_index == old(self).piece_index,
            final(self).is_choked == old(self).is_choked,
            exists|sent: Seq<(u32, u32)>|
                after_next_requests(
                    old(self).progress,
                    PieceProgress::MAX_PIPELINE as int,
                    final(self).progress,
                    sent,
                ) && r@.len() == sent.len() && forall|j: int|
                    0 <= j < r@.len() ==> (#[trigger] r@[j]).id == Some(MessageId::Request)
                        && r@[j].payload@ == be_u32_bytes(old(self).piece_index) + be_u32_bytes(
                        sent[j].0,
                    ) + be_u32_bytes(sent[j].1),
    {
        let blocks = self.progress.next_requests(PieceProgress::MAX_PIPELINE);
        let mut out: Vec<Message> = Vec::new();
        let mut k: usize = 0;
        while k < blocks.len()
            invariant
                k <= blocks@.len(),
                out@.len() == k,
                forall|j: int|
                    0 <= j < k ==> (#[trigger] out@[j]).id == Some(MessageId::Request)
                        && out@[j].payload@ == be_u32_bytes(self.piece_index) + be_u32_bytes(
                        blocks@[j].0,
                    ) + be_u32_bytes(blocks@[j].1),
            decreases blocks@.len() - k,
        {
            let (offset, length) = blocks[k];
            out.push(Message::request(self.piece_index, offset, length));
            k = k + 1;
        }
        assert(after_next_requests(
            old(self).progress,
            PieceProgress::MAX_PIPELINE as int,
            self.progress,
            blocks@,
        ));
        assert(forall|j: int|
            0 <= j < out@.len() ==> (#[trigger] out@[j]).id == Some(MessageId::Request)
                && out@[j].payload@ == be_u32_bytes(old(self).piece_index) + be_u32_bytes(
                blocks@[j].0,
            ) + be_u32_bytes(blocks@[j].1));
        out
    }

    /// Whether `on_message` can take this message (see `block_in_bounds`).
    pub fn block_fits(&self, msg: &Message) -> (r: bool)
        requires
            self.wf(),
        ensures
            r == block_in_bounds(*self, *msg),
    {
        match msg.id {
            Some(MessageId::Piece) => {},
            _ => {
                return true;
            },
        }
        if msg.payload.len() < 8 {
            return true;
        }
        match Message::parse_piece_payload(msg.payload.as_slice()) {
            Ok((index, begin, block)) => {
                if index != self.piece_index {
                    return true;
                }
                let begin = begin as usize;
                let len = block.len();
                let p = &self.progress;
                if begin > usize::MAX - len {
                    return false;
                }
                if begin + len > p.total_length {
                    return true;
                }
                let slot = begin / p.block_size;
                if slot >= p.received_blocks.len() {
                    return false;
                }
                if p.received_blocks[slot] {
                    return true;
                }
                p.received <= usize::MAX - len
            },
            Err(_) => true,
        }
    }

    /// Handles one message while the piece is incomplete: a block of this piece is
    /// stored, blocks of other pieces are dropped, choke and unchoke update the
    /// state, keep-alives are ignored, and any other message ends the download.
    pub fn on_message(&mut self, msg: Message) -> (r: Result<(), ConnectionError>)
        requires
            old(self).wf(),
            block_in_bounds(*old(self), msg),
        ensures
            final(self).wf(),
            final(self).piece_index == old(self).piece_index,
            final(self).progress.total_length == old(self).progress.total_length,
            final(self).progress.requested_blocks == old(self).progress.requested_blocks,
            r is Ok == session_step(
                old(self).piece_index,
                old(self).progress.total_length as int,
                session_state(*old(self)),
                msg,
            ) is Some,
            r is Ok ==> session_step(
                old(self).piece_index,
                old(self).progress.total_length as int,
                session_state(*old(self)),
                msg,
            ) == Some(session_state(*final(self))),
            match msg.id {
                Some(MessageId::Piece) => if msg.payload@.len() < 8 {
                    r matches Err(ConnectionError::Message(MessageError::InvalidPayload))
                        && final(self).progress == old(self).progress && final(self).is_choked
                        == old(self).is_choked
                } else {
                    &&& r is Ok
                    &&& final(self).is_choked == old(self).is_choked
                    &&& be_u32_value(msg.payload@) == old(self).piece_index ==> after_mark(
                        old(self).progress,
                        be_u32_value(msg.payload@.skip(4)) as int,
                        msg.payload@.skip(8),
                        final(self).progress,
                    )
                    &&& be_u32_value(msg.payload@) != old(self).piece_index
                        ==> final(self).progress == old(self).progress
                },
                Some(MessageId::Choke) => r is Ok && final(self).is_choked
                    && final(self).progress == old(self).progress,
                Some(MessageId::Unchoke) => r is Ok && !final(self).is_choked
                    && final(self).progress == old(self).progress,
                Some(_) => (r matches Err(ConnectionError::Protocol(m)) && m@
                    == "Didnt get a piece"@) && final(self).progress == old(self).progress
                    && final(self).is_choked == old(self).is_choked,
                None => r is Ok && final(self).progress == old(self).progress
                    && final(self).is_choked == old(self).is_choked,
            },
            ({
                let p = msg.payload@;
                let begin = be_u32_value(p.skip(4)) as int;
                (msg.id == Some(MessageId::Piece) && p.len() >= 8 && be_u32_value(p)
                    == old(self).piece_index && old(self).progress.accepts(begin, p.len() - 8))
                    ==> {
                    &&& final(self).progress.data@.subrange(begin, begin + p.len() - 8)
                        == p.skip(8)
                    &&& forall|j: int|
                        0 <= j < old(self).progress.data@.len() && !(begin <= j < begin + p.len()
                            - 8) ==> #[trigger] final(self).progress.data@[j]
                            == old(self).progress.data@[j]
                }
            }),
    {
        match msg.id {
            Some(MessageId::Piece) => {
                let (index, begin, block) = match Message::parse_piece_payload(
                    msg.payload.as_slice(),
                ) {
                    Ok(parts) => parts,
                    Err(e) => {
                        return Err(ConnectionError::Message(e));
                    },
                };
                if index == self.piece_index {
                    self.progress.mark_block(begin as usize, block.as_slice());
                }
                assert(block@.len() == msg.payload@.len() - 8);
                Ok(())
            },
            Some(MessageId::Choke) => {
                self.is_choked = true;
                Ok(())
            },
            Some(MessageId::Unchoke) => {
                self.is_choked = false;
                Ok(())
            },
            Some(_other) => Err(ConnectionError::Protocol(String::from_str("Didnt get a piece"))),
            None => Ok(()),
        }
    }

    /// Ends the download: the piece's bytes if their SHA-1 digest is the expected
    /// hash, `InvalidHash` otherwise.
    pub fn finish(self, expected_hash: &[u8; 20]) -> (r: Result<VerifiedPiece, ConnectionError>)
        ensures
            sha1_of(self.progress.data@) == expected_hash@ ==> (r matches Ok(piece)
                && piece.data_view() == self.progress.data@ && piece.hash_view()
                == expected_hash@),
            sha1_of(self.progress.data@) != expected_hash@ ==> (r matches Err(
                ConnectionError::InvalidHash,
            )),
    {
        if !self.progress.verify(expected_hash.as_slice()) {
            return Err(ConnectionError::InvalidHash);
        }
        Ok(VerifiedPiece { data: self.progress.data, hash: *expected_hash })
    }
}

/// The bytes of a downloaded piece together with the hash they were checked
/// against: their SHA-1 digest is that hash.
pub struct VerifiedPiece {
    data: Vec<u8>,
    hash: [u8; 20],
}

impl VerifiedPiece {
    #[verifier::type_invariant]
    spec fn digest_matches(self) -> bool {
        sha1_of(self.data@) == self.hash@
    }

    /// The piece's bytes.
    pub closed spec fn data_view(&self) -> Seq<u8> {
        self.data@
    }

    /// The hash the bytes were checked against.
    pub closed spec fn hash_view(&self) -> Seq<u8> {
        self.hash@
    }

    /// The hash the bytes were checked against.
    pub fn hash(&self) -> (r: [u8; 20])
        ensures
            r@ == self.hash_view(),
            sha1_of(self.data_view()) == self.hash_view(),
    {
        proof {
            use_type_invariant(self);
        }
        self.hash
    }

    /// The number of bytes of the piece.
    pub fn len(&self) -> (r: usize)
        ensures
            r == self.data_view().len(),
    {
        self.data.len()
    }

    /// The piece's bytes, whose SHA-1 digest is the checked hash.
    pub fn into_data(self) -> (r: Vec<u8>)
        ensures
            r@ == self.data_view(),
            sha1_of(r@) == self.hash_view(),
    {
        proof {
            use_type_invariant(&self);
        }
        self.data
    }
}

} // verus!
