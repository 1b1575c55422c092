use vstd::prelude::*;

use crate::codec::copy_to_array;
use crate::digest::{sha1_digest, sha1_of};

verus! {

/// The size of a SHA-1 digest.
pub const SHA1_SIZE: usize = 20;

/// What can go wrong when opening a torrent file.
#[derive(Debug)]
pub enum BencodeTorrentError {
    Io(std::io::Error),
    Parsing(serde_bencode::Error),
    InvalidMetadata(String),
}

impl From<std::io::Error> for BencodeTorrentError {
    fn from(error: std::io::Error) -> (r: Self) {
        BencodeTorrentError::Io(error)
    }
}

impl vstd::std_specs::convert::FromSpecImpl<std::io::Error> for BencodeTorrentError {
    open spec fn obeys_from_spec() -> bool {
        true
    }

    open spec fn from_spec(v: std::io::Error) -> BencodeTorrentError {
        BencodeTorrentError::Io(v)
    }
}

impl From<serde_bencode::Error> for BencodeTorrentError {
    fn from(error: serde_bencode::Error) -> (r: Self) {
        BencodeTorrentError::Parsing(error)
    }
}

impl vstd::std_specs::convert::FromSpecImpl<serde_bencode::Error> for BencodeTorrentError {
    open spec fn obeys_from_spec() -> bool {
        true
    }

    open spec fn from_spec(v: serde_bencode::Error) -> BencodeTorrentError {
        BencodeTorrentError::Parsing(v)
    }
}

/// One file of a multi-file torrent.
pub struct MultiFile {
    pub length: u64,
    pub path: Vec<String>,
}

/// The `info` dictionary of a torrent file.
pub struct BencodeInfo {
    pub name: String,
    /// The length of each piece.
    pub piece_length: u64,
    /// All 20-byte SHA-1 piece hashes, concatenated.
    pub pieces: Vec<u8>,
    /// The length of a single-file torrent.
    pub length: Option<u64>,
    /// The files of a multi-file torrent.
    pub files: Option<Vec<MultiFile>>,
}

/// The top-level dictionary of a torrent file.
pub struct BencodeTorrent {
    pub announce: String,
    pub info: BencodeInfo,
    pub _creation_date: Option<u64>,
    pub _comment: Option<String>,
    pub _created_by: Option<String>,
}

/// A torrent's metadata, checked and ready for downloading.
pub struct VerifiedTorrent {
    pub announce: String,
    pub info_hash: [u8; 20],
    pub name: String,
    pub piece_length: u64,
    pub piece_hashes: Vec<[u8; 20]>,
    pub total_size: u64,
}

/// The sum of the lengths of the first `n` files.
pub open spec fn files_total(files: Seq<MultiFile>, n: int) -> int
    decreases n,
{
    if n <= 0 {
        0
    } else {
        files_total(files, n - 1) + files[n - 1].length
    }
}

/// The message of the error for a `pieces` field whose length is not a multiple of 20.
pub open spec fn pieces_length_message() -> Seq<char> {
    "The length of the 'pieces' field is not a multiple of 20 bytes."@
}

/// The message of the error for an `info` dictionary with neither `length` nor `files`.
pub open spec fn missing_size_message() -> Seq<char> {
    "Torrent info dictionary is missing both 'length' and 'files' keys."@
}

/// Whether computing the torrent's total size stays within 64 bits.
pub open spec fn size_in_range(info: BencodeInfo) -> bool {
    info.length is None ==> (info.files matches Some(files) ==> files_total(
        files@,
        files@.len() as int,
    ) <= u64::MAX)
}

/// The total size that `total_size` gives, when it gives one.
pub open spec fn spec_total_size(info: BencodeInfo) -> Option<int> {
    match info.length {
        Some(length) => Some(length as int),
        None => match info.files {
            Some(files) => Some(files_total(files@, files@.len() as int)),
            None => None,
        },
    }
}

impl BencodeInfo {
    /// Splits the concatenated `pieces` bytes into the individual 20-byte SHA-1
    /// hashes; a length that is not a multiple of 20 is invalid metadata.
    pub fn piece_hashes(&self) -> (r: Result<Vec<[u8; 20]>, BencodeTorrentError>)
        ensures
            self.pieces@.len() % 20 != 0 ==> (r matches Err(
                BencodeTorrentError::InvalidMetadata(m),
            ) && m@ == pieces_length_message()),
            self.pieces@.len() % 20 == 0 ==> (r matches Ok(hashes) && hashes@.len() * 20
                == self.pieces@.len() && forall|k: int|
                0 <= k < hashes@.len() ==> (#[trigger] hashes@[k])@ == self.pieces@.subrange(
                    20 * k,
                    20 * k + 20,
                )),
    {
        if self.pieces.len() % SHA1_SIZE != 0 {
            return Err(
                BencodeTorrentError::InvalidMetadata(
                    String::from_str(
                        "The length of the 'pieces' field is not a multiple of 20 bytes.",
                    ),
                ),
            );
        }
        let mut hashes: Vec<[u8; 20]> = Vec::new();
        let mut start: usize = 0;
        while start < self.pieces.len()
            invariant
                self.pieces@.len() % 20 == 0,
                start % 20 == 0,
                start <= self.pieces@.len(),
                hashes@.len() * 20 == start,
                forall|k: int|
                    0 <= k < hashes@.len() ==> (#[trigger] hashes@[k])@ == self.pieces@.subrange(
                        20 * k,
                        20 * k + 20,
                    ),
            decreases self.pieces@.len() - start,
        {
            let h = copy_to_array::<20>(self.pieces.as_slice(), start);
            hashes.push(h);
            start = start + SHA1_SIZE;
        }
        Ok(hashes)
    }

    /// The info hash: the SHA-1 digest of the bencoded `info` dictionary.
    pub fn info_hash(info_bencoded: &[u8]) -> (r: [u8; 20])
        ensures
            r@ == sha1_of(info_bencoded@),
    {
        sha1_digest(info_bencoded)
    }

    /// Whether `total_size` can add up the file lengths within 64 bits.
    pub fn size_fits(&self) -> (r: bool)
        ensures
            r == size_in_range(*self),
    {
        if self.length.is_some() {
            return true;
        }
        match &self.files {
            None => true,
            Some(files) => {
                let mut total: u64 = 0;
                let mut i: usize = 0;
                while i < files.len()
                    invariant
                        self.length is None,
                        self.files == Some(*files),
                        i <= files@.len(),
                        total == files_total(files@, i as int),
                    decreases files@.len() - i,
                {
                    if total > u64::MAX - files[i].length {
                        proof {
                            assert(files_total(files@, i as int + 1) == total + files@[i as int].length);
                            lemma_files_total_grows(files@, i as int + 1, files@.len() as int);
                        }
                        return false;
                    }
                    total = total + files[i].length;
                    i = i + 1;
                }
                true
            },
        }
    }

    /// The total size of the torrent's data: the single file's length, or the
    /// sum of all file lengths; neither key present is invalid metadata.
    pub fn total_size(&self) -> (r: Result<u64, BencodeTorrentError>)
        requires
            size_in_range(*self),
        ensures
            match spec_total_size(*self) {
                Some(n) => r matches Ok(v) && v == n,
                None => r matches Err(BencodeTorrentError::InvalidMetadata(m)) && m@
                    == missing_size_message(),
            },
            self.length matches Some(l) ==> r == Ok::<u64, BencodeTorrentError>(l),
            self.length is None ==> (self.files matches Some(fs) ==> (r matches Ok(v) && v
                == files_total(fs@, fs@.len() as int))),
            self.length is None && self.files is None ==> r is Err,
    {
        if let Some(length) = self.length {
            return Ok(length);
        }
        if let Some(files) = &self.files {
            let mut total: u64 = 0;
            let mut i: usize = 0;
            while i < files.len()
                invariant
                    i <= files@.len(),
                    files_total(files@, files@.len() as int) <= u64::MAX,
                    total == files_total(files@, i as int),
                decreases files@.len() - i,
            {
                proof {
                    lemma_files_total_grows(files@, i as int + 1, files@.len() as int);
                }
                total = total + files[i].length;
                i = i + 1;
            }
            return Ok(total);
        }
        Err(
            BencodeTorrentError::InvalidMetadata(
                String::from_str(
                    "Torrent info dictionary is missing both 'length' and 'files' keys.",
                ),
            ),
        )
    }
}

/// The total of a list of files is the sum of their lengths: no files give
/// zero, and one more file adds its whole length.
pub proof fn lemma_files_total_sums(files: Seq<MultiFile>, f: MultiFile)
    ensures
        files_total(Seq::empty(), 0) == 0,
        files_total(files.push(f), files.len() + 1int) == files_total(files, files.len() as int)
            + f.length,
{
    lemma_files_total_prefix(files.push(f), files, files.len() as int);
}

/// The total of the first `n` files depends only on those files.
proof fn lemma_files_total_prefix(a: Seq<MultiFile>, b: Seq<MultiFile>, n: int)
    requires
        0 <= n <= a.len(),
        n <= b.len(),
        forall|i: int| 0 <= i < n ==> a[i] == b[i],
    ensures
        files_total(a, n) == files_total(b, n),
    decreases n,
{
    if n > 0 {
        lemma_files_total_prefix(a, b, n - 1);
    }
}

/// Adding up more files never gives less.
proof fn lemma_files_total_grows(files: Seq<MultiFile>, m: int, n: int)
    requires
        0 <= m <= n <= files.len(),
    ensures
        files_total(files, m) <= files_total(files, n),
    decreases n - m,
{
    if m < n {
        lemma_files_total_grows(files, m, n - 1);
    }
}

/// The length of piece `index`: the piece length, or what is left of the data
/// for the last piece, or zero past the end.
pub open spec fn piece_size(piece_length: int, total: int, index: int) -> int {
    let start = index * piece_length;
    if start >= total {
        0
    } else if total - start < piece_length {
        total - start
    } else {
        piece_length
    }
}

impl VerifiedTorrent {
    /// Checks a parsed torrent and gathers what a download needs: the info hash
    /// (from the bencoded `info` dictionary), the piece hashes and the total size.
    pub fn from_metadata(torrent: BencodeTorrent, info_bencoded: &[u8]) -> (r: Result<
        VerifiedTorrent,
        BencodeTorrentError,
    >)
        requires
            torrent.info.pieces@.len() % 20 == 0 ==> size_in_range(torrent.info),
        ensures
            torrent.info.pieces@.len() % 20 != 0 ==> (r matches Err(
                BencodeTorrentError::InvalidMetadata(m),
            ) && m@ == pieces_length_message()),
            torrent.info.pieces@.len() % 20 == 0 && spec_total_size(torrent.info) is None ==> (
            r matches Err(BencodeTorrentError::InvalidMetadata(m)) && m@
                == missing_size_message()),
            torrent.info.pieces@.len() % 20 == 0 && spec_total_size(torrent.info) is Some ==> (
            r matches Ok(t) && t.announce == torrent.announce && t.info_hash@ == sha1_of(
                info_bencoded@,
            ) && t.name == torrent.info.name && t.piece_length == torrent.info.piece_length
                && t.total_size == spec_total_size(torrent.info).unwrap() && (
            torrent.info.length matches Some(l) ==> t.total_size == l) && (torrent.info.length is None
                ==> (torrent.info.files matches Some(fs) ==> t.total_size == files_total(
                fs@,
                fs@.len() as int,
            ))) && t.piece_hashes@.len()
                * 20 == torrent.info.pieces@.len() && forall|k: int|
                0 <= k < t.piece_hashes@.len() ==> (#[trigger] t.piece_hashes@[k])@
                    == torrent.info.pieces@.subrange(20 * k, 20 * k + 20)),
    {
        let info_hash = BencodeInfo::info_hash(info_bencoded);
        let piece_hashes = match torrent.info.piece_hashes() {
            Ok(h) => h,
            Err(e) => return Err(e),
        };
        let total_size = match torrent.info.total_size() {
            Ok(t) => t,
            Err(e) => return Err(e),
        };
        Ok(
            VerifiedTorrent {
                announce: torrent.announce,
                info_hash,
                name: torrent.info.name,
                piece_length: torrent.info.piece_length,
                piece_hashes,
                total_size,
            },
        )
    }

    /// The length of piece `index` (see `piece_size`), as a `usize`.
    pub fn piece_length(&self, index: usize) -> (r: usize)
        ensures
            r == piece_size(
                self.piece_length as int,
                self.total_size as int,
                index as int,
            ) as usize,
    {
        assert(index as u128 * self.piece_length as u128 <= u128::MAX) by (nonlinear_arith)
            requires
                index <= u64::MAX,
                self.piece_length <= u64::MAX,
        ;
        let start: u128 = index as u128 * self.piece_length as u128;
        let total = self.total_size as u128;
        let len = self.piece_length as u128;
        if start >= total {
            0
        } else if total - start < len {
            #[verifier::truncate]
            ((total - start) as usize)
        } else {
            #[verifier::truncate]
            (self.piece_length as usize)
        }
    }
}

} // verus!
