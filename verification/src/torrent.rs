//! What a metafile says of a torrent, and what follows from it: the
//! info-hash, the total length and the check of a piece against its hash.

use vstd::prelude::*;
use crate::error::Error;
use crate::codec::same_bytes;
use crate::hash::{sha1, sha1_digest};
use crate::piece::piece_count;

verus! {

/// A file of a torrent that holds several.
#[derive(Clone, Debug, PartialEq, Eq)]
pub struct File {
    /// The path of the file, one entry for each directory and the name last.
    pub path: Vec<String>,
    /// The length of the file in bytes.
    pub length: u64,
}

/// The `info` dictionary of a metafile.
#[derive(Clone, Debug, PartialEq, Eq)]
pub struct Info {
    /// The name of the file, or of the directory that holds the files.
    pub name: String,
    /// The SHA-1 hashes of the pieces, 20 bytes each, one after the other.
    pub pieces: Vec<u8>,
    /// The length of a piece in bytes.
    pub piece_length: u64,
    /// The length of the file, for a torrent of one file.
    pub length: Option<i64>,
    /// The files, for a torrent of several.
    pub files: Option<Vec<File>>,
}

/// A torrent as its metafile describes it.
#[derive(Clone, Debug, PartialEq, Eq)]
pub struct Torrent {
    /// The description of the content.
    pub info: Info,
    /// The URL of the tracker.
    pub announce: Option<String>,
    /// Further trackers, in groups.
    pub announce_list: Option<Vec<Vec<String>>>,
    /// The bencoded `info` dictionary, byte for byte as it stands in the
    /// metafile. The info-hash is taken over these bytes.
    pub info_bytes: Vec<u8>,
}

/// What a file of a torrent holds, as plain values.
pub ghost struct FileView {
    pub path: Seq<Seq<char>>,
    pub length: u64,
}

/// What an `info` dictionary holds, as plain values.
pub ghost struct InfoView {
    pub name: Seq<char>,
    pub pieces: Seq<u8>,
    pub piece_length: u64,
    pub length: Option<i64>,
    pub files: Option<Seq<FileView>>,
}

/// What a torrent holds, as plain values.
pub ghost struct TorrentView {
    pub info: InfoView,
    pub announce: Option<Seq<char>>,
    pub announce_list: Option<Seq<Seq<Seq<char>>>>,
    pub info_bytes: Seq<u8>,
}

impl View for File {
    type V = FileView;

    open spec fn view(&self) -> FileView {
        FileView { path: self.path.deep_view(), length: self.length }
    }
}

/// What a list of files holds.
pub open spec fn file_views(files: Seq<File>) -> Seq<FileView> {
    Seq::new(files.len(), |i: int| files[i]@)
}

impl View for Info {
    type V = InfoView;

    open spec fn view(&self) -> InfoView {
        InfoView {
            name: self.name@,
            pieces: self.pieces@,
            piece_length: self.piece_length,
            length: self.length,
            files: match self.files {
                Some(files) => Some(file_views(files@)),
                None => None,
            },
        }
    }
}

impl View for Torrent {
    type V = TorrentView;

    open spec fn view(&self) -> TorrentView {
        TorrentView {
            info: self.info@,
            announce: match self.announce {
                Some(url) => Some(url@),
                None => None,
            },
            announce_list: self.announce_list.deep_view(),
            info_bytes: self.info_bytes@,
        }
    }
}

/// The sum of the lengths of the first `n` files.
pub open spec fn files_length(files: Seq<FileView>, n: int) -> int
    decreases n,
{
    if n <= 0 {
        0
    } else {
        files_length(files, n - 1) + files[n - 1].length
    }
}

/// The total length that an `info` dictionary states: its `length` where it
/// has one, else the sum of the lengths of its files. There is none where
/// it has neither, where the length is negative or where the sum is not a
/// 64-bit number.
pub open spec fn total_length(info: InfoView) -> Option<u64> {
    match info.length {
        Some(n) => if n >= 0 {
            Some(n as u64)
        } else {
            None
        },
        None => match info.files {
            Some(files) => if files_length(files, files.len() as int) <= u64::MAX {
                Some(files_length(files, files.len() as int) as u64)
            } else {
                None
            },
            None => None,
        },
    }
}

/// The sum of file lengths grows with the number of files.
pub proof fn lemma_files_length_grows(files: Seq<FileView>, m: int, n: int)
    requires
        m <= n,
    ensures
        0 <= files_length(files, m) <= files_length(files, n),
    decreases n,
{
    if n > 0 && m < n {
        lemma_files_length_grows(files, m, n - 1);
    } else if n > 0 {
        lemma_files_length_grows(files, m - 1, n - 1);
    }
}

/// Whether piece `index` of a torrent has the hash that `info` lists for it:
/// the 20 bytes at `20 * index` of `pieces`.
pub open spec fn piece_matches(pieces: Seq<u8>, piece: Seq<u8>, index: u32) -> bool {
    20 * index + 20 <= pieces.len() && sha1(piece) == pieces.subrange(20 * index, 20 * index + 20)
}

/// What a metafile must state for its torrent to be downloaded: a total
/// length, by `length` or by `files` and not by both; a piece length that is
/// not zero and fits 32 bits; and as many hashes of 20 bytes as the content
/// has pieces.
pub open spec fn valid_info(info: InfoView) -> bool {
    &&& total_length(info) is Some
    &&& info.length is Some <==> info.files is None
    &&& 1 <= info.piece_length <= u32::MAX
    &&& info.pieces.len() % 20 == 0
    &&& info.pieces.len() / 20 == piece_count(info.piece_length as u32, total_length(info)->0)
    &&& info.pieces.len() / 20 <= u32::MAX
}

impl Torrent {
    /// Holds the description against what a download needs of it.
    pub fn validate(&self) -> (r: Result<(), Error>)
        ensures
            valid_info(self.info@) ==> r is Ok,
            !valid_info(self.info@) ==> r == Err::<(), Error>(Error::MetainfoInvalid),
    {
        let total = match self.get_total_length() {
            Ok(n) => n,
            Err(e) => { return Err(e); },
        };
        if self.info.length.is_some() == self.info.files.is_some() {
            return Err(Error::MetainfoInvalid);
        }
        if self.info.piece_length < 1 || self.info.piece_length > 0xffff_ffff {
            return Err(Error::MetainfoInvalid);
        }
        let piece_length = self.info.piece_length;
        if self.info.pieces.len() % 20 != 0 {
            return Err(Error::MetainfoInvalid);
        }
        let listed = (self.info.pieces.len() / 20) as u64;
        let whole = total / piece_length;
        let needed = if total % piece_length == 0 {
            whole
        } else {
            assert(whole < u64::MAX) by {
                assert(piece_length >= 2);
                assert(total as int / piece_length as int <= total as int / 2) by (nonlinear_arith)
                    requires
                        piece_length >= 2,
                        total >= 0,
                ;
            }
            whole + 1
        };
        assert(needed == piece_count(piece_length as u32, total)) by {
            let t = total as int;
            let p = piece_length as int;
            assert(t == p * (t / p) + t % p) by (nonlinear_arith)
                requires
                    p > 0,
            ;
            if t % p == 0 {
                assert((p * (t / p) + p - 1) / p == t / p) by (nonlinear_arith)
                    requires
                        p > 0,
                ;
            } else {
                assert((p * (t / p + 1) + (t % p - 1)) / p == t / p + 1) by (nonlinear_arith)
                    requires
                        p > 0,
                        0 < t % p < p,
                ;
                assert(p * (t / p + 1) + (t % p - 1) == t + p - 1) by (nonlinear_arith)
                    requires
                        t == p * (t / p) + t % p,
                ;
            }
        }
        if listed != needed || listed > 0xffff_ffff {
            return Err(Error::MetainfoInvalid);
        }
        Ok(())
    }

    /// The info-hash of the torrent: the SHA-1 of its `info` dictionary as
    /// the metafile holds it.
    pub fn get_info_hash(&self) -> (hash: Vec<u8>)
        ensures
            hash@ == sha1(self.info_bytes@),
            hash@.len() == 20,
    {
        sha1_digest(self.info_bytes.as_slice())
    }

    /// Whether `piece` is piece `index` of the torrent, by its hash. An index
    /// past the last piece matches nothing.
    pub fn check_piece(&self, piece: &[u8], index: u32) -> (ok: bool)
        ensures
            ok == piece_matches(self.info.pieces@, piece@, index),
    {
        let start: u64 = 20 * (index as u64);
        if (self.info.pieces.len() as u64) < start + 20 {
            return false;
        }
        let digest = sha1_digest(piece);
        let listed = vstd::slice::slice_subrange(
            self.info.pieces.as_slice(),
            start as usize,
            (start + 20) as usize,
        );
        same_bytes(digest.as_slice(), listed)
    }

    /// The total length of the content in bytes.
    pub fn get_total_length(&self) -> (r: Result<u64, Error>)
        ensures
            match total_length(self.info@) {
                Some(n) => r == Ok::<u64, Error>(n),
                None => r == Err::<u64, Error>(Error::MetainfoInvalid),
            },
    {
        match self.info.length {
            Some(n) => {
                if n >= 0 {
                    return Ok(n as u64);
                } else {
                    return Err(Error::MetainfoInvalid);
                }
            },
            None => {},
        }
        match &self.info.files {
            None => Err(Error::MetainfoInvalid),
            Some(files) => {
                let mut sum: u64 = 0;
                let mut i: usize = 0;
                while i < files.len()
                    invariant
                        i <= files@.len(),
                        sum == files_length(file_views(files@), i as int),
                        self.info.length is None,
                        self.info.files == Some(*files),
                    decreases files@.len() - i,
                {
                    let length = files[i].length;
                    if length > u64::MAX - sum {
                        proof {
                            let views = file_views(files@);
                            lemma_files_length_grows(views, i + 1, files@.len() as int);
                            assert(files_length(views, i + 1) == files_length(views, i as int)
                                + views[i as int].length);
                        }
                        return Err(Error::MetainfoInvalid);
                    }
                    assert(file_views(files@)[i as int].length == length);
                    sum = sum + length;
                    i = i + 1;
                }
                Ok(sum)
            },
        }
    }

    /// How many pieces the metafile lists a hash for.
    pub fn piece_count(&self) -> (n: usize)
        ensures
            n == self.info.pieces@.len() / 20,
    {
        self.info.pieces.len() / 20
    }
}

} // verus!
