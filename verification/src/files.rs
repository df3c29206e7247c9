//! Where the content of a torrent goes on disk: the paths of its files and
//! the share of each piece that each file takes.
//!
//! The files themselves belong to the caller, who creates them and writes to
//! them. Pieces arrive in order, so the content is one run of bytes that
//! fills the files one after the other.

use vstd::prelude::*;
use crate::error::Error;
use crate::torrent::Torrent;

verus! {

/// One file of the output.
#[derive(Clone, Debug, PartialEq, Eq)]
pub struct FileSlot {
    /// The path of the file.
    pub path: String,
    /// The directories above the file that may have to be created,
    /// outermost first.
    pub dirs: Vec<String>,
    /// How many bytes the file holds when it is complete.
    pub length: u64,
    /// How many bytes have been written to it.
    pub written: u64,
}

impl FileSlot {
    /// How many bytes the file still takes.
    pub open spec fn room(self) -> int {
        if self.written <= self.length {
            self.length - self.written
        } else {
            0
        }
    }
}

/// The files of the output, in the order in which they are filled.
#[derive(Debug)]
pub struct Files(pub Vec<FileSlot>);

/// The range of a piece, from `start` up to `end`, that goes to one file.
#[derive(Clone, Copy, Debug, PartialEq, Eq)]
pub struct Share {
    pub start: usize,
    pub end: usize,
}

/// The path made of `root` and the first `n` of `parts`, with a `/` before
/// each part.
pub open spec fn path_under(root: Seq<char>, parts: Seq<String>, n: int) -> Seq<char>
    decreases n,
{
    if n <= 0 {
        root
    } else {
        path_under(root, parts, n - 1) + seq!['/'] + parts[n - 1]@
    }
}

/// How many of the first `n` bytes of a piece the first `i` files take.
pub open spec fn reach(slots: Seq<FileSlot>, n: int, i: int) -> int
    decreases i,
{
    if i <= 0 {
        0
    } else {
        let before = reach(slots, n, i - 1);
        if slots[i - 1].room() < n - before {
            before + slots[i - 1].room()
        } else {
            n
        }
    }
}

/// The first files take no more of a piece than the piece has, and the more
/// files the more they take.
pub proof fn lemma_reach_bounds(slots: Seq<FileSlot>, n: int, i: int)
    requires
        0 <= n,
    ensures
        0 <= reach(slots, n, i) <= n,
        i > 0 ==> reach(slots, n, i - 1) <= reach(slots, n, i),
    decreases i,
{
    if i > 0 {
        lemma_reach_bounds(slots, n, i - 1);
    }
}

/// Whether the slot is the one that `create_files` makes for file `i` of a
/// torrent of several files.
pub open spec fn slot_of_file(slot: FileSlot, root: Seq<char>, path: Seq<String>, length: u64) -> bool {
    &&& slot.path@ == path_under(root, path, path.len() as int)
    &&& slot.dirs@.len() == path.len() - 1
    &&& forall|k: int|
        0 <= k < slot.dirs@.len() ==> (#[trigger] slot.dirs@[k])@ == path_under(root, path, k + 1)
    &&& slot.length == length
    &&& slot.written == 0
}

/// Whether every file has a path of at least one part.
pub open spec fn all_have_paths(files: Seq<crate::torrent::File>) -> bool {
    forall|i: int| 0 <= i < files.len() ==> (#[trigger] files[i]).path@.len() > 0
}

impl Files {
    /// No files.
    pub fn new() -> (f: Self)
        ensures
            f.0@.len() == 0,
    {
        Self(Vec::new())
    }

    /// Adds the files of `torrent` below the directory `download_path`.
    ///
    /// A torrent of one file gets the file `download_path/name`. A torrent
    /// of several gets each of its files at its path below `download_path`,
    /// with the directories on the way to it. A file without a path is an
    /// error, and nothing is added.
    pub fn create_files(&mut self, torrent: &Torrent, download_path: &str) -> (r: Result<(), Error>)
        ensures
            match torrent.info.files {
                None => {
                    &&& r is Ok
                    &&& final(self).0@.len() == old(self).0@.len() + 1
                    &&& final(self).0@.subrange(0, old(self).0@.len() as int) == old(self).0@
                    &&& final(self).0@.last().path@ == download_path@ + seq!['/']
                        + torrent.info.name@
                    &&& final(self).0@.last().dirs@.len() == 0
                    &&& final(self).0@.last().length == match torrent.info.length {
                        Some(n) => if n >= 0 {
                            n as u64
                        } else {
                            0
                        },
                        None => 0,
                    }
                    &&& final(self).0@.last().written == 0
                },
                Some(files) => if all_have_paths(files@) {
                    &&& r is Ok
                    &&& final(self).0@.len() == old(self).0@.len() + files@.len()
                    &&& final(self).0@.subrange(0, old(self).0@.len() as int) == old(self).0@
                    &&& forall|i: int|
                        0 <= i < files@.len() ==> slot_of_file(
                            #[trigger] final(self).0@[old(self).0@.len() + i],
                            download_path@,
                            files@[i].path@,
                            files@[i].length,
                        )
                } else {
                    r == Err::<(), Error>(Error::MetainfoInvalid) && final(self).0@ == old(self).0@
                },
            },
    {
        match &torrent.info.files {
            None => {
                let mut path = download_path.to_owned();
                path.append("/");
                path.append(torrent.info.name.as_str());
                proof {
                    reveal_strlit("/");
                    assert("/"@ =~= seq!['/']);
                }
                let length: u64 = match torrent.info.length {
                    Some(n) => if n >= 0 {
                        n as u64
                    } else {
                        0
                    },
                    None => 0,
                };
                self.0.push(FileSlot { path, dirs: Vec::new(), length, written: 0 });
                assert(self.0@.subrange(0, old(self).0@.len() as int) =~= old(self).0@);
                Ok(())
            },
            Some(files) => {
                let mut i: usize = 0;
                while i < files.len()
                    invariant
                        i <= files@.len(),
                        torrent.info.files == Some(*files),
                        self.0@ == old(self).0@,
                        forall|k: int| 0 <= k < i ==> (#[trigger] files@[k]).path@.len() > 0,
                    decreases files@.len() - i,
                {
                    if files[i].path.len() == 0 {
                        assert(!(files@[i as int].path@.len() > 0));
                        assert(!all_have_paths(files@));
                        return Err(Error::MetainfoInvalid);
                    }
                    i = i + 1;
                }
                assert(all_have_paths(files@));
                let mut i: usize = 0;
                while i < files.len()
                    invariant
                        i <= files@.len(),
                        torrent.info.files == Some(*files),
                        all_have_paths(files@),
                        self.0@.len() == old(self).0@.len() + i,
                        self.0@.subrange(0, old(self).0@.len() as int) == old(self).0@,
                        forall|k: int|
                            0 <= k < i ==> slot_of_file(
                                #[trigger] self.0@[old(self).0@.len() + k],
                                download_path@,
                                files@[k].path@,
                                files@[k].length,
                            ),
                    decreases files@.len() - i,
                {
                    let slot = Self::slot_for(download_path, &files[i].path, files[i].length);
                    let ghost before = self.0@;
                    self.0.push(slot);
                    assert(self.0@.subrange(0, old(self).0@.len() as int) =~= before.subrange(
                        0,
                        old(self).0@.len() as int,
                    ));
                    assert forall|k: int| 0 <= k < i + 1 implies slot_of_file(
                        #[trigger] self.0@[old(self).0@.len() + k],
                        download_path@,
                        files@[k].path@,
                        files@[k].length,
                    ) by {
                        if k < i {
                            assert(self.0@[old(self).0@.len() + k] == before[old(self).0@.len() + k]);
                        }
                    }
                    i = i + 1;
                }
                Ok(())
            },
        }
    }

    /// The slot of a file at `parts` below `root`.
    fn slot_for(root: &str, parts: &Vec<String>, length: u64) -> (slot: FileSlot)
        requires
            parts@.len() > 0,
        ensures
            slot_of_file(slot, root@, parts@, length),
    {
        let mut path = root.to_owned();
        let mut dirs: Vec<String> = Vec::new();
        let mut k: usize = 0;
        proof {
            reveal_strlit("/");
            assert("/"@ =~= seq!['/']);
        }
        while k < parts.len() - 1
            invariant
                parts@.len() > 0,
                k <= parts@.len() - 1,
                "/"@ == seq!['/'],
                path@ == path_under(root@, parts@, k as int),
                dirs@.len() == k,
                forall|j: int|
                    0 <= j < k ==> (#[trigger] dirs@[j])@ == path_under(root@, parts@, j + 1),
            decreases parts@.len() - k,
        {
            path.append("/");
            path.append(parts[k].as_str());
            dirs.push(path.clone());
            k = k + 1;
        }
        path.append("/");
        path.append(parts[k].as_str());
        FileSlot { path, dirs, length, written: 0 }
    }

    /// Says which part of a piece of `piece_len` bytes goes to which file,
    /// and counts it as written.
    ///
    /// The result has one share for each file, in order. The shares follow
    /// one another from the start of the piece; each is as long as the file
    /// has room, until the piece is used up; the share of a file that takes
    /// nothing is empty. What no file has room for is left out.
    pub fn write_piece(&mut self, piece_len: usize) -> (shares: Vec<Share>)
        ensures
            shares@.len() == old(self).0@.len(),
            final(self).0@.len() == old(self).0@.len(),
            forall|i: int|
                0 <= i < shares@.len() ==> (#[trigger] shares@[i]).start == reach(
                    old(self).0@,
                    piece_len as int,
                    i,
                ) && shares@[i].end == reach(old(self).0@, piece_len as int, i + 1),
            forall|i: int|
                0 <= i < shares@.len() ==> {
                    &&& (#[trigger] final(self).0@[i]).path == old(self).0@[i].path
                    &&& final(self).0@[i].dirs == old(self).0@[i].dirs
                    &&& final(self).0@[i].length == old(self).0@[i].length
                    &&& final(self).0@[i].written == old(self).0@[i].written + (shares@[i].end
                        - shares@[i].start)
                    &&& old(self).0@[i].written <= old(self).0@[i].length ==> final(self).0@[i].written
                        <= final(self).0@[i].length
                },
    {
        let mut shares: Vec<Share> = Vec::new();
        let mut start: usize = 0;
        let mut i: usize = 0;
        let n = self.0.len();
        while i < n
            invariant
                i <= n,
                n == old(self).0@.len(),
                self.0@.len() == n,
                shares@.len() == i,
                start == reach(old(self).0@, piece_len as int, i as int),
                start <= piece_len,
                forall|k: int| i <= k < n ==> self.0@[k] == old(self).0@[k],
                forall|k: int|
                    0 <= k < i ==> (#[trigger] shares@[k]).start == reach(
                        old(self).0@,
                        piece_len as int,
                        k,
                    ) && shares@[k].end == reach(old(self).0@, piece_len as int, k + 1),
                forall|k: int|
                    0 <= k < i ==> {
                        &&& (#[trigger] self.0@[k]).path == old(self).0@[k].path
                        &&& self.0@[k].dirs == old(self).0@[k].dirs
                        &&& self.0@[k].length == old(self).0@[k].length
                        &&& self.0@[k].written == old(self).0@[k].written + (shares@[k].end
                            - shares@[k].start)
                        &&& old(self).0@[k].written <= old(self).0@[k].length ==> self.0@[k].written
                            <= self.0@[k].length
                    },
            decreases n - i,
        {
            let room: u64 = if self.0[i].written <= self.0[i].length {
                self.0[i].length - self.0[i].written
            } else {
                0
            };
            let left: usize = piece_len - start;
            let take: usize = if room < left as u64 {
                room as usize
            } else {
                left
            };
            let share = Share { start, end: start + take };
            let slot = &mut self.0[i];
            slot.written = slot.written + take as u64;
            shares.push(share);
            start = start + take;
            i = i + 1;
        }
        shares
    }
}

} // verus!
