//! The parts of a metainfo file that the download reads.

use vstd::prelude::*;
use crate::hash::{sha1_digest, sha1_of, Hashes};

verus! {

/// One file of a multi-file torrent.
#[derive(Debug, Clone)]
pub struct FileInfo {
    pub length: usize,
    /// Directory names, then the file's name.
    pub path: Vec<String>,
}

/// The content's layout: one file, or files one after another.
#[derive(Debug, Clone)]
pub enum Keys {
    SingleFile { length: usize },
    MultiFile { files: Vec<FileInfo> },
}

#[derive(Debug, Clone)]
pub struct Info {
    /// The suggested name.
    pub name: String,
    /// The length of every piece but possibly the last.
    pub plength: usize,
    pub pieces: Hashes,
    pub keys: Keys,
}

#[derive(Debug, Clone)]
pub struct Torrent {
    /// The tracker's URL.
    pub announce: String,
    pub info: Info,
}

/// The sum of the files' lengths.
pub open spec fn files_total(files: Seq<FileInfo>) -> int
    decreases files.len(),
{
    if files.len() == 0 {
        0
    } else {
        files_total(files.drop_last()) + files.last().length
    }
}

/// The content's length.
pub open spec fn total_length(keys: Keys) -> int {
    match keys {
        Keys::SingleFile { length } => length as int,
        Keys::MultiFile { files } => files_total(files@),
    }
}

/// The info hash: the SHA-1 digest of the encoded info dictionary.
pub fn info_hash_of(encoded_info: &[u8]) -> (r: [u8; 20])
    ensures
        r@ == sha1_of(encoded_info@),
{
    sha1_digest(encoded_info)
}

impl Torrent {
    /// The content's length, or `None` where it does not fit a `usize`.
    pub fn checked_length(&self) -> (r: Option<usize>)
        ensures
            r matches Some(n) ==> n == total_length(self.info.keys),
            r is None ==> total_length(self.info.keys) > usize::MAX,
    {
        match &self.info.keys {
            Keys::SingleFile { length } => Some(*length),
            Keys::MultiFile { files } => {
                let mut sum: usize = 0;
                let mut i: usize = 0;
                while i < files.len()
                    invariant
                        self.info.keys == (Keys::MultiFile { files: *files }),
                        i <= files@.len(),
                        sum == files_total(files@.take(i as int)),
                    decreases files@.len() - i,
                {
                    assert(files@.take(i + 1int).drop_last() =~= files@.take(i as int));
                    if files[i].length > usize::MAX - sum {
                        proof {
                            assert(files@.take(i + 1int).last() == files@[i as int]);
                            assert(files_total(files@.take(i + 1int)) > usize::MAX);
                            lemma_files_total_prefix(files@, i + 1int);
                        }
                        return None;
                    }
                    sum = sum + files[i].length;
                    i += 1;
                }
                assert(files@.take(i as int) =~= files@);
                Some(sum)
            },
        }
    }

    /// The content's length.
    pub fn length(&self) -> (r: usize)
        requires
            total_length(self.info.keys) <= usize::MAX,
        ensures
            r == total_length(self.info.keys),
    {
        match self.checked_length() {
            Some(n) => n,
            None => 0,
        }
    }
}

/// The total of the whole list is at least that of a prefix.
proof fn lemma_files_total_prefix(files: Seq<FileInfo>, n: int)
    requires
        0 <= n <= files.len(),
    ensures
        files_total(files.take(n)) <= files_total(files),
    decreases files.len(),
{
    if n < files.len() {
        assert(files.drop_last().take(n) =~= files.take(n));
        lemma_files_total_prefix(files.drop_last(), n);
    } else {
        assert(files.take(n) =~= files);
    }
}

impl Info {
    /// The content's files in order; a single-file torrent has one, named
    /// after the torrent.
    pub fn into_files(self) -> (r: Vec<FileInfo>)
        ensures
            match self.keys {
                Keys::SingleFile { length } => r@.len() == 1 && r@[0].length == length
                    && r@[0].path@.len() == 1 && r@[0].path@[0] == self.name,
                Keys::MultiFile { files } => r@ == files@,
            },
    {
        match self.keys {
            Keys::SingleFile { length } => {
                let mut path: Vec<String> = Vec::new();
                path.push(self.name);
                let mut v: Vec<FileInfo> = Vec::new();
                v.push(FileInfo { length, path });
                v
            },
            Keys::MultiFile { files } => files,
        }
    }
}

} // verus!
