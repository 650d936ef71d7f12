//! Files found in a directory, and the parts of scanning a directory that
//! compute rather than touch the file system.

use vstd::prelude::*;
use crate::error::RuddError;
use crate::text::{bytes_to_lower_hex, is_lower_hex_digit, lemma_lower_hex_digits, lower_hex};

verus! {

/// A file found in a directory. Paths are held as the text they display as.
#[derive(Debug, PartialEq, Eq)]
pub struct FileEntry {
    /// Path relative to the scanned directory.
    pub relative_path: String,
    /// Absolute path of the file.
    pub absolute_path: String,
    /// MD5 checksum of the file's contents in lower-case hexadecimal, when it
    /// was computed.
    pub md5: Option<String>,
}

impl Clone for FileEntry {
    fn clone(&self) -> (r: Self)
        ensures
            r == *self,
    {
        let md5 = match &self.md5 {
            Some(h) => Some(h.clone()),
            None => None,
        };
        FileEntry {
            relative_path: self.relative_path.clone(),
            absolute_path: self.absolute_path.clone(),
            md5,
        }
    }
}

/// The MD5 digest of a message, as the md5 crate computes it.
pub uninterp spec fn md5_digest(data: Seq<u8>) -> Seq<u8>;

/// Calls `md5::compute`, which hashes `data` as one message and returns its
/// 16-byte digest. The contract only names that digest `md5_digest(data)`:
/// MD5 itself is not stated here.
#[verifier::external_body]
fn md5_compute(data: &[u8]) -> (digest: [u8; 16])
    ensures
        digest@ == md5_digest(data@),
{
    md5::compute(data).0
}

/// The MD5 checksum of `data` in lower-case hexadecimal, as the checksum of
/// a file's contents is written in a `FileEntry`: the 16 bytes of the digest,
/// two digits each, so 32 lower-case hexadecimal digits.
pub fn md5_hex(data: &[u8]) -> (hex: String)
    ensures
        hex@ == lower_hex(md5_digest(data@)),
        md5_digest(data@).len() == 16,
        hex@.len() == 32,
        forall|i: int| 0 <= i < hex@.len() ==> is_lower_hex_digit(#[trigger] hex@[i]),
{
    let digest = md5_compute(data);
    let hex = bytes_to_lower_hex(digest.as_slice());
    proof {
        lemma_lower_hex_digits(digest@);
    }
    hex
}

/// Decides whether a directory can be scanned, from whether its path exists
/// and whether it is a directory: a missing path is reported first.
pub fn check_scan_root(dir: &str, exists: bool, is_dir: bool) -> (r: Result<(), RuddError>)
    ensures
        match r {
            Ok(()) => exists && is_dir,
            Err(RuddError::DirectoryNotFound(p)) => !exists && p@ == dir@,
            Err(RuddError::NotADirectory(p)) => exists && !is_dir && p@ == dir@,
            Err(_) => false,
        },
{
    if !exists {
        return Err(RuddError::DirectoryNotFound(String::from_str(dir)));
    }
    if !is_dir {
        return Err(RuddError::NotADirectory(String::from_str(dir)));
    }
    Ok(())
}

} // verus!
