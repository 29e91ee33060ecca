//! Save payload checksums (SHA-256 in lowercase hex) and the version and
//! checksum checks a save passes before it is loaded.

use vstd::prelude::*;

use sha2::{Digest, Sha256};

use crate::save_files::SAVE_FORMAT_VERSION;
use crate::strings::{chars_eq, chars_of, push_char};

verus! {

/// The SHA-256 digest of `data`.
pub uninterp spec fn sha256_of(data: Seq<u8>) -> Seq<u8>;

/// `sha2::Sha256::digest`: the digest is tied to the data through the name
/// `sha256_of` (the hash function itself is not restated); it is 32 bytes
/// long.
#[verifier::external_body]
fn sha256(data: &[u8]) -> (d: Vec<u8>)
    ensures
        d@ == sha256_of(data@),
        d@.len() == 32,
{
    Sha256::digest(data).to_vec()
}

/// Lowercase hex digit of `n < 16`.
pub open spec fn hex_digit(n: nat) -> char {
    if n < 10 {
        (('0' as u32) + n) as char
    } else {
        (('a' as u32) + (n - 10)) as char
    }
}

/// Bytes as lowercase hex, two digits each (`{:02x}`).
pub open spec fn hex_lower(bytes: Seq<u8>) -> Seq<char>
    decreases bytes.len(),
{
    if bytes.len() == 0 {
        Seq::empty()
    } else {
        hex_lower(bytes.drop_last()) + seq![
            hex_digit((bytes.last() / 16) as nat),
            hex_digit((bytes.last() % 16) as nat),
        ]
    }
}

fn hex_char(n: u8) -> (c: char)
    requires
        n < 16,
    ensures
        c == hex_digit(n as nat),
{
    if n < 10 {
        let c = (48u8 + n) as char;
        c
    } else {
        let c = (87u8 + n) as char;
        c
    }
}

/// Bytes as lowercase hex.
pub fn hex_string(bytes: &[u8]) -> (s: String)
    ensures
        s@ == hex_lower(bytes@),
{
    let mut s = String::new();
    let mut i: usize = 0;
    while i < bytes.len()
        invariant
            0 <= i <= bytes@.len(),
            s@ == hex_lower(bytes@.take(i as int)),
        decreases bytes@.len() - i,
    {
        let b = bytes[i];
        assert(bytes@.take(i + 1).drop_last() =~= bytes@.take(i as int));
        push_char(&mut s, hex_char(b / 16));
        push_char(&mut s, hex_char(b % 16));
        i += 1;
        assert(s@ =~= hex_lower(bytes@.take(i as int)));
    }
    assert(bytes@.take(bytes@.len() as int) =~= bytes@);
    s
}

/// The checksum of a save body: its SHA-256 digest in lowercase hex.
pub fn checksum_hex(body: &[u8]) -> (s: String)
    ensures
        s@ == hex_lower(sha256_of(body@)),
{
    let d = sha256(body);
    hex_string(d.as_slice())
}

/// Why a save is refused.
#[derive(Debug, Clone, Copy, PartialEq, Eq, Structural)]
pub enum SaveIssue {
    /// Written by a newer format than this one reads.
    Version {
        /// Found.
        found: u32,
        /// Supported max.
        max: u32,
    },
    /// Stored checksum differs from the body's.
    Checksum,
}

/// The check of a save: a newer format version is refused first; then a
/// stored checksum (when there is one) must equal the body's.
pub open spec fn save_check(version: u32, stored: Seq<char>, body: Seq<u8>) -> Result<(), SaveIssue> {
    if version > SAVE_FORMAT_VERSION {
        Err(SaveIssue::Version { found: version, max: SAVE_FORMAT_VERSION })
    } else if stored.len() > 0 && stored != hex_lower(sha256_of(body)) {
        Err(SaveIssue::Checksum)
    } else {
        Ok(())
    }
}

/// Validate a save's format version and checksum against its body.
pub fn check_save(version: u32, stored: &str, body: &[u8]) -> (r: Result<(), SaveIssue>)
    ensures
        r == save_check(version, stored@, body@),
{
    if version > SAVE_FORMAT_VERSION {
        return Err(SaveIssue::Version { found: version, max: SAVE_FORMAT_VERSION });
    }
    let s = chars_of(stored);
    if s.len() == 0 {
        return Ok(());
    }
    let expected = checksum_hex(body);
    let e = chars_of(expected.as_str());
    if !chars_eq(s.as_slice(), e.as_slice()) {
        return Err(SaveIssue::Checksum);
    }
    Ok(())
}

/// The format version after migration: version 0 reads as 1; a version newer
/// than this format is refused.
pub fn migrated_version(version: u32) -> (r: Result<u32, SaveIssue>)
    ensures
        r == (if version == 0 {
            Ok(1u32)
        } else if version > SAVE_FORMAT_VERSION {
            Err(SaveIssue::Version { found: version, max: SAVE_FORMAT_VERSION })
        } else {
            Ok(version)
        }),
{
    let v = if version == 0 {
        1
    } else {
        version
    };
    if v > SAVE_FORMAT_VERSION {
        return Err(SaveIssue::Version { found: v, max: SAVE_FORMAT_VERSION });
    }
    Ok(v)
}

} // verus!
