//! Cryptographic digests and their hex form, and checksum verification of
//! downloaded bytes.

use crate::errors::UhpmError;
use crate::text::digit_char;
use crate::text::push_char;
use crate::text::str_eq;
use crate::text::str_to_string;
use vstd::prelude::*;

verus! {

/// The SHA-256 digest of the bytes. Named only: nothing here restates the
/// algorithm.
pub uninterp spec fn sha256_of(data: Seq<u8>) -> Seq<u8>;

/// The SHA-1 digest of the bytes.
pub uninterp spec fn sha1_of(data: Seq<u8>) -> Seq<u8>;

/// The MD5 digest of the bytes.
pub uninterp spec fn md5_of(data: Seq<u8>) -> Seq<u8>;

/// Relies on sha2's Sha256 through the Digest trait: the digest is a
/// function of the input bytes alone.
#[verifier::external_body]
fn sha256_bytes(data: &[u8]) -> (r: Vec<u8>)
    ensures
        r@ == sha256_of(data@),
{
    <sha2::Sha256 as sha2::Digest>::digest(data).to_vec()
}

/// Relies on sha1's Sha1 through the Digest trait: the digest is a function
/// of the input bytes alone.
#[verifier::external_body]
fn sha1_bytes(data: &[u8]) -> (r: Vec<u8>)
    ensures
        r@ == sha1_of(data@),
{
    <sha1::Sha1 as sha1::Digest>::digest(data).to_vec()
}

/// Relies on md5's compute: the digest is a function of the input bytes
/// alone.
#[verifier::external_body]
fn md5_bytes(data: &[u8]) -> (r: Vec<u8>)
    ensures
        r@ == md5_of(data@),
{
    md5::compute(data).0.to_vec()
}

/// One lower-case hex digit.
pub open spec fn hex_digit(d: nat) -> char
    recommends
        d < 16,
{
    if d < 10 {
        digit_char(d)
    } else {
        (('a' as nat) + (d - 10)) as char
    }
}

/// The lower-case hex writing of bytes, two digits each.
pub open spec fn hex_of(bs: Seq<u8>) -> Seq<char>
    decreases bs.len(),
{
    if bs.len() == 0 {
        Seq::<char>::empty()
    } else {
        hex_of(bs.drop_last()) + seq![
            hex_digit(bs.last() as nat / 16),
            hex_digit(bs.last() as nat % 16),
        ]
    }
}

/// Writes bytes in lower-case hex.
pub fn to_hex(bytes: &Vec<u8>) -> (r: String)
    ensures
        r@ == hex_of(bytes@),
{
    let mut r = String::new();
    let n = bytes.len();
    let mut i: usize = 0;
    while i < n
        invariant
            0 <= i <= n,
            n == bytes@.len(),
            r@ == hex_of(bytes@.subrange(0, i as int)),
        decreases n - i,
    {
        let b = bytes[i];
        let hi: u8 = b / 16;
        let lo: u8 = b % 16;
        let hc: char = if hi < 10 {
            (hi + 48) as char
        } else {
            (hi + 87) as char
        };
        let lc: char = if lo < 10 {
            (lo + 48) as char
        } else {
            (lo + 87) as char
        };
        push_char(&mut r, hc);
        push_char(&mut r, lc);
        proof {
            assert(hc == hex_digit(b as nat / 16));
            assert(lc == hex_digit(b as nat % 16));
            assert(bytes@.subrange(0, i + 1).drop_last() =~= bytes@.subrange(0, i as int));
            assert(bytes@.subrange(0, i + 1).last() == bytes@[i as int]);
            assert(r@ =~= hex_of(bytes@.subrange(0, i + 1)));
        }
        i = i + 1;
    }
    proof {
        assert(bytes@.subrange(0, n as int) =~= bytes@);
    }
    r
}

/// A declared checksum: an algorithm name and a hex hash.
#[derive(Clone, Debug, PartialEq, Eq)]
pub struct Checksum {
    pub algorithm: String,
    pub hash: String,
}

impl Checksum {
    /// A field-by-field copy.
    pub fn duplicate(&self) -> (r: Checksum)
        ensures
            r.algorithm@ == self.algorithm@,
            r.hash@ == self.hash@,
    {
        Checksum {
            algorithm: str_to_string(self.algorithm.as_str()),
            hash: str_to_string(self.hash.as_str()),
        }
    }
}

/// What the named algorithm yields on the given bytes, in hex; nothing for
/// an unknown name.
pub open spec fn digest_hex(algorithm: Seq<char>, data: Seq<u8>) -> Option<Seq<char>> {
    if algorithm == "sha256"@ {
        Some(hex_of(sha256_of(data)))
    } else if algorithm == "sha1"@ {
        Some(hex_of(sha1_of(data)))
    } else if algorithm == "md5"@ {
        Some(hex_of(md5_of(data)))
    } else {
        None
    }
}

/// Runs the named algorithm over the bytes; `None` for an unknown name.
pub fn compute_digest_hex(algorithm: &str, data: &[u8]) -> (r: Option<String>)
    ensures
        match r {
            Some(h) => digest_hex(algorithm@, data@) == Some(h@),
            None => digest_hex(algorithm@, data@) is None,
        },
{
    if str_eq(algorithm, "sha256") {
        let d = sha256_bytes(data);
        Some(to_hex(&d))
    } else if str_eq(algorithm, "sha1") {
        let d = sha1_bytes(data);
        Some(to_hex(&d))
    } else if str_eq(algorithm, "md5") {
        let d = md5_bytes(data);
        Some(to_hex(&d))
    } else {
        None
    }
}

/// Whether data hashes to the checksum's hash under its algorithm:
/// `Ok(true)` when it does, `Ok(false)` when it does not, an error for an
/// unknown algorithm.
pub open spec fn checksum_verdict(c: Checksum, data: Seq<u8>) -> Option<bool> {
    match digest_hex(c.algorithm@, data) {
        Some(h) => Some(h == c.hash@),
        None => None,
    }
}

impl Checksum {
    /// Checks the bytes against this checksum.
    pub fn verify(&self, data: &[u8]) -> (r: Result<bool, UhpmError>)
        ensures
            match r {
                Ok(b) => checksum_verdict(*self, data@) == Some(b),
                Err(e) => checksum_verdict(*self, data@) is None && e matches
                    UhpmError::ValidationError(_),
            },
    {
        match compute_digest_hex(self.algorithm.as_str(), data) {
            Some(actual) => Ok(str_eq(actual.as_str(), self.hash.as_str())),
            None => Err(UhpmError::validation("unsupported checksum algorithm")),
        }
    }
}

/// Gate on downloaded bytes: accepted exactly when no checksum is declared
/// or the bytes hash to the declared value; a declared but unknown
/// algorithm is a validation error, a wrong hash a checksum mismatch.
pub fn accept_download(expected: &Option<Checksum>, data: &[u8], what: &str) -> (r: Result<
    (),
    UhpmError,
>)
    ensures
        match r {
            Ok(()) => match expected {
                Some(c) => checksum_verdict(*c, data@) == Some(true),
                None => true,
            },
            Err(e) => expected matches Some(c) && ((checksum_verdict(*c, data@) == Some(false)
                && (e matches UhpmError::ChecksumMismatch(w) && w@ == what@)) || (checksum_verdict(
                *c,
                data@,
            ) is None && (e matches UhpmError::ValidationError(_)))),
        },
{
    match expected {
        None => Ok(()),
        Some(c) => {
            match c.verify(data) {
                Ok(true) => Ok(()),
                Ok(false) => Err(UhpmError::ChecksumMismatch(str_to_string(what))),
                Err(e) => Err(e),
            }
        },
    }
}

} // verus!
