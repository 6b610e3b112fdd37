//! MD5 and SHA-256 hashing of uploaded data, absorbed piece by piece.

use md5::Digest;
use vstd::prelude::*;

verus! {

#[verifier::external_type_specification]
#[verifier::external_body]
pub struct ExMd5(md5::Md5);

#[verifier::external_type_specification]
#[verifier::external_body]
pub struct ExSha256(sha2::Sha256);

/// The bytes that an MD5 hasher has absorbed since it was created.
pub uninterp spec fn md5_absorbed(h: md5::Md5) -> Seq<u8>;

/// The MD5 digest of a byte string, as `Md5::finalize` computes it.
pub uninterp spec fn md5_digest(data: Seq<u8>) -> Seq<u8>;

/// The bytes that a SHA-256 hasher has absorbed since it was created.
pub uninterp spec fn sha256_absorbed(h: sha2::Sha256) -> Seq<u8>;

/// The SHA-256 digest of a byte string, as `Sha256::finalize` computes it.
pub uninterp spec fn sha256_digest(data: Seq<u8>) -> Seq<u8>;

/// `Md5::new`: a hasher that has absorbed nothing.
#[verifier::external_body]
pub(crate) fn md5_new() -> (h: md5::Md5)
    ensures
        md5_absorbed(h) == Seq::<u8>::empty(),
{
    md5::Md5::new()
}

/// `Digest::update` on an MD5 hasher: `data` is absorbed after what the
/// hasher held.
#[verifier::external_body]
pub(crate) fn md5_update(h: &mut md5::Md5, data: &[u8])
    ensures
        md5_absorbed(*final(h)) == md5_absorbed(*old(h)) + data@,
{
    Digest::update(h, data)
}

/// `Digest::finalize` on an MD5 hasher: the 16-byte digest of all that it
/// absorbed.
#[verifier::external_body]
pub(crate) fn md5_finalize(h: md5::Md5) -> (r: [u8; 16])
    ensures
        r@ == md5_digest(md5_absorbed(h)),
{
    Digest::finalize(h).into()
}

/// `Sha256::new`: a hasher that has absorbed nothing.
#[verifier::external_body]
pub(crate) fn sha256_new() -> (h: sha2::Sha256)
    ensures
        sha256_absorbed(h) == Seq::<u8>::empty(),
{
    sha2::Sha256::new()
}

/// `Digest::update` on a SHA-256 hasher: `data` is absorbed after what the
/// hasher held.
#[verifier::external_body]
pub(crate) fn sha256_update(h: &mut sha2::Sha256, data: &[u8])
    ensures
        sha256_absorbed(*final(h)) == sha256_absorbed(*old(h)) + data@,
{
    Digest::update(h, data)
}

/// `Digest::finalize` on a SHA-256 hasher: the 32-byte digest of all that it
/// absorbed.
#[verifier::external_body]
pub(crate) fn sha256_finalize(h: sha2::Sha256) -> (r: [u8; 32])
    ensures
        r@ == sha256_digest(sha256_absorbed(h)),
{
    Digest::finalize(h).into()
}

/// The MD5 digest of `data`.
pub fn md5sum(data: &[u8]) -> (r: [u8; 16])
    ensures
        r@ == md5_digest(data@),
{
    let mut h = md5_new();
    md5_update(&mut h, data);
    assert(Seq::<u8>::empty() + data@ =~= data@);
    md5_finalize(h)
}

/// The SHA-256 digest of `data`.
pub fn sha256sum(data: &[u8]) -> (r: [u8; 32])
    ensures
        r@ == sha256_digest(data@),
{
    let mut h = sha256_new();
    sha256_update(&mut h, data);
    assert(Seq::<u8>::empty() + data@ =~= data@);
    sha256_finalize(h)
}

} // verus!
