//! The decisions of the S3 PutObject and multipart-part upload handlers:
//! checksum validation, upload identifiers, where each block of a part goes,
//! and which state an uploaded object version ends in.

use crate::codec::{
    lemma_base64_unquoted, lemma_trim_quotes_unquoted,
    base64_encode, base64_encode_spec, hex_decodable, hex_decode, hex_decode_spec, hex_encode,
    hex_encode_spec, hex_encode_upper_spec, lemma_hex_roundtrip, lemma_hex_upper_roundtrip, trim_quotes, trim_quotes_end, trim_quotes_spec,
    trim_quotes_start,
};
use crate::digest::{
    md5_absorbed, md5_digest, md5_finalize, md5_new, md5_update, md5sum, sha256_absorbed,
    sha256_digest, sha256_finalize, sha256_new, sha256_update, sha256sum,
};
use crate::error::ApiError;
use crate::headers::ObjectVersionHeaders;
use crate::object::{
    clone_headers, uuid_eq, Hash32, ObjectVersion, ObjectVersionData, ObjectVersionMeta,
    ObjectVersionState, Uuid,
};
use vstd::prelude::*;

verus! {

/// Bodies whose first block is shorter than this are stored inline with the
/// object's metadata.
pub const INLINE_THRESHOLD: usize = 3072;

/// The message of a bad-request error, if the error is one.
pub open spec fn bad_request_msg(e: ApiError) -> Option<Seq<char>> {
    match e {
        ApiError::BadRequest(m) => Some(m@),
        _ => None,
    }
}

/// The message of a result's bad-request error, if it is one.
pub open spec fn err_msg<T>(r: Result<T, ApiError>) -> Option<Seq<char>> {
    match r {
        Err(e) => bad_request_msg(e),
        Ok(_) => None,
    }
}

/// The text of an optional string.
pub open spec fn opt_view(o: Option<&str>) -> Option<Seq<char>> {
    match o {
        Some(m) => Some(m@),
        None => None,
    }
}

fn bad_request(msg: &str) -> (e: ApiError)
    ensures
        bad_request_msg(e) == Some(msg@),
{
    ApiError::BadRequest(String::from_str(msg))
}

/// The signed SHA-256 of the content does not match the data.
pub open spec fn sha256_mismatch(data_sha256sum: Seq<u8>, content_sha256: Option<Hash32>) -> bool {
    content_sha256 matches Some(e) && e@ != data_sha256sum
}

/// The `content-md5` header, without its quotes, is not the Base64 MD5 of the
/// data.
pub open spec fn md5_mismatch(md5_base64: Seq<char>, content_md5: Option<Seq<char>>) -> bool {
    content_md5 matches Some(m) && trim_quotes_spec(m) != md5_base64
}

/// The error message an upload's checksums call for, if any: the signed
/// SHA-256 is checked first, then the `content-md5` header; each only when
/// given.
pub open spec fn checksum_error(
    md5_base64: Seq<char>,
    data_sha256sum: Seq<u8>,
    content_md5: Option<Seq<char>>,
    content_sha256: Option<Hash32>,
) -> Option<Seq<char>> {
    if sha256_mismatch(data_sha256sum, content_sha256) {
        Some("Unable to validate x-amz-content-sha256"@)
    } else if md5_mismatch(md5_base64, content_md5) {
        Some("Unable to validate content-md5"@)
    } else {
        None
    }
}

/// The verdict on an upload's checksums, given the Base64 text of the data's
/// MD5: the signed SHA-256 is checked first, then the `content-md5` header
/// (quotes around it are ignored); each is checked only when given.
pub fn check_checksums(
    md5_base64: &str,
    data_sha256sum: Hash32,
    content_md5: Option<&str>,
    content_sha256: Option<Hash32>,
) -> (r: Result<(), ApiError>)
    ensures
        r is Ok <==> checksum_error(
            md5_base64@,
            data_sha256sum@,
            opt_view(content_md5),
            content_sha256,
        ) is None,
        err_msg(r) == checksum_error(md5_base64@, data_sha256sum@, opt_view(content_md5), content_sha256),
{
    if let Some(expected_sha256) = content_sha256 {
        if !uuid_eq(&expected_sha256, &data_sha256sum) {
            return Err(bad_request("Unable to validate x-amz-content-sha256"));
        }
    }
    if let Some(expected_md5) = content_md5 {
        let trimmed = trim_quotes(expected_md5);
        let computed = String::from_str(md5_base64);
        if trimmed != computed {
            return Err(bad_request("Unable to validate content-md5"));
        }
    }
    Ok(())
}

/// Right checksums are never refused: a `content-md5` header holding the
/// standard Base64 text of the data's MD5 (bare or in double quotes) passes,
/// and so does a signed SHA-256 equal to the data's; a signed SHA-256 that
/// differs is refused first, whatever the header says.
pub proof fn lemma_right_checksums_accepted(md5: Seq<u8>, sha: Hash32, other: Hash32, header: Option<Seq<char>>)
    ensures
        checksum_error(base64_encode_spec(md5), sha@, Some(base64_encode_spec(md5)), Some(sha)) is None,
        checksum_error(
            base64_encode_spec(md5),
            sha@,
            Some(seq!['"'] + base64_encode_spec(md5) + seq!['"']),
            None,
        ) is None,
        checksum_error(base64_encode_spec(md5), sha@, None, Some(sha)) is None,
        checksum_error(base64_encode_spec(md5), sha@, None, None) is None,
        other@ != sha@ ==> checksum_error(base64_encode_spec(md5), sha@, header, Some(other))
            == Some("Unable to validate x-amz-content-sha256"@),
{
    lemma_base64_unquoted(md5);
    lemma_trim_quotes_unquoted(base64_encode_spec(md5));
}

/// Validates the MD5 of the data against the `content-md5` header and its
/// SHA-256 against the signed content hash; see [`check_checksums`].
pub fn ensure_checksum_matches(
    data_md5sum: &[u8],
    data_sha256sum: Hash32,
    content_md5: Option<&str>,
    content_sha256: Option<Hash32>,
) -> (r: Result<(), ApiError>)
    ensures
        r is Ok <==> checksum_error(
            base64_encode_spec(data_md5sum@),
            data_sha256sum@,
            opt_view(content_md5),
            content_sha256,
        ) is None,
        err_msg(r) == checksum_error(
            base64_encode_spec(data_md5sum@),
            data_sha256sum@,
            opt_view(content_md5),
            content_sha256,
        ),
{
    let md5_base64 = base64_encode(data_md5sum);
    check_checksums(md5_base64.as_str(), data_sha256sum, content_md5, content_sha256)
}

/// Upload identifiers: 64 hexadecimal digits.
pub open spec fn valid_upload_id(id: Seq<char>) -> bool {
    hex_decodable(id) && id.len() == 64
}

/// The object version identifier that an upload identifier stands for; any
/// other text than 64 hex digits is refused as a bad request.
pub fn decode_upload_id(id: &str) -> (r: Result<Uuid, ApiError>)
    ensures
        r is Ok <==> valid_upload_id(id@),
        r matches Ok(u) ==> u@ == hex_decode_spec(id@),
        r is Err ==> err_msg(r) == Some("Invalid upload ID"@),
{
    let id_bin = match hex_decode(id) {
        Ok(v) => v,
        Err(_) => {
            return Err(bad_request("Invalid upload ID"));
        },
    };
    if id_bin.len() != 32 {
        return Err(bad_request("Invalid upload ID"));
    }
    let mut uuid = [0u8; 32];
    let mut i: usize = 0;
    while i < 32
        invariant
            i <= 32,
            id_bin@.len() == 32,
            uuid@.len() == 32,
            forall|j: int| 0 <= j < i ==> uuid@[j] == id_bin@[j],
        decreases 32 - i,
    {
        uuid[i] = id_bin[i];
        i = i + 1;
    }
    assert(uuid@ =~= id_bin@);
    Ok(uuid)
}

/// The upload identifier of an object version: its identifier in lower-case
/// hexadecimal.
pub fn encode_upload_id(uuid: &Uuid) -> (r: String)
    ensures
        r@ == hex_encode_spec(uuid@),
{
    hex_encode(uuid)
}

/// The identifier that an upload reports for a version is accepted back, and
/// stands for that version.
pub proof fn lemma_upload_id_roundtrip(uuid: Uuid)
    ensures
        valid_upload_id(hex_encode_spec(uuid@)),
        hex_decode_spec(hex_encode_spec(uuid@)) == uuid@,
{
    lemma_hex_roundtrip(uuid@);
}

/// The identifier of a version written in upper-case hexadecimal is accepted
/// too, and stands for the same version.
pub proof fn lemma_upload_id_upper_roundtrip(uuid: Uuid)
    ensures
        valid_upload_id(hex_encode_upper_spec(uuid@)),
        hex_decode_spec(hex_encode_upper_spec(uuid@)) == uuid@,
{
    lemma_hex_upper_roundtrip(uuid@);
}

/// The place of one stored block: its part, offset in the part, content hash
/// and size.
#[derive(Debug, PartialEq, Eq)]
pub struct BlockPlacement {
    pub part_number: u64,
    pub offset: u64,
    pub hash: Hash32,
    pub size: u64,
}

/// Bookkeeping of the blocks of one part as they are stored: where the next
/// block goes, and the MD5 and SHA-256 of all data so far.
pub struct PartWriter {
    part_number: u64,
    next_offset: usize,
    md5: md5::Md5,
    sha256: sha2::Sha256,
    written: Ghost<Seq<u8>>,
}

impl PartWriter {
    /// The data of all blocks placed so far, in order.
    pub closed spec fn written(&self) -> Seq<u8> {
        self.written@
    }

    pub closed spec fn part(&self) -> u64 {
        self.part_number
    }

    pub closed spec fn wf(&self) -> bool {
        &&& md5_absorbed(self.md5) == self.written@
        &&& sha256_absorbed(self.sha256) == self.written@
        &&& self.next_offset == self.written@.len()
    }

    /// Starts a part with no block.
    pub fn start(part_number: u64) -> (w: Self)
        ensures
            w.wf(),
            w.part() == part_number,
            w.written() == Seq::<u8>::empty(),
    {
        PartWriter {
            part_number,
            next_offset: 0,
            md5: md5_new(),
            sha256: sha256_new(),
            written: Ghost(Seq::empty()),
        }
    }

    /// The number of bytes placed so far.
    pub fn written_len(&self) -> (r: usize)
        requires
            self.wf(),
        ensures
            r == self.written().len(),
    {
        self.next_offset
    }

    /// Places the next block of the part right after the previous ones.
    pub fn add_block(&mut self, block: &[u8], hash: Hash32) -> (p: BlockPlacement)
        requires
            old(self).wf(),
            old(self).written().len() + block@.len() <= usize::MAX,
        ensures
            final(self).wf(),
            final(self).part() == old(self).part(),
            final(self).written() == old(self).written() + block@,
            p.part_number == old(self).part(),
            p.offset == old(self).written().len(),
            p.hash == hash,
            p.size == block@.len(),
    {
        md5_update(&mut self.md5, block);
        sha256_update(&mut self.sha256, block);
        let offset = self.next_offset;
        let size = block.len();
        self.next_offset = self.next_offset + size;
        self.written = Ghost(self.written@ + block@);
        BlockPlacement { part_number: self.part_number, offset: offset as u64, hash, size: size as u64 }
    }

    /// The total size of the part and the MD5 and SHA-256 of all its data.
    pub fn finish(self) -> (r: (u64, [u8; 16], [u8; 32]))
        requires
            self.wf(),
        ensures
            r.0 == self.written().len(),
            r.1@ == md5_digest(self.written()),
            r.2@ == sha256_digest(self.written()),
    {
        let total = self.next_offset as u64;
        (total, md5_finalize(self.md5), sha256_finalize(self.sha256))
    }
}

/// Whether an upload whose first block has this length is stored inline.
pub fn is_inline(first_block_len: usize) -> (r: bool)
    ensures
        r == (first_block_len < INLINE_THRESHOLD),
{
    first_block_len < INLINE_THRESHOLD
}

/// The stored metadata of an upload of `size` bytes with the given etag.
pub open spec fn meta_is(m: ObjectVersionMeta, headers: ObjectVersionHeaders, size: u64, etag: Seq<char>) -> bool {
    &&& m.headers.content_type == headers.content_type
    &&& m.headers.other@ == headers.other@
    &&& m.size == size
    &&& m.etag@ == etag
}

/// The object version of a small upload, stored inline: complete, with the
/// data itself, its size, and the hex MD5 of the data as etag, once the
/// checksums are validated (see [`ensure_checksum_matches`]); also returns
/// the etag.
pub fn put_inline_version(
    uuid: Uuid,
    timestamp: u64,
    headers: ObjectVersionHeaders,
    data: Vec<u8>,
    content_md5: Option<&str>,
    content_sha256: Option<Hash32>,
) -> (r: Result<(ObjectVersion, String), ApiError>)
    ensures
        r is Ok <==> checksum_error(
            base64_encode_spec(md5_digest(data@)),
            sha256_digest(data@),
            opt_view(content_md5),
            content_sha256,
        ) is None,
        err_msg(r) == checksum_error(
            base64_encode_spec(md5_digest(data@)),
            sha256_digest(data@),
            opt_view(content_md5),
            content_sha256,
        ),
        r matches Ok((v, etag)) ==> {
            &&& etag@ == hex_encode_spec(md5_digest(data@))
            &&& v.uuid == uuid
            &&& v.timestamp == timestamp
            &&& v.state matches ObjectVersionState::Complete(ObjectVersionData::Inline(m, d)) && d@
                == data@ && meta_is(m, headers, data@.len() as u64, etag@)
        },
{
    let md5 = md5sum(data.as_slice());
    let sha = sha256sum(data.as_slice());
    let checked = ensure_checksum_matches(&md5, sha, content_md5, content_sha256);
    match checked {
        Err(e) => {
            return Err(e);
        },
        Ok(()) => {},
    }
    let etag = hex_encode(&md5);
    let size = data.len() as u64;
    let meta = ObjectVersionMeta { headers, size, etag: etag.clone() };
    let v = ObjectVersion {
        uuid,
        timestamp,
        state: ObjectVersionState::Complete(ObjectVersionData::Inline(meta, data)),
    };
    Ok((v, etag))
}

/// The object version recorded while a larger upload is in progress.
pub fn uploading_version(uuid: Uuid, timestamp: u64, headers: &ObjectVersionHeaders) -> (v:
    ObjectVersion)
    ensures
        v.uuid == uuid,
        v.timestamp == timestamp,
        v.state matches ObjectVersionState::Uploading(h) && h.content_type == headers.content_type
            && h.other@ == headers.other@,
{
    ObjectVersion { uuid, timestamp, state: ObjectVersionState::Uploading(clone_headers(headers)) }
}

/// The final object version of a larger upload, given what storing its blocks
/// gave (total size, MD5 and SHA-256 of the data, or an error): complete, with
/// the total size, the hex MD5 as etag and the first block's hash, when the
/// blocks were stored and the checksums are validated; aborted otherwise. Also
/// returns the etag, or the error to answer with.
pub fn put_final_version(
    uuid: Uuid,
    timestamp: u64,
    headers: ObjectVersionHeaders,
    stored: Result<(u64, [u8; 16], [u8; 32]), ApiError>,
    content_md5: Option<&str>,
    content_sha256: Option<Hash32>,
    first_block_hash: Hash32,
) -> (r: (ObjectVersion, Result<String, ApiError>))
    ensures
        r.0.uuid == uuid,
        r.0.timestamp == timestamp,
        match stored {
            Err(e) => r.0.state is Aborted && r.1 == Err::<String, ApiError>(e),
            Ok((size, md5, sha)) => if checksum_error(
                base64_encode_spec(md5@),
                sha@,
                opt_view(content_md5),
                content_sha256,
            ) is None {
                &&& r.1 matches Ok(etag) && etag@ == hex_encode_spec(md5@)
                &&& r.0.state matches ObjectVersionState::Complete(
                    ObjectVersionData::FirstBlock(m, h),
                ) && h == first_block_hash && meta_is(m, headers, size, hex_encode_spec(md5@))
            } else {
                &&& r.0.state is Aborted
                &&& r.1 is Err
                &&& err_msg(r.1) == checksum_error(
                    base64_encode_spec(md5@),
                    sha@,
                    opt_view(content_md5),
                    content_sha256,
                )
            },
        },
{
    match stored {
        Err(e) => (ObjectVersion { uuid, timestamp, state: ObjectVersionState::Aborted }, Err(e)),
        Ok((size, md5, sha)) => {
            match ensure_checksum_matches(&md5, sha, content_md5, content_sha256) {
                Err(e) => (
                    ObjectVersion { uuid, timestamp, state: ObjectVersionState::Aborted },
                    Err(e),
                ),
                Ok(()) => {
                    let etag = hex_encode(&md5);
                    let meta = ObjectVersionMeta { headers, size, etag: etag.clone() };
                    (
                        ObjectVersion {
                            uuid,
                            timestamp,
                            state: ObjectVersionState::Complete(
                                ObjectVersionData::FirstBlock(meta, first_block_hash),
                            ),
                        },
                        Ok(etag),
                    )
                },
            }
        },
    }
}

/// The etag of data with this MD5: the digest in lower-case hex.
pub fn md5_etag(md5: &[u8; 16]) -> (r: String)
    ensures
        r@ == hex_encode_spec(md5@),
{
    hex_encode(md5)
}

/// An etag as the `ETag` reply header carries it: in double quotes.
pub fn quoted_etag(md5sum_hex: &str) -> (r: String)
    ensures
        r@ == seq!['"'] + md5sum_hex@ + seq!['"'],
{
    let mut etag = String::from_str("\"");
    etag.append(md5sum_hex);
    etag.append("\"");
    proof {
        reveal_strlit("\"");
    }
    etag
}

/// The headers of the reply to a successful upload: the version identifier in
/// hex, and the etag in double quotes.
pub fn put_response(version_uuid: &Uuid, md5sum_hex: &str) -> (r: Vec<(String, String)>)
    ensures
        r@.len() == 2,
        r@[0].0@ == "x-amz-version-id"@,
        r@[0].1@ == hex_encode_spec(version_uuid@),
        r@[1].0@ == "ETag"@,
        r@[1].1@ == seq!['"'] + md5sum_hex@ + seq!['"'],
{
    let mut r: Vec<(String, String)> = Vec::new();
    r.push((String::from_str("x-amz-version-id"), hex_encode(version_uuid)));
    r.push((String::from_str("ETag"), quoted_etag(md5sum_hex)));
    r
}

/// The headers of the reply to a stored part: its etag in double quotes.
pub fn put_part_response(md5sum_hex: &str) -> (r: Vec<(String, String)>)
    ensures
        r@.len() == 1,
        r@[0].0@ == "ETag"@,
        r@[0].1@ == seq!['"'] + md5sum_hex@ + seq!['"'],
{
    let mut r: Vec<(String, String)> = Vec::new();
    r.push((String::from_str("ETag"), quoted_etag(md5sum_hex)));
    r
}

/// An etag that a reply gave in quotes, sent back by the client as it was,
/// reads back as the etag itself once the quotes are trimmed.
pub proof fn lemma_quoted_etag_roundtrip(digest: Seq<u8>)
    ensures
        trim_quotes_spec(seq!['"'] + hex_encode_spec(digest) + seq!['"']) == hex_encode_spec(digest),
{
    let h = hex_encode_spec(digest);
    let q = seq!['"'] + h + seq!['"'];
    assert forall|i: int| 0 <= i < h.len() implies #[trigger] h[i] != '"' by {
        let b = digest[i / 2] as int;
        assert(0 <= b / 16 < 16 && 0 <= b % 16 < 16);
    }
    assert(q.drop_first() =~= h + seq!['"']);
    assert(q[0] == '"');
    assert(trim_quotes_start(q) == trim_quotes_start(h + seq!['"']));
    if h.len() == 0 {
        let t = h + seq!['"'];
        assert(t[0] == '"');
        assert(t.drop_first() =~= Seq::<char>::empty());
        assert(trim_quotes_start(t) == trim_quotes_start(Seq::<char>::empty()));
        assert(trim_quotes_start(q) == Seq::<char>::empty());
    } else {
        assert((h + seq!['"'])[0] == h[0]);
        assert(trim_quotes_start(h + seq!['"']) == h + seq!['"']);
        assert(trim_quotes_start(q) == h + seq!['"']);
        assert((h + seq!['"']).drop_last() =~= h);
        assert(h.last() == h[h.len() - 1]);
        assert(trim_quotes_end(h) == h);
    }
}

} // verus!
