//! The decisions of the multipart upload handlers: creating an upload,
//! accepting a part, completing and aborting an upload, and their XML
//! replies.

use crate::codec::{
    append_decimal, base64_encode_spec, decimal_spec, hex_decodable, hex_decode, hex_decode_spec, hex_encode,
    hex_encode_spec, parse_u64, parse_u64_spec,
};
use crate::digest::{md5_absorbed, md5_digest, md5_finalize, md5_new, md5_update};
use crate::error::ApiError;
use crate::headers::ObjectVersionHeaders;
use crate::object::{
    aborted_copy, blocks_put, clone_headers, find_uploading_version, is_upload_of, lemma_upload_position,
    upload_position, Hash32, Object, PartInfo, ObjectVersion, ObjectVersionData, ObjectVersionMeta,
    ObjectVersionState, Uuid, Version, VersionBlock, VersionBlockKey,
};
use crate::s3_put::{
    bad_request_msg, checksum_error, ensure_checksum_matches, err_msg, lemma_upload_id_roundtrip,
    md5_etag, opt_view, valid_upload_id, BlockPlacement,
};
use crate::xml::{part_view, CompleteMultipartUploadPart};
use vstd::prelude::*;

verus! {

fn bad_request(msg: &str) -> (e: ApiError)
    ensures
        bad_request_msg(e) == Some(msg@),
{
    ApiError::BadRequest(String::from_str(msg))
}

/// What a character becomes in XML text: `<`, `>` and `"` are escaped.
pub open spec fn escape_char(c: char) -> Seq<char> {
    if c == '<' {
        "&lt;"@
    } else if c == '>' {
        "&gt;"@
    } else if c == '"' {
        "&quot;"@
    } else {
        seq![c]
    }
}

/// Text escaped for XML, character by character.
pub open spec fn xml_escape_spec(s: Seq<char>) -> Seq<char>
    decreases s.len(),
{
    if s.len() == 0 {
        Seq::empty()
    } else {
        xml_escape_spec(s.drop_last()) + escape_char(s.last())
    }
}

/// Escapes `<`, `>` and `"` in text that goes into an XML reply.
pub fn xml_escape(s: &str) -> (r: String)
    ensures
        r@ == xml_escape_spec(s@),
{
    let n = s.unicode_len();
    let mut r = String::new();
    let mut i: usize = 0;
    assert(s@.take(0) =~= Seq::<char>::empty());
    while i < n
        invariant
            i <= n,
            n == s@.len(),
            r@ == xml_escape_spec(s@.take(i as int)),
        decreases n - i,
    {
        let c = s.get_char(i);
        assert(s@.take(i + 1).drop_last() =~= s@.take(i as int));
        assert(s@.take(i + 1).last() == c);
        if c == '<' {
            r.append("&lt;");
        } else if c == '>' {
            r.append("&gt;");
        } else if c == '"' {
            r.append("&quot;");
        } else {
            let one = s.substring_char(i, i + 1);
            assert(one@ =~= seq![c]);
            r.append(one);
        }
        i = i + 1;
    }
    assert(s@.take(n as int) =~= s@);
    r
}

/// The reply to a CreateMultipartUpload request.
pub open spec fn initiate_result_spec(bucket: Seq<char>, key: Seq<char>, upload_id: Seq<char>) -> Seq<
    char,
> {
    "<?xml version=\"1.0\" encoding=\"UTF-8\"?>\n"@
        + "<InitiateMultipartUploadResult xmlns=\"http://s3.amazonaws.com/doc/2006-03-01/\">\n"@
        + "\t<Bucket>"@ + bucket + "</Bucket>\n"@ + "\t<Key>"@ + xml_escape_spec(key)
        + "</Key>\n"@ + "\t<UploadId>"@ + upload_id + "</UploadId>\n"@
        + "</InitiateMultipartUploadResult>\n"@
}

/// The reply to CreateMultipartUpload names the upload: between `<UploadId>`
/// and `</UploadId>` it holds, after the bucket and the escaped key, text that
/// the upload identifier check accepts and decodes to the identifier of the
/// created version.
pub proof fn lemma_create_reply_names_upload(bucket: Seq<char>, key: Seq<char>, uuid: Uuid)
    ensures
        exists|id: Seq<char>|
            initiate_result_spec(bucket, key, hex_encode_spec(uuid@))
                == "<?xml version=\"1.0\" encoding=\"UTF-8\"?>\n"@
                + "<InitiateMultipartUploadResult xmlns=\"http://s3.amazonaws.com/doc/2006-03-01/\">\n"@
                + "\t<Bucket>"@ + bucket + "</Bucket>\n"@ + "\t<Key>"@ + xml_escape_spec(key)
                + "</Key>\n"@ + "\t<UploadId>"@ + id + "</UploadId>\n"@
                + "</InitiateMultipartUploadResult>\n"@ && #[trigger] valid_upload_id(id)
                && hex_decode_spec(id) == uuid@,
{
    let id = hex_encode_spec(uuid@);
    lemma_upload_id_roundtrip(uuid);
    assert(valid_upload_id(id));
}

/// A new multipart upload: the object with one version being uploaded, the
/// version's empty block list, and the XML reply that gives the upload
/// identifier (the version identifier in hex).
pub fn create_multipart_upload(
    uuid: Uuid,
    timestamp: u64,
    headers: ObjectVersionHeaders,
    bucket: &str,
    key: &str,
) -> (r: (Object, Version, String))
    ensures
        r.0.bucket@ == bucket@,
        r.0.key@ == key@,
        r.0.versions@.len() == 1,
        r.0.versions@[0].uuid == uuid,
        r.0.versions@[0].timestamp == timestamp,
        r.0.versions@[0].state == ObjectVersionState::Uploading(headers),
        r.1.uuid == uuid,
        r.1.bucket@ == bucket@,
        r.1.key@ == key@,
        !r.1.deleted,
        r.1.blocks@.len() == 0,
        r.1.parts@.len() == 0,
        r.2@ == initiate_result_spec(bucket@, key@, hex_encode_spec(uuid@)),
{
    let version = ObjectVersion { uuid, timestamp, state: ObjectVersionState::Uploading(headers) };
    let mut versions = Vec::new();
    versions.push(version);
    let object = Object {
        bucket: String::from_str(bucket),
        key: String::from_str(key),
        versions,
    };
    let block_list = Version::new(uuid, String::from_str(bucket), String::from_str(key), false);
    let mut xml = String::from_str("<?xml version=\"1.0\" encoding=\"UTF-8\"?>\n");
    xml.append(
        "<InitiateMultipartUploadResult xmlns=\"http://s3.amazonaws.com/doc/2006-03-01/\">\n",
    );
    xml.append("\t<Bucket>");
    xml.append(bucket);
    xml.append("</Bucket>\n");
    xml.append("\t<Key>");
    let escaped = xml_escape(key);
    xml.append(escaped.as_str());
    xml.append("</Key>\n");
    xml.append("\t<UploadId>");
    let id = hex_encode(&uuid);
    xml.append(id.as_str());
    xml.append("</UploadId>\n");
    xml.append("</InitiateMultipartUploadResult>\n");
    (object, block_list, xml)
}

/// A created upload accepts its parts: the upload identifier of the reply is
/// accepted, and the version it decodes to is an open upload of the object
/// that creating the upload stores.
pub proof fn lemma_created_upload_accepts_parts(o: Object, uuid: Uuid, u: Uuid)
    requires
        o.versions@.len() == 1,
        o.versions@[0].uuid == uuid,
        o.versions@[0].state is Uploading,
        u@ == hex_decode_spec(hex_encode_spec(uuid@)),
    ensures
        valid_upload_id(hex_encode_spec(uuid@)),
        upload_position(o.versions@, u) == Some(0int),
{
    lemma_upload_id_roundtrip(uuid);
    assert(is_upload_of(o.versions@[0], u));
}

/// The number of a part, as given in the request; anything but a decimal
/// `u64` is refused.
pub fn parse_part_number(s: &str) -> (r: Result<u64, ApiError>)
    ensures
        match parse_u64_spec(s@) {
            Some(n) => r == Ok::<u64, ApiError>(n),
            None => err_msg(r) == Some("Invalid part number"@),
        },
{
    match parse_u64(s) {
        Some(n) => Ok(n),
        None => Err(bad_request("Invalid part number")),
    }
}

/// Whether a part may be stored: the body must not be empty, the object must
/// exist, and one of its versions must be the upload in progress.
pub fn check_part_upload(has_first_block: bool, object: Option<&Object>, upload: &Uuid) -> (r:
    Result<(), ApiError>)
    ensures
        !has_first_block ==> err_msg(r) == Some("Empty body"@),
        has_first_block && object is None ==> err_msg(r) == Some("Object not found"@),
        has_first_block ==> (object matches Some(o) ==> if upload_position(
            o.versions@,
            *upload,
        ) is Some {
            r is Ok
        } else {
            r == Err::<(), ApiError>(ApiError::NotFound)
        }),
{
    if !has_first_block {
        return Err(bad_request("Empty body"));
    }
    let object = match object {
        None => {
            return Err(bad_request("Object not found"));
        },
        Some(o) => o,
    };
    match find_uploading_version(&object.versions, upload) {
        None => Err(ApiError::NotFound),
        Some(i) => Ok(()),
    }
}

/// A reference from a stored block to the version that uses it.
#[derive(Debug, PartialEq, Eq)]
pub struct BlockRef {
    pub block: Hash32,
    pub version: Uuid,
    pub deleted: bool,
}

/// The records that place one block: a copy of `version` with the block put
/// in its block list, and the reference from the block to the version.
pub fn put_block_meta(version: &Version, p: &BlockPlacement) -> (r: (Version, BlockRef))
    requires
        version.wf(),
    ensures
        r.0.uuid == version.uuid,
        r.0.bucket == version.bucket,
        r.0.key == version.key,
        r.0.deleted == version.deleted,
        r.0.blocks@ == blocks_put(
            version.blocks@,
            (
                VersionBlockKey { part_number: p.part_number, offset: p.offset },
                VersionBlock { hash: p.hash, size: p.size },
            ),
        ),
        r.0.parts@ == version.parts@,
        r.0.wf(),
        r.1 == (BlockRef { block: p.hash, version: version.uuid, deleted: false }),
{
    let mut v = version.copy();
    v.put_block(
        VersionBlockKey { part_number: p.part_number, offset: p.offset },
        VersionBlock { hash: p.hash, size: p.size },
    );
    let block_ref = BlockRef { block: p.hash, version: v.uuid, deleted: false };
    (v, block_ref)
}

/// The record of a stored part: the version `uuid` with the part's etag
/// and the size of its data.
pub fn part_version(
    uuid: Uuid,
    bucket: &str,
    key: &str,
    part_number: u64,
    etag: String,
    size: u64,
) -> (v: Version)
    ensures
        v.uuid == uuid,
        v.bucket@ == bucket@,
        v.key@ == key@,
        !v.deleted,
        v.blocks@.len() == 0,
        v.parts@ == seq![(part_number, PartInfo { etag, size })],
        v.wf(),
{
    let mut v = Version::new(uuid, String::from_str(bucket), String::from_str(key), false);
    let ghost e = (part_number, PartInfo { etag, size });
    v.parts.push((part_number, PartInfo { etag, size }));
    assert(v.parts@ =~= seq![e]);
    v
}

/// The record of a part whose blocks were stored, given what storing them
/// gave (total size, MD5 and SHA-256 of the data): once the checksums are
/// validated (see [`ensure_checksum_matches`]), the version `uuid` with the
/// part's etag (hex MD5) and size, and the etag.
pub fn record_part(
    uuid: Uuid,
    bucket: &str,
    key: &str,
    part_number: u64,
    stored: (u64, [u8; 16], [u8; 32]),
    content_md5: Option<&str>,
    content_sha256: Option<Hash32>,
) -> (r: Result<(Version, String), ApiError>)
    ensures
        r is Ok <==> checksum_error(
            base64_encode_spec(stored.1@),
            stored.2@,
            opt_view(content_md5),
            content_sha256,
        ) is None,
        err_msg(r) == checksum_error(
            base64_encode_spec(stored.1@),
            stored.2@,
            opt_view(content_md5),
            content_sha256,
        ),
        r matches Ok((v, etag)) ==> {
            &&& etag@ == hex_encode_spec(stored.1@)
            &&& v.uuid == uuid
            &&& v.bucket@ == bucket@
            &&& v.key@ == key@
            &&& !v.deleted
            &&& v.blocks@.len() == 0
            &&& v.parts@.len() == 1
            &&& v.parts@[0].0 == part_number
            &&& v.parts@[0].1.etag@ == etag@
            &&& v.parts@[0].1.size == stored.0
            &&& v.wf()
        },
{
    let (size, md5, sha) = stored;
    match ensure_checksum_matches(&md5, sha, content_md5, content_sha256) {
        Err(e) => Err(e),
        Ok(()) => {
            let etag = md5_etag(&md5);
            let v = part_version(uuid, bucket, key, part_number, etag.clone(), size);
            Ok((v, etag))
        },
    }
}

/// Part `n` is one of the parts of the list.
pub open spec fn is_listed(p: Seq<(u64, PartInfo)>, n: u64) -> bool {
    exists|i: int| 0 <= i < p.len() && #[trigger] p[i].0 == n
}

/// The blocks that belong to the parts of the list, in block-list order;
/// blocks of other parts (left by an upload of a part that did not finish)
/// are left out.
pub open spec fn listed_blocks(b: Seq<(VersionBlockKey, VersionBlock)>, p: Seq<(u64, PartInfo)>) -> Seq<
    (VersionBlockKey, VersionBlock),
>
    decreases b.len(),
{
    if b.len() == 0 {
        Seq::empty()
    } else {
        let r = listed_blocks(b.drop_last(), p);
        if is_listed(p, b.last().0.part_number) {
            r.push(b.last())
        } else {
            r
        }
    }
}

/// Every etag of the list is hexadecimal text.
pub open spec fn etags_decodable(p: Seq<(u64, PartInfo)>) -> bool {
    forall|i: int| 0 <= i < p.len() ==> hex_decodable(#[trigger] p[i].1.etag@)
}

/// The binary MD5 digests of the parts, one after the other: each etag
/// decoded from hexadecimal.
pub open spec fn part_digests(p: Seq<(u64, PartInfo)>) -> Seq<u8>
    decreases p.len(),
{
    if p.len() == 0 {
        Seq::empty()
    } else {
        part_digests(p.drop_last()) + hex_decode_spec(p.last().1.etag@)
    }
}

/// The sum of the recorded sizes of the parts.
pub open spec fn parts_total(p: Seq<(u64, PartInfo)>) -> int
    decreases p.len(),
{
    if p.len() == 0 {
        0
    } else {
        parts_total(p.drop_last()) + p.last().1.size
    }
}

/// The etag of a completed multipart upload: the hex MD5 of the binary MD5
/// digests of its parts one after the other, a dash, and the number of
/// parts.
pub open spec fn multipart_etag_spec(v: Version) -> Seq<char> {
    hex_encode_spec(md5_digest(part_digests(v.parts@))) + "-"@ + decimal_spec(
        v.parts@.len(),
    )
}

/// The parts that the client lists are those stored, in the same order.
pub open spec fn same_parts(req: Seq<CompleteMultipartUploadPart>, stored: Seq<(u64, PartInfo)>) -> bool {
    &&& req.len() == stored.len()
    &&& forall|i: int|
        0 <= i < req.len() ==> #[trigger] part_view(req[i]) == (stored[i].1.etag@, stored[i].0)
}

/// Completing checks the client's part list pair by pair: it names the
/// stored parts exactly when it has as many entries, and each gives the
/// number and the etag of the stored part at its place. A list naming a part
/// number that differs from the stored one is refused, whatever its etags.
pub proof fn lemma_same_parts_pairwise(req: Seq<CompleteMultipartUploadPart>, stored: Seq<(u64, PartInfo)>)
    ensures
        same_parts(req, stored) <==> (req.len() == stored.len() && forall|i: int|
            0 <= i < req.len() ==> #[trigger] req[i].part_number == stored[i].0 && req[i].etag@
                == stored[i].1.etag@),
{
    if same_parts(req, stored) {
        assert forall|i: int| 0 <= i < req.len() implies #[trigger] req[i].part_number == stored[i].0
            && req[i].etag@ == stored[i].1.etag@ by {
            assert(part_view(req[i]) == (stored[i].1.etag@, stored[i].0));
        }
    }
    if req.len() == stored.len() && forall|i: int|
        0 <= i < req.len() ==> #[trigger] req[i].part_number == stored[i].0 && req[i].etag@
            == stored[i].1.etag@ {
        assert forall|i: int| 0 <= i < req.len() implies #[trigger] part_view(req[i]) == (
            stored[i].1.etag@,
            stored[i].0,
        ) by {
            assert(req[i].part_number == stored[i].0);
        }
    }
}

/// Whether the client lists the stored parts, in order.
pub fn check_same_parts(req: &Vec<CompleteMultipartUploadPart>, stored: &Vec<(u64, PartInfo)>) -> (r:
    bool)
    ensures
        r == same_parts(req@, stored@),
{
    if req.len() != stored.len() {
        return false;
    }
    let mut i: usize = 0;
    while i < req.len()
        invariant
            i <= req@.len(),
            req@.len() == stored@.len(),
            forall|j: int|
                0 <= j < i ==> #[trigger] part_view(req@[j]) == (stored@[j].1.etag@, stored@[j].0),
        decreases req@.len() - i,
    {
        if req[i].part_number != stored[i].0 || req[i].etag != stored[i].1.etag {
            assert(part_view(req@[i as int]) != (stored@[i as int].1.etag@, stored@[i as int].0));
            return false;
        }
        i = i + 1;
    }
    true
}

/// The etag of a completed multipart upload (see [`multipart_etag_spec`]).
pub fn multipart_etag(v: &Version) -> (r: String)
    requires
        etags_decodable(v.parts@),
    ensures
        r@ == multipart_etag_spec(*v),
{
    let mut h = md5_new();
    let mut i: usize = 0;
    while i < v.parts.len()
        invariant
            i <= v.parts@.len(),
            etags_decodable(v.parts@),
            md5_absorbed(h) == part_digests(v.parts@.take(i as int)),
        decreases v.parts@.len() - i,
    {
        assert(v.parts@.take(i + 1).drop_last() =~= v.parts@.take(i as int));
        assert(hex_decodable(v.parts@[i as int].1.etag@));
        match hex_decode(v.parts[i].1.etag.as_str()) {
            Ok(bytes) => {
                md5_update(&mut h, bytes.as_slice());
            },
            Err(_) => {
                assert(false);
            },
        }
        i = i + 1;
    }
    assert(v.parts@.take(v.parts@.len() as int) =~= v.parts@);
    let digest = md5_finalize(h);
    let mut etag = hex_encode(&digest);
    etag.append("-");
    append_decimal(&mut etag, v.parts.len() as u64);
    etag
}

/// Whether part `n` is one of the parts of the list.
fn part_listed(p: &Vec<(u64, PartInfo)>, n: u64) -> (r: bool)
    ensures
        r == is_listed(p@, n),
{
    let mut i: usize = 0;
    while i < p.len()
        invariant
            i <= p@.len(),
            forall|j: int| 0 <= j < i ==> #[trigger] p@[j].0 != n,
        decreases p@.len() - i,
    {
        if p[i].0 == n {
            assert(p@[i as int].0 == n);
            return true;
        }
        i = i + 1;
    }
    false
}

/// The blocks of a block list that belong to the parts of the part list
/// (see [`listed_blocks`]).
pub fn listed_blocks_of(b: &Vec<(VersionBlockKey, VersionBlock)>, p: &Vec<(u64, PartInfo)>) -> (r: Vec<
    (VersionBlockKey, VersionBlock),
>)
    ensures
        r@ == listed_blocks(b@, p@),
{
    let mut r: Vec<(VersionBlockKey, VersionBlock)> = Vec::new();
    let mut i: usize = 0;
    while i < b.len()
        invariant
            i <= b@.len(),
            r@ == listed_blocks(b@.take(i as int), p@),
        decreases b@.len() - i,
    {
        assert(b@.take(i + 1).drop_last() =~= b@.take(i as int));
        assert(b@.take(i + 1).last() == b@[i as int]);
        let e = b[i];
        if part_listed(p, e.0.part_number) {
            r.push(e);
        }
        i = i + 1;
    }
    assert(b@.take(b@.len() as int) =~= b@);
    r
}

/// The total size of the parts of a part list.
pub fn total_size(p: &Vec<(u64, PartInfo)>) -> (r: u64)
    requires
        parts_total(p@) <= u64::MAX,
    ensures
        r == parts_total(p@),
{
    let mut t: u64 = 0;
    let mut i: usize = 0;
    while i < p.len()
        invariant
            i <= p@.len(),
            parts_total(p@) <= u64::MAX,
            t == parts_total(p@.take(i as int)),
        decreases p@.len() - i,
    {
        assert(p@.take(i + 1).drop_last() =~= p@.take(i as int));
        proof {
            lemma_parts_total_prefix(p@, i + 1);
        }
        t = t + p[i].1.size;
        i = i + 1;
    }
    assert(p@.take(p@.len() as int) =~= p@);
    t
}

proof fn lemma_parts_total_prefix(p: Seq<(u64, PartInfo)>, k: int)
    requires
        0 <= k <= p.len(),
    ensures
        parts_total(p.take(k)) <= parts_total(p),
    decreases p.len() - k,
{
    if k < p.len() {
        lemma_parts_total_prefix(p, k + 1);
        assert(p.take(k + 1).drop_last() =~= p.take(k));
    } else {
        assert(p.take(k) =~= p);
    }
}

/// Preconditions on a stored version that completing an upload needs:
/// sorted lists, hexadecimal part etags, and a total size of the parts that
/// fits in 64 bits.
pub open spec fn completable(v: Version) -> bool {
    &&& v.wf()
    &&& etags_decodable(v.parts@)
    &&& parts_total(v.parts@) <= u64::MAX
}

/// Whether a stored block list meets [`completable`].
pub fn is_completable(v: &Version) -> (r: bool)
    ensures
        r == completable(*v),
{
    let mut i: usize = 0;
    while i < v.blocks.len()
        invariant
            i <= v.blocks@.len(),
            forall|a: int, b: int|
                0 <= a < b < i ==> crate::object::key_lt(#[trigger] v.blocks@[a].0, #[trigger] v.blocks@[b].0),
        decreases v.blocks@.len() - i,
    {
        if i > 0 {
            let p = &v.blocks[i - 1].0;
            let q = &v.blocks[i].0;
            if !(p.part_number < q.part_number || (p.part_number == q.part_number && p.offset < q.offset)) {
                return false;
            }
        }
        i = i + 1;
    }
    let mut j: usize = 0;
    while j < v.parts.len()
        invariant
            j <= v.parts@.len(),
            forall|a: int, b: int|
                0 <= a < b < j ==> #[trigger] v.parts@[a].0 < #[trigger] v.parts@[b].0,
            forall|a: int| 0 <= a < j ==> hex_decodable(#[trigger] v.parts@[a].1.etag@),
        decreases v.parts@.len() - j,
    {
        if j > 0 && !(v.parts[j - 1].0 < v.parts[j].0) {
            return false;
        }
        match hex_decode(v.parts[j].1.etag.as_str()) {
            Ok(_) => {},
            Err(_) => {
                assert(!hex_decodable(v.parts@[j as int].1.etag@));
                return false;
            },
        }
        j = j + 1;
    }
    let mut t: u64 = 0;
    let mut k: usize = 0;
    while k < v.parts.len()
        invariant
            k <= v.parts@.len(),
            t == parts_total(v.parts@.take(k as int)),
        decreases v.parts@.len() - k,
    {
        assert(v.parts@.take(k + 1).drop_last() =~= v.parts@.take(k as int));
        match t.checked_add(v.parts[k].1.size) {
            Some(s) => {
                t = s;
            },
            None => {
                proof {
                    lemma_parts_total_prefix(v.parts@, k + 1);
                }
                return false;
            },
        }
        k = k + 1;
    }
    assert(v.parts@.take(v.parts@.len() as int) =~= v.parts@);
    true
}

/// Completes a multipart upload: the object must exist with an open upload
/// `upload`, the block list must exist and hold data, the client's part
/// list must be the stored one, and the listed parts must hold data. The
/// version then becomes complete, with the headers given at creation, the
/// sum of the sizes recorded by the last upload of each listed part, the
/// multipart etag and the hash of the first block of the listed parts.
pub fn complete_multipart_upload(
    parts: &Vec<CompleteMultipartUploadPart>,
    object: Option<&Object>,
    version: Option<&Version>,
    upload: &Uuid,
) -> (r: Result<ObjectVersion, ApiError>)
    requires
        version matches Some(v) ==> completable(*v),
    ensures
        match object {
            None => err_msg(r) == Some("Object not found"@),
            Some(o) => match upload_position(o.versions@, *upload) {
                None => err_msg(r) == Some("Version not found"@),
                Some(j) => match version {
                    None => err_msg(r) == Some("Version not found"@),
                    Some(v) => if v.blocks@.len() == 0 {
                        err_msg(r) == Some("No data was uploaded"@)
                    } else if !same_parts(parts@, v.parts@) {
                        err_msg(r) == Some("We don't have the same parts"@)
                    } else if listed_blocks(v.blocks@, v.parts@).len() == 0 {
                        err_msg(r) == Some("No data was uploaded"@)
                    } else {
                        r matches Ok(ov) && completed_from(ov, o.versions@[j], *v)
                    },
                },
            },
        },
{
    let object = match object {
        None => {
            return Err(bad_request("Object not found"));
        },
        Some(o) => o,
    };
    proof {
        lemma_upload_position(object.versions@, *upload);
    }
    let idx = match find_uploading_version(&object.versions, upload) {
        None => {
            return Err(bad_request("Version not found"));
        },
        Some(i) => i,
    };
    let version = match version {
        None => {
            return Err(bad_request("Version not found"));
        },
        Some(v) => v,
    };
    if version.blocks.len() == 0 {
        return Err(bad_request("No data was uploaded"));
    }
    let ov = &object.versions[idx];
    let headers = match &ov.state {
        ObjectVersionState::Uploading(h) => clone_headers(h),
        _ => {
            assert(false);
            return Err(ApiError::NotFound);
        },
    };
    if !check_same_parts(parts, &version.parts) {
        return Err(bad_request("We don't have the same parts"));
    }
    let listed = listed_blocks_of(&version.blocks, &version.parts);
    if listed.len() == 0 {
        return Err(bad_request("No data was uploaded"));
    }
    let etag = multipart_etag(version);
    let size = total_size(&version.parts);
    let first_hash = listed[0].1.hash;
    let meta = ObjectVersionMeta { headers, size, etag };
    let done = ObjectVersion {
        uuid: ov.uuid,
        timestamp: ov.timestamp,
        state: ObjectVersionState::Complete(ObjectVersionData::FirstBlock(meta, first_hash)),
    };
    assert(completed_from(done, object.versions@[idx as int], *version));
    Ok(done)
}

/// `done` is the completion of the upload `uploading` whose stored version is
/// `v`: its size is that of the listed parts as last uploaded, and its first
/// block the first block of those parts.
pub open spec fn completed_from(done: ObjectVersion, uploading: ObjectVersion, v: Version) -> bool {
    let listed = listed_blocks(v.blocks@, v.parts@);
    &&& done.uuid == uploading.uuid
    &&& done.timestamp == uploading.timestamp
    &&& uploading.state matches ObjectVersionState::Uploading(h)
    &&& done.state matches ObjectVersionState::Complete(ObjectVersionData::FirstBlock(m, fh))
    &&& m.headers.content_type == h.content_type
    &&& m.headers.other@ == h.other@
    &&& m.size == parts_total(v.parts@)
    &&& m.etag@ == multipart_etag_spec(v)
    &&& fh == listed[0].1.hash
}

/// The reply to a CompleteMultipartUpload request.
pub open spec fn complete_result_spec(region: Seq<char>, bucket: Seq<char>, key: Seq<char>) -> Seq<
    char,
> {
    "<?xml version=\"1.0\" encoding=\"UTF-8\"?>\n"@
        + "<CompleteMultipartUploadResult xmlns=\"http://s3.amazonaws.com/doc/2006-03-01/\">\n"@
        + "\t<Location>"@ + region + "</Location>\n"@ + "\t<Bucket>"@ + bucket + "</Bucket>\n"@
        + "\t<Key>"@ + xml_escape_spec(key) + "</Key>\n"@ + "</CompleteMultipartUploadResult>\n"@
}

/// The XML reply to a completed multipart upload.
pub fn complete_multipart_upload_result(region: &str, bucket: &str, key: &str) -> (r: String)
    ensures
        r@ == complete_result_spec(region@, bucket@, key@),
{
    let mut xml = String::from_str("<?xml version=\"1.0\" encoding=\"UTF-8\"?>\n");
    xml.append(
        "<CompleteMultipartUploadResult xmlns=\"http://s3.amazonaws.com/doc/2006-03-01/\">\n",
    );
    xml.append("\t<Location>");
    xml.append(region);
    xml.append("</Location>\n");
    xml.append("\t<Bucket>");
    xml.append(bucket);
    xml.append("</Bucket>\n");
    xml.append("\t<Key>");
    let escaped = xml_escape(key);
    xml.append(escaped.as_str());
    xml.append("</Key>\n");
    xml.append("</CompleteMultipartUploadResult>\n");
    xml
}

/// Aborts a multipart upload: the object must exist (a bad request
/// otherwise) with a version being uploaded as `upload` (not found
/// otherwise); that version becomes aborted.
pub fn abort_multipart_upload(object: Option<&Object>, upload: &Uuid) -> (r: Result<
    ObjectVersion,
    ApiError,
>)
    ensures
        object is None ==> err_msg(r) == Some("Object not found"@),
        object matches Some(o) ==> match upload_position(o.versions@, *upload) {
            Some(j) => r matches Ok(v) && v.uuid == o.versions@[j].uuid && v.timestamp
                == o.versions@[j].timestamp && v.state is Aborted,
            None => r == Err::<ObjectVersion, ApiError>(ApiError::NotFound),
        },
{
    let object = match object {
        None => {
            return Err(bad_request("Object not found"));
        },
        Some(o) => o,
    };
    match find_uploading_version(&object.versions, upload) {
        None => Err(ApiError::NotFound),
        Some(i) => Ok(aborted_copy(&object.versions[i])),
    }
}

} // verus!
