use garage::error::ApiError;
use garage::headers::ObjectVersionHeaders;
use garage::multipart::{
    abort_multipart_upload, check_part_upload, complete_multipart_upload,
    complete_multipart_upload_result, create_multipart_upload, is_completable, multipart_etag, parse_part_number,
    part_version, put_block_meta, record_part, xml_escape, BlockRef,
};
use garage::object::{
    Object, PartInfo, ObjectVersion, ObjectVersionData, ObjectVersionState, Version, VersionBlock,
    VersionBlockKey,
};
use garage::s3_put::BlockPlacement;
use garage::xml::{parse_complete_multipart_upload_request, CompleteMultipartUploadPart};
use md5::{Digest, Md5};

fn bad(msg: &str) -> ApiError {
    ApiError::BadRequest(msg.to_string())
}

fn headers() -> ObjectVersionHeaders {
    ObjectVersionHeaders { content_type: "blob".to_string(), other: vec![] }
}

fn uploading(uuid: u8) -> ObjectVersion {
    ObjectVersion { uuid: [uuid; 32], timestamp: 10, state: ObjectVersionState::Uploading(headers()) }
}

fn object(versions: Vec<ObjectVersion>) -> Object {
    Object { bucket: "b".to_string(), key: "k".to_string(), versions }
}

fn block(part: u64, offset: u64, hash: u8, size: u64) -> (VersionBlockKey, VersionBlock) {
    (VersionBlockKey { part_number: part, offset }, VersionBlock { hash: [hash; 32], size })
}

fn info(etag: &str, size: u64) -> PartInfo {
    PartInfo { etag: etag.to_string(), size }
}

fn version_sized(blocks: Vec<(VersionBlockKey, VersionBlock)>, parts: Vec<(u64, &str, u64)>) -> Version {
    Version {
        uuid: [1; 32],
        bucket: "b".to_string(),
        key: "k".to_string(),
        deleted: false,
        blocks,
        parts: parts.into_iter().map(|(n, e, size)| (n, info(e, size))).collect(),
    }
}

/// A version whose parts were each uploaded once: each part's recorded size
/// is that of its blocks.
fn version(blocks: Vec<(VersionBlockKey, VersionBlock)>, etags: Vec<(u64, &str)>) -> Version {
    let sized = etags
        .into_iter()
        .map(|(n, e)| {
            let size = blocks
                .iter()
                .filter(|(k, _)| k.part_number == n)
                .fold(0u64, |t, (_, b)| t.saturating_add(b.size));
            (n, e, size)
        })
        .collect();
    version_sized(blocks, sized)
}

fn part(n: u64, e: &str) -> CompleteMultipartUploadPart {
    CompleteMultipartUploadPart { etag: e.to_string(), part_number: n }
}

#[test]
fn escape_for_xml() {
    assert_eq!(xml_escape("a<b>\"c\"&d"), "a&lt;b&gt;&quot;c&quot;&d");
    assert_eq!(xml_escape(""), "");
}

#[test]
fn create_upload_reply() {
    let (o, v, xml) = create_multipart_upload([0x0f; 32], 5, headers(), "bucket", "dir/<k>");
    assert_eq!(o.versions, vec![ObjectVersion { uuid: [0x0f; 32], timestamp: 5, state: ObjectVersionState::Uploading(headers()) }]);
    assert_eq!(v.blocks.len(), 0);
    assert_eq!(v.uuid, [0x0f; 32]);
    let expected = format!(
        "<?xml version=\"1.0\" encoding=\"UTF-8\"?>\n<InitiateMultipartUploadResult xmlns=\"http://s3.amazonaws.com/doc/2006-03-01/\">\n\t<Bucket>bucket</Bucket>\n\t<Key>dir/&lt;k&gt;</Key>\n\t<UploadId>{}</UploadId>\n</InitiateMultipartUploadResult>\n",
        "0f".repeat(32)
    );
    assert_eq!(xml, expected);
}

#[test]
fn part_numbers() {
    assert_eq!(parse_part_number("12"), Ok(12));
    assert_eq!(parse_part_number("x"), Err(bad("Invalid part number")));
    assert_eq!(parse_part_number(""), Err(bad("Invalid part number")));
}

#[test]
fn part_upload_checks() {
    let o = object(vec![uploading(1)]);
    assert_eq!(check_part_upload(false, Some(&o), &[1; 32]), Err(bad("Empty body")));
    assert_eq!(check_part_upload(true, None, &[1; 32]), Err(bad("Object not found")));
    assert_eq!(check_part_upload(true, Some(&o), &[2; 32]), Err(ApiError::NotFound));
    assert_eq!(check_part_upload(true, Some(&o), &[1; 32]), Ok(()));
    let aborted = object(vec![ObjectVersion { uuid: [1; 32], timestamp: 1, state: ObjectVersionState::Aborted }]);
    assert_eq!(check_part_upload(true, Some(&aborted), &[1; 32]), Err(ApiError::NotFound));
}

#[test]
fn block_and_part_records() {
    let p = BlockPlacement { part_number: 2, offset: 100, hash: [4; 32], size: 9 };
    let empty = Version::new([1; 32], "b".to_string(), "k".to_string(), false);
    let (v, r) = put_block_meta(&empty, &p);
    assert_eq!(v.blocks, vec![block(2, 100, 4, 9)]);
    assert_eq!((v.uuid, v.bucket.as_str(), v.key.as_str(), v.deleted), ([1; 32], "b", "k", false));
    assert_eq!(r, BlockRef { block: [4; 32], version: [1; 32], deleted: false });
    // the version given is copied, and the block is put in key order
    let given = version(vec![block(1, 0, 1, 3), block(2, 200, 2, 3), block(3, 0, 3, 3)], vec![(1, "aa")]);
    let (v, _) = put_block_meta(&given, &p);
    assert_eq!(v.blocks, vec![block(1, 0, 1, 3), block(2, 100, 4, 9), block(2, 200, 2, 3), block(3, 0, 3, 3)]);
    assert_eq!(v.parts, vec![(1, info("aa", 3))]);
    assert_eq!(given.blocks.len(), 3);
    // a block at the same place takes the place of the one there
    let at_same = version(vec![block(2, 100, 7, 1), block(5, 0, 5, 1)], vec![]);
    let (v, _) = put_block_meta(&at_same, &p);
    assert_eq!(v.blocks, vec![block(2, 100, 4, 9), block(5, 0, 5, 1)]);
    let last = version(vec![block(1, 0, 1, 1)], vec![]);
    let (v, _) = put_block_meta(&last, &p);
    assert_eq!(v.blocks, vec![block(1, 0, 1, 1), block(2, 100, 4, 9)]);
    let v = part_version([1; 32], "b", "k", 2, "abc".to_string(), 12);
    assert_eq!(v.parts, vec![(2, info("abc", 12))]);
    assert!(v.blocks.is_empty());
}

#[test]
fn parse_indented_complete_body() {
    let body = b"<?xml version=\"1.0\" encoding=\"UTF-8\"?>\n<CompleteMultipartUpload xmlns=\"http://s3.amazonaws.com/doc/2006-03-01/\">\n  <Part>\n    <ETag>\"e1\"</ETag>\n    <PartNumber>1</PartNumber>\n  </Part>\n\t\r\n  <Part>\n    <ETag>e2</ETag>\n    <PartNumber>2</PartNumber>\n  </Part>\n</CompleteMultipartUpload>\n";
    let parts = parse_complete_multipart_upload_request(body).unwrap();
    assert_eq!(parts, vec![part(1, "e1"), part(2, "e2")]);
    let one = b"<CompleteMultipartUpload>\n  <Part><ETag>e</ETag><PartNumber>1</PartNumber></Part>\n</CompleteMultipartUpload>";
    assert_eq!(parse_complete_multipart_upload_request(one), Ok(vec![part(1, "e")]));
}

#[test]
fn comments_in_complete_body_refused() {
    let invalid = || bad("Invalid CompleteMultipartUpload XML");
    let before_root = b"<!-- parts --><CompleteMultipartUpload><Part><ETag>e</ETag><PartNumber>1</PartNumber></Part></CompleteMultipartUpload>";
    assert_eq!(parse_complete_multipart_upload_request(before_root), Err(invalid()));
    let among = b"<CompleteMultipartUpload><!-- x --><Part><ETag>e</ETag><PartNumber>1</PartNumber></Part></CompleteMultipartUpload>";
    assert_eq!(parse_complete_multipart_upload_request(among), Err(invalid()));
    let instruction = b"<CompleteMultipartUpload><?pi x?></CompleteMultipartUpload>";
    assert_eq!(parse_complete_multipart_upload_request(instruction), Err(invalid()));
}

#[test]
fn parse_complete_body() {
    let body = b"<CompleteMultipartUpload><Part><ETag>\"e1\"</ETag><PartNumber>1</PartNumber></Part><Part><PartNumber>2</PartNumber><ETag>e2</ETag></Part></CompleteMultipartUpload>";
    let parts = parse_complete_multipart_upload_request(body).unwrap();
    assert_eq!(parts, vec![part(1, "e1"), part(2, "e2")]);
}

#[test]
fn parse_complete_body_errors() {
    let invalid = bad("Invalid CompleteMultipartUpload XML");
    assert_eq!(parse_complete_multipart_upload_request(&[0xff, 0xfe]), Err(ApiError::InvalidUtf8));
    assert!(matches!(parse_complete_multipart_upload_request(b"<a></b>"), Err(ApiError::InvalidXml(_))));
    assert_eq!(parse_complete_multipart_upload_request(b"<Other/>"), Err(bad("Invalid CompleteMultipartUpload XML")));
    assert_eq!(
        parse_complete_multipart_upload_request(b"<CompleteMultipartUpload><Part><ETag>e</ETag></Part></CompleteMultipartUpload>"),
        Err(bad("Invalid CompleteMultipartUpload XML"))
    );
    assert_eq!(
        parse_complete_multipart_upload_request(b"<CompleteMultipartUpload><Part><ETag>e</ETag><PartNumber>x</PartNumber></Part></CompleteMultipartUpload>"),
        Err(bad("Invalid CompleteMultipartUpload XML"))
    );
    assert_eq!(
        parse_complete_multipart_upload_request(b"<CompleteMultipartUpload><Junk/></CompleteMultipartUpload>"),
        Err(bad("Invalid CompleteMultipartUpload XML"))
    );
    assert_eq!(
        parse_complete_multipart_upload_request(b"<CompleteMultipartUpload>text<Part><ETag>e</ETag><PartNumber>1</PartNumber></Part><Other/></CompleteMultipartUpload>"),
        Err(invalid)
    );
    assert_eq!(parse_complete_multipart_upload_request(b"<CompleteMultipartUpload/>"), Ok(vec![]));
}

fn expected_etag(etags: &[&str]) -> String {
    let mut h = Md5::new();
    for e in etags {
        h.update(hex::decode(e).unwrap());
    }
    format!("{}-{}", hex::encode(h.finalize()), etags.len())
}

#[test]
fn multipart_etag_format() {
    let v = version(vec![block(1, 0, 1, 10), block(1, 10, 2, 5), block(3, 0, 3, 1)], vec![(1, "aa"), (3, "bb")]);
    assert_eq!(multipart_etag(&v), expected_etag(&["aa", "bb"]));
    assert!(multipart_etag(&v).ends_with("-2"));
    // the MD5 of the two binary digests 0xaa 0xbb
    let mut h = Md5::new();
    h.update([0xaau8, 0xbb]);
    assert_eq!(multipart_etag(&v), format!("{}-2", hex::encode(h.finalize())));
}

#[test]
fn multipart_etag_of_real_parts() {
    let d1 = garage::s3_put::md5_etag(&garage::digest::md5sum(b"first part"));
    let d2 = garage::s3_put::md5_etag(&garage::digest::md5sum(b"second part"));
    let v = version(vec![], vec![(1, &d1), (2, &d2)]);
    let mut h = Md5::new();
    h.update(Md5::digest(b"first part"));
    h.update(Md5::digest(b"second part"));
    assert_eq!(multipart_etag(&v), format!("{}-2", hex::encode(h.finalize())));
}

#[test]
fn complete_upload() {
    let o = object(vec![ObjectVersion { uuid: [1; 32], timestamp: 1, state: ObjectVersionState::Aborted }, uploading(1)]);
    // part 0 left blocks from an upload that did not finish; it is not listed
    let v = version(
        vec![block(0, 0, 9, 100), block(1, 0, 7, 10), block(2, 0, 8, 5), block(4, 0, 6, 1000)],
        vec![(1, "aa"), (2, "bb")],
    );
    let parts = vec![part(1, "aa"), part(2, "bb")];
    let done = complete_multipart_upload(&parts, Some(&o), Some(&v), &[1; 32]).unwrap();
    assert_eq!(done.uuid, [1; 32]);
    // part 1 was uploaded twice: first with 10 + 5 bytes, then with 7 bytes,
    // which left the first upload's block at offset 10 behind
    let again = version_sized(
        vec![block(1, 0, 5, 7), block(1, 10, 6, 5), block(2, 0, 8, 5)],
        vec![(1, "aa", 7), (2, "bb", 5)],
    );
    match complete_multipart_upload(&parts, Some(&o), Some(&again), &[1; 32]).unwrap().state {
        ObjectVersionState::Complete(ObjectVersionData::FirstBlock(meta, h)) => {
            assert_eq!(meta.size, 12);
            assert_eq!(h, [5; 32]);
        }
        _ => panic!("not complete"),
    }
    assert_eq!(done.timestamp, 10);
    match done.state {
        ObjectVersionState::Complete(ObjectVersionData::FirstBlock(meta, h)) => {
            assert_eq!(h, [7; 32]);
            assert_eq!(meta.size, 15);
            assert_eq!(meta.etag, expected_etag(&["aa", "bb"]));
            assert_eq!(meta.headers, headers());
        }
        _ => panic!("not complete"),
    }
}

#[test]
fn complete_upload_errors() {
    let o = object(vec![uploading(1)]);
    let v = version(vec![block(1, 0, 7, 10)], vec![(1, "aa")]);
    let parts = vec![part(1, "aa")];
    assert_eq!(complete_multipart_upload(&parts, None, Some(&v), &[1; 32]), Err(bad("Object not found")));
    assert_eq!(complete_multipart_upload(&parts, Some(&o), Some(&v), &[2; 32]), Err(bad("Version not found")));
    assert_eq!(complete_multipart_upload(&parts, Some(&o), None, &[1; 32]), Err(bad("Version not found")));
    let empty = version(vec![], vec![(1, "aa")]);
    assert_eq!(complete_multipart_upload(&parts, Some(&o), Some(&empty), &[1; 32]), Err(bad("No data was uploaded")));
    let other = vec![part(1, "ab")];
    assert_eq!(complete_multipart_upload(&other, Some(&o), Some(&v), &[1; 32]), Err(bad("We don't have the same parts")));
    assert_eq!(complete_multipart_upload(&vec![], Some(&o), Some(&v), &[1; 32]), Err(bad("We don't have the same parts")));
    // blocks only of parts that are not listed
    let stale = version(vec![block(5, 0, 7, 10)], vec![(1, "aa")]);
    assert_eq!(complete_multipart_upload(&parts, Some(&o), Some(&stale), &[1; 32]), Err(bad("No data was uploaded")));
}

#[test]
fn complete_reply() {
    let xml = complete_multipart_upload_result("garage", "bkt", "a\"b");
    assert_eq!(xml, "<?xml version=\"1.0\" encoding=\"UTF-8\"?>\n<CompleteMultipartUploadResult xmlns=\"http://s3.amazonaws.com/doc/2006-03-01/\">\n\t<Location>garage</Location>\n\t<Bucket>bkt</Bucket>\n\t<Key>a&quot;b</Key>\n</CompleteMultipartUploadResult>\n");
}

#[test]
fn abort_upload() {
    assert_eq!(abort_multipart_upload(None, &[1; 32]), Err(bad("Object not found")));
    let o = object(vec![uploading(2), uploading(1)]);
    assert_eq!(abort_multipart_upload(Some(&o), &[3; 32]), Err(ApiError::NotFound));
    let v = abort_multipart_upload(Some(&o), &[1; 32]).unwrap();
    assert_eq!(v, ObjectVersion { uuid: [1; 32], timestamp: 10, state: ObjectVersionState::Aborted });
}

#[test]
fn quoted_part_etag_completes_upload() {
    // the etag given back by a part upload, sent back in its quotes, is accepted
    let data = b"part data";
    let etag = garage::s3_put::md5_etag(&garage::digest::md5sum(data));
    let reply = garage::s3_put::put_part_response(&etag);
    let body = format!(
        "<CompleteMultipartUpload><Part><ETag>{}</ETag><PartNumber>4</PartNumber></Part></CompleteMultipartUpload>",
        reply[0].1
    );
    let parts = parse_complete_multipart_upload_request(body.as_bytes()).unwrap();
    let stored = part_version([1; 32], "b", "k", 4, etag.clone(), 9);
    let mut v = version(vec![block(4, 0, 1, 9)], vec![]);
    v.parts = stored.parts;
    let o = object(vec![uploading(1)]);
    assert!(complete_multipart_upload(&parts, Some(&o), Some(&v), &[1; 32]).is_ok());
}

#[test]
fn completable_block_lists() {
    assert!(is_completable(&version(vec![block(1, 0, 1, 10), block(1, 10, 1, 5), block(2, 0, 1, 1)], vec![(1, "0a"), (2, "0B")])));
    assert!(is_completable(&version(vec![], vec![])));
    assert!(!is_completable(&version(vec![block(2, 0, 1, 10), block(1, 0, 1, 5)], vec![])));
    assert!(!is_completable(&version(vec![block(1, 0, 1, 10), block(1, 0, 1, 5)], vec![])));
    assert!(!is_completable(&version(vec![], vec![(2, "aa"), (1, "bb")])));
    assert!(!is_completable(&version(vec![], vec![(1, "a")])));
    assert!(!is_completable(&version(vec![], vec![(1, "zz")])));
    assert!(!is_completable(&version_sized(vec![], vec![(1, "aa", u64::MAX), (2, "bb", 1)])));
    assert!(is_completable(&version_sized(vec![], vec![(1, "aa", u64::MAX - 1), (2, "bb", 1)])));
    // the recorded part sizes count, not the blocks
    assert!(is_completable(&version_sized(vec![block(1, 0, 1, u64::MAX), block(1, 1, 1, 1)], vec![(1, "aa", 3)])));
}

#[test]
fn closed_uploads_refused() {
    let o = object(vec![uploading(1)]);
    let aborted = abort_multipart_upload(Some(&o), &[1; 32]).unwrap();
    let after = object(vec![aborted]);
    assert_eq!(check_part_upload(true, Some(&after), &[1; 32]), Err(ApiError::NotFound));
    assert_eq!(abort_multipart_upload(Some(&after), &[1; 32]), Err(ApiError::NotFound));
    let v = version(vec![block(1, 0, 7, 10)], vec![(1, "aa")]);
    let parts = vec![part(1, "aa")];
    assert_eq!(complete_multipart_upload(&parts, Some(&after), Some(&v), &[1; 32]), Err(bad("Version not found")));
    let done = complete_multipart_upload(&parts, Some(&o), Some(&v), &[1; 32]).unwrap();
    let completed = object(vec![done]);
    assert_eq!(complete_multipart_upload(&parts, Some(&completed), Some(&v), &[1; 32]), Err(bad("Version not found")));
    assert_eq!(check_part_upload(true, Some(&completed), &[1; 32]), Err(ApiError::NotFound));
}

#[test]
fn created_upload_accepts_parts() {
    let (o, _, _) = create_multipart_upload([0x3c; 32], 5, headers(), "b", "k");
    let id = garage::s3_put::encode_upload_id(&[0x3c; 32]);
    let uuid = garage::s3_put::decode_upload_id(&id).unwrap();
    assert_eq!(check_part_upload(true, Some(&o), &uuid), Ok(()));
}

#[test]
fn part_records() {
    let data = b"some part";
    let md5 = garage::digest::md5sum(data);
    let sha = garage::digest::sha256sum(data);
    let (v, etag) = record_part([2; 32], "b", "k", 3, (9, md5, sha), None, Some(sha)).unwrap();
    assert_eq!(etag, hex::encode(md5));
    assert_eq!(v.parts, vec![(3, info(&hex::encode(md5), 9))]);
    assert_eq!(v.uuid, [2; 32]);
    assert!(v.blocks.is_empty());
    let mut other = sha;
    other[0] ^= 1;
    assert_eq!(
        record_part([2; 32], "b", "k", 3, (9, md5, sha), None, Some(other)),
        Err(bad("Unable to validate x-amz-content-sha256"))
    );
    assert_eq!(
        record_part([2; 32], "b", "k", 3, (9, md5, sha), Some("nope"), None),
        Err(bad("Unable to validate content-md5"))
    );
}

#[test]
fn upper_case_upload_ids() {
    let mut uuid = [0u8; 32];
    for (i, b) in uuid.iter_mut().enumerate() {
        *b = (i * 13 + 5) as u8;
    }
    assert_eq!(garage::s3_put::decode_upload_id(&hex::encode_upper(uuid)), Ok(uuid));
    assert_eq!(garage::s3_put::decode_upload_id(&hex::encode(uuid)), Ok(uuid));
}
