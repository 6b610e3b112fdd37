use garage::digest::{md5sum, sha256sum};
use garage::error::ApiError;
use garage::headers::ObjectVersionHeaders;
use garage::object::{ObjectVersionData, ObjectVersionState};
use garage::s3_put::{
    check_checksums, decode_upload_id, encode_upload_id, ensure_checksum_matches, is_inline,
    put_final_version, put_inline_version, put_part_response, put_response, uploading_version,
    PartWriter, INLINE_THRESHOLD,
};

fn bad(msg: &str) -> ApiError {
    ApiError::BadRequest(msg.to_string())
}

fn headers() -> ObjectVersionHeaders {
    ObjectVersionHeaders {
        content_type: "text/plain".to_string(),
        other: vec![("x-amz-meta-a".to_string(), "b".to_string())],
    }
}

#[test]
fn checksums_validated_sha_first() {
    let data = b"some data";
    let md5 = md5sum(data);
    let sha = sha256sum(data);
    let b64 = base64::encode(&md5);
    let quoted = format!("\"{}\"", b64);
    assert_eq!(ensure_checksum_matches(&md5, sha, None, None), Ok(()));
    assert_eq!(ensure_checksum_matches(&md5, sha, Some(&b64), Some(sha)), Ok(()));
    assert_eq!(ensure_checksum_matches(&md5, sha, Some(&quoted), None), Ok(()));
    let mut other = sha;
    other[0] ^= 1;
    assert_eq!(
        ensure_checksum_matches(&md5, sha, Some("nope"), Some(other)),
        Err(bad("Unable to validate x-amz-content-sha256"))
    );
    assert_eq!(
        ensure_checksum_matches(&md5, sha, Some("nope"), Some(sha)),
        Err(bad("Unable to validate content-md5"))
    );
    assert_eq!(check_checksums("abc", sha, Some("\"abc\""), None), Ok(()));
    assert_eq!(check_checksums("abc", sha, Some("abd"), None), Err(bad("Unable to validate content-md5")));
}

#[test]
fn content_md5_of_empty_body() {
    let md5 = md5sum(b"");
    let sha = sha256sum(b"");
    assert_eq!(ensure_checksum_matches(&md5, sha, Some("1B2M2Y8AsgTpgAmY7PhCfg=="), None), Ok(()));
    assert_eq!(ensure_checksum_matches(&md5, sha, Some("\"1B2M2Y8AsgTpgAmY7PhCfg==\""), None), Ok(()));
    assert_eq!(
        ensure_checksum_matches(&md5, sha, Some(&hex::encode(md5)), None),
        Err(bad("Unable to validate content-md5"))
    );
}

#[test]
fn upload_id_known_value() {
    let id = "00".repeat(31) + "Ff";
    let mut expected = [0u8; 32];
    expected[31] = 0xff;
    assert_eq!(decode_upload_id(&id), Ok(expected));
    assert_eq!(encode_upload_id(&expected), "00".repeat(31) + "ff");
    assert_eq!(decode_upload_id(&("0g".to_string() + &"00".repeat(31))), Err(bad("Invalid upload ID")));
}

#[test]
fn upload_ids() {
    let mut uuid = [0u8; 32];
    for (i, b) in uuid.iter_mut().enumerate() {
        *b = (i * 7) as u8;
    }
    let id = encode_upload_id(&uuid);
    assert_eq!(id.len(), 64);
    assert_eq!(decode_upload_id(&id), Ok(uuid));
    assert_eq!(decode_upload_id(&id.to_uppercase()), Ok(uuid));
    assert_eq!(decode_upload_id(&id[..62]), Err(bad("Invalid upload ID")));
    assert_eq!(decode_upload_id("xyz"), Err(bad("Invalid upload ID")));
    assert_eq!(decode_upload_id(&format!("{}00", id)), Err(bad("Invalid upload ID")));
}

#[test]
fn part_writer_places_blocks_contiguously() {
    let mut w = PartWriter::start(3);
    let a = vec![1u8; 100];
    let b = vec![2u8; 50];
    let c = vec![3u8; 7];
    let pa = w.add_block(&a, [9; 32]);
    let pb = w.add_block(&b, [8; 32]);
    let pc = w.add_block(&c, [7; 32]);
    assert_eq!((pa.part_number, pa.offset, pa.size, pa.hash), (3, 0, 100, [9; 32]));
    assert_eq!((pb.offset, pb.size), (100, 50));
    assert_eq!((pc.offset, pc.size), (150, 7));
    let (total, md5, sha) = w.finish();
    let all = [a, b, c].concat();
    assert_eq!(total, 157);
    assert_eq!(md5, md5sum(&all));
    assert_eq!(sha, sha256sum(&all));
}

#[test]
fn inline_threshold() {
    assert!(is_inline(0));
    assert!(is_inline(INLINE_THRESHOLD - 1));
    assert!(!is_inline(INLINE_THRESHOLD));
}

#[test]
fn inline_upload_version() {
    let data = b"hello".to_vec();
    let (v, etag) = put_inline_version([1; 32], 42, headers(), data.clone(), None, None).unwrap();
    assert_eq!(etag, "5d41402abc4b2a76b9719d911017c592");
    assert_eq!(v.uuid, [1; 32]);
    assert_eq!(v.timestamp, 42);
    match v.state {
        ObjectVersionState::Complete(ObjectVersionData::Inline(meta, d)) => {
            assert_eq!(d, data);
            assert_eq!(meta.size, 5);
            assert_eq!(meta.etag, etag);
            assert_eq!(meta.headers, headers());
        }
        _ => panic!("not inline"),
    }
    let wrong = put_inline_version([1; 32], 42, headers(), data, Some("AAAA"), None);
    assert_eq!(wrong, Err(bad("Unable to validate content-md5")));
}

#[test]
fn uploading_then_final_version() {
    let up = uploading_version([2; 32], 7, &headers());
    assert_eq!(up.state, ObjectVersionState::Uploading(headers()));
    let md5 = md5sum(b"abc");
    let sha = sha256sum(b"abc");
    let (v, r) = put_final_version([2; 32], 8, headers(), Ok((3, md5, sha)), None, Some(sha), [5; 32]);
    let etag = r.unwrap();
    assert_eq!(etag, hex::encode(md5));
    match v.state {
        ObjectVersionState::Complete(ObjectVersionData::FirstBlock(meta, h)) => {
            assert_eq!(h, [5; 32]);
            assert_eq!(meta.size, 3);
            assert_eq!(meta.etag, etag);
        }
        _ => panic!("not complete"),
    }
    let (v, r) = put_final_version([2; 32], 8, headers(), Err(ApiError::NotFound), None, None, [5; 32]);
    assert_eq!(v.state, ObjectVersionState::Aborted);
    assert_eq!(r, Err(ApiError::NotFound));
    let (v, r) = put_final_version([2; 32], 8, headers(), Ok((3, md5, sha)), None, Some([0; 32]), [5; 32]);
    assert_eq!(v.state, ObjectVersionState::Aborted);
    assert_eq!(r, Err(bad("Unable to validate x-amz-content-sha256")));
}

#[test]
fn reply_headers() {
    let r = put_response(&[0xab; 32], "0123");
    assert_eq!(r[0].0, "x-amz-version-id");
    assert_eq!(r[0].1, "ab".repeat(32));
    assert_eq!(r[1], ("ETag".to_string(), "\"0123\"".to_string()));
    assert_eq!(put_part_response("ff"), vec![("ETag".to_string(), "\"ff\"".to_string())]);
}

#[test]
fn part_writer_length() {
    let mut w = PartWriter::start(1);
    assert_eq!(w.written_len(), 0);
    w.add_block(&[0; 10], [0; 32]);
    assert_eq!(w.written_len(), 10);
}
