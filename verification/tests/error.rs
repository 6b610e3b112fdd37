use garage::error::{ApiErrorReply, Error, GarageError};

#[test]
fn status_codes() {
    assert_eq!(Error::NotFound.http_status_code(), 404);
    assert_eq!(Error::BadRequest("x".to_string()).http_status_code(), 400);
    assert_eq!(Error::InvalidUtf8.http_status_code(), 400);
    assert_eq!(Error::InvalidHeader.http_status_code(), 400);
    assert_eq!(Error::InternalError(GarageError::Timeout).http_status_code(), 503);
    assert_eq!(Error::InternalError(GarageError::RemoteError("r".to_string())).http_status_code(), 503);
    assert_eq!(Error::InternalError(GarageError::Quorum(2, 3, 1, vec![])).http_status_code(), 503);
    assert_eq!(Error::InternalError(GarageError::Message("m".to_string())).http_status_code(), 500);
    let api = Error::ApiError(ApiErrorReply { status: 501, headers: vec![] });
    assert_eq!(api.http_status_code(), 501);
}

#[test]
fn headers_added_by_errors() {
    let mut h = vec![("a".to_string(), "1".to_string())];
    Error::NotFound.add_headers(&mut h);
    assert_eq!(h.len(), 1);
    let api = Error::ApiError(ApiErrorReply {
        status: 403,
        headers: vec![("x-amz-error".to_string(), "denied".to_string())],
    });
    api.add_headers(&mut h);
    assert_eq!(h, vec![("a".to_string(), "1".to_string()), ("x-amz-error".to_string(), "denied".to_string())]);
}
