# garage upload core

The object upload path of an S3-compatible object store, written in Verus
with its behaviour stated in contracts and proved.

- `src/` is the verified library:
  - `codec` — hexadecimal, Base64, decimal numbers, quote trimming, ASCII text;
  - `digest` — MD5 and SHA-256 hashers, absorbed piece by piece;
  - `chunker` — content-defined chunking of a request body into blocks;
  - `headers` — the request headers stored with an object;
  - `object` — object versions, block lists and part lists;
  - `s3_put` — checksum validation, upload identifiers, part bookkeeping and
    the final state of a PutObject upload;
  - `multipart` — creating, filling, completing and aborting multipart
    uploads, and their XML replies;
  - `xml` — the part list of a CompleteMultipartUpload request;
  - `error` — errors and the HTTP status each is answered with.
- `tests/` runs the library on concrete values.
- `app/` holds the HTTP handlers: they read requests and bodies, call the
  stores, and leave every decision to the library.

Calls into outside crates (hex, base64, md-5, sha2, fastcdc, roxmltree) go
through small trusted wrappers whose contracts say what the crate's source
shows of them.
