# fxv-storage-server

**FlexVault Storage Server** - a lightweight, async Rust HTTP server that
implements a subset of the Amazon S3 API for serving and uploading files. Its
core is a library verified with Verus.

**Supported operations:**
- `GET /{key}` - GetObject (with range requests and conditional headers)
- `PUT /{key}` - PutObject (atomic write, conditional headers)
- `POST /{key}?uploads` - CreateMultipartUpload
- `PUT /{key}?partNumber=N&uploadId=X` - UploadPart
- `POST /{key}?uploadId=X` - CompleteMultipartUpload
- `DELETE /{key}` - DeleteObject
- `DELETE /{key}?uploadId=X` - AbortMultipartUpload

## Layout

- `src/` - the verified library: parsing of ranges and conditional headers,
  entity tags, keys and paths, the object index, multipart uploads, cached
  metadata and the decisions behind every operation. Each function states what
  it returns or changes; the properties that span operations are proof
  functions whose names begin with `law_`, most of them in
  `src/consistency.rs`.
- `app/` - the program: axum routing, the file system, JSON and XML. As a library
  (`app/lib.rs`) it exports the server and an embeddable test server.
- `tests/` - tests of the library, with files kept in memory.

## Design notes

- **ETags** use MD5. Single-part uploads and externally-present files use the
  content MD5; completed multipart uploads use the S3 multipart ETag formula.
- **Atomicity**: all writes use a temp-file-then-rename pattern, so partial
  files are never served.
- **Content-Type**: `application/octet-stream`, unless the object has a header
  of its own. The other headers that describe what is sent (`ETag`,
  `Content-Length`, `Content-Range`, `Last-Modified`, `Accept-Ranges`) are always
  those of the server.
- **Metadata cache**: entity tags, checksums and custom headers are cached in
  `.fxv-metadata-cache/` inside the serve directory and used again as long as
  the modification time of the file stays the same.
- **Multipart temp storage**: in-progress uploaded parts live under
  `.fxv-multipart-uploads/`, separate from the metadata cache. Each upload of a
  part goes to a file of its own, so a part that is uploaded again never
  touches the data of the one it replaces.
- **Keys**: slashes in front of a key make no difference to any operation:
  `/k.txt` and `k.txt` are the same object. Otherwise keys are taken as they are.

## What is taken on trust

The library calls a few functions of other crates through small wrappers marked
`external_body`, whose doc comments say what is claimed of each: the header map
and the header syntax of `http` (`src/headers.rs`), the date formats of
`httpdate` (`src/time.rs`), the checksum of `md-5` (`src/etag.rs`), random
identifiers of `uuid` (`src/ids.rs`), and from the standard library the lossy
decoding of UTF-8 (`src/fs_path.rs`) and `String::push` (`src/text.rs`).

## Usage

```
fxv-storage-server --serve-dir /path/to/files --port 3000
```

## License

MIT
