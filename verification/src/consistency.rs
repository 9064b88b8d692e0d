//! What the operations of the server promise together.
//!
//! The laws speak of the index of objects before and after an operation, as
//! the contracts of the operations describe it, and of the answers to requests
//! that follow.

use crate::errors::Result;
use crate::etag;
use crate::fs_path;
use crate::handlers::delete_object;
use crate::handlers::get_object;
use crate::handlers::get_object::GetPlanView;
use crate::handlers::get_object::GetRequestView;
use crate::handlers::multipart;
use crate::handlers::multipart::Assembled;
use crate::handlers::multipart::AssemblyView;
use crate::handlers::multipart::CompleteJobView;
use crate::handlers::multipart::CompleteStartView;
use crate::handlers::put_object;
use crate::handlers::put_object::PartJobView;
use crate::handlers::put_object::PartStartView;
use crate::handlers::put_object::PutJobView;
use crate::handlers::put_object::PutStartView;
use crate::handlers::put_object::WrittenBody;
use crate::headers;
use crate::ids;
use crate::metadata_cache;
use crate::metadata_cache::ObjectMetadataCache;
use crate::multipart_state;
use crate::multipart_state::PartView;
use crate::multipart_state::UploadView;
use crate::range;
use crate::range::ByteRange;
use crate::response::BodyView;
use crate::s3_xml_compat;
use crate::s3_xml_compat::S3ErrorKind;
use crate::store;
use crate::store::EntryView;
use crate::store::FileEntry;
use crate::test_server;
use crate::text;
use vstd::prelude::*;
use vstd::utf8::*;

verus! {

/// The index after a PutObject request has been carried out.
pub open spec fn after_put(
    objects: Map<Seq<char>, EntryView>,
    job: PutJobView,
    body: WrittenBody,
) -> Map<Seq<char>, EntryView> {
    objects.insert(job.object_key, put_object::put_entry(job, body))
}

/// `/key` and `key` are the same object: requests for them are planned alike.
pub proof fn law_leading_slash_makes_no_difference(
    objects: Map<Seq<char>, EntryView>,
    uploads: Map<Seq<char>, UploadView>,
    root: Seq<u8>,
    key: Seq<char>,
    get: GetRequestView,
    request: Seq<(Seq<char>, Seq<u8>)>,
    part_number: Option<u32>,
    upload_id: Option<Seq<char>>,
    id: Seq<char>,
    wanted: Option<Seq<(u32, Seq<char>)>>,
    token: Seq<char>,
)
    ensures
        get_object::planned_get(objects, "/"@ + key, get) == get_object::planned_get(
            objects,
            key,
            get,
        ),
        put_object::planned_put(objects, root, "/"@ + key, request, token)
            == put_object::planned_put(objects, root, key, request, token),
        delete_object::planned_delete(root, "/"@ + key) == delete_object::planned_delete(root, key),
        objects.remove(put_object::object_key("/"@ + key)) == objects.remove(
            put_object::object_key(key),
        ),
        put_object::planned_part(uploads, root, "/"@ + key, part_number, upload_id, token)
            == put_object::planned_part(uploads, root, key, part_number, upload_id, token),
        multipart::planned_complete(uploads, root, "/"@ + key, id, wanted, token)
            == multipart::planned_complete(uploads, root, key, id, wanted, token),
        ({
            let slashed = uploads.insert(id, multipart::new_upload("/"@ + key, request));
            let plain = uploads.insert(id, multipart::new_upload(key, request));
            &&& put_object::planned_part(slashed, root, key, part_number, Some(id), token)
                == put_object::planned_part(plain, root, key, part_number, Some(id), token)
            &&& multipart::planned_complete(slashed, root, key, id, wanted, token)
                == multipart::planned_complete(plain, root, key, id, wanted, token)
        }),
{
    put_object::law_leading_slashes_do_not_matter(key);
}

/// What was put is got: an object that was stored from `data` has the size of
/// the data and the tag of its contents, it is served from the file that the
/// data went to, and that file lies below the serve directory.
pub proof fn law_get_returns_what_was_put(
    objects: Map<Seq<char>, EntryView>,
    root: Seq<u8>,
    key: Seq<char>,
    request: Seq<(Seq<char>, Seq<u8>)>,
    token: Seq<char>,
    job: PutJobView,
    body: WrittenBody,
    data: Seq<u8>,
)
    requires
        put_object::planned_put(objects, root, key, request, token) == PutStartView::Write(job),
        body.describes(data),
    ensures
        ({
            let entry = put_object::put_entry(job, body);
            let now = after_put(objects, job, body);
            &&& get_object::planned_get(now, key, get_object::plain_request()) == (
            GetPlanView::Serve { entry, range: None })
            &&& entry.size == data.len()
            &&& entry.etag == etag::etag_of(data)
            &&& entry.abs_path == job.abs_path
            &&& fs_path::names(entry.abs_path) == fs_path::names(root) + fs_path::names(
                job.rel_path,
            )
        }),
{
    put_object::law_object_lies_below_the_serve_dir(root, encode_utf8(key));
}

/// The tag in the response to a PutObject request, sent back with
/// `If-None-Match`, tells that the client has the object already; sent back
/// with `If-Match`, it lets the client replace the object.
pub proof fn law_tag_of_a_put_is_valid(
    objects: Map<Seq<char>, EntryView>,
    key: Seq<char>,
    job: PutJobView,
    body: WrittenBody,
    request: GetRequestView,
)
    requires
        job.object_key == put_object::object_key(key),
        request.if_match is None,
        request.if_unmodified_since is None,
        request.if_none_match == Some(body.tag()),
    ensures
        get_object::planned_get(after_put(objects, job, body), key, request)
            == GetPlanView::NotModified(put_object::put_entry(job, body)),
        !put_object::put_refused(
            store::lookup(after_put(objects, job, body), job.object_key),
            Some(body.tag()),
            None,
        ),
{
    get_object::law_echoed_tag_is_not_modified(
        put_object::put_entry(job, body),
        etag::hex(body.digest@),
        request,
    );
}

/// An object that is replaced under `If-Match` is still the one that the client
/// knows, and one that is created under `If-None-Match: *` still does not exist:
/// the conditions hold of the very index that the object is entered in.
pub proof fn law_conditions_hold_when_the_object_is_written(
    objects: Map<Seq<char>, EntryView>,
    job: PutJobView,
)
    requires
        put_object::put_objection(objects, job, true) is None,
    ensures
        job.if_none_match == Some("*"@) ==> !objects.contains_key(job.object_key),
        job.if_match matches Some(tag) ==> objects.contains_key(job.object_key) && (tag
            == objects[job.object_key].etag || tag == "*"@),
{
}

/// No update is lost: of two clients that replace the same object under the
/// same tag, the second one is refused once the first one has stored something
/// else. The same holds of two clients that both want to create the object.
pub proof fn law_second_writer_is_refused(
    objects: Map<Seq<char>, EntryView>,
    first: PutJobView,
    body: WrittenBody,
    second: PutJobView,
)
    requires
        second.object_key == first.object_key,
        second.if_none_match == Some("*"@) || (second.if_match matches Some(tag) && tag
            != body.tag() && tag != "*"@),
    ensures
        put_object::put_objection(after_put(objects, first, body), second, true) == Some(
            s3_xml_compat::error_response(S3ErrorKind::PreconditionFailed),
        ),
{
}

/// Storing an object changes nothing about the others.
pub proof fn law_put_leaves_other_objects_alone(
    objects: Map<Seq<char>, EntryView>,
    job: PutJobView,
    body: WrittenBody,
    other: Seq<char>,
    request: GetRequestView,
)
    requires
        put_object::object_key(other) != job.object_key,
    ensures
        get_object::planned_get(after_put(objects, job, body), other, request)
            == get_object::planned_get(objects, other, request),
{
}

/// The metadata that came with a PutObject request goes out with the object,
/// whole or in part.
pub proof fn law_metadata_of_a_put_is_replayed(
    objects: Map<Seq<char>, EntryView>,
    root: Seq<u8>,
    key: Seq<char>,
    request: Seq<(Seq<char>, Seq<u8>)>,
    token: Seq<char>,
    job: PutJobView,
    body: WrittenBody,
    range: Option<ByteRange>,
    i: int,
)
    requires
        put_object::planned_put(objects, root, key, request, token) == PutStartView::Write(job),
        0 <= i < request.len(),
        text::starts_with(request[i].0, "x-amz-meta-"@),
        headers::valid_header_name(request[i].0),
        headers::visible_text(request[i].1) is Some,
        forall|j: int|
            i < j < request.len() ==> text::lower((#[trigger] request[j]).0) != text::lower(
                request[i].0,
            ),
    ensures
        headers::first_value(
            get_object::served(put_object::put_entry(job, body), range).headers,
            text::lower(request[i].0),
        ) == Some(request[i].1),
{
    let entry = put_object::put_entry(job, body);
    let name = text::lower(request[i].0);
    metadata_cache::lemma_last_user_metadata(request, i);
    headers::lemma_visible_text_encodes(request[i].1);
    get_object::law_own_headers_are_sent(entry, range, name);
    reveal_strlit("x-amz-meta-");
    assert(request[i].0.take(11)[0] == 'x');
    assert(name[0] == 'x');
    get_object::lemma_reserved_names();
}

/// After an object has been deleted it is not found anymore, while the others
/// are still there. Deleting it again changes nothing.
pub proof fn law_deleted_object_is_gone(
    objects: Map<Seq<char>, EntryView>,
    key: Seq<char>,
    other: Seq<char>,
    request: GetRequestView,
)
    requires
        put_object::object_key(other) != put_object::object_key(key),
    ensures
        ({
            let object = put_object::object_key(key);
            let left = objects.remove(object);
            &&& get_object::planned_get(left, key, request) == GetPlanView::Refuse(
                s3_xml_compat::error_response(S3ErrorKind::NoSuchKey),
            )
            &&& get_object::planned_get(left, other, request) == get_object::planned_get(
                objects,
                other,
                request,
            )
            &&& left.remove(object) == left
        }),
{
    let object = put_object::object_key(key);
    assert(objects.remove(object).remove(object) =~= objects.remove(object));
}

/// A header that was added to an object goes out with it, whole or in part, if
/// no two of the object's headers have the same name, and if it is none of those
/// by which the server describes the object.
pub proof fn law_added_header_is_sent(
    entry: EntryView,
    name: Seq<char>,
    value: Seq<char>,
    range: Option<ByteRange>,
)
    requires
        metadata_cache::header_fault(name, value) is None,
        !get_object::is_reserved(text::lower(name)),
        metadata_cache::distinct_names(entry.custom_headers),
    ensures
        headers::first_value(
            get_object::served(test_server::with_header(entry, name, value), range).headers,
            text::lower(name),
        ) == Some(encode_utf8(value)),
{
    let changed = test_server::with_header(entry, name, value);
    metadata_cache::lemma_last_upserted(entry.custom_headers, name, value);
    get_object::law_own_headers_are_sent(changed, range, text::lower(name));
}

/// The files of a file system, by the names in their paths, after `data` has
/// been written to the file at `path`.
pub open spec fn file_written(
    files: Map<Seq<Seq<u8>>, Seq<u8>>,
    path: Seq<u8>,
    data: Seq<u8>,
) -> Map<Seq<Seq<u8>>, Seq<u8>> {
    files.insert(fs_path::names(path), data)
}

/// The files of a file system after the one at `from` has been renamed to `to`.
pub open spec fn file_renamed(
    files: Map<Seq<Seq<u8>>, Seq<u8>>,
    from: Seq<u8>,
    to: Seq<u8>,
) -> Map<Seq<Seq<u8>>, Seq<u8>> {
    files.remove(fs_path::names(from)).insert(fs_path::names(to), files[fs_path::names(from)])
}

/// The files of a file system after the one at `path`, if any, has been removed.
pub open spec fn file_removed(
    files: Map<Seq<Seq<u8>>, Seq<u8>>,
    path: Option<Seq<u8>>,
) -> Map<Seq<Seq<u8>>, Seq<u8>> {
    match path {
        Some(p) => files.remove(fs_path::names(p)),
        None => files,
    }
}

/// Partial files are never served: while the temporary file for an object is
/// written, whatever it holds, the file of the object stays as it is, and when
/// the temporary file is renamed, the object has all of the data at once.
pub proof fn law_object_changes_at_once(
    files: Map<Seq<Seq<u8>>, Seq<u8>>,
    root: Seq<u8>,
    key: Seq<char>,
    token: Seq<char>,
    partial: Seq<u8>,
    data: Seq<u8>,
)
    requires
        put_object::safe_path(encode_utf8(key)) is Some,
        ids::is_simple_id(token),
    ensures
        ({
            let target = fs_path::joined(root, put_object::safe_path(encode_utf8(key))->0);
            let temp = put_object::temp_file(target, token);
            let object = fs_path::names(target);
            let writing = file_written(files, temp, partial);
            let done = file_renamed(file_written(files, temp, data), temp, target);
            &&& writing.contains_key(object) == files.contains_key(object)
            &&& files.contains_key(object) ==> writing[object] == files[object]
            &&& done.contains_key(object) && done[object] == data
            &&& !done.contains_key(fs_path::names(temp))
        }),
{
    let target = fs_path::joined(root, put_object::safe_path(encode_utf8(key))->0);
    put_object::law_object_lies_below_the_serve_dir(root, encode_utf8(key));
    put_object::law_temp_file_is_beside_the_object(target, token);
}

/// Storing an object leaves the files of the others alone, if the parts of their
/// keys are all names, other than one that has the name of the temporary file.
pub proof fn law_put_leaves_other_files_alone(
    files: Map<Seq<Seq<u8>>, Seq<u8>>,
    root: Seq<u8>,
    key: Seq<char>,
    other: Seq<char>,
    token: Seq<char>,
    data: Seq<u8>,
)
    requires
        put_object::safe_path(encode_utf8(key)) is Some,
        put_object::safe_path(encode_utf8(other)) is Some,
        fs_path::is_plain_key(put_object::object_key(key)),
        fs_path::is_plain_key(put_object::object_key(other)),
        put_object::object_key(other) != put_object::object_key(key),
        fs_path::names(fs_path::joined(root, put_object::safe_path(encode_utf8(other))->0))
            != fs_path::names(
            put_object::temp_file(
                fs_path::joined(root, put_object::safe_path(encode_utf8(key))->0),
                token,
            ),
        ),
    ensures
        ({
            let target = fs_path::joined(root, put_object::safe_path(encode_utf8(key))->0);
            let temp = put_object::temp_file(target, token);
            let file = fs_path::names(
                fs_path::joined(root, put_object::safe_path(encode_utf8(other))->0),
            );
            let done = file_renamed(file_written(files, temp, data), temp, target);
            &&& done.contains_key(file) == files.contains_key(file)
            &&& files.contains_key(file) ==> done[file] == files[file]
        }),
{
    put_object::law_one_object_for_one_file(root, key, other);
}

/// The data in the files of the parts, one behind the other.
pub open spec fn part_data(
    files: Map<Seq<Seq<u8>>, Seq<u8>>,
    parts: Seq<(u32, PartView)>,
) -> Seq<u8>
    decreases parts.len(),
{
    if parts.len() == 0 {
        Seq::empty()
    } else {
        part_data(files, parts.drop_last()) + files[fs_path::names(parts.last().1.abs_path)]
    }
}

/// An assembly that is given the files of its parts one after the other holds
/// the data of all of them, in their order.
pub proof fn law_assembly_joins_the_files(
    files: Map<Seq<Seq<u8>>, Seq<u8>>,
    assembly: AssemblyView,
    data: Seq<u8>,
)
    requires
        assembly.done < assembly.parts.len(),
        assembly.data == part_data(files, assembly.parts.take(assembly.done as int)),
        data == files[fs_path::names(assembly.parts[assembly.done as int].1.abs_path)],
    ensures
        part_data(files, assembly.parts.take(0)) == Seq::<u8>::empty(),
        assembly.data + data == part_data(files, assembly.parts.take(assembly.done as int + 1)),
        part_data(files, assembly.parts.take(assembly.parts.len() as int)) == part_data(
            files,
            assembly.parts,
        ),
{
    let k = assembly.done as int;
    assert(assembly.parts.take(k + 1).drop_last() == assembly.parts.take(k));
    assert(assembly.parts.take(k + 1).last() == assembly.parts[k]);
    assert(assembly.parts.take(assembly.parts.len() as int) == assembly.parts);
}

proof fn lemma_size_of_part_data(
    files: Map<Seq<Seq<u8>>, Seq<u8>>,
    parts: Seq<(u32, PartView)>,
)
    requires
        forall|i: int|
            0 <= i < parts.len() ==> (#[trigger] parts[i]).1.size == files[fs_path::names(
                parts[i].1.abs_path,
            )].len(),
    ensures
        part_data(files, parts).len() == multipart::total_size(parts),
    decreases parts.len(),
{
    if parts.len() > 0 {
        let front = parts.drop_last();
        assert(parts.last() == parts[parts.len() - 1]);
        assert forall|i: int| 0 <= i < front.len() implies (#[trigger] front[i]).1.size
            == files[fs_path::names(front[i].1.abs_path)].len() by {
            assert(front[i] == parts[i]);
        }
        lemma_size_of_part_data(files, front);
    }
}

/// What was uploaded in parts is got as one object: its file holds the data of
/// the parts in the order of their numbers, its MD5 checksum is that of the
/// data, its size is that of the parts, its tag follows from their checksums,
/// and it carries the metadata that the upload was created with.
pub proof fn law_get_returns_the_assembled_parts(
    objects: Map<Seq<char>, EntryView>,
    uploads: Map<Seq<char>, UploadView>,
    files: Map<Seq<Seq<u8>>, Seq<u8>>,
    root: Seq<u8>,
    key: Seq<char>,
    id: Seq<char>,
    wanted: Seq<(u32, Seq<char>)>,
    token: Seq<char>,
    job: CompleteJobView,
    object: Assembled,
)
    requires
        multipart::planned_complete(uploads, root, key, id, Some(wanted), token)
            == CompleteStartView::Assemble(job),
        object.size == multipart::total_size(job.parts),
        object.etag@ == etag::multipart_etag_of(multipart::digests_of(job.parts)),
        object.md5_hex@ == etag::hex(etag::md5_of(part_data(files, job.parts))),
    ensures
        ({
            let entry = multipart::complete_entry(job, object);
            let parts = multipart::by_number(multipart::chosen(uploads[id].parts, wanted));
            let data = part_data(files, parts);
            let written = file_written(files, job.tmp_path, part_data(files, job.parts));
            let now = file_renamed(written, job.tmp_path, job.abs_path);
            &&& get_object::planned_get(
                objects.insert(job.object_key, entry),
                key,
                get_object::plain_request(),
            ) == (GetPlanView::Serve { entry, range: None })
            &&& multipart::ascending(parts)
            &&& now[fs_path::names(entry.abs_path)] == data
            &&& entry.checksums == metadata_cache::md5_only(etag::hex(etag::md5_of(data)))
            &&& entry.etag == etag::multipart_etag_of(multipart::digests_of(parts))
            &&& entry.size == multipart::total_size(parts)
            &&& (forall|i: int|
                0 <= i < parts.len() ==> (#[trigger] parts[i]).1.size == files[fs_path::names(
                    parts[i].1.abs_path,
                )].len()) ==> entry.size == data.len()
            &&& entry.custom_headers == uploads[id].custom_headers
            &&& fs_path::names(entry.abs_path) == fs_path::names(root) + fs_path::names(
                job.rel_path,
            )
        }),
{
    let parts = multipart::by_number(multipart::chosen(uploads[id].parts, wanted));
    multipart::law_parts_are_put_in_order(multipart::chosen(uploads[id].parts, wanted));
    put_object::law_object_lies_below_the_serve_dir(root, encode_utf8(key));
    if forall|i: int|
        0 <= i < parts.len() ==> (#[trigger] parts[i]).1.size == files[fs_path::names(
            parts[i].1.abs_path,
        )].len() {
        lemma_size_of_part_data(files, parts);
    }
}

/// After a part has been uploaded, for the first time or again, its file holds
/// the data that was uploaded last. The files of all other parts are unchanged,
/// if the identifiers of the uploads are as the server hands them out.
pub proof fn law_part_file_holds_the_last_upload(
    files: Map<Seq<Seq<u8>>, Seq<u8>>,
    uploads: Map<Seq<char>, UploadView>,
    root: Seq<u8>,
    job: PartJobView,
    body: WrittenBody,
    data: Seq<u8>,
    id: Seq<char>,
    number: u32,
)
    requires
        put_object::parts_in_place(uploads, root),
        put_object::is_file_for_part(job.tmp_path, root, job.upload_id, job.number),
        multipart_state::has_part(
            put_object::uploads_after_part(uploads, job, Some(body)),
            id,
            number,
        ),
    ensures
        ({
            let after = put_object::uploads_after_part(uploads, job, Some(body));
            let file = fs_path::names(after[id].parts[number].abs_path);
            let written = file_written(files, job.tmp_path, data);
            let now = file_removed(written, put_object::stale_file(uploads, job, true));
            if id == job.upload_id && number == job.number {
                &&& after[id].parts[number] == put_object::part_entry(job, body)
                &&& now.contains_key(file) && now[file] == data
            } else {
                &&& after[id].parts[number] == uploads[id].parts[number]
                &&& multipart_state::hyphenated_ids(uploads) && ids::is_hyphenated_id(
                    job.upload_id,
                ) ==> {
                    &&& now.contains_key(file) == files.contains_key(file)
                    &&& files.contains_key(file) ==> now[file] == files[file]
                }
            }
        }),
{
    let after = put_object::uploads_after_part(uploads, job, Some(body));
    let path = after[id].parts[number].abs_path;
    let own = choose|token: Seq<char>|
        ids::is_simple_id(token) && job.tmp_path == #[trigger] put_object::part_file(
            root,
            job.upload_id,
            job.number,
            token,
        );
    let is_own = id == job.upload_id && number == job.number;
    let known = multipart_state::hyphenated_ids(uploads) && ids::is_hyphenated_id(job.upload_id);
    if is_own {
        if let Some(stale) = put_object::stale_file(uploads, job, true) {
            assert(multipart_state::has_part(uploads, job.upload_id, job.number));
            let old = choose|token: Seq<char>|
                ids::is_simple_id(token) && stale == #[trigger] put_object::part_file(
                    root,
                    job.upload_id,
                    job.number,
                    token,
                );
            if fs_path::names(path) == fs_path::names(stale) {
                put_object::lemma_names_of_one_part_differ(root, id, number, own, old);
            }
        }
    } else if known {
        assert(multipart_state::has_part(uploads, id, number));
        assert(ids::is_hyphenated_id(id));
        let token = choose|token: Seq<char>|
            ids::is_simple_id(token) && path == #[trigger] put_object::part_file(
                root,
                id,
                number,
                token,
            );
        if fs_path::names(path) == fs_path::names(job.tmp_path) {
            put_object::lemma_part_names_differ(
                root,
                id,
                number,
                token,
                job.upload_id,
                job.number,
                own,
            );
        }
        if let Some(stale) = put_object::stale_file(uploads, job, true) {
            assert(multipart_state::has_part(uploads, job.upload_id, job.number));
            let old = choose|token: Seq<char>|
                ids::is_simple_id(token) && stale == #[trigger] put_object::part_file(
                    root,
                    job.upload_id,
                    job.number,
                    token,
                );
            if fs_path::names(path) == fs_path::names(stale) {
                put_object::lemma_part_names_differ(
                    root,
                    id,
                    number,
                    token,
                    job.upload_id,
                    job.number,
                    old,
                );
            }
        }
    }
}

/// Uploads have the identifiers that the server hands out: creating one,
/// uploading parts and ending one keeps that so, and the parts that are written
/// belong to such uploads.
pub proof fn law_identifiers_stay_hyphenated(
    uploads: Map<Seq<char>, UploadView>,
    root: Seq<u8>,
    key: Seq<char>,
    id: Seq<char>,
    request: Seq<(Seq<char>, Seq<u8>)>,
    part_number: Option<u32>,
    upload_id: Option<Seq<char>>,
    token: Seq<char>,
    job: PartJobView,
    body: Option<WrittenBody>,
)
    requires
        multipart_state::hyphenated_ids(uploads),
    ensures
        multipart_state::hyphenated_ids(Map::empty()),
        ids::is_hyphenated_id(id) ==> multipart_state::hyphenated_ids(
            uploads.insert(id, multipart::new_upload(key, request)),
        ),
        multipart_state::hyphenated_ids(uploads.remove(id)),
        multipart_state::hyphenated_ids(put_object::uploads_after_part(uploads, job, body)),
        put_object::planned_part(uploads, root, key, part_number, upload_id, token)
            matches PartStartView::Write(planned) ==> ids::is_hyphenated_id(planned.upload_id),
{
}

/// The server knows an object whose key consists of names after a restart as it
/// did before, under its key, if the file of the object is unchanged and the
/// metadata that was cached for it is found: a walk that comes to the file finds the metadata valid, and the
/// index that is built holds the object as it was, unless a later file has the
/// same key.
pub proof fn law_restart_keeps_the_object(
    key: Seq<char>,
    entry: EntryView,
    saved: ObjectMetadataCache,
    path: Seq<u8>,
    scanned: Seq<(String, Result<FileEntry>)>,
    i: int,
)
    requires
        put_object::safe_path(encode_utf8(key)) is Some,
        fs_path::is_plain_key(put_object::object_key(key)),
        saved@ == store::entry_metadata(entry),
        0 <= i < scanned.len(),
        scanned[i].0@ == fs_path::path_key(
            fs_path::walked(fs_path::names(put_object::safe_path(encode_utf8(key))->0)),
        ),
        scanned[i].1 matches Ok(e) && e@ == store::restored(
            path,
            entry.size,
            entry.modified,
            saved@,
        ),
        forall|j: int|
            i < j < scanned.len() ==> (#[trigger] scanned[j]).0@ != scanned[i].0@
                || scanned[j].1 is Err,
    ensures
        metadata_cache::known_metadata(Some(saved), entry.modified) == Some(saved),
        scanned[i].0@ == put_object::object_key(key),
        store::lookup(store::indexed(scanned), put_object::object_key(key)) == Some(
            EntryView { abs_path: path, ..entry },
        ),
{
    let p = put_object::safe_path(encode_utf8(key))->0;
    put_object::law_object_lies_below_the_serve_dir(Seq::empty(), encode_utf8(key));
    fs_path::lemma_names_are_segments(p);
    fs_path::lemma_walked(fs_path::names(p));
    put_object::law_object_key_is_a_normal_form(key);
    store::law_index_holds_every_file(scanned, i);
}

/// The tag of an object that was put together from parts, and whose key consists
/// of names, survives a restart: it is not replaced by that of the contents.
pub proof fn law_multipart_tag_survives_a_restart(
    uploads: Map<Seq<char>, UploadView>,
    root: Seq<u8>,
    key: Seq<char>,
    id: Seq<char>,
    wanted: Seq<(u32, Seq<char>)>,
    token: Seq<char>,
    job: CompleteJobView,
    object: Assembled,
    saved: ObjectMetadataCache,
    path: Seq<u8>,
    scanned: Seq<(String, Result<FileEntry>)>,
    i: int,
)
    requires
        multipart::planned_complete(uploads, root, key, id, Some(wanted), token)
            == CompleteStartView::Assemble(job),
        fs_path::is_plain_key(job.object_key),
        saved@ == store::entry_metadata(multipart::complete_entry(job, object)),
        0 <= i < scanned.len(),
        scanned[i].0@ == fs_path::path_key(fs_path::walked(fs_path::names(job.rel_path))),
        scanned[i].1 matches Ok(e) && e@ == store::restored(
            path,
            object.size,
            object.modified,
            saved@,
        ),
        forall|j: int|
            i < j < scanned.len() ==> (#[trigger] scanned[j]).0@ != scanned[i].0@
                || scanned[j].1 is Err,
    ensures
        metadata_cache::known_metadata(Some(saved), object.modified) == Some(saved),
        store::lookup(store::indexed(scanned), job.object_key) matches Some(e) && e.etag
            == object.etag@ && e.size == object.size,
        get_object::planned_get(
            store::indexed(scanned),
            key,
            get_object::plain_request(),
        ) matches GetPlanView::Serve { entry, range: None } && entry.etag == object.etag@,
{
    law_restart_keeps_the_object(
        key,
        multipart::complete_entry(job, object),
        saved,
        path,
        scanned,
        i,
    );
}

/// After an object has been stored it is indexed under its key, with what was
/// stored, and the index is as it was under all other keys.
pub proof fn law_index_after_a_put(
    objects: Map<Seq<char>, EntryView>,
    job: PutJobView,
    body: WrittenBody,
    other: Seq<char>,
)
    ensures
        after_put(objects, job, body).contains_key(job.object_key),
        after_put(objects, job, body)[job.object_key] == put_object::put_entry(job, body),
        other != job.object_key ==> after_put(objects, job, body).contains_key(other)
            == objects.contains_key(other) && after_put(objects, job, body)[other]
            == objects[other],
{
}

/// The data of parts is that of each, one behind the other.
pub proof fn law_data_of_parts(
    files: Map<Seq<Seq<u8>>, Seq<u8>>,
    a: Seq<(u32, PartView)>,
    b: Seq<(u32, PartView)>,
)
    ensures
        part_data(files, a + b) == part_data(files, a) + part_data(files, b),
        a.len() == 0 ==> part_data(files, a) == Seq::<u8>::empty(),
        a.len() == 1 ==> part_data(files, a) == files[fs_path::names(a[0].1.abs_path)],
    decreases b.len(),
{
    if b.len() == 0 {
        assert(a + b == a);
        assert(part_data(files, a) + part_data(files, b) == part_data(files, a));
    } else {
        law_data_of_parts(files, a, b.drop_last());
        assert((a + b).drop_last() == a + b.drop_last());
        assert(part_data(files, a + b) =~= part_data(files, a) + part_data(files, b));
    }
    if a.len() == 1 {
        assert(part_data(files, a.drop_last()) == Seq::<u8>::empty());
        assert(part_data(files, a) =~= files[fs_path::names(a[0].1.abs_path)]);
    }
}

/// An upload of the parts 1 to `k` makes an object of their data in that order: it
/// is put together from the part that the upload has under the number 1, then from
/// the one under the number 2, and so on, whatever order the request names them in.
pub proof fn law_object_is_its_parts_in_order(
    uploads: Map<Seq<char>, UploadView>,
    files: Map<Seq<Seq<u8>>, Seq<u8>>,
    root: Seq<u8>,
    key: Seq<char>,
    id: Seq<char>,
    wanted: Seq<(u32, Seq<char>)>,
    named: Seq<(u32, Seq<char>)>,
    token: Seq<char>,
    job: CompleteJobView,
    i: int,
)
    requires
        forall|k: int| 0 <= k < wanted.len() ==> (#[trigger] wanted[k]).0 == k + 1,
        named.to_multiset() == wanted.to_multiset(),
        multipart::planned_complete(uploads, root, key, id, Some(named), token)
            == CompleteStartView::Assemble(job),
        0 <= i < wanted.len(),
    ensures
        job.parts.len() == wanted.len(),
        job.parts[i].0 == i + 1,
        job.parts[i].1 == uploads[id].parts[(i + 1) as u32],
        part_data(files, job.parts.take(i + 1)) == part_data(files, job.parts.take(i))
            + files[fs_path::names(uploads[id].parts[(i + 1) as u32].abs_path)],
        multipart::total_size(job.parts.take(i + 1)) == multipart::total_size(job.parts.take(i))
            + uploads[id].parts[(i + 1) as u32].size,
        multipart::digests_of(job.parts)[i] == uploads[id].parts[(i + 1) as u32].md5_bytes,
{
    let parts = uploads[id].parts;
    assert forall|p: int, q: int| 0 <= p < q < wanted.len() implies (#[trigger] wanted[p]).0 <= (
    #[trigger] wanted[q]).0 by {
        assert(wanted[p].0 == p + 1 && wanted[q].0 == q + 1);
    }
    multipart::law_upload_is_completed_under_its_key(uploads, root, key, id, Some(named), token);
    multipart::law_order_of_the_request_does_not_matter(parts, named, wanted);
    multipart::law_parts_named_in_order_stay_in_order(parts, wanted);
    assert(wanted[i].0 == i + 1);
    assert(job.parts[i] == (wanted[i].0, parts[wanted[i].0]));
    assert(job.parts.take(i + 1).drop_last() == job.parts.take(i));
    assert(job.parts.take(i + 1).last() == job.parts[i]);
    multipart::law_checksums_of_parts(job.parts);
}

/// Parts that were uploaded under different numbers are there side by side: the
/// upload can be completed with both of them, under the tags of what was uploaded.
pub proof fn law_parts_of_different_numbers_are_kept(
    uploads: Map<Seq<char>, UploadView>,
    root: Seq<u8>,
    key: Seq<char>,
    id: Seq<char>,
    m: u32,
    n: u32,
    first: PartJobView,
    second: PartJobView,
    body: WrittenBody,
    other: WrittenBody,
    data: Seq<u8>,
    other_data: Seq<u8>,
    token: Seq<char>,
    other_token: Seq<char>,
    last_token: Seq<char>,
)
    requires
        m != n,
        put_object::planned_part(uploads, root, key, Some(m), Some(id), token)
            == PartStartView::Write(first),
        put_object::planned_part(
            put_object::uploads_after_part(uploads, first, Some(body)),
            root,
            key,
            Some(n),
            Some(id),
            other_token,
        ) == PartStartView::Write(second),
        body.describes(data),
        other.describes(other_data),
        put_object::safe_path(encode_utf8(key)) is Some,
    ensures
        ({
            let after = put_object::uploads_after_part(
                put_object::uploads_after_part(uploads, first, Some(body)),
                second,
                Some(other),
            );
            let wanted = seq![(m, etag::etag_of(data)), (n, etag::etag_of(other_data))];
            &&& after[id].parts[m].md5_bytes@ == etag::md5_of(data)
            &&& after[id].parts[n].md5_bytes@ == etag::md5_of(other_data)
            &&& multipart::planned_complete(
                after,
                root,
                key,
                id,
                Some(wanted),
                last_token,
            ) is Assemble
        }),
{
    let between = put_object::uploads_after_part(uploads, first, Some(body));
    let after = put_object::uploads_after_part(between, second, Some(other));
    put_object::law_part_is_uploaded_under_its_number(uploads, root, key, Some(m), Some(id), token);
    put_object::law_written_part_is_recorded(
        uploads,
        root,
        key,
        m,
        id,
        token,
        first,
        body,
        data,
    );
    put_object::law_written_part_is_recorded(
        between,
        root,
        key,
        n,
        id,
        other_token,
        second,
        other,
        other_data,
    );
    let wanted = seq![(m, etag::etag_of(data)), (n, etag::etag_of(other_data))];
    assert(uploads.dom().contains(id));
    assert(between.dom().contains(id));
    assert(after.dom().contains(id));
    assert(between[id].parts.dom().contains(m));
    assert(after[id].parts.dom().contains(m) && after[id].parts.dom().contains(n));
    assert(after[id].parts[m] == between[id].parts[m]);
    assert forall|i: int| 0 <= i < wanted.len() implies after[id].parts.contains_key(
        (#[trigger] wanted[i]).0,
    ) && after[id].parts[wanted[i].0].etag == wanted[i].1 by {
        assert(i == 0 || i == 1);
    }
    multipart::law_upload_is_completed_under_its_key(
        after,
        root,
        key,
        id,
        Some(wanted),
        last_token,
    );
}

/// A client that has the former version of an object, by its tag, gets the present
/// one with `If-None-Match`, and cannot get it with `If-Match`.
pub proof fn law_former_tag_is_not_valid_anymore(
    objects: Map<Seq<char>, EntryView>,
    key: Seq<char>,
    former: WrittenBody,
    job: PutJobView,
    body: WrittenBody,
)
    requires
        job.object_key == put_object::object_key(key),
        former.digest@ != body.digest@,
    ensures
        get_object::planned_get(
            after_put(objects, job, body),
            key,
            GetRequestView { if_none_match: Some(former.tag()), ..get_object::plain_request() },
        ) == (GetPlanView::Serve { entry: put_object::put_entry(job, body), range: None }),
        get_object::planned_get(
            after_put(objects, job, body),
            key,
            GetRequestView { if_match: Some(former.tag()), ..get_object::plain_request() },
        ) == GetPlanView::Refuse(
            s3_xml_compat::error_response(S3ErrorKind::PreconditionFailed),
        ),
{
    let entry = put_object::put_entry(job, body);
    let inner = etag::hex(former.digest@);
    etag::law_etag_identifies_the_checksum(former.digest@, body.digest@);
    assert(former.tag() == seq!['"'] + inner + seq!['"']);
    assert(entry.etag == etag::quoted(etag::hex(body.digest@)));
    assert(entry.etag != former.tag());
    get_object::law_other_tag_is_not_the_object(
        entry,
        inner,
        None,
        get_object::plain_request(),
    );
}

/// Each object keeps its own data: after one object has been stored, and then
/// another under a key that names another object, the first is got from the file
/// that holds its data, and the second from the file that holds its own. Both keys
/// consist of names, and the second temporary file does not have the name of the
/// first object.
pub proof fn law_each_object_keeps_its_data(
    objects: Map<Seq<char>, EntryView>,
    files: Map<Seq<Seq<u8>>, Seq<u8>>,
    root: Seq<u8>,
    a: Seq<char>,
    b: Seq<char>,
    request_a: Seq<(Seq<char>, Seq<u8>)>,
    request_b: Seq<(Seq<char>, Seq<u8>)>,
    token_a: Seq<char>,
    token_b: Seq<char>,
    job_a: PutJobView,
    job_b: PutJobView,
    body_a: WrittenBody,
    body_b: WrittenBody,
    data_a: Seq<u8>,
    data_b: Seq<u8>,
)
    requires
        put_object::planned_put(objects, root, a, request_a, token_a) == PutStartView::Write(job_a),
        put_object::planned_put(
            after_put(objects, job_a, body_a),
            root,
            b,
            request_b,
            token_b,
        ) == PutStartView::Write(job_b),
        put_object::object_key(a) != put_object::object_key(b),
        fs_path::is_plain_key(put_object::object_key(a)),
        fs_path::is_plain_key(put_object::object_key(b)),
        body_a.describes(data_a),
        body_b.describes(data_b),
        fs_path::names(job_b.tmp_path) != fs_path::names(job_a.abs_path),
    ensures
        ({
            let first = file_renamed(
                file_written(files, job_a.tmp_path, data_a),
                job_a.tmp_path,
                job_a.abs_path,
            );
            let now = file_renamed(
                file_written(first, job_b.tmp_path, data_b),
                job_b.tmp_path,
                job_b.abs_path,
            );
            let index = after_put(after_put(objects, job_a, body_a), job_b, body_b);
            let plain = get_object::plain_request();
            &&& get_object::planned_get(index, a, plain) matches GetPlanView::Serve {
                entry,
                range: None,
            } && now[fs_path::names(entry.abs_path)] == data_a && entry.etag == etag::etag_of(
                data_a,
            ) && entry.size == data_a.len()
            &&& get_object::planned_get(index, b, plain) matches GetPlanView::Serve {
                entry,
                range: None,
            } && now[fs_path::names(entry.abs_path)] == data_b && entry.etag == etag::etag_of(
                data_b,
            ) && entry.size == data_b.len()
        }),
{
    put_object::law_put_writes_to_the_file_of_its_key(objects, root, a, request_a, token_a);
    put_object::law_put_writes_to_the_file_of_its_key(
        after_put(objects, job_a, body_a),
        root,
        b,
        request_b,
        token_b,
    );
    put_object::law_puts_of_different_objects_write_to_different_files(
        objects,
        after_put(objects, job_a, body_a),
        root,
        a,
        b,
        request_a,
        request_b,
        token_a,
        token_b,
    );
    put_object::law_entry_of_a_put(job_a, body_a, data_a);
    put_object::law_entry_of_a_put(job_b, body_b, data_b);
    get_object::law_plain_request_gets_the_object(put_object::put_entry(job_a, body_a));
    get_object::law_plain_request_gets_the_object(put_object::put_entry(job_b, body_b));
}

/// The file that an object is stored in is the one that a walk of the serve
/// directory comes to and indexes under the key of the object, if the key consists
/// of names.
pub proof fn law_walk_knows_the_file_of_a_put(
    objects: Map<Seq<char>, EntryView>,
    root: Seq<u8>,
    key: Seq<char>,
    request: Seq<(Seq<char>, Seq<u8>)>,
    token: Seq<char>,
    job: PutJobView,
)
    requires
        put_object::planned_put(objects, root, key, request, token) == PutStartView::Write(job),
        fs_path::is_plain_key(put_object::object_key(key)),
    ensures
        ({
            let through = fs_path::names(encode_utf8(put_object::object_key(key)));
            &&& fs_path::names(job.abs_path) == fs_path::names(root) + through
            &&& fs_path::path_key(fs_path::walked(through)) == put_object::object_key(key)
            &&& fs_path::names(fs_path::walked(through)) == through
        }),
{
    let p = encode_utf8(put_object::object_key(key));
    put_object::law_put_writes_to_the_file_of_its_key(objects, root, key, request, token);
    put_object::law_object_lies_below_the_serve_dir(root, encode_utf8(key));
    put_object::law_object_key_is_a_normal_form(key);
    fs_path::lemma_names_are_segments(p);
    fs_path::lemma_walked(fs_path::names(p));
}

/// A client that asks for the bytes `a` to `b` of an object gets exactly these, as
/// far as the object has them: from the byte `a` on, up to the byte `b` or the last
/// one of the object.
pub proof fn law_requested_bytes_are_sent(
    entry: EntryView,
    a: u64,
    b: u64,
    contents: Seq<u8>,
)
    requires
        a <= b,
        a < entry.size,
        contents.len() == entry.size,
    ensures
        ({
            let header = "bytes="@ + text::decimal(a as nat) + "-"@ + text::decimal(b as nat);
            let request = GetRequestView { range: Some(header), ..get_object::plain_request() };
            let stop = if b < entry.size {
                b + 1
            } else {
                entry.size as int
            };
            get_object::planned_for_entry(entry, request) matches GetPlanView::Serve {
                entry: e,
                range,
            } && e == entry && range is Some && (get_object::served(
                entry,
                range,
            ).body matches BodyView::FileRange { path, start, len } && path == entry.abs_path
                && start == a && start + len == stop && contents.subrange(
                start as int,
                start + len,
            ) == contents.subrange(a as int, stop))
        }),
{
    range::law_explicit_range(a, b, entry.size);
    let last = if b < entry.size {
        b
    } else {
        (entry.size - 1) as u64
    };
    get_object::law_body_is_what_was_asked_for(entry, ByteRange { start: a, end: last }, contents);
}

} // verus!
