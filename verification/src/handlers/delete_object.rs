//! DeleteObject.

use crate::errors::IoKind;
use crate::fs_path;
use crate::fs_path::FsPath;
use crate::handlers::put_object;
use crate::handlers::put_object::sanitize_key;
use crate::handlers::put_object::to_object_key;
use crate::handlers::put_object::PutStartView;
use crate::response;
use crate::response::Response;
use crate::response::ResponseView;
use crate::s3_xml_compat;
use crate::s3_xml_compat::s3_error;
use crate::s3_xml_compat::S3ErrorKind;
use crate::store::EntryView;
use crate::store::FileStore;
use vstd::prelude::*;
use vstd::string::*;
use vstd::utf8::*;

verus! {

/// The query parameters of a DELETE request.
#[derive(Debug)]
pub struct DeleteParams {
    pub upload_id: Option<String>,
}

/// The operations behind DELETE.
#[derive(Debug)]
pub enum DeleteRoute {
    DeleteObject,
    /// Abort the upload with this identifier.
    AbortUpload(String),
}

/// DELETE /{*key} - dispatches to DeleteObject or AbortMultipartUpload.
pub fn delete_dispatch(params: DeleteParams) -> (r: DeleteRoute)
    ensures
        r == match params.upload_id {
            Some(id) => DeleteRoute::AbortUpload(id),
            None => DeleteRoute::DeleteObject,
        },
{
    match params.upload_id {
        Some(upload_id) => DeleteRoute::AbortUpload(upload_id),
        None => DeleteRoute::DeleteObject,
    }
}

/// How a DeleteObject request begins.
#[derive(Debug)]
pub enum DeleteStart {
    /// It is answered at once.
    Refuse(Response),
    /// The file of the object is removed, and then the metadata cached for it.
    Remove {
        /// The path of the object below the serve directory.
        rel_path: FsPath,
        /// The path of the object.
        abs_path: FsPath,
    },
}

/// What a [`DeleteStart`] says.
pub enum DeleteStartView {
    Refuse(ResponseView),
    Remove { rel_path: Seq<u8>, abs_path: Seq<u8> },
}

impl View for DeleteStart {
    type V = DeleteStartView;

    open spec fn view(&self) -> DeleteStartView {
        match self {
            DeleteStart::Refuse(resp) => DeleteStartView::Refuse(resp@),
            DeleteStart::Remove { rel_path, abs_path } => DeleteStartView::Remove {
                rel_path: rel_path@,
                abs_path: abs_path@,
            },
        }
    }
}

/// How a DeleteObject request for `key` begins.
pub open spec fn planned_delete(root: Seq<u8>, key: Seq<char>) -> DeleteStartView {
    match put_object::safe_path(encode_utf8(key)) {
        None => DeleteStartView::Refuse(put_object::invalid_key()),
        Some(rel) => DeleteStartView::Remove {
            rel_path: rel,
            abs_path: fs_path::joined(root, rel),
        },
    }
}

/// DeleteObject for the non-versioned store.
///
/// Begins the request.
pub fn delete_object(store: &FileStore, key: &str) -> (r: DeleteStart)
    ensures
        r@ == planned_delete(store.root(), key@),
{
    match sanitize_key(key) {
        Some(rel_path) => {
            let abs_path: FsPath = store.serve_dir().join(&rel_path);
            DeleteStart::Remove { rel_path, abs_path }
        },
        None => DeleteStart::Refuse(
            s3_error(S3ErrorKind::InvalidArgument("The specified object key is invalid.")),
        ),
    }
}

/// Whether the file of an object is gone, by the outcome of removing it.
pub open spec fn is_gone(removed: std::result::Result<(), IoKind>) -> bool {
    removed is Ok || removed == Err::<(), IoKind>(IoKind::NotFound)
}

/// Whether the file of an object is gone, by the outcome of removing it.
pub fn file_is_gone(removed: std::result::Result<(), IoKind>) -> (r: bool)
    ensures
        r == is_gone(removed),
{
    match removed {
        Ok(_) => true,
        Err(IoKind::NotFound) => true,
        Err(_) => false,
    }
}

/// Ends a DeleteObject request once the file of the object has been removed, or
/// has failed to be. Missing objects still get a 204, matching S3's idempotent
/// delete behavior.
pub fn delete_removed(
    store: &mut FileStore,
    key: &str,
    removed: std::result::Result<(), IoKind>,
) -> (r: Response)
    ensures
        final(store).root() == old(store).root(),
        final(store)@ == if is_gone(removed) {
            old(store)@.remove(put_object::object_key(key@))
        } else {
            old(store)@
        },
        r@ == if is_gone(removed) {
            response::no_content()
        } else {
            s3_xml_compat::error_response(S3ErrorKind::Internal)
        },
{
    if file_is_gone(removed) {
        store.remove(to_object_key(key).as_str());
        Response::new(204)
    } else {
        s3_error(S3ErrorKind::Internal)
    }
}

// ---------------------------------------------------------------------------
// Laws
// ---------------------------------------------------------------------------


/// A request to delete an object is refused exactly if its key has no path. It
/// removes the file of the key otherwise: the one that a request to store the
/// object would have written to.
pub proof fn law_delete_removes_what_a_put_writes(
    objects: Map<Seq<char>, EntryView>,
    root: Seq<u8>,
    key: Seq<char>,
    request: Seq<(Seq<char>, Seq<u8>)>,
    token: Seq<char>,
)
    ensures
        put_object::safe_path(encode_utf8(key)) is None ==> planned_delete(root, key)
            == DeleteStartView::Refuse(
            s3_xml_compat::error_response(
                S3ErrorKind::InvalidArgument("The specified object key is invalid."),
            ),
        ),
        put_object::safe_path(encode_utf8(key)) is Some ==> planned_delete(root, key) == (
        DeleteStartView::Remove {
            rel_path: encode_utf8(put_object::object_key(key)),
            abs_path: fs_path::joined(root, encode_utf8(put_object::object_key(key))),
        }),
        put_object::planned_put(objects, root, key, request, token) matches PutStartView::Write(job)
            ==> planned_delete(root, key) == (DeleteStartView::Remove {
            rel_path: job.rel_path,
            abs_path: job.abs_path,
        }),
{
    put_object::law_path_of_a_key(key);
    put_object::law_put_writes_to_the_file_of_its_key(objects, root, key, request, token);
}

/// A file is gone if it has been removed, or if there was none.
pub proof fn law_files_that_are_gone(removed: std::result::Result<(), IoKind>)
    ensures
        is_gone(removed) <==> match removed {
            Ok(_) => true,
            Err(kind) => kind is NotFound,
        },
{
}

/// A plan to delete says what its fields hold.
pub proof fn law_delete_plans_say_what_they_hold(
    response: Response,
    rel_path: FsPath,
    abs_path: FsPath,
)
    ensures
        DeleteStart::Refuse(response)@ == DeleteStartView::Refuse(response@),
        (DeleteStart::Remove { rel_path, abs_path })@ == (DeleteStartView::Remove {
            rel_path: rel_path.bytes@,
            abs_path: abs_path.bytes@,
        }),
{
}

} // verus!
