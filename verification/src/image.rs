//! The asset uploader's decisions: which file an asset reference names, what
//! is sent to the destination, and what a response means.
//!
//! Reading the file and sending the request are the caller's part; it hands
//! in the bytes it read and the outcome of the request it made.

use crate::bindings::{base64_text, encode_base64};
use crate::http::{classify_status, status_class, HttpOutcome, StatusClass};
use crate::rewriter::{has_parent_segment, pairs, resolved, url_to_path, Substitution};
use crate::text::{decimal_digits, extend, format_u64, from_chars, replace, replaced, to_chars};
use vstd::prelude::*;
use vstd::string::StringExecFns;

verus! {

/// The directory that held the legacy system's files, where nothing else is
/// configured.
pub const CONTENT_ROOT: &'static str = "/var/www/wordpress";

/// What every description of a failed upload begins with.
pub const FAILURE_PREFIX: &'static str = "Falha ao enviar imagem: ";

/// What stands between the owner and the status code in such a description.
pub const FAILURE_STATUS: &'static str = " - Status: ";

/// An image for the destination's general image endpoint.
#[derive(Debug, Clone, PartialEq, Eq)]
pub struct ImageRequest {
    pub path_image: String,
    pub base64: String,
}

/// An author's profile image for the destination.
#[derive(Debug, Clone, PartialEq, Eq)]
pub struct ImageAuthor {
    pub author_id: String,
    pub path_image: String,
    pub base64: String,
}

/// A post's primary image for the destination.
#[derive(Debug, Clone, PartialEq, Eq)]
pub struct ImagePost {
    pub post_id: String,
    pub path_image: String,
    pub base64: String,
}

/// The destination's answer to a stored image: its reference for it.
#[derive(Debug, Clone, PartialEq, Eq)]
pub struct ImageReply {
    pub image: String,
}

/// Why an asset did not reach the destination.
#[derive(Debug, Clone, Copy, PartialEq, Eq, Structural)]
pub enum UploadCause {
    /// The reference names no file: it is no absolute URL.
    Unresolved,
    /// The file is missing or cannot be read.
    Unreadable,
    /// The destination refused the request, with a status from 400 to 499.
    ClientRejected(u16),
    /// The destination failed, with a status from 500 to 599.
    ServerFailed(u16),
    /// The destination answered with a status of no known family.
    Unmapped(u16),
    /// The request failed on the network.
    Transport,
    /// The destination accepted the image, but its answer held no reference.
    MalformedReply,
}

/// A failed upload: the entity that owns the asset, and the cause.
#[derive(Debug, Clone, PartialEq, Eq)]
pub struct UploadFailure {
    pub owner: String,
    pub cause: UploadCause,
}

/// The path of an image at the destination: the path of its file without
/// the content root.
pub open spec fn destination_path(image_path: Seq<char>, content_root: Seq<char>) -> Seq<char> {
    replaced(image_path, content_root, Seq::empty())
}

/// The path of an image at the destination.
pub fn strip_root(image_path: &str, content_root: &str) -> (out: String)
    ensures
        out@ == destination_path(image_path@, content_root@),
{
    let path = to_chars(image_path);
    let root = to_chars(content_root);
    let nothing: Vec<char> = Vec::new();
    let out = replace(path.as_slice(), root.as_slice(), nothing.as_slice());
    from_chars(out.as_slice())
}

impl ImageRequest {
    /// The request for the file at `image_path` under `content_root` whose
    /// content is `bytes`.
    pub fn new(image_path: &str, content_root: &str, bytes: &[u8]) -> (r: Self)
        ensures
            r.path_image@ == destination_path(image_path@, content_root@),
            r.base64@ == base64_text(bytes@),
    {
        ImageRequest {
            path_image: strip_root(image_path, content_root),
            base64: encode_base64(bytes),
        }
    }
}

impl ImageAuthor {
    /// The request for the profile image of the author `author_id`: the file
    /// at `image_path` under `content_root` whose content is `bytes`.
    pub fn new(author_id: &str, image_path: &str, content_root: &str, bytes: &[u8]) -> (r: Self)
        ensures
            r.author_id@ == author_id@,
            r.path_image@ == destination_path(image_path@, content_root@),
            r.base64@ == base64_text(bytes@),
    {
        ImageAuthor {
            author_id: String::from_str(author_id),
            path_image: strip_root(image_path, content_root),
            base64: encode_base64(bytes),
        }
    }
}

impl ImagePost {
    /// The request for the primary image of the post `post_id`: the file at
    /// `image_path` under `content_root` whose content is `bytes`.
    pub fn new(post_id: &str, image_path: &str, content_root: &str, bytes: &[u8]) -> (r: Self)
        ensures
            r.post_id@ == post_id@,
            r.path_image@ == destination_path(image_path@, content_root@),
            r.base64@ == base64_text(bytes@),
    {
        ImagePost {
            post_id: String::from_str(post_id),
            path_image: strip_root(image_path, content_root),
            base64: encode_base64(bytes),
        }
    }
}

/// The file under `content_root` that holds the asset `url` of the entity
/// `owner`, after the substitutions `subs`. Fails with `Unresolved` exactly
/// where what the substitutions leave of `url` names no path, or a path
/// with a segment `..`: a file that is found lies under `content_root`.
pub fn resolve_asset(owner: &str, url: &str, content_root: &str, subs: &[Substitution]) -> (r:
    Result<String, UploadFailure>)
    ensures
        match resolved(url@, content_root@, pairs(subs@)) {
            Some(path) => r matches Ok(found) && found@ == path,
            None => r matches Err(failure) && failure.owner@ == owner@ && failure.cause
                == UploadCause::Unresolved,
        },
        r matches Ok(found) ==> content_root@.is_prefix_of(found@) && !has_parent_segment(
            found@.skip(content_root@.len() as int),
        ),
{
    match url_to_path(url, content_root, subs) {
        Some(path) => Ok(path),
        None => Err(UploadFailure { owner: String::from_str(owner), cause: UploadCause::Unresolved }),
    }
}

/// The failure of the entity `owner` whose asset's file could not be read.
pub fn unreadable(owner: &str) -> (failure: UploadFailure)
    ensures
        failure.owner@ == owner@,
        failure.cause == UploadCause::Unreadable,
{
    UploadFailure { owner: String::from_str(owner), cause: UploadCause::Unreadable }
}

/// What an upload's outcome means: the reference that the destination gave,
/// or the cause of the failure.
pub open spec fn upload_verdict(outcome: HttpOutcome) -> Result<Seq<char>, UploadCause> {
    match outcome {
        HttpOutcome::Transport => Err(UploadCause::Transport),
        HttpOutcome::Response { status, body } => match status_class(status) {
            StatusClass::Success => match body {
                Some(reference) => Ok(reference@),
                None => Err(UploadCause::MalformedReply),
            },
            StatusClass::ClientError => Err(UploadCause::ClientRejected(status)),
            StatusClass::ServerError => Err(UploadCause::ServerFailed(status)),
            StatusClass::Other => Err(UploadCause::Unmapped(status)),
        },
    }
}

/// Decides what came of the upload of an asset of the entity `owner`. The
/// upload succeeded exactly where the destination answered with a status
/// from 200 to 299 and a body that held its reference for the asset; every
/// other outcome is a failure that names `owner` and the cause.
pub fn conclude_upload(owner: &str, outcome: HttpOutcome) -> (r: Result<ImageReply, UploadFailure>)
    ensures
        match upload_verdict(outcome) {
            Ok(reference) => r matches Ok(reply) && reply.image@ == reference,
            Err(cause) => r matches Err(failure) && failure.owner@ == owner@ && failure.cause
                == cause,
        },
{
    let cause = match outcome {
        HttpOutcome::Transport => UploadCause::Transport,
        HttpOutcome::Response { status, body } => match classify_status(status) {
            StatusClass::Success => match body {
                Some(reference) => {
                    return Ok(ImageReply { image: reference });
                },
                None => UploadCause::MalformedReply,
            },
            StatusClass::ClientError => UploadCause::ClientRejected(status),
            StatusClass::ServerError => UploadCause::ServerFailed(status),
            StatusClass::Other => UploadCause::Unmapped(status),
        },
    };
    Err(UploadFailure { owner: String::from_str(owner), cause })
}

/// The status code that a cause carries.
pub open spec fn cause_status(cause: UploadCause) -> Option<u16> {
    match cause {
        UploadCause::ClientRejected(status) => Some(status),
        UploadCause::ServerFailed(status) => Some(status),
        UploadCause::Unmapped(status) => Some(status),
        _ => None,
    }
}

/// The description of a failed upload.
pub open spec fn failure_text(owner: Seq<char>, cause: UploadCause) -> Seq<char> {
    match cause_status(cause) {
        Some(status) => FAILURE_PREFIX@ + owner + FAILURE_STATUS@ + decimal_digits(status as nat),
        None => FAILURE_PREFIX@ + owner,
    }
}

impl UploadFailure {
    /// A line that names the owner and, where the destination answered, the
    /// status code of its answer.
    pub fn describe(&self) -> (line: String)
        ensures
            line@ == failure_text(self.owner@, self.cause),
    {
        let mut out: Vec<char> = to_chars(FAILURE_PREFIX);
        extend(&mut out, to_chars(self.owner.as_str()).as_slice());
        let status: Option<u16> = match self.cause {
            UploadCause::ClientRejected(status) => Some(status),
            UploadCause::ServerFailed(status) => Some(status),
            UploadCause::Unmapped(status) => Some(status),
            _ => None,
        };
        match status {
            Some(code) => {
                extend(&mut out, to_chars(FAILURE_STATUS).as_slice());
                extend(&mut out, format_u64(code as u64).as_slice());
            },
            None => {},
        }
        from_chars(out.as_slice())
    }
}

} // verus!
