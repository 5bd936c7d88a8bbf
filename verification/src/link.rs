//! Addresses under which the service and its media are reached.

use crate::entity::{opt_view, Media, MediaView};
use url::Url;
use vstd::prelude::*;

verus! {

/// The address that the url crate makes of a reference resolved against a
/// base address; `None` where the base or the result is no address.
pub uninterp spec fn joined_url(base: Seq<char>, reference: Seq<char>) -> Option<Seq<char>>;

/// The path of an address as the url crate reads it; `None` where the text
/// is no address.
pub uninterp spec fn url_path(url: Seq<char>) -> Option<Seq<char>>;

/// `Url::parse` of the base and `Url::join` of the reference: the
/// reference resolved against the base, as text.
#[verifier::external_body]
pub(crate) fn join(base: &str, reference: &str) -> (url: Option<String>)
    ensures
        opt_view(url) == joined_url(base@, reference@),
{
    Url::parse(base).ok()?.join(reference).ok().map(String::from)
}

/// `Url::parse` and `Url::path`: the path of the address.
#[verifier::external_body]
pub(crate) fn path(url: &str) -> (path: Option<String>)
    ensures
        opt_view(path) == url_path(url@),
{
    let url = Url::parse(url).ok()?;
    Some(url.path().to_string())
}

/// The address could not be made.
#[derive(Debug, Clone, Copy, PartialEq, Eq, Structural)]
pub struct UrlError;

/// Path of the page of a medium.
pub open spec fn page_path_of(media: MediaView) -> Seq<char> {
    "/m/"@ + media.hash_id
}

/// Path under which the original file of a medium is served.
pub open spec fn original_link_of(media: MediaView) -> Seq<char> {
    "/media/"@ + media.hash_id + "."@ + media.extension
}

/// Path under which the thumbnail of a medium is served.
pub open spec fn thumbnail_link_of(media: MediaView) -> Seq<char> {
    "/media/thumbnails/"@ + media.hash_id + ".jpg"@
}

/// Path of the page of a medium.
pub fn page_path(media: &Media) -> (path: String)
    ensures
        path@ == page_path_of(media@),
{
    let mut path = String::from_str("/m/");
    path.append(media.hash_id.as_str());
    path
}

/// Path under which the original file of a medium is served.
pub fn original_link(media: &Media) -> (path: String)
    ensures
        path@ == original_link_of(media@),
{
    let mut path = String::from_str("/media/");
    path.append(media.hash_id.as_str());
    path.append(".");
    path.append(media.extension.as_str());
    path
}

/// Path under which the thumbnail of a medium is served.
pub fn thumbnail_link(media: &Media) -> (path: String)
    ensures
        path@ == thumbnail_link_of(media@),
{
    let mut path = String::from_str("/media/thumbnails/");
    path.append(media.hash_id.as_str());
    path.append(".jpg");
    path
}

/// The address of a path of the service hosted at `hosted_at`.
pub fn address(hosted_at: &str, path: &str) -> (url: Result<String, UrlError>)
    ensures
        match url {
            Ok(url) => joined_url(hosted_at@, path@) == Some(url@),
            Err(_) => joined_url(hosted_at@, path@).is_none(),
        },
{
    match join(hosted_at, path) {
        Some(url) => Ok(url),
        None => Err(UrlError),
    }
}

} // verus!
