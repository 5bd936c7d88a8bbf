//! API schema types

use crate::entity::{opt_view, Media, MediaView};
use crate::link::{
    address, joined_url, original_link, original_link_of, page_path, page_path_of, UrlError,
};
use vstd::prelude::*;

verus! {

/// What a refused call is answered with.
#[derive(Debug, PartialEq, Eq)]
pub struct ErrorResponse {
    pub message: String,
}

impl ErrorResponse {
    /// The response that carries the message.
    pub fn build(message: &str) -> (response: ErrorResponse)
        ensures
            response.message@ == message@,
    {
        ErrorResponse { message: message.to_owned() }
    }
}

/// The query that asks for a medium.
#[derive(Debug, PartialEq, Eq)]
pub struct ShowMediaQuery {
    pub hash_id: String,
}

/// What a call is told of a medium.
#[derive(Debug, PartialEq, Eq)]
pub struct ShowMediaResponse {
    pub url: String,
    pub permalink: String,
    pub hash_id: String,
    pub width: u32,
    pub height: u32,
    pub filesize: u64,
    pub private: bool,
    pub comment: Option<String>,
    pub uploaded: i128,
}

impl ShowMediaResponse {
    /// Whether the response describes the medium as served at `hosted_at`:
    /// it carries the addresses of the medium's page and original file and
    /// what the record says of the medium.
    pub open spec fn describes(&self, hosted_at: Seq<char>, media: MediaView) -> bool {
        &&& joined_url(hosted_at, page_path_of(media)) == Some(self.url@)
        &&& joined_url(hosted_at, original_link_of(media)) == Some(self.permalink@)
        &&& self.hash_id@ == media.hash_id
        &&& self.width == media.width
        &&& self.height == media.height
        &&& self.filesize == media.filesize
        &&& self.private == media.is_private
        &&& opt_view(self.comment) == media.comment
        &&& self.uploaded == media.uploaded
    }

    /// Constructs from `Media`; fails where the medium's page or file has
    /// no address.
    pub fn from_media_record(hosted_at: &str, media: &Media) -> (response: Result<
        ShowMediaResponse,
        UrlError,
    >)
        ensures
            match response {
                Ok(response) => response.describes(hosted_at@, media@),
                Err(_) => joined_url(hosted_at@, page_path_of(media@)).is_none() || joined_url(
                    hosted_at@,
                    original_link_of(media@),
                ).is_none(),
            },
    {
        let url = match address(hosted_at, page_path(media).as_str()) {
            Ok(url) => url,
            Err(error) => {
                return Err(error);
            },
        };
        let permalink = match address(hosted_at, original_link(media).as_str()) {
            Ok(url) => url,
            Err(error) => {
                return Err(error);
            },
        };
        let comment = match &media.comment {
            Some(text) => Some(text.clone()),
            None => None,
        };
        Ok(
            ShowMediaResponse {
                url,
                permalink,
                hash_id: media.hash_id.clone(),
                width: media.width,
                height: media.height,
                filesize: media.filesize,
                private: media.is_private,
                comment,
                uploaded: media.uploaded,
            },
        )
    }
}

/// The query that comes with an upload.
#[derive(Debug, PartialEq, Eq)]
pub struct UploadMediaQuery {
    pub filename: String,
    pub private: Option<bool>,
    pub comment: Option<String>,
}

impl UploadMediaQuery {
    /// Whether the upload is to be private: as the query says, and public
    /// where it does not say.
    pub fn is_private(&self) -> (private: bool)
        ensures
            private == (self.private == Some(true)),
    {
        match self.private {
            Some(private) => private,
            None => false,
        }
    }
}

} // verus!
