//! Defines what every page says of itself.

use crate::link::{address, joined_url, path, url_path, UrlError};
use crate::text::str_eq;
use vstd::prelude::*;

verus! {

/// Address, title, description and picture of a page.
#[derive(Debug)]
pub struct PageInfo {
    pub url: String,
    pub title: Option<String>,
    pub description: Option<String>,
    pub thumbnail: Option<String>,
}

impl PageInfo {
    /// Creates a new PageInfo with path.
    pub fn new(hosted_at: &str, path: &str) -> (info: Result<PageInfo, UrlError>)
        ensures
            match info {
                Ok(info) => joined_url(hosted_at@, path@) == Some(info.url@) && info.title.is_none()
                    && info.description.is_none() && info.thumbnail.is_none(),
                Err(_) => joined_url(hosted_at@, path@).is_none(),
            },
    {
        match address(hosted_at, path) {
            Ok(url) => Ok(PageInfo { url, title: None, description: None, thumbnail: None }),
            Err(error) => Err(error),
        }
    }

    /// Sets the title.
    pub fn with_title(self, title: &str) -> (info: PageInfo)
        ensures
            info.title matches Some(text) && text@ == title@,
            info.url == self.url,
            info.description == self.description,
            info.thumbnail == self.thumbnail,
    {
        let mut info = self;
        info.title = Some(title.to_owned());
        info
    }

    /// Sets the description.
    pub fn with_description(self, desc: &str) -> (info: PageInfo)
        ensures
            info.description matches Some(text) && text@ == desc@,
            info.url == self.url,
            info.title == self.title,
            info.thumbnail == self.thumbnail,
    {
        let mut info = self;
        info.description = Some(desc.to_owned());
        info
    }

    /// Sets the picture.
    pub fn with_thumbnail(self, thumbnail: &str) -> (info: PageInfo)
        ensures
            info.thumbnail matches Some(text) && text@ == thumbnail@,
            info.url == self.url,
            info.title == self.title,
            info.description == self.description,
    {
        let mut info = self;
        info.thumbnail = Some(thumbnail.to_owned());
        info
    }

    /// Returns OGP page type: `website` for the page at the root,
    /// `article` for any other.
    pub fn page_type(&self) -> (kind: &'static str)
        ensures
            kind@ == if url_path(self.url@) == Some("/"@) {
                "website"@
            } else {
                "article"@
            },
    {
        match path(self.url.as_str()) {
            Some(path) => if str_eq(path.as_str(), "/") {
                "website"
            } else {
                "article"
            },
            None => "article",
        }
    }
}

} // verus!
