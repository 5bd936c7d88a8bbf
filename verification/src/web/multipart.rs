//! Fields of multipart form data.

use crate::text::{bytes_as_str, opt_str_view, str_eq, utf8_text};
use vstd::prelude::*;

verus! {

/// Represents data of multipart field.
#[derive(Debug, Clone, PartialEq, Eq, PartialOrd, Ord)]
pub enum MultipartData {
    /// Text data
    Text(String),
    /// Bytes data (maybe text)
    Bytes(Vec<u8>),
    /// File data
    File(String, Vec<u8>),
}

impl MultipartData {
    /// The text of a field: that of a text field, that of a bytes field
    /// whose bytes are valid UTF-8, and none of a file.
    pub open spec fn text(&self) -> Option<Seq<char>> {
        match self {
            MultipartData::Text(text) => Some(text@),
            MultipartData::Bytes(bytes) => utf8_text(bytes@),
            MultipartData::File(_, _) => None,
        }
    }

    /// Converts into string.
    pub fn as_str(&self) -> (text: Option<&str>)
        ensures
            opt_str_view(text) == self.text(),
    {
        match self {
            MultipartData::Text(t) => Some(t.as_str()),
            MultipartData::Bytes(b) => bytes_as_str(b.as_slice()),
            _ => None,
        }
    }
}

/// A text field whose bytes are not valid UTF-8.
#[derive(Debug, Clone, Copy, PartialEq, Eq, Structural)]
pub struct InvalidText;

/// Whether a field of the given content type holds text: one of type
/// `text/plain`, or of no type at all.
pub open spec fn is_text_type(content_type: Option<Seq<char>>) -> bool {
    match content_type {
        Some(essence) => essence == "text/plain"@,
        None => true,
    }
}

/// Makes a field of what a part of the body holds: a file where the part
/// has a file name, else text where its content type says so, else bytes.
/// Text that is not valid UTF-8 is refused.
pub fn classify_field(filename: Option<String>, content_type: Option<&str>, data: Vec<u8>) -> (field:
    Result<MultipartData, InvalidText>)
    ensures
        filename matches Some(name) ==> field == Ok::<MultipartData, InvalidText>(
            MultipartData::File(name, data),
        ),
        filename.is_none() && !is_text_type(opt_str_view(content_type)) ==> field == Ok::<
            MultipartData,
            InvalidText,
        >(MultipartData::Bytes(data)),
        filename.is_none() && is_text_type(opt_str_view(content_type)) ==> match field {
            Ok(MultipartData::Text(text)) => utf8_text(data@) == Some(text@),
            Ok(_) => false,
            Err(_) => utf8_text(data@).is_none(),
        },
{
    if let Some(name) = filename {
        return Ok(MultipartData::File(name, data));
    }
    let is_text = match content_type {
        Some(essence) => str_eq(essence, "text/plain"),
        None => true,
    };
    if is_text {
        match bytes_as_str(data.as_slice()) {
            Some(text) => Ok(MultipartData::Text(text.to_owned())),
            None => Err(InvalidText),
        }
    } else {
        Ok(MultipartData::Bytes(data))
    }
}

} // verus!
