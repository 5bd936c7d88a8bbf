//! The record kept for every stored medium.

use crate::number::{decimal, digit_char, to_decimal};
use crate::text::string_from_chars;
use vstd::prelude::*;

verus! {

/// Represents a media record.
#[derive(Debug)]
pub struct Media {
    /// Short hash ID
    pub hash_id: String,
    /// Media extension
    pub extension: String,
    /// Whether media has dedicated thumbnail
    pub has_thumbnail: bool,
    /// Whether media is private
    pub is_private: bool,
    /// Media width
    pub width: u32,
    /// Media height
    pub height: u32,
    /// Filesize of media
    pub filesize: u64,
    /// Comment for media
    pub comment: Option<String>,
    /// Uploaded date, in nanoseconds since the Unix epoch
    pub uploaded: i128,
}

/// What a [`Media`] record holds, as mathematical values.
pub ghost struct MediaView {
    pub hash_id: Seq<char>,
    pub extension: Seq<char>,
    pub has_thumbnail: bool,
    pub is_private: bool,
    pub width: nat,
    pub height: nat,
    pub filesize: nat,
    pub comment: Option<Seq<char>>,
    pub uploaded: int,
}

/// The view of an optional string.
pub open spec fn opt_view(s: Option<String>) -> Option<Seq<char>> {
    match s {
        Some(s) => Some(s@),
        None => None,
    }
}

impl View for Media {
    type V = MediaView;

    open spec fn view(&self) -> MediaView {
        MediaView {
            hash_id: self.hash_id@,
            extension: self.extension@,
            has_thumbnail: self.has_thumbnail,
            is_private: self.is_private,
            width: self.width as nat,
            height: self.height as nat,
            filesize: self.filesize as nat,
            comment: opt_view(self.comment),
            uploaded: self.uploaded as int,
        }
    }
}

impl Clone for Media {
    fn clone(&self) -> (copy: Media)
        ensures
            copy@ == self@,
    {
        let comment = match &self.comment {
            Some(text) => Some(text.clone()),
            None => None,
        };
        Media {
            hash_id: self.hash_id.clone(),
            extension: self.extension.clone(),
            has_thumbnail: self.has_thumbnail,
            is_private: self.is_private,
            width: self.width,
            height: self.height,
            filesize: self.filesize,
            comment,
            uploaded: self.uploaded,
        }
    }
}


/// Hundredths of `unit` that `size` comes to, rounded to the nearest whole
/// and to the even one of two that are equally near.
pub open spec fn hundredths(size: nat, unit: nat) -> nat {
    let whole = size * 100 / unit;
    let rest = size * 100 % unit;
    if 2 * rest > unit || (2 * rest == unit && whole % 2 == 1) {
        whole + 1
    } else {
        whole
    }
}

/// A number of hundredths as decimal text with two decimals.
pub open spec fn two_decimals(value: nat) -> Seq<char> {
    decimal((value / 100) as int) + seq![
        '.',
        digit_char((value / 10 % 10) as int),
        digit_char((value % 10) as int),
    ]
}

/// The approximate representation of a size in bytes: the bytes themselves
/// below a kibibyte, else kibibytes or mebibytes with two decimals.
pub open spec fn filesize_text(filesize: nat) -> Seq<char> {
    if filesize <= 1 {
        decimal(filesize as int) + " byte"@
    } else if filesize < 1024 {
        decimal(filesize as int) + " bytes"@
    } else if filesize < 1048576 {
        two_decimals(hundredths(filesize, 1024)) + " KiB"@
    } else {
        two_decimals(hundredths(filesize, 1048576)) + " MiB"@
    }
}

/// Writes `size` in units of `unit` with two decimals.
fn with_two_decimals(size: u64, unit: u64) -> (text: String)
    requires
        unit == 1024 || unit == 1048576,
    ensures
        text@ == two_decimals(hundredths(size as nat, unit as nat)),
{
    let scaled: u128 = size as u128 * 100;
    let whole: u128 = scaled / unit as u128;
    let rest: u128 = scaled % unit as u128;
    let value: u128 = if 2 * rest > unit as u128 || (2 * rest == unit as u128 && whole % 2 == 1) {
        whole + 1
    } else {
        whole
    };
    assert(value == hundredths(size as nat, unit as nat));
    let mut digits: Vec<char> = Vec::new();
    digits.push('.');
    digits.push(((48 + value / 10 % 10) as u8) as char);
    digits.push(((48 + value % 10) as u8) as char);
    let mut text = to_decimal((value / 100) as i64);
    text.append(string_from_chars(&digits).as_str());
    assert(digits@ =~= seq![
        '.',
        digit_char((value / 10 % 10) as int),
        digit_char((value % 10) as int),
    ]);
    text
}

impl Media {
    /// Returns approximate representation of filesize.
    pub fn filesize_str(&self) -> (text: String)
        ensures
            text@ == filesize_text(self@.filesize),
    {
        if self.filesize <= 1 {
            let mut text = to_decimal(self.filesize as i64);
            text.append(" byte");
            text
        } else if self.filesize < 1024 {
            let mut text = to_decimal(self.filesize as i64);
            text.append(" bytes");
            text
        } else if self.filesize < 1048576 {
            let mut text = with_two_decimals(self.filesize, 1024);
            text.append(" KiB");
            text
        } else {
            let mut text = with_two_decimals(self.filesize, 1048576);
            text.append(" MiB");
            text
        }
    }
}

} // verus!
