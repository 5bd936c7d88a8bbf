//! Contains media manipulations.

use crate::text::{file_extension, extension_of, has_prefix, opt_str_view, str_eq};
use image::ImageError;
use vstd::prelude::*;

verus! {

/// Width of the box a thumbnail fits in.
pub const THUMBNAIL_WIDTH: u32 = 320;

/// Height of the box a thumbnail fits in.
pub const THUMBNAIL_HEIGHT: u32 = 180;

/// The image formats the service accepts.
#[derive(Debug, Clone, Copy, PartialEq, Eq, Hash, Structural)]
pub enum ImageFormat {
    /// An Image in PNG Format
    Png,
    /// An Image in JPEG Format
    Jpeg,
    /// An Image in GIF Format
    Gif,
}

impl ImageFormat {
    /// The extension under which files of the format are stored.
    pub open spec fn extension_view(self) -> Seq<char> {
        match self {
            ImageFormat::Png => "png"@,
            ImageFormat::Jpeg => "jpg"@,
            ImageFormat::Gif => "gif"@,
        }
    }

    /// The media type of the format.
    pub open spec fn media_type_view(self) -> Seq<char> {
        match self {
            ImageFormat::Png => "image/png"@,
            ImageFormat::Jpeg => "image/jpeg"@,
            ImageFormat::Gif => "image/gif"@,
        }
    }

    /// The extension under which files of the format are stored.
    pub fn extension(self) -> (extension: &'static str)
        ensures
            extension@ == self.extension_view(),
    {
        match self {
            ImageFormat::Png => "png",
            ImageFormat::Jpeg => "jpg",
            ImageFormat::Gif => "gif",
        }
    }

    /// The media type of the format.
    pub fn media_type(self) -> (media_type: &'static str)
        ensures
            media_type@ == self.media_type_view(),
    {
        match self {
            ImageFormat::Png => "image/png",
            ImageFormat::Jpeg => "image/jpeg",
            ImageFormat::Gif => "image/gif",
        }
    }
}

/// A decoded image as mathematical values.
pub ghost struct ImageView {
    pub width: nat,
    pub height: nat,
    pub pixels: Seq<u8>,
}

/// Whether the samples are those of an image of at least one pixel: four
/// per pixel, row after row.
pub open spec fn is_raster(width: nat, height: nat, pixels: Seq<u8>) -> bool {
    width >= 1 && height >= 1 && pixels.len() == 4 * width * height
}

/// A decoded image: 8-bit RGBA samples, row after row from the top.
#[derive(Debug)]
pub struct Image {
    width: u32,
    height: u32,
    pixels: Vec<u8>,
}

impl View for Image {
    type V = ImageView;

    closed spec fn view(&self) -> ImageView {
        ImageView { width: self.width as nat, height: self.height as nat, pixels: self.pixels@ }
    }
}

impl Image {
    #[verifier::type_invariant]
    spec fn well_formed(self) -> bool {
        is_raster(self.width as nat, self.height as nat, self.pixels@)
    }

    /// The image of the given size and samples; `None` where the size is
    /// empty or the samples are not four per pixel.
    pub fn from_rgba(width: u32, height: u32, pixels: Vec<u8>) -> (image: Option<Image>)
        ensures
            image.is_some() == is_raster(width as nat, height as nat, pixels@),
            image matches Some(image) ==> image@ == (ImageView {
                width: width as nat,
                height: height as nat,
                pixels: pixels@,
            }),
    {
        if width == 0 || height == 0 {
            return None;
        }
        assert(4 * (width as nat) * (height as nat) <= 4 * 0xffff_ffff * 0xffff_ffff)
            by (nonlinear_arith)
            requires
                width <= 0xffff_ffff,
                height <= 0xffff_ffff,
        ;
        let samples: u128 = 4 * (width as u128) * (height as u128);
        if pixels.len() as u128 != samples {
            return None;
        }
        Some(Image { width, height, pixels })
    }

    /// Width in pixels.
    pub fn width(&self) -> (width: u32)
        ensures
            width == self@.width,
            is_raster(self@.width, self@.height, self@.pixels),
    {
        proof {
            use_type_invariant(self);
        }
        self.width
    }

    /// Height in pixels.
    pub fn height(&self) -> (height: u32)
        ensures
            height == self@.height,
            is_raster(self@.width, self@.height, self@.pixels),
    {
        proof {
            use_type_invariant(self);
        }
        self.height
    }

    /// The samples, four per pixel, row after row.
    pub fn pixels(&self) -> (pixels: &Vec<u8>)
        ensures
            pixels@ == self@.pixels,
            is_raster(self@.width, self@.height, self@.pixels),
    {
        proof {
            use_type_invariant(self);
        }
        &self.pixels
    }
}

/// An upload that passed validation.
#[derive(Debug)]
pub struct ValidatedImage {
    /// The decoded image.
    pub image: Image,
    /// The format that extension and content agree on.
    pub format: ImageFormat,
    /// Length of the upload in bytes.
    pub filesize: u64,
}


/// Why an upload was refused.
#[derive(Debug, Clone, Copy, PartialEq, Eq, Structural)]
pub enum ValidationError {
    /// The file name has no extension.
    UnknownType,
    /// The extension stands for no media type, or for one that the service
    /// does not accept.
    UnsupportedType,
    /// The content is not of the format the extension stands for.
    TypeMismatch,
    /// The content begins as the format does but does not decode to an
    /// image of at least one pixel.
    Undecodable,
}

impl ValidationError {
    /// What the uploader is told.
    pub fn message(self) -> (message: &'static str)
        ensures
            message@ == match self {
                ValidationError::UnknownType => "Cannot determine file type"@,
                ValidationError::UnsupportedType => "Unsupported file type"@,
                ValidationError::TypeMismatch => "Unsupported image type"@,
                ValidationError::Undecodable => "Cannot decode image"@,
            },
    {
        match self {
            ValidationError::UnknownType => "Cannot determine file type",
            ValidationError::UnsupportedType => "Unsupported file type",
            ValidationError::TypeMismatch => "Unsupported image type",
            ValidationError::Undecodable => "Cannot decode image",
        }
    }
}

/// The format with the given media type, if the service accepts it.
pub open spec fn allowed_format(media_type: Seq<char>) -> Option<ImageFormat> {
    if media_type == "image/png"@ {
        Some(ImageFormat::Png)
    } else if media_type == "image/jpeg"@ {
        Some(ImageFormat::Jpeg)
    } else if media_type == "image/gif"@ {
        Some(ImageFormat::Gif)
    } else {
        None
    }
}

/// The format an extension declares, given the media type it stands for.
pub open spec fn declared_format(media_type: Option<Seq<char>>) -> Result<
    ImageFormat,
    ValidationError,
> {
    match media_type {
        Some(media_type) => match allowed_format(media_type) {
            Some(format) => Ok(format),
            None => Err(ValidationError::UnsupportedType),
        },
        None => Err(ValidationError::UnsupportedType),
    }
}

/// The signature PNG files begin with.
pub open spec fn png_signature() -> Seq<u8> {
    seq![0x89u8, 0x50u8, 0x4eu8, 0x47u8, 0x0du8, 0x0au8, 0x1au8, 0x0au8]
}

/// The signature JPEG files begin with.
pub open spec fn jpeg_signature() -> Seq<u8> {
    seq![0xffu8, 0xd8u8, 0xffu8]
}

/// The signature newer GIF files begin with: `GIF89a`.
pub open spec fn gif89_signature() -> Seq<u8> {
    seq![0x47u8, 0x49u8, 0x46u8, 0x38u8, 0x39u8, 0x61u8]
}

/// The signature older GIF files begin with: `GIF87a`.
pub open spec fn gif87_signature() -> Seq<u8> {
    seq![0x47u8, 0x49u8, 0x46u8, 0x38u8, 0x37u8, 0x61u8]
}

/// The accepted format whose signature the content begins with, if any.
pub open spec fn sniffed_format(data: Seq<u8>) -> Option<ImageFormat> {
    if has_prefix(data, png_signature()) {
        Some(ImageFormat::Png)
    } else if has_prefix(data, jpeg_signature()) {
        Some(ImageFormat::Jpeg)
    } else if has_prefix(data, gif89_signature()) || has_prefix(data, gif87_signature()) {
        Some(ImageFormat::Gif)
    } else {
        None
    }
}

/// The media type that mime_guess knows an extension by.
pub uninterp spec fn guessed_media_type(extension: Seq<char>) -> Option<Seq<char>>;

/// Size and RGBA samples of the image that the decoder of the format reads
/// from the bytes; `None` where it reads none.
pub uninterp spec fn decoded_image(data: Seq<u8>, format: ImageFormat) -> Option<
    (u32, u32, Seq<u8>),
>;

/// The RGBA samples of an image of the given size after `imageops::resize`
/// to the new size with the triangle filter.
pub uninterp spec fn resampled(
    pixels: Seq<u8>,
    width: u32,
    height: u32,
    new_width: u32,
    new_height: u32,
) -> Seq<u8>;

/// The PNG file that the encoder writes for an RGBA image; `None` where it
/// writes none.
pub uninterp spec fn png_encoding(pixels: Seq<u8>, width: u32, height: u32) -> Option<Seq<u8>>;

/// The JPEG file that the encoder writes for an RGBA image; `None` where it
/// writes none.
pub uninterp spec fn jpeg_encoding(pixels: Seq<u8>, width: u32, height: u32) -> Option<Seq<u8>>;

/// The GIF file that the encoder writes for an RGBA image; `None` where it
/// writes none.
pub uninterp spec fn gif_encoding(pixels: Seq<u8>, width: u32, height: u32) -> Option<Seq<u8>>;

/// `ImageError` of image: what a decoder or encoder fails with, handed
/// through as it is; nothing is said of what it holds.
#[verifier::external_type_specification]
#[verifier::external_body]
pub struct ExImageError(ImageError);

/// `mime_guess::from_ext(..).first_raw()`: the first media type in the
/// crate's table for the extension, looked up without regard to case.
#[verifier::external_body]
fn from_ext(extension: &str) -> (media_type: Option<&'static str>)
    ensures
        opt_str_view(media_type) == guessed_media_type(extension@),
{
    mime_guess::from_ext(extension).first_raw()
}

/// `image::guess_format`: the format of the first signature in the crate's
/// table that the bytes begin with. PNG, JPEG and the two GIF signatures
/// head that table and none of them begins as another does; the formats
/// behind them are not told apart here.
#[verifier::external_body]
fn guess_format(data: &[u8]) -> (format: Option<ImageFormat>)
    ensures
        format == sniffed_format(data@),
{
    match image::guess_format(data) {
        Ok(image::ImageFormat::Png) => Some(ImageFormat::Png),
        Ok(image::ImageFormat::Jpeg) => Some(ImageFormat::Jpeg),
        Ok(image::ImageFormat::Gif) => Some(ImageFormat::Gif),
        _ => None,
    }
}

/// `image::load_from_memory_with_format`, the result converted to RGBA by
/// `into_rgba8`: size and samples of the decoded image, or the decoder's
/// error.
#[verifier::external_body]
fn load_from_memory_with_format(data: &[u8], format: ImageFormat) -> (decoded: Result<
    (u32, u32, Vec<u8>),
    ImageError,
>)
    ensures
        match decoded {
            Ok((width, height, pixels)) => decoded_image(data@, format) == Some(
                (width, height, pixels@),
            ),
            Err(_) => decoded_image(data@, format).is_none(),
        },
{
    let format = match format {
        ImageFormat::Png => image::ImageFormat::Png,
        ImageFormat::Jpeg => image::ImageFormat::Jpeg,
        ImageFormat::Gif => image::ImageFormat::Gif,
    };
    let picture = image::load_from_memory_with_format(data, format)?.into_rgba8();
    Ok((picture.width(), picture.height(), picture.into_raw()))
}

/// The sample of channel `channel` of the pixel in column `x` of row `y`.
pub open spec fn sample(image: ImageView, x: int, y: int, channel: int) -> u8 {
    image.pixels[4 * (y * image.width + x) + channel]
}

/// Whether `part` is the cut-out of `whole` whose top left corner is the
/// pixel in column `left` of row `top`.
pub open spec fn is_cut_out(whole: ImageView, part: ImageView, left: nat, top: nat) -> bool {
    &&& is_raster(part.width, part.height, part.pixels)
    &&& left + part.width <= whole.width
    &&& top + part.height <= whole.height
    &&& forall|x: int, y: int, channel: int|
        0 <= x < part.width && 0 <= y < part.height && 0 <= channel < 4 ==> #[trigger] sample(
            part,
            x,
            y,
            channel,
        ) == sample(whole, left + x, top + y, channel)
}

/// `imageops::crop_imm(..).to_image()`: the samples of the cut-out of the
/// given size whose top left corner is the pixel in column `x` of row `y`.
#[verifier::external_body]
fn crop_imm(image: &Image, x: u32, y: u32, width: u32, height: u32) -> (pixels: Vec<u8>)
    requires
        is_raster(image@.width, image@.height, image@.pixels),
        width >= 1,
        height >= 1,
        x + width <= image@.width,
        y + height <= image@.height,
    ensures
        is_cut_out(
            image@,
            ImageView { width: width as nat, height: height as nat, pixels: pixels@ },
            x as nat,
            y as nat,
        ),
{
    let source = image::RgbaImage::from_raw(image.width, image.height, image.pixels.clone());
    image::imageops::crop_imm(&source.unwrap(), x, y, width, height).to_image().into_raw()
}

/// `imageops::resize` with the triangle filter: the samples of the image
/// scaled to exactly the new size.
#[verifier::external_body]
fn resize(image: &Image, new_width: u32, new_height: u32) -> (pixels: Vec<u8>)
    requires
        is_raster(image@.width, image@.height, image@.pixels),
        new_width >= 1,
        new_height >= 1,
    ensures
        pixels@ == resampled(
            image@.pixels,
            image@.width as u32,
            image@.height as u32,
            new_width,
            new_height,
        ),
        pixels@.len() == 4 * new_width * new_height,
{
    let source = image::RgbaImage::from_raw(image.width, image.height, image.pixels.clone());
    let filter = image::imageops::FilterType::Triangle;
    image::imageops::resize(&source.unwrap(), new_width, new_height, filter).into_raw()
}

/// `PngEncoder::encode` on RGBA samples: the PNG file, or the encoder's
/// error.
#[verifier::external_body]
fn encode_png(image: &Image) -> (file: Result<Vec<u8>, ImageError>)
    requires
        is_raster(image@.width, image@.height, image@.pixels),
    ensures
        match file {
            Ok(bytes) => png_encoding(image@.pixels, image@.width as u32, image@.height as u32)
                == Some(bytes@),
            Err(_) => png_encoding(image@.pixels, image@.width as u32, image@.height as u32)
                .is_none(),
        },
{
    let mut bytes = Vec::new();
    let encoder = image::codecs::png::PngEncoder::new(&mut bytes);
    encoder.encode(&image.pixels, image.width, image.height, image::ColorType::Rgba8)?;
    Ok(bytes)
}

/// `JpegEncoder::encode` on RGBA samples: the JPEG file, or the encoder's
/// error.
#[verifier::external_body]
fn encode_jpeg(image: &Image) -> (file: Result<Vec<u8>, ImageError>)
    requires
        is_raster(image@.width, image@.height, image@.pixels),
    ensures
        match file {
            Ok(bytes) => jpeg_encoding(image@.pixels, image@.width as u32, image@.height as u32)
                == Some(bytes@),
            Err(_) => jpeg_encoding(image@.pixels, image@.width as u32, image@.height as u32)
                .is_none(),
        },
{
    let mut bytes = Vec::new();
    let mut encoder = image::codecs::jpeg::JpegEncoder::new(&mut bytes);
    encoder.encode(&image.pixels, image.width, image.height, image::ColorType::Rgba8)?;
    Ok(bytes)
}

/// `GifEncoder::encode` on RGBA samples: the GIF file, or the encoder's
/// error.
#[verifier::external_body]
fn encode_gif(image: &Image) -> (file: Result<Vec<u8>, ImageError>)
    requires
        is_raster(image@.width, image@.height, image@.pixels),
    ensures
        match file {
            Ok(bytes) => gif_encoding(image@.pixels, image@.width as u32, image@.height as u32)
                == Some(bytes@),
            Err(_) => gif_encoding(image@.pixels, image@.width as u32, image@.height as u32)
                .is_none(),
        },
{
    let mut bytes = Vec::new();
    let mut encoder = image::codecs::gif::GifEncoder::new(&mut bytes);
    encoder.encode(&image.pixels, image.width, image.height, image::ColorType::Rgba8)?;
    drop(encoder);
    Ok(bytes)
}


/// What becomes of content whose file name declares `format`: it is
/// accepted where it begins with the signature of that very format and
/// decodes to an image of at least one pixel.
pub open spec fn accepted_content(format: ImageFormat, data: Seq<u8>) -> Result<
    (ImageFormat, ImageView),
    ValidationError,
> {
    if sniffed_format(data) != Some(format) {
        Err(ValidationError::TypeMismatch)
    } else {
        match decoded_image(data, format) {
            Some((width, height, pixels)) => if is_raster(width as nat, height as nat, pixels) {
                Ok((format, ImageView { width: width as nat, height: height as nat, pixels }))
            } else {
                Err(ValidationError::Undecodable)
            },
            None => Err(ValidationError::Undecodable),
        }
    }
}

/// What validation makes of a file name and the content uploaded under it.
pub open spec fn validated(filename: Seq<char>, data: Seq<u8>) -> Result<
    (ImageFormat, ImageView),
    ValidationError,
> {
    match extension_of(filename) {
        None => Err(ValidationError::UnknownType),
        Some(extension) => match declared_format(guessed_media_type(extension)) {
            Ok(format) => accepted_content(format, data),
            Err(error) => Err(error),
        },
    }
}

/// The format with the given media type, if the service accepts it.
pub fn allowed_type(media_type: &str) -> (format: Option<ImageFormat>)
    ensures
        format == allowed_format(media_type@),
{
    if str_eq(media_type, ImageFormat::Png.media_type()) {
        Some(ImageFormat::Png)
    } else if str_eq(media_type, ImageFormat::Jpeg.media_type()) {
        Some(ImageFormat::Jpeg)
    } else if str_eq(media_type, ImageFormat::Gif.media_type()) {
        Some(ImageFormat::Gif)
    } else {
        None
    }
}

/// The format an extension declares, given the media type it stands for:
/// `UnsupportedType` where it stands for none or for one that is not
/// accepted.
pub fn declare_format(media_type: Option<&str>) -> (format: Result<ImageFormat, ValidationError>)
    ensures
        format == declared_format(opt_str_view(media_type)),
{
    match media_type {
        Some(media_type) => match allowed_type(media_type) {
            Some(format) => Ok(format),
            None => Err(ValidationError::UnsupportedType),
        },
        None => Err(ValidationError::UnsupportedType),
    }
}

/// Checks that the content begins with the signature of the declared
/// format, whatever its file name says.
pub fn check_signature(declared: ImageFormat, data: &[u8]) -> (checked: Result<
    (),
    ValidationError,
>)
    ensures
        checked == if sniffed_format(data@) == Some(declared) {
            Ok::<(), ValidationError>(())
        } else {
            Err(ValidationError::TypeMismatch)
        },
{
    match guess_format(data) {
        Some(format) => if format == declared {
            Ok(())
        } else {
            Err(ValidationError::TypeMismatch)
        },
        None => Err(ValidationError::TypeMismatch),
    }
}

/// Makes the validated upload of what the decoder read, if that is an
/// image of at least one pixel with four samples for each.
pub fn accept_decoded(
    decoded: Option<(u32, u32, Vec<u8>)>,
    format: ImageFormat,
    filesize: u64,
) -> (accepted: Result<ValidatedImage, ValidationError>)
    ensures
        match accepted {
            Ok(upload) => {
                &&& decoded matches Some((width, height, pixels))
                &&& is_raster(width as nat, height as nat, pixels@)
                &&& upload.image@ == (ImageView {
                    width: width as nat,
                    height: height as nat,
                    pixels: pixels@,
                })
                &&& upload.format == format
                &&& upload.filesize == filesize
            },
            Err(error) => {
                &&& error == ValidationError::Undecodable
                &&& decoded matches Some((width, height, pixels)) ==> !is_raster(
                    width as nat,
                    height as nat,
                    pixels@,
                )
            },
        },
{
    match decoded {
        Some((width, height, pixels)) => match Image::from_rgba(width, height, pixels) {
            Some(image) => Ok(ValidatedImage { image, format, filesize }),
            None => Err(ValidationError::Undecodable),
        },
        None => Err(ValidationError::Undecodable),
    }
}

/// Validates input filename and blob.
/// Returns decoded image and format if succeeded.
pub fn validate_image_file(filename: &str, data: &[u8]) -> (validation: Result<
    ValidatedImage,
    ValidationError,
>)
    ensures
        match validation {
            Ok(upload) => validated(filename@, data@) == Ok::<
                (ImageFormat, ImageView),
                ValidationError,
            >((upload.format, upload.image@)) && upload.filesize == data@.len(),
            Err(error) => validated(filename@, data@) == Err::<
                (ImageFormat, ImageView),
                ValidationError,
            >(error),
        },
{
    let extension = match file_extension(filename) {
        Some(extension) => extension,
        None => {
            return Err(ValidationError::UnknownType);
        },
    };
    let format = match declare_format(from_ext(extension)) {
        Ok(format) => format,
        Err(error) => {
            return Err(error);
        },
    };
    match check_signature(format, data) {
        Ok(_) => {},
        Err(error) => {
            return Err(error);
        },
    }
    let decoded = match load_from_memory_with_format(data, format) {
        Ok(decoded) => Some(decoded),
        Err(_) => None,
    };
    accept_decoded(decoded, format, data.len() as u64)
}

/// An upload whose extension, accepted media type and signature agree is
/// accepted, and the validated image has the very width and height that
/// the decoder read, provided that the content decodes to an image of at
/// least one pixel.
pub proof fn lemma_agreeing_upload_is_accepted(
    filename: Seq<char>,
    data: Seq<u8>,
    format: ImageFormat,
)
    requires
        extension_of(filename) matches Some(extension) && guessed_media_type(extension) matches Some(
            media_type,
        ) && allowed_format(media_type) == Some(format),
        sniffed_format(data) == Some(format),
        decoded_image(data, format) matches Some((width, height, pixels)) && is_raster(
            width as nat,
            height as nat,
            pixels,
        ),
    ensures
        validated(filename, data) matches Ok((accepted, image)) && accepted == format
            && image.width == decoded_image(data, format).unwrap().0 && image.height
            == decoded_image(data, format).unwrap().1 && image.pixels == decoded_image(
            data,
            format,
        ).unwrap().2,
{
}

/// An upload whose content does not begin with the signature of the format
/// that its extension declares is refused with `TypeMismatch`.
pub proof fn lemma_disagreeing_upload_is_refused(
    filename: Seq<char>,
    data: Seq<u8>,
    format: ImageFormat,
)
    requires
        extension_of(filename) matches Some(extension) && guessed_media_type(extension) matches Some(
            media_type,
        ) && allowed_format(media_type) == Some(format),
        sniffed_format(data) != Some(format),
    ensures
        validated(filename, data) == Err::<(ImageFormat, ImageView), ValidationError>(
            ValidationError::TypeMismatch,
        ),
{
}

/// The cut-out of the given size whose top left corner is the pixel in
/// column `left` of row `top`.
pub open spec fn cut_out(whole: ImageView, left: nat, top: nat, width: nat, height: nat) -> ImageView {
    ImageView {
        width,
        height,
        pixels: Seq::new(
            (4 * width * height) as nat,
            |k: int| sample(whole, left + (k / 4) % (width as int), top + (k / 4) / (width as int), k % 4),
        ),
    }
}

/// The place of a sample in its image: the samples of the pixel in column
/// `x` of row `y` follow those of the pixels before it.
proof fn lemma_sample_place(width: int, height: int, k: int)
    requires
        width >= 1,
        height >= 1,
        0 <= k < 4 * width * height,
    ensures
        0 <= k % 4 < 4,
        0 <= (k / 4) % width < width,
        0 <= (k / 4) / width < height,
        k == 4 * (((k / 4) / width) * width + (k / 4) % width) + k % 4,
{
    let pixel = k / 4;
    assert(k == 4 * pixel + k % 4 && 0 <= k % 4 < 4);
    assert(0 <= pixel < width * height) by (nonlinear_arith)
        requires
            0 <= k < 4 * width * height,
            k == 4 * pixel + k % 4,
            0 <= k % 4 < 4,
    ;
    vstd::arithmetic::div_mod::lemma_fundamental_div_mod(pixel, width);
    vstd::arithmetic::div_mod::lemma_mod_pos_bound(pixel, width);
    let row = pixel / width;
    let column = pixel % width;
    assert(0 <= row < height) by (nonlinear_arith)
        requires
            pixel == width * row + column,
            0 <= column < width,
            0 <= pixel < width * height,
            width >= 1,
    ;
    assert(row * width == width * row) by (nonlinear_arith);
}

/// A cut-out is determined by the image it is taken from, its corner and
/// its size.
pub proof fn lemma_cut_out(whole: ImageView, part: ImageView, left: nat, top: nat)
    requires
        is_cut_out(whole, part, left, top),
    ensures
        part == cut_out(whole, left, top, part.width, part.height),
{
    let other = cut_out(whole, left, top, part.width, part.height);
    assert(part.pixels.len() == other.pixels.len());
    assert forall|k: int| 0 <= k < part.pixels.len() implies part.pixels[k] == other.pixels[k] by {
        lemma_sample_place(part.width as int, part.height as int, k);
        let x = (k / 4) % (part.width as int);
        let y = (k / 4) / (part.width as int);
        assert(sample(part, x, y, k % 4) == sample(whole, left + x, top + y, k % 4));
    }
    assert(part.pixels =~= other.pixels);
}

/// What is derived from an image as its thumbnail: nothing where the image
/// fits the thumbnail box; the middle rows where only its height exceeds
/// the box; the middle columns where only its width does; and the image
/// resampled to the box, whatever its proportions, where both do.
pub open spec fn thumbnail_of(image: ImageView) -> Option<ImageView> {
    if image.width <= THUMBNAIL_WIDTH && image.height <= THUMBNAIL_HEIGHT {
        None
    } else if image.width <= THUMBNAIL_WIDTH {
        Some(
            cut_out(
                image,
                0,
                ((image.height - THUMBNAIL_HEIGHT) / 2) as nat,
                image.width,
                THUMBNAIL_HEIGHT as nat,
            ),
        )
    } else if image.height <= THUMBNAIL_HEIGHT {
        Some(
            cut_out(
                image,
                ((image.width - THUMBNAIL_WIDTH) / 2) as nat,
                0,
                THUMBNAIL_WIDTH as nat,
                image.height,
            ),
        )
    } else {
        Some(
            ImageView {
                width: THUMBNAIL_WIDTH as nat,
                height: THUMBNAIL_HEIGHT as nat,
                pixels: resampled(
                    image.pixels,
                    image.width as u32,
                    image.height as u32,
                    THUMBNAIL_WIDTH,
                    THUMBNAIL_HEIGHT,
                ),
            },
        )
    }
}

/// The view of an optional image.
pub open spec fn opt_image_view(image: Option<Image>) -> Option<ImageView> {
    match image {
        Some(image) => Some(image@),
        None => None,
    }
}

/// Creates thumbnail image.
/// If original image is small enough, return `None`.
pub fn create_thumbnail(original_image: &Image) -> (thumbnail: Option<Image>)
    ensures
        opt_image_view(thumbnail) == thumbnail_of(original_image@),
{
    let width = original_image.width();
    let height = original_image.height();
    if width <= THUMBNAIL_WIDTH && height <= THUMBNAIL_HEIGHT {
        // Original size will fit in thumbnail size
        None
    } else if width <= THUMBNAIL_WIDTH {
        // Clip top and bottom
        let top_half = (height - THUMBNAIL_HEIGHT) / 2;
        let pixels = crop_imm(original_image, 0, top_half, width, THUMBNAIL_HEIGHT);
        let part = Image { width, height: THUMBNAIL_HEIGHT, pixels };
        proof {
            lemma_cut_out(original_image@, part@, 0, top_half as nat);
        }
        Some(part)
    } else if height <= THUMBNAIL_HEIGHT {
        // Clip left and right
        let left_half = (width - THUMBNAIL_WIDTH) / 2;
        let pixels = crop_imm(original_image, left_half, 0, THUMBNAIL_WIDTH, height);
        let part = Image { width: THUMBNAIL_WIDTH, height, pixels };
        proof {
            lemma_cut_out(original_image@, part@, left_half as nat, 0);
        }
        Some(part)
    } else {
        // Scale down
        let pixels = resize(original_image, THUMBNAIL_WIDTH, THUMBNAIL_HEIGHT);
        Some(Image { width: THUMBNAIL_WIDTH, height: THUMBNAIL_HEIGHT, pixels })
    }
}

/// The encoder wrote no file for the image.
#[derive(Debug, Clone, Copy, PartialEq, Eq, Structural)]
pub struct EncodeError;

/// The file that holds the image in the given format; `None` where the
/// format's encoder writes none.
pub open spec fn encoding(image: ImageView, format: ImageFormat) -> Option<Seq<u8>> {
    match format {
        ImageFormat::Png => png_encoding(image.pixels, image.width as u32, image.height as u32),
        ImageFormat::Jpeg => jpeg_encoding(image.pixels, image.width as u32, image.height as u32),
        ImageFormat::Gif => gif_encoding(image.pixels, image.width as u32, image.height as u32),
    }
}

/// Encodes an image as a file of the given format.
pub fn encode_image(image: &Image, format: ImageFormat) -> (file: Result<Vec<u8>, EncodeError>)
    ensures
        match file {
            Ok(bytes) => encoding(image@, format) == Some(bytes@),
            Err(_) => encoding(image@, format).is_none(),
        },
{
    proof {
        use_type_invariant(image);
    }
    let written = match format {
        ImageFormat::Png => encode_png(image),
        ImageFormat::Jpeg => encode_jpeg(image),
        ImageFormat::Gif => encode_gif(image),
    };
    match written {
        Ok(bytes) => Ok(bytes),
        Err(_) => Err(EncodeError),
    }
}

} // verus!
