//! Decoded images as the `image` crate holds them, and the calls into it.
//!
//! A [`Frame`] carries a decoded image together with its size. Only the
//! functions of this module, which take the size from the image itself, make
//! one, so the size a frame reports is the size of its image.

use std::io::Cursor;
use vstd::prelude::*;

verus! {

#[verifier::external_type_specification]
#[verifier::external_body]
pub struct ExDynamicImage(image::DynamicImage);

#[verifier::external_type_specification]
#[verifier::external_body]
pub struct ExImageError(image::ImageError);

/// The size `(width, height)` of the image that the `image` crate decodes
/// from `bytes` under the given limits, the format being recognised from the
/// crate's built-in signatures, or `None` when it cannot decode it.
pub uninterp spec fn decoded_size(bytes: Seq<u8>, max_width: u32, max_height: u32, max_alloc: u64) -> Option<(u32, u32)>;

/// The size `(width, height)` of the image that the `image` crate decodes
/// from `bytes` under its default limits, the format being recognised from
/// its built-in signatures, or `None` when it cannot decode it.
pub uninterp spec fn loaded_size(bytes: Seq<u8>) -> Option<(u32, u32)>;

/// The size `(width, height)` that `image::DynamicImage::resize` gives an
/// image of size `(width, height)` asked to fit in `(nwidth, nheight)`.
pub uninterp spec fn resized_size(width: u32, height: u32, nwidth: u32, nheight: u32) -> (u32, u32);

/// How the image inside a [`Frame`] was made: decoded from bytes (under
/// limits, or with the crate's defaults), or resized with a triangle filter
/// from another one.
pub enum FrameSource {
    Decoded { bytes: Seq<u8>, max_width: u32, max_height: u32, max_alloc: u64 },
    Loaded { bytes: Seq<u8> },
    Resized { from: Box<FrameSource>, nwidth: u32, nheight: u32 },
}

/// What a [`Frame`] is: its size and how its image was made.
pub struct FrameView {
    pub width: u32,
    pub height: u32,
    pub source: FrameSource,
}

/// The 8-bit RGBA bytes, row by row, that `image::DynamicImage::into_rgba8`
/// gives for the image made as `source` describes.
pub uninterp spec fn frame_rgba(source: FrameSource) -> Seq<u8>;

/// A decoded image, its size, and how it was made.
pub struct Frame {
    image: image::DynamicImage,
    width: u32,
    height: u32,
    source: Ghost<FrameSource>,
}

impl View for Frame {
    type V = FrameView;

    closed spec fn view(&self) -> FrameView {
        FrameView { width: self.width, height: self.height, source: self.source@ }
    }
}

impl Frame {
    /// The frame's size, `(width, height)`.
    pub fn size(&self) -> (r: (u32, u32))
        ensures
            r == (self@.width, self@.height),
    {
        (self.width, self.height)
    }
}

/// An image as 8-bit RGBA pixels, row by row.
#[derive(Clone, Debug)]
pub struct Pixels {
    pub width: u32,
    pub height: u32,
    pub rgba: Vec<u8>,
}

impl Pixels {
    /// Four bytes for each pixel.
    pub open spec fn well_formed(&self) -> bool {
        self.rgba@.len() == 4 * (self.width as int) * (self.height as int)
    }
}

/// Decodes `bytes` with `image::ImageReader`, under the given limits on width,
/// height and allocation. The format is the one that `image::guess_format`
/// recognises from the crate's built-in signatures; the format hooks that a
/// program may register with the crate are not consulted.
///
/// Trusted: the outcome is named by [`decoded_size`], and the frame holds the
/// image decoded from these bytes under these limits. The width and height
/// limits are strict ones, which the crate's documentation guarantees are
/// never exceeded by an image it returns; and the reader refuses an image
/// whose pixel buffer, of at least one byte per pixel, exceeds `max_alloc`.
#[verifier::external_body]
pub fn read_image(bytes: &[u8], max_width: u32, max_height: u32, max_alloc: u64) -> (r: Result<
    Frame,
    image::ImageError,
>)
    ensures
        r is Ok <==> decoded_size(bytes@, max_width, max_height, max_alloc) is Some,
        r matches Ok(f) ==> decoded_size(bytes@, max_width, max_height, max_alloc) == Some(
            (f@.width, f@.height),
        ),
        r matches Ok(f) ==> f@.width <= max_width && f@.height <= max_height,
        r matches Ok(f) ==> f@.width * f@.height <= max_alloc,
        r matches Ok(f) ==> f@.source == (FrameSource::Decoded {
            bytes: bytes@,
            max_width,
            max_height,
            max_alloc,
        }),
{
    let mut limits = image::Limits::default();
    limits.max_image_width = Some(max_width);
    limits.max_image_height = Some(max_height);
    limits.max_alloc = Some(max_alloc);
    let format = image::guess_format(bytes)?;
    let mut reader = image::ImageReader::with_format(Cursor::new(bytes), format);
    reader.limits(limits);
    let image = reader.decode()?;
    let source = Ghost(FrameSource::Decoded { bytes: bytes@, max_width, max_height, max_alloc });
    Ok(Frame { width: image.width(), height: image.height(), image, source })
}

/// Decodes `bytes` with `image::load_from_memory_with_format`, under the
/// crate's default limits, the format being the one that `image::guess_format`
/// recognises from the crate's built-in signatures (no registered hook is
/// consulted).
///
/// Trusted: the outcome is named by [`loaded_size`], and the frame holds the
/// image decoded from these bytes.
#[verifier::external_body]
pub fn load_from_memory(bytes: &[u8]) -> (r: Result<Frame, image::ImageError>)
    ensures
        r is Ok <==> loaded_size(bytes@) is Some,
        r matches Ok(f) ==> loaded_size(bytes@) == Some((f@.width, f@.height)),
        r matches Ok(f) ==> f@.source == (FrameSource::Loaded { bytes: bytes@ }),
{
    let format = image::guess_format(bytes)?;
    let image = image::load_from_memory_with_format(bytes, format)?;
    let source = Ghost(FrameSource::Loaded { bytes: bytes@ });
    Ok(Frame { width: image.width(), height: image.height(), image, source })
}

/// Resizes the frame with `image::DynamicImage::resize` and the triangle
/// filter, which keeps the aspect ratio and scales to the largest size that
/// fits in `(nwidth, nheight)`.
///
/// Trusted: the new size is named by [`resized_size`], and the new frame holds
/// the old image resized. As the documentation and the source show, when the
/// bounds are not zero the size fits in them, and for an image that is not
/// empty it reaches one of them (it is the largest that fits); an image that
/// already has the asked size keeps it.
#[verifier::external_body]
pub fn resize_frame(frame: &Frame, nwidth: u32, nheight: u32) -> (r: Frame)
    ensures
        (r@.width, r@.height) == resized_size(frame@.width, frame@.height, nwidth, nheight),
        nwidth >= 1 && nheight >= 1 ==> r@.width <= nwidth && r@.height <= nheight,
        nwidth >= 1 && nheight >= 1 && (frame@.width >= 1 || frame@.height >= 1) ==> r@.width
            == nwidth || r@.height == nheight,
        frame@.width == nwidth && frame@.height == nheight ==> r@.width == frame@.width
            && r@.height == frame@.height,
        r@.source == (FrameSource::Resized { from: Box::new(frame@.source), nwidth, nheight }),
{
    let image = frame.image.resize(nwidth, nheight, image::imageops::FilterType::Triangle);
    let source = Ghost(FrameSource::Resized { from: Box::new(frame.source@), nwidth, nheight });
    Frame { width: image.width(), height: image.height(), image, source }
}

/// Converts the frame to 8-bit RGBA with `image::DynamicImage::into_rgba8`.
///
/// Trusted: the conversion keeps the size, the buffer that the crate builds
/// holds exactly four bytes per pixel, and its bytes are named by
/// [`frame_rgba`].
#[verifier::external_body]
pub fn into_pixels(frame: Frame) -> (r: Pixels)
    ensures
        r.width == frame@.width,
        r.height == frame@.height,
        r.well_formed(),
        r.rgba@ == frame_rgba(frame@.source),
{
    let rgba = frame.image.into_rgba8();
    Pixels { width: rgba.width(), height: rgba.height(), rgba: rgba.into_raw() }
}

/// The message of a decoding error, as its `Display` writes it.
///
/// Trusted: only that a text comes back; its wording is the crate's.
#[verifier::external_body]
pub fn image_error_message(e: &image::ImageError) -> String {
    e.to_string()
}

} // verus!
