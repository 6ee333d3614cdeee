//! Decoding an image and fitting it under a size cap.
//!
//! The format is detected from the bytes' content, not from a file name, and
//! decoding runs under strict size and allocation limits that defuse
//! decompression bombs (a tiny file declaring enormous dimensions).

use vstd::prelude::*;

use crate::frame::{
    decoded_size, frame_rgba, image_error_message, into_pixels, load_from_memory, loaded_size,
    read_image, resize_frame, resized_size, Frame, FrameSource, Pixels,
};

verus! {

/// Largest width and height accepted while decoding: generous enough for real
/// photos and panoramas, small enough never to exhaust memory.
pub const MAX_DIMENSION: u32 = 30_000;

/// Largest allocation accepted while decoding (1 GiB).
pub const MAX_ALLOC_BYTES: u64 = 1024 * 1024 * 1024;

/// Whether an image of `width` × `height` must be scaled down so that its
/// longest edge is at most `max_side`.
pub open spec fn exceeds(width: u32, height: u32, max_side: u32) -> bool {
    width > max_side || height > max_side
}

/// Whether an image of `width` × `height` must be scaled down so that its
/// longest edge is at most `max_side`.
pub fn needs_downscale(width: u32, height: u32, max_side: u32) -> (r: bool)
    ensures
        r == exceeds(width, height, max_side),
        r == (width > max_side || height > max_side),
{
    let longest: u32 = if width >= height { width } else { height };
    longest > max_side
}

/// The size an image of size `size` has once fitted under `max_side`.
pub open spec fn fitted_size(size: (u32, u32), max_side: u32) -> (u32, u32) {
    if exceeds(size.0, size.1, max_side) {
        resized_size(size.0, size.1, max_side, max_side)
    } else {
        size
    }
}

/// How an image made as `source`, of size `size`, is made once fitted under
/// `max_side`: resized with a triangle filter to fit in `max_side` ×
/// `max_side` when it exceeds it, kept as it is otherwise.
pub open spec fn fitted_source(source: FrameSource, size: (u32, u32), max_side: u32) -> FrameSource {
    if exceeds(size.0, size.1, max_side) {
        FrameSource::Resized {
            from: Box::new(source),
            nwidth: max_side,
            nheight: max_side,
        }
    } else {
        source
    }
}

/// How [`decode_bytes`] decodes `bytes`: under [`MAX_DIMENSION`] and
/// [`MAX_ALLOC_BYTES`].
pub open spec fn decoded_source(bytes: Seq<u8>) -> FrameSource {
    FrameSource::Decoded {
        bytes,
        max_width: MAX_DIMENSION,
        max_height: MAX_DIMENSION,
        max_alloc: MAX_ALLOC_BYTES,
    }
}

/// An image whose longest edge is at most `max_side` is kept as it is: its
/// size and the way it was made stay the same. A larger one is resized to fit
/// in `max_side` × `max_side`.
pub proof fn lemma_small_images_are_kept(source: FrameSource, width: u32, height: u32, max_side: u32)
    ensures
        width <= max_side && height <= max_side ==> fitted_size((width, height), max_side) == (
        width,
        height,
        ) && fitted_source(source, (width, height), max_side) == source,
        width > max_side || height > max_side ==> fitted_size((width, height), max_side)
            == resized_size(width, height, max_side, max_side) && fitted_source(
            source,
            (width, height),
            max_side,
        ) == (FrameSource::Resized { from: Box::new(source), nwidth: max_side, nheight: max_side }),
{
}

/// Scales a decoded frame down (with a triangle filter, keeping its aspect
/// ratio) when its longest edge exceeds `max_side`, and converts it to RGBA.
pub fn fit_to_side(frame: Frame, max_side: u32) -> (r: Pixels)
    ensures
        r.well_formed(),
        (r.width, r.height) == fitted_size((frame@.width, frame@.height), max_side),
        r.rgba@ == frame_rgba(fitted_source(frame@.source, (frame@.width, frame@.height), max_side)),
        max_side >= 1 ==> r.width <= max_side && r.height <= max_side,
        max_side >= 1 && exceeds(frame@.width, frame@.height, max_side) ==> r.width == max_side
            || r.height == max_side,
        frame@.width <= max_side && frame@.height <= max_side ==> r.width == frame@.width
            && r.height == frame@.height && r.rgba@ == frame_rgba(frame@.source),
        frame@.width > max_side || frame@.height > max_side ==> (r.width, r.height)
            == resized_size(frame@.width, frame@.height, max_side, max_side) && r.rgba@
            == frame_rgba(
            FrameSource::Resized { from: Box::new(frame@.source), nwidth: max_side, nheight: max_side },
        ),
{
    let (width, height) = frame.size();
    if needs_downscale(width, height, max_side) {
        let small = resize_frame(&frame, max_side, max_side);
        into_pixels(small)
    } else {
        into_pixels(frame)
    }
}

/// Decodes an image from its bytes and fits it under `max_side`.
///
/// Succeeds exactly when the `image` crate decodes the bytes within
/// [`MAX_DIMENSION`] and [`MAX_ALLOC_BYTES`]; the error is the crate's
/// message. The pixels are those of the decoded image, resized with a
/// triangle filter when it exceeds `max_side`.
pub fn decode_bytes(bytes: &[u8], max_side: u32) -> (r: Result<Pixels, String>)
    ensures
        r is Ok <==> decoded_size(bytes@, MAX_DIMENSION, MAX_DIMENSION, MAX_ALLOC_BYTES) is Some,
        r matches Ok(p) ==> p.well_formed() && (p.width, p.height) == fitted_size(
            decoded_size(bytes@, MAX_DIMENSION, MAX_DIMENSION, MAX_ALLOC_BYTES)->0,
            max_side,
        ),
        r matches Ok(p) ==> p.rgba@ == frame_rgba(
            fitted_source(
                decoded_source(bytes@),
                decoded_size(bytes@, MAX_DIMENSION, MAX_DIMENSION, MAX_ALLOC_BYTES)->0,
                max_side,
            ),
        ),
        max_side >= 1 ==> (r matches Ok(p) ==> p.width <= max_side && p.height <= max_side),
        r matches Ok(p) ==> ({
            let size = decoded_size(bytes@, MAX_DIMENSION, MAX_DIMENSION, MAX_ALLOC_BYTES)->0;
            let decoded = FrameSource::Decoded {
                bytes: bytes@,
                max_width: MAX_DIMENSION,
                max_height: MAX_DIMENSION,
                max_alloc: MAX_ALLOC_BYTES,
            };
            &&& size.0 <= max_side && size.1 <= max_side ==> p.width == size.0 && p.height
                == size.1 && p.rgba@ == frame_rgba(decoded)
            &&& size.0 > max_side || size.1 > max_side ==> p.rgba@ == frame_rgba(
                FrameSource::Resized { from: Box::new(decoded), nwidth: max_side, nheight: max_side },
            )
        }),
        max_side >= 1 ==> (r matches Ok(p) ==> ({
            let size = decoded_size(bytes@, MAX_DIMENSION, MAX_DIMENSION, MAX_ALLOC_BYTES)->0;
            exceeds(size.0, size.1, max_side) ==> p.width == max_side || p.height == max_side
        })),
        r is Ok ==> ({
            let size = decoded_size(bytes@, MAX_DIMENSION, MAX_DIMENSION, MAX_ALLOC_BYTES)->0;
            &&& size.0 <= MAX_DIMENSION
            &&& size.1 <= MAX_DIMENSION
            &&& size.0 * size.1 <= MAX_ALLOC_BYTES
        }),
{
    match read_image(bytes, MAX_DIMENSION, MAX_DIMENSION, MAX_ALLOC_BYTES) {
        Ok(frame) => Ok(fit_to_side(frame, max_side)),
        Err(e) => Err(image_error_message(&e)),
    }
}

/// Decodes an embedded icon to RGBA, or gives an empty image (no pixels)
/// when the bytes do not decode.
pub fn icon_pixels(bytes: &[u8]) -> (r: Pixels)
    ensures
        r.well_formed(),
        match loaded_size(bytes@) {
            Some(size) => (r.width, r.height) == size && r.rgba@ == frame_rgba(
                FrameSource::Loaded { bytes: bytes@ },
            ),
            None => r.width == 0 && r.height == 0,
        },
{
    match load_from_memory(bytes) {
        Ok(frame) => into_pixels(frame),
        Err(_) => Pixels { width: 0, height: 0, rgba: Vec::new() },
    }
}

} // verus!
