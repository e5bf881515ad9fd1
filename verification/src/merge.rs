//! The whole operation: decode a batch, stack what was decoded, compress the
//! stack.

use crate::composer::{canvas_fits, canvas_size, compose, composite, views};
use crate::encoder::{
    bytes_of, compress_to_jpeg_with_limit, compressed, jpeg_encoding,
    lemma_within_budget_or_floor, FLOOR_QUALITY,
};
use crate::loader::{
    contents, decode_batch, decoded_batch, decoded_image, lemma_decoded_batch_len,
};
use crate::raster::{RgbaImage, RgbaView};
use vstd::prelude::*;

verus! {

/// The compressed composite of a list of images: nothing for an empty list
/// and for a composite that is too large to be held in memory, and else the
/// compressed form of the composite without its alpha channel.
pub open spec fn merged_images(images: Seq<RgbaView>, max_size_kb: Option<u64>) -> Option<
    Seq<u8>,
> {
    if images.len() == 0 || !canvas_fits(images) {
        None
    } else {
        compressed(composite(images).without_alpha(), max_size_kb)
    }
}

/// The compressed composite of a batch of encoded images: that of the images
/// that can be decoded.
pub open spec fn merged(blobs: Seq<Seq<u8>>, max_size_kb: Option<u64>) -> Option<Seq<u8>> {
    merged_images(decoded_batch(blobs), max_size_kb)
}

/// Stacks decoded images from top to bottom and compresses the stack to JPEG
/// under the budget `max_size_kb`.
pub fn merge_decoded(images: &Vec<RgbaImage>, max_size_kb: Option<u64>) -> (output: Option<
    Vec<u8>,
>)
    ensures
        bytes_of(output) == merged_images(views(images@), max_size_kb),
{
    if images.len() == 0 {
        return None;
    }
    if canvas_size(images).is_none() {
        return None;
    }
    let canvas = compose(images);
    let rgb = canvas.to_rgb();
    compress_to_jpeg_with_limit(&rgb, max_size_kb)
}

/// Merges encoded images into one JPEG image: decodes each, stacks those that
/// could be decoded from top to bottom in the order given, and compresses the
/// stack under the budget of `max_size_kb` times 1024 bytes. There is no
/// output for an empty batch, for a batch of which nothing can be decoded,
/// and where the compression fails.
pub fn merge_images_vertically(image_buffers: &[Vec<u8>], max_size_kb: Option<u64>) -> (output:
    Option<Vec<u8>>)
    ensures
        bytes_of(output) == merged(contents(image_buffers@), max_size_kb),
        image_buffers@.len() == 0 ==> output is None,
{
    if image_buffers.len() == 0 {
        return None;
    }
    let images = decode_batch(image_buffers);
    merge_decoded(&images, max_size_kb)
}

/// There is no output for an empty batch, whatever the budget.
pub proof fn lemma_empty_batch(max_size_kb: Option<u64>)
    ensures
        merged(Seq::empty(), max_size_kb) is None,
{
}

/// There is no output for a batch of which no entry can be decoded.
pub proof fn lemma_nothing_decoded(blobs: Seq<Seq<u8>>, max_size_kb: Option<u64>)
    requires
        forall|i: int| 0 <= i < blobs.len() ==> decoded_image(#[trigger] blobs[i]) is None,
    ensures
        merged(blobs, max_size_kb) is None,
{
    lemma_decoded_batch_len(blobs);
}

/// With a budget, the output of a merge is no longer than the budget times
/// 1024 bytes, unless it is the JPEG form of the composite at the floor
/// quality, which is the output however long it is.
pub proof fn lemma_merged_within_budget_or_floor(blobs: Seq<Seq<u8>>, kb: u64)
    ensures
        merged(blobs, Some(kb)) matches Some(bytes) ==> bytes.len() <= kb * 1024 || ({
            let stack = composite(decoded_batch(blobs)).without_alpha();
            Some(bytes) == jpeg_encoding(
                stack.width,
                stack.height,
                stack.samples,
                FLOOR_QUALITY as nat,
            )
        }),
{
    lemma_within_budget_or_floor(composite(decoded_batch(blobs)).without_alpha(), kb);
}

} // verus!
