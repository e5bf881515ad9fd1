//! The loader: turns encoded images into pixel buffers, and keeps of a batch
//! the ones that can be decoded, in their order.

use crate::composer::views;
use crate::raster::{RgbaImage, RgbaView};
use vstd::prelude::*;

verus! {

/// What the image decoder makes of an encoded image: the width, the height
/// and the samples, four a pixel, or `None` where it cannot decode the bytes.
pub uninterp spec fn decoded_rgba(bytes: Seq<u8>) -> Option<(u32, u32, Seq<u8>)>;

/// Decodes an encoded image with the `image` crate: `guess_format` tells the
/// format from the first bytes, `load_from_memory_with_format` decodes, and
/// `to_rgba8`, `width`, `height` and `into_raw` hand out the pixels. An error
/// of `guess_format` or of `load_from_memory_with_format` is `None`.
///
/// The contract only names the result. It claims that the same bytes always
/// decode to the same image or always fail, and nothing of what the image
/// is.
#[verifier::external_body]
fn decode_rgba(bytes: &[u8]) -> (decoded: Option<(u32, u32, Vec<u8>)>)
    ensures
        match decoded {
            Some((width, height, samples)) => decoded_rgba(bytes@) == Some(
                (width, height, samples@),
            ),
            None => decoded_rgba(bytes@) is None,
        },
{
    let format = image::guess_format(bytes).ok()?;
    let rgba = image::load_from_memory_with_format(bytes, format).ok()?.to_rgba8();
    Some((rgba.width(), rgba.height(), rgba.into_raw()))
}

/// The image that an encoded image stands for: what the decoder makes of it,
/// where that has four samples for each pixel.
pub open spec fn decoded_image(bytes: Seq<u8>) -> Option<RgbaView> {
    match decoded_rgba(bytes) {
        Some((width, height, samples)) => if samples.len() == 4 * (width * height) {
            Some(RgbaView { width: width as nat, height: height as nat, samples })
        } else {
            None
        },
        None => None,
    }
}

/// The images that a batch of encoded images stands for: those that can be
/// decoded, in the order of the batch.
pub open spec fn decoded_batch(blobs: Seq<Seq<u8>>) -> Seq<RgbaView>
    decreases blobs.len(),
{
    if blobs.len() == 0 {
        Seq::empty()
    } else {
        let before = decoded_batch(blobs.drop_last());
        match decoded_image(blobs.last()) {
            Some(image) => before.push(image),
            None => before,
        }
    }
}

/// The contents of a batch of byte buffers.
pub open spec fn contents(blobs: Seq<Vec<u8>>) -> Seq<Seq<u8>> {
    blobs.map_values(|blob: Vec<u8>| blob@)
}

/// The content of an optional image.
pub open spec fn view_of(image: Option<RgbaImage>) -> Option<RgbaView> {
    match image {
        Some(image) => Some(image@),
        None => None,
    }
}

/// Decodes one encoded image.
pub fn decode_image(bytes: &[u8]) -> (image: Option<RgbaImage>)
    ensures
        view_of(image) == decoded_image(bytes@),
{
    match decode_rgba(bytes) {
        Some((width, height, samples)) => RgbaImage::from_raw(width, height, samples),
        None => None,
    }
}

/// Decodes a batch of encoded images. One that cannot be decoded is left
/// out; the others keep their order.
pub fn decode_batch(blobs: &[Vec<u8>]) -> (images: Vec<RgbaImage>)
    ensures
        views(images@) == decoded_batch(contents(blobs@)),
{
    let ghost all = contents(blobs@);
    let mut images: Vec<RgbaImage> = Vec::new();
    let mut i: usize = 0;
    assert(all.take(0) =~= Seq::<Seq<u8>>::empty());
    assert(views(images@) =~= Seq::<RgbaView>::empty());
    while i < blobs.len()
        invariant
            i <= blobs.len(),
            all == contents(blobs@),
            views(images@) == decoded_batch(all.take(i as int)),
        decreases blobs.len() - i,
    {
        let ghost before = views(images@);
        assert(all.take(i + 1).drop_last() =~= all.take(i as int));
        assert(all.take(i + 1).last() == blobs@[i as int]@);
        match decode_image(blobs[i].as_slice()) {
            Some(image) => {
                images.push(image);
                assert(views(images@) =~= before.push(image@));
            },
            None => {},
        }
        i = i + 1;
    }
    assert(all.take(i as int) =~= all);
    images
}

/// A batch decodes to no more images than it has entries, and to none where
/// none of its entries can be decoded.
pub proof fn lemma_decoded_batch_len(blobs: Seq<Seq<u8>>)
    ensures
        decoded_batch(blobs).len() <= blobs.len(),
        (forall|i: int| 0 <= i < blobs.len() ==> decoded_image(#[trigger] blobs[i]) is None)
            ==> decoded_batch(blobs).len() == 0,
    decreases blobs.len(),
{
    if blobs.len() > 0 {
        let before = blobs.drop_last();
        lemma_decoded_batch_len(before);
        if forall|i: int| 0 <= i < blobs.len() ==> decoded_image(#[trigger] blobs[i]) is None {
            assert forall|i: int| 0 <= i < before.len() implies decoded_image(
                #[trigger] before[i],
            ) is None by {
                assert(before[i] == blobs[i]);
            }
            assert(decoded_image(blobs[blobs.len() - 1]) is None);
        }
    }
}

/// Decoding keeps the order of a batch: the images of two batches joined are
/// the images of the first followed by the images of the second.
pub proof fn lemma_decoded_batch_of_joined(a: Seq<Seq<u8>>, b: Seq<Seq<u8>>)
    ensures
        decoded_batch(a + b) == decoded_batch(a) + decoded_batch(b),
    decreases b.len(),
{
    if b.len() == 0 {
        assert(a + b =~= a);
        assert(decoded_batch(a) + decoded_batch(b) =~= decoded_batch(a));
    } else {
        assert((a + b).drop_last() =~= a + b.drop_last());
        assert((a + b).last() == b.last());
        lemma_decoded_batch_of_joined(a, b.drop_last());
        let joined = decoded_batch(a) + decoded_batch(b.drop_last());
        match decoded_image(b.last()) {
            Some(image) => {
                assert(joined.push(image) =~= decoded_batch(a) + decoded_batch(b));
            },
            None => {},
        }
    }
}

} // verus!
