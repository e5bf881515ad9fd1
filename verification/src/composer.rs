//! The canvas composer: stacks images from top to bottom on a white canvas
//! that is as wide as the widest of them and as tall as all of them together.

use crate::raster::{
    lemma_filled_pixel, lemma_painted_pixel, lemma_same_pixels, lemma_with_pixel, Rgba, RgbaImage,
    RgbaView,
};
use vstd::prelude::*;

verus! {

/// The mathematical contents of a list of images, in the same order.
pub open spec fn views(images: Seq<RgbaImage>) -> Seq<RgbaView> {
    images.map_values(|image: RgbaImage| image@)
}

/// The width of the composite: the largest width among the images, and 0
/// where there is none.
pub open spec fn composite_width(images: Seq<RgbaView>) -> nat
    decreases images.len(),
{
    if images.len() == 0 {
        0
    } else {
        let rest = composite_width(images.drop_last());
        if images.last().width > rest {
            images.last().width
        } else {
            rest
        }
    }
}

/// The height of the composite: the heights of the images added up.
pub open spec fn composite_height(images: Seq<RgbaView>) -> nat
    decreases images.len(),
{
    if images.len() == 0 {
        0
    } else {
        composite_height(images.drop_last()) + images.last().height
    }
}

/// The row of the composite at which the band of image `i` starts: the
/// heights of the images before it, added up.
pub open spec fn band_top(images: Seq<RgbaView>, i: int) -> nat {
    composite_height(images.take(i))
}

/// What the composite shows at column `x` of row `y`: the pixel of the image
/// whose band holds the row, where that image is wide enough, and white
/// everywhere else.
pub open spec fn stacked_pixel(images: Seq<RgbaView>, x: int, y: int) -> Rgba
    decreases images.len(),
{
    if images.len() == 0 {
        Rgba::white()
    } else {
        let top = composite_height(images.drop_last());
        let last = images.last();
        if y < top {
            stacked_pixel(images.drop_last(), x, y)
        } else if y < top + last.height && 0 <= x < last.width {
            last.pixel(x, y - top)
        } else {
            Rgba::white()
        }
    }
}

/// The composite of a list of images.
pub open spec fn composite(images: Seq<RgbaView>) -> RgbaView {
    RgbaView::painted(
        composite_width(images),
        composite_height(images),
        |x: int, y: int| stacked_pixel(images, x, y),
    )
}

/// The composite can be held in memory: its height fits the type of a
/// height, and the number of its samples the type of a length.
pub open spec fn canvas_fits(images: Seq<RgbaView>) -> bool {
    &&& composite_height(images) <= u32::MAX
    &&& 4 * (composite_width(images) * composite_height(images)) <= usize::MAX
}

/// The first `i + 1` images are the first `i` and image `i`.
proof fn lemma_take_next(images: Seq<RgbaView>, i: int)
    requires
        0 <= i < images.len(),
    ensures
        images.take(i + 1).drop_last() == images.take(i),
        images.take(i + 1).last() == images[i],
        images.take(images.len() as int) == images,
{
    assert(images.take(i + 1).drop_last() =~= images.take(i));
    assert(images.take(images.len() as int) =~= images);
}

/// Stacking more images never makes the composite narrower or shorter.
pub proof fn lemma_prefix_is_smaller(images: Seq<RgbaView>, i: int)
    requires
        0 <= i <= images.len(),
    ensures
        composite_width(images.take(i)) <= composite_width(images),
        composite_height(images.take(i)) <= composite_height(images),
    decreases images.len() - i,
{
    if i < images.len() {
        lemma_take_next(images, i);
        lemma_prefix_is_smaller(images, i + 1);
    } else {
        assert(images.take(i) =~= images);
    }
}

/// Below the last band there is only white.
pub proof fn lemma_white_below(images: Seq<RgbaView>, x: int, y: int)
    requires
        composite_height(images) <= y,
    ensures
        stacked_pixel(images, x, y) == Rgba::white(),
    decreases images.len(),
{
    if images.len() > 0 {
        lemma_white_below(images.drop_last(), x, y);
    }
}

/// The size of the composite of `images`, where it can be held in memory.
pub fn canvas_size(images: &Vec<RgbaImage>) -> (size: Option<(u32, u32)>)
    ensures
        size is Some <==> canvas_fits(views(images@)),
        size matches Some((width, height)) ==> {
            &&& width == composite_width(views(images@))
            &&& height == composite_height(views(images@))
        },
{
    let ghost all = views(images@);
    let mut width: u32 = 0;
    let mut height: u32 = 0;
    let mut i: usize = 0;
    while i < images.len()
        invariant
            i <= images.len(),
            all == views(images@),
            width == composite_width(all.take(i as int)),
            height == composite_height(all.take(i as int)),
        decreases images.len() - i,
    {
        let image = &images[i];
        proof {
            lemma_take_next(all, i as int);
            lemma_prefix_is_smaller(all, i + 1);
        }
        if image.width() > width {
            width = image.width();
        }
        if image.height() > u32::MAX - height {
            return None;
        }
        height = height + image.height();
        i = i + 1;
    }
    proof {
        assert(all.take(i as int) =~= all);
    }
    assert(width * height <= 0xffff_ffff * 0xffff_ffff) by (nonlinear_arith)
        requires
            0 <= width <= 0xffff_ffff,
            0 <= height <= 0xffff_ffff,
    ;
    let samples: u128 = 4 * (width as u128 * height as u128);
    if samples <= usize::MAX as u128 {
        Some((width, height))
    } else {
        None
    }
}

/// Stacks the images from top to bottom, in the order of the list, each
/// against the left edge, on a white canvas.
pub fn compose(images: &Vec<RgbaImage>) -> (canvas: RgbaImage)
    requires
        canvas_fits(views(images@)),
    ensures
        canvas@.wf(),
        canvas@ == composite(views(images@)),
{
    let ghost all = views(images@);
    let (width, height) = canvas_size(images).unwrap();
    let mut canvas = RgbaImage::from_pixel(width, height, Rgba::white());
    proof {
        assert forall|x: int, y: int| canvas@.contains(x, y) implies canvas@.pixel(x, y)
            == stacked_pixel(all.take(0), x, y) by {
            lemma_filled_pixel(width as nat, height as nat, Rgba::white(), x, y);
        }
    }
    let mut top: u32 = 0;
    let mut k: usize = 0;
    while k < images.len()
        invariant
            k <= images.len(),
            all == views(images@),
            width == composite_width(all),
            height == composite_height(all),
            canvas@.wf(),
            canvas@.width == width,
            canvas@.height == height,
            top == composite_height(all.take(k as int)),
            forall|x: int, y: int|
                canvas@.contains(x, y) ==> canvas@.pixel(x, y) == stacked_pixel(
                    all.take(k as int),
                    x,
                    y,
                ),
        decreases images.len() - k,
    {
        let image = &images[k];
        let image_width: u32 = image.width();
        let image_height: u32 = image.height();
        proof {
            lemma_take_next(all, k as int);
            lemma_prefix_is_smaller(all, k + 1);
            use_type_invariant(image);
        }
        let mut y: u32 = 0;
        while y < image_height
            invariant
                y <= image_height,
                0 <= k < all.len(),
                image@ == all[k as int],
                image@.wf(),
                image_width == image@.width,
                image_height == image@.height,
                image_width <= width,
                top + image_height <= height,
                canvas@.wf(),
                canvas@.width == width,
                canvas@.height == height,
                forall|px: int, py: int|
                    canvas@.contains(px, py) ==> canvas@.pixel(px, py) == if top <= py < top + y
                        && px < image_width {
                        image@.pixel(px, py - top)
                    } else {
                        stacked_pixel(all.take(k as int), px, py)
                    },
            decreases image_height - y,
        {
            let mut x: u32 = 0;
            while x < image_width
                invariant
                    x <= image_width,
                    y < image_height,
                    0 <= k < all.len(),
                    image@ == all[k as int],
                    image@.wf(),
                    image_width == image@.width,
                    image_height == image@.height,
                    image_width <= width,
                    top + image_height <= height,
                    canvas@.wf(),
                    canvas@.width == width,
                    canvas@.height == height,
                    forall|px: int, py: int|
                        canvas@.contains(px, py) ==> canvas@.pixel(px, py) == if (top <= py < top
                            + y && px < image_width) || (py == top + y && px < x) {
                            image@.pixel(px, py - top)
                        } else {
                            stacked_pixel(all.take(k as int), px, py)
                        },
                decreases image_width - x,
            {
                let pixel = image.get_pixel(x, y);
                let ghost before = canvas@;
                canvas = canvas.put_pixel(x, y + top, pixel);
                proof {
                    assert forall|px: int, py: int| canvas@.contains(px, py) implies canvas@.pixel(
                        px,
                        py,
                    ) == if (top <= py < top + y && px < image_width) || (py == top + y && px < x
                        + 1) {
                        image@.pixel(px, py - top)
                    } else {
                        stacked_pixel(all.take(k as int), px, py)
                    } by {
                        lemma_with_pixel(before, x as int, y + top, pixel, px, py);
                    }
                }
                x = x + 1;
            }
            y = y + 1;
        }
        proof {
            assert forall|px: int, py: int| canvas@.contains(px, py) implies canvas@.pixel(px, py)
                == stacked_pixel(all.take(k + 1), px, py) by {
                if py >= top {
                    lemma_white_below(all.take(k as int), px, py);
                }
            }
        }
        top = top + image_height;
        k = k + 1;
    }
    proof {
        assert(all.take(k as int) =~= all);
        assert forall|x: int, y: int| canvas@.contains(x, y) implies canvas@.pixel(x, y)
            == composite(all).pixel(x, y) by {
            lemma_painted_pixel(
                width as nat,
                height as nat,
                |x: int, y: int| stacked_pixel(all, x, y),
                x,
                y,
            );
        }
        lemma_same_pixels(canvas@, composite(all));
    }
    canvas
}

/// The composite shows at every one of its places what the stack of images
/// shows there.
pub proof fn lemma_composite_pixel(images: Seq<RgbaView>, x: int, y: int)
    requires
        composite(images).contains(x, y),
    ensures
        composite(images).pixel(x, y) == stacked_pixel(images, x, y),
{
    lemma_painted_pixel(
        composite_width(images),
        composite_height(images),
        |x: int, y: int| stacked_pixel(images, x, y),
        x,
        y,
    );
}

/// The composite is a well-formed image whose width is the largest width
/// among the images and whose height is the sum of their heights.
pub proof fn lemma_composite_size(images: Seq<RgbaView>)
    ensures
        composite(images).wf(),
        composite(images).width == composite_width(images),
        composite(images).height == composite_height(images),
{
}

/// The composite of two lists joined is as wide as the wider of their
/// composites and as tall as both together.
pub proof fn lemma_size_of_joined(a: Seq<RgbaView>, b: Seq<RgbaView>)
    ensures
        composite_width(a + b) == if composite_width(a) >= composite_width(b) {
            composite_width(a)
        } else {
            composite_width(b)
        },
        composite_height(a + b) == composite_height(a) + composite_height(b),
    decreases b.len(),
{
    if b.len() == 0 {
        assert(a + b =~= a);
    } else {
        assert((a + b).drop_last() =~= a + b.drop_last());
        assert((a + b).last() == b.last());
        lemma_size_of_joined(a, b.drop_last());
    }
}

/// The composite is exactly as wide as its widest image: no image is wider,
/// and where there is an image, one of them is as wide.
pub proof fn lemma_width_is_maximum(images: Seq<RgbaView>)
    ensures
        forall|i: int|
            0 <= i < images.len() ==> (#[trigger] images[i]).width <= composite_width(images),
        images.len() > 0 ==> exists|i: int|
            0 <= i < images.len() && (#[trigger] images[i]).width == composite_width(images),
    decreases images.len(),
{
    if images.len() > 0 {
        let rest = images.drop_last();
        lemma_width_is_maximum(rest);
        assert forall|i: int| 0 <= i < images.len() implies (#[trigger] images[i]).width
            <= composite_width(images) by {
            if i < rest.len() {
                assert(rest[i] == images[i]);
            }
        }
        if images.last().width > composite_width(rest) || rest.len() == 0 {
            assert(images[images.len() - 1].width == composite_width(images));
        } else {
            let i = choose|i: int|
                0 <= i < rest.len() && (#[trigger] rest[i]).width == composite_width(rest);
            assert(images[i] == rest[i]);
        }
    }
}

/// The bands tile the height of the composite in the order of the list: the
/// first starts at the top, each next one where the one before it ends, and
/// the last ends at the bottom.
pub proof fn lemma_bands_tile(images: Seq<RgbaView>, i: int)
    requires
        0 <= i < images.len(),
    ensures
        band_top(images, 0) == 0,
        band_top(images, i + 1) == band_top(images, i) + images[i].height,
        band_top(images, images.len() as int) == composite_height(images),
        band_top(images, i) + images[i].height <= composite_height(images),
{
    lemma_take_next(images, i);
    lemma_prefix_is_smaller(images, i + 1);
}

/// Every row of the composite lies in the band of one of the images.
pub proof fn lemma_row_lies_in_a_band(images: Seq<RgbaView>, y: int)
    requires
        0 <= y < composite_height(images),
    ensures
        exists|i: int|
            0 <= i < images.len() && #[trigger] band_top(images, i) <= y < band_top(images, i)
                + images[i].height,
    decreases images.len(),
{
    let rest = images.drop_last();
    let last = images.len() - 1;
    assert(images.take(last) =~= rest);
    if y >= composite_height(rest) {
        assert(band_top(images, last) <= y < band_top(images, last) + images[last].height);
    } else {
        lemma_row_lies_in_a_band(rest, y);
        let i = choose|i: int|
            0 <= i < rest.len() && #[trigger] band_top(rest, i) <= y < band_top(rest, i)
                + rest[i].height;
        assert(images.take(i) =~= rest.take(i));
        assert(rest[i] == images[i]);
        assert(band_top(images, i) <= y < band_top(images, i) + images[i].height);
    }
}

/// The band of image `i` shows image `i`: the pixel at `(x, y)` of the image
/// stands at column `x` of row `band_top + y` of the composite.
pub proof fn lemma_band_shows_image(images: Seq<RgbaView>, i: int, x: int, y: int)
    requires
        0 <= i < images.len(),
        images[i].contains(x, y),
    ensures
        composite(images).contains(x, band_top(images, i) + y),
        composite(images).pixel(x, band_top(images, i) + y) == images[i].pixel(x, y),
        stacked_pixel(images, x, band_top(images, i) + y) == images[i].pixel(x, y),
{
    lemma_width_is_maximum(images);
    lemma_bands_tile(images, i);
    lemma_band_row(images, i, x, y);
    lemma_composite_pixel(images, x, band_top(images, i) + y);
}

/// To the right of an image that is narrower than the composite, its band is
/// opaque white.
pub proof fn lemma_padding_is_white(images: Seq<RgbaView>, i: int, x: int, y: int)
    requires
        0 <= i < images.len(),
        images[i].width <= x < composite_width(images),
        0 <= y < images[i].height,
    ensures
        composite(images).contains(x, band_top(images, i) + y),
        composite(images).pixel(x, band_top(images, i) + y) == Rgba::white(),
{
    lemma_bands_tile(images, i);
    lemma_band_row(images, i, x, y);
    lemma_composite_pixel(images, x, band_top(images, i) + y);
}

/// What the stack shows in row `y` of the band of image `i`.
proof fn lemma_band_row(images: Seq<RgbaView>, i: int, x: int, y: int)
    requires
        0 <= i < images.len(),
        0 <= y < images[i].height,
    ensures
        stacked_pixel(images, x, band_top(images, i) + y) == if 0 <= x < images[i].width {
            images[i].pixel(x, y)
        } else {
            Rgba::white()
        },
    decreases images.len(),
{
    let rest = images.drop_last();
    if i == images.len() - 1 {
        assert(images.take(i) =~= rest);
    } else {
        assert(images.take(i) =~= rest.take(i));
        assert(rest[i] == images[i]);
        lemma_bands_tile(rest, i);
        lemma_band_row(rest, i, x, y);
    }
}

/// Taking image `j` out of the list takes its height off the height of the
/// composite, and leaves a composite that is no wider.
proof fn lemma_size_without(images: Seq<RgbaView>, j: int)
    requires
        0 <= j < images.len(),
    ensures
        composite_height(images) == composite_height(images.remove(j)) + images[j].height,
        composite_width(images) == if images[j].width > composite_width(images.remove(j)) {
            images[j].width
        } else {
            composite_width(images.remove(j))
        },
    decreases images.len(),
{
    let rest = images.drop_last();
    if j == images.len() - 1 {
        assert(images.remove(j) =~= rest);
    } else {
        assert(images.remove(j).drop_last() =~= rest.remove(j));
        assert(images.remove(j).last() == images.last());
        assert(rest[j] == images[j]);
        lemma_size_without(rest, j);
    }
}

/// The size of the composite does not depend on the order of the images: two
/// lists that hold the same images, each as often as the other, give
/// composites of one width and one height.
pub proof fn lemma_size_ignores_order(a: Seq<RgbaView>, b: Seq<RgbaView>)
    requires
        a.to_multiset() == b.to_multiset(),
    ensures
        composite_width(a) == composite_width(b),
        composite_height(a) == composite_height(b),
    decreases a.len(),
{
    broadcast use vstd::seq_lib::group_to_multiset_ensures;

    assert(a.len() == a.to_multiset().len());
    assert(b.len() == b.to_multiset().len());
    if a.len() > 0 {
        let last = a.last();
        assert(a.contains(last));
        assert(b.to_multiset().count(last) > 0);
        assert(b.contains(last));
        let j = choose|j: int| 0 <= j < b.len() && b[j] == last;
        assert(a.drop_last() =~= a.remove(a.len() - 1));
        assert(a.drop_last().to_multiset() =~= b.remove(j).to_multiset());
        lemma_size_ignores_order(a.drop_last(), b.remove(j));
        lemma_size_without(b, j);
    }
}

} // verus!
