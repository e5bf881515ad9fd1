//! Pixel buffers: what a raster of eight-bit samples is, and the two
//! executable buffers of the library, with four samples a pixel and with three.

use vstd::prelude::*;

verus! {

/// One pixel: a red, a green, a blue and an alpha sample.
#[derive(Clone, Copy, Debug, PartialEq, Eq, Structural)]
pub struct Rgba {
    pub r: u8,
    pub g: u8,
    pub b: u8,
    pub a: u8,
}

impl Rgba {
    /// Fully opaque white.
    pub open spec fn spec_white() -> Rgba {
        Rgba { r: 255, g: 255, b: 255, a: 255 }
    }

    /// Fully opaque white.
    #[verifier::when_used_as_spec(spec_white)]
    pub fn white() -> (pixel: Rgba)
        ensures
            pixel == Rgba::spec_white(),
    {
        Rgba { r: 255, g: 255, b: 255, a: 255 }
    }

    /// The sample of channel `c`: 0 is red, 1 green, 2 blue, anything else alpha.
    pub open spec fn channel(self, c: int) -> u8 {
        if c == 0 {
            self.r
        } else if c == 1 {
            self.g
        } else if c == 2 {
            self.b
        } else {
            self.a
        }
    }
}

/// The mathematical content of a four-channel image: its size and its samples,
/// row by row from the top, each row from the left, four samples a pixel.
#[verifier::ext_equal]
pub struct RgbaView {
    pub width: nat,
    pub height: nat,
    pub samples: Seq<u8>,
}

impl RgbaView {
    /// How many pixels the image has.
    pub open spec fn area(self) -> nat {
        self.width * self.height
    }

    /// There are exactly four samples for each pixel.
    pub open spec fn wf(self) -> bool {
        self.samples.len() == 4 * self.area()
    }

    /// `(x, y)` names a pixel of the image.
    pub open spec fn contains(self, x: int, y: int) -> bool {
        0 <= x < self.width && 0 <= y < self.height
    }

    /// Where the samples of pixel `(x, y)` start.
    pub open spec fn offset(self, x: int, y: int) -> int {
        4 * (y * self.width + x)
    }

    /// The pixel at column `x` of row `y`.
    pub open spec fn pixel(self, x: int, y: int) -> Rgba {
        let i = self.offset(x, y);
        Rgba {
            r: self.samples[i],
            g: self.samples[i + 1],
            b: self.samples[i + 2],
            a: self.samples[i + 3],
        }
    }

    /// The image of the given size whose every pixel is `pixel`.
    pub open spec fn filled(width: nat, height: nat, pixel: Rgba) -> RgbaView {
        RgbaView {
            width,
            height,
            samples: Seq::new(4 * (width * height), |i: int| pixel.channel(i % 4)),
        }
    }

    /// The image of the given size whose pixel at `(x, y)` is `paint(x, y)`.
    pub open spec fn painted(width: nat, height: nat, paint: spec_fn(int, int) -> Rgba)
        -> RgbaView {
        RgbaView {
            width,
            height,
            samples: Seq::new(
                4 * (width * height),
                |i: int| paint((i / 4) % (width as int), (i / 4) / (width as int)).channel(i % 4),
            ),
        }
    }

    /// The image with pixel `(x, y)` overwritten by `pixel`.
    pub open spec fn with_pixel(self, x: int, y: int, pixel: Rgba) -> RgbaView {
        let i = self.offset(x, y);
        RgbaView {
            width: self.width,
            height: self.height,
            samples: self.samples.update(i, pixel.r).update(i + 1, pixel.g).update(
                i + 2,
                pixel.b,
            ).update(i + 3, pixel.a),
        }
    }

    /// The samples with every fourth one, the alpha sample, left out.
    pub open spec fn without_alpha(self) -> RgbView {
        RgbView {
            width: self.width,
            height: self.height,
            samples: Seq::new(
                3 * (self.samples.len() / 4),
                |k: int| self.samples[4 * (k / 3) + k % 3],
            ),
        }
    }
}

/// The mathematical content of a three-channel image: its size and its
/// samples, three a pixel, in the same order as in [`RgbaView`].
#[verifier::ext_equal]
pub struct RgbView {
    pub width: nat,
    pub height: nat,
    pub samples: Seq<u8>,
}

impl RgbView {
    /// How many pixels the image has.
    pub open spec fn area(self) -> nat {
        self.width * self.height
    }

    /// There are exactly three samples for each pixel.
    pub open spec fn wf(self) -> bool {
        self.samples.len() == 3 * self.area()
    }

    /// `(x, y)` names a pixel of the image.
    pub open spec fn contains(self, x: int, y: int) -> bool {
        0 <= x < self.width && 0 <= y < self.height
    }

    /// Where the samples of pixel `(x, y)` start.
    pub open spec fn offset(self, x: int, y: int) -> int {
        3 * (y * self.width + x)
    }

    /// The red, green and blue samples of the pixel at column `x` of row `y`.
    pub open spec fn pixel(self, x: int, y: int) -> (u8, u8, u8) {
        let i = self.offset(x, y);
        (self.samples[i], self.samples[i + 1], self.samples[i + 2])
    }
}

/// The pixels of a well-formed image lie inside its samples.
pub proof fn lemma_offset_in_bounds(image: RgbaView, x: int, y: int)
    requires
        image.wf(),
        image.contains(x, y),
    ensures
        0 <= y * image.width,
        y * image.width + x < image.area(),
        0 <= image.offset(x, y),
        image.offset(x, y) + 4 <= image.samples.len(),
{
    let w = image.width as int;
    let h = image.height as int;
    assert(0 <= y * w) by (nonlinear_arith)
        requires
            0 <= y,
            0 <= w,
    ;
    assert(y * w + w <= h * w) by (nonlinear_arith)
        requires
            0 <= y < h,
            0 <= w,
    ;
    assert(w * h == h * w) by (nonlinear_arith);
}

/// Two different pixels of one image do not share a sample.
pub proof fn lemma_offsets_apart(image: RgbaView, x1: int, y1: int, x2: int, y2: int)
    requires
        image.contains(x1, y1),
        image.contains(x2, y2),
        x1 != x2 || y1 != y2,
    ensures
        image.offset(x1, y1) + 4 <= image.offset(x2, y2) || image.offset(x2, y2) + 4
            <= image.offset(x1, y1),
{
    let w = image.width as int;
    if y1 < y2 {
        assert(y1 * w + w <= y2 * w) by (nonlinear_arith)
            requires
                y1 < y2,
                0 <= w,
        ;
    } else if y2 < y1 {
        assert(y2 * w + w <= y1 * w) by (nonlinear_arith)
            requires
                y2 < y1,
                0 <= w,
        ;
    }
}

/// Every pixel of a filled image is the pixel it was filled with.
pub proof fn lemma_filled_pixel(width: nat, height: nat, pixel: Rgba, x: int, y: int)
    requires
        0 <= x < width,
        0 <= y < height,
    ensures
        RgbaView::filled(width, height, pixel).wf(),
        RgbaView::filled(width, height, pixel).pixel(x, y) == pixel,
{
    let image = RgbaView::filled(width, height, pixel);
    lemma_offset_in_bounds(image, x, y);
}

/// A painted image is well formed and shows at each place what was painted
/// there.
pub proof fn lemma_painted_pixel(
    width: nat,
    height: nat,
    paint: spec_fn(int, int) -> Rgba,
    x: int,
    y: int,
)
    requires
        0 <= x < width,
        0 <= y < height,
    ensures
        RgbaView::painted(width, height, paint).wf(),
        RgbaView::painted(width, height, paint).pixel(x, y) == paint(x, y),
{
    let image = RgbaView::painted(width, height, paint);
    let w = width as int;
    lemma_offset_in_bounds(image, x, y);
    vstd::arithmetic::div_mod::lemma_fundamental_div_mod_converse(y * w + x, w, y, x);
}

/// Two well-formed images of one size that agree on every pixel are the same
/// image.
pub proof fn lemma_same_pixels(a: RgbaView, b: RgbaView)
    requires
        a.wf(),
        b.wf(),
        a.width == b.width,
        a.height == b.height,
        forall|x: int, y: int| a.contains(x, y) ==> a.pixel(x, y) == b.pixel(x, y),
    ensures
        a == b,
{
    let w = a.width as int;
    let h = a.height as int;
    assert forall|i: int| 0 <= i < a.samples.len() implies a.samples[i] == b.samples[i] by {
        if w == 0 {
            assert(w * h == 0) by (nonlinear_arith)
                requires
                    w == 0,
            ;
        }
        let p = i / 4;
        let x = p % w;
        let y = p / w;
        vstd::arithmetic::div_mod::lemma_fundamental_div_mod(p, w);
        vstd::arithmetic::div_mod::lemma_mod_pos_bound(p, w);
        vstd::arithmetic::div_mod::lemma_div_pos_is_pos(p, w);
        assert(y < h) by (nonlinear_arith)
            requires
                p == w * y + x,
                0 <= x,
                p < w * h,
                0 < w,
        ;
        assert(y * w == w * y) by (nonlinear_arith);
        assert(a.contains(x, y));
        assert(a.offset(x, y) == 4 * p);
        assert(a.pixel(x, y) == b.pixel(x, y));
    }
    assert(a.samples =~= b.samples);
}

/// Overwriting a pixel changes that pixel and no other.
pub proof fn lemma_with_pixel(image: RgbaView, x: int, y: int, pixel: Rgba, x2: int, y2: int)
    requires
        image.wf(),
        image.contains(x, y),
        image.contains(x2, y2),
    ensures
        image.with_pixel(x, y, pixel).wf(),
        image.with_pixel(x, y, pixel).pixel(x2, y2) == if x2 == x && y2 == y {
            pixel
        } else {
            image.pixel(x2, y2)
        },
{
    lemma_offset_in_bounds(image, x, y);
    lemma_offset_in_bounds(image, x2, y2);
    if x2 != x || y2 != y {
        lemma_offsets_apart(image, x, y, x2, y2);
    }
}

/// Leaving out the alpha channel keeps the size of the image and the colour of
/// every pixel.
pub proof fn lemma_without_alpha_pixel(image: RgbaView, x: int, y: int)
    requires
        image.wf(),
        image.contains(x, y),
    ensures
        image.without_alpha().wf(),
        image.without_alpha().width == image.width,
        image.without_alpha().height == image.height,
        image.without_alpha().pixel(x, y) == (
            image.pixel(x, y).r,
            image.pixel(x, y).g,
            image.pixel(x, y).b,
        ),
{
    lemma_offset_in_bounds(image, x, y);
}

/// A four-channel image held in memory: `width * height` pixels of four
/// samples each.
pub struct RgbaImage {
    width: u32,
    height: u32,
    samples: Vec<u8>,
}

impl View for RgbaImage {
    type V = RgbaView;

    closed spec fn view(&self) -> RgbaView {
        RgbaView {
            width: self.width as nat,
            height: self.height as nat,
            samples: self.samples@,
        }
    }
}

impl RgbaImage {
    /// What holds of every image: there are four samples for each pixel.
    #[verifier::type_invariant]
    pub open spec fn inv(&self) -> bool {
        self@.wf()
    }

    /// Makes an image of the given size from its samples. There is an image
    /// exactly when there are four samples for each pixel.
    pub fn from_raw(width: u32, height: u32, samples: Vec<u8>) -> (image: Option<RgbaImage>)
        ensures
            image is Some <==> samples@.len() == 4 * (width * height),
            image matches Some(img) ==> img@.wf() && img@ == (RgbaView {
                width: width as nat,
                height: height as nat,
                samples: samples@,
            }),
    {
        assert(width * height <= 0xffff_ffff * 0xffff_ffff) by (nonlinear_arith)
            requires
                0 <= width <= 0xffff_ffff,
                0 <= height <= 0xffff_ffff,
        ;
        let needed: u128 = 4 * (width as u128 * height as u128);
        if samples.len() as u128 == needed {
            Some(RgbaImage { width, height, samples })
        } else {
            None
        }
    }

    /// Makes an image of the given size whose every pixel is `pixel`.
    pub fn from_pixel(width: u32, height: u32, pixel: Rgba) -> (image: RgbaImage)
        requires
            4 * (width * height) <= usize::MAX,
        ensures
            image@.wf(),
            image@ == RgbaView::filled(width as nat, height as nat, pixel),
    {
        assert(width * height == (width as usize * height as usize) as int) by (nonlinear_arith)
            requires
                4 * (width * height) <= usize::MAX,
                0 <= width,
                0 <= height,
        ;
        let area: usize = width as usize * height as usize;
        let mut samples: Vec<u8> = Vec::with_capacity(4 * area);
        let mut done: usize = 0;
        while done < area
            invariant
                done <= area,
                4 * area <= usize::MAX,
                samples@ == Seq::new((4 * done) as nat, |i: int| pixel.channel(i % 4)),
            decreases area - done,
        {
            samples.push(pixel.r);
            samples.push(pixel.g);
            samples.push(pixel.b);
            samples.push(pixel.a);
            done = done + 1;
        }
        RgbaImage { width, height, samples }
    }

    /// The number of columns.
    pub fn width(&self) -> (w: u32)
        ensures
            w == self@.width,
    {
        self.width
    }

    /// The number of rows.
    pub fn height(&self) -> (h: u32)
        ensures
            h == self@.height,
    {
        self.height
    }

    /// The samples, row by row.
    pub fn as_raw(&self) -> (samples: &Vec<u8>)
        ensures
            samples@ == self@.samples,
            self@.wf(),
    {
        proof {
            use_type_invariant(self);
        }
        &self.samples
    }

    /// Gives up the image for its samples.
    pub fn into_raw(self) -> (samples: Vec<u8>)
        ensures
            samples@ == self@.samples,
    {
        self.samples
    }

    /// The pixel at column `x` of row `y`.
    pub fn get_pixel(&self, x: u32, y: u32) -> (pixel: Rgba)
        requires
            self@.contains(x as int, y as int),
        ensures
            pixel == self@.pixel(x as int, y as int),
    {
        proof {
            use_type_invariant(self);
            lemma_offset_in_bounds(self@, x as int, y as int);
            assert(self.samples.len() <= usize::MAX);
        }
        let i: usize = 4 * (y as usize * self.width as usize + x as usize);
        Rgba {
            r: self.samples[i],
            g: self.samples[i + 1],
            b: self.samples[i + 2],
            a: self.samples[i + 3],
        }
    }

    /// The image with the pixel at column `x` of row `y` overwritten.
    pub fn put_pixel(self, x: u32, y: u32, pixel: Rgba) -> (image: RgbaImage)
        requires
            self@.contains(x as int, y as int),
        ensures
            image@.wf(),
            image@ == self@.with_pixel(x as int, y as int, pixel),
    {
        proof {
            use_type_invariant(&self);
            lemma_offset_in_bounds(self@, x as int, y as int);
            assert(self.samples.len() <= usize::MAX);
        }
        let width: u32 = self.width;
        let height: u32 = self.height;
        let i: usize = 4 * (y as usize * width as usize + x as usize);
        let mut samples = self.samples;
        samples.set(i, pixel.r);
        samples.set(i + 1, pixel.g);
        samples.set(i + 2, pixel.b);
        samples.set(i + 3, pixel.a);
        RgbaImage { width, height, samples }
    }

    /// The same image without its alpha channel.
    pub fn to_rgb(&self) -> (rgb: RgbImage)
        ensures
            rgb@.wf(),
            rgb@ == self@.without_alpha(),
    {
        proof {
            use_type_invariant(self);
        }
        let len: usize = self.samples.len();
        let pixels: usize = len / 4;
        let mut samples: Vec<u8> = Vec::with_capacity(3 * pixels);
        let mut p: usize = 0;
        while p < pixels
            invariant
                p <= pixels,
                len == self.samples@.len(),
                pixels == len / 4,
                samples@ == Seq::new(
                    (3 * p) as nat,
                    |k: int| self.samples@[4 * (k / 3) + k % 3],
                ),
            decreases pixels - p,
        {
            samples.push(self.samples[4 * p]);
            samples.push(self.samples[4 * p + 1]);
            samples.push(self.samples[4 * p + 2]);
            p = p + 1;
        }
        RgbImage { width: self.width, height: self.height, samples }
    }
}

/// A three-channel image held in memory: `width * height` pixels of three
/// samples each.
pub struct RgbImage {
    width: u32,
    height: u32,
    samples: Vec<u8>,
}

impl View for RgbImage {
    type V = RgbView;

    closed spec fn view(&self) -> RgbView {
        RgbView {
            width: self.width as nat,
            height: self.height as nat,
            samples: self.samples@,
        }
    }
}

impl RgbImage {
    /// What holds of every image: there are three samples for each pixel.
    #[verifier::type_invariant]
    pub open spec fn inv(&self) -> bool {
        self@.wf()
    }

    /// Makes an image of the given size from its samples. There is an image
    /// exactly when there are three samples for each pixel.
    pub fn from_raw(width: u32, height: u32, samples: Vec<u8>) -> (image: Option<RgbImage>)
        ensures
            image is Some <==> samples@.len() == 3 * (width * height),
            image matches Some(img) ==> img@.wf() && img@ == (RgbView {
                width: width as nat,
                height: height as nat,
                samples: samples@,
            }),
    {
        assert(width * height <= 0xffff_ffff * 0xffff_ffff) by (nonlinear_arith)
            requires
                0 <= width <= 0xffff_ffff,
                0 <= height <= 0xffff_ffff,
        ;
        let needed: u128 = 3 * (width as u128 * height as u128);
        if samples.len() as u128 == needed {
            Some(RgbImage { width, height, samples })
        } else {
            None
        }
    }

    /// The number of columns.
    pub fn width(&self) -> (w: u32)
        ensures
            w == self@.width,
    {
        self.width
    }

    /// The number of rows.
    pub fn height(&self) -> (h: u32)
        ensures
            h == self@.height,
    {
        self.height
    }

    /// The samples, row by row.
    pub fn as_raw(&self) -> (samples: &Vec<u8>)
        ensures
            samples@ == self@.samples,
            self@.wf(),
    {
        proof {
            use_type_invariant(self);
        }
        &self.samples
    }

    /// Gives up the image for its samples.
    pub fn into_raw(self) -> (samples: Vec<u8>)
        ensures
            samples@ == self@.samples,
    {
        self.samples
    }
}

} // verus!
