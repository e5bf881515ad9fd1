use image_combine::composer::{canvas_size, compose};
use image_combine::merge::merge_decoded;
use image_combine::raster::{Rgba, RgbaImage, RgbImage};

const RED: Rgba = Rgba { r: 255, g: 0, b: 0, a: 255 };
const GREEN: Rgba = Rgba { r: 0, g: 255, b: 0, a: 255 };
const BLUE: Rgba = Rgba { r: 0, g: 0, b: 255, a: 128 };
const WHITE: Rgba = Rgba { r: 255, g: 255, b: 255, a: 255 };

fn rows_of(canvas: &RgbaImage) -> Vec<Vec<Rgba>> {
    (0..canvas.height())
        .map(|y| (0..canvas.width()).map(|x| canvas.get_pixel(x, y)).collect())
        .collect()
}

#[test]
fn white_is_opaque_white() {
    assert_eq!(Rgba::white(), WHITE);
}

#[test]
fn from_raw_wants_four_samples_a_pixel() {
    assert!(RgbaImage::from_raw(2, 3, vec![0; 24]).is_some());
    assert!(RgbaImage::from_raw(2, 3, vec![0; 23]).is_none());
    assert!(RgbaImage::from_raw(2, 3, vec![0; 25]).is_none());
    assert!(RgbaImage::from_raw(0, 3, vec![]).is_some());
    assert!(RgbaImage::from_raw(0, 0, vec![1]).is_none());
    assert!(RgbaImage::from_raw(u32::MAX, u32::MAX, vec![0; 4]).is_none());
}

#[test]
fn from_raw_keeps_size_and_samples() {
    let samples: Vec<u8> = (0..24).collect();
    let image = RgbaImage::from_raw(3, 2, samples.clone()).unwrap();
    assert_eq!((image.width(), image.height()), (3, 2));
    assert_eq!(image.as_raw(), &samples);
    assert_eq!(image.get_pixel(0, 0), Rgba { r: 0, g: 1, b: 2, a: 3 });
    assert_eq!(image.get_pixel(2, 0), Rgba { r: 8, g: 9, b: 10, a: 11 });
    assert_eq!(image.get_pixel(1, 1), Rgba { r: 16, g: 17, b: 18, a: 19 });
    assert_eq!(image.into_raw(), samples);
}

#[test]
fn rgb_from_raw_wants_three_samples_a_pixel() {
    let image = RgbImage::from_raw(2, 2, (0..12).collect()).unwrap();
    assert_eq!((image.width(), image.height()), (2, 2));
    assert_eq!(image.as_raw(), &(0..12).collect::<Vec<u8>>());
    assert_eq!(image.into_raw().len(), 12);
    assert!(RgbImage::from_raw(2, 2, vec![0; 16]).is_none());
    assert!(RgbImage::from_raw(2, 2, vec![0; 11]).is_none());
}

#[test]
fn from_pixel_fills_every_pixel() {
    let image = RgbaImage::from_pixel(3, 2, BLUE);
    assert_eq!((image.width(), image.height()), (3, 2));
    assert_eq!(
        image.as_raw(),
        &vec![0, 0, 255, 128, 0, 0, 255, 128, 0, 0, 255, 128, 0, 0, 255, 128, 0, 0, 255, 128, 0, 0, 255, 128]
    );
    assert!(RgbaImage::from_pixel(0, 5, BLUE).as_raw().is_empty());
}

#[test]
fn put_pixel_overwrites_one_pixel() {
    let image = RgbaImage::from_pixel(3, 2, WHITE);
    let image = image.put_pixel(2, 1, RED);
    let image = image.put_pixel(0, 0, BLUE);
    assert_eq!(
        rows_of(&image),
        vec![vec![BLUE, WHITE, WHITE], vec![WHITE, WHITE, RED]]
    );
    let image = image.put_pixel(2, 1, GREEN);
    assert_eq!(image.get_pixel(2, 1), GREEN);
    assert_eq!(image.as_raw().len(), 24);
}

#[test]
fn to_rgb_drops_every_fourth_sample() {
    let image = RgbaImage::from_raw(2, 1, vec![1, 2, 3, 4, 5, 6, 7, 8]).unwrap();
    let rgb = image.to_rgb();
    assert_eq!((rgb.width(), rgb.height()), (2, 1));
    assert_eq!(rgb.as_raw(), &vec![1, 2, 3, 5, 6, 7]);
    let empty = RgbaImage::from_raw(0, 0, vec![]).unwrap().to_rgb();
    assert!(empty.as_raw().is_empty());
}

#[test]
fn two_images_of_one_width_stack_in_order() {
    let a = RgbaImage::from_pixel(2, 2, RED);
    let b = RgbaImage::from_pixel(2, 3, GREEN);
    let canvas = compose(&vec![a, b]);
    assert_eq!((canvas.width(), canvas.height()), (2, 5));
    assert_eq!(
        rows_of(&canvas),
        vec![
            vec![RED, RED],
            vec![RED, RED],
            vec![GREEN, GREEN],
            vec![GREEN, GREEN],
            vec![GREEN, GREEN],
        ]
    );
}

#[test]
fn canvas_is_as_wide_as_the_widest_and_as_tall_as_all() {
    let images = vec![
        RgbaImage::from_pixel(3, 1, RED),
        RgbaImage::from_pixel(1, 2, GREEN),
        RgbaImage::from_pixel(2, 3, BLUE),
    ];
    assert_eq!(canvas_size(&images), Some((3, 6)));
    let canvas = compose(&images);
    assert_eq!((canvas.width(), canvas.height()), (3, 6));
    assert_eq!(canvas.as_raw().len(), 72);
}

#[test]
fn narrow_images_are_padded_with_white_on_the_right() {
    let images = vec![
        RgbaImage::from_pixel(1, 1, RED),
        RgbaImage::from_pixel(3, 1, BLUE),
        RgbaImage::from_pixel(2, 2, GREEN),
    ];
    let canvas = compose(&images);
    assert_eq!(
        rows_of(&canvas),
        vec![
            vec![RED, WHITE, WHITE],
            vec![BLUE, BLUE, BLUE],
            vec![GREEN, GREEN, WHITE],
            vec![GREEN, GREEN, WHITE],
        ]
    );
}

#[test]
fn pixels_are_copied_with_their_alpha() {
    let clear = Rgba { r: 7, g: 8, b: 9, a: 0 };
    let image = RgbaImage::from_pixel(2, 1, clear).put_pixel(1, 0, BLUE);
    let canvas = compose(&vec![image]);
    assert_eq!(rows_of(&canvas), vec![vec![clear, BLUE]]);
}

#[test]
fn reordering_moves_the_bands_and_keeps_the_size() {
    let make = |order: [usize; 3]| {
        let pool = [(3u32, 1u32, RED), (1, 2, GREEN), (2, 3, BLUE)];
        order
            .iter()
            .map(|&i| RgbaImage::from_pixel(pool[i].0, pool[i].1, pool[i].2))
            .collect::<Vec<_>>()
    };
    let forward = compose(&make([0, 1, 2]));
    let backward = compose(&make([2, 1, 0]));
    assert_eq!((forward.width(), forward.height()), (3, 6));
    assert_eq!((backward.width(), backward.height()), (3, 6));
    assert_eq!(canvas_size(&make([1, 2, 0])), Some((3, 6)));
    assert_eq!(forward.get_pixel(0, 0), RED);
    assert_eq!(forward.get_pixel(0, 1), GREEN);
    assert_eq!(forward.get_pixel(0, 3), BLUE);
    assert_eq!(backward.get_pixel(0, 0), BLUE);
    assert_eq!(backward.get_pixel(0, 3), GREEN);
    assert_eq!(backward.get_pixel(0, 5), RED);
    assert_ne!(forward.as_raw(), backward.as_raw());
}

#[test]
fn an_image_without_rows_takes_no_band() {
    let images = vec![
        RgbaImage::from_pixel(2, 1, RED),
        RgbaImage::from_pixel(5, 0, GREEN),
        RgbaImage::from_pixel(2, 1, BLUE),
    ];
    let canvas = compose(&images);
    assert_eq!((canvas.width(), canvas.height()), (5, 2));
    assert_eq!(
        rows_of(&canvas),
        vec![
            vec![RED, RED, WHITE, WHITE, WHITE],
            vec![BLUE, BLUE, WHITE, WHITE, WHITE],
        ]
    );
}

#[test]
fn no_images_give_an_empty_canvas() {
    assert_eq!(canvas_size(&Vec::new()), Some((0, 0)));
    let canvas = compose(&Vec::new());
    assert_eq!((canvas.width(), canvas.height()), (0, 0));
    assert!(canvas.as_raw().is_empty());
}

#[test]
fn a_height_beyond_the_type_has_no_canvas() {
    let tall = || RgbaImage::from_raw(0, 3_000_000_000, Vec::new()).unwrap();
    assert_eq!(canvas_size(&vec![tall()]), Some((0, 3_000_000_000)));
    assert_eq!(canvas_size(&vec![tall(), tall()]), None);
    assert_eq!(merge_decoded(&vec![tall(), tall()], None), None);
}
