use image_combine::encoder::{
    compress_to_jpeg_with_limit, judge_attempt, search_quality, Step, FLOOR_QUALITY,
    MAX_JPEG_DIMENSION, QUALITY_STEP, START_QUALITY,
};
use image_combine::raster::RgbImage;

/// A deterministic image without flat areas, so that its JPEG form is large.
fn noisy(width: u32, height: u32) -> RgbImage {
    let mut state: u32 = 0x9e37_79b9;
    let samples = (0..3 * width as usize * height as usize)
        .map(|_| {
            state ^= state << 13;
            state ^= state >> 17;
            state ^= state << 5;
            (state >> 24) as u8
        })
        .collect();
    RgbImage::from_raw(width, height, samples).unwrap()
}

fn flat(width: u32, height: u32, value: u8) -> RgbImage {
    RgbImage::from_raw(width, height, vec![value; 3 * width as usize * height as usize]).unwrap()
}

#[test]
fn the_constants_of_the_search() {
    assert_eq!(START_QUALITY, 90);
    assert_eq!(FLOOR_QUALITY, 10);
    assert_eq!(QUALITY_STEP, 10);
    assert_eq!(MAX_JPEG_DIMENSION, 65500);
}

#[test]
fn a_failed_attempt_fails_the_search() {
    assert_eq!(judge_attempt(90, None, None), Step::Failed);
    assert_eq!(judge_attempt(90, Some(500), None), Step::Failed);
    assert_eq!(judge_attempt(10, Some(0), None), Step::Failed);
}

#[test]
fn without_a_budget_any_output_is_accepted() {
    assert_eq!(judge_attempt(90, None, Some(vec![1, 2, 3])), Step::Accepted(vec![1, 2, 3]));
    assert_eq!(judge_attempt(90, None, Some(vec![0; 100_000])), Step::Accepted(vec![0; 100_000]));
    assert_eq!(judge_attempt(90, None, Some(Vec::new())), Step::Accepted(Vec::new()));
}

#[test]
fn the_budget_counts_kilobytes_of_1024_bytes() {
    assert_eq!(judge_attempt(90, Some(1), Some(vec![7; 1024])), Step::Accepted(vec![7; 1024]));
    assert_eq!(judge_attempt(90, Some(1), Some(vec![7; 1025])), Step::Retry(80));
    assert_eq!(judge_attempt(90, Some(2), Some(vec![7; 2048])), Step::Accepted(vec![7; 2048]));
    assert_eq!(judge_attempt(90, Some(2), Some(vec![7; 2049])), Step::Retry(80));
    assert_eq!(judge_attempt(90, Some(0), Some(Vec::new())), Step::Accepted(Vec::new()));
    assert_eq!(judge_attempt(90, Some(0), Some(vec![7])), Step::Retry(80));
}

#[test]
fn a_budget_too_large_to_multiply_is_never_exceeded() {
    assert_eq!(judge_attempt(90, Some(u64::MAX), Some(vec![7; 4096])), Step::Accepted(vec![7; 4096]));
    assert_eq!(judge_attempt(50, Some(u64::MAX / 1024 + 1), Some(vec![7; 10])), Step::Accepted(vec![7; 10]));
}

#[test]
fn each_retry_is_ten_lower() {
    let over = || Some(vec![0u8; 5000]);
    assert_eq!(judge_attempt(90, Some(1), over()), Step::Retry(80));
    assert_eq!(judge_attempt(80, Some(1), over()), Step::Retry(70));
    assert_eq!(judge_attempt(70, Some(1), over()), Step::Retry(60));
    assert_eq!(judge_attempt(60, Some(1), over()), Step::Retry(50));
    assert_eq!(judge_attempt(50, Some(1), over()), Step::Retry(40));
    assert_eq!(judge_attempt(40, Some(1), over()), Step::Retry(30));
    assert_eq!(judge_attempt(30, Some(1), over()), Step::Retry(20));
    assert_eq!(judge_attempt(20, Some(1), over()), Step::Retry(10));
}

#[test]
fn at_the_floor_an_output_over_the_budget_is_accepted() {
    assert_eq!(judge_attempt(10, Some(1), Some(vec![0; 5000])), Step::Accepted(vec![0; 5000]));
    assert_eq!(judge_attempt(5, Some(1), Some(vec![0; 5000])), Step::Accepted(vec![0; 5000]));
    assert_eq!(judge_attempt(0, Some(0), Some(vec![0; 1])), Step::Accepted(vec![0; 1]));
}

#[test]
fn a_retry_never_goes_below_the_floor() {
    assert_eq!(judge_attempt(19, Some(1), Some(vec![0; 5000])), Step::Retry(10));
    assert_eq!(judge_attempt(11, Some(1), Some(vec![0; 5000])), Step::Retry(10));
    assert_eq!(judge_attempt(255, Some(1), Some(vec![0; 5000])), Step::Retry(245));
}

#[test]
fn without_a_budget_there_is_one_attempt_at_the_start_quality() {
    let found = search_quality(&noisy(64, 64), None);
    assert_eq!(found.attempts, vec![90]);
    let bytes = found.bytes.expect("the encoder takes a 64 by 64 image");
    assert_eq!(&bytes[..2], &[0xff, 0xd8]);
    assert_eq!(&bytes[bytes.len() - 2..], &[0xff, 0xd9]);
}

#[test]
fn the_output_is_a_jpeg_image_of_the_same_size() {
    let image = noisy(33, 17);
    let bytes = compress_to_jpeg_with_limit(&image, None).unwrap();
    assert_ne!(&bytes, image.as_raw());
    let decoded = image::load_from_memory(&bytes).unwrap();
    assert_eq!((decoded.width(), decoded.height()), (33, 17));
    let flat_bytes = compress_to_jpeg_with_limit(&flat(16, 16, 200), None).unwrap();
    let decoded = image::load_from_memory(&flat_bytes).unwrap().to_rgb8();
    let pixel = decoded.get_pixel(8, 8).0;
    assert!(pixel.iter().all(|&c| (195..=205).contains(&c)), "{:?}", pixel);
}

#[test]
fn a_budget_that_the_first_output_meets_needs_one_attempt() {
    let found = search_quality(&flat(32, 32, 128), Some(1000));
    assert_eq!(found.attempts, vec![90]);
    assert!(found.bytes.unwrap().len() <= 1000 * 1024);
}

#[test]
fn a_budget_of_nothing_walks_down_to_the_floor() {
    let image = noisy(64, 64);
    let found = search_quality(&image, Some(0));
    assert_eq!(found.attempts, vec![90, 80, 70, 60, 50, 40, 30, 20, 10]);
    let bytes = found.bytes.expect("the output at the floor is the result");
    assert!(!bytes.is_empty());
    let first = compress_to_jpeg_with_limit(&image, None).unwrap();
    assert!(bytes.len() < first.len());
}

#[test]
fn the_search_stops_at_the_first_output_within_the_budget() {
    let image = noisy(128, 128);
    let first = compress_to_jpeg_with_limit(&image, None).unwrap();
    let floor = compress_to_jpeg_with_limit(&image, Some(0)).unwrap();
    let budget_kb = (floor.len() as u64 + first.len() as u64) / 2 / 1024 + 1;
    assert!(budget_kb * 1024 < first.len() as u64);
    let found = search_quality(&image, Some(budget_kb));
    let bytes = found.bytes.unwrap();
    assert!(bytes.len() as u64 <= budget_kb * 1024);
    let n = found.attempts.len();
    assert!(n >= 2 && n <= 9);
    let expected: Vec<u8> = (0..n as u8).map(|i| 90 - 10 * i).collect();
    assert_eq!(found.attempts, expected);
    assert_eq!(compress_to_jpeg_with_limit(&image, Some(budget_kb)), Some(bytes));
}

#[test]
fn an_image_with_an_empty_side_is_not_encoded() {
    let none = search_quality(&RgbImage::from_raw(0, 0, Vec::new()).unwrap(), None);
    assert_eq!(none.bytes, None);
    assert!(none.attempts.is_empty());
    assert_eq!(compress_to_jpeg_with_limit(&RgbImage::from_raw(0, 9, Vec::new()).unwrap(), None), None);
    assert_eq!(compress_to_jpeg_with_limit(&RgbImage::from_raw(9, 0, Vec::new()).unwrap(), Some(5)), None);
}

#[test]
fn the_largest_jpeg_dimension_is_the_limit() {
    assert!(compress_to_jpeg_with_limit(&flat(65500, 1, 255), None).is_some());
    assert_eq!(compress_to_jpeg_with_limit(&flat(65501, 1, 255), None), None);
    assert!(compress_to_jpeg_with_limit(&flat(1, 65500, 255), None).is_some());
    assert_eq!(compress_to_jpeg_with_limit(&flat(1, 65501, 255), None), None);
}

#[test]
fn small_images_of_every_shape_are_encoded_at_every_quality() {
    for width in 1..=18u32 {
        for height in 1..=18u32 {
            let found = search_quality(&noisy(width, height), Some(0));
            assert_eq!(found.attempts, vec![90, 80, 70, 60, 50, 40, 30, 20, 10]);
            let bytes = found.bytes.expect("every attempt gives an output");
            let decoded = image::load_from_memory(&bytes).unwrap();
            assert_eq!((decoded.width(), decoded.height()), (width, height));
        }
    }
}

#[test]
fn a_lower_quality_gives_a_shorter_output_for_a_noisy_image() {
    let image = noisy(96, 96);
    let first = compress_to_jpeg_with_limit(&image, None).unwrap();
    let floor = compress_to_jpeg_with_limit(&image, Some(0)).unwrap();
    let between = compress_to_jpeg_with_limit(&image, Some(first.len() as u64 / 1024)).unwrap();
    assert!(floor.len() <= between.len());
    assert!(between.len() < first.len());
}
