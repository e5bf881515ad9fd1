//! The adaptive encoder: compresses an image to JPEG, and where a size budget
//! is given lowers the quality step by step until the output fits or the
//! quality floor is reached.

use crate::raster::{RgbImage, RgbView};
use vstd::prelude::*;

verus! {

/// The quality factor of the first attempt.
pub const START_QUALITY: u8 = 90;

/// The lowest quality factor that is attempted.
pub const FLOOR_QUALITY: u8 = 10;

/// How far the quality factor drops after an attempt that is over the budget.
pub const QUALITY_STEP: u8 = 10;

/// The largest width and the largest height that the JPEG encoder takes.
pub const MAX_JPEG_DIMENSION: u32 = 65500;

/// The bytes that the JPEG encoder gives for an image of the given size and
/// samples (three a pixel) at the given quality factor, or `None` where it
/// reports an error.
pub uninterp spec fn jpeg_encoding(width: nat, height: nat, samples: Seq<u8>, quality: nat)
    -> Option<Seq<u8>>;

/// The content of an optional byte buffer.
pub open spec fn bytes_of(buffer: Option<Vec<u8>>) -> Option<Seq<u8>> {
    match buffer {
        Some(bytes) => Some(bytes@),
        None => None,
    }
}

/// The encoder takes an image of this size: neither side is zero, and
/// neither is over the largest dimension of a JPEG image.
pub open spec fn encodable(width: nat, height: nat) -> bool {
    1 <= width <= MAX_JPEG_DIMENSION && 1 <= height <= MAX_JPEG_DIMENSION
}

/// One run of the `mozjpeg` encoder: `Compress::new` for RGB input,
/// `set_size`, `set_quality` (which takes the quality factor converted
/// without loss), `start_compress` into an empty buffer, `write_scanlines`
/// and `finish`. An error of `start_compress`, `write_scanlines` or `finish`
/// is `None`.
///
/// The contract only names the output. It claims that the encoder writes the
/// same bytes whenever it is run on the same image at the same quality
/// factor, and nothing of what those bytes are.
///
/// The encoder aborts on an image with an empty side or with a side of more
/// than 65500 pixels, and it reads `width * height` pixels from the samples:
/// the precondition keeps such calls out.
#[verifier::external_body]
fn encode_jpeg(width: u32, height: u32, samples: &Vec<u8>, quality: u8) -> (encoded: Option<
    Vec<u8>,
>)
    requires
        encodable(width as nat, height as nat),
        samples@.len() == 3 * (width * height),
    ensures
        bytes_of(encoded) == jpeg_encoding(width as nat, height as nat, samples@, quality as nat),
{
    let mut compress = mozjpeg::Compress::new(mozjpeg::ColorSpace::JCS_RGB);
    compress.set_size(width as usize, height as usize);
    compress.set_quality(quality.into());
    let mut started = compress.start_compress(Vec::new()).ok()?;
    started.write_scanlines(samples).ok()?;
    started.finish().ok()
}

/// An output of `len` bytes at quality factor `quality` ends the search: there
/// is no budget, or the output is within the budget of `max_size_kb` times
/// 1024 bytes, or the quality has reached the floor.
pub open spec fn accepts(len: nat, max_size_kb: Option<u64>, quality: nat) -> bool {
    match max_size_kb {
        None => true,
        Some(kb) => len <= kb * 1024 || quality <= FLOOR_QUALITY,
    }
}

/// The quality factor that is tried after `quality`: one step lower, but not
/// below the floor.
pub open spec fn lowered(quality: nat) -> nat {
    if quality >= FLOOR_QUALITY + QUALITY_STEP {
        (quality - QUALITY_STEP) as nat
    } else {
        FLOOR_QUALITY as nat
    }
}

/// What follows an attempt.
#[derive(Debug, PartialEq, Eq)]
pub enum Step {
    /// The output of the attempt is the result.
    Accepted(Vec<u8>),
    /// The output was over the budget: try again at this quality factor.
    Retry(u8),
    /// The encoder failed: there is no result.
    Failed,
}

/// Decides what follows an attempt at quality factor `quality` that ended in
/// `outcome`: a failed attempt fails the search, an output that `accepts`
/// holds of is the result, and any other output asks for the next lower
/// quality.
pub fn judge_attempt(quality: u8, max_size_kb: Option<u64>, outcome: Option<Vec<u8>>) -> (step:
    Step)
    ensures
        outcome is None ==> step is Failed,
        outcome matches Some(bytes) ==> step == if accepts(
            bytes@.len(),
            max_size_kb,
            quality as nat,
        ) {
            Step::Accepted(bytes)
        } else {
            Step::Retry(lowered(quality as nat) as u8)
        },
{
    match outcome {
        None => Step::Failed,
        Some(bytes) => {
            match max_size_kb {
                None => Step::Accepted(bytes),
                Some(kb) => {
                    if bytes.len() as u128 <= kb as u128 * 1024 || quality <= FLOOR_QUALITY {
                        Step::Accepted(bytes)
                    } else if quality >= FLOOR_QUALITY + QUALITY_STEP {
                        Step::Retry(quality - QUALITY_STEP)
                    } else {
                        Step::Retry(FLOOR_QUALITY)
                    }
                },
            }
        },
    }
}

/// The result of the search that starts at quality factor `quality`: the
/// first output that `accepts` holds of, or `None` as soon as the encoder
/// fails.
pub open spec fn search_from(
    width: nat,
    height: nat,
    samples: Seq<u8>,
    max_size_kb: Option<u64>,
    quality: nat,
) -> Option<Seq<u8>>
    decreases quality,
{
    match jpeg_encoding(width, height, samples, quality) {
        None => None,
        Some(bytes) => if accepts(bytes.len(), max_size_kb, quality) {
            Some(bytes)
        } else {
            search_from(width, height, samples, max_size_kb, lowered(quality))
        },
    }
}

/// The quality factors that the search from `quality` attempts, in order.
pub open spec fn attempts_from(
    width: nat,
    height: nat,
    samples: Seq<u8>,
    max_size_kb: Option<u64>,
    quality: nat,
) -> Seq<nat>
    decreases quality,
{
    match jpeg_encoding(width, height, samples, quality) {
        None => seq![quality],
        Some(bytes) => if accepts(bytes.len(), max_size_kb, quality) {
            seq![quality]
        } else {
            seq![quality] + attempts_from(width, height, samples, max_size_kb, lowered(quality))
        },
    }
}

/// The compressed form of `image` under the budget `max_size_kb`: the result
/// of the search from the start quality where the encoder takes an image of
/// this size, and nothing where it does not.
pub open spec fn compressed(image: RgbView, max_size_kb: Option<u64>) -> Option<Seq<u8>> {
    if encodable(image.width, image.height) {
        search_from(image.width, image.height, image.samples, max_size_kb, START_QUALITY as nat)
    } else {
        None
    }
}

/// The quality factors attempted for `image` under the budget `max_size_kb`.
pub open spec fn attempted(image: RgbView, max_size_kb: Option<u64>) -> Seq<nat> {
    if encodable(image.width, image.height) {
        attempts_from(image.width, image.height, image.samples, max_size_kb, START_QUALITY as nat)
    } else {
        Seq::empty()
    }
}

/// What a search gave, and how it went.
#[derive(Debug, PartialEq, Eq)]
pub struct Compression {
    /// The compressed image, or `None` where the encoder failed.
    pub bytes: Option<Vec<u8>>,
    /// The quality factors that were attempted, in order.
    pub attempts: Vec<u8>,
}

/// Searches for the quality at which `image` fits the budget, and reports the
/// result together with the quality factors that were attempted.
pub fn search_quality(image: &RgbImage, max_size_kb: Option<u64>) -> (found: Compression)
    ensures
        bytes_of(found.bytes) == compressed(image@, max_size_kb),
        found.attempts@.map_values(|q: u8| q as nat) == attempted(image@, max_size_kb),
{
    let width: u32 = image.width();
    let height: u32 = image.height();
    let mut attempts: Vec<u8> = Vec::new();
    if width == 0 || height == 0 || width > MAX_JPEG_DIMENSION || height > MAX_JPEG_DIMENSION {
        assert(attempts@.map_values(|q: u8| q as nat) =~= Seq::<nat>::empty());
        return Compression { bytes: None, attempts };
    }
    let samples = image.as_raw();
    let mut quality: u8 = START_QUALITY;
    loop
        invariant
            FLOOR_QUALITY <= quality <= START_QUALITY,
            encodable(width as nat, height as nat),
            width == image@.width,
            height == image@.height,
            samples@ == image@.samples,
            samples@.len() == 3 * (width * height),
            compressed(image@, max_size_kb) == search_from(
                width as nat,
                height as nat,
                samples@,
                max_size_kb,
                quality as nat,
            ),
            attempted(image@, max_size_kb) == attempts@.map_values(|q: u8| q as nat)
                + attempts_from(width as nat, height as nat, samples@, max_size_kb, quality as nat),
        decreases quality,
    {
        let ghost tried = attempts@.map_values(|q: u8| q as nat);
        attempts.push(quality);
        assert(attempts@.map_values(|q: u8| q as nat) =~= tried + seq![quality as nat]);
        let outcome = encode_jpeg(width, height, samples, quality);
        match judge_attempt(quality, max_size_kb, outcome) {
            Step::Accepted(bytes) => {
                return Compression { bytes: Some(bytes), attempts };
            },
            Step::Failed => {
                return Compression { bytes: None, attempts };
            },
            Step::Retry(next) => {
                assert(tried + (seq![quality as nat] + attempts_from(
                    width as nat,
                    height as nat,
                    samples@,
                    max_size_kb,
                    next as nat,
                )) =~= attempts@.map_values(|q: u8| q as nat) + attempts_from(
                    width as nat,
                    height as nat,
                    samples@,
                    max_size_kb,
                    next as nat,
                ));
                quality = next;
            },
        }
    }
}

/// Compresses `image` to JPEG. Without a budget the output at the start
/// quality is the result. With one, the quality drops by one step after each
/// output that is over the budget, and the first output that is within it, or
/// else the output at the floor quality, is the result. There is no result
/// where the encoder fails or does not take an image of this size.
pub fn compress_to_jpeg_with_limit(image: &RgbImage, max_size_kb: Option<u64>) -> (output: Option<
    Vec<u8>,
>)
    ensures
        bytes_of(output) == compressed(image@, max_size_kb),
{
    search_quality(image, max_size_kb).bytes
}

/// The attempt at quality factor `quality` is the last one of its search: the
/// encoder failed, or `accepts` holds of its output.
pub open spec fn ends_search(
    width: nat,
    height: nat,
    samples: Seq<u8>,
    max_size_kb: Option<u64>,
    quality: nat,
) -> bool {
    match jpeg_encoding(width, height, samples, quality) {
        None => true,
        Some(bytes) => accepts(bytes.len(), max_size_kb, quality),
    }
}

/// The attempts of a search from a quality factor that is the floor plus
/// whole steps go down by one step each, and only the last of them ends the
/// search.
proof fn lemma_attempts_from(
    width: nat,
    height: nat,
    samples: Seq<u8>,
    max_size_kb: Option<u64>,
    quality: nat,
)
    requires
        quality >= FLOOR_QUALITY,
        (quality - FLOOR_QUALITY) % (QUALITY_STEP as int) == 0,
    ensures
        ({
            let attempts = attempts_from(width, height, samples, max_size_kb, quality);
            &&& 1 <= attempts.len() <= (quality - FLOOR_QUALITY) / (QUALITY_STEP as int) + 1
            &&& forall|i: int|
                0 <= i < attempts.len() ==> #[trigger] attempts[i] == quality - QUALITY_STEP * i
            &&& forall|i: int|
                0 <= i < attempts.len() ==> (ends_search(
                    width,
                    height,
                    samples,
                    max_size_kb,
                    #[trigger] attempts[i],
                ) <==> i == attempts.len() - 1)
        }),
    decreases quality,
{
    let attempts = attempts_from(width, height, samples, max_size_kb, quality);
    if !ends_search(width, height, samples, max_size_kb, quality) {
        let rest = attempts_from(width, height, samples, max_size_kb, lowered(quality));
        lemma_attempts_from(width, height, samples, max_size_kb, lowered(quality));
        assert(attempts =~= seq![quality] + rest);
        assert forall|i: int| 0 <= i < attempts.len() implies #[trigger] attempts[i] == quality
            - QUALITY_STEP * i && (ends_search(width, height, samples, max_size_kb, attempts[i])
            <==> i == attempts.len() - 1) by {
            if i > 0 {
                assert(attempts[i] == rest[i - 1]);
            }
        }
    }
}

/// The search starts at quality factor 90 and makes at most nine attempts.
/// Each attempt after the first is at a quality factor exactly 10 below the
/// one before it, so none is above 90 and none below 10. Every attempt but
/// the last gave an output over the budget, and the last one failed or gave
/// the result. Without a budget there is one attempt. For an image that the
/// encoder does not take there is none.
pub proof fn lemma_attempts_descend(image: RgbView, max_size_kb: Option<u64>)
    ensures
        ({
            let attempts = attempted(image, max_size_kb);
            &&& attempts.len() <= 9
            &&& attempts.len() >= 1 <==> encodable(image.width, image.height)
            &&& attempts.len() >= 1 ==> attempts[0] == START_QUALITY
            &&& forall|i: int|
                0 <= i < attempts.len() ==> FLOOR_QUALITY <= #[trigger] attempts[i]
                    <= START_QUALITY
            &&& forall|i: int|
                0 < i < attempts.len() ==> #[trigger] attempts[i] == attempts[i - 1] - QUALITY_STEP
            &&& forall|i: int|
                0 <= i < attempts.len() ==> (ends_search(
                    image.width,
                    image.height,
                    image.samples,
                    max_size_kb,
                    #[trigger] attempts[i],
                ) <==> i == attempts.len() - 1)
            &&& max_size_kb is None ==> attempts.len() <= 1
        }),
{
    if encodable(image.width, image.height) {
        lemma_attempts_from(
            image.width,
            image.height,
            image.samples,
            max_size_kb,
            START_QUALITY as nat,
        );
        let attempts = attempted(image, max_size_kb);
        assert forall|i: int| 0 < i < attempts.len() implies #[trigger] attempts[i] == attempts[i
            - 1] - QUALITY_STEP by {
            assert(attempts[i - 1] == START_QUALITY - QUALITY_STEP * (i - 1));
        }
    }
}

/// The result of a search from a quality factor at or above the floor is
/// within the budget or is the output at the floor quality.
proof fn lemma_search_from(
    width: nat,
    height: nat,
    samples: Seq<u8>,
    kb: u64,
    quality: nat,
)
    requires
        quality >= FLOOR_QUALITY,
    ensures
        search_from(width, height, samples, Some(kb), quality) matches Some(bytes) ==> bytes.len()
            <= kb * 1024 || Some(bytes) == jpeg_encoding(
            width,
            height,
            samples,
            FLOOR_QUALITY as nat,
        ),
    decreases quality,
{
    if !ends_search(width, height, samples, Some(kb), quality) {
        lemma_search_from(width, height, samples, kb, lowered(quality));
    }
}

/// With a budget, the output is no longer than the budget times 1024 bytes,
/// unless it is the output at the floor quality, which is the result however
/// long it is.
pub proof fn lemma_within_budget_or_floor(image: RgbView, kb: u64)
    ensures
        compressed(image, Some(kb)) matches Some(bytes) ==> bytes.len() <= kb * 1024 || Some(bytes)
            == jpeg_encoding(image.width, image.height, image.samples, FLOOR_QUALITY as nat),
{
    lemma_search_from(image.width, image.height, image.samples, kb, START_QUALITY as nat);
}

/// Without a budget, the output at the start quality is the result.
pub proof fn lemma_without_budget(image: RgbView)
    ensures
        compressed(image, None) == if encodable(image.width, image.height) {
            jpeg_encoding(image.width, image.height, image.samples, START_QUALITY as nat)
        } else {
            None
        },
{
}

} // verus!
