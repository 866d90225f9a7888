use vstd::prelude::*;

verus! {

/// Side of the square input the vision model takes, in pixels.
pub const INPUT_SIDE: u32 = 224;

/// Number of pixels in one model input.
pub const INPUT_PIXELS: usize = 224 * 224;

/// Bytes of a decoded 8-bit RGB model input: three per pixel.
pub const INPUT_BYTES: usize = 3 * 224 * 224;

/// The decoder's error, carried through without being looked into.
#[verifier::external_type_specification]
#[verifier::external_body]
pub struct ExImageError(image::ImageError);

/// Why an image could not be turned into model input.
#[derive(Clone, Copy, Debug, PartialEq, Eq, Structural)]
pub enum PreprocessError {
    /// The bytes are not an image in a supported raster format, or are corrupt.
    Decode,
    /// The decoded image is too wide for the resizing buffers to be addressed
    /// on this machine (only where `usize` is narrower than 64 bits).
    TooLarge,
}

/// What `image::load_from_memory` followed by `to_rgb8` yields for `bytes`:
/// width, height and interleaved RGB samples, or nothing where decoding fails.
pub uninterp spec fn decoded_rgb8(bytes: Seq<u8>) -> Option<(u32, u32, Seq<u8>)>;

/// What `image::imageops::resize` with the nearest-neighbour filter yields for
/// an RGB image of `width` x `height` held in `pixels`, resized to
/// `new_width` x `new_height`: its interleaved RGB samples.
pub uninterp spec fn nearest_resized(
    width: u32,
    height: u32,
    pixels: Seq<u8>,
    new_width: u32,
    new_height: u32,
) -> Seq<u8>;

/// Relies on `image::load_from_memory` (format guessed from the content) and
/// `DynamicImage::to_rgb8`: an image buffer holds at least three samples for
/// each of its `width * height` pixels.
#[verifier::external_body]
fn decode_rgb8(bytes: &[u8]) -> (r: Result<(u32, u32, Vec<u8>), image::ImageError>)
    ensures
        r is Ok <==> decoded_rgb8(bytes@) is Some,
        r matches Ok((w, h, px)) ==> {
            &&& decoded_rgb8(bytes@) == Some((w, h, px@))
            &&& px@.len() >= 3 * w * h
        },
{
    let rgb = image::load_from_memory(bytes)?.to_rgb8();
    Ok((rgb.width(), rgb.height(), rgb.into_raw()))
}

/// Relies on `image::imageops::resize` with `FilterType::Nearest`: the result
/// is an RGB image of exactly `new_width` x `new_height` pixels.
/// `ImageBuffer::from_raw` accepts any buffer with enough samples for the
/// stated size, which `requires` guarantees. `ImageBuffer::new` panics when
/// a buffer's length overflows `usize`: the output, and the four-channel
/// intermediate of `width` x `new_height` that resizing allocates, are kept
/// within it.
#[verifier::external_body]
fn resize_nearest(width: u32, height: u32, pixels: Vec<u8>, new_width: u32, new_height: u32) -> (r:
    Vec<u8>)
    requires
        pixels@.len() >= 3 * width * height,
        3 * new_width * new_height <= usize::MAX,
        4 * width * new_height <= usize::MAX,
    ensures
        r@ == nearest_resized(width, height, pixels@, new_width, new_height),
        r@.len() == 3 * new_width * new_height,
{
    let img = image::RgbImage::from_raw(width, height, pixels).unwrap();
    image::imageops::resize(&img, new_width, new_height, image::imageops::FilterType::Nearest).into_raw()
}

/// Channel `c` of interleaved RGB samples: sample `c` of every pixel.
pub open spec fn channel_of(rgb: Seq<u8>, c: int) -> Seq<u8> {
    Seq::new(rgb.len() / 3, |i: int| rgb[3 * i + c])
}

/// Planar layout: all red samples, then all green, then all blue.
pub open spec fn planar_of(rgb: Seq<u8>) -> Seq<u8> {
    channel_of(rgb, 0) + channel_of(rgb, 1) + channel_of(rgb, 2)
}

/// Reorders interleaved RGB samples (RGBRGB...) into planar layout
/// (RR...GG...BB...).
pub fn to_planar(rgb: &Vec<u8>) -> (r: Vec<u8>)
    requires
        rgb@.len() % 3 == 0,
    ensures
        r@ == planar_of(rgb@),
        r@.len() == rgb@.len(),
{
    let n = rgb.len();
    let p = n / 3;
    let mut r: Vec<u8> = Vec::with_capacity(rgb.len());
    let mut c: usize = 0;
    while c < 3
        invariant
            c <= 3,
            n == rgb@.len(),
            p == rgb@.len() / 3,
            rgb@.len() % 3 == 0,
            r@.len() == c * p,
            forall|j: int| 0 <= j < r@.len() ==> r@[j] == rgb@[3 * (j % p as int) + j / p as int],
        decreases 3 - c,
    {
        let mut i: usize = 0;
        while i < p
            invariant
                c < 3,
                i <= p,
                n == rgb@.len(),
                p == rgb@.len() / 3,
                rgb@.len() % 3 == 0,
                r@.len() == c * p + i,
                forall|j: int| 0 <= j < r@.len() ==> r@[j] == rgb@[3 * (j % p as int) + j / p as int],
            decreases p - i,
        {
            assert(3 * i + c < n) by (nonlinear_arith)
                requires
                    i < p,
                    c < 3,
                    p == n / 3,
            ;
            let ghost before = r@;
            r.push(rgb[3 * i + c]);
            proof {
                let j = (c * p + i) as int;
                assert(j % p as int == i && j / p as int == c) by (nonlinear_arith)
                    requires
                        j == c * p + i,
                        i < p,
                ;
            }
            i = i + 1;
        }
        proof {
            assert((c + 1) * p == c * p + p) by (nonlinear_arith);
        }
        c = c + 1;
    }
    proof {
        let ch0 = channel_of(rgb@, 0);
        let ch1 = channel_of(rgb@, 1);
        let ch2 = channel_of(rgb@, 2);
        assert forall|j: int| 0 <= j < r@.len() implies r@[j] == planar_of(rgb@)[j] by {
            assert(3 * p == 3 * p);
            if j < p {
                assert(j % p as int == j && j / p as int == 0) by (nonlinear_arith)
                    requires 0 <= j < p;
                assert(planar_of(rgb@)[j] == ch0[j]);
            } else if j < 2 * p {
                assert(j % p as int == j - p && j / p as int == 1) by (nonlinear_arith)
                    requires p <= j < 2 * p;
                assert(planar_of(rgb@)[j] == ch1[j - p]);
            } else {
                assert(j % p as int == j - 2 * p && j / p as int == 2) by (nonlinear_arith)
                    requires 2 * p <= j < 3 * p;
                assert(planar_of(rgb@)[j] == ch2[j - 2 * p]);
            }
        }
        assert(r@ =~= planar_of(rgb@));
    }
    r
}

/// Decodes an image and lays it out as the model input: resized to
/// `INPUT_SIDE` x `INPUT_SIDE` with the nearest-neighbour filter, as 8-bit
/// RGB in planar layout. Fails with `Decode` exactly where decoding fails, and
/// with `TooLarge` where the image is too wide to resize on this machine.
pub fn preprocess_image(bytes: &[u8]) -> (r: Result<Vec<u8>, PreprocessError>)
    ensures
        r matches Err(PreprocessError::Decode) <==> decoded_rgb8(bytes@) is None,
        r matches Err(PreprocessError::TooLarge) <==> (decoded_rgb8(bytes@) matches Some((w, h, px))
            && 4 * w * INPUT_SIDE > usize::MAX),
        r matches Ok(v) ==> {
            &&& decoded_rgb8(bytes@) matches Some((w, h, px))
            &&& v@ == planar_of(nearest_resized(w, h, px, INPUT_SIDE, INPUT_SIDE))
            &&& v@.len() == INPUT_BYTES
        },
{
    match decode_rgb8(bytes) {
        Ok((w, h, px)) => {
            let four_sides: usize = 4 * INPUT_SIDE as usize;
            assert(w * four_sides == 4 * w * INPUT_SIDE) by (nonlinear_arith)
                requires
                    four_sides == 4 * INPUT_SIDE,
            ;
            if (w as usize).checked_mul(four_sides).is_none() {
                return Err(PreprocessError::TooLarge);
            }
            let resized = resize_nearest(w, h, px, INPUT_SIDE, INPUT_SIDE);
            Ok(to_planar(&resized))
        },
        Err(_) => Err(PreprocessError::Decode),
    }
}

} // verus!
