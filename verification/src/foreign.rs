//! The calls into other crates, and into parts of the standard library that
//! carry no specification of their own.
//!
//! Each function here makes one such call. Its contract is believed rather
//! than proved, so each says in words what it claims and of which function.

use vstd::prelude::*;
use base64::engine::general_purpose::{STANDARD, URL_SAFE_NO_PAD};
use base64::Engine;
use hmac::{Hmac, KeyInit, Mac};
use image::codecs::png::PngEncoder;
use image::imageops::FilterType;
use image::{ExtendedColorType, ImageEncoder, ImageFormat, RgbImage};
use sha2::Sha256;
use std::time::UNIX_EPOCH;
use unicode_normalization::UnicodeNormalization;

verus! {

/// `String::push` appends one character.
pub assume_specification[ String::push ](s: &mut String, c: char)
    ensures
        final(s)@ == old(s)@.push(c),
;

/// What `str::to_lowercase` makes of a string: full Unicode lowercasing.
pub uninterp spec fn lowercase(s: Seq<char>) -> Seq<char>;

/// `str::to_lowercase`. The claim is that the result is a function of the
/// characters alone; no locale takes part.
#[verifier::external_body]
pub(crate) fn to_lowercase(s: &str) -> (r: String)
    ensures
        r@ == lowercase(s@),
{
    s.to_lowercase()
}

/// A string as `{:?}` shows it: in double quotes, with escapes.
pub uninterp spec fn quoted(s: Seq<char>) -> Seq<char>;

/// The `Debug` form of a `str`, written by `format!`. The claim is that the
/// result is a function of the characters alone.
#[verifier::external_body]
pub(crate) fn to_quoted(s: &str) -> (r: String)
    ensures
        r@ == quoted(s@),
{
    format!("{s:?}")
}

/// The Unicode normalisation form KC of a string.
pub uninterp spec fn nfkc(s: Seq<char>) -> Seq<char>;

/// `unicode_normalization::UnicodeNormalization::nfkc`, collected into a
/// string. The claim is that the result is a function of the characters alone.
#[verifier::external_body]
pub(crate) fn to_nfkc(s: &str) -> (r: String)
    ensures
        r@ == nfkc(s@),
{
    s.nfkc().collect()
}

/// The unpadded URL-safe base64 text of some bytes.
pub uninterp spec fn base64url(data: Seq<u8>) -> Seq<char>;

/// What unpadded URL-safe base64 text stands for, if it is well formed.
pub uninterp spec fn from_base64url(text: Seq<char>) -> Option<Seq<u8>>;

/// `base64::Engine::encode` of the engine `URL_SAFE_NO_PAD`. The claims are
/// that the text is a function of the bytes, that the alphabet holds no dot,
/// and that decoding gives the bytes back. Inputs near the size of the address
/// space, on which the crate panics, are left out.
#[verifier::external_body]
pub(crate) fn base64url_encode(data: &[u8]) -> (r: String)
    requires
        data@.len() <= 0x1000_0000,
    ensures
        r@ == base64url(data@),
        !r@.contains('.'),
        from_base64url(r@) == Some(data@),
{
    URL_SAFE_NO_PAD.encode(data)
}

/// `base64::Engine::decode` of the engine `URL_SAFE_NO_PAD`. The claim is that
/// the outcome is a function of the text; why a text is malformed is dropped.
#[verifier::external_body]
pub(crate) fn base64url_decode(text: &str) -> (r: Option<Vec<u8>>)
    ensures
        match r {
            Some(data) => from_base64url(text@) == Some(data@),
            None => from_base64url(text@) is None,
        },
{
    URL_SAFE_NO_PAD.decode(text).ok()
}

/// The padded base64 text of some bytes, in the standard alphabet.
pub uninterp spec fn base64(data: Seq<u8>) -> Seq<char>;

/// `base64::Engine::encode` of the engine `STANDARD`. The claim is that the text
/// is a function of the bytes. Inputs whose text would not fit in the address
/// space, on which the crate panics, are left out.
#[verifier::external_body]
pub(crate) fn base64_encode(data: &[u8]) -> (r: String)
    requires
        data@.len() <= isize::MAX / 2,
    ensures
        r@ == base64(data@),
{
    STANDARD.encode(data)
}

/// The HMAC-SHA-256 code of some data under a key.
pub uninterp spec fn hmac_sha256(key: Seq<u8>, data: Seq<u8>) -> Seq<u8>;

/// `hmac::Hmac<Sha256>` made from the key, fed the data and finalised. The
/// claims are that the code is a function of key and data and has 32 bytes.
/// The constructor accepts a key of any length.
#[verifier::external_body]
pub(crate) fn hmac_code(key: &[u8], data: &[u8]) -> (r: Vec<u8>)
    ensures
        r@ == hmac_sha256(key@, data@),
        r@.len() == 32,
{
    let mut mac = Hmac::<Sha256>::new_from_slice(key).expect("a key of any length is accepted");
    mac.update(data);
    mac.finalize().into_bytes().to_vec()
}

/// `hmac::Mac::verify_truncated_left` on `hmac::Hmac<Sha256>`. The claim is
/// that a tag passes exactly when it is the code or a non-empty prefix of it.
#[verifier::external_body]
pub(crate) fn hmac_accepts(key: &[u8], data: &[u8], tag: &[u8]) -> (r: bool)
    ensures
        r == (1 <= tag@.len() <= 32 && tag@ == hmac_sha256(key@, data@).take(tag@.len() as int)),
{
    let mut mac = Hmac::<Sha256>::new_from_slice(key).expect("a key of any length is accepted");
    mac.update(data);
    mac.verify_truncated_left(tag).is_ok()
}

/// The error of the random number source.
#[verifier::external_type_specification]
#[verifier::external_body]
pub struct ExGetrandomError(getrandom::Error);

/// `getrandom::fill` overwrites the buffer with random bytes. Nothing is
/// claimed of their values, only that the buffer keeps its length.
pub assume_specification[ getrandom::fill ](dest: &mut [u8]) -> (r: Result<(), getrandom::Error>)
    ensures
        final(dest)@.len() == old(dest)@.len(),
;

/// The error of the random number source in words, as its `Display` writes it.
/// Nothing is claimed of the words: they can come from the operating system.
#[verifier::external_body]
pub(crate) fn getrandom_reason(e: &getrandom::Error) -> (r: String) {
    format!("{e}")
}

/// `SystemTime::elapsed` of the Unix epoch: the time from then to now by the
/// system's clock, in whole seconds; `None` for a clock set before it. Nothing
/// is claimed of the time.
#[verifier::external_body]
pub(crate) fn seconds_since_epoch() -> (r: Option<u64>) {
    UNIX_EPOCH.elapsed().ok().map(|d| d.as_secs())
}

/// The longest side of a picture that [`resample`] takes. Up to here
/// single-precision numbers tell half a pixel from the next.
pub const LONGEST_SIDE: u32 = 0x40_0000;

/// The RGB bytes of a picture of the size `from` resampled to the size `to`
/// with a triangle filter.
pub uninterp spec fn resampled(rgb: Seq<u8>, from: (u32, u32), to: (u32, u32)) -> Seq<u8>;

/// `image::imageops::resize` of an RGB picture with `FilterType::Triangle`. The
/// claims are that the bytes are a function of the picture and the two sizes,
/// and that the result has three bytes for every pixel. Two groups of pictures on
/// which the crate panics are left out: those whose buffers would not fit in
/// memory, and those with a side so long that the filter, which finds its place
/// in single-precision numbers, can land beside every pixel and divide by a
/// total weight of zero.
#[verifier::external_body]
pub(crate) fn resample(rgb: &[u8], from: (u32, u32), to: (u32, u32)) -> (r: Vec<u8>)
    requires
        rgb@.len() == from.0 * from.1 * 3,
        from.0 * from.1 <= usize::MAX / 32,
        from.0 * to.1 <= usize::MAX / 32,
        to.0 * to.1 <= usize::MAX / 32,
        from.0 <= LONGEST_SIDE,
        from.1 <= LONGEST_SIDE,
        to.0 <= LONGEST_SIDE,
        to.1 <= LONGEST_SIDE,
    ensures
        r@ == resampled(rgb@, from, to),
        r@.len() == to.0 * to.1 * 3,
{
    let picture = RgbImage::from_raw(from.0, from.1, rgb.to_vec()).expect("three bytes a pixel");
    image::imageops::resize(&picture, to.0, to.1, FilterType::Triangle).into_raw()
}

/// The PNG file that holds an RGB picture, or why the encoder refuses its size.
pub uninterp spec fn png(rgb: Seq<u8>, w: u32, h: u32) -> Result<Seq<u8>, Seq<char>>;

/// `image::codecs::png::PngEncoder::write_image` into memory. The claims are that
/// the outcome, the words of the error among it, is a function of the pixels
/// and the size, and that a file is never empty: it starts with the signature
/// of the format. The crate panics on a buffer of another length, so that is
/// left out.
#[verifier::external_body]
pub(crate) fn write_png(rgb: &[u8], w: u32, h: u32) -> (r: Result<Vec<u8>, String>)
    requires
        rgb@.len() == w * h * 3,
    ensures
        match r {
            Ok(file) => {
                &&& png(rgb@, w, h) == Ok::<Seq<u8>, Seq<char>>(file@)
                &&& file@.len() > 0
            },
            Err(reason) => png(rgb@, w, h) == Err::<Seq<u8>, Seq<char>>(reason@),
        },
{
    let mut file = Vec::new();
    let done = PngEncoder::new(&mut file).write_image(rgb, w, h, ExtendedColorType::Rgb8);
    done.map(|_| file).map_err(|e| e.to_string())
}

/// The picture that a PNG file holds, as its RGB bytes, its width and its
/// height, or why it cannot be read.
pub uninterp spec fn unpng(file: Seq<u8>) -> Result<(Seq<u8>, u32, u32), Seq<char>>;

/// `image::load_from_memory_with_format` of a PNG file, turned into RGB with
/// eight bits a channel by `image::DynamicImage::into_rgb8`. The claims are that
/// the outcome, the words of the error among it, is a function of the file's
/// bytes, and that a picture has three bytes for every pixel.
#[verifier::external_body]
pub(crate) fn read_png(file: &[u8]) -> (r: Result<(Vec<u8>, u32, u32), String>)
    ensures
        match r {
            Ok((rgb, w, h)) => {
                &&& unpng(file@) == Ok::<(Seq<u8>, u32, u32), Seq<char>>((rgb@, w, h))
                &&& rgb@.len() == w * h * 3
            },
            Err(reason) => unpng(file@) == Err::<(Seq<u8>, u32, u32), Seq<char>>(reason@),
        },
{
    let loaded = image::load_from_memory_with_format(file, ImageFormat::Png);
    let picture = loaded.map_err(|e| e.to_string())?.into_rgb8();
    let (w, h) = picture.dimensions();
    Ok((picture.into_raw(), w, h))
}

} // verus!
