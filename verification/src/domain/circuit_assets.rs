use vstd::prelude::*;

use crate::records::Meeting;
use crate::text::{contains, has_substring, trimmed, trim};

verus! {

/// The circuit picture the meeting lists, trimmed; `None` when there is none or when it is
/// the one that is known not to be available.
pub open spec fn circuit_image_text(m: Meeting) -> Option<Seq<char>> {
    let url = trimmed(m.circuit_image@);
    if url.len() == 0 || image_unavailable(url) {
        None
    } else {
        Some(url)
    }
}

pub open spec fn image_unavailable(url: Seq<char>) -> bool {
    has_substring(url, "Barcelona-Catalunya"@)
}

pub open spec fn image_url_like(url: Seq<char>) -> bool {
    has_substring(url, "carbon"@) || has_substring(url, "Track%20icons"@) || has_substring(
        url,
        "Track icons"@,
    )
}

pub fn circuit_image_url(meeting: &Meeting) -> (r: Option<&str>)
    ensures
        match r {
            Some(u) => circuit_image_text(*meeting) == Some(u@),
            None => circuit_image_text(*meeting) is None,
        },
{
    let url = trim(meeting.circuit_image.as_str());
    if url.unicode_len() == 0 || circuit_image_unavailable(url) {
        None
    } else {
        Some(url)
    }
}

pub fn circuit_image_unavailable(url: &str) -> (r: bool)
    ensures
        r == image_unavailable(url@),
{
    contains(url, "Barcelona-Catalunya")
}

/// The URL looks like one of the circuit outline pictures.
pub fn is_circuit_image_url(url: &str) -> (r: bool)
    ensures
        r == image_url_like(url@),
{
    contains(url, "carbon") || contains(url, "Track%20icons") || contains(url, "Track icons")
}

// ---------------------------------------------------------------------------------------------
// Recolouring the circuit picture
/// What `image::load_from_memory` followed by `to_rgba8` makes of the bytes: width, height and
/// the RGBA8 samples row by row, or the error's text.
pub uninterp spec fn spec_decode_rgba(bytes: Seq<u8>) -> Result<(u32, u32, Seq<u8>), Seq<char>>;

/// The PNG bytes that `image` writes for an RGBA8 picture, or the error's text.
pub uninterp spec fn spec_encode_png(width: u32, height: u32, samples: Seq<u8>) -> Result<
    Seq<u8>,
    Seq<char>,
>;

pub open spec fn decoded_view(r: Result<(u32, u32, Vec<u8>), String>) -> Result<
    (u32, u32, Seq<u8>),
    Seq<char>,
> {
    match r {
        Ok((w, h, p)) => Ok((w, h, p@)),
        Err(e) => Err(e@),
    }
}

pub open spec fn bytes_view(r: Result<Vec<u8>, String>) -> Result<Seq<u8>, Seq<char>> {
    match r {
        Ok(p) => Ok(p@),
        Err(e) => Err(e@),
    }
}

/// `image::load_from_memory` (format guessed from the bytes), then `DynamicImage::to_rgba8`
/// and `ImageBuffer::into_raw`. The result is named by `spec_decode_rgba`; the one fact
/// claimed of it is that the sample buffer holds exactly `4 * width * height` bytes: the
/// decoder fills a buffer of the image's exact size and `to_rgba8` clones it or converts into a
/// new buffer of that size.
#[verifier::external_body]
fn decode_rgba(bytes: &Vec<u8>) -> (r: Result<(u32, u32, Vec<u8>), String>)
    ensures
        decoded_view(r) == spec_decode_rgba(bytes@),
        r matches Ok((w, h, p)) ==> 4 * (w as int) * (h as int) == p@.len(),
{
    match image::load_from_memory(bytes.as_slice()) {
        Ok(image) => {
            let rgba = image.to_rgba8();
            Ok((rgba.width(), rgba.height(), rgba.into_raw()))
        },
        Err(error) => Err(error.to_string()),
    }
}

/// `image::RgbaImage::from_raw` (which succeeds: the buffer has the picture's size), wrapped in
/// `DynamicImage::ImageRgba8` and written with `write_to` as PNG into a byte vector. The PNG
/// encoder asserts that the buffer is exactly `4 * width * height` bytes long, so no other
/// length is admitted. The result is named by `spec_encode_png`.
#[verifier::external_body]
fn encode_png(width: u32, height: u32, samples: Vec<u8>) -> (r: Result<Vec<u8>, String>)
    requires
        4 * (width as int) * (height as int) == samples@.len(),
    ensures
        bytes_view(r) == spec_encode_png(width, height, samples@),
{
    let rgba = image::RgbaImage::from_raw(width, height, samples).unwrap();
    let mut out = Vec::new();
    match image::DynamicImage::ImageRgba8(rgba).write_to(
        &mut std::io::Cursor::new(&mut out),
        image::ImageFormat::Png,
    ) {
        Ok(()) => Ok(out),
        Err(error) => Err(error.to_string()),
    }
}

/// The samples with the colour of every pixel among the first `pixels` inverted, unless the
/// pixel is fully transparent; alpha, and anything after those pixels, unchanged.
pub open spec fn inverted(samples: Seq<u8>, pixels: int) -> Seq<u8> {
    Seq::new(
        samples.len(),
        |i: int|
            if i < 4 * pixels && i % 4 < 3 && samples[i - i % 4 + 3] != 0 {
                (255 - samples[i]) as u8
            } else {
                samples[i]
            },
    )
}

pub fn invert_opaque_pixels(samples: &mut Vec<u8>, pixels: usize)
    requires
        4 * pixels <= old(samples)@.len(),
    ensures
        final(samples)@ == inverted(old(samples)@, pixels as int),
{
    let ghost before = samples@;
    let n = samples.len();
    let mut k: usize = 0;
    while k < pixels
        invariant
            n == before.len(),
            4 * pixels <= before.len(),
            samples@.len() == before.len(),
            k <= pixels,
            forall|i: int|
                0 <= i < samples@.len() ==> #[trigger] samples@[i] == if i < 4 * k {
                    inverted(before, pixels as int)[i]
                } else {
                    before[i]
                },
        decreases pixels - k,
    {
        let base = 4 * k;
        if samples[base + 3] != 0 {
            let r = 255 - samples[base];
            samples.set(base, r);
            let g = 255 - samples[base + 1];
            samples.set(base + 1, g);
            let b = 255 - samples[base + 2];
            samples.set(base + 2, b);
        }
        assert forall|i: int| 0 <= i < samples@.len() implies #[trigger] samples@[i] == if i < 4 * (k
            + 1) {
            inverted(before, pixels as int)[i]
        } else {
            before[i]
        } by {
            if 4 * k <= i < 4 * (k + 1) {
                assert(i - i % 4 + 3 == 4 * k + 3);
            }
        }
        k = k + 1;
    }
    assert(samples@ =~= inverted(before, pixels as int));
}

/// What `prepare_circuit_image` gives for the bytes: the decoding error, or the PNG of the
/// decoded picture with its opaque pixels inverted.
pub open spec fn prepared_image(bytes: Seq<u8>) -> Result<Seq<u8>, Seq<char>> {
    match spec_decode_rgba(bytes) {
        Err(e) => Err(e),
        Ok((w, h, p)) => spec_encode_png(w, h, inverted(p, (w as int) * (h as int))),
    }
}

/// Decodes a circuit picture, inverts the colour of its opaque pixels (the outline is drawn
/// dark on a light background) and encodes it again as PNG.
pub fn prepare_circuit_image(bytes: &Vec<u8>) -> (r: Result<Vec<u8>, String>)
    ensures
        bytes_view(r) == prepared_image(bytes@),
{
    match decode_rgba(bytes) {
        Err(e) => Err(e),
        Ok((width, height, samples)) => {
            let mut samples = samples;
            let n = samples.len();
            assert(4 * (width as int) * (height as int) == 4 * ((width as int) * (height as int)))
                by (nonlinear_arith);
            assert(0 <= (width as int) * (height as int)) by (nonlinear_arith);
            assert((width as int) * (height as int) <= n);
            let pixels: usize = (width as usize) * (height as usize);
            invert_opaque_pixels(&mut samples, pixels);
            encode_png(width, height, samples)
        },
    }
}

} // verus!
