//! The frame-sequencer / encoder boundary.
//!
//! The rendered rasters are assembled, in ascending step order and with
//! a uniform per-frame delay of `cycle_ms / n` milliseconds, into one
//! looping GIF byte stream.  The GIF encoding itself is done by the
//! `image` crate behind trusted wrappers; what is verified here is the
//! sequencing: which frames the encoder receives, with which delays,
//! and in which order.

use vstd::prelude::*;
use crate::raster::Raster;
use crate::raster::frame_bytes_spec;
use crate::raster::render_frames;

verus! {

/// Declares image's animation frame type to the verifier; a value is
/// opaque and is carried through whole.
#[verifier::external_type_specification]
#[verifier::external_body]
pub struct ExFrame(image::Frame);

/// Declares image's error type; a failed encode hands its error back
/// whole.
#[verifier::external_type_specification]
#[verifier::external_body]
pub struct ExImageError(image::ImageError);

/// The pixel bytes an `image::Frame` was built from.
pub uninterp spec fn frame_pixels(f: image::Frame) -> Seq<u8>;

/// The (width, height) an `image::Frame` was built with.
pub uninterp spec fn frame_dims(f: image::Frame) -> (u32, u32);

/// The display delay an `image::Frame` carries, as the crate stores it.
pub uninterp spec fn frame_delay(f: image::Frame) -> (u32, u32);

/// The delay that `image::Delay::from_numer_denom_ms` builds from a
/// ratio of milliseconds: a function of the two arguments alone.
pub uninterp spec fn delay_of(num_ms: u32, den: u32) -> (u32, u32);

/// The byte stream that image's GIF encoder writes for an ordered frame
/// sequence with infinite repeat set: a function of the frames' pixels,
/// dimensions and delays alone, in their order.
pub uninterp spec fn gif_artifact(frames: Seq<(Seq<u8>, (u32, u32), (u32, u32))>) -> Seq<u8>;

/// The view of one frame handed to the encoder: pixels, dimensions,
/// delay.
pub open spec fn frame_view(f: image::Frame) -> (Seq<u8>, (u32, u32), (u32, u32)) {
    (frame_pixels(f), frame_dims(f), frame_delay(f))
}

/// What the encoder must receive for an `n`-step cycle over source
/// bytes `src`: frame `h`'s transformed bytes, the source dimensions,
/// and the uniform delay of `cycle_ms / n` milliseconds, for
/// `h = 0 .. n-1` in ascending order.
pub open spec fn cycle_views_spec(
    src: Seq<u8>,
    width: u32,
    height: u32,
    n: u32,
    cycle_ms: u32,
) -> Seq<(Seq<u8>, (u32, u32), (u32, u32))> {
    Seq::new(
        n as nat,
        |h: int| (frame_bytes_spec(src, h as u32, n), (width, height), delay_of(cycle_ms, n)),
    )
}

/// The GIF format stores frame dimensions in 16 bits: a frame fits
/// exactly when both sides are at most 65535.
pub open spec fn dims_fit_gif(width: u32, height: u32) -> bool {
    width <= 0xFFFF && height <= 0xFFFF
}

/// Why an encode failed.  Any failure is fatal: no partial artifact is
/// a supported output.
#[derive(Debug)]
pub enum EncodeError {
    /// The GIF encoder refused a frame or its configuration; the
    /// encoder's own error is carried for diagnosis.
    Encoder(image::ImageError),
}

/// Relies on `image::RgbaImage::from_raw` (`Some` whenever the buffer
/// holds at least `width * height` four-byte pixels; the caller supplies
/// exactly that many), `image::Delay::from_numer_denom_ms` (the delay
/// `num_ms / den` milliseconds; panics only when `den == 0`) and
/// `image::Frame::from_parts` (a frame from a buffer, a zero offset and
/// a delay).
#[verifier::external_body]
fn make_frame(width: u32, height: u32, data: Vec<u8>, num_ms: u32, den: u32) -> (f: image::Frame)
    requires
        data@.len() == 4 * ((width as int) * (height as int)),
        1 <= den,
    ensures
        frame_pixels(f) == data@,
        frame_dims(f) == (width, height),
        frame_delay(f) == delay_of(num_ms, den),
{
    let buffer = image::RgbaImage::from_raw(width, height, data).unwrap();
    image::Frame::from_parts(buffer, 0, 0, image::Delay::from_numer_denom_ms(num_ms, den))
}

/// Relies on `image::codecs::gif::GifEncoder` writing to an in-memory
/// buffer: `set_repeat(Infinite)` followed by `encode_frame` for each
/// frame, in order, writes one looping GIF stream whose bytes depend
/// only on the frame sequence.  Encoding succeeds whenever every
/// frame's dimensions fit the format's 16 bits: the in-memory writer
/// cannot fail, the frame buffers match their dimensions by
/// construction, and the palette never exceeds 256 entries, so the
/// dimension check is the encoder's only remaining error (allocation
/// failure aside).
#[verifier::external_body]
fn gif_encode(frames: Vec<image::Frame>) -> (r: Result<Vec<u8>, image::ImageError>)
    ensures
        r matches Ok(bytes) ==> bytes@ == gif_artifact(
            frames@.map_values(|f: image::Frame| frame_view(f)),
        ),
        (forall|i: int|
            0 <= i < frames@.len() ==> dims_fit_gif(
                (#[trigger] frame_dims(frames@[i])).0,
                frame_dims(frames@[i]).1,
            )) ==> r is Ok,
{
    let mut buf: Vec<u8> = Vec::new();
    let mut enc = image::codecs::gif::GifEncoder::new(&mut buf);
    enc.set_repeat(image::codecs::gif::Repeat::Infinite)?;
    for f in frames {
        enc.encode_frame(f)?;
    }
    drop(enc);
    Ok(buf)
}

/// Copies a byte buffer.
fn copy_bytes(src: &Vec<u8>) -> (out: Vec<u8>)
    ensures
        out@ == src@,
{
    let mut out: Vec<u8> = Vec::new();
    crate::naming::push_bytes(&mut out, src);
    proof {
        assert(Seq::<u8>::empty() + src@ =~= src@);
    }
    out
}

/// Assembles the given rasters, in their order, into one looping GIF
/// byte stream with the uniform per-frame delay `cycle_ms / n`
/// milliseconds.  Succeeds whenever every raster's dimensions fit the
/// GIF format's 16 bits, and the bytes are then exactly the artifact of
/// that ordered frame sequence; otherwise the encoder's error is
/// returned and no artifact is produced.
pub fn encode_animation(frames: &Vec<Raster>, cycle_ms: u32, n: u32) -> (r: Result<
    Vec<u8>,
    EncodeError,
>)
    requires
        frames@.len() == n,
        1 <= n,
        forall|i: int| 0 <= i < n ==> (#[trigger] frames@[i]).wf(),
    ensures
        r matches Ok(bytes) ==> bytes@ == gif_artifact(
            Seq::new(
                n as nat,
                |h: int|
                    (
                        frames@[h].data@,
                        (frames@[h].width, frames@[h].height),
                        delay_of(cycle_ms, n),
                    ),
            ),
        ),
        (forall|i: int|
            0 <= i < n ==> dims_fit_gif(
                (#[trigger] frames@[i]).width,
                frames@[i].height,
            )) ==> r is Ok,
{
    let mut imgs: Vec<image::Frame> = Vec::new();
    let mut i: usize = 0;
    while i < frames.len()
        invariant
            frames@.len() == n,
            1 <= n,
            forall|j: int| 0 <= j < n ==> (#[trigger] frames@[j]).wf(),
            i <= n,
            imgs@.len() == i,
            forall|j: int|
                0 <= j < i ==> frame_view(#[trigger] imgs@[j]) == (
                    frames@[j].data@,
                    (frames@[j].width, frames@[j].height),
                    delay_of(cycle_ms, n),
                ),
        decreases frames@.len() - i,
    {
        let fr = &frames[i];
        let f = make_frame(fr.width, fr.height, copy_bytes(&fr.data), cycle_ms, n);
        imgs.push(f);
        i = i + 1;
    }
    match gif_encode(imgs) {
        Ok(bytes) => {
            proof {
                let views = Seq::new(
                    n as nat,
                    |h: int|
                        (
                            frames@[h].data@,
                            (frames@[h].width, frames@[h].height),
                            delay_of(cycle_ms, n),
                        ),
                );
                assert(imgs@.map_values(|f: image::Frame| frame_view(f)) =~= views);
            }
            Ok(bytes)
        }
        Err(e) => {
            proof {
                if forall|i: int|
                    0 <= i < n ==> dims_fit_gif((#[trigger] frames@[i]).width, frames@[i].height) {
                    assert forall|i: int| 0 <= i < imgs@.len() implies dims_fit_gif(
                        (#[trigger] frame_dims(imgs@[i])).0,
                        frame_dims(imgs@[i]).1,
                    ) by {
                        assert(frame_view(imgs@[i]) == (
                            frames@[i].data@,
                            (frames@[i].width, frames@[i].height),
                            delay_of(cycle_ms, n),
                        ));
                        assert(dims_fit_gif(frames@[i].width, frames@[i].height));
                    }
                    assert(false);
                }
            }
            Err(EncodeError::Encoder(e))
        }
    }
}

/// The whole pipeline: renders the `n` frames of the cycle over the
/// source raster — frame `h` hue-rotated by `h * 360 / n` degrees — and
/// encodes them, in ascending step order with the uniform per-frame
/// delay `cycle_ms / n` milliseconds, into one looping GIF byte stream.
/// Succeeds whenever the source's dimensions fit the GIF format's
/// 16 bits.
pub fn render_animation(src: &Raster, n: u32, cycle_ms: u32) -> (r: Result<Vec<u8>, EncodeError>)
    requires
        src.wf(),
        1 <= n <= 360,
    ensures
        r matches Ok(bytes) ==> bytes@ == gif_artifact(
            cycle_views_spec(src.data@, src.width, src.height, n, cycle_ms),
        ),
{
    let frames = render_frames(src, n);
    let r = encode_animation(&frames, cycle_ms, n);
    proof {
        assert(Seq::new(
            n as nat,
            |h: int|
                (frames@[h].data@, (frames@[h].width, frames@[h].height), delay_of(cycle_ms, n)),
        ) =~= cycle_views_spec(src.data@, src.width, src.height, n, cycle_ms));
        if dims_fit_gif(src.width, src.height) {
            assert forall|i: int| 0 <= i < n implies dims_fit_gif(
                (#[trigger] frames@[i]).width,
                frames@[i].height,
            ) by {
                assert(frames@[i].width == src.width && frames@[i].height == src.height);
            }
        }
    }
    r
}

/// The re-run law: the pipeline's output is a function of the source
/// bytes, the dimensions, the step count and the cycle duration alone.
/// Two runs on identical inputs yield identical frame bytes and an
/// identical artifact — a fresh run reproduces (replaces) the previous
/// artifact rather than extending it, since no previous output is even
/// an input.
pub proof fn lemma_rerun_identical(
    src: Seq<u8>,
    width: u32,
    height: u32,
    n: u32,
    cycle_ms: u32,
    b1: Seq<u8>,
    b2: Seq<u8>,
)
    requires
        b1 == gif_artifact(cycle_views_spec(src, width, height, n, cycle_ms)),
        b2 == gif_artifact(cycle_views_spec(src, width, height, n, cycle_ms)),
    ensures
        b1 == b2,
        forall|h: int|
            0 <= h < n ==> cycle_views_spec(src, width, height, n, cycle_ms)[h].0
                == frame_bytes_spec(src, h as u32, n),
{
}

} // verus!
