//! Raster frames and the per-pixel hue-cycling transform.
//!
//! Frame `step` of an `n`-step cycle is the source image with every
//! pixel's hue rotated by `step * (360 / n)` degrees: each 8-bit RGBA
//! pixel is converted to HSVA, matted (any partial transparency
//! collapses to full transparency), rotated, converted back and
//! quantized to bytes.  Every `(step, x, y)` triple is independent.

use vstd::prelude::*;
use vstd::arithmetic::div_mod::lemma_fundamental_div_mod_converse_div;
use vstd::arithmetic::div_mod::lemma_fundamental_div_mod_converse_mod;
use crate::color::Color;
use crate::color::hue_offset;
use crate::color::hue_offset_spec;
use crate::color::lemma_byte_exact;
use crate::color::lemma_rgba_round_trip;
use crate::color::frac_eq;

verus! {

/// A raster frame: a `width` by `height` grid of 8-bit RGBA pixels,
/// row-major, four bytes per pixel.
pub struct Raster {
    pub width: u32,
    pub height: u32,
    pub data: Vec<u8>,
}

impl Raster {
    /// The byte buffer holds exactly the pixel grid.
    pub open spec fn wf(self) -> bool {
        self.data@.len() == 4 * ((self.width as int) * (self.height as int))
    }
}

/// One source pixel transformed for frame `step` of an `n`-step cycle:
/// to HSVA, matted, hue-rotated by `step * 360 / n` degrees, back to
/// RGBA, quantized to bytes.
pub open spec fn transform_pixel_spec(r: u8, g: u8, b: u8, a: u8, step: u32, n: u32) -> (
    u8,
    u8,
    u8,
    u8,
) {
    let src = Color::Rgba { r: r as u64, g: g as u64, b: b as u64, a: a as u64, den: 255 };
    let off = hue_offset_spec(step, n);
    src.to_hsva_spec().matte_spec().rotate_hue_spec(off.0, off.1).to_rgba_spec().to_bytes_spec()
}

/// Channel `j` of a four-byte pixel.
pub open spec fn pixel_byte(q: (u8, u8, u8, u8), j: int) -> u8 {
    if j == 0 {
        q.0
    } else if j == 1 {
        q.1
    } else if j == 2 {
        q.2
    } else {
        q.3
    }
}

/// The raw bytes of frame `step` of an `n`-step cycle over the source
/// bytes `src`.
pub open spec fn frame_bytes_spec(src: Seq<u8>, step: u32, n: u32) -> Seq<u8> {
    Seq::new(
        src.len(),
        |i: int|
            pixel_byte(
                transform_pixel_spec(
                    src[4 * (i / 4)],
                    src[4 * (i / 4) + 1],
                    src[4 * (i / 4) + 2],
                    src[4 * (i / 4) + 3],
                    step,
                    n,
                ),
                i % 4,
            ),
    )
}

/// Converting a well-formed RGBA color to HSVA yields a well-formed,
/// in-range HSVA color.
pub proof fn lemma_to_hsva_wf(c: Color)
    requires
        c is Rgba,
        c.wf(),
        c.in_range(),
    ensures
        c.to_hsva_spec() is Hsva,
        c.to_hsva_spec().wf(),
        c.to_hsva_spec().in_range(),
{
}

/// Transforms one pixel for frame `step` of an `n`-step cycle.
///
/// Any pixel that is not fully opaque comes out fully transparent (the
/// matting policy); a fully opaque pixel stays fully opaque.
pub fn transform_pixel(r: u8, g: u8, b: u8, a: u8, step: u32, n: u32) -> (out: (u8, u8, u8, u8))
    requires
        1 <= n <= 360,
    ensures
        out == transform_pixel_spec(r, g, b, a, step, n),
        a != 255 ==> out.3 == 0,
        a == 255 ==> out.3 == 255,
{
    let c = Color::Rgba { r: r as u64, g: g as u64, b: b as u64, a: a as u64, den: 255 };
    let h = c.to_hsva();
    assert(h->h_den <= 255);
    let m = h.matte_alpha();
    assert(m->h_den <= 255);
    let off = hue_offset(step, n);
    proof {
        crate::color::lemma_mul_le(m->h_den as int, 255, off.1 as int, 360);
    }
    let rot = m.rotate_hue(off.0, off.1);
    let o = rot.to_rgba();
    let out = o.to_bytes();
    proof {
        if a != 255 {
            assert(m.av() == 0);
            assert(rot is Hsva);
            assert(rot.av() == 0);
            assert(o.av() == ((rot.av() * (rot.sat_d() * (60 * rot.hue_d()))) as u64));
            assert(rot.av() * (rot.sat_d() * (60 * rot.hue_d())) == 0);
            assert(o.av() == 0);
            lemma_byte_exact(0, o.dv(), 0);
        } else {
            assert(m.av() == m.dv());
            assert(rot is Hsva);
            assert(rot.av() == rot.dv());
            assert(o.av() == ((rot.av() * (rot.sat_d() * (60 * rot.hue_d()))) as u64));
            assert(o.dv() == ((rot.dv() * (rot.sat_d() * (60 * rot.hue_d()))) as u64));
            assert(o.av() == o.dv());
            lemma_byte_exact(o.dv(), o.dv(), 255);
        }
    }
    out
}

/// Renders frame `step` of an `n`-step cycle: the whole source raster
/// with every pixel hue-rotated by `step * 360 / n` degrees.
pub fn render_frame(src: &Raster, step: u32, n: u32) -> (out: Raster)
    requires
        src.wf(),
        1 <= n <= 360,
    ensures
        out.wf(),
        out.width == src.width,
        out.height == src.height,
        out.data@ == frame_bytes_spec(src.data@, step, n),
{
    let len = src.data.len();
    let npix = len / 4;
    proof {
        lemma_fundamental_div_mod_converse_div(
            len as int,
            4,
            (src.width as int) * (src.height as int),
            0,
        );
    }
    let mut out_data: Vec<u8> = Vec::new();
    let mut p: usize = 0;
    while p < npix
        invariant
            src.wf(),
            1 <= n <= 360,
            len == src.data@.len(),
            4 * npix == len,
            p <= npix,
            out_data@.len() == 4 * p,
            forall|i: int|
                0 <= i < 4 * p ==> out_data@[i] == frame_bytes_spec(src.data@, step, n)[i],
        decreases npix - p,
    {
        let base = 4 * p;
        let r = src.data[base];
        let g = src.data[base + 1];
        let b = src.data[base + 2];
        let a = src.data[base + 3];
        let q = transform_pixel(r, g, b, a, step, n);
        out_data.push(q.0);
        out_data.push(q.1);
        out_data.push(q.2);
        out_data.push(q.3);
        proof {
            let fb = frame_bytes_spec(src.data@, step, n);
            assert forall|j: int| 0 <= j < 4 implies fb[4 * (p as int) + j] == pixel_byte(
                q,
                j,
            ) by {
                lemma_fundamental_div_mod_converse_div(4 * (p as int) + j, 4, p as int, j);
                lemma_fundamental_div_mod_converse_mod(4 * (p as int) + j, 4, p as int, j);
            }
        }
        p = p + 1;
    }
    let out = Raster { width: src.width, height: src.height, data: out_data };
    proof {
        assert(out.data@ =~= frame_bytes_spec(src.data@, step, n));
    }
    out
}

/// Renders all `n` frames of the cycle, in ascending step order: frame
/// `h` carries the hue offset `h * 360 / n` degrees.
pub fn render_frames(src: &Raster, n: u32) -> (frames: Vec<Raster>)
    requires
        src.wf(),
        1 <= n <= 360,
    ensures
        frames@.len() == n,
        forall|h: int|
            0 <= h < n ==> {
                &&& (#[trigger] frames@[h]).wf()
                &&& frames@[h].width == src.width
                &&& frames@[h].height == src.height
                &&& frames@[h].data@ == frame_bytes_spec(src.data@, h as u32, n)
            },
{
    let mut frames: Vec<Raster> = Vec::new();
    let mut h: u32 = 0;
    while h < n
        invariant
            src.wf(),
            1 <= n <= 360,
            h <= n,
            frames@.len() == h,
            forall|i: int|
                0 <= i < h ==> {
                    &&& (#[trigger] frames@[i]).wf()
                    &&& frames@[i].width == src.width
                    &&& frames@[i].height == src.height
                    &&& frames@[i].data@ == frame_bytes_spec(src.data@, i as u32, n)
                },
        decreases n - h,
    {
        let f = render_frame(src, h, n);
        frames.push(f);
        h = h + 1;
    }
    frames
}

/// The boundary law: a one-step cycle (`n == 1`, step 0) reproduces
/// every fully opaque pixel byte-for-byte; a pixel that is not fully
/// opaque keeps its color channels and becomes fully transparent under
/// the matting policy.
pub proof fn lemma_single_step_identity(r: u8, g: u8, b: u8, a: u8)
    ensures
        transform_pixel_spec(r, g, b, a, 0, 1) == (
            r,
            g,
            b,
            if a == 255 { 255u8 } else { 0u8 },
        ),
{
    let c = Color::Rgba { r: r as u64, g: g as u64, b: b as u64, a: a as u64, den: 255 };
    lemma_to_hsva_wf(c);
    let h = c.to_hsva_spec();
    let m = h.matte_spec();
    let off = hue_offset_spec(0, 1);
    assert(off.0 == 0 && off.1 == 1);
    let rot = m.rotate_hue_spec(0, 1);
    lemma_fundamental_div_mod_converse_mod(m.hue_n(), 360 * m.hue_d(), 0, m.hue_n());
    assert(rot is Hsva);
    assert(m is Hsva && m.hue_n() == h.hue_n() && m.hue_d() == h.hue_d());
    assert(0 <= m.hue_n() < 360 * m.hue_d());
    assert(m.hue_n() % (360 * m.hue_d()) == m.hue_n());
    assert(rot.hue_n() == ((m.hue_n() * 1 + 0 * m.hue_d()) % (360 * (m.hue_d() * 1))) as u64);
    assert((m.hue_n() * 1 + 0 * m.hue_d()) == m.hue_n());
    assert(360 * (m.hue_d() * 1) == 360 * m.hue_d());
    assert(rot.hue_n() == m.hue_n());
    assert(rot.hue_d() == m.hue_d());
    assert(rot.sat_n() == m.sat_n() && rot.sat_d() == m.sat_d());
    assert(rot.val() == m.val() && rot.av() == m.av() && rot.dv() == m.dv());
    assert(rot == m);
    lemma_rgba_round_trip(c);
    let rt0 = h.to_rgba_spec();
    let rt = m.to_rgba_spec();
    assert(rt.rv() == rt0.rv() && rt.gv() == rt0.gv() && rt.bv() == rt0.bv() && rt.dv()
        == rt0.dv());
    assert(frac_eq(rt.rv(), rt.dv(), r as int, 255));
    lemma_byte_exact(rt.rv(), rt.dv(), r as int);
    lemma_byte_exact(rt.gv(), rt.dv(), g as int);
    lemma_byte_exact(rt.bv(), rt.dv(), b as int);
    if a == 255 {
        assert(rt.av() == rt0.av());
        lemma_byte_exact(rt.av(), rt.dv(), 255);
    } else {
        assert(rt.av() == 0);
        lemma_byte_exact(0, rt.dv(), 0);
    }
}

} // verus!

