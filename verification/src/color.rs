//! Per-pixel color values and the conversions between their two
//! representations.
//!
//! A color is a tagged value: either linear RGBA or HSVA.  Channels are
//! exact rationals, held as unsigned numerators over an explicit
//! denominator, so the conversions below are exact and the round-trip
//! law holds with equality rather than within a floating-point tolerance.
//! An 8-bit source channel `p` is the rational `p / 255`.

use vstd::prelude::*;
use vstd::arithmetic::div_mod::lemma_fundamental_div_mod_converse_div;
use vstd::arithmetic::div_mod::lemma_fundamental_div_mod_converse_mod;
use vstd::arithmetic::div_mod::lemma_mod_self_0;

verus! {

/// Largest channel denominator the conversions accept; keeps every
/// intermediate product of `to_rgba` inside `u64`.
pub const DEN_LIMIT: u64 = 4096;

/// Largest hue denominator the conversions accept.
pub const HUE_DEN_LIMIT: u64 = 1048576;

/// Largest denominator `to_bytes` accepts without overflowing `u64`
/// while rounding (`511 * BYTE_DEN_LIMIT` must fit).
pub const BYTE_DEN_LIMIT: u64 = 2251799813685248;

/// A single pixel's color, in one of two representations.
///
/// - `Rgba`: channel `r` has the value `r / den`, and likewise `g`, `b`,
///   `a`; each value lies in `[0, 1]`.
/// - `Hsva`: the hue is `h_num / h_den` degrees in `[0, 360)`; the
///   saturation is `s_num / s_den`; value `v / den` and alpha `a / den`
///   lie in `[0, 1]`.
///
/// The numeric fields are only meaningful under the current tag;
/// conversion is the only way to reinterpret them.
#[derive(Clone, Copy, Debug, PartialEq, Eq, Structural)]
pub enum Color {
    Rgba { r: u64, g: u64, b: u64, a: u64, den: u64 },
    Hsva { h_num: u64, h_den: u64, s_num: u64, s_den: u64, v: u64, a: u64, den: u64 },
}

/// Two rationals `n1 / d1` and `n2 / d2` have the same value.
pub open spec fn frac_eq(n1: int, d1: int, n2: int, d2: int) -> bool {
    n1 * d2 == d1 * n2
}

pub open spec fn max3(a: int, b: int, c: int) -> int {
    if a >= b && a >= c { a } else if b >= c { b } else { c }
}

pub open spec fn min3(a: int, b: int, c: int) -> int {
    if a <= b && a <= c { a } else if b <= c { b } else { c }
}

impl Color {
    /// Well-formedness: denominators positive, channel values in `[0, 1]`,
    /// hue in `[0, 360)` degrees.
    pub open spec fn wf(self) -> bool {
        match self {
            Color::Rgba { r, g, b, a, den } => {
                1 <= den && r <= den && g <= den && b <= den && a <= den
            }
            Color::Hsva { h_num, h_den, s_num, s_den, v, a, den } => {
                1 <= den && v <= den && a <= den && 1 <= s_den && s_num <= s_den && 1 <= h_den
                    && h_num < 360 * h_den
            }
        }
    }

    /// The denominators are small enough for the conversions' exact
    /// `u64` arithmetic.
    pub open spec fn in_range(self) -> bool {
        match self {
            Color::Rgba { den, .. } => den <= DEN_LIMIT,
            Color::Hsva { h_den, s_den, den, .. } => {
                den <= DEN_LIMIT && s_den <= DEN_LIMIT && h_den <= HUE_DEN_LIMIT
            }
        }
    }

    /// An RGBA color whose denominator is small enough for `to_bytes`.
    pub open spec fn byte_ready(self) -> bool {
        match self {
            Color::Rgba { den, .. } => den <= BYTE_DEN_LIMIT,
            Color::Hsva { .. } => false,
        }
    }

    /// Hue numerator over `6 * chroma`, reduced into `[0, 360)` degrees:
    /// the standard sector formula, one case for each channel that can
    /// hold the maximum.
    pub open spec fn hue_num_of(r: int, g: int, b: int, v: int, ch: int) -> int {
        if ch == 0 {
            0
        } else if v == r {
            60 * ((g + 6 * ch - b) % (6 * ch))
        } else if v == g {
            60 * ((b + 2 * ch) - r)
        } else {
            60 * ((r + 4 * ch) - g)
        }
    }

    /// The max/min/chroma decomposition of an RGBA color: value is the
    /// channel maximum, saturation is chroma over value, hue comes from
    /// whichever channel holds the maximum.  Alpha is carried through.
    pub open spec fn to_hsva_spec(self) -> Color {
        match self {
            Color::Rgba { r, g, b, a, den } => {
                let ri = r as int;
                let gi = g as int;
                let bi = b as int;
                let v = max3(ri, gi, bi);
                let mn = min3(ri, gi, bi);
                let ch = v - mn;
                Color::Hsva {
                    h_num: Self::hue_num_of(ri, gi, bi, v, ch) as u64,
                    h_den: if ch == 0 { 1u64 } else { ch as u64 },
                    s_num: ch as u64,
                    s_den: if v == 0 { 1u64 } else { v as u64 },
                    v: v as u64,
                    a,
                    den,
                }
            }
            Color::Hsva { .. } => self,
        }
    }

    /// Sector-based reconstruction of RGBA from HSVA: sector
    /// `floor(h / 60)` picks which of `v`, `p`, `q`, `t` lands in each
    /// channel.  All four output channels share the denominator
    /// `den * s_den * 60 * h_den`, so the reconstruction is exact.
    pub open spec fn to_rgba_spec(self) -> Color {
        match self {
            Color::Hsva { h_num, h_den, s_num, s_den, v, a, den } => {
                let fd = 60 * (h_den as int);
                let k = (h_num as int) / fd;
                let fnum = (h_num as int) % fd;
                let sdfd = (s_den as int) * fd;
                let vv = (v as int) * sdfd;
                let pp = (v as int) * (((s_den as int) - (s_num as int)) * fd);
                let qq = (v as int) * (sdfd - (s_num as int) * fnum);
                let tt = (v as int) * (sdfd - (s_num as int) * (fd - fnum));
                let rgb = if k == 0 {
                    (vv, tt, pp)
                } else if k == 1 {
                    (qq, vv, pp)
                } else if k == 2 {
                    (pp, vv, tt)
                } else if k == 3 {
                    (pp, qq, vv)
                } else if k == 4 {
                    (tt, pp, vv)
                } else {
                    (vv, pp, qq)
                };
                Color::Rgba {
                    r: rgb.0 as u64,
                    g: rgb.1 as u64,
                    b: rgb.2 as u64,
                    a: ((a as int) * sdfd) as u64,
                    den: ((den as int) * sdfd) as u64,
                }
            }
            Color::Rgba { .. } => self,
        }
    }

    /// The matting policy: a pixel that is not exactly fully opaque
    /// becomes fully transparent; a fully opaque pixel is unchanged.
    pub open spec fn matte_spec(self) -> Color {
        match self {
            Color::Hsva { h_num, h_den, s_num, s_den, v, a, den } => {
                Color::Hsva {
                    h_num,
                    h_den,
                    s_num,
                    s_den,
                    v,
                    a: if a == den { a } else { 0u64 },
                    den,
                }
            }
            Color::Rgba { .. } => self,
        }
    }

    /// Hue rotation by the angle `off_num / off_den` degrees, reduced
    /// modulo 360 into `[0, 360)`; every other field is unchanged.
    pub open spec fn rotate_hue_spec(self, off_num: u64, off_den: u64) -> Color {
        match self {
            Color::Hsva { h_num, h_den, s_num, s_den, v, a, den } => {
                let nd = (h_den as int) * (off_den as int);
                let raw = (h_num as int) * (off_den as int) + (off_num as int) * (h_den as int);
                Color::Hsva {
                    h_num: (raw % (360 * nd)) as u64,
                    h_den: nd as u64,
                    s_num,
                    s_den,
                    v,
                    a,
                    den,
                }
            }
            Color::Rgba { .. } => self,
        }
    }

    /// A channel value `num / den` in `[0, 1]` scaled by 255 and rounded
    /// half-up to an 8-bit integer.
    pub open spec fn byte_of(num: int, den: int) -> int {
        (510 * num + den) / (2 * den)
    }

    /// The four 8-bit integer channels of an RGBA color, each rounded
    /// independently.
    pub open spec fn to_bytes_spec(self) -> (u8, u8, u8, u8) {
        match self {
            Color::Rgba { r, g, b, a, den } => {
                (
                    Self::byte_of(r as int, den as int) as u8,
                    Self::byte_of(g as int, den as int) as u8,
                    Self::byte_of(b as int, den as int) as u8,
                    Self::byte_of(a as int, den as int) as u8,
                )
            }
            Color::Hsva { .. } => (0u8, 0u8, 0u8, 0u8),
        }
    }

    /// RGBA to HSVA conversion.
    pub fn to_hsva(self) -> (out: Color)
        requires
            self is Rgba,
            self.wf(),
            self.in_range(),
        ensures
            out == self.to_hsva_spec(),
            out is Hsva,
            out.wf(),
            out.in_range(),
    {
        match self {
            Color::Rgba { r, g, b, a, den } => {
                let v: u64 = if r >= g && r >= b { r } else if g >= b { g } else { b };
                let mn: u64 = if r <= g && r <= b { r } else if g <= b { g } else { b };
                let ch: u64 = v - mn;
                let hn: u64;
                let hd: u64;
                if ch == 0 {
                    hn = 0;
                    hd = 1;
                } else if v == r {
                    hn = 60 * ((g + 6 * ch - b) % (6 * ch));
                    hd = ch;
                } else if v == g {
                    hn = 60 * ((b + 2 * ch) - r);
                    hd = ch;
                } else {
                    hn = 60 * ((r + 4 * ch) - g);
                    hd = ch;
                }
                let sd: u64 = if v == 0 { 1 } else { v };
                Color::Hsva { h_num: hn, h_den: hd, s_num: ch, s_den: sd, v, a, den }
            }
            Color::Hsva { .. } => self,
        }
    }

    /// Applies the matting policy to the alpha channel.
    pub fn matte_alpha(self) -> (out: Color)
        requires
            self is Hsva,
        ensures
            out == self.matte_spec(),
            self.wf() ==> out.wf(),
            self.in_range() ==> out.in_range(),
    {
        match self {
            Color::Hsva { h_num, h_den, s_num, s_den, v, a, den } => {
                let a2: u64 = if a == den { a } else { 0 };
                Color::Hsva { h_num, h_den, s_num, s_den, v, a: a2, den }
            }
            Color::Rgba { .. } => self,
        }
    }

    /// Rotates the hue by `off_num / off_den` degrees.
    pub fn rotate_hue(self, off_num: u64, off_den: u64) -> (out: Color)
        requires
            self is Hsva,
            self.wf(),
            self.in_range(),
            1 <= off_den,
            off_num < 360 * off_den,
            self->h_den * off_den <= HUE_DEN_LIMIT,
        ensures
            out == self.rotate_hue_spec(off_num, off_den),
            out is Hsva,
            out.wf(),
            out.in_range(),
    {
        match self {
            Color::Hsva { h_num, h_den, s_num, s_den, v, a, den } => {
                proof {
                    lemma_mul_le(h_num as int, 360 * (h_den as int), off_den as int, off_den as int);
                    lemma_mul_le(off_num as int, 360 * (off_den as int), h_den as int, h_den as int);
                    assert((360 * (h_den as int)) * (off_den as int) == 360 * ((h_den as int) * (off_den as int)))
                        by (nonlinear_arith);
                    assert((360 * (off_den as int)) * (h_den as int) == 360 * ((h_den as int) * (off_den as int)))
                        by (nonlinear_arith);
                    lemma_mul_le(1, h_den as int, 1, off_den as int);
                }
                let nd: u64 = h_den * off_den;
                let raw: u64 = h_num * off_den + off_num * h_den;
                Color::Hsva { h_num: raw % (360 * nd), h_den: nd, s_num, s_den, v, a, den }
            }
            Color::Rgba { .. } => self,
        }
    }

    /// HSVA to RGBA conversion.
    pub fn to_rgba(self) -> (out: Color)
        requires
            self is Hsva,
            self.wf(),
            self.in_range(),
        ensures
            out == self.to_rgba_spec(),
            out is Rgba,
            out.wf(),
            out.byte_ready(),
    {
        match self {
            Color::Hsva { h_num, h_den, s_num, s_den, v, a, den } => {
                let fd: u64 = 60 * h_den;
                let k: u64 = h_num / fd;
                let fnum: u64 = h_num % fd;
                assert(k <= 5) by (nonlinear_arith)
                    requires
                        h_num < 360 * h_den,
                        1 <= h_den,
                        fd == 60 * h_den,
                        k == h_num / fd,
                ;
                proof {
                    lemma_mul_le(s_den as int, DEN_LIMIT as int, fd as int, 60 * (HUE_DEN_LIMIT as int));
                }
                let sdfd: u64 = s_den * fd;
                proof {
                    lemma_mul_le(1, s_den as int, 1, fd as int);
                    lemma_mul_le(1, den as int, 1, sdfd as int);
                    lemma_mul_le(s_num as int, s_den as int, fnum as int, fd as int);
                    lemma_mul_le(s_num as int, s_den as int, (fd - fnum) as int, fd as int);
                    lemma_mul_le((s_den - s_num) as int, s_den as int, fd as int, fd as int);
                    lemma_mul_le(v as int, DEN_LIMIT as int, sdfd as int, 257698037760);
                    lemma_mul_le(a as int, DEN_LIMIT as int, sdfd as int, 257698037760);
                    lemma_mul_le(den as int, DEN_LIMIT as int, sdfd as int, 257698037760);
                    lemma_mul_le(v as int, den as int, sdfd as int, sdfd as int);
                    lemma_mul_le(a as int, den as int, sdfd as int, sdfd as int);
                    lemma_mul_le(v as int, den as int, ((s_den - s_num) as int) * (fd as int), sdfd as int);
                    lemma_mul_le(v as int, den as int, (s_den * fd - s_num * fnum) as int, sdfd as int);
                    lemma_mul_le(v as int, den as int, (s_den * fd - s_num * (fd - fnum)) as int, sdfd as int);
                }
                let vv: u64 = v * sdfd;
                let pp: u64 = v * ((s_den - s_num) * fd);
                let qq: u64 = v * (sdfd - s_num * fnum);
                let tt: u64 = v * (sdfd - s_num * (fd - fnum));
                let aa: u64 = a * sdfd;
                let dd: u64 = den * sdfd;
                let rgb: (u64, u64, u64) = if k == 0 {
                    (vv, tt, pp)
                } else if k == 1 {
                    (qq, vv, pp)
                } else if k == 2 {
                    (pp, vv, tt)
                } else if k == 3 {
                    (pp, qq, vv)
                } else if k == 4 {
                    (tt, pp, vv)
                } else {
                    (vv, pp, qq)
                };
                Color::Rgba { r: rgb.0, g: rgb.1, b: rgb.2, a: aa, den: dd }
            }
            Color::Rgba { .. } => self,
        }
    }

    /// The four 8-bit channels of an RGBA color, rounded half-up.
    pub fn to_bytes(self) -> (out: (u8, u8, u8, u8))
        requires
            self is Rgba,
            self.wf(),
            self.byte_ready(),
        ensures
            out == self.to_bytes_spec(),
    {
        match self {
            Color::Rgba { r, g, b, a, den } => {
                (
                    Self::channel_byte(r, den),
                    Self::channel_byte(g, den),
                    Self::channel_byte(b, den),
                    Self::channel_byte(a, den),
                )
            }
            Color::Hsva { .. } => (0, 0, 0, 0),
        }
    }

    /// One channel scaled by 255 and rounded half-up.
    fn channel_byte(num: u64, den: u64) -> (out: u8)
        requires
            1 <= den,
            num <= den,
            den <= BYTE_DEN_LIMIT,
        ensures
            out == Self::byte_of(num as int, den as int),
    {
        let q: u64 = (510 * num + den) / (2 * den);
        assert(q <= 255) by (nonlinear_arith)
            requires
                1 <= den,
                num <= den,
                q == ((510 * num + den) as int) / ((2 * den) as int),
        ;
        q as u8
    }
}

impl Color {
    /// The red numerator of an RGBA color.
    pub open spec fn rv(self) -> int {
        match self {
            Color::Rgba { r, .. } => r as int,
            Color::Hsva { .. } => 0,
        }
    }

    /// The green numerator of an RGBA color.
    pub open spec fn gv(self) -> int {
        match self {
            Color::Rgba { g, .. } => g as int,
            Color::Hsva { .. } => 0,
        }
    }

    /// The blue numerator of an RGBA color.
    pub open spec fn bv(self) -> int {
        match self {
            Color::Rgba { b, .. } => b as int,
            Color::Hsva { .. } => 0,
        }
    }

    /// The alpha numerator, under either representation.
    pub open spec fn av(self) -> int {
        match self {
            Color::Rgba { a, .. } => a as int,
            Color::Hsva { a, .. } => a as int,
        }
    }

    /// The channel denominator, under either representation.
    pub open spec fn dv(self) -> int {
        match self {
            Color::Rgba { den, .. } => den as int,
            Color::Hsva { den, .. } => den as int,
        }
    }

    /// The hue numerator of an HSVA color.
    pub open spec fn hue_n(self) -> int {
        match self {
            Color::Hsva { h_num, .. } => h_num as int,
            Color::Rgba { .. } => 0,
        }
    }

    /// The hue denominator of an HSVA color.
    pub open spec fn hue_d(self) -> int {
        match self {
            Color::Hsva { h_den, .. } => h_den as int,
            Color::Rgba { .. } => 1,
        }
    }

    /// The saturation numerator of an HSVA color.
    pub open spec fn sat_n(self) -> int {
        match self {
            Color::Hsva { s_num, .. } => s_num as int,
            Color::Rgba { .. } => 0,
        }
    }

    /// The saturation denominator of an HSVA color.
    pub open spec fn sat_d(self) -> int {
        match self {
            Color::Hsva { s_den, .. } => s_den as int,
            Color::Rgba { .. } => 1,
        }
    }

    /// The value numerator of an HSVA color.
    pub open spec fn val(self) -> int {
        match self {
            Color::Hsva { v, .. } => v as int,
            Color::Rgba { .. } => 0,
        }
    }
}

/// The exact hue-rotation angle of step `step` out of `n`:
/// `step * (360 / n)` degrees, reduced modulo 360, as the fraction
/// `(360 * step mod 360 * n) / n`.
pub open spec fn hue_offset_spec(step: u32, n: u32) -> (u64, u64)
    recommends
        1 <= n,
{
    (((360 * (step as int)) % (360 * (n as int))) as u64, n as u64)
}

/// Computes the hue-rotation angle for step `step` of `n`.
pub fn hue_offset(step: u32, n: u32) -> (off: (u64, u64))
    requires
        1 <= n,
    ensures
        off == hue_offset_spec(step, n),
        off.1 == n,
        1 <= off.1,
        off.0 < 360 * off.1,
{
    ((360u64 * (step as u64)) % (360u64 * (n as u64)), n as u64)
}

/// For a step inside the cycle, the rotation angle is exactly
/// `step * 360 / n` degrees, with no wrapping.
pub proof fn lemma_hue_offset_small(step: u32, n: u32)
    requires
        1 <= n,
        step < n,
    ensures
        hue_offset_spec(step, n) == (((360 * (step as int)) as u64, n as u64)),
{
    assert(360 * (step as int) < 360 * (n as int)) by (nonlinear_arith)
        requires
            (step as int) < (n as int),
    ;
    lemma_fundamental_div_mod_converse_mod(
        360 * (step as int),
        360 * (n as int),
        0,
        360 * (step as int),
    );
}

/// Rotating the hue by a full turn — the offset of step `n` out of `n`,
/// exactly 360 degrees — reproduces the original hue modulo 360: the
/// rotated color's hue has the same angular value, and every other
/// field is unchanged.
pub proof fn lemma_hue_wraparound(c: Color, n: u32)
    requires
        c is Hsva,
        c.wf(),
        c.in_range(),
        1 <= n,
    ensures
        ({
            let off = hue_offset_spec(n, n);
            let r = c.rotate_hue_spec(off.0, off.1);
            &&& r is Hsva
            &&& frac_eq(r.hue_n(), r.hue_d(), c.hue_n(), c.hue_d())
            &&& r.sat_n() == c.sat_n()
            &&& r.sat_d() == c.sat_d()
            &&& r.val() == c.val()
            &&& r.av() == c.av()
            &&& r.dv() == c.dv()
        }),
{
    lemma_mod_self_0(360 * (n as int));
    let off = hue_offset_spec(n, n);
    assert(off.0 == 0);
    let hn = c.hue_n();
    let hd = c.hue_d();
    let raw = hn * (n as int);
    let nd = hd * (n as int);
    assert(raw < 360 * nd && 0 <= raw && 1 <= nd) by (nonlinear_arith)
        requires
            hn < 360 * hd,
            0 <= hn,
            1 <= hd,
            1 <= n,
            raw == hn * (n as int),
            nd == hd * (n as int),
    ;
    lemma_fundamental_div_mod_converse_mod(raw, 360 * nd, 0, raw);
    assert(nd <= 0x10000000000000 && raw <= 360 * 0x10000000000000) by (nonlinear_arith)
        requires
            1 <= hd <= HUE_DEN_LIMIT,
            1 <= (n as int) <= 0xffffffff,
            0 <= hn < 360 * hd,
            raw == hn * (n as int),
            nd == hd * (n as int),
    ;
    let r = c.rotate_hue_spec(off.0, off.1);
    assert(r.hue_n() == raw && r.hue_d() == nd);
    assert(raw * hd == nd * hn) by (nonlinear_arith)
        requires
            raw == hn * (n as int),
            nd == hd * (n as int),
    ;
}

/// Scaling a channel to 8 bits is exact on values of the form `p / 255`:
/// if `num / den == p / 255` then the rounded byte is exactly `p`.
pub proof fn lemma_byte_exact(num: int, den: int, p: int)
    requires
        1 <= den,
        0 <= num <= den,
        0 <= p <= 255,
        255 * num == den * p,
    ensures
        Color::byte_of(num, den) == p,
{
    assert(510 * num + den == p * (2 * den) + den) by (nonlinear_arith)
        requires
            255 * num == den * p,
    ;
    lemma_fundamental_div_mod_converse_div(510 * num + den, 2 * den, p, den);
}

/// Round-trip helper: an output channel numerator of the shape
/// `v * (y * fd)` over the output denominator `den * (v * fd)` has the
/// value `y / den`, and lies between 0 and that denominator.
proof fn lemma_chan_shape(v: int, fd: int, den: int, y: int, dd: int)
    requires
        0 <= y <= v,
        v <= den,
        0 <= fd,
        1 <= den,
        dd == den * (v * fd),
    ensures
        0 <= v * (y * fd) <= dd,
        (v * (y * fd)) * den == dd * y,
{
    assert(0 <= v * (y * fd) <= dd && (v * (y * fd)) * den == dd * y) by (nonlinear_arith)
        requires
            0 <= y <= v,
            v <= den,
            0 <= fd,
            1 <= den,
            dd == den * (v * fd),
    ;
}

/// The round-trip law: converting any well-formed RGBA color to HSVA
/// and back reproduces all four channel values exactly — not merely
/// within a tolerance.  Fully desaturated or black colors lose their
/// (degenerate) hue, but their channel values still come back exactly.
pub proof fn lemma_rgba_round_trip(c: Color)
    requires
        c is Rgba,
        c.wf(),
        c.in_range(),
    ensures
        ({
            let rt = c.to_hsva_spec().to_rgba_spec();
            &&& rt is Rgba
            &&& rt.wf()
            &&& frac_eq(rt.rv(), rt.dv(), c.rv(), c.dv())
            &&& frac_eq(rt.gv(), rt.dv(), c.gv(), c.dv())
            &&& frac_eq(rt.bv(), rt.dv(), c.bv(), c.dv())
            &&& frac_eq(rt.av(), rt.dv(), c.av(), c.dv())
        }),
{
    let r = c.rv();
    let g = c.gv();
    let b = c.bv();
    let a = c.av();
    let den = c.dv();
    let v = max3(r, g, b);
    let mn = min3(r, g, b);
    let ch = v - mn;
    let h = c.to_hsva_spec();
    let rt = h.to_rgba_spec();
    assert(mn <= r <= v && mn <= g <= v && mn <= b <= v && 0 <= mn && v <= den);
    let sd = if v == 0 { 1int } else { v };
    let fd = 60 * (if ch == 0 { 1int } else { ch });
    let sdfd = sd * fd;
    let dd = den * sdfd;
    let aa = a * sdfd;
    assert(60 <= sdfd <= 1006632960 && 1 <= dd <= 4123168604160 && 0 <= aa <= dd
        && aa * den == dd * a) by (nonlinear_arith)
        requires
            1 <= sd <= 4096,
            60 <= fd <= 245760,
            1 <= den <= 4096,
            0 <= a <= den,
            sdfd == sd * fd,
            dd == den * sdfd,
            aa == a * sdfd,
    ;
    assert(h.sat_n() == ch && h.sat_d() == sd && h.val() == v && h.av() == a && h.dv() == den
        && h.hue_d() == (if ch == 0 { 1int } else { ch }));
    if ch == 0 {
        assert(h.hue_n() == 0);
        lemma_fundamental_div_mod_converse_div(0, fd, 0, 0);
        lemma_fundamental_div_mod_converse_mod(0, fd, 0, 0);
        assert(0 <= v * sdfd <= dd && (v * sdfd) * den == dd * v) by (nonlinear_arith)
            requires
                0 <= v <= den,
                1 <= den,
                0 <= sdfd,
                dd == den * sdfd,
        ;
        assert(rt.rv() == v * sdfd && rt.gv() == v * sdfd && rt.bv() == v * sdfd
            && rt.av() == aa && rt.dv() == dd);
        assert(r == v && g == v && b == v);
    } else {
        assert(1 <= v && sd == v && sdfd == v * fd && fd == 60 * ch);
        lemma_chan_shape(v, fd, den, v, dd);
        lemma_chan_shape(v, fd, den, mn, dd);
        assert(v * ((sd - ch) * fd) == v * (mn * fd));
        if v == r {
            lemma_fundamental_div_mod_converse_mod(
                g + 6 * ch - b,
                6 * ch,
                if g >= b { 1int } else { 0int },
                if g >= b { g - b } else { g + 6 * ch - b },
            );
            let hn = h.hue_n();
            if g >= b {
                assert(hn == 60 * (g - b) && mn == b);
                if g - b == ch {
                    // sector 1 with fractional part 0: (q, v, p)
                    lemma_fundamental_div_mod_converse_div(hn, fd, 1, 0);
                    lemma_fundamental_div_mod_converse_mod(hn, fd, 1, 0);
                    assert(hn / fd == 1 && hn % fd == 0);
                    assert(0 <= v * sdfd <= dd);
                    assert(rt.rv() == v * (sdfd - ch * 0));
                    assert(rt.rv() == v * (v * fd));
                    assert(rt.gv() == v * (v * fd));
                    assert(rt.bv() == v * (mn * fd));
                    assert(g == v);
                } else {
                    // sector 0: (v, t, p)
                    lemma_fundamental_div_mod_converse_div(hn, fd, 0, hn);
                    lemma_fundamental_div_mod_converse_mod(hn, fd, 0, hn);
                    lemma_tt_shape(v, ch, mn, hn, g - b, sdfd, fd);
                    lemma_chan_shape(v, fd, den, mn + (g - b), dd);
                    assert(rt.rv() == v * (v * fd) && rt.gv() == v * ((mn + (g - b)) * fd)
                        && rt.bv() == v * (mn * fd) && mn + (g - b) == g);
                }
            } else {
                // sector 5: (v, p, q)
                let hn6 = g + 6 * ch - b;
                assert(hn == 60 * hn6 && mn == g);
                lemma_fundamental_div_mod_converse_div(hn, fd, 5, 60 * (hn6 - 5 * ch));
                lemma_fundamental_div_mod_converse_mod(hn, fd, 5, 60 * (hn6 - 5 * ch));
                lemma_qq_shape(v, ch, 60 * (hn6 - 5 * ch), hn6 - 5 * ch, sdfd, fd);
                lemma_chan_shape(v, fd, den, v - (hn6 - 5 * ch), dd);
                assert(rt.rv() == v * (v * fd) && rt.gv() == v * (mn * fd)
                    && rt.bv() == v * ((v - (hn6 - 5 * ch)) * fd) && v - (hn6 - 5 * ch) == b);
            }
        } else if v == g {
            let x = b + 2 * ch - r;
            let hn = h.hue_n();
            assert(hn == 60 * x);
            if b < r {
                // sector 1: (q, v, p)
                assert(mn == b);
                lemma_fundamental_div_mod_converse_div(hn, fd, 1, 60 * (x - ch));
                lemma_fundamental_div_mod_converse_mod(hn, fd, 1, 60 * (x - ch));
                lemma_qq_shape(v, ch, 60 * (x - ch), x - ch, sdfd, fd);
                lemma_chan_shape(v, fd, den, v - (x - ch), dd);
                assert(rt.rv() == v * ((v - (x - ch)) * fd) && rt.gv() == v * (v * fd)
                    && rt.bv() == v * (mn * fd) && v - (x - ch) == r);
            } else if b - r == ch {
                // sector 3 with fractional part 0: (p, q, v)
                assert(mn == r && b == v);
                lemma_fundamental_div_mod_converse_div(hn, fd, 3, 0);
                lemma_fundamental_div_mod_converse_mod(hn, fd, 3, 0);
                assert(hn / fd == 3 && hn % fd == 0);
                assert(0 <= v * sdfd <= dd);
                assert(rt.rv() == v * (mn * fd));
                assert(rt.gv() == v * (sdfd - ch * 0));
                assert(rt.gv() == v * (v * fd));
                assert(rt.bv() == v * (v * fd));
            } else {
                // sector 2: (p, v, t)
                assert(mn == r);
                lemma_fundamental_div_mod_converse_div(hn, fd, 2, 60 * (x - 2 * ch));
                lemma_fundamental_div_mod_converse_mod(hn, fd, 2, 60 * (x - 2 * ch));
                lemma_tt_shape(v, ch, mn, 60 * (x - 2 * ch), x - 2 * ch, sdfd, fd);
                lemma_chan_shape(v, fd, den, mn + (x - 2 * ch), dd);
                assert(rt.rv() == v * (mn * fd) && rt.gv() == v * (v * fd)
                    && rt.bv() == v * ((mn + (x - 2 * ch)) * fd) && mn + (x - 2 * ch) == b);
            }
        } else {
            let x = r + 4 * ch - g;
            let hn = h.hue_n();
            assert(v == b && hn == 60 * x);
            if r < g {
                // sector 3: (p, q, v)
                assert(mn == r);
                lemma_fundamental_div_mod_converse_div(hn, fd, 3, 60 * (x - 3 * ch));
                lemma_fundamental_div_mod_converse_mod(hn, fd, 3, 60 * (x - 3 * ch));
                lemma_qq_shape(v, ch, 60 * (x - 3 * ch), x - 3 * ch, sdfd, fd);
                lemma_chan_shape(v, fd, den, v - (x - 3 * ch), dd);
                assert(rt.rv() == v * (mn * fd) && rt.gv() == v * ((v - (x - 3 * ch)) * fd)
                    && rt.bv() == v * (v * fd) && v - (x - 3 * ch) == g);
            } else if r - g == ch {
                // sector 5 with fractional part 0: (v, p, q)
                assert(mn == g && r == v);
                lemma_fundamental_div_mod_converse_div(hn, fd, 5, 0);
                lemma_fundamental_div_mod_converse_mod(hn, fd, 5, 0);
                assert(rt.rv() == v * (v * fd));
                assert(rt.gv() == v * (mn * fd));
                assert(rt.bv() == v * (v * fd));
            } else {
                // sector 4: (t, p, v)
                assert(mn == g);
                lemma_fundamental_div_mod_converse_div(hn, fd, 4, 60 * (x - 4 * ch));
                lemma_fundamental_div_mod_converse_mod(hn, fd, 4, 60 * (x - 4 * ch));
                lemma_tt_shape(v, ch, mn, 60 * (x - 4 * ch), x - 4 * ch, sdfd, fd);
                lemma_chan_shape(v, fd, den, mn + (x - 4 * ch), dd);
                assert(rt.rv() == v * ((mn + (x - 4 * ch)) * fd) && rt.gv() == v * (mn * fd)
                    && rt.bv() == v * (v * fd) && mn + (x - 4 * ch) == r);
            }
        }
        assert(rt.dv() == dd && rt.av() == aa);
    }
}

/// Round-trip helper: the `q` intermediate `v * (sdfd - ch * fnum)`
/// rewrites to the shape `v * ((v - diff) * fd)` when `fnum == 60 * diff`.
proof fn lemma_qq_shape(v: int, ch: int, fnum: int, diff: int, sdfd: int, fd: int)
    requires
        sdfd == v * fd,
        fd == 60 * ch,
        fnum == 60 * diff,
    ensures
        v * (sdfd - ch * fnum) == v * ((v - diff) * fd),
{
    assert(v * (v * (60 * ch) - ch * (60 * diff)) == v * ((v - diff) * (60 * ch)))
        by (nonlinear_arith);
}

/// Round-trip helper: the `t` intermediate `v * (sdfd - ch * (fd - fnum))`
/// rewrites to the shape `v * ((mn + diff) * fd)` when `fnum == 60 * diff`
/// and `mn == v - ch`.
proof fn lemma_tt_shape(v: int, ch: int, mn: int, fnum: int, diff: int, sdfd: int, fd: int)
    requires
        sdfd == v * fd,
        fd == 60 * ch,
        fnum == 60 * diff,
        mn == v - ch,
    ensures
        v * (sdfd - ch * (fd - fnum)) == v * ((mn + diff) * fd),
{
    assert(v * (v * (60 * ch) - ch * ((60 * ch) - 60 * diff)) == v * (((v - ch) + diff) * (60 * ch)))
        by (nonlinear_arith);
}

/// Products of non-negative factors are monotone: `a <= b` and `c <= d`
/// give `a * c <= b * d`.
pub proof fn lemma_mul_le(a: int, b: int, c: int, d: int)
    requires
        0 <= a,
        0 <= c,
        a <= b,
        c <= d,
    ensures
        a * c <= b * d,
{
    assert(a * c <= b * d) by (nonlinear_arith)
        requires
            0 <= a,
            0 <= c,
            a <= b,
            c <= d,
    ;
}

} // verus!
