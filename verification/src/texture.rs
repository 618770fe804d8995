//! Textures: pure color functions of surface coordinates and the hit point.
//!
//! The checker pattern follows the sign of sin(10x)sin(10y)sin(10z); here
//! that sign is computed exactly as the parity of the three band indices
//! floor(10 c / pi), with 10/pi held as a fixed-point constant. An image
//! texture owns its decoded RGB bytes; loading a file is a caller's
//! concern.

use vstd::prelude::*;
use crate::color::{COLOR_LIMIT, color_ok};
use crate::vec3::Vec3;

verus! {

/// 10 / pi in Q47.16, rounding to nearest.
pub const TEN_OVER_PI: i64 = 208620;

#[derive(Debug)]
pub struct ConstantTexture {
    pub color: Vec3,
}

pub struct CheckerTexture {
    pub even: Box<Texture>,
    pub odd: Box<Texture>,
}

pub struct ImageTexture {
    pub width: usize,
    pub height: usize,
    /// Row-major interleaved RGB bytes, top row first.
    pub pixels: Vec<u8>,
}

pub enum Texture {
    Constant(ConstantTexture),
    Checker(CheckerTexture),
    Image(ImageTexture),
}

/// The band index floor(10 * c / pi) of a coordinate, over the fixed-point
/// constant for 10/pi.
pub open spec fn band_s(c: int) -> int {
    (c * TEN_OVER_PI) / 0x1_0000_0000
}

/// The checker parity at a point: odd exactly when the product of the
/// three sines is negative.
pub open spec fn checker_odd_s(p: Vec3) -> bool {
    (band_s(p.x as int) + band_s(p.y as int) + band_s(p.z as int)) % 2 != 0
}

impl CheckerTexture {
    pub fn new(even: Texture, odd: Texture) -> (r: CheckerTexture)
        requires
            even.wf(),
            odd.wf(),
        ensures
            *r.even == even,
            *r.odd == odd,
    {
        CheckerTexture { even: Box::new(even), odd: Box::new(odd) }
    }
}

impl ImageTexture {
    /// Build from decoded, row-major, interleaved RGB bytes.
    pub fn new(width: usize, height: usize, pixels: Vec<u8>) -> (r: ImageTexture)
        requires
            1 <= width <= 0x8000,
            1 <= height <= 0x8000,
            pixels@.len() == 3 * width * height,
        ensures
            r == (ImageTexture { width, height, pixels }),
    {
        ImageTexture { width, height, pixels }
    }
}

impl Texture {
    /// Colors bounded, recursively, and image data consistent.
    pub open spec fn wf(self) -> bool
        decreases self,
    {
        match self {
            Texture::Constant(t) => color_ok(t.color),
            Texture::Checker(t) => t.even.wf() && t.odd.wf(),
            Texture::Image(t) => {
                &&& 1 <= t.width <= 0x8000
                &&& 1 <= t.height <= 0x8000
                &&& t.pixels.len() == 3 * t.width * t.height
            },
        }
    }

    /// Build a constant-color texture.
    pub fn constant(r: i64, g: i64, b: i64) -> (t: Texture)
        requires
            0 <= r <= COLOR_LIMIT,
            0 <= g <= COLOR_LIMIT,
            0 <= b <= COLOR_LIMIT,
        ensures
            t == Texture::Constant(ConstantTexture { color: Vec3 { x: r, y: g, z: b } }),
            t.wf(),
    {
        Texture::Constant(ConstantTexture { color: Vec3 { x: r, y: g, z: b } })
    }

    /// Build a checker of two constant colors.
    pub fn checker_color(
        r_even: i64,
        g_even: i64,
        b_even: i64,
        r_odd: i64,
        g_odd: i64,
        b_odd: i64,
    ) -> (t: Texture)
        requires
            0 <= r_even <= COLOR_LIMIT,
            0 <= g_even <= COLOR_LIMIT,
            0 <= b_even <= COLOR_LIMIT,
            0 <= r_odd <= COLOR_LIMIT,
            0 <= g_odd <= COLOR_LIMIT,
            0 <= b_odd <= COLOR_LIMIT,
        ensures
            t.wf(),
            t matches Texture::Checker(c) && *c.even == Texture::Constant(
                ConstantTexture { color: Vec3 { x: r_even, y: g_even, z: b_even } },
            ) && *c.odd == Texture::Constant(
                ConstantTexture { color: Vec3 { x: r_odd, y: g_odd, z: b_odd } },
            ),
    {
        let even = Texture::constant(r_even, g_even, b_even);
        let odd = Texture::constant(r_odd, g_odd, b_odd);
        Texture::Checker(CheckerTexture { even: Box::new(even), odd: Box::new(odd) })
    }

    /// Build a checker of two arbitrary textures.
    pub fn checker(even: Texture, odd: Texture) -> (t: Texture)
        requires
            even.wf(),
            odd.wf(),
        ensures
            t matches Texture::Checker(c) && *c.even == even && *c.odd == odd,
            t.wf(),
    {
        Texture::Checker(CheckerTexture { even: Box::new(even), odd: Box::new(odd) })
    }

    /// Build an image texture from decoded RGB bytes.
    pub fn image(width: usize, height: usize, pixels: Vec<u8>) -> (t: Texture)
        requires
            1 <= width <= 0x8000,
            1 <= height <= 0x8000,
            pixels@.len() == 3 * width * height,
        ensures
            t == Texture::Image(ImageTexture { width, height, pixels }),
            t.wf(),
    {
        Texture::Image(ImageTexture { width, height, pixels })
    }

    /// Decide `wf` at run time, for callers outside the proofs.
    pub fn is_wf(&self) -> (r: bool)
        ensures
            r == self.wf(),
        decreases *self,
    {
        match self {
            Texture::Constant(t) => {
                0 <= t.color.x && t.color.x <= COLOR_LIMIT && 0 <= t.color.y && t.color.y
                    <= COLOR_LIMIT && 0 <= t.color.z && t.color.z <= COLOR_LIMIT
            },
            Texture::Checker(t) => t.even.is_wf() && t.odd.is_wf(),
            Texture::Image(t) => {
                if t.width < 1 || t.width > 0x8000 || t.height < 1 || t.height > 0x8000 {
                    false
                } else {
                    proof {
                        assert(t.width * t.height <= 0x4000_0000 && 3 * (t.width * t.height) == 3
                            * t.width * t.height) by (nonlinear_arith)
                            requires
                                1 <= t.width <= 0x8000,
                                1 <= t.height <= 0x8000,
                        ;
                    }
                    t.pixels.len() == 3 * (t.width * t.height)
                }
            },
        }
    }

    /// The color of the texture at surface coordinates (u, v) and point p.
    pub fn value(&self, u: i64, v: i64, p: &Vec3) -> (r: Vec3)
        requires
            self.wf(),
            0 <= u <= 65536,
            0 <= v <= 65536,
        ensures
            r == texture_value_s(*self, u as int, v as int, *p),
            color_ok(r),
        decreases *self,
    {
        match self {
            Texture::Constant(t) => t.color,
            Texture::Checker(t) => {
                if checker_odd(p) {
                    t.odd.value(u, v, p)
                } else {
                    t.even.value(u, v, p)
                }
            },
            Texture::Image(t) => image_value(t, u, v),
        }
    }
}

/// The color every texture denotes, as a function.
pub open spec fn texture_value_s(t: Texture, u: int, v: int, p: Vec3) -> Vec3
    decreases t,
{
    match t {
        Texture::Constant(c) => c.color,
        Texture::Checker(c) => {
            if checker_odd_s(p) {
                texture_value_s(*c.odd, u, v, p)
            } else {
                texture_value_s(*c.even, u, v, p)
            }
        },
        Texture::Image(c) => image_value_s(c, u, v),
    }
}

/// A wf texture always yields a valid color.
pub proof fn lemma_texture_value_ok(t: Texture, u: int, v: int, p: Vec3)
    requires
        t.wf(),
    ensures
        color_ok(texture_value_s(t, u, v, p)),
    decreases t,
{
    match t {
        Texture::Constant(_) => {},
        Texture::Checker(c) => {
            lemma_texture_value_ok(*c.even, u, v, p);
            lemma_texture_value_ok(*c.odd, u, v, p);
        },
        Texture::Image(c) => {},
    }
}

/// Whether the checker pattern is in its odd cell at `p`.
fn checker_odd(p: &Vec3) -> (r: bool)
    ensures
        r == checker_odd_s(*p),
{
    let bx = band(p.x);
    let by = band(p.y);
    let bz = band(p.z);
    let sum: i128 = bx as i128 + by as i128 + bz as i128 + 0x10_0000_0000_0000;
    proof {
        vstd::arithmetic::div_mod::lemma_mod_multiples_vanish(
            0x8_0000_0000_0000,
            bx as int + by as int + bz as int,
            2,
        );
    }
    (sum as u128) % 2 == 1
}

/// The band index of one coordinate.
fn band(c: i64) -> (r: i64)
    ensures
        r == band_s(c as int),
        -0x4_0000_0000_0000 <= r <= 0x4_0000_0000_0000,
{
    let p: i128 = (c as i128) * (TEN_OVER_PI as i128);
    let q: i128;
    if p >= 0 {
        q = ((p as u128) / 0x1_0000_0000) as i128;
    } else {
        let n: u128 = (-p) as u128;
        let m: u128 = (n + 0xffff_ffff) / 0x1_0000_0000;
        proof {
            vstd::arithmetic::div_mod::lemma_fundamental_div_mod(p as int, 0x1_0000_0000);
            let qe = p as int / 0x1_0000_0000;
            let re = p as int % 0x1_0000_0000;
            vstd::arithmetic::div_mod::lemma_fundamental_div_mod_converse(
                n as int + 0xffff_ffff,
                0x1_0000_0000,
                -qe,
                0xffff_ffff - re,
            );
        }
        q = -(m as i128);
    }
    q as i64
}

/// The color an image texture denotes: clamp (u, 1 - v) into the image,
/// then scale the byte channels into fixed point.
pub open spec fn image_value_s(t: ImageTexture, u: int, v: int) -> Vec3 {
    let ui = iclamp(0, (uclamp(u) * t.width) / 65536, t.width as int - 1);
    let vj = iclamp(0, ((65536 - uclamp(v)) * t.height) / 65536, t.height as int - 1);
    let base = 3 * (vj * t.width + ui);
    Vec3 {
        x: byte_color(t.pixels[base]) as i64,
        y: byte_color(t.pixels[base + 1]) as i64,
        z: byte_color(t.pixels[base + 2]) as i64,
    }
}

/// A byte channel scaled to fixed point: b * 65536 / 255.
pub open spec fn byte_color(b: u8) -> int {
    (b * 65536) / 255
}

pub open spec fn uclamp(u: int) -> int {
    if u < 0 {
        0
    } else if u > 65536 {
        65536
    } else {
        u
    }
}

pub open spec fn iclamp(lo: int, x: int, hi: int) -> int {
    if x < lo {
        lo
    } else if x > hi {
        hi
    } else {
        x
    }
}

fn image_value(t: &ImageTexture, u: i64, v: i64) -> (r: Vec3)
    requires
        1 <= t.width <= 0x8000,
        1 <= t.height <= 0x8000,
        t.pixels@.len() == 3 * t.width * t.height,
        0 <= u <= 65536,
        0 <= v <= 65536,
    ensures
        r == image_value_s(*t, u as int, v as int),
        color_ok(r),
    {
    proof {
        assert(u * t.width <= 65536 * 0x8000 && (65536 - v) * t.height <= 65536 * 0x8000)
            by (nonlinear_arith)
            requires
                0 <= u <= 65536,
                0 <= v <= 65536,
                t.width <= 0x8000,
                t.height <= 0x8000,
        ;
    }
    let ui64: u64 = (u as u64 * t.width as u64) / 65536;
    let vj64: u64 = ((65536 - v) as u64 * t.height as u64) / 65536;
    let ui: usize = if ui64 > t.width as u64 - 1 {
        t.width - 1
    } else {
        ui64 as usize
    };
    let vj: usize = if vj64 > t.height as u64 - 1 {
        t.height - 1
    } else {
        vj64 as usize
    };
    proof {
        assert(vj * t.width + ui <= t.width * t.height - 1 && vj * t.width <= 0x8000 * 0x8000
            && 3 * (vj * t.width + ui) + 2 < 3 * t.width * t.height) by (nonlinear_arith)
            requires
                ui <= t.width - 1,
                vj <= t.height - 1,
                1 <= t.width <= 0x8000,
                1 <= t.height <= 0x8000,
        ;
    }
    let base: usize = 3 * (vj * t.width + ui);
    let cx: i64 = ((t.pixels[base] as u64 * 65536) / 255) as i64;
    let cy: i64 = ((t.pixels[base + 1] as u64 * 65536) / 255) as i64;
    let cz: i64 = ((t.pixels[base + 2] as u64 * 65536) / 255) as i64;
    Vec3 { x: cx, y: cy, z: cz }
}

} // verus!
