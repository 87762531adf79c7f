use image::DynamicImage;
use vstd::prelude::*;

use crate::pixel::Rgba8;
use crate::raster::{dimensions, get_pixel, height_of, image_pixels, width_of};

verus! {

/// Wraps a texel coordinate into `[0, bound)`, so that the texture repeats in
/// both directions; a negative coordinate is shifted up by `bound`.
pub fn wrap(coord: i32, bound: u32) -> (r: u32)
    requires
        0 < bound <= i32::MAX,
    ensures
        r < bound,
        r as int == (coord as int) % (bound as int),
{
    let signed_bound = bound as i32;
    let wrapped = coord % signed_bound;
    let r = if wrapped < 0 {
        (wrapped + signed_bound) as u32
    } else {
        wrapped as u32
    };
    proof {
        let b = bound as int;
        let c = coord as int;
        if c < 0 {
            let m = (-c) % b;
            let q = (-c) / b;
            vstd::arithmetic::div_mod::lemma_fundamental_div_mod(-c, b);
            assert(c == (-q) * b - m && c == (-q - 1) * b + (b - m)) by (nonlinear_arith)
                requires
                    -c == b * q + m,
            ;
            if m == 0 {
                vstd::arithmetic::div_mod::lemma_fundamental_div_mod_converse(c, b, -q, 0);
            } else {
                vstd::arithmetic::div_mod::lemma_fundamental_div_mod_converse(c, b, -q - 1, b - m);
            }
        }
    }
    r
}

/// The texel that texture coordinates `(u, v)`, already scaled to texels,
/// address in `tex`, repeating the texture in both directions.
pub fn texel(tex: &DynamicImage, u: i32, v: i32) -> (p: Rgba8)
    requires
        0 < width_of(*tex) <= i32::MAX,
        0 < height_of(*tex) <= i32::MAX,
    ensures
        p == image_pixels(*tex)[(
            (u as int) % width_of(*tex),
            (v as int) % height_of(*tex),
        )],
{
    let (w, h) = dimensions(tex);
    let x = wrap(u, w);
    let y = wrap(v, h);
    get_pixel(tex, x, y)
}

} // verus!
