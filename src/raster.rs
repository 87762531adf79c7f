use image::{DynamicImage, GenericImage, GenericImageView, ImageError};
use vstd::prelude::*;

use crate::pixel::Rgba8;
use crate::tiles::{lemma_tiles_partition_image, TileGrid};

verus! {

#[verifier::external_type_specification]
#[verifier::external_body]
pub struct ExDynamicImage(DynamicImage);

#[verifier::external_type_specification]
#[verifier::external_body]
pub struct ExImageError(ImageError);

/// Width and height of an image.
pub uninterp spec fn image_size(img: DynamicImage) -> (u32, u32);

/// The RGBA bytes that reading the image gives at each `(x, y)` inside it.
pub uninterp spec fn image_pixels(img: DynamicImage) -> Map<(int, int), Rgba8>;

/// Whether the image stores RGBA bytes, so that a pixel written is read back unchanged.
pub uninterp spec fn holds_rgba8(img: DynamicImage) -> bool;

/// Why a rendered image could not be put together.
#[derive(Clone, Copy, Debug, PartialEq, Eq, Structural)]
pub enum RenderError {
    /// A tile does not fit inside the destination at its position.
    TileOutOfBounds,
}

pub open spec fn width_of(img: DynamicImage) -> int {
    image_size(img).0 as int
}

pub open spec fn height_of(img: DynamicImage) -> int {
    image_size(img).1 as int
}

pub open spec fn in_rect(x: int, y: int, w: int, h: int) -> bool {
    0 <= x < w && 0 <= y < h
}

/// The pixel of `img` at `(x, y)`.
pub open spec fn pixel(img: DynamicImage, x: int, y: int) -> Rgba8 {
    image_pixels(img)[(x, y)]
}

/// The background pixel: black with a zero alpha byte.
pub open spec fn black_spec() -> Rgba8 {
    Rgba8 { r: 0, g: 0, b: 0, a: 0 }
}

/// Relies on `DynamicImage::new_rgba8`: an RGBA8 buffer of the given size with
/// every byte zero; it panics when `4 * w * h` overflows `usize`.
#[verifier::external_body]
fn new_rgba8(w: u32, h: u32) -> (img: DynamicImage)
    requires
        4 * (w as int) * (h as int) <= usize::MAX,
    ensures
        image_size(img) == (w, h),
        holds_rgba8(img),
        forall|x: int, y: int| in_rect(x, y, w as int, h as int) ==> #[trigger] pixel(img, x, y) == black_spec(),
{
    DynamicImage::new_rgba8(w, h)
}

/// Relies on `GenericImageView::dimensions` of `DynamicImage`.
#[verifier::external_body]
pub(crate) fn dimensions(img: &DynamicImage) -> (r: (u32, u32))
    ensures
        r == image_size(*img),
{
    img.dimensions()
}

/// Relies on `GenericImageView::get_pixel` of `DynamicImage`, which panics out of bounds.
#[verifier::external_body]
pub(crate) fn get_pixel(img: &DynamicImage, x: u32, y: u32) -> (p: Rgba8)
    requires
        x < width_of(*img),
        y < height_of(*img),
    ensures
        p == image_pixels(*img)[(x as int, y as int)],
{
    let v = img.get_pixel(x, y);
    Rgba8 { r: v.0[0], g: v.0[1], b: v.0[2], a: v.0[3] }
}

/// Relies on `GenericImage::put_pixel` of `DynamicImage`: it changes no pixel but
/// `(x, y)`, which reads back as given where the image stores RGBA bytes; it
/// panics out of bounds.
#[verifier::external_body]
fn put_pixel(img: &mut DynamicImage, x: u32, y: u32, p: Rgba8)
    requires
        x < width_of(*old(img)),
        y < height_of(*old(img)),
    ensures
        image_size(*final(img)) == image_size(*old(img)),
        holds_rgba8(*final(img)) == holds_rgba8(*old(img)),
        holds_rgba8(*old(img)) ==> pixel(*final(img), x as int, y as int) == p,
        forall|i: int, j: int|
            in_rect(i, j, width_of(*old(img)), height_of(*old(img))) && (i, j) != (x as int, y as int)
                ==> #[trigger] pixel(*final(img), i, j) == pixel(*old(img), i, j),
{
    img.put_pixel(x, y, image::Rgba([p.r, p.g, p.b, p.a]))
}

/// Relies on `GenericImage::copy_from` of `DynamicImage`: it fails, changing
/// nothing, unless `src` placed at `(x, y)` fits inside `dst`; otherwise it
/// writes each pixel of `src` at its place.
#[verifier::external_body]
fn copy_from(dst: &mut DynamicImage, src: &DynamicImage, x: u32, y: u32) -> (r: Result<(), ImageError>)
    ensures
        image_size(*final(dst)) == image_size(*old(dst)),
        holds_rgba8(*final(dst)) == holds_rgba8(*old(dst)),
        r.is_ok() <==> x + width_of(*src) <= width_of(*old(dst)) && y + height_of(*src) <= height_of(
            *old(dst),
        ),
        forall|i: int, j: int|
            in_rect(i, j, width_of(*old(dst)), height_of(*old(dst))) && !(r.is_ok() && in_rect(
                i - x,
                j - y,
                width_of(*src),
                height_of(*src),
            )) ==> #[trigger] pixel(*final(dst), i, j) == pixel(*old(dst), i, j),
        forall|i: int, j: int|
            r.is_ok() && holds_rgba8(*old(dst)) && in_rect(i - x, j - y, width_of(*src), height_of(*src))
                ==> #[trigger] pixel(*final(dst), i, j) == pixel(*src, i - x, j - y),
{
    dst.copy_from(src, x, y)
}

/// Builds a `w` x `h` tile from its pixels listed row by row.
pub fn tile_from_pixels(w: u32, h: u32, pixels: &Vec<Rgba8>) -> (img: DynamicImage)
    requires
        pixels@.len() == (w as int) * (h as int),
        4 * (w as int) * (h as int) <= usize::MAX,
    ensures
        image_size(img) == (w, h),
        holds_rgba8(img),
        forall|x: int, y: int|
            in_rect(x, y, w as int, h as int) ==> #[trigger] pixel(img, x, y) == pixels@[y * w + x],
{
    let mut img = new_rgba8(w, h);
    let n = pixels.len();
    let mut i: usize = 0;
    while i < n
        invariant
            n == pixels@.len(),
            n == (w as int) * (h as int),
            i <= n,
            image_size(img) == (w, h),
            holds_rgba8(img),
            forall|x: int, y: int|
                in_rect(x, y, w as int, h as int) && y * w + x < i ==> #[trigger] pixel(img, x, y)
                    == pixels@[y * w + x],
        decreases n - i,
    {
        proof {
            lemma_row_major(i as int, w as int, h as int);
        }
        let x = (i % (w as usize)) as u32;
        let y = (i / (w as usize)) as u32;
        let ghost before = img;
        put_pixel(&mut img, x, y, pixels[i]);
        proof {
            assert forall|a: int, b: int|
                in_rect(a, b, w as int, h as int) && b * w + a < i + 1 implies #[trigger] pixel(img, a, b)
                == pixels@[b * w + a] by {
                lemma_row_major_unique(a, b, w as int, h as int);
                if (a, b) != (x as int, y as int) {
                    assert(pixel(img, a, b) == pixel(before, a, b));
                    assert(b * w + a != i);
                }
            }
        }
        i = i + 1;
    }
    proof {
        assert forall|a: int, b: int| in_rect(a, b, w as int, h as int) implies #[trigger] pixel(img, a, b)
            == pixels@[b * w + a] by {
            lemma_row_major_unique(a, b, w as int, h as int);
        }
    }
    img
}

proof fn lemma_row_major(i: int, w: int, h: int)
    requires
        0 <= i < w * h,
        w >= 0,
        h >= 0,
    ensures
        w > 0,
        in_rect(i % w, i / w, w, h),
        (i / w) * w + i % w == i,
{
    assert(w > 0) by (nonlinear_arith)
        requires
            0 <= i < w * h,
            w >= 0,
            h >= 0,
    ;
    vstd::arithmetic::div_mod::lemma_fundamental_div_mod(i, w);
    vstd::arithmetic::div_mod::lemma_div_pos_is_pos(i, w);
    assert(i / w < h) by (nonlinear_arith)
        requires
            i == w * (i / w) + i % w,
            0 <= i % w,
            i < w * h,
            w > 0,
    ;
    assert((i / w) * w + i % w == i) by (nonlinear_arith)
        requires
            i == w * (i / w) + i % w,
    ;
}

proof fn lemma_row_major_unique(x: int, y: int, w: int, h: int)
    requires
        in_rect(x, y, w, h),
    ensures
        0 <= y * w + x < w * h,
        (y * w + x) % w == x,
        (y * w + x) / w == y,
{
    assert(0 <= y * w + x < w * h) by (nonlinear_arith)
        requires
            0 <= x < w,
            0 <= y < h,
    ;
    vstd::arithmetic::div_mod::lemma_fundamental_div_mod_converse(y * w + x, w, y, x);
}

/// Copies `tile` into `dest` with its top-left corner at `(x, y)`.
pub fn blit_tile(dest: &mut DynamicImage, tile: &DynamicImage, x: u32, y: u32) -> (r: Result<(), RenderError>)
    requires
        holds_rgba8(*old(dest)),
    ensures
        image_size(*final(dest)) == image_size(*old(dest)),
        holds_rgba8(*final(dest)),
        r.is_ok() <==> x + width_of(*tile) <= width_of(*old(dest)) && y + height_of(*tile) <= height_of(
            *old(dest),
        ),
        r.is_err() ==> r == Err::<(), RenderError>(RenderError::TileOutOfBounds),
        forall|i: int, j: int|
            in_rect(i, j, width_of(*old(dest)), height_of(*old(dest))) ==> #[trigger] pixel(*final(dest), i, j)
                == if r.is_ok() && in_rect(i - x, j - y, width_of(*tile), height_of(*tile)) {
                pixel(*tile, i - x, j - y)
            } else {
                pixel(*old(dest), i, j)
            },
{
    match copy_from(dest, tile, x, y) {
        Ok(()) => Ok(()),
        Err(_) => Err(RenderError::TileOutOfBounds),
    }
}

/// A tile as placed in the destination: its size, its pixels and its top-left corner.
pub struct PlacedTile {
    pub width: int,
    pub height: int,
    pub pixels: Map<(int, int), Rgba8>,
    pub x: int,
    pub y: int,
}

pub open spec fn placed(t: (DynamicImage, u32, u32)) -> PlacedTile {
    PlacedTile {
        width: width_of(t.0),
        height: height_of(t.0),
        pixels: image_pixels(t.0),
        x: t.1 as int,
        y: t.2 as int,
    }
}

pub open spec fn placed_all(ts: Seq<(DynamicImage, u32, u32)>) -> Seq<PlacedTile> {
    ts.map_values(|t: (DynamicImage, u32, u32)| placed(t))
}

/// Whether the tile covers destination pixel `(i, j)`.
pub open spec fn covers(t: PlacedTile, i: int, j: int) -> bool {
    in_rect(i - t.x, j - t.y, t.width, t.height)
}

pub open spec fn fits(t: PlacedTile, w: int, h: int) -> bool {
    t.x + t.width <= w && t.y + t.height <= h
}

/// The pixel at `(i, j)` after blitting the tiles in order onto a black
/// image: the last tile that covers it wins.
pub open spec fn composite(ts: Seq<PlacedTile>, i: int, j: int) -> Rgba8
    decreases ts.len(),
{
    if ts.len() == 0 {
        black_spec()
    } else if covers(ts.last(), i, j) {
        ts.last().pixels[(i - ts.last().x, j - ts.last().y)]
    } else {
        composite(ts.drop_last(), i, j)
    }
}

/// Two tiles whose rectangles do not overlap.
pub open spec fn disjoint(a: PlacedTile, b: PlacedTile) -> bool {
    a.width <= 0 || a.height <= 0 || b.width <= 0 || b.height <= 0 || a.x + a.width <= b.x || b.x
        + b.width <= a.x || a.y + a.height <= b.y || b.y + b.height <= a.y
}

pub open spec fn pairwise_disjoint(ts: Seq<PlacedTile>) -> bool {
    forall|a: int, b: int|
        0 <= a < ts.len() && 0 <= b < ts.len() && a != b ==> disjoint(#[trigger] ts[a], #[trigger] ts[b])
}

/// Puts the rendered tiles, each with its top-left corner, together into one
/// `width` x `height` image, blitting them in order onto a black background.
pub fn assemble(width: u32, height: u32, tiles: &Vec<(DynamicImage, u32, u32)>) -> (r: Result<
    DynamicImage,
    RenderError,
>)
    requires
        4 * (width as int) * (height as int) <= usize::MAX,
    ensures
        r.is_ok() <==> forall|k: int|
            0 <= k < tiles@.len() ==> fits(#[trigger] placed(tiles@[k]), width as int, height as int),
        r.is_err() ==> r == Err::<DynamicImage, RenderError>(RenderError::TileOutOfBounds),
        r.is_ok() ==> image_size(r.unwrap()) == (width, height) && holds_rgba8(r.unwrap()),
        r.is_ok() ==> forall|i: int, j: int|
            in_rect(i, j, width as int, height as int) ==> #[trigger] pixel(r.unwrap(), i, j) == composite(
                placed_all(tiles@),
                i,
                j,
            ),
{
    let mut img = new_rgba8(width, height);
    let mut k: usize = 0;
    while k < tiles.len()
        invariant
            k <= tiles@.len(),
            image_size(img) == (width, height),
            holds_rgba8(img),
            forall|a: int| 0 <= a < k ==> fits(#[trigger] placed(tiles@[a]), width as int, height as int),
            forall|i: int, j: int|
                in_rect(i, j, width as int, height as int) ==> #[trigger] pixel(img, i, j) == composite(
                    placed_all(tiles@.take(k as int)),
                    i,
                    j,
                ),
        decreases tiles@.len() - k,
    {
        let ghost before = img;
        let t = &tiles[k];
        match blit_tile(&mut img, &t.0, t.1, t.2) {
            Ok(()) => {},
            Err(e) => {
                assert(!fits(placed(tiles@[k as int]), width as int, height as int));
                return Err(e);
            },
        }
        proof {
            let prev = placed_all(tiles@.take(k as int));
            let next = placed_all(tiles@.take(k as int + 1));
            assert(next.drop_last() =~= prev);
            assert(next.last() == placed(tiles@[k as int]));
            assert forall|i: int, j: int| in_rect(i, j, width as int, height as int) implies #[trigger] pixel(
                img,
                i,
                j,
            ) == composite(next, i, j) by {
                assert(pixel(before, i, j) == composite(prev, i, j));
            }
        }
        k = k + 1;
    }
    proof {
        assert(tiles@.take(k as int) =~= tiles@);
    }
    Ok(img)
}

proof fn lemma_composite_covering(ts: Seq<PlacedTile>, k: int, i: int, j: int)
    requires
        pairwise_disjoint(ts),
        0 <= k < ts.len(),
        covers(ts[k], i, j),
    ensures
        composite(ts, i, j) == ts[k].pixels[(i - ts[k].x, j - ts[k].y)],
    decreases ts.len(),
{
    let n = ts.len() - 1;
    if k != n {
        assert(disjoint(ts[k], ts[n]));
        assert(!covers(ts.last(), i, j));
        let rest = ts.drop_last();
        assert(rest[k] == ts[k]);
        assert forall|a: int, b: int| 0 <= a < rest.len() && 0 <= b < rest.len() && a != b implies disjoint(
            #[trigger] rest[a],
            #[trigger] rest[b],
        ) by {
            assert(rest[a] == ts[a] && rest[b] == ts[b]);
        }
        lemma_composite_covering(rest, k, i, j);
    }
}

proof fn lemma_composite_uncovered(ts: Seq<PlacedTile>, i: int, j: int)
    requires
        forall|k: int| 0 <= k < ts.len() ==> !covers(#[trigger] ts[k], i, j),
    ensures
        composite(ts, i, j) == black_spec(),
    decreases ts.len(),
{
    if ts.len() > 0 {
        let rest = ts.drop_last();
        assert(!covers(ts[ts.len() - 1], i, j));
        assert forall|k: int| 0 <= k < rest.len() implies !covers(#[trigger] rest[k], i, j) by {
            assert(rest[k] == ts[k]);
        }
        lemma_composite_uncovered(rest, i, j);
    }
}

/// Blitting a set of pairwise disjoint tiles gives the same image whatever
/// the order in which the tiles arrive.
pub proof fn lemma_tile_order_irrelevant(s1: Seq<PlacedTile>, s2: Seq<PlacedTile>, i: int, j: int)
    requires
        pairwise_disjoint(s1),
        pairwise_disjoint(s2),
        s1.to_set() == s2.to_set(),
    ensures
        composite(s1, i, j) == composite(s2, i, j),
{
    if exists|k: int| 0 <= k < s1.len() && covers(#[trigger] s1[k], i, j) {
        let k = choose|k: int| 0 <= k < s1.len() && covers(#[trigger] s1[k], i, j);
        assert(s1.to_set().contains(s1[k]));
        assert(s2.to_set().contains(s1[k]));
        let k2 = choose|k2: int| 0 <= k2 < s2.len() && s2[k2] == s1[k];
        lemma_composite_covering(s1, k, i, j);
        lemma_composite_covering(s2, k2, i, j);
    } else {
        assert forall|k: int| 0 <= k < s2.len() implies !covers(#[trigger] s2[k], i, j) by {
            assert(s2.to_set().contains(s2[k]));
            assert(s1.to_set().contains(s2[k]));
            let k1 = choose|k1: int| 0 <= k1 < s1.len() && s1[k1] == s2[k];
            assert(!covers(s1[k1], i, j));
        }
        lemma_composite_uncovered(s1, i, j);
        lemma_composite_uncovered(s2, i, j);
    }
}

/// Whether the placed tile sits where the grid puts tile `job`, with that tile's size.
pub open spec fn placed_as_job(g: TileGrid, t: PlacedTile, job: int) -> bool {
    &&& 0 <= job < g.jobs_spec()
    &&& (t.x, t.y) == g.origin_spec(job)
    &&& (t.width, t.height) == g.extent_spec(job)
}

/// Tiles laid out by a grid, one per job and no job twice, never overlap; so
/// the image that they assemble to does not depend on the order of arrival.
pub proof fn lemma_grid_tiles_disjoint(g: TileGrid, ts: Seq<PlacedTile>, jobs: Seq<int>)
    requires
        g.wf(),
        jobs.len() == ts.len(),
        forall|k: int| 0 <= k < ts.len() ==> placed_as_job(g, #[trigger] ts[k], jobs[k]),
        forall|a: int, b: int| 0 <= a < jobs.len() && 0 <= b < jobs.len() && a != b ==> jobs[a] != jobs[b],
    ensures
        pairwise_disjoint(ts),
{
    assert forall|a: int, b: int| 0 <= a < ts.len() && 0 <= b < ts.len() && a != b implies disjoint(
        #[trigger] ts[a],
        #[trigger] ts[b],
    ) by {
        assert(placed_as_job(g, ts[a], jobs[a]));
        assert(placed_as_job(g, ts[b], jobs[b]));
        if !disjoint(ts[a], ts[b]) {
            let ta = ts[a];
            let tb = ts[b];
            let x = if ta.x >= tb.x { ta.x } else { tb.x };
            let y = if ta.y >= tb.y { ta.y } else { tb.y };
            assert(g.tile_contains(jobs[a], x, y));
            assert(g.tile_contains(jobs[b], x, y));
            lemma_tiles_partition_image(g, x, y);
        }
    }
}

} // verus!
