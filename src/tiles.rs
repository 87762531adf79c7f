use vstd::prelude::*;

verus! {

/// Side of a square tile, in pixels, when the caller does not choose one.
pub const DEFAULT_TILE_SIZE: u32 = 128;

/// Why an image or tile layout could not be set up.
#[derive(Clone, Copy, Debug, PartialEq, Eq, Structural)]
pub enum ConfigError {
    /// The image is zero pixels wide or high.
    EmptyImage,
    /// The tile side is zero.
    ZeroTileSize,
}

/// Splits a `width` x `height` image into square tiles of side `tile_size`,
/// numbered row-major; the tiles on the right and bottom edges are clipped.
#[derive(Clone, Copy, Debug, PartialEq, Eq, Structural)]
pub struct TileGrid {
    pub width: u32,
    pub height: u32,
    pub tile_size: u32,
}

/// Number of tiles needed to cover `len` pixels with tiles of side `t`.
pub open spec fn tiles_along(len: int, t: int) -> int {
    (len + t - 1) / t
}

impl TileGrid {
    pub open spec fn wf(self) -> bool {
        self.width > 0 && self.height > 0 && self.tile_size > 0
    }

    pub open spec fn cols_spec(self) -> int {
        tiles_along(self.width as int, self.tile_size as int)
    }

    pub open spec fn rows_spec(self) -> int {
        tiles_along(self.height as int, self.tile_size as int)
    }

    pub open spec fn jobs_spec(self) -> int {
        self.cols_spec() * self.rows_spec()
    }

    /// Top-left corner of tile `job`.
    pub open spec fn origin_spec(self, job: int) -> (int, int) {
        (
            self.tile_size * (job % self.cols_spec()),
            self.tile_size * (job / self.cols_spec()),
        )
    }

    /// Width and height of tile `job`, clipped to the image.
    pub open spec fn extent_spec(self, job: int) -> (int, int) {
        let (mx, my) = self.origin_spec(job);
        (
            if mx + self.tile_size <= self.width { self.tile_size as int } else { self.width - mx },
            if my + self.tile_size <= self.height { self.tile_size as int } else { self.height - my },
        )
    }

    /// Whether pixel `(x, y)` lies inside tile `job`.
    pub open spec fn tile_contains(self, job: int, x: int, y: int) -> bool {
        let (mx, my) = self.origin_spec(job);
        let (tw, th) = self.extent_spec(job);
        mx <= x < mx + tw && my <= y < my + th
    }

    /// The tile that holds pixel `(x, y)`.
    pub open spec fn tile_of(self, x: int, y: int) -> int {
        (y / (self.tile_size as int)) * self.cols_spec() + x / (self.tile_size as int)
    }

    /// Sets up the grid; the image and the tiles must be at least one pixel wide.
    pub fn new(width: u32, height: u32, tile_size: u32) -> (r: Result<TileGrid, ConfigError>)
        ensures
            width == 0 || height == 0 ==> r == Err::<TileGrid, ConfigError>(ConfigError::EmptyImage),
            width > 0 && height > 0 && tile_size == 0 ==> r == Err::<TileGrid, ConfigError>(
                ConfigError::ZeroTileSize,
            ),
            width > 0 && height > 0 && tile_size > 0 ==> r == Ok::<TileGrid, ConfigError>(
                TileGrid { width, height, tile_size },
            ),
    {
        if width == 0 || height == 0 {
            Err(ConfigError::EmptyImage)
        } else if tile_size == 0 {
            Err(ConfigError::ZeroTileSize)
        } else {
            Ok(TileGrid { width, height, tile_size })
        }
    }

    /// Number of tile columns.
    pub fn cols(&self) -> (c: u32)
        requires
            self.wf(),
        ensures
            c == self.cols_spec(),
            c > 0,
    {
        let q = self.width / self.tile_size;
        proof {
            lemma_quotient_room(self.width as int, self.tile_size as int);
        }
        let c = if self.width % self.tile_size == 0 { q } else { q + 1 };
        proof {
            lemma_tiles_along(self.width as int, self.tile_size as int);
        }
        c
    }

    /// Number of tile rows.
    pub fn rows(&self) -> (c: u32)
        requires
            self.wf(),
        ensures
            c == self.rows_spec(),
            c > 0,
    {
        let q = self.height / self.tile_size;
        proof {
            lemma_quotient_room(self.height as int, self.tile_size as int);
        }
        let c = if self.height % self.tile_size == 0 { q } else { q + 1 };
        proof {
            lemma_tiles_along(self.height as int, self.tile_size as int);
        }
        c
    }

    /// Number of tiles, that is of jobs handed to the workers.
    pub fn job_count(&self) -> (n: u64)
        requires
            self.wf(),
        ensures
            n == self.jobs_spec(),
    {
        let c = self.cols() as u64;
        let r = self.rows() as u64;
        assert(c * r <= u32::MAX * u32::MAX) by (nonlinear_arith)
            requires
                c <= u32::MAX,
                r <= u32::MAX,
        ;
        c * r
    }

    /// Top-left pixel of tile `job`.
    pub fn tile_origin(&self, job: u64) -> (o: (u32, u32))
        requires
            self.wf(),
            job < self.jobs_spec(),
        ensures
            o.0 == self.origin_spec(job as int).0,
            o.1 == self.origin_spec(job as int).1,
            o.0 < self.width,
            o.1 < self.height,
    {
        let cols = self.cols();
        let rows = self.rows();
        let t = self.tile_size;
        let col = (job % cols as u64) as u32;
        let row = (job / cols as u64) as u32;
        proof {
            lemma_job_row(job as int, cols as int, rows as int);
            lemma_tiles_along(self.width as int, t as int);
            lemma_tiles_along(self.height as int, t as int);
            lemma_start_inside(col as int, cols as int, t as int, self.width as int);
            lemma_start_inside(row as int, rows as int, t as int, self.height as int);
        }
        (t * col, t * row)
    }

    /// Width and height of tile `job`; edge tiles are clipped to the image.
    pub fn tile_extent(&self, job: u64) -> (e: (u32, u32))
        requires
            self.wf(),
            job < self.jobs_spec(),
        ensures
            e.0 == self.extent_spec(job as int).0,
            e.1 == self.extent_spec(job as int).1,
            0 < e.0 <= self.tile_size,
            0 < e.1 <= self.tile_size,
    {
        let (mx, my) = self.tile_origin(job);
        let w = if self.width - mx >= self.tile_size { self.tile_size } else { self.width - mx };
        let h = if self.height - my >= self.tile_size { self.tile_size } else { self.height - my };
        (w, h)
    }
}

proof fn lemma_tiles_along(len: int, t: int)
    requires
        len > 0,
        t > 0,
    ensures
        tiles_along(len, t) == if len % t == 0 { len / t } else { len / t + 1 },
        tiles_along(len, t) > 0,
        (tiles_along(len, t) - 1) * t < len <= tiles_along(len, t) * t,
{
    let q = len / t;
    let r = len % t;
    assert(len == q * t + r && 0 <= r < t) by {
        vstd::arithmetic::div_mod::lemma_fundamental_div_mod(len, t);
    }
    if r == 0 {
        assert(len + t - 1 == q * t + (t - 1));
        vstd::arithmetic::div_mod::lemma_div_multiples_vanish_fancy(q, t - 1, t);
    } else {
        assert(len + t - 1 == (q + 1) * t + (r - 1)) by (nonlinear_arith)
            requires
                len == q * t + r,
        ;
        vstd::arithmetic::div_mod::lemma_div_multiples_vanish_fancy(q + 1, r - 1, t);
    }
    assert(q >= 0) by {
        vstd::arithmetic::div_mod::lemma_div_pos_is_pos(len, t);
    }
    assert((tiles_along(len, t) - 1) * t < len <= tiles_along(len, t) * t) by (nonlinear_arith)
        requires
            len == q * t + r,
            0 <= r < t,
            tiles_along(len, t) == if r == 0 { q } else { q + 1 },
    ;
    if r == 0 {
        assert(q > 0) by (nonlinear_arith)
            requires
                len == q * t,
                len > 0,
                t > 0,
        ;
    }
}

proof fn lemma_quotient_room(len: int, t: int)
    requires
        0 < len <= u32::MAX,
        t > 0,
    ensures
        len % t != 0 ==> len / t < u32::MAX,
{
    vstd::arithmetic::div_mod::lemma_fundamental_div_mod(len, t);
    vstd::arithmetic::div_mod::lemma_div_pos_is_pos(len, t);
    assert(len % t != 0 ==> len / t < u32::MAX) by (nonlinear_arith)
        requires
            len == t * (len / t) + len % t,
            0 <= len % t < t,
            len / t >= 0,
            len <= u32::MAX,
    ;
}

proof fn lemma_job_row(job: int, cols: int, rows: int)
    requires
        cols > 0,
        rows > 0,
        0 <= job < cols * rows,
    ensures
        0 <= job % cols < cols,
        0 <= job / cols < rows,
{
    vstd::arithmetic::div_mod::lemma_fundamental_div_mod(job, cols);
    vstd::arithmetic::div_mod::lemma_div_pos_is_pos(job, cols);
    assert(job / cols < rows) by (nonlinear_arith)
        requires
            job == cols * (job / cols) + job % cols,
            0 <= job % cols,
            job < cols * rows,
            cols > 0,
    ;
}

proof fn lemma_start_inside(i: int, n: int, t: int, len: int)
    requires
        0 <= i < n,
        t > 0,
        (n - 1) * t < len,
    ensures
        0 <= t * i < len,
{
    assert(0 <= t * i < len) by (nonlinear_arith)
        requires
            0 <= i < n,
            t > 0,
            (n - 1) * t < len,
    ;
}

/// Every pixel of the image lies in exactly one tile: the tiles are pairwise
/// disjoint and together cover the image.
pub proof fn lemma_tiles_partition_image(g: TileGrid, x: int, y: int)
    requires
        g.wf(),
        0 <= x < g.width,
        0 <= y < g.height,
    ensures
        0 <= g.tile_of(x, y) < g.jobs_spec(),
        g.tile_contains(g.tile_of(x, y), x, y),
        forall|j: int| 0 <= j < g.jobs_spec() && #[trigger] g.tile_contains(j, x, y) ==> j == g.tile_of(x, y),
{
    let t = g.tile_size as int;
    let cols = g.cols_spec();
    let rows = g.rows_spec();
    lemma_tiles_along(g.width as int, t);
    lemma_tiles_along(g.height as int, t);
    let cx = x / t;
    let cy = y / t;
    vstd::arithmetic::div_mod::lemma_fundamental_div_mod(x, t);
    vstd::arithmetic::div_mod::lemma_fundamental_div_mod(y, t);
    vstd::arithmetic::div_mod::lemma_div_pos_is_pos(x, t);
    vstd::arithmetic::div_mod::lemma_div_pos_is_pos(y, t);
    assert(cx < cols) by (nonlinear_arith)
        requires
            x == t * cx + x % t,
            0 <= x % t,
            x < g.width,
            g.width <= cols * t,
            t > 0,
    ;
    assert(cy < rows) by (nonlinear_arith)
        requires
            y == t * cy + y % t,
            0 <= y % t,
            y < g.height,
            g.height <= rows * t,
            t > 0,
    ;
    let j = cy * cols + cx;
    assert(0 <= j < cols * rows) by (nonlinear_arith)
        requires
            0 <= cx < cols,
            0 <= cy < rows,
            j == cy * cols + cx,
    ;
    assert(j % cols == cx && j / cols == cy) by {
        vstd::arithmetic::div_mod::lemma_fundamental_div_mod_converse(j, cols, cy, cx);
    }
    assert forall|k: int| 0 <= k < g.jobs_spec() && #[trigger] g.tile_contains(k, x, y) implies k == j by {
        let kx = k % cols;
        let ky = k / cols;
        vstd::arithmetic::div_mod::lemma_fundamental_div_mod(k, cols);
        let (tw, th) = g.extent_spec(k);
        assert(tw <= t && th <= t);
        assert(t * kx <= x < t * kx + t);
        assert(t * ky <= y < t * ky + t);
        assert(kx == cx) by {
            vstd::arithmetic::div_mod::lemma_fundamental_div_mod_converse(x, t, kx, x - t * kx);
        }
        assert(ky == cy) by {
            vstd::arithmetic::div_mod::lemma_fundamental_div_mod_converse(y, t, ky, y - t * ky);
        }
        assert(k == ky * cols + kx) by (nonlinear_arith)
            requires
                k == cols * (k / cols) + k % cols,
                kx == k % cols,
                ky == k / cols,
        ;
    }
    assert(g.origin_spec(j) == (t * cx, t * cy));
    assert(t * cx <= x < t * cx + t);
    assert(t * cy <= y < t * cy + t);
}

} // verus!
