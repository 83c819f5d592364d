use vstd::prelude::*;
use vstd::arithmetic::div_mod::{lemma_fundamental_div_mod, lemma_fundamental_div_mod_converse};
use vstd::arithmetic::mul::{lemma_mul_inequality, lemma_mul_upper_bound};

use crate::color::Color;

verus! {

/// Number of chunks across the canvas (columns of the grid).
pub const HORIZONTAL_PARTITION: usize = 30;

/// Number of chunks down the canvas (rows of the grid).
pub const VERTICAL_PARTITION: usize = 30;

/// First coordinate of tile `k` when `extent` is cut into `parts` tiles.
pub open spec fn tile_start(extent: nat, parts: nat, k: nat) -> nat {
    k * (extent / parts)
}

/// Length of tile `k`: every tile gets `extent / parts`, and the last one
/// also takes the remainder.
pub open spec fn tile_len(extent: nat, parts: nat, k: nat) -> nat {
    if k + 1 == parts {
        extent / parts + extent % parts
    } else {
        extent / parts
    }
}

pub open spec fn in_tile(extent: nat, parts: nat, k: nat, p: nat) -> bool {
    tile_start(extent, parts, k) <= p < tile_start(extent, parts, k) + tile_len(extent, parts, k)
}

/// The tile that holds coordinate `p`.
pub open spec fn tile_of(extent: nat, parts: nat, p: nat) -> nat {
    let d = extent / parts;
    if d == 0 {
        (parts - 1) as nat
    } else if p / d < parts {
        p / d
    } else {
        (parts - 1) as nat
    }
}

proof fn lemma_tile_bounds(extent: nat, parts: nat, k: nat)
    requires
        parts > 0,
        k < parts,
    ensures
        tile_start(extent, parts, k) + tile_len(extent, parts, k) <= extent,
        k + 1 == parts ==> tile_start(extent, parts, k) + tile_len(extent, parts, k) == extent,
        tile_len(extent, parts, k) <= extent,
{
    let d = extent / parts;
    let r = extent % parts;
    lemma_fundamental_div_mod(extent as int, parts as int);
    assert(extent == parts * d + r);
    lemma_mul_inequality((k + 1) as int, parts as int, d as int);
    assert((k + 1) * d == k * d + d) by (nonlinear_arith);
    if k + 1 == parts {
        assert(parts * d == k * d + d) by (nonlinear_arith)
            requires k + 1 == parts;
    }
    assert(d + r <= extent) by (nonlinear_arith)
        requires extent == parts * d + r, parts >= 1, d >= 0, r >= 0;
}

/// Every coordinate below `extent` lies in exactly one tile, the one that
/// `tile_of` names: the tiles cut the extent into disjoint pieces that
/// cover it.
pub proof fn lemma_tiles_partition(extent: nat, parts: nat, p: nat, k: nat)
    requires
        parts > 0,
        p < extent,
        k < parts,
    ensures
        tile_of(extent, parts, p) < parts,
        in_tile(extent, parts, tile_of(extent, parts, p), p),
        in_tile(extent, parts, k, p) <==> k == tile_of(extent, parts, p),
{
    let d = extent / parts;
    let r = extent % parts;
    lemma_fundamental_div_mod(extent as int, parts as int);
    assert(extent == parts * d + r);
    let t = tile_of(extent, parts, p);
    lemma_tile_bounds(extent, parts, t);
    lemma_tile_bounds(extent, parts, k);
    if d == 0 {
        assert(tile_start(extent, parts, k) == 0) by (nonlinear_arith)
            requires d == 0, tile_start(extent, parts, k) == k * d;
        assert(parts * d == 0) by (nonlinear_arith)
            requires d == 0;
    } else {
        lemma_fundamental_div_mod(p as int, d as int);
        let q = p / d;
        assert(p == d * q + p % d);
        if q < parts {
            assert(t == q);
            assert(q * d <= p < q * d + d) by (nonlinear_arith)
                requires p == d * q + p % d, 0 <= p % d < d;
        } else {
            assert(t == parts - 1);
            assert((parts - 1) * d <= p) by (nonlinear_arith)
                requires p == d * q + p % d, q >= parts, d > 0, p % d >= 0;
        }
        // distinct tiles are ordered and disjoint
        if k < t {
            lemma_mul_inequality((k + 1) as int, t as int, d as int);
            assert((k + 1) * d == k * d + d) by (nonlinear_arith);
        } else if k > t {
            lemma_mul_inequality((t + 1) as int, k as int, d as int);
            assert((t + 1) * d == t * d + d) by (nonlinear_arith);
        }
    }
}

/// A rectangular piece of the canvas, rendered on its own into a private
/// RGBA buffer before it is copied into the shared framebuffer.
pub struct Chunk {
    /// Position of the chunk in the grid, row by row.
    pub num: usize,
    /// Width of the whole canvas.
    pub x: usize,
    /// Height of the whole canvas.
    pub y: usize,
    /// Width of the chunk.
    pub nx: usize,
    /// Height of the chunk.
    pub ny: usize,
    /// Column of the chunk's first pixel.
    pub start_x: usize,
    /// Row of the chunk's first pixel, counted from the bottom of the image.
    pub start_y: usize,
    /// `nx * ny` RGBA pixels, row by row from `start_y` upwards.
    pub buffer: Vec<u8>,
}

/// Whether pixel `(px, py)` lies in chunk `(i, j)` of a `width` by `height` canvas.
pub open spec fn chunk_holds(width: nat, height: nat, i: nat, j: nat, px: nat, py: nat) -> bool {
    in_tile(width, HORIZONTAL_PARTITION as nat, i, px) && in_tile(
        height,
        VERTICAL_PARTITION as nat,
        j,
        py,
    )
}

/// Each pixel of the canvas belongs to exactly one chunk of the grid, so
/// chunks rendered in parallel write disjoint parts of the image.
pub proof fn lemma_chunks_partition_canvas(
    width: nat,
    height: nat,
    px: nat,
    py: nat,
    i: nat,
    j: nat,
)
    requires
        px < width,
        py < height,
        i < HORIZONTAL_PARTITION,
        j < VERTICAL_PARTITION,
    ensures
        chunk_holds(
            width,
            height,
            tile_of(width, HORIZONTAL_PARTITION as nat, px),
            tile_of(height, VERTICAL_PARTITION as nat, py),
            px,
            py,
        ),
        chunk_holds(width, height, i, j, px, py) <==> (i == tile_of(
            width,
            HORIZONTAL_PARTITION as nat,
            px,
        ) && j == tile_of(height, VERTICAL_PARTITION as nat, py)),
{
    lemma_tiles_partition(width, HORIZONTAL_PARTITION as nat, px, i);
    lemma_tiles_partition(height, VERTICAL_PARTITION as nat, py, j);
}

fn zeroed(n: usize) -> (r: Vec<u8>)
    ensures
        r@ == Seq::new(n as nat, |k: int| 0u8),
{
    let mut r: Vec<u8> = Vec::with_capacity(n);
    let mut k: usize = 0;
    while k < n
        invariant
            k <= n,
            r@ == Seq::new(k as nat, |q: int| 0u8),
        decreases n - k,
    {
        r.push(0u8);
        k += 1;
        assert(r@ =~= Seq::new(k as nat, |q: int| 0u8));
    }
    r
}

impl Chunk {
    /// The chunk in column `i` and row `j` of the grid over a `width` by
    /// `height` canvas, with a zeroed buffer of its size.
    pub fn layout(width: usize, height: usize, i: usize, j: usize) -> (r: Chunk)
        requires
            i < HORIZONTAL_PARTITION,
            j < VERTICAL_PARTITION,
            width * height * 4 <= usize::MAX,
        ensures
            r.num == j * HORIZONTAL_PARTITION + i,
            r.x == width,
            r.y == height,
            r.start_x == tile_start(width as nat, HORIZONTAL_PARTITION as nat, i as nat),
            r.nx == tile_len(width as nat, HORIZONTAL_PARTITION as nat, i as nat),
            r.start_y == tile_start(height as nat, VERTICAL_PARTITION as nat, j as nat),
            r.ny == tile_len(height as nat, VERTICAL_PARTITION as nat, j as nat),
            r.buffer@ == Seq::new((r.nx * r.ny * 4) as nat, |k: int| 0u8),
            r.wf(),
            at_grid(&r, i as nat, j as nat),
    {
        let delta_x = width / HORIZONTAL_PARTITION;
        let delta_y = height / VERTICAL_PARTITION;
        let remx = width % HORIZONTAL_PARTITION;
        let remy = height % VERTICAL_PARTITION;
        proof {
            lemma_tile_bounds(width as nat, HORIZONTAL_PARTITION as nat, i as nat);
            lemma_tile_bounds(height as nat, VERTICAL_PARTITION as nat, j as nat);
        }
        let mut nx = delta_x;
        let mut ny = delta_y;
        let start_x = i * delta_x;
        let start_y = j * delta_y;
        if i + 1 == HORIZONTAL_PARTITION {
            nx += remx;
        }
        if j + 1 == VERTICAL_PARTITION {
            ny += remy;
        }
        proof {
            lemma_mul_upper_bound(nx as int, width as int, ny as int, height as int);
            assert(nx * ny * 4 <= width * height * 4) by (nonlinear_arith)
                requires nx * ny <= width * height;
        }
        let buffer = zeroed(nx * ny * 4);
        Chunk { num: j * HORIZONTAL_PARTITION + i, x: width, y: height, nx, ny, start_x, start_y, buffer }
    }

    /// The chunk lies inside its canvas and its buffer holds all its pixels.
    pub open spec fn wf(&self) -> bool {
        &&& self.start_x + self.nx <= self.x
        &&& self.start_y + self.ny <= self.y
        &&& self.x * self.y * 4 <= usize::MAX
        &&& self.buffer.len() == self.nx * self.ny * 4
    }
}

/// Byte `k` of a framebuffer lies in row `k / stride` at offset `k % stride`
/// exactly when it lies in the span `[row * stride + lo, row * stride + hi)`.
proof fn lemma_row_span(k: int, stride: int, row: int, lo: int, hi: int)
    requires
        stride > 0,
        0 <= lo <= hi <= stride,
        k >= 0,
        row >= 0,
    ensures
        (row * stride + lo <= k < row * stride + hi) <==> (k / stride == row && lo <= k % stride
            < hi),
{
    lemma_fundamental_div_mod(k, stride);
    assert(stride * (k / stride) == (k / stride) * stride) by (nonlinear_arith);
    if row * stride + lo <= k < row * stride + hi {
        lemma_fundamental_div_mod_converse(k, stride, row, k - row * stride);
    }
    if k / stride == row && lo <= k % stride < hi {
        assert(k == row * stride + k % stride);
    }
}

/// `n` bytes of `src` from `src_start` replace those of `dst` from `dst_start`.
fn copy_bytes(dst: &mut Vec<u8>, dst_start: usize, src: &Vec<u8>, src_start: usize, n: usize)
    requires
        dst_start + n <= old(dst).len(),
        src_start + n <= src.len(),
    ensures
        final(dst).len() == old(dst).len(),
        forall|k: int|
            0 <= k < old(dst).len() ==> final(dst)@[k] == if dst_start <= k < dst_start + n {
                src@[src_start + k - dst_start]
            } else {
                old(dst)@[k]
            },
{
    let mut m: usize = 0;
    while m < n
        invariant
            m <= n,
            dst_start + n <= dst.len(),
            src_start + n <= src.len(),
            dst.len() == old(dst).len(),
            forall|k: int|
                0 <= k < old(dst).len() ==> dst@[k] == if dst_start <= k < dst_start + m {
                    src@[src_start + k - dst_start]
                } else {
                    old(dst)@[k]
                },
        decreases n - m,
    {
        dst.set(dst_start + m, src[src_start + m]);
        m += 1;
    }
}

impl Chunk {
    /// Where byte `k` of the framebuffer comes from in this chunk's buffer,
    /// counting only the chunk rows below `rows_end`: the framebuffer stores
    /// rows top to bottom, four bytes per pixel, while the chunk counts its
    /// rows from the bottom of the image.
    pub open spec fn source_of(&self, k: int, rows_end: int) -> Option<int> {
        let stride = 4 * self.x;
        let py = self.y - 1 - k / stride;
        let o = k % stride;
        if self.start_y <= py < rows_end && 4 * self.start_x <= o < 4 * (self.start_x + self.nx) {
            Some((py - self.start_y) * 4 * self.nx + (o - 4 * self.start_x))
        } else {
            None
        }
    }

    /// Copies the chunk's pixels into the framebuffer of the whole canvas,
    /// flipping rows so that the image's top row comes first; every other
    /// byte is left as it was.
    pub fn copy_into(&self, framebuffer: &mut Vec<u8>)
        requires
            self.wf(),
            old(framebuffer).len() == self.x * self.y * 4,
        ensures
            final(framebuffer).len() == old(framebuffer).len(),
            forall|k: int|
                0 <= k < old(framebuffer).len() ==> final(framebuffer)@[k] == match self.source_of(
                    k,
                    self.start_y + self.ny,
                ) {
                    Some(s) => self.buffer@[s],
                    None => old(framebuffer)@[k],
                },
    {
        let x = self.x;
        let y = self.y;
        let nx = self.nx;
        let ghost stride = 4 * x;
        let mut temp_offset: usize = 0;
        let mut j: usize = self.start_y;
        proof {
            assert(self.nx * self.ny * 4 <= x * y * 4) by (nonlinear_arith)
                requires self.nx <= x, self.ny <= y;
            assert((j - self.start_y) * 4 * nx == 0) by (nonlinear_arith)
                requires j == self.start_y;
        }
        while j < self.start_y + self.ny
            invariant
                self.wf(),
                x == self.x,
                y == self.y,
                nx == self.nx,
                stride == 4 * x,
                self.start_y <= j <= self.start_y + self.ny,
                temp_offset == (j - self.start_y) * 4 * nx,
                framebuffer.len() == x * y * 4,
                forall|k: int|
                    0 <= k < framebuffer.len() ==> framebuffer@[k] == match self.source_of(k, j as int) {
                        Some(s) => self.buffer@[s],
                        None => old(framebuffer)@[k],
                    },
            decreases self.start_y + self.ny - j,
        {
            let ghost row = y - j - 1;
            proof {
                assert(((y - j - 1) * x + self.start_x) * 4 + nx * 4 <= x * y * 4) by (nonlinear_arith)
                    requires self.start_x + nx <= x, j < y;
                assert(((y - j - 1) * x + self.start_x) * 4 == row * stride + 4 * self.start_x)
                    by (nonlinear_arith)
                    requires row == y - j - 1, stride == 4 * x;
                assert(temp_offset + nx * 4 <= self.nx * self.ny * 4) by (nonlinear_arith)
                    requires temp_offset == (j - self.start_y) * 4 * nx, j < self.start_y + self.ny,
                    nx == self.nx;
            }
            let real_offset = ((y - j - 1) * x + self.start_x) * 4;
            let ghost before = framebuffer@;
            copy_bytes(framebuffer, real_offset, &self.buffer, temp_offset, nx * 4);
            proof {
                assert forall|k: int| 0 <= k < framebuffer.len() implies framebuffer@[k] == match self.source_of(
                    k,
                    j + 1,
                ) {
                    Some(s) => self.buffer@[s],
                    None => old(framebuffer)@[k],
                } by {
                    assert(x > 0) by (nonlinear_arith)
                        requires 0 <= k < x * y * 4;
                    lemma_row_span(k, stride, row, 4 * self.start_x, 4 * (self.start_x + nx));
                    lemma_fundamental_div_mod(k, stride);
                    if real_offset <= k < real_offset + nx * 4 {
                        assert(k / stride == row);
                        assert(k == row * stride + k % stride) by (nonlinear_arith)
                            requires k == stride * (k / stride) + k % stride, k / stride == row;
                        assert(k - real_offset == k % stride - 4 * self.start_x);
                        assert(framebuffer@[k] == self.buffer@[temp_offset + k - real_offset]);
                        assert(self.source_of(k, j + 1) == Some(
                            (j - self.start_y) * 4 * nx + (k % stride - 4 * self.start_x),
                        ));
                    } else {
                        assert(framebuffer@[k] == before[k]);
                        assert(self.source_of(k, j + 1) == self.source_of(k, j as int));
                    }
                }
                assert(temp_offset + nx * 4 == (j + 1 - self.start_y) * 4 * nx) by (nonlinear_arith)
                    requires temp_offset == (j - self.start_y) * 4 * nx;
            }
            temp_offset += nx * 4;
            j += 1;
        }
    }

    /// Stores `color` in the pixel that starts at byte `offset` of the
    /// chunk's buffer; bytes that fall past the end of the buffer are
    /// skipped, and the pixel's fourth byte is left alone.
    pub fn update_rgb(&mut self, color: Color, offset: usize)
        ensures
            final(self).num == old(self).num,
            final(self).x == old(self).x,
            final(self).y == old(self).y,
            final(self).nx == old(self).nx,
            final(self).ny == old(self).ny,
            final(self).start_x == old(self).start_x,
            final(self).start_y == old(self).start_y,
            final(self).buffer.len() == old(self).buffer.len(),
            forall|k: int|
                0 <= k < old(self).buffer.len() ==> final(self).buffer@[k] == if k == offset {
                    color.0
                } else if k == offset + 1 {
                    color.1
                } else if k == offset + 2 {
                    color.2
                } else {
                    old(self).buffer@[k]
                },
    {
        if offset < self.buffer.len() {
            self.buffer.set(offset, color.0);
        }
        if offset < usize::MAX && offset + 1 < self.buffer.len() {
            self.buffer.set(offset + 1, color.1);
        }
        if offset < usize::MAX - 1 && offset + 2 < self.buffer.len() {
            self.buffer.set(offset + 2, color.2);
        }
    }
}

/// The chunk is the one in column `i` and row `j` of the grid over its canvas.
pub open spec fn at_grid(c: &Chunk, i: nat, j: nat) -> bool {
    &&& i < HORIZONTAL_PARTITION
    &&& j < VERTICAL_PARTITION
    &&& c.start_x == tile_start(c.x as nat, HORIZONTAL_PARTITION as nat, i)
    &&& c.nx == tile_len(c.x as nat, HORIZONTAL_PARTITION as nat, i)
    &&& c.start_y == tile_start(c.y as nat, VERTICAL_PARTITION as nat, j)
    &&& c.ny == tile_len(c.y as nat, VERTICAL_PARTITION as nat, j)
}

/// Byte `k` that a chunk copies into the framebuffer belongs to a pixel of
/// that chunk.
proof fn lemma_source_pixel(c: &Chunk, i: nat, j: nat, k: int)
    requires
        at_grid(c, i, j),
        0 <= k < c.x * c.y * 4,
        c.source_of(k, c.start_y + c.ny) is Some,
    ensures
        chunk_holds(
            c.x as nat,
            c.y as nat,
            i,
            j,
            ((k % (4 * c.x)) / 4) as nat,
            (c.y - 1 - k / (4 * c.x)) as nat,
        ),
        (k % (4 * c.x)) / 4 < c.x,
        0 <= c.y - 1 - k / (4 * c.x) < c.y,
{
    let stride = 4 * c.x;
    assert(c.x > 0) by (nonlinear_arith)
        requires 0 <= k < c.x * c.y * 4;
    lemma_fundamental_div_mod(k, stride);
    let r = k / stride;
    let o = k % stride;
    assert(r < c.y) by (nonlinear_arith)
        requires k == stride * r + o, 0 <= o, k < c.x * c.y * 4, stride == 4 * c.x, r >= 0;
    assert(r >= 0) by (nonlinear_arith)
        requires k == stride * r + o, o < stride, k >= 0, stride > 0;
    lemma_fundamental_div_mod(o, 4);
}

/// Two different chunks of one canvas never copy into the same byte of the
/// framebuffer, so chunks rendered in parallel can share it without
/// overwriting each other.
pub proof fn lemma_copies_disjoint(c1: &Chunk, c2: &Chunk, i1: nat, j1: nat, i2: nat, j2: nat, k: int)
    requires
        c1.x == c2.x,
        c1.y == c2.y,
        at_grid(c1, i1, j1),
        at_grid(c2, i2, j2),
        i1 != i2 || j1 != j2,
        0 <= k < c1.x * c1.y * 4,
    ensures
        !(c1.source_of(k, c1.start_y + c1.ny) is Some && c2.source_of(k, c2.start_y + c2.ny) is Some),
{
    if c1.source_of(k, c1.start_y + c1.ny) is Some && c2.source_of(k, c2.start_y + c2.ny) is Some {
        lemma_source_pixel(c1, i1, j1, k);
        lemma_source_pixel(c2, i2, j2, k);
        let px = ((k % (4 * c1.x)) / 4) as nat;
        let py = (c1.y - 1 - k / (4 * c1.x)) as nat;
        lemma_chunks_partition_canvas(c1.x as nat, c1.y as nat, px, py, i1, j1);
        lemma_chunks_partition_canvas(c1.x as nat, c1.y as nat, px, py, i2, j2);
    }
}

} // verus!
