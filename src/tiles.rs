use vstd::prelude::*;
use vstd::arithmetic::div_mod::{lemma_fundamental_div_mod, lemma_fundamental_div_mod_converse};

verus! {

/// Pixel `(column, row)` of the `k`-th byte of band `tile`, where each band
/// holds `rows` full image rows of `width` pixels, stored row-major.
pub open spec fn band_pixel(width: int, rows: int, tile: int, k: int) -> (int, int) {
    (k % width, tile * rows + k / width)
}

/// Pixel `(column, row)` of the `p`-th byte of a row-major image.
pub open spec fn raster_pixel(width: int, p: int) -> (int, int) {
    (p % width, p / width)
}

/// The canvas made by laying bands of `band_len` bytes end to end.
pub open spec fn assembled(band_len: int, size: int, bands: Seq<Seq<u8>>) -> Seq<u8> {
    Seq::new(size as nat, |p: int| bands[p / band_len][p % band_len])
}

/// The bands of a `width` x `height` image split into `tile_count` equal
/// row-bands, each pixel valued by `g(column, row)`.
pub open spec fn bands_of(width: int, height: int, tile_count: int, g: spec_fn(int, int) -> u8) -> Seq<
    Seq<u8>,
> {
    let rows = height / tile_count;
    Seq::new(
        tile_count as nat,
        |t: int|
            Seq::new(
                (rows * width) as nat,
                |k: int| g(band_pixel(width, rows, t, k).0, band_pixel(width, rows, t, k).1),
            ),
    )
}

/// A `width` x `height` image evaluated pixel by pixel in row-major order.
pub open spec fn raster(width: int, height: int, g: spec_fn(int, int) -> u8) -> Seq<u8> {
    Seq::new((width * height) as nat, |p: int| g(p % width, p / width))
}

/// Signed distance of pixel `index` from the centre pixel `size / 2` of an
/// axis `size` pixels long; the plane coordinate of the pixel is this
/// distance over `size`, times the viewport extent, plus its centre.
pub fn centered_offset(index: usize, size: usize) -> (r: i64)
    requires
        index <= size,
        size <= i64::MAX,
    ensures
        r == index as int - size as int / 2,
{
    index as i64 - (size / 2) as i64
}

/// Why an image cannot be split into tiles.
#[derive(Clone, Copy, Debug, PartialEq, Eq, Structural)]
pub enum LayoutError {
    /// The tile count is zero.
    NoTiles,
    /// The image height is not a multiple of the tile count.
    UnevenRows,
    /// The image has more pixels than fit in memory indices.
    TooLarge,
}

/// A split of a `width` x `height` row-major image into `tile_count`
/// contiguous, equal row-bands. Band `t` covers rows
/// `t * rows_per_tile .. (t + 1) * rows_per_tile`.
#[derive(Clone, Copy, Debug, PartialEq, Eq, Structural)]
pub struct TileLayout {
    width: usize,
    height: usize,
    tile_count: usize,
}

/// Index arithmetic of a byte at offset `k` within band `tile`.
pub proof fn lemma_band_position(width: int, rows: int, tile: int, k: int)
    requires
        width > 0,
        rows >= 0,
        tile >= 0,
        0 <= k < rows * width,
    ensures
        (tile * (rows * width) + k) / (rows * width) == tile,
        (tile * (rows * width) + k) % (rows * width) == k,
        raster_pixel(width, tile * (rows * width) + k) == band_pixel(width, rows, tile, k),
        k / width < rows,
{
    let p = tile * (rows * width) + k;
    lemma_fundamental_div_mod_converse(p, rows * width, tile, k);
    lemma_fundamental_div_mod(k, width);
    let q = k / width;
    let r = k % width;
    assert(0 <= r < width);
    assert(p == (tile * rows + q) * width + r) by (nonlinear_arith)
        requires
            p == tile * (rows * width) + k,
            k == width * q + r,
    ;
    lemma_fundamental_div_mod_converse(p, width, tile * rows + q, r);
    assert(q < rows) by (nonlinear_arith)
        requires
            k == width * q + r,
            0 <= r,
            k < rows * width,
            width > 0,
    ;
}

/// Where the `p`-th byte of the canvas lies when the image is split into
/// `tile_count` row-bands: band `p / band_len`, offset `p % band_len`.
pub proof fn lemma_canvas_position(width: int, height: int, tile_count: int, p: int)
    requires
        width >= 0,
        height >= 0,
        tile_count > 0,
        height % tile_count == 0,
        0 <= p < width * height,
    ensures
        width > 0,
        (height / tile_count) * width > 0,
        0 <= p / ((height / tile_count) * width) < tile_count,
        0 <= p % ((height / tile_count) * width) < (height / tile_count) * width,
        raster_pixel(width, p) == band_pixel(
            width,
            height / tile_count,
            p / ((height / tile_count) * width),
            p % ((height / tile_count) * width),
        ),
{
    let rows = height / tile_count;
    let bl = rows * width;
    lemma_fundamental_div_mod(height, tile_count);
    assert(bl * tile_count == width * height && rows >= 0) by (nonlinear_arith)
        requires
            height == tile_count * rows + 0,
            tile_count > 0,
            height >= 0,
            bl == rows * width,
    ;
    assert(width > 0 && bl > 0) by (nonlinear_arith)
        requires
            bl * tile_count == width * height,
            0 <= p < width * height,
            bl == rows * width,
            width >= 0,
            rows >= 0,
            tile_count > 0,
    ;
    lemma_fundamental_div_mod(p, bl);
    let t = p / bl;
    let k = p % bl;
    assert(0 <= t < tile_count) by (nonlinear_arith)
        requires
            p == bl * t + k,
            0 <= k < bl,
            0 <= p < bl * tile_count,
    ;
    assert(p == t * (rows * width) + k) by (nonlinear_arith)
        requires
            p == bl * t + k,
            bl == rows * width,
    ;
    lemma_band_position(width, rows, t, k);
}

/// Splitting an image into equal row-bands, evaluating each band and
/// laying the bands end to end gives the image evaluated pixel by pixel in
/// row-major order.
pub proof fn lemma_tiled_frame_is_raster(
    width: int,
    height: int,
    tile_count: int,
    g: spec_fn(int, int) -> u8,
)
    requires
        width >= 0,
        height >= 0,
        tile_count > 0,
        height % tile_count == 0,
    ensures
        assembled(
            (height / tile_count) * width,
            width * height,
            bands_of(width, height, tile_count, g),
        ) == raster(width, height, g),
{
    let lhs = assembled(
        (height / tile_count) * width,
        width * height,
        bands_of(width, height, tile_count, g),
    );
    let rhs = raster(width, height, g);
    assert forall|p: int| 0 <= p < width * height implies lhs[p] == rhs[p] by {
        lemma_canvas_position(width, height, tile_count, p);
    }
    assert(lhs =~= rhs);
}

/// Two splits of the same image into different numbers of row-bands
/// produce byte-identical canvases.
pub proof fn lemma_tile_count_irrelevant(a: TileLayout, b: TileLayout, g: spec_fn(int, int) -> u8)
    requires
        a.wf(),
        b.wf(),
        a.spec_width() == b.spec_width(),
        a.spec_height() == b.spec_height(),
    ensures
        assembled(
            a.spec_band_len(),
            a.spec_size(),
            bands_of(a.spec_width() as int, a.spec_height() as int, a.spec_tile_count() as int, g),
        ) == assembled(
            b.spec_band_len(),
            b.spec_size(),
            bands_of(b.spec_width() as int, b.spec_height() as int, b.spec_tile_count() as int, g),
        ),
{
    lemma_tiled_frame_is_raster(a.spec_width() as int, a.spec_height() as int, a.spec_tile_count() as int, g);
    lemma_tiled_frame_is_raster(b.spec_width() as int, b.spec_height() as int, b.spec_tile_count() as int, g);
}

impl TileLayout {
    pub closed spec fn spec_width(&self) -> usize {
        self.width
    }

    pub closed spec fn spec_height(&self) -> usize {
        self.height
    }

    pub closed spec fn spec_tile_count(&self) -> usize {
        self.tile_count
    }

    /// Rows in each band.
    pub open spec fn spec_rows(&self) -> int {
        self.spec_height() as int / self.spec_tile_count() as int
    }

    /// Bytes in each band.
    pub open spec fn spec_band_len(&self) -> int {
        self.spec_rows() * self.spec_width() as int
    }

    /// Bytes in the whole canvas.
    pub open spec fn spec_size(&self) -> int {
        self.spec_width() as int * self.spec_height() as int
    }

    pub open spec fn wf(&self) -> bool {
        &&& self.spec_tile_count() > 0
        &&& self.spec_height() as int % self.spec_tile_count() as int == 0
        &&& self.spec_size() <= usize::MAX
    }

    /// Validates a split of a `width` x `height` image into `tile_count`
    /// row-bands.
    pub fn new(width: usize, height: usize, tile_count: usize) -> (r: Result<TileLayout, LayoutError>)
        ensures
            tile_count == 0 <==> r == Err::<TileLayout, LayoutError>(LayoutError::NoTiles),
            (tile_count > 0 && height % tile_count != 0) <==> r == Err::<TileLayout, LayoutError>(
                LayoutError::UnevenRows,
            ),
            (tile_count > 0 && height % tile_count == 0 && width * height > usize::MAX) <==> r
                == Err::<TileLayout, LayoutError>(LayoutError::TooLarge),
            r is Ok <==> (tile_count > 0 && height % tile_count == 0 && width * height <= usize::MAX),
            r matches Ok(l) ==> l.wf() && l.spec_width() == width && l.spec_height() == height
                && l.spec_tile_count() == tile_count,
    {
        if tile_count == 0 {
            Err(LayoutError::NoTiles)
        } else if height % tile_count != 0 {
            Err(LayoutError::UnevenRows)
        } else if width.checked_mul(height).is_none() {
            Err(LayoutError::TooLarge)
        } else {
            Ok(TileLayout { width, height, tile_count })
        }
    }

    #[verifier::when_used_as_spec(spec_width)]
    pub fn width(&self) -> (r: usize)
        ensures
            r == self.spec_width(),
    {
        self.width
    }

    #[verifier::when_used_as_spec(spec_height)]
    pub fn height(&self) -> (r: usize)
        ensures
            r == self.spec_height(),
    {
        self.height
    }

    #[verifier::when_used_as_spec(spec_tile_count)]
    pub fn tile_count(&self) -> (r: usize)
        ensures
            r == self.spec_tile_count(),
    {
        self.tile_count
    }

    proof fn lemma_sizes(&self)
        requires
            self.wf(),
        ensures
            self.spec_band_len() * self.spec_tile_count() == self.spec_size(),
            0 <= self.spec_band_len() <= self.spec_size(),
            0 <= self.spec_rows() <= self.spec_height(),
    {
        let h = self.spec_height() as int;
        let tc = self.spec_tile_count() as int;
        let w = self.spec_width() as int;
        lemma_fundamental_div_mod(h, tc);
        let rows = h / tc;
        assert(rows * w * tc == w * h && 0 <= rows * w <= w * h && 0 <= rows <= h)
            by (nonlinear_arith)
            requires
                h == tc * rows + 0,
                tc > 0,
                w >= 0,
                h >= 0,
        ;
    }

    /// Number of rows in each band.
    pub fn rows_per_tile(&self) -> (r: usize)
        requires
            self.wf(),
        ensures
            r == self.spec_rows(),
    {
        self.height / self.tile_count
    }

    /// Number of bytes in each band.
    pub fn band_len(&self) -> (r: usize)
        requires
            self.wf(),
        ensures
            r == self.spec_band_len(),
    {
        proof {
            self.lemma_sizes();
        }
        (self.height / self.tile_count) * self.width
    }

    /// Number of bytes in the whole canvas.
    pub fn size(&self) -> (r: usize)
        requires
            self.wf(),
        ensures
            r == self.spec_size(),
    {
        self.width * self.height
    }

    /// The rows `start .. end` that band `tile` covers.
    pub fn tile_rows(&self, tile: usize) -> (r: (usize, usize))
        requires
            self.wf(),
            tile < self.spec_tile_count(),
        ensures
            r.0 == tile * self.spec_rows(),
            r.1 == r.0 + self.spec_rows(),
            r.1 <= self.spec_height(),
    {
        let rows = self.height / self.tile_count;
        proof {
            self.lemma_sizes();
            let h = self.spec_height() as int;
            let tc = self.spec_tile_count() as int;
            lemma_fundamental_div_mod(h, tc);
            assert(tile * rows + rows <= h) by (nonlinear_arith)
                requires
                    h == tc * rows + 0,
                    tile < tc,
                    rows >= 0,
            ;
        }
        (tile * rows, tile * rows + rows)
    }

    /// The `(column, row)` of the `k`-th byte of band `tile`.
    pub fn pixel(&self, tile: usize, k: usize) -> (r: (usize, usize))
        requires
            self.wf(),
            tile < self.spec_tile_count(),
            k < self.spec_band_len(),
        ensures
            r.0 as int == band_pixel(self.spec_width() as int, self.spec_rows(), tile as int, k as int).0,
            r.1 as int == band_pixel(self.spec_width() as int, self.spec_rows(), tile as int, k as int).1,
            r.0 < self.spec_width(),
            r.1 < self.spec_height(),
    {
        let (start, _end) = self.tile_rows(tile);
        proof {
            self.lemma_sizes();
            if self.spec_width() == 0 {
                assert(self.spec_band_len() == 0);
            }
            lemma_band_position(self.spec_width() as int, self.spec_rows(), tile as int, k as int);
        }
        (k % self.width, start + k / self.width)
    }

    /// Evaluates every pixel of band `tile` with `f(column, row)`, in the
    /// band's row-major order.
    pub fn compute_band<F: Fn(usize, usize) -> u8>(&self, tile: usize, f: &F) -> (r: Vec<u8>)
        requires
            self.wf(),
            tile < self.spec_tile_count(),
            forall|c: usize, row: usize| f.requires((c, row)),
        ensures
            r@.len() == self.spec_band_len(),
            forall|k: int|
                0 <= k < self.spec_band_len() ==> f.ensures(
                    (
                        band_pixel(self.spec_width() as int, self.spec_rows(), tile as int, k).0 as usize,
                        band_pixel(self.spec_width() as int, self.spec_rows(), tile as int, k).1 as usize,
                    ),
                    #[trigger] r@[k],
                ),
    {
        let len = self.band_len();
        let mut out: Vec<u8> = Vec::new();
        let mut k: usize = 0;
        while k < len
            invariant
                self.wf(),
                tile < self.spec_tile_count(),
                forall|c: usize, row: usize| f.requires((c, row)),
                len == self.spec_band_len(),
                k <= len,
                out@.len() == k,
                forall|j: int|
                    0 <= j < k ==> f.ensures(
                        (
                            band_pixel(self.spec_width() as int, self.spec_rows(), tile as int, j).0 as usize,
                            band_pixel(self.spec_width() as int, self.spec_rows(), tile as int, j).1 as usize,
                        ),
                        #[trigger] out@[j],
                    ),
            decreases len - k,
        {
            let (c, row) = self.pixel(tile, k);
            let v = f(c, row);
            out.push(v);
            k = k + 1;
        }
        out
    }

    /// Copies each band into the canvas at its assigned offset: band `t`
    /// lands at bytes `t * band_len .. (t + 1) * band_len`.
    pub fn assemble_into(&self, canvas: &mut Vec<u8>, bands: &Vec<Vec<u8>>)
        requires
            self.wf(),
            old(canvas)@.len() == self.spec_size(),
            bands@.len() == self.spec_tile_count(),
            forall|t: int| 0 <= t < bands@.len() ==> (#[trigger] bands@[t])@.len() == self.spec_band_len(),
        ensures
            final(canvas)@.len() == self.spec_size(),
            forall|p: int|
                0 <= p < self.spec_size() ==> #[trigger] final(canvas)@[p] == bands@[p
                    / self.spec_band_len()]@[p % self.spec_band_len()],
    {
        let bl = self.band_len();
        let tc = self.tile_count;
        proof {
            self.lemma_sizes();
        }
        let mut t: usize = 0;
        while t < tc
            invariant
                self.wf(),
                bl == self.spec_band_len(),
                tc == self.spec_tile_count(),
                bl * tc == self.spec_size(),
                canvas@.len() == self.spec_size(),
                bands@.len() == tc,
                forall|i: int| 0 <= i < bands@.len() ==> (#[trigger] bands@[i])@.len() == bl,
                t <= tc,
                forall|p: int| 0 <= p < t * bl ==> #[trigger] canvas@[p] == bands@[p / bl as int]@[p % bl as int],
            decreases tc - t,
        {
            assert(t * bl + bl <= tc * bl) by (nonlinear_arith)
                requires
                    t < tc,
            ;
            let base = t * bl;
            let mut k: usize = 0;
            while k < bl
                invariant
                    self.wf(),
                    bl == self.spec_band_len(),
                    tc == self.spec_tile_count(),
                    bl * tc == self.spec_size(),
                    canvas@.len() == self.spec_size(),
                    bands@.len() == tc,
                    forall|i: int| 0 <= i < bands@.len() ==> (#[trigger] bands@[i])@.len() == bl,
                    t < tc,
                    base == t * bl,
                    base + bl <= tc * bl,
                    k <= bl,
                    forall|p: int|
                        0 <= p < base + k ==> #[trigger] canvas@[p] == bands@[p / bl as int]@[p % bl as int],
                decreases bl - k,
            {
                proof {
                    lemma_fundamental_div_mod_converse((base + k) as int, bl as int, t as int, k as int);
                }
                let v = bands[t][k];
                canvas.set(base + k, v);
                k = k + 1;
            }
            assert((t + 1) * bl == base + bl) by (nonlinear_arith)
                requires
                    base == t * bl,
            ;
            t = t + 1;
        }
    }

    /// Computes the whole canvas band by band with `f(column, row)`: byte
    /// `p` holds the value of pixel `(p % width, p / width)`.
    pub fn compute_frame<F: Fn(usize, usize) -> u8>(&self, f: &F) -> (r: Vec<u8>)
        requires
            self.wf(),
            forall|c: usize, row: usize| f.requires((c, row)),
        ensures
            r@.len() == self.spec_size(),
            forall|p: int|
                0 <= p < self.spec_size() ==> f.ensures(
                    (
                        raster_pixel(self.spec_width() as int, p).0 as usize,
                        raster_pixel(self.spec_width() as int, p).1 as usize,
                    ),
                    #[trigger] r@[p],
                ),
    {
        let tc = self.tile_count;
        let mut bands: Vec<Vec<u8>> = Vec::new();
        let mut t: usize = 0;
        while t < tc
            invariant
                self.wf(),
                tc == self.spec_tile_count(),
                forall|c: usize, row: usize| f.requires((c, row)),
                t <= tc,
                bands@.len() == t,
                forall|i: int| 0 <= i < t ==> (#[trigger] bands@[i])@.len() == self.spec_band_len(),
                forall|i: int, k: int|
                    0 <= i < t && 0 <= k < self.spec_band_len() ==> f.ensures(
                        (
                            band_pixel(self.spec_width() as int, self.spec_rows(), i, k).0 as usize,
                            band_pixel(self.spec_width() as int, self.spec_rows(), i, k).1 as usize,
                        ),
                        #[trigger] bands@[i]@[k],
                    ),
            decreases tc - t,
        {
            let band = self.compute_band(t, f);
            bands.push(band);
            proof {
                assert forall|i: int, k: int|
                    0 <= i < t + 1 && 0 <= k < self.spec_band_len() implies f.ensures(
                    (
                        band_pixel(self.spec_width() as int, self.spec_rows(), i, k).0 as usize,
                        band_pixel(self.spec_width() as int, self.spec_rows(), i, k).1 as usize,
                    ),
                    #[trigger] bands@[i]@[k],
                ) by {
                    if i == t {
                        assert(bands@[i]@[k] == band@[k]);
                    }
                }
            }
            t = t + 1;
        }
        let n = self.size();
        let mut canvas: Vec<u8> = Vec::new();
        let mut i: usize = 0;
        while i < n
            invariant
                i <= n,
                canvas@.len() == i,
            decreases n - i,
        {
            canvas.push(0);
            i = i + 1;
        }
        self.assemble_into(&mut canvas, &bands);
        proof {
            assert forall|p: int| 0 <= p < self.spec_size() implies f.ensures(
                (
                    raster_pixel(self.spec_width() as int, p).0 as usize,
                    raster_pixel(self.spec_width() as int, p).1 as usize,
                ),
                #[trigger] canvas@[p],
            ) by {
                lemma_canvas_position(
                    self.spec_width() as int,
                    self.spec_height() as int,
                    self.spec_tile_count() as int,
                    p,
                );
                let bl = self.spec_band_len();
                assert(canvas@[p] == bands@[p / bl]@[p % bl]);
            }
        }
        canvas
    }
}

} // verus!
