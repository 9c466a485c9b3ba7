//! Tiles laid out as one grid image per resolution: cell (row, column) holds
//! the tile `row * columns + column`, and the pixels of the image run row
//! after row.
use crate::tile_set::{tiles_view, TileBitmap, TileSet, TileSetError};
use vstd::arithmetic::div_mod::{lemma_fundamental_div_mod, lemma_fundamental_div_mod_converse};
use vstd::prelude::*;

verus! {

/// One grid image of tiles: its cell size, its number of cells across and
/// down, and its pixels, row after row.
#[derive(Debug, PartialEq, Eq)]
pub struct TileGrid {
    tile_width: usize,
    tile_height: usize,
    columns: usize,
    rows: usize,
    pixels: Vec<u8>,
}

/// The model of a `TileGrid`.
pub struct GridView {
    pub tile_width: nat,
    pub tile_height: nat,
    pub columns: nat,
    pub rows: nat,
    pub pixels: Seq<u8>,
}

impl View for TileGrid {
    type V = GridView;

    closed spec fn view(&self) -> GridView {
        GridView {
            tile_width: self.tile_width as nat,
            tile_height: self.tile_height as nat,
            columns: self.columns as nat,
            rows: self.rows as nat,
            pixels: self.pixels@,
        }
    }
}

impl GridView {
    /// The width of the image in pixels.
    pub open spec fn width(self) -> nat {
        self.columns * self.tile_width
    }

    /// The height of the image in pixels.
    pub open spec fn height(self) -> nat {
        self.rows * self.tile_height
    }

    /// The cells are not empty and the pixels fill the image exactly.
    pub open spec fn wf(self) -> bool {
        &&& self.tile_width > 0
        &&& self.tile_height > 0
        &&& self.columns > 0
        &&& self.pixels.len() == self.height() * self.width()
        &&& self.pixels.len() <= usize::MAX
    }

    /// The position in the image of pixel `i` (row after row) of tile `t`.
    pub open spec fn pixel_index(self, t: int, i: int) -> int {
        let r = t / self.columns as int;
        let c = t % self.columns as int;
        let y = i / self.tile_width as int;
        let x = i % self.tile_width as int;
        (r * self.tile_height + y) * self.width() + c * self.tile_width + x
    }

    /// The pixels of tile `t`, row after row.
    pub open spec fn tile(self, t: int) -> Seq<u8> {
        Seq::new(self.tile_width * self.tile_height, |i: int| self.pixels[self.pixel_index(t, i)])
    }

    /// All the tiles of the grid, in raster order.
    pub open spec fn tiles(self) -> Seq<Seq<u8>> {
        Seq::new(self.rows * self.columns, |t: int| self.tile(t))
    }
}

/// The pixels of a grid image `columns` cells across made of these tiles.
pub open spec fn assemble(tiles: Seq<Seq<u8>>, tile_width: nat, tile_height: nat, columns: nat) -> Seq<u8> {
    let rows = tiles.len() / columns;
    let width = columns * tile_width;
    Seq::new(
        (rows * tile_height) * width,
        |p: int|
            {
                let gy = p / width as int;
                let gx = p % width as int;
                let t = (gy / tile_height as int) * columns + gx / tile_width as int;
                let i = (gy % tile_height as int) * tile_width + gx % tile_width as int;
                tiles[t][i]
            },
    )
}

/// Tiles that can be laid out in a grid `columns` cells across: cells that
/// are not empty, full rows, every tile of the cell's size, and a pixel count
/// that fits in memory.
pub open spec fn can_assemble(tiles: Seq<Seq<u8>>, tile_width: nat, tile_height: nat, columns: nat) -> bool {
    &&& tile_width > 0
    &&& tile_height > 0
    &&& columns > 0
    &&& tiles.len() % columns == 0
    &&& forall|t: int| 0 <= t < tiles.len() ==> (#[trigger] tiles[t]).len() == tile_width * tile_height
    &&& (tiles.len() / columns * tile_height) * (columns * tile_width) <= usize::MAX
}

/// Why pixels or tiles do not make a grid image.
#[derive(Debug, PartialEq, Eq)]
pub enum TileGridError {
    /// A cell size or a column count of zero, or an image that is not a
    /// whole number of cells across and down.
    InvalidGeometry,
    /// The pixels do not fill the image.
    PixelCountMismatch { expected: usize, actual: usize },
    /// The tiles do not fill whole rows.
    IncompleteRow { tiles: usize, columns: usize },
    /// A tile whose size is not the cell's.
    TileSizeMismatch { index: usize },
    /// The image would not fit in memory.
    TooLarge,
}

proof fn lemma_cell_in_image(rows: int, th: int, cols: int, tw: int, r: int, y: int, c: int, x: int)
    requires
        0 <= r < rows,
        0 <= y < th,
        0 <= c < cols,
        0 <= x < tw,
    ensures
        0 <= c * tw + x < cols * tw,
        0 <= r * th + y < rows * th,
        0 <= (r * th + y) * (cols * tw) + c * tw + x < (rows * th) * (cols * tw),
{
    assert(0 <= c * tw + x < cols * tw) by (nonlinear_arith)
        requires
            0 <= c < cols,
            0 <= x < tw,
    ;
    assert(0 <= r * th + y < rows * th) by (nonlinear_arith)
        requires
            0 <= r < rows,
            0 <= y < th,
    ;
    let a = r * th + y;
    let w = cols * tw;
    let b = c * tw + x;
    assert(0 <= a * w + b < (rows * th) * w) by (nonlinear_arith)
        requires
            0 <= a < rows * th,
            0 <= b < w,
    ;
}

impl TileGrid {
    #[verifier::type_invariant]
    spec fn inv(self) -> bool {
        self@.wf()
    }

    /// A grid of `width` by `height` pixels with cells of `tile_width` by
    /// `tile_height`; refused when the image is not a whole number of cells
    /// across and down, or the pixels do not fill it.
    pub fn new(tile_width: usize, tile_height: usize, width: usize, height: usize, pixels: Vec<u8>) -> (r: Result<TileGrid, TileGridError>)
        ensures
            r is Ok <==> (tile_width > 0 && tile_height > 0 && width > 0 && width % tile_width == 0 && height
                % tile_height == 0 && pixels@.len() == width * height),
            r matches Ok(g) ==> g@.wf() && g@ == (GridView {
                tile_width: tile_width as nat,
                tile_height: tile_height as nat,
                columns: (width / tile_width) as nat,
                rows: (height / tile_height) as nat,
                pixels: pixels@,
            }),
    {
        if tile_width == 0 || tile_height == 0 || width == 0 || width % tile_width != 0 || height % tile_height != 0 {
            return Err(TileGridError::InvalidGeometry);
        }
        let expected = match width.checked_mul(height) {
            Some(e) => e,
            None => {
                return Err(TileGridError::PixelCountMismatch { expected: usize::MAX, actual: pixels.len() });
            },
        };
        if pixels.len() != expected {
            return Err(TileGridError::PixelCountMismatch { expected, actual: pixels.len() });
        }
        let columns = width / tile_width;
        let rows = height / tile_height;
        proof {
            let (w, h, tw, th) = (width as int, height as int, tile_width as int, tile_height as int);
            lemma_fundamental_div_mod(w, tw);
            lemma_fundamental_div_mod(h, th);
            let (c, r) = (columns as int, rows as int);
            assert(w == c * tw) by (nonlinear_arith)
                requires
                    w == tw * (w / tw) + w % tw,
                    w % tw == 0,
                    c == w / tw,
            ;
            assert(h == r * th) by (nonlinear_arith)
                requires
                    h == th * (h / th) + h % th,
                    h % th == 0,
                    r == h / th,
            ;
            assert(c > 0) by (nonlinear_arith)
                requires
                    w == c * tw,
                    w > 0,
                    c >= 0,
            ;
            assert((r * th) * (c * tw) == w * h) by (nonlinear_arith)
                requires
                    w == c * tw,
                    h == r * th,
            ;
        }
        Ok(TileGrid { tile_width, tile_height, columns, rows, pixels })
    }
}

impl TileGrid {
    /// The tiles of the grid, in raster order.
    pub fn tiles(&self) -> (r: Vec<TileBitmap>)
        ensures
            tiles_view(r@) == self@.tiles(),
    {
        proof {
            use_type_invariant(self);
        }
        let ghost g = self@;
        let ghost len = self.pixels@.len() as int;
        let (tw, th, cols, rows) = (self.tile_width, self.tile_height, self.columns, self.rows);
        proof {
            assert(rows * cols <= (rows * th) * (cols * tw)) by (nonlinear_arith)
                requires
                    tw >= 1,
                    th >= 1,
            ;
        }
        let n = rows * cols;
        let mut out: Vec<TileBitmap> = Vec::new();
        let mut t: usize = 0;
        while t < n
            invariant
                g == self@,
                g.wf(),
                len == g.pixels.len(),
                tw == g.tile_width,
                th == g.tile_height,
                cols == g.columns,
                rows == g.rows,
                n == rows * cols,
                t <= n,
                tiles_view(out@) == g.tiles().take(t as int),
            decreases n - t,
        {
            let r = t / cols;
            let c = t % cols;
            proof {
                lemma_fundamental_div_mod(t as int, cols as int);
                assert(r < rows) by (nonlinear_arith)
                    requires
                        t == cols * r + c,
                        0 <= c,
                        t < rows * cols,
                        cols > 0,
                ;
                assert(tw * th <= (rows * th) * (cols * tw) && cols * tw <= (rows * th) * (cols * tw)) by (nonlinear_arith)
                    requires
                        tw >= 1,
                        th >= 1,
                        rows >= 1,
                        cols >= 1,
                ;
            }
            let w = cols * tw;
            let cell = tw * th;
            let mut data: Vec<u8> = Vec::new();
            let mut i: usize = 0;
            while i < cell
                invariant
                    g == self@,
                    g.wf(),
                    len == g.pixels.len(),
                    tw == g.tile_width,
                    th == g.tile_height,
                    cols == g.columns,
                    rows == g.rows,
                    w == cols * tw,
                    cell == tw * th,
                    r as int == t as int / cols as int,
                    c as int == t as int % cols as int,
                    r < rows,
                    c < cols,
                    i <= cell,
                    data@ == g.tile(t as int).take(i as int),
                decreases cell - i,
            {
                let y = i / tw;
                let x = i % tw;
                proof {
                    lemma_fundamental_div_mod(i as int, tw as int);
                    assert(y < th) by (nonlinear_arith)
                        requires
                            i == tw * y + x,
                            0 <= x,
                            i < tw * th,
                            tw > 0,
                    ;
                    lemma_cell_in_image(rows as int, th as int, cols as int, tw as int, r as int, y as int, c as int, x as int);
                    assert(len == (rows * th) * (cols * tw));
                    assert(w >= 1) by (nonlinear_arith)
                        requires
                            w == cols * tw,
                            cols >= 1,
                            tw >= 1,
                    ;
                    assert((r * th + y) * w + c * tw + x < len);
                    assert(0 <= (r * th + y) * w <= (r * th + y) * w + c * tw + x) by (nonlinear_arith)
                        requires
                            0 <= r,
                            0 <= y,
                            0 <= c,
                            0 <= x,
                            0 <= w,
                            0 <= th,
                            0 <= tw,
                    ;
                    assert(r * th + y <= (r * th + y) * w) by (nonlinear_arith)
                        requires
                            0 <= r * th + y,
                            w >= 1,
                    ;
                    assert(0 <= r * th <= r * th + y) by (nonlinear_arith)
                        requires
                            0 <= r,
                            0 <= y,
                            0 <= th,
                    ;
                    assert(0 <= c * tw) by (nonlinear_arith)
                        requires
                            0 <= c,
                            0 <= tw,
                    ;
                }
                let p = (r * th + y) * w + c * tw + x;
                assert(p as int == g.pixel_index(t as int, i as int));
                data.push(self.pixels[p]);
                assert(data@ =~= g.tile(t as int).take(i + 1));
                i = i + 1;
            }
            let ghost before = out@;
            let tile = TileBitmap { data };
            out.push(tile);
            proof {
                assert(g.tile(t as int).take(cell as int) =~= g.tile(t as int));
                assert(tiles_view(out@) =~= tiles_view(before).push(tile@));
                assert(g.tiles().take(t + 1) =~= g.tiles().take(t as int).push(g.tile(t as int)));
            }
            t = t + 1;
        }
        assert(g.tiles().take(n as int) =~= g.tiles());
        out
    }
}

/// Laying the tiles of a grid out again, as many cells across, gives back
/// the grid pixel for pixel.
pub proof fn lemma_grid_round_trip(g: GridView)
    requires
        g.wf(),
    ensures
        can_assemble(g.tiles(), g.tile_width, g.tile_height, g.columns),
        g.tiles().len() / g.columns == g.rows,
        assemble(g.tiles(), g.tile_width, g.tile_height, g.columns) == g.pixels,
{
    let tw = g.tile_width as int;
    let th = g.tile_height as int;
    let cols = g.columns as int;
    let rows = g.rows as int;
    let w = cols * tw;
    let ts = g.tiles();
    lemma_fundamental_div_mod_converse(rows * cols, cols, rows, 0);
    assert(ts.len() / g.columns == g.rows);
    assert(ts.len() % g.columns == 0);
    assert(w >= 1) by (nonlinear_arith)
        requires
            w == cols * tw,
            cols >= 1,
            tw >= 1,
    ;
    let a = assemble(ts, g.tile_width, g.tile_height, g.columns);
    assert(a.len() == g.pixels.len());
    assert forall|p: int| 0 <= p < a.len() implies a[p] == g.pixels[p] by {
        let gy = p / w;
        let gx = p % w;
        lemma_fundamental_div_mod(p, w);
        assert(0 <= gy < rows * th) by (nonlinear_arith)
            requires
                p == w * gy + gx,
                0 <= gx < w,
                0 <= p < (rows * th) * w,
                w >= 1,
        ;
        let r = gy / th;
        let y = gy % th;
        let c = gx / tw;
        let x = gx % tw;
        lemma_fundamental_div_mod(gy, th);
        lemma_fundamental_div_mod(gx, tw);
        assert(0 <= r < rows) by (nonlinear_arith)
            requires
                gy == th * r + y,
                0 <= y < th,
                0 <= gy < rows * th,
        ;
        assert(0 <= c < cols) by (nonlinear_arith)
            requires
                gx == tw * c + x,
                0 <= x < tw,
                0 <= gx < w,
                w == cols * tw,
        ;
        let t = r * cols + c;
        let i = y * tw + x;
        assert(0 <= t < rows * cols) by (nonlinear_arith)
            requires
                0 <= r < rows,
                0 <= c < cols,
                t == r * cols + c,
        ;
        assert(0 <= i < tw * th) by (nonlinear_arith)
            requires
                0 <= y < th,
                0 <= x < tw,
                i == y * tw + x,
        ;
        lemma_fundamental_div_mod_converse(t, cols, r, c);
        lemma_fundamental_div_mod_converse(i, tw, y, x);
        assert((r * th + y) * w + c * tw + x == p) by (nonlinear_arith)
            requires
                p == w * gy + gx,
                gy == th * r + y,
                gx == tw * c + x,
        ;
        assert(g.pixel_index(t, i) == p);
        assert(ts[t] == g.tile(t));
        assert(a[p] == ts[t][i]);
    }
    assert(a =~= g.pixels);
}

impl TileGrid {
    /// The grid image `columns` cells across that holds these tiles in
    /// raster order.
    pub fn from_tiles(tiles: &Vec<TileBitmap>, tile_width: usize, tile_height: usize, columns: usize) -> (r: Result<
        TileGrid,
        TileGridError,
    >)
        ensures
            r is Ok <==> can_assemble(tiles_view(tiles@), tile_width as nat, tile_height as nat, columns as nat),
            r matches Ok(g) ==> g@.wf() && g@ == (GridView {
                tile_width: tile_width as nat,
                tile_height: tile_height as nat,
                columns: columns as nat,
                rows: tiles@.len() / columns as nat,
                pixels: assemble(tiles_view(tiles@), tile_width as nat, tile_height as nat, columns as nat),
            }),
    {
        let ghost ts = tiles_view(tiles@);
        if tile_width == 0 || tile_height == 0 || columns == 0 {
            return Err(TileGridError::InvalidGeometry);
        }
        if tiles.len() % columns != 0 {
            return Err(TileGridError::IncompleteRow { tiles: tiles.len(), columns });
        }
        let rows = tiles.len() / columns;
        proof {
            let (n, cols) = (tiles.len() as int, columns as int);
            lemma_fundamental_div_mod(n, cols);
            assert(n == rows * cols) by (nonlinear_arith)
                requires
                    n == cols * (n / cols) + n % cols,
                    n % cols == 0,
                    rows == n / cols,
            ;
        }
        let cell = match tile_width.checked_mul(tile_height) {
            Some(c) => c,
            None => {
                if tiles.len() > 0 {
                    let first_len = tiles[0].data.len();
                    assert(ts[0].len() == first_len);
                    return Err(TileGridError::TileSizeMismatch { index: 0 });
                }
                0
            },
        };
        let mut k: usize = 0;
        while k < tiles.len()
            invariant
                ts == tiles_view(tiles@),
                tiles.len() > 0 ==> cell == tile_width * tile_height,
                tiles@.len() == rows * columns,
                k <= tiles.len(),
                forall|t: int| 0 <= t < k ==> (#[trigger] ts[t]).len() == tile_width * tile_height,
            decreases tiles.len() - k,
        {
            if tiles[k].data.len() != cell {
                assert(ts[k as int].len() == tiles@[k as int]@.len());
                return Err(TileGridError::TileSizeMismatch { index: k });
            }
            k = k + 1;
        }
        let height = match rows.checked_mul(tile_height) {
            Some(h) => h,
            None => {
                proof {
                    let (hh, ww) = (rows * tile_height, columns * tile_width);
                    assert(ww >= 1) by (nonlinear_arith)
                        requires
                            ww == columns * tile_width,
                            columns >= 1,
                            tile_width >= 1,
                    ;
                    assert(hh * ww >= hh) by (nonlinear_arith)
                        requires
                            ww >= 1,
                            hh >= 0,
                    ;
                }
                return Err(TileGridError::TooLarge);
            },
        };
        let width = match columns.checked_mul(tile_width) {
            Some(w) => w,
            None => {
                proof {
                    assert(rows == 0 || (rows * tile_height) * (columns * tile_width) >= columns * tile_width) by (nonlinear_arith)
                        requires
                            tile_height >= 1,
                    ;
                }
                if rows == 0 {
                    proof {
                        let (n, hh, ww) = (tiles@.len() as int, rows * tile_height, columns * tile_width);
                        assert(n == 0 && hh * ww == 0) by (nonlinear_arith)
                            requires
                                n == rows * columns,
                                hh == rows * tile_height,
                                rows == 0,
                        ;
                        assert(assemble(ts, tile_width as nat, tile_height as nat, columns as nat) =~= Seq::<u8>::empty());
                    }
                    return Ok(TileGrid { tile_width, tile_height, columns, rows, pixels: Vec::new() });
                }
                return Err(TileGridError::TooLarge);
            },
        };
        let size = match height.checked_mul(width) {
            Some(s) => s,
            None => {
                return Err(TileGridError::TooLarge);
            },
        };
        let ghost a = assemble(ts, tile_width as nat, tile_height as nat, columns as nat);
        let mut pixels: Vec<u8> = Vec::new();
        let mut p: usize = 0;
        while p < size
            invariant
                ts == tiles_view(tiles@),
                tile_width > 0,
                tile_height > 0,
                columns > 0,
                rows as int == tiles@.len() as int / columns as int,
                tiles@.len() == rows * columns,
                forall|t: int| 0 <= t < tiles@.len() ==> (#[trigger] ts[t]).len() == tile_width * tile_height,
                height == rows * tile_height,
                width == columns * tile_width,
                size == height * width,
                a == assemble(ts, tile_width as nat, tile_height as nat, columns as nat),
                a.len() == size,
                p <= size,
                pixels@ == a.take(p as int),
            decreases size - p,
        {
            let gy = p / width;
            let gx = p % width;
            let r = gy / tile_height;
            let y = gy % tile_height;
            let c = gx / tile_width;
            let x = gx % tile_width;
            proof {
                let (pi, w, h, tw, th, cols) = (p as int, width as int, height as int, tile_width as int, tile_height as int, columns as int);
                lemma_fundamental_div_mod(pi, w);
                assert(0 <= gy < h) by (nonlinear_arith)
                    requires
                        pi == w * gy + gx,
                        0 <= gx < w,
                        0 <= pi < h * w,
                ;
                lemma_fundamental_div_mod(gy as int, th);
                lemma_fundamental_div_mod(gx as int, tw);
                assert(0 <= r < rows) by (nonlinear_arith)
                    requires
                        gy == th * r + y,
                        0 <= y < th,
                        0 <= gy < h,
                        h == rows * th,
                ;
                assert(0 <= c < cols) by (nonlinear_arith)
                    requires
                        gx == tw * c + x,
                        0 <= x < tw,
                        0 <= gx < w,
                        w == cols * tw,
                ;
                assert(0 <= r * cols + c < rows * cols) by (nonlinear_arith)
                    requires
                        0 <= r < rows,
                        0 <= c < cols,
                ;
                assert(0 <= y * tw + x < th * tw) by (nonlinear_arith)
                    requires
                        0 <= y < th,
                        0 <= x < tw,
                ;
                assert(th * tw == tw * th) by (nonlinear_arith);
                assert(0 <= r * cols && 0 <= y * tw) by (nonlinear_arith)
                    requires
                        0 <= r,
                        0 <= cols,
                        0 <= y,
                        0 <= tw,
                ;
            }
            assert(r * columns + c < tiles.len());
            assert(y * tile_width + x < tile_width * tile_height);
            let t = r * columns + c;
            let data = &tiles[t].data;
            assert(data@ == ts[t as int]);
            let tile_len = data.len();
            assert(y * tile_width + x < tile_len);
            let i = y * tile_width + x;
            pixels.push(data[i]);
            assert(pixels@ =~= a.take(p + 1));
            p = p + 1;
        }
        proof {
            assert(pixels@ =~= a);
            assert(size <= usize::MAX);
        }
        Ok(TileGrid { tile_width, tile_height, columns, rows, pixels })
    }
}

impl TileGrid {
    pub fn tile_width(&self) -> (r: usize)
        ensures
            r == self@.tile_width,
    {
        self.tile_width
    }

    pub fn tile_height(&self) -> (r: usize)
        ensures
            r == self@.tile_height,
    {
        self.tile_height
    }

    /// The number of cells across.
    pub fn columns(&self) -> (r: usize)
        ensures
            r == self@.columns,
    {
        self.columns
    }

    /// The number of cells down.
    pub fn rows(&self) -> (r: usize)
        ensures
            r == self@.rows,
    {
        self.rows
    }

    /// The pixels of the image, row after row.
    pub fn pixels(&self) -> (r: &Vec<u8>)
        ensures
            r@ == self@.pixels,
    {
        &self.pixels
    }
}

// ---------------------------------------------------------------------------
// Grid sets
// ---------------------------------------------------------------------------

/// The SD and the HD grid images of a font, with as many cells each.
#[derive(Debug, PartialEq, Eq)]
pub struct TileGridSet {
    sd: TileGrid,
    hd: TileGrid,
}

impl TileGridSet {
    #[verifier::type_invariant]
    spec fn inv(self) -> bool {
        self.sd@.tiles().len() == self.hd@.tiles().len()
    }

    pub closed spec fn sd_view(&self) -> GridView {
        self.sd@
    }

    pub closed spec fn hd_view(&self) -> GridView {
        self.hd@
    }

    /// Both grids are well formed and hold as many tiles.
    pub open spec fn wf(&self) -> bool {
        &&& self.sd_view().wf()
        &&& self.hd_view().wf()
        &&& self.sd_view().tiles().len() == self.hd_view().tiles().len()
    }

    /// A grid set of these images; refused when they hold different numbers
    /// of tiles.
    pub fn new(sd: TileGrid, hd: TileGrid) -> (r: Result<TileGridSet, TileSetError>)
        ensures
            r is Ok <==> sd@.tiles().len() == hd@.tiles().len(),
            r matches Ok(s) ==> s.wf() && s.sd_view() == sd@ && s.hd_view() == hd@,
            r matches Err(TileSetError::TileCountMismatch { sd_count, hd_count }) ==> sd_count == sd@.tiles().len()
                && hd_count == hd@.tiles().len(),
    {
        proof {
            use_type_invariant(&sd);
            use_type_invariant(&hd);
            assert(sd@.rows * sd@.columns <= sd@.pixels.len()) by (nonlinear_arith)
                requires
                    sd@.pixels.len() == (sd@.rows * sd@.tile_height) * (sd@.columns * sd@.tile_width),
                    sd@.tile_width >= 1,
                    sd@.tile_height >= 1,
            ;
            assert(hd@.rows * hd@.columns <= hd@.pixels.len()) by (nonlinear_arith)
                requires
                    hd@.pixels.len() == (hd@.rows * hd@.tile_height) * (hd@.columns * hd@.tile_width),
                    hd@.tile_width >= 1,
                    hd@.tile_height >= 1,
            ;
        }
        let sd_count = sd.rows * sd.columns;
        let hd_count = hd.rows * hd.columns;
        if sd_count != hd_count {
            return Err(TileSetError::TileCountMismatch { sd_count, hd_count });
        }
        Ok(TileGridSet { sd, hd })
    }

    pub fn sd(&self) -> (r: &TileGrid)
        ensures
            r@ == self.sd_view(),
    {
        &self.sd
    }

    pub fn hd(&self) -> (r: &TileGrid)
        ensures
            r@ == self.hd_view(),
    {
        &self.hd
    }

    /// The tiles of both grids, in raster order.
    pub fn into_tile_set(&self) -> (r: TileSet)
        ensures
            r.wf(),
            r.sd_view() == self.sd_view().tiles(),
            r.hd_view() == self.hd_view().tiles(),
    {
        proof {
            use_type_invariant(self);
        }
        let sd = self.sd.tiles();
        let hd = self.hd.tiles();
        match TileSet::new(sd, hd) {
            Ok(set) => set,
            Err(_) => vstd::pervasive::unreached(),
        }
    }

    /// The grid images, `columns` cells across, of a tile set, with cells of
    /// the given sizes at each resolution.
    pub fn from_tile_set(
        set: &TileSet,
        sd_tile_width: usize,
        sd_tile_height: usize,
        hd_tile_width: usize,
        hd_tile_height: usize,
        columns: usize,
    ) -> (r: Result<TileGridSet, TileGridError>)
        ensures
            r is Ok <==> can_assemble(set.sd_view(), sd_tile_width as nat, sd_tile_height as nat, columns as nat)
                && can_assemble(set.hd_view(), hd_tile_width as nat, hd_tile_height as nat, columns as nat),
            r matches Ok(s) ==> s.wf() && s.sd_view() == (GridView {
                tile_width: sd_tile_width as nat,
                tile_height: sd_tile_height as nat,
                columns: columns as nat,
                rows: set.spec_len() / columns as nat,
                pixels: assemble(set.sd_view(), sd_tile_width as nat, sd_tile_height as nat, columns as nat),
            }) && s.hd_view() == (GridView {
                tile_width: hd_tile_width as nat,
                tile_height: hd_tile_height as nat,
                columns: columns as nat,
                rows: set.spec_len() / columns as nat,
                pixels: assemble(set.hd_view(), hd_tile_width as nat, hd_tile_height as nat, columns as nat),
            }),
    {
        let count = set.len();
        assert(set.sd_view().len() == count && set.hd_view().len() == count);
        let sd = TileGrid::from_tiles(set.sd_tiles(), sd_tile_width, sd_tile_height, columns)?;
        let hd = TileGrid::from_tiles(set.hd_tiles(), hd_tile_width, hd_tile_height, columns)?;
        proof {
            lemma_assembled_tiles(set.sd_view(), sd@);
            lemma_assembled_tiles(set.hd_view(), hd@);
        }
        Ok(TileGridSet { sd, hd })
    }
}

/// A grid laid out from tiles holds as many tiles as were laid out.
proof fn lemma_assembled_tiles(tiles: Seq<Seq<u8>>, g: GridView)
    requires
        g.wf(),
        g.columns > 0,
        tiles.len() % g.columns == 0,
        g.rows == tiles.len() / g.columns,
    ensures
        g.tiles().len() == tiles.len(),
{
    let (n, c) = (tiles.len() as int, g.columns as int);
    lemma_fundamental_div_mod(n, c);
    assert(g.rows * g.columns == n) by (nonlinear_arith)
        requires
            n == c * (n / c) + n % c,
            n % c == 0,
            g.rows == n / c,
            c == g.columns,
    ;
}

/// Cutting a grid set into a tile set and laying its tiles out again with the
/// same cells and columns gives back both grids pixel for pixel.
pub proof fn lemma_grid_set_round_trip(sd: GridView, hd: GridView)
    requires
        sd.wf(),
        hd.wf(),
        sd.columns == hd.columns,
        sd.tiles().len() == hd.tiles().len(),
    ensures
        can_assemble(sd.tiles(), sd.tile_width, sd.tile_height, sd.columns),
        can_assemble(hd.tiles(), hd.tile_width, hd.tile_height, hd.columns),
        sd.tiles().len() / sd.columns == sd.rows,
        hd.tiles().len() / hd.columns == hd.rows,
        assemble(sd.tiles(), sd.tile_width, sd.tile_height, sd.columns) == sd.pixels,
        assemble(hd.tiles(), hd.tile_width, hd.tile_height, hd.columns) == hd.pixels,
{
    lemma_grid_round_trip(sd);
    lemma_grid_round_trip(hd);
}

} // verus!
