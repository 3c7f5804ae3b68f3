use mandelbrot::escape::EscapeCounter;
use mandelbrot::palette::Palette;
use mandelbrot::tiles::{centered_offset, LayoutError, TileLayout};

struct View {
    dim: [f64; 2],
    pos: [f64; 2],
    iterations: i32,
}

fn evaluate(re: f64, im: f64, budget: i32) -> u8 {
    let mut counter = EscapeCounter::new(budget);
    let (mut x, mut y, mut x2, mut y2) = (0.0f64, 0.0f64, 0.0f64, 0.0f64);
    while counter.observe(x * x + y * y <= 4.0) {
        y = 2.0 * x * y + im;
        x = x2 - y2 + re;
        x2 = x * x;
        y2 = y * y;
    }
    counter.level()
}

fn pixel_level(v: &View, width: usize, height: usize, col: usize, row: usize) -> u8 {
    let x = centered_offset(col, width) as f64 / width as f64 * v.dim[0] + v.pos[0];
    let y = centered_offset(row, height) as f64 / height as f64 * v.dim[1] + v.pos[1];
    evaluate(x, y, v.iterations)
}

fn sequential(v: &View, width: usize, height: usize) -> Vec<u8> {
    let mut out = Vec::new();
    for row in 0..height {
        for col in 0..width {
            out.push(pixel_level(v, width, height, col, row));
        }
    }
    out
}

#[test]
fn layout_errors() {
    assert_eq!(TileLayout::new(8, 8, 0), Err(LayoutError::NoTiles));
    assert_eq!(TileLayout::new(8, 8, 3), Err(LayoutError::UnevenRows));
    assert_eq!(TileLayout::new(usize::MAX, 2, 1), Err(LayoutError::TooLarge));
    let l = TileLayout::new(1280, 960, 64).unwrap();
    assert_eq!((l.width(), l.height(), l.tile_count()), (1280, 960, 64));
}

#[test]
fn band_geometry() {
    let l = TileLayout::new(4, 6, 3).unwrap();
    assert_eq!(l.rows_per_tile(), 2);
    assert_eq!(l.band_len(), 8);
    assert_eq!(l.size(), 24);
    assert_eq!(l.tile_rows(0), (0, 2));
    assert_eq!(l.tile_rows(2), (4, 6));
    assert_eq!(l.pixel(0, 0), (0, 0));
    assert_eq!(l.pixel(1, 5), (1, 3));
    assert_eq!(l.pixel(2, 7), (3, 5));
}

#[test]
fn centered_offsets() {
    assert_eq!(centered_offset(0, 8), -4);
    assert_eq!(centered_offset(4, 8), 0);
    assert_eq!(centered_offset(7, 8), 3);
    assert_eq!(centered_offset(0, 7), -3);
}

#[test]
fn bands_land_at_their_offsets() {
    let l = TileLayout::new(3, 4, 2).unwrap();
    let bands = vec![vec![1, 2, 3, 4, 5, 6], vec![7, 8, 9, 10, 11, 12]];
    let mut canvas = vec![0u8; 12];
    l.assemble_into(&mut canvas, &bands);
    assert_eq!(canvas, vec![1, 2, 3, 4, 5, 6, 7, 8, 9, 10, 11, 12]);
}

#[test]
fn band_holds_its_rows() {
    let l = TileLayout::new(3, 4, 2).unwrap();
    let band = l.compute_band(1, &|c: usize, r: usize| (r * 10 + c) as u8);
    assert_eq!(band, vec![20, 21, 22, 30, 31, 32]);
}

#[test]
fn frame_is_row_major() {
    let l = TileLayout::new(3, 4, 4).unwrap();
    let canvas = l.compute_frame(&|c: usize, r: usize| (r * 10 + c) as u8);
    assert_eq!(canvas, vec![0, 1, 2, 10, 11, 12, 20, 21, 22, 30, 31, 32]);
}

#[test]
fn one_tile_and_sixty_four_tiles_agree() {
    let (w, h) = (24usize, 64usize);
    let v = View { dim: [2.47, 2.24], pos: [-0.765, 0.0], iterations: 64 };
    let f = |c: usize, r: usize| pixel_level(&v, w, h, c, r);
    let one = TileLayout::new(w, h, 1).unwrap().compute_frame(&f);
    let many = TileLayout::new(w, h, 64).unwrap().compute_frame(&f);
    assert_eq!(one.len(), w * h);
    assert_eq!(one, many);
    assert_eq!(one, sequential(&v, w, h));
}

#[test]
fn two_tile_frame_matches_sequential_scan() {
    let v = View { dim: [4.0, 4.0], pos: [0.0, 0.0], iterations: 50 };
    let l = TileLayout::new(8, 8, 2).unwrap();
    let f = |c: usize, r: usize| pixel_level(&v, 8, 8, c, r);
    let bands = vec![l.compute_band(0, &f), l.compute_band(1, &f)];
    let mut canvas = vec![0u8; 64];
    l.assemble_into(&mut canvas, &bands);
    let seq = sequential(&v, 8, 8);
    assert_eq!(seq.len(), 64);
    assert_eq!(canvas, seq);
    // Pixel (4, 4) is the origin, which never escapes.
    assert_eq!(canvas[4 * 8 + 4], 255);
    // Pixel (0, 0) is -2 - 2i, outside radius 2 after one step.
    assert_eq!(canvas[0], 5);
}

#[test]
fn palette_lookup() {
    let p = Palette::build(&|level: u8| (level as u32) * 2);
    assert_eq!(*p.lookup(0), 0);
    assert_eq!(*p.lookup(1), 2);
    assert_eq!(*p.lookup(255), 510);
}
