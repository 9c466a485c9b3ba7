use hd_fpv_osd_font_tool::tile_grid::{TileGrid, TileGridError};
use hd_fpv_osd_font_tool::tile_set::TileBitmap;

// A 4x2 image of 2x1 cells: two cells across, two down.
fn sample_grid() -> TileGrid {
    TileGrid::new(2, 1, 4, 2, vec![1, 2, 3, 4, 5, 6, 7, 8]).unwrap()
}

fn tile(data: Vec<u8>) -> TileBitmap {
    TileBitmap { data }
}

#[test]
fn grid_geometry() {
    let g = sample_grid();
    assert_eq!(g.columns(), 2);
    assert_eq!(g.rows(), 2);
    assert_eq!(g.tile_width(), 2);
    assert_eq!(g.tile_height(), 1);
}

#[test]
fn grid_is_cut_in_raster_order() {
    let tiles = sample_grid().tiles();
    assert_eq!(tiles, vec![tile(vec![1, 2]), tile(vec![3, 4]), tile(vec![5, 6]), tile(vec![7, 8])]);
}

#[test]
fn tall_cells_take_pixels_from_several_rows() {
    // 2x4 image of 1x2 cells: two across, two down.
    let g = TileGrid::new(1, 2, 2, 4, vec![1, 2, 3, 4, 5, 6, 7, 8]).unwrap();
    assert_eq!(g.tiles(), vec![tile(vec![1, 3]), tile(vec![2, 4]), tile(vec![5, 7]), tile(vec![6, 8])]);
}

#[test]
fn grid_tiles_grid_round_trip() {
    let g = TileGrid::new(2, 2, 6, 4, (0..24).collect()).unwrap();
    let tiles = g.tiles();
    assert_eq!(tiles.len(), 6);
    let back = TileGrid::from_tiles(&tiles, 2, 2, 3).unwrap();
    assert_eq!(back, g);
}

#[test]
fn tiles_are_laid_out_in_rows() {
    let tiles = vec![tile(vec![1, 2]), tile(vec![3, 4]), tile(vec![5, 6]), tile(vec![7, 8])];
    let g = TileGrid::from_tiles(&tiles, 1, 2, 2).unwrap();
    assert_eq!(g.pixels(), &vec![1, 3, 2, 4, 5, 7, 6, 8]);
    assert_eq!(g.rows(), 2);
}

#[test]
fn image_must_be_whole_cells() {
    assert_eq!(TileGrid::new(3, 1, 4, 1, vec![0; 4]).unwrap_err(), TileGridError::InvalidGeometry);
    assert_eq!(TileGrid::new(0, 1, 4, 1, vec![0; 4]).unwrap_err(), TileGridError::InvalidGeometry);
    assert_eq!(
        TileGrid::new(2, 1, 4, 2, vec![0; 7]).unwrap_err(),
        TileGridError::PixelCountMismatch { expected: 8, actual: 7 }
    );
}

#[test]
fn tiles_must_fill_rows_and_cells() {
    let tiles = vec![tile(vec![1, 2]), tile(vec![3, 4]), tile(vec![5, 6])];
    assert_eq!(
        TileGrid::from_tiles(&tiles, 2, 1, 2).unwrap_err(),
        TileGridError::IncompleteRow { tiles: 3, columns: 2 }
    );
    let uneven = vec![tile(vec![1, 2]), tile(vec![3])];
    assert_eq!(TileGrid::from_tiles(&uneven, 2, 1, 2).unwrap_err(), TileGridError::TileSizeMismatch { index: 1 });
    assert_eq!(TileGrid::from_tiles(&uneven, 2, 1, 0).unwrap_err(), TileGridError::InvalidGeometry);
}

#[test]
fn no_tiles_make_an_empty_grid() {
    let g = TileGrid::from_tiles(&Vec::new(), 2, 2, 4).unwrap();
    assert_eq!(g.rows(), 0);
    assert!(g.pixels().is_empty());
    assert!(g.tiles().is_empty());
}

use hd_fpv_osd_font_tool::tile_grid::TileGridSet;
use hd_fpv_osd_font_tool::tile_set::TileSetError;

fn sample_grid_set() -> TileGridSet {
    // SD cells 1x1, HD cells 2x1; 3 cells across, 2 down.
    let sd = TileGrid::new(1, 1, 3, 2, vec![1, 2, 3, 4, 5, 6]).unwrap();
    let hd = TileGrid::new(2, 1, 6, 2, (10..22).collect()).unwrap();
    TileGridSet::new(sd, hd).unwrap()
}

#[test]
fn grid_set_into_tile_set() {
    let tiles = sample_grid_set().into_tile_set();
    assert_eq!(tiles.len(), 6);
    assert_eq!(tiles.sd_tile(4), &tile(vec![5]));
    assert_eq!(tiles.hd_tile(1), &tile(vec![12, 13]));
    assert_eq!(tiles.hd_tile(5), &tile(vec![20, 21]));
}

#[test]
fn grid_set_tile_set_grid_set_round_trip() {
    let grids = sample_grid_set();
    let tiles = grids.into_tile_set();
    let back = TileGridSet::from_tile_set(&tiles, 1, 1, 2, 1, 3).unwrap();
    assert_eq!(back, grids);
}

#[test]
fn grid_set_with_other_columns() {
    let tiles = sample_grid_set().into_tile_set();
    let tall = TileGridSet::from_tile_set(&tiles, 1, 1, 2, 1, 2).unwrap();
    assert_eq!(tall.sd().pixels(), &vec![1, 2, 3, 4, 5, 6]);
    assert_eq!(tall.sd().rows(), 3);
    assert_eq!(
        TileGridSet::from_tile_set(&tiles, 1, 1, 2, 1, 4).unwrap_err(),
        TileGridError::IncompleteRow { tiles: 6, columns: 4 }
    );
}

#[test]
fn grid_set_counts_must_match() {
    let sd = TileGrid::new(1, 1, 3, 2, vec![0; 6]).unwrap();
    let hd = TileGrid::new(2, 1, 6, 1, vec![0; 6]).unwrap();
    assert_eq!(TileGridSet::new(sd, hd).unwrap_err(), TileSetError::TileCountMismatch { sd_count: 6, hd_count: 3 });
}
