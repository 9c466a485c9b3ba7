use hd_fpv_osd_font_tool::bin_set::{decode_tiles, load_bin_set, BinFile, BinSetError};
use hd_fpv_osd_font_tool::tile_set::TileBitmap;

fn tile(data: Vec<u8>) -> TileBitmap {
    TileBitmap { data }
}

#[test]
fn bin_file_is_cut_in_records() {
    let tiles = decode_tiles(&vec![1, 2, 3, 4, 5, 6], 2, BinFile::Sd).unwrap();
    assert_eq!(tiles, vec![tile(vec![1, 2]), tile(vec![3, 4]), tile(vec![5, 6])]);
    assert!(decode_tiles(&Vec::new(), 3, BinFile::Hd).unwrap().is_empty());
}

#[test]
fn bin_file_of_partial_tile_is_refused() {
    assert_eq!(
        decode_tiles(&vec![1, 2, 3, 4, 5], 2, BinFile::Hd2).unwrap_err(),
        BinSetError::InvalidFileSize { file: BinFile::Hd2, size: 5 }
    );
}

#[test]
fn bin_set_with_equal_counts_loads() {
    // SD tiles of 1 byte, HD tiles of 2 bytes: 3 tiles at each resolution.
    let set = load_bin_set(&vec![1, 2], &vec![3], &vec![10, 11], &vec![12, 13, 14, 15], 1, 2).unwrap();
    assert_eq!(set.len(), 3);
    assert_eq!(set.sd_tiles(), &vec![tile(vec![1]), tile(vec![2]), tile(vec![3])]);
    assert_eq!(set.hd_tiles(), &vec![tile(vec![10, 11]), tile(vec![12, 13]), tile(vec![14, 15])]);
}

#[test]
fn bin_set_with_mismatched_counts_is_refused() {
    let r = load_bin_set(&vec![1, 2], &vec![3], &vec![10, 11], &Vec::new(), 1, 2);
    assert_eq!(r.unwrap_err(), BinSetError::TileCountMismatch { sd_count: 3, hd_count: 1 });
}

#[test]
fn bin_set_with_bad_file_is_refused() {
    let r = load_bin_set(&vec![1, 2], &vec![3], &vec![10, 11, 12], &Vec::new(), 1, 2);
    assert_eq!(r.unwrap_err(), BinSetError::InvalidFileSize { file: BinFile::Hd, size: 3 });
    let z = load_bin_set(&vec![1], &vec![], &vec![1], &vec![], 0, 1);
    assert_eq!(z.unwrap_err(), BinSetError::InvalidTileSize);
}

use hd_fpv_osd_font_tool::bin_set::save_bin_set;
use hd_fpv_osd_font_tool::tile_set::TileSet;

fn sample_set() -> TileSet {
    TileSet::new(
        vec![tile(vec![1]), tile(vec![2]), tile(vec![3])],
        vec![tile(vec![10, 11]), tile(vec![12, 13]), tile(vec![14, 15])],
    )
    .unwrap()
}

#[test]
fn saved_bin_set_splits_at_primary_capacity() {
    let (sd, sd_2, hd, hd_2) = save_bin_set(&sample_set(), 2);
    assert_eq!(sd, vec![1, 2]);
    assert_eq!(sd_2, vec![3]);
    assert_eq!(hd, vec![10, 11, 12, 13]);
    assert_eq!(hd_2, vec![14, 15]);
}

#[test]
fn saved_bin_set_fits_in_primary_files() {
    let (sd, sd_2, hd, hd_2) = save_bin_set(&sample_set(), 256);
    assert_eq!(sd, vec![1, 2, 3]);
    assert!(sd_2.is_empty());
    assert_eq!(hd, vec![10, 11, 12, 13, 14, 15]);
    assert!(hd_2.is_empty());
}

#[test]
fn saved_bin_set_loads_back() {
    let set = sample_set();
    for capacity in [0, 1, 2, 3, 512] {
        let (sd, sd_2, hd, hd_2) = save_bin_set(&set, capacity);
        let back = load_bin_set(&sd, &sd_2, &hd, &hd_2, 1, 2).unwrap();
        assert_eq!(back.sd_tiles(), set.sd_tiles());
        assert_eq!(back.hd_tiles(), set.hd_tiles());
    }
}
