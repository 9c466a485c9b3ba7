use hd_fpv_osd_font_tool::tile_set::{SymbolSetError, SymbolSpec, TileBitmap, TileSet, TileSetError};

fn tile(b: u8) -> TileBitmap {
    TileBitmap { data: vec![b, b, b] }
}

fn sample_set() -> TileSet {
    TileSet::new(vec![tile(0), tile(1), tile(2)], vec![tile(10), tile(11), tile(12)]).unwrap()
}

fn spec(name: &str, indices: Vec<usize>) -> SymbolSpec {
    SymbolSpec { name: name.to_string(), tile_indices: indices }
}

#[test]
fn equal_counts_make_a_tile_set() {
    let set = sample_set();
    assert_eq!(set.len(), 3);
    assert_eq!(set.sd_tile(1), &tile(1));
    assert_eq!(set.hd_tile(2), &tile(12));
}

#[test]
fn mismatched_counts_are_refused() {
    let r = TileSet::new(vec![tile(0), tile(1)], vec![tile(10)]);
    assert_eq!(r.unwrap_err(), TileSetError::TileCountMismatch { sd_count: 2, hd_count: 1 });
}

#[test]
fn empty_tile_set() {
    let set = TileSet::new(Vec::new(), Vec::new()).unwrap();
    assert_eq!(set.len(), 0);
}

#[test]
fn symbols_gather_their_tiles() {
    let set = sample_set();
    let specs = vec![spec("arrow", vec![2, 0]), spec("dot", vec![1]), spec("blank", vec![])];
    let symbols = set.into_symbol_set(&specs).unwrap();
    let s = symbols.symbols();
    assert_eq!(s.len(), 3);
    assert_eq!(s[0].name(), "arrow");
    assert_eq!(s[0].sd_tiles(), &vec![tile(2), tile(0)]);
    assert_eq!(s[0].hd_tiles(), &vec![tile(12), tile(10)]);
    assert_eq!(s[1].name(), "dot");
    assert_eq!(s[1].sd_tiles(), &vec![tile(1)]);
    assert_eq!(s[2].name(), "blank");
    assert!(s[2].sd_tiles().is_empty());
}

#[test]
fn undefined_tile_index_is_refused() {
    let set = sample_set();
    let specs = vec![spec("ok", vec![0]), spec("bad", vec![1, 3, 7]), spec("worse", vec![9])];
    assert_eq!(
        set.into_symbol_set(&specs).unwrap_err(),
        SymbolSetError::UndefinedTileIndex { symbol: "bad".to_string(), index: 3 }
    );
}

#[test]
fn index_equal_to_length_is_refused() {
    let set = sample_set();
    let specs = vec![spec("edge", vec![3])];
    assert_eq!(
        set.into_symbol_set(&specs).unwrap_err(),
        SymbolSetError::UndefinedTileIndex { symbol: "edge".to_string(), index: 3 }
    );
}

#[test]
fn symbol_set_back_to_tile_set() {
    let set = sample_set();
    let specs = vec![spec("a", vec![2]), spec("b", vec![0, 0])];
    let tiles = set.into_symbol_set(&specs).unwrap().into_tile_set();
    assert_eq!(tiles.len(), 3);
    assert_eq!(tiles.sd_tile(0), &tile(2));
    assert_eq!(tiles.sd_tile(1), &tile(0));
    assert_eq!(tiles.sd_tile(2), &tile(0));
    assert_eq!(tiles.hd_tile(0), &tile(12));
}
