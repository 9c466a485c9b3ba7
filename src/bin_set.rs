//! Tile sets read from bin files: each file is a run of fixed-size tile
//! records, and each resolution is a primary file followed by a secondary
//! one.
use crate::tile_set::{tiles_view, TileBitmap, TileSet, TileSetError};
use vstd::arithmetic::div_mod::lemma_fundamental_div_mod_converse;
use vstd::prelude::*;

verus! {

/// Which of the four bin files of a set.
#[derive(Debug, Clone, Copy, PartialEq, Eq, Structural)]
pub enum BinFile {
    Sd,
    Sd2,
    Hd,
    Hd2,
}

/// Why four bin files do not make a tile set.
#[derive(Debug, PartialEq, Eq)]
pub enum BinSetError {
    /// A tile size of zero.
    InvalidTileSize,
    /// A file whose size is not a whole number of tiles.
    InvalidFileSize { file: BinFile, size: usize },
    /// The SD and the HD files hold different numbers of tiles.
    TileCountMismatch { sd_count: usize, hd_count: usize },
}

/// The records of `tile_size` bytes that `bytes` is made of.
pub open spec fn records(bytes: Seq<u8>, tile_size: nat) -> Seq<Seq<u8>> {
    Seq::new(
        bytes.len() / tile_size,
        |i: int| bytes.subrange(i * tile_size, i * tile_size + tile_size),
    )
}

/// The tiles of one bin file; refused when its size is not a whole number of
/// tiles.
pub fn decode_tiles(bytes: &Vec<u8>, tile_size: usize, file: BinFile) -> (r: Result<Vec<TileBitmap>, BinSetError>)
    requires
        tile_size > 0,
    ensures
        r is Ok <==> bytes@.len() % tile_size as nat == 0,
        r matches Ok(tiles) ==> tiles_view(tiles@) == records(bytes@, tile_size as nat),
        r matches Err(e) ==> e == (BinSetError::InvalidFileSize { file, size: bytes@.len() as usize }),
{
    if bytes.len() % tile_size != 0 {
        return Err(BinSetError::InvalidFileSize { file, size: bytes.len() });
    }
    let blen = bytes.len();
    let count = blen / tile_size;
    let ghost recs = records(bytes@, tile_size as nat);
    let mut tiles: Vec<TileBitmap> = Vec::new();
    let mut t: usize = 0;
    let mut start: usize = 0;
    while t < count
        invariant
            count == bytes@.len() / tile_size as nat,
            bytes@.len() % tile_size as nat == 0,
            tile_size > 0,
            recs == records(bytes@, tile_size as nat),
            blen == bytes@.len(),
            t <= count,
            start == t * tile_size,
            tiles_view(tiles@) == recs.take(t as int),
        decreases count - t,
    {
        proof {
            vstd::arithmetic::div_mod::lemma_fundamental_div_mod(bytes@.len() as int, tile_size as int);
            assert(start + tile_size <= bytes@.len()) by (nonlinear_arith)
                requires
                    start == t * tile_size,
                    t < count,
                    bytes@.len() == tile_size * count + 0,
                    tile_size > 0,
            ;
        }
        let mut data: Vec<u8> = Vec::new();
        let mut j: usize = 0;
        while j < tile_size
            invariant
                start + tile_size <= bytes@.len(),
                blen == bytes@.len(),
                j <= tile_size,
                data@ == bytes@.subrange(start as int, start + j),
            decreases tile_size - j,
        {
            data.push(bytes[start + j]);
            assert(data@ =~= bytes@.subrange(start as int, start + j + 1));
            j = j + 1;
        }
        let ghost before = tiles@;
        let tile = TileBitmap { data };
        tiles.push(tile);
        proof {
            assert(tiles_view(tiles@) =~= tiles_view(before).push(tile@));
            assert(recs[t as int] == bytes@.subrange(start as int, start + tile_size));
            assert(recs.take(t + 1) =~= recs.take(t as int).push(recs[t as int]));
            assert((t + 1) * tile_size == t * tile_size + tile_size) by (nonlinear_arith);
        }
        t = t + 1;
        start = start + tile_size;
    }
    assert(recs.take(count as int) =~= recs);
    Ok(tiles)
}

/// The tile set of four bin files: the SD tiles are those of the primary SD
/// file followed by those of the secondary one, and likewise for HD.
/// Refused when a file is not a whole number of tiles, or when the SD and HD
/// tile counts differ.
pub fn load_bin_set(
    sd: &Vec<u8>,
    sd_2: &Vec<u8>,
    hd: &Vec<u8>,
    hd_2: &Vec<u8>,
    sd_tile_size: usize,
    hd_tile_size: usize,
) -> (r: Result<TileSet, BinSetError>)
    ensures
        ({
            let (s, s2, h, h2) = (sd_tile_size as nat, sd_tile_size as nat, hd_tile_size as nat, hd_tile_size as nat);
            let sizes_ok = s > 0 && h > 0 && sd@.len() % s == 0 && sd_2@.len() % s2 == 0 && hd@.len() % h == 0
                && hd_2@.len() % h2 == 0;
            let sd_tiles = records(sd@, s) + records(sd_2@, s2);
            let hd_tiles = records(hd@, h) + records(hd_2@, h2);
            &&& r is Ok <==> sizes_ok && sd_tiles.len() == hd_tiles.len()
            &&& r matches Ok(set) ==> set.wf() && set.sd_view() == sd_tiles && set.hd_view() == hd_tiles
            &&& r matches Err(BinSetError::TileCountMismatch { sd_count, hd_count }) ==> sizes_ok && sd_count
                == sd_tiles.len() && hd_count == hd_tiles.len() && sd_count != hd_count
        }),
{
    if sd_tile_size == 0 || hd_tile_size == 0 {
        return Err(BinSetError::InvalidTileSize);
    }
    let mut sd_tiles = decode_tiles(sd, sd_tile_size, BinFile::Sd)?;
    let mut sd_2_tiles = decode_tiles(sd_2, sd_tile_size, BinFile::Sd2)?;
    let mut hd_tiles = decode_tiles(hd, hd_tile_size, BinFile::Hd)?;
    let mut hd_2_tiles = decode_tiles(hd_2, hd_tile_size, BinFile::Hd2)?;
    let ghost (a, b, c, d) = (tiles_view(sd_tiles@), tiles_view(sd_2_tiles@), tiles_view(hd_tiles@), tiles_view(hd_2_tiles@));
    sd_tiles.append(&mut sd_2_tiles);
    hd_tiles.append(&mut hd_2_tiles);
    assert(tiles_view(sd_tiles@) =~= a + b);
    assert(tiles_view(hd_tiles@) =~= c + d);
    match TileSet::new(sd_tiles, hd_tiles) {
        Ok(set) => Ok(set),
        Err(TileSetError::TileCountMismatch { sd_count, hd_count }) => Err(
            BinSetError::TileCountMismatch { sd_count, hd_count },
        ),
    }
}

/// The bytes of the tiles, one after the other.
pub open spec fn flatten(tiles: Seq<Seq<u8>>) -> Seq<u8>
    decreases tiles.len(),
{
    if tiles.len() == 0 {
        Seq::empty()
    } else {
        flatten(tiles.drop_last()) + tiles.last()
    }
}

/// Every tile is `tile_size` bytes long.
pub open spec fn all_of_size(tiles: Seq<Seq<u8>>, tile_size: nat) -> bool {
    forall|i: int| 0 <= i < tiles.len() ==> (#[trigger] tiles[i]).len() == tile_size
}

/// Tiles of one size, written one after the other, are read back as the
/// same tiles.
pub proof fn lemma_records_flatten(tiles: Seq<Seq<u8>>, tile_size: nat)
    requires
        tile_size > 0,
        all_of_size(tiles, tile_size),
    ensures
        flatten(tiles).len() == tiles.len() * tile_size,
        flatten(tiles).len() % tile_size == 0,
        records(flatten(tiles), tile_size) == tiles,
    decreases tiles.len(),
{
    let n = tile_size as int;
    let k = tiles.len() as int;
    if tiles.len() == 0 {
        lemma_fundamental_div_mod_converse(0, n, 0, 0);
        assert(records(flatten(tiles), tile_size) =~= tiles);
    } else {
        let init = tiles.drop_last();
        assert(all_of_size(init, tile_size)) by {
            assert forall|i: int| 0 <= i < init.len() implies (#[trigger] init[i]).len() == tile_size by {
                assert(init[i] == tiles[i]);
            }
        }
        lemma_records_flatten(init, tile_size);
        let f0 = flatten(init);
        let f = flatten(tiles);
        assert(tiles.last().len() == tile_size);
        assert(f.len() == (k - 1) * n + n);
        assert((k - 1) * n + n == k * n) by (nonlinear_arith);
        lemma_fundamental_div_mod_converse(k * n, n, k, 0);
        let r = records(f, tile_size);
        assert forall|i: int| 0 <= i < k implies r[i] == tiles[i] by {
            if i < k - 1 {
                assert(i * n + n <= (k - 1) * n) by (nonlinear_arith)
                    requires
                        i < k - 1,
                        n > 0,
                ;
                assert(0 <= i * n) by (nonlinear_arith)
                    requires
                        0 <= i,
                        n > 0,
                ;
                assert(f.subrange(i * n, i * n + n) =~= f0.subrange(i * n, i * n + n));
                assert(records(f0, tile_size)[i] == init[i]);
            } else {
                assert(i * n == (k - 1) * n);
                assert(f.subrange(i * n, i * n + n) =~= tiles.last());
            }
        }
        assert(r =~= tiles);
    }
}

/// The bytes of the tiles `from..to`, one after the other.
fn encode_tiles(tiles: &Vec<TileBitmap>, from: usize, to: usize) -> (r: Vec<u8>)
    requires
        from <= to <= tiles@.len(),
    ensures
        r@ == flatten(tiles_view(tiles@).subrange(from as int, to as int)),
{
    let ghost ts = tiles_view(tiles@);
    let mut out: Vec<u8> = Vec::new();
    let mut t: usize = from;
    assert(ts.subrange(from as int, from as int) =~= Seq::<Seq<u8>>::empty());
    while t < to
        invariant
            ts == tiles_view(tiles@),
            from <= t <= to <= tiles@.len(),
            out@ == flatten(ts.subrange(from as int, t as int)),
        decreases to - t,
    {
        let data = &tiles[t].data;
        assert(data@ == ts[t as int]);
        let ghost before = out@;
        let mut j: usize = 0;
        while j < data.len()
            invariant
                j <= data@.len(),
                out@ == before + data@.take(j as int),
            decreases data@.len() - j,
        {
            out.push(data[j]);
            assert(out@ =~= before + data@.take(j + 1));
            j = j + 1;
        }
        proof {
            assert(data@.take(data@.len() as int) =~= data@);
            let next = ts.subrange(from as int, t + 1);
            assert(next.drop_last() =~= ts.subrange(from as int, t as int));
            assert(next.last() == ts[t as int]);
        }
        t = t + 1;
    }
    out
}

/// The four bin files of a tile set: at each resolution the first
/// `primary_capacity` tiles go to the primary file and the rest to the
/// secondary one.
pub fn save_bin_set(set: &TileSet, primary_capacity: usize) -> (r: (Vec<u8>, Vec<u8>, Vec<u8>, Vec<u8>))
    ensures
        ({
            let n = set.spec_len() as int;
            let k = if primary_capacity < n { primary_capacity as int } else { n };
            &&& r.0@ == flatten(set.sd_view().subrange(0, k))
            &&& r.1@ == flatten(set.sd_view().subrange(k, n))
            &&& r.2@ == flatten(set.hd_view().subrange(0, k))
            &&& r.3@ == flatten(set.hd_view().subrange(k, n))
        }),
{
    let n = set.len();
    let k = if primary_capacity < n { primary_capacity } else { n };
    let sd = encode_tiles(set.sd_tiles(), 0, k);
    let sd_2 = encode_tiles(set.sd_tiles(), k, n);
    let hd = encode_tiles(set.hd_tiles(), 0, k);
    let hd_2 = encode_tiles(set.hd_tiles(), k, n);
    (sd, sd_2, hd, hd_2)
}

/// Bin files saved from a tile set whose tiles have the given sizes load
/// back as the same tile set, whatever the primary files' capacity.
pub proof fn lemma_bin_set_round_trip(
    sd: Seq<Seq<u8>>,
    hd: Seq<Seq<u8>>,
    sd_tile_size: nat,
    hd_tile_size: nat,
    primary_capacity: nat,
)
    requires
        sd.len() == hd.len(),
        sd_tile_size > 0,
        hd_tile_size > 0,
        all_of_size(sd, sd_tile_size),
        all_of_size(hd, hd_tile_size),
    ensures
        ({
            let n = sd.len() as int;
            let k = if primary_capacity < n { primary_capacity as int } else { n };
            let (f0, f1) = (flatten(sd.subrange(0, k)), flatten(sd.subrange(k, n)));
            let (g0, g1) = (flatten(hd.subrange(0, k)), flatten(hd.subrange(k, n)));
            &&& f0.len() % sd_tile_size == 0 && f1.len() % sd_tile_size == 0
            &&& g0.len() % hd_tile_size == 0 && g1.len() % hd_tile_size == 0
            &&& records(f0, sd_tile_size) + records(f1, sd_tile_size) == sd
            &&& records(g0, hd_tile_size) + records(g1, hd_tile_size) == hd
        }),
{
    let n = sd.len() as int;
    let k = if primary_capacity < n { primary_capacity as int } else { n };
    lemma_split_records(sd, sd_tile_size, k);
    lemma_split_records(hd, hd_tile_size, k);
}

proof fn lemma_split_records(tiles: Seq<Seq<u8>>, tile_size: nat, k: int)
    requires
        0 <= k <= tiles.len(),
        tile_size > 0,
        all_of_size(tiles, tile_size),
    ensures
        flatten(tiles.subrange(0, k)).len() % tile_size == 0,
        flatten(tiles.subrange(k, tiles.len() as int)).len() % tile_size == 0,
        records(flatten(tiles.subrange(0, k)), tile_size) + records(
            flatten(tiles.subrange(k, tiles.len() as int)),
            tile_size,
        ) == tiles,
{
    let a = tiles.subrange(0, k);
    let b = tiles.subrange(k, tiles.len() as int);
    assert(all_of_size(a, tile_size)) by {
        assert forall|i: int| 0 <= i < a.len() implies (#[trigger] a[i]).len() == tile_size by {
            assert(a[i] == tiles[i]);
        }
    }
    assert(all_of_size(b, tile_size)) by {
        assert forall|i: int| 0 <= i < b.len() implies (#[trigger] b[i]).len() == tile_size by {
            assert(b[i] == tiles[i + k]);
        }
    }
    lemma_records_flatten(a, tile_size);
    lemma_records_flatten(b, tile_size);
    assert(a + b =~= tiles);
}

} // verus!
