//! The in-memory font set: tiles at both resolutions, the symbols extracted
//! from them by a symbol specification, and the way back.
use vstd::prelude::*;

verus! {

/// The bytes of one glyph tile at one resolution.
#[derive(Debug, PartialEq, Eq)]
pub struct TileBitmap {
    pub data: Vec<u8>,
}

impl View for TileBitmap {
    type V = Seq<u8>;

    open spec fn view(&self) -> Seq<u8> {
        self.data@
    }
}

pub open spec fn tiles_view(v: Seq<TileBitmap>) -> Seq<Seq<u8>> {
    v.map_values(|t: TileBitmap| t@)
}

impl TileBitmap {
    /// A tile with the same bytes.
    pub fn copy(&self) -> (r: TileBitmap)
        ensures
            r@ == self@,
    {
        let data = self.data.clone();
        assert(data@ =~= self.data@);
        TileBitmap { data }
    }
}

/// The tiles of a font at standard and at high definition; the index of a
/// tile is the same at both.
#[derive(Debug)]
pub struct TileSet {
    sd: Vec<TileBitmap>,
    hd: Vec<TileBitmap>,
}

/// Why two tile sequences do not make a tile set.
#[derive(Debug, PartialEq, Eq)]
pub enum TileSetError {
    TileCountMismatch { sd_count: usize, hd_count: usize },
}

impl TileSet {
    #[verifier::type_invariant]
    spec fn inv(self) -> bool {
        self.sd.len() == self.hd.len()
    }

    pub closed spec fn sd_view(&self) -> Seq<Seq<u8>> {
        tiles_view(self.sd@)
    }

    pub closed spec fn hd_view(&self) -> Seq<Seq<u8>> {
        tiles_view(self.hd@)
    }

    /// Both resolutions hold the same number of tiles.
    pub open spec fn wf(&self) -> bool {
        self.sd_view().len() == self.hd_view().len()
    }

    pub open spec fn spec_len(&self) -> nat {
        self.sd_view().len()
    }

    /// A tile set of these tiles; refused when the two resolutions hold
    /// different numbers of tiles.
    pub fn new(sd: Vec<TileBitmap>, hd: Vec<TileBitmap>) -> (r: Result<TileSet, TileSetError>)
        ensures
            sd.len() == hd.len() <==> r is Ok,
            r matches Ok(t) ==> t.wf() && t.sd_view() == tiles_view(sd@) && t.hd_view() == tiles_view(hd@),
            r matches Err(TileSetError::TileCountMismatch { sd_count, hd_count }) ==> sd_count == sd.len()
                && hd_count == hd.len(),
    {
        if sd.len() != hd.len() {
            return Err(TileSetError::TileCountMismatch { sd_count: sd.len(), hd_count: hd.len() });
        }
        Ok(TileSet { sd, hd })
    }

    /// The number of tiles at each resolution.
    pub fn len(&self) -> (r: usize)
        ensures
            r == self.spec_len(),
            r == self.hd_view().len(),
    {
        proof {
            use_type_invariant(self);
        }
        self.sd.len()
    }

    /// The SD tiles, by index.
    pub fn sd_tiles(&self) -> (r: &Vec<TileBitmap>)
        ensures
            tiles_view(r@) == self.sd_view(),
    {
        &self.sd
    }

    /// The HD tiles, by index.
    pub fn hd_tiles(&self) -> (r: &Vec<TileBitmap>)
        ensures
            tiles_view(r@) == self.hd_view(),
    {
        &self.hd
    }

    pub fn sd_tile(&self, index: usize) -> (r: &TileBitmap)
        requires
            index < self.sd_view().len(),
        ensures
            r@ == self.sd_view()[index as int],
    {
        &self.sd[index]
    }

    pub fn hd_tile(&self, index: usize) -> (r: &TileBitmap)
        requires
            index < self.hd_view().len(),
        ensures
            r@ == self.hd_view()[index as int],
    {
        &self.hd[index]
    }
}

// ---------------------------------------------------------------------------
// Symbols
// ---------------------------------------------------------------------------

/// One entry of a symbol specification: a symbol's name and the indices of
/// the tiles it is made of, in order.
#[derive(Debug)]
pub struct SymbolSpec {
    pub name: String,
    pub tile_indices: Vec<usize>,
}

/// A named glyph with its tiles at both resolutions.
#[derive(Debug)]
pub struct Symbol {
    name: String,
    sd: Vec<TileBitmap>,
    hd: Vec<TileBitmap>,
}

/// The model of a symbol: its name, its SD tiles and its HD tiles.
pub type SymbolView = (Seq<char>, Seq<Seq<u8>>, Seq<Seq<u8>>);

impl View for Symbol {
    type V = SymbolView;

    closed spec fn view(&self) -> SymbolView {
        (self.name@, tiles_view(self.sd@), tiles_view(self.hd@))
    }
}

impl Symbol {
    pub fn name(&self) -> (r: &String)
        ensures
            r@ == self@.0,
    {
        &self.name
    }

    pub fn sd_tiles(&self) -> (r: &Vec<TileBitmap>)
        ensures
            tiles_view(r@) == self@.1,
    {
        &self.sd
    }

    pub fn hd_tiles(&self) -> (r: &Vec<TileBitmap>)
        ensures
            tiles_view(r@) == self@.2,
    {
        &self.hd
    }
}

/// The symbols extracted from a tile set, in the order of their
/// specification.
#[derive(Debug)]
pub struct SymbolSet {
    symbols: Vec<Symbol>,
}

impl View for SymbolSet {
    type V = Seq<SymbolView>;

    closed spec fn view(&self) -> Seq<SymbolView> {
        self.symbols@.map_values(|s: Symbol| s@)
    }
}

/// A symbol specification that the tile set cannot satisfy.
#[derive(Debug, PartialEq, Eq)]
pub enum SymbolSetError {
    UndefinedTileIndex { symbol: String, index: usize },
}

/// Every tile index of the symbol is below `n`.
pub open spec fn indices_in_range(spec: SymbolSpec, n: nat) -> bool {
    forall|j: int| 0 <= j < spec.tile_indices@.len() ==> (#[trigger] spec.tile_indices@[j]) < n
}

/// The tiles at the given indices, in order.
pub open spec fn gather(tiles: Seq<Seq<u8>>, indices: Seq<usize>) -> Seq<Seq<u8>> {
    indices.map_values(|i: usize| tiles[i as int])
}

/// All the SD tiles of the symbols, symbol after symbol.
pub open spec fn flatten_sd(symbols: Seq<SymbolView>) -> Seq<Seq<u8>>
    decreases symbols.len(),
{
    if symbols.len() == 0 {
        Seq::empty()
    } else {
        flatten_sd(symbols.drop_last()) + symbols.last().1
    }
}

/// All the HD tiles of the symbols, symbol after symbol.
pub open spec fn flatten_hd(symbols: Seq<SymbolView>) -> Seq<Seq<u8>>
    decreases symbols.len(),
{
    if symbols.len() == 0 {
        Seq::empty()
    } else {
        flatten_hd(symbols.drop_last()) + symbols.last().2
    }
}

/// The entry at `k` is the first that names an index outside `0..n`: it
/// is called `symbol` and holds `index`.
pub open spec fn first_undefined(specs: Seq<SymbolSpec>, n: nat, k: int, symbol: Seq<char>, index: usize) -> bool {
    &&& 0 <= k < specs.len()
    &&& specs[k].name@ == symbol
    &&& specs[k].tile_indices@.contains(index)
    &&& index >= n
    &&& forall|k2: int| 0 <= k2 < k ==> indices_in_range(#[trigger] specs[k2], n)
}

impl SymbolSet {
    #[verifier::type_invariant]
    spec fn inv(self) -> bool {
        forall|k: int| 0 <= k < self.symbols@.len() ==> (#[trigger] self.symbols@[k]).sd@.len() == self.symbols@[k].hd@.len()
    }

    /// Each symbol has as many SD tiles as HD tiles.
    pub open spec fn wf(&self) -> bool {
        forall|k: int| 0 <= k < self@.len() ==> (#[trigger] self@[k]).1.len() == self@[k].2.len()
    }

    pub fn symbols(&self) -> (r: &Vec<Symbol>)
        ensures
            r@.map_values(|s: Symbol| s@) == self@,
    {
        &self.symbols
    }

    /// A tile set of all the symbols' tiles, symbol after symbol.
    pub fn into_tile_set(self) -> (r: TileSet)
        ensures
            r.wf(),
            r.sd_view() == flatten_sd(self@),
            r.hd_view() == flatten_hd(self@),
    {
        proof {
            use_type_invariant(&self);
            assert forall|k: int| 0 <= k < self@.len() implies (#[trigger] self@[k]).1.len() == self@[k].2.len() by {
                assert(self@[k] == self.symbols@[k]@);
            }
        }
        let mut sd: Vec<TileBitmap> = Vec::new();
        let mut hd: Vec<TileBitmap> = Vec::new();
        let n = self.symbols.len();
        let mut k: usize = 0;
        while k < n
            invariant
                n == self@.len(),
                self.wf(),
                k <= n,
                sd@.len() == hd@.len(),
                tiles_view(sd@) == flatten_sd(self@.take(k as int)),
                tiles_view(hd@) == flatten_hd(self@.take(k as int)),
            decreases n - k,
        {
            let sym = &self.symbols[k];
            assert(self@[k as int] == sym@);
            let ghost sd0 = tiles_view(sd@);
            let ghost hd0 = tiles_view(hd@);
            let m = sym.sd.len();
            let mut j: usize = 0;
            while j < m
                invariant
                    m == sym@.1.len(),
                    m == sym@.2.len(),
                    j <= m,
                    sd@.len() - sd0.len() == hd@.len() - hd0.len(),
                    sd0.len() == hd0.len(),
                    tiles_view(sd@) == sd0 + sym@.1.take(j as int),
                    tiles_view(hd@) == hd0 + sym@.2.take(j as int),
                decreases m - j,
            {
                let ghost old_sd = sd@;
                let ghost old_hd = hd@;
                let ts = sym.sd[j].copy();
                let th = sym.hd[j].copy();
                sd.push(ts);
                hd.push(th);
                proof {
                    assert(tiles_view(sd@) =~= tiles_view(old_sd).push(ts@));
                    assert(tiles_view(hd@) =~= tiles_view(old_hd).push(th@));
                    assert(sym@.1.take(j + 1) =~= sym@.1.take(j as int).push(sym@.1[j as int]));
                    assert(sym@.2.take(j + 1) =~= sym@.2.take(j as int).push(sym@.2[j as int]));
                }
                j = j + 1;
            }
            proof {
                assert(sym@.1.take(m as int) =~= sym@.1);
                assert(sym@.2.take(m as int) =~= sym@.2);
                assert(self@.take(k + 1).drop_last() =~= self@.take(k as int));
            }
            k = k + 1;
        }
        assert(self@.take(n as int) =~= self@);
        TileSet { sd, hd }
    }
}

impl TileSet {
    /// The symbols that `specs` names, each made of the tiles at its
    /// indices; refused at the first index that is not that of a tile.
    pub fn into_symbol_set(&self, specs: &Vec<SymbolSpec>) -> (r: Result<SymbolSet, SymbolSetError>)
        ensures
            r is Ok <==> forall|k: int| 0 <= k < specs@.len() ==> indices_in_range(#[trigger] specs@[k], self.spec_len()),
            r matches Ok(set) ==> {
                &&& set.wf()
                &&& set@.len() == specs@.len()
                &&& forall|k: int| 0 <= k < specs@.len() ==> #[trigger] set@[k] == (
                    specs@[k].name@,
                    gather(self.sd_view(), specs@[k].tile_indices@),
                    gather(self.hd_view(), specs@[k].tile_indices@),
                )
            },
            r is Err ==> exists|k: int|
                #[trigger] first_undefined(specs@, self.spec_len(), k, r->Err_0->symbol@, r->Err_0->index),
    {
        proof {
            use_type_invariant(self);
        }
        let n = self.sd.len();
        let mut symbols: Vec<Symbol> = Vec::new();
        let mut k: usize = 0;
        while k < specs.len()
            invariant
                self.wf(),
                n == self.spec_len(),
                k <= specs@.len(),
                symbols@.len() == k,
                forall|k2: int| 0 <= k2 < k ==> indices_in_range(#[trigger] specs@[k2], n as nat),
                forall|k2: int| 0 <= k2 < k ==> #[trigger] symbols@[k2]@ == (
                    specs@[k2].name@,
                    gather(self.sd_view(), specs@[k2].tile_indices@),
                    gather(self.hd_view(), specs@[k2].tile_indices@),
                ),
            decreases specs@.len() - k,
        {
            let spec = &specs[k];
            let mut sd: Vec<TileBitmap> = Vec::new();
            let mut hd: Vec<TileBitmap> = Vec::new();
            let m = spec.tile_indices.len();
            let mut j: usize = 0;
            while j < m
                invariant
                    self.wf(),
                    n == self.spec_len(),
                    k < specs@.len(),
                    *spec == specs@[k as int],
                    symbols@.len() == k,
                    forall|k2: int| 0 <= k2 < k ==> indices_in_range(#[trigger] specs@[k2], n as nat),
                    forall|k2: int| 0 <= k2 < k ==> #[trigger] symbols@[k2]@ == (
                        specs@[k2].name@,
                        gather(self.sd_view(), specs@[k2].tile_indices@),
                        gather(self.hd_view(), specs@[k2].tile_indices@),
                    ),
                    m == spec.tile_indices@.len(),
                    j <= m,
                    forall|j2: int| 0 <= j2 < j ==> (#[trigger] spec.tile_indices@[j2]) < n,
                    tiles_view(sd@) == gather(self.sd_view(), spec.tile_indices@.take(j as int)),
                    tiles_view(hd@) == gather(self.hd_view(), spec.tile_indices@.take(j as int)),
                decreases m - j,
            {
                let index = spec.tile_indices[j];
                if index >= n {
                    proof {
                        assert(spec.tile_indices@[j as int] == index);
                        assert(specs@[k as int].tile_indices@.contains(index));
                        assert(!indices_in_range(specs@[k as int], n as nat));
                    }
                    let symbol = spec.name.clone();
                    let res: Result<SymbolSet, SymbolSetError> = Err(
                        SymbolSetError::UndefinedTileIndex { symbol, index },
                    );
                    assert(first_undefined(specs@, n as nat, k as int, res->Err_0->symbol@, res->Err_0->index));
                    return res;
                }
                let ghost old_sd = sd@;
                let ghost old_hd = hd@;
                let ts = self.sd[index].copy();
                let th = self.hd[index].copy();
                sd.push(ts);
                hd.push(th);
                proof {
                    assert(tiles_view(sd@) =~= tiles_view(old_sd).push(ts@));
                    assert(tiles_view(hd@) =~= tiles_view(old_hd).push(th@));
                    let t = spec.tile_indices@;
                    assert(t.take(j + 1) =~= t.take(j as int).push(t[j as int]));
                    assert(gather(self.sd_view(), t.take(j + 1)) =~= gather(self.sd_view(), t.take(j as int)).push(self.sd_view()[index as int]));
                    assert(gather(self.hd_view(), t.take(j + 1)) =~= gather(self.hd_view(), t.take(j as int)).push(self.hd_view()[index as int]));
                }
                j = j + 1;
            }
            assert(spec.tile_indices@.take(m as int) =~= spec.tile_indices@);
            let name = spec.name.clone();
            let sym = Symbol { name, sd, hd };
            symbols.push(sym);
            assert(indices_in_range(specs@[k as int], n as nat));
            k = k + 1;
        }
        assert forall|k2: int| 0 <= k2 < symbols@.len() implies (#[trigger] symbols@[k2]).sd@.len()
            == symbols@[k2].hd@.len() by {
            assert(symbols@[k2]@.1.len() == symbols@[k2].sd@.len());
            assert(symbols@[k2]@.2.len() == symbols@[k2].hd@.len());
        }
        let set = SymbolSet { symbols };
        assert(set@.len() == specs@.len());
        Ok(set)
    }
}

} // verus!
