//! The minefield: a rectangular grid of tiles.

use crate::coordinates::Coordinates;
use crate::error::BoardError;
use crate::placement::{
    count_free, find_nth_free, frees, is_near, kept_places, lemma_blank_frees,
    lemma_frees_after_bomb, lemma_place_all_step, place_all,
};
use crate::random::SplitMix64;
use crate::tile::Tile;
use vstd::prelude::*;

verus! {

/// The mathematical content of a [`TileMap`]: its extent, its tiles row by
/// row, and the number of bombs it records.
pub struct TileMapView {
    pub width: nat,
    pub height: nat,
    pub bomb_count: nat,
    pub tiles: Seq<Tile>,
}

impl TileMapView {
    /// Whether `c` names a cell of the map.
    pub open spec fn in_bounds(self, c: Coordinates) -> bool {
        c.x < self.width && c.y < self.height
    }

    /// The place of `c` in the row-by-row sequence of tiles.
    pub open spec fn index_of(self, c: Coordinates) -> int {
        c.y * self.width + c.x
    }

    /// The tile at `c`.
    pub open spec fn tile_at(self, c: Coordinates) -> Tile
        recommends
            self.in_bounds(c),
    {
        self.tiles[self.index_of(c)]
    }

    /// The cells that hold a bomb.
    pub open spec fn bombs(self) -> Set<Coordinates> {
        Set::new(|c: Coordinates| self.in_bounds(c) && self.tile_at(c) is Bomb)
    }

    /// The bombs on the cells around `c`.
    pub open spec fn bombs_around(self, c: Coordinates) -> Set<Coordinates> {
        Set::new(|n: Coordinates| c.adjacent(n) && self.bombs().contains(n))
    }

    /// The number of bombs on the cells around `c`.
    pub open spec fn neighbor_bombs(self, c: Coordinates) -> nat {
        self.bombs_around(c).len()
    }

    /// The map has a positive extent that `u16` positions can name, one tile
    /// for each cell, numbered tiles between 1 and 8, and a bomb count equal
    /// to the number of its bombs.
    pub open spec fn wf(self) -> bool {
        &&& 0 < self.width <= u16::MAX
        &&& 0 < self.height <= u16::MAX
        &&& self.tiles.len() == self.width * self.height
        &&& forall|i: int|
            0 <= i < self.tiles.len() ==> (#[trigger] self.tiles[i] matches Tile::BombNeighbor(n)
                ==> 1 <= n <= 8)
        &&& self.bombs().finite()
        &&& self.bomb_count == self.bombs().len()
    }

    /// The map of `width` columns and `height` rows without bombs.
    pub open spec fn blank(width: nat, height: nat) -> TileMapView {
        TileMapView {
            width,
            height,
            bomb_count: 0,
            tiles: Seq::new(width * height, |at: int| Tile::Empty),
        }
    }

    /// Whether `found` is the first cell, row by row, whose tile is empty,
    /// or `None` where no tile is empty.
    pub open spec fn is_first_empty(self, found: Option<Coordinates>) -> bool {
        match found {
            Some(c) => {
                &&& self.in_bounds(c)
                &&& self.tile_at(c) is Empty
                &&& forall|d: Coordinates|
                    self.in_bounds(d) && self.index_of(d) < self.index_of(c) ==> !(
                    #[trigger] self.tile_at(d) is Empty)
            },
            None => forall|d: Coordinates|
                self.in_bounds(d) ==> !(#[trigger] self.tile_at(d) is Empty),
        }
    }

    /// A map has one first empty cell at most.
    pub proof fn lemma_first_empty_unique(self, a: Option<Coordinates>, b: Option<Coordinates>)
        requires
            self.wf(),
            self.is_first_empty(a),
            self.is_first_empty(b),
        ensures
            a == b,
    {
        match (a, b) {
            (Some(c), Some(d)) => {
                if self.index_of(c) == self.index_of(d) {
                    self.lemma_index_injective(c, d);
                }
            },
            _ => {},
        }
    }

    /// No bomb has been placed: every tile is empty.
    pub open spec fn is_blank(self) -> bool {
        forall|i: int| 0 <= i < self.tiles.len() ==> #[trigger] self.tiles[i] is Empty
    }

    /// Bombs have been placed and nothing counted yet: every tile is a bomb
    /// or empty.
    pub open spec fn is_unnumbered(self) -> bool {
        forall|i: int|
            0 <= i < self.tiles.len() ==> (#[trigger] self.tiles[i] is Empty || self.tiles[i] is Bomb)
    }

    /// Every tile without a bomb is classified by the number of bombs around
    /// it: empty where there is none, numbered with that count otherwise.
    pub open spec fn classified(self) -> bool {
        forall|c: Coordinates|
            self.in_bounds(c) && !(#[trigger] self.tile_at(c) is Bomb) ==> self.tile_at(c)
                == Tile::classify(self.neighbor_bombs(c))
    }

    /// A cell's place in the tile sequence lies within it.
    pub proof fn lemma_index_in_range(self, c: Coordinates)
        requires
            self.wf(),
            self.in_bounds(c),
        ensures
            0 <= self.index_of(c) < self.tiles.len(),
            self.index_of(c) <= u32::MAX,
    {
        let w = self.width as int;
        let h = self.height as int;
        let x = c.x as int;
        let y = c.y as int;
        assert(y * w + x < w * h) by (nonlinear_arith)
            requires
                0 <= x < w,
                0 <= y < h,
        ;
        assert(w * h <= 0xffff * 0xffff) by (nonlinear_arith)
            requires
                0 < w <= 0xffff,
                0 < h <= 0xffff,
        ;
    }

    /// Two cells of the map share a place in the tile sequence only if they
    /// are the same cell.
    pub proof fn lemma_index_injective(self, a: Coordinates, b: Coordinates)
        requires
            self.wf(),
            self.in_bounds(a),
            self.in_bounds(b),
            self.index_of(a) == self.index_of(b),
        ensures
            a == b,
    {
        let w = self.width as int;
        let ax = a.x as int;
        let ay = a.y as int;
        let bx = b.x as int;
        let by = b.y as int;
        assert(ay == by) by (nonlinear_arith)
            requires
                0 <= ax < w,
                0 <= bx < w,
                0 <= ay,
                0 <= by,
                ay * w + ax == by * w + bx,
        ;
    }

    /// Every place in the tile sequence belongs to a cell of the map.
    pub proof fn lemma_index_surjective(self, i: int) -> (c: Coordinates)
        requires
            self.wf(),
            0 <= i < self.tiles.len(),
        ensures
            self.in_bounds(c),
            self.index_of(c) == i,
            c.x == i % (self.width as int),
            c.y == i / (self.width as int),
    {
        let w = self.width as int;
        let h = self.height as int;
        vstd::arithmetic::div_mod::lemma_fundamental_div_mod(i, w);
        let q = i / w;
        let r = i % w;
        assert(0 <= q < h) by (nonlinear_arith)
            requires
                0 <= i < w * h,
                i == w * q + r,
                0 <= r < w,
                0 < w,
        ;
        assert(w * q == q * w) by (nonlinear_arith);
        Coordinates { x: r as u16, y: q as u16 }
    }

    /// The number of cells fits in 32 bits.
    pub proof fn lemma_cells_fit(self)
        requires
            self.wf(),
        ensures
            self.tiles.len() <= u32::MAX,
            self.tiles.len() > 0,
    {
        let w = self.width as int;
        let h = self.height as int;
        assert(0 < w * h <= 0xffff * 0xffff) by (nonlinear_arith)
            requires
                0 < w <= 0xffff,
                0 < h <= 0xffff,
        ;
    }

    /// A map holds at most as many bombs as it has cells.
    pub proof fn lemma_bomb_count_bounded(self)
        requires
            self.wf(),
        ensures
            self.bomb_count <= self.width * self.height,
    {
        let place = |c: Coordinates| self.index_of(c);
        let places = self.bombs().map(place);
        let all = vstd::set_lib::set_int_range(0, self.tiles.len() as int);
        assert forall|a: Coordinates, b: Coordinates|
            self.bombs().contains(a) && self.bombs().contains(b) && #[trigger] place(a)
                == #[trigger] place(b) implies a == b by {
            self.lemma_index_injective(a, b);
        }
        vstd::set_lib::lemma_map_size(self.bombs(), places, place);
        assert forall|i: int| places.contains(i) implies all.contains(i) by {
            let c = choose|c: Coordinates| self.bombs().contains(c) && place(c) == i;
            self.lemma_index_in_range(c);
        }
        vstd::set_lib::lemma_int_range(0, self.tiles.len() as int);
        vstd::set_lib::lemma_len_subset(places, all);
    }

    /// The map with the tile at place `at` replaced by `tile`, and the bomb
    /// count set to `bomb_count`.
    pub open spec fn with_tile(self, at: int, tile: Tile, bomb_count: nat) -> TileMapView {
        TileMapView { tiles: self.tiles.update(at, tile), bomb_count, ..self }
    }

    /// Putting a bomb on a tile that had none adds its cell to the bombs and
    /// one to their number.
    pub proof fn lemma_bomb_added(self, at: int)
        requires
            self.wf(),
            0 <= at < self.tiles.len(),
            !(self.tiles[at] is Bomb),
        ensures
            self.with_tile(at, Tile::Bomb, self.bomb_count + 1).wf(),
            exists|c: Coordinates|
                self.in_bounds(c) && self.index_of(c) == at && !self.bombs().contains(c)
                    && #[trigger] self.bombs().insert(c) == self.with_tile(
                    at,
                    Tile::Bomb,
                    self.bomb_count + 1,
                ).bombs(),
    {
        let after = self.with_tile(at, Tile::Bomb, self.bomb_count + 1);
        let c = self.lemma_index_surjective(at);
        assert forall|d: Coordinates| after.bombs().contains(d) <==> self.bombs().insert(
            c,
        ).contains(d) by {
            if self.in_bounds(d) {
                self.lemma_index_in_range(d);
                if self.index_of(d) == at {
                    self.lemma_index_injective(c, d);
                }
            }
        }
        assert(after.bombs() =~= self.bombs().insert(c));
    }

    /// The bombs among the cells of `cells`.
    pub open spec fn bombs_among(self, cells: Seq<Coordinates>) -> Set<Coordinates> {
        Set::new(|c: Coordinates| cells.contains(c) && self.bombs().contains(c))
    }

    /// Taking one more cell of a duplicate-free sequence into account adds
    /// that cell to the bombs among them exactly when it holds a bomb.
    pub proof fn lemma_bombs_among_step(self, cells: Seq<Coordinates>, i: int)
        requires
            0 <= i < cells.len(),
            cells.no_duplicates(),
            self.bombs_among(cells.take(i)).finite(),
        ensures
            self.bombs_among(cells.take(i + 1)).finite(),
            self.bombs_among(cells.take(i + 1)).len() == self.bombs_among(cells.take(i)).len() + (
            if self.bombs().contains(cells[i]) {
                1nat
            } else {
                0nat
            }),
    {
        let fewer = cells.take(i);
        let more = cells.take(i + 1);
        assert forall|c: Coordinates| more.contains(c) <==> (fewer.contains(c) || c == cells[i]) by {
            if c == cells[i] {
                assert(more[i] == c);
            }
        }
        if self.bombs().contains(cells[i]) {
            assert(self.bombs_among(more) =~= self.bombs_among(fewer).insert(cells[i]));
        } else {
            assert(self.bombs_among(more) =~= self.bombs_among(fewer));
        }
    }

    /// Replacing a tile that is no bomb by another that is none leaves the
    /// bombs where they are.
    pub proof fn lemma_retiled(self, at: int, tile: Tile)
        requires
            self.wf(),
            0 <= at < self.tiles.len(),
            !(self.tiles[at] is Bomb),
            !(tile is Bomb),
            tile matches Tile::BombNeighbor(n) ==> 1 <= n <= 8,
        ensures
            self.with_tile(at, tile, self.bomb_count).wf(),
            self.with_tile(at, tile, self.bomb_count).bombs() == self.bombs(),
    {
        let after = self.with_tile(at, tile, self.bomb_count);
        assert forall|d: Coordinates| after.bombs().contains(d) <==> self.bombs().contains(d) by {
            if self.in_bounds(d) {
                self.lemma_index_in_range(d);
            }
        }
        assert(after.bombs() =~= self.bombs());
    }

    /// The character at place `i` of the map's dump: the rows follow each
    /// other from the top row (the highest `y`) down, each as one character
    /// for each tile and a line feed.
    pub open spec fn dump_char(self, i: int) -> char {
        let line = self.width as int + 1;
        let row = i / line;
        let column = i % line;
        if column == self.width {
            '\n'
        } else {
            self.tiles[(self.height - 1 - row) * self.width + column].glyph()
        }
    }

    /// The map as text, for a look at it while debugging.
    pub open spec fn dump(self) -> Seq<char> {
        Seq::new(((self.width + 1) * self.height) as nat, |i: int| self.dump_char(i))
    }

    /// Column `column` of dumped row `row` lies at place
    /// `row * (width + 1) + column` of the dump.
    pub proof fn lemma_dump_place(self, row: int, column: int)
        requires
            0 <= row,
            0 <= column <= self.width,
        ensures
            (row * (self.width as int + 1) + column) / (self.width as int + 1) == row,
            (row * (self.width as int + 1) + column) % (self.width as int + 1) == column,
    {
        let line = self.width as int + 1;
        vstd::arithmetic::div_mod::lemma_fundamental_div_mod_converse(
            row * line + column,
            line,
            row,
            column,
        );
    }

    /// The map with one bomb placed for each of `draws`, in order, on a
    /// place that is empty and not kept clear on account of `avoid`, and
    /// with the bombs counted.
    pub open spec fn with_bombs(self, avoid: Option<Coordinates>, draws: Seq<u64>) -> TileMapView {
        TileMapView {
            tiles: place_all(self.tiles, self.kept(avoid), draws),
            bomb_count: draws.len(),
            ..self
        }
    }

    /// The cell whose tile lies at place `at` of the tiles.
    pub open spec fn cell_at(self, at: int) -> Coordinates {
        Coordinates { x: (at % (self.width as int)) as u16, y: (at / (self.width as int)) as u16 }
    }

    /// The tile at place `at` once the tiles are classified: a bomb stays,
    /// and any other tile shows the number of bombs around its cell.
    pub open spec fn numbered_tile(self, at: int) -> Tile {
        if self.tiles[at] is Bomb {
            Tile::Bomb
        } else {
            Tile::classify(self.neighbor_bombs(self.cell_at(at)))
        }
    }

    /// The map with every tile classified by the bombs around it.
    pub open spec fn numbered(self) -> TileMapView {
        TileMapView {
            tiles: Seq::new(self.tiles.len(), |at: int| self.numbered_tile(at)),
            ..self
        }
    }

    /// The map of `width` columns and `height` rows with one bomb placed
    /// for each of `draws`, away from `avoid`, and every tile classified.
    pub open spec fn generated(
        width: nat,
        height: nat,
        avoid: Option<Coordinates>,
        draws: Seq<u64>,
    ) -> TileMapView {
        Self::blank(width, height).with_bombs(avoid, draws).numbered()
    }

    /// A classified map with the bombs of `self` is `self` with its tiles
    /// classified.
    pub proof fn lemma_numbered(self, after: TileMapView)
        requires
            self.wf(),
            after.wf(),
            after.classified(),
            after.width == self.width,
            after.height == self.height,
            after.bomb_count == self.bomb_count,
            after.bombs() == self.bombs(),
        ensures
            after == self.numbered(),
    {
        assert forall|at: int| 0 <= at < self.tiles.len() implies after.tiles[at]
            == self.numbered_tile(at) by {
            let c = self.lemma_index_surjective(at);
            assert(after.bombs().contains(c) <==> after.tiles[at] is Bomb);
        }
        assert(after.tiles =~= self.numbered().tiles);
    }

    /// The places that are kept clear of bombs on account of `avoid`.
    pub open spec fn kept(self, avoid: Option<Coordinates>) -> Set<int> {
        kept_places(self.width as int, avoid)
    }

    /// The number of bombs that the map can take with `avoid` kept clear:
    /// the number of its places that are empty and not kept clear.
    pub open spec fn capacity(self, avoid: Option<Coordinates>) -> nat {
        frees(self.tiles, self.kept(avoid)).len()
    }

    /// No bomb lies on `avoid` or on a cell around it.
    pub open spec fn is_clear_around(self, avoid: Coordinates) -> bool {
        forall|c: Coordinates|
            is_near(avoid, c.x as int, c.y as int) ==> !(#[trigger] self.bombs().contains(c))
    }

    /// With no cell to avoid, a blank map can take a bomb on every cell.
    pub proof fn lemma_nothing_kept(self)
        requires
            self.wf(),
            self.is_blank(),
        ensures
            self.kept(None) == Set::<int>::empty(),
            self.capacity(None) == self.width * self.height,
    {
        lemma_blank_frees(self.tiles, self.tiles.len() as int);
    }

    /// Where the tiles on the kept places are empty, no bomb lies on `avoid`
    /// or around it.
    pub proof fn lemma_kept_is_clear(self, avoid: Coordinates)
        requires
            self.wf(),
            forall|at: int|
                0 <= at < self.tiles.len() && self.kept(Some(avoid)).contains(at)
                    ==> #[trigger] self.tiles[at] is Empty,
        ensures
            self.is_clear_around(avoid),
    {
        assert forall|c: Coordinates| is_near(avoid, c.x as int, c.y as int) implies !(
        #[trigger] self.bombs().contains(c)) by {
            if self.in_bounds(c) {
                self.lemma_index_in_range(c);
                vstd::arithmetic::div_mod::lemma_fundamental_div_mod_converse(
                    self.index_of(c),
                    self.width as int,
                    c.y as int,
                    c.x as int,
                );
            }
        }
    }

    /// On a classified map with no bomb on `avoid` or around it, the tile at
    /// `avoid` is empty: a first reveal there uncovers no bomb and spreads.
    pub proof fn lemma_clear_cell_is_empty(self, avoid: Coordinates)
        requires
            self.wf(),
            self.classified(),
            self.in_bounds(avoid),
            self.is_clear_around(avoid),
        ensures
            self.tile_at(avoid) is Empty,
    {
        assert(!self.bombs().contains(avoid));
        assert(self.bombs_around(avoid) =~= Set::<Coordinates>::empty());
    }
}

/// A rectangular grid of tiles together with the number of bombs on it.
#[derive(Debug)]
pub struct TileMap {
    width: u16,
    height: u16,
    bomb_count: usize,
    tiles: Vec<Tile>,
}

impl View for TileMap {
    type V = TileMapView;

    closed spec fn view(&self) -> TileMapView {
        TileMapView {
            width: self.width as nat,
            height: self.height as nat,
            bomb_count: self.bomb_count as nat,
            tiles: self.tiles@,
        }
    }
}

impl TileMap {
    /// A map of `width` columns and `height` rows without bombs: every tile
    /// is empty. Refused with `InvalidDimensions` where either extent is 0.
    pub fn generate(width: u16, height: u16) -> (made: Result<TileMap, BoardError>)
        ensures
            (width == 0 || height == 0) <==> made is Err,
            made matches Err(e) ==> e == BoardError::InvalidDimensions,
            made matches Ok(map) ==> {
                &&& map@ == TileMapView::blank(width as nat, height as nat)
                &&& map@.wf()
                &&& map@.width == width
                &&& map@.height == height
                &&& map@.bomb_count == 0
                &&& map@.is_blank()
                &&& map@.classified()
            },
    {
        if width == 0 || height == 0 {
            return Err(BoardError::InvalidDimensions);
        }
        assert(width * height <= 0xffff * 0xffff) by (nonlinear_arith)
            requires
                0 < width <= 0xffff,
                0 < height <= 0xffff,
        ;
        let cells: usize = (width as usize) * (height as usize);
        let mut tiles: Vec<Tile> = Vec::new();
        let mut i: usize = 0;
        while i < cells
            invariant
                i <= cells,
                tiles@.len() == i,
                forall|j: int| 0 <= j < i ==> #[trigger] tiles@[j] is Empty,
            decreases cells - i,
        {
            tiles.push(Tile::Empty);
            i += 1;
        }
        let ghost view = TileMapView {
            width: width as nat,
            height: height as nat,
            bomb_count: 0,
            tiles: tiles@,
        };
        proof {
            lemma_blank_has_no_bombs(view);
            lemma_blank_is_classified(view);
            assert(tiles@ =~= TileMapView::blank(width as nat, height as nat).tiles);
        }
        Ok(TileMap { width, height, bomb_count: 0, tiles })
    }

    /// The number of columns.
    pub fn width(&self) -> (w: u16)
        ensures
            w == self@.width,
    {
        self.width
    }

    /// The number of rows.
    pub fn height(&self) -> (h: u16)
        ensures
            h == self@.height,
    {
        self.height
    }

    /// The number of bombs placed.
    pub fn bomb_count(&self) -> (n: usize)
        ensures
            n == self@.bomb_count,
    {
        self.bomb_count
    }

    /// Whether `coords` names a cell of the map.
    pub fn contains(&self, coords: Coordinates) -> (inside: bool)
        ensures
            inside == self@.in_bounds(coords),
    {
        coords.x < self.width && coords.y < self.height
    }

    /// The tile at `coords`, a cell of the map.
    pub(crate) fn tile(&self, coords: Coordinates) -> (tile: Tile)
        requires
            self@.wf(),
            self@.in_bounds(coords),
        ensures
            tile == self@.tile_at(coords),
    {
        proof {
            self@.lemma_index_in_range(coords);
        }
        let at: usize = (coords.y as usize) * (self.width as usize) + (coords.x as usize);
        self.tiles[at]
    }

    /// The tile at `coords`, or `OutOfBounds` where the map has no such
    /// cell.
    pub fn tile_at(&self, coords: Coordinates) -> (tile: Result<Tile, BoardError>)
        requires
            self@.wf(),
        ensures
            tile == if self@.in_bounds(coords) {
                Ok::<Tile, BoardError>(self@.tile_at(coords))
            } else {
                Err::<Tile, BoardError>(BoardError::OutOfBounds)
            },
    {
        if self.contains(coords) {
            Ok(self.tile(coords))
        } else {
            Err(BoardError::OutOfBounds)
        }
    }

    /// Places one bomb for each of `draws`, in order, on a place that is
    /// free: empty, and not kept clear on account of `avoid`.
    fn place_drawn(&mut self, draws: &Vec<u64>, avoid: Option<Coordinates>) -> (placed: Result<
        (),
        BoardError,
    >)
        requires
            old(self)@.wf(),
            old(self)@.is_blank(),
        ensures
            final(self)@.wf(),
            final(self)@.width == old(self)@.width,
            final(self)@.height == old(self)@.height,
            placed is Err <==> draws@.len() > old(self)@.capacity(avoid),
            placed matches Err(e) ==> e == BoardError::BombCountExceedsCapacity && final(self)@
                == old(self)@,
            placed is Ok ==> {
                &&& final(self)@ == old(self)@.with_bombs(avoid, draws@)
                &&& final(self)@.is_unnumbered()
                &&& forall|at: int|
                    0 <= at < final(self)@.tiles.len() && old(self)@.kept(avoid).contains(at)
                        ==> #[trigger] final(self)@.tiles[at] is Empty
            },
    {
        let ghost kept = self@.kept(avoid);
        let capacity: usize = count_free(&self.tiles, self.width, avoid);
        if draws.len() > capacity {
            return Err(BoardError::BombCountExceedsCapacity);
        }
        proof {
            self@.lemma_cells_fit();
            lemma_blank_has_no_bombs(self@);
        }
        let mut k: usize = 0;
        while k < draws.len()
            invariant
                k <= draws@.len() <= capacity,
                capacity <= self.tiles@.len() <= u32::MAX,
                kept == old(self)@.kept(avoid),
                self@.wf(),
                self@.width == old(self)@.width,
                self@.height == old(self)@.height,
                self@.is_unnumbered(),
                self@.bomb_count == k,
                frees(self.tiles@, kept).len() == capacity - k,
                self.tiles@ == place_all(old(self)@.tiles, kept, draws@.take(k as int)),
                forall|at: int|
                    0 <= at < self.tiles@.len() && kept.contains(at) ==> #[trigger] self.tiles@[at]
                        is Empty,
            decreases draws@.len() - k,
        {
            let free: usize = capacity - k;
            let rank: usize = (draws[k] % (free as u64)) as usize;
            let at: usize = find_nth_free(&self.tiles, self.width, avoid, rank);
            proof {
                lemma_frees_after_bomb(self.tiles@, kept, at as int);
                lemma_place_all_step(old(self)@.tiles, kept, draws@, k as int);
                self@.lemma_bomb_added(at as int);
            }
            self.tiles[at] = Tile::Bomb;
            self.bomb_count = self.bomb_count + 1;
            k += 1;
        }
        proof {
            assert(draws@.take(k as int) =~= draws@);
        }
        Ok(())
    }

    /// Places one bomb for each of `draws`, in order: with `free` empty tiles
    /// left, the draw `d` puts a bomb on the empty tile that has `d % free`
    /// empty tiles before it, row by row. Refused with
    /// `BombCountExceedsCapacity`, and the map left as it was, where there
    /// are more draws than cells.
    ///
    /// Bombs are placed once, on a map that has none.
    pub fn place_drawn_bombs(&mut self, draws: &Vec<u64>) -> (placed: Result<(), BoardError>)
        requires
            old(self)@.wf(),
            old(self)@.is_blank(),
        ensures
            final(self)@.wf(),
            final(self)@.width == old(self)@.width,
            final(self)@.height == old(self)@.height,
            placed is Err <==> draws@.len() > old(self)@.width * old(self)@.height,
            placed matches Err(e) ==> e == BoardError::BombCountExceedsCapacity && final(self)@
                == old(self)@,
            placed is Ok ==> {
                &&& final(self)@ == old(self)@.with_bombs(None, draws@)
                &&& final(self)@.tiles == place_all(old(self)@.tiles, Set::empty(), draws@)
                &&& final(self)@.bomb_count == draws@.len()
                &&& final(self)@.bombs().len() == draws@.len()
                &&& final(self)@.is_unnumbered()
            },
    {
        proof {
            self@.lemma_nothing_kept();
        }
        self.place_drawn(draws, None)
    }

    /// Places one bomb for each of `draws`, in order, and none on `avoid`
    /// nor on a cell around it: with `free` cells left that are empty and
    /// away from `avoid`, the draw `d` puts a bomb on the one of them that
    /// has `d % free` of them before it, row by row. Refused with
    /// `BombCountExceedsCapacity`, and the map left as it was, where there
    /// are more draws than cells away from `avoid`.
    ///
    /// Bombs are placed once, on a map that has none.
    pub fn place_drawn_bombs_avoiding(&mut self, draws: &Vec<u64>, avoid: Coordinates) -> (placed:
        Result<(), BoardError>)
        requires
            old(self)@.wf(),
            old(self)@.is_blank(),
        ensures
            final(self)@.wf(),
            final(self)@.width == old(self)@.width,
            final(self)@.height == old(self)@.height,
            placed is Err <==> draws@.len() > old(self)@.capacity(Some(avoid)),
            placed matches Err(e) ==> e == BoardError::BombCountExceedsCapacity && final(self)@
                == old(self)@,
            placed is Ok ==> {
                &&& final(self)@ == old(self)@.with_bombs(Some(avoid), draws@)
                &&& final(self)@.bomb_count == draws@.len()
                &&& final(self)@.bombs().len() == draws@.len()
                &&& final(self)@.is_unnumbered()
                &&& final(self)@.is_clear_around(avoid)
            },
    {
        let placed = self.place_drawn(draws, Some(avoid));
        proof {
            if placed is Ok {
                self@.lemma_kept_is_clear(avoid);
            }
        }
        placed
    }

    /// Places `count` bombs on distinct cells chosen by the next `count`
    /// numbers of `rng`, one for each bomb, as `place_drawn_bombs` places
    /// them. Refused with `BombCountExceedsCapacity`, with the map left as
    /// it was and nothing drawn, where `count` exceeds the number of cells.
    ///
    /// Bombs are placed once, on a map that has none.
    pub fn place_bombs(&mut self, count: usize, rng: &mut SplitMix64) -> (placed: Result<
        (),
        BoardError,
    >)
        requires
            old(self)@.wf(),
            old(self)@.is_blank(),
        ensures
            final(self)@.wf(),
            placed is Err <==> count > old(self)@.width * old(self)@.height,
            placed matches Err(e) ==> e == BoardError::BombCountExceedsCapacity && final(self)@
                == old(self)@ && *final(rng) == *old(rng),
            placed is Ok ==> {
                &&& final(self)@ == old(self)@.with_bombs(
                    None,
                    SplitMix64::stream(old(rng).state, count as nat),
                )
                &&& final(rng).state == SplitMix64::advance_by(old(rng).state, count as nat)
                &&& final(self)@.bomb_count == count
                &&& final(self)@.bombs().len() == count
                &&& final(self)@.is_unnumbered()
            },
    {
        if count > self.tiles.len() {
            return Err(BoardError::BombCountExceedsCapacity);
        }
        let draws = rng.draw(count);
        self.place_drawn_bombs(&draws)
    }

    /// Places `count` bombs on distinct cells chosen by the next `count`
    /// numbers of `rng`, one for each bomb, and none on `avoid` nor on a
    /// cell around it, as `place_drawn_bombs_avoiding` places them: once
    /// the tiles are classified, the tile at `avoid` is empty. Refused with
    /// `BombCountExceedsCapacity`, with the map left as it was and nothing
    /// drawn, where `count` exceeds the number of cells away from `avoid`.
    ///
    /// Bombs are placed once, on a map that has none.
    pub fn place_bombs_avoiding(&mut self, count: usize, rng: &mut SplitMix64, avoid: Coordinates) -> (placed:
        Result<(), BoardError>)
        requires
            old(self)@.wf(),
            old(self)@.is_blank(),
        ensures
            final(self)@.wf(),
            placed is Err <==> count > old(self)@.capacity(Some(avoid)),
            placed matches Err(e) ==> e == BoardError::BombCountExceedsCapacity && final(self)@
                == old(self)@ && *final(rng) == *old(rng),
            placed is Ok ==> {
                &&& final(self)@ == old(self)@.with_bombs(
                    Some(avoid),
                    SplitMix64::stream(old(rng).state, count as nat),
                )
                &&& final(rng).state == SplitMix64::advance_by(old(rng).state, count as nat)
                &&& final(self)@.bomb_count == count
                &&& final(self)@.bombs().len() == count
                &&& final(self)@.is_unnumbered()
                &&& final(self)@.is_clear_around(avoid)
            },
    {
        if count > count_free(&self.tiles, self.width, Some(avoid)) {
            return Err(BoardError::BombCountExceedsCapacity);
        }
        let draws = rng.draw(count);
        self.place_drawn_bombs_avoiding(&draws, avoid)
    }

    /// The number of bombs on the cells around `coords`.
    pub fn bomb_count_at(&self, coords: Coordinates) -> (around: u8)
        requires
            self@.wf(),
        ensures
            around == self@.neighbor_bombs(coords),
            around <= 8,
    {
        let cells = coords.neighbors();
        let mut around: u8 = 0;
        let mut i: usize = 0;
        proof {
            coords.lemma_neighbors();
            assert(self@.bombs_among(cells@.take(0)) =~= Set::<Coordinates>::empty());
        }
        while i < cells.len()
            invariant
                self@.wf(),
                cells@ == coords.neighbors_spec(),
                cells@.no_duplicates(),
                cells@.len() <= 8,
                i <= cells@.len(),
                self@.bombs_among(cells@.take(i as int)).finite(),
                around == self@.bombs_among(cells@.take(i as int)).len(),
                around <= i,
            decreases cells@.len() - i,
        {
            let cell = cells[i];
            proof {
                self@.lemma_bombs_among_step(cells@, i as int);
            }
            if self.contains(cell) && self.tile(cell).is_bomb() {
                around += 1;
            }
            i += 1;
        }
        proof {
            assert(cells@.take(i as int) =~= cells@);
            assert(self@.bombs_among(cells@) =~= self@.bombs_around(coords));
        }
        around
    }

    /// Classifies every tile without a bomb by the number of bombs around
    /// it: empty where there is none, numbered with that count otherwise.
    /// Bombs stay where they are.
    pub fn compute_neighbor_counts(&mut self)
        requires
            old(self)@.wf(),
        ensures
            final(self)@.wf(),
            final(self)@ == old(self)@.numbered(),
            final(self)@.classified(),
            final(self)@.width == old(self)@.width,
            final(self)@.height == old(self)@.height,
            final(self)@.bomb_count == old(self)@.bomb_count,
            final(self)@.bombs() == old(self)@.bombs(),
    {
        let mut x: u16 = 0;
        let mut y: u16 = 0;
        let mut at: usize = 0;
        proof {
            self@.lemma_cells_fit();
        }
        while y < self.height
            invariant
                self@.wf(),
                self@.width == old(self)@.width,
                self@.height == old(self)@.height,
                self@.bomb_count == old(self)@.bomb_count,
                self@.bombs() == old(self)@.bombs(),
                x < self@.width,
                y <= self@.height,
                y == self@.height ==> x == 0,
                at == y * self@.width + x,
                self@.tiles.len() <= u32::MAX,
                forall|c: Coordinates|
                    self@.in_bounds(c) && self@.index_of(c) < at && !(#[trigger] self@.tile_at(c)
                        is Bomb) ==> self@.tile_at(c) == Tile::classify(self@.neighbor_bombs(c)),
            decreases self@.tiles.len() - at,
        {
            let here = Coordinates { x, y };
            proof {
                self@.lemma_index_in_range(here);
            }
            let ghost before = self@;
            if !self.tiles[at].is_bomb() {
                let around = self.bomb_count_at(here);
                proof {
                    self@.lemma_retiled(at as int, Tile::classify(around as nat));
                }
                self.tiles[at] = Tile::from_count(around);
            }
            proof {
                assert forall|c: Coordinates|
                    self@.in_bounds(c) && self@.index_of(c) < at + 1 && !(#[trigger] self@.tile_at(
                        c,
                    ) is Bomb) implies self@.tile_at(c) == Tile::classify(
                    self@.neighbor_bombs(c),
                ) by {
                    if before.index_of(c) == at {
                        before.lemma_index_injective(c, here);
                    } else {
                        assert(self@.tile_at(c) == before.tile_at(c));
                    }
                }
            }
            at += 1;
            if x + 1 < self.width {
                x += 1;
            } else {
                proof {
                    assert((y + 1) * self@.width == y * self@.width + self@.width)
                        by (nonlinear_arith);
                }
                x = 0;
                y += 1;
            }
        }
        proof {
            assert(self@.height * self@.width == self@.width * self@.height) by (nonlinear_arith);
            assert forall|c: Coordinates|
                self@.in_bounds(c) && !(#[trigger] self@.tile_at(c) is Bomb) implies self@.tile_at(
                c,
            ) == Tile::classify(self@.neighbor_bombs(c)) by {
                self@.lemma_index_in_range(c);
            }
            old(self)@.lemma_numbered(self@);
        }
    }

    /// The first cell, row by row, whose tile is empty: a cell that can be
    /// revealed first without risk. `None` where the map has no empty tile.
    pub fn first_empty(&self) -> (found: Option<Coordinates>)
        requires
            self@.wf(),
        ensures
            self@.is_first_empty(found),
    {
        let mut x: u16 = 0;
        let mut y: u16 = 0;
        let mut at: usize = 0;
        proof {
            self@.lemma_cells_fit();
        }
        while y < self.height
            invariant
                self@.wf(),
                x < self@.width,
                y <= self@.height,
                y == self@.height ==> x == 0,
                at == y * self@.width + x,
                self@.tiles.len() <= u32::MAX,
                forall|d: Coordinates|
                    self@.in_bounds(d) && self@.index_of(d) < at ==> !(#[trigger] self@.tile_at(d)
                        is Empty),
            decreases self@.tiles.len() - at,
        {
            let here = Coordinates { x, y };
            proof {
                self@.lemma_index_in_range(here);
            }
            if self.tiles[at].is_empty() {
                return Some(here);
            }
            at += 1;
            if x + 1 < self.width {
                x += 1;
            } else {
                proof {
                    assert((y + 1) * self@.width == y * self@.width + self@.width)
                        by (nonlinear_arith);
                }
                x = 0;
                y += 1;
            }
        }
        proof {
            assert(self@.height * self@.width == self@.width * self@.height) by (nonlinear_arith);
            assert forall|d: Coordinates| self@.in_bounds(d) implies !(#[trigger] self@.tile_at(d)
                is Empty) by {
                self@.lemma_index_in_range(d);
            }
        }
        None
    }

    /// The characters of the map's dump.
    fn console_chars(&self) -> (chars: Vec<char>)
        requires
            self@.wf(),
        ensures
            chars@ == self@.dump(),
    {
        let mut chars: Vec<char> = Vec::new();
        let mut row: u16 = 0;
        let ghost line = self@.width as int + 1;
        while row < self.height
            invariant
                self@.wf(),
                line == self@.width as int + 1,
                row <= self@.height,
                chars@.len() == row * line,
                forall|i: int| 0 <= i < chars@.len() ==> chars@[i] == self@.dump_char(i),
            decreases self@.height - row,
        {
            let y: u16 = self.height - 1 - row;
            let mut x: u16 = 0;
            while x < self.width
                invariant
                    self@.wf(),
                    line == self@.width as int + 1,
                    row < self@.height,
                    y == self@.height - 1 - row,
                    x <= self@.width,
                    chars@.len() == row * line + x,
                    forall|i: int| 0 <= i < chars@.len() ==> chars@[i] == self@.dump_char(i),
                decreases self@.width - x,
            {
                let here = Coordinates { x, y };
                proof {
                    self@.lemma_dump_place(row as int, x as int);
                }
                chars.push(self.tile(here).console_output());
                x += 1;
            }
            proof {
                self@.lemma_dump_place(row as int, x as int);
                assert((row + 1) * line == row * line + line) by (nonlinear_arith);
            }
            chars.push('\n');
            row += 1;
        }
        proof {
            assert(self@.height * line == line * self@.height) by (nonlinear_arith);
        }
        chars
    }

    /// The map as text, for a look at it while debugging: the rows from the
    /// top row (the highest `y`) down, each as one character for each tile
    /// (`*` for a bomb, the digit of its count for a numbered tile, a blank
    /// for an empty one) and a line feed.
    pub fn console_output(&self) -> (text: String)
        requires
            self@.wf(),
        ensures
            text@ == self@.dump(),
    {
        text_of(&self.console_chars())
    }
}

/// A map whose tiles are all empty holds no bomb.
pub proof fn lemma_blank_has_no_bombs(map: TileMapView)
    requires
        map.is_blank(),
        0 < map.width <= u16::MAX,
        0 < map.height <= u16::MAX,
        map.tiles.len() == map.width * map.height,
    ensures
        map.bombs() == Set::<Coordinates>::empty(),
        map.bombs().finite(),
        map.bombs().len() == 0,
{
    assert forall|c: Coordinates| !map.bombs().contains(c) by {
        if map.in_bounds(c) {
            lemma_index_bounds(map.width as int, map.height as int, c.x as int, c.y as int);
        }
    }
    assert(map.bombs() =~= Set::<Coordinates>::empty());
}

/// A map whose tiles are all empty is classified: no cell has a bomb around
/// it.
pub proof fn lemma_blank_is_classified(map: TileMapView)
    requires
        map.is_blank(),
        0 < map.width <= u16::MAX,
        0 < map.height <= u16::MAX,
        map.tiles.len() == map.width * map.height,
    ensures
        map.classified(),
{
    lemma_blank_has_no_bombs(map);
    assert forall|c: Coordinates|
        map.in_bounds(c) && !(#[trigger] map.tile_at(c) is Bomb) implies map.tile_at(c)
        == Tile::classify(map.neighbor_bombs(c)) by {
        assert(map.bombs_around(c) =~= Set::<Coordinates>::empty());
        lemma_index_bounds(map.width as int, map.height as int, c.x as int, c.y as int);
    }
}

/// The row-by-row place of column `x` in row `y` lies within `w * h`.
pub proof fn lemma_index_bounds(w: int, h: int, x: int, y: int)
    requires
        0 <= x < w,
        0 <= y < h,
    ensures
        0 <= y * w + x < w * h,
{
    assert(y * w + x < w * h) by (nonlinear_arith)
        requires
            0 <= x < w,
            0 <= y < h,
    ;
}

/// `Iterator::collect` into a `String`: the text made of `chars`, in order.
#[verifier::external_body]
fn text_of(chars: &Vec<char>) -> (text: String)
    ensures
        text@ == chars@,
{
    chars.iter().collect()
}

} // verus!
