//! The board in play: a map, the covers still on it, and the flags.

use crate::cascade::{
    coords_of, lemma_without, lemma_without_pushed, without, BoardView, UncoveredTile,
};
use crate::coordinates::Coordinates;
use crate::covered::{covered_entries, CoveredTiles};
use crate::error::BoardError;
use crate::geometry::BoardGeometry;
use crate::random::SplitMix64;
use crate::tile_map::{TileMap, TileMapView};
use vstd::prelude::*;

verus! {

/// The covered cells as positions, given the table's entries under column
/// and row.
pub open spec fn covered_view(entries: Map<(u16, u16), u64>) -> Map<Coordinates, u64> {
    Map::new(
        |c: Coordinates| entries.dom().contains(c.key()),
        |c: Coordinates| entries[c.key()],
    )
}

/// The position that is stored under `key`.
pub open spec fn position_of(key: (u16, u16)) -> Coordinates {
    Coordinates { x: key.0, y: key.1 }
}

/// Taking a key out of the table takes its position out of the covered
/// cells.
pub proof fn lemma_covered_view_remove(entries: Map<(u16, u16), u64>, c: Coordinates)
    ensures
        covered_view(entries.remove(c.key())) == covered_view(entries).remove(c),
{
}

/// Storing a handle under a key stores it under its position.
pub proof fn lemma_covered_view_insert(entries: Map<(u16, u16), u64>, c: Coordinates, handle: u64)
    ensures
        covered_view(entries.insert(c.key(), handle)) == covered_view(entries).insert(c, handle),
{
}

/// A finite table covers as many positions as it has keys.
pub proof fn lemma_covered_view_len(entries: Map<(u16, u16), u64>)
    requires
        entries.dom().finite(),
    ensures
        covered_view(entries).dom().finite(),
        covered_view(entries).dom().len() == entries.dom().len(),
{
    let to_position = |key: (u16, u16)| position_of(key);
    assert(entries.dom().map(to_position) =~= covered_view(entries).dom());
    vstd::set_lib::lemma_map_size(entries.dom(), covered_view(entries).dom(), to_position);
}

/// What a reveal did.
#[derive(Debug, PartialEq, Eq)]
pub enum RevealOutcome {
    /// The cell is flagged: nothing was uncovered.
    Blocked,
    /// The cell was not covered: nothing was uncovered.
    AlreadyRevealed,
    /// The cell held a bomb. It alone was uncovered. `completed` tells
    /// whether the board then counted as won.
    HitBomb { tile: UncoveredTile, completed: bool },
    /// The cell held no bomb. `tiles` are the cells uncovered, the revealed
    /// cell first, each once. `completed` tells whether the board is then
    /// won.
    Uncovered { tiles: Vec<UncoveredTile>, completed: bool },
}

impl RevealOutcome {
    /// Whether this outcome is what a reveal of `coords` on the board
    /// `before` gives.
    ///
    /// `Blocked` stands for a flagged cell and `AlreadyRevealed` for a cell
    /// that is neither flagged nor covered. `HitBomb` stands for a covered,
    /// unflagged bomb, and names the cell and the handle of its cover.
    /// `Uncovered` stands for any other covered, unflagged cell: its tiles
    /// are the cells of the cascade of `coords`, each once and `coords`
    /// first, each with the handle of its cover. `completed` tells whether
    /// the board is won after the reveal.
    pub open spec fn describes(self, before: BoardView, coords: Coordinates) -> bool {
        match self {
            RevealOutcome::Blocked => before.is_flagged(coords),
            RevealOutcome::AlreadyRevealed => !before.is_flagged(coords) && !before.is_covered(
                coords,
            ),
            RevealOutcome::HitBomb { tile, completed } => {
                &&& before.can_uncover(coords)
                &&& before.tile_map.tile_at(coords) is Bomb
                &&& tile == (UncoveredTile { coords, handle: before.covered[coords] })
                &&& completed == before.after_reveal(coords).is_won()
            },
            RevealOutcome::Uncovered { tiles, completed } => {
                &&& before.can_uncover(coords)
                &&& !(before.tile_map.tile_at(coords) is Bomb)
                &&& tiles@.len() > 0
                &&& tiles@[0].coords == coords
                &&& coords_of(tiles@).no_duplicates()
                &&& coords_of(tiles@).to_set() == before.cascade(coords)
                &&& forall|i: int|
                    0 <= i < tiles@.len() ==> (#[trigger] tiles@[i]).handle
                        == before.covered[tiles@[i].coords]
                &&& completed == before.after_reveal(coords).is_won()
            },
        }
    }
}

/// A board in play: the map, where the board lies on the screen, the covers
/// that are still in place, and the flags.
#[derive(Debug)]
pub struct Board {
    tile_map: TileMap,
    geometry: BoardGeometry,
    covered_tiles: CoveredTiles,
    marked_tiles: Vec<Coordinates>,
}

impl View for Board {
    type V = BoardView;

    closed spec fn view(&self) -> BoardView {
        BoardView {
            tile_map: self.tile_map@,
            geometry: self.geometry,
            covered: covered_view(covered_entries(self.covered_tiles)),
            marks: self.marked_tiles@,
        }
    }
}

impl Board {
    /// The board's content is well formed, and its table of covers is
    /// finite.
    pub closed spec fn wf(&self) -> bool {
        &&& self@.wf()
        &&& covered_entries(self.covered_tiles).dom().finite()
    }

    /// The content of a well-formed board is well formed.
    pub proof fn lemma_wf(&self)
        requires
            self.wf(),
        ensures
            self@.wf(),
    {
    }

    /// A board on `tile_map` with every cell covered and none flagged. The
    /// cover of each cell gets the cell's place in the map, counted row by
    /// row, as its handle.
    pub fn new(tile_map: TileMap, geometry: BoardGeometry) -> (board: Board)
        requires
            tile_map@.wf(),
            tile_map@.classified(),
        ensures
            board.wf(),
            board@ == BoardView::fresh(tile_map@, geometry),
            board@.tile_map == tile_map@,
            board@.geometry == geometry,
            board@.is_fresh(),
    {
        let mut covered_tiles = CoveredTiles::new();
        let width = tile_map.width();
        let height = tile_map.height();
        let ghost map = tile_map@;
        let mut x: u16 = 0;
        let mut y: u16 = 0;
        let mut at: usize = 0;
        proof {
            map.lemma_cells_fit();
            assert(covered_entries(covered_tiles).dom() =~= Set::<(u16, u16)>::empty());
        }
        while y < height
            invariant
                map.wf(),
                width == map.width,
                height == map.height,
                x < width,
                y <= height,
                y == height ==> x == 0,
                at == y * map.width + x,
                map.tiles.len() <= u32::MAX,
                covered_entries(covered_tiles).dom().finite(),
                forall|c: Coordinates|
                    covered_entries(covered_tiles).dom().contains(#[trigger] c.key()) <==> (
                    map.in_bounds(c) && map.index_of(c) < at),
                forall|c: Coordinates|
                    covered_entries(covered_tiles).dom().contains(#[trigger] c.key())
                        ==> covered_entries(covered_tiles)[c.key()] == map.index_of(c),
            decreases map.tiles.len() - at,
        {
            let here = Coordinates { x, y };
            proof {
                map.lemma_index_in_range(here);
            }
            covered_tiles.insert((x, y), at as u64);
            proof {
                assert forall|c: Coordinates|
                    covered_entries(covered_tiles).dom().contains(#[trigger] c.key()) <==> (
                    map.in_bounds(c) && map.index_of(c) < at + 1) by {
                    if map.in_bounds(c) && map.index_of(c) == at {
                        map.lemma_index_injective(c, here);
                    }
                }
            }
            at += 1;
            if x + 1 < width {
                x += 1;
            } else {
                proof {
                    assert((y + 1) * map.width == y * map.width + map.width) by (nonlinear_arith);
                }
                x = 0;
                y += 1;
            }
        }
        let board = Board { tile_map, geometry, covered_tiles, marked_tiles: Vec::new() };
        proof {
            lemma_covered_view_len(covered_entries(board.covered_tiles));
            assert forall|c: Coordinates| board@.is_covered(c) <==> map.in_bounds(c) by {
                if map.in_bounds(c) {
                    map.lemma_index_in_range(c);
                }
            }
            assert(board@.covered =~= BoardView::fresh(map, geometry).covered);
        }
        board
    }

    /// The map that the board plays on.
    pub fn tile_map(&self) -> (map: &TileMap)
        ensures
            map@ == self@.tile_map,
    {
        &self.tile_map
    }

    /// Where the board lies on the screen.
    pub fn geometry(&self) -> (geometry: BoardGeometry)
        ensures
            geometry == self@.geometry,
    {
        self.geometry
    }

    /// The flagged cells, each once, in the order in which their flags
    /// were set.
    pub fn marked_tiles(&self) -> (marks: &Vec<Coordinates>)
        ensures
            marks@ == self@.marks,
    {
        &self.marked_tiles
    }

    /// Whether the cell at `coords` is still covered.
    pub fn is_covered(&self, coords: Coordinates) -> (covered: bool)
        ensures
            covered == self@.is_covered(coords),
    {
        self.covered_tiles.contains_key((coords.x, coords.y))
    }

    /// The place of `coords` among the recorded flags, if it is flagged.
    fn find_mark(&self, coords: Coordinates) -> (found: Option<usize>)
        ensures
            found is Some <==> self@.is_flagged(coords),
            found matches Some(at) ==> at < self@.marks.len() && self@.marks[at as int] == coords,
    {
        let mut at: usize = 0;
        while at < self.marked_tiles.len()
            invariant
                at <= self.marked_tiles@.len(),
                forall|i: int| 0 <= i < at ==> self.marked_tiles@[i] != coords,
            decreases self.marked_tiles@.len() - at,
        {
            if self.marked_tiles[at] == coords {
                return Some(at);
            }
            at += 1;
        }
        None
    }

    /// Whether the cell at `coords` carries a flag. Only covered cells do.
    pub fn is_flagged(&self, coords: Coordinates) -> (flagged: bool)
        ensures
            flagged == self@.is_flagged(coords),
    {
        self.find_mark(coords).is_some()
    }

    /// The handle of the cover at `coords`, where a reveal can take it off:
    /// `None` for a flagged cell and for a cell that is not covered.
    pub fn get_covered_tile(&self, coords: Coordinates) -> (handle: Option<u64>)
        ensures
            handle == if self@.can_uncover(coords) {
                Some(self@.covered[coords])
            } else {
                None::<u64>
            },
    {
        if self.is_flagged(coords) {
            None
        } else {
            self.covered_tiles.get((coords.x, coords.y))
        }
    }

    /// The neighbours of `coords` that are still covered, in the order of
    /// `neighbors`, flagged ones included.
    pub fn adjacent_covered(&self, coords: Coordinates) -> (cells: Vec<Coordinates>)
        ensures
            cells@ == self@.adjacent_covered(coords),
    {
        let around = coords.neighbors();
        let mut cells: Vec<Coordinates> = Vec::new();
        let ghost covered = |n: Coordinates| self@.is_covered(n);
        let mut i: usize = 0;
        while i < around.len()
            invariant
                i <= around@.len(),
                around@ == coords.neighbors_spec(),
                covered == |n: Coordinates| self@.is_covered(n),
                cells@ == around@.take(i as int).filter(covered),
            decreases around@.len() - i,
        {
            let cell = around[i];
            proof {
                assert(around@.take(i + 1) =~= around@.take(i as int).push(cell));
                around@.take(i as int).lemma_filter_push(cell, covered);
            }
            if self.is_covered(cell) {
                cells.push(cell);
            }
            i += 1;
        }
        proof {
            assert(around@.take(i as int) =~= around@);
        }
        cells
    }

    /// The handles of the covers around `coords` that a reveal can take
    /// off: those of the covered, unflagged neighbours, in the order of
    /// `neighbors`.
    pub fn adjacent_covered_tiles(&self, coords: Coordinates) -> (handles: Vec<u64>)
        ensures
            handles@ == coords.neighbors_spec().filter_map(
                |n: Coordinates|
                    if self@.can_uncover(n) {
                        Some(self@.covered[n])
                    } else {
                        None
                    },
            ),
    {
        let around = coords.neighbors();
        let mut handles: Vec<u64> = Vec::new();
        let ghost handle_of = |n: Coordinates|
            if self@.can_uncover(n) {
                Some(self@.covered[n])
            } else {
                None
            };
        let mut i: usize = 0;
        while i < around.len()
            invariant
                i <= around@.len(),
                around@ == coords.neighbors_spec(),
                handle_of == |n: Coordinates|
                    if self@.can_uncover(n) {
                        Some(self@.covered[n])
                    } else {
                        None
                    },
                handles@ == around@.take(i as int).filter_map(handle_of),
            decreases around@.len() - i,
        {
            proof {
                around@.lemma_filter_map_take_succ(handle_of, i as int);
            }
            if let Some(handle) = self.get_covered_tile(around[i]) {
                handles.push(handle);
            }
            i += 1;
        }
        proof {
            assert(around@.take(i as int) =~= around@);
        }
        handles
    }

    /// Takes the flag off `coords`, if there is one: the cell leaves the
    /// list of flags and the others keep their order. Without a flag on
    /// `coords` nothing changes. The covers stay as they are.
    fn unmark_tile(&mut self, coords: Coordinates) -> (unmarked: Option<Coordinates>)
        requires
            old(self).wf(),
        ensures
            final(self).wf(),
            unmarked == if old(self)@.is_flagged(coords) {
                Some(coords)
            } else {
                None::<Coordinates>
            },
            final(self)@ == old(self)@.unflag(coords),
            final(self)@.marks == without(old(self)@.marks, coords),
            final(self)@.covered == old(self)@.covered,
            !old(self)@.is_flagged(coords) ==> final(self)@ == old(self)@,
    {
        proof {
            old(self)@.lemma_unflag_wf(coords);
            lemma_without(self@.marks, coords);
        }
        match self.find_mark(coords) {
            Some(at) => {
                let unmarked = self.marked_tiles.remove(at);
                Some(unmarked)
            },
            None => None,
        }
    }

    /// Sets a flag on the covered cell at `coords` if it has none, and
    /// takes the flag off if it has one. Returns the handle of the cell's
    /// cover and whether the cell is flagged now; `None`, with nothing
    /// changed, where the cell is not covered.
    pub fn try_toggle_mark(&mut self, coords: Coordinates) -> (toggled: Option<(u64, bool)>)
        requires
            old(self).wf(),
        ensures
            final(self).wf(),
            toggled == old(self)@.mark_result(coords),
            final(self)@ == old(self)@.after_mark(coords),
            toggled is Some <==> old(self)@.is_covered(coords),
            toggled is None ==> final(self)@ == old(self)@,
            toggled matches Some((handle, marked)) ==> {
                &&& handle == old(self)@.covered[coords]
                &&& marked == !old(self)@.is_flagged(coords)
                &&& marked == final(self)@.is_flagged(coords)
                &&& final(self)@ == old(self)@.toggle_flag(coords)
                &&& final(self)@.marks == if marked {
                    old(self)@.marks.push(coords)
                } else {
                    without(old(self)@.marks, coords)
                }
            },
            final(self)@.covered == old(self)@.covered,
    {
        let handle = match self.covered_tiles.get((coords.x, coords.y)) {
            Some(handle) => handle,
            None => {
                return None;
            },
        };
        let marked = if self.is_flagged(coords) {
            self.unmark_tile(coords);
            false
        } else {
            proof {
                lemma_without_pushed(self@.marks, coords);
            }
            self.marked_tiles.push(coords);
            true
        };
        proof {
            old(self)@.lemma_toggle_flag_wf(coords);
        }
        Some((handle, marked))
    }

    /// Sets a flag on the covered cell at `coords` if it has none, and
    /// takes the flag off if it has one. Returns whether the cell is
    /// flagged now. Refused with `NotCovered`, and nothing changed, where
    /// the cell is not covered.
    pub fn toggle_flag(&mut self, coords: Coordinates) -> (flagged: Result<bool, BoardError>)
        requires
            old(self).wf(),
        ensures
            final(self).wf(),
            flagged is Ok <==> old(self)@.is_covered(coords),
            flagged matches Err(e) ==> e == BoardError::NotCovered && final(self)@ == old(self)@,
            flagged matches Ok(marked) ==> {
                &&& marked == !old(self)@.is_flagged(coords)
                &&& marked == final(self)@.is_flagged(coords)
                &&& final(self)@ == old(self)@.toggle_flag(coords)
                &&& final(self)@.marks == if marked {
                    old(self)@.marks.push(coords)
                } else {
                    without(old(self)@.marks, coords)
                }
            },
            final(self)@.covered == old(self)@.covered,
    {
        match self.try_toggle_mark(coords) {
            Some((_, marked)) => Ok(marked),
            None => Err(BoardError::NotCovered),
        }
    }

    /// Takes the cover off the cell at `coords`, and its flag if it has
    /// one, the other flags keeping their order, and returns the cover's
    /// handle. `None`, with nothing changed, where the cell is not covered.
    /// Nothing spreads from the cell.
    pub fn try_uncover_tile(&mut self, coords: Coordinates) -> (handle: Option<u64>)
        requires
            old(self).wf(),
        ensures
            final(self).wf(),
            handle == if old(self)@.is_covered(coords) {
                Some(old(self)@.covered[coords])
            } else {
                None::<u64>
            },
            final(self)@ == old(self)@.uncover_tile(coords),
            final(self)@.marks == without(old(self)@.marks, coords),
            final(self)@.covered == old(self)@.covered.remove(coords),
            !old(self)@.is_covered(coords) ==> final(self)@ == old(self)@,
            !old(self)@.is_flagged(coords) ==> final(self)@ == old(self)@.uncover(set![coords]),
            old(self)@.is_covered(coords) ==> final(self)@.covered.dom().len() + 1
                == old(self)@.covered.dom().len(),
    {
        if self.is_flagged(coords) {
            self.unmark_tile(coords);
        }
        proof {
            lemma_covered_view_remove(covered_entries(self.covered_tiles), coords);
            old(self)@.lemma_uncover_tile_wf(coords);
        }
        self.covered_tiles.remove((coords.x, coords.y))
    }

    /// Puts `handle` in place of the handle of the cover at `coords`, and
    /// returns the handle that was there. Refused with `NotCovered`, and
    /// nothing changed, where the cell is not covered.
    pub fn attach_handle(&mut self, coords: Coordinates, handle: u64) -> (replaced: Result<
        u64,
        BoardError,
    >)
        requires
            old(self).wf(),
        ensures
            final(self).wf(),
            replaced == if old(self)@.is_covered(coords) {
                Ok::<u64, BoardError>(old(self)@.covered[coords])
            } else {
                Err::<u64, BoardError>(BoardError::NotCovered)
            },
            final(self)@ == if old(self)@.is_covered(coords) {
                BoardView { covered: old(self)@.covered.insert(coords, handle), ..old(self)@ }
            } else {
                old(self)@
            },
    {
        if !self.is_covered(coords) {
            return Err(BoardError::NotCovered);
        }
        proof {
            lemma_covered_view_insert(covered_entries(self.covered_tiles), coords, handle);
            old(self)@.lemma_rehandle_wf(coords, handle);
        }
        match self.covered_tiles.insert((coords.x, coords.y), handle) {
            Some(previous) => Ok(previous),
            None => Err(BoardError::NotCovered),
        }
    }

    /// Uncovers the covered, unflagged cells around `current`, a cell with
    /// an empty tile that the reveal under way has uncovered, and appends
    /// them to `tiles`.
    fn uncover_around(
        &mut self,
        current: Coordinates,
        tiles: &mut Vec<UncoveredTile>,
        Ghost(before): Ghost<BoardView>,
        Ghost(from): Ghost<Coordinates>,
        Ghost(expanded): Ghost<int>,
    )
        requires
            old(self).wf(),
            before.reveal_in_progress(from, old(self)@, old(tiles)@, expanded),
            0 <= expanded < old(tiles)@.len(),
            old(tiles)@[expanded].coords == current,
            before.tile_map.tile_at(current) is Empty,
        ensures
            final(self).wf(),
            before.reveal_in_progress(from, final(self)@, final(tiles)@, expanded),
            forall|to: Coordinates| #[trigger]
                before.spreads(current, to) ==> coords_of(final(tiles)@).contains(to),
            final(self)@.covered.dom().len() + final(tiles)@.len() == old(self)@.covered.dom().len()
                + old(tiles)@.len(),
            expanded < final(tiles)@.len(),
            final(tiles)@[expanded].coords == current,
    {
        let around = current.neighbors();
        let mut j: usize = 0;
        while j < around.len()
            invariant
                self.wf(),
                j <= around@.len(),
                around@ == current.neighbors_spec(),
                before.reveal_in_progress(from, self@, tiles@, expanded),
                0 <= expanded < tiles@.len(),
                tiles@[expanded].coords == current,
                before.tile_map.tile_at(current) is Empty,
                forall|k: int|
                    0 <= k < j && before.can_uncover(#[trigger] around@[k]) ==> coords_of(
                        tiles@,
                    ).contains(around@[k]),
                self@.covered.dom().len() + tiles@.len() == old(self)@.covered.dom().len() + old(
                    tiles,
                )@.len(),
            decreases around@.len() - j,
        {
            let cell = around[j];
            let ghost now = self@;
            let ghost so_far = tiles@;
            if let Some(handle) = self.get_covered_tile(cell) {
                proof {
                    before.lemma_reveal_extended(from, now, so_far, expanded, expanded, cell);
                }
                self.try_uncover_tile(cell);
                tiles.push(UncoveredTile { coords: cell, handle });
            }
            j += 1;
        }
        proof {
            current.lemma_neighbors();
            assert forall|to: Coordinates| #[trigger] before.spreads(current, to) implies coords_of(
                tiles@,
            ).contains(to) by {
                assert(around@.contains(to));
            }
        }
    }

    /// Follows the spreading of a reveal from its first cell, which has
    /// just been uncovered and holds no bomb, and returns every cell
    /// uncovered, the first one first.
    fn spread_from(&mut self, first: UncoveredTile, Ghost(before): Ghost<BoardView>) -> (tiles: Vec<
        UncoveredTile,
    >)
        requires
            old(self).wf(),
            before.wf(),
            before.can_uncover(first.coords),
            first.handle == before.covered[first.coords],
            old(self)@ == before.uncover(set![first.coords]),
            !(before.tile_map.tile_at(first.coords) is Bomb),
        ensures
            final(self).wf(),
            tiles@.len() > 0,
            tiles@[0] == first,
            coords_of(tiles@).no_duplicates(),
            coords_of(tiles@).to_set() == before.cascade(first.coords),
            forall|i: int|
                0 <= i < tiles@.len() ==> (#[trigger] tiles@[i]).handle
                    == before.covered[tiles@[i].coords] && !(before.tile_map.tile_at(
                    tiles@[i].coords,
                ) is Bomb),
            final(self)@ == before.uncover(before.cascade(first.coords)),
    {
        let ghost coords = first.coords;
        let mut tiles: Vec<UncoveredTile> = Vec::new();
        tiles.push(first);
        let mut expanded: usize = 0;
        proof {
            before.lemma_reveal_begun(coords);
            assert(before.uncover(set![coords]).covered =~= before.covered.remove(coords));
        }
        while expanded < tiles.len()
            invariant
                self.wf(),
                before.wf(),
                expanded <= tiles@.len(),
                tiles@[0] == first,
                first.coords == coords,
                before.reveal_in_progress(coords, self@, tiles@, expanded as int),
                self@.covered.dom().len() + tiles@.len() == before.covered.dom().len(),
            decreases before.covered.dom().len() - expanded,
        {
            let current = tiles[expanded].coords;
            proof {
                before.lemma_cascade_cells(coords, current);
            }
            if self.tile_map.tile(current).is_empty() {
                self.uncover_around(
                    current,
                    &mut tiles,
                    Ghost(before),
                    Ghost(coords),
                    Ghost(expanded as int),
                );
            }
            proof {
                before.lemma_reveal_expanded(coords, self@, tiles@, expanded as int);
            }
            expanded += 1;
        }
        proof {
            before.lemma_reveal_done(coords, self@, tiles@);
            assert forall|i: int| 0 <= i < tiles@.len() implies (#[trigger] tiles@[i]).handle
                == before.covered[tiles@[i].coords] && !(before.tile_map.tile_at(tiles@[i].coords)
                is Bomb) by {
                before.lemma_cascade_avoids_bombs(coords, tiles@[i].coords);
            }
        }
        tiles
    }

    /// Reveals the cell at `coords`.
    ///
    /// A flagged cell is protected: the reveal is `Blocked`. A cell that is
    /// not covered gives `AlreadyRevealed`. Either way nothing changes.
    /// Otherwise the cell is uncovered. On a bomb the reveal stops there
    /// with `HitBomb`. On a numbered tile it stops there too, with the one
    /// cell `Uncovered`. From an empty tile it spreads to the covered,
    /// unflagged cells around, and on from each empty tile among them, all
    /// within this call; `Uncovered` lists every cell uncovered. Which
    /// cells those are does not depend on the order of the visit; the order
    /// of the list after its first entry is not fixed.
    pub fn reveal_tile(&mut self, coords: Coordinates) -> (outcome: RevealOutcome)
        requires
            old(self).wf(),
        ensures
            final(self).wf(),
            outcome.describes(old(self)@, coords),
            final(self)@ == old(self)@.after_reveal(coords),
            final(self)@.marks == old(self)@.marks,
            outcome is Blocked || outcome is AlreadyRevealed ==> final(self)@ == old(self)@,
            outcome is HitBomb ==> final(self)@.covered == old(self)@.covered.remove(coords),
            outcome is HitBomb || outcome is Uncovered ==> !final(self)@.is_covered(coords),
            outcome matches RevealOutcome::Uncovered { tiles, .. } ==> forall|i: int|
                0 <= i < tiles@.len() ==> !(old(self)@.tile_map.tile_at(
                    (#[trigger] tiles@[i]).coords,
                ) is Bomb),
    {
        if self.is_flagged(coords) {
            return RevealOutcome::Blocked;
        }
        let handle = match self.try_uncover_tile(coords) {
            Some(handle) => handle,
            None => {
                return RevealOutcome::AlreadyRevealed;
            },
        };
        let ghost before = old(self)@;
        let first = UncoveredTile { coords, handle };
        if self.tile_map.tile(coords).is_bomb() {
            proof {
                before.lemma_cascade_of_closed_tile(coords);
            }
            let completed = self.is_complete();
            return RevealOutcome::HitBomb { tile: first, completed };
        }
        let tiles = self.spread_from(first, Ghost(before));
        proof {
            before.lemma_cascade_start(coords);
        }
        let completed = self.is_complete();
        RevealOutcome::Uncovered { tiles, completed }
    }

    /// The cell on which the position (`x`, `y`) falls, counted from the
    /// window's corner in a window of the given extent. `None` where the
    /// position lies off the board. The board is left as it is.
    pub fn translate_position(&self, position: (i32, i32), viewport: (u32, u32)) -> (cell: Option<
        Coordinates,
    >)
        ensures
            cell == self@.geometry.locate(
                self@.tile_map.width as int,
                self@.tile_map.height as int,
                viewport.0 as int,
                viewport.1 as int,
                position.0 as int,
                position.1 as int,
            ),
            cell matches Some(c) ==> self@.tile_map.in_bounds(c),
    {
        self.geometry.locate_cell(
            self.tile_map.width(),
            self.tile_map.height(),
            viewport.0,
            viewport.1,
            position.0,
            position.1,
        )
    }

    /// The cell under the mouse at (`x`, `y`) in a window of the given
    /// width and height, or `None` where the mouse is off the board.
    pub fn mouse_position(&self, window_width: u32, window_height: u32, x: i32, y: i32) -> (cell:
        Option<Coordinates>)
        ensures
            cell == self@.geometry.locate(
                self@.tile_map.width as int,
                self@.tile_map.height as int,
                window_width as int,
                window_height as int,
                x as int,
                y as int,
            ),
            cell matches Some(c) ==> self@.tile_map.in_bounds(c),
    {
        self.translate_position((x, y), (window_width, window_height))
    }

    /// Whether the game is won: as many cells are covered as there are
    /// bombs.
    pub fn is_complete(&self) -> (complete: bool)
        requires
            self.wf(),
        ensures
            complete == self@.is_won(),
    {
        proof {
            lemma_covered_view_len(covered_entries(self.covered_tiles));
        }
        self.tile_map.bomb_count() == self.covered_tiles.len()
    }

    /// Whether the game is won: every cell without a bomb has been
    /// uncovered, so that as many cells are covered as there are bombs.
    pub fn is_won(&self) -> (won: bool)
        requires
            self.wf(),
        ensures
            won == self@.is_won(),
            won == (self@.covered.dom().len() == self@.tile_map.bomb_count),
    {
        self.is_complete()
    }
}

/// A board ready for play: a map of `width` columns and `height` rows with
/// `bomb_count` bombs on the cells that the next `bomb_count` numbers of
/// `rng` select, every tile classified by the bombs around it, every cell
/// covered and none flagged. Generators in equal states give equal boards.
///
/// Refused with `InvalidDimensions` where `width` or `height` is 0, and
/// otherwise with `BombCountExceedsCapacity` where `bomb_count` exceeds the
/// number of cells. Nothing is drawn from `rng` then.
pub fn generate_board(
    width: u16,
    height: u16,
    bomb_count: usize,
    geometry: BoardGeometry,
    rng: &mut SplitMix64,
) -> (made: Result<Board, BoardError>)
    ensures
        made is Err <==> (width == 0 || height == 0 || bomb_count > width * height),
        made matches Err(e) ==> *final(rng) == *old(rng) && e == if width == 0 || height == 0 {
            BoardError::InvalidDimensions
        } else {
            BoardError::BombCountExceedsCapacity
        },
        made matches Ok(board) ==> {
            &&& board.wf()
            &&& board@ == BoardView::fresh(
                TileMapView::generated(
                    width as nat,
                    height as nat,
                    None,
                    SplitMix64::stream(old(rng).state, bomb_count as nat),
                ),
                geometry,
            )
            &&& final(rng).state == SplitMix64::advance_by(old(rng).state, bomb_count as nat)
            &&& board@.tile_map.width == width
            &&& board@.tile_map.height == height
            &&& board@.tile_map.bomb_count == bomb_count
            &&& board@.tile_map.bombs().len() == bomb_count
            &&& board@.tile_map.classified()
            &&& board@.geometry == geometry
            &&& board@.is_fresh()
        },
{
    let mut tile_map = match TileMap::generate(width, height) {
        Ok(tile_map) => tile_map,
        Err(e) => {
            return Err(e);
        },
    };
    match tile_map.place_bombs(bomb_count, rng) {
        Ok(()) => {},
        Err(e) => {
            return Err(e);
        },
    }
    tile_map.compute_neighbor_counts();
    Ok(Board::new(tile_map, geometry))
}

/// A board ready for play on which a first reveal of `first` is safe: as
/// `generate_board` makes it, but with no bomb on `first` nor on a cell
/// around it, so that the tile at `first` is empty.
///
/// Refused with `InvalidDimensions` where `width` or `height` is 0, and
/// otherwise with `BombCountExceedsCapacity` where `bomb_count` exceeds the
/// number of cells that are neither `first` nor around it. Nothing is drawn
/// from `rng` then.
pub fn generate_board_avoiding(
    width: u16,
    height: u16,
    bomb_count: usize,
    geometry: BoardGeometry,
    rng: &mut SplitMix64,
    first: Coordinates,
) -> (made: Result<Board, BoardError>)
    ensures
        made is Err <==> (width == 0 || height == 0 || bomb_count > TileMapView::blank(
            width as nat,
            height as nat,
        ).capacity(Some(first))),
        made matches Err(e) ==> *final(rng) == *old(rng) && e == if width == 0 || height == 0 {
            BoardError::InvalidDimensions
        } else {
            BoardError::BombCountExceedsCapacity
        },
        made matches Ok(board) ==> {
            &&& board.wf()
            &&& board@ == BoardView::fresh(
                TileMapView::generated(
                    width as nat,
                    height as nat,
                    Some(first),
                    SplitMix64::stream(old(rng).state, bomb_count as nat),
                ),
                geometry,
            )
            &&& final(rng).state == SplitMix64::advance_by(old(rng).state, bomb_count as nat)
            &&& board@.tile_map.width == width
            &&& board@.tile_map.height == height
            &&& board@.tile_map.bomb_count == bomb_count
            &&& board@.tile_map.bombs().len() == bomb_count
            &&& board@.tile_map.classified()
            &&& board@.tile_map.is_clear_around(first)
            &&& board@.tile_map.in_bounds(first) ==> board@.tile_map.tile_at(first) is Empty
            &&& board@.geometry == geometry
            &&& board@.is_fresh()
        },
{
    let mut tile_map = match TileMap::generate(width, height) {
        Ok(tile_map) => tile_map,
        Err(e) => {
            return Err(e);
        },
    };
    match tile_map.place_bombs_avoiding(bomb_count, rng, first) {
        Ok(()) => {},
        Err(e) => {
            return Err(e);
        },
    }
    tile_map.compute_neighbor_counts();
    proof {
        if tile_map@.in_bounds(first) {
            tile_map@.lemma_clear_cell_is_empty(first);
        }
    }
    Ok(Board::new(tile_map, geometry))
}

} // verus!
