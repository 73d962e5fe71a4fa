//! The state of a board in play, and the set of cells that a reveal uncovers.
//!
//! A reveal of a covered, unflagged cell uncovers that cell and, where its
//! tile is empty, spreads to the covered, unflagged cells around it, and on
//! from every empty tile reached. The cells uncovered are those to which a
//! path of this kind leads; the order in which they are visited plays no
//! part in that.

use crate::coordinates::Coordinates;
use crate::geometry::BoardGeometry;
use crate::tile::Tile;
use crate::tile_map::TileMapView;
use vstd::prelude::*;

verus! {

/// A cell that a reveal has uncovered, with the handle of the cover that was
/// on it.
#[derive(Debug, Clone, Copy, PartialEq, Eq, Hash, Structural)]
pub struct UncoveredTile {
    pub coords: Coordinates,
    pub handle: u64,
}

/// The cells of `tiles`, in order.
pub open spec fn coords_of(tiles: Seq<UncoveredTile>) -> Seq<Coordinates> {
    tiles.map_values(|tile: UncoveredTile| tile.coords)
}

/// The test that a cell is not the cell `c`.
pub open spec fn is_not(c: Coordinates) -> spec_fn(Coordinates) -> bool {
    |d: Coordinates| d != c
}

/// The marks `marks` without the cell `c`, the others in the same order.
pub open spec fn without(marks: Seq<Coordinates>, c: Coordinates) -> Seq<Coordinates> {
    marks.filter(is_not(c))
}

/// Taking a cell out of a list with one more mark takes it out of the list
/// before that mark, and drops the mark if it is the cell.
pub proof fn lemma_without_push(marks: Seq<Coordinates>, last: Coordinates, c: Coordinates)
    ensures
        without(marks.push(last), c) == if last != c {
            without(marks, c).push(last)
        } else {
            without(marks, c)
        },
{
    marks.lemma_filter_push(last, is_not(c));
}

/// The list without a cell holds the other cells of the list and no more.
pub proof fn lemma_without_contains(marks: Seq<Coordinates>, c: Coordinates)
    ensures
        forall|d: Coordinates| #[trigger]
            without(marks, c).contains(d) <==> marks.contains(d) && d != c,
{
    let out = without(marks, c);
    assert forall|d: Coordinates| #[trigger] out.contains(d) <==> marks.contains(d) && d != c by {
        if out.contains(d) {
            let i = choose|i: int| 0 <= i < out.len() && out[i] == d;
            marks.lemma_filter_pred(is_not(c), i);
            marks.lemma_filter_contains_rev(is_not(c), d);
        }
        if marks.contains(d) && d != c {
            let i = choose|i: int| 0 <= i < marks.len() && marks[i] == d;
            marks.lemma_filter_contains(is_not(c), i);
        }
    }
}

/// A list that does not hold a cell is the same without it.
pub proof fn lemma_without_absent(marks: Seq<Coordinates>, c: Coordinates)
    requires
        !marks.contains(c),
    ensures
        without(marks, c) == marks,
    decreases marks.len(),
{
    if marks.len() == 0 {
        marks.lemma_filter_len(is_not(c));
    } else {
        let rest = marks.drop_last();
        assert(marks =~= rest.push(marks.last()));
        lemma_without_absent(rest, c);
        lemma_without_push(rest, marks.last(), c);
    }
}

/// Without the cell at one of its places, a list without duplicates is the
/// list with that place taken out.
pub proof fn lemma_without_is_remove(marks: Seq<Coordinates>, at: int)
    requires
        marks.no_duplicates(),
        0 <= at < marks.len(),
    ensures
        without(marks, marks[at]) == marks.remove(at),
    decreases marks.len(),
{
    let c = marks[at];
    let rest = marks.drop_last();
    let last = marks.last();
    assert(marks =~= rest.push(last));
    lemma_without_push(rest, last, c);
    if at == marks.len() - 1 {
        lemma_without_absent(rest, c);
    } else {
        lemma_without_is_remove(rest, at);
    }
}

/// The list without a cell has no duplicates if the list has none.
pub proof fn lemma_without_unique(marks: Seq<Coordinates>, c: Coordinates)
    requires
        marks.no_duplicates(),
    ensures
        without(marks, c).no_duplicates(),
{
    if marks.contains(c) {
        let at = choose|at: int| 0 <= at < marks.len() && marks[at] == c;
        lemma_without_is_remove(marks, at);
    } else {
        lemma_without_absent(marks, c);
    }
}

/// What taking a cell out of a list of marks without duplicates does: the
/// list still has no duplicates and holds the other cells; it is unchanged
/// where the cell was not in it, and the cell's place is taken out where it
/// was.
pub proof fn lemma_without(marks: Seq<Coordinates>, c: Coordinates)
    requires
        marks.no_duplicates(),
    ensures
        without(marks, c).no_duplicates(),
        forall|d: Coordinates| #[trigger]
            without(marks, c).contains(d) <==> marks.contains(d) && d != c,
        !marks.contains(c) ==> without(marks, c) == marks,
        forall|at: int|
            0 <= at < marks.len() && marks[at] == c ==> without(marks, c) == #[trigger] marks.remove(
                at,
            ),
{
    lemma_without_unique(marks, c);
    lemma_without_contains(marks, c);
    if !marks.contains(c) {
        lemma_without_absent(marks, c);
    }
    assert forall|at: int| 0 <= at < marks.len() && marks[at] == c implies without(marks, c)
        == #[trigger] marks.remove(at) by {
        lemma_without_is_remove(marks, at);
    }
}

/// Setting a mark and taking it away again gives the list back.
pub proof fn lemma_without_pushed(marks: Seq<Coordinates>, c: Coordinates)
    requires
        marks.no_duplicates(),
        !marks.contains(c),
    ensures
        marks.push(c).no_duplicates(),
        without(marks.push(c), c) == marks,
{
    lemma_without_absent(marks, c);
    lemma_without_push(marks, c, c);
}

/// The mathematical content of a board: its map, where it lies on the
/// screen, the handle of the cover of each covered cell, and the flagged
/// cells in the order in which their flags were set.
pub struct BoardView {
    pub tile_map: TileMapView,
    pub geometry: BoardGeometry,
    pub covered: Map<Coordinates, u64>,
    pub marks: Seq<Coordinates>,
}

impl BoardView {
    /// Whether the cell at `c` is still covered.
    pub open spec fn is_covered(self, c: Coordinates) -> bool {
        self.covered.dom().contains(c)
    }

    /// The flagged cells.
    pub open spec fn flagged(self) -> Set<Coordinates> {
        self.marks.to_set()
    }

    /// Whether the cell at `c` carries a flag.
    pub open spec fn is_flagged(self, c: Coordinates) -> bool {
        self.marks.contains(c)
    }

    /// Whether a reveal can uncover the cell at `c`: it is covered and
    /// carries no flag.
    pub open spec fn can_uncover(self, c: Coordinates) -> bool {
        self.is_covered(c) && !self.is_flagged(c)
    }

    /// The map is well formed and classified, the covered cells are cells of
    /// the map and finitely many, only covered cells are flagged, and no
    /// flag is recorded twice.
    pub open spec fn wf(self) -> bool {
        &&& self.tile_map.wf()
        &&& self.tile_map.classified()
        &&& self.covered.dom().finite()
        &&& self.marks.no_duplicates()
        &&& forall|c: Coordinates| #[trigger] self.is_covered(c) ==> self.tile_map.in_bounds(c)
        &&& forall|c: Coordinates| #[trigger] self.is_flagged(c) ==> self.is_covered(c)
    }

    /// Every cell is covered, under the handle that `new` gives it, and none
    /// is flagged.
    pub open spec fn is_fresh(self) -> bool {
        &&& self.marks == Seq::<Coordinates>::empty()
        &&& forall|c: Coordinates| self.is_covered(c) <==> self.tile_map.in_bounds(c)
        &&& forall|c: Coordinates| #[trigger]
            self.is_covered(c) ==> self.covered[c] == self.tile_map.index_of(c)
    }

    /// The board on `tile_map` at the start of play: every cell covered,
    /// the cover of each with the cell's place in the map as its handle,
    /// and no cell flagged.
    pub open spec fn fresh(tile_map: TileMapView, geometry: BoardGeometry) -> BoardView {
        BoardView {
            tile_map,
            geometry,
            covered: Map::new(
                |c: Coordinates| tile_map.in_bounds(c),
                |c: Coordinates| tile_map.index_of(c) as u64,
            ),
            marks: Seq::empty(),
        }
    }

    /// The game is won when as many cells are covered as there are bombs.
    pub open spec fn is_won(self) -> bool {
        self.covered.dom().len() == self.tile_map.bomb_count
    }

    /// The neighbours of `c` that are still covered, in the order of
    /// `neighbors`.
    pub open spec fn adjacent_covered(self, c: Coordinates) -> Seq<Coordinates> {
        c.neighbors_spec().filter(|n: Coordinates| self.is_covered(n))
    }

    /// The board with the flag at `c` taken away, the other flags in the
    /// same order.
    pub open spec fn unflag(self, c: Coordinates) -> BoardView {
        BoardView { marks: without(self.marks, c), ..self }
    }

    /// The board with the flag at `c` set if it was not, as the last of the
    /// flags, and taken away if it was, the other flags in the same order.
    pub open spec fn toggle_flag(self, c: Coordinates) -> BoardView {
        if self.marks.contains(c) {
            self.unflag(c)
        } else {
            BoardView { marks: self.marks.push(c), ..self }
        }
    }

    /// The board with the unflagged cells of `cells` uncovered. The flags
    /// stay as they are.
    pub open spec fn uncover(self, cells: Set<Coordinates>) -> BoardView {
        BoardView { covered: self.covered.remove_keys(cells), ..self }
    }

    /// The board with the cell at `c` uncovered and its flag, if it has one,
    /// taken away, the other flags in the same order.
    pub open spec fn uncover_tile(self, c: Coordinates) -> BoardView {
        BoardView { covered: self.covered.remove(c), marks: without(self.marks, c), ..self }
    }

    /// Whether a reveal spreads from the cell `from` to the cell `to` next
    /// to it: the tile at `from` is empty, and `to` can be uncovered.
    pub open spec fn spreads(self, from: Coordinates, to: Coordinates) -> bool {
        &&& self.tile_map.tile_at(from) is Empty
        &&& from.adjacent(to)
        &&& self.can_uncover(to)
    }

    /// Whether a reveal can run along `path`: it starts on a cell that can
    /// be uncovered and spreads from each cell to the next.
    pub open spec fn is_cascade_path(self, path: Seq<Coordinates>) -> bool {
        &&& path.len() > 0
        &&& self.can_uncover(path[0])
        &&& forall|i: int| 0 <= i < path.len() - 1 ==> self.spreads(#[trigger] path[i], path[i + 1])
    }

    /// Whether a reveal of `from` uncovers `to`.
    pub open spec fn cascades_to(self, from: Coordinates, to: Coordinates) -> bool {
        exists|path: Seq<Coordinates>|
            #[trigger] self.is_cascade_path(path) && path[0] == from && path.last() == to
    }

    /// The cells that a reveal of `from` uncovers.
    pub open spec fn cascade(self, from: Coordinates) -> Set<Coordinates> {
        Set::new(|to: Coordinates| self.cascades_to(from, to))
    }

    /// The board after a reveal of `c`: without the covers of the cascade of
    /// `c` where `c` can be uncovered, and as it is where `c` is flagged or
    /// not covered.
    pub open spec fn after_reveal(self, c: Coordinates) -> BoardView {
        if self.can_uncover(c) {
            self.uncover(self.cascade(c))
        } else {
            self
        }
    }

    /// The board after a request to toggle the flag of `c`: with the flag
    /// toggled where `c` is covered, and as it is where `c` is not.
    pub open spec fn after_mark(self, c: Coordinates) -> BoardView {
        if self.is_covered(c) {
            self.toggle_flag(c)
        } else {
            self
        }
    }

    /// The board after a reveal of each of `cells`, in order.
    pub open spec fn after_reveals(self, cells: Seq<Coordinates>) -> BoardView
        decreases cells.len(),
    {
        if cells.len() == 0 {
            self
        } else {
            self.after_reveals(cells.drop_last()).after_reveal(cells.last())
        }
    }

    /// The board after a request to toggle the flag of each of `cells`, in
    /// order.
    pub open spec fn after_marks(self, cells: Seq<Coordinates>) -> BoardView
        decreases cells.len(),
    {
        if cells.len() == 0 {
            self
        } else {
            self.after_marks(cells.drop_last()).after_mark(cells.last())
        }
    }

    /// What a request to toggle the flag of `c` yields: the handle of the
    /// cell's cover and whether the cell is flagged afterwards, or `None`
    /// where the cell is not covered.
    pub open spec fn mark_result(self, c: Coordinates) -> Option<(u64, bool)> {
        if self.is_covered(c) {
            Some((self.covered[c], !self.is_flagged(c)))
        } else {
            None
        }
    }

    /// Whether `cells` is closed under spreading: a reveal spreads from none
    /// of its cells to a cell outside it.
    pub open spec fn is_closed(self, cells: Set<Coordinates>) -> bool {
        forall|from: Coordinates, to: Coordinates|
            cells.contains(from) && #[trigger] self.spreads(from, to) ==> cells.contains(to)
    }

    /// A reveal of a cell that can be uncovered uncovers that cell.
    pub proof fn lemma_cascade_start(self, from: Coordinates)
        requires
            self.can_uncover(from),
        ensures
            self.cascades_to(from, from),
    {
        let path = seq![from];
        assert(self.is_cascade_path(path));
    }

    /// A reveal that uncovers `via` also uncovers the cells to which it
    /// spreads from there.
    pub proof fn lemma_cascade_step(self, from: Coordinates, via: Coordinates, to: Coordinates)
        requires
            self.cascades_to(from, via),
            self.spreads(via, to),
        ensures
            self.cascades_to(from, to),
    {
        let path = choose|path: Seq<Coordinates>|
            #[trigger] self.is_cascade_path(path) && path[0] == from && path.last() == via;
        let longer = path.push(to);
        assert(self.is_cascade_path(longer));
    }

    /// Every cell of a cascade path can be uncovered.
    pub proof fn lemma_path_cells(self, path: Seq<Coordinates>, i: int)
        requires
            self.is_cascade_path(path),
            0 <= i < path.len(),
        ensures
            self.can_uncover(path[i]),
    {
        if i > 0 {
            assert(self.spreads(path[i - 1], path[i - 1 + 1]));
        }
    }

    /// A reveal uncovers only cells that can be uncovered.
    pub proof fn lemma_cascade_cells(self, from: Coordinates, to: Coordinates)
        requires
            self.cascades_to(from, to),
        ensures
            self.can_uncover(from),
            self.can_uncover(to),
    {
        let path = choose|path: Seq<Coordinates>|
            #[trigger] self.is_cascade_path(path) && path[0] == from && path.last() == to;
        self.lemma_path_cells(path, path.len() - 1);
    }

    /// A closed set that holds the first cell of a cascade path holds them
    /// all.
    pub proof fn lemma_path_stays_inside(self, cells: Set<Coordinates>, path: Seq<Coordinates>, i: int)
        requires
            self.is_closed(cells),
            self.is_cascade_path(path),
            cells.contains(path[0]),
            0 <= i < path.len(),
        ensures
            cells.contains(path[i]),
        decreases i,
    {
        if i > 0 {
            self.lemma_path_stays_inside(cells, path, i - 1);
        }
    }

    /// The cells that a reveal uncovers are closed under spreading.
    pub proof fn lemma_cascade_closed(self, from: Coordinates)
        ensures
            self.is_closed(self.cascade(from)),
    {
        assert forall|via: Coordinates, to: Coordinates|
            self.cascade(from).contains(via) && #[trigger] self.spreads(via, to) implies self.cascade(
            from,
        ).contains(to) by {
            self.lemma_cascade_step(from, via, to);
        }
    }

    /// The cells that a reveal of `from` uncovers lie in every closed set
    /// that holds `from`: they are the least such set.
    pub proof fn lemma_cascade_least(self, from: Coordinates, cells: Set<Coordinates>)
        requires
            self.is_closed(cells),
            cells.contains(from),
        ensures
            self.cascade(from).subset_of(cells),
    {
        assert forall|to: Coordinates| self.cascade(from).contains(to) implies cells.contains(to) by {
            let path = choose|path: Seq<Coordinates>|
                #[trigger] self.is_cascade_path(path) && path[0] == from && path.last() == to;
            self.lemma_path_stays_inside(cells, path, path.len() - 1);
        }
    }

    /// However a reveal of `from` visits the cells, once it has uncovered
    /// `from`, only cells that can be reached from it, and every cell to
    /// which it spreads from one that it uncovered, it has uncovered exactly
    /// the cascade of `from`.
    pub proof fn lemma_cascade_order_independent(self, from: Coordinates, visited: Set<Coordinates>)
        requires
            self.can_uncover(from),
            visited.contains(from),
            self.is_closed(visited),
            forall|c: Coordinates| visited.contains(c) ==> self.cascades_to(from, c),
        ensures
            visited == self.cascade(from),
    {
        self.lemma_cascade_least(from, visited);
    }

    /// A reveal of a cell whose tile is not empty uncovers that cell alone.
    pub proof fn lemma_cascade_of_closed_tile(self, from: Coordinates)
        requires
            self.can_uncover(from),
            !(self.tile_map.tile_at(from) is Empty),
        ensures
            self.cascade(from) == set![from],
    {
        self.lemma_cascade_start(from);
    }

    /// On a classified map no bomb lies next to an empty tile.
    pub proof fn lemma_no_bomb_beside_empty(self, at: Coordinates, beside: Coordinates)
        requires
            self.tile_map.wf(),
            self.tile_map.classified(),
            self.tile_map.in_bounds(at),
            self.tile_map.in_bounds(beside),
            self.tile_map.tile_at(at) is Empty,
            at.adjacent(beside),
        ensures
            !(self.tile_map.tile_at(beside) is Bomb),
    {
        let around = self.tile_map.bombs_around(at);
        if self.tile_map.tile_at(beside) is Bomb {
            assert(around.contains(beside));
            vstd::set_lib::lemma_len_subset(around, self.tile_map.bombs());
        }
    }

    /// A reveal that starts on a cell without a bomb uncovers no bomb.
    pub proof fn lemma_cascade_avoids_bombs(self, from: Coordinates, to: Coordinates)
        requires
            self.wf(),
            !(self.tile_map.tile_at(from) is Bomb),
            self.cascades_to(from, to),
        ensures
            !(self.tile_map.tile_at(to) is Bomb),
    {
        let safe = Set::new(
            |c: Coordinates| self.tile_map.in_bounds(c) && !(self.tile_map.tile_at(c) is Bomb),
        );
        assert forall|via: Coordinates, next: Coordinates|
            safe.contains(via) && #[trigger] self.spreads(via, next) implies safe.contains(next) by {
            self.lemma_no_bomb_beside_empty(via, next);
        }
        self.lemma_cascade_least(from, safe);
        assert(self.cascade(from).contains(to));
    }

    /// What holds while a reveal of `from` on the board `self` is under way:
    /// `now` is the board so far, `tiles` the cells uncovered so far, and
    /// the spreading from the first `expanded` of them has been followed.
    pub open spec fn reveal_in_progress(
        self,
        from: Coordinates,
        now: BoardView,
        tiles: Seq<UncoveredTile>,
        expanded: int,
    ) -> bool {
        &&& now.tile_map == self.tile_map
        &&& now.geometry == self.geometry
        &&& now.marks == self.marks
        &&& now.covered == self.covered.remove_keys(coords_of(tiles).to_set())
        &&& tiles.len() > 0
        &&& tiles[0].coords == from
        &&& 0 <= expanded <= tiles.len()
        &&& coords_of(tiles).no_duplicates()
        &&& forall|i: int|
            0 <= i < tiles.len() ==> self.cascades_to(from, (#[trigger] tiles[i]).coords)
                && tiles[i].handle == self.covered[tiles[i].coords]
        &&& forall|i: int, to: Coordinates|
            0 <= i < expanded && #[trigger] self.spreads(tiles[i].coords, to) ==> coords_of(
                tiles,
            ).contains(to)
    }

    /// A reveal is under way once its first cell has been uncovered.
    pub proof fn lemma_reveal_begun(self, from: Coordinates)
        requires
            self.can_uncover(from),
        ensures
            self.reveal_in_progress(
                from,
                self.uncover(set![from]),
                seq![UncoveredTile { coords: from, handle: self.covered[from] }],
                0,
            ),
    {
        let tiles = seq![UncoveredTile { coords: from, handle: self.covered[from] }];
        let now = self.uncover(set![from]);
        self.lemma_cascade_start(from);
        assert(coords_of(tiles) =~= seq![from]);
        assert(seq![from][0] == from);
        assert(coords_of(tiles).to_set() =~= set![from]);
    }

    /// A reveal stays under way when it uncovers a cell to which it spreads
    /// from a cell that it has uncovered.
    pub proof fn lemma_reveal_extended(
        self,
        from: Coordinates,
        now: BoardView,
        tiles: Seq<UncoveredTile>,
        expanded: int,
        via: int,
        to: Coordinates,
    )
        requires
            self.reveal_in_progress(from, now, tiles, expanded),
            0 <= via < tiles.len(),
            self.tile_map.tile_at(tiles[via].coords) is Empty,
            tiles[via].coords.adjacent(to),
            now.can_uncover(to),
        ensures
            self.can_uncover(to),
            !coords_of(tiles).contains(to),
            now.covered[to] == self.covered[to],
            self.reveal_in_progress(
                from,
                BoardView { covered: now.covered.remove(to), ..now },
                tiles.push(UncoveredTile { coords: to, handle: now.covered[to] }),
                expanded,
            ),
            forall|c: Coordinates|
                coords_of(tiles).contains(c) || c == to ==> #[trigger] coords_of(
                    tiles.push(UncoveredTile { coords: to, handle: now.covered[to] }),
                ).contains(c),
    {
        let tile = UncoveredTile { coords: to, handle: now.covered[to] };
        let more = tiles.push(tile);
        let after = BoardView { covered: now.covered.remove(to), ..now };
        self.lemma_cascade_step(from, tiles[via].coords, to);
        assert(coords_of(more) =~= coords_of(tiles).push(to));
        assert forall|c: Coordinates| coords_of(more).contains(c) <==> (coords_of(tiles).contains(c)
            || c == to) by {
            if coords_of(tiles).contains(c) {
                let i = choose|i: int| 0 <= i < coords_of(tiles).len() && coords_of(tiles)[i] == c;
                assert(coords_of(more)[i] == c);
            }
            if c == to {
                assert(coords_of(more)[tiles.len() as int] == c);
            }
        }
        assert(after.covered =~= self.covered.remove_keys(coords_of(more).to_set()));
    }

    /// A reveal has followed the spreading from one more cell once every
    /// cell to which it spreads from there is among those uncovered.
    pub proof fn lemma_reveal_expanded(
        self,
        from: Coordinates,
        now: BoardView,
        tiles: Seq<UncoveredTile>,
        expanded: int,
    )
        requires
            self.reveal_in_progress(from, now, tiles, expanded),
            expanded < tiles.len(),
            forall|to: Coordinates| #[trigger]
                self.spreads(tiles[expanded].coords, to) ==> coords_of(tiles).contains(to),
        ensures
            self.reveal_in_progress(from, now, tiles, expanded + 1),
    {
    }

    /// A reveal that has followed the spreading from every cell it uncovered
    /// has uncovered the cascade of its first cell, and nothing else has
    /// changed.
    pub proof fn lemma_reveal_done(
        self,
        from: Coordinates,
        now: BoardView,
        tiles: Seq<UncoveredTile>,
    )
        requires
            self.wf(),
            self.reveal_in_progress(from, now, tiles, tiles.len() as int),
        ensures
            coords_of(tiles).to_set() == self.cascade(from),
            now == self.uncover(self.cascade(from)),
            now.wf(),
    {
        let visited = coords_of(tiles).to_set();
        assert(coords_of(tiles)[0] == from);
        self.lemma_cascade_order_independent(from, visited);
        assert forall|c: Coordinates| self.cascade(from).contains(c) implies !self.is_flagged(
            c,
        ) by {
            self.lemma_cascade_cells(from, c);
        }
        self.lemma_uncover_wf(self.cascade(from));
    }

    /// Uncovering cells without flags keeps the board well formed.
    pub proof fn lemma_uncover_wf(self, cells: Set<Coordinates>)
        requires
            self.wf(),
            forall|c: Coordinates| cells.contains(c) ==> !self.is_flagged(c),
        ensures
            self.uncover(cells).wf(),
    {
        let after = self.uncover(cells);
        vstd::set_lib::lemma_len_subset(after.covered.dom(), self.covered.dom());
        assert forall|c: Coordinates| #[trigger] after.is_covered(c) implies after.tile_map.in_bounds(
            c,
        ) by {
            assert(self.is_covered(c));
        }
        assert forall|c: Coordinates| #[trigger] after.is_flagged(c) implies after.is_covered(c) by {
            assert(self.is_flagged(c));
        }
    }

    /// Taking a flag off keeps the board well formed, and changes nothing
    /// where there was no flag.
    pub proof fn lemma_unflag_wf(self, c: Coordinates)
        requires
            self.wf(),
        ensures
            self.unflag(c).wf(),
            !self.unflag(c).is_flagged(c),
            !self.is_flagged(c) ==> self.unflag(c) == self,
    {
        let after = self.unflag(c);
        lemma_without(self.marks, c);
        assert forall|d: Coordinates| #[trigger] after.is_flagged(d) implies after.is_covered(d) by {
            assert(self.is_flagged(d));
        }
        assert forall|d: Coordinates| #[trigger] after.is_covered(d) implies after.tile_map.in_bounds(
            d,
        ) by {
            assert(self.is_covered(d));
        }
    }

    /// Uncovering one cell, flagged or not, keeps the board well formed,
    /// and changes nothing where the cell was not covered.
    pub proof fn lemma_uncover_tile_wf(self, c: Coordinates)
        requires
            self.wf(),
        ensures
            self.uncover_tile(c).wf(),
            !self.is_covered(c) ==> self.uncover_tile(c) == self,
            !self.is_flagged(c) ==> self.uncover_tile(c) == self.uncover(set![c]),
    {
        let after = self.uncover_tile(c);
        lemma_without(self.marks, c);
        assert forall|d: Coordinates| #[trigger] after.is_flagged(d) implies after.is_covered(d) by {
            assert(self.is_flagged(d));
        }
        assert forall|d: Coordinates| #[trigger] after.is_covered(d) implies after.tile_map.in_bounds(
            d,
        ) by {
            assert(self.is_covered(d));
        }
        if !self.is_covered(c) {
            assert(after.covered =~= self.covered);
        }
        if !self.is_flagged(c) {
            assert(after.covered =~= self.uncover(set![c]).covered);
        }
    }

    /// Giving the cover of a covered cell another handle keeps the board
    /// well formed.
    pub proof fn lemma_rehandle_wf(self, c: Coordinates, handle: u64)
        requires
            self.wf(),
            self.is_covered(c),
        ensures
            (BoardView { covered: self.covered.insert(c, handle), ..self }).wf(),
    {
        let after = BoardView { covered: self.covered.insert(c, handle), ..self };
        assert forall|d: Coordinates| #[trigger] after.is_flagged(d) implies after.is_covered(d) by {
            assert(self.is_flagged(d));
        }
        assert forall|d: Coordinates| #[trigger] after.is_covered(d) implies after.tile_map.in_bounds(
            d,
        ) by {
            assert(self.is_covered(d));
        }
    }

    /// Setting a flag and taking it away again gives the board back as it
    /// was. Toggling the flag of any cell twice leaves the same cells
    /// flagged, and the covered cells as they are throughout.
    pub proof fn lemma_toggle_flag_twice(self, c: Coordinates)
        requires
            self.marks.no_duplicates(),
        ensures
            !self.is_flagged(c) ==> self.toggle_flag(c).toggle_flag(c) == self,
            self.toggle_flag(c).toggle_flag(c).flagged() == self.flagged(),
            self.toggle_flag(c).covered == self.covered,
            self.toggle_flag(c).toggle_flag(c).covered == self.covered,
    {
        lemma_without(self.marks, c);
        if self.is_flagged(c) {
            let off = without(self.marks, c);
            let back = off.push(c);
            assert forall|d: Coordinates| back.contains(d) <==> self.marks.contains(d) by {
                if off.contains(d) {
                    let i = choose|i: int| 0 <= i < off.len() && off[i] == d;
                    assert(back[i] == d);
                }
                if d == c {
                    assert(back[off.len() as int] == d);
                }
            }
        } else {
            lemma_without_pushed(self.marks, c);
            assert(self.marks.push(c)[self.marks.len() as int] == c);
        }
    }

    /// Toggling the flag of a covered cell keeps the board well formed.
    pub proof fn lemma_toggle_flag_wf(self, c: Coordinates)
        requires
            self.wf(),
            self.is_covered(c),
        ensures
            self.toggle_flag(c).wf(),
            self.toggle_flag(c).is_flagged(c) == !self.is_flagged(c),
    {
        let after = self.toggle_flag(c);
        lemma_without(self.marks, c);
        if !self.is_flagged(c) {
            lemma_without_pushed(self.marks, c);
            assert(self.marks.push(c)[self.marks.len() as int] == c);
        }
        assert forall|d: Coordinates| #[trigger] after.is_flagged(d) implies after.is_covered(d) by {
            if d != c {
                assert(self.is_flagged(d));
            }
        }
        assert forall|d: Coordinates| #[trigger] after.is_covered(d) implies after.tile_map.in_bounds(
            d,
        ) by {
            assert(self.is_covered(d));
        }
    }
}

} // verus!
