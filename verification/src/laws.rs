//! What holds of every map, every reveal and every flag toggle.

use crate::board::RevealOutcome;
use crate::cascade::{lemma_without, without, BoardView};
use crate::coordinates::Coordinates;
use crate::random::SplitMix64;
use crate::tile_map::TileMapView;
use vstd::prelude::*;

verus! {

/// The bomb count of a map is the number of its bomb tiles, and no more than
/// the number of its cells.
pub proof fn lemma_bomb_count_is_number_of_bombs(map: TileMapView)
    requires
        map.wf(),
    ensures
        map.bomb_count == map.bombs().len(),
        map.bomb_count <= map.width * map.height,
{
    map.lemma_bomb_count_bounded();
}

/// A reveal of a flagged cell is blocked and leaves the board as it is: the
/// same cells covered, the same cells flagged.
pub proof fn lemma_reveal_of_flagged_cell(
    board: BoardView,
    coords: Coordinates,
    outcome: RevealOutcome,
)
    requires
        board.wf(),
        board.is_flagged(coords),
        outcome.describes(board, coords),
    ensures
        outcome is Blocked,
        board.after_reveal(coords) == board,
{
}

/// A reveal of a cell that is not covered reports that the cell was
/// revealed already and leaves the board as it is.
pub proof fn lemma_reveal_of_uncovered_cell(
    board: BoardView,
    coords: Coordinates,
    outcome: RevealOutcome,
)
    requires
        board.wf(),
        !board.is_covered(coords),
        outcome.describes(board, coords),
    ensures
        outcome is AlreadyRevealed,
        board.after_reveal(coords) == board,
{
}

/// A reveal of a covered, unflagged bomb hits the bomb and takes exactly
/// that one cell out of the covered cells. No flag changes.
pub proof fn lemma_reveal_of_bomb(board: BoardView, coords: Coordinates, outcome: RevealOutcome)
    requires
        board.wf(),
        board.can_uncover(coords),
        board.tile_map.tile_at(coords) is Bomb,
        outcome.describes(board, coords),
    ensures
        outcome is HitBomb,
        board.after_reveal(coords).covered == board.covered.remove(coords),
        board.after_reveal(coords).covered.dom() == board.covered.dom().remove(coords),
        board.after_reveal(coords).marks == board.marks,
{
    board.lemma_cascade_of_closed_tile(coords);
}

/// A reveal of a covered, unflagged numbered tile uncovers exactly that one
/// cell.
pub proof fn lemma_reveal_of_numbered_tile(
    board: BoardView,
    coords: Coordinates,
    outcome: RevealOutcome,
)
    requires
        board.wf(),
        board.can_uncover(coords),
        board.tile_map.tile_at(coords) is BombNeighbor,
        outcome.describes(board, coords),
    ensures
        outcome is Uncovered,
        board.cascade(coords) == set![coords],
        board.after_reveal(coords).covered == board.covered.remove(coords),
        board.after_reveal(coords).marks == board.marks,
{
    board.lemma_cascade_of_closed_tile(coords);
}

/// The cascade of a cell that can be uncovered is a complete visit from that
/// cell: it holds the cell, holds only cells within reach of it, and leaves
/// out no cell to which the reveal spreads.
pub proof fn lemma_cascade_is_a_complete_visit(board: BoardView, from: Coordinates)
    requires
        board.can_uncover(from),
    ensures
        board.cascade(from).contains(from),
        board.is_closed(board.cascade(from)),
        forall|c: Coordinates| board.cascade(from).contains(c) ==> board.cascades_to(from, c),
{
    board.lemma_cascade_start(from);
    board.lemma_cascade_closed(from);
}

/// The cells that a reveal uncovers do not depend on the order in which it
/// visits them: two visits that both start at `from`, stay within reach of
/// it and leave no cell out to which the reveal spreads have uncovered the
/// same cells, and leave the same cells covered.
pub proof fn lemma_reveal_order_independent(
    board: BoardView,
    from: Coordinates,
    one: Set<Coordinates>,
    other: Set<Coordinates>,
)
    requires
        board.can_uncover(from),
        one.contains(from),
        other.contains(from),
        board.is_closed(one),
        board.is_closed(other),
        forall|c: Coordinates| one.contains(c) ==> board.cascades_to(from, c),
        forall|c: Coordinates| other.contains(c) ==> board.cascades_to(from, c),
    ensures
        one == other,
        board.uncover(one) == board.uncover(other),
        board.uncover(one) == board.after_reveal(from),
{
    board.lemma_cascade_order_independent(from, one);
    board.lemma_cascade_order_independent(from, other);
}

/// A reveal never flags or unflags a cell nor changes the order of the
/// flags, never covers a cell, and keeps the board well formed.
pub proof fn lemma_reveal_only_uncovers(board: BoardView, coords: Coordinates)
    requires
        board.wf(),
    ensures
        board.after_reveal(coords).wf(),
        board.after_reveal(coords).marks == board.marks,
        board.after_reveal(coords).covered.dom().subset_of(board.covered.dom()),
        board.after_reveal(coords).tile_map == board.tile_map,
{
    if board.can_uncover(coords) {
        assert forall|c: Coordinates| board.cascade(coords).contains(c) implies !board.is_flagged(
            c,
        ) by {
            board.lemma_cascade_cells(coords, c);
        }
        board.lemma_uncover_wf(board.cascade(coords));
    }
}

/// The board is won exactly when the number of covered cells equals the
/// number of bombs.
pub proof fn lemma_won_iff_covered_equals_bombs(board: BoardView)
    requires
        board.wf(),
    ensures
        board.is_won() <==> board.covered.dom().len() == board.tile_map.bombs().len(),
{
}

/// Flagging a covered cell and unflagging it again gives the board back as
/// it was: the same flags in the same order, the same covers. Toggling the
/// flag of a flagged cell twice leaves the same cells flagged, with that
/// cell's flag now the last. The covered cells stay as they are throughout.
pub proof fn lemma_flag_then_unflag(board: BoardView, coords: Coordinates)
    requires
        board.wf(),
        board.is_covered(coords),
    ensures
        board.after_mark(coords).is_flagged(coords) == !board.is_flagged(coords),
        board.after_mark(coords).covered == board.covered,
        board.after_mark(coords).wf(),
        !board.is_flagged(coords) ==> board.after_mark(coords).after_mark(coords) == board,
        board.after_mark(coords).after_mark(coords).flagged() == board.flagged(),
        board.after_mark(coords).after_mark(coords).covered == board.covered,
{
    board.lemma_toggle_flag_twice(coords);
    board.lemma_toggle_flag_wf(coords);
}

/// Taking the flag off a cell takes the cell out of the list of flags and
/// leaves the others in their order; where the cell has no flag, the list
/// stays as it is. The covers are not touched.
pub proof fn lemma_unflag_keeps_order(board: BoardView, coords: Coordinates)
    requires
        board.wf(),
    ensures
        board.unflag(coords).marks == without(board.marks, coords),
        board.unflag(coords).covered == board.covered,
        !board.is_flagged(coords) ==> board.unflag(coords) == board,
        forall|at: int|
            0 <= at < board.marks.len() && board.marks[at] == coords ==> board.unflag(coords).marks
                == #[trigger] board.marks.remove(at),
        forall|d: Coordinates|
            board.unflag(coords).is_flagged(d) <==> board.is_flagged(d) && d != coords,
{
    lemma_without(board.marks, coords);
}

/// Maps made from generators in equal states are equal, tile for tile, and
/// leave the generators in equal states; so are the cells that a safe start
/// reveals first.
pub proof fn lemma_equal_seeds_give_equal_maps(
    width: nat,
    height: nat,
    avoid: Option<Coordinates>,
    count: nat,
    one: SplitMix64,
    other: SplitMix64,
    first_of_one: Option<Coordinates>,
    first_of_other: Option<Coordinates>,
)
    requires
        one.state == other.state,
        TileMapView::generated(width, height, avoid, SplitMix64::stream(one.state, count)).wf(),
        TileMapView::generated(
            width,
            height,
            avoid,
            SplitMix64::stream(one.state, count),
        ).is_first_empty(first_of_one),
        TileMapView::generated(
            width,
            height,
            avoid,
            SplitMix64::stream(other.state, count),
        ).is_first_empty(first_of_other),
    ensures
        TileMapView::generated(width, height, avoid, SplitMix64::stream(one.state, count))
            == TileMapView::generated(width, height, avoid, SplitMix64::stream(other.state, count)),
        SplitMix64::advance_by(one.state, count) == SplitMix64::advance_by(other.state, count),
        first_of_one == first_of_other,
{
    TileMapView::generated(
        width,
        height,
        avoid,
        SplitMix64::stream(one.state, count),
    ).lemma_first_empty_unique(first_of_one, first_of_other);
}

/// A request to toggle the flag of a cell that is not covered yields
/// nothing and changes nothing.
pub proof fn lemma_mark_of_uncovered_cell(board: BoardView, coords: Coordinates)
    requires
        !board.is_covered(coords),
    ensures
        board.mark_result(coords) is None,
        board.after_mark(coords) == board,
{
}

} // verus!
