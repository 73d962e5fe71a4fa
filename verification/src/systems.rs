//! The steps of a game, each on a batch of events: from button presses to
//! requests, and from requests to changes on the board.

use crate::board::{generate_board, Board, RevealOutcome};
use crate::cascade::BoardView;
use crate::coordinates::Coordinates;
use crate::error::BoardError;
use crate::geometry::BoardGeometry;
use crate::random::SplitMix64;
use crate::tile_map::TileMapView;
use vstd::prelude::*;

verus! {

/// A button of the pointing device.
#[derive(Debug, Clone, Copy, PartialEq, Eq, Hash, Structural)]
pub enum PointerButton {
    Left,
    Right,
    Other,
}

/// What a button press on a cell asks for.
#[derive(Debug, Clone, Copy, PartialEq, Eq, Hash, Structural)]
pub enum TileRequest {
    /// Reveal the cell.
    Trigger(Coordinates),
    /// Toggle the flag of the cell.
    Mark(Coordinates),
}

/// What is asked of a new board: its numbers of columns and rows, its
/// number of bombs, and whether play starts with a safe reveal.
#[derive(Debug, Clone, Copy, PartialEq, Eq, Hash)]
pub struct BoardOptions {
    pub map_size: (u16, u16),
    pub bomb_count: u16,
    pub safe_start: bool,
}

/// A board as `options` ask for it, with its bombs on the cells that the
/// next numbers of `rng` select, and, where a safe start is asked for, the
/// cell to reveal first: the first cell, row by row, whose tile is empty,
/// if there is one. Equal options, equal geometry and generators in equal
/// states give equal boards.
///
/// Refused with `InvalidDimensions` where the map has no columns or no
/// rows, and otherwise with `BombCountExceedsCapacity` where more bombs are
/// asked for than the map has cells. Nothing is drawn from `rng` then.
pub fn create_board(options: &BoardOptions, geometry: BoardGeometry, rng: &mut SplitMix64) -> (made:
    Result<(Board, Option<Coordinates>), BoardError>)
    ensures
        made is Err <==> (options.map_size.0 == 0 || options.map_size.1 == 0 || options.bomb_count
            > options.map_size.0 * options.map_size.1),
        made matches Err(e) ==> *final(rng) == *old(rng) && e == if options.map_size.0 == 0
            || options.map_size.1 == 0 {
            BoardError::InvalidDimensions
        } else {
            BoardError::BombCountExceedsCapacity
        },
        made matches Ok((board, first)) ==> {
            &&& board.wf()
            &&& board@ == BoardView::fresh(
                TileMapView::generated(
                    options.map_size.0 as nat,
                    options.map_size.1 as nat,
                    None,
                    SplitMix64::stream(old(rng).state, options.bomb_count as nat),
                ),
                geometry,
            )
            &&& final(rng).state == SplitMix64::advance_by(
                old(rng).state,
                options.bomb_count as nat,
            )
            &&& board@.tile_map.width == options.map_size.0
            &&& board@.tile_map.height == options.map_size.1
            &&& board@.tile_map.bomb_count == options.bomb_count
            &&& board@.tile_map.classified()
            &&& board@.geometry == geometry
            &&& board@.is_fresh()
            &&& if options.safe_start {
                board@.tile_map.is_first_empty(first)
            } else {
                first is None
            }
        },
{
    let board = match generate_board(
        options.map_size.0,
        options.map_size.1,
        options.bomb_count as usize,
        geometry,
        rng,
    ) {
        Ok(board) => board,
        Err(e) => {
            return Err(e);
        },
    };
    proof {
        board.lemma_wf();
    }
    let first = if options.safe_start {
        board.tile_map().first_empty()
    } else {
        None
    };
    Ok((board, first))
}

/// The handles of the covers that the reveals asked for in `events` would
/// take off first: for each event on a covered, unflagged cell the handle of
/// its cover, in the order of the events.
pub fn trigger_event_handler(board: &Board, events: &Vec<Coordinates>) -> (covers: Vec<u64>)
    ensures
        covers@ == events@.filter_map(
            |c: Coordinates|
                if board@.can_uncover(c) {
                    Some(board@.covered[c])
                } else {
                    None
                },
        ),
{
    let ghost cover_of = |c: Coordinates|
        if board@.can_uncover(c) {
            Some(board@.covered[c])
        } else {
            None
        };
    let mut covers: Vec<u64> = Vec::new();
    let mut i: usize = 0;
    while i < events.len()
        invariant
            i <= events@.len(),
            cover_of == |c: Coordinates|
                if board@.can_uncover(c) {
                    Some(board@.covered[c])
                } else {
                    None
                },
            covers@ == events@.take(i as int).filter_map(cover_of),
        decreases events@.len() - i,
    {
        proof {
            events@.lemma_filter_map_take_succ(cover_of, i as int);
        }
        if let Some(handle) = board.get_covered_tile(events[i]) {
            covers.push(handle);
        }
        i += 1;
    }
    proof {
        assert(events@.take(i as int) =~= events@);
    }
    covers
}

/// The cell under the cursor, if the cursor is in the window and on the
/// board.
pub open spec fn cell_under(board: BoardView, window: (u32, u32), cursor: Option<(i32, i32)>) -> Option<
    Coordinates,
> {
    match cursor {
        Some(position) => board.geometry.locate(
            board.tile_map.width as int,
            board.tile_map.height as int,
            window.0 as int,
            window.1 as int,
            position.0 as int,
            position.1 as int,
        ),
        None => None,
    }
}

/// What a press of `button` asks for with the cursor on `cell`: the left
/// button a reveal, the right button a flag toggle, and nothing for another
/// button or off the board.
pub open spec fn request_for(button: PointerButton, cell: Option<Coordinates>) -> Option<
    TileRequest,
> {
    match (cell, button) {
        (Some(c), PointerButton::Left) => Some(TileRequest::Trigger(c)),
        (Some(c), PointerButton::Right) => Some(TileRequest::Mark(c)),
        _ => None,
    }
}

/// The requests that the buttons pressed make, in the order of the presses,
/// with the cursor at `cursor` in a window of extent `window`. The cursor
/// is `None` when it is outside the window.
pub fn input_handling(
    board: &Board,
    window: (u32, u32),
    cursor: Option<(i32, i32)>,
    pressed: &Vec<PointerButton>,
) -> (requests: Vec<TileRequest>)
    ensures
        requests@ == pressed@.filter_map(
            |button: PointerButton| request_for(button, cell_under(board@, window, cursor)),
        ),
{
    let cell = match cursor {
        Some(position) => board.translate_position(position, window),
        None => None,
    };
    let ghost request = |button: PointerButton|
        request_for(button, cell_under(board@, window, cursor));
    let mut requests: Vec<TileRequest> = Vec::new();
    let mut i: usize = 0;
    while i < pressed.len()
        invariant
            i <= pressed@.len(),
            cell == cell_under(board@, window, cursor),
            request == |button: PointerButton|
                request_for(button, cell_under(board@, window, cursor)),
            requests@ == pressed@.take(i as int).filter_map(request),
        decreases pressed@.len() - i,
    {
        proof {
            pressed@.lemma_filter_map_take_succ(request, i as int);
        }
        match (cell, pressed[i]) {
            (Some(c), PointerButton::Left) => {
                requests.push(TileRequest::Trigger(c));
            },
            (Some(c), PointerButton::Right) => {
                requests.push(TileRequest::Mark(c));
            },
            _ => {},
        }
        i += 1;
    }
    proof {
        assert(pressed@.take(i as int) =~= pressed@);
    }
    requests
}

/// Toggles the flag of each cell of `events`, in order. The result holds,
/// for each event, the handle of the cell's cover and whether the cell is
/// flagged after it, or `None` where the cell was not covered and nothing
/// changed.
pub fn mark_tiles(board: &mut Board, events: &Vec<Coordinates>) -> (marks: Vec<Option<(u64, bool)>>)
    requires
        old(board).wf(),
    ensures
        final(board).wf(),
        final(board)@ == old(board)@.after_marks(events@),
        marks@.len() == events@.len(),
        forall|i: int|
            0 <= i < events@.len() ==> #[trigger] marks@[i] == old(board)@.after_marks(
                events@.take(i),
            ).mark_result(events@[i]),
{
    let mut marks: Vec<Option<(u64, bool)>> = Vec::new();
    let mut k: usize = 0;
    while k < events.len()
        invariant
            board.wf(),
            k <= events@.len(),
            marks@.len() == k,
            board@ == old(board)@.after_marks(events@.take(k as int)),
            forall|i: int|
                0 <= i < k ==> #[trigger] marks@[i] == old(board)@.after_marks(
                    events@.take(i),
                ).mark_result(events@[i]),
        decreases events@.len() - k,
    {
        proof {
            assert(events@.take(k + 1).drop_last() =~= events@.take(k as int));
        }
        let toggled = board.try_toggle_mark(events[k]);
        marks.push(toggled);
        k += 1;
    }
    proof {
        assert(events@.take(k as int) =~= events@);
    }
    marks
}

/// Reveals each cell of `triggers`, in order, each reveal spreading as far
/// as it goes before the next begins. The result holds the outcome of each
/// reveal.
pub fn uncover_tiles(board: &mut Board, triggers: &Vec<Coordinates>) -> (outcomes: Vec<
    RevealOutcome,
>)
    requires
        old(board).wf(),
    ensures
        final(board).wf(),
        final(board)@ == old(board)@.after_reveals(triggers@),
        outcomes@.len() == triggers@.len(),
        forall|i: int|
            0 <= i < triggers@.len() ==> (#[trigger] outcomes@[i]).describes(
                old(board)@.after_reveals(triggers@.take(i)),
                triggers@[i],
            ),
{
    let mut outcomes: Vec<RevealOutcome> = Vec::new();
    let mut k: usize = 0;
    while k < triggers.len()
        invariant
            board.wf(),
            k <= triggers@.len(),
            outcomes@.len() == k,
            board@ == old(board)@.after_reveals(triggers@.take(k as int)),
            forall|i: int|
                0 <= i < k ==> (#[trigger] outcomes@[i]).describes(
                    old(board)@.after_reveals(triggers@.take(i)),
                    triggers@[i],
                ),
        decreases triggers@.len() - k,
    {
        proof {
            assert(triggers@.take(k + 1).drop_last() =~= triggers@.take(k as int));
        }
        let outcome = board.reveal_tile(triggers[k]);
        outcomes.push(outcome);
        k += 1;
    }
    proof {
        assert(triggers@.take(k as int) =~= triggers@);
    }
    outcomes
}

} // verus!
