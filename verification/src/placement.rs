//! Choosing the cells that receive a bomb.
//!
//! Each bomb is placed by one drawn number: with `free` cells free, the draw
//! `d` selects the free cell that has exactly `d % free` free cells before it
//! in row-by-row order. A cell is free when its tile is empty and it is not
//! kept clear of bombs. Distinct cells follow by construction, and draws that
//! are uniform over a range much larger than the map select each free cell
//! with (nearly) equal probability.

use crate::coordinates::Coordinates;
use crate::tile::Tile;
use vstd::prelude::*;

verus! {

/// Whether column `x` of row `y` is the cell `centre` or one around it.
pub open spec fn is_near(centre: Coordinates, x: int, y: int) -> bool {
    centre.x - 1 <= x <= centre.x + 1 && centre.y - 1 <= y <= centre.y + 1
}

/// The places, on a map `width` columns wide, of the cells that are kept
/// clear of bombs: `avoid` and the cells around it, and none where `avoid`
/// is `None`.
pub open spec fn kept_places(width: int, avoid: Option<Coordinates>) -> Set<int> {
    Set::new(
        |place: int|
            match avoid {
                Some(centre) => is_near(centre, place % width, place / width),
                None => false,
            },
    )
}

/// Whether a bomb can go to the place `at`: its tile is empty, and it is not
/// kept clear.
pub open spec fn is_free(tiles: Seq<Tile>, kept: Set<int>, at: int) -> bool {
    0 <= at < tiles.len() && tiles[at] is Empty && !kept.contains(at)
}

/// The free places before `end`.
pub open spec fn frees_before(tiles: Seq<Tile>, kept: Set<int>, end: int) -> Set<int> {
    Set::new(|at: int| at < end && is_free(tiles, kept, at))
}

/// The free places.
pub open spec fn frees(tiles: Seq<Tile>, kept: Set<int>) -> Set<int> {
    frees_before(tiles, kept, tiles.len() as int)
}

/// Whether `at` is the free place with exactly `rank` free places before it.
pub open spec fn is_nth_free(tiles: Seq<Tile>, kept: Set<int>, rank: nat, at: int) -> bool {
    is_free(tiles, kept, at) && frees_before(tiles, kept, at).len() == rank
}

/// The free place with exactly `rank` free places before it.
pub open spec fn nth_free(tiles: Seq<Tile>, kept: Set<int>, rank: nat) -> int {
    choose|at: int| is_nth_free(tiles, kept, rank, at)
}

/// The tiles after one bomb has been placed by the draw `draw`.
pub open spec fn place_one(tiles: Seq<Tile>, kept: Set<int>, draw: u64) -> Seq<Tile> {
    tiles.update(nth_free(tiles, kept, (draw as nat) % frees(tiles, kept).len()), Tile::Bomb)
}

/// The tiles after one bomb has been placed for each of `draws`, in order.
pub open spec fn place_all(tiles: Seq<Tile>, kept: Set<int>, draws: Seq<u64>) -> Seq<Tile>
    decreases draws.len(),
{
    if draws.len() == 0 {
        tiles
    } else {
        place_one(place_all(tiles, kept, draws.drop_last()), kept, draws.last())
    }
}

/// The free places before `end` are finitely many, at most `end`, and grow
/// by the place `end` itself exactly when it is free.
pub proof fn lemma_frees_before(tiles: Seq<Tile>, kept: Set<int>, end: int)
    requires
        0 <= end <= tiles.len(),
    ensures
        frees_before(tiles, kept, end).finite(),
        frees_before(tiles, kept, end).len() <= end,
        end < tiles.len() ==> frees_before(tiles, kept, end + 1) == if is_free(tiles, kept, end) {
            frees_before(tiles, kept, end).insert(end)
        } else {
            frees_before(tiles, kept, end)
        },
    decreases end,
{
    if end == 0 {
        assert(frees_before(tiles, kept, 0) =~= Set::<int>::empty());
    } else {
        lemma_frees_before(tiles, kept, end - 1);
    }
}

/// A free place has fewer free places before it than any later place has.
pub proof fn lemma_frees_grow(tiles: Seq<Tile>, kept: Set<int>, at: int, later: int)
    requires
        0 <= at < later <= tiles.len(),
        is_free(tiles, kept, at),
    ensures
        frees_before(tiles, kept, at).len() < frees_before(tiles, kept, later).len(),
{
    lemma_frees_before(tiles, kept, at);
    lemma_frees_before(tiles, kept, later);
    let grown = frees_before(tiles, kept, at).insert(at);
    vstd::set_lib::lemma_len_subset(grown, frees_before(tiles, kept, later));
}

/// At most one place is the free place of a given rank.
pub proof fn lemma_nth_free_unique(tiles: Seq<Tile>, kept: Set<int>, rank: nat, a: int, b: int)
    requires
        is_nth_free(tiles, kept, rank, a),
        is_nth_free(tiles, kept, rank, b),
    ensures
        a == b,
{
    if a < b {
        lemma_frees_grow(tiles, kept, a, b);
    } else if b < a {
        lemma_frees_grow(tiles, kept, b, a);
    }
}

/// Where every tile is empty and no place is kept clear, every place is
/// free.
pub proof fn lemma_blank_frees(tiles: Seq<Tile>, end: int)
    requires
        0 <= end <= tiles.len(),
        forall|i: int| 0 <= i < tiles.len() ==> #[trigger] tiles[i] is Empty,
    ensures
        frees_before(tiles, Set::empty(), end).len() == end,
    decreases end,
{
    lemma_frees_before(tiles, Set::empty(), end);
    if end > 0 {
        lemma_blank_frees(tiles, end - 1);
        lemma_frees_before(tiles, Set::empty(), end - 1);
    }
}

/// Putting a bomb on a free place takes that place out of the free places
/// and leaves the others.
pub proof fn lemma_frees_after_bomb(tiles: Seq<Tile>, kept: Set<int>, at: int)
    requires
        is_free(tiles, kept, at),
    ensures
        frees(tiles, kept).finite(),
        frees(tiles.update(at, Tile::Bomb), kept) == frees(tiles, kept).remove(at),
        frees(tiles.update(at, Tile::Bomb), kept).len() == frees(tiles, kept).len() - 1,
{
    lemma_frees_before(tiles, kept, tiles.len() as int);
}

/// Placing bombs for one more draw places them for the draws before it, then
/// one for the last.
pub proof fn lemma_place_all_step(tiles: Seq<Tile>, kept: Set<int>, draws: Seq<u64>, k: int)
    requires
        0 <= k < draws.len(),
    ensures
        place_all(tiles, kept, draws.take(k + 1)) == place_one(
            place_all(tiles, kept, draws.take(k)),
            kept,
            draws[k],
        ),
{
    assert(draws.take(k + 1).drop_last() =~= draws.take(k));
}

/// Whether the place `at`, on a map `width` columns wide, is kept clear of
/// bombs.
fn is_kept(width: u16, avoid: Option<Coordinates>, at: usize) -> (kept: bool)
    requires
        width > 0,
    ensures
        kept == kept_places(width as int, avoid).contains(at as int),
{
    match avoid {
        Some(centre) => {
            let x: usize = at % (width as usize);
            let y: usize = at / (width as usize);
            let cx: usize = centre.x as usize;
            let cy: usize = centre.y as usize;
            (cx == 0 || cx - 1 <= x) && x <= cx + 1 && (cy == 0 || cy - 1 <= y) && y <= cy + 1
        },
        None => false,
    }
}

/// Whether a bomb can go to the place `at`.
fn is_free_place(tiles: &Vec<Tile>, width: u16, avoid: Option<Coordinates>, at: usize) -> (free:
    bool)
    requires
        width > 0,
        at < tiles@.len(),
    ensures
        free == is_free(tiles@, kept_places(width as int, avoid), at as int),
{
    tiles[at].is_empty() && !is_kept(width, avoid, at)
}

/// The number of free places.
pub(crate) fn count_free(tiles: &Vec<Tile>, width: u16, avoid: Option<Coordinates>) -> (free: usize)
    requires
        width > 0,
    ensures
        free == frees(tiles@, kept_places(width as int, avoid)).len(),
        free <= tiles@.len(),
        frees(tiles@, kept_places(width as int, avoid)).finite(),
{
    let ghost kept = kept_places(width as int, avoid);
    let mut at: usize = 0;
    let mut free: usize = 0;
    proof {
        lemma_frees_before(tiles@, kept, 0);
    }
    while at < tiles.len()
        invariant
            width > 0,
            kept == kept_places(width as int, avoid),
            at <= tiles@.len(),
            free == frees_before(tiles@, kept, at as int).len(),
            free <= at,
            frees_before(tiles@, kept, at as int).finite(),
        decreases tiles@.len() - at,
    {
        proof {
            lemma_frees_before(tiles@, kept, at as int);
        }
        if is_free_place(tiles, width, avoid, at) {
            free += 1;
        }
        at += 1;
    }
    free
}

/// The free place with exactly `rank` free places before it.
pub(crate) fn find_nth_free(tiles: &Vec<Tile>, width: u16, avoid: Option<Coordinates>, rank: usize) -> (at:
    usize)
    requires
        width > 0,
        rank < frees(tiles@, kept_places(width as int, avoid)).len(),
    ensures
        is_nth_free(tiles@, kept_places(width as int, avoid), rank as nat, at as int),
        at == nth_free(tiles@, kept_places(width as int, avoid), rank as nat),
{
    let ghost kept = kept_places(width as int, avoid);
    let mut at: usize = 0;
    let mut seen: usize = 0;
    proof {
        lemma_frees_before(tiles@, kept, 0);
    }
    while at < tiles.len()
        invariant
            width > 0,
            kept == kept_places(width as int, avoid),
            at <= tiles@.len(),
            seen == frees_before(tiles@, kept, at as int).len(),
            seen <= rank,
            rank < frees(tiles@, kept).len(),
        decreases tiles@.len() - at,
    {
        proof {
            lemma_frees_before(tiles@, kept, at as int);
        }
        if is_free_place(tiles, width, avoid, at) {
            if seen == rank {
                proof {
                    lemma_nth_free_unique(
                        tiles@,
                        kept,
                        rank as nat,
                        at as int,
                        nth_free(tiles@, kept, rank as nat),
                    );
                }
                return at;
            }
            seen += 1;
        }
        at += 1;
    }
    at
}

} // verus!
