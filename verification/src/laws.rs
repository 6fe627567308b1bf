//! The engine's general guarantees, stated and proved once over the spec
//! functions that the executable contracts use.

use vstd::prelude::*;
use crate::power::PowerType;
use crate::player::PlayerState;
use crate::board::{BoardConfig, CellProperty, landing};
use crate::game::{
    after_double, chain, effective_delta, lemma_occupant_found, occupant_from, run_result,
    turn_outcome, turn_taken,
};

verus! {

/// For all boards, the size is columns times rows, and the cell at index
/// `size` is always the winning cell.
pub proof fn lemma_size_and_winning_cell(b: BoardConfig)
    requires
        b.playable(),
    ensures
        b.spec_size() == b.columns * b.rows,
        b.cells@[b.spec_size() - 1] is Winning,
{
}

/// Rolling a die whose effective delta would carry the player past the
/// board size never changes any player's location, regardless of the held
/// powerup: the roll is wasted, and only a held `Double` is lost.
pub proof fn lemma_rejected_roll(
    cells: Seq<CellProperty>,
    players: Seq<PlayerState>,
    who: int,
    die: u8,
    fuel: nat,
)
    requires
        0 <= who < players.len(),
        players[who].loc + effective_delta(players[who], die) > cells.len(),
    ensures
        ({
            let ps1 = players.update(who, after_double(players[who]));
            &&& turn_outcome(cells, players, who, die, fuel) == Some((ps1, false))
            &&& forall|i: int|
                0 <= i < players.len() ==> (#[trigger] ps1[i]).loc == players[i].loc
        }),
{
}

/// A player holding `Double` who rolls `v` moves as if rolling `2 v` with
/// no powerup in hand, and loses the `Double` even when the doubled move
/// is then rejected at the boundary.
pub proof fn lemma_double_roll(
    cells: Seq<CellProperty>,
    players: Seq<PlayerState>,
    who: int,
    die: u8,
    fuel: nat,
)
    requires
        0 <= who < players.len(),
        players[who].powerup == Some(PowerType::Double),
    ensures
        ({
            let bare = PlayerState { loc: players[who].loc, powerup: None };
            let ps1 = players.update(who, bare);
            &&& turn_outcome(cells, players, who, die, fuel) == (if players[who].loc + 2 * die
                > cells.len() {
                Some((ps1, false))
            } else {
                chain(cells, ps1, who, 2 * die, fuel)
            })
            &&& ps1[who].powerup is None
            &&& (2 * die <= u8::MAX ==> turn_outcome(cells, ps1, who, (2 * die) as u8, fuel)
                == turn_outcome(cells, players, who, die, fuel))
        }),
{
    let bare = PlayerState { loc: players[who].loc, powerup: None };
    let ps1 = players.update(who, bare);
    assert(ps1.update(who, bare) =~= ps1);
}

/// Landing on a snake-start cell while holding `Antivenom` consumes the
/// powerup and leaves the player on the snake's start cell, with no
/// slide; without it, the player is relocated to the snake's end.
pub proof fn lemma_snake_landing(
    cells: Seq<CellProperty>,
    loc: int,
    pu: Option<PowerType>,
    delta: int,
    end: usize,
)
    requires
        cells[loc + delta - 1] == (CellProperty::SnakeStart { end }),
    ensures
        pu == Some(PowerType::Antivenom) ==> landing(cells, loc, pu, delta) == (
            loc + delta,
            None::<PowerType>,
            false,
        ),
        pu != Some(PowerType::Antivenom) ==> landing(cells, loc, pu, delta) == (
            end as int,
            pu,
            false,
        ),
{
}

/// Landing on a ladder-start cell while holding `Escalator` consumes it
/// and moves the player twice the ladder's climb distance, clamped to the
/// final cell — and winning — when the doubled climb reaches or passes
/// the board size; without it, the player moves to the ladder's end.
pub proof fn lemma_ladder_landing(
    cells: Seq<CellProperty>,
    loc: int,
    pu: Option<PowerType>,
    delta: int,
    end: usize,
)
    requires
        cells[loc + delta - 1] == (CellProperty::LadderStart { end }),
    ensures
        ({
            let land = loc + delta;
            let climbed = land + 2 * (end - land);
            &&& (pu == Some(PowerType::Escalator) && climbed >= cells.len() ==> landing(
                cells,
                loc,
                pu,
                delta,
            ) == (cells.len() as int, None::<PowerType>, true))
            &&& (pu == Some(PowerType::Escalator) && climbed < cells.len() ==> landing(
                cells,
                loc,
                pu,
                delta,
            ) == (climbed, None::<PowerType>, false))
            &&& (pu != Some(PowerType::Escalator) ==> landing(cells, loc, pu, delta) == (
                end as int,
                pu,
                false,
            ))
        }),
{
}

/// The player state after one landing, as the cascade records it.
pub open spec fn landed(
    cells: Seq<CellProperty>,
    players: Seq<PlayerState>,
    mover: int,
    delta: int,
) -> PlayerState {
    let r = landing(cells, players[mover].loc as int, players[mover].powerup, delta);
    PlayerState { loc: r.0 as usize, powerup: r.1 }
}

/// Bumping: when the mover's landing does not win and player `j` already
/// stands on the mover's final cell, the mover keeps the contested cell,
/// and `j` — a different player, standing on that very cell — is
/// displaced by exactly one cell, its own landing-cell effect (win,
/// powerup, snake, ladder, or a further bump) evaluated in the mover's
/// stead: the cascade continues from `j` with a displacement of one.
pub proof fn lemma_bump(
    cells: Seq<CellProperty>,
    players: Seq<PlayerState>,
    mover: int,
    delta: int,
    j: int,
    fuel: nat,
)
    requires
        fuel >= 1,
        0 <= mover < players.len(),
        !landing(cells, players[mover].loc as int, players[mover].powerup, delta).2,
        occupant_from(
            players.update(mover, landed(cells, players, mover, delta)),
            landed(cells, players, mover, delta).loc as int,
            mover,
            0,
        ) == Some(j),
    ensures
        ({
            let moved = landed(cells, players, mover, delta);
            let ps2 = players.update(mover, moved);
            &&& ps2[mover] == moved
            &&& j != mover
            &&& 0 <= j < players.len()
            &&& ps2[j].loc == moved.loc
            &&& chain(cells, players, mover, delta, fuel) == chain(
                cells,
                ps2,
                j,
                1,
                (fuel - 1) as nat,
            )
        }),
{
    let moved = landed(cells, players, mover, delta);
    let ps2 = players.update(mover, moved);
    lemma_occupant_found(ps2, moved.loc as int, mover, 0);
}

/// A pending round-robin run that finished takes its first player-turn
/// with the player at position `next % players.len()`, consuming the die
/// at the current turn counter, and continues — counter advanced by one,
/// next position advanced by one — from that turn's result.
pub proof fn lemma_run_unfold(
    cells: Seq<CellProperty>,
    dice: Seq<u8>,
    players: Seq<PlayerState>,
    turn: int,
    next: int,
    k: nat,
)
    requires
        k >= 1,
        run_result(cells, dice, players, turn, next, k) is Some,
    ensures
        exists|mid: Seq<PlayerState>, r: bool|
            #[trigger] turn_taken(cells, dice, players, turn, next % players.len() as int, mid, r)
                && run_result(cells, dice, players, turn, next, k) == (if r {
                Some((mid, turn + 1, true))
            } else {
                run_result(cells, dice, mid, turn + 1, next + 1, (k - 1) as nat)
            }),
{
    let who = next % players.len() as int;
    let (mid, r) = choose|mid: Seq<PlayerState>, r: bool|
        #[trigger] turn_taken(cells, dice, players, turn, who, mid, r);
    assert(turn_taken(cells, dice, players, turn, who, mid, r));
}

/// Die values are consumed in strict round-robin order across all
/// player-turns combined: every player-turn advances the shared counter
/// by exactly one, so a run that plays `k` turns without a win leaves the
/// counter advanced by exactly `k`, each turn having consumed the die at
/// its own counter value, cycling through the sequence.
pub proof fn lemma_turn_counter(
    cells: Seq<CellProperty>,
    dice: Seq<u8>,
    players: Seq<PlayerState>,
    turn: int,
    next: int,
    k: nat,
)
    ensures
        run_result(cells, dice, players, turn, next, k) matches Some(res) ==> (!res.2 ==> res.1
            == turn + k),
    decreases k,
{
    if k >= 1 {
        if exists|mid: Seq<PlayerState>, r: bool|
            #[trigger] turn_taken(cells, dice, players, turn, next % players.len() as int, mid, r) {
            let (mid, r) = choose|mid: Seq<PlayerState>, r: bool|
                #[trigger] turn_taken(
                    cells,
                    dice,
                    players,
                    turn,
                    next % players.len() as int,
                    mid,
                    r,
                );
            if !r {
                lemma_turn_counter(cells, dice, mid, turn + 1, next + 1, (k - 1) as nat);
            }
        }
    }
}

} // verus!
