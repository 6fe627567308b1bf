//! The game state and the turn-resolution engine: one die roll becomes
//! zero or more player relocations, including powerup consumption,
//! boundary rejection, and chained bump collisions.

use vstd::prelude::*;
use crate::power::PowerType;
use crate::player::{PlayerState, MAX_PLAYERS, player_name, spec_player_name};
use crate::board::{BoardConfig, CellProperty, MAX_CELLS, cell_ok, landing, lemma_landing_range};
use crate::command::Command;

verus! {

/// The first player other than `skip`, scanning from position `i` in
/// declaration order, standing on cell `loc`.
pub open spec fn occupant_from(
    players: Seq<PlayerState>,
    loc: int,
    skip: int,
    i: int,
) -> Option<int>
    decreases players.len() - i,
{
    if i >= players.len() || i < 0 {
        None
    } else if i != skip && players[i].loc == loc {
        Some(i)
    } else {
        occupant_from(players, loc, skip, i + 1)
    }
}

/// The bump cascade: the mover lands and the cell's effect is applied; if
/// that does not win and another player already stands on the mover's final
/// cell, that player is displaced by one cell and becomes the mover. `fuel`
/// bounds the number of steps; `None` means the cascade did not finish
/// within `fuel` steps.
pub open spec fn chain(
    cells: Seq<CellProperty>,
    players: Seq<PlayerState>,
    mover: int,
    delta: int,
    fuel: nat,
) -> Option<(Seq<PlayerState>, bool)>
    decreases fuel,
{
    if fuel == 0 {
        None
    } else {
        let r = landing(cells, players[mover].loc as int, players[mover].powerup, delta);
        let moved = PlayerState { loc: r.0 as usize, powerup: r.1 };
        let ps2 = players.update(mover, moved);
        if r.2 {
            Some((ps2, true))
        } else {
            match occupant_from(ps2, moved.loc as int, mover, 0) {
                Some(j) => chain(cells, ps2, j, 1, (fuel - 1) as nat),
                None => Some((ps2, false)),
            }
        }
    }
}

/// A held `Double` is consumed the moment the roll is made.
pub open spec fn after_double(p: PlayerState) -> PlayerState {
    if p.powerup == Some(PowerType::Double) {
        PlayerState { loc: p.loc, powerup: None }
    } else {
        p
    }
}

/// The distance the acting player will try to move: the die value, doubled
/// when the player holds `Double`.
pub open spec fn effective_delta(p: PlayerState, die: u8) -> int {
    if p.powerup == Some(PowerType::Double) {
        2 * die
    } else {
        die as int
    }
}

/// One full player-turn: the acting player's `Double` is consumed first;
/// a move past the end of the board is rejected with no further effect;
/// otherwise the bump cascade runs from the acting player.
pub open spec fn turn_outcome(
    cells: Seq<CellProperty>,
    players: Seq<PlayerState>,
    who: int,
    die: u8,
    fuel: nat,
) -> Option<(Seq<PlayerState>, bool)> {
    let delta = effective_delta(players[who], die);
    let ps1 = players.update(who, after_double(players[who]));
    if players[who].loc + delta > cells.len() {
        Some((ps1, false))
    } else {
        chain(cells, ps1, who, delta, fuel)
    }
}

/// The cascade's outcome does not depend on which sufficient fuel ran it.
pub proof fn lemma_chain_deterministic(
    cells: Seq<CellProperty>,
    players: Seq<PlayerState>,
    mover: int,
    delta: int,
    f1: nat,
    f2: nat,
)
    requires
        chain(cells, players, mover, delta, f1) is Some,
        chain(cells, players, mover, delta, f2) is Some,
    ensures
        chain(cells, players, mover, delta, f1) == chain(cells, players, mover, delta, f2),
    decreases f1,
{
    let r = landing(cells, players[mover].loc as int, players[mover].powerup, delta);
    let moved = PlayerState { loc: r.0 as usize, powerup: r.1 };
    let ps2 = players.update(mover, moved);
    if !r.2 {
        match occupant_from(ps2, moved.loc as int, mover, 0) {
            Some(j) => lemma_chain_deterministic(cells, ps2, j, 1, (f1 - 1) as nat, (f2 - 1) as nat),
            None => {},
        }
    }
}

/// A player-turn's outcome does not depend on which sufficient fuel ran it.
pub proof fn lemma_turn_deterministic(
    cells: Seq<CellProperty>,
    players: Seq<PlayerState>,
    who: int,
    die: u8,
    f1: nat,
    f2: nat,
)
    requires
        turn_outcome(cells, players, who, die, f1) is Some,
        turn_outcome(cells, players, who, die, f2) is Some,
    ensures
        turn_outcome(cells, players, who, die, f1) == turn_outcome(cells, players, who, die, f2),
{
    let delta = effective_delta(players[who], die);
    let ps1 = players.update(who, after_double(players[who]));
    if !(players[who].loc + delta > cells.len()) {
        lemma_chain_deterministic(cells, ps1, who, delta, f1, f2);
    }
}

/// A found occupant really stands on the searched cell and is not the
/// skipped player.
pub proof fn lemma_occupant_found(players: Seq<PlayerState>, loc: int, skip: int, i: int)
    ensures
        occupant_from(players, loc, skip, i) matches Some(j) ==> i <= j < players.len() && j
            != skip && players[j].loc == loc,
    decreases players.len() - i,
{
    if !(i >= players.len() || i < 0) {
        if !(i != skip && players[i].loc == loc) {
            lemma_occupant_found(players, loc, skip, i + 1);
        }
    }
}

/// One player-turn is taken from the given state: the die at the current
/// turn counter is consumed and player `who`'s cascade finishes with the
/// given result.
pub open spec fn turn_taken(
    cells: Seq<CellProperty>,
    dice: Seq<u8>,
    players: Seq<PlayerState>,
    turn: int,
    who: int,
    players2: Seq<PlayerState>,
    win: bool,
) -> bool {
    exists|fuel: nat|
        #[trigger] turn_outcome(cells, players, who, dice[turn % dice.len() as int], fuel) == Some(
            (players2, win),
        )
}

/// The result of up to `k` player-turns from a state. The turns already
/// taken are counted by `next`, so the next acting player is
/// `next % players.len()`: dice are consumed in strict round-robin order
/// across all player-turns combined, and the turn counter advances by one
/// per player-turn. The run stops, with the flag true, the moment a turn
/// reports a win; `None` means some cascade along the way never finishes.
pub open spec fn run_result(
    cells: Seq<CellProperty>,
    dice: Seq<u8>,
    players: Seq<PlayerState>,
    turn: int,
    next: int,
    k: nat,
) -> Option<(Seq<PlayerState>, int, bool)>
    decreases k,
{
    if k == 0 {
        Some((players, turn, false))
    } else if exists|mid: Seq<PlayerState>, r: bool|
        #[trigger] turn_taken(cells, dice, players, turn, next % players.len() as int, mid, r) {
        let (mid, r) = choose|mid: Seq<PlayerState>, r: bool|
            #[trigger] turn_taken(cells, dice, players, turn, next % players.len() as int, mid, r);
        if r {
            Some((mid, turn + 1, true))
        } else {
            run_result(cells, dice, mid, turn + 1, next + 1, (k - 1) as nat)
        }
    } else {
        None
    }
}

/// Two ways of taking the same player-turn end the same way.
pub proof fn lemma_turn_taken_deterministic(
    cells: Seq<CellProperty>,
    dice: Seq<u8>,
    players: Seq<PlayerState>,
    turn: int,
    who: int,
    m1: Seq<PlayerState>,
    w1: bool,
    m2: Seq<PlayerState>,
    w2: bool,
)
    requires
        turn_taken(cells, dice, players, turn, who, m1, w1),
        turn_taken(cells, dice, players, turn, who, m2, w2),
    ensures
        m1 == m2,
        w1 == w2,
{
    let die = dice[turn % dice.len() as int];
    let f1 = choose|f: nat| turn_outcome(cells, players, who, die, f) == Some((m1, w1));
    let f2 = choose|f: nat| turn_outcome(cells, players, who, die, f) == Some((m2, w2));
    lemma_turn_deterministic(cells, players, who, die, f1, f2);
}

/// A turn actually taken pins the run down: the run's first step is that
/// turn, and the rest of the run continues from its result.
pub proof fn lemma_run_step(
    cells: Seq<CellProperty>,
    dice: Seq<u8>,
    players: Seq<PlayerState>,
    turn: int,
    next: int,
    k: nat,
    mid: Seq<PlayerState>,
    r: bool,
)
    requires
        k >= 1,
        turn_taken(cells, dice, players, turn, next % players.len() as int, mid, r),
    ensures
        run_result(cells, dice, players, turn, next, k) == if r {
            Some((mid, turn + 1, true))
        } else {
            run_result(cells, dice, mid, turn + 1, next + 1, (k - 1) as nat)
        },
{
    let who = next % players.len() as int;
    let (mid2, r2) = choose|mid2: Seq<PlayerState>, r2: bool|
        #[trigger] turn_taken(cells, dice, players, turn, who, mid2, r2);
    assert(turn_taken(cells, dice, players, turn, who, mid2, r2));
    lemma_turn_taken_deterministic(cells, dice, players, turn, who, mid, r, mid2, r2);
}

/// Cell properties after marking each listed cell, in order, as granting
/// the powerup.
pub open spec fn with_powerups(
    cells: Seq<CellProperty>,
    pt: PowerType,
    cs: Seq<usize>,
) -> Seq<CellProperty>
    decreases cs.len(),
{
    if cs.len() == 0 {
        cells
    } else {
        with_powerups(cells.update(cs[0] - 1, CellProperty::PowerUp(pt)), pt, cs.drop_first())
    }
}

/// Every listed cell index lies on a board of `len` cells.
pub open spec fn cells_on_board(cs: Seq<usize>, len: int) -> bool {
    forall|j: int| 0 <= j < cs.len() ==> 1 <= #[trigger] cs[j] <= len
}

/// What a command needs of the state it is applied to, as far as it can
/// be decided by looking at the state: the caps the core enforces,
/// on-board indices for board features, and, for `turns`, a playable
/// state with headroom on the turn counter. The one assumption not here
/// is the standing one that the board produces no bump loops.
pub open spec fn cmd_ok(s: GameState, c: Command) -> bool {
    match c {
        Command::Board { columns, rows } => 1 <= columns * rows <= MAX_CELLS,
        Command::Players(n) => n <= MAX_PLAYERS,
        Command::Dice(_) => true,
        Command::Ladder { starts, ends: _ } => 1 <= starts <= s.board.cells@.len(),
        Command::Snake { starts, ends: _ } => 1 <= starts <= s.board.cells@.len(),
        Command::PowerUps { typ: _, cells } => cells_on_board(cells@, s.board.cells@.len() as int),
        Command::Turns(qty) => s.players@.len() == 0 || {
            &&& s.playable()
            &&& s.turn + qty * s.players@.len() <= usize::MAX
        },
    }
}

/// The first player, scanning from position `i`, whose location is at or
/// beyond `size`.
pub open spec fn first_winner(players: Seq<PlayerState>, size: int, i: int) -> Option<int>
    decreases players.len() - i,
{
    if i >= players.len() || i < 0 {
        None
    } else if players[i].loc >= size {
        Some(i)
    } else {
        first_winner(players, size, i + 1)
    }
}

/// The first player other than `skip` standing on cell `loc`, in
/// declaration order.
pub fn find_other_at(players: &Vec<PlayerState>, loc: usize, skip: usize) -> (r: Option<usize>)
    ensures
        match r {
            Some(j) => occupant_from(players@, loc as int, skip as int, 0) == Some(j as int)
                && j < players@.len(),
            None => occupant_from(players@, loc as int, skip as int, 0) is None,
        },
{
    let mut i: usize = 0;
    while i < players.len()
        invariant
            i <= players@.len(),
            occupant_from(players@, loc as int, skip as int, 0) == occupant_from(
                players@,
                loc as int,
                skip as int,
                i as int,
            ),
        decreases players@.len() - i,
    {
        if i != skip && players[i].loc == loc {
            return Some(i);
        }
        i += 1;
    }
    None
}

/// The whole game: board, players, the cyclic dice sequence, and the
/// never-resetting turn counter.
#[derive(Debug, PartialEq, Eq)]
pub struct GameState {
    pub board: BoardConfig,
    pub players: Vec<PlayerState>,
    pub dice: Vec<u8>,
    pub turn: usize,
}

impl Default for GameState {
    /// The zero game: no board, no players, empty dice, turn counter zero.
    fn default() -> (r: Self)
        ensures
            r.board.columns == 0,
            r.board.rows == 0,
            r.board.cells@.len() == 0,
            r.players@.len() == 0,
            r.dice@.len() == 0,
            r.turn == 0,
            r.wf(),
    {
        GameState { board: BoardConfig::new(), players: Vec::new(), dice: Vec::new(), turn: 0 }
    }
}

impl GameState {
    /// The board table matches its geometry and the player count fits the
    /// cap.
    pub open spec fn wf(self) -> bool {
        &&& self.board.wf()
        &&& self.players@.len() <= MAX_PLAYERS
    }

    /// Every player stands on the board.
    pub open spec fn players_on_board(self) -> bool {
        forall|i: int|
            0 <= i < self.players@.len() ==> 1 <= (#[trigger] self.players@[i]).loc
                <= self.board.spec_size()
    }

    /// A state on which turns can be resolved: playable board, at least one
    /// die value, every player on the board.
    pub open spec fn playable(self) -> bool {
        &&& self.wf()
        &&& self.board.playable()
        &&& self.dice@.len() >= 1
        &&& self.players_on_board()
    }

    /// The die value the next player-turn consumes.
    pub open spec fn spec_die(self) -> u8 {
        self.dice@[self.turn as int % self.dice@.len() as int]
    }

    /// The spec's standing assumption that the board produces no bump
    /// loops: the cascade started by this player-turn finishes.
    pub open spec fn turn_terminates(self, who: int) -> bool {
        exists|fuel: nat|
            turn_outcome(self.board.cells@, self.players@, who, self.spec_die(), fuel) is Some
    }

    /// Consume the next die value from the cyclic sequence. The turn
    /// counter advances once per resolved player-turn and never resets, so
    /// die values are consumed in strict round-robin order across all
    /// player-turns combined.
    pub fn roll_dice(&mut self) -> (die: u8)
        requires
            old(self).dice@.len() >= 1,
            old(self).turn < usize::MAX,
        ensures
            die == old(self).spec_die(),
            final(self).turn == old(self).turn + 1,
            final(self).board == old(self).board,
            final(self).players == old(self).players,
            final(self).dice == old(self).dice,
    {
        let die = self.dice[self.turn % self.dice.len()];
        self.turn += 1;
        die
    }

    /// Replace the player collection with `n` fresh players on cell 1,
    /// holding nothing; prior positions and powerups are discarded.
    pub fn set_player_count(&mut self, n: usize)
        requires
            n <= MAX_PLAYERS,
        ensures
            final(self).board == old(self).board,
            final(self).dice == old(self).dice,
            final(self).turn == old(self).turn,
            final(self).players@.len() == n,
            forall|i: int|
                0 <= i < n ==> final(self).players@[i] == (PlayerState {
                    loc: 1,
                    powerup: None,
                }),
    {
        let mut players: Vec<PlayerState> = Vec::new();
        let mut i: usize = 0;
        while i < n
            invariant
                i <= n,
                players@.len() == i,
                forall|j: int|
                    0 <= j < i ==> players@[j] == (PlayerState {
                        loc: 1,
                        powerup: None::<PowerType>,
                    }),
            decreases n - i,
        {
            players.push(PlayerState { loc: 1, powerup: None });
            i += 1;
        }
        self.players = players;
    }

    /// A player has won iff its location is at or beyond the board size.
    /// The winner reported is the first such player, by its letter name.
    pub fn winner(&self) -> (r: Option<char>)
        requires
            self.wf(),
        ensures
            match first_winner(self.players@, self.board.spec_size(), 0) {
                Some(ix) => r == Some(spec_player_name(ix)),
                None => r is None,
            },
    {
        let size = self.board.size();
        let mut i: usize = 0;
        while i < self.players.len()
            invariant
                self.wf(),
                i <= self.players@.len(),
                size == self.board.spec_size(),
                first_winner(self.players@, size as int, 0) == first_winner(
                    self.players@,
                    size as int,
                    i as int,
                ),
            decreases self.players@.len() - i,
        {
            if self.players[i].loc >= size {
                return Some(player_name(i));
            }
            i += 1;
        }
        None
    }

    /// Decide well-formedness: the cell table matches the declared
    /// geometry, within the board cap, and the players fit their cap.
    pub fn check_wf(&self) -> (r: bool)
        ensures
            r == self.wf(),
    {
        let p = match self.board.columns.checked_mul(self.board.rows) {
            Some(p) => p,
            None => {
                return false;
            },
        };
        p <= MAX_CELLS && self.board.cells.len() == p && self.players.len() <= MAX_PLAYERS
    }

    /// Decide playability: a well-formed board whose last cell wins and
    /// whose snakes and ladders stay on the board, at least one die
    /// value, and every player standing on the board.
    pub fn check_playable(&self) -> (r: bool)
        ensures
            r == self.playable(),
    {
        if !self.check_wf() {
            return false;
        }
        let size = self.board.cells.len();
        if size == 0 {
            return false;
        }
        if !matches!(self.board.cells[size - 1], CellProperty::Winning) {
            return false;
        }
        let mut i: usize = 0;
        while i < size
            invariant
                size == self.board.cells@.len(),
                i <= size,
                forall|j: int| 0 <= j < i ==> cell_ok(self.board.cells@, j),
            decreases size - i,
        {
            let ok = match self.board.cells[i] {
                CellProperty::SnakeStart { end } => 1 <= end && end < size,
                CellProperty::LadderStart { end } => i + 1 <= end && end < size,
                _ => true,
            };
            if !ok {
                proof {
                    assert(!cell_ok(self.board.cells@, i as int));
                }
                return false;
            }
            i += 1;
        }
        if self.dice.len() == 0 {
            return false;
        }
        let mut k: usize = 0;
        while k < self.players.len()
            invariant
                self.wf(),
                size == self.board.cells@.len(),
                k <= self.players@.len(),
                forall|j: int|
                    0 <= j < k ==> 1 <= (#[trigger] self.players@[j]).loc
                        <= self.board.spec_size(),
            decreases self.players@.len() - k,
        {
            let loc = self.players[k].loc;
            if loc < 1 || loc > size {
                return false;
            }
            k += 1;
        }
        true
    }

    /// Decide whether every listed cell index lies on this board.
    fn cells_in_range(&self, cells: &Vec<usize>) -> (r: bool)
        ensures
            r == cells_on_board(cells@, self.board.cells@.len() as int),
    {
        let len = self.board.cells.len();
        let mut i: usize = 0;
        while i < cells.len()
            invariant
                i <= cells@.len(),
                len == self.board.cells@.len(),
                forall|j: int| 0 <= j < i ==> 1 <= #[trigger] cells@[j] <= len,
            decreases cells@.len() - i,
        {
            let cix = cells[i];
            if cix < 1 || cix > len {
                return false;
            }
            i += 1;
        }
        true
    }

    /// Decide whether `apply` accepts the command in this state. What is
    /// not decided here — nothing can decide it by inspection — is the
    /// engine's standing assumption that the board produces no bump
    /// loops during play.
    pub fn command_ok(&self, c: &Command) -> (r: bool)
        ensures
            r == (self.wf() && cmd_ok(*self, *c)),
    {
        if !self.check_wf() {
            return false;
        }
        match c {
            Command::Board { columns, rows } => {
                if *columns == 0 || *rows == 0 {
                    proof {
                        assert(*columns * *rows == 0) by (nonlinear_arith)
                            requires
                                *columns == 0 || *rows == 0,
                        ;
                    }
                    false
                } else {
                    let ok = *columns <= MAX_CELLS / *rows;
                    proof {
                        assert(ok == (*columns * *rows <= MAX_CELLS) && *columns * *rows
                            >= 1) by (nonlinear_arith)
                            requires
                                ok == (*columns <= MAX_CELLS / *rows),
                                *rows >= 1,
                                *columns >= 1,
                                MAX_CELLS == 999,
                        ;
                    }
                    ok
                }
            },
            Command::Players(n) => *n <= MAX_PLAYERS,
            Command::Dice(_) => true,
            Command::Ladder { starts, ends: _ } => 1 <= *starts && *starts
                <= self.board.cells.len(),
            Command::Snake { starts, ends: _ } => 1 <= *starts && *starts
                <= self.board.cells.len(),
            Command::PowerUps { typ: _, cells } => self.cells_in_range(cells),
            Command::Turns(qty) => {
                if self.players.len() == 0 {
                    true
                } else if !self.check_playable() {
                    false
                } else {
                    let n = self.players.len();
                    let ok = *qty <= (usize::MAX - self.turn) / n;
                    proof {
                        assert(ok == (self.turn + *qty * n <= usize::MAX)) by (nonlinear_arith)
                            requires
                                ok == (*qty <= ((usize::MAX - self.turn) as usize as int) / (
                                n as int)),
                                n >= 1,
                                self.turn <= usize::MAX,
                        ;
                    }
                    ok
                }
            },
        }
    }

    /// Apply one already-parsed command: setup commands mutate the board,
    /// the player collection or the die sequence; `Turns` plays up to the
    /// requested number of full rounds, stopping the moment any
    /// player-turn reports a win.
    pub fn apply(&mut self, command: Command)
        requires
            old(self).wf(),
            cmd_ok(*old(self), command),
            command matches Command::Turns(qty) ==> old(self).players@.len() == 0 || run_result(
                old(self).board.cells@,
                old(self).dice@,
                old(self).players@,
                old(self).turn as int,
                0,
                (qty * old(self).players@.len()) as nat,
            ) is Some,
        ensures
            final(self).wf(),
            command matches Command::Board { columns, rows } ==> {
                &&& final(self).board.columns == columns
                &&& final(self).board.rows == rows
                &&& final(self).board.cells@.len() == columns * rows
                &&& (forall|i: int|
                    0 <= i < columns * rows - 1 ==> final(self).board.cells@[i] is Plain)
                &&& final(self).board.cells@[columns * rows - 1] is Winning
                &&& final(self).players == old(self).players
                &&& final(self).dice == old(self).dice
                &&& final(self).turn == old(self).turn
            },
            command matches Command::Players(n) ==> {
                &&& final(self).players@.len() == n
                &&& (forall|i: int|
                    0 <= i < n ==> final(self).players@[i] == (PlayerState {
                        loc: 1,
                        powerup: None,
                    }))
                &&& final(self).board == old(self).board
                &&& final(self).dice == old(self).dice
                &&& final(self).turn == old(self).turn
            },
            command matches Command::Dice(ds) ==> {
                &&& final(self).dice@ == ds@
                &&& final(self).board == old(self).board
                &&& final(self).players == old(self).players
                &&& final(self).turn == old(self).turn
            },
            command matches Command::Ladder { starts, ends } ==> {
                &&& final(self).board.cells@ == old(self).board.cells@.update(
                    starts - 1,
                    CellProperty::LadderStart { end: ends },
                )
                &&& final(self).board.columns == old(self).board.columns
                &&& final(self).board.rows == old(self).board.rows
                &&& final(self).players == old(self).players
                &&& final(self).dice == old(self).dice
                &&& final(self).turn == old(self).turn
            },
            command matches Command::Snake { starts, ends } ==> {
                &&& final(self).board.cells@ == old(self).board.cells@.update(
                    starts - 1,
                    CellProperty::SnakeStart { end: ends },
                )
                &&& final(self).board.columns == old(self).board.columns
                &&& final(self).board.rows == old(self).board.rows
                &&& final(self).players == old(self).players
                &&& final(self).dice == old(self).dice
                &&& final(self).turn == old(self).turn
            },
            command matches Command::PowerUps { typ, cells } ==> {
                &&& final(self).board.cells@ == with_powerups(old(self).board.cells@, typ, cells@)
                &&& final(self).board.columns == old(self).board.columns
                &&& final(self).board.rows == old(self).board.rows
                &&& final(self).players == old(self).players
                &&& final(self).dice == old(self).dice
                &&& final(self).turn == old(self).turn
            },
            command matches Command::Turns(qty) ==> {
                &&& final(self).board == old(self).board
                &&& final(self).dice == old(self).dice
                &&& (old(self).players@.len() == 0 ==> *final(self) == *old(self))
                &&& (old(self).players@.len() >= 1 ==> exists|won: bool|
                    run_result(
                        old(self).board.cells@,
                        old(self).dice@,
                        old(self).players@,
                        old(self).turn as int,
                        0,
                        (qty * old(self).players@.len()) as nat,
                    ) == Some((final(self).players@, final(self).turn as int, won)))
            },
    {
        match command {
            Command::Board { columns, rows } => self.board.set_size(columns, rows),
            Command::Players(n) => self.set_player_count(n),
            Command::Dice(ds) => {
                self.dice = ds;
            },
            Command::Ladder { starts, ends } => self.board.set_cell_prop(
                starts,
                CellProperty::LadderStart { end: ends },
            ),
            Command::Snake { starts, ends } => self.board.set_cell_prop(
                starts,
                CellProperty::SnakeStart { end: ends },
            ),
            Command::PowerUps { typ, cells } => {
                let ghost cells0 = self.board.cells@;
                proof {
                    assert(cells@.skip(0) =~= cells@);
                }
                let mut ci: usize = 0;
                while ci < cells.len()
                    invariant
                        ci <= cells@.len(),
                        forall|i: int|
                            0 <= i < cells@.len() ==> 1 <= #[trigger] cells@[i]
                                <= self.board.cells@.len(),
                        self.board.cells@.len() == cells0.len(),
                        self.board.columns == old(self).board.columns,
                        self.board.rows == old(self).board.rows,
                        self.players == old(self).players,
                        self.dice == old(self).dice,
                        self.turn == old(self).turn,
                        old(self).wf(),
                        cells0 == old(self).board.cells@,
                        with_powerups(cells0, typ, cells@) == with_powerups(
                            self.board.cells@,
                            typ,
                            cells@.skip(ci as int),
                        ),
                    decreases cells@.len() - ci,
                {
                    let c = cells[ci];
                    proof {
                        assert(cells@.skip(ci as int)[0] == cells@[ci as int]);
                        assert(cells@.skip(ci as int).drop_first() =~= cells@.skip(ci as int + 1));
                    }
                    self.board.set_cell_prop(c, CellProperty::PowerUp(typ));
                    ci += 1;
                }
                proof {
                    assert(cells@.skip(cells@.len() as int) =~= Seq::<usize>::empty());
                }
            },
            Command::Turns(qty) => {
                let n = self.players.len();
                if n == 0 {
                    return ;
                }
                let ghost s0 = *self;
                let ghost cells = s0.board.cells@;
                let ghost d = s0.dice@;
                let ghost kk = (qty * s0.players@.len()) as nat;
                let mut i: usize = 0;
                while i < qty
                    invariant
                        s0 == *old(self),
                        s0.playable(),
                        n == s0.players@.len(),
                        n >= 1,
                        cells == s0.board.cells@,
                        d == s0.dice@,
                        kk == qty * n,
                        s0.turn + kk <= usize::MAX,
                        command == (Command::Turns(qty)),
                        run_result(cells, d, s0.players@, s0.turn as int, 0, kk) is Some,
                        i <= qty,
                        self.board == s0.board,
                        self.dice == s0.dice,
                        self.players@.len() == n,
                        self.turn == s0.turn + i * n,
                        self.playable(),
                        run_result(cells, d, s0.players@, s0.turn as int, 0, kk) == run_result(
                            cells,
                            d,
                            self.players@,
                            self.turn as int,
                            (i * n) as int,
                            (kk - i * n) as nat,
                        ),
                    decreases qty - i,
                {
                    proof {
                        assert(i * n <= kk && (i + 1) * n <= kk) by (nonlinear_arith)
                            requires
                                kk == qty * n,
                                i < qty,
                                n >= 1,
                        ;
                    }
                    let mut which: usize = 0;
                    while which < n
                        invariant
                            s0 == *old(self),
                            s0.playable(),
                            n == s0.players@.len(),
                            n >= 1,
                            cells == s0.board.cells@,
                            d == s0.dice@,
                            kk == qty * n,
                            s0.turn + kk <= usize::MAX,
                            command == (Command::Turns(qty)),
                            run_result(cells, d, s0.players@, s0.turn as int, 0, kk) is Some,
                            i < qty,
                            which <= n,
                            i * n + which <= kk,
                            (i + 1) * n <= kk,
                            self.board == s0.board,
                            self.dice == s0.dice,
                            self.players@.len() == n,
                            self.turn == s0.turn + i * n + which,
                            self.playable(),
                            run_result(cells, d, s0.players@, s0.turn as int, 0, kk)
                                == run_result(
                                cells,
                                d,
                                self.players@,
                                self.turn as int,
                                (i * n + which) as int,
                                (kk - i * n - which) as nat,
                            ),
                        decreases n - which,
                    {
                        let ghost j = i * n + which;
                        let ghost cur = self.players@;
                        let ghost tcur = self.turn as int;
                        proof {
                            assert(j < kk) by (nonlinear_arith)
                                requires
                                    j == i * n + which,
                                    kk == qty * n,
                                    i < qty,
                                    0 <= which < n,
                            ;
                            assert(j % (n as int) == which) by (nonlinear_arith)
                                requires
                                    j == i * n + which,
                                    0 <= which < n,
                                    i >= 0,
                            ;
                            let rest = run_result(cells, d, cur, tcur, j as int, (kk - j) as nat);
                            assert(rest is Some);
                        }
                        if self.player_turn_wins(which) {
                            proof {
                                assert(turn_taken(
                                    cells,
                                    d,
                                    cur,
                                    tcur,
                                    which as int,
                                    self.players@,
                                    true,
                                ));
                                lemma_run_step(
                                    cells,
                                    d,
                                    cur,
                                    tcur,
                                    j as int,
                                    (kk - j) as nat,
                                    self.players@,
                                    true,
                                );
                                assert(run_result(cells, d, s0.players@, s0.turn as int, 0, kk)
                                    == Some((self.players@, self.turn as int, true)));
                            }
                            return ;
                        }
                        proof {
                            assert(turn_taken(
                                cells,
                                d,
                                cur,
                                tcur,
                                which as int,
                                self.players@,
                                false,
                            ));
                            lemma_run_step(
                                cells,
                                d,
                                cur,
                                tcur,
                                j as int,
                                (kk - j) as nat,
                                self.players@,
                                false,
                            );
                        }
                        which += 1;
                    }
                    proof {
                        assert(i * n + n == (i + 1) * n) by (nonlinear_arith);
                    }
                    i += 1;
                }
            },
        }
    }

    /// Resolve one die roll for player `who`: a held `Double` is consumed
    /// first; a move past the end of the board is rejected; otherwise the
    /// player moves and the bump cascade runs. Reports whether any player
    /// in the cascade won.
    pub fn player_turn_wins(&mut self, who: usize) -> (win: bool)
        requires
            old(self).playable(),
            who < old(self).players@.len(),
            old(self).turn < usize::MAX,
            old(self).turn_terminates(who as int),
        ensures
            final(self).board == old(self).board,
            final(self).dice == old(self).dice,
            final(self).turn == old(self).turn + 1,
            final(self).players@.len() == old(self).players@.len(),
            final(self).playable(),
            exists|fuel: nat|
                turn_outcome(
                    old(self).board.cells@,
                    old(self).players@,
                    who as int,
                    old(self).spec_die(),
                    fuel,
                ) == Some((final(self).players@, win)),
    {
        let ghost s0 = *self;
        let ghost cells = s0.board.cells@;
        let die = self.roll_dice();
        let mut p = self.players[who];
        let delta = p.use_double(die);
        self.players.set(who, p);
        let ghost d0 = effective_delta(s0.players@[who as int], die);
        let ghost ps1 = self.players@;

        proof {
            assert(ps1 =~= s0.players@.update(who as int, after_double(s0.players@[who as int])));
            assert(1 <= s0.players@[who as int].loc <= s0.board.spec_size());
        }
        if p.loc + delta > self.board.size() {
            proof {
                assert(turn_outcome(cells, s0.players@, who as int, die, 0) == Some((
                    self.players@,
                    false,
                )));
            }
            return false;
        }
        let ghost mut fuel_rem: nat = choose|f: nat| chain(cells, ps1, who as int, d0, f) is Some;
        proof {
            let f0 = choose|f: nat|
                turn_outcome(cells, s0.players@, who as int, die, f) is Some;
            assert(turn_outcome(cells, s0.players@, who as int, die, f0) is Some);
            assert(chain(cells, ps1, who as int, d0, f0) is Some);
            assert(chain(cells, ps1, who as int, d0, fuel_rem) is Some);
        }

        let mut current = who;
        let mut delta = delta;
        loop
            invariant_except_break
                1 <= self.players@[current as int].loc,
                self.players@[current as int].loc + delta <= self.board.cells@.len(),
                delta <= 510,
                chain(cells, self.players@, current as int, delta as int, fuel_rem) is Some,
                forall|f: nat, ps: Seq<PlayerState>, w: bool|
                    chain(cells, self.players@, current as int, delta as int, f) == Some((ps, w))
                        ==> exists|f2: nat| chain(cells, ps1, who as int, d0, f2) == Some((ps, w)),
            invariant
                s0 == *old(self),
                s0.playable(),
                who < s0.players@.len(),
                cells == s0.board.cells@,
                die == s0.spec_die(),
                d0 == effective_delta(s0.players@[who as int], die),
                ps1 == s0.players@.update(who as int, after_double(s0.players@[who as int])),
                s0.players@[who as int].loc + d0 <= cells.len(),
                self.board == s0.board,
                self.dice == s0.dice,
                self.turn == s0.turn + 1,
                self.players@.len() == s0.players@.len(),
                self.players_on_board(),
                current < self.players@.len(),
            ensures
                exists|f2: nat| chain(cells, ps1, who as int, d0, f2) == Some((self.players@, false)),
            decreases fuel_rem,
        {
            let ghost pre = self.players@;
            let ghost cur0 = current as int;
            let ghost dl0 = delta as int;

            let mut mover = self.players[current];
            let win = self.board.move_wins(&mut mover, delta);
            self.players.set(current, mover);

            proof {
                lemma_landing_range(cells, pre[cur0].loc as int, pre[cur0].powerup, dl0);
            }
            if win {
                proof {
                    assert(chain(cells, pre, cur0, dl0, 1) == Some((self.players@, true)));
                    let f2 = choose|f2: nat|
                        chain(cells, ps1, who as int, d0, f2) == Some((self.players@, true));
                    assert(turn_outcome(cells, s0.players@, who as int, die, f2) == Some((
                        self.players@,
                        true,
                    )));
                    assert(turn_outcome(
                        old(self).board.cells@,
                        old(self).players@,
                        who as int,
                        old(self).spec_die(),
                        f2,
                    ) == Some((self.players@, true)));
                }
                return true;
            }
            let land = mover.loc;
            match find_other_at(&self.players, land, current) {
                Some(j) => {
                    proof {
                        let ps2 = self.players@;
                        lemma_occupant_found(ps2, land as int, cur0, 0);
                        assert(chain(cells, pre, cur0, dl0, fuel_rem) == chain(
                            cells,
                            ps2,
                            j as int,
                            1,
                            (fuel_rem - 1) as nat,
                        ));
                        assert forall|f: nat, ps: Seq<PlayerState>, w: bool|
                            chain(cells, ps2, j as int, 1, f) == Some((ps, w)) implies exists|
                            f2: nat,
                        | chain(cells, ps1, who as int, d0, f2) == Some((ps, w)) by {
                            assert(chain(cells, pre, cur0, dl0, f + 1) == Some((ps, w)));
                        }
                        fuel_rem = (fuel_rem - 1) as nat;
                    }
                    current = j;
                    delta = 1;
                },
                None => {
                    proof {
                        assert(chain(cells, pre, cur0, dl0, 1) == Some((self.players@, false)));
                    }
                    break;
                },
            }
        }
        proof {
            let f2 = choose|f2: nat|
                chain(cells, ps1, who as int, d0, f2) == Some((self.players@, false));
            assert(turn_outcome(cells, s0.players@, who as int, die, f2) == Some((
                self.players@,
                false,
            )));
            assert(turn_outcome(
                old(self).board.cells@,
                old(self).players@,
                who as int,
                old(self).spec_die(),
                f2,
            ) == Some((self.players@, false)));
        }
        false
    }
}

} // verus!
