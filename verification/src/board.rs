//! Board geometry, per-cell properties, and the resolution of one landing.

use vstd::prelude::*;
use crate::power::PowerType;
use crate::player::PlayerState;

verus! {

/// The board may not hold more than 999 cells.
pub const MAX_CELLS: usize = 999;

/// What a cell does to a player landing on it. Exactly one property per
/// cell; the end of a snake or ladder may itself carry a property, but it
/// is not re-evaluated when a player is carried there.
#[derive(Clone, Copy, Debug, PartialEq, Eq)]
pub enum CellProperty {
    /// No effect.
    Plain,
    /// Landing here relocates the player to `end` (below the start, by
    /// convention).
    SnakeStart { end: usize },
    /// Landing here relocates the player to `end` (above the start, by
    /// convention).
    LadderStart { end: usize },
    /// Landing here grants the powerup, overwriting any held one.
    PowerUp(PowerType),
    /// The last cell; landing here by any means wins.
    Winning,
}

impl CellProperty {
    /// The two-character label of this cell in the rendered board.
    pub open spec fn spec_label(self) -> Seq<char> {
        match self {
            CellProperty::Plain => seq![' ', ' '],
            CellProperty::SnakeStart { .. } => seq![' ', 'S'],
            CellProperty::LadderStart { .. } => seq![' ', 'L'],
            CellProperty::PowerUp(pt) => seq![pt.spec_label(), ' '],
            CellProperty::Winning => seq![' ', ' '],
        }
    }

    /// Render the cell's two-character label.
    pub fn label(&self) -> (r: String)
        ensures
            r@ =~= self.spec_label(),
    {
        proof {
            reveal_strlit("  ");
            reveal_strlit(" S");
            reveal_strlit(" L");
            reveal_strlit(" ");
        }
        match self {
            CellProperty::Plain => String::from_str("  "),
            CellProperty::SnakeStart { .. } => String::from_str(" S"),
            CellProperty::LadderStart { .. } => String::from_str(" L"),
            CellProperty::PowerUp(pt) => pt.label().concat(" "),
            CellProperty::Winning => String::from_str("  "),
        }
    }
}

/// A cell's property is consistent with the board: snake and ladder ends
/// lie on the board and below the winning cell, and a ladder never goes
/// down (cell `i` is 0-based here, so its 1-based index is `i + 1`).
pub open spec fn cell_ok(cells: Seq<CellProperty>, i: int) -> bool {
    match cells[i] {
        CellProperty::SnakeStart { end } => 1 <= end < cells.len(),
        CellProperty::LadderStart { end } => i + 1 <= end < cells.len(),
        _ => true,
    }
}

/// The full outcome of one landing: where the player ends up, what they
/// then hold, and whether they won. `loc` is the position before the move
/// and `delta` the distance moved; the landing cell is `loc + delta`.
pub open spec fn landing(
    cells: Seq<CellProperty>,
    loc: int,
    pu: Option<PowerType>,
    delta: int,
) -> (int, Option<PowerType>, bool) {
    let land = loc + delta;
    match cells[land - 1] {
        CellProperty::Plain => (land, pu, false),
        CellProperty::Winning => (land, pu, true),
        CellProperty::SnakeStart { end } => if pu == Some(PowerType::Antivenom) {
            (land, None, false)
        } else {
            (end as int, pu, false)
        },
        CellProperty::LadderStart { end } => if pu == Some(PowerType::Escalator) {
            if land + 2 * (end - land) >= cells.len() {
                (cells.len() as int, None, true)
            } else {
                (land + 2 * (end - land), None, false)
            }
        } else {
            (end as int, pu, false)
        },
        CellProperty::PowerUp(pt) => (land, Some(pt), false),
    }
}

/// The board: its geometry and the property of each cell, kept in a table
/// indexed by cell number minus one.
#[derive(Debug, PartialEq, Eq)]
pub struct BoardConfig {
    pub columns: usize,
    pub rows: usize,
    pub cells: Vec<CellProperty>,
}

impl BoardConfig {
    /// The cell table matches the declared geometry and fits the cap.
    pub open spec fn wf(self) -> bool {
        &&& self.cells@.len() == self.columns * self.rows
        &&& self.columns * self.rows <= MAX_CELLS
    }

    /// The number of cells; reaching it wins.
    pub open spec fn spec_size(self) -> int {
        self.columns * self.rows
    }

    /// A board on which turns can be resolved: it has cells, its last cell
    /// is the winning one, and every snake or ladder stays on the board.
    pub open spec fn playable(self) -> bool {
        &&& self.wf()
        &&& self.cells@.len() >= 1
        &&& self.cells@.last() is Winning
        &&& forall|i: int| 0 <= i < self.cells@.len() ==> cell_ok(self.cells@, i)
    }

    /// An empty, unconfigured board.
    pub fn new() -> (r: Self)
        ensures
            r.columns == 0,
            r.rows == 0,
            r.cells@.len() == 0,
            r.wf(),
    {
        BoardConfig { columns: 0, rows: 0, cells: Vec::new() }
    }

    /// (Re)initialize the board to `columns` x `rows` plain cells, with the
    /// last cell winning. Any prior cell customization is discarded.
    pub fn set_size(&mut self, columns: usize, rows: usize)
        requires
            1 <= columns * rows <= MAX_CELLS,
        ensures
            final(self).columns == columns,
            final(self).rows == rows,
            final(self).cells@.len() == columns * rows,
            forall|i: int| 0 <= i < columns * rows - 1 ==> final(self).cells@[i] is Plain,
            final(self).cells@[columns * rows - 1] is Winning,
            final(self).wf(),
            final(self).playable(),
    {
        let qty = columns * rows;
        self.columns = columns;
        self.rows = rows;
        let mut cells: Vec<CellProperty> = Vec::new();
        let mut i: usize = 0;
        while i < qty
            invariant
                i <= qty,
                cells@.len() == i,
                forall|j: int| 0 <= j < i ==> cells@[j] is Plain,
            decreases qty - i,
        {
            cells.push(CellProperty::Plain);
            i += 1;
        }
        cells.set(qty - 1, CellProperty::Winning);
        self.cells = cells;
    }

    /// The winning threshold: columns times rows.
    pub fn size(&self) -> (r: usize)
        requires
            self.wf(),
        ensures
            r == self.spec_size(),
    {
        self.columns * self.rows
    }

    /// Overwrite the property of the cell with 1-based index `ix`.
    pub fn set_cell_prop(&mut self, ix: usize, cp: CellProperty)
        requires
            1 <= ix <= old(self).cells@.len(),
        ensures
            final(self).columns == old(self).columns,
            final(self).rows == old(self).rows,
            final(self).cells@ == old(self).cells@.update(ix - 1, cp),
    {
        self.cells.set(ix - 1, cp)
    }

    /// The boustrophedon cell number of the given 1-based row and column:
    /// odd rows count left to right, even rows right to left.
    pub open spec fn spec_back_and_forth(self, row: int, column: int) -> int {
        (row - 1) * self.columns + (
            if row % 2 == 1 {
                column
            } else {
                self.columns - column + 1
            }
        )
    }

    /// Map a 1-based row and column to the boustrophedon cell number; used
    /// only for rendering, never for gameplay.
    pub fn back_and_forth(&self, row: usize, column: usize) -> (ix: usize)
        requires
            self.wf(),
            1 <= row <= self.rows,
            1 <= column <= self.columns,
        ensures
            ix == self.spec_back_and_forth(row as int, column as int),
            1 <= ix <= self.spec_size(),
    {
        proof {
            lemma_back_and_forth_range(
                self.columns as int,
                self.rows as int,
                row as int,
                column as int,
            );
        }
        (row - 1) * self.columns + (
            if row % 2 == 1 {
                column
            } else {
                self.columns - column + 1
            }
        )
    }

    /// Resolve one landing of `player`, `delta` cells forward: apply the
    /// landing cell's effect and report whether the player won.
    pub fn move_wins(&self, player: &mut PlayerState, delta: usize) -> (win: bool)
        requires
            self.playable(),
            1 <= old(player).loc,
            old(player).loc + delta <= self.cells@.len(),
        ensures
            ({
                let r = landing(self.cells@, old(player).loc as int, old(player).powerup,
                    delta as int);
                &&& final(player).loc == r.0
                &&& final(player).powerup == r.1
                &&& win == r.2
            }),
    {
        let cell_qty = self.cells.len();
        player.go(player.loc + delta);
        let cell = self.cells[player.loc - 1];

        proof {
            assert(cell_ok(self.cells@, player.loc - 1));
        }
        let mut win = false;
        match cell {
            CellProperty::Plain => {},
            CellProperty::Winning => {
                win = true;
            },
            CellProperty::SnakeStart { end } => {
                if matches!(player.powerup, Some(PowerType::Antivenom)) {
                    player.use_antivenom();
                } else {
                    player.go(end);
                }
            },
            CellProperty::LadderStart { end } => {
                if matches!(player.powerup, Some(PowerType::Escalator)) {
                    player.use_escalator(end);
                    if player.loc >= cell_qty {
                        win = true;
                        player.go(cell_qty);
                    }
                } else {
                    player.go(end);
                }
            },
            CellProperty::PowerUp(pt) => {
                player.set_powerup(pt);
            },
        }
        win
    }
}

/// The boustrophedon number of an on-board coordinate lies on the board.
proof fn lemma_back_and_forth_range(columns: int, rows: int, row: int, column: int)
    requires
        1 <= row <= rows,
        1 <= column <= columns,
    ensures
        ({
            let ix = (row - 1) * columns + (
                if row % 2 == 1 {
                    column
                } else {
                    columns - column + 1
                }
            );
            1 <= ix <= columns * rows
        }),
{
    let inner = if row % 2 == 1 {
        column
    } else {
        columns - column + 1
    };
    assert(1 <= inner <= columns);
    assert((row - 1) * columns + inner >= 1) by (nonlinear_arith)
        requires
            1 <= row,
            1 <= inner,
            columns >= 1,
    ;
    assert((row - 1) * columns + inner <= columns * rows) by (nonlinear_arith)
        requires
            row <= rows,
            inner <= columns,
            columns >= 1,
    ;
}

/// On a playable board, a landing from an on-board position stays on the
/// board: a winner ends within the board, and anyone else ends strictly
/// below the winning cell.
pub proof fn lemma_landing_range(
    cells: Seq<CellProperty>,
    loc: int,
    pu: Option<PowerType>,
    delta: int,
)
    requires
        cells.len() >= 1,
        cells.last() is Winning,
        forall|i: int| 0 <= i < cells.len() ==> cell_ok(cells, i),
        1 <= loc,
        0 <= delta,
        loc + delta <= cells.len(),
    ensures
        ({
            let r = landing(cells, loc, pu, delta);
            &&& 1 <= r.0 <= cells.len()
            &&& (!r.2 ==> r.0 < cells.len())
        }),
{
    let land = loc + delta;
    assert(cell_ok(cells, land - 1));
    if land == cells.len() {
        assert(cells[land - 1] is Winning);
    }
}

} // verus!
