//! Rendering the game as text: a bordered grid of two-line cells, rows
//! printed top to bottom, preceded by a winner line once the game is won.

use vstd::prelude::*;
use crate::board::{BoardConfig, MAX_CELLS};
use crate::game::{GameState, first_winner, occupant_from};
use crate::player::spec_player_name;

verus! {

/// Relies on String::push: appends exactly the one character.
#[verifier::external_body]
fn push_char(s: &mut String, c: char)
    ensures
        final(s)@ == old(s)@.push(c),
{
    s.push(c)
}

/// The digit character for `d` in 0 to 9.
pub open spec fn digit_char(d: int) -> char {
    ((48 + d) as u8) as char
}

/// A cell index up to 999, right-justified in a three-character field.
pub open spec fn num3(ix: int) -> Seq<char> {
    if ix < 10 {
        seq![' ', ' ', digit_char(ix)]
    } else if ix < 100 {
        seq![' ', digit_char(ix / 10), digit_char(ix % 10)]
    } else {
        seq![digit_char(ix / 100), digit_char((ix / 10) % 10), digit_char(ix % 10)]
    }
}

/// The border drawn before, between and after rows: one `+---` per
/// column, closed by a final `+`.
pub open spec fn border_row(columns: int) -> Seq<char>
    decreases columns,
{
    if columns <= 0 {
        seq!['+']
    } else {
        seq!['+', '-', '-', '-'] + border_row(columns - 1)
    }
}

/// A cell's second rendered line: the letter of the player standing on it
/// (the first such player, in declaration order) or a blank, then the
/// cell's two-character property label.
pub open spec fn second_line_cell(s: GameState, ix: int) -> Seq<char> {
    let occ = match occupant_from(s.players@, ix, s.players@.len() as int, 0) {
        Some(j) => spec_player_name(j),
        None => ' ',
    };
    seq![occ] + s.board.cells@[ix - 1].spec_label()
}

/// A row's first line: a `|` before each cell's right-justified index.
pub open spec fn row_first_line(s: GameState, row: int, col: int) -> Seq<char>
    decreases col,
{
    if col <= 0 {
        Seq::empty()
    } else {
        row_first_line(s, row, col - 1) + seq!['|'] + num3(
            s.board.spec_back_and_forth(row, col),
        )
    }
}

/// A row's second line: a `|` before each cell's occupant and label.
pub open spec fn row_second_line(s: GameState, row: int, col: int) -> Seq<char>
    decreases col,
{
    if col <= 0 {
        Seq::empty()
    } else {
        row_second_line(s, row, col - 1) + seq!['|'] + second_line_cell(
            s,
            s.board.spec_back_and_forth(row, col),
        )
    }
}

/// The grid from row `row` down to row 1, rows printed top to bottom:
/// each row is its two closed lines followed by a border line, every line
/// preceded by a newline.
pub open spec fn grid_rows(s: GameState, row: int) -> Seq<char>
    decreases row,
{
    if row <= 0 {
        Seq::empty()
    } else {
        seq!['\n'] + row_first_line(s, row, s.board.columns as int) + seq!['|'] + seq!['\n']
            + row_second_line(s, row, s.board.columns as int) + seq!['|'] + seq!['\n']
            + border_row(s.board.columns as int) + grid_rows(s, row - 1)
    }
}

/// The line announcing the winner, empty while nobody has won.
pub open spec fn winner_line(s: GameState) -> Seq<char> {
    match first_winner(s.players@, s.board.spec_size(), 0) {
        Some(j) => "Player "@ + seq![spec_player_name(j)] + " won"@ + seq!['\n'],
        None => Seq::empty(),
    }
}

/// The full rendering: the winner line once a player has won, then the
/// bordered grid, rows top to bottom.
pub open spec fn print_view(s: GameState) -> Seq<char> {
    winner_line(s) + border_row(s.board.columns as int) + grid_rows(s, s.board.rows as int)
}

/// The one digit character for `d`.
fn digit(d: usize) -> (c: char)
    requires
        d < 10,
    ensures
        c == digit_char(d as int),
{
    (48 + d as u8) as char
}

impl BoardConfig {
    /// The border line drawn between rows: `+---` repeated per column,
    /// closed by `+`.
    pub fn between_rows(&self) -> (r: String)
        ensures
            r@ == border_row(self.columns as int),
    {
        proof {
            reveal_strlit("+---");
        }
        let mut s = String::new();
        let mut i: usize = 0;
        while i < self.columns
            invariant
                i <= self.columns,
                border_row(self.columns as int) =~= s@ + border_row(self.columns - i),
            decreases self.columns - i,
        {
            s.append("+---");
            proof {
                reveal_strlit("+---");
                assert("+---"@ =~= seq!['+', '-', '-', '-']);
                assert(border_row(self.columns - i) =~= seq!['+', '-', '-', '-'] + border_row(
                    self.columns - (i + 1),
                ));
                assert(border_row(self.columns as int) =~= s@ + border_row(self.columns - (i + 1)));
            }
            i += 1;
        }
        push_char(&mut s, '+');
        proof {
            assert(s@ =~= border_row(self.columns as int));
        }
        s
    }

    /// The separator drawn between columns.
    pub fn between_columns() -> (c: char)
        ensures
            c == '|',
    {
        '|'
    }

    /// A cell's first rendered line: its 1-based index, right-justified
    /// in a three-character field.
    pub fn cell_first_line(ix: usize) -> (r: String)
        requires
            ix <= MAX_CELLS,
        ensures
            r@ == num3(ix as int),
    {
        let mut s = String::new();
        if ix < 10 {
            push_char(&mut s, ' ');
            push_char(&mut s, ' ');
            push_char(&mut s, digit(ix));
        } else if ix < 100 {
            push_char(&mut s, ' ');
            push_char(&mut s, digit(ix / 10));
            push_char(&mut s, digit(ix % 10));
        } else {
            proof {
                assert(ix / 100 < 10) by (nonlinear_arith)
                    requires
                        ix < 1000,
                ;
                assert((ix as int / 10) % 10 < 10) by (nonlinear_arith);
            }
            push_char(&mut s, digit(ix / 100));
            push_char(&mut s, digit((ix / 10) % 10));
            push_char(&mut s, digit(ix % 10));
        }
        proof {
            assert(s@ =~= num3(ix as int));
        }
        s
    }
}

impl GameState {
    /// A cell's second rendered line: the occupying player's letter or a
    /// blank, then the cell's property label.
    pub fn cell_second_line(&self, ix: usize) -> (r: String)
        requires
            self.wf(),
            1 <= ix <= self.board.cells@.len(),
        ensures
            r@ == second_line_cell(*self, ix as int),
    {
        let mut s = String::new();
        match crate::game::find_other_at(&self.players, ix, self.players.len()) {
            Some(j) => {
                proof {
                    crate::game::lemma_occupant_found(
                        self.players@,
                        ix as int,
                        self.players@.len() as int,
                        0,
                    );
                }
                push_char(&mut s, crate::player::player_name(j));
            },
            None => {
                push_char(&mut s, ' ');
            },
        }
        let label = self.board.cells[ix - 1].label();
        s.append(label.as_str());
        proof {
            assert(s@ =~= second_line_cell(*self, ix as int));
        }
        s
    }

    /// Format the whole game as text: the winner line once a player has
    /// won, then the bordered grid, rows top to bottom, columns snaking
    /// back and forth so ascending cell indices climb the board.
    pub fn print(&self) -> (r: String)
        requires
            self.wf(),
        ensures
            r@ == print_view(*self),
    {
        proof {
            reveal_strlit("Player ");
            reveal_strlit(" won");
        }
        let mut out = String::new();
        if let Some(which) = self.winner() {
            out.append("Player ");
            push_char(&mut out, which);
            out.append(" won");
            push_char(&mut out, '\n');
        }
        proof {
            assert(out@ =~= winner_line(*self));
        }
        let border = self.board.between_rows();
        out.append(border.as_str());
        let ghost whole = print_view(*self);
        proof {
            assert(grid_rows(*self, 0) =~= Seq::<char>::empty());
            assert(out@ + grid_rows(*self, self.board.rows as int) =~= whole);
        }
        let mut row = self.board.rows;
        while row >= 1
            invariant
                self.wf(),
                row <= self.board.rows,
                border@ == border_row(self.board.columns as int),
                whole == print_view(*self),
                out@ + grid_rows(*self, row as int) =~= whole,
            decreases row,
        {
            proof {
                assert(self.board.columns <= MAX_CELLS) by (nonlinear_arith)
                    requires
                        self.board.columns * self.board.rows <= MAX_CELLS,
                        self.board.rows >= 1,
                ;
            }
            let ghost out_row = out@;
            push_char(&mut out, '\n');
            let ghost base1 = out@;
            let mut column: usize = 1;
            while column <= self.board.columns
                invariant
                    self.wf(),
                    self.board.columns <= MAX_CELLS,
                    1 <= row <= self.board.rows,
                    1 <= column <= self.board.columns + 1,
                    out@ =~= base1 + row_first_line(*self, row as int, column - 1),
                decreases self.board.columns + 1 - column,
            {
                push_char(&mut out, '|');
                let ix = self.board.back_and_forth(row, column);
                let f = BoardConfig::cell_first_line(ix);
                out.append(f.as_str());
                proof {
                    assert(out@ =~= base1 + row_first_line(*self, row as int, column as int));
                }
                column += 1;
            }
            push_char(&mut out, '|');
            push_char(&mut out, '\n');
            let ghost base2 = out@;
            let mut column: usize = 1;
            while column <= self.board.columns
                invariant
                    self.wf(),
                    self.board.columns <= MAX_CELLS,
                    1 <= row <= self.board.rows,
                    1 <= column <= self.board.columns + 1,
                    out@ =~= base2 + row_second_line(*self, row as int, column - 1),
                decreases self.board.columns + 1 - column,
            {
                push_char(&mut out, '|');
                let ix = self.board.back_and_forth(row, column);
                let sl = self.cell_second_line(ix);
                out.append(sl.as_str());
                proof {
                    assert(out@ =~= base2 + row_second_line(*self, row as int, column as int));
                }
                column += 1;
            }
            push_char(&mut out, '|');
            push_char(&mut out, '\n');
            out.append(border.as_str());
            proof {
                assert(out@ =~= out_row + (seq!['\n'] + row_first_line(
                    *self,
                    row as int,
                    self.board.columns as int,
                ) + seq!['|'] + seq!['\n'] + row_second_line(
                    *self,
                    row as int,
                    self.board.columns as int,
                ) + seq!['|'] + seq!['\n'] + border_row(self.board.columns as int)));
                assert(out@ + grid_rows(*self, row - 1) =~= out_row + grid_rows(
                    *self,
                    row as int,
                ));
            }
            row -= 1;
        }
        proof {
            assert(grid_rows(*self, 0) =~= Seq::<char>::empty());
            assert(out@ =~= whole);
        }
        out
    }
}

} // verus!
