//! The rule engine: game state, move application, and win detection.
use vstd::prelude::*;

use crate::board::{
    board_count, board_empty, board_wf, col_full, gravity, has_win, in_bounds, is_direction,
    is_drop_row, win_at, lemma_empty_board_gravity, lemma_gravity_after_drop, lemma_board_count_update, lemma_empty_board_counts_zero, lemma_empty_board_no_win,
    lemma_win_needs_changed_cell, lemma_win_needs_four_marks, Player, BOARD_CELLS, BOARD_HEIGHT,
    BOARD_WIDTH,
};

verus! {

/// Why a move was rejected. A rejected move never changes the game state.
#[derive(Clone, Copy, Debug, PartialEq, Eq, Structural)]
pub enum MoveError {
    /// The game has already ended.
    GameFinished,
    /// The column index lies outside the board.
    InvalidColumn,
    /// The chosen column has no empty cell left.
    ColumnFull,
}

impl MoveError {
    /// A human-readable description of the error.
    pub fn message(&self) -> (s: &'static str)
        ensures
            *self == MoveError::GameFinished ==> s@ == "Game is already finished"@,
            *self == MoveError::InvalidColumn ==> s@ == "Invalid column"@,
            *self == MoveError::ColumnFull ==> s@ == "Column is full"@,
    {
        match self {
            MoveError::GameFinished => "Game is already finished",
            MoveError::InvalidColumn => "Invalid column",
            MoveError::ColumnFull => "Column is full",
        }
    }
}

/// The authoritative state of one game.
pub struct Game {
    /// How many moves have been accepted so far.
    pub CurrentMove: u8,
    /// Whose turn it is. Never `Empty`.
    pub CurrentPlayer: Player,
    /// The grid, row 0 at the top; gravity pulls pieces toward row 5.
    pub Board: Vec<Vec<Player>>,
    /// Whether the game has ended, by a win or by a full board.
    pub IsFinished: bool,
    /// The winning player, or `Empty` while unfinished or after a draw.
    pub Winner: Player,
}

impl Game {
    /// The grid as a mathematical sequence of rows.
    pub open spec fn board(self) -> Seq<Seq<Player>> {
        Seq::new(self.Board@.len(), |r: int| self.Board@[r]@)
    }

    /// The grid has its fixed dimensions.
    pub open spec fn wf(self) -> bool {
        &&& self.Board@.len() == BOARD_HEIGHT as int
        &&& forall|r: int|
            0 <= r < BOARD_HEIGHT as int ==> (#[trigger] self.Board@[r])@.len()
                == BOARD_WIDTH as int
    }

    /// Everything that holds of a reachable game state:
    /// - the grid has its fixed dimensions;
    /// - the move count never exceeds the number of cells;
    /// - the turn always belongs to a real player;
    /// - the game is finished exactly when a four-in-a-row exists or the
    ///   board is full;
    /// - the recorded winner is exactly the player with a four-in-a-row,
    ///   and `Empty` when there is none;
    /// - while the game is running, the turn alternates with the move count,
    ///   starting with player one;
    /// - each player's mark count matches their share of the moves made;
    /// - gravity holds: no mark floats above an empty cell.
    pub open spec fn inv(self) -> bool {
        &&& self.wf()
        &&& self.CurrentMove as int <= BOARD_CELLS as int
        &&& self.CurrentPlayer != Player::Empty
        &&& (self.IsFinished <==> (has_win(self.board(), Player::One) || has_win(
            self.board(),
            Player::Two,
        ) || self.CurrentMove as int == BOARD_CELLS as int))
        &&& (self.Winner != Player::Empty ==> has_win(self.board(), self.Winner))
        &&& (has_win(self.board(), Player::One) ==> self.Winner == Player::One)
        &&& (has_win(self.board(), Player::Two) ==> self.Winner == Player::Two)
        &&& (!self.IsFinished ==> (self.CurrentPlayer == Player::One <==> self.CurrentMove as int
            % 2 == 0))
        &&& board_count(self.board(), Player::One) == (self.CurrentMove as int + 1) / 2
        &&& board_count(self.board(), Player::Two) == self.CurrentMove as int / 2
        &&& gravity(self.board())
    }

    /// Starts a fresh game: an empty board, no moves made, player one to
    /// move, not finished, no winner.
    pub fn new() -> (g: Game)
        ensures
            g.inv(),
            g.CurrentMove == 0,
            g.CurrentPlayer == Player::One,
            !g.IsFinished,
            g.Winner == Player::Empty,
            board_empty(g.board()),
    {
        let mut grid: Vec<Vec<Player>> = Vec::new();
        let mut r: usize = 0;
        while r < BOARD_HEIGHT
            invariant
                r <= BOARD_HEIGHT,
                grid@.len() == r as int,
                forall|i: int| 0 <= i < r as int ==> (#[trigger] grid@[i])@.len() == BOARD_WIDTH as int,
                forall|i: int, j: int|
                    0 <= i < r as int && 0 <= j < BOARD_WIDTH as int ==> #[trigger] grid@[i]@[j]
                        == Player::Empty,
            decreases BOARD_HEIGHT - r,
        {
            let mut row: Vec<Player> = Vec::new();
            let mut c: usize = 0;
            while c < BOARD_WIDTH
                invariant
                    c <= BOARD_WIDTH,
                    row@.len() == c as int,
                    forall|j: int| 0 <= j < c as int ==> #[trigger] row@[j] == Player::Empty,
                decreases BOARD_WIDTH - c,
            {
                row.push(Player::Empty);
                c += 1;
            }
            grid.push(row);
            r += 1;
        }
        let g = Game {
            CurrentMove: 0,
            CurrentPlayer: Player::One,
            Board: grid,
            IsFinished: false,
            Winner: Player::Empty,
        };
        proof {
            assert(board_empty(g.board()));
            lemma_wf_board(g);
            lemma_empty_board_no_win(g.board(), Player::One);
            lemma_empty_board_no_win(g.board(), Player::Two);
            lemma_empty_board_counts_zero(g.board(), Player::One);
            lemma_empty_board_counts_zero(g.board(), Player::Two);
            lemma_empty_board_gravity(g.board());
        }
        g
    }

    /// The lowest empty row of `column`, or `None` when the column is full.
    #[verifier::loop_isolation(false)]
    fn lowest_empty_row(&self, column: usize) -> (res: Option<usize>)
        requires
            self.wf(),
            column < BOARD_WIDTH,
        ensures
            match res {
                Some(r) => is_drop_row(self.board(), column as int, r as int),
                None => col_full(self.board(), column as int),
            },
    {
        let mut r: usize = BOARD_HEIGHT;
        while r > 0
            invariant
                r <= BOARD_HEIGHT,
                forall|r2: int|
                    r as int <= r2 < BOARD_HEIGHT as int ==> #[trigger] self.board()[r2][column as int]
                        != Player::Empty,
            decreases r,
        {
            r = r - 1;
            if self.Board[r][column] == Player::Empty {
                return Some(r);
            }
        }
        None
    }

    /// Scans one direction: walks every origin cell and looks for four equal
    /// non-empty marks stepping by `dr` rows and `dc_plus_one - 1` columns.
    /// The column step arrives shifted by one so that the whole walk stays in
    /// unsigned arithmetic. Returns the mark found, or `Empty` when that
    /// direction holds no four-in-a-row anywhere.
    #[verifier::loop_isolation(false)]
    fn scan_direction(&self, dr: usize, dc_plus_one: usize) -> (w: Player)
        requires
            self.wf(),
            dr <= 1,
            dc_plus_one <= 2,
            dr == 1 || dc_plus_one == 2,
        ensures
            w != Player::Empty ==> has_win(self.board(), w),
            w == Player::Empty && dr == 0 && dc_plus_one == 2 ==> forall|p: Player, r: int, c: int|
                p != Player::Empty ==> !#[trigger] win_at(self.board(), p, r, c, 0, 1),
            w == Player::Empty && dr == 1 && dc_plus_one == 1 ==> forall|p: Player, r: int, c: int|
                p != Player::Empty ==> !#[trigger] win_at(self.board(), p, r, c, 1, 0),
            w == Player::Empty && dr == 1 && dc_plus_one == 2 ==> forall|p: Player, r: int, c: int|
                p != Player::Empty ==> !#[trigger] win_at(self.board(), p, r, c, 1, 1),
            w == Player::Empty && dr == 1 && dc_plus_one == 0 ==> forall|p: Player, r: int, c: int|
                p != Player::Empty ==> !#[trigger] win_at(self.board(), p, r, c, 1, -1),
    {
        let ghost sdr: int = dr as int;
        let ghost sdc: int = dc_plus_one as int - 1;
        let mut r: usize = 0;
        while r < BOARD_HEIGHT
            invariant
                r <= BOARD_HEIGHT,
                forall|p: Player, r2: int, c2: int|
                    p != Player::Empty && r2 < r as int ==> !win_at(self.board(), p, r2, c2, sdr, sdc),
            decreases BOARD_HEIGHT - r,
        {
            let mut c: usize = 0;
            while c < BOARD_WIDTH
                invariant
                    c <= BOARD_WIDTH,
                    r < BOARD_HEIGHT,
                    forall|p: Player, r2: int, c2: int|
                        p != Player::Empty && r2 < r as int ==> !win_at(
                            self.board(),
                            p,
                            r2,
                            c2,
                            sdr,
                            sdc,
                        ),
                    forall|p: Player, c2: int|
                        p != Player::Empty && c2 < c as int ==> !win_at(
                            self.board(),
                            p,
                            r as int,
                            c2,
                            sdr,
                            sdc,
                        ),
                decreases BOARD_WIDTH - c,
            {
                let x = self.Board[r][c];
                if x != Player::Empty && r + 3 * dr < BOARD_HEIGHT && c + 3 * dc_plus_one >= 3
                    && c + 3 * dc_plus_one < BOARD_WIDTH + 3 {
                    let r1: usize = r + dr;
                    let r2: usize = r + 2 * dr;
                    let r3: usize = r + 3 * dr;
                    let c1: usize = c + dc_plus_one - 1;
                    let c2: usize = c + 2 * dc_plus_one - 2;
                    let c3: usize = c + 3 * dc_plus_one - 3;
                    if self.Board[r1][c1] == x && self.Board[r2][c2] == x
                        && self.Board[r3][c3] == x {
                        proof {
                            assert(win_at(self.board(), x, r as int, c as int, sdr, sdc));
                        }
                        return x;
                    }
                }
                proof {
                    assert forall|p: Player| p != Player::Empty implies !win_at(
                        self.board(),
                        p,
                        r as int,
                        c as int,
                        sdr,
                        sdc,
                    ) by {
                        if win_at(self.board(), p, r as int, c as int, sdr, sdc) {
                            assert(self.board()[r as int][c as int] == p);
                        }
                    }
                }
                c += 1;
            }
            r += 1;
        }
        proof {
            assert forall|p: Player, r2: int, c2: int| p != Player::Empty implies !win_at(
                self.board(),
                p,
                r2,
                c2,
                sdr,
                sdc,
            ) by {
                if win_at(self.board(), p, r2, c2, sdr, sdc) {
                    assert(in_bounds(r2, c2));
                }
            }
            if dr == 0 && dc_plus_one == 2 {
                assert forall|p: Player, r2: int, c2: int| p != Player::Empty implies !#[trigger] win_at(
                    self.board(),
                    p,
                    r2,
                    c2,
                    0,
                    1,
                ) by {
                    assert(!win_at(self.board(), p, r2, c2, sdr, sdc));
                }
            } else if dr == 1 && dc_plus_one == 1 {
                assert forall|p: Player, r2: int, c2: int| p != Player::Empty implies !#[trigger] win_at(
                    self.board(),
                    p,
                    r2,
                    c2,
                    1,
                    0,
                ) by {
                    assert(!win_at(self.board(), p, r2, c2, sdr, sdc));
                }
            } else if dr == 1 && dc_plus_one == 2 {
                assert forall|p: Player, r2: int, c2: int| p != Player::Empty implies !#[trigger] win_at(
                    self.board(),
                    p,
                    r2,
                    c2,
                    1,
                    1,
                ) by {
                    assert(!win_at(self.board(), p, r2, c2, sdr, sdc));
                }
            } else if dr == 1 && dc_plus_one == 0 {
                assert forall|p: Player, r2: int, c2: int| p != Player::Empty implies !#[trigger] win_at(
                    self.board(),
                    p,
                    r2,
                    c2,
                    1,
                    -1,
                ) by {
                    assert(!win_at(self.board(), p, r2, c2, sdr, sdc));
                }
            }
        }
        Player::Empty
    }

    /// Looks for a four-in-a-row along a row, a column, or either diagonal.
    /// Returns the player holding one, or `Empty` when the board has none.
    pub fn FindWinner(&self) -> (w: Player)
        requires
            self.wf(),
        ensures
            w != Player::Empty ==> has_win(self.board(), w),
            w == Player::Empty ==> !has_win(self.board(), Player::One) && !has_win(
                self.board(),
                Player::Two,
            ),
    {
        let right = self.scan_direction(0, 2);
        if right != Player::Empty {
            return right;
        }
        let down = self.scan_direction(1, 1);
        if down != Player::Empty {
            return down;
        }
        let down_right = self.scan_direction(1, 2);
        if down_right != Player::Empty {
            return down_right;
        }
        let down_left = self.scan_direction(1, 0);
        if down_left != Player::Empty {
            return down_left;
        }
        proof {
            assert forall|p: Player| p != Player::Empty implies !has_win(self.board(), p) by {
                if has_win(self.board(), p) {
                    let (r, c, dr, dc) = choose|r: int, c: int, dr: int, dc: int|
                        is_direction(dr, dc) && #[trigger] win_at(self.board(), p, r, c, dr, dc);
                    if dr == 0 && dc == 1 {
                        assert(!win_at(self.board(), p, r, c, 0, 1));
                    } else if dr == 1 && dc == 0 {
                        assert(!win_at(self.board(), p, r, c, 1, 0));
                    } else if dr == 1 && dc == 1 {
                        assert(!win_at(self.board(), p, r, c, 1, 1));
                    } else {
                        assert(!win_at(self.board(), p, r, c, 1, -1));
                    }
                }
            }
        }
        Player::Empty
    }

    /// Applies the current player's move to `column`.
    ///
    /// A move is rejected, leaving the state untouched, when the game is
    /// already finished, when the column index is out of range, or when the
    /// column is full — checked in that order. An accepted move drops the
    /// mover's mark into the lowest empty cell of the column and counts the
    /// move; the game then ends when the move completed a four-in-a-row
    /// (recording the mover as winner) or filled the board (a draw, no
    /// winner), and otherwise the turn passes to the other player.
    pub fn MakeMove(&mut self, column: usize) -> (res: Result<(), MoveError>)
        requires
            old(self).inv(),
        ensures
            final(self).inv(),
            old(self).IsFinished ==> res == Err::<(), MoveError>(MoveError::GameFinished)
                && *final(self) == *old(self),
            !old(self).IsFinished && column >= BOARD_WIDTH ==> res == Err::<(), MoveError>(
                MoveError::InvalidColumn,
            ) && *final(self) == *old(self),
            !old(self).IsFinished && column < BOARD_WIDTH && col_full(
                old(self).board(),
                column as int,
            ) ==> res == Err::<(), MoveError>(MoveError::ColumnFull) && *final(self) == *old(self),
            !old(self).IsFinished && column < BOARD_WIDTH && !col_full(
                old(self).board(),
                column as int,
            ) ==> ({
                let mover = old(self).CurrentPlayer;
                &&& res == Ok::<(), MoveError>(())
                &&& final(self).CurrentMove == old(self).CurrentMove + 1
                &&& exists|r: int|
                    #[trigger] is_drop_row(old(self).board(), column as int, r)
                        && final(self).board() == old(self).board().update(
                        r,
                        old(self).board()[r].update(column as int, mover),
                    )
                &&& (final(self).IsFinished <==> (has_win(final(self).board(), mover)
                    || final(self).CurrentMove as int == BOARD_CELLS as int))
                &&& final(self).Winner == (if has_win(final(self).board(), mover) {
                    mover
                } else {
                    Player::Empty
                })
                &&& !has_win(final(self).board(), mover.opponent())
                &&& final(self).CurrentPlayer == (if final(self).IsFinished {
                    mover
                } else {
                    mover.opponent()
                })
            }),
    {
        if self.IsFinished {
            return Err(MoveError::GameFinished);
        }
        if column >= BOARD_WIDTH {
            return Err(MoveError::InvalidColumn);
        }
        match self.lowest_empty_row(column) {
            None => Err(MoveError::ColumnFull),
            Some(row) => {
                let mover = self.CurrentPlayer;
                let ghost b0 = self.board();
                self.Board[row][column] = mover;
                proof {
                    assert(self.board() =~~= b0.update(
                        row as int,
                        b0[row as int].update(column as int, mover),
                    ));
                }
                proof {
                    lemma_wf_board(*old(self));
                    assert(b0[row as int][column as int] == Player::Empty);
                    lemma_board_count_update(b0, Player::One, row as int, column as int, mover);
                    lemma_board_count_update(b0, Player::Two, row as int, column as int, mover);
                    lemma_gravity_after_drop(b0, column as int, row as int, mover);
                }
                self.CurrentMove = self.CurrentMove + 1;
                // No four-in-a-row can exist this early: under alternation
                // neither player has placed four marks yet, so the scan is
                // skipped. The bound is proved, not assumed.
                let w = if self.CurrentMove < 7 {
                    proof {
                        lemma_wf_board(*self);
                        if has_win(self.board(), Player::One) {
                            lemma_win_needs_four_marks(self.board(), Player::One);
                        }
                        if has_win(self.board(), Player::Two) {
                            lemma_win_needs_four_marks(self.board(), Player::Two);
                        }
                    }
                    Player::Empty
                } else {
                    self.FindWinner()
                };
                proof {
                    if has_win(self.board(), mover.opponent()) {
                        lemma_win_needs_changed_cell(
                            b0,
                            self.board(),
                            row as int,
                            column as int,
                            mover.opponent(),
                        );
                    }
                }
                if w != Player::Empty {
                    self.Winner = w;
                    self.IsFinished = true;
                } else if self.CurrentMove as usize == BOARD_CELLS {
                    self.IsFinished = true;
                } else {
                    self.CurrentPlayer = mover.other();
                }
                Ok(())
            },
        }
    }
}

/// Dimension well-formedness carries over from the grid to its view.
pub proof fn lemma_wf_board(g: Game)
    requires
        g.wf(),
    ensures
        board_wf(g.board()),
{
    assert forall|r: int| 0 <= r < BOARD_HEIGHT as int implies (#[trigger] g.board()[r]).len()
        == BOARD_WIDTH as int by {
        assert(g.board()[r] == g.Board@[r]@);
    }
}

/// No four-in-a-row can exist before the seventh accepted move: players
/// alternate, so neither has four marks on the board any earlier. This
/// justifies the early exit of the win scan as a pure optimization.
pub proof fn lemma_no_win_before_move_seven(g: Game)
    requires
        g.inv(),
        g.CurrentMove < 7,
    ensures
        !has_win(g.board(), Player::One),
        !has_win(g.board(), Player::Two),
{
    lemma_wf_board(g);
    if has_win(g.board(), Player::One) {
        lemma_win_needs_four_marks(g.board(), Player::One);
    }
    if has_win(g.board(), Player::Two) {
        lemma_win_needs_four_marks(g.board(), Player::Two);
    }
}

/// A player is the recorded winner of a finished game exactly when their
/// four-in-a-row stands on the board: a line ends the game at once with its
/// owner as winner, and no winner is ever recorded without a line.
pub proof fn lemma_winner_iff_line(g: Game)
    requires
        g.inv(),
    ensures
        has_win(g.board(), Player::One) <==> (g.IsFinished && g.Winner == Player::One),
        has_win(g.board(), Player::Two) <==> (g.IsFinished && g.Winner == Player::Two),
{
}

/// While a game is in progress, no four-in-a-row exists on its board: a win
/// is recognised by the move that completes the line, never later.
pub proof fn lemma_in_progress_has_no_win(g: Game)
    requires
        g.inv(),
        !g.IsFinished,
    ensures
        !has_win(g.board(), Player::One),
        !has_win(g.board(), Player::Two),
{
}

/// The move count never exceeds the number of cells on the board.
pub proof fn lemma_move_count_bounded(g: Game)
    requires
        g.inv(),
    ensures
        g.CurrentMove as int <= BOARD_CELLS as int,
{
}

/// A game finished without a four-in-a-row is a draw: the board is full by
/// move count and no winner is recorded.
pub proof fn lemma_full_board_without_line_is_draw(g: Game)
    requires
        g.inv(),
        g.IsFinished,
        !has_win(g.board(), Player::One),
        !has_win(g.board(), Player::Two),
    ensures
        g.CurrentMove as int == BOARD_CELLS as int,
        g.Winner == Player::Empty,
{
}

} // verus!

