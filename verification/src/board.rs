//! The board model: cells, dimensions, and the predicates that say what a
//! four-in-a-row line and a legal drop are.
use vstd::prelude::*;

verus! {

/// Number of columns on the board.
pub const BOARD_WIDTH: usize = 7;

/// Number of rows on the board.
pub const BOARD_HEIGHT: usize = 6;

/// Total number of cells, which is also the largest possible move count.
pub const BOARD_CELLS: usize = 42;

/// A cell's mark: one of the two players, or empty.
#[derive(Clone, Copy, Debug, PartialEq, Eq, Structural)]
pub enum Player {
    One,
    Two,
    Empty,
}

impl Player {
    /// What `FromInt` returns: 1 and 2 select the players, anything else is empty.
    pub open spec fn spec_from_int(value: u8) -> Player {
        if value == 1 {
            Player::One
        } else if value == 2 {
            Player::Two
        } else {
            Player::Empty
        }
    }

    /// Decodes the compact integer encoding of a cell.
    pub fn FromInt(value: u8) -> (p: Player)
        ensures
            p == Player::spec_from_int(value),
    {
        match value {
            1 => Player::One,
            2 => Player::Two,
            _ => Player::Empty,
        }
    }

    /// The other player; the opponent of `Empty` is of no interest.
    pub open spec fn opponent(self) -> Player {
        if self == Player::One {
            Player::Two
        } else {
            Player::One
        }
    }

    /// Switches the turn to the other player.
    pub fn other(self) -> (p: Player)
        ensures
            p == self.opponent(),
    {
        match self {
            Player::One => Player::Two,
            _ => Player::One,
        }
    }
}

/// The position (`r`, `c`) lies on the board.
pub open spec fn in_bounds(r: int, c: int) -> bool {
    0 <= r < BOARD_HEIGHT as int && 0 <= c < BOARD_WIDTH as int
}

/// Every cell of the board is empty.
pub open spec fn board_empty(b: Seq<Seq<Player>>) -> bool {
    forall|r: int, c: int| in_bounds(r, c) ==> #[trigger] b[r][c] == Player::Empty
}

/// Four consecutive cells holding `p`, starting at (`r`, `c`) and stepping by
/// (`dr`, `dc`), all on the board.
pub open spec fn win_at(b: Seq<Seq<Player>>, p: Player, r: int, c: int, dr: int, dc: int) -> bool {
    &&& in_bounds(r, c)
    &&& in_bounds(r + 3 * dr, c + 3 * dc)
    &&& b[r][c] == p
    &&& b[r + dr][c + dc] == p
    &&& b[r + 2 * dr][c + 2 * dc] == p
    &&& b[r + 3 * dr][c + 3 * dc] == p
}

/// The four scan directions: right, down, down-right, and down-left.
pub open spec fn is_direction(dr: int, dc: int) -> bool {
    ||| (dr == 0 && dc == 1)
    ||| (dr == 1 && dc == 0)
    ||| (dr == 1 && dc == 1)
    ||| (dr == 1 && dc == -1)
}

/// Player `p` has four in a row somewhere on the board.
pub open spec fn has_win(b: Seq<Seq<Player>>, p: Player) -> bool {
    &&& p != Player::Empty
    &&& exists|r: int, c: int, dr: int, dc: int|
        is_direction(dr, dc) && #[trigger] win_at(b, p, r, c, dr, dc)
}

/// No cell of column `c` is empty.
pub open spec fn col_full(b: Seq<Seq<Player>>, c: int) -> bool {
    forall|r: int| 0 <= r < BOARD_HEIGHT as int ==> #[trigger] b[r][c] != Player::Empty
}

/// Row `r` is where a piece dropped into column `c` lands: the lowest empty
/// cell of the column (rows are numbered from the top, so the largest index).
pub open spec fn is_drop_row(b: Seq<Seq<Player>>, c: int, r: int) -> bool {
    &&& in_bounds(r, c)
    &&& b[r][c] == Player::Empty
    &&& forall|r2: int| r < r2 < BOARD_HEIGHT as int ==> #[trigger] b[r2][c] != Player::Empty
}

/// Gravity holds: every mark rests on the bottom row or on another mark.
#[verifier::opaque]
pub open spec fn gravity(b: Seq<Seq<Player>>) -> bool {
    forall|r: int, c: int|
        in_bounds(r, c) && r + 1 < BOARD_HEIGHT as int && #[trigger] b[r][c] != Player::Empty
            ==> b[r + 1][c] != Player::Empty
}

/// A board with its fixed dimensions.
pub open spec fn board_wf(b: Seq<Seq<Player>>) -> bool {
    &&& b.len() == BOARD_HEIGHT as int
    &&& forall|r: int| 0 <= r < BOARD_HEIGHT as int ==> (#[trigger] b[r]).len() == BOARD_WIDTH as int
}

/// How many of the first `n` cells of a row hold the mark `p`.
pub open spec fn row_count_to(s: Seq<Player>, p: Player, n: int) -> int
    decreases n,
{
    if n <= 0 {
        0
    } else {
        row_count_to(s, p, n - 1) + if s[n - 1] == p {
            1int
        } else {
            0int
        }
    }
}

/// How many cells of a row hold the mark `p`.
pub open spec fn row_count(s: Seq<Player>, p: Player) -> int {
    row_count_to(s, p, s.len() as int)
}

/// How many cells of the first `n` rows hold the mark `p`.
pub open spec fn board_count_to(b: Seq<Seq<Player>>, p: Player, n: int) -> int
    decreases n,
{
    if n <= 0 {
        0
    } else {
        board_count_to(b, p, n - 1) + row_count(b[n - 1], p)
    }
}

/// How many cells of the board hold the mark `p`.
pub open spec fn board_count(b: Seq<Seq<Player>>, p: Player) -> int {
    board_count_to(b, p, b.len() as int)
}

proof fn lemma_row_count_to_nonneg(s: Seq<Player>, p: Player, n: int)
    ensures
        row_count_to(s, p, n) >= 0,
    decreases n,
{
    if n > 0 {
        lemma_row_count_to_nonneg(s, p, n - 1);
    }
}

proof fn lemma_row_count_to_mono(s: Seq<Player>, p: Player, m: int, n: int)
    requires
        m <= n,
    ensures
        row_count_to(s, p, m) <= row_count_to(s, p, n),
    decreases n - m,
{
    if m < n {
        lemma_row_count_to_mono(s, p, m, n - 1);
    }
}

proof fn lemma_board_count_to_nonneg(b: Seq<Seq<Player>>, p: Player, n: int)
    ensures
        board_count_to(b, p, n) >= 0,
    decreases n,
{
    if n > 0 {
        lemma_board_count_to_nonneg(b, p, n - 1);
        lemma_row_count_to_nonneg(b[n - 1], p, b[n - 1].len() as int);
    }
}

proof fn lemma_board_count_to_mono(b: Seq<Seq<Player>>, p: Player, m: int, n: int)
    requires
        m <= n,
    ensures
        board_count_to(b, p, m) <= board_count_to(b, p, n),
    decreases n - m,
{
    if m < n {
        lemma_board_count_to_mono(b, p, m, n - 1);
        lemma_row_count_to_nonneg(b[n - 1], p, b[n - 1].len() as int);
    }
}

/// A row holding the mark `p` somewhere counts it at least once.
proof fn lemma_row_with_mark_counts_one(s: Seq<Player>, p: Player, i: int)
    requires
        0 <= i < s.len(),
        s[i] == p,
    ensures
        row_count(s, p) >= 1,
{
    lemma_row_count_to_nonneg(s, p, i);
    assert(row_count_to(s, p, i + 1) == row_count_to(s, p, i) + 1);
    lemma_row_count_to_mono(s, p, i + 1, s.len() as int);
}

/// Four cells of one row holding `p` count it at least four times.
proof fn lemma_row_with_four_marks(s: Seq<Player>, p: Player, c: int)
    requires
        0 <= c,
        c + 3 < s.len(),
        s[c] == p,
        s[c + 1] == p,
        s[c + 2] == p,
        s[c + 3] == p,
    ensures
        row_count(s, p) >= 4,
{
    lemma_row_count_to_nonneg(s, p, c);
    assert(row_count_to(s, p, c + 1) == row_count_to(s, p, c) + 1);
    assert(row_count_to(s, p, c + 2) == row_count_to(s, p, c + 1) + 1);
    assert(row_count_to(s, p, c + 3) == row_count_to(s, p, c + 2) + 1);
    assert(row_count_to(s, p, c + 4) == row_count_to(s, p, c + 3) + 1);
    lemma_row_count_to_mono(s, p, c + 4, s.len() as int);
}

/// The whole board counts a mark at least as often as any one row does.
proof fn lemma_board_count_ge_row(b: Seq<Seq<Player>>, p: Player, r: int)
    requires
        0 <= r < b.len(),
    ensures
        board_count(b, p) >= row_count(b[r], p),
{
    lemma_board_count_to_nonneg(b, p, r);
    assert(board_count_to(b, p, r + 1) == board_count_to(b, p, r) + row_count(b[r], p));
    lemma_board_count_to_mono(b, p, r + 1, b.len() as int);
}

/// Four consecutive rows that each hold the mark give a board count of four.
proof fn lemma_board_count_ge_four_rows(b: Seq<Seq<Player>>, p: Player, r: int)
    requires
        0 <= r,
        r + 3 < b.len(),
        row_count(b[r], p) >= 1,
        row_count(b[r + 1], p) >= 1,
        row_count(b[r + 2], p) >= 1,
        row_count(b[r + 3], p) >= 1,
    ensures
        board_count(b, p) >= 4,
{
    lemma_board_count_to_nonneg(b, p, r);
    assert(board_count_to(b, p, r + 1) == board_count_to(b, p, r) + row_count(b[r], p));
    assert(board_count_to(b, p, r + 2) == board_count_to(b, p, r + 1) + row_count(b[r + 1], p));
    assert(board_count_to(b, p, r + 3) == board_count_to(b, p, r + 2) + row_count(b[r + 2], p));
    assert(board_count_to(b, p, r + 4) == board_count_to(b, p, r + 3) + row_count(b[r + 3], p));
    lemma_board_count_to_mono(b, p, r + 4, b.len() as int);
}

/// A four-in-a-row needs at least four marks of its player on the board.
pub proof fn lemma_win_needs_four_marks(b: Seq<Seq<Player>>, p: Player)
    requires
        board_wf(b),
        has_win(b, p),
    ensures
        board_count(b, p) >= 4,
{
    let (r, c, dr, dc) = choose|r: int, c: int, dr: int, dc: int|
        is_direction(dr, dc) && #[trigger] win_at(b, p, r, c, dr, dc);
    if dr == 0 && dc == 1 {
        lemma_row_with_four_marks(b[r], p, c);
        lemma_board_count_ge_row(b, p, r);
    } else {
        lemma_row_with_mark_counts_one(b[r], p, c);
        lemma_row_with_mark_counts_one(b[r + 1], p, c + dc);
        lemma_row_with_mark_counts_one(b[r + 2], p, c + 2 * dc);
        lemma_row_with_mark_counts_one(b[r + 3], p, c + 3 * dc);
        lemma_board_count_ge_four_rows(b, p, r);
    }
}

proof fn lemma_row_count_to_update(s: Seq<Player>, m: Player, cc: int, v: Player, n: int)
    requires
        0 <= cc < s.len(),
        n <= s.len(),
    ensures
        row_count_to(s.update(cc, v), m, n) == row_count_to(s, m, n) + if cc < n {
            (if v == m {
                1int
            } else {
                0int
            }) - (if s[cc] == m {
                1int
            } else {
                0int
            })
        } else {
            0int
        },
    decreases n,
{
    if n > 0 {
        lemma_row_count_to_update(s, m, cc, v, n - 1);
    }
}

proof fn lemma_board_count_to_update(
    b: Seq<Seq<Player>>,
    m: Player,
    rr: int,
    s2: Seq<Player>,
    n: int,
)
    requires
        0 <= rr < b.len(),
        n <= b.len(),
    ensures
        board_count_to(b.update(rr, s2), m, n) == board_count_to(b, m, n) + if rr < n {
            row_count(s2, m) - row_count(b[rr], m)
        } else {
            0int
        },
    decreases n,
{
    if n > 0 {
        lemma_board_count_to_update(b, m, rr, s2, n - 1);
    }
}

/// Replacing one cell changes a mark's board count exactly as that cell
/// changes: up by one when the mark is placed, down by one when removed.
pub proof fn lemma_board_count_update(b: Seq<Seq<Player>>, m: Player, rr: int, cc: int, v: Player)
    requires
        board_wf(b),
        in_bounds(rr, cc),
    ensures
        board_count(b.update(rr, b[rr].update(cc, v)), m) == board_count(b, m) + (if v == m {
            1int
        } else {
            0int
        }) - (if b[rr][cc] == m {
            1int
        } else {
            0int
        }),
{
    lemma_row_count_to_update(b[rr], m, cc, v, b[rr].len() as int);
    lemma_board_count_to_update(b, m, rr, b[rr].update(cc, v), b.len() as int);
}

proof fn lemma_row_count_to_none(s: Seq<Player>, m: Player, n: int)
    requires
        forall|j: int| 0 <= j < n ==> s[j] != m,
    ensures
        row_count_to(s, m, n) == 0,
    decreases n,
{
    if n > 0 {
        lemma_row_count_to_none(s, m, n - 1);
    }
}

proof fn lemma_board_count_to_zero(b: Seq<Seq<Player>>, m: Player, n: int)
    requires
        board_wf(b),
        board_empty(b),
        m != Player::Empty,
        n <= b.len(),
    ensures
        board_count_to(b, m, n) == 0,
    decreases n,
{
    if n > 0 {
        lemma_board_count_to_zero(b, m, n - 1);
        assert forall|j: int| 0 <= j < b[n - 1].len() implies #[trigger] b[n - 1][j] != m by {
            assert(in_bounds(n - 1, j));
            assert(b[n - 1][j] == Player::Empty);
        }
        lemma_row_count_to_none(b[n - 1], m, b[n - 1].len() as int);
    }
}

/// An all-empty board is trivially gravity-consistent.
pub proof fn lemma_empty_board_gravity(b: Seq<Seq<Player>>)
    requires
        board_empty(b),
    ensures
        gravity(b),
{
    reveal(gravity);
}

/// An all-empty board counts no marks for either player.
pub proof fn lemma_empty_board_counts_zero(b: Seq<Seq<Player>>, m: Player)
    requires
        board_wf(b),
        board_empty(b),
        m != Player::Empty,
    ensures
        board_count(b, m) == 0,
{
    lemma_board_count_to_zero(b, m, b.len() as int);
}

/// Dropping a mark onto the lowest empty cell of a column keeps gravity.
pub proof fn lemma_gravity_after_drop(b: Seq<Seq<Player>>, c: int, r: int, v: Player)
    requires
        board_wf(b),
        gravity(b),
        is_drop_row(b, c, r),
        v != Player::Empty,
    ensures
        gravity(b.update(r, b[r].update(c, v))),
{
    reveal(gravity);
    let b2 = b.update(r, b[r].update(c, v));
    assert forall|r2: int, c2: int|
        in_bounds(r2, c2) && r2 + 1 < BOARD_HEIGHT as int && #[trigger] b2[r2][c2]
            != Player::Empty implies b2[r2 + 1][c2] != Player::Empty by {
        if r2 == r && c2 == c {
            assert(b[r2 + 1][c2] != Player::Empty);
            assert(b2[r2 + 1][c2] == b[r2 + 1][c2]);
        } else {
            assert(b2[r2][c2] == b[r2][c2]);
            assert(b[r2 + 1][c2] != Player::Empty);
            if r2 + 1 == r && c2 == c {
                assert(b2[r2 + 1][c2] == v);
            } else {
                assert(b2[r2 + 1][c2] == b[r2 + 1][c2]);
            }
        }
    }
}

/// An empty board has no four-in-a-row.
pub proof fn lemma_empty_board_no_win(b: Seq<Seq<Player>>, p: Player)
    requires
        board_empty(b),
    ensures
        !has_win(b, p),
{
    if has_win(b, p) {
        let (r, c, dr, dc) = choose|r: int, c: int, dr: int, dc: int|
            is_direction(dr, dc) && #[trigger] win_at(b, p, r, c, dr, dc);
        assert(b[r][c] == Player::Empty);
        assert(false);
    }
}

/// A drop row is unique: a column has at most one lowest empty cell.
pub proof fn lemma_drop_row_unique(b: Seq<Seq<Player>>, c: int, r1: int, r2: int)
    requires
        is_drop_row(b, c, r1),
        is_drop_row(b, c, r2),
    ensures
        r1 == r2,
{
    if r1 < r2 {
        assert(b[r2][c] != Player::Empty);
    } else if r2 < r1 {
        assert(b[r1][c] != Player::Empty);
    }
}

/// A four-in-a-row for `p` on a board whose only changed cell does not hold
/// `p` was already present before the change.
pub proof fn lemma_win_needs_changed_cell(
    b1: Seq<Seq<Player>>,
    b2: Seq<Seq<Player>>,
    rr: int,
    cc: int,
    p: Player,
)
    requires
        forall|r: int, c: int|
            in_bounds(r, c) && !(r == rr && c == cc) ==> #[trigger] b1[r][c] == b2[r][c],
        b2[rr][cc] != p,
        has_win(b2, p),
    ensures
        has_win(b1, p),
{
    let (r, c, dr, dc) = choose|r: int, c: int, dr: int, dc: int|
        is_direction(dr, dc) && #[trigger] win_at(b2, p, r, c, dr, dc);
    assert(in_bounds(r + dr, c + dc) && in_bounds(r + 2 * dr, c + 2 * dc));
    assert(win_at(b1, p, r, c, dr, dc));
}

/// Scanning the anti-diagonal downward-left or upward-right names the same
/// lines: the two step choices are interchangeable.
pub proof fn lemma_antidiagonal_directions_equivalent(
    b: Seq<Seq<Player>>,
    p: Player,
    r: int,
    c: int,
)
    ensures
        win_at(b, p, r, c, -1, 1) <==> win_at(b, p, r - 3, c + 3, 1, -1),
{
}

/// A board has an upward-right four-in-a-row exactly when it has a
/// downward-left one, so either step choice detects the same set of wins.
pub proof fn lemma_antidiagonal_scans_equivalent(b: Seq<Seq<Player>>, p: Player)
    ensures
        (exists|r: int, c: int| #[trigger] win_at(b, p, r, c, -1, 1)) <==> (exists|r: int, c: int|
            #[trigger] win_at(b, p, r, c, 1, -1)),
{
    if exists|r: int, c: int| #[trigger] win_at(b, p, r, c, -1, 1) {
        let (r, c) = choose|r: int, c: int| #[trigger] win_at(b, p, r, c, -1, 1);
        lemma_antidiagonal_directions_equivalent(b, p, r, c);
        assert(win_at(b, p, r - 3, c + 3, 1, -1));
    }
    if exists|r: int, c: int| #[trigger] win_at(b, p, r, c, 1, -1) {
        let (r, c) = choose|r: int, c: int| #[trigger] win_at(b, p, r, c, 1, -1);
        lemma_antidiagonal_directions_equivalent(b, p, r + 3, c - 3);
        assert(win_at(b, p, r + 3, c - 3, -1, 1));
    }
}

} // verus!
