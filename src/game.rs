use vstd::prelude::*;

verus! {

/// One of the two sides of a game.
#[derive(Clone, Copy, Debug, PartialEq, Eq, Structural)]
pub enum Player {
    One,
    Two,
}

/// The side that is not `p`.
pub open spec fn opponent_of(p: Player) -> Player {
    match p {
        Player::One => Player::Two,
        Player::Two => Player::One,
    }
}

impl Player {
    pub fn opponent(&self) -> (r: Player)
        ensures
            r == opponent_of(*self),
    {
        match self {
            Player::One => Player::Two,
            Player::Two => Player::One,
        }
    }

    /// The mark of the side on the board: `X` for the first, `O` for the second.
    pub fn symbol(&self) -> (r: char)
        ensures
            r == player_symbol(*self),
    {
        match self {
            Player::One => 'X',
            Player::Two => 'O',
        }
    }
}

/// The mark of side `p`.
pub open spec fn player_symbol(p: Player) -> char {
    match p {
        Player::One => 'X',
        Player::Two => 'O',
    }
}

} // verus!

verus! {

/// What a square of the board holds.
#[derive(Clone, Copy, Debug, PartialEq, Eq, Structural)]
pub enum Cell {
    Player(Player),
    Empty,
}

/// How square `c` is drawn: its owner's mark, or `#` where it is empty.
pub open spec fn cell_symbol(c: Cell) -> char {
    match c {
        Cell::Player(p) => player_symbol(p),
        Cell::Empty => '#',
    }
}

impl Cell {
    /// How the square is drawn: its owner's mark, or `#` where it is empty.
    pub fn symbol(&self) -> (r: char)
        ensures
            r == cell_symbol(*self),
    {
        match self {
            Cell::Player(p) => p.symbol(),
            Cell::Empty => '#',
        }
    }
}

/// The board `b` drawn as three rows of three marks, one row per line.
pub open spec fn render_of(b: Seq<Cell>) -> Seq<char> {
    seq![
        cell_symbol(b[0]), cell_symbol(b[1]), cell_symbol(b[2]), '\n',
        cell_symbol(b[3]), cell_symbol(b[4]), cell_symbol(b[5]), '\n',
        cell_symbol(b[6]), cell_symbol(b[7]), cell_symbol(b[8]),
    ]
}

/// Where a game stands, derived from the board each time it is asked for.
#[derive(Clone, Copy, Debug, PartialEq, Eq, Structural)]
pub enum GameState {
    Ongoing,
    Draw,
    Win(Player),
}

/// Why a move was refused.
#[derive(Clone, Copy, Debug, PartialEq, Eq, Structural)]
pub enum MoveError {
    /// The position is not one of the squares 0 to 8.
    PositionOutOfRange,
    /// The square already holds a mark.
    PositionOccupied,
}

/// The number of squares of the board.
pub const CELL_COUNT: usize = 9;

/// The 3x3 grid, its squares numbered row by row from 0 to 8.
#[derive(Clone, Copy, Debug)]
pub struct Board {
    pub cells: [Cell; 9],
}

impl View for Board {
    type V = Seq<Cell>;

    open spec fn view(&self) -> Seq<Cell> {
        self.cells@
    }
}

/// The squares of winning line `k`: the three rows, the three columns, then the two diagonals.
pub open spec fn line(k: int) -> (int, int, int) {
    if k == 0 {
        (0, 1, 2)
    } else if k == 1 {
        (3, 4, 5)
    } else if k == 2 {
        (6, 7, 8)
    } else if k == 3 {
        (0, 3, 6)
    } else if k == 4 {
        (1, 4, 7)
    } else if k == 5 {
        (2, 5, 8)
    } else if k == 6 {
        (0, 4, 8)
    } else {
        (2, 4, 6)
    }
}

/// All three squares of line `k` hold `p`'s mark.
pub open spec fn owns_line(b: Seq<Cell>, k: int, p: Player) -> bool {
    &&& b[line(k).0] == Cell::Player(p)
    &&& b[line(k).1] == Cell::Player(p)
    &&& b[line(k).2] == Cell::Player(p)
}

/// `p` holds some complete winning line.
pub open spec fn has_won(b: Seq<Cell>, p: Player) -> bool {
    exists|k: int| 0 <= k < 8 && #[trigger] owns_line(b, k, p)
}

/// No square is empty.
pub open spec fn is_full(b: Seq<Cell>) -> bool {
    forall|i: int| 0 <= i < 9 ==> #[trigger] b[i] != Cell::Empty
}

/// The owner of the first complete line from line `k` on, where for each line
/// the first player is looked at before the second.
pub open spec fn first_win_from(b: Seq<Cell>, k: int) -> Option<Player>
    decreases 8 - k,
{
    if k >= 8 {
        None
    } else if owns_line(b, k, Player::One) {
        Some(Player::One)
    } else if owns_line(b, k, Player::Two) {
        Some(Player::Two)
    } else {
        first_win_from(b, k + 1)
    }
}

/// The state of the game on board `b`.
pub open spec fn status_of(b: Seq<Cell>) -> GameState {
    match first_win_from(b, 0) {
        Some(p) => GameState::Win(p),
        None => if is_full(b) {
            GameState::Draw
        } else {
            GameState::Ongoing
        },
    }
}

/// Why a move at `pos` on board `b` is refused, if it is.
pub open spec fn move_error(b: Seq<Cell>, pos: int) -> Option<MoveError> {
    if !(0 <= pos < 9) {
        Some(MoveError::PositionOutOfRange)
    } else if b[pos] != Cell::Empty {
        Some(MoveError::PositionOccupied)
    } else {
        None
    }
}

/// The outcome of a move at `pos` on board `b`: the error, or nothing.
pub open spec fn move_result(b: Seq<Cell>, pos: int) -> Result<(), MoveError> {
    match move_error(b, pos) {
        Some(e) => Err(e),
        None => Ok(()),
    }
}

/// The squares of winning line `k`, as `line` gives them.
fn line_squares(k: usize) -> (r: (usize, usize, usize))
    requires
        k < 8,
    ensures
        r.0 as int == line(k as int).0,
        r.1 as int == line(k as int).1,
        r.2 as int == line(k as int).2,
{
    match k {
        0 => (0, 1, 2),
        1 => (3, 4, 5),
        2 => (6, 7, 8),
        3 => (0, 3, 6),
        4 => (1, 4, 7),
        5 => (2, 5, 8),
        6 => (0, 4, 8),
        _ => (2, 4, 6),
    }
}

impl Board {
    /// A board with all nine squares empty.
    pub fn new() -> (r: Board)
        ensures
            forall|i: int| 0 <= i < 9 ==> #[trigger] r@[i] == Cell::Empty,
    {
        Board { cells: [Cell::Empty; 9] }
    }

    /// Puts `player`'s mark on square `position`. A refused move leaves the board as it was.
    pub fn make_move(&mut self, player: Player, position: usize) -> (r: Result<(), MoveError>)
        ensures
            r == move_result(old(self)@, position as int),
            r is Ok ==> final(self)@ == old(self)@.update(position as int, Cell::Player(player)),
            r is Err ==> final(self)@ == old(self)@,
    {
        if position >= CELL_COUNT {
            return Err(MoveError::PositionOutOfRange);
        }
        if self.cells[position] != Cell::Empty {
            return Err(MoveError::PositionOccupied);
        }
        self.cells[position] = Cell::Player(player);
        Ok(())
    }

    /// Whether `player` holds all three squares of line `k`.
    fn owns_line(&self, k: usize, player: Player) -> (r: bool)
        requires
            k < 8,
        ensures
            r == owns_line(self@, k as int, player),
    {
        let (first, second, third) = line_squares(k);
        let mark = Cell::Player(player);
        self.cells[first] == mark && self.cells[second] == mark && self.cells[third] == mark
    }

    /// Whether some square is empty.
    fn has_empty(&self) -> (r: bool)
        ensures
            r == !is_full(self@),
    {
        let mut i: usize = 0;
        while i < CELL_COUNT
            invariant
                i <= 9,
                forall|j: int| 0 <= j < i ==> #[trigger] self@[j] != Cell::Empty,
            decreases 9 - i,
        {
            if self.cells[i] == Cell::Empty {
                return true;
            }
            i = i + 1;
        }
        false
    }

    /// The state of the game: the first complete line's owner wins; else a full
    /// board is a draw; else the game goes on.
    pub fn get_state(&self) -> (r: GameState)
        ensures
            r == status_of(self@),
    {
        let mut k: usize = 0;
        while k < 8
            invariant
                k <= 8,
                first_win_from(self@, 0) == first_win_from(self@, k as int),
            decreases 8 - k,
        {
            if self.owns_line(k, Player::One) {
                return GameState::Win(Player::One);
            }
            if self.owns_line(k, Player::Two) {
                return GameState::Win(Player::Two);
            }
            k = k + 1;
        }
        if self.has_empty() {
            GameState::Ongoing
        } else {
            GameState::Draw
        }
    }

    /// The board as three rows of three marks, one row per line.
    pub fn render(&self) -> (r: Vec<char>)
        ensures
            r@ == render_of(self@),
    {
        let c = &self.cells;
        let r = vec![
            c[0].symbol(), c[1].symbol(), c[2].symbol(), '\n',
            c[3].symbol(), c[4].symbol(), c[5].symbol(), '\n',
            c[6].symbol(), c[7].symbol(), c[8].symbol(),
        ];
        assert(r@ =~= render_of(self@));
        r
    }

    /// The nine squares in order.
    pub fn as_iter(&self) -> (r: Vec<Cell>)
        ensures
            r@ == self@,
    {
        let mut r: Vec<Cell> = Vec::new();
        let mut i: usize = 0;
        while i < CELL_COUNT
            invariant
                i <= 9,
                r@ == self@.subrange(0, i as int),
            decreases 9 - i,
        {
            r.push(self.cells[i]);
            i = i + 1;
        }
        assert(r@ =~= self@);
        r
    }
}

/// What `first_win_from` finds, in terms of the lines themselves.
proof fn lemma_first_win_from(b: Seq<Cell>, k: int)
    requires
        0 <= k <= 8,
    ensures
        first_win_from(b, k) matches Some(p) ==> exists|j: int|
            k <= j < 8 && #[trigger] owns_line(b, j, p),
        first_win_from(b, k) is None <==> (forall|j: int|
            k <= j < 8 ==> !#[trigger] owns_line(b, j, Player::One)) && (forall|j: int|
            k <= j < 8 ==> !#[trigger] owns_line(b, j, Player::Two)),
    decreases 8 - k,
{
    if k < 8 {
        lemma_first_win_from(b, k + 1);
        if owns_line(b, k, Player::One) {
            assert(first_win_from(b, k) == Some(Player::One));
        } else if owns_line(b, k, Player::Two) {
            assert(first_win_from(b, k) == Some(Player::Two));
        } else {
            assert(first_win_from(b, k) == first_win_from(b, k + 1));
            if first_win_from(b, k) is None {
                assert forall|j: int| k <= j < 8 implies !#[trigger] owns_line(
                    b,
                    j,
                    Player::One,
                ) && !owns_line(b, j, Player::Two) by {
                    if j > k {
                    }
                }
            }
        }
    }
}

/// The state of a board follows its lines: a side that the state names as winner
/// holds a complete line; where at most one side holds one, the winner is
/// exactly the side that does; the game is drawn exactly when nobody holds a line
/// and no square is empty, and goes on exactly when nobody holds a line and some
/// square is empty.
pub proof fn lemma_status_of_board(b: Board)
    ensures
        forall|p: Player| status_of(b@) == GameState::Win(p) ==> has_won(b@, p),
        !(has_won(b@, Player::One) && has_won(b@, Player::Two)) ==> forall|p: Player|
            status_of(b@) == GameState::Win(p) <==> has_won(b@, p),
        status_of(b@) == GameState::Draw <==> !has_won(b@, Player::One) && !has_won(
            b@,
            Player::Two,
        ) && is_full(b@),
        status_of(b@) == GameState::Ongoing <==> !has_won(b@, Player::One) && !has_won(
            b@,
            Player::Two,
        ) && !is_full(b@),
{
    lemma_first_win_from(b@, 0);
}

} // verus!
