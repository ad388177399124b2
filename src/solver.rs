use vstd::prelude::*;

use crate::game::{is_full, move_result, opponent_of, status_of, Board, Cell, GameState, Player};

verus! {

/// The number of empty squares among the first `n` squares of `b`.
pub open spec fn empties_upto(b: Seq<Cell>, n: int) -> nat
    decreases n,
{
    if n <= 0 {
        0
    } else {
        empties_upto(b, n - 1) + if b[n - 1] == Cell::Empty {
            1nat
        } else {
            0nat
        }
    }
}

/// The number of empty squares of board `b`.
pub open spec fn empty_count(b: Seq<Cell>) -> nat {
    empties_upto(b, 9)
}

/// The board `b` after `p` has put a mark on square `pos`.
pub open spec fn after_move(b: Seq<Cell>, pos: int, p: Player) -> Seq<Cell> {
    b.update(pos, Cell::Player(p))
}

proof fn lemma_empties_upto_bound(b: Seq<Cell>, n: int)
    requires
        0 <= n,
    ensures
        empties_upto(b, n) <= n,
    decreases n,
{
    if n > 0 {
        lemma_empties_upto_bound(b, n - 1);
    }
}

/// A move fills one empty square: the count of empty squares drops by one.
proof fn lemma_empties_after_move(b: Seq<Cell>, pos: int, p: Player, n: int)
    requires
        b.len() == 9,
        0 <= pos < 9,
        b[pos] == Cell::Empty,
        0 <= n <= 9,
    ensures
        n <= pos ==> empties_upto(after_move(b, pos, p), n) == empties_upto(b, n),
        n > pos ==> empties_upto(after_move(b, pos, p), n) + 1 == empties_upto(b, n),
    decreases n,
{
    if n > 0 {
        lemma_empties_after_move(b, pos, p, n - 1);
    }
}

/// The better of two scores for the side to move: the larger where it is the
/// maximising side, else the smaller.
pub open spec fn pick(to_move: Player, maximizing: Player, s: int, t: int) -> int {
    if to_move == maximizing {
        if s > t {
            s
        } else {
            t
        }
    } else {
        if s < t {
            s
        } else {
            t
        }
    }
}

/// The minimax score of board `b` with `to_move` to play, seen from `maximizing`,
/// `depth` moves below the decision being made.
pub open spec fn score(b: Seq<Cell>, to_move: Player, maximizing: Player, depth: int) -> int
    decreases empty_count(b), 10int,
{
    match status_of(b) {
        GameState::Win(p) => if p == maximizing {
            10 - depth
        } else {
            -10 + depth
        },
        GameState::Draw => 0,
        GameState::Ongoing => match best_score_upto(b, to_move, maximizing, depth, 9) {
            Some(s) => s,
            None => 0,
        },
    }
}

/// The best score for `to_move` over the moves on the first `n` squares of `b`,
/// if any of them is empty.
pub open spec fn best_score_upto(
    b: Seq<Cell>,
    to_move: Player,
    maximizing: Player,
    depth: int,
    n: int,
) -> Option<int>
    decreases empty_count(b), n,
    via best_score_upto_decreases
{
    if n <= 0 || b.len() != 9 || n > 9 {
        None
    } else {
        let prev = best_score_upto(b, to_move, maximizing, depth, n - 1);
        if b[n - 1] == Cell::Empty {
            let s = score(
                after_move(b, n - 1, to_move),
                opponent_of(to_move),
                maximizing,
                depth + 1,
            );
            match prev {
                None => Some(s),
                Some(t) => Some(pick(to_move, maximizing, s, t)),
            }
        } else {
            prev
        }
    }
}

#[via_fn]
proof fn best_score_upto_decreases(
    b: Seq<Cell>,
    to_move: Player,
    maximizing: Player,
    depth: int,
    n: int,
) {
    if 0 < n <= 9 && b.len() == 9 && b[n - 1] == Cell::Empty {
        lemma_empties_after_move(b, n - 1, to_move, 9);
    }
}

/// The score of putting `p`'s mark on square `pos` of `b`, with `p` as the maximising side.
pub open spec fn move_score(b: Seq<Cell>, p: Player, pos: int) -> int {
    score(after_move(b, pos, p), opponent_of(p), p, 0)
}

/// `pos` is the move that the search picks for `p` on `b`: an empty square with
/// the greatest score, the lowest such square where several share it.
pub open spec fn is_best_move(b: Seq<Cell>, p: Player, pos: int) -> bool {
    &&& 0 <= pos < 9
    &&& b[pos] == Cell::Empty
    &&& forall|j: int|
        0 <= j < 9 && b[j] == Cell::Empty ==> #[trigger] move_score(b, p, j) <= move_score(
            b,
            p,
            pos,
        )
    &&& forall|j: int|
        0 <= j < pos && b[j] == Cell::Empty ==> #[trigger] move_score(b, p, j) < move_score(
            b,
            p,
            pos,
        )
}

/// Some move is scored exactly when some square in range is empty.
proof fn lemma_best_score_exists(
    b: Seq<Cell>,
    to_move: Player,
    maximizing: Player,
    depth: int,
    n: int,
)
    requires
        b.len() == 9,
        0 <= n <= 9,
    ensures
        best_score_upto(b, to_move, maximizing, depth, n) is Some <==> exists|j: int|
            0 <= j < n && #[trigger] b[j] == Cell::Empty,
    decreases n,
{
    if n > 0 {
        lemma_best_score_exists(b, to_move, maximizing, depth, n - 1);
    }
}

/// The score of `board` with `player_to_move` to play, seen from `maximizing_player`.
fn minimax(
    board: Board,
    player_to_move: Player,
    maximizing_player: Player,
    current_depth: u8,
) -> (r: i8)
    requires
        current_depth as int + empty_count(board@) <= 9,
    ensures
        r as int == score(board@, player_to_move, maximizing_player, current_depth as int),
    decreases empty_count(board@),
{
    match board.get_state() {
        GameState::Win(p) => {
            if p == maximizing_player {
                10 - current_depth as i8
            } else {
                -10 + current_depth as i8
            }
        },
        GameState::Draw => 0,
        GameState::Ongoing => {
            let ghost b = board@;
            let mut best: Option<i8> = None;
            let mut position: usize = 0;
            while position < 9
                invariant
                    b == board@,
                    b.len() == 9,
                    position <= 9,
                    current_depth as int + empty_count(b) <= 9,
                    best_score_upto(
                        b,
                        player_to_move,
                        maximizing_player,
                        current_depth as int,
                        position as int,
                    ) == (match best {
                        Some(s) => Some(s as int),
                        None => None::<int>,
                    }),
                decreases 9 - position,
            {
                if board.cells[position] == Cell::Empty {
                    let mut next_board = board;
                    // the square is empty, so the move is accepted
                    let _ = next_board.make_move(player_to_move, position);
                    proof {
                        lemma_empties_after_move(b, position as int, player_to_move, 9);
                    }
                    assert(next_board@ == after_move(b, position as int, player_to_move));
                    let s = minimax(
                        next_board,
                        player_to_move.opponent(),
                        maximizing_player,
                        current_depth + 1,
                    );
                    best = match best {
                        None => Some(s),
                        Some(t) => Some(
                            if player_to_move == maximizing_player {
                                if s > t {
                                    s
                                } else {
                                    t
                                }
                            } else {
                                if s < t {
                                    s
                                } else {
                                    t
                                }
                            },
                        ),
                    };
                }
                position = position + 1;
            }
            proof {
                lemma_best_score_exists(
                    b,
                    player_to_move,
                    maximizing_player,
                    current_depth as int,
                    9,
                );
            }
            assert(best is Some);
            match best {
                Some(s) => s,
                None => 0,
            }
        },
    }
}

/// The square on which `current_player` should play: over the empty squares, the
/// one whose minimax score is greatest, the first such one in square order.
pub fn get_best_move(board: &Board, current_player: Player) -> (r: usize)
    requires
        !is_full(board@),
    ensures
        is_best_move(board@, current_player, r as int),
{
    let ghost b = board@;
    let mut found = false;
    let mut best_position: usize = 0;
    let mut best_score: i8 = 0;
    let mut position: usize = 0;
    proof {
        lemma_empties_upto_bound(b, 9);
    }
    while position < 9
        invariant
            b == board@,
            b.len() == 9,
            position <= 9,
            empty_count(b) <= 9,
            !found ==> forall|j: int| 0 <= j < position ==> #[trigger] b[j] != Cell::Empty,
            found ==> {
                &&& best_position < position
                &&& b[best_position as int] == Cell::Empty
                &&& best_score as int == move_score(b, current_player, best_position as int)
                &&& forall|j: int|
                    0 <= j < position && b[j] == Cell::Empty ==> #[trigger] move_score(
                        b,
                        current_player,
                        j,
                    ) <= best_score
                &&& forall|j: int|
                    0 <= j < best_position && b[j] == Cell::Empty ==> #[trigger] move_score(
                        b,
                        current_player,
                        j,
                    ) < best_score
            },
        decreases 9 - position,
    {
        if board.cells[position] == Cell::Empty {
            let mut next_board = *board;
            // the square is empty, so the move is accepted
            let _ = next_board.make_move(current_player, position);
            proof {
                lemma_empties_after_move(b, position as int, current_player, 9);
            }
            assert(next_board@ == after_move(b, position as int, current_player));
            let s = minimax(next_board, current_player.opponent(), current_player, 0);
            if !found || s > best_score {
                found = true;
                best_position = position;
                best_score = s;
            }
        }
        position = position + 1;
    }
    best_position
}

/// The square that the search picks for a side is always one where that side
/// may move: playing it never fails.
pub proof fn lemma_best_move_is_legal(board: Board, p: Player)
    requires
        !is_full(board@),
    ensures
        forall|pos: int| #[trigger]
            is_best_move(board@, p, pos) ==> move_result(board@, pos) is Ok,
{
}

} // verus!
