use tictactoe::game::{Board, Cell, GameState, MoveError, Player};

const X: Cell = Cell::Player(Player::One);
const O: Cell = Cell::Player(Player::Two);
const E: Cell = Cell::Empty;

fn board_of(cells: [Cell; 9]) -> Board {
    Board { cells }
}

#[test]
fn opponent_swaps_sides() {
    assert_eq!(Player::One.opponent(), Player::Two);
    assert_eq!(Player::Two.opponent(), Player::One);
}

#[test]
fn new_board_is_empty_and_ongoing() {
    let b = Board::new();
    assert_eq!(b.as_iter(), vec![E; 9]);
    assert_eq!(b.get_state(), GameState::Ongoing);
}

#[test]
fn make_move_sets_only_the_target_square() {
    let mut b = Board::new();
    assert_eq!(b.make_move(Player::Two, 4), Ok(()));
    assert_eq!(b.as_iter(), vec![E, E, E, E, O, E, E, E, E]);
    assert_eq!(b.make_move(Player::One, 8), Ok(()));
    assert_eq!(b.as_iter(), vec![E, E, E, E, O, E, E, E, X]);
}

#[test]
fn out_of_range_move_is_refused_and_board_unchanged() {
    let mut b = board_of([X, O, E, E, E, E, E, E, E]);
    let before = b.as_iter();
    assert_eq!(b.make_move(Player::One, 9), Err(MoveError::PositionOutOfRange));
    assert_eq!(b.make_move(Player::Two, 100), Err(MoveError::PositionOutOfRange));
    assert_eq!(b.make_move(Player::Two, usize::MAX), Err(MoveError::PositionOutOfRange));
    assert_eq!(b.as_iter(), before);
}

#[test]
fn occupied_move_is_refused_and_board_unchanged() {
    let mut b = board_of([X, O, E, E, E, E, E, E, E]);
    let before = b.as_iter();
    assert_eq!(b.make_move(Player::One, 0), Err(MoveError::PositionOccupied));
    assert_eq!(b.make_move(Player::Two, 0), Err(MoveError::PositionOccupied));
    assert_eq!(b.make_move(Player::One, 1), Err(MoveError::PositionOccupied));
    assert_eq!(b.as_iter(), before);
}

#[test]
fn full_board_without_line_is_draw() {
    let b = board_of([X, O, X, X, O, O, O, X, X]);
    assert_eq!(b.get_state(), GameState::Draw);
}

#[test]
fn every_line_wins() {
    let lines = [
        [0, 1, 2],
        [3, 4, 5],
        [6, 7, 8],
        [0, 3, 6],
        [1, 4, 7],
        [2, 5, 8],
        [0, 4, 8],
        [2, 4, 6],
    ];
    for line in lines {
        for (side, mark) in [(Player::One, X), (Player::Two, O)] {
            let mut cells = [E; 9];
            for i in line {
                cells[i] = mark;
            }
            assert_eq!(board_of(cells).get_state(), GameState::Win(side));
        }
    }
}

#[test]
fn two_in_a_line_is_not_a_win() {
    let b = board_of([X, X, E, O, O, E, E, E, E]);
    assert_eq!(b.get_state(), GameState::Ongoing);
}

#[test]
fn win_on_full_board_is_a_win_not_a_draw() {
    let b = board_of([X, X, X, O, O, X, X, O, O]);
    assert_eq!(b.get_state(), GameState::Win(Player::One));
}

#[test]
fn second_player_win_on_diagonal() {
    let b = board_of([X, X, O, E, O, X, O, E, E]);
    assert_eq!(b.get_state(), GameState::Win(Player::Two));
}

#[test]
fn lines_for_both_sides_go_to_the_earlier_line() {
    let b = board_of([O, O, O, X, X, X, E, E, E]);
    assert_eq!(b.get_state(), GameState::Win(Player::Two));
    let b = board_of([X, X, X, O, O, O, E, E, E]);
    assert_eq!(b.get_state(), GameState::Win(Player::One));
}

#[test]
fn render_draws_three_rows() {
    let b = board_of([X, O, E, E, X, E, O, E, X]);
    let text: String = b.render().into_iter().collect();
    assert_eq!(text, "XO#\n#X#\nO#X");
    let empty: String = Board::new().render().into_iter().collect();
    assert_eq!(empty, "###\n###\n###");
}

#[test]
fn symbols_of_sides_and_squares() {
    assert_eq!(Player::One.symbol(), 'X');
    assert_eq!(Player::Two.symbol(), 'O');
    assert_eq!(X.symbol(), 'X');
    assert_eq!(O.symbol(), 'O');
    assert_eq!(E.symbol(), '#');
}
