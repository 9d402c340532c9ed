use ultimate_ttt_bot::board::outcome_matches;
use ultimate_ttt_bot::board::Board;
use ultimate_ttt_bot::board::Move;
use ultimate_ttt_bot::board::Outcome;
use ultimate_ttt_bot::board::Side;

fn fresh_board() -> Board {
    Board {
        x_board: [0; 9],
        o_board: [0; 9],
        side: Side::X,
        current_square: None,
        square_states: [Outcome::Undecided; 9],
    }
}

const WIN_MASKS: [u16; 8] = [
    0b100100100,
    0b010010010,
    0b001001001,
    0b111000000,
    0b000111000,
    0b000000111,
    0b100010001,
    0b001010100,
];

#[test]
fn swap_flips_sides() {
    assert_eq!(Side::X.swap(), Side::O);
    assert_eq!(Side::O.swap(), Side::X);
}

#[test]
fn outcome_matches_sides_only() {
    assert!(outcome_matches(Outcome::X, Side::X));
    assert!(outcome_matches(Outcome::O, Side::O));
    assert!(!outcome_matches(Outcome::X, Side::O));
    assert!(!outcome_matches(Outcome::O, Side::X));
    assert!(!outcome_matches(Outcome::Draw, Side::X));
    assert!(!outcome_matches(Outcome::Draw, Side::O));
    assert!(!outcome_matches(Outcome::Undecided, Side::X));
    assert!(!outcome_matches(Outcome::Undecided, Side::O));
}

#[test]
fn get_s_idx_follows_forced_square() {
    let mut b = fresh_board();
    assert_eq!(b.get_s_idx(7), 7);
    b.current_square = Some(3);
    assert_eq!(b.get_s_idx(7), 3);
}

#[test]
fn fresh_board_has_81_moves() {
    let b = fresh_board();
    let moves = b.get_legal_moves();
    assert_eq!(moves.len(), 81);
    // sub-board ascending, then tile ascending
    for s in 0..9u8 {
        for t in 0..9u8 {
            assert_eq!(moves[(s as usize) * 9 + t as usize], Move { tile: t, square: s });
        }
    }
}

#[test]
fn replayed_move_is_illegal() {
    let mut b = fresh_board();
    let m = Move { tile: 4, square: 4 };
    assert!(b.is_legal(m));
    b.place(m);
    assert!(!b.is_legal(m));
}

#[test]
fn square_outcome_win_patterns() {
    for mask in WIN_MASKS {
        let mut b = fresh_board();
        b.x_board[5] = mask;
        assert_eq!(b.check_square_outcome(5), Outcome::X);
        let mut b = fresh_board();
        b.o_board[5] = mask;
        assert_eq!(b.check_square_outcome(5), Outcome::O);
    }
}

#[test]
fn square_outcome_draw_and_undecided() {
    // X O X / X O O / O X X: full, no three-in-a-row
    let mut b = fresh_board();
    b.x_board[2] = 0b110001101;
    b.o_board[2] = 0b001110010;
    assert_eq!(b.check_square_outcome(2), Outcome::Draw);

    let mut b = fresh_board();
    b.x_board[2] = 0b000000011;
    b.o_board[2] = 0b000011000;
    assert_eq!(b.check_square_outcome(2), Outcome::Undecided);
}

#[test]
fn board_outcome_mirrors_square_rule() {
    // sub-boards 0, 1, 2 won by X: the top meta-row
    let mut b = fresh_board();
    b.x_board[0] = 0b000000111;
    b.x_board[1] = 0b000000111;
    b.x_board[2] = 0b000000111;
    b.square_states[0] = Outcome::X;
    b.square_states[1] = Outcome::X;
    b.square_states[2] = Outcome::X;
    assert_eq!(b.check_board_outcome(), Outcome::X);

    // the meta-diagonal for O
    let mut b = fresh_board();
    b.o_board[0] = 0b000000111;
    b.o_board[4] = 0b000000111;
    b.o_board[8] = 0b000000111;
    b.square_states[0] = Outcome::O;
    b.square_states[4] = Outcome::O;
    b.square_states[8] = Outcome::O;
    assert_eq!(b.check_board_outcome(), Outcome::O);

    // every sub-board resolved, no meta line
    let mut b = fresh_board();
    let states = [
        Outcome::X,
        Outcome::O,
        Outcome::X,
        Outcome::X,
        Outcome::O,
        Outcome::O,
        Outcome::O,
        Outcome::X,
        Outcome::Draw,
    ];
    for (i, st) in states.iter().enumerate() {
        b.square_states[i] = *st;
    }
    assert_eq!(b.check_board_outcome(), Outcome::Draw);

    assert_eq!(fresh_board().check_board_outcome(), Outcome::Undecided);
}

#[test]
fn forced_square_follows_tile() {
    // the tile played forces the matching sub-board while it is open
    let mut b = fresh_board();
    b.place(Move { tile: 7, square: 3 });
    assert_eq!(b.current_square, Some(7));

    // a tile pointing at a resolved sub-board sends the opponent anywhere
    let mut b = fresh_board();
    b.x_board[3] = 0b000000111;
    b.square_states[3] = Outcome::X;
    b.place(Move { tile: 3, square: 5 });
    assert_eq!(b.current_square, None);
}

#[test]
fn center_opening() {
    let mut b = fresh_board();
    b.place(Move { tile: 4, square: 4 });
    assert_eq!(b.x_board[4], 0b000010000);
    assert_eq!(b.side, Side::O);
    assert_eq!(b.current_square, Some(4));
}

#[test]
fn third_tile_wins_sub_board() {
    // X already holds tiles 0 and 1 of sub-board 0; the third tile of the
    // top row decides it
    let mut b = fresh_board();
    b.x_board[0] = 0b000000011;
    assert_eq!(b.square_states[0], Outcome::Undecided);
    b.place(Move { tile: 2, square: 0 });
    assert_eq!(b.square_states[0], Outcome::X);

    // unconstrained enumeration no longer offers sub-board 0
    b.current_square = None;
    let moves = b.get_legal_moves();
    assert!(moves.len() > 0);
    for m in moves {
        assert_ne!(m.square, 0);
    }
}

#[test]
fn legal_moves_respect_forced_square() {
    let mut b = fresh_board();
    b.x_board[6] = 0b000010001;
    b.o_board[6] = 0b000000100;
    b.current_square = Some(6);
    b.side = Side::O;
    let moves = b.get_legal_moves();
    assert_eq!(moves.len(), 6);
    for m in &moves {
        assert_eq!(m.square, 6);
    }
    assert_eq!(moves[0], Move { tile: 1, square: 6 });
    assert_eq!(moves[5], Move { tile: 8, square: 6 });
}

#[test]
fn decided_board_has_no_moves() {
    let mut b = fresh_board();
    b.x_board[0] = 0b000000111;
    b.x_board[1] = 0b000000111;
    b.x_board[2] = 0b000000111;
    b.square_states[0] = Outcome::X;
    b.square_states[1] = Outcome::X;
    b.square_states[2] = Outcome::X;
    assert_eq!(b.get_legal_moves().len(), 0);
}
