use ultimate_ttt_bot::board::Board;
use ultimate_ttt_bot::board::Move;
use ultimate_ttt_bot::board::Outcome;
use ultimate_ttt_bot::board::Side;
use ultimate_ttt_bot::mcts::bot_move;
use ultimate_ttt_bot::mcts::uct_policy;
use ultimate_ttt_bot::mcts::Node;
use ultimate_ttt_bot::mcts::Tree;

fn fresh_board() -> Board {
    Board {
        x_board: [0; 9],
        o_board: [0; 9],
        side: Side::X,
        current_square: None,
        square_states: [Outcome::Undecided; 9],
    }
}

fn root_node() -> Node {
    Node {
        side: Side::O,
        node_move: Move { tile: 4, square: 4 },
        wins: 0,
        visits: 0,
        children: None,
    }
}

#[test]
fn uct_policy_exact_values() {
    // with one visit of the parent the exploration term is zero: the weight
    // is the fixed-point mean plus the positivity unit
    assert_eq!(uct_policy(0, 1, 1), 1);
    assert_eq!(uct_policy(1, 1, 1), 65537);
    // 1.4 * sqrt(ln 2) in fixed point
    assert_eq!(uct_policy(0, 1, 2), 76387);
    assert_eq!(uct_policy(1, 2, 4), 109155);
    assert_eq!(uct_policy(3, 2, 8), 191858);
}

#[test]
fn expand_appends_one_child_per_move() {
    let mut tree = Tree { nodes: vec![root_node()] };
    let b = fresh_board();
    tree.expand(0, &b);
    assert_eq!(tree.nodes.len(), 82);
    assert_eq!(tree.nodes[0].children, Some((1, 82)));
    assert_eq!(tree.nodes[1].node_move, Move { tile: 0, square: 0 });
    assert_eq!(tree.nodes[10].node_move, Move { tile: 0, square: 1 });
    assert_eq!(tree.nodes[81].node_move, Move { tile: 8, square: 8 });
    for child in &tree.nodes[1..] {
        assert_eq!(child.side, Side::X);
        assert_eq!(child.wins, 0);
        assert_eq!(child.visits, 0);
        assert_eq!(child.children, None);
    }
}

#[test]
fn expand_on_decided_board_is_a_no_op() {
    let mut tree = Tree { nodes: vec![root_node()] };
    let mut b = fresh_board();
    b.x_board[0] = 0b000000111;
    b.x_board[1] = 0b000000111;
    b.x_board[2] = 0b000000111;
    b.square_states[0] = Outcome::X;
    b.square_states[1] = Outcome::X;
    b.square_states[2] = Outcome::X;
    tree.expand(0, &b);
    assert_eq!(tree.nodes.len(), 1);
    assert_eq!(tree.nodes[0].children, None);
}

#[test]
fn select_prefers_first_unvisited_child() {
    let mut tree = Tree { nodes: vec![root_node()] };
    tree.expand(0, &fresh_board());
    let mut root = tree.nodes[0];
    root.visits = 3;
    // mark the first two children visited
    tree.nodes[1].visits = 1;
    tree.nodes[1].wins = 2;
    tree.nodes[2].visits = 1;
    assert_eq!(root.select(&tree), 3);
}

#[test]
fn select_single_child_directly() {
    let nodes = vec![
        Node {
            side: Side::O,
            node_move: Move { tile: 4, square: 4 },
            wins: 0,
            visits: 5,
            children: Some((1, 2)),
        },
        Node {
            side: Side::X,
            node_move: Move { tile: 0, square: 4 },
            wins: 4,
            visits: 3,
            children: None,
        },
    ];
    let tree = Tree { nodes };
    let root = tree.nodes[0];
    assert_eq!(root.select(&tree), 1);
}

#[test]
fn select_weighted_draw_stays_in_range() {
    let mut tree = Tree { nodes: vec![root_node()] };
    tree.expand(0, &fresh_board());
    let mut root = tree.nodes[0];
    root.visits = 200;
    for i in 1..82 {
        tree.nodes[i].visits = 2;
        tree.nodes[i].wins = (i % 5) as u32;
    }
    for _ in 0..50 {
        let picked = root.select(&tree);
        assert!(1 <= picked && picked < 82);
    }
}

#[test]
fn bot_move_returns_a_legal_move() {
    let mut b = fresh_board();
    let last = Move { tile: 4, square: 4 };
    b.place(last);
    let chosen = bot_move(&b, last, 300);
    assert!(b.is_legal(chosen));
    assert_eq!(chosen.square, 4);
}

#[test]
fn bot_move_takes_the_winning_move() {
    // X owns the top two meta-row sub-boards and is forced into sub-board 2,
    // where only tile 2 is free; that placement wins the game.
    let mut b = fresh_board();
    b.x_board[0] = 0b000000111;
    b.x_board[1] = 0b000000111;
    b.square_states[0] = Outcome::X;
    b.square_states[1] = Outcome::X;
    b.x_board[2] = 0b001100011;
    b.o_board[2] = 0b110011000;
    b.current_square = Some(2);
    b.side = Side::X;
    for _ in 0..5 {
        let chosen = bot_move(&b, Move { tile: 2, square: 1 }, 500);
        assert_eq!(chosen, Move { tile: 2, square: 2 });
    }
}

#[test]
fn bot_move_plays_a_full_game() {
    let mut board = fresh_board();
    let mut last_move = Move { tile: 4, square: 4 };
    board.place(last_move);
    let mut plies = 1;
    while board.check_board_outcome() == Outcome::Undecided {
        last_move = bot_move(&board, last_move, 40);
        assert!(board.is_legal(last_move));
        board.place(last_move);
        plies += 1;
        assert!(plies <= 81);
    }
    assert_ne!(board.check_board_outcome(), Outcome::Undecided);
}

