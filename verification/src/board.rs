//! Board state for Ultimate Tic-Tac-Toe: 9 sub-boards of 9 tiles each,
//! kept as one 9-bit occupancy mask per side per sub-board.

use vstd::prelude::*;

verus! {

/// Which player moves: X or O.
#[derive(Copy, Clone, Debug, PartialEq, Eq, Structural)]
pub enum Side {
    X,
    O,
}

/// The result of a sub-board or of the whole game.
#[derive(Copy, Clone, Debug, PartialEq, Eq, Structural)]
pub enum Outcome {
    X,
    O,
    Draw,
    Undecided,
}

/// The opponent of a side.
pub open spec fn spec_opposite(s: Side) -> Side {
    match s {
        Side::X => Side::O,
        Side::O => Side::X,
    }
}

impl Side {
    /// Returns the opponent.
    pub fn swap(self) -> (r: Self)
        ensures
            r == spec_opposite(self),
    {
        match self {
            Side::X => Side::O,
            Side::O => Side::X,
        }
    }
}

/// True when `outcome` is the win of exactly `side`; Draw and Undecided
/// match neither side.
pub open spec fn spec_outcome_matches(outcome: Outcome, side: Side) -> bool {
    match outcome {
        Outcome::X => side == Side::X,
        Outcome::O => side == Side::O,
        _ => false,
    }
}

/// Decides whether `outcome` is the win of `side`.
pub fn outcome_matches(outcome: Outcome, side: Side) -> (r: bool)
    ensures
        r == spec_outcome_matches(outcome, side),
{
    match outcome {
        Outcome::X => side == Side::X,
        Outcome::O => side == Side::O,
        _ => false,
    }
}

/// A 9-bit mask holds a three-in-a-row when it covers one of the
/// 3 rows, 3 columns or 2 diagonals of the row-major 3x3 layout.
pub open spec fn spec_is_winning(square: u16) -> bool {
    ||| square & 0b100100100 == 0b100100100
    ||| square & 0b010010010 == 0b010010010
    ||| square & 0b001001001 == 0b001001001
    ||| square & 0b111000000 == 0b111000000
    ||| square & 0b000111000 == 0b000111000
    ||| square & 0b000000111 == 0b000000111
    ||| square & 0b100010001 == 0b100010001
    ||| square & 0b001010100 == 0b001010100
}

fn is_winning(square: u16) -> (r: bool)
    ensures
        r == spec_is_winning(square),
{
    (square & 0b100100100 == 0b100100100)
        || (square & 0b010010010 == 0b010010010)
        || (square & 0b001001001 == 0b001001001)
        || (square & 0b111000000 == 0b111000000)
        || (square & 0b000111000 == 0b000111000)
        || (square & 0b000000111 == 0b000000111)
        || (square & 0b100010001 == 0b100010001)
        || (square & 0b001010100 == 0b001010100)
}

/// One cell: `tile` within sub-board `square`, both in 0..=8, row-major
/// (bit 0 is the top-left tile, bit 8 the bottom-right one).
#[derive(Copy, Clone, Debug, PartialEq, Eq, Structural)]
pub struct Move {
    pub tile: u8,
    pub square: u8,
}

/// The whole game state. Bit `t` of `x_board[s]` (resp. `o_board[s]`) set
/// means X (resp. O) occupies tile `t` of sub-board `s`. `side` is the side
/// to move next; `current_square` the sub-board the next move is forced to,
/// if any; `square_states` the cached outcome of each sub-board.
#[derive(Copy, Clone, Debug, PartialEq)]
pub struct Board {
    pub x_board: [u16; 9],
    pub o_board: [u16; 9],
    pub side: Side,
    pub current_square: Option<u8>,
    pub square_states: [Outcome; 9],
}

/// A move has its tile and square indices inside the 3x3-of-3x3 grid.
pub open spec fn spec_move_valid(m: Move) -> bool {
    m.tile < 9 && m.square < 9
}

/// The forced sub-board is inside the grid.
pub open spec fn spec_cs_valid(b: Board) -> bool {
    match b.current_square {
        Some(i) => i < 9,
        None => true,
    }
}

/// Outcome of one sub-board from the two occupancy masks: a win for
/// whichever side holds a three-in-a-row (X checked first), Draw when all
/// nine tiles are taken with no winner, Undecided otherwise.
pub open spec fn spec_square_outcome(x: u16, o: u16) -> Outcome {
    if spec_is_winning(x) {
        Outcome::X
    } else if spec_is_winning(o) {
        Outcome::O
    } else if x | o == 0b111111111 {
        Outcome::Draw
    } else {
        Outcome::Undecided
    }
}

/// The sub-board a move addressed to `square` really lands in: the forced
/// sub-board when there is one, `square` itself otherwise.
pub open spec fn spec_effective_square(b: Board, square: u8) -> u8 {
    match b.current_square {
        None => square,
        Some(i) => i,
    }
}

/// A move is legal when its effective sub-board is still undecided and the
/// tile there is free for both sides.
pub open spec fn spec_is_legal(b: Board, m: Move) -> bool {
    let s = spec_effective_square(b, m.square) as int;
    &&& spec_square_outcome(b.x_board[s], b.o_board[s]) == Outcome::Undecided
    &&& b.x_board[s] & (1u16 << m.tile) == 0
    &&& b.o_board[s] & (1u16 << m.tile) == 0
}

impl Board {
    /// The sub-board a move addressed to `s_idx` really lands in.
    pub fn get_s_idx(&self, s_idx: u8) -> (r: u8)
        ensures
            r == spec_effective_square(*self, s_idx),
    {
        match self.current_square {
            None => s_idx,
            Some(i) => i,
        }
    }

    /// Outcome of sub-board `s_idx`, derived fresh from the two masks.
    pub fn check_square_outcome(&self, s_idx: u8) -> (r: Outcome)
        requires
            s_idx < 9,
        ensures
            r == spec_square_outcome(self.x_board[s_idx as int], self.o_board[s_idx as int]),
    {
        let x_square = self.x_board[s_idx as usize];
        let o_square = self.o_board[s_idx as usize];
        if is_winning(x_square) {
            Outcome::X
        } else if is_winning(o_square) {
            Outcome::O
        } else if x_square | o_square == 0b111111111 {
            Outcome::Draw
        } else {
            Outcome::Undecided
        }
    }

    /// Decides move legality: the effective target sub-board is undecided
    /// and nobody occupies the tile there yet.
    pub fn is_legal(&self, mov: Move) -> (r: bool)
        requires
            mov.tile < 9,
            spec_cs_valid(*self),
            mov.square < 9,
        ensures
            r == spec_is_legal(*self, mov),
    {
        let s_idx = self.get_s_idx(mov.square);
        self.check_square_outcome(s_idx) == Outcome::Undecided
            && (self.x_board[s_idx as usize] & (1u16 << mov.tile)) == 0
            && (self.o_board[s_idx as usize] & (1u16 << mov.tile)) == 0
    }
}

/// Everything `place` does: `post` is `pre` with the mover's bit set in the
/// effective sub-board, that sub-board's outcome re-derived and cached when
/// it became decided, the next forced sub-board set to the tile just played
/// (or to none when that sub-board is resolved), and the side swapped.
pub open spec fn spec_place_post(pre: Board, m: Move, post: Board) -> bool {
    let s = spec_effective_square(pre, m.square) as int;
    &&& post.side == spec_opposite(pre.side)
    &&& (forall|j: int| 0 <= j < 9 && j != s ==> post.x_board[j] == pre.x_board[j])
    &&& (forall|j: int| 0 <= j < 9 && j != s ==> post.o_board[j] == pre.o_board[j])
    &&& (match pre.side {
        Side::X => post.x_board[s] == pre.x_board[s] | (1u16 << m.tile) && post.o_board[s]
            == pre.o_board[s],
        Side::O => post.o_board[s] == pre.o_board[s] | (1u16 << m.tile) && post.x_board[s]
            == pre.x_board[s],
    })
    &&& (forall|j: int| 0 <= j < 9 && j != s ==> post.square_states[j] == pre.square_states[j])
    &&& post.square_states[s] == (if spec_square_outcome(post.x_board[s], post.o_board[s])
        != Outcome::Undecided {
        spec_square_outcome(post.x_board[s], post.o_board[s])
    } else {
        pre.square_states[s]
    })
    &&& post.current_square == (if spec_square_outcome(
        post.x_board[m.tile as int],
        post.o_board[m.tile as int],
    ) == Outcome::Undecided {
        Some(m.tile)
    } else {
        None::<u8>
    })
}

impl Board {
    /// Applies a move for the side to move. Callers are responsible for the
    /// move's legality: an illegal move is applied all the same (its bit is
    /// OR-ed in) and may corrupt the game invariants.
    pub fn place(&mut self, mov: Move)
        requires
            mov.tile < 9,
            mov.square < 9,
            spec_cs_valid(*old(self)),
        ensures
            spec_place_post(*old(self), mov, *final(self)),
    {
        let s_idx = self.get_s_idx(mov.square) as usize;

        match self.side {
            Side::X => {
                self.x_board[s_idx] = self.x_board[s_idx] | (1u16 << mov.tile);
            },
            Side::O => {
                self.o_board[s_idx] = self.o_board[s_idx] | (1u16 << mov.tile);
            },
        }

        let outcome = self.check_square_outcome(s_idx as u8);
        if outcome != Outcome::Undecided {
            self.square_states[s_idx] = outcome;
        }

        self.current_square = match self.check_square_outcome(mov.tile) {
            Outcome::Undecided => Some(mov.tile),
            _ => None,
        };
        self.side = self.side.swap();
    }
}

/// The meta-board mask of `b` for `outcome`, over the sub-boards below `s`:
/// bit `j` is set when `square_states[j] == outcome`.
pub open spec fn spec_states_mask_upto(b: Board, outcome: Outcome, s: int) -> u16
    decreases s,
{
    if s <= 0 {
        0u16
    } else {
        spec_states_mask_upto(b, outcome, s - 1) | (if b.square_states[s - 1] == outcome {
            (1u16 << ((s - 1) as u16))
        } else {
            0u16
        })
    }
}

/// The full meta-board mask of `b` for `outcome`.
pub open spec fn spec_states_mask(b: Board, outcome: Outcome) -> u16 {
    spec_states_mask_upto(b, outcome, 9)
}

/// Every sub-board is resolved.
pub open spec fn spec_all_decided(b: Board) -> bool {
    forall|j: int| 0 <= j < 9 ==> b.square_states[j] != Outcome::Undecided
}

/// The overall outcome: the sub-board outcomes form a meta-board checked
/// with the same win patterns; Draw when every sub-board is resolved with
/// no winning line, Undecided otherwise.
pub open spec fn spec_board_outcome(b: Board) -> Outcome {
    if spec_is_winning(spec_states_mask(b, Outcome::X)) {
        Outcome::X
    } else if spec_is_winning(spec_states_mask(b, Outcome::O)) {
        Outcome::O
    } else if spec_all_decided(b) {
        Outcome::Draw
    } else {
        Outcome::Undecided
    }
}

impl Board {
    /// The meta-board mask: bit `j` set when sub-board `j` resolved to
    /// `outcome`.
    fn states_to_u16(&self, outcome: Outcome) -> (r: u16)
        ensures
            r == spec_states_mask(*self, outcome),
    {
        let mut acc: u16 = 0;
        let mut idx: usize = 0;
        while idx < 9
            invariant
                idx <= 9,
                acc == spec_states_mask_upto(*self, outcome, idx as int),
            decreases 9 - idx,
        {
            if self.square_states[idx] == outcome {
                acc = acc | (1u16 << (idx as u16));
            } else {
                proof {
                    assert(acc | 0u16 == acc) by (bit_vector);
                }
            }
            idx = idx + 1;
        }
        acc
    }

    /// The overall outcome of the game.
    pub fn check_board_outcome(&self) -> (r: Outcome)
        ensures
            r == spec_board_outcome(*self),
    {
        if is_winning(self.states_to_u16(Outcome::X)) {
            Outcome::X
        } else if is_winning(self.states_to_u16(Outcome::O)) {
            Outcome::O
        } else {
            let mut all_decided = true;
            let mut idx: usize = 0;
            while idx < 9
                invariant
                    idx <= 9,
                    all_decided == (forall|j: int|
                        0 <= j < idx ==> self.square_states[j] != Outcome::Undecided),
                decreases 9 - idx,
            {
                if self.square_states[idx] == Outcome::Undecided {
                    all_decided = false;
                }
                idx = idx + 1;
            }
            if all_decided {
                Outcome::Draw
            } else {
                Outcome::Undecided
            }
        }
    }
}

/// The moves into sub-board `s_idx` whose tile is below `t` and free in the
/// occupancy mask `occ`, tile ascending.
pub open spec fn spec_tiles_upto(s_idx: u8, occ: u16, t: int) -> Seq<Move>
    decreases t,
{
    if t <= 0 {
        Seq::<Move>::empty()
    } else {
        spec_tiles_upto(s_idx, occ, t - 1) + (if occ & (1u16 << ((t - 1) as u8)) == 0 {
            seq![Move { tile: (t - 1) as u8, square: s_idx }]
        } else {
            Seq::<Move>::empty()
        })
    }
}

/// All free tiles of one sub-board as moves, tile ascending.
pub open spec fn spec_squares_to_move(s_idx: u8, occ: u16) -> Seq<Move> {
    spec_tiles_upto(s_idx, occ, 9)
}

fn squares_to_move(s_idx: u8, square: u16) -> (r: Vec<Move>)
    ensures
        r@ == spec_squares_to_move(s_idx, square),
{
    let mut v: Vec<Move> = Vec::new();
    let mut t: u8 = 0;
    while t < 9
        invariant
            t <= 9,
            v@ == spec_tiles_upto(s_idx, square, t as int),
        decreases 9 - t,
    {
        if square & (1u16 << t) == 0 {
            v.push(Move { tile: t, square: s_idx });
        }
        t = t + 1;
    }
    v
}

/// The legal moves of the unconstrained case, over the sub-boards below `s`:
/// all free tiles of every sub-board whose cached state is Undecided,
/// sub-board ascending, tile ascending within one sub-board.
pub open spec fn spec_open_moves_upto(b: Board, s: int) -> Seq<Move>
    decreases s,
{
    if s <= 0 {
        Seq::<Move>::empty()
    } else {
        spec_open_moves_upto(b, s - 1) + (if b.square_states[s - 1] == Outcome::Undecided {
            spec_squares_to_move((s - 1) as u8, b.x_board[s - 1] | b.o_board[s - 1])
        } else {
            Seq::<Move>::empty()
        })
    }
}

/// What `get_legal_moves` returns: nothing on a decided board; the free
/// tiles of the forced sub-board when forced; otherwise the free tiles of
/// every undecided sub-board, sub-board ascending then tile ascending.
pub open spec fn spec_legal_moves(b: Board) -> Seq<Move> {
    if spec_board_outcome(b) != Outcome::Undecided {
        Seq::<Move>::empty()
    } else {
        match b.current_square {
            None => spec_open_moves_upto(b, 9),
            Some(i) => spec_squares_to_move(i, b.x_board[i as int] | b.o_board[i as int]),
        }
    }
}

impl Board {
    /// Enumerates the legal moves, in the order the search tree's child
    /// ranges are aligned to: sub-board index ascending, then tile index
    /// ascending. Empty exactly when the game is already decided.
    pub fn get_legal_moves(&self) -> (r: Vec<Move>)
        requires
            spec_cs_valid(*self),
        ensures
            r@ == spec_legal_moves(*self),
    {
        if self.check_board_outcome() != Outcome::Undecided {
            return Vec::new();
        }

        match self.current_square {
            None => {
                let mut v: Vec<Move> = Vec::new();
                let mut s: usize = 0;
                while s < 9
                    invariant
                        s <= 9,
                        v@ == spec_open_moves_upto(*self, s as int),
                    decreases 9 - s,
                {
                    if self.square_states[s] == Outcome::Undecided {
                        let mut tiles = squares_to_move(
                            s as u8,
                            self.x_board[s] | self.o_board[s],
                        );
                        v.append(&mut tiles);
                    }
                    s = s + 1;
                }
                v
            },
            Some(i) => squares_to_move(i, self.x_board[i as usize] | self.o_board[i as usize]),
        }
    }
}

/// Well-formedness of a board: every mask fits in 9 bits, every cached
/// sub-board state equals the outcome derived fresh from the masks, and a
/// forced sub-board is in range and still undecided.
pub open spec fn spec_wf(b: Board) -> bool {
    &&& (forall|j: int| 0 <= j < 9 ==> b.x_board[j] < 512 && b.o_board[j] < 512)
    &&& (forall|j: int|
        0 <= j < 9 ==> b.square_states[j] == spec_square_outcome(b.x_board[j], b.o_board[j]))
    &&& (match b.current_square {
        Some(i) => i < 9 && b.square_states[i as int] == Outcome::Undecided,
        None => true,
    })
}

/// No tile is occupied by both sides at once.
pub open spec fn spec_disjoint(b: Board) -> bool {
    forall|j: int| 0 <= j < 9 ==> b.x_board[j] & b.o_board[j] == 0
}

/// How many of the nine tile bits of one mask are set.
pub open spec fn pop9(m: u16) -> int {
    ((m >> 0u16) & 1) + ((m >> 1u16) & 1) + ((m >> 2u16) & 1) + ((m >> 3u16) & 1) + ((m >> 4u16)
        & 1) + ((m >> 5u16) & 1) + ((m >> 6u16) & 1) + ((m >> 7u16) & 1) + ((m >> 8u16) & 1)
}

/// How many tiles of the whole board are still free.
pub open spec fn spec_free_total(b: Board) -> int {
    81 - (pop9(b.x_board[0] | b.o_board[0]) + pop9(b.x_board[1] | b.o_board[1]) + pop9(
        b.x_board[2] | b.o_board[2],
    ) + pop9(b.x_board[3] | b.o_board[3]) + pop9(b.x_board[4] | b.o_board[4]) + pop9(
        b.x_board[5] | b.o_board[5],
    ) + pop9(b.x_board[6] | b.o_board[6]) + pop9(b.x_board[7] | b.o_board[7]) + pop9(
        b.x_board[8] | b.o_board[8],
    ))
}

/// Bit facts about 9-bit occupancy masks used throughout the proofs.
pub proof fn lemma_mask_bits()
    by (bit_vector)
    ensures
        forall|x: u16, t: u8| t < 9 ==> #[trigger] ((x | (1u16 << t)) & (1u16 << t)) != 0,
        forall|x: u16, t: u8| t < 9 && x < 512 ==> #[trigger] (x | (1u16 << t)) < 512,
        forall|x: u16, y: u16| spec_is_winning(x) ==> spec_is_winning(#[trigger] (x | y)),
        forall|x: u16, y: u16, t: u8|
            t < 9 ==> ((x | (1u16 << t)) | y) == ((x | y) | (1u16 << t)) && (x | (y | (1u16 << t)))
                == ((x | y) | (1u16 << t)),
        forall|x: u16, t: u8|
            t < 9 && x != 0b111111111 && x < 512 ==> #[trigger] (x | (1u16 << t))
                != 0b111111111 || x & (1u16 << t) == 0,
        forall|x: u16, y: u16, t: u8|
            t < 9 ==> ((#[trigger] ((x | y) & (1u16 << t))) == 0 <==> (x & (1u16 << t) == 0 && (y
                & (1u16 << t)) == 0)),
        forall|x: u16, y: u16| x < 512 && y < 512 ==> #[trigger] (x | y) < 512,
        forall|x: u16| #[trigger] (x | 0u16) == x && (0u16 | x) == x,
        forall|x: u16, t: u8|
            t < 9 && x & (1u16 << t) == 0 ==> pop9(#[trigger] (x | (1u16 << t))) == pop9(x) + 1,
        forall|x: u16| 0 <= #[trigger] pop9(x) <= 9,
        forall|x: u16|
            x < 512 && x != 0b111111111 ==> (x & 1u16 == 0 || x & 2u16 == 0 || x & 4u16 == 0 || x
                & 8u16 == 0 || x & 16u16 == 0 || x & 32u16 == 0 || x & 64u16 == 0 || x & 128u16 == 0
                || x & 256u16 == 0),
        forall|t: u8| t < 9 ==> 0u16 & (1u16 << t) == 0,
        (1u16 << 0u8) == 1u16 && (1u16 << 1u8) == 2u16 && (1u16 << 2u8) == 4u16 && (1u16 << 3u8)
            == 8u16 && (1u16 << 4u8) == 16u16 && (1u16 << 5u8) == 32u16 && (1u16 << 6u8) == 64u16
            && (1u16 << 7u8) == 128u16 && (1u16 << 8u8) == 256u16,
        !spec_is_winning(0u16),
{
}

/// A winning mask stays winning when more bits are set; so a sub-board,
/// once decided, never becomes undecided again by a further placement.
pub proof fn lemma_outcome_monotone(x: u16, o: u16, x2: u16, o2: u16)
    requires
        x2 == x | x2,
        o2 == o | o2,
        x2 < 512,
        o2 < 512,
        spec_square_outcome(x2, o2) == Outcome::Undecided,
    ensures
        spec_square_outcome(x, o) == Outcome::Undecided,
{
    assert(spec_is_winning(x) ==> spec_is_winning(x | x2)) by (bit_vector);
    assert(spec_is_winning(o) ==> spec_is_winning(o | o2)) by (bit_vector);
    assert((x | o) == 0b111111111 ==> (x2 | o2) == 0b111111111) by (bit_vector)
        requires
            x2 == x | x2,
            o2 == o | o2,
            x2 < 512,
            o2 < 512,
    ;
}

/// Placing any in-range move on a well-formed board leaves it well-formed:
/// the masks stay 9-bit, the cache stays exact, and the new forced
/// sub-board (if any) is in range and undecided.
pub proof fn lemma_place_preserves_wf(pre: Board, m: Move, post: Board)
    requires
        spec_wf(pre),
        spec_move_valid(m),
        spec_place_post(pre, m, post),
    ensures
        spec_wf(post),
{
    lemma_mask_bits();
    let s = spec_effective_square(pre, m.square) as int;
    assert(post.x_board[s] == pre.x_board[s] | post.x_board[s] && post.o_board[s] == pre.o_board[s]
        | post.o_board[s] && post.x_board[s] < 512 && post.o_board[s] < 512) by {
        assert(forall|a: u16, t: u8|
            t < 9 ==> #[trigger] (a | (1u16 << t)) == a | (a | (1u16 << t))) by (bit_vector);
        assert(forall|a: u16| #[trigger] (a | a) == a) by (bit_vector);
    }
    if spec_square_outcome(post.x_board[s], post.o_board[s]) == Outcome::Undecided {
        lemma_outcome_monotone(pre.x_board[s], pre.o_board[s], post.x_board[s], post.o_board[s]);
    }
}

/// A legal placement keeps the two sides' masks disjoint: no tile is ever
/// occupied by both X and O under legal play.
pub proof fn lemma_legal_place_preserves_disjoint(pre: Board, m: Move, post: Board)
    requires
        spec_cs_valid(pre),
        spec_disjoint(pre),
        spec_move_valid(m),
        spec_is_legal(pre, m),
        spec_place_post(pre, m, post),
    ensures
        spec_disjoint(post),
{
    let s = spec_effective_square(pre, m.square) as int;
    let x = pre.x_board[s];
    let o = pre.o_board[s];
    let t = m.tile;
    assert(x & o == 0 && x & (1u16 << t) == 0 && o & (1u16 << t) == 0 && t < 9 ==> ((x | (1u16
        << t)) & o) == 0 && (x & (o | (1u16 << t))) == 0 && ((o | (1u16 << t)) & x) == 0 && (o & (x
        | (1u16 << t))) == 0) by (bit_vector);
}

/// Every move in `spec_tiles_upto(s_idx, occ, k)` targets sub-board
/// `s_idx`, has a tile below `k`, and its tile is free in `occ`.
pub proof fn lemma_tiles_upto_shape(s_idx: u8, occ: u16, k: int)
    requires
        k <= 9,
    ensures
        forall|i: int|
            0 <= i < spec_tiles_upto(s_idx, occ, k).len() ==> {
                let m = #[trigger] spec_tiles_upto(s_idx, occ, k)[i];
                m.square == s_idx && m.tile < k && occ & (1u16 << m.tile) == 0
            },
    decreases k,
{
    if k > 0 {
        lemma_tiles_upto_shape(s_idx, occ, k - 1);
        let prev = spec_tiles_upto(s_idx, occ, k - 1);
        let cur = spec_tiles_upto(s_idx, occ, k);
        assert forall|i: int| 0 <= i < cur.len() implies {
            let m = #[trigger] cur[i];
            m.square == s_idx && m.tile < k && occ & (1u16 << m.tile) == 0
        } by {
            if i < prev.len() {
                assert(cur[i] == prev[i]);
            } else {
                assert(cur[i] == (Move { tile: (k - 1) as u8, square: s_idx }));
            }
        }
    }
}

/// Each free tile below `k` appears in `spec_tiles_upto(s_idx, occ, k)`.
pub proof fn lemma_tiles_upto_contains(s_idx: u8, occ: u16, t: u8, k: int)
    requires
        t < k <= 9,
        occ & (1u16 << t) == 0,
    ensures
        spec_tiles_upto(s_idx, occ, k).contains(Move { tile: t, square: s_idx }),
    decreases k,
{
    if k - 1 == t {
        let s = spec_tiles_upto(s_idx, occ, k);
        assert(s[s.len() - 1] == (Move { tile: t, square: s_idx }));
    } else {
        lemma_tiles_upto_contains(s_idx, occ, t, k - 1);
        assert(spec_tiles_upto(s_idx, occ, k - 1).is_prefix_of(spec_tiles_upto(s_idx, occ, k)));
        let i = choose|i: int|
            0 <= i < spec_tiles_upto(s_idx, occ, k - 1).len() && #[trigger] spec_tiles_upto(
                s_idx,
                occ,
                k - 1,
            )[i] == (Move { tile: t, square: s_idx });
        assert(spec_tiles_upto(s_idx, occ, k)[i] == (Move { tile: t, square: s_idx }));
    }
}

/// Every move of the unconstrained enumeration below `s` targets an
/// undecided sub-board below `s` and a tile free there.
pub proof fn lemma_open_moves_upto_shape(b: Board, s: int)
    requires
        s <= 9,
    ensures
        forall|i: int|
            0 <= i < spec_open_moves_upto(b, s).len() ==> {
                let m = #[trigger] spec_open_moves_upto(b, s)[i];
                m.square < s && m.tile < 9 && b.square_states[m.square as int] == Outcome::Undecided
                    && (b.x_board[m.square as int] | b.o_board[m.square as int]) & (1u16 << m.tile)
                    == 0
            },
    decreases s,
{
    if s > 0 {
        lemma_open_moves_upto_shape(b, s - 1);
        lemma_tiles_upto_shape((s - 1) as u8, b.x_board[s - 1] | b.o_board[s - 1], 9);
        let prev = spec_open_moves_upto(b, s - 1);
        let tail = spec_squares_to_move((s - 1) as u8, b.x_board[s - 1] | b.o_board[s - 1]);
        let cur = spec_open_moves_upto(b, s);
        assert forall|i: int| 0 <= i < cur.len() implies {
            let m = #[trigger] cur[i];
            m.square < s && m.tile < 9 && b.square_states[m.square as int] == Outcome::Undecided
                && (b.x_board[m.square as int] | b.o_board[m.square as int]) & (1u16 << m.tile)
                == 0
        } by {
            if i < prev.len() {
                assert(cur[i] == prev[i]);
            } else {
                assert(cur[i] == tail[i - prev.len()]);
            }
        }
    }
}

/// When sub-board `j` is undecided, its free-tile moves are all in the
/// unconstrained enumeration at any cutoff above `j`.
pub proof fn lemma_open_moves_upto_contains(b: Board, j: u8, m: Move, s: int)
    requires
        j < s <= 9,
        b.square_states[j as int] == Outcome::Undecided,
        spec_squares_to_move(j, b.x_board[j as int] | b.o_board[j as int]).contains(m),
    ensures
        spec_open_moves_upto(b, s).contains(m),
    decreases s,
{
    let sub = spec_squares_to_move(j, b.x_board[j as int] | b.o_board[j as int]);
    let i = choose|i: int| 0 <= i < sub.len() && #[trigger] sub[i] == m;
    if s - 1 == j {
        assert(spec_open_moves_upto(b, s)[spec_open_moves_upto(b, s - 1).len() + i] == m);
    } else {
        lemma_open_moves_upto_contains(b, j, m, s - 1);
        let p = choose|p: int|
            0 <= p < spec_open_moves_upto(b, s - 1).len() && #[trigger] spec_open_moves_upto(
                b,
                s - 1,
            )[p] == m;
        assert(spec_open_moves_upto(b, s)[p] == m);
    }
}

/// Every move that `get_legal_moves` enumerates on a well-formed board is
/// in range and legal by `spec_is_legal`.
pub proof fn lemma_legal_moves_are_legal(b: Board, i: int)
    requires
        spec_wf(b),
        0 <= i < spec_legal_moves(b).len(),
    ensures
        spec_move_valid(spec_legal_moves(b)[i]),
        spec_is_legal(b, spec_legal_moves(b)[i]),
{
    lemma_mask_bits();
    let m = spec_legal_moves(b)[i];
    match b.current_square {
        Some(j) => {
            lemma_tiles_upto_shape(j, b.x_board[j as int] | b.o_board[j as int], 9);
        },
        None => {
            lemma_open_moves_upto_shape(b, 9);
        },
    }
}

/// Every enumerated move is inside the grid.
pub proof fn lemma_legal_moves_valid(b: Board)
    requires
        spec_cs_valid(b),
    ensures
        forall|i: int|
            0 <= i < spec_legal_moves(b).len() ==> spec_move_valid(
                #[trigger] spec_legal_moves(b)[i],
            ),
{
    match b.current_square {
        Some(j) => {
            lemma_tiles_upto_shape(j, b.x_board[j as int] | b.o_board[j as int], 9);
        },
        None => {
            lemma_open_moves_upto_shape(b, 9);
        },
    }
}

proof fn lemma_tiles_upto_len(s_idx: u8, occ: u16, k: int)
    requires
        0 <= k <= 9,
    ensures
        spec_tiles_upto(s_idx, occ, k).len() <= k,
    decreases k,
{
    if k > 0 {
        lemma_tiles_upto_len(s_idx, occ, k - 1);
    }
}

proof fn lemma_open_moves_len(b: Board, s: int)
    requires
        0 <= s <= 9,
    ensures
        spec_open_moves_upto(b, s).len() <= 9 * s,
    decreases s,
{
    if s > 0 {
        lemma_open_moves_len(b, s - 1);
        lemma_tiles_upto_len((s - 1) as u8, b.x_board[s - 1] | b.o_board[s - 1], 9);
    }
}

/// There are never more than 81 legal moves: at most one per cell.
pub proof fn lemma_legal_moves_count(b: Board)
    ensures
        spec_legal_moves(b).len() <= 81,
{
    if spec_board_outcome(b) == Outcome::Undecided {
        match b.current_square {
            Some(i) => {
                lemma_tiles_upto_len(i, b.x_board[i as int] | b.o_board[i as int], 9);
            },
            None => {
                lemma_open_moves_len(b, 9);
            },
        }
    }
}

/// A well-formed board whose overall outcome is still undecided always has
/// at least one legal move: the game cannot get stuck before it is decided.
pub proof fn lemma_undecided_has_moves(b: Board)
    requires
        spec_wf(b),
        spec_board_outcome(b) == Outcome::Undecided,
    ensures
        spec_legal_moves(b).len() > 0,
{
    lemma_mask_bits();
    let j: u8 = match b.current_square {
        Some(i) => i,
        None => {
            let ji = choose|ji: int| 0 <= ji < 9 && b.square_states[ji] == Outcome::Undecided;
            ji as u8
        },
    };
    assert(b.square_states[j as int] == Outcome::Undecided);
    let occ = b.x_board[j as int] | b.o_board[j as int];
    assert(occ < 512 && occ != 0b111111111);
    let t: u8 = if occ & 1u16 == 0 {
        0u8
    } else if occ & 2u16 == 0 {
        1u8
    } else if occ & 4u16 == 0 {
        2u8
    } else if occ & 8u16 == 0 {
        3u8
    } else if occ & 16u16 == 0 {
        4u8
    } else if occ & 32u16 == 0 {
        5u8
    } else if occ & 64u16 == 0 {
        6u8
    } else if occ & 128u16 == 0 {
        7u8
    } else {
        8u8
    };
    assert(occ & (1u16 << t) == 0);
    lemma_tiles_upto_contains(j, occ, t, 9);
    if b.current_square is None {
        lemma_open_moves_upto_contains(b, j, Move { tile: t, square: j }, 9);
    }
}

/// A legal placement occupies exactly one previously free tile: the number
/// of free tiles on the whole board goes down by one.
pub proof fn lemma_legal_place_free_count(pre: Board, m: Move, post: Board)
    requires
        spec_move_valid(m),
        spec_cs_valid(pre),
        spec_is_legal(pre, m),
        spec_place_post(pre, m, post),
    ensures
        spec_free_total(post) == spec_free_total(pre) - 1,
{
    lemma_mask_bits();
    let s = spec_effective_square(pre, m.square) as int;
    let occ = pre.x_board[s] | pre.o_board[s];
    assert(occ & (1u16 << m.tile) == 0);
    assert(post.x_board[s] | post.o_board[s] == occ | (1u16 << m.tile));
    assert(pop9(occ | (1u16 << m.tile)) == pop9(occ) + 1);
}

/// On an empty sub-board every tile below `k` is enumerated.
proof fn lemma_tiles_upto_len_empty(s_idx: u8, k: int)
    requires
        0 <= k <= 9,
    ensures
        spec_tiles_upto(s_idx, 0u16, k).len() == k,
    decreases k,
{
    lemma_mask_bits();
    if k > 0 {
        lemma_tiles_upto_len_empty(s_idx, k - 1);
    }
}

/// On a board with all sub-boards empty and undecided, the unconstrained
/// enumeration below `s` holds nine moves per sub-board.
proof fn lemma_fresh_open_len(b: Board, s: int)
    requires
        0 <= s <= 9,
        forall|j: int| 0 <= j < 9 ==> b.x_board[j] == 0 && b.o_board[j] == 0,
        forall|j: int| 0 <= j < 9 ==> b.square_states[j] == Outcome::Undecided,
    ensures
        spec_open_moves_upto(b, s).len() == 9 * s,
    decreases s,
{
    lemma_mask_bits();
    if s > 0 {
        lemma_fresh_open_len(b, s - 1);
        lemma_tiles_upto_len_empty((s - 1) as u8, 9);
    }
}

/// No sub-board resolved to `outcome` leaves the meta-board mask empty.
proof fn lemma_states_mask_none(b: Board, outcome: Outcome, s: int)
    requires
        0 <= s <= 9,
        forall|j: int| 0 <= j < 9 ==> b.square_states[j] != outcome,
    ensures
        spec_states_mask_upto(b, outcome, s) == 0,
    decreases s,
{
    lemma_mask_bits();
    if s > 0 {
        lemma_states_mask_none(b, outcome, s - 1);
    }
}

/// A freshly constructed board (all sub-boards empty and undecided, no
/// forced sub-board) offers exactly 81 legal moves, one per cell.
pub proof fn lemma_fresh_board_moves(b: Board)
    requires
        forall|j: int| 0 <= j < 9 ==> b.x_board[j] == 0 && b.o_board[j] == 0,
        forall|j: int| 0 <= j < 9 ==> b.square_states[j] == Outcome::Undecided,
        b.current_square is None,
    ensures
        spec_legal_moves(b).len() == 81,
{
    lemma_mask_bits();
    lemma_states_mask_none(b, Outcome::X, 9);
    lemma_states_mask_none(b, Outcome::O, 9);
    assert(b.square_states[0] == Outcome::Undecided);
    assert(spec_board_outcome(b) == Outcome::Undecided);
    lemma_fresh_open_len(b, 9);
}

/// A legal move cannot be played twice in a row when it targets the
/// sub-board it names and keeps the reply in that same sub-board (the tile
/// and the effective sub-board coincide): the tile is taken afterwards.
/// When the reply is sent to a different sub-board, the same pair of
/// indices can well be legal again.
pub proof fn lemma_no_replay(b: Board, m: Move, b2: Board)
    requires
        spec_move_valid(m),
        spec_cs_valid(b),
        spec_is_legal(b, m),
        spec_place_post(b, m, b2),
        m.tile == spec_effective_square(b, m.square),
        m.square == spec_effective_square(b, m.square),
    ensures
        !spec_is_legal(b2, m),
{
    lemma_mask_bits();
    let s = spec_effective_square(b, m.square) as int;
    assert(spec_effective_square(b2, m.square) as int == s);
    assert((b2.x_board[s] | b2.o_board[s]) & (1u16 << m.tile) != 0) by {
        assert(forall|x: u16, y: u16, t: u8|
            t < 9 && (x & (1u16 << t)) != 0 ==> #[trigger] ((x | y) & (1u16 << t)) != 0 && ((y | x)
                & (1u16 << t)) != 0) by (bit_vector);
    }
}

/// The sub-board outcome rule, case by case: a win pattern for X gives X
/// (X is checked first), a win pattern for O alone gives O, a full
/// sub-board with no winner is a draw, anything else is still open.
pub proof fn lemma_square_outcome_cases(x: u16, o: u16)
    ensures
        spec_is_winning(x) ==> spec_square_outcome(x, o) == Outcome::X,
        !spec_is_winning(x) && spec_is_winning(o) ==> spec_square_outcome(x, o) == Outcome::O,
        !spec_is_winning(x) && !spec_is_winning(o) && x | o == 0b111111111
            ==> spec_square_outcome(x, o) == Outcome::Draw,
        !spec_is_winning(x) && !spec_is_winning(o) && x | o != 0b111111111
            ==> spec_square_outcome(x, o) == Outcome::Undecided,
{
}

/// The overall outcome mirrors the sub-board rule one level up, over the
/// meta-board masks of sub-boards won by X and by O; a draw needs every
/// sub-board resolved.
pub proof fn lemma_board_outcome_meta(b: Board)
    ensures
        spec_is_winning(spec_states_mask(b, Outcome::X)) ==> spec_board_outcome(b) == Outcome::X,
        !spec_is_winning(spec_states_mask(b, Outcome::X)) && spec_is_winning(
            spec_states_mask(b, Outcome::O),
        ) ==> spec_board_outcome(b) == Outcome::O,
        !spec_is_winning(spec_states_mask(b, Outcome::X)) && !spec_is_winning(
            spec_states_mask(b, Outcome::O),
        ) && spec_all_decided(b) ==> spec_board_outcome(b) == Outcome::Draw,
        !spec_is_winning(spec_states_mask(b, Outcome::X)) && !spec_is_winning(
            spec_states_mask(b, Outcome::O),
        ) && !spec_all_decided(b) ==> spec_board_outcome(b) == Outcome::Undecided,
{
}

} // verus!
