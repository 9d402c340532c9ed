//! Monte Carlo Tree Search over the board: an arena tree of statistics,
//! UCT-guided selection, random rollouts and backpropagation.
//!
//! The UCT score `wins/visits + 1.4 * sqrt(ln(parent_visits) / visits)` is
//! kept in fixed point with 16 fractional bits, with `ln` coarsened to
//! `floor(log2) * ln(2)`: the verifier admits no floating point, and the
//! score only steers a weighted random draw.

use rand::Rng;
use vstd::prelude::*;

use crate::board::lemma_legal_moves_count;
use crate::board::lemma_mask_bits;
use crate::board::lemma_legal_moves_valid;
use crate::board::lemma_place_preserves_wf;
use crate::board::lemma_legal_moves_are_legal;
use crate::board::lemma_legal_place_free_count;
use crate::board::lemma_undecided_has_moves;
use crate::board::outcome_matches;
use crate::board::spec_board_outcome;
use crate::board::spec_cs_valid;
use crate::board::spec_free_total;
use crate::board::spec_is_legal;
use crate::board::spec_legal_moves;
use crate::board::spec_move_valid;
use crate::board::spec_opposite;
use crate::board::spec_outcome_matches;
use crate::board::spec_wf;
use crate::board::Board;
use crate::board::Move;
use crate::board::Outcome;
use crate::board::Side;

verus! {

/// Upper bound on visit counters (and on the iteration budget): keeps every
/// statistic comfortably inside `u32` and every weight inside `u64`.
pub const VISITS_CAP: u32 = 0x4000_0000;

/// Upper bound on a fixed-point UCT weight.
pub const WEIGHT_CAP: u64 = 0x10_0000;

/// Floor of the base-2 logarithm; 0 for 0.
pub open spec fn spec_log2_floor(n: nat) -> nat
    decreases n,
{
    if n < 2 {
        0
    } else {
        1 + spec_log2_floor(n / 2)
    }
}

proof fn lemma_log2_floor_mono(m: nat, n: nat)
    requires
        m <= n,
    ensures
        spec_log2_floor(m) <= spec_log2_floor(n),
    decreases n,
{
    if m >= 2 {
        lemma_log2_floor_mono(m / 2, n / 2);
    }
}

proof fn lemma_log2_floor_cap(n: nat)
    requires
        n <= 0x4000_0000,
    ensures
        spec_log2_floor(n) <= 30,
{
    lemma_log2_floor_mono(n, 0x4000_0000);
    assert(spec_log2_floor(0x4000_0000) == 30) by {
        reveal_with_fuel(spec_log2_floor, 32);
    }
}

fn log2_floor(n: u32) -> (r: u32)
    requires
        n <= 0x4000_0000,
    ensures
        r == spec_log2_floor(n as nat),
        r <= 30,
{
    proof {
        lemma_log2_floor_cap(n as nat);
    }
    let mut v = n;
    let mut r: u32 = 0;
    while v >= 2
        invariant
            r + spec_log2_floor(v as nat) == spec_log2_floor(n as nat),
            spec_log2_floor(n as nat) <= 30,
        decreases v,
    {
        v = v / 2;
        r = r + 1;
    }
    r
}

/// The integer square root: the unique `r >= 0` with
/// `r * r <= x < (r + 1) * (r + 1)`.
pub open spec fn spec_isqrt(x: int) -> int {
    choose|r: int| 0 <= r && #[trigger] (r * r) <= x && x < (r + 1) * (r + 1)
}

proof fn lemma_isqrt_is(x: int, r: int)
    requires
        0 <= r,
        r * r <= x,
        x < (r + 1) * (r + 1),
    ensures
        spec_isqrt(x) == r,
{
    assert(exists|q: int| 0 <= q && #[trigger] (q * q) <= x && x < (q + 1) * (q + 1)) by {
        assert(0 <= r && r * r <= x && x < (r + 1) * (r + 1));
    }
    let c = spec_isqrt(x);
    assert(0 <= c && c * c <= x && x < (c + 1) * (c + 1));
    assert(c == r) by (nonlinear_arith)
        requires
            0 <= r,
            r * r <= x,
            x < (r + 1) * (r + 1),
            0 <= c,
            c * c <= x,
            x < (c + 1) * (c + 1),
    ;
}

fn isqrt(x: u64) -> (r: u64)
    requires
        x < 0x40_0000_0000,
    ensures
        r == spec_isqrt(x as int),
        r <= 0x8_0000,
{
    let mut lo: u64 = 0;
    let mut hi: u64 = 0x8_0000;
    assert((hi + 1) * (hi + 1) > x) by (nonlinear_arith)
        requires
            x < 0x40_0000_0000,
            hi == 0x8_0000,
    ;
    while lo < hi
        invariant
            lo <= hi <= 0x8_0000,
            lo * lo <= x,
            x < (hi + 1) * (hi + 1),
        decreases hi - lo,
    {
        let mid = lo + (hi - lo + 1) / 2;
        assert(lo < mid <= hi);
        assert(mid * mid <= 0x40_0000_0000) by (nonlinear_arith)
            requires
                0 <= mid <= 0x8_0000,
        ;
        if mid * mid <= x {
            lo = mid;
        } else {
            hi = mid - 1;
        }
    }
    proof {
        lemma_isqrt_is(x as int, lo as int);
    }
    lo
}

/// The fixed-point UCT weight (16 fractional bits, plus one unit so that a
/// weight is never zero): `wins/visits + 1.4 * sqrt(ln(parent_visits) /
/// visits)`, with `ln` coarsened to `floor(log2) * ln(2)` and `ln(2)`
/// carried as 45426/65536.
pub open spec fn spec_uct_weight(wins: u32, visits: u32, parent_visits: u32) -> int
    recommends
        visits >= 1,
{
    let mean = (wins as int * 65536) / (visits as int);
    let lnfp = spec_log2_floor(parent_visits as nat) * 45426;
    let explore = spec_isqrt((lnfp * 65536) as int / (visits as int));
    mean + (14 * explore) / 10 + 1
}

/// The UCT score of one child, as a positive fixed-point weight for the
/// weighted random draw over siblings.
pub fn uct_policy(wins: u32, visits: u32, parent_visits: u32) -> (r: u64)
    requires
        1 <= visits <= VISITS_CAP,
        wins <= 2 * visits,
        parent_visits <= VISITS_CAP,
    ensures
        r == spec_uct_weight(wins, visits, parent_visits),
        1 <= r <= WEIGHT_CAP,
{
    let mean = (wins as u64 * 65536) / (visits as u64);
    assert(mean <= 131072) by (nonlinear_arith)
        requires
            mean == (wins as int * 65536) / (visits as int),
            1 <= visits,
            wins <= 2 * visits,
    ;
    let lg = log2_floor(parent_visits);
    let lnfp = (lg as u64) * 45426;
    let num = lnfp * 65536;
    let frac = num / (visits as u64);
    assert(frac <= num) by (nonlinear_arith)
        requires
            frac == num as int / (visits as int),
            1 <= visits,
            num >= 0,
    ;
    let explore = isqrt(frac);
    mean + (14 * explore) / 10 + 1
}

/// Relies on rand::thread_rng and rand::Rng::gen_range over `0..n`: returns
/// a uniformly random index strictly below `n`; gen_range panics only on an
/// empty range, which `n >= 1` rules out.
#[verifier::external_body]
fn random_below(n: usize) -> (r: usize)
    requires
        n >= 1,
    ensures
        r < n,
{
    let mut rng = rand::thread_rng();
    rng.gen_range(0..n)
}

/// Relies on rand::distributions::WeightedIndex::new and its
/// Distribution::sample, with rand::thread_rng: draws an index of the list
/// with probability proportional to its weight. `new` errs only on an empty
/// list, a zero total or an overflowing sum, all ruled out by the bounds
/// below; `sample` returns a position of the list by binary search over the
/// cumulative weights.
#[verifier::external_body]
fn weighted_pick(weights: &Vec<u64>) -> (r: usize)
    requires
        1 <= weights@.len() <= 81,
        forall|i: int| 0 <= i < weights@.len() ==> 1 <= #[trigger] weights@[i] <= WEIGHT_CAP,
    ensures
        r < weights@.len(),
{
    let dist = rand::distributions::WeightedIndex::new(weights.iter()).unwrap();
    let mut rng = rand::thread_rng();
    rand::distributions::Distribution::sample(&dist, &mut rng)
}

/// One search-tree node: the statistics of the position reached by playing
/// `node_move` from the parent. `side` is the side that has just moved to
/// reach this node; `children` is the half-open index range of this node's
/// children in the arena, `None` until expanded.
#[derive(Clone, Copy, Debug)]
pub struct Node {
    pub side: Side,
    pub node_move: Move,
    pub wins: u32,
    pub visits: u32,
    pub children: Option<(usize, usize)>,
}

/// The search tree: an append-only arena of nodes referenced by index.
#[derive(Debug)]
pub struct Tree {
    pub nodes: Vec<Node>,
}

/// Well-formedness of the arena: every node's move is inside the grid, its
/// wins never outrun twice its visits (one iteration adds at most 2), its
/// visits stay below the cap, and its child range is a well-formed range
/// of nodes appended strictly after it.
pub open spec fn spec_tree_wf(nodes: Seq<Node>) -> bool {
    forall|i: int|
        0 <= i < nodes.len() ==> {
            let n = #[trigger] nodes[i];
            &&& spec_move_valid(n.node_move)
            &&& n.wins <= 2 * n.visits
            &&& n.visits <= VISITS_CAP
            &&& (n.children matches Some(c) ==> i < c.0 <= c.1 <= nodes.len() && c.1 - c.0 <= 81)
        }
}

impl Tree {
    /// Appends one child per legal move of `board` (in enumeration order),
    /// each crediting the opposite side of the node's, and records the new
    /// child range on the node; a no-op when there is no legal move.
    pub fn expand(&mut self, node_idx: usize, board: &Board)
        requires
            node_idx < old(self).nodes@.len(),
            spec_tree_wf(old(self).nodes@),
            spec_cs_valid(*board),
        ensures
            spec_tree_wf(final(self).nodes@),
            spec_legal_moves(*board).len() == 0 ==> final(self).nodes@ == old(self).nodes@,
            spec_legal_moves(*board).len() > 0 ==> {
                let ms = spec_legal_moves(*board);
                let n0 = old(self).nodes@.len() as int;
                &&& final(self).nodes@.len() == n0 + ms.len()
                &&& (forall|j: int|
                    0 <= j < n0 && j != node_idx ==> final(self).nodes@[j] == old(self).nodes@[j])
                &&& final(self).nodes@[node_idx as int].children matches Some(c) && c.0 == n0
                    && c.1 == n0 + ms.len()
                &&& final(self).nodes@[node_idx as int].side == old(self).nodes@[node_idx as int].side
                &&& final(self).nodes@[node_idx as int].node_move == old(
                    self,
                ).nodes@[node_idx as int].node_move
                &&& final(self).nodes@[node_idx as int].wins == old(self).nodes@[node_idx as int].wins
                &&& final(self).nodes@[node_idx as int].visits == old(
                    self,
                ).nodes@[node_idx as int].visits
                &&& (forall|j: int|
                    n0 <= j < n0 + ms.len() ==> final(self).nodes@[j] == (Node {
                        side: spec_opposite(old(self).nodes@[node_idx as int].side),
                        node_move: ms[j - n0],
                        wins: 0,
                        visits: 0,
                        children: None::<(usize, usize)>,
                    }))
            },
    {
        proof {
            lemma_legal_moves_valid(*board);
            lemma_legal_moves_count(*board);
        }
        let node = self.nodes[node_idx];
        let legal_moves = board.get_legal_moves();
        if legal_moves.len() == 0 {
            return ;
        }
        let start = self.nodes.len();
        let mut i: usize = 0;
        while i < legal_moves.len()
            invariant
                i <= legal_moves@.len(),
                self.nodes@.len() == start + i,
                start == old(self).nodes@.len(),
                legal_moves@ == spec_legal_moves(*board),
                node == old(self).nodes@[node_idx as int],
                node_idx < start,
                forall|j: int| 0 <= j < start ==> self.nodes@[j] == old(self).nodes@[j],
                forall|j: int|
                    start <= j < start + i ==> self.nodes@[j] == (Node {
                        side: spec_opposite(node.side),
                        node_move: legal_moves@[j - start],
                        wins: 0,
                        visits: 0,
                        children: None::<(usize, usize)>,
                    }),
            decreases legal_moves@.len() - i,
        {
            self.nodes.push(
                Node {
                    side: node.side.swap(),
                    node_move: legal_moves[i],
                    wins: 0,
                    visits: 0,
                    children: None,
                },
            );
            i = i + 1;
        }
        let end = self.nodes.len();
        let mut parent = self.nodes[node_idx];
        parent.children = Some((start, end));
        self.nodes[node_idx] = parent;
    }
}

impl Node {
    /// Picks a child of this node: the single child when there is only one,
    /// else the first unvisited child in arena order, else a random child
    /// drawn with probability proportional to its UCT weight.
    pub fn select(&self, tree: &Tree) -> (r: usize)
        requires
            spec_tree_wf(tree.nodes@),
            self.children matches Some(c) && c.0 < c.1 <= tree.nodes@.len() && c.1 - c.0 <= 81,
            self.visits <= VISITS_CAP,
        ensures
            self.children matches Some(c) ==> c.0 <= r < c.1,
            self.children matches Some(c) ==> ((exists|j: int|
                c.0 <= j < c.1 && (#[trigger] tree.nodes@[j]).visits == 0) ==> (
            tree.nodes@[r as int].visits == 0 && (forall|j: int|
                c.0 <= j < r ==> (#[trigger] tree.nodes@[j]).visits != 0))),
    {
        let (a, b) = match self.children {
            Some(t) => t,
            None => {
                return 0;
            },
        };
        if b - a <= 1 {
            return a;
        }
        let mut weights: Vec<u64> = Vec::new();
        let mut idx = a;
        while idx < b
            invariant
                self.children == Some((a, b)),
                a <= idx <= b,
                weights@.len() == idx - a,
                spec_tree_wf(tree.nodes@),
                b <= tree.nodes@.len(),
                b - a <= 81,
                self.visits <= VISITS_CAP,
                forall|j: int| 0 <= j < weights@.len() ==> 1 <= #[trigger] weights@[j] <= WEIGHT_CAP,
                forall|j: int| a <= j < idx ==> (#[trigger] tree.nodes@[j]).visits >= 1,
            decreases b - idx,
        {
            let node = tree.nodes[idx];
            if node.visits == 0 {
                return idx;
            }
            let w = uct_policy(node.wins, node.visits, self.visits);
            weights.push(w);
            idx = idx + 1;
        }
        a + weighted_pick(&weights)
    }
}

/// A node that selection cannot descend from: never expanded, or expanded
/// to an empty child range (a terminal position).
pub open spec fn spec_is_leaf(n: Node) -> bool {
    match n.children {
        None => true,
        Some(c) => c.1 == c.0,
    }
}

/// Adds one visit to every node along `path` (a strictly increasing list of
/// node indices, root first) and credits `this_score` wins to the first,
/// third, ... node of the path and `opp_score` to the others, the
/// alternation matching the alternating movers of the game tree.
fn backpropagate(tree: &mut Tree, path: &Vec<usize>, this_score: u32, opp_score: u32)
    requires
        this_score <= 2,
        opp_score <= 2,
        spec_tree_wf(old(tree).nodes@),
        forall|i: int| 0 <= i < path@.len() ==> path@[i] < old(tree).nodes@.len(),
        forall|i: int, j: int| 0 <= i < j < path@.len() ==> path@[i] < path@[j],
        forall|i: int|
            0 <= i < old(tree).nodes@.len() ==> (#[trigger] old(tree).nodes@[i]).visits
                < VISITS_CAP,
    ensures
        spec_tree_wf(final(tree).nodes@),
        final(tree).nodes@.len() == old(tree).nodes@.len(),
        forall|i: int|
            0 <= i < old(tree).nodes@.len() ==> (#[trigger] final(tree).nodes@[i]).side == old(
                tree,
            ).nodes@[i].side && final(tree).nodes@[i].node_move == old(tree).nodes@[i].node_move
                && final(tree).nodes@[i].children == old(tree).nodes@[i].children,
        forall|i: int|
            0 <= i < old(tree).nodes@.len() ==> (#[trigger] final(tree).nodes@[i]).visits <= old(
                tree,
            ).nodes@[i].visits + 1,
{
    let ghost snap = tree.nodes@;
    let mut toggle = true;
    let mut k: usize = 0;
    while k < path.len()
        invariant
            k <= path@.len(),
            tree.nodes@.len() == snap.len(),
            this_score <= 2,
            opp_score <= 2,
            snap == old(tree).nodes@,
            spec_tree_wf(snap),
            forall|i: int| 0 <= i < path@.len() ==> path@[i] < snap.len(),
            forall|i: int, j: int| 0 <= i < j < path@.len() ==> path@[i] < path@[j],
            forall|i: int| 0 <= i < snap.len() ==> (#[trigger] snap[i]).visits < VISITS_CAP,
            forall|i: int|
                0 <= i < snap.len() ==> (#[trigger] tree.nodes@[i]).side == snap[i].side
                    && tree.nodes@[i].node_move == snap[i].node_move && tree.nodes@[i].children
                    == snap[i].children,
            forall|i: int|
                0 <= i < snap.len() ==> (#[trigger] tree.nodes@[i]).visits <= snap[i].visits + 1,
            forall|i: int|
                0 <= i < snap.len() ==> (#[trigger] tree.nodes@[i]).wins <= 2
                    * tree.nodes@[i].visits,
            forall|i: int|
                0 <= i < snap.len() && k < path@.len() && i >= path@[k as int]
                    ==> #[trigger] tree.nodes@[i] == snap[i],
        decreases path@.len() - k,
    {
        let idx = path[k];
        let mut nd = tree.nodes[idx];
        assert(nd == snap[idx as int]);
        nd.visits = nd.visits + 1;
        nd.wins = nd.wins + (if toggle {
            this_score
        } else {
            opp_score
        });
        tree.nodes[idx] = nd;
        toggle = !toggle;
        proof {
            if k + 1 < path@.len() {
                assert(path@[k as int] < path@[k as int + 1]);
            }
        }
        k = k + 1;
    }
}

/// Picks a move for the side to move on `board` by Monte Carlo Tree Search:
/// `iterations` rounds of selection, expansion, random rollout and
/// backpropagation over a root node wrapping `last_move` (the move that
/// produced `board`), then the move of the root child with the most visits,
/// first maximum in enumeration order. The result is always one of the
/// board's legal moves. The rollout provably terminates with a decided
/// outcome and never meets an empty move list, so the corruption aborts of
/// a run-time checked engine are unreachable here.
#[verifier::loop_isolation(false)]
#[verifier::rlimit(60)]
pub fn bot_move(board: &Board, last_move: Move, iterations: u32) -> (r: Move)
    requires
        spec_wf(*board),
        spec_board_outcome(*board) == Outcome::Undecided,
        spec_move_valid(last_move),
        1 <= iterations <= VISITS_CAP,
    ensures
        spec_legal_moves(*board).contains(r),
        spec_is_legal(*board, r),
        spec_move_valid(r),
{
    let ghost ms = spec_legal_moves(*board);
    proof {
        lemma_undecided_has_moves(*board);
        lemma_legal_moves_count(*board);
    }
    let root = Node {
        side: board.side.swap(),
        node_move: last_move,
        wins: 0,
        visits: 0,
        children: None,
    };
    let mut tree = Tree { nodes: vec![root] };

    let mut iter: u32 = 0;
    while iter < iterations
        invariant
            1 <= tree.nodes@.len(),
            spec_tree_wf(tree.nodes@),
            iter <= iterations,
            forall|i: int|
                0 <= i < tree.nodes@.len() ==> (#[trigger] tree.nodes@[i]).visits <= iter,
            iter == 0 ==> tree.nodes@.len() == 1 && tree.nodes@[0].children is None,
            iter >= 1 ==> (tree.nodes@[0].children matches Some(c) && c.0 == 1 && c.1 == 1
                + ms.len() && c.1 <= tree.nodes@.len() && (forall|j: int|
                1 <= j < c.1 ==> (#[trigger] tree.nodes@[j]).node_move == ms[j - 1])),
        decreases iterations - iter,
    {
        let mut new_board = *board;

        // selection: walk down while the current node still has children
        let mut path: Vec<usize> = Vec::new();
        path.push(0);
        let mut ply: usize = 0;
        let mut done = false;
        while ply < 81 && !done
            invariant
                spec_wf(new_board),
                1 <= path@.len(),
                path@.len() == ply + 1,
                path@[0] == 0,
                ply <= 81,
                forall|i: int| 0 <= i < path@.len() ==> path@[i] < tree.nodes@.len(),
                forall|i: int, j: int| 0 <= i < j < path@.len() ==> path@[i] < path@[j],
                done ==> spec_is_leaf(tree.nodes@[path@[path@.len() - 1] as int]),
                iter == 0 ==> path@.len() == 1 && new_board == *board,
            decreases 81 - ply + (if done { 0int } else { 1int }),
        {
            let last_idx = path[path.len() - 1];
            let last_node = tree.nodes[last_idx];
            let is_leaf = match last_node.children {
                None => true,
                Some(t) => t.1 - t.0 == 0,
            };
            if is_leaf {
                done = true;
            } else {
                let chosen = last_node.select(&tree);
                path.push(chosen);
                let mv = tree.nodes[chosen].node_move;
                let ghost pre = new_board;
                new_board.place(mv);
                proof {
                    lemma_place_preserves_wf(pre, mv, new_board);
                }
                ply = ply + 1;
            }
        }

        if new_board.check_board_outcome() != Outcome::Undecided {
            iter = iter + 1;
            continue ;
        }

        // expansion: one child per legal move, then descend into the first
        let leaf_idx = path[path.len() - 1];
        proof {
            if iter >= 1 {
                assert(!spec_is_leaf(tree.nodes@[0]));
                assert(path@.len() >= 2);
                assert(path@[0] < path@[path@.len() - 1]);
            }
            lemma_undecided_has_moves(new_board);
            lemma_legal_moves_count(new_board);
        }
        let ghost ms2 = spec_legal_moves(new_board);
        let ghost pre_len = tree.nodes@.len();
        tree.expand(leaf_idx, &new_board);
        let (cstart, cend) = match tree.nodes[leaf_idx].children {
            Some(t) => t,
            None => (0, 0),
        };
        assert(cstart == pre_len && cend == pre_len + ms2.len());
        path.push(cstart);
        let mv = tree.nodes[cstart].node_move;
        let ghost pre = new_board;
        new_board.place(mv);
        proof {
            lemma_place_preserves_wf(pre, mv, new_board);
            lemma_mask_bits();
        }

        // rollout: uniformly random legal moves until the game is decided;
        // each placement frees one fewer tile, so this terminates
        let mut outcome = new_board.check_board_outcome();
        while outcome == Outcome::Undecided
            invariant
                spec_wf(new_board),
                outcome == spec_board_outcome(new_board),
                spec_free_total(new_board) >= 0,
            decreases spec_free_total(new_board),
        {
            proof {
                lemma_undecided_has_moves(new_board);
            }
            let moves = new_board.get_legal_moves();
            let k = random_below(moves.len());
            let mv = moves[k];
            proof {
                lemma_legal_moves_are_legal(new_board, k as int);
            }
            let ghost pre = new_board;
            new_board.place(mv);
            proof {
                lemma_place_preserves_wf(pre, mv, new_board);
                lemma_legal_place_free_count(pre, mv, new_board);
                lemma_mask_bits();
            }
            outcome = new_board.check_board_outcome();
        }

        // backpropagation along the whole selection + expansion path
        let this_side = tree.nodes[leaf_idx].side;
        let (this_score, opp_score): (u32, u32) = if outcome == Outcome::Draw {
            (1, 1)
        } else if outcome_matches(outcome, this_side) {
            (2, 0)
        } else {
            (0, 2)
        };
        backpropagate(&mut tree, &path, this_score, opp_score);
        iter = iter + 1;
    }

    // the chosen move: the root child with the most visits, first maximum
    // in the enumeration order of the board's legal moves
    let (ra, rb) = match tree.nodes[0].children {
        Some(t) => t,
        None => (0, 0),
    };
    assert(ra == 1 && rb == 1 + ms.len() && rb > ra);
    let mut best = ra;
    let mut j = ra + 1;
    while j < rb
        invariant
            ra <= best < rb,
            ra + 1 <= j <= rb,
        decreases rb - j,
    {
        if tree.nodes[j].visits > tree.nodes[best].visits {
            best = j;
        }
        j = j + 1;
    }
    let r = tree.nodes[best].node_move;
    proof {
        assert(ms[best - 1] == r);
        assert(ms.contains(r));
        lemma_legal_moves_are_legal(*board, best - 1);
    }
    r
}

} // verus!
