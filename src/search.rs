//! Exhaustive minimax search: every legal continuation is explored, wins are
//! scored by how soon they come, and the best cell is the first maximum in
//! row-major order.

use vstd::prelude::*;

use crate::board::{
    cell_index, count_free, has_free, has_line, other, Board, BoardState, GameState, Move, Tile,
    CELLS,
};

verus! {

/// Score of a won position, before the depth is taken off.
pub const REWARD: i32 = 10;

/// Seed of a running maximum (negated) or minimum.
pub const INIT_REWARD: i32 = 1000;

/// Value of a position to `side`, seen right after a move at `depth` plies
/// below the root: a line won by `side` is worth `10 - depth`, one lost
/// `depth - 10`, a full grid `0`; otherwise the turn passes and the value is
/// the best reply of the side to move (highest for `side`, lowest for the
/// other).
pub open spec fn score(s: BoardState, side: Move, depth: int) -> int
    decreases count_free(s.cells), 1int, 0int,
{
    if has_line(s.cells) {
        if s.current == side {
            10 - depth
        } else {
            depth - 10
        }
    } else if !has_free(s.cells) {
        0
    } else {
        reply_best(s.toggled(), side, depth, 9)
    }
}

/// The best value over the free cells among the first `k` when the side to
/// move in `s` plays there and the position is scored at `depth + 1`: the
/// maximum, seeded with `-1000`, when that side is `side`; else the minimum,
/// seeded with `1000`. Only a well-formed board has moves.
pub open spec fn reply_best(s: BoardState, side: Move, depth: int, k: int) -> int
    decreases count_free(s.cells), 0int, k,
    via reply_best_decreases
{
    if k <= 0 {
        if s.current == side {
            -1000
        } else {
            1000
        }
    } else {
        let prev = reply_best(s, side, depth, k - 1);
        if s.wf() && k - 1 < 9 && s.cells[k - 1] == Tile::Free {
            let v = score(s.placed(k - 1, s.tile_of(s.current)), side, depth + 1);
            if s.current == side {
                if v > prev {
                    v
                } else {
                    prev
                }
            } else {
                if v < prev {
                    v
                } else {
                    prev
                }
            }
        } else {
            prev
        }
    }
}

#[via_fn]
proof fn reply_best_decreases(s: BoardState, side: Move, depth: int, k: int) {
    if k > 0 && s.wf() && k - 1 < 9 && s.cells[k - 1] == Tile::Free {
        lemma_count_placed(s.cells, k - 1, s.tile_of(s.current));
    }
}

/// Value to `side` of playing its mark in cell `i` of `s`.
pub open spec fn move_value(s: BoardState, side: Move, i: int) -> int {
    score(s.placed(i, s.tile_of(side)), side, 0)
}

/// The best value and the first cell that reaches it among the free cells of
/// the first `k`, seeded with value `-1000` at cell `0`.
pub open spec fn choice(s: BoardState, side: Move, k: int) -> (int, int)
    decreases k,
{
    if k <= 0 {
        (-1000, 0)
    } else {
        let prev = choice(s, side, k - 1);
        if s.cells[k - 1] == Tile::Free && move_value(s, side, k - 1) > prev.0 {
            (move_value(s, side, k - 1), k - 1)
        } else {
            prev
        }
    }
}

/// The cell that the search picks for `side` on `s`.
pub open spec fn best_cell(s: BoardState, side: Move) -> int {
    choice(s, side, 9).1
}

/// Some cell among the first `k` is free.
pub open spec fn free_before(g: Seq<Tile>, k: int) -> bool {
    exists|i: int| 0 <= i < k && g[i] == Tile::Free
}

proof fn lemma_cell_range(i: int)
    requires
        0 <= i < 9,
    ensures
        i == 0 || i == 1 || i == 2 || i == 3 || i == 4 || i == 5 || i == 6 || i == 7 || i == 8,
{
}

proof fn lemma_count_placed(g: Seq<Tile>, i: int, t: Tile)
    requires
        g.len() == 9,
        0 <= i < 9,
        g[i] == Tile::Free,
        t != Tile::Free,
    ensures
        count_free(g.update(i, t)) == count_free(g) - 1,
{
    lemma_cell_range(i);
}

proof fn lemma_count_bounds(g: Seq<Tile>)
    requires
        g.len() == 9,
    ensures
        0 <= count_free(g) <= 9,
        has_free(g) ==> count_free(g) >= 1,
{
    if has_free(g) {
        let i = choose|i: int| 0 <= i < g.len() && g[i] == Tile::Free;
        lemma_cell_range(i);
    }
}

/// A position `depth` plies deep with at most `9 - depth` free cells is worth
/// at most `10 - depth` either way, and at most `9 - depth` when no line is
/// full.
proof fn lemma_score_bounds(s: BoardState, side: Move, depth: int)
    requires
        s.wf(),
        0 <= depth,
        depth + count_free(s.cells) <= 9,
    ensures
        depth - 10 <= score(s, side, depth) <= 10 - depth,
        !has_line(s.cells) ==> depth - 9 <= score(s, side, depth) <= 9 - depth,
    decreases count_free(s.cells), 1int, 0int,
{
    lemma_count_bounds(s.cells);
    if !has_line(s.cells) && has_free(s.cells) {
        lemma_reply_bounds(s.toggled(), side, depth, 9);
        let i = choose|i: int| 0 <= i < s.cells.len() && s.cells[i] == Tile::Free;
        assert(free_before(s.cells, 9));
    }
}

proof fn lemma_reply_bounds(s: BoardState, side: Move, depth: int, k: int)
    requires
        s.wf(),
        0 <= depth,
        depth + count_free(s.cells) <= 9,
        0 <= k <= 9,
    ensures
        free_before(s.cells, k) ==> depth - 9 <= reply_best(s, side, depth, k) <= 9 - depth,
        !free_before(s.cells, k) ==> reply_best(s, side, depth, k) == if s.current == side {
            -1000
        } else {
            1000
        },
    decreases count_free(s.cells), 0int, k,
{
    if k > 0 {
        lemma_reply_bounds(s, side, depth, k - 1);
        if s.cells[k - 1] == Tile::Free {
            lemma_count_placed(s.cells, k - 1, s.tile_of(s.current));
            lemma_score_bounds(s.placed(k - 1, s.tile_of(s.current)), side, depth + 1);
        }
        if free_before(s.cells, k - 1) {
            assert(free_before(s.cells, k));
        }
        if free_before(s.cells, k) && !free_before(s.cells, k - 1) {
            assert(s.cells[k - 1] == Tile::Free);
        }
    }
}

/// What the fold of `choice` yields: no free cell beats its value, and unless
/// it is still the seed, its cell is free, has that value, and every free
/// cell before it is worth less.
proof fn lemma_choice(s: BoardState, side: Move, k: int)
    requires
        0 <= k <= 9,
    ensures
        forall|i: int|
            0 <= i < k && s.cells[i] == Tile::Free ==> #[trigger] move_value(s, side, i) <= choice(
                s,
                side,
                k,
            ).0,
        choice(s, side, k).0 == -1000 || {
            let bi = choice(s, side, k).1;
            &&& 0 <= bi < k
            &&& s.cells[bi] == Tile::Free
            &&& move_value(s, side, bi) == choice(s, side, k).0
            &&& forall|i: int|
                0 <= i < bi && s.cells[i] == Tile::Free ==> #[trigger] move_value(s, side, i)
                    < choice(s, side, k).0
        },
        choice(s, side, k).0 >= -1000,
    decreases k,
{
    if k > 0 {
        lemma_choice(s, side, k - 1);
    }
}

/// In a min node (the side to move is not `side`), the best reply is no
/// higher than the value of any one free cell.
proof fn lemma_reply_min_le(s: BoardState, side: Move, depth: int, k: int, i: int)
    requires
        s.wf(),
        s.current != side,
        0 <= i < k <= 9,
        s.cells[i] == Tile::Free,
    ensures
        reply_best(s, side, depth, k) <= score(
            s.placed(i, s.tile_of(s.current)),
            side,
            depth + 1,
        ),
    decreases k,
{
    if i < k - 1 {
        lemma_reply_min_le(s, side, depth, k - 1, i);
    }
}

/// In a min node, a lower bound on every free cell's value (not above the
/// seed) bounds the best reply.
proof fn lemma_reply_min_ge(s: BoardState, side: Move, depth: int, k: int, b: int)
    requires
        s.wf(),
        s.current != side,
        0 <= k <= 9,
        b <= 1000,
        forall|i: int|
            0 <= i < k && s.cells[i] == Tile::Free ==> b <= #[trigger] score(
                s.placed(i, s.tile_of(s.current)),
                side,
                depth + 1,
            ),
    ensures
        b <= reply_best(s, side, depth, k),
    decreases k,
{
    if k > 0 {
        lemma_reply_min_ge(s, side, depth, k - 1, b);
        if s.cells[k - 1] == Tile::Free {
            assert(b <= score(s.placed(k - 1, s.tile_of(s.current)), side, depth + 1));
        }
    }
}

/// A line after two moves in distinct free cells with distinct marks was
/// already there after one of them alone.
proof fn lemma_line_of_two(g: Seq<Tile>, c: int, tc: Tile, e: int, te: Tile)
    requires
        g.len() == 9,
        0 <= c < 9,
        0 <= e < 9,
        c != e,
        g[c] == Tile::Free,
        g[e] == Tile::Free,
        tc != te,
        has_line(g.update(c, tc).update(e, te)),
    ensures
        has_line(g.update(c, tc)) || has_line(g.update(e, te)),
{
    lemma_cell_range(c);
    lemma_cell_range(e);
}

/// A line that a move in cell `c` makes is still made when another free cell
/// is filled first.
proof fn lemma_line_kept(g: Seq<Tile>, c: int, tc: Tile, i: int, ti: Tile)
    requires
        g.len() == 9,
        0 <= c < 9,
        0 <= i < 9,
        c != i,
        g[i] == Tile::Free,
        has_line(g.update(c, tc)),
    ensures
        has_line(g.update(i, ti).update(c, tc)),
{
    lemma_cell_range(c);
    lemma_cell_range(i);
}

/// Playing into free cell `i` completes a line of mark `t`.
pub open spec fn wins_at(g: Seq<Tile>, i: int, t: Tile) -> bool {
    g[i] == Tile::Free && has_line(g.update(i, t))
}

/// Immediate win taken: when `side` is to move on a board with no full line,
/// and cell `c` is the first cell in row-major order where `side`'s mark
/// completes a line, the search picks `c`.
pub proof fn immediate_win_taken(s: BoardState, side: Move, c: int)
    requires
        s.wf(),
        !has_line(s.cells),
        s.current == side,
        0 <= c < 9,
        wins_at(s.cells, c, s.tile_of(side)),
        forall|i: int| 0 <= i < c ==> !wins_at(s.cells, i, s.tile_of(side)),
    ensures
        best_cell(s, side) == c,
{
    let t = s.tile_of(side);
    lemma_count_bounds(s.cells);
    lemma_choice(s, side, 9);
    assert forall|i: int| 0 <= i < 9 && s.cells[i] == Tile::Free implies #[trigger] move_value(
        s,
        side,
        i,
    ) <= 10 && (i < c ==> move_value(s, side, i) <= 9) by {
        if i < c {
            assert(!wins_at(s.cells, i, t));
        }
        lemma_count_placed(s.cells, i, t);
        lemma_score_bounds(s.placed(i, t), side, 0);
    }
    assert(move_value(s, side, c) == 10);
}

/// Forced block: when `side` is to move on a board with no full line, can
/// complete no line itself, and the other side can complete a line in cell
/// `c` and nowhere else, the search picks `c`.
pub proof fn forced_block(s: BoardState, side: Move, c: int)
    requires
        s.wf(),
        !has_line(s.cells),
        s.current == side,
        0 <= c < 9,
        wins_at(s.cells, c, s.tile_of(other(side))),
        forall|i: int| 0 <= i < 9 && i != c ==> !wins_at(s.cells, i, s.tile_of(other(side))),
        forall|i: int| 0 <= i < 9 ==> !wins_at(s.cells, i, s.tile_of(side)),
    ensures
        best_cell(s, side) == c,
{
    let ts = s.tile_of(side);
    let to = s.tile_of(other(side));
    lemma_count_bounds(s.cells);
    lemma_choice(s, side, 9);
    // Blocking keeps every reply of the other side off a full line.
    let b = s.placed(c, ts).toggled();
    assert(!wins_at(s.cells, c, ts));
    lemma_count_placed(s.cells, c, ts);
    assert(b.current == other(side) && b.tile_of(b.current) == to);
    if has_free(b.cells) {
        assert forall|e: int| 0 <= e < 9 && b.cells[e] == Tile::Free implies -8 <= #[trigger] score(
            b.placed(e, b.tile_of(b.current)),
            side,
            1,
        ) by {
            assert(e != c);
            assert(!wins_at(s.cells, e, to));
            assert(b.placed(e, to).cells == s.cells.update(c, ts).update(e, to));
            if has_line(s.cells.update(c, ts).update(e, to)) {
                lemma_line_of_two(s.cells, c, ts, e, to);
            }
            lemma_count_placed(b.cells, e, to);
            lemma_score_bounds(b.placed(e, to), side, 1);
        }
        lemma_reply_min_ge(b, side, 0, 9, -8);
    }
    assert(move_value(s, side, c) >= -8);
    // Any other move lets the other side complete its line in `c`.
    assert forall|i: int| 0 <= i < 9 && i != c && s.cells[i] == Tile::Free implies #[trigger] move_value(
        s,
        side,
        i,
    ) <= -9 by {
        let a = s.placed(i, ts).toggled();
        assert(!wins_at(s.cells, i, ts));
        assert(a.placed(c, to).cells == s.cells.update(i, ts).update(c, to));
        lemma_line_kept(s.cells, c, to, i, ts);
        assert(a.cells[c] == Tile::Free);
        assert(has_free(a.cells));
        lemma_reply_min_le(a, side, 0, 9, c);
    }
}

/// The outcome of a board depends on its grid and on whose turn it is alone:
/// two reads of one unchanged board agree.
pub proof fn outcome_deterministic(s1: BoardState, s2: BoardState)
    requires
        s1.cells == s2.cells,
        s1.current == s2.current,
    ensures
        s1.outcome() == s2.outcome(),
{
}

impl Board {
    /// `REWARD` when the board is won by `side`, `-REWARD` when won by the
    /// other side, `0` otherwise.
    pub fn evaluate(&self, side: Move) -> (r: i32)
        requires
            self@.wf(),
        ensures
            r == match self@.outcome() {
                Some(GameState::Win(m)) => if m == side {
                    REWARD as int
                } else {
                    -REWARD
                },
                _ => 0,
            },
    {
        match self.analyse() {
            Some(GameState::Win(m)) => if m == side {
                REWARD
            } else {
                -REWARD
            },
            _ => 0,
        }
    }

    /// Minimax value of the board to `side`, `depth` plies below the root;
    /// the board is left as it was.
    pub fn minimax(&mut self, side: Move, depth: i32) -> (r: i32)
        requires
            old(self)@.wf(),
            0 <= depth,
            depth + count_free(old(self)@.cells) <= i32::MAX,
        ensures
            final(self)@ == old(self)@,
            r == score(old(self)@, side, depth as int),
        decreases count_free(self@.cells),
    {
        let ghost s0 = self@;
        let evaluation = self.evaluate(side);
        if evaluation == REWARD {
            return REWARD - depth;
        }
        if evaluation == -REWARD {
            return -REWARD + depth;
        }
        if !self.has_free_tiles() {
            return 0;
        }
        proof {
            lemma_count_bounds(s0.cells);
        }
        self.change_player();
        let ghost s1 = self@;
        let maximizing = self.current_move() == side;
        let mark = if maximizing {
            match side {
                Move::Computer => self.computer_tile(),
                Move::Player => self.player_tile(),
            }
        } else {
            match side {
                Move::Computer => self.player_tile(),
                Move::Player => self.computer_tile(),
            }
        };
        assert(mark == s1.tile_of(s1.current));
        let mut best: i32 = if maximizing {
            -INIT_REWARD
        } else {
            INIT_REWARD
        };
        let mut k: usize = 0;
        while k < CELLS
            invariant
                old(self)@ == s0,
                s1 == s0.toggled(),
                s1.wf(),
                self@ == s1,
                maximizing == (s1.current == side),
                mark == s1.tile_of(s1.current),
                0 <= depth,
                depth + count_free(s1.cells) <= i32::MAX,
                count_free(s1.cells) >= 1,
                k <= CELLS,
                best == reply_best(s1, side, depth as int, k as int),
            decreases CELLS - k,
        {
            if self.cell(k) == Tile::Free {
                proof {
                    lemma_count_placed(s1.cells, k as int, mark);
                }
                self.set_cell(k, mark);
                let v = self.minimax(side, depth + 1);
                self.set_cell(k, Tile::Free);
                assert(self@.cells =~= s1.cells);
                if maximizing {
                    if v > best {
                        best = v;
                    }
                } else {
                    if v < best {
                        best = v;
                    }
                }
            }
            k = k + 1;
        }
        self.change_player();
        assert(self@ == s0);
        best
    }
    /// Picks the best cell for `side` (the first in row-major order among
    /// those of highest value), writes `side`'s mark there and returns its row
    /// and column.
    pub fn choose_move(&mut self, side: Move) -> (r: (usize, usize))
        requires
            old(self)@.wf(),
            has_free(old(self)@.cells),
        ensures
            r.0 < 3,
            r.1 < 3,
            cell_index(r.0 as int, r.1 as int) == best_cell(old(self)@, side),
            old(self)@.cells[cell_index(r.0 as int, r.1 as int)] == Tile::Free,
            final(self)@ == old(self)@.placed(
                cell_index(r.0 as int, r.1 as int),
                old(self)@.tile_of(side),
            ),
            forall|i: int|
                0 <= i < 9 && i != cell_index(r.0 as int, r.1 as int) ==> #[trigger] final(self)@.cells[i]
                    == old(self)@.cells[i],
    {
        let ghost s0 = self@;
        let mark = match side {
            Move::Computer => self.computer_tile(),
            Move::Player => self.player_tile(),
        };
        let mut best_val: i32 = -INIT_REWARD;
        let mut best_k: usize = 0;
        let mut k: usize = 0;
        while k < CELLS
            invariant
                old(self)@ == s0,
                self@ == s0,
                s0.wf(),
                mark == s0.tile_of(side),
                k <= CELLS,
                best_k < CELLS,
                (best_val as int, best_k as int) == choice(s0, side, k as int),
                best_val > -1000 ==> s0.cells[best_k as int] == Tile::Free,
                free_before(s0.cells, k as int) ==> best_val > -1000,
            decreases CELLS - k,
        {
            if self.cell(k) == Tile::Free {
                proof {
                    lemma_count_bounds(s0.cells);
                    lemma_count_placed(s0.cells, k as int, mark);
                    lemma_score_bounds(s0.placed(k as int, mark), side, 0);
                }
                self.set_cell(k, mark);
                let move_val = self.minimax(side, 0);
                self.set_cell(k, Tile::Free);
                assert(self@.cells =~= s0.cells);
                if move_val > best_val {
                    best_val = move_val;
                    best_k = k;
                }
            }
            proof {
                if free_before(s0.cells, k + 1) && !free_before(s0.cells, k as int) {
                    assert(s0.cells[k as int] == Tile::Free);
                }
            }
            k = k + 1;
        }
        proof {
            let i = choose|i: int| 0 <= i < s0.cells.len() && s0.cells[i] == Tile::Free;
            assert(free_before(s0.cells, 9));
        }
        let pos = (best_k / 3, best_k % 3);
        assert(cell_index(pos.0 as int, pos.1 as int) == best_k);
        self.make_move(pos, mark);
        pos
    }

    /// The search engine plays its best move.
    pub fn computer_move(&mut self)
        requires
            old(self)@.wf(),
            has_free(old(self)@.cells),
        ensures
            old(self)@.cells[best_cell(old(self)@, Move::Computer)] == Tile::Free,
            final(self)@ == old(self)@.placed(
                best_cell(old(self)@, Move::Computer),
                old(self)@.computer_tile,
            ),
    {
        self.choose_move(Move::Computer);
    }
}

} // verus!
