//! The game state: a 3x3 grid of tiles stored row-major, whose turn it is, and
//! which tile belongs to which side.

use vstd::prelude::*;

verus! {

/// Number of rows (and of columns) of the grid.
pub const FIELD_SIZE: usize = 3;

/// Number of cells of the grid.
pub const CELLS: usize = 9;

/// What a cell holds.
#[derive(Clone, Copy, Debug, PartialEq, Eq, Structural)]
pub enum Tile {
    X,
    O,
    Free,
}

impl Tile {
    /// The glyph that shows the tile: `X`, `O`, or a blank for a free cell.
    pub fn symbol(&self) -> (r: char)
        ensures
            r == match *self {
                Tile::X => 'X',
                Tile::O => 'O',
                Tile::Free => ' ',
            },
    {
        match *self {
            Tile::X => 'X',
            Tile::O => 'O',
            Tile::Free => ' ',
        }
    }
}

/// A side of the game: the human player or the search engine.
#[derive(Clone, Copy, Debug, PartialEq, Eq, Structural)]
pub enum Move {
    Player,
    Computer,
}

/// A finished game.
#[derive(Clone, Copy, Debug, PartialEq, Eq, Structural)]
pub enum GameState {
    Win(Move),
    Draw,
}

/// The side that is not `m`.
pub open spec fn other(m: Move) -> Move {
    match m {
        Move::Player => Move::Computer,
        Move::Computer => Move::Player,
    }
}

/// Row-major index of the cell at `row`, `col`.
pub open spec fn cell_index(row: int, col: int) -> int {
    3 * row + col
}

/// Cells `a`, `b` and `c` hold the same tile, and it is not `Free`.
pub open spec fn same_mark(g: Seq<Tile>, a: int, b: int, c: int) -> bool {
    g[a] == g[b] && g[b] == g[c] && g[a] != Tile::Free
}

/// Row `k` is filled with one mark.
pub open spec fn row_line(g: Seq<Tile>, k: int) -> bool {
    same_mark(g, 3 * k, 3 * k + 1, 3 * k + 2)
}

/// Column `k` is filled with one mark.
pub open spec fn col_line(g: Seq<Tile>, k: int) -> bool {
    same_mark(g, k, k + 3, k + 6)
}

/// Some row, column or diagonal of the grid is filled with one mark.
pub open spec fn has_line(g: Seq<Tile>) -> bool {
    ||| same_mark(g, 0, 1, 2)
    ||| same_mark(g, 3, 4, 5)
    ||| same_mark(g, 6, 7, 8)
    ||| same_mark(g, 0, 3, 6)
    ||| same_mark(g, 1, 4, 7)
    ||| same_mark(g, 2, 5, 8)
    ||| same_mark(g, 0, 4, 8)
    ||| same_mark(g, 2, 4, 6)
}

/// Some cell of the grid is `Free`.
pub open spec fn has_free(g: Seq<Tile>) -> bool {
    exists|i: int| 0 <= i < g.len() && g[i] == Tile::Free
}

/// `1` when cell `i` is free, else `0`.
pub open spec fn free_at(g: Seq<Tile>, i: int) -> int {
    if g[i] == Tile::Free {
        1
    } else {
        0
    }
}

/// Number of `Free` cells of a 9-cell grid.
pub open spec fn count_free(g: Seq<Tile>) -> int {
    free_at(g, 0) + free_at(g, 1) + free_at(g, 2) + free_at(g, 3) + free_at(g, 4) + free_at(g, 5)
        + free_at(g, 6) + free_at(g, 7) + free_at(g, 8)
}

/// The mathematical model of a board.
pub struct BoardState {
    pub cells: Seq<Tile>,
    pub current: Move,
    pub computer_tile: Tile,
    pub player_tile: Tile,
}

impl BoardState {
    /// Nine cells, and two distinct marks, neither of them `Free`.
    pub open spec fn wf(self) -> bool {
        &&& self.cells.len() == 9
        &&& self.computer_tile != Tile::Free
        &&& self.player_tile != Tile::Free
        &&& self.computer_tile != self.player_tile
    }

    /// The mark that side `m` plays.
    pub open spec fn tile_of(self, m: Move) -> Tile {
        match m {
            Move::Computer => self.computer_tile,
            Move::Player => self.player_tile,
        }
    }

    /// A full line is a win of the side whose turn it is (the board is read
    /// right after a move, before the turn passes); a full grid without a line
    /// is a draw; otherwise the game goes on.
    pub open spec fn outcome(self) -> Option<GameState> {
        if has_line(self.cells) {
            Some(GameState::Win(self.current))
        } else if has_free(self.cells) {
            None
        } else {
            Some(GameState::Draw)
        }
    }

    /// The board with tile `t` written into cell `i`.
    pub open spec fn placed(self, i: int, t: Tile) -> BoardState {
        BoardState { cells: self.cells.update(i, t), ..self }
    }

    /// The board with the turn passed to the other side.
    pub open spec fn toggled(self) -> BoardState {
        BoardState { current: other(self.current), ..self }
    }
}

/// A game of tic-tac-toe in progress.
pub struct Board {
    field: Vec<Tile>,
    current_move: Move,
    computer_tile: Tile,
    player_tile: Tile,
}

impl View for Board {
    type V = BoardState;

    closed spec fn view(&self) -> BoardState {
        BoardState {
            cells: self.field@,
            current: self.current_move,
            computer_tile: self.computer_tile,
            player_tile: self.player_tile,
        }
    }
}

pub const OUT_OF_BOUNDS: &'static str = "place tile in bounds (0 <= col <= 2, 0 <= row <= 2)!";

pub const OCCUPIED: &'static str = "choose free tile!";

impl Board {
    /// An empty grid; `first_move` moves first.
    pub fn new(first_move: Move, computer_tile: Tile, player_tile: Tile) -> (r: Board)
        requires
            computer_tile != Tile::Free,
            player_tile != Tile::Free,
            computer_tile != player_tile,
        ensures
            r@.wf(),
            r@.cells == Seq::new(9, |i: int| Tile::Free),
            r@.current == first_move,
            r@.computer_tile == computer_tile,
            r@.player_tile == player_tile,
    {
        let mut field: Vec<Tile> = Vec::new();
        let mut k: usize = 0;
        while k < CELLS
            invariant
                k <= CELLS,
                field@ == Seq::new(k as nat, |i: int| Tile::Free),
            decreases CELLS - k,
        {
            field.push(Tile::Free);
            k = k + 1;
            assert(field@ =~= Seq::new(k as nat, |i: int| Tile::Free));
        }
        Board { field, current_move: first_move, computer_tile, player_tile }
    }

    /// Whose turn it is.
    pub fn current_move(&self) -> (r: Move)
        ensures
            r == self@.current,
    {
        self.current_move
    }

    /// The mark of the search engine.
    pub fn computer_tile(&self) -> (r: Tile)
        ensures
            r == self@.computer_tile,
    {
        self.computer_tile
    }

    /// The mark of the human player.
    pub fn player_tile(&self) -> (r: Tile)
        ensures
            r == self@.player_tile,
    {
        self.player_tile
    }

    /// The tile at `row`, `col`.
    pub fn tile(&self, pos: (usize, usize)) -> (r: Tile)
        requires
            self@.wf(),
            pos.0 < 3,
            pos.1 < 3,
        ensures
            r == self@.cells[cell_index(pos.0 as int, pos.1 as int)],
    {
        self.field[3 * pos.0 + pos.1]
    }

    /// The tile in cell `i` of the row-major grid.
    pub(crate) fn cell(&self, i: usize) -> (r: Tile)
        requires
            self@.wf(),
            i < CELLS,
        ensures
            r == self@.cells[i as int],
    {
        self.field[i]
    }

    /// Writes `t` into cell `i`, whatever it held.
    pub(crate) fn set_cell(&mut self, i: usize, t: Tile)
        requires
            old(self)@.wf(),
            i < CELLS,
        ensures
            final(self)@ == old(self)@.placed(i as int, t),
    {
        self.field.set(i, t);
    }

    /// The three cells `a`, `b`, `c` hold one mark.
    fn line_at(&self, a: usize, b: usize, c: usize) -> (r: bool)
        requires
            self@.wf(),
            a < CELLS,
            b < CELLS,
            c < CELLS,
        ensures
            r == same_mark(self@.cells, a as int, b as int, c as int),
    {
        self.field[a] == self.field[b] && self.field[b] == self.field[c] && self.field[a]
            != Tile::Free
    }

    /// Whether the game is over, and how: rows are read first, then columns,
    /// then the two diagonals; a full line is credited to the side whose turn
    /// it is.
    pub fn analyse(&self) -> (r: Option<GameState>)
        requires
            self@.wf(),
        ensures
            r == self@.outcome(),
    {
        let mut row: usize = 0;
        while row < FIELD_SIZE
            invariant
                self@.wf(),
                row <= 3,
                forall|k: int| 0 <= k < row ==> !#[trigger] row_line(self@.cells, k),
            decreases 3 - row,
        {
            if self.line_at(3 * row, 3 * row + 1, 3 * row + 2) {
                return Some(GameState::Win(self.current_move));
            }
            row = row + 1;
        }
        let mut col: usize = 0;
        while col < FIELD_SIZE
            invariant
                self@.wf(),
                col <= 3,
                forall|k: int| 0 <= k < col ==> !#[trigger] col_line(self@.cells, k),
            decreases 3 - col,
        {
            if self.line_at(col, col + 3, col + 6) {
                return Some(GameState::Win(self.current_move));
            }
            col = col + 1;
        }
        if self.line_at(0, 4, 8) {
            return Some(GameState::Win(self.current_move));
        }
        if self.line_at(2, 4, 6) {
            return Some(GameState::Win(self.current_move));
        }
        assert(!row_line(self@.cells, 0) && !row_line(self@.cells, 1) && !row_line(self@.cells, 2));
        assert(!col_line(self@.cells, 0) && !col_line(self@.cells, 1) && !col_line(self@.cells, 2));
        if self.has_free_tiles() {
            None
        } else {
            Some(GameState::Draw)
        }
    }

    /// `Ok(pos)` when `pos` names a free cell of the grid; otherwise the reason
    /// it cannot be played.
    pub fn check_move(&self, pos: (usize, usize)) -> (r: Result<(usize, usize), &'static str>)
        requires
            self@.wf(),
        ensures
            !(pos.0 < 3 && pos.1 < 3) ==> r == Err::<(usize, usize), &'static str>(OUT_OF_BOUNDS),
            pos.0 < 3 && pos.1 < 3 && self@.cells[cell_index(pos.0 as int, pos.1 as int)]
                != Tile::Free ==> r == Err::<(usize, usize), &'static str>(OCCUPIED),
            pos.0 < 3 && pos.1 < 3 && self@.cells[cell_index(pos.0 as int, pos.1 as int)]
                == Tile::Free ==> r == Ok::<(usize, usize), &'static str>(pos),
    {
        if pos.0 <= 2 && pos.1 <= 2 {
            if self.field[3 * pos.0 + pos.1] == Tile::Free {
                Ok(pos)
            } else {
                Err(OCCUPIED)
            }
        } else {
            Err(OUT_OF_BOUNDS)
        }
    }

    /// Writes `tile` into the free cell at `pos`; the turn does not pass.
    pub fn make_move(&mut self, pos: (usize, usize), tile: Tile)
        requires
            old(self)@.wf(),
            pos.0 < 3,
            pos.1 < 3,
            old(self)@.cells[cell_index(pos.0 as int, pos.1 as int)] == Tile::Free,
        ensures
            final(self)@ == old(self)@.placed(cell_index(pos.0 as int, pos.1 as int), tile),
    {
        self.set_cell(3 * pos.0 + pos.1, tile);
    }

    /// Some cell is still free.
    pub fn has_free_tiles(&self) -> (r: bool)
        requires
            self@.wf(),
        ensures
            r == has_free(self@.cells),
    {
        let mut k: usize = 0;
        while k < CELLS
            invariant
                self@.wf(),
                k <= CELLS,
                forall|i: int| 0 <= i < k ==> self@.cells[i] != Tile::Free,
            decreases CELLS - k,
        {
            if self.field[k] == Tile::Free {
                return true;
            }
            k = k + 1;
        }
        false
    }

    /// Passes the turn to the other side.
    pub fn change_player(&mut self)
        ensures
            final(self)@ == old(self)@.toggled(),
    {
        self.current_move = match self.current_move {
            Move::Player => Move::Computer,
            Move::Computer => Move::Player,
        }
    }
}

} // verus!
