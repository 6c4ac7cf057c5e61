//! The board model: cells, players, move legality, and terminal-state
//! detection for a 3-by-3 grid.

use vstd::prelude::*;

use crate::errors::TicTacError;

verus! {

/// One of the two sides of the game.
#[derive(Debug, Clone, Copy, PartialEq, Eq, Structural)]
pub enum Player {
    X,
    O,
}

impl Player {
    /// The other player, as a specification-level value.
    pub open spec fn spec_swap(self) -> Player {
        match self {
            Player::X => Player::O,
            Player::O => Player::X,
        }
    }

    /// Returns the other player.
    pub fn swap(&self) -> (r: Player)
        ensures
            r == self.spec_swap(),
    {
        match *self {
            Player::X => Player::O,
            Player::O => Player::X,
        }
    }
}

/// Law: swapping a player twice gives back the same player.
pub proof fn lemma_swap_involution(p: Player)
    ensures
        p.spec_swap().spec_swap() == p,
{
}

/// One square of the grid, either empty or owned by a player.
#[derive(Debug, Clone, Copy, PartialEq, Eq)]
pub struct Cell {
    pub owner: Option<Player>,
}

/// The 9-cell grid in row-major order together with the player to move.
pub struct Board {
    pub cells: Vec<Cell>,
    pub current_player: Player,
    pub last_play: usize,
}

/// The three cell indices of line number `l`: the three rows, then the
/// three columns, then the two diagonals.
pub open spec fn line_ix(l: int) -> (int, int, int) {
    if l == 0 {
        (0, 1, 2)
    } else if l == 1 {
        (3, 4, 5)
    } else if l == 2 {
        (6, 7, 8)
    } else if l == 3 {
        (0, 3, 6)
    } else if l == 4 {
        (1, 4, 7)
    } else if l == 5 {
        (2, 5, 8)
    } else if l == 6 {
        (0, 4, 8)
    } else {
        (2, 4, 6)
    }
}

/// Line number `l` is fully owned by player `p`.
pub open spec fn line_won_by(s: Seq<Cell>, l: int, p: Player) -> bool {
    s[line_ix(l).0].owner == Some(p) && s[line_ix(l).1].owner == Some(p) && s[line_ix(l).2].owner
        == Some(p)
}

/// Player `p` owns all three cells of some line.
pub open spec fn wins(s: Seq<Cell>, p: Player) -> bool {
    exists|l: int| 0 <= l < 8 && line_won_by(s, l, p)
}

/// Some player owns a full line.
pub open spec fn has_winner(s: Seq<Cell>) -> bool {
    wins(s, Player::X) || wins(s, Player::O)
}

/// Every cell is occupied.
pub open spec fn full(s: Seq<Cell>) -> bool {
    forall|i: int| 0 <= i < 9 ==> s[i].owner is Some
}

/// The game has ended: a line is won or the grid is full.
pub open spec fn spec_over(s: Seq<Cell>) -> bool {
    has_winner(s) || full(s)
}

/// The owner shared by three cells, if all three are occupied by one player.
pub open spec fn spec_line_owner(a: Cell, b: Cell, c: Cell) -> Option<Player> {
    if a.owner is Some && b.owner == a.owner && c.owner == a.owner {
        a.owner
    } else {
        None
    }
}

/// Law: a line fully owned by `p` makes `p` a winner of the position.
pub proof fn lemma_line_detection(s: Seq<Cell>, l: int, p: Player)
    requires
        0 <= l < 8,
        line_won_by(s, l, p),
    ensures
        wins(s, p),
{
}

/// Law: when a line is fully owned by `p` and the opponent holds no line,
/// any result meeting `winner`'s contract is exactly `Some(p)`.
pub proof fn lemma_sole_winner(s: Seq<Cell>, l: int, p: Player, r: Option<Player>)
    requires
        0 <= l < 8,
        line_won_by(s, l, p),
        !wins(s, p.spec_swap()),
        (match r {
            Some(q) => wins(s, q),
            None => !has_winner(s),
        }),
    ensures
        r == Some(p),
{
    lemma_line_detection(s, l, p);
}

/// Law: a fully occupied grid where neither player holds a line is over
/// and has no winner.
pub proof fn lemma_draw_detection(s: Seq<Cell>)
    requires
        full(s),
        !wins(s, Player::X),
        !wins(s, Player::O),
    ensures
        spec_over(s),
        !has_winner(s),
{
}

/// Check whether 3 cells are non-empty and owned by the same player.
/// Returns the player that owns all three cells, if any.
pub fn check_line(cells: &[Cell]) -> (r: Option<Player>)
    requires
        cells@.len() == 3,
    ensures
        r == spec_line_owner(cells@[0], cells@[1], cells@[2]),
{
    let c0 = *vstd::slice::slice_index_get(cells, 0);
    let c1 = *vstd::slice::slice_index_get(cells, 1);
    let c2 = *vstd::slice::slice_index_get(cells, 2);
    match (c0.owner, c1.owner, c2.owner) {
        (Some(p), Some(q), Some(t)) => if q == p && t == p {
            Some(p)
        } else {
            None
        },
        _ => None,
    }
}

impl Board {
    /// The grid has exactly 9 cells.
    pub open spec fn well_formed(self) -> bool {
        self.cells@.len() == 9
    }

    /// A fresh board: all cells empty, `player` to move.
    pub fn new(player: Player) -> (b: Board)
        ensures
            b.well_formed(),
            forall|i: int| 0 <= i < 9 ==> b.cells@[i].owner is None,
            b.current_player == player,
            b.last_play == 0,
    {
        let mut cells: Vec<Cell> = Vec::new();
        let mut i: usize = 0;
        while i < 9
            invariant
                i <= 9,
                cells@.len() == i,
                forall|j: int| 0 <= j < i ==> cells@[j].owner is None,
            decreases 9 - i,
        {
            cells.push(Cell { owner: None });
            i += 1;
        }
        Board { cells, current_player: player, last_play: 0 }
    }

    /// Place the current player's mark on cell `play`. Succeeds on an empty
    /// cell, advancing the turn; fails on an occupied one, reporting the
    /// occupant and leaving the board untouched.
    pub fn play(&mut self, play: usize) -> (r: Result<(), TicTacError>)
        requires
            old(self).well_formed(),
            play < 9,
        ensures
            final(self).well_formed(),
            old(self).cells@[play as int].owner is None ==> {
                &&& r is Ok
                &&& final(self).cells@ == old(self).cells@.update(
                    play as int,
                    (Cell { owner: Some(old(self).current_player) }),
                )
                &&& final(self).current_player == old(self).current_player.spec_swap()
                &&& final(self).last_play == play
            },
            forall|q: Player|
                old(self).cells@[play as int].owner == Some(q) ==> {
                    &&& r == Err::<(), TicTacError>(TicTacError::CellAlreadyOccupied(play, q))
                    &&& final(self).cells@ == old(self).cells@
                    &&& final(self).current_player == old(self).current_player
                    &&& final(self).last_play == old(self).last_play
                },
    {
        match self.cells[play].owner {
            None => {
                let mark = self.current_player;
                self.cells[play] = Cell { owner: Some(mark) };
                self.current_player = self.current_player.swap();
                self.last_play = play;
                Ok(())
            },
            Some(owner) => Err(TicTacError::CellAlreadyOccupied(play, owner)),
        }
    }

    /// The shared owner of the three given cells, if any.
    fn line_owner(&self, a: usize, b: usize, c: usize) -> (r: Option<Player>)
        requires
            self.well_formed(),
            a < 9,
            b < 9,
            c < 9,
        ensures
            r == spec_line_owner(self.cells@[a as int], self.cells@[b as int], self.cells@[c as int]),
    {
        let ca = self.cells[a];
        let cb = self.cells[b];
        let cc = self.cells[c];
        match (ca.owner, cb.owner, cc.owner) {
            (Some(p), Some(q), Some(t)) => if q == p && t == p {
                Some(p)
            } else {
                None
            },
            _ => None,
        }
    }

    /// The game has ended: someone holds a line, or the grid is full.
    pub fn is_over(&self) -> (r: bool)
        requires
            self.well_formed(),
        ensures
            r == spec_over(self.cells@),
    {
        match self.winner() {
            Some(_) => true,
            None => {
                let mut k: usize = 0;
                while k < 9
                    invariant
                        self.well_formed(),
                        !has_winner(self.cells@),
                        k <= 9,
                        forall|j: int| 0 <= j < k ==> self.cells@[j].owner is Some,
                    decreases 9 - k,
                {
                    if self.cells[k].owner.is_none() {
                        assert(!full(self.cells@));
                        return false;
                    }
                    k += 1;
                }
                assert(full(self.cells@));
                true
            },
        }
    }

    /// The player holding a full line, if any. Lines are checked in a fixed
    /// order: rows, then columns, then the two diagonals.
    pub fn winner(&self) -> (r: Option<Player>)
        requires
            self.well_formed(),
        ensures
            (match r {
                Some(p) => wins(self.cells@, p),
                None => !has_winner(self.cells@),
            }),
    {
        let ghost s = self.cells@;
        match self.line_owner(0, 1, 2) {
            Some(p) => {
                proof {
                    assert(line_won_by(s, 0, p));
                }
                return Some(p);
            },
            None => {},
        }
        match self.line_owner(3, 4, 5) {
            Some(p) => {
                proof {
                    assert(line_won_by(s, 1, p));
                }
                return Some(p);
            },
            None => {},
        }
        match self.line_owner(6, 7, 8) {
            Some(p) => {
                proof {
                    assert(line_won_by(s, 2, p));
                }
                return Some(p);
            },
            None => {},
        }
        match self.line_owner(0, 3, 6) {
            Some(p) => {
                proof {
                    assert(line_won_by(s, 3, p));
                }
                return Some(p);
            },
            None => {},
        }
        match self.line_owner(1, 4, 7) {
            Some(p) => {
                proof {
                    assert(line_won_by(s, 4, p));
                }
                return Some(p);
            },
            None => {},
        }
        match self.line_owner(2, 5, 8) {
            Some(p) => {
                proof {
                    assert(line_won_by(s, 5, p));
                }
                return Some(p);
            },
            None => {},
        }
        match self.line_owner(0, 4, 8) {
            Some(p) => {
                proof {
                    assert(line_won_by(s, 6, p));
                }
                return Some(p);
            },
            None => {},
        }
        match self.line_owner(2, 4, 6) {
            Some(p) => {
                proof {
                    assert(line_won_by(s, 7, p));
                }
                return Some(p);
            },
            None => {},
        }
        proof {
            assert forall|p: Player| !wins(s, p) by {
                assert(forall|l: int| 0 <= l < 8 ==> !line_won_by(s, l, p));
            }
        }
        None
    }
}

} // verus!
