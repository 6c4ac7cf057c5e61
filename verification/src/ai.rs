//! The exhaustive adversarial search that picks the engine's move.

use vstd::prelude::*;

use crate::game::{Board, Cell, Player, full, line_won_by, spec_over, wins};

verus! {

/// The search engine, bound to the side it plays.
pub struct Ai {
    pub player: Player,
}

/// The grid after player `p` marks cell `m`.
pub open spec fn put(s: Seq<Cell>, m: int, p: Player) -> Seq<Cell> {
    s.update(m, Cell { owner: Some(p) })
}

/// The number of empty cells of the grid.
pub open spec fn empties(s: Seq<Cell>) -> nat
    decreases s.len(),
{
    if s.len() == 0 {
        0
    } else {
        empties(s.drop_last()) + (if s.last().owner is None {
            1nat
        } else {
            0nat
        })
    }
}

/// Marking an empty cell strictly lowers the number of empty cells.
pub proof fn lemma_empties_update(s: Seq<Cell>, m: int, p: Player)
    requires
        0 <= m < s.len(),
        s[m].owner is None,
    ensures
        empties(put(s, m, p)) < empties(s),
    decreases s.len(),
{
    let t = put(s, m, p);
    if m == s.len() - 1 {
        assert(t.drop_last() =~= s.drop_last());
    } else {
        assert(t.drop_last() =~= put(s.drop_last(), m, p));
        lemma_empties_update(s.drop_last(), m, p);
    }
}

/// The score of a finished position, seen from `me`: 1 for a win, -1 for a
/// loss, 0 for a draw.
pub open spec fn score(me: Player, s: Seq<Cell>) -> int {
    if wins(s, me) {
        1
    } else if wins(s, me.spec_swap()) {
        -1
    } else {
        0
    }
}

/// The game-theoretic value, seen from `me`, of the position `s` with
/// `mover` to move, both sides playing optimally.
pub open spec fn game_value(me: Player, s: Seq<Cell>, mover: Player) -> int
    decreases empties(s), 1int, 0int,
{
    if spec_over(s) || s.len() != 9 {
        score(me, s)
    } else {
        best_upto(me, s, mover, 9)
    }
}

/// The best value `mover` can reach among the empty cells with index below
/// `k`: the maximum when `mover` is `me`, the minimum otherwise. Folds to a
/// sentinel outside the attainable range when no such cell exists.
pub open spec fn best_upto(me: Player, s: Seq<Cell>, mover: Player, k: int) -> int
    decreases empties(s), 0int, k,
{
    if k <= 0 {
        if mover == me {
            -2
        } else {
            2
        }
    } else {
        let rest = best_upto(me, s, mover, k - 1);
        if 0 <= k - 1 < s.len() && s[k - 1].owner is None {
            proof {
                lemma_empties_update(s, k - 1, mover);
            }
            let v = game_value(me, put(s, k - 1, mover), mover.spec_swap());
            if mover == me {
                if v >= rest {
                    v
                } else {
                    rest
                }
            } else {
                if v <= rest {
                    v
                } else {
                    rest
                }
            }
        } else {
            rest
        }
    }
}

/// The value, seen from `me`, of `mover` marking cell `m` in position `s`.
pub open spec fn move_value(me: Player, s: Seq<Cell>, mover: Player, m: int) -> int {
    game_value(me, put(s, m, mover), mover.spec_swap())
}

/// A player who held no line still holds none after the other side marks a
/// cell: only the mover can complete a line.
pub proof fn lemma_put_preserves_no_win(s: Seq<Cell>, m: int, p: Player, q: Player)
    requires
        s.len() == 9,
        0 <= m < 9,
        q != p,
        !wins(s, q),
    ensures
        !wins(put(s, m, p), q),
{
    let t = put(s, m, p);
    assert forall|l: int| 0 <= l < 8 implies !line_won_by(t, l, q) by {
        assert(!line_won_by(s, l, q));
    }
}

/// Every position's value lies between a loss and a win.
pub proof fn lemma_value_range(me: Player, s: Seq<Cell>, mover: Player)
    requires
        s.len() == 9,
    ensures
        -1 <= game_value(me, s, mover) <= 1,
    decreases empties(s), 1int, 0int,
{
    if !spec_over(s) {
        assert(!full(s));
        let j = choose|j: int| 0 <= j < 9 && s[j].owner is None;
        assert(0 <= j < 9 && s[j].owner is None);
        lemma_best_upto_range(me, s, mover, 9);
    }
}

/// The fold over the first `k` cells stays between -1 and 1 as soon as one
/// of them is empty, and equals its sentinel when none is.
pub proof fn lemma_best_upto_range(me: Player, s: Seq<Cell>, mover: Player, k: int)
    requires
        s.len() == 9,
        0 <= k <= 9,
    ensures
        (exists|m: int| 0 <= m < k && s[m].owner is None) ==> -1 <= best_upto(me, s, mover, k)
            <= 1,
        (forall|m: int| 0 <= m < k ==> s[m].owner is Some) ==> best_upto(me, s, mover, k) == (
        if mover == me {
            -2int
        } else {
            2int
        }),
    decreases empties(s), 0int, k,
{
    if k > 0 {
        lemma_best_upto_range(me, s, mover, k - 1);
        if s[k - 1].owner is None {
            lemma_empties_update(s, k - 1, mover);
            lemma_value_range(me, put(s, k - 1, mover), mover.spec_swap());
        }
    }
}

/// When `me` is the mover, the fold is at least the value of each empty
/// cell it covers.
pub proof fn lemma_best_upto_ge(me: Player, s: Seq<Cell>, k: int, m: int)
    requires
        s.len() == 9,
        0 <= m < k <= 9,
        s[m].owner is None,
    ensures
        best_upto(me, s, me, k) >= move_value(me, s, me, m),
    decreases k,
{
    if m < k - 1 {
        lemma_best_upto_ge(me, s, k - 1, m);
    }
}

/// When the opponent is the mover, the fold is at most the value of each
/// empty cell it covers.
pub proof fn lemma_best_upto_le(me: Player, s: Seq<Cell>, k: int, m: int)
    requires
        s.len() == 9,
        0 <= m < k <= 9,
        s[m].owner is None,
    ensures
        best_upto(me, s, me.spec_swap(), k) <= move_value(me, s, me.spec_swap(), m),
    decreases k,
{
    if m < k - 1 {
        lemma_best_upto_le(me, s, k - 1, m);
    }
}

/// As soon as one of the first `k` cells is empty, the fold equals the
/// value of one of them.
pub proof fn lemma_best_upto_attained(me: Player, s: Seq<Cell>, mover: Player, k: int)
    requires
        s.len() == 9,
        0 <= k <= 9,
        exists|m: int| 0 <= m < k && s[m].owner is None,
    ensures
        exists|m: int|
            0 <= m < k && s[m].owner is None && best_upto(me, s, mover, k) == move_value(
                me,
                s,
                mover,
                m,
            ),
    decreases k,
{
    let v = best_upto(me, s, mover, k);
    if s[k - 1].owner is None {
        let vk = move_value(me, s, mover, k - 1);
        lemma_value_range(me, put(s, k - 1, mover), mover.spec_swap());
        lemma_best_upto_range(me, s, mover, k - 1);
        if v == vk {
            assert(0 <= k - 1 < k && s[k - 1].owner is None && best_upto(me, s, mover, k)
                == move_value(me, s, mover, k - 1));
        } else {
            assert(v == best_upto(me, s, mover, k - 1));
            assert(exists|m: int| 0 <= m < k - 1 && s[m].owner is None);
            lemma_best_upto_attained(me, s, mover, k - 1);
        }
    } else {
        let j = choose|m: int| 0 <= m < k && s[m].owner is None;
        assert(0 <= j < k - 1 && s[j].owner is None);
        lemma_best_upto_attained(me, s, mover, k - 1);
    }
}

/// Law: a move of maximal value attains the position's value, so playing
/// it hands the opponent a position worth no less than the current one.
pub proof fn lemma_best_move_attains(me: Player, s: Seq<Cell>, r: int)
    requires
        s.len() == 9,
        !spec_over(s),
        0 <= r < 9,
        s[r].owner is None,
        forall|m: int|
            0 <= m < 9 && s[m].owner is None ==> move_value(me, s, me, m) <= move_value(
                me,
                s,
                me,
                r,
            ),
    ensures
        game_value(me, s, me) == move_value(me, s, me, r),
{
    lemma_best_upto_ge(me, s, 9, r);
    lemma_best_upto_attained(me, s, me, 9);
}

/// Law: no reply of the opponent lowers the value below the value of the
/// position the opponent was handed.
pub proof fn lemma_reply_keeps_value(me: Player, s: Seq<Cell>, m: int)
    requires
        s.len() == 9,
        !spec_over(s),
        0 <= m < 9,
        s[m].owner is None,
    ensures
        game_value(me, put(s, m, me.spec_swap()), me) >= game_value(me, s, me.spec_swap()),
{
    lemma_best_upto_le(me, s, 9, m);
}

/// Law: a finished position of non-negative value is never a loss — if the
/// opponent held a line, so would `me`, which legal play excludes.
pub proof fn lemma_nonneg_score_no_loss(me: Player, s: Seq<Cell>)
    requires
        score(me, s) >= 0,
    ensures
        wins(s, me.spec_swap()) ==> wins(s, me),
{
}

/// Law: the engine never loses. From an unfinished position worth at least
/// a draw to `me`, playing a move `r` of maximal value either finishes the
/// game at a score that is no loss, or hands the opponent a position from
/// which every reply `m` leaves `me` a position again worth at least a
/// draw.
pub proof fn lemma_never_loses_round(me: Player, s: Seq<Cell>, r: int, m: int)
    requires
        s.len() == 9,
        !spec_over(s),
        game_value(me, s, me) >= 0,
        0 <= r < 9,
        s[r].owner is None,
        forall|i: int|
            0 <= i < 9 && s[i].owner is None ==> move_value(me, s, me, i) <= move_value(
                me,
                s,
                me,
                r,
            ),
        !spec_over(put(s, r, me)) ==> 0 <= m < 9 && put(s, r, me)[m].owner is None,
    ensures
        spec_over(put(s, r, me)) ==> score(me, put(s, r, me)) >= 0,
        !spec_over(put(s, r, me)) ==> game_value(
            me,
            put(put(s, r, me), m, me.spec_swap()),
            me,
        ) >= 0,
{
    lemma_best_move_attains(me, s, r);
    let s1 = put(s, r, me);
    if !spec_over(s1) {
        lemma_reply_keeps_value(me, s1, m);
    }
}

/// Law: a move that completes a line for `me` has the winning value.
pub proof fn lemma_winning_move_value(me: Player, s: Seq<Cell>, w: int)
    requires
        s.len() == 9,
        0 <= w < 9,
        s[w].owner is None,
        wins(put(s, w, me), me),
    ensures
        move_value(me, s, me, w) == 1,
{
}

/// Law: any result meeting `next_move`'s contract takes a move that
/// completes a line for `me`, provided no earlier move is worth a win too.
pub proof fn lemma_forced_win_chosen(me: Player, s: Seq<Cell>, w: int, r: int)
    requires
        s.len() == 9,
        !spec_over(s),
        0 <= w < 9,
        s[w].owner is None,
        wins(put(s, w, me), me),
        forall|m: int| 0 <= m < w && s[m].owner is None ==> move_value(me, s, me, m) < 1,
        0 <= r < 9,
        s[r].owner is None,
        forall|m: int|
            0 <= m < 9 && s[m].owner is None ==> move_value(me, s, me, m) <= move_value(
                me,
                s,
                me,
                r,
            ),
        forall|m: int|
            0 <= m < r && s[m].owner is None ==> move_value(me, s, me, m) < move_value(
                me,
                s,
                me,
                r,
            ),
    ensures
        r == w,
{
    lemma_winning_move_value(me, s, w);
    lemma_value_range(me, put(s, r, me), me.spec_swap());
    assert(move_value(me, s, me, r) == 1);
}

/// Law: the contract of `next_move` pins one index, so two results for one
/// position and one engine side are equal.
pub proof fn lemma_choice_unique(me: Player, s: Seq<Cell>, r1: int, r2: int)
    requires
        s.len() == 9,
        0 <= r1 < 9,
        s[r1].owner is None,
        0 <= r2 < 9,
        s[r2].owner is None,
        forall|m: int|
            0 <= m < 9 && s[m].owner is None ==> move_value(me, s, me, m) <= move_value(
                me,
                s,
                me,
                r1,
            ),
        forall|m: int|
            0 <= m < r1 && s[m].owner is None ==> move_value(me, s, me, m) < move_value(
                me,
                s,
                me,
                r1,
            ),
        forall|m: int|
            0 <= m < 9 && s[m].owner is None ==> move_value(me, s, me, m) <= move_value(
                me,
                s,
                me,
                r2,
            ),
        forall|m: int|
            0 <= m < r2 && s[m].owner is None ==> move_value(me, s, me, m) < move_value(
                me,
                s,
                me,
                r2,
            ),
    ensures
        r1 == r2,
{
    if r1 < r2 {
        assert(move_value(me, s, me, r1) < move_value(me, s, me, r2));
        assert(move_value(me, s, me, r2) <= move_value(me, s, me, r1));
    }
    if r2 < r1 {
        assert(move_value(me, s, me, r2) < move_value(me, s, me, r1));
        assert(move_value(me, s, me, r1) <= move_value(me, s, me, r2));
    }
}

impl Ai {
    /// The empty cell indices of the board, in increasing order, exactly
    /// the legal moves of the position.
    pub fn available_moves(&self, board: &Board) -> (moves: Vec<usize>)
        requires
            board.well_formed(),
        ensures
            forall|j: int|
                0 <= j < moves@.len() ==> moves@[j] < 9 && board.cells@[moves@[j] as int].owner
                    is None,
            forall|j1: int, j2: int| 0 <= j1 < j2 < moves@.len() ==> moves@[j1] < moves@[j2],
            forall|m: int|
                0 <= m < 9 && board.cells@[m].owner is None ==> exists|j: int|
                    0 <= j < moves@.len() && moves@[j] == m,
    {
        let mut moves: Vec<usize> = Vec::new();
        let mut k: usize = 0;
        while k < 9
            invariant
                board.well_formed(),
                k <= 9,
                forall|j: int|
                    0 <= j < moves@.len() ==> moves@[j] < k && board.cells@[moves@[j] as int].owner
                        is None,
                forall|j1: int, j2: int| 0 <= j1 < j2 < moves@.len() ==> moves@[j1] < moves@[j2],
                forall|m: int|
                    0 <= m < k && board.cells@[m].owner is None ==> exists|j: int|
                        0 <= j < moves@.len() && moves@[j] == m,
            decreases 9 - k,
        {
            if board.cells[k].owner.is_none() {
                let ghost pre = moves@;
                moves.push(k);
                proof {
                    assert forall|m: int|
                        0 <= m < k + 1 && board.cells@[m].owner is None implies exists|j: int|
                        0 <= j < moves@.len() && moves@[j] == m by {
                        if m == k {
                            assert(moves@[moves@.len() - 1] == m);
                        } else {
                            let j = choose|j: int| 0 <= j < pre.len() && pre[j] == m;
                            assert(moves@[j] == m);
                        }
                    }
                }
            }
            k += 1;
        }
        moves
    }

    /// Value of `player` (the engine's own side) marking cell `play`: the
    /// mark is placed, the subtree is scored with the opponent choosing
    /// its best reply, and the mark is removed again.
    #[verifier::loop_isolation(false)]
    fn eval_max(&self, board: &mut Board, player: Player, play: usize) -> (score: isize)
        requires
            old(board).well_formed(),
            !spec_over(old(board).cells@),
            player == self.player,
            play < 9,
            old(board).cells@[play as int].owner is None,
        ensures
            final(board).well_formed(),
            final(board).cells@ == old(board).cells@,
            final(board).current_player == old(board).current_player,
            final(board).last_play == old(board).last_play,
            score as int == move_value(self.player, old(board).cells@, player, play as int),
        decreases empties(old(board).cells@),
    {
        let ghost s0 = board.cells@;
        let ghost me = self.player;
        let ghost s1 = put(s0, play as int, player);
        proof {
            lemma_empties_update(s0, play as int, player);
        }
        board.cells[play] = Cell { owner: Some(player) };
        proof {
            assert(board.cells@ =~= s1);
        }
        let best: isize;
        if board.is_over() {
            proof {
                lemma_put_preserves_no_win(s0, play as int, player, player.spec_swap());
            }
            best = match board.winner() {
                Some(p) => if p == self.player {
                    1
                } else {
                    -1
                },
                None => 0,
            };
            assert(best as int == game_value(me, s1, player.spec_swap()));
        } else {
            let mut acc: isize = 2;
            let mut k: usize = 0;
            while k < 9
                invariant
                    board.well_formed(),
                    board.cells@ == s1,
                    board.current_player == old(board).current_player,
                    board.last_play == old(board).last_play,
                    k <= 9,
                    !spec_over(s1),
                    acc as int == best_upto(me, s1, player.spec_swap(), k as int),
                decreases 9 - k,
            {
                if board.cells[k].owner.is_none() {
                    let v = self.eval_min(board, player.swap(), k);
                    if v < acc {
                        acc = v;
                    }
                }
                k += 1;
            }
            best = acc;
            assert(best as int == game_value(me, s1, player.spec_swap()));
        }
        board.cells[play] = Cell { owner: None };
        proof {
            assert(board.cells@ =~= s0);
        }
        best
    }

    /// Mirror of `eval_max` for the opponent's mark on cell `play`: the
    /// engine then chooses its best reply, so the subtree is maximized.
    #[verifier::loop_isolation(false)]
    fn eval_min(&self, board: &mut Board, player: Player, play: usize) -> (score: isize)
        requires
            old(board).well_formed(),
            !spec_over(old(board).cells@),
            player == self.player.spec_swap(),
            play < 9,
            old(board).cells@[play as int].owner is None,
        ensures
            final(board).well_formed(),
            final(board).cells@ == old(board).cells@,
            final(board).current_player == old(board).current_player,
            final(board).last_play == old(board).last_play,
            score as int == move_value(self.player, old(board).cells@, player, play as int),
        decreases empties(old(board).cells@),
    {
        let ghost s0 = board.cells@;
        let ghost me = self.player;
        let ghost s1 = put(s0, play as int, player);
        proof {
            lemma_empties_update(s0, play as int, player);
        }
        board.cells[play] = Cell { owner: Some(player) };
        proof {
            assert(board.cells@ =~= s1);
        }
        let best: isize;
        if board.is_over() {
            proof {
                lemma_put_preserves_no_win(s0, play as int, player, player.spec_swap());
            }
            best = match board.winner() {
                Some(p) => if p == self.player {
                    1
                } else {
                    -1
                },
                None => 0,
            };
            assert(best as int == game_value(me, s1, player.spec_swap()));
        } else {
            let mut acc: isize = -2;
            let mut k: usize = 0;
            while k < 9
                invariant
                    board.well_formed(),
                    board.cells@ == s1,
                    board.current_player == old(board).current_player,
                    board.last_play == old(board).last_play,
                    k <= 9,
                    !spec_over(s1),
                    acc as int == best_upto(me, s1, player.spec_swap(), k as int),
                decreases 9 - k,
            {
                if board.cells[k].owner.is_none() {
                    let v = self.eval_max(board, player.swap(), k);
                    if v > acc {
                        acc = v;
                    }
                }
                k += 1;
            }
            best = acc;
            assert(best as int == game_value(me, s1, player.spec_swap()));
        }
        board.cells[play] = Cell { owner: None };
        proof {
            assert(board.cells@ =~= s0);
        }
        best
    }

    /// The engine's move for the position: the empty cell whose move value
    /// is maximal, the lowest such index on a tie. The board is handed
    /// back exactly as it came in.
    #[verifier::loop_isolation(false)]
    pub fn next_move(&self, board: &mut Board) -> (r: usize)
        requires
            old(board).well_formed(),
            !spec_over(old(board).cells@),
            old(board).current_player == self.player,
        ensures
            final(board).well_formed(),
            final(board).cells@ == old(board).cells@,
            final(board).current_player == old(board).current_player,
            final(board).last_play == old(board).last_play,
            r < 9,
            old(board).cells@[r as int].owner is None,
            forall|m: int|
                0 <= m < 9 && old(board).cells@[m].owner is None ==> move_value(
                    self.player,
                    old(board).cells@,
                    self.player,
                    m,
                ) <= move_value(self.player, old(board).cells@, self.player, r as int),
            forall|m: int|
                0 <= m < r as int && old(board).cells@[m].owner is None ==> move_value(
                    self.player,
                    old(board).cells@,
                    self.player,
                    m,
                ) < move_value(self.player, old(board).cells@, self.player, r as int),
            move_value(self.player, old(board).cells@, self.player, r as int) == game_value(
                self.player,
                old(board).cells@,
                self.player,
            ),
    {
        let ghost s0 = board.cells@;
        let ghost me = self.player;
        let mut best_i: usize = 9;
        let mut best_v: isize = -2;
        let mut k: usize = 0;
        while k < 9
            invariant
                board.well_formed(),
                board.cells@ == s0,
                board.current_player == old(board).current_player,
                board.last_play == old(board).last_play,
                k <= 9,
                best_i <= 9,
                best_i == 9 ==> forall|m: int| 0 <= m < k ==> s0[m].owner is Some,
                best_i < 9 ==> {
                    &&& best_i < k
                    &&& s0[best_i as int].owner is None
                    &&& best_v as int == move_value(me, s0, me, best_i as int)
                    &&& forall|m: int|
                        0 <= m < k && s0[m].owner is None ==> move_value(me, s0, me, m)
                            <= best_v as int
                    &&& forall|m: int|
                        0 <= m < best_i && s0[m].owner is None ==> move_value(me, s0, me, m)
                            < best_v as int
                },
            decreases 9 - k,
        {
            if board.cells[k].owner.is_none() {
                let v = self.eval_max(board, self.player, k);
                if best_i == 9 || v > best_v {
                    best_i = k;
                    best_v = v;
                }
            }
            k += 1;
        }
        proof {
            if best_i == 9 {
                assert(full(s0));
            }
            lemma_best_move_attains(me, s0, best_i as int);
        }
        best_i
    }
}

} // verus!
