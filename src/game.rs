//! The two-player game: one independent board per player, sharing only the
//! spawn table.
use vstd::prelude::*;
use crate::board::{ActionType, Board, CoinGirl, InputTimer, Inventory, PlayerInput, ran, input_applied};
use crate::catalog::ObjType;
use crate::grid::{BOARD_CELLS, BOARD_WIDTH, at, in_board, lemma_grid_ext, lemma_index_cell, shifted_cell};
use crate::spawn::{SpawnTable, drawable};

verus! {

/// A player.
#[derive(Debug, Clone, Copy, PartialEq, Eq, Structural, Hash)]
pub enum Player {
    P1,
    P2,
}

/// The session settings.
#[derive(Debug, Clone, Copy, PartialEq, Eq, Structural)]
pub struct GameInfo {
    pub players: usize,
}

/// Number of rows that a new game starts with.
pub const INITIAL_ROWS: usize = 3;

/// Both boards and the table that new rows are drawn from.
pub struct Game {
    pub info: GameInfo,
    pub p1: Board,
    pub p2: Board,
    pub table: SpawnTable,
}

pub open spec fn other(p: Player) -> Player {
    match p {
        Player::P1 => Player::P2,
        Player::P2 => Player::P1,
    }
}

pub open spec fn board_of(g: Game, p: Player) -> Board {
    match p {
        Player::P1 => g.p1,
        Player::P2 => g.p2,
    }
}

/// Whether player `p` takes part: player 2 only in a two-player game.
pub open spec fn active(g: Game, p: Player) -> bool {
    p == Player::P1 || g.info.players == 2
}

/// `g1` is `g0` after one tick of input for player `p`, which ran the
/// actions `acts`; the input of a player who does not take part is ignored.
pub open spec fn player_update(
    g0: Game,
    p: Player,
    input: PlayerInput,
    g1: Game,
    acts: Seq<ActionType>,
) -> bool {
    &&& g1.info == g0.info
    &&& g1.table == g0.table
    &&& board_of(g1, other(p)) == board_of(g0, other(p))
    &&& !active(g0, p) ==> board_of(g1, p) == board_of(g0, p) && acts.len() == 0
    &&& active(g0, p) ==> exists|mid: Board|
        {
            &&& #[trigger] input_applied(board_of(g0, p), input, mid, acts)
            &&& ran(mid, acts, g0.table@, board_of(g1, p))
        }
}

/// Any sequence of ticks of input for one player leaves the other player's
/// board, cursor and hand exactly as they were.
pub proof fn lemma_no_cross_player_effect(
    games: Seq<Game>,
    inputs: Seq<PlayerInput>,
    actions: Seq<Seq<ActionType>>,
    p: Player,
)
    requires
        games.len() == inputs.len() + 1,
        actions.len() == inputs.len(),
        forall|i: int|
            0 <= i < inputs.len() ==> player_update(games[i], p, #[trigger] inputs[i], games[i + 1], actions[i]),
    ensures
        board_of(games.last(), other(p)) == board_of(games[0], other(p)),
    decreases inputs.len(),
{
    if inputs.len() > 0 {
        let n = inputs.len() - 1;
        lemma_no_cross_player_effect(games.take(n + 1), inputs.take(n), actions.take(n), p);
        assert(player_update(games[n], p, inputs[n], games[n + 1], actions[n]));
    }
}

impl Game {
    pub open spec fn wf(&self) -> bool {
        &&& self.p1.wf()
        &&& self.p2.wf()
        &&& self.table.wf()
    }

    /// A new game: player 1's board starts with `INITIAL_ROWS` rows of kinds
    /// drawn from `table`, the cursor in the middle column, and an empty hand.
    /// In a two-player game player 2's board starts with the very same rows;
    /// otherwise it stays empty.
    pub fn setup_game(info: GameInfo, table: SpawnTable) -> (r: Game)
        requires
            table.wf(),
        ensures
            r.wf(),
            r.info == info,
            r.table == table,
            r.p1.girl == (CoinGirl { col: 3, timer: InputTimer::Disarmed }),
            r.p1.inventory == (Inventory { obj_count: 0, obj_type: ObjType::One }),
            forall|c: int, rr: int|
                in_board(c, rr) ==> (rr < INITIAL_ROWS <==> #[trigger] at(r.p1.grid@, c, rr) is Some),
            forall|c: int, rr: int|
                in_board(c, rr) && rr < INITIAL_ROWS ==> drawable(table@, #[trigger] at(r.p1.grid@, c, rr)->0),
            r.p2.girl == r.p1.girl,
            r.p2.inventory == r.p1.inventory,
            info.players == 2 ==> r.p2.grid@ == r.p1.grid@,
            info.players != 2 ==> forall|c: int, rr: int| in_board(c, rr) ==> #[trigger] at(r.p2.grid@, c, rr) is None,
    {
        let two = info.players == 2;
        let mut p1 = Board::new();
        let mut p2 = Board::new();
        assert(p1.grid@ =~= p2.grid@);
        let ghost empty = p2.grid@;
        let mut i: usize = 0;
        while i < INITIAL_ROWS
            invariant
                table.wf(),
                two == (info.players == 2),
                p1.wf(),
                p2.wf(),
                i <= INITIAL_ROWS,
                forall|j: int| 0 <= j < BOARD_CELLS ==> #[trigger] empty[j] is None,
                empty.len() == BOARD_CELLS,
                two ==> p1.grid@ == p2.grid@,
                !two ==> p2.grid@ == empty,
                p1.girl == p2.girl,
                p1.inventory == p2.inventory,
                p1.girl == (CoinGirl { col: 3, timer: InputTimer::Disarmed }),
                p1.inventory == (Inventory { obj_count: 0, obj_type: ObjType::One }),
                forall|c: int, rr: int|
                    in_board(c, rr) ==> (rr < i <==> #[trigger] at(p1.grid@, c, rr) is Some),
                forall|c: int, rr: int|
                    in_board(c, rr) && rr < i ==> drawable(table@, #[trigger] at(p1.grid@, c, rr)->0),
            decreases INITIAL_ROWS - i,
        {
            let row = table.draw_many(BOARD_WIDTH);
            proof {
                assert(crate::grid::last_row_clear(p1.grid@));
            }
            let ghost g0 = p1.grid@;
            p1.new_row_with(&row);
            if two {
                p2.new_row_with(&row);
            }
            proof {
                if two {
                    lemma_grid_ext(p1.grid@, p2.grid@);
                }
                assert forall|c: int, rr: int| in_board(c, rr) && rr < i + 1 implies drawable(table@, #[trigger] at(p1.grid@, c, rr)->0) by {
                    assert(at(p1.grid@, c, rr) == shifted_cell(g0, row@, c, rr));
                    if rr == 0 {
                        assert(drawable(table@, row@[c]));
                    } else {
                        assert(in_board(c, rr - 1));
                        assert(drawable(table@, at(g0, c, rr - 1)->0));
                    }
                }
                assert forall|c: int, rr: int| in_board(c, rr) implies (rr < i + 1 <==> #[trigger] at(p1.grid@, c, rr) is Some) by {
                    assert(at(p1.grid@, c, rr) == shifted_cell(g0, row@, c, rr));
                    if rr > 0 {
                        assert(in_board(c, rr - 1));
                    }
                }
            }
            i = i + 1;
        }
        proof {
            if !two {
                assert forall|c: int, rr: int| in_board(c, rr) implies #[trigger] at(p2.grid@, c, rr) is None by {
                    lemma_index_cell(c, rr);
                }
            }
        }
        Game { info, p1, p2, table }
    }

    /// The board of player `p`.
    pub fn board(&self, p: Player) -> (r: &Board)
        ensures
            *r == board_of(*self, p),
    {
        match p {
            Player::P1 => &self.p1,
            Player::P2 => &self.p2,
        }
    }

    /// One tick of input for player `p`; the other board is not touched, and
    /// the input of a player who does not take part is ignored. Returns the
    /// actions run.
    pub fn update(&mut self, p: Player, input: PlayerInput) -> (r: Vec<ActionType>)
        requires
            old(self).wf(),
        ensures
            final(self).wf(),
            player_update(*old(self), p, input, *final(self), r@),
    {
        let ghost g0 = *self;
        match p {
            Player::P1 => {
                let r = self.p1.update(input, &self.table);
                let ghost mid = choose|mid: Board| #[trigger] input_applied(g0.p1, input, mid, r@) && ran(mid, r@, g0.table@, self.p1);
                assert(input_applied(board_of(g0, p), input, mid, r@));
                r
            },
            Player::P2 => {
                if self.info.players != 2 {
                    return Vec::new();
                }
                let r = self.p2.update(input, &self.table);
                let ghost mid = choose|mid: Board| #[trigger] input_applied(g0.p2, input, mid, r@) && ran(mid, r@, g0.table@, self.p2);
                assert(input_applied(board_of(g0, p), input, mid, r@));
                r
            },
        }
    }

    /// Lets `delta` milliseconds pass for both row-advance timers.
    pub fn time(&mut self, delta: u64)
        requires
            old(self).wf(),
        ensures
            final(self).wf(),
            final(self).info == old(self).info,
            final(self).table == old(self).table,
            final(self).p1.grid == old(self).p1.grid,
            final(self).p2.grid == old(self).p2.grid,
            final(self).p1.inventory == old(self).p1.inventory,
            final(self).p2.inventory == old(self).p2.inventory,
            final(self).p1.girl.col == old(self).p1.girl.col,
            final(self).p2.girl.col == old(self).p2.girl.col,
            final(self).p1.girl.timer == crate::board::tick_spec(old(self).p1.girl.timer, delta as int),
            final(self).p2.girl.timer == crate::board::tick_spec(old(self).p2.girl.timer, delta as int),
    {
        self.p1.tick(delta);
        self.p2.tick(delta);
    }
}

} // verus!
