use coin_pusher::board::{ActionType, Board, InputTimer, Inventory, PlayerInput, TIMER_DURATION_MS};
use coin_pusher::catalog::{board_objs, ObjInfo, ObjType};
use coin_pusher::game::{Game, GameInfo, Player};
use coin_pusher::grid::{Grid, Position, Token, BOARD_HEIGHT, BOARD_WIDTH};
use coin_pusher::spawn::{CatalogError, SpawnTable};

fn table() -> SpawnTable {
    SpawnTable::new(&board_objs()).unwrap()
}

fn board_with(cells: &[(usize, usize, ObjType)]) -> Board {
    let mut b = Board::new();
    for &(c, r, t) in cells {
        b.grid.set(c, r, Some(t));
    }
    b
}

fn count_tokens(g: &Grid) -> usize {
    let mut n = 0;
    for c in 0..BOARD_WIDTH {
        for r in 0..BOARD_HEIGHT {
            if g.get(c, r).is_some() {
                n += 1;
            }
        }
    }
    n
}

#[test]
fn merge_counts_and_ladder() {
    assert_eq!(ObjType::One.get_merge_count(), 5);
    assert_eq!(ObjType::Five.get_merge_count(), 2);
    assert_eq!(ObjType::OneHundred.get_merge_count(), 5);
    assert_eq!(ObjType::EraseItem.get_merge_count(), 2);
    assert_eq!(ObjType::One.get_upgrade(), Some(ObjType::Five));
    assert_eq!(ObjType::OneHundred.get_upgrade(), Some(ObjType::FiveHundred));
    assert_eq!(ObjType::FiveHundred.get_upgrade(), None);
    assert_eq!(ObjType::RankUp.get_upgrade(), None);
    assert_eq!(ObjType::EraseItem.get_upgrade(), None);
}

#[test]
fn paths() {
    assert_eq!(ObjType::One.get_path(), "one.png");
    assert_eq!(ObjType::OneHundred.get_path(), "one_hundred.png");
    assert_eq!(ObjType::EraseItem.get_path(), "erase.png");
}

#[test]
fn spawn_table_errors() {
    assert!(matches!(SpawnTable::new(&Vec::new()), Err(CatalogError::Empty)));
    let zero = vec![
        ObjInfo { obj_type: ObjType::One, weight: 0 },
        ObjInfo { obj_type: ObjType::Ten, weight: 0 },
    ];
    assert!(matches!(SpawnTable::new(&zero), Err(CatalogError::ZeroTotal)));
    assert!(SpawnTable::new(&board_objs()).is_ok());
}

#[test]
fn pick_follows_cumulative_weights() {
    let t = table();
    assert_eq!(t.pick(0), ObjType::One);
    assert_eq!(t.pick(9), ObjType::One);
    assert_eq!(t.pick(10), ObjType::Five);
    assert_eq!(t.pick(49), ObjType::OneHundred);
    assert_eq!(t.pick(50), ObjType::FiveHundred);
    assert_eq!(t.pick(54), ObjType::FiveHundred);
    assert_eq!(t.pick(55), ObjType::RankUp);
    assert_eq!(t.pick(56), ObjType::EraseItem);
}

#[test]
fn pick_skips_zero_weights() {
    let infos = vec![
        ObjInfo { obj_type: ObjType::Ten, weight: 0 },
        ObjInfo { obj_type: ObjType::Fifty, weight: 2 },
        ObjInfo { obj_type: ObjType::RankUp, weight: 0 },
        ObjInfo { obj_type: ObjType::EraseItem, weight: 1 },
    ];
    let t = SpawnTable::new(&infos).unwrap();
    assert_eq!(t.pick(0), ObjType::Fifty);
    assert_eq!(t.pick(1), ObjType::Fifty);
    assert_eq!(t.pick(2), ObjType::EraseItem);
}

#[test]
fn draw_stays_below_total() {
    // A draw equal to the total would select the zero-weight last entry.
    let infos = vec![
        ObjInfo { obj_type: ObjType::One, weight: 1 },
        ObjInfo { obj_type: ObjType::Five, weight: 0 },
    ];
    let t = SpawnTable::new(&infos).unwrap();
    for _ in 0..200 {
        assert_eq!(t.draw(), ObjType::One);
    }
    let row = t.draw_many(BOARD_WIDTH);
    assert_eq!(row.len(), BOARD_WIDTH);
    assert!(row.iter().all(|&k| k == ObjType::One));
}

#[test]
fn ranks_below_order() {
    let a = Position { col: 1, row: 5 };
    let b = Position { col: 2, row: 0 };
    let c = Position { col: 2, row: 3 };
    assert!(a.ranks_below(&b));
    assert!(!b.ranks_below(&a));
    assert!(c.ranks_below(&b));
    assert!(!b.ranks_below(&c));
    assert!(!b.ranks_below(&b));
}

#[test]
fn pull_contiguity() {
    let mut b = board_with(&[
        (3, 0, ObjType::Ten),
        (3, 1, ObjType::One),
        (3, 2, ObjType::One),
        (3, 3, ObjType::One),
    ]);
    b.coin_pull();
    assert_eq!(b.inventory, Inventory { obj_count: 3, obj_type: ObjType::One });
    assert_eq!(b.grid.get(3, 0), Some(ObjType::Ten));
    assert_eq!(b.grid.get(3, 1), None);
    assert_eq!(b.grid.get(3, 2), None);
    assert_eq!(b.grid.get(3, 3), None);
    assert_eq!(count_tokens(&b.grid), 1);
}

#[test]
fn pull_passes_over_gaps() {
    let mut b = board_with(&[(3, 0, ObjType::Five), (3, 1, ObjType::Ten), (3, 3, ObjType::Ten)]);
    b.coin_pull();
    assert_eq!(b.inventory, Inventory { obj_count: 2, obj_type: ObjType::Ten });
    assert_eq!(b.grid.get(3, 0), Some(ObjType::Five));
    assert_eq!(count_tokens(&b.grid), 1);
}

#[test]
fn pull_with_full_hand_or_empty_column_does_nothing() {
    let mut b = board_with(&[(3, 0, ObjType::Ten)]);
    b.inventory = Inventory { obj_count: 2, obj_type: ObjType::One };
    let before = b.clone();
    b.coin_pull();
    assert_eq!(b, before);

    let mut e = board_with(&[(0, 0, ObjType::Ten)]);
    let before = e.clone();
    e.coin_pull();
    assert_eq!(e, before);
}

#[test]
fn push_placement() {
    let mut b = board_with(&[(3, 0, ObjType::Ten), (3, 1, ObjType::Five), (3, 2, ObjType::Ten)]);
    b.inventory = Inventory { obj_count: 3, obj_type: ObjType::One };
    let seed = b.coin_push();
    assert_eq!(seed, Some(Position { col: 3, row: 5 }));
    assert_eq!(b.inventory.obj_count, 0);
    for r in 3..6 {
        assert_eq!(b.grid.get(3, r), Some(ObjType::One));
    }
    assert_eq!(b.grid.get(3, 6), None);
    assert_eq!(b.grid.get(3, 2), Some(ObjType::Ten));
    assert_eq!(count_tokens(&b.grid), 6);
}

#[test]
fn push_onto_empty_column_starts_at_row_zero() {
    let mut b = Board::new();
    b.inventory = Inventory { obj_count: 2, obj_type: ObjType::Fifty };
    assert_eq!(b.coin_push(), Some(Position { col: 3, row: 1 }));
    assert_eq!(b.grid.get(3, 0), Some(ObjType::Fifty));
    assert_eq!(b.grid.get(3, 1), Some(ObjType::Fifty));
}

#[test]
fn push_with_empty_hand_or_no_room_does_nothing() {
    let mut b = board_with(&[(3, 0, ObjType::Ten)]);
    let before = b.clone();
    assert_eq!(b.coin_push(), None);
    assert_eq!(b, before);

    let mut full = board_with(&[(3, 10, ObjType::Ten)]);
    full.inventory = Inventory { obj_count: 2, obj_type: ObjType::One };
    let before = full.clone();
    assert_eq!(full.coin_push(), None);
    assert_eq!(full, before);
}

#[test]
fn pull_then_push_round_trip() {
    let mut b = board_with(&[(3, 0, ObjType::Ten), (3, 1, ObjType::One), (3, 2, ObjType::One)]);
    b.coin_pull();
    b.move_left();
    assert_eq!(b.inventory.obj_count, 2);
    assert_eq!(b.coin_push(), Some(Position { col: 2, row: 1 }));
    assert_eq!(b.grid.get(2, 0), Some(ObjType::One));
    assert_eq!(b.grid.get(2, 1), Some(ObjType::One));
    assert_eq!(b.grid.get(3, 0), Some(ObjType::Ten));
}

#[test]
fn merge_threshold_five_ones() {
    // An L-shaped cluster of five `One` tokens.
    let mut b = board_with(&[
        (1, 0, ObjType::One),
        (1, 1, ObjType::One),
        (2, 1, ObjType::One),
        (3, 1, ObjType::One),
        (3, 2, ObjType::One),
        (4, 2, ObjType::Ten),
        (0, 0, ObjType::Ten),
    ]);
    assert!(b.merge_handler(Position { col: 1, row: 0 }));
    // Highest column wins, then the smallest row: (3, 1).
    assert_eq!(b.grid.get(3, 1), Some(ObjType::Five));
    assert_eq!(b.grid.get(1, 0), None);
    assert_eq!(b.grid.get(1, 1), None);
    assert_eq!(b.grid.get(2, 1), None);
    assert_eq!(b.grid.get(3, 2), None);
    assert_eq!(b.grid.get(4, 2), Some(ObjType::Ten));
    assert_eq!(b.grid.get(0, 0), Some(ObjType::Ten));
    assert_eq!(count_tokens(&b.grid), 3);
}

#[test]
fn merge_threshold_four_ones_do_not_merge() {
    let mut b = board_with(&[
        (1, 0, ObjType::One),
        (1, 1, ObjType::One),
        (2, 1, ObjType::One),
        (3, 1, ObjType::One),
        (3, 3, ObjType::One),
    ]);
    let before = b.clone();
    assert!(!b.merge_handler(Position { col: 2, row: 1 }));
    assert_eq!(b, before);
}

#[test]
fn ladder_terminal_five_hundred() {
    let mut b = board_with(&[(5, 4, ObjType::FiveHundred), (5, 5, ObjType::FiveHundred), (5, 3, ObjType::One)]);
    assert!(b.merge_handler(Position { col: 5, row: 5 }));
    assert_eq!(b.grid.get(5, 4), None);
    assert_eq!(b.grid.get(5, 5), None);
    assert_eq!(b.grid.get(5, 3), Some(ObjType::One));
    assert_eq!(count_tokens(&b.grid), 1);
}

#[test]
fn special_kinds_clear() {
    let mut b = board_with(&[(0, 0, ObjType::RankUp), (1, 0, ObjType::RankUp)]);
    assert!(b.merge_handler(Position { col: 0, row: 0 }));
    assert_eq!(count_tokens(&b.grid), 0);
}

#[test]
fn merge_on_empty_or_outside_seed_does_nothing() {
    let mut b = board_with(&[(0, 0, ObjType::Five), (0, 1, ObjType::Five)]);
    let before = b.clone();
    assert!(!b.merge_handler(Position { col: 4, row: 4 }));
    assert!(!b.merge_handler(Position { col: 9, row: 0 }));
    assert!(!b.merge_handler(Position { col: 0, row: 40 }));
    assert_eq!(b, before);
}

#[test]
fn push_then_merge_promotes() {
    let mut b = board_with(&[(3, 0, ObjType::Fifty)]);
    b.inventory = Inventory { obj_count: 1, obj_type: ObjType::Fifty };
    let t = table();
    b.apply_action(ActionType::CoinPush, &t);
    assert_eq!(b.grid.get(3, 0), Some(ObjType::OneHundred));
    assert_eq!(b.grid.get(3, 1), None);
    assert_eq!(b.inventory.obj_count, 0);
}

#[test]
fn new_row_gravity() {
    let mut b = Board::new();
    for c in 0..BOARD_WIDTH {
        for r in 0..3 {
            b.grid.set(c, r, Some(if r == 1 { ObjType::Ten } else { ObjType::One }));
        }
    }
    let row = vec![
        ObjType::Five,
        ObjType::Fifty,
        ObjType::Five,
        ObjType::RankUp,
        ObjType::Five,
        ObjType::EraseItem,
        ObjType::Five,
    ];
    assert!(b.new_row_with(&row));
    for c in 0..BOARD_WIDTH {
        assert_eq!(b.grid.get(c, 0), Some(row[c]));
        assert_eq!(b.grid.get(c, 1), Some(ObjType::One));
        assert_eq!(b.grid.get(c, 2), Some(ObjType::Ten));
        assert_eq!(b.grid.get(c, 3), Some(ObjType::One));
        assert_eq!(b.grid.get(c, 4), None);
    }
    assert_eq!(count_tokens(&b.grid), 28);
}

#[test]
fn new_row_refused_when_last_row_taken() {
    let mut b = board_with(&[(6, BOARD_HEIGHT - 1, ObjType::Ten)]);
    let before = b.clone();
    let row = vec![ObjType::One; BOARD_WIDTH];
    assert!(!b.new_row_with(&row));
    assert_eq!(b, before);
}

#[test]
fn new_row_draws_seven_tokens() {
    let mut b = Board::new();
    assert!(b.new_row(&table()));
    for c in 0..BOARD_WIDTH {
        assert!(b.grid.get(c, 0).is_some());
    }
    assert_eq!(count_tokens(&b.grid), 7);
}

#[test]
fn edge_moves_are_idempotent() {
    let mut b = Board::new();
    b.girl.col = 0;
    b.move_left();
    assert_eq!(b.girl.col, 0);
    b.girl.col = BOARD_WIDTH - 1;
    b.move_right();
    assert_eq!(b.girl.col, BOARD_WIDTH - 1);
    b.move_left();
    assert_eq!(b.girl.col, BOARD_WIDTH - 2);
}

#[test]
fn timer_rhythm() {
    let mut t = InputTimer::Disarmed;
    assert!(!t.press());
    assert_eq!(t, InputTimer::Armed { elapsed: 0 });
    t.tick(400);
    assert!(!t.finished());
    assert!(t.press());
    assert_eq!(t, InputTimer::Disarmed);

    assert!(!t.press());
    t.tick(TIMER_DURATION_MS);
    assert!(t.finished());
    assert!(!t.press());
    assert_eq!(t, InputTimer::Armed { elapsed: 0 });

    let mut d = InputTimer::Disarmed;
    d.tick(5000);
    assert_eq!(d, InputTimer::Disarmed);
}

#[test]
fn timer_clamps_elapsed() {
    let mut t = InputTimer::Armed { elapsed: 900 };
    t.tick(u64::MAX);
    assert_eq!(t, InputTimer::Armed { elapsed: TIMER_DURATION_MS });
}

#[test]
fn translator_emits_in_order() {
    let mut b = Board::new();
    let down = PlayerInput { down: true, ..Default::default() };
    assert!(b.game_input(down).is_empty());
    let all = PlayerInput { left: true, right: false, down: true, pull: true, push: true };
    let acts = b.game_input(all);
    assert_eq!(acts, vec![ActionType::NewRow, ActionType::CoinPull, ActionType::CoinPush]);
    assert_eq!(b.girl.col, 2);
    assert_eq!(b.girl.timer, InputTimer::Disarmed);
}

#[test]
fn update_runs_new_row_on_rhythm() {
    let t = table();
    let mut b = Board::new();
    let down = PlayerInput { down: true, ..Default::default() };
    assert!(b.update(down, &t).is_empty());
    assert_eq!(b.update(down, &t), vec![ActionType::NewRow]);
    assert_eq!(count_tokens(&b.grid), 7);
}

#[test]
fn setup_game_fills_three_equal_rows() {
    let g = Game::setup_game(GameInfo { players: 2 }, table());
    assert_eq!(g.p1, g.p2);
    assert_eq!(count_tokens(&g.p1.grid), 21);
    for c in 0..BOARD_WIDTH {
        assert!(g.p1.grid.get(c, 2).is_some());
        assert!(g.p1.grid.get(c, 3).is_none());
    }
    assert_eq!(g.p1.girl.col, 3);
    assert_eq!(g.p1.inventory.obj_count, 0);
}

#[test]
fn no_cross_player_effect() {
    let mut g = Game::setup_game(GameInfo { players: 2 }, table());
    let before = g.p2.clone();
    let inputs = [
        PlayerInput { pull: true, ..Default::default() },
        PlayerInput { left: true, ..Default::default() },
        PlayerInput { push: true, ..Default::default() },
        PlayerInput { down: true, ..Default::default() },
        PlayerInput { down: true, right: true, ..Default::default() },
        PlayerInput { pull: true, push: true, ..Default::default() },
    ];
    for input in inputs {
        g.update(Player::P1, input);
    }
    assert_eq!(g.p2, before);
    assert_eq!(g.board(Player::P2), &before);
    assert_ne!(g.p1, before);
}

#[test]
fn tokens_lists_placed_then_held() {
    let mut b = board_with(&[(0, 0, ObjType::Ten), (3, 0, ObjType::Five), (3, 1, ObjType::One), (3, 2, ObjType::One)]);
    b.coin_pull();
    b.move_right();
    let tokens = b.tokens();
    assert_eq!(
        tokens,
        vec![
            Token { pos: Position { col: 0, row: 0 }, kind: ObjType::Ten, held: false },
            Token { pos: Position { col: 3, row: 0 }, kind: ObjType::Five, held: false },
            Token { pos: Position { col: 4, row: 11 }, kind: ObjType::One, held: true },
            Token { pos: Position { col: 4, row: 10 }, kind: ObjType::One, held: true },
        ]
    );
}

#[test]
fn setup_game_one_player_leaves_second_board_empty() {
    let g = Game::setup_game(GameInfo { players: 1 }, table());
    assert_eq!(count_tokens(&g.p1.grid), 21);
    assert_eq!(count_tokens(&g.p2.grid), 0);
    assert_eq!(g.p2.inventory.obj_count, 0);
}

#[test]
fn second_player_input_ignored_in_one_player_game() {
    let mut g = Game::setup_game(GameInfo { players: 1 }, table());
    let before = g.p2.clone();
    let acts = g.update(Player::P2, PlayerInput { left: true, pull: true, ..Default::default() });
    assert!(acts.is_empty());
    assert_eq!(g.p2, before);
    let acts = g.update(Player::P1, PlayerInput { pull: true, ..Default::default() });
    assert_eq!(acts, vec![ActionType::CoinPull]);
    assert!(g.p1.inventory.obj_count > 0);
}

#[test]
fn get_connected_on_empty_or_outside_seed_is_empty() {
    let b = board_with(&[(0, 0, ObjType::Five), (0, 1, ObjType::Five)]);
    assert!(b.grid.get_connected(Position { col: 3, row: 3 }).iter().all(|&m| !m));
    assert!(b.grid.get_connected(Position { col: 8, row: 0 }).iter().all(|&m| !m));
    let m = b.grid.get_connected(Position { col: 0, row: 1 });
    assert_eq!(m.iter().filter(|&&x| x).count(), 2);
    assert!(m[0] && m[1]);
}

#[test]
fn push_and_new_row_token_counts() {
    let mut b = board_with(&[(3, 0, ObjType::Ten), (3, 1, ObjType::One), (3, 2, ObjType::One), (2, 0, ObjType::Five)]);
    b.coin_pull();
    assert_eq!(count_tokens(&b.grid) + b.inventory.obj_count, 4);
    b.move_left();
    assert!(b.coin_push().is_some());
    assert_eq!(count_tokens(&b.grid) + b.inventory.obj_count, 4);
    let row = vec![ObjType::Ten; BOARD_WIDTH];
    assert!(b.new_row_with(&row));
    assert_eq!(count_tokens(&b.grid), 4 + BOARD_WIDTH);
}
