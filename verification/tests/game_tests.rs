use snakes_ladders::board::{BoardConfig, CellProperty};
use snakes_ladders::command::Command;
use snakes_ladders::game::GameState;
use snakes_ladders::player::{PlayerState, player_name};
use snakes_ladders::power::PowerType;

fn plain_board(columns: usize, rows: usize) -> BoardConfig {
    let mut b = BoardConfig::new();
    b.set_size(columns, rows);
    b
}

fn one_player_game(board: BoardConfig, loc: usize, powerup: Option<PowerType>, die: u8) -> GameState {
    GameState {
        board,
        players: vec![PlayerState { loc, powerup }],
        dice: vec![die],
        turn: 0,
    }
}

#[test]
fn size_and_winning_cell() {
    let b = plain_board(3, 4);
    assert_eq!(b.size(), 12);
    assert!(matches!(b.cells[11], CellProperty::Winning));
    for i in 0..11 {
        assert!(matches!(b.cells[i], CellProperty::Plain));
    }
}

#[test]
fn board_command_resets_cells() {
    let mut game = GameState::default();
    game.apply(Command::Board { columns: 3, rows: 4 });
    game.apply(Command::Snake { starts: 8, ends: 4 });
    assert!(matches!(game.board.cells[7], CellProperty::SnakeStart { end: 4 }));
    game.apply(Command::Board { columns: 3, rows: 4 });
    assert!(matches!(game.board.cells[7], CellProperty::Plain));
    assert!(matches!(game.board.cells[11], CellProperty::Winning));
}

#[test]
fn rejected_roll_keeps_location() {
    // a roll whose delta would pass the last cell is wasted
    let mut game = one_player_game(plain_board(3, 4), 10, None, 5);
    let won = game.player_turn_wins(0);
    assert!(!won);
    assert_eq!(game.players[0].loc, 10);
    assert_eq!(game.turn, 1);
}

#[test]
fn double_doubles_and_is_consumed() {
    let mut game = one_player_game(plain_board(3, 4), 1, Some(PowerType::Double), 2);
    let won = game.player_turn_wins(0);
    assert!(!won);
    assert_eq!(game.players[0].loc, 5);
    assert!(game.players[0].powerup == None);
}

#[test]
fn double_lost_even_when_rejected() {
    // 10 + 2*2 > 12: no movement, but the Double is still gone
    let mut game = one_player_game(plain_board(3, 4), 10, Some(PowerType::Double), 2);
    let won = game.player_turn_wins(0);
    assert!(!won);
    assert_eq!(game.players[0].loc, 10);
    assert!(game.players[0].powerup == None);
}

#[test]
fn snake_slides_without_antivenom() {
    let mut board = plain_board(3, 4);
    board.set_cell_prop(8, CellProperty::SnakeStart { end: 4 });
    let mut game = one_player_game(board, 6, None, 2);
    assert!(!game.player_turn_wins(0));
    assert_eq!(game.players[0].loc, 4);
}

#[test]
fn antivenom_cancels_snake_and_is_consumed() {
    let mut board = plain_board(3, 4);
    board.set_cell_prop(8, CellProperty::SnakeStart { end: 4 });
    let mut game = one_player_game(board, 6, Some(PowerType::Antivenom), 2);
    assert!(!game.player_turn_wins(0));
    assert_eq!(game.players[0].loc, 8);
    assert!(game.players[0].powerup == None);
}

#[test]
fn ladder_climbs_without_escalator() {
    let mut board = plain_board(3, 4);
    board.set_cell_prop(5, CellProperty::LadderStart { end: 11 });
    let mut game = one_player_game(board, 3, None, 2);
    assert!(!game.player_turn_wins(0));
    assert_eq!(game.players[0].loc, 11);
}

#[test]
fn escalator_doubles_climb() {
    // 5 -> 8 doubled is 5 + 2*3 = 11, still on the board: no win
    let mut board = plain_board(3, 4);
    board.set_cell_prop(5, CellProperty::LadderStart { end: 8 });
    let mut game = one_player_game(board, 3, Some(PowerType::Escalator), 2);
    assert!(!game.player_turn_wins(0));
    assert_eq!(game.players[0].loc, 11);
    assert!(game.players[0].powerup == None);
}

#[test]
fn escalator_overshoot_clamps_and_wins() {
    // 5 -> 11 doubled is 5 + 2*6 = 17, past 12: clamped to 12, a win
    let mut board = plain_board(3, 4);
    board.set_cell_prop(5, CellProperty::LadderStart { end: 11 });
    let mut game = one_player_game(board, 3, Some(PowerType::Escalator), 2);
    assert!(game.player_turn_wins(0));
    assert_eq!(game.players[0].loc, 12);
    assert_eq!(game.winner(), Some('A'));
}

#[test]
fn powerup_cell_overwrites_held_powerup() {
    let mut board = plain_board(3, 4);
    board.set_cell_prop(3, CellProperty::PowerUp(PowerType::Double));
    let mut game = one_player_game(board, 1, Some(PowerType::Antivenom), 2);
    assert!(!game.player_turn_wins(0));
    assert_eq!(game.players[0].loc, 3);
    assert!(game.players[0].powerup == Some(PowerType::Double));
}

#[test]
fn bump_displaces_occupant_by_one() {
    let mut game = GameState {
        board: plain_board(3, 4),
        players: vec![
            PlayerState { loc: 3, powerup: None },
            PlayerState { loc: 5, powerup: None },
        ],
        dice: vec![2],
        turn: 0,
    };
    assert!(!game.player_turn_wins(0));
    // the mover keeps the contested cell; the occupant moved exactly one on
    assert_eq!(game.players[0].loc, 5);
    assert_eq!(game.players[1].loc, 6);
}

#[test]
fn bump_runs_cell_effect_for_bumped_player() {
    // the bumped player lands on a snake start and slides
    let mut board = plain_board(3, 4);
    board.set_cell_prop(6, CellProperty::SnakeStart { end: 2 });
    let mut game = GameState {
        board,
        players: vec![
            PlayerState { loc: 3, powerup: None },
            PlayerState { loc: 5, powerup: None },
        ],
        dice: vec![2],
        turn: 0,
    };
    assert!(!game.player_turn_wins(0));
    assert_eq!(game.players[0].loc, 5);
    assert_eq!(game.players[1].loc, 2);
}

#[test]
fn bump_chain_cascades() {
    // A lands on B, B is bumped onto C, C is bumped one further
    let mut game = GameState {
        board: plain_board(3, 4),
        players: vec![
            PlayerState { loc: 3, powerup: None },
            PlayerState { loc: 5, powerup: None },
            PlayerState { loc: 6, powerup: None },
        ],
        dice: vec![2],
        turn: 0,
    };
    assert!(!game.player_turn_wins(0));
    assert_eq!(game.players[0].loc, 5);
    assert_eq!(game.players[1].loc, 6);
    assert_eq!(game.players[2].loc, 7);
}

#[test]
fn dice_cycle_in_round_robin_order() {
    let mut game = GameState {
        board: plain_board(3, 4),
        players: vec![PlayerState { loc: 1, powerup: None }],
        dice: vec![1, 2, 3],
        turn: 0,
    };
    assert_eq!(game.roll_dice(), 1);
    assert_eq!(game.roll_dice(), 2);
    assert_eq!(game.roll_dice(), 3);
    assert_eq!(game.roll_dice(), 1);
    assert_eq!(game.turn, 4);
}

#[test]
fn dice_shared_across_players() {
    // two players consume one global cyclic sequence, not one each
    let mut game = GameState {
        board: plain_board(3, 4),
        players: vec![
            PlayerState { loc: 1, powerup: None },
            PlayerState { loc: 2, powerup: None },
        ],
        dice: vec![1, 2, 3],
        turn: 0,
    };
    game.apply(Command::Turns(1));
    // player A rolled 1 (1 -> 2, bumping B to 3); player B rolled 2 (3 -> 5)
    assert_eq!(game.players[0].loc, 2);
    assert_eq!(game.players[1].loc, 5);
    assert_eq!(game.turn, 2);
}

#[test]
fn turns_stop_at_first_win() {
    let mut game = GameState {
        board: plain_board(3, 4),
        players: vec![
            PlayerState { loc: 11, powerup: None },
            PlayerState { loc: 1, powerup: None },
        ],
        dice: vec![1],
        turn: 0,
    };
    game.apply(Command::Turns(5));
    // A wins on the very first player-turn; B never moves
    assert_eq!(game.turn, 1);
    assert_eq!(game.players[0].loc, 12);
    assert_eq!(game.players[1].loc, 1);
    assert_eq!(game.winner(), Some('A'));
}

#[test]
fn players_reset_discards_progress() {
    let mut game = GameState {
        board: plain_board(3, 4),
        players: vec![PlayerState { loc: 7, powerup: Some(PowerType::Double) }],
        dice: vec![1],
        turn: 3,
    };
    game.apply(Command::Players(2));
    assert_eq!(game.players.len(), 2);
    for p in &game.players {
        assert_eq!(p.loc, 1);
        assert!(p.powerup == None);
    }
    // the turn counter never resets
    assert_eq!(game.turn, 3);
}

#[test]
fn winner_is_first_at_or_past_size() {
    let mut game = GameState {
        board: plain_board(3, 4),
        players: vec![PlayerState { loc: 1, powerup: None }],
        dice: vec![1],
        turn: 0,
    };
    assert_eq!(game.winner(), None);
    game.players = vec![
        PlayerState { loc: 3, powerup: None },
        PlayerState { loc: 12, powerup: None },
    ];
    assert_eq!(game.winner(), Some('B'));
}

#[test]
fn command_ok_enforces_caps() {
    let game = GameState::default();
    assert!(game.command_ok(&Command::Board { columns: 3, rows: 4 }));
    assert!(!game.command_ok(&Command::Board { columns: 100, rows: 10 }));
    assert!(!game.command_ok(&Command::Board { columns: 0, rows: 5 }));
    assert!(game.command_ok(&Command::Players(26)));
    assert!(!game.command_ok(&Command::Players(27)));
}

#[test]
fn command_ok_checks_feature_bounds_and_playability() {
    let mut game = GameState::default();
    game.apply(Command::Board { columns: 3, rows: 4 });
    assert!(game.command_ok(&Command::Ladder { starts: 5, ends: 11 }));
    assert!(!game.command_ok(&Command::Ladder { starts: 0, ends: 11 }));
    assert!(!game.command_ok(&Command::Snake { starts: 13, ends: 4 }));
    assert!(game.command_ok(&Command::PowerUps { typ: PowerType::Double, cells: vec![4] }));
    assert!(!game.command_ok(&Command::PowerUps { typ: PowerType::Double, cells: vec![13] }));
    // turns with players but no dice is not playable
    game.apply(Command::Players(2));
    assert!(!game.command_ok(&Command::Turns(1)));
    game.apply(Command::Dice(vec![1, 2]));
    assert!(game.command_ok(&Command::Turns(10)));
}

#[test]
fn player_names_are_positional() {
    assert_eq!(player_name(0), 'A');
    assert_eq!(player_name(1), 'B');
    assert_eq!(player_name(25), 'Z');
}

#[test]
fn turns_zero_changes_nothing() {
    let mut game = GameState {
        board: plain_board(3, 4),
        players: vec![PlayerState { loc: 4, powerup: None }],
        dice: vec![1],
        turn: 2,
    };
    game.apply(Command::Turns(0));
    assert_eq!(game.players[0].loc, 4);
    assert_eq!(game.turn, 2);
}

#[test]
fn turns_after_win_leave_winner_parked() {
    // a parked winner's rolls are all rejected; the others play on
    let mut game = GameState {
        board: plain_board(3, 4),
        players: vec![
            PlayerState { loc: 12, powerup: None },
            PlayerState { loc: 1, powerup: None },
        ],
        dice: vec![2],
        turn: 0,
    };
    game.apply(Command::Turns(1));
    assert_eq!(game.players[0].loc, 12);
    assert_eq!(game.players[1].loc, 3);
    assert_eq!(game.winner(), Some('A'));
}

#[test]
fn die_of_zero_stays_put() {
    let mut game = one_player_game(plain_board(3, 4), 4, None, 0);
    assert!(!game.player_turn_wins(0));
    assert_eq!(game.players[0].loc, 4);
    assert_eq!(game.turn, 1);
}
