use snakes_ladders::board::BoardConfig;
use snakes_ladders::command::Command;
use snakes_ladders::game::GameState;

fn sample_input() -> Vec<String> {
    let text = "board 3 4\n\
                players 2\n\
                dice 1 2 2 2 2\n\
                ladder 5 11\n\
                snake 8 4\n\
                powerup escalator 6 9\n\
                powerup antivenom 7\n\
                powerup double 4\n\
                turns 10";
    text.lines().map(|l| l.to_string()).collect()
}

#[test]
fn make_sample_output() {
    let mut game = GameState::default();

    for line in sample_input() {
        let cmd = Command::readFrom(line);
        game.apply(cmd);
    }

    let expected = "Player B won\n\
                    +---+---+---+\n\
                    | 12| 11| 10|\n\
                    |B  |   |   |\n\
                    +---+---+---+\n\
                    |  7|  8|  9|\n\
                    | a |  S| e |\n\
                    +---+---+---+\n\
                    |  6|  5|  4|\n\
                    | e |  L|Ad |\n\
                    +---+---+---+\n\
                    |  1|  2|  3|\n\
                    |   |   |   |\n\
                    +---+---+---+";
    println!("{}", game.print());
    assert!(game.print() == expected);
}

#[test]
fn render_without_winner_has_no_winner_line() {
    let mut game = GameState::default();
    game.apply(Command::Board { columns: 2, rows: 2 });
    game.apply(Command::Players(1));
    let expected = "+---+---+\n\
                    |  4|  3|\n\
                    |   |   |\n\
                    +---+---+\n\
                    |  1|  2|\n\
                    |A  |   |\n\
                    +---+---+";
    assert!(game.print() == expected);
}

#[test]
fn between_rows_repeats_per_column() {
    let mut b = BoardConfig::new();
    b.set_size(3, 4);
    assert_eq!(b.between_rows(), "+---+---+---+");
    assert_eq!(BoardConfig::between_columns(), '|');
}

#[test]
fn cell_first_line_right_justifies() {
    assert_eq!(BoardConfig::cell_first_line(1), "  1");
    assert_eq!(BoardConfig::cell_first_line(42), " 42");
    assert_eq!(BoardConfig::cell_first_line(999), "999");
}

#[test]
fn back_and_forth_snakes_up_the_board() {
    let mut b = BoardConfig::new();
    b.set_size(3, 4);
    assert_eq!(b.back_and_forth(1, 1), 1);
    assert_eq!(b.back_and_forth(1, 3), 3);
    assert_eq!(b.back_and_forth(2, 1), 6);
    assert_eq!(b.back_and_forth(2, 3), 4);
    assert_eq!(b.back_and_forth(3, 2), 8);
    assert_eq!(b.back_and_forth(4, 1), 12);
    assert_eq!(b.back_and_forth(4, 3), 10);
}
