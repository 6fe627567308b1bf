use snakes_ladders::command::Command;
use snakes_ladders::power::PowerType;

fn sample_input() -> Vec<String> {
    let text = "board 3 4\n\
                players 2\n\
                dice 1 2 2 2 2\n\
                ladder 5 11\n\
                snake 8 4\n\
                powerup escalator 6 9\n\
                powerup antivenom 7\n\
                powerup double 4\n\
                turns 10";
    text.lines().map(|l| l.to_string()).collect()
}

#[test]
fn command_parse1() {
    assert!(Command::readFrom("board 3 4".into()) == Command::Board { columns: 3, rows: 4 });
}

#[test]
fn parse_sample_input() {
    let lines = sample_input();

    assert!(Command::readFrom(lines[0].clone()) == Command::Board { columns: 3, rows: 4 });
    assert!(Command::readFrom(lines[1].clone()) == Command::Players(2));
    assert!(Command::readFrom(lines[2].clone()) == Command::Dice(vec![1, 2, 2, 2, 2]));
    assert!(Command::readFrom(lines[3].clone()) == Command::Ladder { starts: 5, ends: 11 });
    assert!(Command::readFrom(lines[4].clone()) == Command::Snake { starts: 8, ends: 4 });
    assert!(
        Command::readFrom(lines[5].clone())
            == Command::PowerUps { typ: PowerType::Escalator, cells: vec![6, 9] }
    );
    assert!(
        Command::readFrom(lines[6].clone())
            == Command::PowerUps { typ: PowerType::Antivenom, cells: vec![7] }
    );
    assert!(
        Command::readFrom(lines[7].clone())
            == Command::PowerUps { typ: PowerType::Double, cells: vec![4] }
    );
    assert!(Command::readFrom(lines[8].clone()) == Command::Turns(10));
}

#[test]
fn parse_rejects_unknown_keyword() {
    assert!(Command::try_read("bogus 1 2") == None);
    assert!(Command::try_read("") == None);
    assert!(Command::try_read("Board 3 4") == None);
}

#[test]
fn parse_rejects_wrong_arity() {
    assert!(Command::try_read("board 3") == None);
    assert!(Command::try_read("board 3 4 5") == None);
    assert!(Command::try_read("players") == None);
    assert!(Command::try_read("players 2 3") == None);
    assert!(Command::try_read("turns") == None);
    assert!(Command::try_read("powerup") == None);
}

#[test]
fn parse_rejects_bad_numbers() {
    assert!(Command::try_read("board x 4") == None);
    assert!(Command::try_read("board 3 -4") == None);
    assert!(Command::try_read("players 300") == None);
    assert!(Command::try_read("dice 1 256") == None);
    assert!(Command::try_read("turns 99999999999999999999999999") == None);
    assert!(Command::try_read("board  3 4") == None);
}

#[test]
fn parse_rejects_bad_powerup_name() {
    assert!(Command::try_read("powerup fly 3") == None);
    assert!(Command::try_read("powerup escalators 3") == None);
}

#[test]
fn parse_accepts_empty_dice() {
    assert!(Command::try_read("dice") == Some(Command::Dice(vec![])));
    assert!(
        Command::try_read("powerup double")
            == Some(Command::PowerUps { typ: PowerType::Double, cells: vec![] })
    );
}

#[test]
fn power_names() {
    assert!(PowerType::new("escalator") == PowerType::Escalator);
    assert!(PowerType::new("antivenom") == PowerType::Antivenom);
    assert!(PowerType::new("double") == PowerType::Double);
    assert!(PowerType::from_name("venom") == None);
    assert_eq!(PowerType::Escalator.label(), "e");
    assert_eq!(PowerType::Antivenom.label(), "a");
    assert_eq!(PowerType::Double.label(), "d");
}
