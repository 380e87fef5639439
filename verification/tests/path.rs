use motion_core::command::{Command, IntakeCommand, LadyBrownCommand, Vec2};
use motion_core::path::{path_to_commands, read_line, split_words};

fn v(x: &str, y: &str) -> Vec2<String> {
    Vec2::new(x.to_string(), y.to_string())
}

fn n(s: &str) -> String {
    s.to_string()
}

#[test]
fn from_str_reads_every_keyword() {
    assert_eq!(Command::from_str("Coordinate", &["(12,48)"]), Ok(Command::Coordinate(v("12", "48"))));
    assert_eq!(
        Command::from_str("Bezier", &["(10,72)", "(18,8)", "(130,24)", "(50,72)"]),
        Ok(Command::CubicBezier(v("10", "72"), v("18", "8"), v("130", "24"), v("50", "72")))
    );
    assert_eq!(Command::from_str("Drive", &["-26.0"]), Ok(Command::DriveBy(n("-26.0"))));
    assert_eq!(Command::from_str("Pose", &["(1,2)", "90"]), Ok(Command::Pose(v("1", "2"), n("90"))));
    assert_eq!(Command::from_str("Turn", &["135"]), Ok(Command::TurnTo(n("135"))));
    assert_eq!(Command::from_str("Sleep", &["750"]), Ok(Command::Sleep(750)));
    assert_eq!(Command::from_str("Speed", &["0.8"]), Ok(Command::Speed(n("0.8"))));
    assert_eq!(Command::from_str("Intake", &["on"]), Ok(Command::IntakeCommand(IntakeCommand::On)));
    assert_eq!(
        Command::from_str("LadyBrown", &["next"]),
        Ok(Command::LadyBrownCommand(LadyBrownCommand::Next))
    );
    assert_eq!(Command::from_str("NextLBStage", &[]), Ok(Command::NextLBStage));
    assert_eq!(Command::from_str("ToggleClamp", &[]), Ok(Command::ToggleClamp));
}

#[test]
fn from_str_trims_the_keyword() {
    assert_eq!(Command::from_str("  Sleep\t", &["5"]), Ok(Command::Sleep(5)));
}

#[test]
fn from_str_refuses_unknown_keywords() {
    for k in ["", "sleep", "Drive2", "TurnBy", "Coord inate", "//", "ToggleIntake"] {
        assert_eq!(Command::<String>::from_str(k, &["1"]), Err("Invalid Command"), "{:?}", k);
    }
}

#[test]
fn from_str_hands_on_the_complaint_of_the_arguments() {
    assert_eq!(Command::<String>::from_str("Coordinate", &[]), Err("Expected one argument for Vec2"));
    assert_eq!(
        Command::<String>::from_str("Bezier", &["(1,2)"]),
        Err("Incorrect number of Vec2 arguments")
    );
    assert_eq!(
        Command::<String>::from_str("Bezier", &["(1,2)", "(1,2)", "(1,x)", "(1)"]),
        Err("Invalid float for Vec2")
    );
    assert_eq!(Command::<String>::from_str("Drive", &[]), Err("Expected one float argument"));
    assert_eq!(Command::<String>::from_str("Drive", &["ten"]), Err("Invalid float argument"));
    assert_eq!(
        Command::<String>::from_str("Pose", &["(1,2)"]),
        Err("Pose requires two arguments: (x,y) and angle")
    );
    assert_eq!(Command::<String>::from_str("Turn", &["1", "2"]), Err("Expected one float argument"));
    assert_eq!(Command::<String>::from_str("Sleep", &["1.5"]), Err("Invalid integer argument"));
    assert_eq!(Command::<String>::from_str("Sleep", &[]), Err("Expected one integer argument"));
    assert_eq!(Command::<String>::from_str("Speed", &["fast"]), Err("Invalid float argument"));
    assert_eq!(Command::<String>::from_str("Intake", &[]), Err("Expected one float/toggle argument"));
    assert_eq!(
        Command::<String>::from_str("LadyBrown", &[]),
        Err("Expected one voltage/next argument")
    );
}

#[test]
fn from_str_ignores_arguments_of_keywords_that_take_none() {
    assert_eq!(Command::<String>::from_str("ToggleClamp", &["now"]), Ok(Command::ToggleClamp));
    assert_eq!(Command::<String>::from_str("NextLBStage", &["1", "2"]), Ok(Command::NextLBStage));
}

#[test]
fn split_words_splits_at_white_space() {
    assert_eq!(split_words("Drive 10"), vec!["Drive", "10"]);
    assert_eq!(split_words("  Pose\t(1,2) \u{a0} 90  "), vec!["Pose", "(1,2)", "90"]);
    assert_eq!(split_words(""), Vec::<&str>::new());
    assert_eq!(split_words(" \t "), Vec::<&str>::new());
    assert_eq!(split_words("one"), vec!["one"]);
}

#[test]
fn split_words_is_the_standard_splitting() {
    for s in ["a b", " a  b ", "a\tb\rc", "\u{2003}x\u{2003}", "Bezier (1,2) (3,4)", "\u{e9}t\u{e9} 1"] {
        assert_eq!(split_words(s), s.split_whitespace().collect::<Vec<&str>>(), "{:?}", s);
    }
}

#[test]
fn read_line_skips_blank_lines_and_comments() {
    assert_eq!(read_line(""), None);
    assert_eq!(read_line("   \t"), None);
    assert_eq!(read_line("// Drive 10"), None);
    assert_eq!(read_line("   //Drive 10"), None);
    assert_eq!(read_line("//"), None);
}

#[test]
fn read_line_reads_a_command() {
    assert_eq!(read_line("  Drive   32 \r"), Some(Ok(Command::DriveBy(n("32")))));
    assert_eq!(read_line("/ Drive 1"), Some(Err("Invalid Command")));
    assert_eq!(read_line("Drive 1 // forward"), Some(Err("Expected one float argument")));
}

#[test]
fn path_to_commands_reads_a_whole_path() {
    let text = "\
// left side
Coordinate (12,48)
Speed 0.8
Drive 32

Sleep 750
Intake on
ToggleClamp
Turn 90
  Drive -26   
LadyBrown next
NextLBStage
Pose (1,2) -45
Bezier (10,72) (18,8) (130,24) (50,72)
Intake -12.0
LadyBrown 100
";
    assert_eq!(
        path_to_commands(text),
        Ok(vec![
            Command::Coordinate(v("12", "48")),
            Command::Speed(n("0.8")),
            Command::DriveBy(n("32")),
            Command::Sleep(750),
            Command::IntakeCommand(IntakeCommand::On),
            Command::ToggleClamp,
            Command::TurnTo(n("90")),
            Command::DriveBy(n("-26")),
            Command::LadyBrownCommand(LadyBrownCommand::Next),
            Command::NextLBStage,
            Command::Pose(v("1", "2"), n("-45")),
            Command::CubicBezier(v("10", "72"), v("18", "8"), v("130", "24"), v("50", "72")),
            Command::IntakeCommand(IntakeCommand::Voltage(n("-12.0"))),
            Command::LadyBrownCommand(LadyBrownCommand::Angle(n("100"))),
        ])
    );
}

#[test]
fn path_to_commands_of_nothing_is_empty() {
    assert_eq!(path_to_commands(""), Ok(vec![]));
    assert_eq!(path_to_commands("\n\n  \n// only a comment\n"), Ok(vec![]));
}

#[test]
fn path_to_commands_takes_any_line_ending() {
    let expected = Ok(vec![Command::DriveBy(n("1")), Command::Sleep(2)]);
    assert_eq!(path_to_commands("Drive 1\nSleep 2"), expected);
    assert_eq!(path_to_commands("Drive 1\nSleep 2\n"), expected);
    assert_eq!(path_to_commands("Drive 1\r\nSleep 2\r\n"), expected);
    assert_eq!(path_to_commands("\nDrive 1\n\n\nSleep 2\n\n"), expected);
}

#[test]
fn path_to_commands_stops_at_the_first_bad_line() {
    assert_eq!(path_to_commands("Drive 1\nFly 2\nSleep x"), Err("Invalid Command"));
    assert_eq!(path_to_commands("Drive 1\nSleep x\nFly 2"), Err("Invalid integer argument"));
    assert_eq!(path_to_commands("Drive\nSleep x"), Err("Expected one float argument"));
    assert_eq!(path_to_commands("Drive 1\nCoordinate (1, 2)"), Err("Expected one argument for Vec2"));
    assert_eq!(path_to_commands("Coordinate (1,2"), Err("Invalid Vec2 format"));
}

#[test]
fn path_to_commands_splits_a_pair_written_with_a_space() {
    assert_eq!(path_to_commands("Pose (1, 2)"), Err("Invalid Vec2 format"));
}

#[test]
fn path_to_commands_keeps_numbers_that_the_standard_reader_takes() {
    let commands = path_to_commands("Drive 1e2\nTurn -.5\nSpeed inf\nCoordinate (+3.,NaN)").unwrap();
    for command in commands {
        let texts = match command {
            Command::DriveBy(t) | Command::TurnTo(t) | Command::Speed(t) => vec![t],
            Command::Coordinate(p) => vec![p.x, p.y],
            _ => vec![],
        };
        assert!(!texts.is_empty());
        for t in texts {
            assert!(t.parse::<f64>().is_ok(), "{:?}", t);
        }
    }
}
