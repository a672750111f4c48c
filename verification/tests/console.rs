use fabled::control::{parse, Command, SpeedArg};

#[test]
fn blank_lines_are_ignored() {
    assert!(parse("").is_none());
    assert!(parse("   \t ").is_none());
}

#[test]
fn short_and_long_forms() {
    assert!(matches!(parse("pause"), Some(Command::Pause)));
    assert!(matches!(parse("  p  "), Some(Command::Pause)));
    assert!(matches!(parse("r"), Some(Command::Resume)));
    assert!(matches!(parse("st"), Some(Command::Status)));
    assert!(matches!(parse("snap"), Some(Command::Snapshot)));
    assert!(matches!(parse("w"), Some(Command::Wealth)));
    assert!(matches!(parse("quit"), Some(Command::Stop)));
    assert!(matches!(parse("?"), Some(Command::Help)));
}

#[test]
fn speed_and_blight_arguments() {
    assert!(matches!(parse("speed max"), Some(Command::Speed(SpeedArg::Max))));
    match parse("s 120") {
        Some(Command::Speed(SpeedArg::Value(v))) => assert_eq!(v, "120"),
        _ => panic!("speed value"),
    }
    match parse("speed") {
        Some(Command::Unknown(line)) => assert_eq!(line, "speed"),
        _ => panic!("speed without value"),
    }
    assert!(matches!(parse("blight on"), Some(Command::SetBlight(true))));
    assert!(matches!(parse("blight\toff extra"), Some(Command::SetBlight(false))));
    match parse("blight maybe") {
        Some(Command::Unknown(line)) => assert_eq!(line, "blight maybe"),
        _ => panic!("bad blight"),
    }
    match parse("dance") {
        Some(Command::Unknown(line)) => assert_eq!(line, "dance"),
        _ => panic!("unknown"),
    }
}
