use synacor_vm::command::Command;

#[test]
fn test_command_parsing() {
    assert_eq!(Command::parse("r").unwrap(), Command::Run);
    assert_eq!(Command::parse("run").unwrap(), Command::Run);
    assert_eq!(Command::parse("s").unwrap(), Command::Step);
    assert_eq!(Command::parse("step").unwrap(), Command::Step);
    assert_eq!(Command::parse("c").unwrap(), Command::Continue);
    assert_eq!(Command::parse("continue").unwrap(), Command::Continue);
    assert_eq!(Command::parse("q").unwrap(), Command::Quit);
    assert_eq!(Command::parse("quit").unwrap(), Command::Quit);

    assert_eq!(Command::parse("b 5").unwrap(), Command::AddBreakpoint(5));
    assert_eq!(Command::parse("del 5").unwrap(), Command::RemoveBreakpoint(5));

    assert_eq!(Command::parse("p reg 5").unwrap(), Command::PrintRegister(5));
    assert_eq!(Command::parse("pr 5").unwrap(), Command::PrintRegister(5));

    assert_eq!(Command::parse("p mem 5").unwrap(), Command::PrintMemory(5, 1));
    assert_eq!(Command::parse("p mem 5 3").unwrap(), Command::PrintMemory(5, 3));
    assert_eq!(Command::parse("pm 5").unwrap(), Command::PrintMemory(5, 1));
    assert_eq!(Command::parse("pm 5 3").unwrap(), Command::PrintMemory(5, 3));
}

#[test]
fn command_must_be_the_whole_line() {
    assert!(Command::parse("").is_err());
    assert!(Command::parse("ru").is_err());
    assert!(Command::parse("runx").is_err());
    assert!(Command::parse(" run").is_err());
    assert!(Command::parse("run ").is_err());
    assert!(Command::parse("stepp").is_err());
    assert!(Command::parse("b").is_err());
    assert!(Command::parse("b ").is_err());
    assert!(Command::parse("b 5 ").is_err());
    assert!(Command::parse("b  5").is_err());
    assert!(Command::parse("b x").is_err());
    assert!(Command::parse("del").is_err());
    assert!(Command::parse("p mem 5 ").is_err());
    assert!(Command::parse("p mem 5 3x").is_err());
    assert!(Command::parse("p mem  5").is_err());
    assert!(Command::parse("pm 5 3 1").is_err());
    assert!(Command::parse("p").is_err());
    assert!(Command::parse("é").is_err());
}

#[test]
fn command_numbers_are_decimal() {
    assert_eq!(Command::parse("b 0").unwrap(), Command::AddBreakpoint(0));
    assert_eq!(Command::parse("b 007").unwrap(), Command::AddBreakpoint(7));
    assert_eq!(Command::parse("del 32767").unwrap(), Command::RemoveBreakpoint(32767));
    assert_eq!(Command::parse("pm 12 345").unwrap(), Command::PrintMemory(12, 345));
    assert_eq!(
        Command::parse("b 4294967295").unwrap(),
        Command::AddBreakpoint(4294967295)
    );
}

#[test]
fn command_number_too_large_is_an_error() {
    assert!(Command::parse("b 340282366920938463463374607431768211456").is_err());
    assert!(Command::parse("pm 1 99999999999999999999999999").is_err());
}

#[test]
fn command_register_is_one_of_eight() {
    assert_eq!(Command::parse("p reg 0").unwrap(), Command::PrintRegister(0));
    assert_eq!(Command::parse("pr 7").unwrap(), Command::PrintRegister(7));
    assert!(Command::parse("p reg 8").is_err());
    assert!(Command::parse("pr 8").is_err());
    assert!(Command::parse("pr 9").is_err());
}

#[test]
fn command_parse_error_quotes_the_line() {
    assert_eq!(
        Command::parse("bogus").unwrap_err(),
        "failed to parse command 'bogus'"
    );
    assert_eq!(Command::parse("").unwrap_err(), "failed to parse command ''");
}

#[test]
fn command_response_frames() {
    assert_eq!(Command::Run.response_frames(), 2);
    assert_eq!(Command::Continue.response_frames(), 2);
    assert_eq!(Command::Step.response_frames(), 1);
    assert_eq!(Command::AddBreakpoint(1).response_frames(), 1);
    assert_eq!(Command::RemoveBreakpoint(1).response_frames(), 1);
    assert_eq!(Command::PrintRegister(1).response_frames(), 1);
    assert_eq!(Command::PrintMemory(1, 2).response_frames(), 1);
    assert_eq!(Command::Quit.response_frames(), 0);
    assert_eq!(Command::Nothing.response_frames(), 0);
}
