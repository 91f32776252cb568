use tetetris::events::Event;
use tetetris::flags::{parse_tick, Flags, ParseError};

#[test]
fn parse_tick_accepts_numerals() {
    assert_eq!(parse_tick("300").unwrap(), 300);
    assert_eq!(parse_tick("0").unwrap(), 0);
    assert_eq!(parse_tick("+42").unwrap(), 42);
    assert_eq!(parse_tick("007").unwrap(), 7);
    assert_eq!(parse_tick("4294967295").unwrap(), u32::MAX);
}

#[test]
fn parse_tick_rejects_other_text() {
    let msg = "Wrong value for 'tick-rate' flag. Must be integer.";
    assert_eq!(parse_tick("").unwrap_err().message(), msg);
    assert_eq!(parse_tick("+").unwrap_err().message(), msg);
    assert_eq!(parse_tick("12a").unwrap_err().message(), msg);
    assert_eq!(parse_tick("-5").unwrap_err().message(), msg);
    assert_eq!(parse_tick("4294967296").unwrap_err().message(), msg);
    assert_eq!(parse_tick("99999999999999999999").unwrap_err().message(), msg);
}

#[test]
fn flags_carry_the_tick_rate() {
    let f = Flags { tick: parse_tick("250").unwrap() };
    assert_eq!(f.tick, 250);
}

#[test]
fn parse_error_keeps_its_message() {
    let e = ParseError::new("something went wrong");
    assert_eq!(e.message(), "something went wrong");
}

#[test]
fn events_distinguish_input_from_tick() {
    let input: Event<u8> = Event::Input(3);
    let tick: Event<u8> = Event::Tick;
    assert!(matches!(input, Event::Input(3)));
    assert!(matches!(tick, Event::Tick));
}
