use congo_ps::command::parse_command;
use congo_ps::command::Command;
use congo_ps::command::CommandError;
use congo_ps::decimal::parse_usize;

#[test]
fn decimal_plain_digits() {
    assert_eq!(parse_usize(b"0"), Some(0));
    assert_eq!(parse_usize(b"1"), Some(1));
    assert_eq!(parse_usize(b"01"), Some(1));
    assert_eq!(parse_usize(b"12345"), Some(12345));
}

#[test]
fn decimal_leading_plus() {
    assert_eq!(parse_usize(b"+7"), Some(7));
    assert_eq!(parse_usize(b"+"), None);
    assert_eq!(parse_usize(b"++7"), None);
}

#[test]
fn decimal_refuses_other_text() {
    assert_eq!(parse_usize(b""), None);
    assert_eq!(parse_usize(b"-1"), None);
    assert_eq!(parse_usize(b" 1"), None);
    assert_eq!(parse_usize(b"1 "), None);
    assert_eq!(parse_usize(b"1.0"), None);
    assert_eq!(parse_usize(b"x"), None);
}

#[test]
fn decimal_limits() {
    let max = usize::MAX.to_string();
    assert_eq!(parse_usize(max.as_bytes()), Some(usize::MAX));
    let over = format!("{}0", usize::MAX);
    assert_eq!(parse_usize(over.as_bytes()), None);
    let plus_one = (usize::MAX as u128 + 1).to_string();
    assert_eq!(parse_usize(plus_one.as_bytes()), None);
}

#[test]
fn decimal_agrees_with_std() {
    for text in ["0", "9", "10", "+10", "007", "", "+", "-0", "1a", "a1", "18446744073709551615", "18446744073709551616", "4294967295", "4294967296"] {
        assert_eq!(parse_usize(text.as_bytes()), text.parse::<usize>().ok(), "{}", text);
    }
}

#[test]
fn voltage_command_carries_its_value() {
    assert_eq!(parse_command("V:12.5"), Ok(Command::SetVoltage(b"12.5".to_vec())));
    assert_eq!(parse_command("V:"), Ok(Command::SetVoltage(Vec::new())));
    assert_eq!(parse_command("V:3.3:extra"), Ok(Command::SetVoltage(b"3.3".to_vec())));
}

#[test]
fn current_command_carries_its_value() {
    assert_eq!(parse_command("I:0.75"), Ok(Command::SetCurrent(b"0.75".to_vec())));
    assert_eq!(parse_command("I:1::2"), Ok(Command::SetCurrent(b"1".to_vec())));
}

#[test]
fn value_commands_need_a_value() {
    assert_eq!(parse_command("V"), Err(CommandError::MissingValue));
    assert_eq!(parse_command("I"), Err(CommandError::MissingValue));
    assert_eq!(parse_command("M"), Err(CommandError::MissingValue));
}

#[test]
fn mppt_command_switches_on_only_for_one() {
    assert_eq!(parse_command("M:1"), Ok(Command::SetMppt(true)));
    assert_eq!(parse_command("M:01"), Ok(Command::SetMppt(true)));
    assert_eq!(parse_command("M:+1"), Ok(Command::SetMppt(true)));
    assert_eq!(parse_command("M:0"), Ok(Command::SetMppt(false)));
    assert_eq!(parse_command("M:2"), Ok(Command::SetMppt(false)));
    assert_eq!(parse_command("M:1:0"), Ok(Command::SetMppt(true)));
}

#[test]
fn mppt_command_needs_a_number() {
    assert_eq!(parse_command("M:"), Err(CommandError::InvalidNumber));
    assert_eq!(parse_command("M:on"), Err(CommandError::InvalidNumber));
    assert_eq!(parse_command("M:-1"), Err(CommandError::InvalidNumber));
    assert_eq!(parse_command("M:99999999999999999999999"), Err(CommandError::InvalidNumber));
}

#[test]
fn other_commands_change_nothing() {
    assert_eq!(parse_command("F:100"), Ok(Command::Ignored));
    assert_eq!(parse_command("D:0.5"), Ok(Command::Ignored));
    assert_eq!(parse_command("F"), Ok(Command::Ignored));
    assert_eq!(parse_command(""), Ok(Command::Ignored));
    assert_eq!(parse_command(":1"), Ok(Command::Ignored));
    assert_eq!(parse_command("VV:1"), Ok(Command::Ignored));
    assert_eq!(parse_command("v:1"), Ok(Command::Ignored));
    assert_eq!(parse_command("hello"), Ok(Command::Ignored));
    assert_eq!(parse_command("Ü:1"), Ok(Command::Ignored));
}
