use quagmire::cmd::Command;
use quagmire::input::extract_args;
use quagmire::input::find_command;
use quagmire::input::parse_input;
use quagmire::input::parse_port;
use quagmire::input::ParsedInput::{CommandInput, RegularInput};

fn args(list: &[&str]) -> Vec<String> {
    list.iter().map(|s| s.to_string()).collect()
}

#[test]
fn quit_is_the_built_in_command() {
    assert_eq!(Command::from_string("quit".to_string()), Command::Quit);
    assert_eq!(Command::from_string("Quit".to_string()), Command::Other("Quit".to_string()));
    assert_eq!(Command::from_string("quit ".to_string()), Command::Other("quit ".to_string()));
    assert_eq!(Command::from_string("".to_string()), Command::Other("".to_string()));
}

#[test]
fn slash_quit_is_a_command() {
    assert_eq!(parse_input("/quit".to_string()), CommandInput(Command::Quit));
    assert_eq!(parse_input("  /quit\n".to_string()), CommandInput(Command::Quit));
    assert_eq!(parse_input("/quit now please".to_string()), CommandInput(Command::Quit));
}

#[test]
fn other_slash_words_are_commands_for_the_configuration() {
    assert_eq!(
        parse_input("/foo bar\n".to_string()),
        CommandInput(Command::Other("foo".to_string()))
    );
    assert_eq!(parse_input("/".to_string()), CommandInput(Command::Other("".to_string())));
    assert_eq!(
        parse_input("/a/b".to_string()),
        CommandInput(Command::Other("a/b".to_string()))
    );
    assert_eq!(
        parse_input("/quit\tnow".to_string()),
        CommandInput(Command::Other("quit\tnow".to_string()))
    );
}

#[test]
fn other_lines_are_kept_as_typed() {
    assert_eq!(parse_input("look\n".to_string()), RegularInput("look\n".to_string()));
    assert_eq!(parse_input("  say /quit ".to_string()), RegularInput("  say /quit ".to_string()));
    assert_eq!(parse_input("".to_string()), RegularInput("".to_string()));
    assert_eq!(parse_input("   ".to_string()), RegularInput("   ".to_string()));
}

#[test]
fn doubled_slash_is_no_command() {
    assert_eq!(parse_input("//quit".to_string()), RegularInput("//quit".to_string()));
    assert_eq!(parse_input(" //".to_string()), RegularInput(" //".to_string()));
}

#[test]
fn trimming_is_done_before_the_first_word_is_taken() {
    // Were the line not trimmed, its first word would be empty.
    assert_eq!(parse_input(" /who".to_string()), CommandInput(Command::Other("who".to_string())));
    assert_eq!(find_command(" /who"), None);
    assert_eq!(find_command("/who"), Some(Command::Other("who".to_string())));
}

#[test]
fn ports_are_decimal_numbers_up_to_65535() {
    assert_eq!(parse_port("23"), Some(23));
    assert_eq!(parse_port("0"), Some(0));
    assert_eq!(parse_port("65535"), Some(65535));
    assert_eq!(parse_port("65536"), None);
    assert_eq!(parse_port("99999999999999999999"), None);
    assert_eq!(parse_port("+4000"), Some(4000));
    assert_eq!(parse_port("0023"), Some(23));
    assert_eq!(parse_port(""), None);
    assert_eq!(parse_port("+"), None);
    assert_eq!(parse_port("-1"), None);
    assert_eq!(parse_port(" 23"), None);
    assert_eq!(parse_port("23 "), None);
    assert_eq!(parse_port("2a"), None);
    assert_eq!(parse_port("++1"), None);
    assert_eq!(parse_port("\u{0663}"), None);
}

#[test]
fn ports_read_as_the_standard_parser_reads_them() {
    for text in ["23", "0", "65535", "65536", "+4000", "0023", "", "+", "-1", " 23", "2a", "+0"] {
        assert_eq!(parse_port(text), text.parse::<u16>().ok());
    }
}

#[test]
fn host_and_port_are_read_from_three_arguments() {
    assert_eq!(
        extract_args(&args(&["quagmire", "example.org", "4000"])),
        Ok(("example.org".to_string(), 4000))
    );
}

#[test]
fn wrong_arguments_give_the_usage_line() {
    let usage = Err("Usage: quagmire <host> <port>".to_string());
    assert_eq!(extract_args(&args(&[])), usage);
    assert_eq!(extract_args(&args(&["quagmire"])), usage);
    assert_eq!(extract_args(&args(&["quagmire", "example.org"])), usage);
    assert_eq!(extract_args(&args(&["quagmire", "example.org", "4000", "x"])), usage);
    assert_eq!(extract_args(&args(&["quagmire", "example.org", "port"])), usage);
    assert_eq!(extract_args(&args(&["quagmire", "example.org", "70000"])), usage);
}
