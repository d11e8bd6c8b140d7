use quagmire::telnet::ReadError;
use quagmire::telnet::State;
use quagmire::telnet::Telnet;
use quagmire::telnet::TelnetCommand::{Do, Dont, UnknownCommand, Will, Wont};
use quagmire::telnet::TelnetEvent;
use quagmire::telnet::TelnetEvent::{Command, Data};
use quagmire::telnet::TelnetOption;
use quagmire::telnet::TelnetOption::{Echo, UnknownOption};
use quagmire::telnet::Verb;
use quagmire::telnet::{DO, DONT, ECHO, IAC, WILL, WONT};

fn payload_of(events: &[TelnetEvent]) -> Vec<u8> {
    let mut all = Vec::new();
    for event in events {
        if let Data(bytes) = event {
            all.extend_from_slice(bytes);
        }
    }
    all
}

#[test]
fn test_empty() {
    let buf: [u8; 0] = [];
    let mut telnet = Telnet::new();
    let evts = telnet.read_events(&buf);
    assert!(evts.is_err());
}

#[test]
fn test_data() {
    let buf = b"Hello, world!".to_vec();
    let mut telnet = Telnet::new();
    let evts = telnet.read_events(&buf).unwrap();
    assert_eq!(evts[0], Data(buf));
}

#[test]
fn test_iac() {
    let buf = vec![IAC, WILL, ECHO];
    let mut telnet = Telnet::new();
    let evts = telnet.read_events(&buf).unwrap();
    assert_eq!(evts[0], Command(Will(Echo)))
}

#[test]
fn test_mixed_iac_data() {
    let data1 = b"Hello, world!";
    let cmd = [IAC, WILL, ECHO];
    let data2 = b"Goodbye, world!";
    let mut all = data1.to_vec();
    all.extend_from_slice(&cmd);
    all.extend_from_slice(data2);
    let mut telnet = Telnet::new();
    let evts = telnet.read_events(&all).unwrap();
    assert_eq!(evts.len(), 3);
    assert_eq!(evts[0], Data(data1.to_vec()));
    assert_eq!(evts[1], Command(Will(Echo)));
    assert_eq!(evts[2], Data(data2.to_vec()));
}

#[test]
fn test_iac_escaping() {
    let data = [IAC, IAC];
    let mut telnet = Telnet::new();
    let evts = telnet.read_events(&data).unwrap();
    println!("{:?}", evts);
    assert_eq!(evts.len(), 1);
    assert_eq!(evts[0], Data(vec![IAC]));
}

#[test]
fn empty_read_is_connection_closed_and_keeps_state() {
    let mut telnet = Telnet::new();
    assert_eq!(telnet.read_events(&[IAC, DO]), Ok(vec![]));
    assert_eq!(telnet.current_state(), State::Negotiating(Verb::Do));
    assert_eq!(telnet.read_events(&[]), Err(ReadError::ConnectionClosed));
    assert_eq!(telnet.current_state(), State::Negotiating(Verb::Do));
}

#[test]
fn plain_data_is_exactly_one_event() {
    let mut telnet = Telnet::new();
    let evts = telnet.read_events(b"Hello, world!").unwrap();
    assert_eq!(evts, vec![Data(b"Hello, world!".to_vec())]);
    assert_eq!(telnet.current_state(), State::Data);
}

#[test]
fn negotiation_is_exactly_one_command() {
    let mut telnet = Telnet::new();
    let evts = telnet.read_events(&[255, 251, 1]).unwrap();
    assert_eq!(evts, vec![Command(Will(Echo))]);
    assert_eq!(telnet.current_state(), State::Data);
}

#[test]
fn every_verb_and_option_decodes() {
    let mut telnet = Telnet::new();
    let evts = telnet
        .read_events(&[IAC, WILL, 1, IAC, WONT, 3, IAC, DO, 1, IAC, DONT, 0, IAC, WONT, 255])
        .unwrap();
    assert_eq!(
        evts,
        vec![
            Command(Will(Echo)),
            Command(Wont(UnknownOption(3))),
            Command(Do(Echo)),
            Command(Dont(UnknownOption(0))),
            Command(Wont(UnknownOption(255))),
        ]
    );
}

#[test]
fn unknown_command_takes_two_bytes() {
    let mut telnet = Telnet::new();
    let evts = telnet.read_events(&[b'a', IAC, 241, b'b', b'c']).unwrap();
    assert_eq!(
        evts,
        vec![Data(vec![b'a']), Command(UnknownCommand(241)), Data(vec![b'b', b'c'])]
    );
    let evts = telnet.read_events(&[IAC, 0]).unwrap();
    assert_eq!(evts, vec![Command(UnknownCommand(0))]);
    assert_eq!(telnet.current_state(), State::Data);
}

#[test]
fn escaped_iac_stands_alone_between_runs() {
    let mut telnet = Telnet::new();
    let evts = telnet.read_events(&[b'a', IAC, IAC, b'b', IAC, IAC, IAC, IAC]).unwrap();
    assert_eq!(
        evts,
        vec![
            Data(vec![b'a']),
            Data(vec![255]),
            Data(vec![b'b']),
            Data(vec![255]),
            Data(vec![255]),
        ]
    );
}

#[test]
fn split_triple_is_reassembled() {
    let whole = [b'x', IAC, WILL, ECHO, b'y'];
    let mut one = Telnet::new();
    let expected = one.read_events(&whole).unwrap();
    assert_eq!(expected, vec![Data(vec![b'x']), Command(Will(Echo)), Data(vec![b'y'])]);
    for cut in 1..4 {
        let mut two = Telnet::new();
        let mut evts = two.read_events(&whole[..cut]).unwrap();
        evts.extend(two.read_events(&whole[cut..]).unwrap());
        assert_eq!(evts, expected);
        assert_eq!(two.current_state(), one.current_state());
    }
}

#[test]
fn cut_after_verb_yields_nothing_until_the_option_comes() {
    let mut telnet = Telnet::new();
    assert_eq!(telnet.read_events(&[IAC]).unwrap(), vec![]);
    assert_eq!(telnet.current_state(), State::Iac);
    assert_eq!(telnet.read_events(&[WONT]).unwrap(), vec![]);
    assert_eq!(telnet.current_state(), State::Negotiating(Verb::Wont));
    assert_eq!(telnet.read_events(&[ECHO]).unwrap(), vec![Command(Wont(Echo))]);
    assert_eq!(telnet.current_state(), State::Data);
}

#[test]
fn split_escape_is_reassembled() {
    let mut telnet = Telnet::new();
    assert_eq!(telnet.read_events(&[b'a', IAC]).unwrap(), vec![Data(vec![b'a'])]);
    assert_eq!(telnet.read_events(&[IAC, b'b']).unwrap(), vec![Data(vec![255]), Data(vec![b'b'])]);
}

#[test]
fn cut_inside_a_run_gives_two_data_events_with_the_same_bytes() {
    let mut one = Telnet::new();
    let whole = one.read_events(b"Hello").unwrap();
    assert_eq!(whole, vec![Data(b"Hello".to_vec())]);
    let mut two = Telnet::new();
    let mut parts = two.read_events(b"Hel").unwrap();
    parts.extend(two.read_events(b"lo").unwrap());
    assert_eq!(parts, vec![Data(b"Hel".to_vec()), Data(b"lo".to_vec())]);
    assert_eq!(payload_of(&parts), payload_of(&whole));
}

#[test]
fn data_events_carry_the_stream_without_commands() {
    let stream = [b'h', b'i', IAC, IAC, b'!', IAC, DO, 31, IAC, 249, b'o', b'k', IAC, IAC];
    let mut telnet = Telnet::new();
    let evts = telnet.read_events(&stream).unwrap();
    assert_eq!(payload_of(&evts), vec![b'h', b'i', 255, b'!', b'o', b'k', 255]);
    for cut in 1..stream.len() {
        let mut two = Telnet::new();
        let mut parts = two.read_events(&stream[..cut]).unwrap();
        parts.extend(two.read_events(&stream[cut..]).unwrap());
        assert_eq!(payload_of(&parts), vec![b'h', b'i', 255, b'!', b'o', b'k', 255]);
    }
}

#[test]
fn no_data_event_is_empty() {
    let stream = [IAC, WILL, 1, IAC, IAC, IAC, 240, b'a', IAC, DONT, 5];
    let mut telnet = Telnet::new();
    for event in telnet.read_events(&stream).unwrap() {
        if let Data(bytes) = event {
            assert!(!bytes.is_empty());
        }
    }
}

#[test]
fn option_bytes_round_trip() {
    assert_eq!(TelnetOption::from_u8(1), Echo);
    assert_eq!(TelnetOption::from_u8(0), UnknownOption(0));
    assert_eq!(TelnetOption::from_u8(24), UnknownOption(24));
    assert_eq!(Echo.to_u8(), 1);
    assert_eq!(UnknownOption(24).to_u8(), 24);
}

#[test]
fn verb_bytes_round_trip() {
    assert_eq!(Verb::from_u8(251), Some(Verb::Will));
    assert_eq!(Verb::from_u8(252), Some(Verb::Wont));
    assert_eq!(Verb::from_u8(253), Some(Verb::Do));
    assert_eq!(Verb::from_u8(254), Some(Verb::Dont));
    assert_eq!(Verb::from_u8(255), None);
    assert_eq!(Verb::from_u8(250), None);
    assert_eq!(Verb::Will.to_u8(), 251);
    assert_eq!(Verb::Dont.to_u8(), 254);
    assert_eq!(Verb::Do.apply(Echo), Do(Echo));
    assert_eq!(Verb::Dont.apply(UnknownOption(9)), Dont(UnknownOption(9)));
}

fn wire_bytes_of(events: &[TelnetEvent]) -> Vec<u8> {
    let mut all = Vec::new();
    for event in events {
        match event {
            Data(bytes) => {
                for byte in bytes {
                    if *byte == IAC {
                        all.push(IAC);
                    }
                    all.push(*byte);
                }
            }
            Command(Will(option)) => all.extend_from_slice(&[IAC, WILL, option.to_u8()]),
            Command(Wont(option)) => all.extend_from_slice(&[IAC, WONT, option.to_u8()]),
            Command(Do(option)) => all.extend_from_slice(&[IAC, DO, option.to_u8()]),
            Command(Dont(option)) => all.extend_from_slice(&[IAC, DONT, option.to_u8()]),
            Command(UnknownCommand(byte)) => all.extend_from_slice(&[IAC, *byte]),
        }
    }
    all
}

#[test]
fn events_written_again_are_the_stream() {
    let stream = [b'h', b'i', IAC, IAC, b'!', IAC, DO, 31, IAC, 249, b'o', IAC, WILL, 1, b'k'];
    let mut telnet = Telnet::new();
    let evts = telnet.read_events(&stream).unwrap();
    assert_eq!(wire_bytes_of(&evts), stream.to_vec());
    for cut in 1..stream.len() {
        let mut two = Telnet::new();
        let mut parts = two.read_events(&stream[..cut]).unwrap();
        parts.extend(two.read_events(&stream[cut..]).unwrap());
        assert_eq!(wire_bytes_of(&parts), stream.to_vec());
    }
}
