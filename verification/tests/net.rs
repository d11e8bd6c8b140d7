use quagmire::net::read_pump_step;
use quagmire::net::Conn;
use quagmire::net::PumpStep;
use quagmire::telnet::State;
use quagmire::telnet::Telnet;
use quagmire::telnet::TelnetCommand;
use quagmire::telnet::TelnetEvent;
use quagmire::telnet::TelnetOption;
use quagmire::telnet::Verb;

#[test]
fn first_close_shuts_the_socket_down_and_later_ones_do_not() {
    let mut conn = Conn::new();
    assert!(conn.close());
    assert!(!conn.close());
    assert!(!conn.close());
}

#[test]
fn empty_read_stops_the_pump() {
    let mut telnet = Telnet::new();
    let empty: [u8; 0] = [];
    assert_eq!(read_pump_step(&mut telnet, Some(&empty)), PumpStep::Stop);
}

#[test]
fn failed_read_stops_the_pump_and_keeps_the_decoder() {
    let mut telnet = Telnet::new();
    assert_eq!(read_pump_step(&mut telnet, Some(&[255, 251])), PumpStep::Forward(vec![]));
    assert_eq!(read_pump_step(&mut telnet, None), PumpStep::Stop);
    assert_eq!(telnet.current_state(), State::Negotiating(Verb::Will));
}

#[test]
fn read_bytes_are_decoded_and_forwarded() {
    let mut telnet = Telnet::new();
    let step = read_pump_step(&mut telnet, Some(&[b'o', b'k', 255, 253, 1]));
    assert_eq!(
        step,
        PumpStep::Forward(vec![
            TelnetEvent::Data(vec![b'o', b'k']),
            TelnetEvent::Command(TelnetCommand::Do(TelnetOption::Echo)),
        ])
    );
}
