use quagmire::tty::echo_flags;
use quagmire::tty::Toggle;
use quagmire::tty::ECHO;

#[test]
fn echo_bit_is_octal_ten() {
    assert_eq!(ECHO, 0o10);
}

#[test]
fn echo_on_sets_the_bit_and_keeps_the_others() {
    assert_eq!(echo_flags(0, Toggle::On), 8);
    assert_eq!(echo_flags(0o105073, Toggle::On), 0o105073);
    assert_eq!(echo_flags(0o105063, Toggle::On), 0o105073);
    assert_eq!(echo_flags(u32::MAX, Toggle::On), u32::MAX);
}

#[test]
fn echo_off_clears_the_bit_and_keeps_the_others() {
    assert_eq!(echo_flags(8, Toggle::Off), 0);
    assert_eq!(echo_flags(0o105073, Toggle::Off), 0o105063);
    assert_eq!(echo_flags(0o105063, Toggle::Off), 0o105063);
    assert_eq!(echo_flags(u32::MAX, Toggle::Off), u32::MAX - 8);
}
