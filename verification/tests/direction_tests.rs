use hypr_nav::direction::{
    emulator_token, mux_token, parse_direction, wm_token, Direction,
};

fn b(s: &str) -> Vec<u8> {
    s.as_bytes().to_vec()
}

#[test]
fn wm_tokens_stay_in_lock_step() {
    assert_eq!(wm_token(Direction::Left), b'l');
    assert_eq!(wm_token(Direction::Right), b'r');
    assert_eq!(wm_token(Direction::Up), b'u');
    assert_eq!(wm_token(Direction::Down), b'd');
}

#[test]
fn mux_tokens_stay_in_lock_step() {
    assert_eq!(mux_token(Direction::Left), b'L');
    assert_eq!(mux_token(Direction::Right), b'R');
    assert_eq!(mux_token(Direction::Up), b'U');
    assert_eq!(mux_token(Direction::Down), b'D');
}

#[test]
fn emulator_tokens_stay_in_lock_step() {
    assert_eq!(emulator_token(Direction::Left), b("left"));
    assert_eq!(emulator_token(Direction::Right), b("right"));
    assert_eq!(emulator_token(Direction::Up), b("top"));
    assert_eq!(emulator_token(Direction::Down), b("bottom"));
}

#[test]
fn parses_every_direction_alias() {
    assert_eq!(parse_direction(&b("h")), Some(Direction::Left));
    assert_eq!(parse_direction(&b("left")), Some(Direction::Left));
    assert_eq!(parse_direction(&b("l")), Some(Direction::Right));
    assert_eq!(parse_direction(&b("right")), Some(Direction::Right));
    assert_eq!(parse_direction(&b("r")), Some(Direction::Right));
    assert_eq!(parse_direction(&b("k")), Some(Direction::Up));
    assert_eq!(parse_direction(&b("up")), Some(Direction::Up));
    assert_eq!(parse_direction(&b("u")), Some(Direction::Up));
    assert_eq!(parse_direction(&b("j")), Some(Direction::Down));
    assert_eq!(parse_direction(&b("down")), Some(Direction::Down));
    assert_eq!(parse_direction(&b("d")), Some(Direction::Down));
}

#[test]
fn rejects_unknown_direction_arguments() {
    assert_eq!(parse_direction(&b("")), None);
    assert_eq!(parse_direction(&b("north")), None);
    assert_eq!(parse_direction(&b("H")), None);
    assert_eq!(parse_direction(&b("ll")), None);
}
