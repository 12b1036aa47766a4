use hypr_nav::matcher::{
    find_session_for_terminal, most_recent_session, parse_clients, parse_sessions, ClientRecord,
    SessionStamp,
};

fn b(s: &str) -> Vec<u8> {
    s.as_bytes().to_vec()
}

fn client(session: &str, tty: &str) -> ClientRecord {
    ClientRecord { session: b(session), tty: b(tty) }
}

fn stamp(name: &str, last_attached: u64) -> SessionStamp {
    SessionStamp { name: b(name), last_attached }
}

#[test]
fn matches_when_client_tty_is_strict_suffix_of_target() {
    let clients = vec![client("work", "pts/3")];
    assert_eq!(find_session_for_terminal(&b("/dev/pts/3"), &clients), Some(b("work")));
}

#[test]
fn matches_when_target_is_strict_suffix_of_client_tty() {
    let clients = vec![client("work", "/dev/pts/3")];
    assert_eq!(find_session_for_terminal(&b("pts/3"), &clients), Some(b("work")));
}

#[test]
fn matches_equal_paths_and_takes_first_in_listing_order() {
    let clients = vec![
        client("alpha", "/dev/pts/9"),
        client("beta", "/dev/pts/3"),
        client("gamma", "/dev/pts/3"),
    ];
    assert_eq!(find_session_for_terminal(&b("/dev/pts/3"), &clients), Some(b("beta")));
}

#[test]
fn no_client_matches_yields_nothing() {
    let clients = vec![client("work", "/dev/pts/9")];
    assert_eq!(find_session_for_terminal(&b("/dev/pts/3"), &clients), None);
    assert_eq!(find_session_for_terminal(&b("/dev/pts/3"), &Vec::new()), None);
}

#[test]
fn partial_path_overlap_is_no_match() {
    let clients = vec![client("work", "/dev/pts/33")];
    assert_eq!(find_session_for_terminal(&b("/dev/pts/3"), &clients), None);
}

#[test]
fn parses_client_listing_and_skips_malformed_lines() {
    let out = b("work /dev/pts/3\n\nlone\nother /dev/pts/7 extra\n");
    let clients = parse_clients(&out);
    assert_eq!(clients.len(), 2);
    assert_eq!(clients[0].session, b("work"));
    assert_eq!(clients[0].tty, b("/dev/pts/3"));
    assert_eq!(clients[1].session, b("other"));
    assert_eq!(clients[1].tty, b("/dev/pts/7"));
}

#[test]
fn parses_session_listing_with_missing_or_bad_stamps() {
    let out = b("work 1700000000\nscratch\nodd notanumber\n");
    let sessions = parse_sessions(&out);
    assert_eq!(sessions.len(), 3);
    assert_eq!(sessions[0].name, b("work"));
    assert_eq!(sessions[0].last_attached, 1700000000);
    assert_eq!(sessions[1].name, b("scratch"));
    assert_eq!(sessions[1].last_attached, 0);
    assert_eq!(sessions[2].name, b("odd"));
    assert_eq!(sessions[2].last_attached, 0);
}

#[test]
fn most_recent_session_picks_greatest_stamp() {
    let sessions = vec![stamp("old", 100), stamp("new", 300), stamp("mid", 200)];
    assert_eq!(most_recent_session(&sessions), Some(b("new")));
}

#[test]
fn most_recent_session_breaks_ties_by_listing_order() {
    let sessions = vec![stamp("first", 200), stamp("second", 200), stamp("third", 100)];
    assert_eq!(most_recent_session(&sessions), Some(b("first")));
}

#[test]
fn most_recent_session_of_none_is_nothing() {
    assert_eq!(most_recent_session(&Vec::new()), None);
}
