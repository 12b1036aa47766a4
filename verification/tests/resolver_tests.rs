use hypr_nav::direction::Direction;
use hypr_nav::matcher::{ClientRecord, SessionStamp};
use hypr_nav::proctree::ProcEntry;
use hypr_nav::resolver::{
    active_window_pid, activewindow_command, close_action, emulator_nav_handled,
    killactive_command, movefocus_command, parse_active_window, parse_session_info,
    response_class_is_kitty, resolver_step, session_is_named, start_state, CloseAction, Intent,
    ResolveAction, ResolveEvent, ResolveState, SessionInfo, WindowInfo,
};

fn b(s: &str) -> Vec<u8> {
    s.as_bytes().to_vec()
}

fn entry(pid: u32, ppid: u32, cmdline: &str) -> ProcEntry {
    ProcEntry { pid, ppid, cmdline: cmdline.as_bytes().to_vec() }
}

fn client(session: &str, tty: &str) -> ClientRecord {
    ClientRecord { session: b(session), tty: b(tty) }
}

fn kitty_window(pid: u32) -> Option<WindowInfo> {
    Some(WindowInfo { class: b("kitty"), pid })
}

fn info(is_named: bool, window_count: u32, pane_count: u32) -> SessionInfo {
    SessionInfo { is_named, window_count, pane_count }
}

#[test]
fn navigate_without_multiplexer_dispatches_one_wm_move() {
    let intent = Intent::Navigate(Direction::Left);
    let (s1, a1) = resolver_step(intent, start_state(), ResolveEvent::Window(kitty_window(4321)));
    assert!(matches!(a1, ResolveAction::WalkTree { pid: 4321 }));
    let procs = vec![entry(4321, 1, "kitty"), entry(5000, 4321, "-zsh")];
    let (s2, a2) = resolver_step(
        intent,
        s1,
        ResolveEvent::Walk { procs, tty: Some(b("/dev/pts/3")) },
    );
    assert!(matches!(s2, ResolveState::Done { inner_handled: false }));
    assert!(matches!(a2, ResolveAction::DispatchMove { token: b'l' }));
}

#[test]
fn navigate_with_matching_client_selects_pane_and_no_wm_dispatch() {
    let intent = Intent::Navigate(Direction::Up);
    let (s1, _) = resolver_step(intent, start_state(), ResolveEvent::Window(kitty_window(4321)));
    let procs = vec![
        entry(4321, 1, "kitty"),
        entry(5000, 4321, "-zsh"),
        entry(5100, 5000, "tmux new -s work"),
    ];
    let (s2, a2) = resolver_step(
        intent,
        s1,
        ResolveEvent::Walk { procs, tty: Some(b("/dev/pts/3")) },
    );
    assert!(matches!(a2, ResolveAction::ListClients));
    let clients = vec![client("work", "/dev/pts/3")];
    let (s3, a3) = resolver_step(intent, s2, ResolveEvent::Clients(Some(clients)));
    match a3 {
        ResolveAction::SelectPane { session, token } => {
            assert_eq!(session, b("work"));
            assert_eq!(token, b'U');
        },
        _ => panic!("expected a pane-select action"),
    }
    let (s4, a4) = resolver_step(
        intent,
        s3,
        ResolveEvent::PaneMove {
            select_ok: true,
            before: Some(b("%1")),
            after: Some(b("%2")),
        },
    );
    assert!(matches!(s4, ResolveState::Done { inner_handled: true }));
    assert!(matches!(a4, ResolveAction::Finished));
}

#[test]
fn navigate_with_ineligible_class_goes_straight_to_wm() {
    let intent = Intent::Navigate(Direction::Right);
    let win = Some(WindowInfo { class: b("firefox"), pid: 777 });
    let (s1, a1) = resolver_step(intent, start_state(), ResolveEvent::Window(win));
    assert!(matches!(s1, ResolveState::Done { inner_handled: false }));
    assert!(matches!(a1, ResolveAction::DispatchMove { token: b'r' }));
}

#[test]
fn navigate_with_unavailable_wm_response_falls_back() {
    let intent = Intent::Navigate(Direction::Down);
    let (s1, a1) = resolver_step(intent, start_state(), ResolveEvent::Window(None));
    assert!(matches!(s1, ResolveState::Done { inner_handled: false }));
    assert!(matches!(a1, ResolveAction::DispatchMove { token: b'd' }));
}

#[test]
fn navigate_with_unreadable_terminal_falls_back() {
    let intent = Intent::Navigate(Direction::Up);
    let (s1, _) = resolver_step(intent, start_state(), ResolveEvent::Window(kitty_window(4321)));
    let procs = vec![entry(4321, 1, "kitty"), entry(5000, 4321, "tmux")];
    let (s2, a2) = resolver_step(intent, s1, ResolveEvent::Walk { procs, tty: None });
    assert!(matches!(s2, ResolveState::Done { inner_handled: false }));
    assert!(matches!(a2, ResolveAction::DispatchMove { token: b'u' }));
}

#[test]
fn navigate_client_listing_failure_falls_back_without_recency() {
    let intent = Intent::Navigate(Direction::Left);
    let (s1, _) = resolver_step(intent, start_state(), ResolveEvent::Window(kitty_window(4321)));
    let procs = vec![entry(4321, 1, "kitty"), entry(5000, 4321, "tmux")];
    let (s2, _) = resolver_step(
        intent,
        s1,
        ResolveEvent::Walk { procs, tty: Some(b("/dev/pts/3")) },
    );
    let (s3, a3) = resolver_step(intent, s2, ResolveEvent::Clients(None));
    assert!(matches!(s3, ResolveState::Done { inner_handled: false }));
    assert!(matches!(a3, ResolveAction::DispatchMove { token: b'l' }));
}

#[test]
fn navigate_falls_back_to_most_recent_session_when_no_client_matches() {
    let intent = Intent::Navigate(Direction::Right);
    let (s1, _) = resolver_step(intent, start_state(), ResolveEvent::Window(kitty_window(4321)));
    let procs = vec![entry(4321, 1, "kitty"), entry(5000, 4321, "tmux")];
    let (s2, _) = resolver_step(
        intent,
        s1,
        ResolveEvent::Walk { procs, tty: Some(b("/dev/pts/3")) },
    );
    let clients = vec![client("other", "/dev/pts/9")];
    let (s3, a3) = resolver_step(intent, s2, ResolveEvent::Clients(Some(clients)));
    assert!(matches!(s3, ResolveState::AwaitSessions));
    assert!(matches!(a3, ResolveAction::ListSessions));
    let sessions = vec![
        SessionStamp { name: b("stale"), last_attached: 100 },
        SessionStamp { name: b("fresh"), last_attached: 900 },
    ];
    let (_, a4) = resolver_step(intent, s3, ResolveEvent::Sessions(Some(sessions)));
    match a4 {
        ResolveAction::SelectPane { session, token } => {
            assert_eq!(session, b("fresh"));
            assert_eq!(token, b'R');
        },
        _ => panic!("expected a pane-select action"),
    }
}

#[test]
fn navigate_pane_that_does_not_move_falls_back() {
    let intent = Intent::Navigate(Direction::Up);
    let (s1, _) = resolver_step(intent, start_state(), ResolveEvent::Window(kitty_window(4321)));
    let procs = vec![entry(4321, 1, "kitty"), entry(5000, 4321, "tmux")];
    let (s2, _) = resolver_step(
        intent,
        s1,
        ResolveEvent::Walk { procs, tty: Some(b("/dev/pts/3")) },
    );
    let clients = vec![client("work", "/dev/pts/3")];
    let (s3, _) = resolver_step(intent, s2, ResolveEvent::Clients(Some(clients)));
    let (s4, a4) = resolver_step(
        intent,
        s3,
        ResolveEvent::PaneMove {
            select_ok: true,
            before: Some(b("%1")),
            after: Some(b("%1")),
        },
    );
    assert!(matches!(s4, ResolveState::Done { inner_handled: false }));
    assert!(matches!(a4, ResolveAction::DispatchMove { token: b'u' }));
}

#[test]
fn navigate_failed_select_command_falls_back() {
    let intent = Intent::Navigate(Direction::Down);
    let (s1, _) = resolver_step(intent, start_state(), ResolveEvent::Window(kitty_window(4321)));
    let procs = vec![entry(4321, 1, "kitty"), entry(5000, 4321, "tmux")];
    let (s2, _) = resolver_step(
        intent,
        s1,
        ResolveEvent::Walk { procs, tty: Some(b("/dev/pts/3")) },
    );
    let clients = vec![client("work", "/dev/pts/3")];
    let (s3, _) = resolver_step(intent, s2, ResolveEvent::Clients(Some(clients)));
    let (s4, a4) = resolver_step(
        intent,
        s3,
        ResolveEvent::PaneMove { select_ok: false, before: Some(b("%1")), after: None },
    );
    assert!(matches!(s4, ResolveState::Done { inner_handled: false }));
    assert!(matches!(a4, ResolveAction::DispatchMove { token: b'd' }));
}

fn close_up_to_session_info(session: &str) -> ResolveState {
    let intent = Intent::Close;
    let (s1, _) = resolver_step(intent, start_state(), ResolveEvent::Window(kitty_window(4321)));
    let procs = vec![entry(4321, 1, "kitty"), entry(5000, 4321, "tmux")];
    let (s2, _) = resolver_step(
        intent,
        s1,
        ResolveEvent::Walk { procs, tty: Some(b("/dev/pts/3")) },
    );
    let clients = vec![client(session, "/dev/pts/3")];
    let (s3, a3) = resolver_step(intent, s2, ResolveEvent::Clients(Some(clients)));
    match a3 {
        ResolveAction::QuerySessionInfo { session: q } => {
            assert_eq!(q, b(session));
        },
        _ => panic!("expected a session-info query"),
    }
    s3
}

#[test]
fn close_on_named_session_detaches_only() {
    let s = close_up_to_session_info("work");
    let (s4, a4) = resolver_step(
        Intent::Close,
        s,
        ResolveEvent::Info(Some(info(true, 1, 1))),
    );
    assert!(matches!(s4, ResolveState::Done { inner_handled: true }));
    match a4 {
        ResolveAction::DetachClient { session } => assert_eq!(session, b("work")),
        _ => panic!("expected a detach, not a kill or a dispatch"),
    }
}

#[test]
fn close_on_last_pane_of_last_window_defers_to_wm() {
    let s = close_up_to_session_info("3");
    let (s4, a4) = resolver_step(
        Intent::Close,
        s,
        ResolveEvent::Info(Some(info(false, 1, 1))),
    );
    assert!(matches!(s4, ResolveState::Done { inner_handled: false }));
    assert!(matches!(a4, ResolveAction::DispatchKill));
}

#[test]
fn close_otherwise_kills_active_pane() {
    let s = close_up_to_session_info("3");
    let (s4, a4) = resolver_step(
        Intent::Close,
        s,
        ResolveEvent::Info(Some(info(false, 2, 1))),
    );
    assert!(matches!(s4, ResolveState::AwaitKillResult));
    match a4 {
        ResolveAction::KillPane { session } => assert_eq!(session, b("3")),
        _ => panic!("expected a pane kill"),
    }
    let (s5, a5) = resolver_step(Intent::Close, s4, ResolveEvent::KillResult(true));
    assert!(matches!(s5, ResolveState::Done { inner_handled: true }));
    assert!(matches!(a5, ResolveAction::Finished));
}

#[test]
fn close_falls_back_to_wm_when_pane_kill_fails() {
    let s = close_up_to_session_info("3");
    let (s4, _) = resolver_step(
        Intent::Close,
        s,
        ResolveEvent::Info(Some(info(false, 1, 2))),
    );
    let (s5, a5) = resolver_step(Intent::Close, s4, ResolveEvent::KillResult(false));
    assert!(matches!(s5, ResolveState::Done { inner_handled: false }));
    assert!(matches!(a5, ResolveAction::DispatchKill));
}

#[test]
fn close_with_unreadable_session_info_falls_back() {
    let s = close_up_to_session_info("work");
    let (s4, a4) = resolver_step(Intent::Close, s, ResolveEvent::Info(None));
    assert!(matches!(s4, ResolveState::Done { inner_handled: false }));
    assert!(matches!(a4, ResolveAction::DispatchKill));
}

#[test]
fn close_with_unavailable_wm_dispatches_killactive() {
    let (s1, a1) = resolver_step(Intent::Close, start_state(), ResolveEvent::Window(None));
    assert!(matches!(s1, ResolveState::Done { inner_handled: false }));
    assert!(matches!(a1, ResolveAction::DispatchKill));
}

#[test]
fn close_decision_table() {
    assert_eq!(close_action(&info(true, 1, 1)), CloseAction::Detach);
    assert_eq!(close_action(&info(true, 5, 9)), CloseAction::Detach);
    assert_eq!(close_action(&info(false, 1, 1)), CloseAction::DeferToWm);
    assert_eq!(close_action(&info(false, 1, 2)), CloseAction::KillPane);
    assert_eq!(close_action(&info(false, 2, 1)), CloseAction::KillPane);
    assert_eq!(close_action(&info(false, 3, 4)), CloseAction::KillPane);
}

#[test]
fn numeric_default_names_are_unnamed() {
    assert!(!session_is_named(&b("0")));
    assert!(!session_is_named(&b("12")));
    assert!(session_is_named(&b("work")));
    assert!(session_is_named(&b("12a")));
    assert!(session_is_named(&b("")));
}

#[test]
fn parses_active_window_class_and_pid() {
    let resp = b("Window 55b7 -> sh:\n\tclass: kitty\n\tpid: 4321\n");
    let w = parse_active_window(&resp).expect("window should parse");
    assert_eq!(w.class, b("kitty"));
    assert_eq!(w.pid, 4321);
    assert!(parse_active_window(&b("no fields here")).is_none());
    assert!(parse_active_window(&b("class: kitty\npid: eleven\n")).is_none());
}

#[test]
fn parses_session_info_counts_and_namedness() {
    let i = parse_session_info(&b("work"), &b("2 3\n")).expect("info should parse");
    assert_eq!(i, info(true, 2, 3));
    let j = parse_session_info(&b("7"), &b("1 1")).expect("info should parse");
    assert_eq!(j, info(false, 1, 1));
    assert!(parse_session_info(&b("work"), &b("2")).is_none());
    assert!(parse_session_info(&b("work"), &b("two three")).is_none());
}

#[test]
fn extracts_pid_field_alone() {
    let resp = b("Window:\n\tclass: kitty\n\tpid: 4321\n");
    assert_eq!(active_window_pid(&resp), Some(4321));
    assert_eq!(active_window_pid(&b("class: kitty\n")), None);
    assert_eq!(active_window_pid(&b("pid: many\n")), None);
}

#[test]
fn emulator_class_check_uses_line_parse() {
    assert!(response_class_is_kitty(&b("Window:\n\tclass: kitty\n\tpid: 1\n")));
    assert!(!response_class_is_kitty(&b("Window:\n\tclass: firefox\n")));
    assert!(!response_class_is_kitty(&b("xclass: kitty\n")));
    assert!(!response_class_is_kitty(&b("title: class: kitty echoed\n")));
    assert!(!response_class_is_kitty(&b("class: kittyfoo\n")));
    assert!(response_class_is_kitty(&b("  class:   kitty  \n")));
}

#[test]
fn emulator_layer_handles_only_complete_success() {
    assert!(emulator_nav_handled(true, true, Some(true)));
    assert!(!emulator_nav_handled(false, true, Some(true)));
    assert!(!emulator_nav_handled(true, false, Some(true)));
    assert!(!emulator_nav_handled(true, true, Some(false)));
    assert!(!emulator_nav_handled(true, true, None));
}

#[test]
fn wire_commands_are_exact() {
    assert_eq!(activewindow_command(), b("activewindow"));
    assert_eq!(movefocus_command(b'l'), b("dispatch movefocus l"));
    assert_eq!(movefocus_command(b'u'), b("dispatch movefocus u"));
    assert_eq!(killactive_command(), b("dispatch killactive"));
}
