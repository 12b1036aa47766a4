//! The intent resolver and its fallback chain.
//!
//! A navigation or close intent is resolved by a state machine with one
//! state per outstanding observation: the active window, the process-tree
//! walk, the multiplexer's client and session listings, and the outcome of
//! the attempted inner action.  The unverified shell around the library
//! performs each requested action and feeds the observation back in as an
//! event; the machine decides everything.  Every discovery failure
//! degrades to the outermost layer — the window manager's own dispatch —
//! and exactly one terminating action ends each run.

use vstd::prelude::*;

use crate::bytes::bytes_eq;
use crate::bytes::copy_bytes;
use crate::bytes::eq_slice;
use crate::direction::Direction;
use crate::direction::mux_token;
use crate::direction::spec_mux_token;
use crate::direction::spec_wm_token;
use crate::direction::wm_token;
use crate::matcher::ClientRecord;
use crate::matcher::ClientView;
use crate::matcher::SessionStamp;
use crate::matcher::SessionStampView;
use crate::matcher::find_session_for_terminal;
use crate::matcher::most_recent_session;
use crate::matcher::spec_find_session;
use crate::matcher::spec_most_recent;
use crate::parse::all_digits;
use crate::parse::field_value;
use crate::parse::parse_u32;
use crate::parse::spec_field_value;
use crate::parse::spec_parse_u32;
use crate::parse::spec_tokens;
use crate::parse::split_tokens;
use crate::proctree::ProcEntry;
use crate::proctree::ProcView;
use crate::proctree::subtree_contains_mux;
use crate::proctree::subtree_has_mux;

verus! {

/// The active window as the window manager reports it: class and process
/// id.
pub struct WindowInfo {
    pub class: Vec<u8>,
    pub pid: u32,
}

/// Mathematical model of the active window.
pub struct WindowView {
    pub class: Seq<u8>,
    pub pid: u32,
}

impl View for WindowInfo {
    type V = WindowView;

    open spec fn view(&self) -> WindowView {
        WindowView { class: self.class@, pid: self.pid }
    }
}

impl DeepView for WindowInfo {
    type V = WindowView;

    open spec fn deep_view(&self) -> WindowView {
        self.view()
    }
}

/// What is known of a multiplexer session when a close intent reaches it:
/// whether its name is user-assigned, how many windows it has, and how
/// many panes its current window has.
#[derive(Clone, Copy, PartialEq, Eq, Structural, Debug)]
pub struct SessionInfo {
    pub is_named: bool,
    pub window_count: u32,
    pub pane_count: u32,
}

/// What a close intent does at the multiplexer layer.
#[derive(Clone, Copy, PartialEq, Eq, Structural, Debug)]
pub enum CloseAction {
    /// Detach the client; the session survives.
    Detach,
    /// Do nothing here: let the window manager close the terminal window,
    /// which the multiplexer observes as its terminal closing.
    DeferToWm,
    /// Kill the active pane of the session.
    KillPane,
}

/// The close decision table: a named session is detached; the last pane
/// of the last window is left to the window manager; otherwise the active
/// pane is killed.
pub open spec fn spec_close_action(info: SessionInfo) -> CloseAction {
    if info.is_named {
        CloseAction::Detach
    } else if info.window_count == 1 && info.pane_count == 1 {
        CloseAction::DeferToWm
    } else {
        CloseAction::KillPane
    }
}

/// The close decision table, executable form.
pub fn close_action(info: &SessionInfo) -> (r: CloseAction)
    ensures
        r == spec_close_action(*info),
{
    if info.is_named {
        CloseAction::Detach
    } else if info.window_count == 1 && info.pane_count == 1 {
        CloseAction::DeferToWm
    } else {
        CloseAction::KillPane
    }
}

/// The multiplexer's auto-generated default session names are plain
/// decimal numbers; any other non-empty shape is user-assigned.
pub open spec fn spec_is_default_name(name: Seq<u8>) -> bool {
    name.len() > 0 && all_digits(name)
}

/// Whether a session name is user-assigned (not the numeric default).
pub fn session_is_named(name: &Vec<u8>) -> (r: bool)
    ensures
        r == !spec_is_default_name(name@),
{
    if name.len() == 0 {
        return true;
    }
    let mut i: usize = 0;
    while i < name.len()
        invariant
            i <= name@.len(),
            forall|k: int| 0 <= k < i ==> crate::parse::is_digit(#[trigger] name@[k]),
        decreases name@.len() - i,
    {
        let b = name[i];
        if b < 48 || b > 57 {
            return true;
        }
        i = i + 1;
    }
    false
}

/// The eligible terminal classes: the emulator this tool drives, `kitty`.
pub open spec fn spec_terminal_class(class: Seq<u8>) -> bool {
    class == seq![107u8, 105u8, 116u8, 116u8, 121u8]
}

/// Whether a window class is in the eligible terminal-class set.
pub fn is_terminal_class(class: &Vec<u8>) -> (r: bool)
    ensures
        r == spec_terminal_class(class@),
{
    let kitty: [u8; 5] = [107, 105, 116, 116, 121];
    proof {
        assert(kitty@ =~= seq![107u8, 105u8, 116u8, 116u8, 121u8]);
    }
    eq_slice(class, kitty.as_slice())
}

/// The label of the class field in an active-window response: `class: `.
pub open spec fn spec_class_label() -> Seq<u8> {
    seq![99u8, 108u8, 97u8, 115u8, 115u8, 58u8, 32u8]
}

/// The label of the pid field in an active-window response: `pid: `.
pub open spec fn spec_pid_label() -> Seq<u8> {
    seq![112u8, 105u8, 100u8, 58u8, 32u8]
}

/// The active window parsed from a status response: the `class:` field
/// and the `pid:` field, which must be a decimal process id.
pub open spec fn spec_active_window(resp: Seq<u8>) -> Option<WindowView> {
    match spec_field_value(resp, spec_class_label()) {
        Some(class) => match spec_field_value(resp, spec_pid_label()) {
            Some(p) => match spec_parse_u32(p) {
                Some(pid) => Some(WindowView { class, pid }),
                None => None,
            },
            None => None,
        },
        None => None,
    }
}

fn class_label() -> (r: Vec<u8>)
    ensures
        r@ == spec_class_label(),
{
    let mut v: Vec<u8> = Vec::new();
    v.push(99u8);
    v.push(108u8);
    v.push(97u8);
    v.push(115u8);
    v.push(115u8);
    v.push(58u8);
    v.push(32u8);
    proof {
        assert(v@ =~= spec_class_label());
    }
    v
}

fn pid_label() -> (r: Vec<u8>)
    ensures
        r@ == spec_pid_label(),
{
    let mut v: Vec<u8> = Vec::new();
    v.push(112u8);
    v.push(105u8);
    v.push(100u8);
    v.push(58u8);
    v.push(32u8);
    proof {
        assert(v@ =~= spec_pid_label());
    }
    v
}

/// Parses an active-window status response, exactly as
/// `spec_active_window` describes.  A missing field or a malformed pid
/// yields nothing: the caller treats that as the window manager being
/// unavailable and falls back.
pub fn parse_active_window(resp: &Vec<u8>) -> (r: Option<WindowInfo>)
    ensures
        r.deep_view() == spec_active_window(resp@),
{
    let cl = class_label();
    let pl = pid_label();
    match field_value(resp, &cl) {
        Some(class) => {
            proof {
                assert(class.deep_view() =~= class@);
            }
            match field_value(resp, &pl) {
                Some(p) => {
                    proof {
                        assert(p.deep_view() =~= p@);
                    }
                    match parse_u32(&p) {
                        Some(pid) => Some(WindowInfo { class, pid }),
                        None => None,
                    }
                },
                None => None,
            }
        },
        None => None,
    }
}

/// The pid field alone, for callers that need nothing else.
pub fn active_window_pid(resp: &Vec<u8>) -> (r: Option<u32>)
    ensures
        r == (match spec_field_value(resp@, spec_pid_label()) {
            Some(p) => spec_parse_u32(p),
            None => None,
        }),
{
    let pl = pid_label();
    match field_value(resp, &pl) {
        Some(p) => {
            proof {
                assert(p.deep_view() =~= p@);
            }
            parse_u32(&p)
        },
        None => None,
    }
}

/// Whether an active-window response reports the emulator's class: under
/// the line-oriented parse, the `class:` field is present and its value is
/// `kitty`.  The emulator-layer navigation uses this check; a window
/// whose title merely mentions the class name does not pass it.
pub fn response_class_is_kitty(resp: &Vec<u8>) -> (r: bool)
    ensures
        r == (match spec_field_value(resp@, spec_class_label()) {
            Some(c) => spec_terminal_class(c),
            None => false,
        }),
{
    let cl = class_label();
    match field_value(resp, &cl) {
        Some(c) => {
            proof {
                assert(c.deep_view() =~= c@);
            }
            is_terminal_class(&c)
        },
        None => false,
    }
}

/// The emulator layer handles a navigation exactly when the active window
/// is the emulator's, its control socket exists, and the focus-neighbor
/// command reported success; in every other case the caller dispatches
/// the window-manager movement instead.
pub fn emulator_nav_handled(emulator_active: bool, socket_exists: bool, focus_status: Option<
    bool,
>) -> (r: bool)
    ensures
        r == (emulator_active && socket_exists && focus_status == Some(true)),
{
    emulator_active && socket_exists && match focus_status {
        Some(ok) => ok,
        None => false,
    }
}

/// Session facts parsed from a `windows panes` listing line, joined with
/// the namedness of the session's own name.
pub open spec fn spec_session_info(name: Seq<u8>, out: Seq<u8>) -> Option<SessionInfo> {
    let t = spec_tokens(out);
    if t.len() >= 2 {
        match spec_parse_u32(t[0]) {
            Some(w) => match spec_parse_u32(t[1]) {
                Some(p) => Some(
                    SessionInfo {
                        is_named: !spec_is_default_name(name),
                        window_count: w,
                        pane_count: p,
                    },
                ),
                None => None,
            },
            None => None,
        }
    } else {
        None
    }
}

/// Parses a session's window and pane counts and decides namedness, as
/// `spec_session_info` describes.
pub fn parse_session_info(name: &Vec<u8>, out: &Vec<u8>) -> (r: Option<SessionInfo>)
    ensures
        r == spec_session_info(name@, out@),
{
    let tokens = split_tokens(out);
    let ghost tdv = tokens.deep_view();
    if tokens.len() < 2 {
        return None;
    }
    proof {
        assert(tdv[0] == tokens@[0].deep_view());
        assert(tokens@[0].deep_view() =~= tokens@[0]@);
        assert(tdv[1] == tokens@[1].deep_view());
        assert(tokens@[1].deep_view() =~= tokens@[1]@);
    }
    match parse_u32(&tokens[0]) {
        Some(w) => match parse_u32(&tokens[1]) {
            Some(p) => Some(
                SessionInfo { is_named: session_is_named(name), window_count: w, pane_count: p },
            ),
            None => None,
        },
        None => None,
    }
}

/// The query that asks the window manager for its active window.
pub open spec fn spec_activewindow_command() -> Seq<u8> {
    seq![97u8, 99u8, 116u8, 105u8, 118u8, 101u8, 119u8, 105u8, 110u8, 100u8, 111u8, 119u8]
}

/// The wire form of the active-window query: `activewindow`.
pub fn activewindow_command() -> (r: Vec<u8>)
    ensures
        r@ == spec_activewindow_command(),
{
    let mut v: Vec<u8> = Vec::new();
    v.push(97u8);
    v.push(99u8);
    v.push(116u8);
    v.push(105u8);
    v.push(118u8);
    v.push(101u8);
    v.push(119u8);
    v.push(105u8);
    v.push(110u8);
    v.push(100u8);
    v.push(111u8);
    v.push(119u8);
    proof {
        assert(v@ =~= spec_activewindow_command());
    }
    v
}

/// The dispatch that moves window-manager focus: `dispatch movefocus `
/// followed by the direction's movement token.
pub open spec fn spec_movefocus_command(token: u8) -> Seq<u8> {
    seq![
        100u8,
        105u8,
        115u8,
        112u8,
        97u8,
        116u8,
        99u8,
        104u8,
        32u8,
        109u8,
        111u8,
        118u8,
        101u8,
        102u8,
        111u8,
        99u8,
        117u8,
        115u8,
        32u8,
    ].push(token)
}

/// The wire form of the focus-movement dispatch.
pub fn movefocus_command(token: u8) -> (r: Vec<u8>)
    ensures
        r@ == spec_movefocus_command(token),
{
    let mut v: Vec<u8> = Vec::new();
    v.push(100u8);
    v.push(105u8);
    v.push(115u8);
    v.push(112u8);
    v.push(97u8);
    v.push(116u8);
    v.push(99u8);
    v.push(104u8);
    v.push(32u8);
    v.push(109u8);
    v.push(111u8);
    v.push(118u8);
    v.push(101u8);
    v.push(102u8);
    v.push(111u8);
    v.push(99u8);
    v.push(117u8);
    v.push(115u8);
    v.push(32u8);
    v.push(token);
    proof {
        assert(v@ =~= spec_movefocus_command(token));
    }
    v
}

/// The dispatch that closes the active window: `dispatch killactive`.
pub open spec fn spec_killactive_command() -> Seq<u8> {
    seq![
        100u8,
        105u8,
        115u8,
        112u8,
        97u8,
        116u8,
        99u8,
        104u8,
        32u8,
        107u8,
        105u8,
        108u8,
        108u8,
        97u8,
        99u8,
        116u8,
        105u8,
        118u8,
        101u8,
    ]
}

/// The wire form of the close dispatch.
pub fn killactive_command() -> (r: Vec<u8>)
    ensures
        r@ == spec_killactive_command(),
{
    let mut v: Vec<u8> = Vec::new();
    v.push(100u8);
    v.push(105u8);
    v.push(115u8);
    v.push(112u8);
    v.push(97u8);
    v.push(116u8);
    v.push(99u8);
    v.push(104u8);
    v.push(32u8);
    v.push(107u8);
    v.push(105u8);
    v.push(108u8);
    v.push(108u8);
    v.push(97u8);
    v.push(99u8);
    v.push(116u8);
    v.push(105u8);
    v.push(118u8);
    v.push(101u8);
    proof {
        assert(v@ =~= spec_killactive_command());
    }
    v
}

/// The intent a run resolves: move focus in a direction, or close.
#[derive(Clone, Copy, PartialEq, Eq, Structural, Debug)]
pub enum Intent {
    Navigate(Direction),
    Close,
}

/// The machine's states: `AwaitWindow` is the start; each `Await` state
/// names the observation the shell must feed next; `Done` records whether
/// the inner (multiplexer) layer handled the intent.
pub enum ResolveState {
    AwaitWindow,
    AwaitWalk { pid: u32 },
    AwaitClients { tty: Vec<u8> },
    AwaitSessions,
    AwaitPaneMove,
    AwaitSessionInfo { session: Vec<u8> },
    AwaitKillResult,
    Done { inner_handled: bool },
}

/// Mathematical model of a machine state.
pub enum StateView {
    AwaitWindow,
    AwaitWalk { pid: u32 },
    AwaitClients { tty: Seq<u8> },
    AwaitSessions,
    AwaitPaneMove,
    AwaitSessionInfo { session: Seq<u8> },
    AwaitKillResult,
    Done { inner_handled: bool },
}

impl View for ResolveState {
    type V = StateView;

    open spec fn view(&self) -> StateView {
        match self {
            ResolveState::AwaitWindow => StateView::AwaitWindow,
            ResolveState::AwaitWalk { pid } => StateView::AwaitWalk { pid: *pid },
            ResolveState::AwaitClients { tty } => StateView::AwaitClients { tty: tty@ },
            ResolveState::AwaitSessions => StateView::AwaitSessions,
            ResolveState::AwaitPaneMove => StateView::AwaitPaneMove,
            ResolveState::AwaitSessionInfo { session } => StateView::AwaitSessionInfo {
                session: session@,
            },
            ResolveState::AwaitKillResult => StateView::AwaitKillResult,
            ResolveState::Done { inner_handled } => StateView::Done {
                inner_handled: *inner_handled,
            },
        }
    }
}

/// The observations the shell feeds back, one per awaiting state.  `None`
/// anywhere means the source was unavailable; the machine then degrades
/// outward rather than failing.
pub enum ResolveEvent {
    /// The active window, or nothing when the window manager is
    /// unreachable or its response is malformed.
    Window(Option<WindowInfo>),
    /// A snapshot of the process table, and the window process's
    /// controlling-terminal device, if one could be read.
    Walk { procs: Vec<ProcEntry>, tty: Option<Vec<u8>> },
    /// The parsed client listing, or nothing when the listing command
    /// failed.
    Clients(Option<Vec<ClientRecord>>),
    /// The parsed session listing, or nothing when the listing command
    /// failed.
    Sessions(Option<Vec<SessionStamp>>),
    /// Whether the pane-select command succeeded, and the pane id read
    /// before and after it.
    PaneMove { select_ok: bool, before: Option<Vec<u8>>, after: Option<Vec<u8>> },
    /// The session's close-relevant facts, or nothing when they could not
    /// be read.
    Info(Option<SessionInfo>),
    /// Whether the pane-kill command succeeded.
    KillResult(bool),
}

/// Mathematical model of an observation.
pub enum EventView {
    Window(Option<WindowView>),
    Walk { procs: Seq<ProcView>, tty: Option<Seq<u8>> },
    Clients(Option<Seq<ClientView>>),
    Sessions(Option<Seq<SessionStampView>>),
    PaneMove { select_ok: bool, before: Option<Seq<u8>>, after: Option<Seq<u8>> },
    Info(Option<SessionInfo>),
    KillResult(bool),
}

impl View for ResolveEvent {
    type V = EventView;

    open spec fn view(&self) -> EventView {
        match self {
            ResolveEvent::Window(w) => EventView::Window(w.deep_view()),
            ResolveEvent::Walk { procs, tty } => EventView::Walk {
                procs: procs.deep_view(),
                tty: tty.deep_view(),
            },
            ResolveEvent::Clients(c) => EventView::Clients(c.deep_view()),
            ResolveEvent::Sessions(s) => EventView::Sessions(s.deep_view()),
            ResolveEvent::PaneMove { select_ok, before, after } => EventView::PaneMove {
                select_ok: *select_ok,
                before: before.deep_view(),
                after: after.deep_view(),
            },
            ResolveEvent::Info(i) => EventView::Info(*i),
            ResolveEvent::KillResult(ok) => EventView::KillResult(*ok),
        }
    }
}

/// The actions the machine asks the shell to perform.  Query actions are
/// read-only; `SelectPane`, `KillPane`, `DetachClient`, `DispatchMove` and
/// `DispatchKill` commit; `Finished` ends a run that the inner layer
/// already handled.
pub enum ResolveAction {
    QueryWindow,
    WalkTree { pid: u32 },
    ListClients,
    ListSessions,
    SelectPane { session: Vec<u8>, token: u8 },
    QuerySessionInfo { session: Vec<u8> },
    KillPane { session: Vec<u8> },
    DetachClient { session: Vec<u8> },
    DispatchMove { token: u8 },
    DispatchKill,
    Finished,
}

/// Mathematical model of an action.
pub enum ActionView {
    QueryWindow,
    WalkTree { pid: u32 },
    ListClients,
    ListSessions,
    SelectPane { session: Seq<u8>, token: u8 },
    QuerySessionInfo { session: Seq<u8> },
    KillPane { session: Seq<u8> },
    DetachClient { session: Seq<u8> },
    DispatchMove { token: u8 },
    DispatchKill,
    Finished,
}

impl View for ResolveAction {
    type V = ActionView;

    open spec fn view(&self) -> ActionView {
        match self {
            ResolveAction::QueryWindow => ActionView::QueryWindow,
            ResolveAction::WalkTree { pid } => ActionView::WalkTree { pid: *pid },
            ResolveAction::ListClients => ActionView::ListClients,
            ResolveAction::ListSessions => ActionView::ListSessions,
            ResolveAction::SelectPane { session, token } => ActionView::SelectPane {
                session: session@,
                token: *token,
            },
            ResolveAction::QuerySessionInfo { session } => ActionView::QuerySessionInfo {
                session: session@,
            },
            ResolveAction::KillPane { session } => ActionView::KillPane { session: session@ },
            ResolveAction::DetachClient { session } => ActionView::DetachClient {
                session: session@,
            },
            ResolveAction::DispatchMove { token } => ActionView::DispatchMove { token: *token },
            ResolveAction::DispatchKill => ActionView::DispatchKill,
            ResolveAction::Finished => ActionView::Finished,
        }
    }
}

/// The outermost fallback: the window manager dispatches the movement
/// token for a navigation, or `killactive` for a close.
pub open spec fn spec_outer_done(intent: Intent) -> (StateView, ActionView) {
    match intent {
        Intent::Navigate(d) => (
            StateView::Done { inner_handled: false },
            ActionView::DispatchMove { token: spec_wm_token(d) },
        ),
        Intent::Close => (StateView::Done { inner_handled: false }, ActionView::DispatchKill),
    }
}

/// Once a session is resolved, a navigation tries the directional
/// pane-select; a close first asks for the session's facts.
pub open spec fn spec_inner_target(intent: Intent, session: Seq<u8>) -> (StateView, ActionView) {
    match intent {
        Intent::Navigate(d) => (
            StateView::AwaitPaneMove,
            ActionView::SelectPane { session, token: spec_mux_token(d) },
        ),
        Intent::Close => (
            StateView::AwaitSessionInfo { session },
            ActionView::QuerySessionInfo { session },
        ),
    }
}

/// Which observation a state awaits; stepping is defined only on these
/// pairs, and only before the machine is done.
pub open spec fn step_enabled(intent: Intent, s: StateView, e: EventView) -> bool {
    match (s, e) {
        (StateView::AwaitWindow, EventView::Window(_)) => true,
        (StateView::AwaitWalk { .. }, EventView::Walk { .. }) => true,
        (StateView::AwaitClients { .. }, EventView::Clients(_)) => true,
        (StateView::AwaitSessions, EventView::Sessions(_)) => true,
        (StateView::AwaitPaneMove, EventView::PaneMove { .. }) => intent is Navigate,
        (StateView::AwaitSessionInfo { .. }, EventView::Info(_)) => intent is Close,
        (StateView::AwaitKillResult, EventView::KillResult(_)) => intent is Close,
        _ => false,
    }
}

/// The machine's transition function.  Every branch either advances to
/// the next observation or ends the run; every unavailable or
/// inapplicable observation degrades to the outer fallback.
pub open spec fn spec_step(intent: Intent, s: StateView, e: EventView) -> (StateView, ActionView) {
    match (s, e) {
        (StateView::AwaitWindow, EventView::Window(w)) => match w {
            Some(wi) => if spec_terminal_class(wi.class) {
                (StateView::AwaitWalk { pid: wi.pid }, ActionView::WalkTree { pid: wi.pid })
            } else {
                spec_outer_done(intent)
            },
            None => spec_outer_done(intent),
        },
        (StateView::AwaitWalk { pid }, EventView::Walk { procs, tty }) => {
            if subtree_has_mux(procs, pid) {
                match tty {
                    Some(t) => (StateView::AwaitClients { tty: t }, ActionView::ListClients),
                    None => spec_outer_done(intent),
                }
            } else {
                spec_outer_done(intent)
            }
        },
        (StateView::AwaitClients { tty }, EventView::Clients(c)) => match c {
            Some(clients) => match spec_find_session(tty, clients) {
                Some(session) => spec_inner_target(intent, session),
                None => (StateView::AwaitSessions, ActionView::ListSessions),
            },
            None => spec_outer_done(intent),
        },
        (StateView::AwaitSessions, EventView::Sessions(sl)) => match sl {
            Some(sessions) => match spec_most_recent(sessions) {
                Some(session) => spec_inner_target(intent, session),
                None => spec_outer_done(intent),
            },
            None => spec_outer_done(intent),
        },
        (StateView::AwaitPaneMove, EventView::PaneMove { select_ok, before, after }) => {
            if select_ok && before != after {
                (StateView::Done { inner_handled: true }, ActionView::Finished)
            } else {
                spec_outer_done(intent)
            }
        },
        (StateView::AwaitSessionInfo { session }, EventView::Info(oi)) => match oi {
            Some(info) => match spec_close_action(info) {
                CloseAction::Detach => (
                    StateView::Done { inner_handled: true },
                    ActionView::DetachClient { session },
                ),
                CloseAction::DeferToWm => (
                    StateView::Done { inner_handled: false },
                    ActionView::DispatchKill,
                ),
                CloseAction::KillPane => (
                    StateView::AwaitKillResult,
                    ActionView::KillPane { session },
                ),
            },
            None => spec_outer_done(intent),
        },
        (StateView::AwaitKillResult, EventView::KillResult(ok)) => {
            if ok {
                (StateView::Done { inner_handled: true }, ActionView::Finished)
            } else {
                spec_outer_done(intent)
            }
        },
        _ => (s, ActionView::Finished),
    }
}

fn outer_transition(intent: Intent) -> (r: (ResolveState, ResolveAction))
    ensures
        (r.0@, r.1@) == spec_outer_done(intent),
{
    match intent {
        Intent::Navigate(d) => (
            ResolveState::Done { inner_handled: false },
            ResolveAction::DispatchMove { token: wm_token(d) },
        ),
        Intent::Close => (ResolveState::Done { inner_handled: false }, ResolveAction::DispatchKill),
    }
}

fn inner_transition(intent: Intent, session: Vec<u8>) -> (r: (ResolveState, ResolveAction))
    ensures
        (r.0@, r.1@) == spec_inner_target(intent, session@),
{
    match intent {
        Intent::Navigate(d) => (
            ResolveState::AwaitPaneMove,
            ResolveAction::SelectPane { session, token: mux_token(d) },
        ),
        Intent::Close => {
            let copy = copy_bytes(&session);
            (
                ResolveState::AwaitSessionInfo { session: copy },
                ResolveAction::QuerySessionInfo { session },
            )
        },
    }
}

fn opt_bytes_eq(a: &Option<Vec<u8>>, b: &Option<Vec<u8>>) -> (r: bool)
    ensures
        r == (a.deep_view() == b.deep_view()),
{
    match (a, b) {
        (Option::None, Option::None) => true,
        (Option::Some(x), Option::Some(y)) => {
            proof {
                assert(x.deep_view() =~= x@);
                assert(y.deep_view() =~= y@);
            }
            bytes_eq(x, y)
        },
        _ => false,
    }
}

/// One transition of the resolver: consumes the state and the awaited
/// observation, returns the next state and the action the shell must
/// perform, exactly as `spec_step` describes.
pub fn resolver_step(intent: Intent, state: ResolveState, event: ResolveEvent) -> (r: (
    ResolveState,
    ResolveAction,
))
    requires
        step_enabled(intent, state@, event@),
    ensures
        (r.0@, r.1@) == spec_step(intent, state@, event@),
{
    match (state, event) {
        (ResolveState::AwaitWindow, ResolveEvent::Window(w)) => match w {
            Some(wi) => {
                proof {
                    assert(w.deep_view() == Some(wi@));
                }
                if is_terminal_class(&wi.class) {
                    (
                        ResolveState::AwaitWalk { pid: wi.pid },
                        ResolveAction::WalkTree { pid: wi.pid },
                    )
                } else {
                    outer_transition(intent)
                }
            },
            None => outer_transition(intent),
        },
        (ResolveState::AwaitWalk { pid }, ResolveEvent::Walk { procs, tty }) => {
            if subtree_contains_mux(&procs, pid) {
                match tty {
                    Some(t) => {
                        proof {
                            assert(t.deep_view() =~= t@);
                        }
                        (ResolveState::AwaitClients { tty: t }, ResolveAction::ListClients)
                    },
                    None => outer_transition(intent),
                }
            } else {
                outer_transition(intent)
            }
        },
        (ResolveState::AwaitClients { tty }, ResolveEvent::Clients(c)) => match c {
            Some(clients) => {
                proof {
                    assert(c.deep_view() == Some(clients.deep_view()));
                }
                match find_session_for_terminal(&tty, &clients) {
                    Some(session) => {
                        proof {
                            assert(session.deep_view() =~= session@);
                        }
                        inner_transition(intent, session)
                    },
                    None => (ResolveState::AwaitSessions, ResolveAction::ListSessions),
                }
            },
            None => outer_transition(intent),
        },
        (ResolveState::AwaitSessions, ResolveEvent::Sessions(sl)) => match sl {
            Some(sessions) => {
                proof {
                    assert(sl.deep_view() == Some(sessions.deep_view()));
                }
                match most_recent_session(&sessions) {
                    Some(session) => {
                        proof {
                            assert(session.deep_view() =~= session@);
                        }
                        inner_transition(intent, session)
                    },
                    None => outer_transition(intent),
                }
            },
            None => outer_transition(intent),
        },
        (ResolveState::AwaitPaneMove, ResolveEvent::PaneMove { select_ok, before, after }) => {
            if select_ok && !opt_bytes_eq(&before, &after) {
                (ResolveState::Done { inner_handled: true }, ResolveAction::Finished)
            } else {
                outer_transition(intent)
            }
        },
        (ResolveState::AwaitSessionInfo { session }, ResolveEvent::Info(oi)) => match oi {
            Some(info) => {
                if info.is_named {
                    (
                        ResolveState::Done { inner_handled: true },
                        ResolveAction::DetachClient { session },
                    )
                } else if info.window_count == 1 && info.pane_count == 1 {
                    (ResolveState::Done { inner_handled: false }, ResolveAction::DispatchKill)
                } else {
                    (ResolveState::AwaitKillResult, ResolveAction::KillPane { session })
                }
            },
            None => outer_transition(intent),
        },
        (ResolveState::AwaitKillResult, ResolveEvent::KillResult(ok)) => {
            if ok {
                (ResolveState::Done { inner_handled: true }, ResolveAction::Finished)
            } else {
                outer_transition(intent)
            }
        },
        _ => {
            proof {
                assert(false);
            }
            (ResolveState::Done { inner_handled: false }, ResolveAction::Finished)
        },
    }
}

/// The state every run starts in.
pub fn start_state() -> (r: ResolveState)
    ensures
        r@ == StateView::AwaitWindow,
{
    ResolveState::AwaitWindow
}

/// The session a terminal device resolves to: the first matching client,
/// or — only when the client listing succeeded but matched nothing — the
/// most recently attached session.
pub open spec fn spec_resolved_session(
    tty: Seq<u8>,
    clients: Option<Seq<ClientView>>,
    sessions: Option<Seq<SessionStampView>>,
) -> Option<Seq<u8>> {
    match clients {
        Some(cs) => match spec_find_session(tty, cs) {
            Some(s) => Some(s),
            None => match sessions {
                Some(ss) => spec_most_recent(ss),
                None => None,
            },
        },
        None => None,
    }
}

/// One whole navigation run, as a function of the observations: the
/// machine starts at `AwaitWindow` and is fed, for each state it reaches,
/// the corresponding observation.  Returns the final state and the
/// terminating action.
pub open spec fn spec_nav_run(
    d: Direction,
    w: Option<WindowView>,
    procs: Seq<ProcView>,
    tty: Option<Seq<u8>>,
    clients: Option<Seq<ClientView>>,
    sessions: Option<Seq<SessionStampView>>,
    select_ok: bool,
    before: Option<Seq<u8>>,
    after: Option<Seq<u8>>,
) -> (StateView, ActionView) {
    let i = Intent::Navigate(d);
    let step1 = spec_step(i, StateView::AwaitWindow, EventView::Window(w));
    if step1.0 is Done {
        step1
    } else {
        let step2 = spec_step(i, step1.0, EventView::Walk { procs, tty });
        if step2.0 is Done {
            step2
        } else {
            let step3 = spec_step(i, step2.0, EventView::Clients(clients));
            if step3.0 is Done {
                step3
            } else if step3.0 is AwaitSessions {
                let step4 = spec_step(i, step3.0, EventView::Sessions(sessions));
                if step4.0 is Done {
                    step4
                } else {
                    spec_step(i, step4.0, EventView::PaneMove { select_ok, before, after })
                }
            } else {
                spec_step(i, step3.0, EventView::PaneMove { select_ok, before, after })
            }
        }
    }
}

/// The four conditions under which — and only under which — a navigation
/// is handled at the multiplexer layer: an eligible window class, a
/// multiplexer in the window's process subtree together with a readable
/// terminal device, a session resolving for that device, and a pane that
/// actually moved.
pub open spec fn spec_nav_selects_inner(
    w: Option<WindowView>,
    procs: Seq<ProcView>,
    tty: Option<Seq<u8>>,
    clients: Option<Seq<ClientView>>,
    sessions: Option<Seq<SessionStampView>>,
    select_ok: bool,
    before: Option<Seq<u8>>,
    after: Option<Seq<u8>>,
) -> bool {
    match w {
        Some(wi) => spec_terminal_class(wi.class) && subtree_has_mux(procs, wi.pid) && (match tty {
            Some(t) => spec_resolved_session(t, clients, sessions) is Some,
            None => false,
        }) && select_ok && before != after,
        None => false,
    }
}

/// For every direction and every combination of observations, a
/// navigation run ends handled at the multiplexer layer exactly when the
/// four conditions of `spec_nav_selects_inner` hold; in every other case
/// it ends with one window-manager dispatch of the direction's own
/// movement token.
pub proof fn lemma_navigate_inner_iff(
    d: Direction,
    w: Option<WindowView>,
    procs: Seq<ProcView>,
    tty: Option<Seq<u8>>,
    clients: Option<Seq<ClientView>>,
    sessions: Option<Seq<SessionStampView>>,
    select_ok: bool,
    before: Option<Seq<u8>>,
    after: Option<Seq<u8>>,
)
    ensures
        ({
            let run = spec_nav_run(d, w, procs, tty, clients, sessions, select_ok, before, after);
            let inner = spec_nav_selects_inner(
                w,
                procs,
                tty,
                clients,
                sessions,
                select_ok,
                before,
                after,
            );
            &&& run.0 == StateView::Done { inner_handled: inner }
            &&& inner ==> run.1 == ActionView::Finished
            &&& !inner ==> run.1 == ActionView::DispatchMove { token: spec_wm_token(d) }
        }),
{
}

/// One whole close run, as a function of the observations: the machine
/// starts at `AwaitWindow` and is fed, for each state it reaches, the
/// corresponding observation.  Returns the final state and the terminating
/// action.
pub open spec fn spec_close_run(
    w: Option<WindowView>,
    procs: Seq<ProcView>,
    tty: Option<Seq<u8>>,
    clients: Option<Seq<ClientView>>,
    sessions: Option<Seq<SessionStampView>>,
    info: Option<SessionInfo>,
    kill_ok: bool,
) -> (StateView, ActionView) {
    let i = Intent::Close;
    let step1 = spec_step(i, StateView::AwaitWindow, EventView::Window(w));
    if step1.0 is Done {
        step1
    } else {
        let step2 = spec_step(i, step1.0, EventView::Walk { procs, tty });
        if step2.0 is Done {
            step2
        } else {
            let step3 = spec_step(i, step2.0, EventView::Clients(clients));
            let step4 = if step3.0 is AwaitSessions {
                spec_step(i, step3.0, EventView::Sessions(sessions))
            } else {
                step3
            };
            if step4.0 is Done {
                step4
            } else {
                let step5 = spec_step(i, step4.0, EventView::Info(info));
                if step5.0 is Done {
                    step5
                } else {
                    spec_step(i, step5.0, EventView::KillResult(kill_ok))
                }
            }
        }
    }
}

/// The discovery chain of a close run succeeds exactly when the window is
/// an eligible terminal, its subtree holds a multiplexer, its terminal
/// device is known, and a session resolves for that device.
pub open spec fn spec_close_discovers(
    w: Option<WindowView>,
    procs: Seq<ProcView>,
    tty: Option<Seq<u8>>,
    clients: Option<Seq<ClientView>>,
    sessions: Option<Seq<SessionStampView>>,
) -> Option<Seq<u8>> {
    match w {
        Some(wi) => if spec_terminal_class(wi.class) && subtree_has_mux(procs, wi.pid) {
            match tty {
                Some(t) => spec_resolved_session(t, clients, sessions),
                None => None,
            }
        } else {
            None
        },
        None => None,
    }
}

/// For every combination of observations, a close run obeys the decision
/// table end to end: when discovery fails or the session's facts cannot be
/// read, the one terminating action is the window manager's `killactive`;
/// a named session is detached; the last pane of the last window is
/// deferred to the window manager; otherwise the active pane is killed,
/// with `killactive` as the fallback when the kill fails.
pub proof fn lemma_close_run_decision_table(
    w: Option<WindowView>,
    procs: Seq<ProcView>,
    tty: Option<Seq<u8>>,
    clients: Option<Seq<ClientView>>,
    sessions: Option<Seq<SessionStampView>>,
    info: Option<SessionInfo>,
    kill_ok: bool,
)
    ensures
        ({
            let run = spec_close_run(w, procs, tty, clients, sessions, info, kill_ok);
            let found = spec_close_discovers(w, procs, tty, clients, sessions);
            match (found, info) {
                (Some(session), Some(i)) => run == (
                    if i.is_named {
                        (
                            StateView::Done { inner_handled: true },
                            ActionView::DetachClient { session },
                        )
                    } else if i.window_count == 1 && i.pane_count == 1 {
                        (StateView::Done { inner_handled: false }, ActionView::DispatchKill)
                    } else if kill_ok {
                        (StateView::Done { inner_handled: true }, ActionView::Finished)
                    } else {
                        (StateView::Done { inner_handled: false }, ActionView::DispatchKill)
                    }
                ),
                _ => run == (StateView::Done { inner_handled: false }, ActionView::DispatchKill),
            }
        }),
{
}

/// A close on a named session detaches the client — it never kills a
/// pane and never reaches the window manager — whatever the session's
/// window and pane counts.
pub proof fn lemma_close_named_detaches(info: SessionInfo, session: Seq<u8>)
    requires
        info.is_named,
    ensures
        spec_step(
            Intent::Close,
            StateView::AwaitSessionInfo { session },
            EventView::Info(Some(info)),
        ) == (StateView::Done { inner_handled: true }, ActionView::DetachClient { session }),
{
}

/// A close on an unnamed session whose last window holds its last pane is
/// deferred entirely to the window manager's own close.
pub proof fn lemma_close_last_pane_defers(info: SessionInfo, session: Seq<u8>)
    requires
        !info.is_named,
        info.window_count == 1,
        info.pane_count == 1,
    ensures
        spec_step(
            Intent::Close,
            StateView::AwaitSessionInfo { session },
            EventView::Info(Some(info)),
        ) == (StateView::Done { inner_handled: false }, ActionView::DispatchKill),
{
}

/// In every other case a close kills only the active pane of the matched
/// session ...
pub proof fn lemma_close_kills_pane(info: SessionInfo, session: Seq<u8>)
    requires
        !info.is_named,
        !(info.window_count == 1 && info.pane_count == 1),
    ensures
        spec_step(
            Intent::Close,
            StateView::AwaitSessionInfo { session },
            EventView::Info(Some(info)),
        ) == (StateView::AwaitKillResult, ActionView::KillPane { session }),
{
}

/// ... and falls back to the window manager's `killactive` when, and only
/// when, that kill command fails.
pub proof fn lemma_close_kill_fallback(ok: bool)
    ensures
        spec_step(Intent::Close, StateView::AwaitKillResult, EventView::KillResult(ok)) == (
            if ok {
                (StateView::Done { inner_handled: true }, ActionView::Finished)
            } else {
                (StateView::Done { inner_handled: false }, ActionView::DispatchKill)
            }
        ),
{
}

} // verus!


