//! The multiplexer session matcher.
//!
//! The multiplexer reports its attached clients as `session terminal`
//! lines and its sessions as `name last-attached` lines.  Matching takes
//! the active window's terminal device and returns the first client whose
//! terminal denotes the same device — either path may be a suffix of the
//! other, because one side may be reported without a filesystem-root
//! prefix.  When no client matches, the most recently attached session is
//! a best-effort fallback, not a correctness guarantee.

use vstd::prelude::*;

use crate::bytes::copy_bytes;
use crate::bytes::ends_with_bytes;
use crate::bytes::is_suffix_of;
use crate::parse::parse_u64;
use crate::parse::spec_lines;
use crate::parse::spec_parse_u64;
use crate::parse::spec_tokens;
use crate::parse::split_lines;
use crate::parse::split_tokens;

verus! {

/// One attached multiplexer client: its session and its terminal device.
pub struct ClientRecord {
    pub session: Vec<u8>,
    pub tty: Vec<u8>,
}

/// Mathematical model of a client record.
pub struct ClientView {
    pub session: Seq<u8>,
    pub tty: Seq<u8>,
}

impl View for ClientRecord {
    type V = ClientView;

    open spec fn view(&self) -> ClientView {
        ClientView { session: self.session@, tty: self.tty@ }
    }
}

impl DeepView for ClientRecord {
    type V = ClientView;

    open spec fn deep_view(&self) -> ClientView {
        self.view()
    }
}

/// One multiplexer session and the time it was last attached.
pub struct SessionStamp {
    pub name: Vec<u8>,
    pub last_attached: u64,
}

/// Mathematical model of a session stamp.
pub struct SessionStampView {
    pub name: Seq<u8>,
    pub last_attached: u64,
}

impl View for SessionStamp {
    type V = SessionStampView;

    open spec fn view(&self) -> SessionStampView {
        SessionStampView { name: self.name@, last_attached: self.last_attached }
    }
}

impl DeepView for SessionStamp {
    type V = SessionStampView;

    open spec fn deep_view(&self) -> SessionStampView {
        self.view()
    }
}

/// Two device paths denote the same terminal when either is a suffix of
/// the other.
pub open spec fn tty_matches(target: Seq<u8>, client: Seq<u8>) -> bool {
    is_suffix_of(client, target) || is_suffix_of(target, client)
}

/// The session of the first client, in listing order, whose terminal
/// matches the target device.
pub open spec fn spec_find_session(target: Seq<u8>, clients: Seq<ClientView>) -> Option<Seq<u8>>
    decreases clients.len(),
{
    if clients.len() == 0 {
        None
    } else if tty_matches(target, clients[0].tty) {
        Some(clients[0].session)
    } else {
        spec_find_session(target, clients.drop_first())
    }
}

/// A client-listing line parses into a record when it has at least two
/// whitespace-separated tokens: the session, then the terminal.
pub open spec fn client_of_line(line: Seq<u8>) -> Option<ClientView> {
    let t = spec_tokens(line);
    if t.len() >= 2 {
        Some(ClientView { session: t[0], tty: t[1] })
    } else {
        None
    }
}

pub open spec fn spec_client_records(lines: Seq<Seq<u8>>) -> Seq<ClientView>
    decreases lines.len(),
{
    if lines.len() == 0 {
        Seq::empty()
    } else {
        let rest = spec_client_records(lines.drop_first());
        match client_of_line(lines[0]) {
            Some(c) => seq![c] + rest,
            None => rest,
        }
    }
}

/// All client records in a client-listing response, in listing order;
/// malformed lines are skipped.
pub open spec fn spec_parse_clients(out: Seq<u8>) -> Seq<ClientView> {
    spec_client_records(spec_lines(out))
}

/// A session-listing line parses into a stamp when it has at least one
/// token: the name, then an optional decimal last-attached time, which
/// counts as zero when missing or malformed.
pub open spec fn session_of_line(line: Seq<u8>) -> Option<SessionStampView> {
    let t = spec_tokens(line);
    if t.len() >= 1 {
        let stamp = if t.len() >= 2 {
            match spec_parse_u64(t[1]) {
                Some(v) => v,
                None => 0u64,
            }
        } else {
            0u64
        };
        Some(SessionStampView { name: t[0], last_attached: stamp })
    } else {
        None
    }
}

pub open spec fn spec_session_records(lines: Seq<Seq<u8>>) -> Seq<SessionStampView>
    decreases lines.len(),
{
    if lines.len() == 0 {
        Seq::empty()
    } else {
        let rest = spec_session_records(lines.drop_first());
        match session_of_line(lines[0]) {
            Some(s) => seq![s] + rest,
            None => rest,
        }
    }
}

/// All session stamps in a session-listing response, in listing order.
pub open spec fn spec_parse_sessions(out: Seq<u8>) -> Seq<SessionStampView> {
    spec_session_records(spec_lines(out))
}

/// Index of the earliest-listed session with the greatest last-attached
/// time.  A stable descending sort by time puts this session first.
pub open spec fn best_idx(ss: Seq<SessionStampView>) -> int
    decreases ss.len(),
{
    if ss.len() <= 1 {
        0
    } else {
        let b = best_idx(ss.drop_last());
        if ss.last().last_attached > ss[b].last_attached {
            ss.len() - 1
        } else {
            b
        }
    }
}

/// The most recently attached session's name, or nothing when there are
/// no sessions.
pub open spec fn spec_most_recent(ss: Seq<SessionStampView>) -> Option<Seq<u8>> {
    if ss.len() == 0 {
        None
    } else {
        Some(ss[best_idx(ss)].name)
    }
}

/// `best_idx` is in bounds and picks a greatest last-attached time.
pub proof fn lemma_best_idx_is_max(ss: Seq<SessionStampView>)
    requires
        ss.len() > 0,
    ensures
        0 <= best_idx(ss) < ss.len(),
        forall|k: int|
            0 <= k < ss.len() ==> ss[best_idx(ss)].last_attached >= #[trigger] ss[
                k
            ].last_attached,
    decreases ss.len(),
{
    if ss.len() > 1 {
        lemma_best_idx_is_max(ss.drop_last());
        assert(forall|k: int|
            0 <= k < ss.len() - 1 ==> ss.drop_last()[k] == #[trigger] ss[k]);
    }
}

/// Terminal matching succeeds whenever some client's terminal is a suffix
/// of the target device or the target is a suffix of the client's — in
/// particular whenever either is a strict path suffix of the other.
pub proof fn lemma_match_when_suffix(target: Seq<u8>, clients: Seq<ClientView>, i: int)
    requires
        0 <= i < clients.len(),
        tty_matches(target, clients[i].tty),
    ensures
        spec_find_session(target, clients) is Some,
    decreases clients.len(),
{
    if !tty_matches(target, clients[0].tty) {
        lemma_match_when_suffix(target, clients.drop_first(), i - 1);
    }
}

/// When no client's terminal matches, the lookup yields nothing, and the
/// resolver falls back to the most recently attached session.
pub proof fn lemma_no_client_matches(target: Seq<u8>, clients: Seq<ClientView>)
    requires
        forall|k: int| 0 <= k < clients.len() ==> !tty_matches(target, #[trigger] clients[k].tty),
    ensures
        spec_find_session(target, clients) is None,
    decreases clients.len(),
{
    if clients.len() > 0 {
        assert(!tty_matches(target, clients[0].tty));
        assert(forall|k: int|
            0 <= k < clients.drop_first().len() ==> !tty_matches(
                target,
                #[trigger] clients.drop_first()[k].tty,
            ));
        lemma_no_client_matches(target, clients.drop_first());
    }
}

/// Finds the session owning the target terminal device: the first client,
/// in listing order, whose terminal matches it.
pub fn find_session_for_terminal(target: &Vec<u8>, clients: &Vec<ClientRecord>) -> (r: Option<
    Vec<u8>,
>)
    ensures
        r.deep_view() == spec_find_session(target@, clients.deep_view()),
{
    let ghost cdv = clients.deep_view();
    proof {
        assert(cdv.subrange(0, cdv.len() as int) =~= cdv);
    }
    let mut k: usize = 0;
    while k < clients.len()
        invariant
            cdv == clients.deep_view(),
            cdv.len() == clients@.len(),
            k <= cdv.len(),
            spec_find_session(target@, cdv.subrange(k as int, cdv.len() as int))
                == spec_find_session(target@, cdv),
        decreases cdv.len() - k,
    {
        let ghost tail = cdv.subrange(k as int, cdv.len() as int);
        proof {
            assert(tail[0] == cdv[k as int]);
            assert(cdv[k as int] == clients@[k as int].deep_view());
            assert(tail.drop_first() =~= cdv.subrange(k + 1, cdv.len() as int));
        }
        let c = &clients[k];
        if ends_with_bytes(target, &c.tty) || ends_with_bytes(&c.tty, target) {
            let session = copy_bytes(&c.session);
            proof {
                assert(session.deep_view() =~= tail[0].session);
            }
            return Some(session);
        }
        k = k + 1;
    }
    proof {
        assert(cdv.subrange(cdv.len() as int, cdv.len() as int) =~= Seq::<ClientView>::empty());
    }
    None
}

/// Parses a client-listing response, as `spec_parse_clients` describes.
pub fn parse_clients(out: &Vec<u8>) -> (r: Vec<ClientRecord>)
    ensures
        r.deep_view() == spec_parse_clients(out@),
{
    let lines = split_lines(out);
    let ghost ldv = lines.deep_view();
    let mut records: Vec<ClientRecord> = Vec::new();
    proof {
        assert(ldv.subrange(0, ldv.len() as int) =~= ldv);
        assert(records.deep_view() =~~= Seq::<ClientView>::empty());
        assert(records.deep_view() + spec_client_records(ldv) =~~= spec_client_records(ldv));
    }
    let mut k: usize = 0;
    while k < lines.len()
        invariant
            ldv == lines.deep_view(),
            ldv == spec_lines(out@),
            ldv.len() == lines@.len(),
            k <= ldv.len(),
            spec_client_records(ldv) == records.deep_view() + spec_client_records(
                ldv.subrange(k as int, ldv.len() as int),
            ),
        decreases ldv.len() - k,
    {
        let ghost tail = ldv.subrange(k as int, ldv.len() as int);
        proof {
            assert(tail[0] == ldv[k as int]);
            assert(ldv[k as int] == lines@[k as int].deep_view());
            assert(lines@[k as int].deep_view() =~= lines@[k as int]@);
            assert(tail.drop_first() =~= ldv.subrange(k + 1, ldv.len() as int));
        }
        let tokens = split_tokens(&lines[k]);
        let ghost tdv = tokens.deep_view();
        if tokens.len() >= 2 {
            proof {
                assert(tdv[0] == tokens@[0].deep_view());
                assert(tokens@[0].deep_view() =~= tokens@[0]@);
                assert(tdv[1] == tokens@[1].deep_view());
                assert(tokens@[1].deep_view() =~= tokens@[1]@);
            }
            let session = copy_bytes(&tokens[0]);
            let tty = copy_bytes(&tokens[1]);
            let ghost rec_old = records.deep_view();
            records.push(ClientRecord { session, tty });
            proof {
                assert(records.deep_view() =~~= rec_old.push(
                    ClientView { session: tdv[0], tty: tdv[1] },
                ));
                assert(client_of_line(tail[0]) == Some(
                    ClientView { session: tdv[0], tty: tdv[1] },
                ));
                assert(records.deep_view() + spec_client_records(tail.drop_first())
                    =~~= rec_old + (seq![ClientView { session: tdv[0], tty: tdv[1] }]
                    + spec_client_records(tail.drop_first())));
            }
        } else {
            proof {
                assert(client_of_line(tail[0]) is None);
            }
        }
        k = k + 1;
    }
    proof {
        assert(ldv.subrange(ldv.len() as int, ldv.len() as int) =~= Seq::<Seq<u8>>::empty());
        assert(records.deep_view() + Seq::<ClientView>::empty() =~~= records.deep_view());
    }
    records
}

/// Parses a session-listing response, as `spec_parse_sessions` describes.
pub fn parse_sessions(out: &Vec<u8>) -> (r: Vec<SessionStamp>)
    ensures
        r.deep_view() == spec_parse_sessions(out@),
{
    let lines = split_lines(out);
    let ghost ldv = lines.deep_view();
    let mut records: Vec<SessionStamp> = Vec::new();
    proof {
        assert(ldv.subrange(0, ldv.len() as int) =~= ldv);
        assert(records.deep_view() =~~= Seq::<SessionStampView>::empty());
        assert(records.deep_view() + spec_session_records(ldv) =~~= spec_session_records(ldv));
    }
    let mut k: usize = 0;
    while k < lines.len()
        invariant
            ldv == lines.deep_view(),
            ldv == spec_lines(out@),
            ldv.len() == lines@.len(),
            k <= ldv.len(),
            spec_session_records(ldv) == records.deep_view() + spec_session_records(
                ldv.subrange(k as int, ldv.len() as int),
            ),
        decreases ldv.len() - k,
    {
        let ghost tail = ldv.subrange(k as int, ldv.len() as int);
        proof {
            assert(tail[0] == ldv[k as int]);
            assert(ldv[k as int] == lines@[k as int].deep_view());
            assert(lines@[k as int].deep_view() =~= lines@[k as int]@);
            assert(tail.drop_first() =~= ldv.subrange(k + 1, ldv.len() as int));
        }
        let tokens = split_tokens(&lines[k]);
        let ghost tdv = tokens.deep_view();
        if tokens.len() >= 1 {
            proof {
                assert(tdv[0] == tokens@[0].deep_view());
                assert(tokens@[0].deep_view() =~= tokens@[0]@);
            }
            let name = copy_bytes(&tokens[0]);
            let mut stamp: u64 = 0;
            if tokens.len() >= 2 {
                proof {
                    assert(tdv[1] == tokens@[1].deep_view());
                    assert(tokens@[1].deep_view() =~= tokens@[1]@);
                }
                match parse_u64(&tokens[1]) {
                    Some(v) => {
                        stamp = v;
                    },
                    None => {
                    },
                }
            }
            let ghost rec_old = records.deep_view();
            let ghost sv = SessionStampView { name: tdv[0], last_attached: stamp };
            records.push(SessionStamp { name, last_attached: stamp });
            proof {
                assert(records.deep_view() =~~= rec_old.push(sv));
                assert(session_of_line(tail[0]) == Some(sv));
                assert(records.deep_view() + spec_session_records(tail.drop_first())
                    =~~= rec_old + (seq![sv] + spec_session_records(tail.drop_first())));
            }
        } else {
            proof {
                assert(session_of_line(tail[0]) is None);
            }
        }
        k = k + 1;
    }
    proof {
        assert(ldv.subrange(ldv.len() as int, ldv.len() as int) =~= Seq::<Seq<u8>>::empty());
        assert(records.deep_view() + Seq::<SessionStampView>::empty() =~~= records.deep_view());
    }
    records
}

/// The recency fallback: the most recently attached session's name.
pub fn most_recent_session(ss: &Vec<SessionStamp>) -> (r: Option<Vec<u8>>)
    ensures
        r.deep_view() == spec_most_recent(ss.deep_view()),
{
    let ghost sdv = ss.deep_view();
    if ss.len() == 0 {
        return None;
    }
    let mut best: usize = 0;
    let mut i: usize = 1;
    while i < ss.len()
        invariant
            sdv == ss.deep_view(),
            sdv.len() == ss@.len(),
            1 <= i <= sdv.len(),
            0 <= best < i,
            best == best_idx(sdv.subrange(0, i as int)),
        decreases sdv.len() - i,
    {
        let ghost pre = sdv.subrange(0, i + 1 as int);
        proof {
            assert(pre.drop_last() =~= sdv.subrange(0, i as int));
            assert(pre.last() == sdv[i as int]);
            assert(sdv[i as int] == ss@[i as int].deep_view());
            assert(sdv[best as int] == ss@[best as int].deep_view());
        }
        if ss[i].last_attached > ss[best].last_attached {
            best = i;
        }
        i = i + 1;
    }
    proof {
        assert(sdv.subrange(0, sdv.len() as int) =~= sdv);
        assert(sdv[best as int] == ss@[best as int].deep_view());
    }
    let name = copy_bytes(&ss[best].name);
    proof {
        assert(name.deep_view() =~= sdv[best as int].name);
    }
    Some(name)
}

} // verus!
