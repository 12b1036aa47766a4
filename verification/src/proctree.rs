//! The process-tree walker.
//!
//! The operating system's process table is read once by the caller into a
//! snapshot of `(pid, parent pid, command line)` entries; the walk itself is
//! verified here.  Starting from the process id of the active window, the
//! walk visits the subtree of that process and reports whether any process
//! in it looks like a running terminal multiplexer.  The snapshot is a racy
//! copy of a mutating table, so the walk assumes nothing about it: missing
//! parents, vanished processes and even parent-id cycles (possible under
//! reparenting races) are all tolerated, and the walk still terminates and
//! never visits a process id twice.

use vstd::prelude::*;

use crate::bytes::contains_bytes;
use crate::bytes::contains_seq;

verus! {

broadcast use {vstd::seq_lib::seq_to_set_is_finite, vstd::seq_lib::group_seq_properties};

/// One row of the process-table snapshot.
pub struct ProcEntry {
    pub pid: u32,
    pub ppid: u32,
    pub cmdline: Vec<u8>,
}

/// Mathematical model of a snapshot row.
pub struct ProcView {
    pub pid: u32,
    pub ppid: u32,
    pub cmdline: Seq<u8>,
}

impl View for ProcEntry {
    type V = ProcView;

    open spec fn view(&self) -> ProcView {
        ProcView { pid: self.pid, ppid: self.ppid, cmdline: self.cmdline@ }
    }
}

impl DeepView for ProcEntry {
    type V = ProcView;

    open spec fn deep_view(&self) -> ProcView {
        self.view()
    }
}

/// `child` has an entry in the snapshot whose parent field is `parent`.
pub open spec fn is_child_of(procs: Seq<ProcView>, parent: u32, child: u32) -> bool {
    exists|i: int| 0 <= i < procs.len() && procs[i].pid == child && procs[i].ppid == parent
}

/// The command line recorded for `pid`: the first entry with that process
/// id, or nothing when the process has no entry in the snapshot.
pub open spec fn cmdline_of(procs: Seq<ProcView>, pid: u32) -> Option<Seq<u8>>
    decreases procs.len(),
{
    if procs.len() == 0 {
        None
    } else if procs[0].pid == pid {
        Some(procs[0].cmdline)
    } else {
        cmdline_of(procs.drop_first(), pid)
    }
}

/// The multiplexer's name, as it appears in a command line: `tmux`.
pub open spec fn spec_mux_needle() -> Seq<u8> {
    seq![116u8, 109u8, 117u8, 120u8]
}

/// This tool's own process name, `hypr-tmux-nav`.  A walk that finds the
/// tool's own invocation must not take it for the multiplexer merely
/// because its argument list mentions the multiplexer's name.
pub open spec fn spec_self_name() -> Seq<u8> {
    seq![104u8, 121u8, 112u8, 114u8, 45u8, 116u8, 109u8, 117u8, 120u8, 45u8, 110u8, 97u8, 118u8]
}

/// A command line indicates a running multiplexer: it mentions the
/// multiplexer's name and is not this tool's own invocation.
pub open spec fn cmd_indicates_mux(cmd: Seq<u8>) -> bool {
    contains_seq(cmd, spec_mux_needle()) && !contains_seq(cmd, spec_self_name())
}

/// The process `pid` has a command line in the snapshot and it indicates a
/// running multiplexer.
pub open spec fn pid_matches(procs: Seq<ProcView>, pid: u32) -> bool {
    match cmdline_of(procs, pid) {
        Some(cmd) => cmd_indicates_mux(cmd),
        None => false,
    }
}

/// `p` is reachable from `root` in at most `n` parent-to-child steps.
pub open spec fn reaches(procs: Seq<ProcView>, root: u32, p: u32, n: nat) -> bool
    decreases n,
{
    if n == 0 {
        p == root
    } else {
        reaches(procs, root, p, (n - 1) as nat) || exists|q: u32|
            reaches(procs, root, q, (n - 1) as nat) && is_child_of(procs, q, p)
    }
}

/// `p` lies in the subtree rooted at `root` (including `root` itself).
pub open spec fn reachable(procs: Seq<ProcView>, root: u32, p: u32) -> bool {
    exists|n: nat| reaches(procs, root, p, n)
}

/// Some process in the subtree rooted at `root` indicates a multiplexer.
pub open spec fn subtree_has_mux(procs: Seq<ProcView>, root: u32) -> bool {
    exists|p: u32| reachable(procs, root, p) && pid_matches(procs, p)
}

/// The pool of process ids a walk from `root` can ever touch: every id
/// named by a snapshot entry, and the root itself.
pub open spec fn pid_pool(procs: Seq<ProcView>, root: u32) -> Set<u32> {
    procs.map_values(|e: ProcView| e.pid).push(root).to_set()
}

/// The multiplexer's name as a byte string.
pub fn mux_needle() -> (r: Vec<u8>)
    ensures
        r@ == spec_mux_needle(),
{
    let mut v: Vec<u8> = Vec::new();
    v.push(116u8);
    v.push(109u8);
    v.push(117u8);
    v.push(120u8);
    proof {
        assert(v@ =~= spec_mux_needle());
    }
    v
}

/// This tool's own process name as a byte string.
pub fn self_name() -> (r: Vec<u8>)
    ensures
        r@ == spec_self_name(),
{
    let mut v: Vec<u8> = Vec::new();
    v.push(104u8);
    v.push(121u8);
    v.push(112u8);
    v.push(114u8);
    v.push(45u8);
    v.push(116u8);
    v.push(109u8);
    v.push(117u8);
    v.push(120u8);
    v.push(45u8);
    v.push(110u8);
    v.push(97u8);
    v.push(118u8);
    proof {
        assert(v@ =~= spec_self_name());
    }
    v
}

fn contains_u32(v: &Vec<u32>, x: u32) -> (r: bool)
    ensures
        r == v@.contains(x),
{
    let mut i: usize = 0;
    while i < v.len()
        invariant
            i <= v@.len(),
            forall|k: int| 0 <= k < i ==> v@[k] != x,
        decreases v@.len() - i,
    {
        if v[i] == x {
            return true;
        }
        i = i + 1;
    }
    false
}

/// Looks up the command line of `pid`: the first snapshot entry with that
/// process id, as `cmdline_of` describes.
fn lookup_cmdline<'a>(procs: &'a Vec<ProcEntry>, pid: u32) -> (r: Option<&'a Vec<u8>>)
    ensures
        match r {
            Some(cmd) => cmdline_of(procs.deep_view(), pid) == Some(cmd@),
            None => cmdline_of(procs.deep_view(), pid) is None,
        },
{
    let ghost dv = procs.deep_view();
    proof {
        assert(dv.len() == procs@.len());
        assert(dv.subrange(0, dv.len() as int) =~= dv);
    }
    let mut i: usize = 0;
    while i < procs.len()
        invariant
            dv == procs.deep_view(),
            dv.len() == procs@.len(),
            i <= dv.len(),
            cmdline_of(dv.subrange(i as int, dv.len() as int), pid) == cmdline_of(dv, pid),
        decreases dv.len() - i,
    {
        proof {
            assert(dv.subrange(i as int, dv.len() as int).drop_first() =~= dv.subrange(
                i + 1,
                dv.len() as int,
            ));
            assert(dv.subrange(i as int, dv.len() as int)[0] == dv[i as int]);
            assert(dv[i as int] == procs@[i as int].deep_view());
        }
        if procs[i].pid == pid {
            return Some(&procs[i].cmdline);
        }
        i = i + 1;
    }
    proof {
        assert(dv.subrange(dv.len() as int, dv.len() as int) =~= Seq::<ProcView>::empty());
    }
    None
}

/// Does the command line recorded for `pid` indicate a multiplexer?
fn pid_has_mux_cmdline(procs: &Vec<ProcEntry>, pid: u32) -> (r: bool)
    ensures
        r == pid_matches(procs.deep_view(), pid),
{
    match lookup_cmdline(procs, pid) {
        None => false,
        Some(cmd) => {
            let needle = mux_needle();
            let own = self_name();
            contains_bytes(cmd, &needle) && !contains_bytes(cmd, &own)
        },
    }
}

proof fn lemma_push_no_dup(s: Seq<u32>, x: u32)
    requires
        s.no_duplicates(),
        !s.contains(x),
    ensures
        s.push(x).no_duplicates(),
{
    let t = s.push(x);
    assert forall|i: int, j: int| 0 <= i < j < t.len() implies t[i] != t[j] by {
        if j == s.len() {
            assert(t[i] == s[i]);
            assert(!s.contains(x));
            assert(s[i] != x);
        }
    }
}

proof fn lemma_no_dup_le_card(s: Seq<u32>, big: Set<u32>)
    requires
        s.no_duplicates(),
        big.finite(),
        forall|p: u32| s.contains(p) ==> big.contains(p),
    ensures
        s.len() <= big.len(),
{
    s.unique_seq_to_set();
    assert(s.to_set().subset_of(big));
    vstd::set_lib::lemma_len_subset(s.to_set(), big);
}

/// A child of a process in the subtree is itself in the subtree.
proof fn lemma_reach_child(procs: Seq<ProcView>, root: u32, q: u32, c: u32)
    requires
        reachable(procs, root, q),
        is_child_of(procs, q, c),
    ensures
        reachable(procs, root, c),
{
    let n = choose|n: nat| reaches(procs, root, q, n);
    assert(reaches(procs, root, q, n) && is_child_of(procs, q, c));
    assert(reaches(procs, root, c, n + 1));
}

/// A set of ids that holds the root and is closed under the child relation
/// holds everything reachable from the root.
proof fn lemma_closed_covers_reachable(
    procs: Seq<ProcView>,
    root: u32,
    vs: Seq<u32>,
    p: u32,
    n: nat,
)
    requires
        vs.contains(root),
        forall|q: u32, c: u32|
            vs.contains(q) && is_child_of(procs, q, c) ==> vs.contains(c),
        reaches(procs, root, p, n),
    ensures
        vs.contains(p),
    decreases n,
{
    if n == 0 {
    } else if reaches(procs, root, p, (n - 1) as nat) {
        lemma_closed_covers_reachable(procs, root, vs, p, (n - 1) as nat);
    } else {
        let q = choose|q: u32| reaches(procs, root, q, (n - 1) as nat) && is_child_of(procs, q, p);
        lemma_closed_covers_reachable(procs, root, vs, q, (n - 1) as nat);
        assert(vs.contains(q) && is_child_of(procs, q, p));
    }
}

/// The walk itself: decides whether the subtree of the process table
/// rooted at `root` holds a process whose command line indicates a running
/// multiplexer, and returns the process ids it examined, in visit order.
///
/// The snapshot may be arbitrary — entries may be missing, duplicated, or
/// form parent-id cycles (possible under reparenting races) — and the walk
/// still terminates.  The contract states the no-revisit guarantee: the
/// returned visit list has no duplicate, so each process id's command line
/// is examined at most once, and only ids in the subtree are ever
/// examined.
pub fn subtree_walk(procs: &Vec<ProcEntry>, root: u32) -> (r: (bool, Vec<u32>))
    ensures
        r.0 == subtree_has_mux(procs.deep_view(), root),
        r.1@.no_duplicates(),
        forall|p: u32| #[trigger]
            r.1@.contains(p) ==> reachable(procs.deep_view(), root, p),
{
    let ghost dv = procs.deep_view();
    let ghost pool = pid_pool(dv, root);
    proof {
        assert(pool.finite());
        assert(dv.map_values(|e: ProcView| e.pid).push(root).contains(root));
        assert(reaches(dv, root, root, 0));
    }
    let mut work: Vec<u32> = Vec::new();
    work.push(root);
    let mut visited: Vec<u32> = Vec::new();
    while work.len() > 0
        invariant
            dv == procs.deep_view(),
            pool == pid_pool(dv, root),
            pool.finite(),
            visited@.no_duplicates(),
            visited@.len() <= pool.len(),
            forall|p: u32| #[trigger]
                visited@.contains(p) ==> pool.contains(p) && reachable(dv, root, p)
                    && !pid_matches(dv, p),
            forall|p: u32| #[trigger]
                work@.contains(p) ==> pool.contains(p) && reachable(dv, root, p),
            forall|q: u32, c: u32|
                visited@.contains(q) && is_child_of(dv, q, c) ==> visited@.contains(c)
                    || work@.contains(c),
            visited@.contains(root) || work@.contains(root),
        decreases pool.len() - visited@.len(), work@.len(),
    {
        let ghost work_before = work@;
        let cur = work.pop().unwrap();
        proof {
            assert(work_before.contains(cur));
            assert forall|p: u32| #[trigger] work@.contains(p) implies work_before.contains(p) by {
                let idx = choose|idx: int| 0 <= idx < work@.len() && work@[idx] == p;
                assert(work_before[idx] == p);
            }
            assert(forall|c: u32|
                work_before.contains(c) && c != cur ==> #[trigger] work@.contains(c)) by {
                assert forall|c: u32| work_before.contains(c) && c != cur implies work@.contains(
                    c,
                ) by {
                    let idx = choose|idx: int|
                        0 <= idx < work_before.len() && work_before[idx] == c;
                    assert(idx < work_before.len() - 1);
                    assert(work@[idx] == c);
                }
            }
        }
        if !contains_u32(&visited, cur) {
            let ghost v_old = visited@;
            visited.push(cur);
            proof {
                assert(visited@ == v_old.push(cur));
                lemma_push_no_dup(v_old, cur);
                assert(pool.contains(cur));
                lemma_no_dup_le_card(visited@, pool);
            }
            if pid_has_mux_cmdline(procs, cur) {
                proof {
                    assert(reachable(dv, root, cur) && pid_matches(dv, cur));
                    assert forall|p: u32| #[trigger] visited@.contains(p) implies reachable(
                        dv,
                        root,
                        p,
                    ) by {
                        if p != cur {
                            assert(v_old.contains(p));
                        }
                    }
                }
                return (true, visited);
            }
            let ghost work_mid = work@;
            let mut j: usize = 0;
            while j < procs.len()
                invariant
                    dv == procs.deep_view(),
                    dv.len() == procs@.len(),
                    pool == pid_pool(dv, root),
                    j <= dv.len(),
                    reachable(dv, root, cur),
                    forall|p: u32| work_mid.contains(p) ==> #[trigger] work@.contains(p),
                    forall|p: u32| #[trigger]
                        work@.contains(p) ==> pool.contains(p) && reachable(dv, root, p),
                    forall|c: u32|
                        (exists|k: int|
                            0 <= k < j && dv[k].pid == c && dv[k].ppid == cur) ==> #[trigger]
                            work@.contains(c),
                decreases dv.len() - j,
            {
                proof {
                    assert(dv[j as int] == procs@[j as int].deep_view());
                }
                if procs[j].ppid == cur {
                    let c = procs[j].pid;
                    proof {
                        assert(is_child_of(dv, cur, c));
                        lemma_reach_child(dv, root, cur, c);
                        let pids = dv.map_values(|e: ProcView| e.pid);
                        assert(pids[j as int] == c);
                        assert(pids.push(root).contains(c)) by {
                            assert(pids.push(root)[j as int] == c);
                        }
                    }
                    let ghost w_prev = work@;
                    work.push(c);
                    proof {
                        assert(work@ == w_prev.push(c));
                    }
                }
                j = j + 1;
            }
            proof {
                assert forall|q: u32, c: u32|
                    visited@.contains(q) && is_child_of(dv, q, c) implies visited@.contains(c)
                    || work@.contains(c) by {
                    if q == cur {
                        let k = choose|k: int|
                            0 <= k < dv.len() && dv[k].pid == c && dv[k].ppid == cur;
                        assert(work@.contains(c));
                    } else {
                        assert(visited@.drop_last().contains(q));
                        if work_before.contains(c) && c != cur {
                            assert(work_mid.contains(c));
                        }
                    }
                }
            }
        }
    }
    proof {
        assert(work@.len() == 0);
        assert(forall|c: u32| !work@.contains(c));
        assert(!subtree_has_mux(dv, root)) by {
            if subtree_has_mux(dv, root) {
                let p = choose|p: u32| reachable(dv, root, p) && pid_matches(dv, p);
                let n = choose|n: nat| reaches(dv, root, p, n);
                lemma_closed_covers_reachable(dv, root, visited@, p, n);
            }
        }
    }
    (false, visited)
}

/// Does the subtree of the process table rooted at `root` hold a process
/// whose command line indicates a running multiplexer?
pub fn subtree_contains_mux(procs: &Vec<ProcEntry>, root: u32) -> (r: bool)
    ensures
        r == subtree_has_mux(procs.deep_view(), root),
{
    let walk = subtree_walk(procs, root);
    walk.0
}

} // verus!
