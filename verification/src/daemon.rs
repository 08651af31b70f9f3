//! The daemon's decisions: from the peer's state at each check, what to run.

use vstd::prelude::*;
use crate::config::Role;
use crate::net::PeerState;

verus! {

/// One piece of work the daemon runs after a check of the peer.
#[derive(Debug, Clone, Copy, PartialEq, Eq, Structural)]
pub enum Task {
    /// Run the `on_connect` hooks.
    ConnectHooks,
    /// Sync each configured path.
    SyncPaths,
    /// Offload large and matching files to the peer.
    Offload,
    /// Run the `on_sync_done` hooks.
    SyncDoneHooks,
    /// Run the `on_disconnect` hooks.
    DisconnectHooks,
}

/// What the daemon remembers between two checks of the peer.
pub struct Daemon {
    prev_state: PeerState,
    first_run: bool,
}

/// The abstract state of the daemon.
pub struct DaemonView {
    /// The state the peer was seen in at the last check (offline before any).
    pub last_seen: PeerState,
    /// Whether no sync has started yet.
    pub first_run: bool,
}

impl View for Daemon {
    type V = DaemonView;

    closed spec fn view(&self) -> DaemonView {
        DaemonView { last_seen: self.prev_state, first_run: self.first_run }
    }
}

/// The states the daemon can be in: before the first sync the peer has never
/// been seen online.
pub open spec fn daemon_wf(v: DaemonView) -> bool {
    v.first_run ==> v.last_seen == PeerState::Offline
}

/// Whether a check that sees `observed` starts a sync: the peer is online, and
/// was offline at the last check or no sync has started yet.
pub open spec fn comes_online(v: DaemonView, observed: PeerState) -> bool {
    observed == PeerState::Online && (v.last_seen == PeerState::Offline || v.first_run)
}

/// Whether a check that sees `observed` finds the peer gone: it is offline and
/// was online at the last check.
pub open spec fn goes_offline(v: DaemonView, observed: PeerState) -> bool {
    observed == PeerState::Offline && v.last_seen == PeerState::Online
}

/// The work after a check, in order: when the peer comes online, the connect
/// hooks, the sync, the offload on a mobile node, and the sync-done hooks;
/// when it goes offline, the disconnect hooks; otherwise nothing.
pub open spec fn tasks_spec(v: DaemonView, observed: PeerState, role: Role) -> Seq<Task> {
    if comes_online(v, observed) {
        seq![Task::ConnectHooks, Task::SyncPaths] + (if role == Role::Mobile {
            seq![Task::Offload]
        } else {
            Seq::empty()
        }) + seq![Task::SyncDoneHooks]
    } else if goes_offline(v, observed) {
        seq![Task::DisconnectHooks]
    } else {
        Seq::empty()
    }
}

/// The daemon's state after a check that sees `observed`.
pub open spec fn next_view(v: DaemonView, observed: PeerState) -> DaemonView {
    DaemonView { last_seen: observed, first_run: v.first_run && !comes_online(v, observed) }
}

impl Daemon {
    /// The daemon before its first check: the peer counts as offline.
    pub fn new() -> (d: Self)
        ensures
            d@.last_seen == PeerState::Offline,
            d@.first_run,
            daemon_wf(d@),
    {
        Daemon { prev_state: PeerState::Offline, first_run: true }
    }

    /// The work to run after a check that sees the peer in state `observed`,
    /// on a node of role `role`; the daemon remembers what it saw.
    pub fn step(&mut self, observed: PeerState, role: Role) -> (tasks: Vec<Task>)
        ensures
            tasks@ == tasks_spec(old(self)@, observed, role),
            final(self)@ == next_view(old(self)@, observed),
            daemon_wf(old(self)@) ==> daemon_wf(final(self)@),
    {
        let mut tasks: Vec<Task> = Vec::new();
        let online = observed == PeerState::Online;
        let was_offline = self.prev_state == PeerState::Offline;
        if online && (was_offline || self.first_run) {
            tasks.push(Task::ConnectHooks);
            tasks.push(Task::SyncPaths);
            if role == Role::Mobile {
                tasks.push(Task::Offload);
            }
            tasks.push(Task::SyncDoneHooks);
            self.first_run = false;
        } else if observed == PeerState::Offline && self.prev_state == PeerState::Online {
            tasks.push(Task::DisconnectHooks);
        }
        self.prev_state = observed;
        assert(tasks@ =~= tasks_spec(old(self)@, observed, role));
        tasks
    }
}


/// A sync starts exactly when the peer is seen online after being seen
/// offline (or never seen): the first run adds no other case.
pub proof fn lemma_sync_starts_on_rising_edge(v: DaemonView, observed: PeerState, role: Role)
    requires
        daemon_wf(v),
    ensures
        comes_online(v, observed) <==> (v.last_seen == PeerState::Offline && observed
            == PeerState::Online),
        tasks_spec(v, observed, role).contains(Task::ConnectHooks) <==> (v.last_seen
            == PeerState::Offline && observed == PeerState::Online),
        tasks_spec(v, observed, role).contains(Task::DisconnectHooks) <==> (v.last_seen
            == PeerState::Online && observed == PeerState::Offline),
{
    let t = tasks_spec(v, observed, role);
    if comes_online(v, observed) {
        assert(t[0] == Task::ConnectHooks);
        assert(!t.contains(Task::DisconnectHooks));
    } else if goes_offline(v, observed) {
        assert(t[0] == Task::DisconnectHooks);
        assert(!t.contains(Task::ConnectHooks));
    } else {
        assert(t.len() == 0);
    }
}

/// Every step keeps the daemon in a state it can be in.
pub proof fn lemma_step_keeps_wf(v: DaemonView, observed: PeerState)
    requires
        daemon_wf(v),
    ensures
        daemon_wf(next_view(v, observed)),
{
}

/// Two checks in a row that see the peer in the same state: the second runs nothing.
pub proof fn lemma_same_state_twice_runs_nothing(v: DaemonView, observed: PeerState, role: Role)
    requires
        daemon_wf(v),
    ensures
        tasks_spec(next_view(v, observed), observed, role) == Seq::<Task>::empty(),
{
}

/// The hook events over a run of checks that see `observed` in turn: `true`
/// for each time the connect hooks run, `false` for each time the disconnect
/// hooks run.
pub open spec fn hook_events(v: DaemonView, observed: Seq<PeerState>) -> Seq<bool>
    decreases observed.len(),
{
    if observed.len() == 0 {
        Seq::empty()
    } else {
        let o = observed[0];
        let e = if comes_online(v, o) {
            seq![true]
        } else if goes_offline(v, o) {
            seq![false]
        } else {
            Seq::empty()
        };
        e + hook_events(next_view(v, o), observed.drop_first())
    }
}

/// The state of the daemon after a run of checks.
pub open spec fn view_after(v: DaemonView, observed: Seq<PeerState>) -> DaemonView
    decreases observed.len(),
{
    if observed.len() == 0 {
        v
    } else {
        view_after(next_view(v, observed[0]), observed.drop_first())
    }
}

/// Over any run of checks the connect and disconnect hooks alternate: the first
/// to run is the connect hooks where the peer was last seen offline, and no two
/// runs of the same hooks follow each other.
pub proof fn lemma_hooks_alternate(v: DaemonView, observed: Seq<PeerState>)
    requires
        daemon_wf(v),
    ensures
        hook_events(v, observed).len() > 0 ==> hook_events(v, observed)[0] == (v.last_seen
            == PeerState::Offline),
        forall|i: int|
            0 < i < hook_events(v, observed).len() ==> #[trigger] hook_events(v, observed)[i]
                != hook_events(v, observed)[i - 1],
    decreases observed.len(),
{
    if observed.len() > 0 {
        let o = observed[0];
        let n = next_view(v, o);
        let rest = hook_events(n, observed.drop_first());
        lemma_hooks_alternate(n, observed.drop_first());
        let ev = hook_events(v, observed);
        if comes_online(v, o) {
            assert(ev =~= seq![true] + rest);
            assert forall|i: int| 0 < i < ev.len() implies #[trigger] ev[i] != ev[i - 1] by {
                assert(ev[i] == rest[i - 1]);
                if i > 1 {
                    assert(ev[i - 1] == rest[i - 2]);
                    assert(rest[i - 1] != rest[i - 2]);
                }
            }
        } else if goes_offline(v, o) {
            assert(ev =~= seq![false] + rest);
            assert forall|i: int| 0 < i < ev.len() implies #[trigger] ev[i] != ev[i - 1] by {
                assert(ev[i] == rest[i - 1]);
                if i > 1 {
                    assert(ev[i - 1] == rest[i - 2]);
                    assert(rest[i - 1] != rest[i - 2]);
                }
            }
        } else {
            assert(ev =~= rest);
        }
    }
}

/// After any run of checks the daemon remembers the last state it saw.
pub proof fn lemma_remembers_last_seen(v: DaemonView, observed: Seq<PeerState>)
    requires
        observed.len() > 0,
    ensures
        view_after(v, observed).last_seen == observed.last(),
    decreases observed.len(),
{
    let n = next_view(v, observed[0]);
    if observed.len() > 1 {
        lemma_remembers_last_seen(n, observed.drop_first());
        assert(observed.drop_first().last() == observed.last());
    } else {
        assert(observed.drop_first().len() == 0);
        assert(view_after(n, observed.drop_first()) == n);
    }
}


/// The work when the peer comes online is always the same, whatever came
/// before (first connection or a later one): the connect hooks, the sync, the
/// offload on a mobile node, and the sync-done hooks.
pub proof fn lemma_connect_work_is_fixed(v: DaemonView, observed: PeerState, role: Role)
    requires
        comes_online(v, observed),
    ensures
        role == Role::Mobile ==> tasks_spec(v, observed, role) == seq![
            Task::ConnectHooks,
            Task::SyncPaths,
            Task::Offload,
            Task::SyncDoneHooks,
        ],
        role == Role::Hub ==> tasks_spec(v, observed, role) == seq![
            Task::ConnectHooks,
            Task::SyncPaths,
            Task::SyncDoneHooks,
        ],
{
    let t = tasks_spec(v, observed, role);
    if role == Role::Mobile {
        assert(t =~= seq![Task::ConnectHooks, Task::SyncPaths, Task::Offload, Task::SyncDoneHooks]);
    } else {
        assert(t =~= seq![Task::ConnectHooks, Task::SyncPaths, Task::SyncDoneHooks]);
    }
}

/// The work after each check of a run, one list per check.
pub open spec fn run_tasks(v: DaemonView, observed: Seq<PeerState>, role: Role) -> Seq<Seq<Task>>
    decreases observed.len(),
{
    if observed.len() == 0 {
        Seq::empty()
    } else {
        seq![tasks_spec(v, observed[0], role)] + run_tasks(
            next_view(v, observed[0]),
            observed.drop_first(),
            role,
        )
    }
}

/// Over any run of checks, the work after each check depends only on the
/// state seen before it (the last seen state, for the first) and the state
/// seen now: an offline-to-online edge runs the connect hooks, the sync, the
/// offload on a mobile node and the sync-done hooks, every time; an
/// online-to-offline edge runs the disconnect hooks; anything else runs nothing.
pub proof fn lemma_run_work_by_edges(v: DaemonView, observed: Seq<PeerState>, role: Role)
    requires
        daemon_wf(v),
    ensures
        run_tasks(v, observed, role).len() == observed.len(),
        forall|k: int|
            0 <= k < observed.len() ==> {
                let before = if k == 0 { v.last_seen } else { observed[k - 1] };
                let now = observed[k];
                #[trigger] run_tasks(v, observed, role)[k] == if before == PeerState::Offline && now
                    == PeerState::Online {
                    if role == Role::Mobile {
                        seq![Task::ConnectHooks, Task::SyncPaths, Task::Offload, Task::SyncDoneHooks]
                    } else {
                        seq![Task::ConnectHooks, Task::SyncPaths, Task::SyncDoneHooks]
                    }
                } else if before == PeerState::Online && now == PeerState::Offline {
                    seq![Task::DisconnectHooks]
                } else {
                    Seq::<Task>::empty()
                }
            },
    decreases observed.len(),
{
    if observed.len() > 0 {
        let o = observed[0];
        let n = next_view(v, o);
        let rest = observed.drop_first();
        lemma_step_keeps_wf(v, o);
        lemma_run_work_by_edges(n, rest, role);
        let r = run_tasks(v, observed, role);
        assert(r == seq![tasks_spec(v, o, role)] + run_tasks(n, rest, role));
        assert forall|k: int| 0 <= k < observed.len() implies {
            let before = if k == 0 { v.last_seen } else { observed[k - 1] };
            let now = observed[k];
            #[trigger] run_tasks(v, observed, role)[k] == if before == PeerState::Offline && now
                == PeerState::Online {
                if role == Role::Mobile {
                    seq![Task::ConnectHooks, Task::SyncPaths, Task::Offload, Task::SyncDoneHooks]
                } else {
                    seq![Task::ConnectHooks, Task::SyncPaths, Task::SyncDoneHooks]
                }
            } else if before == PeerState::Online && now == PeerState::Offline {
                seq![Task::DisconnectHooks]
            } else {
                Seq::<Task>::empty()
            }
        } by {
            if k == 0 {
                lemma_sync_starts_on_rising_edge(v, o, role);
                if comes_online(v, o) {
                    lemma_connect_work_is_fixed(v, o, role);
                } else if goes_offline(v, o) {
                    assert(tasks_spec(v, o, role) =~= seq![Task::DisconnectHooks]);
                } else {
                    assert(tasks_spec(v, o, role) =~= Seq::<Task>::empty());
                }
                assert(r[0] == tasks_spec(v, o, role));
            } else {
                assert(r[k] == run_tasks(n, rest, role)[k - 1]);
                assert(rest[k - 1] == observed[k]);
                if k > 1 {
                    assert(rest[k - 2] == observed[k - 1]);
                }
            }
        }
    }
}

} // verus!
