//! The lifecycle manager: the one component that turns coordination
//! events into session lifecycle changes.
//!
//! The watcher translates the coordination service's add/update/remove
//! notifications, and the sessions' own progress reports, into calls of
//! [`LifecycleManager::handle_event`].  Each call mutates the registry
//! and hands back the actions the process glue must perform: open or
//! close a transport stream, spawn or cancel a worker, write bytes.
//! The manager itself performs no blocking work, so every decision it
//! takes is verified against the transition function [`spec_step`].
//!
//! Updates are handled as stop-then-restart: a running session cannot
//! have its script swapped in place, so the old session is torn down
//! and a fresh one started with the new payload, closing the old
//! transport stream before the new one is opened.

use vstd::multiset::Multiset;
use vstd::prelude::*;

use crate::config::spec_script_of;
use crate::registry::{InsertOutcome, Registry};
use crate::session::{FollowUp, FollowUpView, PhaseView, Session, SessionPhase, SessionView};

verus! {

/// One observation delivered to the manager: a watcher notification or
/// a session's own progress report.
#[derive(Debug)]
pub enum Event {
    /// The coordination service assigned a new script.
    Added { id: String, payload: Vec<u8> },
    /// The assignment under `id` carries a new payload.
    Updated { id: String, payload: Vec<u8> },
    /// The assignment under `id` was withdrawn.
    Removed { id: String },
    /// The transport open requested for `id` yielded `handle`.
    Opened { id: String, handle: i32 },
    /// The transport open requested for `id` failed.
    OpenFailed { id: String },
    /// The driver delivered a buffer of trace records for `id`.
    Data { id: String, bytes: Vec<u8> },
    /// The driver reported lost records for `id`.
    Dropped { id: String },
    /// The worker of `id` wound down: the pump loop exited.
    WorkerDone { id: String },
}

/// Spec-level value of an [`Event`].
pub enum EventView {
    Added { id: Seq<char>, payload: Seq<u8> },
    Updated { id: Seq<char>, payload: Seq<u8> },
    Removed { id: Seq<char> },
    Opened { id: Seq<char>, handle: i32 },
    OpenFailed { id: Seq<char> },
    Data { id: Seq<char>, bytes: Seq<u8> },
    Dropped { id: Seq<char> },
    WorkerDone { id: Seq<char> },
}

impl View for Event {
    type V = EventView;

    open spec fn view(&self) -> EventView {
        match self {
            Event::Added { id, payload } => EventView::Added { id: id@, payload: payload@ },
            Event::Updated { id, payload } => EventView::Updated { id: id@, payload: payload@ },
            Event::Removed { id } => EventView::Removed { id: id@ },
            Event::Opened { id, handle } => EventView::Opened { id: id@, handle: *handle },
            Event::OpenFailed { id } => EventView::OpenFailed { id: id@ },
            Event::Data { id, bytes } => EventView::Data { id: id@, bytes: bytes@ },
            Event::Dropped { id } => EventView::Dropped { id: id@ },
            Event::WorkerDone { id } => EventView::WorkerDone { id: id@ },
        }
    }
}

/// One order the manager hands back for the process glue to perform.
#[derive(Debug)]
pub enum Action {
    /// Open a transport stream for `id` from `payload`, and report the
    /// outcome back as an `Opened` or `OpenFailed` event.
    OpenTransport { id: String, payload: Vec<u8> },
    /// Start the worker that runs the pump loop of `id`.
    SpawnWorker { id: String },
    /// Send the stop message over the cancellation channel of `id`.
    CancelWorker { id: String },
    /// Hand `bytes` to the transport stream under `handle`.
    Write { handle: i32, bytes: Vec<u8> },
    /// Flush the transport stream under `handle`.
    Flush { handle: i32 },
    /// Close the transport stream under `handle`.
    Close { handle: i32 },
    /// Log a lost-records warning for `id`; never fatal.
    WarnDropped { id: String },
}

/// Spec-level value of an [`Action`].
pub enum ActionView {
    OpenTransport { id: Seq<char>, payload: Seq<u8> },
    SpawnWorker { id: Seq<char> },
    CancelWorker { id: Seq<char> },
    Write { handle: i32, bytes: Seq<u8> },
    Flush { handle: i32 },
    Close { handle: i32 },
    WarnDropped { id: Seq<char> },
}

impl View for Action {
    type V = ActionView;

    open spec fn view(&self) -> ActionView {
        match self {
            Action::OpenTransport { id, payload } => ActionView::OpenTransport {
                id: id@,
                payload: payload@,
            },
            Action::SpawnWorker { id } => ActionView::SpawnWorker { id: id@ },
            Action::CancelWorker { id } => ActionView::CancelWorker { id: id@ },
            Action::Write { handle, bytes } => ActionView::Write {
                handle: *handle,
                bytes: bytes@,
            },
            Action::Flush { handle } => ActionView::Flush { handle: *handle },
            Action::Close { handle } => ActionView::Close { handle: *handle },
            Action::WarnDropped { id } => ActionView::WarnDropped { id: id@ },
        }
    }
}

/// The views of a list of actions, in order.
pub open spec fn actions_view(acts: Seq<Action>) -> Seq<ActionView> {
    acts.map_values(|a: Action| a@)
}

/// The manager's whole abstract state: the tracked sessions and, for
/// the accounting of transport streams, every handle ever reported
/// open and every handle ordered closed.
pub struct ManagerView {
    pub sessions: Map<Seq<char>, SessionView>,
    pub opened: Multiset<i32>,
    pub closed: Multiset<i32>,
}

/// Whether some tracked session owns transport handle `h`.
pub open spec fn live_handle(s: Map<Seq<char>, SessionView>, h: i32) -> bool {
    exists|id: Seq<char>| #![auto] s.dom().contains(id) && s[id].phase.handle() == Some(h)
}

/// The manager's invariant: every handle was reported open at most
/// once; a handle is owned by at most one session; and a handle ever
/// opened is either owned by exactly one live session or has been
/// ordered closed exactly once.
pub open spec fn spec_wf(m: ManagerView) -> bool {
    &&& forall|h: i32| #![auto] m.opened.count(h) <= 1
    &&& forall|h: i32| #![auto] m.closed.count(h) <= m.opened.count(h)
    &&& forall|h: i32|
        #![auto]
        live_handle(m.sessions, h) ==> m.opened.count(h) == 1 && m.closed.count(h) == 0
    &&& forall|h: i32|
        #![auto]
        !live_handle(m.sessions, h) ==> m.closed.count(h) == m.opened.count(h)
    &&& forall|a: Seq<char>, b: Seq<char>, h: i32|
        #![auto]
        m.sessions.dom().contains(a) && m.sessions.dom().contains(b) && m.sessions[a].phase.handle()
            == Some(h) && m.sessions[b].phase.handle() == Some(h) ==> a == b
}

/// What a session does next once its current activity winds down,
/// given the payload an update brought: restart with it when it names
/// a script, else tear down for good.
pub open spec fn spec_follow_up(payload: Seq<u8>) -> FollowUpView {
    if spec_script_of(payload) is Ok {
        FollowUpView::Restart(payload)
    } else {
        FollowUpView::Discard
    }
}

/// A fresh assignment: ignored when the identity is already tracked
/// (duplicate delivery) or when the payload names no script; otherwise
/// the session is tracked and a transport open ordered.
pub open spec fn spec_step_added(m: ManagerView, id: Seq<char>, payload: Seq<u8>) -> (
    ManagerView,
    Seq<ActionView>,
) {
    if m.sessions.dom().contains(id) {
        (m, Seq::empty())
    } else if spec_script_of(payload) is Ok {
        (
            ManagerView {
                sessions: m.sessions.insert(
                    id,
                    SessionView {
                        phase: PhaseView::Starting { next: FollowUpView::Proceed },
                        script: payload,
                    },
                ),
                ..m
            },
            seq![ActionView::OpenTransport { id, payload }],
        )
    } else {
        (m, Seq::empty())
    }
}

/// The transition function: what one event does to the manager's state
/// and which actions it orders, exactly.
pub open spec fn spec_step(m: ManagerView, ev: EventView) -> (ManagerView, Seq<ActionView>) {
    match ev {
        EventView::Added { id, payload } => spec_step_added(m, id, payload),
        EventView::Updated { id, payload } => {
            if !m.sessions.dom().contains(id) {
                spec_step_added(m, id, payload)
            } else {
                let s = m.sessions[id];
                match s.phase {
                    PhaseView::Starting { .. } => (
                        ManagerView {
                            sessions: m.sessions.insert(
                                id,
                                SessionView {
                                    phase: PhaseView::Starting { next: spec_follow_up(payload) },
                                    ..s
                                },
                            ),
                            ..m
                        },
                        Seq::empty(),
                    ),
                    PhaseView::Running { handle } => (
                        ManagerView {
                            sessions: m.sessions.insert(
                                id,
                                SessionView {
                                    phase: PhaseView::Stopping {
                                        handle,
                                        next: spec_follow_up(payload),
                                    },
                                    ..s
                                },
                            ),
                            ..m
                        },
                        seq![ActionView::CancelWorker { id }],
                    ),
                    PhaseView::Stopping { handle, .. } => (
                        ManagerView {
                            sessions: m.sessions.insert(
                                id,
                                SessionView {
                                    phase: PhaseView::Stopping {
                                        handle,
                                        next: spec_follow_up(payload),
                                    },
                                    ..s
                                },
                            ),
                            ..m
                        },
                        Seq::empty(),
                    ),
                }
            }
        },
        EventView::Removed { id } => {
            if !m.sessions.dom().contains(id) {
                (m, Seq::empty())
            } else {
                let s = m.sessions[id];
                match s.phase {
                    PhaseView::Starting { .. } => (
                        ManagerView {
                            sessions: m.sessions.insert(
                                id,
                                SessionView {
                                    phase: PhaseView::Starting { next: FollowUpView::Discard },
                                    ..s
                                },
                            ),
                            ..m
                        },
                        Seq::empty(),
                    ),
                    PhaseView::Running { handle } => (
                        ManagerView {
                            sessions: m.sessions.insert(
                                id,
                                SessionView {
                                    phase: PhaseView::Stopping {
                                        handle,
                                        next: FollowUpView::Discard,
                                    },
                                    ..s
                                },
                            ),
                            ..m
                        },
                        seq![ActionView::CancelWorker { id }],
                    ),
                    PhaseView::Stopping { handle, .. } => (
                        ManagerView {
                            sessions: m.sessions.insert(
                                id,
                                SessionView {
                                    phase: PhaseView::Stopping {
                                        handle,
                                        next: FollowUpView::Discard,
                                    },
                                    ..s
                                },
                            ),
                            ..m
                        },
                        Seq::empty(),
                    ),
                }
            }
        },
        EventView::Opened { id, handle } => {
            let orphaned = (
                ManagerView {
                    opened: m.opened.insert(handle),
                    closed: m.closed.insert(handle),
                    ..m
                },
                seq![ActionView::Close { handle }],
            );
            if !m.sessions.dom().contains(id) {
                orphaned
            } else {
                let s = m.sessions[id];
                match s.phase {
                    PhaseView::Starting { next } => match next {
                        FollowUpView::Proceed => (
                            ManagerView {
                                sessions: m.sessions.insert(
                                    id,
                                    SessionView { phase: PhaseView::Running { handle }, ..s },
                                ),
                                opened: m.opened.insert(handle),
                                ..m
                            },
                            seq![ActionView::SpawnWorker { id }],
                        ),
                        FollowUpView::Discard => (
                            ManagerView {
                                sessions: m.sessions.remove(id),
                                opened: m.opened.insert(handle),
                                closed: m.closed.insert(handle),
                                ..m
                            },
                            seq![ActionView::Close { handle }],
                        ),
                        FollowUpView::Restart(p) => (
                            ManagerView {
                                sessions: m.sessions.insert(
                                    id,
                                    SessionView {
                                        phase: PhaseView::Starting { next: FollowUpView::Proceed },
                                        script: p,
                                    },
                                ),
                                opened: m.opened.insert(handle),
                                closed: m.closed.insert(handle),
                                ..m
                            },
                            seq![
                                ActionView::Close { handle },
                                ActionView::OpenTransport { id, payload: p },
                            ],
                        ),
                    },
                    PhaseView::Running { .. } => orphaned,
                    PhaseView::Stopping { .. } => orphaned,
                }
            }
        },
        EventView::OpenFailed { id } => {
            if !m.sessions.dom().contains(id) {
                (m, Seq::empty())
            } else {
                let s = m.sessions[id];
                match s.phase {
                    PhaseView::Starting { next } => match next {
                        FollowUpView::Proceed => (
                            ManagerView { sessions: m.sessions.remove(id), ..m },
                            Seq::empty(),
                        ),
                        FollowUpView::Discard => (
                            ManagerView { sessions: m.sessions.remove(id), ..m },
                            Seq::empty(),
                        ),
                        FollowUpView::Restart(p) => (
                            ManagerView {
                                sessions: m.sessions.insert(
                                    id,
                                    SessionView {
                                        phase: PhaseView::Starting { next: FollowUpView::Proceed },
                                        script: p,
                                    },
                                ),
                                ..m
                            },
                            seq![ActionView::OpenTransport { id, payload: p }],
                        ),
                    },
                    PhaseView::Running { .. } => (m, Seq::empty()),
                    PhaseView::Stopping { .. } => (m, Seq::empty()),
                }
            }
        },
        EventView::Data { id, bytes } => {
            if m.sessions.dom().contains(id) {
                match m.sessions[id].phase {
                    PhaseView::Running { handle } => (m, seq![ActionView::Write { handle, bytes }]),
                    PhaseView::Starting { .. } => (m, Seq::empty()),
                    PhaseView::Stopping { .. } => (m, Seq::empty()),
                }
            } else {
                (m, Seq::empty())
            }
        },
        EventView::Dropped { id } => (m, seq![ActionView::WarnDropped { id }]),
        EventView::WorkerDone { id } => {
            if !m.sessions.dom().contains(id) {
                (m, Seq::empty())
            } else {
                let s = m.sessions[id];
                match s.phase {
                    PhaseView::Starting { .. } => (m, Seq::empty()),
                    PhaseView::Running { handle } => (
                        ManagerView {
                            sessions: m.sessions.remove(id),
                            closed: m.closed.insert(handle),
                            ..m
                        },
                        seq![ActionView::Flush { handle }, ActionView::Close { handle }],
                    ),
                    PhaseView::Stopping { handle, next } => match next {
                        FollowUpView::Restart(p) => (
                            ManagerView {
                                sessions: m.sessions.insert(
                                    id,
                                    SessionView {
                                        phase: PhaseView::Starting { next: FollowUpView::Proceed },
                                        script: p,
                                    },
                                ),
                                closed: m.closed.insert(handle),
                                ..m
                            },
                            seq![
                                ActionView::Flush { handle },
                                ActionView::Close { handle },
                                ActionView::OpenTransport { id, payload: p },
                            ],
                        ),
                        FollowUpView::Proceed => (
                            ManagerView {
                                sessions: m.sessions.remove(id),
                                closed: m.closed.insert(handle),
                                ..m
                            },
                            seq![ActionView::Flush { handle }, ActionView::Close { handle }],
                        ),
                        FollowUpView::Discard => (
                            ManagerView {
                                sessions: m.sessions.remove(id),
                                closed: m.closed.insert(handle),
                                ..m
                            },
                            seq![ActionView::Flush { handle }, ActionView::Close { handle }],
                        ),
                    },
                }
            }
        },
    }
}

/// What the manager asks of an event before it takes it: a reported
/// handle must be one never reported before, which the transport
/// guarantees by construction.
pub open spec fn event_admissible(m: ManagerView, ev: EventView) -> bool {
    match ev {
        EventView::Opened { id: _, handle } => m.opened.count(handle) == 0 && handle >= 0,
        _ => true,
    }
}

/// The transport handle the session under `id` owns, if `id` is
/// tracked and its phase carries one.
pub open spec fn spec_handle_of(s: Map<Seq<char>, SessionView>, id: Seq<char>) -> Option<i32> {
    if s.dom().contains(id) {
        s[id].phase.handle()
    } else {
        None
    }
}

/// A step that touches only the session under `id`, without changing
/// which handle that session owns, preserves the invariant.
proof fn lemma_wf_same_handles(m1: ManagerView, m2: ManagerView, id: Seq<char>)
    requires
        spec_wf(m1),
        m2.opened == m1.opened,
        m2.closed == m1.closed,
        forall|j: Seq<char>|
            #![auto]
            j != id ==> (m2.sessions.dom().contains(j) == m1.sessions.dom().contains(j)),
        forall|j: Seq<char>|
            #![auto]
            j != id && m1.sessions.dom().contains(j) ==> m2.sessions[j] === m1.sessions[j],
        spec_handle_of(m2.sessions, id) == spec_handle_of(m1.sessions, id),
    ensures
        spec_wf(m2),
{
    assert forall|h: i32| #[trigger] live_handle(m2.sessions, h) == live_handle(
        m1.sessions,
        h,
    ) by {
        if live_handle(m2.sessions, h) {
            let w = choose|w: Seq<char>| #![auto] m2.sessions.dom().contains(w)
                && m2.sessions[w].phase.handle() == Some(h);
            if w == id {
                assert(m1.sessions.dom().contains(id) && m1.sessions[id].phase.handle() == Some(
                    h,
                ));
            }
            assert(live_handle(m1.sessions, h));
        }
        if live_handle(m1.sessions, h) {
            let w = choose|w: Seq<char>| #![auto] m1.sessions.dom().contains(w)
                && m1.sessions[w].phase.handle() == Some(h);
            if w == id {
                assert(m2.sessions.dom().contains(id) && m2.sessions[id].phase.handle() == Some(
                    h,
                ));
            }
            assert(live_handle(m2.sessions, h));
        }
    }
    assert forall|a: Seq<char>, b: Seq<char>, h: i32|
        #![auto]
        m2.sessions.dom().contains(a) && m2.sessions.dom().contains(b)
            && m2.sessions[a].phase.handle() == Some(h) && m2.sessions[b].phase.handle() == Some(
        h,
    ) implies a == b by {
        assert(m1.sessions.dom().contains(a) && m1.sessions[a].phase.handle() == Some(h));
        assert(m1.sessions.dom().contains(b) && m1.sessions[b].phase.handle() == Some(h));
    }
}

/// A step in which the session under `id` acquires the fresh handle
/// `h`, owned by nobody before, preserves the invariant.
proof fn lemma_wf_acquire(m1: ManagerView, m2: ManagerView, id: Seq<char>, h: i32)
    requires
        spec_wf(m1),
        m1.opened.count(h) == 0,
        m2.opened == m1.opened.insert(h),
        m2.closed == m1.closed,
        forall|j: Seq<char>|
            #![auto]
            j != id ==> (m2.sessions.dom().contains(j) == m1.sessions.dom().contains(j)),
        forall|j: Seq<char>|
            #![auto]
            j != id && m1.sessions.dom().contains(j) ==> m2.sessions[j] === m1.sessions[j],
        spec_handle_of(m1.sessions, id) == None::<i32>,
        m2.sessions.dom().contains(id),
        m2.sessions[id].phase.handle() == Some(h),
    ensures
        spec_wf(m2),
{
    broadcast use vstd::multiset::group_multiset_axioms;

    assert forall|q: i32| q != h implies #[trigger] live_handle(m2.sessions, q) == live_handle(
        m1.sessions,
        q,
    ) by {
        if live_handle(m2.sessions, q) {
            let w = choose|w: Seq<char>| #![auto] m2.sessions.dom().contains(w)
                && m2.sessions[w].phase.handle() == Some(q);
            assert(w != id);
            assert(live_handle(m1.sessions, q));
        }
        if live_handle(m1.sessions, q) {
            let w = choose|w: Seq<char>| #![auto] m1.sessions.dom().contains(w)
                && m1.sessions[w].phase.handle() == Some(q);
            assert(w != id);
            assert(live_handle(m2.sessions, q));
        }
    }
    assert(live_handle(m2.sessions, h));
    assert(!live_handle(m1.sessions, h));
    assert(m1.closed.count(h) == 0);
    assert(m2.opened.count(h) == 1);
    assert forall|a: Seq<char>, b: Seq<char>, q: i32|
        #![auto]
        m2.sessions.dom().contains(a) && m2.sessions.dom().contains(b)
            && m2.sessions[a].phase.handle() == Some(q) && m2.sessions[b].phase.handle() == Some(
        q,
    ) implies a == b by {
        if q == h {
            if a != id {
                assert(m1.sessions.dom().contains(a) && m1.sessions[a].phase.handle() == Some(h));
                assert(live_handle(m1.sessions, h));
            }
            if b != id {
                assert(m1.sessions.dom().contains(b) && m1.sessions[b].phase.handle() == Some(h));
                assert(live_handle(m1.sessions, h));
            }
        } else {
            assert(a != id && b != id);
            assert(m1.sessions.dom().contains(a) && m1.sessions[a].phase.handle() == Some(q));
            assert(m1.sessions.dom().contains(b) && m1.sessions[b].phase.handle() == Some(q));
        }
    }
}

/// A step in which the session under `id` gives handle `h` up and the
/// close of `h` is ordered preserves the invariant.
proof fn lemma_wf_release(m1: ManagerView, m2: ManagerView, id: Seq<char>, h: i32)
    requires
        spec_wf(m1),
        m1.sessions.dom().contains(id),
        m1.sessions[id].phase.handle() == Some(h),
        m2.opened == m1.opened,
        m2.closed == m1.closed.insert(h),
        forall|j: Seq<char>|
            #![auto]
            j != id ==> (m2.sessions.dom().contains(j) == m1.sessions.dom().contains(j)),
        forall|j: Seq<char>|
            #![auto]
            j != id && m1.sessions.dom().contains(j) ==> m2.sessions[j] === m1.sessions[j],
        spec_handle_of(m2.sessions, id) == None::<i32>,
    ensures
        spec_wf(m2),
{
    broadcast use vstd::multiset::group_multiset_axioms;

    assert(live_handle(m1.sessions, h));
    assert(m1.opened.count(h) == 1 && m1.closed.count(h) == 0);
    assert forall|q: i32| q != h implies #[trigger] live_handle(m2.sessions, q) == live_handle(
        m1.sessions,
        q,
    ) by {
        if live_handle(m2.sessions, q) {
            let w = choose|w: Seq<char>| #![auto] m2.sessions.dom().contains(w)
                && m2.sessions[w].phase.handle() == Some(q);
            assert(w != id);
            assert(live_handle(m1.sessions, q));
        }
        if live_handle(m1.sessions, q) {
            let w = choose|w: Seq<char>| #![auto] m1.sessions.dom().contains(w)
                && m1.sessions[w].phase.handle() == Some(q);
            if w == id {
                assert(m1.sessions[id].phase.handle() == Some(h));
                assert(false);
            }
            assert(live_handle(m2.sessions, q));
        }
    }
    assert(!live_handle(m2.sessions, h)) by {
        if live_handle(m2.sessions, h) {
            let w = choose|w: Seq<char>| #![auto] m2.sessions.dom().contains(w)
                && m2.sessions[w].phase.handle() == Some(h);
            assert(w != id);
            assert(m1.sessions.dom().contains(w) && m1.sessions[w].phase.handle() == Some(h));
            assert(w == id);
        }
    }
    assert(m2.closed.count(h) == 1);
    assert forall|a: Seq<char>, b: Seq<char>, q: i32|
        #![auto]
        m2.sessions.dom().contains(a) && m2.sessions.dom().contains(b)
            && m2.sessions[a].phase.handle() == Some(q) && m2.sessions[b].phase.handle() == Some(
        q,
    ) implies a == b by {
        assert(a != id && b != id);
        assert(m1.sessions.dom().contains(a) && m1.sessions[a].phase.handle() == Some(q));
        assert(m1.sessions.dom().contains(b) && m1.sessions[b].phase.handle() == Some(q));
    }
}

/// A step that accounts a fresh handle as opened and at once closed,
/// touching no session, preserves the invariant.
proof fn lemma_wf_orphan(m1: ManagerView, m2: ManagerView, h: i32)
    requires
        spec_wf(m1),
        m1.opened.count(h) == 0,
        m2.sessions == m1.sessions,
        m2.opened == m1.opened.insert(h),
        m2.closed == m1.closed.insert(h),
    ensures
        spec_wf(m2),
{
    broadcast use vstd::multiset::group_multiset_axioms;

    assert(!live_handle(m1.sessions, h));
    assert(m1.closed.count(h) == 0);
}

/// A copy of a byte string.
fn clone_bytes(v: &Vec<u8>) -> (r: Vec<u8>)
    ensures
        r@ == v@,
{
    vstd::slice::slice_to_vec(v.as_slice())
}

/// A copy of a follow-up.
fn clone_follow_up(f: &FollowUp) -> (r: FollowUp)
    ensures
        r@ == f@,
{
    match f {
        FollowUp::Proceed => FollowUp::Proceed,
        FollowUp::Discard => FollowUp::Discard,
        FollowUp::Restart(p) => FollowUp::Restart(clone_bytes(p)),
    }
}

/// The follow-up an update's payload calls for: restart with it when
/// it names a script, else tear the session down.
fn follow_up_of(payload: Vec<u8>) -> (r: FollowUp)
    ensures
        r@ == spec_follow_up(payload@),
{
    if crate::config::payload_valid(payload.as_slice()) {
        FollowUp::Restart(payload)
    } else {
        FollowUp::Discard
    }
}

/// An owned snapshot of one session's standing, so that a decision can
/// be taken after the registry borrow ends.
enum PhaseSummary {
    Absent,
    Starting { next: FollowUp, script: Vec<u8> },
    Running { handle: i32, script: Vec<u8> },
    Stopping { handle: i32, next: FollowUp, script: Vec<u8> },
}

/// The lifecycle manager's concrete state: the registry of live
/// sessions, and the ghost handle accounting the contracts speak of.
pub struct LifecycleManager {
    registry: Registry,
    opened: Ghost<Multiset<i32>>,
    closed: Ghost<Multiset<i32>>,
}

impl LifecycleManager {
    /// The manager's abstract state.
    pub closed spec fn view(&self) -> ManagerView {
        ManagerView { sessions: self.registry@, opened: self.opened@, closed: self.closed@ }
    }

    pub closed spec fn wf(&self) -> bool {
        self.registry.wf() && spec_wf(self@)
    }

    /// A manager tracking nothing, with no handle ever opened.
    pub fn new() -> (r: LifecycleManager)
        ensures
            r.wf(),
            r@.sessions === Map::<Seq<char>, SessionView>::empty(),
            r@.opened === Multiset::<i32>::empty(),
            r@.closed === Multiset::<i32>::empty(),
    {
        let r = LifecycleManager {
            registry: Registry::new(),
            opened: Ghost(Multiset::empty()),
            closed: Ghost(Multiset::empty()),
        };
        proof {
            broadcast use vstd::multiset::group_multiset_axioms;

            assert forall|h: i32| #[trigger] live_handle(r@.sessions, h) == false by {
                if live_handle(r@.sessions, h) {
                    let w = choose|w: Seq<char>| #![auto] r@.sessions.dom().contains(w)
                        && r@.sessions[w].phase.handle() == Some(h);
                }
            }
        }
        r
    }

    /// An owned snapshot of the session under `id`.
    fn summarize(&self, id: &String) -> (r: PhaseSummary)
        requires
            self.wf(),
        ensures
            match r {
                PhaseSummary::Absent => !self@.sessions.dom().contains(id@),
                PhaseSummary::Starting { next, script } => self@.sessions.dom().contains(id@)
                    && self@.sessions[id@].phase == (PhaseView::Starting { next: next@ })
                    && script@ == self@.sessions[id@].script,
                PhaseSummary::Running { handle, script } => self@.sessions.dom().contains(id@)
                    && self@.sessions[id@].phase == (PhaseView::Running { handle })
                    && script@ == self@.sessions[id@].script,
                PhaseSummary::Stopping { handle, next, script } => self@.sessions.dom().contains(
                    id@,
                ) && self@.sessions[id@].phase == (PhaseView::Stopping { handle, next: next@ })
                    && script@ == self@.sessions[id@].script,
            },
    {
        match self.registry.get(id) {
            None => PhaseSummary::Absent,
            Some(s) => {
                let script = clone_bytes(&s.script);
                match &s.phase {
                    SessionPhase::Starting { next } => PhaseSummary::Starting {
                        next: clone_follow_up(next),
                        script,
                    },
                    SessionPhase::Running { handle } => PhaseSummary::Running {
                        handle: *handle,
                        script,
                    },
                    SessionPhase::Stopping { handle, next } => PhaseSummary::Stopping {
                        handle: *handle,
                        next: clone_follow_up(next),
                        script,
                    },
                }
            },
        }
    }

    /// A fresh assignment was observed.
    fn on_added(&mut self, id: String, payload: Vec<u8>) -> (acts: Vec<Action>)
        requires
            old(self).wf(),
        ensures
            final(self).wf(),
            final(self)@ === spec_step_added(old(self)@, id@, payload@).0,
            actions_view(acts@) === spec_step_added(old(self)@, id@, payload@).1,
    {
        let ghost pre = self@;
        if self.registry.contains(&id) {
            let acts: Vec<Action> = Vec::new();
            proof {
                assert(actions_view(acts@) =~= spec_step_added(pre, id@, payload@).1);
            }
            acts
        } else if crate::config::payload_valid(payload.as_slice()) {
            let ghost idv = id@;
            let payload_copy = clone_bytes(&payload);
            let action_id = id.clone();
            let session = Session {
                phase: SessionPhase::Starting { next: FollowUp::Proceed },
                script: payload,
            };
            let outcome = self.registry.insert(id, session);
            let mut acts: Vec<Action> = Vec::new();
            acts.push(Action::OpenTransport { id: action_id, payload: payload_copy });
            proof {
                assert(outcome == InsertOutcome::Inserted);
                lemma_wf_same_handles(pre, self@, idv);
                assert(self@ === spec_step_added(pre, idv, payload_copy@).0);
                assert(actions_view(acts@) =~= spec_step_added(pre, idv, payload_copy@).1);
            }
            acts
        } else {
            let acts: Vec<Action> = Vec::new();
            proof {
                assert(actions_view(acts@) =~= spec_step_added(pre, id@, payload@).1);
            }
            acts
        }
    }

    /// A new payload for an existing assignment was observed: the
    /// session is stopped and restarted with it.
    fn on_updated(&mut self, id: String, payload: Vec<u8>) -> (acts: Vec<Action>)
        requires
            old(self).wf(),
        ensures
            final(self).wf(),
            final(self)@ === spec_step(old(self)@, EventView::Updated { id: id@, payload: payload@ }).0,
            actions_view(acts@) === spec_step(
                old(self)@,
                EventView::Updated { id: id@, payload: payload@ },
            ).1,
    {
        let ghost pre = self@;
        let ghost idv = id@;
        let ghost pv = payload@;
        match self.summarize(&id) {
            PhaseSummary::Absent => self.on_added(id, payload),
            PhaseSummary::Starting { next: _, script } => {
                let next = follow_up_of(payload);
                let replaced = self.registry.replace(
                    &id,
                    Session { phase: SessionPhase::Starting { next }, script },
                );
                let acts: Vec<Action> = Vec::new();
                proof {
                    assert(replaced);
                    lemma_wf_same_handles(pre, self@, idv);
                    assert(self@.sessions =~= spec_step(
                        pre,
                        EventView::Updated { id: idv, payload: pv },
                    ).0.sessions);
                    assert(actions_view(acts@) =~= Seq::<ActionView>::empty());
                }
                acts
            },
            PhaseSummary::Running { handle, script } => {
                let next = follow_up_of(payload);
                let action_id = id.clone();
                let replaced = self.registry.replace(
                    &id,
                    Session { phase: SessionPhase::Stopping { handle, next }, script },
                );
                let mut acts: Vec<Action> = Vec::new();
                acts.push(Action::CancelWorker { id: action_id });
                proof {
                    assert(replaced);
                    lemma_wf_same_handles(pre, self@, idv);
                    assert(self@.sessions =~= spec_step(
                        pre,
                        EventView::Updated { id: idv, payload: pv },
                    ).0.sessions);
                    assert(actions_view(acts@) =~= seq![ActionView::CancelWorker { id: idv }]);
                }
                acts
            },
            PhaseSummary::Stopping { handle, next: _, script } => {
                let next = follow_up_of(payload);
                let replaced = self.registry.replace(
                    &id,
                    Session { phase: SessionPhase::Stopping { handle, next }, script },
                );
                let acts: Vec<Action> = Vec::new();
                proof {
                    assert(replaced);
                    lemma_wf_same_handles(pre, self@, idv);
                    assert(self@.sessions =~= spec_step(
                        pre,
                        EventView::Updated { id: idv, payload: pv },
                    ).0.sessions);
                    assert(actions_view(acts@) =~= Seq::<ActionView>::empty());
                }
                acts
            },
        }
    }

    /// An assignment was withdrawn: the session is stopped and torn
    /// down.  An unknown identity is a no-op, not an error.
    fn on_removed(&mut self, id: String) -> (acts: Vec<Action>)
        requires
            old(self).wf(),
        ensures
            final(self).wf(),
            final(self)@ === spec_step(old(self)@, EventView::Removed { id: id@ }).0,
            actions_view(acts@) === spec_step(old(self)@, EventView::Removed { id: id@ }).1,
    {
        let ghost pre = self@;
        let ghost idv = id@;
        match self.summarize(&id) {
            PhaseSummary::Absent => {
                let acts: Vec<Action> = Vec::new();
                proof {
                    assert(actions_view(acts@) =~= Seq::<ActionView>::empty());
                }
                acts
            },
            PhaseSummary::Starting { next: _, script } => {
                let replaced = self.registry.replace(
                    &id,
                    Session {
                        phase: SessionPhase::Starting { next: FollowUp::Discard },
                        script,
                    },
                );
                let acts: Vec<Action> = Vec::new();
                proof {
                    assert(replaced);
                    lemma_wf_same_handles(pre, self@, idv);
                    assert(self@.sessions =~= spec_step(pre, EventView::Removed { id: idv }).0.sessions);
                    assert(actions_view(acts@) =~= Seq::<ActionView>::empty());
                }
                acts
            },
            PhaseSummary::Running { handle, script } => {
                let action_id = id.clone();
                let replaced = self.registry.replace(
                    &id,
                    Session {
                        phase: SessionPhase::Stopping { handle, next: FollowUp::Discard },
                        script,
                    },
                );
                let mut acts: Vec<Action> = Vec::new();
                acts.push(Action::CancelWorker { id: action_id });
                proof {
                    assert(replaced);
                    lemma_wf_same_handles(pre, self@, idv);
                    assert(self@.sessions =~= spec_step(pre, EventView::Removed { id: idv }).0.sessions);
                    assert(actions_view(acts@) =~= seq![ActionView::CancelWorker { id: idv }]);
                }
                acts
            },
            PhaseSummary::Stopping { handle, next: _, script } => {
                let replaced = self.registry.replace(
                    &id,
                    Session {
                        phase: SessionPhase::Stopping { handle, next: FollowUp::Discard },
                        script,
                    },
                );
                let acts: Vec<Action> = Vec::new();
                proof {
                    assert(replaced);
                    lemma_wf_same_handles(pre, self@, idv);
                    assert(self@.sessions =~= spec_step(pre, EventView::Removed { id: idv }).0.sessions);
                    assert(actions_view(acts@) =~= Seq::<ActionView>::empty());
                }
                acts
            },
        }
    }

    /// Accounts `handle` opened and at once closed, for a stream no
    /// session can take: the close action is returned.
    fn orphan_handle(&mut self, handle: i32) -> (acts: Vec<Action>)
        requires
            old(self).wf(),
            old(self)@.opened.count(handle) == 0,
        ensures
            final(self).wf(),
            final(self)@ === (ManagerView {
                opened: old(self)@.opened.insert(handle),
                closed: old(self)@.closed.insert(handle),
                ..old(self)@
            }),
            actions_view(acts@) === seq![ActionView::Close { handle }],
    {
        let ghost pre = self@;
        proof {
            self.opened@ = self.opened@.insert(handle);
            self.closed@ = self.closed@.insert(handle);
        }
        let mut acts: Vec<Action> = Vec::new();
        acts.push(Action::Close { handle });
        proof {
            lemma_wf_orphan(pre, self@, handle);
            assert(actions_view(acts@) =~= seq![ActionView::Close { handle }]);
        }
        acts
    }

    /// The transport open requested for `id` yielded `handle`.
    fn on_opened(&mut self, id: String, handle: i32) -> (acts: Vec<Action>)
        requires
            old(self).wf(),
            old(self)@.opened.count(handle) == 0,
            handle >= 0,
        ensures
            final(self).wf(),
            final(self)@ === spec_step(old(self)@, EventView::Opened { id: id@, handle }).0,
            actions_view(acts@) === spec_step(old(self)@, EventView::Opened { id: id@, handle }).1,
    {
        let ghost pre = self@;
        let ghost idv = id@;
        match self.summarize(&id) {
            PhaseSummary::Absent => self.orphan_handle(handle),
            PhaseSummary::Starting { next, script } => {
                match next {
                    FollowUp::Proceed => {
                        let action_id = id.clone();
                        let replaced = self.registry.replace(
                            &id,
                            Session { phase: SessionPhase::Running { handle }, script },
                        );
                        proof {
                            assert(replaced);
                            self.opened@ = self.opened@.insert(handle);
                        }
                        let mut acts: Vec<Action> = Vec::new();
                        acts.push(Action::SpawnWorker { id: action_id });
                        proof {
                            lemma_wf_acquire(pre, self@, idv, handle);
                            assert(self@.sessions =~= spec_step(
                                pre,
                                EventView::Opened { id: idv, handle },
                            ).0.sessions);
                            assert(actions_view(acts@) =~= seq![
                                ActionView::SpawnWorker { id: idv },
                            ]);
                        }
                        acts
                    },
                    FollowUp::Discard => {
                        let removed = self.registry.remove(&id);
                        let ghost mid = self@;
                        proof {
                            assert(removed is Some);
                            lemma_wf_same_handles(pre, mid, idv);
                            self.opened@ = self.opened@.insert(handle);
                            self.closed@ = self.closed@.insert(handle);
                        }
                        let mut acts: Vec<Action> = Vec::new();
                        acts.push(Action::Close { handle });
                        proof {
                            lemma_wf_orphan(mid, self@, handle);
                            assert(self@.sessions =~= spec_step(
                                pre,
                                EventView::Opened { id: idv, handle },
                            ).0.sessions);
                            assert(actions_view(acts@) =~= seq![ActionView::Close { handle }]);
                        }
                        acts
                    },
                    FollowUp::Restart(p) => {
                        let action_id = id.clone();
                        let p_copy = clone_bytes(&p);
                        let replaced = self.registry.replace(
                            &id,
                            Session {
                                phase: SessionPhase::Starting { next: FollowUp::Proceed },
                                script: p,
                            },
                        );
                        let ghost mid = self@;
                        proof {
                            assert(replaced);
                            lemma_wf_same_handles(pre, mid, idv);
                            self.opened@ = self.opened@.insert(handle);
                            self.closed@ = self.closed@.insert(handle);
                        }
                        let mut acts: Vec<Action> = Vec::new();
                        acts.push(Action::Close { handle });
                        acts.push(Action::OpenTransport { id: action_id, payload: p_copy });
                        proof {
                            lemma_wf_orphan(mid, self@, handle);
                            assert(self@.sessions =~= spec_step(
                                pre,
                                EventView::Opened { id: idv, handle },
                            ).0.sessions);
                            assert(actions_view(acts@) =~= seq![
                                ActionView::Close { handle },
                                ActionView::OpenTransport { id: idv, payload: p_copy@ },
                            ]);
                        }
                        acts
                    },
                }
            },
            PhaseSummary::Running { .. } => self.orphan_handle(handle),
            PhaseSummary::Stopping { .. } => self.orphan_handle(handle),
        }
    }

    /// The transport open requested for `id` failed: the session never
    /// starts and the identity goes untracked, unless an update
    /// meanwhile asked for a restart with a fresh payload.
    fn on_open_failed(&mut self, id: String) -> (acts: Vec<Action>)
        requires
            old(self).wf(),
        ensures
            final(self).wf(),
            final(self)@ === spec_step(old(self)@, EventView::OpenFailed { id: id@ }).0,
            actions_view(acts@) === spec_step(old(self)@, EventView::OpenFailed { id: id@ }).1,
    {
        let ghost pre = self@;
        let ghost idv = id@;
        match self.summarize(&id) {
            PhaseSummary::Absent => {
                let acts: Vec<Action> = Vec::new();
                proof {
                    assert(actions_view(acts@) =~= Seq::<ActionView>::empty());
                }
                acts
            },
            PhaseSummary::Starting { next, script: _ } => {
                match next {
                    FollowUp::Restart(p) => {
                        let action_id = id.clone();
                        let p_copy = clone_bytes(&p);
                        let replaced = self.registry.replace(
                            &id,
                            Session {
                                phase: SessionPhase::Starting { next: FollowUp::Proceed },
                                script: p,
                            },
                        );
                        let mut acts: Vec<Action> = Vec::new();
                        acts.push(Action::OpenTransport { id: action_id, payload: p_copy });
                        proof {
                            assert(replaced);
                            lemma_wf_same_handles(pre, self@, idv);
                            assert(self@.sessions =~= spec_step(
                                pre,
                                EventView::OpenFailed { id: idv },
                            ).0.sessions);
                            assert(actions_view(acts@) =~= seq![
                                ActionView::OpenTransport { id: idv, payload: p_copy@ },
                            ]);
                        }
                        acts
                    },
                    FollowUp::Proceed => {
                        let removed = self.registry.remove(&id);
                        let acts: Vec<Action> = Vec::new();
                        proof {
                            assert(removed is Some);
                            lemma_wf_same_handles(pre, self@, idv);
                            assert(self@.sessions =~= spec_step(
                                pre,
                                EventView::OpenFailed { id: idv },
                            ).0.sessions);
                            assert(actions_view(acts@) =~= Seq::<ActionView>::empty());
                        }
                        acts
                    },
                    FollowUp::Discard => {
                        let removed = self.registry.remove(&id);
                        let acts: Vec<Action> = Vec::new();
                        proof {
                            assert(removed is Some);
                            lemma_wf_same_handles(pre, self@, idv);
                            assert(self@.sessions =~= spec_step(
                                pre,
                                EventView::OpenFailed { id: idv },
                            ).0.sessions);
                            assert(actions_view(acts@) =~= Seq::<ActionView>::empty());
                        }
                        acts
                    },
                }
            },
            PhaseSummary::Running { .. } => {
                let acts: Vec<Action> = Vec::new();
                proof {
                    assert(actions_view(acts@) =~= Seq::<ActionView>::empty());
                }
                acts
            },
            PhaseSummary::Stopping { .. } => {
                let acts: Vec<Action> = Vec::new();
                proof {
                    assert(actions_view(acts@) =~= Seq::<ActionView>::empty());
                }
                acts
            },
        }
    }

    /// The worker of `id` wound down: the transport stream is flushed
    /// and closed, and the session either leaves the registry or, when
    /// an update asked for it, starts afresh with the new payload.
    fn on_worker_done(&mut self, id: String) -> (acts: Vec<Action>)
        requires
            old(self).wf(),
        ensures
            final(self).wf(),
            final(self)@ === spec_step(old(self)@, EventView::WorkerDone { id: id@ }).0,
            actions_view(acts@) === spec_step(old(self)@, EventView::WorkerDone { id: id@ }).1,
    {
        let ghost pre = self@;
        let ghost idv = id@;
        match self.summarize(&id) {
            PhaseSummary::Absent => {
                let acts: Vec<Action> = Vec::new();
                proof {
                    assert(actions_view(acts@) =~= Seq::<ActionView>::empty());
                }
                acts
            },
            PhaseSummary::Starting { .. } => {
                let acts: Vec<Action> = Vec::new();
                proof {
                    assert(actions_view(acts@) =~= Seq::<ActionView>::empty());
                }
                acts
            },
            PhaseSummary::Running { handle, script: _ } => {
                let removed = self.registry.remove(&id);
                proof {
                    assert(removed is Some);
                    self.closed@ = self.closed@.insert(handle);
                }
                let mut acts: Vec<Action> = Vec::new();
                acts.push(Action::Flush { handle });
                acts.push(Action::Close { handle });
                proof {
                    lemma_wf_release(pre, self@, idv, handle);
                    assert(self@.sessions =~= spec_step(
                        pre,
                        EventView::WorkerDone { id: idv },
                    ).0.sessions);
                    assert(actions_view(acts@) =~= seq![
                        ActionView::Flush { handle },
                        ActionView::Close { handle },
                    ]);
                }
                acts
            },
            PhaseSummary::Stopping { handle, next, script: _ } => {
                match next {
                    FollowUp::Restart(p) => {
                        let action_id = id.clone();
                        let p_copy = clone_bytes(&p);
                        let replaced = self.registry.replace(
                            &id,
                            Session {
                                phase: SessionPhase::Starting { next: FollowUp::Proceed },
                                script: p,
                            },
                        );
                        proof {
                            assert(replaced);
                            self.closed@ = self.closed@.insert(handle);
                        }
                        let mut acts: Vec<Action> = Vec::new();
                        acts.push(Action::Flush { handle });
                        acts.push(Action::Close { handle });
                        acts.push(Action::OpenTransport { id: action_id, payload: p_copy });
                        proof {
                            lemma_wf_release(pre, self@, idv, handle);
                            assert(self@.sessions =~= spec_step(
                                pre,
                                EventView::WorkerDone { id: idv },
                            ).0.sessions);
                            assert(actions_view(acts@) =~= seq![
                                ActionView::Flush { handle },
                                ActionView::Close { handle },
                                ActionView::OpenTransport { id: idv, payload: p_copy@ },
                            ]);
                        }
                        acts
                    },
                    FollowUp::Proceed => {
                        let removed = self.registry.remove(&id);
                        proof {
                            assert(removed is Some);
                            self.closed@ = self.closed@.insert(handle);
                        }
                        let mut acts: Vec<Action> = Vec::new();
                        acts.push(Action::Flush { handle });
                        acts.push(Action::Close { handle });
                        proof {
                            lemma_wf_release(pre, self@, idv, handle);
                            assert(self@.sessions =~= spec_step(
                                pre,
                                EventView::WorkerDone { id: idv },
                            ).0.sessions);
                            assert(actions_view(acts@) =~= seq![
                                ActionView::Flush { handle },
                                ActionView::Close { handle },
                            ]);
                        }
                        acts
                    },
                    FollowUp::Discard => {
                        let removed = self.registry.remove(&id);
                        proof {
                            assert(removed is Some);
                            self.closed@ = self.closed@.insert(handle);
                        }
                        let mut acts: Vec<Action> = Vec::new();
                        acts.push(Action::Flush { handle });
                        acts.push(Action::Close { handle });
                        proof {
                            lemma_wf_release(pre, self@, idv, handle);
                            assert(self@.sessions =~= spec_step(
                                pre,
                                EventView::WorkerDone { id: idv },
                            ).0.sessions);
                            assert(actions_view(acts@) =~= seq![
                                ActionView::Flush { handle },
                                ActionView::Close { handle },
                            ]);
                        }
                        acts
                    },
                }
            },
        }
    }

    /// Takes one event and hands back, in order, the actions the
    /// process glue must perform for it; the new state and the actions
    /// are exactly those of [`spec_step`].
    pub fn handle_event(&mut self, ev: Event) -> (acts: Vec<Action>)
        requires
            old(self).wf(),
            event_admissible(old(self)@, ev@),
        ensures
            final(self).wf(),
            final(self)@ === spec_step(old(self)@, ev@).0,
            actions_view(acts@) === spec_step(old(self)@, ev@).1,
    {
        let ghost pre = self@;
        match ev {
            Event::Added { id, payload } => self.on_added(id, payload),
            Event::Updated { id, payload } => self.on_updated(id, payload),
            Event::Removed { id } => self.on_removed(id),
            Event::Opened { id, handle } => self.on_opened(id, handle),
            Event::OpenFailed { id } => self.on_open_failed(id),
            Event::Data { id, bytes } => {
                let ghost idv = id@;
                match self.summarize(&id) {
                    PhaseSummary::Running { handle, script: _ } => {
                        let mut acts: Vec<Action> = Vec::new();
                        acts.push(Action::Write { handle, bytes });
                        proof {
                            assert(actions_view(acts@) =~= spec_step(
                                pre,
                                EventView::Data { id: idv, bytes: acts@[0]->Write_bytes@ },
                            ).1);
                        }
                        acts
                    },
                    PhaseSummary::Absent => {
                        let acts: Vec<Action> = Vec::new();
                        proof {
                            assert(actions_view(acts@) =~= Seq::<ActionView>::empty());
                        }
                        acts
                    },
                    PhaseSummary::Starting { .. } => {
                        let acts: Vec<Action> = Vec::new();
                        proof {
                            assert(actions_view(acts@) =~= Seq::<ActionView>::empty());
                        }
                        acts
                    },
                    PhaseSummary::Stopping { .. } => {
                        let acts: Vec<Action> = Vec::new();
                        proof {
                            assert(actions_view(acts@) =~= Seq::<ActionView>::empty());
                        }
                        acts
                    },
                }
            },
            Event::Dropped { id } => {
                let ghost idv = id@;
                let mut acts: Vec<Action> = Vec::new();
                acts.push(Action::WarnDropped { id });
                proof {
                    assert(actions_view(acts@) =~= seq![ActionView::WarnDropped { id: idv }]);
                }
                acts
            },
            Event::WorkerDone { id } => self.on_worker_done(id),
        }
    }

    /// Whether no session is tracked; true once shutdown has drained
    /// everything.
    pub fn is_empty(&self) -> (r: bool)
        ensures
            r == (self@.sessions.dom() === Set::<Seq<char>>::empty()),
    {
        self.registry.is_empty()
    }

    /// The identities of all tracked sessions: every listed identity
    /// is tracked, every tracked identity is listed, none twice.
    pub fn snapshot(&self) -> (r: Vec<String>)
        requires
            self.wf(),
        ensures
            forall|i: int| #![auto] 0 <= i < r@.len() ==> self@.sessions.dom().contains(r@[i]@),
            forall|id: Seq<char>|
                self@.sessions.dom().contains(id) ==> exists|i: int|
                    #![auto]
                    0 <= i < r@.len() && r@[i]@ == id,
            forall|i: int, j: int| #![auto] 0 <= i < j < r@.len() ==> r@[i]@ != r@[j]@,
    {
        self.registry.snapshot()
    }

    /// Starts the shutdown barrier: every session is marked to tear
    /// down for good, and a cancel is ordered for every running
    /// worker.  Afterwards the glue feeds the remaining open-outcome
    /// and worker-done events back in until nothing is tracked; no new
    /// session starts meanwhile.
    #[verifier::rlimit(80)]
    pub fn shutdown_begin(&mut self) -> (acts: Vec<Action>)
        requires
            old(self).wf(),
        ensures
            final(self).wf(),
            final(self)@.opened === old(self)@.opened,
            final(self)@.closed === old(self)@.closed,
            final(self)@.sessions.dom() === old(self)@.sessions.dom(),
            forall|id: Seq<char>|
                #![auto]
                old(self)@.sessions.dom().contains(id) ==> final(self)@.sessions[id]
                    === (SessionView {
                    phase: spec_mark_shutdown(old(self)@.sessions[id].phase),
                    script: old(self)@.sessions[id].script,
                }),
            all_discard(final(self)@.sessions),
            forall|j: int|
                #![trigger acts@[j]]
                0 <= j < acts@.len() ==> is_cancel_of_running(acts@[j]@, old(self)@.sessions),
            forall|id: Seq<char>|
                #![auto]
                old(self)@.sessions.dom().contains(id) && old(self)@.sessions[id].phase is Running
                    ==> exists|j: int|
                    #![auto]
                    0 <= j < acts@.len() && acts@[j]@ == (ActionView::CancelWorker { id }),
    {
        let ghost pre = self@;
        let ids = self.registry.snapshot();
        let mut acts: Vec<Action> = Vec::new();
        let mut i: usize = 0;
        while i < ids.len()
            invariant
                self.registry.wf(),
                spec_wf(self@),
                self@.opened === pre.opened,
                self@.closed === pre.closed,
                self@.sessions.dom() === pre.sessions.dom(),
                0 <= i <= ids@.len(),
                forall|k: int| #![auto] 0 <= k < ids@.len() ==> pre.sessions.dom().contains(
                    ids@[k]@,
                ),
                forall|id: Seq<char>|
                    pre.sessions.dom().contains(id) ==> exists|k: int|
                        #![auto]
                        0 <= k < ids@.len() && ids@[k]@ == id,
                forall|k1: int, k2: int| #![auto] 0 <= k1 < k2 < ids@.len() ==> ids@[k1]@
                    != ids@[k2]@,
                forall|k: int|
                    #![auto]
                    0 <= k < i ==> self@.sessions[ids@[k]@] === (SessionView {
                        phase: spec_mark_shutdown(pre.sessions[ids@[k]@].phase),
                        script: pre.sessions[ids@[k]@].script,
                    }),
                forall|k: int|
                    #![auto]
                    i <= k < ids@.len() ==> self@.sessions[ids@[k]@] === pre.sessions[ids@[k]@],
                forall|j: int|
                    #![trigger acts@[j]]
                    0 <= j < acts@.len() ==> exists|k: int|
                        #![auto]
                        0 <= k < i && acts@[j]@ == (ActionView::CancelWorker { id: ids@[k]@ })
                            && pre.sessions[ids@[k]@].phase is Running,
                forall|k: int|
                    #![auto]
                    0 <= k < i && pre.sessions[ids@[k]@].phase is Running ==> exists|j: int|
                        #![auto]
                        0 <= j < acts@.len() && acts@[j]@ == (ActionView::CancelWorker {
                            id: ids@[k]@,
                        }),
            decreases ids@.len() - i,
        {
            let ghost snap = self@;
            let id = &ids[i];
            let ghost idv = id@;
            match self.summarize(id) {
                PhaseSummary::Absent => {
                    proof {
                        assert(false);
                    }
                },
                PhaseSummary::Starting { next: _, script } => {
                    let replaced = self.registry.replace(
                        id,
                        Session {
                            phase: SessionPhase::Starting { next: FollowUp::Discard },
                            script,
                        },
                    );
                    proof {
                        assert(replaced);
                        lemma_wf_same_handles(snap, self@, idv);
                    }
                },
                PhaseSummary::Running { handle, script } => {
                    let action_id = id.clone();
                    let replaced = self.registry.replace(
                        id,
                        Session {
                            phase: SessionPhase::Stopping { handle, next: FollowUp::Discard },
                            script,
                        },
                    );
                    let ghost acts0 = acts@;
                    acts.push(Action::CancelWorker { id: action_id });
                    proof {
                        assert(replaced);
                        lemma_wf_same_handles(snap, self@, idv);
                        assert(acts@[acts@.len() - 1]@ == (ActionView::CancelWorker {
                            id: ids@[i as int]@,
                        }));
                        assert forall|k: int|
                            #![auto]
                            0 <= k < i + 1 && pre.sessions[ids@[k]@].phase is Running implies exists|j: int|
                            #![auto]
                            0 <= j < acts@.len() && acts@[j]@ == (ActionView::CancelWorker {
                                id: ids@[k]@,
                            }) by {
                            if k < i {
                                let j = choose|j: int|
                                    #![auto]
                                    0 <= j < acts0.len() && acts0[j]@ == (ActionView::CancelWorker {
                                        id: ids@[k]@,
                                    });
                                assert(acts@[j]@ == (ActionView::CancelWorker { id: ids@[k]@ }));
                            } else {
                                assert(acts@[acts@.len() - 1]@ == (ActionView::CancelWorker {
                                    id: ids@[k]@,
                                }));
                            }
                        }
                    }
                },
                PhaseSummary::Stopping { handle, next: _, script } => {
                    let replaced = self.registry.replace(
                        id,
                        Session {
                            phase: SessionPhase::Stopping { handle, next: FollowUp::Discard },
                            script,
                        },
                    );
                    proof {
                        assert(replaced);
                        lemma_wf_same_handles(snap, self@, idv);
                    }
                },
            }
            proof {
                assert(self@.sessions[ids@[i as int]@] === (SessionView {
                    phase: spec_mark_shutdown(pre.sessions[ids@[i as int]@].phase),
                    script: pre.sessions[ids@[i as int]@].script,
                }));
            }
            i = i + 1;
        }
        proof {
            assert forall|id: Seq<char>|
                #![auto]
                pre.sessions.dom().contains(id) implies self@.sessions[id] === (SessionView {
                phase: spec_mark_shutdown(pre.sessions[id].phase),
                script: pre.sessions[id].script,
            }) by {
                let k = choose|k: int| #![auto] 0 <= k < ids@.len() && ids@[k]@ == id;
            }
            assert forall|id: Seq<char>| #[trigger]
                self@.sessions.dom().contains(id) implies is_discarding(
                self@.sessions[id].phase,
            ) by {
                let k = choose|k: int| #![auto] 0 <= k < ids@.len() && ids@[k]@ == id;
            }
            assert forall|j: int| #![trigger acts@[j]] 0 <= j < acts@.len() implies is_cancel_of_running(
                acts@[j]@,
                pre.sessions,
            ) by {
                let k = choose|k: int|
                    #![auto]
                    0 <= k < i && acts@[j]@ == (ActionView::CancelWorker { id: ids@[k]@ })
                        && pre.sessions[ids@[k]@].phase is Running;
                assert(pre.sessions.dom().contains(ids@[k]@));
                assert(acts@[j]@ == (ActionView::CancelWorker { id: ids@[k]@ }));
            }
        }
        acts
    }
}

/// Whether an action is the cancellation of a worker that was running
/// in `s`.
pub open spec fn is_cancel_of_running(a: ActionView, s: Map<Seq<char>, SessionView>) -> bool {
    exists|id: Seq<char>|
        #![auto]
        a == (ActionView::CancelWorker { id }) && s.dom().contains(id) && s[id].phase is Running
}

/// A session phase marked by the shutdown sweep: whatever it was
/// doing, its follow-up is to tear down for good.
pub open spec fn spec_mark_shutdown(p: PhaseView) -> PhaseView {
    match p {
        PhaseView::Starting { .. } => PhaseView::Starting { next: FollowUpView::Discard },
        PhaseView::Running { handle } => PhaseView::Stopping {
            handle,
            next: FollowUpView::Discard,
        },
        PhaseView::Stopping { handle, .. } => PhaseView::Stopping {
            handle,
            next: FollowUpView::Discard,
        },
    }
}

/// Whether a phase is bound to tear down for good.
pub open spec fn is_discarding(p: PhaseView) -> bool {
    match p {
        PhaseView::Starting { next } => next == FollowUpView::Discard,
        PhaseView::Running { .. } => false,
        PhaseView::Stopping { next, .. } => next == FollowUpView::Discard,
    }
}

/// Whether every tracked session is bound to tear down for good, as
/// they all are once the shutdown sweep ran.
pub open spec fn all_discard(s: Map<Seq<char>, SessionView>) -> bool {
    forall|id: Seq<char>| #[trigger] s.dom().contains(id) ==> is_discarding(s[id].phase)
}

/// A duplicated assignment is absorbed: delivering the same `Added`
/// twice in a row leaves exactly the state the first delivery left,
/// and orders nothing the second time.  Together with the registry's
/// unique keys this is the at-most-one-session guarantee: a duplicate
/// never produces a second live session for the identity.
pub proof fn lemma_duplicate_added(m: ManagerView, id: Seq<char>, payload: Seq<u8>)
    ensures
        ({
            let first = spec_step_added(m, id, payload);
            let second = spec_step_added(first.0, id, payload);
            second.0 === first.0 && second.1 === Seq::<ActionView>::empty()
        }),
{
}

/// A remove for an identity no session is tracked under is a no-op:
/// the state stands and nothing is ordered, so such a remove never
/// raises an error.
pub proof fn lemma_removed_unknown(m: ManagerView, id: Seq<char>)
    requires
        !m.sessions.dom().contains(id),
    ensures
        spec_step(m, EventView::Removed { id }).0 === m,
        spec_step(m, EventView::Removed { id }).1 === Seq::<ActionView>::empty(),
{
}

/// An update of a running session is a stop followed by a restart: the
/// update orders exactly the cancel of the worker, and when the worker
/// winds down the old transport handle is closed — for the first and
/// only time — strictly before the open with the new payload is
/// ordered.
pub proof fn lemma_update_restart(m: ManagerView, id: Seq<char>, h: i32, pb: Seq<u8>)
    requires
        spec_wf(m),
        m.sessions.dom().contains(id),
        m.sessions[id].phase == (PhaseView::Running { handle: h }),
        spec_script_of(pb) is Ok,
    ensures
        spec_step(m, EventView::Updated { id, payload: pb }).1 === seq![
            ActionView::CancelWorker { id },
        ],
        ({
            let m1 = spec_step(m, EventView::Updated { id, payload: pb }).0;
            let m2 = spec_step(m1, EventView::WorkerDone { id }).0;
            let acts = spec_step(m1, EventView::WorkerDone { id }).1;
            &&& acts === seq![
                ActionView::Flush { handle: h },
                ActionView::Close { handle: h },
                ActionView::OpenTransport { id, payload: pb },
            ]
            &&& m.closed.count(h) == 0
            &&& m2.closed.count(h) == 1
            &&& m2.sessions[id].script === pb
        }),
{
    broadcast use vstd::multiset::group_multiset_axioms;

    assert(live_handle(m.sessions, h));
    let m1 = spec_step(m, EventView::Updated { id, payload: pb }).0;
    assert(m1.sessions[id].phase == (PhaseView::Stopping {
        handle: h,
        next: FollowUpView::Restart(pb),
    }));
}

/// Once shutdown has drained the registry, every transport handle ever
/// opened has been ordered closed exactly once: nothing leaks and
/// nothing is closed twice.
pub proof fn lemma_shutdown_accounting(m: ManagerView)
    requires
        spec_wf(m),
        m.sessions.dom() === Set::<Seq<char>>::empty(),
    ensures
        forall|h: i32| #![auto] m.closed.count(h) == m.opened.count(h),
        forall|h: i32| #![auto] m.opened.count(h) >= 1 ==> m.closed.count(h) == 1,
{
    assert forall|h: i32| #![auto] !live_handle(m.sessions, h) by {
        if live_handle(m.sessions, h) {
            let w = choose|w: Seq<char>| #![auto] m.sessions.dom().contains(w)
                && m.sessions[w].phase.handle() == Some(h);
        }
    }
}

/// While the shutdown barrier stands, the completion events still
/// outstanding only shrink what is tracked: no transport open and no
/// worker spawn is ever ordered, so shutdown makes progress towards
/// the empty registry.
pub proof fn lemma_shutdown_drains(m: ManagerView, ev: EventView)
    requires
        spec_wf(m),
        all_discard(m.sessions),
        event_admissible(m, ev),
        ev is Opened || ev is OpenFailed || ev is WorkerDone,
    ensures
        ({
            let m2 = spec_step(m, ev).0;
            let acts = spec_step(m, ev).1;
            &&& all_discard(m2.sessions)
            &&& m2.sessions.dom().subset_of(m.sessions.dom())
            &&& forall|j: int|
                #![trigger acts[j]]
                0 <= j < acts.len() ==> !(acts[j] is OpenTransport) && !(acts[j] is SpawnWorker)
        }),
{
    let m2 = spec_step(m, ev).0;
    match ev {
        EventView::Opened { id, handle } => {
            if m.sessions.dom().contains(id) {
                assert(is_discarding(m.sessions[id].phase));
            }
            assert forall|j: Seq<char>| #[trigger] m2.sessions.dom().contains(j) implies
                m.sessions.dom().contains(j) && is_discarding(m2.sessions[j].phase) by {
                assert(m2.sessions[j] === m.sessions[j]);
            }
        },
        EventView::OpenFailed { id } => {
            if m.sessions.dom().contains(id) {
                assert(is_discarding(m.sessions[id].phase));
            }
            assert forall|j: Seq<char>| #[trigger] m2.sessions.dom().contains(j) implies
                m.sessions.dom().contains(j) && is_discarding(m2.sessions[j].phase) by {
                assert(m2.sessions[j] === m.sessions[j]);
            }
        },
        EventView::WorkerDone { id } => {
            if m.sessions.dom().contains(id) {
                assert(is_discarding(m.sessions[id].phase));
            }
            assert forall|j: Seq<char>| #[trigger] m2.sessions.dom().contains(j) implies
                m.sessions.dom().contains(j) && is_discarding(m2.sessions[j].phase) by {
                assert(m2.sessions[j] === m.sessions[j]);
            }
        },
        _ => {},
    }
}

} // verus!
