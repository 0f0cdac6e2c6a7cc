//! The per-script execution session: its worker state machine and the
//! decisions taken around the driver's blocking pump loop.
//!
//! A session runs the instrumentation driver's pump call in a loop on a
//! dedicated worker.  After every pump call the worker decides whether to
//! keep pumping or to stop; stopping is cooperative (the pump call itself
//! is never preempted).  The decision logic is pure and verified here; the
//! blocking calls themselves stay outside the library.

use vstd::prelude::*;

verus! {

/// Message sent to a session's worker over its cancellation channel.
#[derive(PartialEq, Eq, Structural, Clone, Copy, Debug)]
pub enum InstrumentationThreadMessage {
    Stop,
}

/// Status reported by one call of the driver's blocking pump.
#[derive(PartialEq, Eq, Structural, Clone, Copy, Debug)]
pub enum PumpStatus {
    /// More work may follow.
    Okay,
    /// The driver reports completion.
    Done,
    /// The driver reports an error; the error code says which.
    Error,
}

/// Driver error code for an interrupted system call: a transient
/// condition that must not stop the session.
pub const DRIVER_EINTR: i32 = 9959;

/// Record action code that marks the end of one buffered record.
pub const RECORD_END_ACTION: i32 = 2;

/// Consume-callback reply: take the record just delivered.
pub const CONSUME_THIS: i32 = 0;

/// Consume-callback reply: move on to the next record.
pub const CONSUME_NEXT: i32 = 1;

/// True exactly when a pump outcome, by itself, makes the worker stop:
/// driver completion, or a driver error other than an interrupt.
pub open spec fn spec_pump_is_terminal(status: PumpStatus, errno: i32) -> bool {
    match status {
        PumpStatus::Okay => false,
        PumpStatus::Done => true,
        PumpStatus::Error => errno != DRIVER_EINTR,
    }
}

/// Decides whether the pump loop keeps running after one pump call.
///
/// The loop continues unless the driver finished, the driver failed with
/// a non-transient error, or a stop message was drawn from the session's
/// cancellation channel.  An interrupted pump with no stop message keeps
/// the session alive.
pub fn pump_continue(
    status: PumpStatus,
    errno: i32,
    msg: Option<InstrumentationThreadMessage>,
) -> (cont: bool)
    ensures
        cont == (!spec_pump_is_terminal(status, errno) && msg !== Some(
            InstrumentationThreadMessage::Stop,
        )),
{
    let terminal = match status {
        PumpStatus::Okay => false,
        PumpStatus::Done => true,
        PumpStatus::Error => errno != DRIVER_EINTR,
    };
    let cancelled = match msg {
        Some(m) => {
            proof {
                assert(msg === Some(m));
            }
            true
        },
        None => false,
    };
    !terminal && !cancelled
}

/// What the lifecycle manager does with a session once its current
/// activity winds down.
#[derive(Debug)]
pub enum FollowUp {
    /// Nothing pending: the session proceeds normally.
    Proceed,
    /// A remove was observed: tear the session down for good.
    Discard,
    /// An update was observed: tear the session down, then start afresh
    /// with the payload carried here.
    Restart(Vec<u8>),
}

/// Spec-level value of a [`FollowUp`].
pub enum FollowUpView {
    Proceed,
    Discard,
    Restart(Seq<u8>),
}

impl View for FollowUp {
    type V = FollowUpView;

    open spec fn view(&self) -> FollowUpView {
        match self {
            FollowUp::Proceed => FollowUpView::Proceed,
            FollowUp::Discard => FollowUpView::Discard,
            FollowUp::Restart(p) => FollowUpView::Restart(p@),
        }
    }
}

/// Where a session stands in its lifecycle.  A session in none of these
/// states is terminated and absent from the registry.
#[derive(Debug)]
pub enum SessionPhase {
    /// The transport open was requested; no worker runs yet.
    Starting { next: FollowUp },
    /// The transport is open under `handle` and the worker pumps.
    Running { handle: i32 },
    /// Cancellation was signalled; the worker has not yet wound down.
    Stopping { handle: i32, next: FollowUp },
}

/// Spec-level value of a [`SessionPhase`].
pub enum PhaseView {
    Starting { next: FollowUpView },
    Running { handle: i32 },
    Stopping { handle: i32, next: FollowUpView },
}

impl View for SessionPhase {
    type V = PhaseView;

    open spec fn view(&self) -> PhaseView {
        match self {
            SessionPhase::Starting { next } => PhaseView::Starting { next: next@ },
            SessionPhase::Running { handle } => PhaseView::Running { handle: *handle },
            SessionPhase::Stopping { handle, next } => PhaseView::Stopping {
                handle: *handle,
                next: next@,
            },
        }
    }
}

impl PhaseView {
    /// The transport handle owned by a session in this phase, if any.
    pub open spec fn handle(self) -> Option<i32> {
        match self {
            PhaseView::Starting { .. } => None,
            PhaseView::Running { handle } => Some(handle),
            PhaseView::Stopping { handle, .. } => Some(handle),
        }
    }
}

/// One tracked execution session: its lifecycle phase and the assignment
/// payload it was started from.
#[derive(Debug)]
pub struct Session {
    pub phase: SessionPhase,
    pub script: Vec<u8>,
}

/// Spec-level value of a [`Session`].
pub struct SessionView {
    pub phase: PhaseView,
    pub script: Seq<u8>,
}

impl View for Session {
    type V = SessionView;

    open spec fn view(&self) -> SessionView {
        SessionView { phase: self.phase@, script: self.script@ }
    }
}

/// What the record-consume callback does with one delivered record.
#[derive(PartialEq, Eq, Structural, Clone, Copy, Debug)]
pub struct RecordStep {
    /// Reply handed back to the driver: `CONSUME_THIS` or `CONSUME_NEXT`.
    pub reply: i32,
    /// Whether the buffered bytes are flushed to the transport first.
    pub flush: bool,
}

/// Decides how the probe-data callback treats one probe firing: every
/// record is taken in place; the callback only reads the probe
/// description on the way through.
pub fn consume_probe() -> (r: i32)
    ensures
        r == CONSUME_THIS,
{
    CONSUME_THIS
}

/// Decides how the consume callback treats one record.
///
/// A missing record or a record whose action marks a record boundary ends
/// the current batch: the transport is flushed and the driver told to
/// advance.  Any other record is consumed in place without a flush.
pub fn consume_record(rec_present: bool, action: i32) -> (step: RecordStep)
    ensures
        step.flush == (!rec_present || action == RECORD_END_ACTION),
        step.reply == if step.flush {
            CONSUME_NEXT
        } else {
            CONSUME_THIS
        },
{
    if !rec_present || action == RECORD_END_ACTION {
        RecordStep { reply: CONSUME_NEXT, flush: true }
    } else {
        RecordStep { reply: CONSUME_THIS, flush: false }
    }
}

} // verus!
