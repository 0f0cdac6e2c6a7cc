//! The endpoint's identity in the coordination namespace: its stable
//! name, the paths computed from it, and the liveness marker payload.
//!
//! The endpoint registers itself under a well-known path as an
//! ephemeral marker node — the coordination service removes the marker
//! when the process disappears, which makes it the fleet's liveness
//! signal — and watches its own assignment path for scripts.  The name
//! comes from the host (the process glue reads it into a buffer); the
//! path arithmetic is verified here.

use vstd::prelude::*;
use vstd::string::StringExecFns;

use crate::config::spec_find_byte;

verus! {

/// Root of the coordination namespace.
pub const DDTRACE_PATH: &'static str = "/ddtrace";

/// Where every endpoint registers its liveness marker.
pub const DDTRACE_ENDPOINTS_PATH: &'static str = "/ddtrace/endpoints";

/// Under which the per-endpoint assignment paths stand.
pub const DDTRACE_INSTRUMENTATION_PATH: &'static str = "/ddtrace/instrumentation";

/// The host name read into `buf`: the bytes up to the first NUL, or
/// all of them when no NUL terminates the name.
pub fn hostname_from_buffer(buf: &[u8]) -> (r: Vec<u8>)
    ensures
        r@ == buf@.take(spec_find_byte(buf@, 0, buf@.len() as int, 0)),
{
    let mut end: usize = 0;
    while end < buf.len() && buf[end] != 0
        invariant
            0 <= end <= buf@.len(),
            spec_find_byte(buf@, 0, buf@.len() as int, 0) == spec_find_byte(
                buf@,
                end as int,
                buf@.len() as int,
                0,
            ),
        decreases buf@.len() - end,
    {
        end = end + 1;
    }
    let name = vstd::slice::slice_subrange(buf, 0, end);
    proof {
        assert(name@ =~= buf@.take(end as int));
    }
    vstd::slice::slice_to_vec(name)
}

/// The path of this endpoint's ephemeral liveness marker.
pub fn registration_path(name: &str) -> (r: String)
    ensures
        r@ == DDTRACE_ENDPOINTS_PATH@ + "/"@ + name@,
{
    let mut path = String::from_str(DDTRACE_ENDPOINTS_PATH);
    path.append("/");
    path.append(name);
    path
}

/// The path this endpoint watches for its script assignments.
pub fn assignment_path(name: &str) -> (r: String)
    ensures
        r@ == DDTRACE_INSTRUMENTATION_PATH@ + "/"@ + name@,
{
    let mut path = String::from_str(DDTRACE_INSTRUMENTATION_PATH);
    path.append("/");
    path.append(name);
    path
}

/// The liveness marker's payload: the agent's name and version, in the
/// form `name (version)`.
pub fn registration_payload(name: &str, version: &str) -> (r: String)
    ensures
        r@ == name@ + " ("@ + version@ + ")"@,
{
    let mut payload = String::from_str(name);
    payload.append(" (");
    payload.append(version);
    payload.append(")");
    payload
}

/// What the coordination client reports of its connection.
#[derive(PartialEq, Eq, Structural, Clone, Copy, Debug)]
pub enum CoordinationState {
    Connected,
    Disconnected,
    Expired,
}

/// Whether a connection state change obliges the endpoint to redo its
/// self-registration: only a (re)established connection does, since
/// the ephemeral marker vanishes with the old session and the service
/// is unreachable in the other states.
pub fn must_reregister(state: CoordinationState) -> (r: bool)
    ensures
        r == (state == CoordinationState::Connected),
{
    match state {
        CoordinationState::Connected => true,
        CoordinationState::Disconnected => false,
        CoordinationState::Expired => false,
    }
}

} // verus!
