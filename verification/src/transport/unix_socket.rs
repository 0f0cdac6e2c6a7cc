//! The local socket transport plugin: forwards trace records to a
//! filesystem socket path.
//!
//! The payload must name the socket under the transport table: a text
//! `path`.  A payload without it never yields a handle.  The plugin
//! buffers written bytes per handle; the process glue drains the
//! outgoing queue onto the connected socket.

use vstd::prelude::*;

use crate::config::{ConfigError, ConfigValue, ValueView};
use crate::transport::{HandleTable, StreamView};

verus! {

/// Status reported when a call succeeds.
pub const SUCCESS: i32 = 0;

/// Status reported for a handle no stream is open under, or for an
/// exhausted handle space.
pub const ERR_INVALID_HANDLE: i32 = -1;

/// Status reported for a payload this plugin cannot open from.
pub const ERR_INVALID_CONFIG: i32 = -2;

/// The key under which the socket path stands.
pub open spec fn path_key() -> Seq<u8> {
    crate::config::ascii_seq("path"@)
}

/// The socket path a payload asks this plugin to reach: a text `path`
/// in the transport's server table.
pub open spec fn spec_path_of(t: Seq<u8>) -> Result<Seq<u8>, ConfigError> {
    match crate::config::spec_config_lookup(t, crate::config::server_table(), path_key()) {
        Ok(Some(ValueView::Text(p))) => Ok(p),
        Ok(Some(ValueView::Number(_))) => Err(ConfigError::Missing),
        Ok(None) => Err(ConfigError::Missing),
        Err(e) => Err(e),
    }
}

/// Extracts the socket path this plugin is to connect to.
pub fn path_of(t: &[u8]) -> (r: Result<Vec<u8>, ConfigError>)
    ensures
        match r {
            Ok(p) => spec_path_of(t@) == Ok::<Seq<u8>, ConfigError>(p@),
            Err(e) => spec_path_of(t@) == Err::<Seq<u8>, ConfigError>(e),
        },
{
    proof {
        reveal_strlit("instrumentation.server");
        reveal_strlit("path");
    }
    let table = crate::config::ascii_bytes("instrumentation.server");
    let path_k = crate::config::ascii_bytes("path");
    match crate::config::find_value(t, table, path_k) {
        Ok(Some(ConfigValue::Text(p))) => Ok(p),
        Ok(Some(ConfigValue::Number(_))) => Err(ConfigError::Missing),
        Ok(None) => Err(ConfigError::Missing),
        Err(e) => Err(e),
    }
}

/// This plugin's state: a connection identifier drawn at construction
/// and the table of open streams.
pub struct Context {
    conn_id: i32,
    streams: HandleTable,
}

impl Context {
    /// The open streams, by handle.
    pub closed spec fn view(&self) -> Map<i32, StreamView> {
        self.streams@
    }

    /// The handle the next successful open will return.
    pub closed spec fn spec_next(&self) -> i32 {
        self.streams.spec_next()
    }

    pub closed spec fn wf(&self) -> bool {
        self.streams.wf()
    }

    /// A fresh context with no open streams.  Handles start at the
    /// drawn connection identifier, or at zero when the draw is
    /// negative, and rise from there.
    pub fn new() -> (r: Context)
        ensures
            r.wf(),
            r@ === Map::<i32, StreamView>::empty(),
    {
        let conn_id = crate::transport::random_conn_id();
        Context { conn_id, streams: HandleTable::new(conn_id) }
    }
}

/// Opens a stream for one session: the payload must name a socket
/// path, and each successful open returns a fresh handle with empty
/// buffers.  A bad payload reports the configuration error status; an
/// exhausted handle space reports the handle error status; neither
/// changes anything.
pub fn dt_transport_open(ctx: &mut Context, config: &[u8]) -> (h: i32)
    requires
        old(ctx).wf(),
    ensures
        final(ctx).wf(),
        h >= 0 ==> {
            &&& spec_path_of(config@) is Ok
            &&& h == old(ctx).spec_next()
            &&& final(ctx).spec_next() == h + 1
            &&& !old(ctx)@.dom().contains(h)
            &&& final(ctx)@ === old(ctx)@.insert(
                h,
                StreamView { buffered: Seq::empty(), outgoing: Seq::empty() },
            )
        },
        h == ERR_INVALID_CONFIG ==> !(spec_path_of(config@) is Ok) && *final(ctx) === *old(ctx),
        h == ERR_INVALID_HANDLE ==> old(ctx).spec_next() == i32::MAX && *final(ctx) === *old(ctx),
        h >= 0 || h == ERR_INVALID_CONFIG || h == ERR_INVALID_HANDLE,
        (spec_path_of(config@) is Ok && old(ctx).spec_next() != i32::MAX) ==> h >= 0,
{
    match path_of(config) {
        Ok(_path) => {
            match ctx.streams.open_stream() {
                Some(h) => h,
                None => ERR_INVALID_HANDLE,
            }
        },
        Err(_) => ERR_INVALID_CONFIG,
    }
}

/// Closes a stream; a second close of the same handle reports the
/// handle error status and is harmless.
pub fn dt_transport_close(ctx: &mut Context, handle: i32) -> (r: i32)
    requires
        old(ctx).wf(),
    ensures
        final(ctx).wf(),
        r == SUCCESS <==> old(ctx)@.dom().contains(handle),
        r == SUCCESS ==> final(ctx)@ === old(ctx)@.remove(handle),
        r != SUCCESS ==> r == ERR_INVALID_HANDLE && *final(ctx) === *old(ctx),
{
    if ctx.streams.close_stream(handle) {
        SUCCESS
    } else {
        ERR_INVALID_HANDLE
    }
}

/// Buffers `data` for the stream under `handle`.
pub fn dt_transport_write(ctx: &mut Context, handle: i32, data: &[u8]) -> (r: i32)
    requires
        old(ctx).wf(),
    ensures
        final(ctx).wf(),
        r == SUCCESS <==> old(ctx)@.dom().contains(handle),
        r == SUCCESS ==> final(ctx)@ === old(ctx)@.insert(
            handle,
            StreamView {
                buffered: old(ctx)@[handle].buffered + data@,
                outgoing: old(ctx)@[handle].outgoing,
            },
        ),
        r != SUCCESS ==> r == ERR_INVALID_HANDLE && *final(ctx) === *old(ctx),
{
    if ctx.streams.write_stream(handle, data) {
        SUCCESS
    } else {
        ERR_INVALID_HANDLE
    }
}

/// Moves everything buffered for `handle` to its outgoing queue.
pub fn dt_transport_flush(ctx: &mut Context, handle: i32) -> (r: i32)
    requires
        old(ctx).wf(),
    ensures
        final(ctx).wf(),
        r == SUCCESS <==> old(ctx)@.dom().contains(handle),
        r == SUCCESS ==> final(ctx)@ === old(ctx)@.insert(
            handle,
            StreamView {
                buffered: Seq::empty(),
                outgoing: old(ctx)@[handle].outgoing + old(ctx)@[handle].buffered,
            },
        ),
        r != SUCCESS ==> r == ERR_INVALID_HANDLE && *final(ctx) === *old(ctx),
{
    if ctx.streams.flush_stream(handle) {
        SUCCESS
    } else {
        ERR_INVALID_HANDLE
    }
}

/// Buffers all of `data` for the stream under `handle`; the whole
/// buffer is retained, so this coincides with `dt_transport_write`.
pub fn dt_transport_writeall(ctx: &mut Context, handle: i32, data: &[u8]) -> (r: i32)
    requires
        old(ctx).wf(),
    ensures
        final(ctx).wf(),
        r == SUCCESS <==> old(ctx)@.dom().contains(handle),
        r == SUCCESS ==> final(ctx)@ === old(ctx)@.insert(
            handle,
            StreamView {
                buffered: old(ctx)@[handle].buffered + data@,
                outgoing: old(ctx)@[handle].outgoing,
            },
        ),
        r != SUCCESS ==> r == ERR_INVALID_HANDLE && *final(ctx) === *old(ctx),
{
    if ctx.streams.write_stream(handle, data) {
        SUCCESS
    } else {
        ERR_INVALID_HANDLE
    }
}

/// Hands out the outgoing bytes for the wire and clears the queue.
pub fn take_outgoing(ctx: &mut Context, handle: i32) -> (r: Option<Vec<u8>>)
    requires
        old(ctx).wf(),
    ensures
        final(ctx).wf(),
        match r {
            Some(bytes) => old(ctx)@.dom().contains(handle) && bytes@ === old(
                ctx,
            )@[handle].outgoing && final(ctx)@ === old(ctx)@.insert(
                handle,
                StreamView { buffered: old(ctx)@[handle].buffered, outgoing: Seq::empty() },
            ),
            None => !old(ctx)@.dom().contains(handle) && *final(ctx) === *old(ctx),
        },
{
    ctx.streams.take_outgoing(handle)
}

} // verus!
