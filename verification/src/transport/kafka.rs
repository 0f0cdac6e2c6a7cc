//! The message-queue transport plugin: forwards trace records as
//! produced messages on a fixed topic.
//!
//! This plugin reads no fields of its own from the payload: any
//! assignment may open a stream, and the broker address is the process
//! glue's concern.  The plugin buffers written bytes per handle; the
//! glue drains the outgoing queue into the producer.

use vstd::prelude::*;

use crate::transport::{HandleTable, StreamView};

verus! {

/// Status reported when a call succeeds.
pub const KAFKA_SUCCESS: i32 = 0;

/// The one status this plugin reports for any failure.
pub const KAFKA_ERROR: i32 = -1;

/// This plugin's state: a connection identifier drawn at construction
/// and the table of open streams.
pub struct Context {
    conn_id: i32,
    streams: HandleTable,
}

impl Context {
    /// The open streams, by handle.
    pub closed spec fn view(&self) -> Map<i32, StreamView> {
        self.streams@
    }

    /// The handle the next successful open will return.
    pub closed spec fn spec_next(&self) -> i32 {
        self.streams.spec_next()
    }

    pub closed spec fn wf(&self) -> bool {
        self.streams.wf()
    }

    /// A fresh context with no open streams.  Handles start at the
    /// drawn connection identifier, or at zero when the draw is
    /// negative, and rise from there.
    pub fn new() -> (r: Context)
        ensures
            r.wf(),
            r@ === Map::<i32, StreamView>::empty(),
    {
        let conn_id = crate::transport::random_conn_id();
        Context { conn_id, streams: HandleTable::new(conn_id) }
    }
}

/// Brings the plugin up; nothing to prepare.
pub fn dt_transport_init() -> (r: i32)
    ensures
        r == KAFKA_SUCCESS,
{
    KAFKA_SUCCESS
}

/// Tears the plugin down; nothing to release.
pub fn dt_transport_fini() -> (r: i32)
    ensures
        r == KAFKA_SUCCESS,
{
    KAFKA_SUCCESS
}

/// Opens a stream for one session; any payload is acceptable to this
/// plugin, so only an exhausted handle space fails.
pub fn dt_transport_open(ctx: &mut Context, config: &[u8]) -> (h: i32)
    requires
        old(ctx).wf(),
    ensures
        final(ctx).wf(),
        h != KAFKA_ERROR ==> {
            &&& h >= 0
            &&& h == old(ctx).spec_next()
            &&& final(ctx).spec_next() == h + 1
            &&& !old(ctx)@.dom().contains(h)
            &&& final(ctx)@ === old(ctx)@.insert(
                h,
                StreamView { buffered: Seq::empty(), outgoing: Seq::empty() },
            )
        },
        h == KAFKA_ERROR ==> old(ctx).spec_next() == i32::MAX && *final(ctx) === *old(ctx),
        old(ctx).spec_next() != i32::MAX ==> h != KAFKA_ERROR,
{
    let _ = config;
    match ctx.streams.open_stream() {
        Some(h) => {
            proof {
                assert(h != KAFKA_ERROR);
            }
            h
        },
        None => KAFKA_ERROR,
    }
}

/// Closes a stream; a second close of the same handle reports the
/// error status and is harmless.
pub fn dt_transport_close(ctx: &mut Context, handle: i32) -> (r: i32)
    requires
        old(ctx).wf(),
    ensures
        final(ctx).wf(),
        r == KAFKA_SUCCESS <==> old(ctx)@.dom().contains(handle),
        r == KAFKA_SUCCESS ==> final(ctx)@ === old(ctx)@.remove(handle),
        r != KAFKA_SUCCESS ==> r == KAFKA_ERROR && *final(ctx) === *old(ctx),
{
    if ctx.streams.close_stream(handle) {
        KAFKA_SUCCESS
    } else {
        KAFKA_ERROR
    }
}

/// Buffers `data` as one produced message's bytes for `handle`.
pub fn dt_transport_write(ctx: &mut Context, handle: i32, data: &[u8]) -> (r: i32)
    requires
        old(ctx).wf(),
    ensures
        final(ctx).wf(),
        r == KAFKA_SUCCESS <==> old(ctx)@.dom().contains(handle),
        r == KAFKA_SUCCESS ==> final(ctx)@ === old(ctx)@.insert(
            handle,
            StreamView {
                buffered: old(ctx)@[handle].buffered + data@,
                outgoing: old(ctx)@[handle].outgoing,
            },
        ),
        r != KAFKA_SUCCESS ==> r == KAFKA_ERROR && *final(ctx) === *old(ctx),
{
    if ctx.streams.write_stream(handle, data) {
        KAFKA_SUCCESS
    } else {
        KAFKA_ERROR
    }
}

/// Moves everything buffered for `handle` to its outgoing queue.
pub fn dt_transport_flush(ctx: &mut Context, handle: i32) -> (r: i32)
    requires
        old(ctx).wf(),
    ensures
        final(ctx).wf(),
        r == KAFKA_SUCCESS <==> old(ctx)@.dom().contains(handle),
        r == KAFKA_SUCCESS ==> final(ctx)@ === old(ctx)@.insert(
            handle,
            StreamView {
                buffered: Seq::empty(),
                outgoing: old(ctx)@[handle].outgoing + old(ctx)@[handle].buffered,
            },
        ),
        r != KAFKA_SUCCESS ==> r == KAFKA_ERROR && *final(ctx) === *old(ctx),
{
    if ctx.streams.flush_stream(handle) {
        KAFKA_SUCCESS
    } else {
        KAFKA_ERROR
    }
}

/// Buffers all of `data` for the stream under `handle`; the whole
/// buffer is retained, so this coincides with `dt_transport_write`.
pub fn dt_transport_writeall(ctx: &mut Context, handle: i32, data: &[u8]) -> (r: i32)
    requires
        old(ctx).wf(),
    ensures
        final(ctx).wf(),
        r == KAFKA_SUCCESS <==> old(ctx)@.dom().contains(handle),
        r == KAFKA_SUCCESS ==> final(ctx)@ === old(ctx)@.insert(
            handle,
            StreamView {
                buffered: old(ctx)@[handle].buffered + data@,
                outgoing: old(ctx)@[handle].outgoing,
            },
        ),
        r != KAFKA_SUCCESS ==> r == KAFKA_ERROR && *final(ctx) === *old(ctx),
{
    if ctx.streams.write_stream(handle, data) {
        KAFKA_SUCCESS
    } else {
        KAFKA_ERROR
    }
}

/// Hands out the outgoing bytes for the producer and clears the queue.
pub fn take_outgoing(ctx: &mut Context, handle: i32) -> (r: Option<Vec<u8>>)
    requires
        old(ctx).wf(),
    ensures
        final(ctx).wf(),
        match r {
            Some(bytes) => old(ctx)@.dom().contains(handle) && bytes@ === old(
                ctx,
            )@[handle].outgoing && final(ctx)@ === old(ctx)@.insert(
                handle,
                StreamView { buffered: old(ctx)@[handle].buffered, outgoing: Seq::empty() },
            ),
            None => !old(ctx)@.dom().contains(handle) && *final(ctx) === *old(ctx),
        },
{
    ctx.streams.take_outgoing(handle)
}

} // verus!
