//! The network stream transport plugin: forwards trace records to a
//! configured address over a byte-stream connection.
//!
//! The payload must name the server under the transport table: a text
//! `ip` and a numeric `port`.  A payload missing either never yields a
//! handle.  The plugin buffers written bytes per handle; the process
//! glue drains the outgoing queue onto the connected socket.

use vstd::prelude::*;

use crate::config::{ConfigError, ConfigValue, ValueView};
use crate::transport::{HandleTable, StreamView};

verus! {

/// The one status this plugin reports for any failure.
pub const TCP_ERROR: i32 = -1;

/// Status reported when a call succeeds.
pub const TCP_SUCCESS: i32 = 0;

/// Where the plugin is to connect.
#[derive(Debug)]
pub struct TcpEndpoint {
    /// The server address, as the payload spelled it.
    pub ip: Vec<u8>,
    /// The server port.
    pub port: u16,
}

/// Spec-level value of a [`TcpEndpoint`].
pub struct TcpEndpointView {
    pub ip: Seq<u8>,
    pub port: u16,
}

impl View for TcpEndpoint {
    type V = TcpEndpointView;

    open spec fn view(&self) -> TcpEndpointView {
        TcpEndpointView { ip: self.ip@, port: self.port }
    }
}

/// The key under which the server address stands.
pub open spec fn ip_key() -> Seq<u8> {
    crate::config::ascii_seq("ip"@)
}

/// The key under which the server port stands.
pub open spec fn port_key() -> Seq<u8> {
    crate::config::ascii_seq("port"@)
}

/// The endpoint a payload asks this plugin to reach: a text `ip` and a
/// numeric `port` within range, both in the transport's server table.
/// A missing or non-text address, or a missing or non-numeric port, is
/// a missing field; a port out of range is malformed.
pub open spec fn spec_endpoint_of(t: Seq<u8>) -> Result<TcpEndpointView, ConfigError> {
    match crate::config::spec_config_lookup(t, crate::config::server_table(), ip_key()) {
        Ok(Some(ValueView::Text(ip))) => {
            match crate::config::spec_config_lookup(t, crate::config::server_table(), port_key()) {
                Ok(Some(ValueView::Number(n))) => if 0 <= n < 65536 {
                    Ok(TcpEndpointView { ip: ip, port: n as u16 })
                } else {
                    Err(ConfigError::Malformed)
                },
                Ok(Some(ValueView::Text(_))) => Err(ConfigError::Missing),
                Ok(None) => Err(ConfigError::Missing),
                Err(e) => Err(e),
            }
        },
        Ok(Some(ValueView::Number(_))) => Err(ConfigError::Missing),
        Ok(None) => Err(ConfigError::Missing),
        Err(e) => Err(e),
    }
}

/// Extracts the endpoint this plugin is to connect to.
pub fn endpoint_of(t: &[u8]) -> (r: Result<TcpEndpoint, ConfigError>)
    ensures
        match r {
            Ok(ep) => spec_endpoint_of(t@) == Ok::<TcpEndpointView, ConfigError>(ep@),
            Err(e) => spec_endpoint_of(t@) == Err::<TcpEndpointView, ConfigError>(e),
        },
{
    proof {
        reveal_strlit("instrumentation.server");
        reveal_strlit("ip");
        reveal_strlit("port");
    }
    let table = crate::config::ascii_bytes("instrumentation.server");
    let ip_k = crate::config::ascii_bytes("ip");
    let port_k = crate::config::ascii_bytes("port");
    match crate::config::find_value(t, table, ip_k) {
        Ok(Some(ConfigValue::Text(ip))) => {
            match crate::config::find_value(t, table, port_k) {
                Ok(Some(ConfigValue::Number(n))) => {
                    if 0 <= n && n < 65536 {
                        Ok(TcpEndpoint { ip, port: n as u16 })
                    } else {
                        Err(ConfigError::Malformed)
                    }
                },
                Ok(Some(ConfigValue::Text(_))) => Err(ConfigError::Missing),
                Ok(None) => Err(ConfigError::Missing),
                Err(e) => Err(e),
            }
        },
        Ok(Some(ConfigValue::Number(_))) => Err(ConfigError::Missing),
        Ok(None) => Err(ConfigError::Missing),
        Err(e) => Err(e),
    }
}

/// This plugin's state: a connection identifier drawn at construction
/// and the table of open streams.
pub struct Context {
    conn_id: i32,
    streams: HandleTable,
}

impl Context {
    /// The open streams, by handle.
    pub closed spec fn view(&self) -> Map<i32, StreamView> {
        self.streams@
    }

    /// The handle the next successful open will return.
    pub closed spec fn spec_next(&self) -> i32 {
        self.streams.spec_next()
    }

    pub closed spec fn wf(&self) -> bool {
        self.streams.wf()
    }

    /// A fresh context with no open streams.  Handles start at the
    /// drawn connection identifier, or at zero when the draw is
    /// negative, and rise from there.
    pub fn new() -> (r: Context)
        ensures
            r.wf(),
            r@ === Map::<i32, StreamView>::empty(),
    {
        let conn_id = crate::transport::random_conn_id();
        Context { conn_id, streams: HandleTable::new(conn_id) }
    }
}

/// Brings the plugin up; nothing to prepare.
pub fn dt_transport_init() -> (r: i32)
    ensures
        r == TCP_SUCCESS,
{
    TCP_SUCCESS
}

/// Tears the plugin down; nothing to release.
pub fn dt_transport_fini() -> (r: i32)
    ensures
        r == TCP_SUCCESS,
{
    TCP_SUCCESS
}

/// Opens a stream for one session: the payload must name a reachable
/// endpoint, and each successful open returns a fresh handle with empty
/// buffers.  A bad payload, or an exhausted handle space, reports the
/// error status and changes nothing.
pub fn dt_transport_open(ctx: &mut Context, config: &[u8]) -> (h: i32)
    requires
        old(ctx).wf(),
    ensures
        final(ctx).wf(),
        h != TCP_ERROR ==> {
            &&& spec_endpoint_of(config@) is Ok
            &&& h >= 0
            &&& h == old(ctx).spec_next()
            &&& final(ctx).spec_next() == h + 1
            &&& !old(ctx)@.dom().contains(h)
            &&& final(ctx)@ === old(ctx)@.insert(
                h,
                StreamView { buffered: Seq::empty(), outgoing: Seq::empty() },
            )
        },
        h == TCP_ERROR ==> {
            &&& !(spec_endpoint_of(config@) is Ok) || old(ctx).spec_next() == i32::MAX
            &&& *final(ctx) === *old(ctx)
        },
        (spec_endpoint_of(config@) is Ok && old(ctx).spec_next() != i32::MAX) ==> h != TCP_ERROR,
{
    match endpoint_of(config) {
        Ok(_endpoint) => {
            match ctx.streams.open_stream() {
                Some(h) => {
                    proof {
                        assert(h != TCP_ERROR);
                    }
                    h
                },
                None => TCP_ERROR,
            }
        },
        Err(_) => TCP_ERROR,
    }
}

/// Closes a stream; a second close of the same handle reports the
/// error status and is harmless.
pub fn dt_transport_close(ctx: &mut Context, handle: i32) -> (r: i32)
    requires
        old(ctx).wf(),
    ensures
        final(ctx).wf(),
        r == TCP_SUCCESS <==> old(ctx)@.dom().contains(handle),
        r == TCP_SUCCESS ==> final(ctx)@ === old(ctx)@.remove(handle),
        r != TCP_SUCCESS ==> r == TCP_ERROR && *final(ctx) === *old(ctx),
{
    if ctx.streams.close_stream(handle) {
        TCP_SUCCESS
    } else {
        TCP_ERROR
    }
}

/// Buffers `data` for the stream under `handle`.
pub fn dt_transport_write(ctx: &mut Context, handle: i32, data: &[u8]) -> (r: i32)
    requires
        old(ctx).wf(),
    ensures
        final(ctx).wf(),
        r == TCP_SUCCESS <==> old(ctx)@.dom().contains(handle),
        r == TCP_SUCCESS ==> final(ctx)@ === old(ctx)@.insert(
            handle,
            StreamView {
                buffered: old(ctx)@[handle].buffered + data@,
                outgoing: old(ctx)@[handle].outgoing,
            },
        ),
        r != TCP_SUCCESS ==> r == TCP_ERROR && *final(ctx) === *old(ctx),
{
    if ctx.streams.write_stream(handle, data) {
        TCP_SUCCESS
    } else {
        TCP_ERROR
    }
}

/// Moves everything buffered for `handle` to its outgoing queue.
pub fn dt_transport_flush(ctx: &mut Context, handle: i32) -> (r: i32)
    requires
        old(ctx).wf(),
    ensures
        final(ctx).wf(),
        r == TCP_SUCCESS <==> old(ctx)@.dom().contains(handle),
        r == TCP_SUCCESS ==> final(ctx)@ === old(ctx)@.insert(
            handle,
            StreamView {
                buffered: Seq::empty(),
                outgoing: old(ctx)@[handle].outgoing + old(ctx)@[handle].buffered,
            },
        ),
        r != TCP_SUCCESS ==> r == TCP_ERROR && *final(ctx) === *old(ctx),
{
    if ctx.streams.flush_stream(handle) {
        TCP_SUCCESS
    } else {
        TCP_ERROR
    }
}

/// Buffers all of `data` for the stream under `handle`; the whole
/// buffer is retained, so this coincides with `dt_transport_write`.
pub fn dt_transport_writeall(ctx: &mut Context, handle: i32, data: &[u8]) -> (r: i32)
    requires
        old(ctx).wf(),
    ensures
        final(ctx).wf(),
        r == TCP_SUCCESS <==> old(ctx)@.dom().contains(handle),
        r == TCP_SUCCESS ==> final(ctx)@ === old(ctx)@.insert(
            handle,
            StreamView {
                buffered: old(ctx)@[handle].buffered + data@,
                outgoing: old(ctx)@[handle].outgoing,
            },
        ),
        r != TCP_SUCCESS ==> r == TCP_ERROR && *final(ctx) === *old(ctx),
{
    if ctx.streams.write_stream(handle, data) {
        TCP_SUCCESS
    } else {
        TCP_ERROR
    }
}

/// Hands out the outgoing bytes for the wire and clears the queue.
pub fn take_outgoing(ctx: &mut Context, handle: i32) -> (r: Option<Vec<u8>>)
    requires
        old(ctx).wf(),
    ensures
        final(ctx).wf(),
        match r {
            Some(bytes) => old(ctx)@.dom().contains(handle) && bytes@ === old(
                ctx,
            )@[handle].outgoing && final(ctx)@ === old(ctx)@.insert(
                handle,
                StreamView { buffered: old(ctx)@[handle].buffered, outgoing: Seq::empty() },
            ),
            None => !old(ctx)@.dom().contains(handle) && *final(ctx) === *old(ctx),
        },
{
    ctx.streams.take_outgoing(handle)
}

} // verus!
