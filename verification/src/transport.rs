//! The transport layer: per-stream state shared by every plugin, and
//! the dispatch that picks a plugin by its configured name.
//!
//! A transport plugin turns trace-record bytes into some wire (a socket,
//! a queue).  The manager is agnostic to which plugin is loaded: plugins
//! are registered under names and selected by configuration, and each
//! open stream is identified by a non-negative handle, the unit of
//! stream identity.  The byte bookkeeping is verified here: writes
//! gather in a per-handle buffer, a flush moves the buffer to the
//! outgoing queue, and the process glue drains the queue onto the wire.

use vstd::prelude::*;

pub mod kafka;
pub mod tcp;
pub mod unix_socket;

verus! {

/// Relies on rand::random: draws an arbitrary machine-random value for
/// a plugin context's connection identifier; nothing is promised of it,
/// and every context works whatever value comes back.
#[verifier::external_body]
pub(crate) fn random_conn_id() -> i32 {
    rand::random::<i32>()
}

/// One open stream: bytes written since the last flush, and flushed
/// bytes not yet handed to the wire.
pub struct StreamState {
    handle: i32,
    buffered: Vec<u8>,
    outgoing: Vec<u8>,
}

/// Spec-level value of a [`StreamState`], without its handle.
pub struct StreamView {
    pub buffered: Seq<u8>,
    pub outgoing: Seq<u8>,
}

/// The streams a plugin context has open, by handle.
pub struct HandleTable {
    next: i32,
    streams: Vec<StreamState>,
}

impl HandleTable {
    /// The abstract contents: handle to stream state.
    pub closed spec fn view(&self) -> Map<i32, StreamView> {
        Map::new(
            |h: i32| exists|i: int| #![auto] 0 <= i < self.streams@.len()
                && self.streams@[i].handle == h,
            |h: i32|
                {
                    let i = choose|i: int|
                        #![auto]
                        0 <= i < self.streams@.len() && self.streams@[i].handle == h;
                    StreamView {
                        buffered: self.streams@[i].buffered@,
                        outgoing: self.streams@[i].outgoing@,
                    }
                },
        )
    }

    /// The handle the next successful open will return.
    pub closed spec fn spec_next(&self) -> i32 {
        self.next
    }

    /// Handles are distinct, non-negative, and below `next`, so every
    /// handle ever handed out is handed out once.
    pub closed spec fn wf(&self) -> bool {
        &&& 0 <= self.next
        &&& forall|i: int|
            #![trigger self.streams@[i]]
            0 <= i < self.streams@.len() ==> 0 <= self.streams@[i].handle < self.next
        &&& forall|i: int, j: int|
            #![auto]
            0 <= i < j < self.streams@.len() ==> self.streams@[i].handle
                != self.streams@[j].handle
    }

    /// In a well-formed table, the stream at index `i` is what the view
    /// maps its handle to.
    proof fn lemma_view_index(&self, i: int)
        requires
            self.wf(),
            0 <= i < self.streams@.len(),
        ensures
            self@.dom().contains(self.streams@[i].handle),
            self@[self.streams@[i].handle] === (StreamView {
                buffered: self.streams@[i].buffered@,
                outgoing: self.streams@[i].outgoing@,
            }),
    {
        let h = self.streams@[i].handle;
        let j = choose|j: int|
            #![auto]
            0 <= j < self.streams@.len() && self.streams@[j].handle == h;
        assert(j == i);
    }

    /// An empty table whose first handle will be `base`, or zero when
    /// `base` is negative.
    pub fn new(base: i32) -> (r: HandleTable)
        ensures
            r.wf(),
            r@ === Map::<i32, StreamView>::empty(),
            r.spec_next() == if base >= 0 {
                base
            } else {
                0
            },
    {
        let next: i32 = if base >= 0 {
            base
        } else {
            0
        };
        let r = HandleTable { next, streams: Vec::new() };
        proof {
            assert(r@ =~= Map::<i32, StreamView>::empty());
        }
        r
    }

    /// Index of the stream under `h`, if one is open.
    fn find(&self, h: i32) -> (r: Option<usize>)
        ensures
            match r {
                Some(i) => 0 <= i < self.streams@.len() && self.streams@[i as int].handle == h,
                None => forall|i: int|
                    #![auto]
                    0 <= i < self.streams@.len() ==> self.streams@[i].handle != h,
            },
    {
        let mut i: usize = 0;
        while i < self.streams.len()
            invariant
                0 <= i <= self.streams@.len(),
                forall|j: int| #![auto] 0 <= j < i ==> self.streams@[j].handle != h,
            decreases self.streams@.len() - i,
        {
            if self.streams[i].handle == h {
                return Some(i);
            }
            i = i + 1;
        }
        None
    }

    /// Whether a stream is open under `h`.
    pub fn contains(&self, h: i32) -> (r: bool)
        ensures
            r == self@.dom().contains(h),
    {
        let found = self.find(h);
        proof {
            if let Some(i) = found {
                assert(exists|j: int|
                    #![auto]
                    0 <= j < self.streams@.len() && self.streams@[j].handle == h);
            } else {
                if self@.dom().contains(h) {
                    let j = choose|j: int|
                        #![auto]
                        0 <= j < self.streams@.len() && self.streams@[j].handle == h;
                    assert(false);
                }
            }
        }
        found.is_some()
    }

    /// Opens a fresh stream with empty buffers; `None` only when the
    /// handle space is exhausted.
    pub fn open_stream(&mut self) -> (r: Option<i32>)
        requires
            old(self).wf(),
        ensures
            final(self).wf(),
            match r {
                Some(h) => {
                    &&& h == old(self).spec_next()
                    &&& h >= 0
                    &&& !old(self)@.dom().contains(h)
                    &&& final(self)@ === old(self)@.insert(
                        h,
                        StreamView { buffered: Seq::empty(), outgoing: Seq::empty() },
                    )
                    &&& final(self).spec_next() == h + 1
                },
                None => old(self).spec_next() == i32::MAX && *final(self) === *old(self),
            },
    {
        if self.next == i32::MAX {
            return None;
        }
        let ghost pre = *self;
        let h = self.next;
        self.next = self.next + 1;
        self.streams.push(StreamState { handle: h, buffered: Vec::new(), outgoing: Vec::new() });
        proof {
            let n = pre.streams@.len() as int;
            if pre@.dom().contains(h) {
                let j = choose|j: int|
                    #![auto]
                    0 <= j < pre.streams@.len() && pre.streams@[j].handle == h;
                assert(false);
            }
            assert forall|q: i32| true implies #[trigger] self@.dom().contains(q) == pre@.insert(
                h,
                StreamView { buffered: Seq::empty(), outgoing: Seq::empty() },
            ).dom().contains(q) by {
                assert(self.streams@[n].handle == h);
                if self@.dom().contains(q) && q != h {
                    let i = choose|i: int|
                        #![auto]
                        0 <= i < self.streams@.len() && self.streams@[i].handle == q;
                    assert(pre.streams@[i].handle == q);
                }
                if pre@.dom().contains(q) {
                    let i = choose|i: int|
                        #![auto]
                        0 <= i < pre.streams@.len() && pre.streams@[i].handle == q;
                    assert(self.streams@[i].handle == q);
                }
            }
            assert forall|q: i32| #[trigger] self@.dom().contains(q) implies self@[q] === pre@.insert(
                h,
                StreamView { buffered: Seq::empty(), outgoing: Seq::empty() },
            )[q] by {
                if q == h {
                    self.lemma_view_index(n);
                } else {
                    let i = choose|i: int|
                        #![auto]
                        0 <= i < pre.streams@.len() && pre.streams@[i].handle == q;
                    pre.lemma_view_index(i);
                    assert(self.streams@[i].handle == q);
                    self.lemma_view_index(i);
                }
            }
            assert(self@ =~= pre@.insert(
                h,
                StreamView { buffered: Seq::empty(), outgoing: Seq::empty() },
            ));
        }
        Some(h)
    }

    /// Appends `data` to the write buffer of stream `h`; reports
    /// whether the handle was open.
    pub fn write_stream(&mut self, h: i32, data: &[u8]) -> (ok: bool)
        requires
            old(self).wf(),
        ensures
            final(self).wf(),
            ok == old(self)@.dom().contains(h),
            ok ==> final(self)@ === old(self)@.insert(
                h,
                StreamView {
                    buffered: old(self)@[h].buffered + data@,
                    outgoing: old(self)@[h].outgoing,
                },
            ),
            !ok ==> *final(self) === *old(self),
            final(self).spec_next() == old(self).spec_next(),
    {
        match self.find(h) {
            Some(i) => {
                let ghost pre = *self;
                let mut entry = self.streams.remove(i);
                let ghost mid = *self;
                let mut j: usize = 0;
                while j < data.len()
                    invariant
                        0 <= j <= data@.len(),
                        entry.handle == h,
                        entry.buffered@ == pre.streams@[i as int].buffered@ + data@.take(j as int),
                        entry.outgoing@ == pre.streams@[i as int].outgoing@,
                        *self == mid,
                    decreases data@.len() - j,
                {
                    entry.buffered.push(data[j]);
                    proof {
                        assert(entry.buffered@ =~= pre.streams@[i as int].buffered@ + data@.take(
                            j as int + 1,
                        ));
                    }
                    j = j + 1;
                }
                proof {
                    assert(data@.take(data@.len() as int) =~= data@);
                }
                self.streams.insert(i, entry);
                proof {
                    pre.lemma_view_index(i as int);
                    assert(self.streams@ =~= pre.streams@.update(
                        i as int,
                        self.streams@[i as int],
                    ));
                    self.lemma_same_layout_update(pre, i as int);
                }
                true
            },
            None => {
                proof {
                    if self@.dom().contains(h) {
                        let j = choose|j: int|
                            #![auto]
                            0 <= j < self.streams@.len() && self.streams@[j].handle == h;
                        assert(false);
                    }
                }
                false
            },
        }
    }

    /// After an update at index `i` that keeps the handle, the view is
    /// the old view with that one entry replaced.
    proof fn lemma_same_layout_update(&self, pre: HandleTable, i: int)
        requires
            pre.wf(),
            0 <= i < pre.streams@.len(),
            self.streams@.len() == pre.streams@.len(),
            self.next == pre.next,
            forall|j: int| #![auto] 0 <= j < pre.streams@.len() ==> self.streams@[j].handle
                == pre.streams@[j].handle,
            forall|j: int|
                #![auto]
                0 <= j < pre.streams@.len() && j != i ==> self.streams@[j].buffered@
                    == pre.streams@[j].buffered@ && self.streams@[j].outgoing@
                    == pre.streams@[j].outgoing@,
        ensures
            self.wf(),
            self@ === pre@.insert(
                pre.streams@[i].handle,
                StreamView {
                    buffered: self.streams@[i].buffered@,
                    outgoing: self.streams@[i].outgoing@,
                },
            ),
    {
        let h = pre.streams@[i].handle;
        let sv = StreamView {
            buffered: self.streams@[i].buffered@,
            outgoing: self.streams@[i].outgoing@,
        };
        assert forall|q: i32| true implies #[trigger] self@.dom().contains(q) == pre@.insert(
            h,
            sv,
        ).dom().contains(q) by {
            if self@.dom().contains(q) {
                let j = choose|j: int|
                    #![auto]
                    0 <= j < self.streams@.len() && self.streams@[j].handle == q;
                assert(pre.streams@[j].handle == q);
                pre.lemma_view_index(j);
            }
            if pre@.insert(h, sv).dom().contains(q) && q != h {
                let j = choose|j: int|
                    #![auto]
                    0 <= j < pre.streams@.len() && pre.streams@[j].handle == q;
                assert(self.streams@[j].handle == q);
            }
        }
        assert forall|q: i32| #[trigger] self@.dom().contains(q) implies self@[q] === pre@.insert(
            h,
            sv,
        )[q] by {
            if q == h {
                self.lemma_view_index(i);
            } else {
                let j = choose|j: int|
                    #![auto]
                    0 <= j < pre.streams@.len() && pre.streams@[j].handle == q;
                pre.lemma_view_index(j);
                assert(self.streams@[j].handle == q);
                self.lemma_view_index(j);
                assert(j != i);
            }
        }
        assert(self@ =~= pre@.insert(h, sv));
    }

    /// Moves the write buffer of stream `h` to its outgoing queue;
    /// reports whether the handle was open.
    pub fn flush_stream(&mut self, h: i32) -> (ok: bool)
        requires
            old(self).wf(),
        ensures
            final(self).wf(),
            ok == old(self)@.dom().contains(h),
            ok ==> final(self)@ === old(self)@.insert(
                h,
                StreamView {
                    buffered: Seq::empty(),
                    outgoing: old(self)@[h].outgoing + old(self)@[h].buffered,
                },
            ),
            !ok ==> *final(self) === *old(self),
            final(self).spec_next() == old(self).spec_next(),
    {
        match self.find(h) {
            Some(i) => {
                let ghost pre = *self;
                let mut entry = self.streams.remove(i);
                let mut moved: Vec<u8> = Vec::new();
                core::mem::swap(&mut moved, &mut entry.buffered);
                entry.outgoing.append(&mut moved);
                self.streams.insert(i, entry);
                proof {
                    pre.lemma_view_index(i as int);
                    assert(self.streams@[i as int].handle == h);
                    assert(self.streams@[i as int].buffered@ =~= Seq::<u8>::empty());
                    self.lemma_same_layout_update(pre, i as int);
                }
                true
            },
            None => {
                proof {
                    if self@.dom().contains(h) {
                        let j = choose|j: int|
                            #![auto]
                            0 <= j < self.streams@.len() && self.streams@[j].handle == h;
                        assert(false);
                    }
                }
                false
            },
        }
    }

    /// Hands out the outgoing bytes of stream `h` for the wire and
    /// clears the queue; `None` when the handle is not open.
    pub fn take_outgoing(&mut self, h: i32) -> (r: Option<Vec<u8>>)
        requires
            old(self).wf(),
        ensures
            final(self).wf(),
            match r {
                Some(bytes) => old(self)@.dom().contains(h) && bytes@ === old(self)@[h].outgoing
                    && final(self)@ === old(self)@.insert(
                    h,
                    StreamView { buffered: old(self)@[h].buffered, outgoing: Seq::empty() },
                ),
                None => !old(self)@.dom().contains(h) && *final(self) === *old(self),
            },
            final(self).spec_next() == old(self).spec_next(),
    {
        match self.find(h) {
            Some(i) => {
                let ghost pre = *self;
                let mut entry = self.streams.remove(i);
                let mut bytes: Vec<u8> = Vec::new();
                core::mem::swap(&mut bytes, &mut entry.outgoing);
                self.streams.insert(i, entry);
                proof {
                    pre.lemma_view_index(i as int);
                    assert(self.streams@[i as int].handle == h);
                    assert(self.streams@[i as int].outgoing@ =~= Seq::<u8>::empty());
                    self.lemma_same_layout_update(pre, i as int);
                }
                Some(bytes)
            },
            None => {
                proof {
                    if self@.dom().contains(h) {
                        let j = choose|j: int|
                            #![auto]
                            0 <= j < self.streams@.len() && self.streams@[j].handle == h;
                        assert(false);
                    }
                }
                None
            },
        }
    }

    /// Closes stream `h` and drops whatever it still held; reports
    /// whether the handle was open.  Closing twice fails the second
    /// time without harm.
    pub fn close_stream(&mut self, h: i32) -> (ok: bool)
        requires
            old(self).wf(),
        ensures
            final(self).wf(),
            ok == old(self)@.dom().contains(h),
            ok ==> final(self)@ === old(self)@.remove(h),
            !ok ==> *final(self) === *old(self),
            final(self).spec_next() == old(self).spec_next(),
    {
        match self.find(h) {
            Some(i) => {
                let ghost pre = *self;
                let _entry = self.streams.remove(i);
                proof {
                    pre.lemma_view_index(i as int);
                    assert forall|a: int, b: int|
                        #![auto]
                        0 <= a < b < self.streams@.len() implies self.streams@[a].handle
                        != self.streams@[b].handle by {
                        let pa: int = if a < i {
                            a
                        } else {
                            a + 1
                        };
                        let pb: int = if b < i {
                            b
                        } else {
                            b + 1
                        };
                        assert(pre.streams@[pa].handle != pre.streams@[pb].handle);
                    }
                    assert forall|q: i32| true implies #[trigger] self@.dom().contains(q)
                        == pre@.remove(h).dom().contains(q) by {
                        if self@.dom().contains(q) {
                            let j = choose|j: int|
                                #![auto]
                                0 <= j < self.streams@.len() && self.streams@[j].handle == q;
                            let pj: int = if j < i {
                                j
                            } else {
                                j + 1
                            };
                            assert(pre.streams@[pj].handle == q);
                            pre.lemma_view_index(pj);
                            assert(q != h);
                        }
                        if pre@.remove(h).dom().contains(q) {
                            let j = choose|j: int|
                                #![auto]
                                0 <= j < pre.streams@.len() && pre.streams@[j].handle == q;
                            assert(j != i);
                            let nj: int = if j < i {
                                j
                            } else {
                                j - 1
                            };
                            assert(self.streams@[nj].handle == q);
                        }
                    }
                    assert forall|q: i32| #[trigger] self@.dom().contains(q) implies self@[q]
                        === pre@.remove(h)[q] by {
                        let j = choose|j: int|
                            #![auto]
                            0 <= j < self.streams@.len() && self.streams@[j].handle == q;
                        self.lemma_view_index(j);
                        let pj: int = if j < i {
                            j
                        } else {
                            j + 1
                        };
                        assert(pre.streams@[pj].handle == q);
                        pre.lemma_view_index(pj);
                    }
                    assert(self@ =~= pre@.remove(h));
                }
                true
            },
            None => {
                proof {
                    if self@.dom().contains(h) {
                        let j = choose|j: int|
                            #![auto]
                            0 <= j < self.streams@.len() && self.streams@[j].handle == h;
                        assert(false);
                    }
                }
                false
            },
        }
    }

}

/// The registered transport plugins, by configuration name.
#[derive(PartialEq, Eq, Structural, Clone, Copy, Debug)]
pub enum PluginKind {
    Tcp,
    UnixSocket,
    Kafka,
}

/// The plugin registered under `name`, if any: the lookup table that
/// stands in for loading a shared object by filesystem path.
pub open spec fn spec_plugin_for_name(name: Seq<u8>) -> Option<PluginKind> {
    if name == crate::config::ascii_seq("tcp"@) {
        Some(PluginKind::Tcp)
    } else if name == crate::config::ascii_seq("unix"@) {
        Some(PluginKind::UnixSocket)
    } else if name == crate::config::ascii_seq("kafka"@) {
        Some(PluginKind::Kafka)
    } else {
        None
    }
}

/// Looks a plugin up by its configuration name.
pub fn plugin_for_name(name: &[u8]) -> (r: Option<PluginKind>)
    ensures
        r == spec_plugin_for_name(name@),
{
    proof {
        reveal_strlit("tcp");
        reveal_strlit("unix");
        reveal_strlit("kafka");
    }
    if crate::config::bytes_eq(name, crate::config::ascii_bytes("tcp")) {
        Some(PluginKind::Tcp)
    } else if crate::config::bytes_eq(name, crate::config::ascii_bytes("unix")) {
        Some(PluginKind::UnixSocket)
    } else if crate::config::bytes_eq(name, crate::config::ascii_bytes("kafka")) {
        Some(PluginKind::Kafka)
    } else {
        None
    }
}

/// The one loaded plugin's context.
enum PluginSlot {
    Tcp(crate::transport::tcp::Context),
    UnixSocket(crate::transport::unix_socket::Context),
    Kafka(crate::transport::kafka::Context),
}

/// The dispatch in front of the one plugin the process loaded; every
/// session's stream goes through it.
pub struct TransportBridge {
    slot: PluginSlot,
}

/// Whether a payload satisfies the chosen plugin's own configuration
/// demands, so that its open accepts it.
pub open spec fn spec_open_accepts(k: PluginKind, t: Seq<u8>) -> bool {
    match k {
        PluginKind::Tcp => crate::transport::tcp::spec_endpoint_of(t) is Ok,
        PluginKind::UnixSocket => crate::transport::unix_socket::spec_path_of(t) is Ok,
        PluginKind::Kafka => true,
    }
}

impl TransportBridge {
    /// Which plugin is loaded.
    pub closed spec fn kind(&self) -> PluginKind {
        match self.slot {
            PluginSlot::Tcp(_) => PluginKind::Tcp,
            PluginSlot::UnixSocket(_) => PluginKind::UnixSocket,
            PluginSlot::Kafka(_) => PluginKind::Kafka,
        }
    }

    /// The open streams of the loaded plugin, by handle.
    pub closed spec fn view(&self) -> Map<i32, StreamView> {
        match self.slot {
            PluginSlot::Tcp(c) => c@,
            PluginSlot::UnixSocket(c) => c@,
            PluginSlot::Kafka(c) => c@,
        }
    }

    /// The handle the next successful open will return.
    pub closed spec fn spec_next(&self) -> i32 {
        match self.slot {
            PluginSlot::Tcp(c) => c.spec_next(),
            PluginSlot::UnixSocket(c) => c.spec_next(),
            PluginSlot::Kafka(c) => c.spec_next(),
        }
    }

    pub closed spec fn wf(&self) -> bool {
        match self.slot {
            PluginSlot::Tcp(c) => c.wf(),
            PluginSlot::UnixSocket(c) => c.wf(),
            PluginSlot::Kafka(c) => c.wf(),
        }
    }

    /// Loads the plugin registered under `name`; `None` for an unknown
    /// name.
    pub fn new(name: &[u8]) -> (r: Option<TransportBridge>)
        ensures
            match r {
                Some(b) => {
                    &&& spec_plugin_for_name(name@) == Some(b.kind())
                    &&& b.wf()
                    &&& b@ === Map::<i32, StreamView>::empty()
                },
                None => spec_plugin_for_name(name@) is None,
            },
    {
        match plugin_for_name(name) {
            Some(PluginKind::Tcp) => Some(
                TransportBridge { slot: PluginSlot::Tcp(crate::transport::tcp::Context::new()) },
            ),
            Some(PluginKind::UnixSocket) => Some(
                TransportBridge {
                    slot: PluginSlot::UnixSocket(crate::transport::unix_socket::Context::new()),
                },
            ),
            Some(PluginKind::Kafka) => Some(
                TransportBridge {
                    slot: PluginSlot::Kafka(crate::transport::kafka::Context::new()),
                },
            ),
            None => None,
        }
    }

    /// Opens a stream for one session through the loaded plugin.  A
    /// fresh handle comes back exactly when the payload satisfies the
    /// plugin and handles remain; otherwise the plugin's error status
    /// comes back and nothing changes.
    pub fn open(&mut self, config: &[u8]) -> (h: i32)
        requires
            old(self).wf(),
        ensures
            final(self).wf(),
            final(self).kind() == old(self).kind(),
            h >= 0 ==> {
                &&& spec_open_accepts(old(self).kind(), config@)
                &&& h == old(self).spec_next()
                &&& final(self).spec_next() == h + 1
                &&& !old(self)@.dom().contains(h)
                &&& final(self)@ === old(self)@.insert(
                    h,
                    StreamView { buffered: Seq::empty(), outgoing: Seq::empty() },
                )
            },
            h < 0 ==> *final(self) === *old(self),
            (spec_open_accepts(old(self).kind(), config@) && old(self).spec_next() != i32::MAX)
                ==> h >= 0,
    {
        match &mut self.slot {
            PluginSlot::Tcp(c) => crate::transport::tcp::dt_transport_open(c, config),
            PluginSlot::UnixSocket(c) => crate::transport::unix_socket::dt_transport_open(
                c,
                config,
            ),
            PluginSlot::Kafka(c) => crate::transport::kafka::dt_transport_open(c, config),
        }
    }

    /// Buffers `data` for the stream under `handle`.
    pub fn write(&mut self, handle: i32, data: &[u8]) -> (r: i32)
        requires
            old(self).wf(),
        ensures
            final(self).wf(),
            final(self).kind() == old(self).kind(),
            r == 0 <==> old(self)@.dom().contains(handle),
            r == 0 ==> final(self)@ === old(self)@.insert(
                handle,
                StreamView {
                    buffered: old(self)@[handle].buffered + data@,
                    outgoing: old(self)@[handle].outgoing,
                },
            ),
            r != 0 ==> r == -1 && *final(self) === *old(self),
    {
        match &mut self.slot {
            PluginSlot::Tcp(c) => crate::transport::tcp::dt_transport_write(c, handle, data),
            PluginSlot::UnixSocket(c) => crate::transport::unix_socket::dt_transport_write(
                c,
                handle,
                data,
            ),
            PluginSlot::Kafka(c) => crate::transport::kafka::dt_transport_write(c, handle, data),
        }
    }

    /// Moves everything buffered for `handle` to its outgoing queue.
    pub fn flush(&mut self, handle: i32) -> (r: i32)
        requires
            old(self).wf(),
        ensures
            final(self).wf(),
            final(self).kind() == old(self).kind(),
            r == 0 <==> old(self)@.dom().contains(handle),
            r == 0 ==> final(self)@ === old(self)@.insert(
                handle,
                StreamView {
                    buffered: Seq::empty(),
                    outgoing: old(self)@[handle].outgoing + old(self)@[handle].buffered,
                },
            ),
            r != 0 ==> r == -1 && *final(self) === *old(self),
    {
        match &mut self.slot {
            PluginSlot::Tcp(c) => crate::transport::tcp::dt_transport_flush(c, handle),
            PluginSlot::UnixSocket(c) => crate::transport::unix_socket::dt_transport_flush(
                c,
                handle,
            ),
            PluginSlot::Kafka(c) => crate::transport::kafka::dt_transport_flush(c, handle),
        }
    }

    /// Closes the stream under `handle`; a second close reports the
    /// error status and is harmless.
    pub fn close(&mut self, handle: i32) -> (r: i32)
        requires
            old(self).wf(),
        ensures
            final(self).wf(),
            final(self).kind() == old(self).kind(),
            r == 0 <==> old(self)@.dom().contains(handle),
            r == 0 ==> final(self)@ === old(self)@.remove(handle),
            r != 0 ==> r == -1 && *final(self) === *old(self),
    {
        match &mut self.slot {
            PluginSlot::Tcp(c) => crate::transport::tcp::dt_transport_close(c, handle),
            PluginSlot::UnixSocket(c) => crate::transport::unix_socket::dt_transport_close(
                c,
                handle,
            ),
            PluginSlot::Kafka(c) => crate::transport::kafka::dt_transport_close(c, handle),
        }
    }

    /// Hands out the outgoing bytes for the wire and clears the queue.
    pub fn take_outgoing(&mut self, handle: i32) -> (r: Option<Vec<u8>>)
        requires
            old(self).wf(),
        ensures
            final(self).wf(),
            final(self).kind() == old(self).kind(),
            match r {
                Some(bytes) => old(self)@.dom().contains(handle) && bytes@ === old(
                    self,
                )@[handle].outgoing && final(self)@ === old(self)@.insert(
                    handle,
                    StreamView { buffered: old(self)@[handle].buffered, outgoing: Seq::empty() },
                ),
                None => !old(self)@.dom().contains(handle) && *final(self) === *old(self),
            },
    {
        match &mut self.slot {
            PluginSlot::Tcp(c) => crate::transport::tcp::take_outgoing(c, handle),
            PluginSlot::UnixSocket(c) => crate::transport::unix_socket::take_outgoing(c, handle),
            PluginSlot::Kafka(c) => crate::transport::kafka::take_outgoing(c, handle),
        }
    }
}

} // verus!
