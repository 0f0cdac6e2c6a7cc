use ddtrace::manager::{Action, Event, LifecycleManager};
use ddtrace::transport::TransportBridge;

fn tcp_cfg() -> Vec<u8> {
    b"[instrumentation]\nscript = \"s\"\ntransport = \"tcp\"\n[instrumentation.server]\nip = \"127.0.0.1\"\nport = 9000\n"
        .to_vec()
}

fn unix_cfg() -> Vec<u8> {
    b"[instrumentation]\nscript = \"s\"\ntransport = \"unix\"\n[instrumentation.server]\npath = \"/tmp/x.sock\"\n"
        .to_vec()
}

fn added(id: &str, payload: Vec<u8>) -> Event {
    Event::Added { id: id.to_string(), payload }
}

fn removed(id: &str) -> Event {
    Event::Removed { id: id.to_string() }
}

#[test]
fn added_starts_with_a_transport_open() {
    let mut m = LifecycleManager::new();
    let acts = m.handle_event(added("script-1", tcp_cfg()));
    assert_eq!(acts.len(), 1);
    match &acts[0] {
        Action::OpenTransport { id, payload } => {
            assert_eq!(id, "script-1");
            assert_eq!(*payload, tcp_cfg());
        },
        other => panic!("unexpected action {:?}", other),
    }
}

#[test]
fn added_with_invalid_payload_never_starts() {
    let mut m = LifecycleManager::new();
    let acts = m.handle_event(added("script-1", b"no script here".to_vec()));
    assert!(acts.is_empty());
    assert!(m.is_empty());
}

#[test]
fn duplicate_added_is_absorbed() {
    let mut m = LifecycleManager::new();
    let first = m.handle_event(added("script-1", tcp_cfg()));
    assert_eq!(first.len(), 1);
    let second = m.handle_event(added("script-1", tcp_cfg()));
    assert!(second.is_empty());
    assert_eq!(m.snapshot().len(), 1);
}

#[test]
fn removed_unknown_is_a_no_op() {
    let mut m = LifecycleManager::new();
    let acts = m.handle_event(removed("never-seen"));
    assert!(acts.is_empty());
    assert!(m.is_empty());
}

#[test]
fn scenario_tcp_session_flow() {
    // Added -> transport opened -> three buffers -> Removed: the tcp
    // stream sees three writes, then one flush and one close, in order.
    let mut m = LifecycleManager::new();
    let mut bridge = TransportBridge::new(b"tcp").unwrap();

    let acts = m.handle_event(added("script-1", tcp_cfg()));
    let h = match &acts[..] {
        [Action::OpenTransport { payload, .. }] => bridge.open(payload),
        other => panic!("unexpected actions {:?}", other),
    };
    assert!(h >= 0);

    let acts = m.handle_event(Event::Opened { id: "script-1".to_string(), handle: h });
    assert!(matches!(&acts[..], [Action::SpawnWorker { id }] if id == "script-1"));

    let mut write_count = 0;
    for chunk in [&b"rec-a"[..], &b"rec-b"[..], &b"rec-c"[..]] {
        let acts = m.handle_event(Event::Data {
            id: "script-1".to_string(),
            bytes: chunk.to_vec(),
        });
        match &acts[..] {
            [Action::Write { handle, bytes }] => {
                assert_eq!(*handle, h);
                assert_eq!(bridge.write(*handle, bytes), 0);
                write_count += 1;
            },
            other => panic!("unexpected actions {:?}", other),
        }
    }
    assert_eq!(write_count, 3);

    let acts = m.handle_event(removed("script-1"));
    assert!(matches!(&acts[..], [Action::CancelWorker { id }] if id == "script-1"));

    // The worker observes the stop message and winds down.
    let acts = m.handle_event(Event::WorkerDone { id: "script-1".to_string() });
    match &acts[..] {
        [Action::Flush { handle: fh }, Action::Close { handle: ch }] => {
            assert_eq!(*fh, h);
            assert_eq!(*ch, h);
            assert_eq!(bridge.flush(*fh), 0);
            assert_eq!(bridge.take_outgoing(*fh).unwrap(), b"rec-arec-brec-c".to_vec());
            assert_eq!(bridge.close(*ch), 0);
        },
        other => panic!("unexpected actions {:?}", other),
    }
    assert!(m.is_empty());
}

#[test]
fn scenario_unix_open_failure_leaves_no_session() {
    // The socket path does not exist: the open fails, no worker is
    // spawned, and the registry has no entry for the identity.
    let mut m = LifecycleManager::new();
    let acts = m.handle_event(added("script-2", unix_cfg()));
    assert!(matches!(&acts[..], [Action::OpenTransport { .. }]));

    let acts = m.handle_event(Event::OpenFailed { id: "script-2".to_string() });
    assert!(acts.is_empty());
    assert!(m.is_empty());
    assert!(m.snapshot().is_empty());
}

#[test]
fn update_closes_old_stream_before_opening_new() {
    let mut m = LifecycleManager::new();
    let payload_a = tcp_cfg();
    let payload_b =
        b"[instrumentation]\nscript = \"other\"\n[instrumentation.server]\nip = \"10.0.0.1\"\nport = 9100\n"
            .to_vec();

    m.handle_event(added("script-1", payload_a));
    let h = 100;
    m.handle_event(Event::Opened { id: "script-1".to_string(), handle: h });

    let acts = m.handle_event(Event::Updated {
        id: "script-1".to_string(),
        payload: payload_b.clone(),
    });
    assert!(matches!(&acts[..], [Action::CancelWorker { id }] if id == "script-1"));

    let acts = m.handle_event(Event::WorkerDone { id: "script-1".to_string() });
    match &acts[..] {
        [Action::Flush { handle: fh }, Action::Close { handle: ch }, Action::OpenTransport { id, payload }] =>
        {
            assert_eq!(*fh, h);
            assert_eq!(*ch, h);
            assert_eq!(id, "script-1");
            assert_eq!(*payload, payload_b);
        },
        other => panic!("unexpected actions {:?}", other),
    }
    assert_eq!(m.snapshot().len(), 1);
}

#[test]
fn interleaved_adds_and_removes_converge() {
    let mut m = LifecycleManager::new();
    m.handle_event(added("a", tcp_cfg()));
    m.handle_event(added("b", tcp_cfg()));
    m.handle_event(added("c", tcp_cfg()));
    // "b" never got past Starting; a remove marks it and the open
    // failure report clears it.
    m.handle_event(removed("b"));
    m.handle_event(Event::OpenFailed { id: "b".to_string() });
    m.handle_event(removed("nope"));

    let mut ids = m.snapshot();
    ids.sort();
    assert_eq!(ids, vec!["a".to_string(), "c".to_string()]);
}

#[test]
fn shutdown_closes_every_open_handle_exactly_once() {
    let mut m = LifecycleManager::new();
    m.handle_event(added("a", tcp_cfg()));
    m.handle_event(added("b", tcp_cfg()));
    m.handle_event(Event::Opened { id: "a".to_string(), handle: 7 });
    m.handle_event(Event::Opened { id: "b".to_string(), handle: 8 });

    let acts = m.shutdown_begin();
    let mut cancelled: Vec<String> = acts
        .iter()
        .map(|a| match a {
            Action::CancelWorker { id } => id.clone(),
            other => panic!("unexpected action {:?}", other),
        })
        .collect();
    cancelled.sort();
    assert_eq!(cancelled, vec!["a".to_string(), "b".to_string()]);

    let mut closed: Vec<i32> = Vec::new();
    for id in ["a", "b"] {
        let acts = m.handle_event(Event::WorkerDone { id: id.to_string() });
        match &acts[..] {
            [Action::Flush { .. }, Action::Close { handle }] => closed.push(*handle),
            other => panic!("unexpected actions {:?}", other),
        }
    }
    closed.sort();
    assert_eq!(closed, vec![7, 8]);
    assert!(m.is_empty());
}

#[test]
fn data_for_unknown_session_is_ignored() {
    let mut m = LifecycleManager::new();
    let acts = m.handle_event(Event::Data { id: "ghost".to_string(), bytes: b"x".to_vec() });
    assert!(acts.is_empty());
}

#[test]
fn dropped_records_are_a_warning_only() {
    let mut m = LifecycleManager::new();
    let acts = m.handle_event(Event::Dropped { id: "script-1".to_string() });
    assert!(matches!(&acts[..], [Action::WarnDropped { id }] if id == "script-1"));
}

#[test]
fn opened_for_unknown_session_is_closed_at_once() {
    let mut m = LifecycleManager::new();
    let acts = m.handle_event(Event::Opened { id: "ghost".to_string(), handle: 5 });
    assert!(matches!(&acts[..], [Action::Close { handle: 5 }]));
    assert!(m.is_empty());
}

#[test]
fn removed_during_starting_discards_the_late_handle() {
    let mut m = LifecycleManager::new();
    m.handle_event(added("script-1", tcp_cfg()));
    let acts = m.handle_event(removed("script-1"));
    assert!(acts.is_empty());
    let acts = m.handle_event(Event::Opened { id: "script-1".to_string(), handle: 9 });
    assert!(matches!(&acts[..], [Action::Close { handle: 9 }]));
    assert!(m.is_empty());
}

#[test]
fn update_during_starting_reopens_with_the_new_payload() {
    let mut m = LifecycleManager::new();
    let payload_b = b"[instrumentation]\nscript = \"other\"\n".to_vec();
    m.handle_event(added("script-1", tcp_cfg()));
    let acts = m.handle_event(Event::Updated {
        id: "script-1".to_string(),
        payload: payload_b.clone(),
    });
    assert!(acts.is_empty());
    let acts = m.handle_event(Event::Opened { id: "script-1".to_string(), handle: 4 });
    match &acts[..] {
        [Action::Close { handle }, Action::OpenTransport { id, payload }] => {
            assert_eq!(*handle, 4);
            assert_eq!(id, "script-1");
            assert_eq!(*payload, payload_b);
        },
        other => panic!("unexpected actions {:?}", other),
    }
    assert_eq!(m.snapshot().len(), 1);
}
