use proxy_tunnel::endpoint::ProxyType;
use proxy_tunnel::manager::{ProxyTunnelManager, StartAction, StartEvent, StartPhase};

/// Starts a tunnel with everything granted: `port` is free, `handle` is what
/// the task is stopped by.
fn start(
    manager: &mut ProxyTunnelManager<u32>,
    id: &str,
    proxy_port: u16,
    remote_host: &str,
    remote_port: u16,
    port: u16,
    handle: u32,
) -> (Result<u16, String>, Option<u32>) {
    let mut phase = StartPhase::Begin;
    let mut event = StartEvent::Begin;
    loop {
        assert!(event.answers(phase));
        let (next, action) = manager.start_tunnel(
            phase,
            id,
            ProxyType::Http,
            "127.0.0.1",
            proxy_port,
            "",
            "",
            remote_host,
            remote_port,
            event,
        );
        phase = next;
        event = match action {
            StartAction::PickPort => StartEvent::PortPicked(Some(port)),
            StartAction::Bind { host, port: bound } => {
                assert_eq!((host.as_str(), bound), ("127.0.0.1", port));
                StartEvent::Bound
            }
            StartAction::Spawn { proxy, remote } => {
                assert_eq!(proxy.proxy_type, ProxyType::Http);
                assert_eq!((proxy.host.as_str(), proxy.port), ("127.0.0.1", proxy_port));
                assert_eq!((remote.host.as_str(), remote.port), (remote_host, remote_port));
                StartEvent::Spawned(handle)
            }
            StartAction::Finish { result, abort } => return (result, abort),
        };
    }
}

fn step(
    manager: &mut ProxyTunnelManager<u32>,
    phase: StartPhase,
    id: &str,
    event: StartEvent<u32>,
) -> (StartPhase, StartAction<u32>) {
    manager.start_tunnel(phase, id, ProxyType::Socks5, "proxy", 1080, "u", "p", "db", 5432, event)
}

#[test]
fn start_tunnel_reuses_existing_local_port() {
    let mut manager = ProxyTunnelManager::new();

    let (first_port, _) = start(&mut manager, "connection", 8080, "db.internal", 5432, 15001, 1);
    let first_port = first_port.expect("first proxy tunnel should start");
    let (second_port, _) =
        start(&mut manager, "connection", 8081, "other-db.internal", 5433, 15002, 2);
    let second_port = second_port.expect("existing proxy tunnel should be reused");

    assert_eq!(second_port, first_port);
    assert_eq!(manager.local_port("connection"), Some(first_port));

    assert_eq!(manager.stop_tunnel("connection"), Some(1));
}

#[test]
fn overlapping_starts_share_one_tunnel() {
    let mut manager = ProxyTunnelManager::default();
    let (one, _) = step(&mut manager, StartPhase::Begin, "id", StartEvent::Begin);
    let (two, _) = step(&mut manager, StartPhase::Begin, "id", StartEvent::Begin);
    let (one, _) = step(&mut manager, one, "id", StartEvent::PortPicked(Some(15001)));
    let (two, _) = step(&mut manager, two, "id", StartEvent::PortPicked(Some(15002)));
    let (one, _) = step(&mut manager, one, "id", StartEvent::Bound);
    let (two, _) = step(&mut manager, two, "id", StartEvent::Bound);
    let (two, action) = step(&mut manager, two, "id", StartEvent::Spawned(22));
    assert_eq!(two, StartPhase::Done);
    assert!(matches!(action, StartAction::Finish { result: Ok(15002), abort: None }));
    let (one, action) = step(&mut manager, one, "id", StartEvent::Spawned(11));
    assert_eq!(one, StartPhase::Done);
    assert!(matches!(action, StartAction::Finish { result: Ok(15002), abort: Some(11) }));
    assert_eq!(manager.local_port("id"), Some(15002));
    assert_eq!(manager.stop_tunnel("id"), Some(22));
}

#[test]
fn a_failed_start_leaves_nothing_behind() {
    let mut manager = ProxyTunnelManager::new();
    let (_, action) =
        step(&mut manager, StartPhase::PickingPort, "id", StartEvent::PortPicked(None));
    match action {
        StartAction::Finish { result, abort } => {
            assert_eq!(result, Err("No available port".to_string()));
            assert_eq!(abort, None);
        }
        other => panic!("{other:?}"),
    }
    let (_, action) = step(
        &mut manager,
        StartPhase::Binding(15001),
        "id",
        StartEvent::BindFailed("in use".to_string()),
    );
    match action {
        StartAction::Finish { result, abort } => {
            assert_eq!(
                result,
                Err("Failed to bind proxy tunnel local port: in use".to_string())
            );
            assert_eq!(abort, None);
        }
        other => panic!("{other:?}"),
    }
    assert_eq!(manager.local_port("id"), None);
}

#[test]
fn stopping_undoes_starting() {
    let mut manager = ProxyTunnelManager::new();
    start(&mut manager, "a", 1, "h", 1, 15001, 1).0.unwrap();
    start(&mut manager, "b", 1, "h", 1, 15002, 2).0.unwrap();
    start(&mut manager, "c", 1, "h", 1, 15003, 3).0.unwrap();
    assert_eq!(manager.stop_tunnel("b"), Some(2));
    assert_eq!(manager.stop_tunnel("b"), None);
    assert_eq!(manager.local_port("a"), Some(15001));
    assert_eq!(manager.local_port("b"), None);
    assert_eq!(manager.local_port("c"), Some(15003));
    let (port, _) = start(&mut manager, "b", 1, "h", 1, 15004, 4);
    assert_eq!(port, Ok(15004));
}

#[test]
fn stopping_by_prefix_stops_those_and_no_others() {
    let mut manager = ProxyTunnelManager::new();
    for (handle, id) in ["pool:1", "pool:2", "other", "pool", "Pool:3"].iter().enumerate() {
        start(&mut manager, id, 1, "h", 1, 15001 + handle as u16, handle as u32).0.unwrap();
    }
    let mut stopped = manager.stop_tunnels_with_prefix("pool:");
    stopped.sort();
    assert_eq!(stopped, vec![("pool:1".to_string(), 0), ("pool:2".to_string(), 1)]);
    assert_eq!(manager.local_port("pool:1"), None);
    assert_eq!(manager.local_port("pool:2"), None);
    assert_eq!(manager.local_port("other"), Some(15003));
    assert_eq!(manager.local_port("pool"), Some(15004));
    assert_eq!(manager.local_port("Pool:3"), Some(15005));
    assert_eq!(manager.stop_tunnels_with_prefix("pool:1").len(), 0);
    assert_eq!(manager.stop_tunnels_with_prefix("").len(), 3);
    assert_eq!(manager.local_port("other"), None);
}

#[test]
fn events_answer_their_phase() {
    let events = [
        StartEvent::<u32>::Begin,
        StartEvent::PortPicked(None),
        StartEvent::Bound,
        StartEvent::BindFailed("in use".to_string()),
        StartEvent::Spawned(1),
    ];
    let cases = [
        (StartPhase::Begin, [true, false, false, false, false]),
        (StartPhase::PickingPort, [false, true, false, false, false]),
        (StartPhase::Binding(1), [false, false, true, true, false]),
        (StartPhase::Spawning(1), [false, false, false, false, true]),
        (StartPhase::Done, [false, false, false, false, false]),
    ];
    for (phase, expected) in cases {
        for (event, answers) in events.iter().zip(expected) {
            assert_eq!(event.answers(phase), answers);
        }
    }
}
