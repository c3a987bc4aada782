use holepunch::actor::{
    Action, ActorError, CommunicationActorMessage, CommunicationActorState, Exchange, Notice,
    Outlet, PortStatus,
};
use holepunch::addr::SocketAddr;
use holepunch::advert::{client_packet, react, Advertiser, ClientEvent};
use holepunch::options::ClientSettings;
use holepunch::wire::{stamp, IncomingControlMessage};

const SEC: u128 = 1_000_000_000;

fn v4(ip: u32, port: u16) -> SocketAddr {
    SocketAddr::V4 { ip, port }
}

fn settings(override_sendto_addr: Option<u32>) -> ClientSettings {
    ClientSettings {
        keepalive_interval: 30,
        num_ports: 3,
        override_sendto_addr,
        stun: false,
    }
}

fn state(n: usize) -> CommunicationActorState {
    CommunicationActorState::new(n, None, &settings(None))
}

fn port_data(i: usize, buf: &[u8], from: SocketAddr) -> CommunicationActorMessage {
    CommunicationActorMessage::PortData(i, buf.to_vec(), from)
}

fn control(ip: u32, ports: &[u16]) -> CommunicationActorMessage {
    CommunicationActorMessage::ControlMessage(IncomingControlMessage {
        na: "x".to_string(),
        ip,
        po: 0,
        ports: ports.to_vec(),
        disc: false,
    })
}

/// Carries an exchange out at a given time, with every packet sent, and also
/// says what was worth a remark.
fn run_noting(
    st: &mut CommunicationActorState,
    mut ex: Exchange,
    now: u128,
) -> (
    Vec<(Outlet, SocketAddr, Vec<u8>)>,
    Result<(), ActorError>,
    Option<Notice>,
) {
    let mut sent = Vec::new();
    loop {
        match st.next_action(&mut ex, now) {
            Action::Send(d) => sent.push((d.outlet, d.to, d.payload)),
            Action::TryAnother => {}
            Action::Finish(outcome) => return (sent, outcome, ex.notice),
        }
    }
}

/// Carries an exchange out, with every packet sent.
fn run(
    st: &mut CommunicationActorState,
    ex: Exchange,
) -> (Vec<(Outlet, SocketAddr, Vec<u8>)>, Result<(), ActorError>) {
    let (sent, outcome, _) = run_noting(st, ex, 20);
    (sent, outcome)
}

#[test]
fn new_relay_knows_nothing() {
    let st = CommunicationActorState::new(2, Some(v4(1, 1)), &settings(Some(7)));
    assert_eq!(st.client_peer, Some(v4(1, 1)));
    assert_eq!(st.port_statuses.len(), 2);
    assert_eq!(st.max_norecv_time, 60 * SEC);
    assert_eq!(st.override_sendto_addr, Some(7));
    let s: PortStatus = st.port_statuses[1];
    assert_eq!(s.last_seen_packet, None);
    assert_eq!(s.configured_peer_addr, None);
    assert_eq!(s.seen_peer_addr, None);
}

#[test]
fn packet_goes_to_the_local_application() {
    let mut st = state(2);
    let ex = st.msg(port_data(1, b"hi", v4(5, 6)), 10);
    assert_eq!(ex.notice, Some(Notice::NoClient));
    assert_eq!(run(&mut st, ex), (vec![], Ok(())));
    assert_eq!(st.port_statuses[1].last_seen_packet, Some(10));
    assert_eq!(st.port_statuses[1].seen_peer_addr, Some(v4(5, 6)));
    assert_eq!(st.port_statuses[0].last_seen_packet, None);

    let ex = st.msg(
        CommunicationActorMessage::NewClientPeerAddress(v4(9, 9)),
        11,
    );
    assert_eq!(run(&mut st, ex), (vec![], Ok(())));
    let ex = st.msg(port_data(1, b"hi", v4(5, 6)), 12);
    assert_eq!(ex.notice, None);
    assert_eq!(
        run(&mut st, ex),
        (vec![(Outlet::Client, v4(9, 9), b"hi".to_vec())], Ok(()))
    );
}

#[test]
fn bubble_is_not_passed_on() {
    let mut st = CommunicationActorState::new(1, Some(v4(9, 9)), &settings(None));
    let ex = st.msg(port_data(0, b"", v4(5, 6)), 10);
    assert_eq!(ex.notice, None);
    assert_eq!(run(&mut st, ex), (vec![], Ok(())));
    assert_eq!(st.port_statuses[0].last_seen_packet, Some(10));
}

#[test]
fn nothing_is_relayed_while_no_port_is_alive() {
    let mut st = state(3);
    let ex = st.msg(CommunicationActorMessage::ClientData(b"hi".to_vec()), 10);
    assert_eq!(
        run(&mut st, ex),
        (vec![], Err(ActorError::NoUsablePorts))
    );
    assert_eq!(
        ActorError::NoUsablePorts.message(),
        "No usable ports to send now"
    );
    // A configured address alone does not make a port alive.
    let ex = st.msg(control(0, &[1, 2, 3]), 10);
    run(&mut st, ex);
    let ex = st.msg(CommunicationActorMessage::ClientData(b"hi".to_vec()), 10);
    assert_eq!(
        run(&mut st, ex),
        (vec![], Err(ActorError::NoUsablePorts))
    );
}

#[test]
fn packet_is_relayed_through_the_live_port() {
    let mut st = state(9);
    st.msg(port_data(7, b"", v4(5, 6)), 10);
    for _ in 0..50 {
        let ex = st.msg(CommunicationActorMessage::ClientData(b"hi".to_vec()), 20);
        assert_eq!(
            run(&mut st, ex),
            (vec![(Outlet::Port(7), v4(5, 6), b"hi".to_vec())], Ok(()))
        );
    }
}

#[test]
fn live_ports_are_picked_at_random() {
    let mut st = state(3);
    for i in 0..3 {
        st.msg(port_data(i, b"", v4(5, i as u16)), 10);
    }
    let mut used = [0; 3];
    for _ in 0..300 {
        let ex = st.msg(CommunicationActorMessage::ClientData(b"hi".to_vec()), 20);
        let (sent, outcome) = run(&mut st, ex);
        assert_eq!(outcome, Ok(()));
        assert_eq!(sent.len(), 1);
        match sent[0].0 {
            Outlet::Port(i) => {
                assert_eq!(sent[0].1, v4(5, i as u16));
                used[i] += 1;
            }
            Outlet::Client => panic!("wrong way"),
        }
    }
    assert!(used.iter().all(|n| *n > 0));
}

#[test]
fn drawn_ports_are_tried_first() {
    let mut st = state(4);
    st.msg(port_data(1, b"", v4(1, 1)), 10);
    st.msg(port_data(3, b"", v4(3, 3)), 10);
    let buf = b"hi".to_vec();
    let ex = st.relay(buf.clone(), vec![0, 3, 1, 1]);
    assert_eq!(
        run(&mut st, ex),
        (vec![(Outlet::Port(3), v4(3, 3), buf.clone())], Ok(()))
    );
    let ex = st.relay(buf.clone(), vec![0, 2, 0, 2]);
    assert_eq!(
        run(&mut st, ex),
        (vec![(Outlet::Port(1), v4(1, 1), buf.clone())], Ok(()))
    );
}

#[test]
fn each_try_has_its_own_time() {
    let mut st = state(2);
    st.msg(port_data(0, b"", v4(1, 1)), 10);
    st.msg(port_data(1, b"", v4(2, 2)), 20);
    let buf = b"hi".to_vec();
    // Port 0 has just died when it is tried; port 1 is still alive.
    let mut ex = st.relay(buf.clone(), vec![0, 0, 0, 0]);
    for _ in 0..5 {
        assert!(matches!(
            st.next_action(&mut ex, 60 * SEC + 11),
            Action::TryAnother
        ));
    }
    match st.next_action(&mut ex, 60 * SEC + 20) {
        Action::Send(d) => {
            assert_eq!(d.outlet, Outlet::Port(1));
            assert_eq!(d.to, v4(2, 2));
            assert_eq!(d.payload, buf);
        }
        _ => panic!("nothing is sent"),
    }
    assert!(matches!(
        st.next_action(&mut ex, 70 * SEC),
        Action::Finish(Ok(()))
    ));
    // Port 1 dies while the others are tried.
    let mut ex = st.relay(buf, vec![0]);
    assert!(matches!(
        st.next_action(&mut ex, 60 * SEC + 11),
        Action::TryAnother
    ));
    assert!(matches!(
        st.next_action(&mut ex, 60 * SEC + 20),
        Action::TryAnother
    ));
    assert!(matches!(
        st.next_action(&mut ex, 60 * SEC + 21),
        Action::TryAnother
    ));
    assert!(matches!(
        st.next_action(&mut ex, 60 * SEC + 21),
        Action::Finish(Err(ActorError::NoUsablePorts))
    ));
}

#[test]
fn port_dies_of_silence() {
    let mut st = state(1);
    st.msg(port_data(0, b"", v4(1, 1)), 5 * SEC);
    let buf = b"hi".to_vec();
    assert_eq!(
        st.try_send_though_port(0, &buf, 65 * SEC).unwrap().len(),
        1
    );
    assert_eq!(
        st.try_send_though_port(0, &buf, 65 * SEC + 1)
            .unwrap()
            .len(),
        0
    );
    // A reading from before the packet counts as no silence at all.
    assert_eq!(st.try_send_though_port(0, &buf, 0).unwrap().len(), 1);
}

#[test]
fn packet_goes_to_both_addresses_where_they_differ() {
    let mut st = state(1);
    let ex = st.msg(control(0x44556677 ^ 77, &[0x8899 ^ 88]), 10);
    assert_eq!(
        run(&mut st, ex),
        (vec![(Outlet::Port(0), v4(77, 88), vec![])], Ok(()))
    );
    st.msg(port_data(0, b"", v4(5, 6)), 10);
    let ex = st.msg(CommunicationActorMessage::ClientData(b"hi".to_vec()), 20);
    assert_eq!(ex.notice, None);
    assert_eq!(
        run_noting(&mut st, ex, 20),
        (
            vec![
                (Outlet::Port(0), v4(77, 88), b"hi".to_vec()),
                (Outlet::Port(0), v4(5, 6), b"hi".to_vec())
            ],
            Ok(()),
            Some(Notice::DifferentAddresses)
        )
    );
    st.msg(port_data(0, b"", v4(77, 88)), 30);
    let ex = st.msg(CommunicationActorMessage::ClientData(b"hi".to_vec()), 40);
    assert_eq!(
        run_noting(&mut st, ex, 40),
        (
            vec![(Outlet::Port(0), v4(77, 88), b"hi".to_vec())],
            Ok(()),
            None
        )
    );
}

#[test]
fn live_port_without_an_address_is_an_error() {
    let mut st = state(1);
    st.port_statuses[0].last_seen_packet = Some(10);
    let buf = b"hi".to_vec();
    assert_eq!(
        st.try_send_though_port(0, &buf, 10).unwrap_err(),
        ActorError::NoAddress
    );
    let ex = st.relay(buf.clone(), vec![0, 0, 0, 0]);
    assert_eq!(run(&mut st, ex), (vec![], Err(ActorError::NoAddress)));
    assert_eq!(
        ActorError::NoAddress.message(),
        "Strange that no address, yet seen packets"
    );
}

#[test]
fn configured_address_alone_is_used() {
    let mut st = state(1);
    st.port_statuses[0].last_seen_packet = Some(10);
    st.port_statuses[0].configured_peer_addr = Some(v4(1, 2));
    let q = st.try_send_though_port(0, &b"hi".to_vec(), 10).unwrap();
    assert_eq!(q.len(), 1);
    assert_eq!(q[0].to, v4(1, 2));
    assert!(!q[0].configures);
}

#[test]
fn bubbles_go_to_the_announced_ports() {
    // One client opened three ports and announces them.
    let adv = Advertiser::new("x".to_string(), &vec![2000, 3000, 4000]);
    // The server sees the announcement come from 1.2.3.4.
    let seen = stamp(&v4(0x01020304, 555));
    let message = IncomingControlMessage {
        na: adv.advertisment.na,
        ip: seen.ip,
        po: seen.po,
        ports: adv.advertisment.ports,
        disc: adv.advertisment.disc,
    };
    // The other client has two ports.
    let mut st = state(2);
    let reaction = react(ClientEvent::FromServer(Some(message)));
    assert!(reaction.announce);
    let ex = st.msg(reaction.relay.unwrap(), 0);
    assert_eq!(
        run(&mut st, ex),
        (
            vec![
                (Outlet::Port(0), v4(0x01020304, 2000), vec![]),
                (Outlet::Port(1), v4(0x01020304, 3000), vec![])
            ],
            Ok(())
        )
    );
    assert_eq!(
        st.port_statuses[1].configured_peer_addr,
        Some(v4(0x01020304, 3000))
    );
}

#[test]
fn fewer_ports_than_the_peer_has_are_named() {
    let mut st = state(3);
    let ex = st.msg(control(0, &[0x8899]), 0);
    let (sent, outcome) = run(&mut st, ex);
    assert_eq!(outcome, Ok(()));
    assert_eq!(
        sent,
        vec![(Outlet::Port(0), v4(0x44556677, 0), vec![])]
    );
    assert_eq!(st.port_statuses[1].configured_peer_addr, None);
}

#[test]
fn override_replaces_the_named_address() {
    let mut st = CommunicationActorState::new(1, None, &settings(Some(0x0A000001)));
    let ex = st.msg(control(0, &[0x8899 ^ 5]), 0);
    assert_eq!(
        run(&mut st, ex),
        (vec![(Outlet::Port(0), v4(0x0A000001, 5), vec![])], Ok(()))
    );
}

#[test]
fn failed_bubble_stops_the_others() {
    let mut st = state(3);
    let mut ex = st.msg(control(0x44556677 ^ 1, &[0x8899, 0x8898, 0x889B]), 0);
    assert!(matches!(st.next_action(&mut ex, 0), Action::Send(_)));
    assert!(matches!(st.next_action(&mut ex, 0), Action::Send(_)));
    ex.send_failed();
    assert!(matches!(
        st.next_action(&mut ex, 0),
        Action::Finish(Err(ActorError::SendFailed))
    ));
    assert_eq!(st.port_statuses[0].configured_peer_addr, Some(v4(1, 0)));
    assert_eq!(st.port_statuses[1].configured_peer_addr, Some(v4(1, 1)));
    assert_eq!(st.port_statuses[2].configured_peer_addr, None);
    assert_eq!(
        ActorError::SendFailed.message(),
        "A packet could not be sent"
    );
}

#[test]
fn first_announcement_alone_asks_for_an_answer() {
    let mut adv = Advertiser::new("x".to_string(), &vec![0x8899, 1]);
    assert!(adv.advertisment.disc);
    assert_eq!(adv.advertisment.na, "x");
    assert_eq!(adv.advertisment.ports, vec![0, 0x8898]);
    assert!(adv.sent());
    assert!(!adv.advertisment.disc);
    assert!(!adv.sent());
    assert!(!adv.advertisment.disc);
    assert_eq!(adv.advertisment.na, "x");
    assert_eq!(adv.advertisment.ports, vec![0, 0x8898]);
}

fn advert(na: &str, disc: bool) -> IncomingControlMessage {
    IncomingControlMessage {
        na: na.to_string(),
        ip: 0,
        po: 0,
        ports: vec![],
        disc,
    }
}

#[test]
fn one_announcement_per_tick_and_request() {
    let events = vec![
        ClientEvent::Tick,
        ClientEvent::FromServer(Some(advert("a", true))),
        ClientEvent::FromServer(Some(advert("b", false))),
        ClientEvent::FromServer(None),
        ClientEvent::Tick,
        ClientEvent::FromServer(Some(advert("c", true))),
    ];
    let mut adv = Advertiser::new("x".to_string(), &vec![1]);
    let mut asked = Vec::new();
    let mut relayed = Vec::new();
    for event in events {
        let reaction = react(event);
        if reaction.announce {
            asked.push(adv.advertisment.disc);
            adv.sent();
        }
        if let Some(m) = reaction.relay {
            match m {
                CommunicationActorMessage::ControlMessage(cm) => relayed.push(cm.na),
                _ => panic!("not a control message"),
            }
        }
    }
    assert_eq!(asked, vec![true, false, false, false]);
    assert_eq!(relayed, vec!["a", "b", "c"]);
}

#[test]
fn foreign_packets_are_dropped_where_the_address_is_fixed() {
    let r = client_packet(&Some(v4(1, 1)), v4(2, 2), b"hi".to_vec());
    assert!(r.is_empty());
    let r = client_packet(&Some(v4(1, 1)), v4(1, 1), b"hi".to_vec());
    assert_eq!(r.len(), 1);
    assert!(matches!(&r[0], CommunicationActorMessage::ClientData(b) if b == b"hi"));
}

#[test]
fn latest_address_is_used_where_none_is_fixed() {
    let r = client_packet(&None, v4(2, 2), b"hi".to_vec());
    assert_eq!(r.len(), 2);
    assert!(matches!(
        r[0],
        CommunicationActorMessage::NewClientPeerAddress(a) if a == v4(2, 2)
    ));
    assert!(matches!(&r[1], CommunicationActorMessage::ClientData(b) if b == b"hi"));
}
