use holepunch::addr::{addr_of_key, SocketAddr};
use holepunch::cache::{Peers, MAX_ADDRS, MAX_NAMES};
use holepunch::metrics::{Counter, ServerMetrics};
use holepunch::server::{classify, Announcement, Delivery, PacketKind, Server};

fn v4(ip: u32, port: u16) -> SocketAddr {
    SocketAddr::V4 { ip, port }
}

fn v6(ip: u128, port: u16) -> SocketAddr {
    SocketAddr::V6 {
        ip,
        port,
        flowinfo: 0,
        scope_id: 0,
    }
}

fn named(s: &mut Server, name: &str, from: SocketAddr) -> Delivery {
    match s.announce(name.to_string(), from) {
        Announcement::Named(d) => d,
        Announcement::Ping => panic!("not a ping"),
    }
}

/// Announces, tells everybody, and returns who was told.
fn whole(s: &mut Server, name: &str, from: SocketAddr) -> Vec<SocketAddr> {
    let mut d = named(s, name, from);
    let mut told = Vec::new();
    while let Some(t) = d.next_target() {
        told.push(t);
        s.delivered(true);
    }
    s.conclude(d);
    told
}

#[test]
fn packets_are_sorted_and_counted() {
    let mut s = Server::new();
    assert_eq!(s.metrics, ServerMetrics::default());
    assert_eq!(s.handle_packet(b""), PacketKind::Empty);
    assert_eq!(s.handle_packet(b"?"), PacketKind::MetricsRequest);
    assert_eq!(s.handle_packet(b"??"), PacketKind::Control);
    assert_eq!(s.handle_packet(b"!"), PacketKind::Control);
    assert_eq!(s.metrics.pkt_rcv, 4);
    assert_eq!(s.metrics.zeropkt, 1);
    assert_eq!(s.metrics.me_rq, 1);
    assert_eq!(s.metrics.ping, 0);
    s.handler_failed();
    s.receive_failed();
    s.receive_failed();
    assert_eq!(s.metrics.han_err, 1);
    assert_eq!(s.metrics.rcv_err, 2);
}

#[test]
fn message_without_a_name_is_a_ping() {
    let mut s = Server::new();
    assert!(matches!(
        s.announce(String::new(), v4(1, 1)),
        Announcement::Ping
    ));
    assert_eq!(s.metrics.ping, 1);
    assert_eq!(s.metrics.named, 0);
}

#[test]
fn first_client_of_a_name_is_alone() {
    let mut s = Server::new();
    let mut d = named(&mut s, "x", v4(1, 1));
    assert!(d.is_new);
    assert_eq!(d.name, "x");
    assert_eq!(d.from, v4(1, 1));
    assert!(d.candidates.is_empty());
    assert_eq!(d.next_target(), None);
    assert!(d.told.is_empty());
    s.conclude(d);
    assert_eq!(s.metrics.named, 1);
    assert_eq!(s.metrics.newnm, 1);
    assert_eq!(s.metrics.lone, 1);
    assert_eq!(s.metrics.sent, 0);
}

#[test]
fn two_clients_of_one_name_meet() {
    let mut s = Server::new();
    assert_eq!(whole(&mut s, "x", v4(1, 1)), vec![]);
    assert_eq!(whole(&mut s, "x", v6(7, 2)), vec![v4(1, 1)]);
    assert_eq!(whole(&mut s, "x", v4(1, 1)), vec![v6(7, 2)]);
    assert_eq!(s.metrics.named, 3);
    assert_eq!(s.metrics.newnm, 1);
    assert_eq!(s.metrics.lone, 1);
    assert_eq!(s.metrics.sent, 2);
}

#[test]
fn clients_of_different_names_do_not_meet() {
    let mut s = Server::new();
    assert_eq!(whole(&mut s, "x", v4(1, 1)), vec![]);
    assert_eq!(whole(&mut s, "y", v4(2, 2)), vec![]);
    assert_eq!(s.metrics.newnm, 2);
    assert_eq!(s.metrics.lone, 2);
}

#[test]
fn sender_is_not_told_and_repeats_are_alone() {
    let mut s = Server::new();
    whole(&mut s, "x", v4(1, 1));
    assert_eq!(whole(&mut s, "x", v4(1, 1)), vec![]);
    assert_eq!(s.metrics.newnm, 1);
    assert_eq!(s.metrics.lone, 2);
}

#[test]
fn targets_go_from_oldest_to_youngest() {
    let mut s = Server::new();
    whole(&mut s, "x", v4(1, 1));
    whole(&mut s, "x", v4(2, 2));
    whole(&mut s, "x", v4(3, 3));
    whole(&mut s, "x", v4(1, 1));
    assert_eq!(
        whole(&mut s, "x", v4(4, 4)),
        vec![v4(2, 2), v4(3, 3), v4(1, 1)]
    );
}

#[test]
fn oldest_address_makes_room() {
    let mut s = Server::new();
    for i in 0..MAX_ADDRS as u32 {
        whole(&mut s, "x", v4(i, 1));
    }
    // A repeat displaces nobody, but makes the address the youngest.
    let told = whole(&mut s, "x", v4(0, 1));
    assert_eq!(told.len(), MAX_ADDRS - 1);
    // The list is full: a newcomer is told to all of it, and replaces the oldest.
    let told = whole(&mut s, "x", v4(100, 1));
    assert_eq!(told.len(), MAX_ADDRS);
    assert_eq!(told[0], v4(1, 1));
    let told = whole(&mut s, "x", v4(100, 1));
    assert_eq!(told.len(), MAX_ADDRS - 1);
    assert_eq!(told[0], v4(2, 1));
    assert!(!told.contains(&v4(1, 1)));
    assert!(told.contains(&v4(0, 1)));
}

#[test]
fn oldest_name_makes_room() {
    let mut s = Server::new();
    for i in 0..MAX_NAMES {
        whole(&mut s, &format!("n{}", i), v4(1, 1));
    }
    assert_eq!(s.metrics.newnm, 1024);
    whole(&mut s, "n0", v4(1, 1));
    assert_eq!(s.metrics.newnm, 1024);
    // n1 is the oldest name now.
    whole(&mut s, "another", v4(1, 1));
    assert_eq!(s.metrics.newnm, 1025);
    assert_eq!(whole(&mut s, "n0", v4(2, 2)), vec![v4(1, 1)]);
    assert_eq!(s.metrics.newnm, 1025);
    assert_eq!(whole(&mut s, "n1", v4(2, 2)), vec![]);
    assert_eq!(s.metrics.newnm, 1026);
}

#[test]
fn failed_deliveries_are_counted_apart() {
    let mut s = Server::new();
    whole(&mut s, "x", v4(1, 1));
    whole(&mut s, "x", v4(2, 2));
    let mut d = named(&mut s, "x", v4(3, 3));
    assert_eq!(d.next_target(), Some(v4(1, 1)));
    s.delivered(false);
    assert_eq!(d.next_target(), Some(v4(2, 2)));
    s.delivered(true);
    assert_eq!(d.next_target(), None);
    assert_eq!(d.next_target(), None);
    s.conclude(d);
    assert_eq!(s.metrics.snderr, 1);
    assert_eq!(s.metrics.sent, 2);
    assert_eq!(s.metrics.lone, 1);
}

#[test]
fn open_entry_counts_unknown_names() {
    let mut s = Server::new();
    let p: Peers = s.open_entry(None);
    assert_eq!(p.capacity(), MAX_ADDRS);
    assert_eq!(s.metrics.newnm, 1);
    s.open_entry(Some(p));
    assert_eq!(s.metrics.newnm, 1);
}

#[test]
fn candidates_are_told_if_alive_and_not_the_sender() {
    let mut s = Server::new();
    for a in [v4(1, 1), v6(1, 1), v4(1, 2), v6(2, 2)] {
        whole(&mut s, "x", a);
    }
    let mut d = named(&mut s, "x", v6(1, 1));
    assert_eq!(d.candidates.len(), 4);
    assert_eq!(d.consider(true), Some(v4(1, 1)));
    // The sender.
    assert_eq!(d.consider(true), None);
    // One whose time has run out since the delivery began.
    assert_eq!(d.consider(false), None);
    assert_eq!(d.next_target(), Some(v6(2, 2)));
    assert_eq!(d.next_target(), None);
    assert_eq!(d.told, vec![v4(1, 1), v6(2, 2)]);
    s.conclude(d);
}

#[test]
fn candidate_that_is_gone_is_passed_over() {
    let mut s = Server::new();
    for a in [v4(1, 1), v4(2, 2), v4(3, 3)] {
        whole(&mut s, "x", a);
    }
    let mut d = named(&mut s, "x", v4(4, 4));
    assert_eq!(d.next_target(), Some(v4(1, 1)));
    assert!(d.peers.remove(&v4(2, 2).key()).is_some());
    assert_eq!(d.next_target(), Some(v4(3, 3)));
    assert_eq!(d.next_target(), None);
}

#[test]
fn counters_stay_consistent() {
    let mut s = Server::new();
    s.handle_packet(b"");
    s.handle_packet(b"?");
    s.handle_packet(b"xx");
    s.handler_failed();
    s.handle_packet(b"xx");
    s.announce(String::new(), v4(1, 1));
    s.handle_packet(b"xx");
    whole(&mut s, "x", v4(1, 1));
    let m = s.metrics;
    let sorted = m.zeropkt + m.me_rq + m.ping + m.named;
    assert_eq!(sorted, 4);
    assert_eq!(m.pkt_rcv, 5);
    assert_eq!(m.pkt_rcv, sorted + m.han_err);
    assert!(m.newnm <= m.named && m.lone <= m.named);
}

fn assert_accounted(m: &ServerMetrics) {
    let sorted = m.zeropkt + m.me_rq + m.ping + m.named;
    assert!(sorted <= m.pkt_rcv && m.pkt_rcv <= sorted + m.han_err);
    assert!(m.newnm <= m.lone && m.lone <= m.named);
    let met = m.named - m.lone;
    assert!(met <= m.sent + m.snderr && m.sent + m.snderr <= 16 * met);
}

#[test]
fn counters_agree_over_a_history() {
    let mut s = Server::new();
    for i in 0..40u32 {
        let before = s.metrics;
        s.handle_packet(b"xx");
        let mut d = named(&mut s, if i % 3 == 0 { "x" } else { "y" }, v4(i % 25, 1));
        let mut k: u32 = 0;
        while d.next_target().is_some() {
            s.delivered((i + k) % 2 == 0);
            k += 1;
        }
        s.conclude(d);
        if i % 5 == 0 {
            s.handle_packet(b"?");
            s.handler_failed();
            s.receive_failed();
        }
        assert_accounted(&s.metrics);
        let after = s.metrics;
        assert_eq!(after.named, before.named + 1);
        assert_eq!(
            after.sent + after.snderr,
            before.sent + before.snderr + u64::from(k)
        );
        assert!(after.sent >= before.sent && after.snderr >= before.snderr);
        assert!(after.lone >= before.lone && after.newnm >= before.newnm);
    }
    assert_eq!(s.metrics.newnm, 2);
    assert_eq!(s.metrics.lone, 2);
}

#[test]
fn most_recent_addresses_are_remembered() {
    let mut s = Server::new();
    let mut recent: Vec<SocketAddr> = Vec::new();
    for i in 0..60u32 {
        let from = v4(i * i % 23, 7);
        let skip = if recent.len() > MAX_ADDRS {
            recent.len() - MAX_ADDRS
        } else {
            0
        };
        let expected: Vec<SocketAddr> = recent[skip..]
            .iter()
            .filter(|a| **a != from)
            .cloned()
            .collect();
        assert_eq!(whole(&mut s, "x", from), expected);
        recent.retain(|a| *a != from);
        recent.push(from);
    }
}

#[test]
fn other_names_make_no_difference() {
    let mut quiet = Server::new();
    let mut busy = Server::new();
    for i in 0..50u32 {
        whole(&mut busy, &format!("other{}", i), v4(i, 9));
        whole(&mut busy, "another", v4(i, 9));
        let from = v4(i % 20, 1);
        assert_eq!(whole(&mut quiet, "x", from), whole(&mut busy, "x", from));
    }
    assert_eq!(quiet.metrics.newnm, 1);
    assert_eq!(busy.metrics.newnm, 52);
}

#[test]
fn counting_changes_one_counter() {
    let all = [
        Counter::PktRcv,
        Counter::HanErr,
        Counter::RcvErr,
        Counter::ZeroPkt,
        Counter::MeRq,
        Counter::Ping,
        Counter::Named,
        Counter::NewNm,
        Counter::Sent,
        Counter::SndErr,
        Counter::Lone,
    ];
    let values = |m: ServerMetrics| {
        [
            m.pkt_rcv, m.han_err, m.rcv_err, m.zeropkt, m.me_rq, m.ping, m.named, m.newnm, m.sent,
            m.snderr, m.lone,
        ]
    };
    for i in 0..all.len() {
        let mut m = ServerMetrics::default();
        m.count(all[i]);
        let mut expected = [0u64; 11];
        expected[i] = 1;
        assert_eq!(values(m), expected);
    }
}

#[test]
fn full_counter_has_no_room() {
    let mut m = ServerMetrics::default();
    m.ping = u64::MAX;
    assert!(!m.room_for(Counter::Ping));
    assert!(m.room_for(Counter::Named));
}

#[test]
fn addresses_come_back_from_their_keys() {
    let a = SocketAddr::V6 {
        ip: u128::MAX,
        port: 65535,
        flowinfo: 1,
        scope_id: 2,
    };
    for a in [v4(0, 0), v4(u32::MAX, 65535), v6(5, 6), a] {
        assert_eq!(addr_of_key(a.key()), a);
    }
    assert_eq!(v4(5, 6).key(), (false, 5, 6, 0, 0));
    assert_eq!(a.key(), (true, u128::MAX, 65535, 1, 2));
    assert_ne!(v4(5, 6).key(), v6(5, 6).key());
    assert_eq!(a.port(), 65535);
    assert_eq!(v4(1, 80).port(), 80);
}

#[test]
fn question_mark_asks_for_the_counters() {
    assert_eq!(classify(b""), PacketKind::Empty);
    assert_eq!(classify(b"?"), PacketKind::MetricsRequest);
    assert_eq!(classify(b"? "), PacketKind::Control);
    assert_eq!(classify(b"\0"), PacketKind::Control);
}

#[test]
fn server_is_ready_while_its_counters_have_room() {
    let mut s = Server::new();
    assert!(s.ready_for_packet(b""));
    s.metrics.zeropkt = u64::MAX;
    assert!(!s.ready_for_packet(b""));
    assert!(s.ready_for_packet(b"?"));
    s.metrics.me_rq = u64::MAX;
    assert!(!s.ready_for_packet(b"?"));
    assert!(s.ready_for_packet(b"xx"));
    s.metrics.pkt_rcv = u64::MAX;
    assert!(!s.ready_for_packet(b"xx"));
    assert!(s.ready_for_name(&String::new()));
    assert!(s.ready_for_name(&"x".to_string()));
    s.metrics.ping = u64::MAX;
    assert!(!s.ready_for_name(&String::new()));
    s.metrics.newnm = u64::MAX;
    assert!(!s.ready_for_name(&"x".to_string()));
}

#[test]
fn other_names_stay_while_one_is_announced() {
    let mut s = Server::new();
    whole(&mut s, "x", v4(1, 1));
    whole(&mut s, "y", v4(2, 2));
    let mut x = named(&mut s, "x", v4(3, 3));
    let mut y = named(&mut s, "y", v4(4, 4));
    assert_eq!(x.next_target(), Some(v4(1, 1)));
    assert_eq!(y.next_target(), Some(v4(2, 2)));
    assert_eq!(x.next_target(), None);
    assert_eq!(y.next_target(), None);
    s.conclude(x);
    s.conclude(y);
    assert_eq!(
        whole(&mut s, "x", v4(5, 5)),
        vec![v4(1, 1), v4(3, 3)]
    );
    assert_eq!(
        whole(&mut s, "y", v4(5, 5)),
        vec![v4(2, 2), v4(4, 4)]
    );
}
