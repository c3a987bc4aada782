use holepunch::addr::SocketAddr;
use holepunch::stun::{
    announced_ports, mapped_port, reply_port, request, PortQuery, QueryStep, STUN_ATTEMPTS,
};
use holepunch::wire::{stamp, IncomingControlMessage};

fn v4(ip: u32, port: u16) -> SocketAddr {
    SocketAddr::V4 { ip, port }
}

fn reply(po: u16) -> IncomingControlMessage {
    IncomingControlMessage {
        na: String::new(),
        ip: 0,
        po,
        ports: vec![],
        disc: false,
    }
}

#[test]
fn request_has_no_name() {
    let r = request();
    assert_eq!(r.na, "");
    assert!(r.ports.is_empty());
    assert!(!r.disc);
    assert_eq!(STUN_ATTEMPTS, 4);
}

#[test]
fn mapped_port_is_the_one_that_the_server_saw() {
    assert_eq!(mapped_port(&reply(0x8899)), 0);
    assert_eq!(mapped_port(&reply(0x8C4B)), 1234);
    for port in [0u16, 1, 1025, 65535] {
        assert_eq!(mapped_port(&reply(stamp(&v4(7, port)).po)), port);
    }
}

#[test]
fn only_the_server_tells_a_port() {
    let server = v4(1, 1);
    let answer = Some(reply(0x8C4B));
    assert_eq!(reply_port(&server, &v4(1, 1), &answer), Some(1234));
    assert_eq!(reply_port(&server, &v4(1, 2), &answer), None);
    assert_eq!(reply_port(&server, &v4(2, 1), &answer), None);
    assert_eq!(reply_port(&server, &v4(1, 1), &None), None);
}

#[test]
fn mapped_ports_are_announced() {
    assert_eq!(
        announced_ports(&vec![2000, 3000, 4000], &vec![Some(5), None, Some(7)]),
        vec![5, 3000, 7]
    );
    assert_eq!(announced_ports(&vec![], &vec![]), vec![]);
}

#[test]
fn question_is_asked_a_few_times() {
    let mut q = PortQuery::new();
    let mut asked = 1;
    while q.answered(None) == QueryStep::Ask {
        asked += 1;
    }
    assert_eq!(asked, 4);
    assert_eq!(q.answered(None), QueryStep::Done(None));
    // An answer to the last question counts.
    assert_eq!(q.answered(Some(7)), QueryStep::Done(Some(7)));
}

#[test]
fn answer_ends_the_question() {
    let mut q = PortQuery::new();
    assert_eq!(q.attempts_left, 3);
    assert_eq!(q.answered(None), QueryStep::Ask);
    assert_eq!(q.attempts_left, 2);
    assert_eq!(q.answered(Some(1234)), QueryStep::Done(Some(1234)));
}
