use holepunch::addr::SocketAddr;
use holepunch::options::{
    bind_address, command, ClientSettings, Command, Opt, OptionError, PlayloadCommunicationOptions,
};

const A: SocketAddr = SocketAddr::V4 { ip: 1, port: 2 };
const B: SocketAddr = SocketAddr::V4 { ip: 3, port: 4 };

fn nothing() -> Opt {
    Opt {
        server: None,
        client: None,
        name: None,
        pco: PlayloadCommunicationOptions {
            bind: None,
            sendto: None,
        },
        cs: ClientSettings {
            keepalive_interval: 30,
            num_ports: 12,
            override_sendto_addr: None,
            stun: false,
        },
        stats: None,
    }
}

#[test]
fn exactly_one_mode_is_asked_for() {
    assert_eq!(command(nothing()).unwrap_err(), OptionError::NotOneMode);
    let mut o = nothing();
    o.server = Some(A);
    o.client = Some(B);
    assert_eq!(command(o).unwrap_err(), OptionError::NotOneMode);
    let mut o = nothing();
    o.server = Some(A);
    o.client = Some(B);
    o.stats = Some(B);
    let e = command(o).unwrap_err();
    assert_eq!(
        e.message(),
        "Specify exactly one of --server, --client or --stats"
    );
}

#[test]
fn stats_mode() {
    let mut o = nothing();
    o.stats = Some(A);
    o.pco.bind = Some(B);
    assert!(matches!(command(o), Ok(Command::Stats(a)) if a == A));
}

#[test]
fn server_mode() {
    let mut o = nothing();
    o.server = Some(A);
    assert!(matches!(
        command(o),
        Ok(Command::Server { addr, keepalive_ignored: false }) if addr == A
    ));
    let mut o = nothing();
    o.server = Some(A);
    o.cs.keepalive_interval = 31;
    assert!(matches!(
        command(o),
        Ok(Command::Server { addr, keepalive_ignored: true }) if addr == A
    ));
    for (bind, sendto) in [(Some(B), None), (None, Some(B)), (Some(B), Some(B))] {
        let mut o = nothing();
        o.server = Some(A);
        o.pco = PlayloadCommunicationOptions { bind, sendto };
        let e = command(o).unwrap_err();
        assert_eq!(e, OptionError::MeaninglessForServer);
        assert_eq!(
            e.message(),
            "--bind or --sendto are meaningless in server mode"
        );
    }
}

#[test]
fn client_mode() {
    let mut o = nothing();
    o.client = Some(A);
    let e = command(o).unwrap_err();
    assert_eq!(e, OptionError::NameRequired);
    assert_eq!(e.message(), "--name is required in client mode");
    let mut o = nothing();
    o.client = Some(A);
    o.name = Some("x".to_string());
    let e = command(o).unwrap_err();
    assert_eq!(e, OptionError::BindOrSendtoRequired);
    assert_eq!(
        e.message(),
        "Please specify --bind or --sendto in client mode"
    );
    let mut o = nothing();
    o.client = Some(A);
    o.name = Some("x".to_string());
    o.pco.sendto = Some(B);
    match command(o) {
        Ok(Command::Client {
            server,
            name,
            pco,
            cs,
        }) => {
            assert_eq!(server, A);
            assert_eq!(name, "x");
            assert_eq!(pco.bind, None);
            assert_eq!(pco.sendto, Some(B));
            assert_eq!(cs.num_ports, 12);
        }
        _ => panic!("not a client"),
    }
}

#[test]
fn bind_address_follows_the_options() {
    let any = SocketAddr::V4 { ip: 0, port: 0 };
    let local = SocketAddr::V4 {
        ip: 0x7F000001,
        port: 0,
    };
    let bound = |bind, sendto| bind_address(&PlayloadCommunicationOptions { bind, sendto });
    let to = |ip| Some(SocketAddr::V4 { ip, port: 99 });
    assert_eq!(bound(Some(A), to(0x7F000001)), A);
    assert_eq!(bound(None, to(0x7F000001)), local);
    assert_eq!(bound(None, to(0x7FFFFFFF)), local);
    assert_eq!(bound(None, to(0x7EFFFFFF)), any);
    assert_eq!(bound(None, to(0x80000000)), any);
    assert_eq!(bound(None, None), any);
    let loopback6 = SocketAddr::V6 {
        ip: 1,
        port: 1,
        flowinfo: 0,
        scope_id: 0,
    };
    assert_eq!(bound(None, Some(loopback6)), any);
}
