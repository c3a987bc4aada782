use holepunch::addr::SocketAddr;
use holepunch::wire::{mask_ports, stamp, ControlMessage, Stamp, IP_MASK, PORT_MASK};

#[test]
fn ports_are_masked_and_unmasked() {
    let ports = vec![0, 1, 0x8899, 65535];
    let masked = mask_ports(&ports);
    assert_eq!(masked, vec![0x8899, 0x8898, 0, 0x7766]);
    assert_eq!(mask_ports(&masked), ports);
    assert_eq!(mask_ports(&vec![]), vec![]);
}

#[test]
fn ip_mask_undoes_itself() {
    for ip in [0u32, 1, 0x7F000001, u32::MAX] {
        assert_eq!((ip ^ IP_MASK) ^ IP_MASK, ip);
    }
}

#[test]
fn stamp_bears_the_masked_sender() {
    let from = SocketAddr::V4 {
        ip: 0x7F000001,
        port: 1234,
    };
    assert_eq!(
        stamp(&from),
        Stamp {
            ip: 0x3B556676,
            po: 0x8C4B
        }
    );
    let from = SocketAddr::V6 {
        ip: 1,
        port: 0,
        flowinfo: 0,
        scope_id: 0,
    };
    assert_eq!(
        stamp(&from),
        Stamp {
            ip: IP_MASK,
            po: PORT_MASK
        }
    );
}

#[test]
fn stamped_message_bears_its_sender_alone() {
    let from = SocketAddr::V4 {
        ip: 0x7F000001,
        port: 1234,
    };
    let empty = ControlMessage {
        na: "x".to_string(),
        ip: None,
        po: None,
    };
    let filled = ControlMessage {
        na: String::new(),
        ip: Some(1),
        po: Some(2),
    };
    let a = empty.stamped(&from);
    assert_eq!(a.na, "x");
    assert_eq!((a.ip, a.po), (Some(0x3B556676), Some(0x8C4B)));
    let b = filled.stamped(&from);
    assert_eq!(b.na, "");
    assert_eq!((b.ip, b.po), (Some(0x3B556676), Some(0x8C4B)));
}
