use local_forwarder::frame::{decode_u16, encode_header, parse_header, Route};
use local_forwarder::model::{ConnectorInfo, ConnectorPort, PortType};
use local_forwarder::registry::ChanneledChannel;
use local_forwarder::supervisor::{
    egress_bytes, first_entries_of, Notice, Supervisor, GRACE_DELAY_MS, MAILBOX_TIMEOUT_MS,
    RETRY_DELAY_MS,
};

const CODE: u128 = 0xDEAD_0000_0000_0000_0000_0000_0000_BEEF;

fn tcp(remote: u16, local: u16) -> ConnectorPort {
    ConnectorPort {
        port_remote: remote,
        port_local: local,
        local_ip: "127.0.0.1".to_string(),
        port_type: PortType::Tcp,
        tunnel_type: PortType::Tcp,
    }
}

#[test]
fn publish_registers_every_advertised_port() {
    let mut sup = Supervisor::new(CODE);
    let mut reg: ChanneledChannel<u32> = ChanneledChannel::new();
    let info = ConnectorInfo { ports: vec![tcp(80, 9000), tcp(81, 9001)] };
    let plan = sup.publish(&mut reg, &info).unwrap();
    assert_eq!(plan.session, 1);
    assert_eq!(sup.session(), 1);
    assert_eq!(plan.ports.len(), 2);
    assert!(reg.mailbox_id(80).is_some());
    assert!(reg.mailbox_id(81).is_some());
}

#[test]
fn reconnect_and_reconfigure() {
    let mut sup = Supervisor::new(CODE);
    let mut reg: ChanneledChannel<u32> = ChanneledChannel::new();
    let a = ConnectorInfo { ports: vec![tcp(80, 9000)] };
    let plan_a = sup.publish(&mut reg, &a).unwrap();
    let rx80 = reg.get_receiver(80).cloned().unwrap();
    reg.send(80, 1).unwrap();
    let old_id = reg.mailbox_id(80).unwrap();
    let b = ConnectorInfo { ports: vec![tcp(81, 9001)] };
    let plan_b = sup.publish(&mut reg, &b).unwrap();
    assert!(plan_b.session > plan_a.session);
    assert!(reg.mailbox_id(80).is_none());
    assert!(reg.send(80, 2).is_err());
    assert!(reg.mailbox_id(81).unwrap() > old_id);
    reg.send(81, 3).unwrap();
    assert_eq!(reg.get_receiver(81).cloned().unwrap().try_recv().unwrap(), 3);
    assert!(rx80.is_closed());
    assert_eq!(rx80.try_recv().unwrap(), 1);
    assert!(rx80.try_recv().is_err());
}

#[test]
fn notices_of_an_earlier_session_are_not_written() {
    let mut sup = Supervisor::new(CODE);
    let mut reg: ChanneledChannel<u32> = ChanneledChannel::new();
    let p1 = sup.publish(&mut reg, &ConnectorInfo { ports: vec![tcp(80, 9000)] }).unwrap();
    let p2 = sup.publish(&mut reg, &ConnectorInfo { ports: vec![tcp(81, 9001)] }).unwrap();
    let stale = Notice { session: p1.session, port: 80 };
    let live = Notice { session: p2.session, port: 81 };
    assert_eq!(egress_bytes(p2.session, stale), None);
    let b = egress_bytes(p2.session, live).unwrap();
    assert_eq!(b, vec![0, 81]);
    assert_eq!(decode_u16(&b), Some(81));
}

#[test]
fn wrong_code_changes_nothing() {
    let mut sup = Supervisor::new(CODE);
    let mut reg: ChanneledChannel<u32> = ChanneledChannel::new();
    sup.publish(&mut reg, &ConnectorInfo { ports: vec![tcp(80, 9000)] }).unwrap();
    let id = reg.mailbox_id(80);
    let h = parse_header(&encode_header(0, 1)).unwrap();
    assert_eq!(sup.route(&h, PortType::Tcp), Route::Drop);
    assert_eq!(sup.session(), 1);
    assert_eq!(reg.mailbox_id(80), id);
    assert_eq!(sup.code(), CODE);
}

#[test]
fn unknown_port_dial_back_leaves_mailboxes_alone() {
    let mut sup = Supervisor::new(CODE);
    let mut reg: ChanneledChannel<u32> = ChanneledChannel::new();
    sup.publish(&mut reg, &ConnectorInfo { ports: vec![tcp(80, 9000)] }).unwrap();
    let h = parse_header(&encode_header(1, CODE)).unwrap();
    assert_eq!(sup.route(&h, PortType::Tcp), Route::Tunnel(1));
    assert!(reg.send(1, 9).is_err());
    assert!(reg.mailbox_id(80).is_some());
    assert!(reg.mailbox_id(1).is_none());
}

#[test]
fn duplicate_ports_keep_first_entry() {
    let info = ConnectorInfo { ports: vec![tcp(80, 9000), tcp(81, 9001), tcp(80, 9002)] };
    let firsts = first_entries_of(&info);
    assert_eq!(firsts.len(), 2);
    assert_eq!(firsts[0].port_local, 9000);
    assert_eq!(firsts[1].port_remote, 81);
}

#[test]
fn empty_publish_clears_registry() {
    let mut sup = Supervisor::new(CODE);
    let mut reg: ChanneledChannel<u32> = ChanneledChannel::new();
    sup.publish(&mut reg, &ConnectorInfo { ports: vec![tcp(80, 9000)] }).unwrap();
    let plan = sup.publish(&mut reg, &ConnectorInfo { ports: vec![] }).unwrap();
    assert!(plan.ports.is_empty());
    assert!(reg.mailbox_id(80).is_none());
}

#[test]
fn timing_constants() {
    assert_eq!(MAILBOX_TIMEOUT_MS, 1000);
    assert_eq!(RETRY_DELAY_MS, 100);
    assert_eq!(GRACE_DELAY_MS, 100);
}

#[test]
fn session_numbers_grow_by_one() {
    let mut sup = Supervisor::new(CODE);
    let mut reg: ChanneledChannel<u32> = ChanneledChannel::new();
    assert_eq!(sup.session(), 0);
    for k in 1..=3u64 {
        let plan = sup.publish(&mut reg, &ConnectorInfo { ports: vec![tcp(80, 9000)] }).unwrap();
        assert_eq!(plan.session, k);
        assert_eq!(sup.session(), k);
    }
}
