use local_forwarder::client::dial_plan;
use local_forwarder::frame::encode_header;
use local_forwarder::model::{ConnectorInfo, ConnectorPort, PortType};

fn entry(remote: u16, local: u16, ip: &str, pt: PortType, tt: PortType) -> ConnectorPort {
    ConnectorPort {
        port_remote: remote,
        port_local: local,
        local_ip: ip.to_string(),
        port_type: pt,
        tunnel_type: tt,
    }
}

#[test]
fn plan_for_advertised_port() {
    let info = ConnectorInfo {
        ports: vec![
            entry(80, 9000, "127.0.0.1", PortType::Tcp, PortType::Tcp),
            entry(7000, 7001, "10.0.0.2", PortType::Udp, PortType::Udp),
        ],
    };
    let plan = dial_plan(&info, 5, 7000).unwrap();
    assert_eq!(plan.tunnel_type, PortType::Udp);
    assert_eq!(plan.port_type, PortType::Udp);
    assert_eq!(plan.local_ip, "10.0.0.2");
    assert_eq!(plan.port_local, 7001);
    assert_eq!(plan.header, encode_header(7000, 5));
}

#[test]
fn mixed_transports_are_independent() {
    let info = ConnectorInfo { ports: vec![entry(53, 5353, "127.0.0.1", PortType::Udp, PortType::Tcp)] };
    let plan = dial_plan(&info, 1, 53).unwrap();
    assert_eq!(plan.port_type, PortType::Udp);
    assert_eq!(plan.tunnel_type, PortType::Tcp);
}

#[test]
fn unknown_port_gets_no_plan() {
    let info = ConnectorInfo { ports: vec![entry(80, 9000, "127.0.0.1", PortType::Tcp, PortType::Tcp)] };
    assert!(dial_plan(&info, 1, 81).is_none());
    assert!(dial_plan(&ConnectorInfo { ports: vec![] }, 1, 80).is_none());
}

#[test]
fn first_entry_decides() {
    let info = ConnectorInfo {
        ports: vec![
            entry(80, 9000, "a", PortType::Tcp, PortType::Tcp),
            entry(80, 9001, "b", PortType::Udp, PortType::Udp),
        ],
    };
    assert_eq!(info.find_port(80), Some(0));
    let plan = dial_plan(&info, 1, 80).unwrap();
    assert_eq!(plan.port_local, 9000);
    assert_eq!(plan.local_ip, "a");
}
