use local_forwarder::codec::{publish_frame, DecodeError, EncodeError};
use local_forwarder::model::{ConnectorInfo, ConnectorPort, PortType};

fn entry(remote: u16, local: u16, ip: &str, pt: PortType, tt: PortType) -> ConnectorPort {
    ConnectorPort {
        port_remote: remote,
        port_local: local,
        local_ip: ip.to_string(),
        port_type: pt,
        tunnel_type: tt,
    }
}

fn same(a: &ConnectorInfo, b: &ConnectorInfo) -> bool {
    a.ports.len() == b.ports.len()
        && a.ports.iter().zip(b.ports.iter()).all(|(x, y)| {
            x.port_remote == y.port_remote
                && x.port_local == y.port_local
                && x.local_ip == y.local_ip
                && x.port_type == y.port_type
                && x.tunnel_type == y.tunnel_type
        })
}

fn echo_map() -> ConnectorInfo {
    ConnectorInfo { ports: vec![entry(80, 9000, "127.0.0.1", PortType::Tcp, PortType::Tcp)] }
}

const ECHO_BYTES: [u8; 19] = [
    0, 1, 0, 80, 0x23, 0x28, 0, 9, b'1', b'2', b'7', b'.', b'0', b'.', b'0', b'.', b'1', 0, 0,
];

#[test]
fn encodes_single_tcp_entry() {
    let b = echo_map().encode().unwrap();
    assert_eq!(b, ECHO_BYTES.to_vec());
}

#[test]
fn encodes_types_as_zero_and_one() {
    let info = ConnectorInfo { ports: vec![entry(7000, 7001, "h", PortType::Udp, PortType::Tcp)] };
    assert_eq!(info.encode().unwrap(), vec![0, 1, 0x1B, 0x58, 0x1B, 0x59, 0, 1, b'h', 1, 0]);
}

#[test]
fn empty_map_is_two_zero_bytes() {
    let info = ConnectorInfo { ports: vec![] };
    assert_eq!(info.encode().unwrap(), vec![0, 0]);
    assert!(same(&ConnectorInfo::decode(&[0, 0]).unwrap(), &info));
}

#[test]
fn decode_round_trip() {
    let info = ConnectorInfo {
        ports: vec![
            entry(80, 9000, "127.0.0.1", PortType::Tcp, PortType::Tcp),
            entry(7000, 7001, "10.0.0.2", PortType::Udp, PortType::Udp),
            entry(81, 9001, "héte", PortType::Tcp, PortType::Udp),
            entry(443, 8443, "", PortType::Udp, PortType::Tcp),
        ],
    };
    let b = info.encode().unwrap();
    let back = ConnectorInfo::decode(&b).unwrap();
    assert!(same(&back, &info));
    assert_eq!(back.encode().unwrap(), b);
}

#[test]
fn decode_refuses_trailing_bytes() {
    let mut b = ECHO_BYTES.to_vec();
    b.push(0);
    assert_eq!(ConnectorInfo::decode(&b).unwrap_err(), DecodeError::Malformed);
}

#[test]
fn decode_refuses_truncated_input() {
    for n in 0..19 {
        assert!(ConnectorInfo::decode(&ECHO_BYTES[..n]).is_err(), "length {}", n);
    }
}

#[test]
fn decode_refuses_unknown_type_byte() {
    let mut b = ECHO_BYTES.to_vec();
    b[17] = 2;
    assert_eq!(ConnectorInfo::decode(&b).unwrap_err(), DecodeError::Malformed);
}

#[test]
fn decode_refuses_invalid_utf8_host() {
    let mut b = ECHO_BYTES.to_vec();
    b[8] = 0xFF;
    assert!(ConnectorInfo::decode(&b).is_err());
}

#[test]
fn host_longer_than_two_bytes_can_count_is_refused() {
    let long = "a".repeat(65536);
    let info = ConnectorInfo { ports: vec![entry(80, 80, &long, PortType::Tcp, PortType::Tcp)] };
    assert_eq!(info.encode().unwrap_err(), EncodeError::TooLarge);
    let fits = "a".repeat(65535);
    let info = ConnectorInfo { ports: vec![entry(80, 80, &fits, PortType::Tcp, PortType::Tcp)] };
    assert_eq!(info.encode().unwrap().len(), 2 + 8 + 65535);
}

#[test]
fn publish_frame_is_header_length_and_map() {
    let code: u128 = 0xDEAD_0000_0000_0000_0000_0000_0000_BEEF;
    let f = publish_frame(code, &echo_map()).unwrap();
    let mut expected = vec![0, 0, 0xDE, 0xAD, 0, 0, 0, 0, 0, 0, 0, 0, 0, 0, 0, 0, 0xBE, 0xEF];
    expected.extend_from_slice(&[0, 19]);
    expected.extend_from_slice(&ECHO_BYTES);
    assert_eq!(f, expected);
}

#[test]
fn publish_frame_refuses_map_longer_than_its_length_field() {
    let info = ConnectorInfo { ports: vec![entry(80, 80, &"a".repeat(65530), PortType::Tcp, PortType::Tcp)] };
    assert!(info.encode().is_ok());
    assert_eq!(publish_frame(1, &info).unwrap_err(), EncodeError::TooLarge);
}
