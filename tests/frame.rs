use local_forwarder::frame::{
    decode_u16, encode_header, encode_u16, parse_header, route, Header, Route, HEADER_LEN,
};
use local_forwarder::model::PortType;

const SERVER_CODE: u128 = 0xDEAD_0000_0000_0000_0000_0000_0000_BEEF;

#[test]
fn header_is_port_then_code_big_endian() {
    let b = encode_header(0x0102, SERVER_CODE);
    assert_eq!(b.len(), HEADER_LEN);
    assert_eq!(
        b,
        vec![
            0x01, 0x02, 0xDE, 0xAD, 0, 0, 0, 0, 0, 0, 0, 0, 0, 0, 0, 0, 0xBE, 0xEF
        ]
    );
}

#[test]
fn header_round_trip() {
    for (port, code) in [(0u16, 0u128), (1, SERVER_CODE), (65535, u128::MAX), (80, 1)] {
        let b = encode_header(port, code);
        assert_eq!(parse_header(&b), Some(Header { port, code }));
    }
}

#[test]
fn header_of_wrong_length_is_refused() {
    let b = encode_header(80, SERVER_CODE);
    assert_eq!(parse_header(&b[..17]), None);
    let mut longer = b.clone();
    longer.push(0);
    assert_eq!(parse_header(&longer), None);
    assert_eq!(parse_header(&[]), None);
}

#[test]
fn wrong_code_is_dropped() {
    let h = parse_header(&encode_header(0, 1)).unwrap();
    assert_eq!(route(&h, SERVER_CODE, PortType::Tcp), Route::Drop);
    let h = parse_header(&encode_header(80, 1)).unwrap();
    assert_eq!(route(&h, SERVER_CODE, PortType::Tcp), Route::Drop);
    assert_eq!(route(&h, SERVER_CODE, PortType::Udp), Route::Drop);
}

#[test]
fn publish_only_over_tcp() {
    let h = Header { port: 0, code: SERVER_CODE };
    assert_eq!(route(&h, SERVER_CODE, PortType::Tcp), Route::Publish);
    assert_eq!(route(&h, SERVER_CODE, PortType::Udp), Route::Drop);
}

#[test]
fn dial_back_goes_to_its_port() {
    let h = parse_header(&encode_header(1, SERVER_CODE)).unwrap();
    assert_eq!(route(&h, SERVER_CODE, PortType::Tcp), Route::Tunnel(1));
    let h = Header { port: 7000, code: SERVER_CODE };
    assert_eq!(route(&h, SERVER_CODE, PortType::Udp), Route::Tunnel(7000));
}

#[test]
fn notification_is_two_big_endian_bytes() {
    assert_eq!(encode_u16(80), vec![0, 80]);
    assert_eq!(encode_u16(0xABCD), vec![0xAB, 0xCD]);
    assert_eq!(decode_u16(&[0x1F, 0x90]), Some(8080));
    assert_eq!(decode_u16(&[1]), None);
    assert_eq!(decode_u16(&[1, 2, 3]), None);
    for v in [0u16, 1, 255, 256, 65535] {
        assert_eq!(decode_u16(&encode_u16(v)), Some(v));
    }
}
