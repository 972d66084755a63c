//! Client-to-server frame headers, the shared-code check, and port notifications.
use vstd::prelude::*;
use crate::be::{
    be_bytes, be_value, lemma_be_bytes_injective, lemma_be_bytes_len, lemma_be_bytes_of_value,
    lemma_be_value_bound, lemma_be_value_of_bytes, lemma_pow256_values, pow256, push_be, read_be,
};
use crate::model::PortType;

verus! {

/// Length of the header that opens every client-to-server connection.
pub const HEADER_LEN: usize = 18;

/// `port_remote` then `code`; a zero port marks a publish frame.
#[derive(Clone, Copy, Debug, PartialEq, Eq, Structural)]
pub struct Header {
    pub port: u16,
    pub code: u128,
}

/// The 18 bytes of a header: the port in two bytes, the code in sixteen, big-endian.
pub open spec fn header_bytes(port: u16, code: u128) -> Seq<u8> {
    be_bytes(port as nat, 2) + be_bytes(code as nat, 16)
}

/// A 16-bit number in two big-endian bytes.
pub open spec fn u16_bytes(v: u16) -> Seq<u8> {
    be_bytes(v as nat, 2)
}

/// What the server does with a connection after reading its header.
#[derive(Clone, Copy, Debug, PartialEq, Eq, Structural)]
pub enum Route {
    /// Close it silently.
    Drop,
    /// Read the port map that follows and replace the control session.
    Publish,
    /// Hand the connection to the mailbox of this public port.
    Tunnel(u16),
}

/// The route of a header whose code is `server_code`, received over `carrier`.
pub open spec fn route_of(h: Header, server_code: u128, carrier: PortType) -> Route {
    if h.code != server_code {
        Route::Drop
    } else if h.port != 0 {
        Route::Tunnel(h.port)
    } else if carrier == PortType::Tcp {
        Route::Publish
    } else {
        Route::Drop
    }
}

pub proof fn lemma_u16_round_trip(v: u16)
    ensures
        be_value(u16_bytes(v)) == v,
        u16_bytes(v).len() == 2,
{
    lemma_be_value_of_bytes(v as nat, 2);
    lemma_be_bytes_len(v as nat, 2);
    lemma_pow256_values();
    vstd::arithmetic::div_mod::lemma_small_mod(v as nat, pow256(2));
}

/// Two numbers written alike are equal: a notification or length reads back as written.
pub proof fn lemma_u16_bytes_injective(a: u16, b: u16)
    requires
        u16_bytes(a) == u16_bytes(b),
    ensures
        a == b,
{
    lemma_u16_round_trip(a);
    lemma_u16_round_trip(b);
}

/// The header that starts a frame for `port`, signed with `code`.
pub fn encode_header(port: u16, code: u128) -> (r: Vec<u8>)
    ensures
        r@ == header_bytes(port, code),
        r@.len() == HEADER_LEN,
{
    let mut r: Vec<u8> = Vec::new();
    push_be(&mut r, port as u128, 2);
    push_be(&mut r, code, 16);
    proof {
        assert(r@ =~= header_bytes(port, code));
        lemma_be_bytes_len(port as nat, 2);
        lemma_be_bytes_len(code as nat, 16);
    }
    r
}

/// Reads a header; it must be exactly 18 bytes long.
pub fn parse_header(b: &[u8]) -> (r: Option<Header>)
    ensures
        r is Some <==> b@.len() == HEADER_LEN,
        r matches Some(h) ==> header_bytes(h.port, h.code) == b@,
{
    if b.len() != HEADER_LEN {
        return None;
    }
    let port = read_be(b, 0, 2);
    let code = read_be(b, 2, 16);
    proof {
        let p = b@.subrange(0, 2);
        let c = b@.subrange(2, 18);
        lemma_be_value_bound(p);
        lemma_be_value_bound(c);
        lemma_pow256_values();
        lemma_be_bytes_of_value(p);
        lemma_be_bytes_of_value(c);
        assert(b@ =~= p + c);
    }
    Some(Header { port: port as u16, code })
}

/// Reading a header back from its bytes gives the port and code it was written with.
pub proof fn lemma_header_round_trip(port: u16, code: u128, h: Header)
    requires
        header_bytes(port, code) == header_bytes(h.port, h.code),
    ensures
        h.port == port,
        h.code == code,
{
    let a = header_bytes(port, code);
    let b = header_bytes(h.port, h.code);
    lemma_be_bytes_len(port as nat, 2);
    lemma_be_bytes_len(code as nat, 16);
    lemma_be_bytes_len(h.port as nat, 2);
    lemma_be_bytes_len(h.code as nat, 16);
    assert(a.subrange(0, 2) =~= be_bytes(port as nat, 2));
    assert(b.subrange(0, 2) =~= be_bytes(h.port as nat, 2));
    assert(a.subrange(2, 18) =~= be_bytes(code as nat, 16));
    assert(b.subrange(2, 18) =~= be_bytes(h.code as nat, 16));
    lemma_pow256_values();
    lemma_be_bytes_injective(port as nat, h.port as nat, 2);
    lemma_be_bytes_injective(code as nat, h.code as nat, 16);
}

/// Decides what to do with a connection whose header is `h`: a wrong code drops it, a
/// non-zero port sends it to that port's mailbox, and a zero port is a publish, which
/// only TCP may carry.
pub fn route(h: &Header, server_code: u128, carrier: PortType) -> (r: Route)
    ensures
        r == route_of(*h, server_code, carrier),
{
    if h.code != server_code {
        Route::Drop
    } else if h.port != 0 {
        Route::Tunnel(h.port)
    } else {
        match carrier {
            PortType::Tcp => Route::Publish,
            PortType::Udp => Route::Drop,
        }
    }
}

/// A 16-bit number as two big-endian bytes: a port notification or a length.
pub fn encode_u16(v: u16) -> (r: Vec<u8>)
    ensures
        r@ == u16_bytes(v),
        r@.len() == 2,
{
    let mut r: Vec<u8> = Vec::new();
    push_be(&mut r, v as u128, 2);
    proof {
        assert(r@ =~= u16_bytes(v));
        lemma_be_bytes_len(v as nat, 2);
    }
    r
}

/// Reads two big-endian bytes as a 16-bit number.
pub fn decode_u16(b: &[u8]) -> (r: Option<u16>)
    ensures
        r is Some <==> b@.len() == 2,
        r matches Some(v) ==> u16_bytes(v) == b@,
{
    if b.len() != 2 {
        return None;
    }
    let v = read_be(b, 0, 2);
    proof {
        lemma_be_value_bound(b@.subrange(0, 2));
        lemma_pow256_values();
        lemma_be_bytes_of_value(b@.subrange(0, 2));
        assert(b@.subrange(0, 2) =~= b@);
    }
    Some(v as u16)
}

} // verus!
