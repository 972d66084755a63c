//! Binary encoding of the port map carried by a publish frame.
//!
//! A map is its entry count in two bytes, then each entry in order: `port_remote` and
//! `port_local` in two bytes each, the length of `local_ip` in two bytes and its UTF-8
//! bytes, then one byte for `port_type` and one for `tunnel_type` (TCP is 0, UDP is 1).
//! All numbers are big-endian.
use vstd::prelude::*;
use vstd::utf8::{
    decode_utf8, decode_utf8_encode_utf8, encode_utf8, encode_utf8_decode_utf8,
    encode_utf8_valid_utf8, valid_utf8,
};
use crate::be::{
    be_value, lemma_be_bytes_of_value, lemma_be_value_bound, lemma_pow256_values, read_be,
};
use crate::frame::{encode_header, encode_u16, header_bytes, lemma_u16_round_trip, u16_bytes};
use crate::model::{ConnectorInfo, ConnectorPort, PortSpec, PortType};

verus! {

/// Largest count or length that two bytes can carry.
pub const MAX_FIELD: usize = 0xFFFF;

/// The port map cannot be encoded: too many entries, or a host name too long.
#[derive(Clone, Copy, Debug, PartialEq, Eq, Structural)]
pub enum EncodeError {
    TooLarge,
}

/// The bytes are not the encoding of any port map.
#[derive(Clone, Copy, Debug, PartialEq, Eq, Structural)]
pub enum DecodeError {
    Malformed,
}

pub open spec fn type_byte(t: PortType) -> u8 {
    match t {
        PortType::Tcp => 0,
        PortType::Udp => 1,
    }
}

pub open spec fn type_of_byte(b: u8) -> Option<PortType> {
    if b == 0 {
        Some(PortType::Tcp)
    } else if b == 1 {
        Some(PortType::Udp)
    } else {
        None
    }
}

/// The UTF-8 bytes of an entry's target host.
pub open spec fn ip_bytes(p: PortSpec) -> Seq<u8> {
    encode_utf8(p.local_ip)
}

/// An entry fits the format: its host takes at most 65535 bytes.
pub open spec fn port_wf(p: PortSpec) -> bool {
    ip_bytes(p).len() <= MAX_FIELD
}

/// A map fits the format: at most 65535 entries, each of which fits.
pub open spec fn info_wf(ps: Seq<PortSpec>) -> bool {
    &&& ps.len() <= MAX_FIELD
    &&& forall|i: int| 0 <= i < ps.len() ==> port_wf(#[trigger] ps[i])
}

pub open spec fn port_bytes(p: PortSpec) -> Seq<u8> {
    u16_bytes(p.port_remote) + u16_bytes(p.port_local) + u16_bytes(ip_bytes(p).len() as u16)
        + ip_bytes(p) + seq![type_byte(p.port_type), type_byte(p.tunnel_type)]
}

pub open spec fn ports_bytes(ps: Seq<PortSpec>) -> Seq<u8>
    decreases ps.len(),
{
    if ps.len() == 0 {
        Seq::empty()
    } else {
        ports_bytes(ps.drop_last()) + port_bytes(ps.last())
    }
}

/// The encoding of a port map.
pub open spec fn info_bytes(ps: Seq<PortSpec>) -> Seq<u8> {
    u16_bytes(ps.len() as u16) + ports_bytes(ps)
}

/// Reads one entry from the front of `s`: the entry and how many bytes it took.
pub open spec fn parse_port(s: Seq<u8>) -> Option<(PortSpec, nat)> {
    if s.len() < 6 {
        None
    } else {
        let l = be_value(s.subrange(4, 6)) as int;
        if s.len() < 8 + l {
            None
        } else {
            let ip = s.subrange(6, 6 + l);
            let pt = type_of_byte(s[6 + l]);
            let tt = type_of_byte(s[7 + l]);
            if !valid_utf8(ip) || pt is None || tt is None {
                None
            } else {
                Some(
                    (
                        PortSpec {
                            port_remote: be_value(s.subrange(0, 2)) as u16,
                            port_local: be_value(s.subrange(2, 4)) as u16,
                            local_ip: decode_utf8(ip),
                            port_type: pt->Some_0,
                            tunnel_type: tt->Some_0,
                        },
                        (8 + l) as nat,
                    ),
                )
            }
        }
    }
}

/// Reads `n` entries one after another from the front of `s`.
pub open spec fn parse_ports(s: Seq<u8>, n: nat) -> Option<(Seq<PortSpec>, nat)>
    decreases n,
{
    if n == 0 {
        Some((Seq::empty(), 0))
    } else {
        match parse_ports(s, (n - 1) as nat) {
            None => None,
            Some((ps, k)) => match parse_port(s.skip(k as int)) {
                None => None,
                Some((p, m)) => Some((ps.push(p), k + m)),
            },
        }
    }
}

/// Reads a whole port map: a count, that many entries, and nothing after them.
pub open spec fn parse_info(s: Seq<u8>) -> Option<Seq<PortSpec>> {
    if s.len() < 2 {
        None
    } else {
        match parse_ports(s.skip(2), be_value(s.subrange(0, 2))) {
            Some((ps, k)) => if 2 + k == s.len() {
                Some(ps)
            } else {
                None
            },
            None => None,
        }
    }
}

proof fn lemma_type_byte(t: PortType)
    ensures
        type_of_byte(type_byte(t)) == Some(t),
{
}

proof fn lemma_port_bytes_len(p: PortSpec)
    ensures
        port_bytes(p).len() == 8 + ip_bytes(p).len(),
{
    lemma_u16_round_trip(p.port_remote);
    lemma_u16_round_trip(p.port_local);
    lemma_u16_round_trip(ip_bytes(p).len() as u16);
}

/// An entry that fits is read back from its encoding, whatever follows it.
proof fn lemma_parse_port_bytes(p: PortSpec, rest: Seq<u8>)
    requires
        port_wf(p),
    ensures
        parse_port(port_bytes(p) + rest) == Some((p, port_bytes(p).len())),
{
    let s = port_bytes(p) + rest;
    let ipb = ip_bytes(p);
    let l = ipb.len() as int;
    lemma_port_bytes_len(p);
    lemma_u16_round_trip(p.port_remote);
    lemma_u16_round_trip(p.port_local);
    lemma_u16_round_trip(l as u16);
    assert(s.subrange(0, 2) =~= u16_bytes(p.port_remote));
    assert(s.subrange(2, 4) =~= u16_bytes(p.port_local));
    assert(s.subrange(4, 6) =~= u16_bytes(l as u16));
    assert(s.subrange(6, 6 + l) =~= ipb);
    assert(s[6 + l] == type_byte(p.port_type));
    assert(s[7 + l] == type_byte(p.tunnel_type));
    encode_utf8_valid_utf8(p.local_ip);
    encode_utf8_decode_utf8(p.local_ip);
    lemma_type_byte(p.port_type);
    lemma_type_byte(p.tunnel_type);
}

/// What `parse_port` reads is the encoding of the entry it returns.
proof fn lemma_parse_port_sound(s: Seq<u8>)
    requires
        parse_port(s) is Some,
    ensures
        ({
            let (p, m) = parse_port(s)->Some_0;
            &&& m <= s.len()
            &&& port_wf(p)
            &&& s.subrange(0, m as int) == port_bytes(p)
        }),
{
    let (p, m) = parse_port(s)->Some_0;
    let l = be_value(s.subrange(4, 6)) as int;
    let ipb = s.subrange(6, 6 + l);
    lemma_be_value_bound(s.subrange(0, 2));
    lemma_be_value_bound(s.subrange(2, 4));
    lemma_be_value_bound(s.subrange(4, 6));
    lemma_pow256_values();
    lemma_be_bytes_of_value(s.subrange(0, 2));
    lemma_be_bytes_of_value(s.subrange(2, 4));
    lemma_be_bytes_of_value(s.subrange(4, 6));
    decode_utf8_encode_utf8(ipb);
    assert(ip_bytes(p) == ipb);
    assert(type_byte(p.port_type) == s[6 + l]);
    assert(type_byte(p.tunnel_type) == s[7 + l]);
    assert(s.subrange(0, m as int) =~= port_bytes(p));
}

/// A sequence of entries that fit is read back from its encoding, whatever follows it.
proof fn lemma_parse_ports_bytes(ps: Seq<PortSpec>, rest: Seq<u8>)
    requires
        forall|i: int| 0 <= i < ps.len() ==> port_wf(#[trigger] ps[i]),
    ensures
        parse_ports(ports_bytes(ps) + rest, ps.len()) == Some((ps, ports_bytes(ps).len())),
    decreases ps.len(),
{
    if ps.len() > 0 {
        let init = ps.drop_last();
        let last = ps.last();
        let tail = port_bytes(last) + rest;
        assert(ports_bytes(ps) + rest =~= ports_bytes(init) + tail);
        assert forall|i: int| 0 <= i < init.len() implies port_wf(#[trigger] init[i]) by {
            assert(init[i] == ps[i]);
        }
        lemma_parse_ports_bytes(init, tail);
        assert((ports_bytes(init) + tail).skip(ports_bytes(init).len() as int) =~= tail);
        assert(port_wf(ps[ps.len() - 1]));
        lemma_parse_port_bytes(last, rest);
        assert(init.push(last) =~= ps);
    }
}

/// What `parse_ports` reads is the encoding of the entries it returns.
proof fn lemma_parse_ports_sound(s: Seq<u8>, n: nat)
    requires
        parse_ports(s, n) is Some,
    ensures
        ({
            let (ps, k) = parse_ports(s, n)->Some_0;
            &&& ps.len() == n
            &&& k <= s.len()
            &&& forall|i: int| 0 <= i < ps.len() ==> port_wf(#[trigger] ps[i])
            &&& s.subrange(0, k as int) == ports_bytes(ps)
        }),
    decreases n,
{
    if n > 0 {
        lemma_parse_ports_sound(s, (n - 1) as nat);
        let (qs, k) = parse_ports(s, (n - 1) as nat)->Some_0;
        let (p, m) = parse_port(s.skip(k as int))->Some_0;
        lemma_parse_port_sound(s.skip(k as int));
        let ps = qs.push(p);
        assert(ps.drop_last() =~= qs);
        assert(s.subrange(0, (k + m) as int) =~= s.subrange(0, k as int) + s.skip(
            k as int,
        ).subrange(0, m as int));
        assert forall|i: int| 0 <= i < ps.len() implies port_wf(#[trigger] ps[i]) by {
            if i < qs.len() {
                assert(ps[i] == qs[i]);
            }
        }
    }
}

/// Once reading fails, reading more entries fails too.
proof fn lemma_parse_ports_none(s: Seq<u8>, i: nat, n: nat)
    requires
        i <= n,
        parse_ports(s, i) is None,
    ensures
        parse_ports(s, n) is None,
    decreases n - i,
{
    if i < n {
        lemma_parse_ports_none(s, i, (n - 1) as nat);
    }
}

/// Decoding the encoding of a map that fits gives the map back.
pub proof fn lemma_decode_encode(ps: Seq<PortSpec>)
    requires
        info_wf(ps),
    ensures
        parse_info(info_bytes(ps)) == Some(ps),
{
    let s = info_bytes(ps);
    lemma_u16_round_trip(ps.len() as u16);
    assert(s.subrange(0, 2) =~= u16_bytes(ps.len() as u16));
    assert(s.skip(2) =~= ports_bytes(ps) + Seq::<u8>::empty());
    lemma_parse_ports_bytes(ps, Seq::empty());
}

/// Bytes that decode to a map are exactly the encoding of that map, and it fits.
pub proof fn lemma_encode_decode(s: Seq<u8>)
    requires
        parse_info(s) is Some,
    ensures
        info_wf(parse_info(s)->Some_0),
        info_bytes(parse_info(s)->Some_0) == s,
{
    let n = be_value(s.subrange(0, 2));
    lemma_parse_ports_sound(s.skip(2), n);
    let (ps, k) = parse_ports(s.skip(2), n)->Some_0;
    lemma_be_value_bound(s.subrange(0, 2));
    lemma_pow256_values();
    lemma_be_bytes_of_value(s.subrange(0, 2));
    assert(s.skip(2).subrange(0, k as int) =~= s.skip(2));
    assert(s =~= s.subrange(0, 2) + s.skip(2));
}

/// Two maps that fit are encoded alike only if they are equal.
pub proof fn lemma_encoding_injective(a: Seq<PortSpec>, b: Seq<PortSpec>)
    requires
        info_wf(a),
        info_wf(b),
        info_bytes(a) == info_bytes(b),
    ensures
        a == b,
{
    lemma_decode_encode(a);
    lemma_decode_encode(b);
}

/// Wraps `String::from_utf8`: the bytes as text when they are valid UTF-8.
#[verifier::external_body]
fn utf8_string(b: &[u8]) -> (r: Option<String>)
    ensures
        r is Some <==> valid_utf8(b@),
        r matches Some(s) ==> s@ == decode_utf8(b@),
{
    String::from_utf8(b.to_vec()).ok()
}

fn push_all(out: &mut Vec<u8>, b: &[u8])
    ensures
        final(out)@ == old(out)@ + b@,
{
    let mut i: usize = 0;
    while i < b.len()
        invariant
            i <= b@.len(),
            out@ == old(out)@ + b@.subrange(0, i as int),
        decreases b@.len() - i,
    {
        out.push(b[i]);
        i = i + 1;
        assert(out@ =~= old(out)@ + b@.subrange(0, i as int));
    }
    assert(b@.subrange(0, b@.len() as int) =~= b@);
}

fn type_to_byte(t: PortType) -> (r: u8)
    ensures
        r == type_byte(t),
{
    match t {
        PortType::Tcp => 0,
        PortType::Udp => 1,
    }
}

fn byte_to_type(b: u8) -> (r: Option<PortType>)
    ensures
        r == type_of_byte(b),
{
    if b == 0 {
        Some(PortType::Tcp)
    } else if b == 1 {
        Some(PortType::Udp)
    } else {
        None
    }
}

/// Reads one entry at `pos`: the entry and the position after it.
fn parse_port_at(b: &[u8], pos: usize) -> (r: Option<(ConnectorPort, usize)>)
    requires
        pos <= b@.len(),
    ensures
        match (r, parse_port(b@.skip(pos as int))) {
            (Some((p, end)), Some((q, m))) => p@ == q && end == pos + m,
            (None, None) => true,
            _ => false,
        },
{
    let len = b.len();
    let ghost s = b@.skip(pos as int);
    if len - pos < 6 {
        return None;
    }
    let remote = read_be(b, pos, 2);
    let local = read_be(b, pos + 2, 2);
    let l = read_be(b, pos + 4, 2);
    proof {
        assert(b@.subrange(pos as int, pos + 2) =~= s.subrange(0, 2));
        assert(b@.subrange(pos + 2, pos + 4) =~= s.subrange(2, 4));
        assert(b@.subrange(pos + 4, pos + 6) =~= s.subrange(4, 6));
        lemma_be_value_bound(s.subrange(4, 6));
        lemma_pow256_values();
    }
    let l = l as usize;
    if len - pos - 6 < l + 2 {
        return None;
    }
    let start = pos + 6;
    let ip_slice = vstd::slice::slice_subrange(b, start, start + l);
    assert(ip_slice@ =~= s.subrange(6, 6 + l as int));
    let pt = byte_to_type(b[start + l]);
    let tt = byte_to_type(b[start + l + 1]);
    let ip = utf8_string(ip_slice);
    match (ip, pt, tt) {
        (Some(local_ip), Some(port_type), Some(tunnel_type)) => {
            let p = ConnectorPort {
                port_remote: remote as u16,
                port_local: local as u16,
                local_ip,
                port_type,
                tunnel_type,
            };
            Some((p, start + l + 2))
        },
        _ => None,
    }
}

impl ConnectorInfo {
    /// Encodes the map for a publish frame; fails when it does not fit the format.
    pub fn encode(&self) -> (r: Result<Vec<u8>, EncodeError>)
        ensures
            r is Ok <==> info_wf(self@),
            r matches Ok(v) ==> v@ == info_bytes(self@),
    {
        let n = self.ports.len();
        if n > MAX_FIELD {
            return Err(EncodeError::TooLarge);
        }
        let mut out = encode_u16(n as u16);
        let mut i: usize = 0;
        while i < n
            invariant
                n == self.ports@.len(),
                n == self@.len(),
                n <= MAX_FIELD,
                i <= n,
                out@ == u16_bytes(n as u16) + ports_bytes(self@.take(i as int)),
                forall|j: int| 0 <= j < i ==> port_wf(#[trigger] self@[j]),
            decreases n - i,
        {
            let p = &self.ports[i];
            let ipb = p.local_ip.as_str().as_bytes();
            assert(ipb@ == ip_bytes(self@[i as int]));
            if ipb.len() > MAX_FIELD {
                return Err(EncodeError::TooLarge);
            }
            let ghost before = out@;
            let head = encode_u16(p.port_remote);
            push_all(&mut out, head.as_slice());
            let head = encode_u16(p.port_local);
            push_all(&mut out, head.as_slice());
            let head = encode_u16(ipb.len() as u16);
            push_all(&mut out, head.as_slice());
            push_all(&mut out, ipb);
            out.push(type_to_byte(p.port_type));
            out.push(type_to_byte(p.tunnel_type));
            proof {
                assert(out@ =~= before + port_bytes(self@[i as int]));
                assert(self@.take(i + 1).drop_last() =~= self@.take(i as int));
                assert(out@ =~= u16_bytes(n as u16) + ports_bytes(self@.take(i + 1)));
            }
            i = i + 1;
        }
        assert(self@.take(n as int) =~= self@);
        Ok(out)
    }

    /// Decodes a port map; fails unless the bytes are the encoding of one.
    pub fn decode(b: &[u8]) -> (r: Result<ConnectorInfo, DecodeError>)
        ensures
            r is Ok <==> exists|ps: Seq<PortSpec>| info_wf(ps) && info_bytes(ps) == b@,
            r matches Ok(info) ==> info_wf(info@) && info_bytes(info@) == b@,
    {
        let r = Self::decode_parse(b);
        proof {
            if r is Ok {
                lemma_encode_decode(b@);
            } else if exists|ps: Seq<PortSpec>| info_wf(ps) && info_bytes(ps) == b@ {
                let ps = choose|ps: Seq<PortSpec>| info_wf(ps) && info_bytes(ps) == b@;
                lemma_decode_encode(ps);
            }
        }
        r
    }

    fn decode_parse(b: &[u8]) -> (r: Result<ConnectorInfo, DecodeError>)
        ensures
            match (r, parse_info(b@)) {
                (Ok(info), Some(ps)) => info@ == ps,
                (Err(_), None) => true,
                _ => false,
            },
    {
        let len = b.len();
        if len < 2 {
            return Err(DecodeError::Malformed);
        }
        let n = read_be(b, 0, 2);
        proof {
            lemma_be_value_bound(b@.subrange(0, 2));
            lemma_pow256_values();
        }
        let n = n as usize;
        let ghost s = b@.skip(2);
        let mut ports: Vec<ConnectorPort> = Vec::new();
        let mut pos: usize = 2;
        let mut i: usize = 0;
        while i < n
            invariant
                len == b@.len(),
                2 <= pos <= len,
                i <= n,
                n == be_value(b@.subrange(0, 2)),
                s == b@.skip(2),
                parse_ports(s, i as nat) == Some(
                    (ports@.map_values(|p: ConnectorPort| p@), (pos - 2) as nat),
                ),
            decreases n - i,
        {
            assert(s.skip(pos - 2) =~= b@.skip(pos as int));
            match parse_port_at(b, pos) {
                None => {
                    proof {
                        lemma_parse_ports_none(s, (i + 1) as nat, n as nat);
                    }
                    return Err(DecodeError::Malformed);
                },
                Some((p, end)) => {
                    proof {
                        lemma_parse_port_sound(b@.skip(pos as int));
                    }
                    let ghost before = ports@.map_values(|q: ConnectorPort| q@);
                    let ghost pv = p@;
                    ports.push(p);
                    assert(ports@.map_values(|q: ConnectorPort| q@) =~= before.push(pv));
                    pos = end;
                    i = i + 1;
                },
            }
        }
        if pos != len {
            return Err(DecodeError::Malformed);
        }
        let info = ConnectorInfo { ports };
        Ok(info)
    }
}

/// A whole publish frame: the header with port 0, the length of the encoded map in two
/// bytes, then the map.
pub open spec fn publish_bytes(code: u128, ps: Seq<PortSpec>) -> Seq<u8> {
    header_bytes(0, code) + u16_bytes(info_bytes(ps).len() as u16) + info_bytes(ps)
}

/// Builds the frame that publishes `info` under `code`; fails when the map does not fit
/// the format or its encoding is longer than 65535 bytes.
pub fn publish_frame(code: u128, info: &ConnectorInfo) -> (r: Result<Vec<u8>, EncodeError>)
    ensures
        r is Ok <==> info_wf(info@) && info_bytes(info@).len() <= MAX_FIELD,
        r matches Ok(b) ==> b@ == publish_bytes(code, info@),
{
    let body = match info.encode() {
        Ok(body) => body,
        Err(e) => {
            return Err(e);
        },
    };
    if body.len() > MAX_FIELD {
        return Err(EncodeError::TooLarge);
    }
    let mut out = encode_header(0, code);
    let len = encode_u16(body.len() as u16);
    push_all(&mut out, len.as_slice());
    push_all(&mut out, body.as_slice());
    Ok(out)
}

} // verus!
