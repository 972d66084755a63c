//! The client's side of the control plane: what to dial for a port notification.
use vstd::prelude::*;
use crate::frame::{encode_header, header_bytes};
use crate::model::{ConnectorInfo, PortType};

verus! {

/// How to serve one user connection: the tunnel to open toward the server and the
/// local target to splice it to.
pub struct DialPlan {
    /// Transport of the tunnel connection to the server's control port.
    pub tunnel_type: PortType,
    /// The 18 bytes that open the tunnel connection.
    pub header: Vec<u8>,
    /// Transport of the connection to the local target.
    pub port_type: PortType,
    pub local_ip: String,
    pub port_local: u16,
}

/// The plan for a notification of public port `port`: the first entry of `info` for
/// that port decides it, and a port that no entry advertises gets none.
pub fn dial_plan(info: &ConnectorInfo, code: u128, port: u16) -> (r: Option<DialPlan>)
    ensures
        r is Some <==> exists|i: int| 0 <= i < info@.len() && info@[i].port_remote == port,
        r matches Some(plan) ==> exists|i: int|
            {
                &&& 0 <= i < info@.len()
                &&& info@[i].port_remote == port
                &&& forall|j: int| 0 <= j < i ==> info@[j].port_remote != port
                &&& plan.tunnel_type == info@[i].tunnel_type
                &&& plan.port_type == info@[i].port_type
                &&& plan.local_ip@ == info@[i].local_ip
                &&& plan.port_local == info@[i].port_local
                &&& plan.header@ == header_bytes(port, code)
            },
{
    match info.find_port(port) {
        None => None,
        Some(i) => {
            let e = &info.ports[i];
            assert(info@[i as int] == e@);
            Some(
                DialPlan {
                    tunnel_type: e.tunnel_type,
                    header: encode_header(port, code),
                    port_type: e.port_type,
                    local_ip: e.local_ip.clone(),
                    port_local: e.port_local,
                },
            )
        },
    }
}

} // verus!
