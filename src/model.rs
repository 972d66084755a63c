//! The port map that a client publishes.
use vstd::prelude::*;

verus! {

/// Transport of one hop: user to local target, or client to server.
#[derive(Clone, Copy, Debug, PartialEq, Eq, Structural)]
pub enum PortType {
    Tcp,
    Udp,
}

/// One advertised entry: a public port on the server and the local target behind it.
#[derive(Debug)]
pub struct ConnectorPort {
    pub port_remote: u16,
    pub port_local: u16,
    pub local_ip: String,
    pub port_type: PortType,
    pub tunnel_type: PortType,
}

/// What a `ConnectorPort` holds, with the target host as characters.
pub struct PortSpec {
    pub port_remote: u16,
    pub port_local: u16,
    pub local_ip: Seq<char>,
    pub port_type: PortType,
    pub tunnel_type: PortType,
}

impl View for ConnectorPort {
    type V = PortSpec;

    open spec fn view(&self) -> PortSpec {
        PortSpec {
            port_remote: self.port_remote,
            port_local: self.port_local,
            local_ip: self.local_ip@,
            port_type: self.port_type,
            tunnel_type: self.tunnel_type,
        }
    }
}

impl Clone for ConnectorPort {
    fn clone(&self) -> (r: Self)
        ensures
            r == *self,
    {
        ConnectorPort {
            port_remote: self.port_remote,
            port_local: self.port_local,
            local_ip: self.local_ip.clone(),
            port_type: self.port_type,
            tunnel_type: self.tunnel_type,
        }
    }
}

/// The ordered port map; lookups go by `port_remote`, first match wins.
#[derive(Debug)]
pub struct ConnectorInfo {
    pub ports: Vec<ConnectorPort>,
}

impl View for ConnectorInfo {
    type V = Seq<PortSpec>;

    open spec fn view(&self) -> Seq<PortSpec> {
        self.ports@.map_values(|p: ConnectorPort| p@)
    }
}

impl ConnectorInfo {
    /// The entry advertised for the public port `port`: the first one, if several are.
    pub fn find_port(&self, port: u16) -> (r: Option<usize>)
        ensures
            match r {
                Some(i) => {
                    &&& i < self@.len()
                    &&& self@[i as int].port_remote == port
                    &&& forall|j: int| 0 <= j < i ==> self@[j].port_remote != port
                },
                None => forall|j: int| 0 <= j < self@.len() ==> self@[j].port_remote != port,
            },
    {
        let mut i: usize = 0;
        while i < self.ports.len()
            invariant
                i <= self@.len(),
                self@.len() == self.ports@.len(),
                forall|j: int| 0 <= j < i ==> self@[j].port_remote != port,
            decreases self.ports@.len() - i,
        {
            if self.ports[i].port_remote == port {
                return Some(i);
            }
            i = i + 1;
        }
        None
    }
}

impl Clone for ConnectorInfo {
    fn clone(&self) -> (r: Self)
        ensures
            r@ == self@,
    {
        let mut ports: Vec<ConnectorPort> = Vec::new();
        let mut i: usize = 0;
        while i < self.ports.len()
            invariant
                i <= self.ports@.len(),
                ports@.len() == i,
                forall|j: int| 0 <= j < i ==> ports@[j] == self.ports@[j],
            decreases self.ports@.len() - i,
        {
            ports.push(self.ports[i].clone());
            i = i + 1;
        }
        let r = ConnectorInfo { ports };
        assert(r@ =~= self@);
        r
    }
}

} // verus!
