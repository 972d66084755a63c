//! The client's configuration and its conversion into the port map it publishes.
use vstd::prelude::*;
use crate::model::{ConnectorInfo, ConnectorPort, PortSpec, PortType};
use crate::text::{decimal_u16, parse_u16, same_text, split_on, split_str};

verus! {

/// One configured port, as written in the configuration file or the environment.
#[derive(Debug)]
pub struct ConfigPort {
    pub remote: u16,
    pub local: u16,
    pub ip: Option<String>,
    /// Transport of the user hop, `"TCP"` or `"UDP"` in any case; TCP when absent.
    pub port_type: Option<String>,
    /// Transport of the tunnel hop, `"TCP"` or `"UDP"` in any case; TCP when absent.
    pub tunnel_type: Option<String>,
}

/// The client's configuration: the server to reach as `host:port`, the shared code, and
/// the ports to advertise.
#[derive(Debug)]
pub struct Config {
    pub connector: String,
    pub code: u128,
    pub ports: Vec<ConfigPort>,
}

/// A configuration made ready for the control loop.
#[derive(Debug)]
pub struct ConvertedConfig {
    pub connector: ConnectorInfo,
    pub code: u128,
    pub connector_ip: String,
    pub connector_port: u16,
}

#[derive(Clone, Copy, Debug, PartialEq, Eq, Structural)]
pub enum ConfigError {
    /// A transport name is neither TCP nor UDP.
    InvalidPortType,
    /// A port number is not a decimal number below 65536.
    InvalidNumber,
    /// A port entry names fewer than two ports.
    MissingPort,
}

pub struct ConfigPortSpec {
    pub remote: u16,
    pub local: u16,
    pub ip: Option<Seq<char>>,
    pub port_type: Option<Seq<char>>,
    pub tunnel_type: Option<Seq<char>>,
}

pub open spec fn opt_view(s: Option<String>) -> Option<Seq<char>> {
    match s {
        Some(x) => Some(x@),
        None => None,
    }
}

impl View for ConfigPort {
    type V = ConfigPortSpec;

    open spec fn view(&self) -> ConfigPortSpec {
        ConfigPortSpec {
            remote: self.remote,
            local: self.local,
            ip: opt_view(self.ip),
            port_type: opt_view(self.port_type),
            tunnel_type: opt_view(self.tunnel_type),
        }
    }
}

/// What `str::to_uppercase` makes of some text.
pub uninterp spec fn upper_of(s: Seq<char>) -> Seq<char>;

/// Relies on `str::to_uppercase`: the result depends on the characters alone.
#[verifier::external_body]
fn uppercase(s: &str) -> (r: String)
    ensures
        r@ == upper_of(s@),
{
    s.to_uppercase()
}

pub open spec fn tcp_name() -> Seq<char> {
    seq!['T', 'C', 'P']
}

pub open spec fn udp_name() -> Seq<char> {
    seq!['U', 'D', 'P']
}

pub open spec fn default_ip() -> Seq<char> {
    seq!['1', '2', '7', '.', '0', '.', '0', '.', '1']
}

/// The transport an upper-case name stands for.
pub open spec fn type_named(u: Seq<char>) -> Option<PortType> {
    if u == tcp_name() {
        Some(PortType::Tcp)
    } else if u == udp_name() {
        Some(PortType::Udp)
    } else {
        None
    }
}

/// The transport a configured name stands for, in any case; TCP when there is none.
pub open spec fn declared_type(t: Option<Seq<char>>) -> Option<PortType> {
    match t {
        None => Some(PortType::Tcp),
        Some(s) => type_named(upper_of(s)),
    }
}

/// The advertised entry for a configured port, if both its transport names are valid.
pub open spec fn converted_port(c: ConfigPortSpec) -> Option<PortSpec> {
    match (declared_type(c.port_type), declared_type(c.tunnel_type)) {
        (Some(pt), Some(tt)) => Some(
            PortSpec {
                port_remote: c.remote,
                port_local: c.local,
                local_ip: match c.ip {
                    Some(ip) => ip,
                    None => default_ip(),
                },
                port_type: pt,
                tunnel_type: tt,
            },
        ),
        _ => None,
    }
}

/// The server port of a `host:port` connector: 1337 when no port is given.
pub open spec fn connector_port_of(s: Seq<char>) -> Option<u16> {
    let parts = split_on(s, ':');
    if parts.len() > 1 {
        decimal_u16(parts[1])
    } else {
        Some(1337)
    }
}

/// The transport that an upper-case name stands for: `"TCP"` or `"UDP"`.
pub fn port_type_named(upper: &str) -> (r: Option<PortType>)
    ensures
        r == type_named(upper@),
{
    let tcp = "TCP";
    let udp = "UDP";
    proof {
        reveal_strlit("TCP");
        reveal_strlit("UDP");
        assert(tcp@ =~= tcp_name());
        assert(udp@ =~= udp_name());
    }
    if same_text(upper, tcp) {
        Some(PortType::Tcp)
    } else if same_text(upper, udp) {
        Some(PortType::Udp)
    } else {
        None
    }
}

fn declared_port_type(t: &Option<String>) -> (r: Option<PortType>)
    ensures
        r == declared_type(opt_view(*t)),
{
    match t {
        None => Some(PortType::Tcp),
        Some(s) => {
            let u = uppercase(s.as_str());
            port_type_named(u.as_str())
        },
    }
}

impl ConfigPort {
    /// The entry this port advertises, or `InvalidPortType` when a transport name is
    /// neither TCP nor UDP.
    pub fn convert(&self) -> (r: Result<ConnectorPort, ConfigError>)
        ensures
            r is Ok <==> converted_port(self@) is Some,
            r matches Ok(p) ==> Some(p@) == converted_port(self@),
            r matches Err(e) ==> e == ConfigError::InvalidPortType,
    {
        let pt = match declared_port_type(&self.port_type) {
            Some(t) => t,
            None => {
                return Err(ConfigError::InvalidPortType);
            },
        };
        let tt = match declared_port_type(&self.tunnel_type) {
            Some(t) => t,
            None => {
                return Err(ConfigError::InvalidPortType);
            },
        };
        let local_ip = match &self.ip {
            Some(ip) => ip.clone(),
            None => {
                proof {
                    reveal_strlit("127.0.0.1");
                }
                let d = String::from_str("127.0.0.1");
                assert(d@ =~= default_ip());
                d
            },
        };
        Ok(
            ConnectorPort {
                port_remote: self.remote,
                port_local: self.local,
                local_ip,
                port_type: pt,
                tunnel_type: tt,
            },
        )
    }
}

impl Config {
    /// Converts the configuration: every port into an advertised entry, and the
    /// connector into a host and a port. A bad transport name is reported before a bad
    /// connector port.
    pub fn convert(&self) -> (r: Result<ConvertedConfig, ConfigError>)
        ensures
            r matches Err(ConfigError::InvalidPortType) <==> exists|i: int|
                0 <= i < self.ports@.len() && converted_port(#[trigger] self.ports@[i]@) is None,
            r matches Err(ConfigError::InvalidNumber) <==> (forall|i: int|
                0 <= i < self.ports@.len() ==> converted_port(#[trigger] self.ports@[i]@) is Some)
                && connector_port_of(self.connector@) is None,
            !(r matches Err(ConfigError::MissingPort)),
            r matches Ok(c) ==> {
                &&& c.code == self.code
                &&& c.connector@.len() == self.ports@.len()
                &&& forall|i: int|
                    0 <= i < self.ports@.len() ==> Some(#[trigger] c.connector@[i])
                        == converted_port(self.ports@[i]@)
                &&& c.connector_ip@ == split_on(self.connector@, ':')[0]
                &&& Some(c.connector_port) == connector_port_of(self.connector@)
            },
    {
        let n = self.ports.len();
        let mut ports: Vec<ConnectorPort> = Vec::new();
        let mut i: usize = 0;
        while i < n
            invariant
                n == self.ports@.len(),
                i <= n,
                ports@.len() == i,
                forall|j: int|
                    0 <= j < i ==> Some(#[trigger] ports@[j]@) == converted_port(self.ports@[j]@),
                forall|j: int| 0 <= j < i ==> converted_port(#[trigger] self.ports@[j]@) is Some,
            decreases n - i,
        {
            match self.ports[i].convert() {
                Ok(p) => {
                    ports.push(p);
                },
                Err(e) => {
                    assert(converted_port(self.ports@[i as int]@) is None);
                    return Err(e);
                },
            }
            i = i + 1;
        }
        let parts = split_str(self.connector.as_str(), ':');
        proof {
            crate::text::lemma_split_on_nonempty(self.connector@, ':');
            assert(parts@[0]@ == split_on(self.connector@, ':')[0]);
        }
        let connector_port = if parts.len() > 1 {
            assert(parts@[1]@ == split_on(self.connector@, ':')[1]);
            match parse_u16(parts[1].as_str()) {
                Some(p) => p,
                None => {
                    return Err(ConfigError::InvalidNumber);
                },
            }
        } else {
            1337
        };
        let connector = ConnectorInfo { ports };
        assert(connector@.len() == n);
        Ok(
            ConvertedConfig {
                connector,
                code: self.code,
                connector_ip: parts[0].clone(),
                connector_port,
            },
        )
    }
}

/// The port that an environment entry describes. The key's third `_`-separated part
/// names the tunnel transport (TCP when absent); the value is `[ip:]remote:local`,
/// optionally followed by `/` and the user transport (TCP when absent).
pub open spec fn entry_port(key: Seq<char>, value: Seq<char>) -> Result<ConfigPortSpec, ConfigError> {
    let vparts = split_on(value, '/');
    let addr = split_on(vparts[0], ':');
    let ptype = if vparts.len() > 1 {
        vparts[1]
    } else {
        tcp_name()
    };
    let kparts = split_on(key, '_');
    let ttype = if kparts.len() > 2 {
        kparts[2]
    } else {
        tcp_name()
    };
    if addr.len() < 2 {
        Err(ConfigError::MissingPort)
    } else {
        let ip = if addr.len() == 3 {
            addr[0]
        } else {
            default_ip()
        };
        let r = if addr.len() == 3 {
            addr[1]
        } else {
            addr[0]
        };
        let l = if addr.len() == 3 {
            addr[2]
        } else {
            addr[1]
        };
        match (decimal_u16(r), decimal_u16(l)) {
            (Some(remote), Some(local)) => Ok(
                ConfigPortSpec {
                    remote,
                    local,
                    ip: Some(ip),
                    port_type: Some(ptype),
                    tunnel_type: Some(ttype),
                },
            ),
            _ => Err(ConfigError::InvalidNumber),
        }
    }
}

fn literal_string(s: &str) -> (r: String)
    ensures
        r@ == s@,
{
    String::from_str(s)
}

impl Config {
    /// Reads one port entry of the environment, such as `LF_PORT_UDP` set to
    /// `10.0.0.2:8080:80/TCP`.
    pub fn parse_port_entry(key: &str, value: &str) -> (r: Result<ConfigPort, ConfigError>)
        ensures
            match r {
                Ok(p) => entry_port(key@, value@) == Ok::<ConfigPortSpec, ConfigError>(p@),
                Err(e) => entry_port(key@, value@) == Err::<ConfigPortSpec, ConfigError>(e),
            },
    {
        let tcp = "TCP";
        let default = "127.0.0.1";
        proof {
            reveal_strlit("TCP");
            reveal_strlit("127.0.0.1");
            assert(tcp@ =~= tcp_name());
            assert(default@ =~= default_ip());
        }
        let vparts = split_str(value, '/');
        proof {
            crate::text::lemma_split_on_nonempty(value@, '/');
            assert(vparts@[0]@ == split_on(value@, '/')[0]);
        }
        let addr = split_str(vparts[0].as_str(), ':');
        let ptype = if vparts.len() > 1 {
            assert(vparts@[1]@ == split_on(value@, '/')[1]);
            vparts[1].clone()
        } else {
            literal_string(tcp)
        };
        let kparts = split_str(key, '_');
        let ttype = if kparts.len() > 2 {
            assert(kparts@[2]@ == split_on(key@, '_')[2]);
            kparts[2].clone()
        } else {
            literal_string(tcp)
        };
        if addr.len() < 2 {
            return Err(ConfigError::MissingPort);
        }
        assert(addr@[0]@ == split_on(vparts@[0]@, ':')[0]);
        assert(addr@[1]@ == split_on(vparts@[0]@, ':')[1]);
        let three = addr.len() == 3;
        if three {
            assert(addr@[2]@ == split_on(vparts@[0]@, ':')[2]);
        }
        let ip = if three {
            addr[0].clone()
        } else {
            literal_string(default)
        };
        let remote = if three {
            parse_u16(addr[1].as_str())
        } else {
            parse_u16(addr[0].as_str())
        };
        let local = if three {
            parse_u16(addr[2].as_str())
        } else {
            parse_u16(addr[1].as_str())
        };
        match (remote, local) {
            (Some(remote), Some(local)) => Ok(
                ConfigPort {
                    remote,
                    local,
                    ip: Some(ip),
                    port_type: Some(ptype),
                    tunnel_type: Some(ttype),
                },
            ),
            _ => Err(ConfigError::InvalidNumber),
        }
    }

    /// The configuration a client starts from when it has none: server `server:1337`,
    /// and public port 8080 forwarded over TCP to port 80 of 127.0.0.1.
    pub fn fallback() -> (r: Config)
        ensures
            r.connector@ == "server:1337"@,
            r.code == 123213123123123,
            r.ports@.len() == 1,
            r.ports@[0]@ == (ConfigPortSpec {
                remote: 8080,
                local: 80,
                ip: Some("127.0.0.1"@),
                port_type: Some("TCP"@),
                tunnel_type: Some("tcp"@),
            }),
    {
        let port = ConfigPort {
            remote: 8080,
            local: 80,
            ip: Some(literal_string("127.0.0.1")),
            port_type: Some(literal_string("TCP")),
            tunnel_type: Some(literal_string("tcp")),
        };
        let mut ports: Vec<ConfigPort> = Vec::new();
        ports.push(port);
        Config { connector: literal_string("server:1337"), code: 123213123123123, ports }
    }
}

} // verus!
