//! The server's control plane: who holds the control session, what a publish rebuilds,
//! and which port notifications reach the wire.
use vstd::prelude::*;
use crate::frame::{route, route_of, u16_bytes, encode_u16, Header, Route};
use crate::model::{ConnectorInfo, ConnectorPort, PortSpec, PortType};
use crate::registry::{ChanneledChannel, RegistryError};

verus! {

/// How long a user connection waits for its tunnel, in milliseconds.
pub const MAILBOX_TIMEOUT_MS: u64 = 1000;

/// Pause before a failed listener or control connection is tried again, in milliseconds.
pub const RETRY_DELAY_MS: u64 = 100;

/// Pause after the workers of a replaced session are stopped, so that their listeners
/// release their ports, in milliseconds.
pub const GRACE_DELAY_MS: u64 = 100;

/// Entry `i` of `ps` is the first one for its public port.
pub open spec fn is_first(ps: Seq<PortSpec>, i: int) -> bool {
    forall|j: int| 0 <= j < i ==> ps[j].port_remote != ps[i].port_remote
}

/// The entries of `ps` that are the first for their public port, in order.
pub open spec fn first_entries(ps: Seq<PortSpec>) -> Seq<PortSpec>
    decreases ps.len(),
{
    if ps.len() == 0 {
        Seq::empty()
    } else {
        let init = first_entries(ps.drop_last());
        if is_first(ps, ps.len() - 1) {
            init.push(ps.last())
        } else {
            init
        }
    }
}

/// The public ports of `ps`, as a set.
pub open spec fn ports_of(ps: Seq<PortSpec>) -> Set<u16> {
    Set::new(|p: u16| exists|i: int| 0 <= i < ps.len() && ps[i].port_remote == p)
}

/// No two entries of `ps` have the same public port.
pub open spec fn distinct_ports(ps: Seq<PortSpec>) -> bool {
    forall|a: int, b: int|
        0 <= a < b < ps.len() ==> #[trigger] ps[a].port_remote != #[trigger] ps[b].port_remote
}

/// Keeping the first entry of each public port keeps every public port once, and
/// nothing that was not advertised.
pub proof fn lemma_first_entries(ps: Seq<PortSpec>)
    ensures
        distinct_ports(first_entries(ps)),
        ports_of(first_entries(ps)) == ports_of(ps),
        first_entries(ps).len() <= ps.len(),
        forall|k: int|
            0 <= k < first_entries(ps).len() ==> exists|i: int|
                0 <= i < ps.len() && is_first(ps, i) && #[trigger] first_entries(ps)[k]
                    == ps[i],
    decreases ps.len(),
{
    if ps.len() > 0 {
        let init = ps.drop_last();
        let n = ps.len() - 1;
        lemma_first_entries(init);
        let ri = first_entries(init);
        let r = first_entries(ps);
        assert forall|i: int| 0 <= i < n && is_first(init, i) implies is_first(ps, i) by {
            assert forall|j: int| 0 <= j < i implies ps[j].port_remote != ps[i].port_remote by {
                assert(init[j] == ps[j] && init[i] == ps[i]);
            }
        }
        if is_first(ps, n) {
            assert forall|a: int, b: int| 0 <= a < b < r.len() implies #[trigger] r[a].port_remote
                != #[trigger] r[b].port_remote by {
                if b == r.len() - 1 {
                    let i = choose|i: int| 0 <= i < init.len() && is_first(init, i) && ri[a] == init[i];
                    assert(ps[i] == init[i]);
                } else {
                    assert(r[a] == ri[a] && r[b] == ri[b]);
                }
            }
            assert forall|k: int| 0 <= k < r.len() implies exists|i: int|
                0 <= i < ps.len() && is_first(ps, i) && #[trigger] r[k] == ps[i] by {
                if k < r.len() - 1 {
                    let i = choose|i: int| 0 <= i < init.len() && is_first(init, i) && ri[k] == init[i];
                    assert(r[k] == ri[k] && ps[i] == init[i]);
                } else {
                    assert(r[k] == ps[n]);
                }
            }
            assert forall|p: u16| ports_of(r).contains(p) <==> ports_of(ps).contains(p) by {
                if ports_of(r).contains(p) {
                    let k = choose|k: int| 0 <= k < r.len() && r[k].port_remote == p;
                    let i = choose|i: int| 0 <= i < ps.len() && is_first(ps, i) && r[k] == ps[i];
                }
                if ports_of(ps).contains(p) {
                    let i = choose|i: int| 0 <= i < ps.len() && ps[i].port_remote == p;
                    if i < n {
                        assert(init[i] == ps[i]);
                        assert(ports_of(init).contains(p));
                        let k = choose|k: int| 0 <= k < ri.len() && ri[k].port_remote == p;
                        assert(r[k] == ri[k]);
                    } else {
                        assert(r[r.len() - 1] == ps[n]);
                    }
                }
            }
            assert(ports_of(r) =~= ports_of(ps));
        } else {
            let j = choose|j: int| 0 <= j < n && ps[j].port_remote == ps[n].port_remote;
            assert forall|k: int| 0 <= k < r.len() implies exists|i: int|
                0 <= i < ps.len() && is_first(ps, i) && #[trigger] r[k] == ps[i] by {
                let i = choose|i: int| 0 <= i < init.len() && is_first(init, i) && ri[k] == init[i];
                assert(ps[i] == init[i]);
            }
            assert forall|p: u16| ports_of(r).contains(p) <==> ports_of(ps).contains(p) by {
                if ports_of(r).contains(p) {
                    let k = choose|k: int| 0 <= k < r.len() && r[k].port_remote == p;
                    let i = choose|i: int| 0 <= i < ps.len() && is_first(ps, i) && r[k] == ps[i];
                }
                if ports_of(ps).contains(p) {
                    let i = choose|i: int| 0 <= i < ps.len() && ps[i].port_remote == p;
                    let i2 = if i < n { i } else { j };
                    assert(init[i2] == ps[i2]);
                    assert(ports_of(init).contains(p));
                }
            }
            assert(ports_of(r) =~= ports_of(ps));
        }
    }
}

/// The first entry of each public port of `info`, in order: one port worker each.
pub fn first_entries_of(info: &ConnectorInfo) -> (r: Vec<ConnectorPort>)
    ensures
        r@.map_values(|p: ConnectorPort| p@) == first_entries(info@),
{
    let n = info.ports.len();
    let mut r: Vec<ConnectorPort> = Vec::new();
    let mut i: usize = 0;
    while i < n
        invariant
            n == info.ports@.len(),
            n == info@.len(),
            i <= n,
            r@.map_values(|p: ConnectorPort| p@) == first_entries(info@.take(i as int)),
        decreases n - i,
    {
        let ghost ps = info@.take(i + 1);
        assert(ps.drop_last() =~= info@.take(i as int));
        let mut seen = false;
        let mut j: usize = 0;
        while j < i
            invariant
                i < n,
                n == info.ports@.len(),
                n == info@.len(),
                j <= i,
                ps == info@.take(i + 1),
                seen == exists|k: int| 0 <= k < j && ps[k].port_remote == ps[i as int].port_remote,
            decreases i - j,
        {
            assert(ps[j as int] == info@[j as int] && ps[i as int] == info@[i as int]);
            if info.ports[j].port_remote == info.ports[i].port_remote {
                seen = true;
            }
            j = j + 1;
        }
        assert(seen == !is_first(ps, i as int));
        if !seen {
            let ghost before = r@.map_values(|p: ConnectorPort| p@);
            let e = info.ports[i].clone();
            r.push(e);
            assert(r@.map_values(|p: ConnectorPort| p@) =~= before.push(ps.last()));
        }
        i = i + 1;
    }
    assert(info@.take(n as int) =~= info@);
    r
}

/// Empties `reg` and gives each port of `ports` a new mailbox, numbered after every
/// mailbox that `reg` held before.
pub fn rebuild_registry<T>(reg: &mut ChanneledChannel<T>, ports: &Vec<ConnectorPort>) -> (r: Result<
    (),
    RegistryError,
>)
    requires
        old(reg).wf(),
    ensures
        final(reg).wf(),
        r is Ok <==> old(reg).next_mailbox() + ports@.len() <= u64::MAX,
        r is Ok ==> final(reg)@.dom() == ports_of(ports@.map_values(|p: ConnectorPort| p@))
            && final(reg).next_mailbox() == old(reg).next_mailbox() + ports@.len(),
        forall|p: u16| #[trigger]
            final(reg)@.contains_key(p) ==> final(reg)@[p] >= old(reg).next_mailbox(),
{
    let ghost ps = ports@.map_values(|p: ConnectorPort| p@);
    let ghost start = reg.next_mailbox();
    reg.remove_all_channels();
    let mut i: usize = 0;
    while i < ports.len()
        invariant
            reg.wf(),
            i <= ports@.len(),
            ps == ports@.map_values(|p: ConnectorPort| p@),
            reg@.dom() == ports_of(ps.take(i as int)),
            start == old(reg).next_mailbox(),
            reg.next_mailbox() == start + i,
            forall|p: u16| #[trigger] reg@.contains_key(p) ==> reg@[p] >= start,
        decreases ports@.len() - i,
    {
        let ghost before = reg@;
        match reg.create_channel(ports[i].port_remote) {
            Ok(()) => {},
            Err(e) => {
                return Err(e);
            },
        }
        proof {
            let p = ports@[i as int].port_remote;
            let s0 = ps.take(i as int);
            let s1 = ps.take(i + 1);
            assert(s1[i as int].port_remote == p);
            assert forall|q: u16| ports_of(s1).contains(q) <==> reg@.dom().contains(q) by {
                if ports_of(s1).contains(q) {
                    let k = choose|k: int| 0 <= k < s1.len() && s1[k].port_remote == q;
                    if k < i {
                        assert(s0[k] == s1[k]);
                        assert(ports_of(s0).contains(q));
                    }
                }
                if reg@.dom().contains(q) && q != p {
                    assert(before.dom().contains(q));
                    let k = choose|k: int| 0 <= k < s0.len() && s0[k].port_remote == q;
                    assert(s0[k] == s1[k]);
                }
            }
            assert(reg@.dom() =~= ports_of(s1));
        }
        i = i + 1;
    }
    assert(ps.take(ports@.len() as int) =~= ps);
    Ok(())
}

/// A port notification queued by a port worker, tagged with the control session that
/// spawned the worker.
#[derive(Clone, Copy, Debug, PartialEq, Eq, Structural)]
pub struct Notice {
    pub session: u64,
    pub port: u16,
}

/// The writer of control session `writer` puts notice `n` on the wire.
pub open spec fn forwards(writer: u64, n: Notice) -> bool {
    n.session == writer
}

/// What a publish leaves to be done: the new session's number, and the port workers to
/// spawn, one per advertised public port.
pub struct Reconfiguration {
    pub session: u64,
    pub ports: Vec<ConnectorPort>,
}

/// Why a publish was not applied.
#[derive(Clone, Copy, Debug, PartialEq, Eq, Structural)]
pub enum PublishError {
    /// No session or mailbox numbers are left.
    Exhausted,
}

/// The control listener's state: the shared code, and the number of the live control
/// session (0 before the first publish).
pub struct Supervisor {
    code: u128,
    session: u64,
}

impl Supervisor {
    pub closed spec fn spec_code(&self) -> u128 {
        self.code
    }

    pub closed spec fn spec_session(&self) -> u64 {
        self.session
    }

    pub fn new(code: u128) -> (r: Self)
        ensures
            r.spec_code() == code,
            r.spec_session() == 0,
    {
        Supervisor { code, session: 0 }
    }

    pub fn code(&self) -> (r: u128)
        ensures
            r == self.spec_code(),
    {
        self.code
    }

    /// The live control session; 0 before the first publish.
    pub fn session(&self) -> (r: u64)
        ensures
            r == self.spec_session(),
    {
        self.session
    }

    /// What to do with a connection whose header is `h`, received over `carrier`.
    /// Reading a header changes nothing.
    pub fn route(&self, h: &Header, carrier: PortType) -> (r: Route)
        ensures
            r == route_of(*h, self.spec_code(), carrier),
    {
        route(h, self.code, carrier)
    }

    /// Applies an authenticated publish of `info`: starts a new control session and
    /// rebuilds `reg` with one new mailbox per advertised public port.
    pub fn publish<T>(&mut self, reg: &mut ChanneledChannel<T>, info: &ConnectorInfo) -> (r:
        Result<Reconfiguration, PublishError>)
        requires
            old(reg).wf(),
        ensures
            final(reg).wf(),
            final(self).spec_code() == old(self).spec_code(),
            old(self).spec_session() == u64::MAX ==> r is Err && *final(self) == *old(self)
                && final(reg)@ == old(reg)@,
            old(self).spec_session() < u64::MAX ==> final(self).spec_session() == old(
                self,
            ).spec_session() + 1,
            r matches Ok(plan) ==> {
                &&& plan.session == final(self).spec_session()
                &&& plan.ports@.map_values(|p: ConnectorPort| p@) == first_entries(info@)
                &&& final(reg)@.dom() == ports_of(info@)
                &&& final(reg).next_mailbox() == old(reg).next_mailbox() + first_entries(info@).len()
            },
            old(self).spec_session() < u64::MAX ==> forall|p: u16| #[trigger]
                final(reg)@.contains_key(p) ==> final(reg)@[p] >= old(reg).next_mailbox(),
            r is Ok <==> old(self).spec_session() < u64::MAX && old(reg).next_mailbox()
                + first_entries(info@).len() <= u64::MAX,
    {
        if self.session == u64::MAX {
            return Err(PublishError::Exhausted);
        }
        self.session = self.session + 1;
        let ports = first_entries_of(info);
        proof {
            lemma_first_entries(info@);
        }
        match rebuild_registry(reg, &ports) {
            Ok(()) => Ok(Reconfiguration { session: self.session, ports }),
            Err(_) => Err(PublishError::Exhausted),
        }
    }
}

/// The bytes that the writer of session `writer` puts on the control stream for `n`:
/// the port in two big-endian bytes if `n` belongs to that session, nothing otherwise.
pub fn egress_bytes(writer: u64, n: Notice) -> (r: Option<Vec<u8>>)
    ensures
        r is Some <==> forwards(writer, n),
        r matches Some(b) ==> b@ == u16_bytes(n.port),
{
    if n.session == writer {
        Some(encode_u16(n.port))
    } else {
        None
    }
}

/// At most one live control session: once a later publish has started session `later`,
/// no notice queued by a worker of an earlier session reaches the wire.
pub proof fn lemma_one_live_session(earlier: u64, later: u64, n: Notice)
    requires
        n.session <= earlier,
        earlier < later,
    ensures
        !forwards(later, n),
{
}

/// A header with a wrong code is dropped, whatever its port and carrier.
pub proof fn lemma_wrong_code_dropped(h: Header, server_code: u128, carrier: PortType)
    requires
        h.code != server_code,
    ensures
        route_of(h, server_code, carrier) == Route::Drop,
{
}

} // verus!
