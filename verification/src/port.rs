use vstd::prelude::*;

use crate::process::ProcessInfo;
use crate::process::current_uid;
use crate::process::get_process_info;
use crate::process::is_subsequence;
use crate::process::pids_of;

verus! {

/// Transport protocol of a socket.
#[derive(Clone, Copy, Debug, PartialEq, Eq, Structural)]
pub enum Protocol {
    Tcp,
    Udp,
}

/// One socket as the OS reports it: the local endpoint, the protocol,
/// whether a TCP socket is in listening state (`listening` carries no
/// meaning for UDP), and the pids associated with the socket.
pub struct SocketRecord {
    pub address: String,
    pub port: u16,
    pub protocol: Protocol,
    pub listening: bool,
    pub owning_pids: Vec<u32>,
}

/// One open port: a socket's local endpoint together with the resolved
/// records of the processes that own it.
pub struct PortInfo {
    pub address: String,
    pub port: u16,
    pub protocol: Protocol,
    pub process_info: Vec<ProcessInfo>,
}

/// Which address families and protocols to enumerate, and whether to
/// keep only ports owned by the invoking user.
#[derive(Clone, Copy)]
pub struct OpenPortsConfig {
    pub ipv6: bool,
    pub ipv4: bool,
    pub udp: bool,
    pub tcp: bool,
    pub mine: bool,
}

#[verifier::external_type_specification]
#[verifier::external_body]
pub struct ExSocketInfo(netstat2::SocketInfo);

/// Relies on netstat2::get_sockets_info: the OS socket table restricted
/// to the selected address families and protocols; with no family or no
/// protocol selected it opens no query and yields nothing. A failing
/// query is treated as an empty table, so that a permission gap does not
/// abort the whole listing.
#[verifier::external_body]
fn fetch_sockets(ipv4: bool, ipv6: bool, tcp: bool, udp: bool) -> (r: Vec<netstat2::SocketInfo>)
    ensures
        !ipv4 && !ipv6 ==> r@.len() == 0,
        !tcp && !udp ==> r@.len() == 0,
{
    let mut af = netstat2::AddressFamilyFlags::empty();
    if ipv4 {
        af |= netstat2::AddressFamilyFlags::IPV4;
    }
    if ipv6 {
        af |= netstat2::AddressFamilyFlags::IPV6;
    }
    let mut proto = netstat2::ProtocolFlags::empty();
    if tcp {
        proto |= netstat2::ProtocolFlags::TCP;
    }
    if udp {
        proto |= netstat2::ProtocolFlags::UDP;
    }
    netstat2::get_sockets_info(af, proto).unwrap_or_default()
}

/// Relies on netstat2::SocketInfo's accessors: copies the local address
/// (as text), the local port, the protocol, the TCP state, and the
/// associated pids into a record of plain values, one for one.
#[verifier::external_body]
fn socket_to_record(s: &netstat2::SocketInfo) -> SocketRecord {
    let (protocol, listening) = match &s.protocol_socket_info {
        netstat2::ProtocolSocketInfo::Tcp(t) => (
            Protocol::Tcp,
            t.state == netstat2::TcpState::Listen,
        ),
        netstat2::ProtocolSocketInfo::Udp(_) => (Protocol::Udp, false),
    };
    SocketRecord {
        address: s.local_addr().to_string(),
        port: s.local_port(),
        protocol,
        listening,
        owning_pids: s.associated_pids.clone(),
    }
}

/// A socket survives the state filter: TCP only in listening state,
/// UDP always (UDP has no listen state).
pub open spec fn keep_socket(s: SocketRecord) -> bool {
    s.protocol == Protocol::Udp || s.listening
}

/// The subsequence of sockets that survive the state filter, in order.
pub open spec fn kept_sockets(s: Seq<SocketRecord>) -> Seq<SocketRecord>
    decreases s.len(),
{
    if s.len() == 0 {
        Seq::empty()
    } else if keep_socket(s.last()) {
        kept_sockets(s.drop_last()).push(s.last())
    } else {
        kept_sockets(s.drop_last())
    }
}

/// Keep exactly the sockets that pass the state filter: every TCP
/// record in the result is in listening state.
pub fn filter_sockets(sockets: Vec<SocketRecord>) -> (r: Vec<SocketRecord>)
    ensures
        r@ == kept_sockets(sockets@),
        forall|i: int|
            0 <= i < r@.len() && (#[trigger] r@[i]).protocol == Protocol::Tcp ==> r@[i].listening,
{
    let ghost orig: Seq<SocketRecord> = sockets@;
    let mut rest = sockets;
    let mut r: Vec<SocketRecord> = Vec::new();
    while rest.len() > 0
        invariant
            rest@.len() <= orig.len(),
            rest@ == orig.skip(orig.len() - rest@.len()),
            r@ == kept_sockets(orig.take(orig.len() - rest@.len())),
            forall|k: int|
                0 <= k < r@.len() && (#[trigger] r@[k]).protocol == Protocol::Tcp
                    ==> r@[k].listening,
        decreases rest@.len(),
    {
        let ghost i = orig.len() - rest@.len();
        let x = rest.remove(0);
        proof {
            assert(x == orig[i]);
            assert(orig.skip(i).remove(0) =~= orig.skip(i + 1));
            assert(orig.take(i + 1).drop_last() =~= orig.take(i));
            assert(orig.take(i + 1).last() == orig[i]);
        }
        let keep = match x.protocol {
            Protocol::Udp => true,
            Protocol::Tcp => x.listening,
        };
        if keep {
            r.push(x);
        }
    }
    proof {
        assert(orig.take(orig.len() as int) =~= orig);
    }
    r
}

/// Enumerate raw sockets for the selected address families and
/// protocols, with the unconditional state filter applied: every TCP
/// record in the result is in listening state, UDP records always pass
/// (UDP has no listen state). Selecting no family or no protocol
/// yields nothing.
pub fn enumerate_sockets(ipv4: bool, ipv6: bool, tcp: bool, udp: bool) -> (r: Vec<SocketRecord>)
    ensures
        forall|i: int|
            0 <= i < r@.len() && (#[trigger] r@[i]).protocol == Protocol::Tcp ==> r@[i].listening,
        !ipv4 && !ipv6 ==> r@.len() == 0,
        !tcp && !udp ==> r@.len() == 0,
{
    let raw = fetch_sockets(ipv4, ipv6, tcp, udp);
    let ghost raw_len = raw@.len();
    let mut rest = raw;
    let mut records: Vec<SocketRecord> = Vec::new();
    while rest.len() > 0
        invariant
            records@.len() + rest@.len() == raw_len,
        decreases rest@.len(),
    {
        let s = rest.remove(0);
        records.push(socket_to_record(&s));
    }
    proof {
        if raw_len == 0 {
            assert(records@ =~= Seq::<SocketRecord>::empty());
        }
    }
    filter_sockets(records)
}

/// The subsequence of ports whose local port equals `p`, in order.
pub open spec fn ports_with(ports: Seq<PortInfo>, p: u16) -> Seq<PortInfo>
    decreases ports.len(),
{
    if ports.len() == 0 {
        Seq::empty()
    } else if ports.last().port == p {
        ports_with(ports.drop_last(), p).push(ports.last())
    } else {
        ports_with(ports.drop_last(), p)
    }
}

/// Exact-match filter on the local port: the result is exactly the
/// subsequence of `ports` with `port == p`, relative order preserved.
/// An empty result is the user-visible no-match condition, not an error.
pub fn select_by_port(ports: Vec<PortInfo>, p: u16) -> (r: Vec<PortInfo>)
    ensures
        r@ == ports_with(ports@, p),
        forall|i: int| 0 <= i < r@.len() ==> (#[trigger] r@[i]).port == p,
{
    let ghost orig: Seq<PortInfo> = ports@;
    let mut rest = ports;
    let mut r: Vec<PortInfo> = Vec::new();
    while rest.len() > 0
        invariant
            rest@.len() <= orig.len(),
            rest@ == orig.skip(orig.len() - rest@.len()),
            r@ == ports_with(orig.take(orig.len() - rest@.len()), p),
            forall|k: int| 0 <= k < r@.len() ==> (#[trigger] r@[k]).port == p,
        decreases rest@.len(),
    {
        let ghost i = orig.len() - rest@.len();
        let x = rest.remove(0);
        proof {
            assert(x == orig[i]);
            assert(orig.skip(i).remove(0) =~= orig.skip(i + 1));
            assert(orig.take(i + 1).drop_last() =~= orig.take(i));
            assert(orig.take(i + 1).last() == orig[i]);
        }
        if x.port == p {
            r.push(x);
        }
    }
    proof {
        assert(orig.take(orig.len() as int) =~= orig);
    }
    r
}

/// Selecting by port is idempotent: filtering a second time with the
/// same port changes nothing.
pub proof fn lemma_select_by_port_idempotent(ports: Seq<PortInfo>, p: u16)
    ensures
        ports_with(ports_with(ports, p), p) == ports_with(ports, p),
    decreases ports.len(),
{
    if ports.len() == 0 {
        assert(ports_with(ports, p) =~= Seq::<PortInfo>::empty());
    } else {
        lemma_select_by_port_idempotent(ports.drop_last(), p);
        let prev = ports_with(ports.drop_last(), p);
        if ports.last().port == p {
            assert(prev.push(ports.last()).drop_last() =~= prev);
            assert(prev.push(ports.last()).last() == ports.last());
        }
    }
}

/// Selecting by port loses nothing: every entry with a matching port
/// is in the selection.
pub proof fn lemma_select_by_port_complete(ports: Seq<PortInfo>, p: u16, i: int)
    requires
        0 <= i < ports.len(),
        ports[i].port == p,
    ensures
        ports_with(ports, p).contains(ports[i]),
    decreases ports.len(),
{
    let prev = ports_with(ports.drop_last(), p);
    if i == ports.len() - 1 {
        assert(ports.last() == ports[i]);
        assert(ports_with(ports, p)[prev.len() as int] == ports[i]);
    } else {
        assert(ports.drop_last()[i] == ports[i]);
        lemma_select_by_port_complete(ports.drop_last(), p, i);
        let j = choose|j: int| 0 <= j < prev.len() && prev[j] == ports[i];
        assert(ports_with(ports, p)[j] == ports[i]);
    }
}

/// Some resolved process of this port belongs to the invoking user.
pub open spec fn has_current_user(p: PortInfo) -> bool {
    exists|j: int| 0 <= j < p.process_info@.len() && p.process_info@[j].is_current_user
}

/// The subsequence of ports owned by the invoking user, in order.
pub open spec fn mine_ports(ports: Seq<PortInfo>) -> Seq<PortInfo>
    decreases ports.len(),
{
    if ports.len() == 0 {
        Seq::empty()
    } else if has_current_user(ports.last()) {
        mine_ports(ports.drop_last()).push(ports.last())
    } else {
        mine_ports(ports.drop_last())
    }
}

/// Keep exactly the ports with a resolved process of the invoking user,
/// relative order preserved.
fn filter_mine(ports: Vec<PortInfo>) -> (r: Vec<PortInfo>)
    ensures
        r@ == mine_ports(ports@),
        forall|i: int| 0 <= i < r@.len() ==> has_current_user(#[trigger] r@[i]),
{
    let ghost orig: Seq<PortInfo> = ports@;
    let mut rest = ports;
    let mut r: Vec<PortInfo> = Vec::new();
    while rest.len() > 0
        invariant
            rest@.len() <= orig.len(),
            rest@ == orig.skip(orig.len() - rest@.len()),
            r@ == mine_ports(orig.take(orig.len() - rest@.len())),
            forall|k: int| 0 <= k < r@.len() ==> has_current_user(#[trigger] r@[k]),
        decreases rest@.len(),
    {
        let ghost i = orig.len() - rest@.len();
        let x = rest.remove(0);
        proof {
            assert(x == orig[i]);
            assert(orig.skip(i).remove(0) =~= orig.skip(i + 1));
            assert(orig.take(i + 1).drop_last() =~= orig.take(i));
            assert(orig.take(i + 1).last() == orig[i]);
        }
        let mut found = false;
        let mut j: usize = 0;
        while j < x.process_info.len()
            invariant
                j <= x.process_info@.len(),
                found == exists|k: int| 0 <= k < j && x.process_info@[k].is_current_user,
            decreases x.process_info@.len() - j,
        {
            if x.process_info[j].is_current_user {
                found = true;
            }
            j += 1;
        }
        if found {
            r.push(x);
        }
    }
    proof {
        assert(orig.take(orig.len() as int) =~= orig);
    }
    r
}

impl PortInfo {
    /// Wrap a socket into a port entry: the endpoint is copied and the
    /// socket's pids are resolved to process records, in order, skipping
    /// pids that are gone by lookup time.
    pub fn from_socket(s: SocketRecord, current_uid: u32) -> (r: PortInfo)
        ensures
            r.address == s.address,
            r.port == s.port,
            r.protocol == s.protocol,
            is_subsequence(pids_of(r.process_info@), s.owning_pids@),
            forall|k: int|
                0 <= k < r.process_info@.len() ==> (#[trigger] r.process_info@[k]).is_current_user
                    == (r.process_info@[k].owner.uid == current_uid),
    {
        let process_info = get_process_info(s.owning_pids, current_uid);
        PortInfo { address: s.address, port: s.port, protocol: s.protocol, process_info }
    }
}

/// Enumerate open ports: query the OS socket table for the selected
/// families and protocols, keep TCP sockets only in listening state and
/// UDP sockets always, resolve each socket's pids to process records,
/// and, when `mine` is set, keep only ports with a process of the
/// invoking user. Selecting no family or no protocol yields nothing.
pub fn get_open_ports(args: OpenPortsConfig) -> (r: Vec<PortInfo>)
    ensures
        args.mine ==> forall|i: int| 0 <= i < r@.len() ==> has_current_user(#[trigger] r@[i]),
        !args.tcp && !args.udp ==> r@.len() == 0,
        !args.ipv4 && !args.ipv6 ==> r@.len() == 0,
{
    let kept = enumerate_sockets(args.ipv4, args.ipv6, args.tcp, args.udp);
    let cur = current_uid();
    let ghost n = kept@.len();
    let mut rest = kept;
    let mut ports: Vec<PortInfo> = Vec::new();
    while rest.len() > 0
        invariant
            ports@.len() + rest@.len() == n,
        decreases rest@.len(),
    {
        let s = rest.remove(0);
        ports.push(PortInfo::from_socket(s, cur));
    }
    if args.mine {
        let r = filter_mine(ports);
        proof {
            if ports@.len() == 0 {
                assert(ports@ =~= Seq::<PortInfo>::empty());
            }
        }
        r
    } else {
        ports
    }
}

} // verus!
