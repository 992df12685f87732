//! The network manager: the registry of interfaces, the bookkeeping of UDP
//! and TCP ports, and the wakers that wait for interrupts and poll events.
use vstd::prelude::*;
use std::collections::HashMap;
use crate::numa::{last_value_map, last_value_map_of};

verus! {

#[derive(Debug, Clone, Copy, PartialEq, Eq, Structural)]
pub enum NetManagerError {
    InvalidInterfaceID,
    InvalidIPv4Address,
    InvalidSocketAddress,
    CannotFindInterface,
    PortInUse,
    SendError,
    RecvError,
    NotYetImplemented,
    InvalidPort,
    InvalidState,
    NoAvailablePort,
    InterfaceIsNotReady,
    BindError,
    FailedToMakeNonblocking,
    SocketError,
    ConnectError,
    ListenError,
    AcceptError,
    MulticastInvalidIpv4Address,
    MulticastInvalidInterfaceAddress,
    MulticastError,
    MulticastNotJoined,
    DeviceError(NetDevError),
}

/// An error a network device reports, by its code.
#[derive(Debug, Clone, Copy, PartialEq, Eq, Structural)]
pub struct NetDevError {
    pub code: u32,
}

/// One call the manager made on a network device, with its arguments and
/// what the device answered.
pub enum NetCall {
    Up { r: Result<(), NetDevError> },
    Down { r: Result<(), NetDevError> },
    Tick { r: Result<(), NetDevError> },
    Poll { r: bool },
    PollInService { r: Result<(), NetDevError> },
    Interrupt { irq: u16, r: Result<(), NetDevError> },
    Send { data: Seq<u8>, que_id: usize, r: Result<(), NetDevError> },
    DebugDump,
    PollMode { r: bool },
    TickRxPollMode,
    PollRxPollMode { r: bool },
    PollRxIrq { irq: u16, r: bool },
}

/// What the manager asks of a network interface: its device and its packet
/// processing. Implemented by drivers; nothing is assumed of what the
/// methods answer. Each call is recorded, with its arguments and answer, in
/// `calls`, so that contracts can say which calls the manager makes and what
/// it does with the answers.
pub trait NetDevice {
    /// The calls made to the device so far, oldest first. An
    /// implementation verified against the contracts below defines it: with
    /// the default empty log they cannot be met.
    closed spec fn calls(&self) -> Seq<NetCall> {
        Seq::empty()
    }

    fn up(&mut self) -> (r: Result<(), NetDevError>)
        ensures
            final(self).calls() == old(self).calls().push(NetCall::Up { r });
    fn down(&mut self) -> (r: Result<(), NetDevError>)
        ensures
            final(self).calls() == old(self).calls().push(NetCall::Down { r });
    fn tick(&mut self) -> (r: Result<(), NetDevError>)
        ensures
            final(self).calls() == old(self).calls().push(NetCall::Tick { r });
    /// Whether the device has events to process (poll mode).
    fn poll(&mut self) -> (r: bool)
        ensures
            final(self).calls() == old(self).calls().push(NetCall::Poll { r });
    fn poll_in_service(&mut self) -> (r: Result<(), NetDevError>)
        ensures
            final(self).calls() == old(self).calls().push(NetCall::PollInService { r });
    fn interrupt(&mut self, irq: u16) -> (r: Result<(), NetDevError>)
        ensures
            final(self).calls() == old(self).calls().push(NetCall::Interrupt { irq, r });
    /// Sends the frame `data` (no VLAN tag, no checksum offload) on queue
    /// `que_id`.
    fn send(&mut self, data: &[u8], que_id: usize) -> (r: Result<(), NetDevError>)
        ensures
            final(self).calls() == old(self).calls().push(NetCall::Send { data: data@, que_id, r });
    fn debug_dump(&mut self)
        ensures
            final(self).calls() == old(self).calls().push(NetCall::DebugDump);
    /// Whether the interface is driven by polling rather than interrupts.
    fn poll_mode(&mut self) -> (r: bool)
        ensures
            final(self).calls() == old(self).calls().push(NetCall::PollMode { r });
    /// Receives and transmits in poll mode after a tick.
    fn tick_rx_poll_mode(&mut self)
        ensures
            final(self).calls() == old(self).calls().push(NetCall::TickRxPollMode);
    /// Receives and transmits in poll mode; whether packets were processed.
    fn poll_rx_poll_mode(&mut self) -> (r: bool)
        ensures
            final(self).calls() == old(self).calls().push(NetCall::PollRxPollMode { r });
    /// Receives and transmits for interrupt `irq`; whether packets were
    /// processed.
    fn poll_rx_irq(&mut self, irq: u16) -> (r: bool)
        ensures
            final(self).calls() == old(self).calls().push(NetCall::PollRxIrq { irq, r });
}

/// A TCP port taken by a socket.
#[derive(Debug, Clone, Copy, PartialEq, Eq, Structural)]
pub struct TcpPort {
    pub port: u16,
    pub is_ipv4: bool,
}

impl TcpPort {
    pub fn new(port: u16, is_ipv4: bool) -> (p: TcpPort)
        ensures
            p == (TcpPort { port, is_ipv4 }),
    {
        TcpPort { port, is_ipv4 }
    }
}

/// Number of candidate ports the ephemeral search tries.
pub const EPHEMERAL_RANGE: u16 = 16383;

/// The `i`-th ephemeral candidate after `start`: `start + i` modulo 2^16,
/// with 0 replaced by the first ephemeral port.
pub open spec fn ephemeral_candidate(start: u16, i: u16) -> u16 {
    let p = start.wrapping_add(i);
    if p == 0 { EPHEMERAL_RANGE } else { p }
}

/// `i` is the first step of the ephemeral search from `start` whose
/// candidate is free in `used`.
pub open spec fn first_free_step(used: Seq<bool>, start: u16, i: u16) -> bool {
    &&& i < EPHEMERAL_RANGE
    &&& !used[ephemeral_candidate(start, i) as int]
    &&& forall|j: u16| j < i ==> used[#[trigger] ephemeral_candidate(start, j) as int]
}

/// Every candidate of the ephemeral search from `start` is taken in `used`.
pub open spec fn all_taken(used: Seq<bool>, start: u16) -> bool {
    forall|j: u16| j < EPHEMERAL_RANGE ==> used[#[trigger] ephemeral_candidate(start, j) as int]
}

/// The first step of the ephemeral search from `start` whose candidate is
/// free in `used`.
fn find_free_step(used: &Vec<bool>, start: u16) -> (r: Option<u16>)
    requires
        used@.len() == NUM_PORTS,
    ensures
        r matches Some(i) ==> first_free_step(used@, start, i),
        r is None ==> all_taken(used@, start),
{
    let mut i: u16 = 0;
    while i < EPHEMERAL_RANGE
        invariant
            i <= EPHEMERAL_RANGE,
            used@.len() == NUM_PORTS,
            forall|j: u16| j < i ==> used@[#[trigger] ephemeral_candidate(start, j) as int],
        decreases EPHEMERAL_RANGE - i,
    {
        let port = start.wrapping_add(i);
        let port = if port == 0 { EPHEMERAL_RANGE } else { port };
        if !used[port as usize] {
            return Some(i);
        }
        i += 1;
    }
    None
}

/// `i` is the first search step whose own number is free in `counts` (the
/// TCP search looks up the step, not the candidate port).
pub open spec fn first_free_tcp_step(counts: Seq<u64>, i: u16) -> bool {
    &&& i < EPHEMERAL_RANGE
    &&& counts[i as int] == 0
    &&& forall|j: u16| j < i ==> #[trigger] counts[j as int] != 0
}

/// The first search step whose own number is unused in `counts`.
fn find_free_tcp_step(counts: &Vec<u64>) -> (r: Option<u16>)
    requires
        counts@.len() == NUM_PORTS,
    ensures
        r matches Some(i) ==> first_free_tcp_step(counts@, i),
        r is None ==> forall|j: u16| j < EPHEMERAL_RANGE ==> #[trigger] counts@[j as int] != 0,
{
    let mut i: u16 = 0;
    while i < EPHEMERAL_RANGE
        invariant
            i <= EPHEMERAL_RANGE,
            counts@.len() == NUM_PORTS,
            forall|j: u16| j < i ==> #[trigger] counts@[j as int] != 0,
        decreases EPHEMERAL_RANGE - i,
    {
        if counts[i as usize] == 0 {
            return Some(i);
        }
        i += 1;
    }
    None
}

/// Number of port numbers.
pub const NUM_PORTS: usize = 65536;

/// Registered interfaces by ID, and the port tables.
pub struct NetManager<D> {
    /// Interfaces in increasing ID order.
    pub interfaces: Vec<(u64, D)>,
    /// ID of the next interface.
    pub interface_id: u64,
    /// Default IPv4 gateway (its four octets) of each interface, in the
    /// order of `interfaces`.
    pub default_gateways_ipv4: Vec<Option<[u8; 4]>>,
    /// VLAN of each interface, in the order of `interfaces`.
    pub vlans: Vec<Option<u16>>,
    /// Whether each interface is driven by polling, as its device answered
    /// when it was registered; in the order of `interfaces`.
    pub poll_modes: Vec<bool>,
    pub udp_ports_ipv4: Vec<bool>,
    pub udp_port_ipv4_ephemeral: u16,
    pub udp_ports_ipv6: Vec<bool>,
    pub udp_port_ipv6_ephemeral: u16,
    /// Number of sockets using each TCP port (0: free).
    pub tcp_ports_ipv4: Vec<u64>,
    pub tcp_port_ipv4_ephemeral: u16,
    pub tcp_ports_ipv6: Vec<u64>,
    pub tcp_port_ipv6_ephemeral: u16,
}

/// Creates a table with `n` copies of `v`.
fn filled<T: Copy>(v: T, n: usize) -> (t: Vec<T>)
    ensures
        t@.len() == n,
        forall|i: int| 0 <= i < n ==> t@[i] == v,
{
    let mut t: Vec<T> = Vec::new();
    let mut k: usize = 0;
    while k < n
        invariant
            k <= n,
            t@.len() == k,
            forall|i: int| 0 <= i < k ==> t@[i] == v,
        decreases n - k,
    {
        t.push(v);
        k += 1;
    }
    t
}

impl<D: NetDevice> NetManager<D> {
    /// Interface IDs increase along the registry and stay below the next ID;
    /// each port table has one entry per port.
    pub open spec fn wf(&self) -> bool {
        &&& forall|i: int, j: int| 0 <= i < j < self.interfaces@.len() ==> self.interfaces@[i].0 < self.interfaces@[j].0
        &&& forall|i: int| 0 <= i < self.interfaces@.len() ==> (#[trigger] self.interfaces@[i]).0 < self.interface_id
        &&& self.default_gateways_ipv4@.len() == self.interfaces@.len()
        &&& self.vlans@.len() == self.interfaces@.len()
        &&& self.poll_modes@.len() == self.interfaces@.len()
        &&& self.udp_ports_ipv4@.len() == NUM_PORTS
        &&& self.udp_ports_ipv6@.len() == NUM_PORTS
        &&& self.tcp_ports_ipv4@.len() == NUM_PORTS
        &&& self.tcp_ports_ipv6@.len() == NUM_PORTS
    }

    /// Whether an interface is registered under `id`.
    pub open spec fn has_interface(&self, id: u64) -> bool {
        exists|i: int| 0 <= i < self.interfaces@.len() && self.interfaces@[i].0 == id
    }

    /// An empty manager; ephemeral searches start at the first ephemeral
    /// port.
    pub fn new() -> (m: NetManager<D>)
        ensures
            m.wf(),
            m.interfaces@.len() == 0,
            m.interface_id == 0,
            m.udp_port_ipv4_ephemeral == EPHEMERAL_RANGE,
            m.udp_port_ipv6_ephemeral == EPHEMERAL_RANGE,
            m.tcp_port_ipv4_ephemeral == EPHEMERAL_RANGE,
            m.tcp_port_ipv6_ephemeral == EPHEMERAL_RANGE,
            forall|p: int| 0 <= p < NUM_PORTS ==> !m.udp_ports_ipv4@[p] && !m.udp_ports_ipv6@[p]
                && m.tcp_ports_ipv4@[p] == 0 && m.tcp_ports_ipv6@[p] == 0,
    {
        NetManager {
            interfaces: Vec::new(),
            interface_id: 0,
            default_gateways_ipv4: Vec::new(),
            vlans: Vec::new(),
            poll_modes: Vec::new(),
            udp_ports_ipv4: filled(false, NUM_PORTS),
            udp_port_ipv4_ephemeral: EPHEMERAL_RANGE,
            udp_ports_ipv6: filled(false, NUM_PORTS),
            udp_port_ipv6_ephemeral: EPHEMERAL_RANGE,
            tcp_ports_ipv4: filled(0u64, NUM_PORTS),
            tcp_port_ipv4_ephemeral: EPHEMERAL_RANGE,
            tcp_ports_ipv6: filled(0u64, NUM_PORTS),
            tcp_port_ipv6_ephemeral: EPHEMERAL_RANGE,
        }
    }

    /// Position of interface `id` in the registry.
    pub fn find(&self, id: u64) -> (r: Option<usize>)
        requires
            self.wf(),
        ensures
            r is None <==> !self.has_interface(id),
            r matches Some(i) ==> i < self.interfaces@.len() && self.interfaces@[i as int].0 == id,
    {
        let mut i: usize = 0;
        while i < self.interfaces.len()
            invariant
                i <= self.interfaces@.len(),
                forall|k: int| 0 <= k < i ==> self.interfaces@[k].0 != id,
            decreases self.interfaces@.len() - i,
        {
            if self.interfaces[i].0 == id {
                return Some(i);
            }
            i += 1;
        }
        None
    }
}

/// The port table after an ephemeral UDP search from `start`: the first free
/// candidate taken, or nothing changed when every candidate is taken.
pub open spec fn udp_search_done(used: Seq<bool>, start: u16, r: Option<u16>, new_used: Seq<bool>) -> bool {
    match r {
        Some(p) => exists|i: u16| first_free_step(used, start, i) && p == ephemeral_candidate(start, i)
            && new_used == used.update(p as int, true),
        None => all_taken(used, start) && new_used == used,
    }
}

impl<D: NetDevice> NetManager<D> {
    /// Takes a free UDP/IPv4 port, searching the ephemeral range from the last
    /// one taken.
    pub fn get_ephemeral_port_udp_ipv4(&mut self) -> (r: Option<u16>)
        requires
            old(self).wf(),
        ensures
            final(self).wf(),
            udp_search_done(old(self).udp_ports_ipv4@, old(self).udp_port_ipv4_ephemeral, r, final(self).udp_ports_ipv4@),
            final(self).udp_port_ipv4_ephemeral == (match r { Some(p) => p, None => old(self).udp_port_ipv4_ephemeral }),
            final(self).interfaces@ == old(self).interfaces@,
            final(self).interface_id == old(self).interface_id,
            final(self).udp_ports_ipv6@ == old(self).udp_ports_ipv6@,
            final(self).udp_port_ipv6_ephemeral == old(self).udp_port_ipv6_ephemeral,
            final(self).tcp_ports_ipv4@ == old(self).tcp_ports_ipv4@,
            final(self).tcp_ports_ipv6@ == old(self).tcp_ports_ipv6@,
    {
        match find_free_step(&self.udp_ports_ipv4, self.udp_port_ipv4_ephemeral) {
            Some(i) => {
                let port = self.udp_port_ipv4_ephemeral.wrapping_add(i);
                let port = if port == 0 { EPHEMERAL_RANGE } else { port };
                self.udp_ports_ipv4.set(port as usize, true);
                self.udp_port_ipv4_ephemeral = port;
                Some(port)
            },
            None => None,
        }
    }

    /// Takes a free UDP/IPv6 port, searching the ephemeral range from the last
    /// one taken. The port found becomes the start of the next UDP/IPv4
    /// search; the UDP/IPv6 start is left as it was.
    pub fn get_ephemeral_port_udp_ipv6(&mut self) -> (r: Option<u16>)
        requires
            old(self).wf(),
        ensures
            final(self).wf(),
            udp_search_done(old(self).udp_ports_ipv6@, old(self).udp_port_ipv6_ephemeral, r, final(self).udp_ports_ipv6@),
            final(self).udp_port_ipv6_ephemeral == old(self).udp_port_ipv6_ephemeral,
            final(self).udp_port_ipv4_ephemeral == (match r { Some(p) => p, None => old(self).udp_port_ipv4_ephemeral }),
            final(self).interfaces@ == old(self).interfaces@,
            final(self).interface_id == old(self).interface_id,
            final(self).udp_ports_ipv4@ == old(self).udp_ports_ipv4@,
            final(self).tcp_ports_ipv4@ == old(self).tcp_ports_ipv4@,
            final(self).tcp_ports_ipv6@ == old(self).tcp_ports_ipv6@,
    {
        match find_free_step(&self.udp_ports_ipv6, self.udp_port_ipv6_ephemeral) {
            Some(i) => {
                let port = self.udp_port_ipv6_ephemeral.wrapping_add(i);
                let port = if port == 0 { EPHEMERAL_RANGE } else { port };
                self.udp_ports_ipv6.set(port as usize, true);
                self.udp_port_ipv4_ephemeral = port;
                Some(port)
            },
            None => None,
        }
    }

    pub fn set_port_in_use_udp_ipv4(&mut self, port: u16)
        requires
            old(self).wf(),
        ensures
            final(self).wf(),
            final(self).udp_ports_ipv4@ == old(self).udp_ports_ipv4@.update(port as int, true),
            final(self).udp_ports_ipv6@ == old(self).udp_ports_ipv6@,
    {
        self.udp_ports_ipv4.set(port as usize, true);
    }

    pub fn is_port_in_use_udp_ipv4(&self, port: u16) -> (b: bool)
        requires
            self.wf(),
        ensures
            b == self.udp_ports_ipv4@[port as int],
    {
        self.udp_ports_ipv4[port as usize]
    }

    pub fn free_port_udp_ipv4(&mut self, port: u16)
        requires
            old(self).wf(),
        ensures
            final(self).wf(),
            final(self).udp_ports_ipv4@ == old(self).udp_ports_ipv4@.update(port as int, false),
            final(self).udp_ports_ipv6@ == old(self).udp_ports_ipv6@,
    {
        self.udp_ports_ipv4.set(port as usize, false);
    }

    pub fn set_port_in_use_udp_ipv6(&mut self, port: u16)
        requires
            old(self).wf(),
        ensures
            final(self).wf(),
            final(self).udp_ports_ipv6@ == old(self).udp_ports_ipv6@.update(port as int, true),
            final(self).udp_ports_ipv4@ == old(self).udp_ports_ipv4@,
    {
        self.udp_ports_ipv6.set(port as usize, true);
    }

    pub fn is_port_in_use_udp_ipv6(&self, port: u16) -> (b: bool)
        requires
            self.wf(),
        ensures
            b == self.udp_ports_ipv6@[port as int],
    {
        self.udp_ports_ipv6[port as usize]
    }

    pub fn free_port_udp_ipv6(&mut self, port: u16)
        requires
            old(self).wf(),
        ensures
            final(self).wf(),
            final(self).udp_ports_ipv6@ == old(self).udp_ports_ipv6@.update(port as int, false),
            final(self).udp_ports_ipv4@ == old(self).udp_ports_ipv4@,
    {
        self.udp_ports_ipv6.set(port as usize, false);
    }

    /// Takes an ephemeral TCP/IPv4 port. The search walks the steps of the
    /// ephemeral range and takes the first step whose own number is unused;
    /// it records that number as used and hands out the candidate port of
    /// that step.
    pub fn get_ephemeral_port_tcp_ipv4(&mut self) -> (r: Option<TcpPort>)
        requires
            old(self).wf(),
        ensures
            final(self).wf(),
            match r {
                Some(tp) => exists|i: u16| first_free_tcp_step(old(self).tcp_ports_ipv4@, i)
                    && tp == (TcpPort { port: ephemeral_candidate(old(self).tcp_port_ipv4_ephemeral, i), is_ipv4: true })
                    && final(self).tcp_ports_ipv4@ == old(self).tcp_ports_ipv4@.update(i as int, 1)
                    && final(self).tcp_port_ipv4_ephemeral == tp.port,
                None => (forall|j: u16| j < EPHEMERAL_RANGE ==> #[trigger] old(self).tcp_ports_ipv4@[j as int] != 0)
                    && final(self).tcp_ports_ipv4@ == old(self).tcp_ports_ipv4@
                    && final(self).tcp_port_ipv4_ephemeral == old(self).tcp_port_ipv4_ephemeral,
            },
            final(self).tcp_ports_ipv6@ == old(self).tcp_ports_ipv6@,
            final(self).udp_ports_ipv4@ == old(self).udp_ports_ipv4@,
            final(self).udp_ports_ipv6@ == old(self).udp_ports_ipv6@,
            final(self).interfaces@ == old(self).interfaces@,
            final(self).interface_id == old(self).interface_id,
    {
        match find_free_tcp_step(&self.tcp_ports_ipv4) {
            Some(i) => {
                let port = self.tcp_port_ipv4_ephemeral.wrapping_add(i);
                let port = if port == 0 { EPHEMERAL_RANGE } else { port };
                self.tcp_ports_ipv4.set(i as usize, 1);
                self.tcp_port_ipv4_ephemeral = port;
                Some(TcpPort::new(port, true))
            },
            None => None,
        }
    }

    /// Takes an ephemeral TCP/IPv6 port, in the same way as for IPv4.
    pub fn get_ephemeral_port_tcp_ipv6(&mut self) -> (r: Option<TcpPort>)
        requires
            old(self).wf(),
        ensures
            final(self).wf(),
            match r {
                Some(tp) => exists|i: u16| first_free_tcp_step(old(self).tcp_ports_ipv6@, i)
                    && tp == (TcpPort { port: ephemeral_candidate(old(self).tcp_port_ipv6_ephemeral, i), is_ipv4: false })
                    && final(self).tcp_ports_ipv6@ == old(self).tcp_ports_ipv6@.update(i as int, 1)
                    && final(self).tcp_port_ipv6_ephemeral == tp.port,
                None => (forall|j: u16| j < EPHEMERAL_RANGE ==> #[trigger] old(self).tcp_ports_ipv6@[j as int] != 0)
                    && final(self).tcp_ports_ipv6@ == old(self).tcp_ports_ipv6@
                    && final(self).tcp_port_ipv6_ephemeral == old(self).tcp_port_ipv6_ephemeral,
            },
            final(self).tcp_ports_ipv4@ == old(self).tcp_ports_ipv4@,
            final(self).udp_ports_ipv4@ == old(self).udp_ports_ipv4@,
            final(self).udp_ports_ipv6@ == old(self).udp_ports_ipv6@,
            final(self).interfaces@ == old(self).interfaces@,
            final(self).interface_id == old(self).interface_id,
    {
        match find_free_tcp_step(&self.tcp_ports_ipv6) {
            Some(i) => {
                let port = self.tcp_port_ipv6_ephemeral.wrapping_add(i);
                let port = if port == 0 { EPHEMERAL_RANGE } else { port };
                self.tcp_ports_ipv6.set(i as usize, 1);
                self.tcp_port_ipv6_ephemeral = port;
                Some(TcpPort::new(port, false))
            },
            None => None,
        }
    }

    pub fn is_port_in_use_tcp_ipv4(&self, port: u16) -> (b: bool)
        requires
            self.wf(),
        ensures
            b == (self.tcp_ports_ipv4@[port as int] != 0),
    {
        self.tcp_ports_ipv4[port as usize] != 0
    }

    pub fn is_port_in_use_tcp_ipv6(&self, port: u16) -> (b: bool)
        requires
            self.wf(),
        ensures
            b == (self.tcp_ports_ipv6@[port as int] != 0),
    {
        self.tcp_ports_ipv6[port as usize] != 0
    }

    /// Counts one more socket on a TCP/IPv4 port.
    pub fn port_in_use_tcp_ipv4(&mut self, port: u16) -> (r: TcpPort)
        requires
            old(self).wf(),
            old(self).tcp_ports_ipv4@[port as int] < u64::MAX,
        ensures
            final(self).wf(),
            final(self).tcp_ports_ipv4@ == old(self).tcp_ports_ipv4@.update(port as int, (old(self).tcp_ports_ipv4@[port as int] + 1) as u64),
            final(self).tcp_ports_ipv6@ == old(self).tcp_ports_ipv6@,
            r == (TcpPort { port, is_ipv4: true }),
    {
        let c = self.tcp_ports_ipv4[port as usize];
        self.tcp_ports_ipv4.set(port as usize, c + 1);
        TcpPort::new(port, true)
    }

    /// Counts one more socket on a TCP/IPv6 port. The port handed back is
    /// marked as an IPv4 port.
    pub fn port_in_use_tcp_ipv6(&mut self, port: u16) -> (r: TcpPort)
        requires
            old(self).wf(),
            old(self).tcp_ports_ipv6@[port as int] < u64::MAX,
        ensures
            final(self).wf(),
            final(self).tcp_ports_ipv6@ == old(self).tcp_ports_ipv6@.update(port as int, (old(self).tcp_ports_ipv6@[port as int] + 1) as u64),
            final(self).tcp_ports_ipv4@ == old(self).tcp_ports_ipv4@,
            r == (TcpPort { port, is_ipv4: true }),
    {
        let c = self.tcp_ports_ipv6[port as usize];
        self.tcp_ports_ipv6.set(port as usize, c + 1);
        TcpPort::new(port, true)
    }

    /// Counts one socket less on a TCP/IPv4 port (nothing for a free port).
    pub fn decrement_port_in_use_tcp_ipv4(&mut self, port: u16)
        requires
            old(self).wf(),
        ensures
            final(self).wf(),
            final(self).tcp_ports_ipv4@ == (if old(self).tcp_ports_ipv4@[port as int] == 0 {
                old(self).tcp_ports_ipv4@
            } else {
                old(self).tcp_ports_ipv4@.update(port as int, (old(self).tcp_ports_ipv4@[port as int] - 1) as u64)
            }),
            final(self).tcp_ports_ipv6@ == old(self).tcp_ports_ipv6@,
    {
        let c = self.tcp_ports_ipv4[port as usize];
        if c != 0 {
            self.tcp_ports_ipv4.set(port as usize, c - 1);
        }
    }

    /// Counts one socket less on a TCP/IPv6 port (nothing for a free port).
    pub fn decrement_port_in_use_tcp_ipv6(&mut self, port: u16)
        requires
            old(self).wf(),
        ensures
            final(self).wf(),
            final(self).tcp_ports_ipv6@ == (if old(self).tcp_ports_ipv6@[port as int] == 0 {
                old(self).tcp_ports_ipv6@
            } else {
                old(self).tcp_ports_ipv6@.update(port as int, (old(self).tcp_ports_ipv6@[port as int] - 1) as u64)
            }),
            final(self).tcp_ports_ipv4@ == old(self).tcp_ports_ipv4@,
    {
        let c = self.tcp_ports_ipv6[port as usize];
        if c != 0 {
            self.tcp_ports_ipv6.set(port as usize, c - 1);
        }
    }
}


/// The (interrupt, receive queue, serves a queue) entries of a device whose
/// interrupts are `irqs`, interrupt `irqs[k]` serving receive queue
/// `rx_queues[k]` if any.
pub open spec fn irq_entries(irqs: Seq<u16>, rx_queues: Seq<Option<usize>>) -> Seq<(u32, usize, bool)> {
    Seq::new(irqs.len(), |k: int| (irqs[k] as u32, match rx_queues[k] { Some(q) => q, None => 0usize }, rx_queues[k] is Some))
}

/// The drivers and transmit queues of a new interface.
pub struct QueuePlan {
    /// The receive queue of each interrupt that serves one, by interrupt
    /// number.
    pub rx_irq_to_que: Vec<(u32, usize)>,
    /// Number of transmit-only ring queues.
    pub tx_queues: usize,
    /// Whether a driver serves the device in poll mode.
    pub poll_driver: bool,
    /// Whether a driver serves the device's periodic tick.
    pub tick_driver: bool,
}

/// The drivers and queues of a new interface: a receive driver for each
/// interrupt that serves a receive queue (a later interrupt entry replacing
/// an earlier one), one transmit queue per interrupt, and a driver with its
/// own transmit queue for poll mode and for the periodic tick when the
/// device has them.
pub fn interface_queue_plan(irqs: &Vec<u16>, rx_queues: &Vec<Option<usize>>, poll_mode: bool, has_tick: bool) -> (p: QueuePlan)
    requires
        irqs@.len() == rx_queues@.len(),
        irqs@.len() <= usize::MAX - 2,
    ensures
        last_value_map(irq_entries(irqs@, rx_queues@), p.rx_irq_to_que@),
        p.tx_queues == irqs@.len() + (if poll_mode { 1int } else { 0int }) + (if has_tick { 1int } else { 0int }),
        p.poll_driver == poll_mode,
        p.tick_driver == has_tick,
{
    let mut entries: Vec<(u32, usize, bool)> = Vec::new();
    let mut k: usize = 0;
    while k < irqs.len()
        invariant
            k <= irqs@.len(),
            irqs@.len() == rx_queues@.len(),
            entries@ == irq_entries(irqs@, rx_queues@).take(k as int),
        decreases irqs@.len() - k,
    {
        let e = match rx_queues[k] {
            Some(q) => (irqs[k] as u32, q, true),
            None => (irqs[k] as u32, 0usize, false),
        };
        entries.push(e);
        k += 1;
        assert(entries@ =~= irq_entries(irqs@, rx_queues@).take(k as int));
    }
    assert(irq_entries(irqs@, rx_queues@).take(k as int) =~= irq_entries(irqs@, rx_queues@));
    let rx_irq_to_que = last_value_map_of(&entries);
    let mut tx_queues = irqs.len();
    if poll_mode {
        tx_queues += 1;
    }
    if has_tick {
        tx_queues += 1;
    }
    QueuePlan { rx_irq_to_que, tx_queues, poll_driver: poll_mode, tick_driver: has_tick }
}

/// Registers `net_device`, on VLAN `vlan`, under the next interface ID. The
/// device is asked once whether it is driven by polling, and its answer is
/// kept.
pub fn add_interface<D: NetDevice>(mgr: &mut NetManager<D>, net_device: D, vlan: Option<u16>)
    requires
        old(mgr).wf(),
        old(mgr).interface_id < u64::MAX,
    ensures
        final(mgr).wf(),
        final(mgr).interface_id == old(mgr).interface_id + 1,
        final(mgr).interfaces@ == old(mgr).interfaces@.push((old(mgr).interface_id, final(mgr).interfaces@.last().1)),
        final(mgr).interfaces@.last().1.calls() == net_device.calls().push(NetCall::PollMode { r: final(mgr).poll_modes@.last() }),
        final(mgr).poll_modes@ == old(mgr).poll_modes@.push(final(mgr).poll_modes@.last()),
        final(mgr).vlans@ == old(mgr).vlans@.push(vlan),
        final(mgr).default_gateways_ipv4@ == old(mgr).default_gateways_ipv4@.push(None),
        final(mgr).udp_ports_ipv4@ == old(mgr).udp_ports_ipv4@,
        final(mgr).udp_ports_ipv6@ == old(mgr).udp_ports_ipv6@,
        final(mgr).tcp_ports_ipv4@ == old(mgr).tcp_ports_ipv4@,
        final(mgr).tcp_ports_ipv6@ == old(mgr).tcp_ports_ipv6@,
{
    let mut net_device = net_device;
    let poll_mode = net_device.poll_mode();
    let id = mgr.interface_id;
    mgr.interface_id = id + 1;
    mgr.interfaces.push((id, net_device));
    mgr.poll_modes.push(poll_mode);
    mgr.vlans.push(vlan);
    mgr.default_gateways_ipv4.push(None);
}

/// Position of interface `id` in the registry (when it is registered).
pub open spec fn interface_index<D: NetDevice>(mgr: &NetManager<D>, id: u64) -> int {
    choose|i: int| 0 <= i < mgr.interfaces@.len() && mgr.interfaces@[i].0 == id
}

/// `b` holds the same interface IDs, flags and tables as `a`.
pub open spec fn same_tables<D: NetDevice>(a: &NetManager<D>, b: &NetManager<D>) -> bool {
    &&& b.interfaces@.len() == a.interfaces@.len()
    &&& forall|j: int| 0 <= j < a.interfaces@.len() ==> (#[trigger] b.interfaces@[j]).0 == a.interfaces@[j].0
    &&& b.interface_id == a.interface_id
    &&& b.default_gateways_ipv4@ == a.default_gateways_ipv4@
    &&& b.vlans@ == a.vlans@
    &&& b.poll_modes@ == a.poll_modes@
    &&& b.udp_ports_ipv4@ == a.udp_ports_ipv4@
    &&& b.udp_port_ipv4_ephemeral == a.udp_port_ipv4_ephemeral
    &&& b.udp_ports_ipv6@ == a.udp_ports_ipv6@
    &&& b.udp_port_ipv6_ephemeral == a.udp_port_ipv6_ephemeral
    &&& b.tcp_ports_ipv4@ == a.tcp_ports_ipv4@
    &&& b.tcp_port_ipv4_ephemeral == a.tcp_port_ipv4_ephemeral
    &&& b.tcp_ports_ipv6@ == a.tcp_ports_ipv6@
    &&& b.tcp_port_ipv6_ephemeral == a.tcp_port_ipv6_ephemeral
}

/// `b` is `a` after the device of interface `id`, and no other, made the
/// calls `calls`.
pub open spec fn device_called<D: NetDevice>(a: &NetManager<D>, b: &NetManager<D>, id: u64, calls: Seq<NetCall>) -> bool {
    let i = interface_index(a, id);
    &&& same_tables(a, b)
    &&& b.interfaces@[i].1.calls() == a.interfaces@[i].1.calls() + calls
    &&& forall|j: int| 0 <= j < a.interfaces@.len() && j != i ==> #[trigger] b.interfaces@[j] == a.interfaces@[j]
}

/// Default IPv4 gateway of interface `id` as the manager holds it.
pub open spec fn gateway_of<D: NetDevice>(mgr: &NetManager<D>, id: u64) -> Option<[u8; 4]> {
    mgr.default_gateways_ipv4@[interface_index(mgr, id)]
}

/// Sets the default IPv4 gateway of interface `interface_id` (replacing the
/// previous one); every other interface keeps its gateway.
pub fn set_default_gateway_ipv4<D: NetDevice>(mgr: &mut NetManager<D>, interface_id: u64, gateway: [u8; 4]) -> (r: Result<(), NetManagerError>)
    requires
        old(mgr).wf(),
    ensures
        final(mgr).wf(),
        r is Ok <==> old(mgr).has_interface(interface_id),
        r is Err ==> r == Err::<(), NetManagerError>(NetManagerError::InvalidInterfaceID) && *final(mgr) == *old(mgr),
        r is Ok ==> gateway_of(final(mgr), interface_id) == Some(gateway),
        forall|id: u64| id != interface_id && old(mgr).has_interface(id) ==> gateway_of(final(mgr), id) == gateway_of(old(mgr), id),
        final(mgr).interfaces@ == old(mgr).interfaces@,
        final(mgr).interface_id == old(mgr).interface_id,
        final(mgr).vlans@ == old(mgr).vlans@,
        final(mgr).poll_modes@ == old(mgr).poll_modes@,
        final(mgr).udp_ports_ipv4@ == old(mgr).udp_ports_ipv4@,
        final(mgr).udp_ports_ipv6@ == old(mgr).udp_ports_ipv6@,
        final(mgr).tcp_ports_ipv4@ == old(mgr).tcp_ports_ipv4@,
        final(mgr).tcp_ports_ipv6@ == old(mgr).tcp_ports_ipv6@,
{
    match mgr.find(interface_id) {
        Some(i) => {
            mgr.default_gateways_ipv4.set(i, Some(gateway));
            proof {
                lemma_interface_index(mgr, interface_id, i as int);
                assert forall|id: u64| id != interface_id && old(mgr).has_interface(id) implies
                    gateway_of(mgr, id) == gateway_of(old(mgr), id) by {
                    let j = choose|j: int| 0 <= j < mgr.interfaces@.len() && mgr.interfaces@[j].0 == id;
                    lemma_interface_index(mgr, id, j);
                    lemma_interface_index(old(mgr), id, j);
                }
            }
            Ok(())
        },
        None => Err(NetManagerError::InvalidInterfaceID),
    }
}

/// Default IPv4 gateway of interface `interface_id`, if one was set.
pub fn get_default_gateway_ipv4<D: NetDevice>(mgr: &NetManager<D>, interface_id: u64) -> (r: Result<Option<[u8; 4]>, NetManagerError>)
    requires
        mgr.wf(),
    ensures
        match r {
            Ok(g) => mgr.has_interface(interface_id) && g == gateway_of(mgr, interface_id),
            Err(e) => !mgr.has_interface(interface_id) && e == NetManagerError::InvalidInterfaceID,
        },
{
    match mgr.find(interface_id) {
        Some(i) => {
            proof { lemma_interface_index(mgr, interface_id, i as int); }
            Ok(mgr.default_gateways_ipv4[i])
        },
        None => Err(NetManagerError::InvalidInterfaceID),
    }
}

/// Interface IDs are unique: the entry at `i` is the one `gateway_of` reads.
proof fn lemma_interface_index<D: NetDevice>(mgr: &NetManager<D>, id: u64, i: int)
    requires
        mgr.wf(),
        0 <= i < mgr.interfaces@.len(),
        mgr.interfaces@[i].0 == id,
    ensures
        interface_index(mgr, id) == i,
        gateway_of(mgr, id) == mgr.default_gateways_ipv4@[i],
{
    let j = interface_index(mgr, id);
    if j < i {
        assert(mgr.interfaces@[j].0 < mgr.interfaces@[i].0);
    } else if i < j {
        assert(mgr.interfaces@[i].0 < mgr.interfaces@[j].0);
    }
}

/// Asks the device of interface `interface_id` to dump its state.
pub fn debug_dump_interface<D: NetDevice>(mgr: &mut NetManager<D>, interface_id: u64) -> (r: Result<(), NetManagerError>)
    requires
        old(mgr).wf(),
    ensures
        final(mgr).wf(),
        r is Ok <==> old(mgr).has_interface(interface_id),
        r is Err ==> r == Err::<(), NetManagerError>(NetManagerError::InvalidInterfaceID) && *final(mgr) == *old(mgr),
        r is Ok ==> device_called(old(mgr), final(mgr), interface_id, seq![NetCall::DebugDump]),
{
    match mgr.find(interface_id) {
        Some(i) => {
            proof { lemma_interface_index(mgr, interface_id, i as int); }
            let ghost d0 = mgr.interfaces@[i as int].1;
            mgr.interfaces[i].1.debug_dump();
            assert(mgr.interfaces@[i as int].1.calls() =~= d0.calls() + seq![NetCall::DebugDump]);
            Ok(())
        },
        None => Err(NetManagerError::InvalidInterfaceID),
    }
}

/// Ticks the device of interface `interface_id` and then processes its
/// packets in poll mode; nothing for an unknown interface.
pub fn tick_interface<D: NetDevice>(mgr: &mut NetManager<D>, interface_id: u64)
    requires
        old(mgr).wf(),
    ensures
        final(mgr).wf(),
        !old(mgr).has_interface(interface_id) ==> *final(mgr) == *old(mgr),
        old(mgr).has_interface(interface_id) ==> exists|t: Result<(), NetDevError>|
            device_called(old(mgr), final(mgr), interface_id, seq![NetCall::Tick { r: t }, NetCall::TickRxPollMode]),
{
    match mgr.find(interface_id) {
        Some(i) => {
            proof { lemma_interface_index(mgr, interface_id, i as int); }
            let ghost d0 = mgr.interfaces@[i as int].1;
            let t = mgr.interfaces[i].1.tick();
            mgr.interfaces[i].1.tick_rx_poll_mode();
            assert(mgr.interfaces@[i as int].1.calls() =~= d0.calls() + seq![NetCall::Tick { r: t }, NetCall::TickRxPollMode]);
            assert(device_called(old(mgr), mgr, interface_id, seq![NetCall::Tick { r: t }, NetCall::TickRxPollMode]));
        },
        None => {},
    }
}

/// Services the device of interface `interface_id` and processes its
/// packets in poll mode. Whether packets were processed, as the interface
/// answered; false for an unknown interface.
pub fn poll_interface<D: NetDevice>(mgr: &mut NetManager<D>, interface_id: u64) -> (r: bool)
    requires
        old(mgr).wf(),
    ensures
        final(mgr).wf(),
        !old(mgr).has_interface(interface_id) ==> !r && *final(mgr) == *old(mgr),
        old(mgr).has_interface(interface_id) ==> exists|s: Result<(), NetDevError>|
            device_called(old(mgr), final(mgr), interface_id, seq![NetCall::PollInService { r: s }, NetCall::PollRxPollMode { r }]),
{
    match mgr.find(interface_id) {
        Some(i) => {
            proof { lemma_interface_index(mgr, interface_id, i as int); }
            let ghost d0 = mgr.interfaces@[i as int].1;
            let s = mgr.interfaces[i].1.poll_in_service();
            let r = mgr.interfaces[i].1.poll_rx_poll_mode();
            assert(mgr.interfaces@[i as int].1.calls() =~= d0.calls() + seq![NetCall::PollInService { r: s }, NetCall::PollRxPollMode { r }]);
            assert(device_called(old(mgr), mgr, interface_id, seq![NetCall::PollInService { r: s }, NetCall::PollRxPollMode { r }]));
            r
        },
        None => false,
    }
}

/// Handles interrupt `irq` of interface `interface_id`. Whether packets were
/// processed, as the interface answered; false for an unknown interface.
pub fn handle_interrupt<D: NetDevice>(mgr: &mut NetManager<D>, interface_id: u64, irq: u16) -> (r: bool)
    requires
        old(mgr).wf(),
    ensures
        final(mgr).wf(),
        !old(mgr).has_interface(interface_id) ==> !r && *final(mgr) == *old(mgr),
        old(mgr).has_interface(interface_id) ==> exists|s: Result<(), NetDevError>|
            device_called(old(mgr), final(mgr), interface_id, seq![NetCall::Interrupt { irq, r: s }, NetCall::PollRxIrq { irq, r }]),
{
    match mgr.find(interface_id) {
        Some(i) => {
            proof { lemma_interface_index(mgr, interface_id, i as int); }
            let ghost d0 = mgr.interfaces@[i as int].1;
            let s = mgr.interfaces[i].1.interrupt(irq);
            let r = mgr.interfaces[i].1.poll_rx_irq(irq);
            assert(mgr.interfaces@[i as int].1.calls() =~= d0.calls() + seq![NetCall::Interrupt { irq, r: s }, NetCall::PollRxIrq { irq, r }]);
            assert(device_called(old(mgr), mgr, interface_id, seq![NetCall::Interrupt { irq, r: s }, NetCall::PollRxIrq { irq, r }]));
            r
        },
        None => false,
    }
}

/// Enables interface `interface_id`: its device is brought up once, and
/// what it answers is ignored.
pub fn up<D: NetDevice>(mgr: &mut NetManager<D>, interface_id: u64) -> (r: Result<(), NetManagerError>)
    requires
        old(mgr).wf(),
    ensures
        final(mgr).wf(),
        r is Ok <==> old(mgr).has_interface(interface_id),
        r is Err ==> r == Err::<(), NetManagerError>(NetManagerError::InvalidInterfaceID) && *final(mgr) == *old(mgr),
        r is Ok ==> exists|u: Result<(), NetDevError>| device_called(old(mgr), final(mgr), interface_id, seq![NetCall::Up { r: u }]),
{
    match mgr.find(interface_id) {
        Some(i) => {
            proof { lemma_interface_index(mgr, interface_id, i as int); }
            let ghost d0 = mgr.interfaces@[i as int].1;
            let u = mgr.interfaces[i].1.up();
            assert(mgr.interfaces@[i as int].1.calls() =~= d0.calls() + seq![NetCall::Up { r: u }]);
            assert(device_called(old(mgr), mgr, interface_id, seq![NetCall::Up { r: u }]));
            Ok(())
        },
        None => Err(NetManagerError::InvalidInterfaceID),
    }
}

/// Disables interface `interface_id`: its device is brought down once, and
/// what it answers is ignored.
pub fn down<D: NetDevice>(mgr: &mut NetManager<D>, interface_id: u64) -> (r: Result<(), NetManagerError>)
    requires
        old(mgr).wf(),
    ensures
        final(mgr).wf(),
        r is Ok <==> old(mgr).has_interface(interface_id),
        r is Err ==> r == Err::<(), NetManagerError>(NetManagerError::InvalidInterfaceID) && *final(mgr) == *old(mgr),
        r is Ok ==> exists|u: Result<(), NetDevError>| device_called(old(mgr), final(mgr), interface_id, seq![NetCall::Down { r: u }]),
{
    match mgr.find(interface_id) {
        Some(i) => {
            proof { lemma_interface_index(mgr, interface_id, i as int); }
            let ghost d0 = mgr.interfaces@[i as int].1;
            let u = mgr.interfaces[i].1.down();
            assert(mgr.interfaces@[i as int].1.calls() =~= d0.calls() + seq![NetCall::Down { r: u }]);
            assert(device_called(old(mgr), mgr, interface_id, seq![NetCall::Down { r: u }]));
            Ok(())
        },
        None => Err(NetManagerError::InvalidInterfaceID),
    }
}

/// Sends the raw frame `data` once on queue `que_id` of interface
/// `interface_id`. A device error comes back wrapped.
pub fn raw_send<D: NetDevice>(mgr: &mut NetManager<D>, interface_id: u64, que_id: usize, data: &[u8]) -> (r: Result<(), NetManagerError>)
    requires
        old(mgr).wf(),
    ensures
        final(mgr).wf(),
        !old(mgr).has_interface(interface_id) <==> r == Err::<(), NetManagerError>(NetManagerError::InvalidInterfaceID),
        !old(mgr).has_interface(interface_id) ==> *final(mgr) == *old(mgr),
        old(mgr).has_interface(interface_id) ==> exists|s: Result<(), NetDevError>| {
            &&& device_called(old(mgr), final(mgr), interface_id, seq![NetCall::Send { data: data@, que_id, r: s }])
            &&& match s {
                Ok(_) => r is Ok,
                Err(e) => r == Err::<(), NetManagerError>(NetManagerError::DeviceError(e)),
            }
        },
{
    match mgr.find(interface_id) {
        Some(i) => {
            proof { lemma_interface_index(mgr, interface_id, i as int); }
            let ghost d0 = mgr.interfaces@[i as int].1;
            let s = mgr.interfaces[i].1.send(data, que_id);
            assert(mgr.interfaces@[i as int].1.calls() =~= d0.calls() + seq![NetCall::Send { data: data@, que_id, r: s }]);
            assert(device_called(old(mgr), mgr, interface_id, seq![NetCall::Send { data: data@, que_id, r: s }]));
            match s {
                Ok(()) => Ok(()),
                Err(e) => Err(NetManagerError::DeviceError(e)),
            }
        },
        None => Err(NetManagerError::InvalidInterfaceID),
    }
}

/// A received frame handed to the network stack.
pub struct NRxToken {
    data: Vec<u8>,
}

impl NRxToken {
    /// The frame that holds `data`.
    pub fn new(data: Vec<u8>) -> (t: NRxToken)
        ensures
            t.bytes() == data@,
    {
        NRxToken { data }
    }

    /// The bytes of the frame.
    pub closed spec fn bytes(&self) -> Seq<u8> {
        self.data@
    }

    /// Hands the frame's bytes to the consumer.
    pub fn consume(self) -> (r: Vec<u8>)
        ensures
            r@ == self.bytes(),
    {
        self.data
    }
}

/// What waits on an interrupt or poll event: a waker, or the mark that the
/// event happened before anyone waited.
pub enum IRQWaker<W> {
    Waker(W),
    Interrupted,
}

/// The outcome of signalling event `key` on table `m`: the waiting waker is
/// handed out and its entry removed, or the event is marked.
pub open spec fn signal_post<W>(m: Map<u64, IRQWaker<W>>, key: u64, r: Option<W>, m2: Map<u64, IRQWaker<W>>) -> bool {
    match m.get(key) {
        Some(IRQWaker::Waker(w)) => r == Some(w) && m2 == m.remove(key),
        _ => r is None && m2 == m.insert(key, IRQWaker::Interrupted),
    }
}

/// The outcome of registering `waker` for event `key` on table `m`: refused,
/// with the mark cleared, when the event already happened; else the waker
/// waits, replacing any earlier one.
pub open spec fn register_post<W>(m: Map<u64, IRQWaker<W>>, key: u64, waker: W, registered: bool, m2: Map<u64, IRQWaker<W>>) -> bool {
    match m.get(key) {
        Some(IRQWaker::Interrupted) => !registered && m2 == m.remove(key),
        _ => registered && m2 == m.insert(key, IRQWaker::Waker(waker)),
    }
}

/// A waker registered for an event that has not happened is the one the
/// event hands out, and the entry is gone afterwards.
pub proof fn lemma_register_then_signal<W>(
    m0: Map<u64, IRQWaker<W>>, m1: Map<u64, IRQWaker<W>>, m2: Map<u64, IRQWaker<W>>,
    key: u64, waker: W, registered: bool, r: Option<W>,
)
    requires
        m0.get(key) != Some(IRQWaker::<W>::Interrupted),
        register_post(m0, key, waker, registered, m1),
        signal_post(m1, key, r, m2),
    ensures
        registered,
        r == Some(waker),
        m2 == m0.remove(key),
{
    assert(m1.get(key) == Some(IRQWaker::Waker(waker)));
    assert(m2 =~= m0.remove(key));
}

/// An event with nobody waiting is remembered: the next registration is
/// refused, and the table is as it was before the event when the event had
/// no entry.
pub proof fn lemma_signal_then_register<W>(
    m0: Map<u64, IRQWaker<W>>, m1: Map<u64, IRQWaker<W>>, m2: Map<u64, IRQWaker<W>>,
    key: u64, waker: W, registered: bool, r: Option<W>,
)
    requires
        !(m0.get(key) matches Some(IRQWaker::Waker(_))),
        signal_post(m0, key, r, m1),
        register_post(m1, key, waker, registered, m2),
    ensures
        r is None,
        !registered,
        m2 == m0.remove(key),
        !m0.contains_key(key) ==> m2 == m0,
{
    assert(m1.get(key) == Some(IRQWaker::<W>::Interrupted));
    assert(m2 =~= m0.remove(key));
    if !m0.contains_key(key) {
        assert(m2 =~= m0);
    }
}

/// Wakers by interrupt number or interface ID.
pub struct WakerTable<W> {
    pub map: HashMap<u64, IRQWaker<W>>,
}

impl<W> WakerTable<W> {
    pub open spec fn view(&self) -> Map<u64, IRQWaker<W>> {
        self.map@
    }

    pub fn new() -> (t: WakerTable<W>)
        ensures
            t@ == Map::<u64, IRQWaker<W>>::empty(),
    {
        WakerTable { map: HashMap::new() }
    }

    /// The event `key` happened: the waiting waker is taken out and handed
    /// back to be woken; with none waiting, the event is marked.
    pub fn signal(&mut self, key: u64) -> (r: Option<W>)
        ensures
            signal_post(old(self)@, key, r, final(self)@),
    {
        broadcast use vstd::std_specs::hash::group_hash_axioms;
        match self.map.remove(&key) {
            Some(IRQWaker::Waker(w)) => Some(w),
            Some(IRQWaker::Interrupted) => {
                self.map.insert(key, IRQWaker::Interrupted);
                assert(self@ =~= old(self)@.insert(key, IRQWaker::Interrupted));
                None
            },
            None => {
                self.map.insert(key, IRQWaker::Interrupted);
                assert(self@ =~= old(self)@.insert(key, IRQWaker::Interrupted));
                None
            },
        }
    }

    /// Waits for event `key` with `waker`, replacing any earlier waker. False
    /// when the event already happened (the mark is cleared then).
    pub fn register(&mut self, key: u64, waker: W) -> (registered: bool)
        ensures
            register_post(old(self)@, key, waker, registered, final(self)@),
    {
        broadcast use vstd::std_specs::hash::group_hash_axioms;
        match self.map.remove(&key) {
            Some(IRQWaker::Interrupted) => false,
            Some(IRQWaker::Waker(_)) => {
                self.map.insert(key, IRQWaker::Waker(waker));
                assert(self@ =~= old(self)@.insert(key, IRQWaker::Waker(waker)));
                true
            },
            None => {
                self.map.insert(key, IRQWaker::Waker(waker));
                assert(self@ =~= old(self)@.insert(key, IRQWaker::Waker(waker)));
                true
            },
        }
    }
}

/// Service routine for a network device interrupt: the waker waiting on
/// `irq`, to be woken; `None` marks the interrupt for the next waiter.
pub fn net_interrupt<W>(irq_wakers: &mut WakerTable<W>, irq: u16) -> (r: Option<W>)
    ensures
        signal_post(old(irq_wakers)@, irq as u64, r, final(irq_wakers)@),
{
    irq_wakers.signal(irq as u64)
}

/// Registers a waker for interrupt `irq`, replacing the old one. False if
/// the interrupt occurred before.
pub fn register_waker_for_network_interrupt<W>(irq_wakers: &mut WakerTable<W>, irq: u16, waker: W) -> (registered: bool)
    ensures
        register_post(old(irq_wakers)@, irq as u64, waker, registered, final(irq_wakers)@),
{
    irq_wakers.register(irq as u64, waker)
}

/// Registers a waker for the poll events of interface `interface_id`,
/// replacing the old one. False if there are events already.
pub fn register_waker_for_poll<W>(poll_wakers: &mut WakerTable<W>, interface_id: u64, waker: W) -> (registered: bool)
    ensures
        register_post(old(poll_wakers)@, interface_id, waker, registered, final(poll_wakers)@),
{
    poll_wakers.register(interface_id, waker)
}

/// The outcome of signalling the events `keys` in order on table `m`: the
/// table afterwards and the wakers handed out, in order.
pub open spec fn signal_all<W>(m: Map<u64, IRQWaker<W>>, keys: Seq<u64>) -> (Map<u64, IRQWaker<W>>, Seq<W>)
    decreases keys.len(),
{
    if keys.len() == 0 {
        (m, Seq::empty())
    } else {
        let (m1, ws) = signal_all(m, keys.drop_last());
        let k = keys.last();
        match m1.get(k) {
            Some(IRQWaker::Waker(w)) => (m1.remove(k), ws.push(w)),
            _ => (m1.insert(k, IRQWaker::Interrupted), ws),
        }
    }
}

/// Signals the poll events of the interfaces `ids`, in order: the number of
/// interfaces and the wakers to wake.
pub fn signal_polled<W>(poll_wakers: &mut WakerTable<W>, ids: &Vec<u64>) -> (r: (usize, Vec<W>))
    ensures
        r.0 == ids@.len(),
        (final(poll_wakers)@, r.1@) == signal_all(old(poll_wakers)@, ids@),
{
    let mut woken: Vec<W> = Vec::new();
    let mut i: usize = 0;
    while i < ids.len()
        invariant
            i <= ids@.len(),
            (poll_wakers@, woken@) == signal_all(old(poll_wakers)@, ids@.take(i as int)),
        decreases ids@.len() - i,
    {
        proof {
            assert(ids@.take(i + 1).drop_last() =~= ids@.take(i as int));
        }
        match poll_wakers.signal(ids[i]) {
            Some(w) => woken.push(w),
            None => {},
        }
        i += 1;
    }
    assert(ids@.take(ids@.len() as int) =~= ids@);
    (ids.len(), woken)
}

/// The IDs, in registry order, of those of the first `n` interfaces of `a`
/// that are in poll mode and whose device, in `b`, answered that it had
/// events.
pub open spec fn polled_ids<D: NetDevice>(a: &NetManager<D>, b: &NetManager<D>, n: int) -> Seq<u64>
    decreases n,
{
    if n <= 0 {
        Seq::empty()
    } else {
        let rest = polled_ids(a, b, n - 1);
        if a.poll_modes@[n - 1] && b.interfaces@[n - 1].1.calls() == a.interfaces@[n - 1].1.calls().push(NetCall::Poll { r: true }) {
            rest.push(a.interfaces@[n - 1].0)
        } else {
            rest
        }
    }
}

/// The device of interface `j` of `a` was asked once whether it had events
/// when the interface is in poll mode, and not called otherwise.
pub open spec fn polled_once_at<D: NetDevice>(a: &NetManager<D>, b: &NetManager<D>, j: int) -> bool {
    if a.poll_modes@[j] {
        exists|e: bool| b.interfaces@[j].1.calls() == a.interfaces@[j].1.calls().push(NetCall::Poll { r: e })
    } else {
        b.interfaces@[j] == a.interfaces@[j]
    }
}

/// `polled_ids` reads only the first `n` interfaces of `b`.
proof fn lemma_polled_ids_prefix<D: NetDevice>(a: &NetManager<D>, b: &NetManager<D>, c: &NetManager<D>, n: int)
    requires
        0 <= n <= b.interfaces@.len(),
        n <= c.interfaces@.len(),
        forall|j: int| 0 <= j < n ==> b.interfaces@[j] == c.interfaces@[j],
    ensures
        polled_ids(a, b, n) == polled_ids(a, c, n),
    decreases n,
{
    if n > 0 {
        lemma_polled_ids_prefix(a, b, c, n - 1);
        assert(b.interfaces@[n - 1] == c.interfaces@[n - 1]);
    }
}

/// Checks every interface in poll mode, in ID order, for events (each such
/// device is asked once, no other device is called); each one with events
/// signals its poll waker. The number of interfaces with events and the
/// wakers to wake.
pub fn poll<D: NetDevice, W>(mgr: &mut NetManager<D>, poll_wakers: &mut WakerTable<W>) -> (r: (usize, Vec<W>))
    requires
        old(mgr).wf(),
    ensures
        final(mgr).wf(),
        same_tables(old(mgr), final(mgr)),
        forall|j: int| 0 <= j < old(mgr).interfaces@.len() ==> #[trigger] polled_once_at(old(mgr), final(mgr), j),
        r.0 == polled_ids(old(mgr), final(mgr), old(mgr).interfaces@.len() as int).len(),
        (final(poll_wakers)@, r.1@) == signal_all(old(poll_wakers)@, polled_ids(old(mgr), final(mgr), old(mgr).interfaces@.len() as int)),
{
    let ghost m0 = *mgr;
    let mut ids: Vec<u64> = Vec::new();
    let mut i: usize = 0;
    while i < mgr.interfaces.len()
        invariant
            m0.wf(),
            i <= mgr.interfaces@.len(),
            same_tables(&m0, mgr),
            forall|j: int| 0 <= j < i ==> #[trigger] polled_once_at(&m0, mgr, j),
            forall|j: int| i <= j < mgr.interfaces@.len() ==> #[trigger] mgr.interfaces@[j] == m0.interfaces@[j],
            ids@ == polled_ids(&m0, mgr, i as int),
        decreases mgr.interfaces@.len() - i,
    {
        let ghost before = *mgr;
        if mgr.poll_modes[i] {
            let has_events = mgr.interfaces[i].1.poll();
            proof {
                lemma_polled_ids_prefix(&m0, &before, mgr, i as int);
                assert(polled_once_at(&m0, mgr, i as int));
            }
            proof {
                assert(before.interfaces@[i as int] == m0.interfaces@[i as int]);
                let c0 = m0.interfaces@[i as int].1.calls();
                if !has_events {
                    assert(c0.push(NetCall::Poll { r: false })[c0.len() as int]
                        != c0.push(NetCall::Poll { r: true })[c0.len() as int]);
                }
            }
            if has_events {
                ids.push(mgr.interfaces[i].0);
            }
            proof {
                assert forall|j: int| 0 <= j < i implies #[trigger] polled_once_at(&m0, mgr, j) by {
                    assert(polled_once_at(&m0, &before, j));
                    assert(mgr.interfaces@[j] == before.interfaces@[j]);
                }
            }
        }
        i += 1;
    }
    signal_polled(poll_wakers, &ids)
}

} // verus!
