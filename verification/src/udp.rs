//! UDP sockets over the network manager: binding, multicast membership, and
//! what one poll of a pending send or receive yields.
use vstd::prelude::*;
use crate::net::NetManagerError;

verus! {

/// An IP address; the octets are packed most significant first.
#[derive(Debug, Clone, Copy, PartialEq, Eq, Structural)]
pub enum IpAddr {
    V4 { addr: u32 },
    V6 { high: u64, low: u64 },
}

/// The IPv4 address `a.b.c.d` packed into 32 bits.
pub open spec fn ipv4_bits(a: u8, b: u8, c: u8, d: u8) -> u32 {
    ((a as u32) << 24u32) | ((b as u32) << 16u32) | ((c as u32) << 8u32) | (d as u32)
}

impl IpAddr {
    pub fn new_v4(a: u8, b: u8, c: u8, d: u8) -> (ip: IpAddr)
        ensures
            ip == (IpAddr::V4 { addr: ipv4_bits(a, b, c, d) }),
    {
        IpAddr::V4 { addr: ((a as u32) << 24u32) | ((b as u32) << 16u32) | ((c as u32) << 8u32) | (d as u32) }
    }
}

#[derive(Debug, Clone, Copy, PartialEq, Eq, Structural)]
pub enum UdpSocketError {
    SocketCreationError,
    SendError,
    InterfaceIsNotReady,
    MulticastInvalidIPv4Address,
    MulitcastError,
}

/// Where a socket binds and how large its buffers are.
#[derive(Debug, Clone, Copy, PartialEq, Eq, Structural)]
pub struct UdpConfig {
    pub addr: IpAddr,
    pub port: Option<u16>,
    pub rx_buffer_size: usize,
    pub tx_buffer_size: usize,
}

impl Default for UdpConfig {
    /// Any address, any port, 64 KiB buffers.
    fn default() -> (c: UdpConfig)
        ensures
            c == (UdpConfig {
                addr: IpAddr::V4 { addr: ipv4_bits(0, 0, 0, 0) },
                port: None,
                rx_buffer_size: 65536,
                tx_buffer_size: 65536,
            }),
    {
        UdpConfig {
            addr: IpAddr::new_v4(0, 0, 0, 0),
            port: None,
            rx_buffer_size: 1024 * 64,
            tx_buffer_size: 1024 * 64,
        }
    }
}

/// One call made on a manager-level UDP socket, with its arguments and what
/// the socket answered.
pub enum SockCall {
    SendTo { data: Seq<u8>, dst_addr: IpAddr, dst_port: u16, r: Result<bool, NetManagerError> },
    Recv { r: Result<Option<(usize, IpAddr, u16)>, NetManagerError> },
    JoinMulticast { multicast_addr: u32, interface_addr: u32, r: Result<(), NetManagerError> },
    LeaveMulticast { multicast_addr: u32, interface_addr: u32, r: Result<(), NetManagerError> },
}

/// The manager-level UDP socket a `UdpSocket` drives. Implemented by the
/// network stack; nothing is assumed of whether its calls succeed.
pub trait SockUdp: Sized {
    /// Where the socket is bound: interface, address, port (none for an
    /// ephemeral one), receive and send buffer sizes. An implementation
    /// verified against `bind_on_interface` defines it; the default is an
    /// unspecified binding.
    closed spec fn binding(&self) -> (u64, IpAddr, Option<u16>, usize, usize) {
        arbitrary()
    }

    /// A socket bound as asked, or the manager's error.
    fn bind_on_interface(
        interface_id: u64,
        addr: &IpAddr,
        port: Option<u16>,
        rx_buffer_size: usize,
        tx_buffer_size: usize,
    ) -> (r: Result<Self, NetManagerError>)
        ensures
            r matches Ok(s) ==> s.binding() == (interface_id, *addr, port, rx_buffer_size, tx_buffer_size);

    /// The calls made to the socket so far, oldest first, with their
    /// arguments and answers. An implementation verified against the
    /// contracts below defines it: with the default empty log they cannot be
    /// met.
    closed spec fn calls(&self) -> Seq<SockCall> {
        Seq::empty()
    }

    /// Sends a datagram; `Ok(false)` when it has to wait (the waker is kept
    /// for later).
    fn send_to<W>(&mut self, data: &[u8], dst_addr: &IpAddr, dst_port: u16, waker: &W) -> (r: Result<bool, NetManagerError>)
        ensures
            final(self).calls() == old(self).calls().push(SockCall::SendTo { data: data@, dst_addr: *dst_addr, dst_port, r });

    /// Receives into `buf`; `Ok(None)` when nothing has arrived yet.
    fn recv<W>(&mut self, buf: &mut [u8], waker: &W) -> (r: Result<Option<(usize, IpAddr, u16)>, NetManagerError>)
        ensures
            final(self).calls() == old(self).calls().push(SockCall::Recv { r });

    fn join_multicast_v4(&mut self, multicast_addr: u32, interface_addr: u32) -> (r: Result<(), NetManagerError>)
        ensures
            final(self).calls() == old(self).calls().push(SockCall::JoinMulticast { multicast_addr, interface_addr, r });

    fn leave_multicast_v4(&mut self, multicast_addr: u32, interface_addr: u32) -> (r: Result<(), NetManagerError>)
        ensures
            final(self).calls() == old(self).calls().push(SockCall::LeaveMulticast { multicast_addr, interface_addr, r });
}

/// A UDP socket.
pub struct UdpSocket<S> {
    pub socket_handle: S,
}

/// The result of a multicast join as the socket reports it: send errors and
/// invalid addresses keep their kind; every other error is a multicast error.
pub open spec fn multicast_result(r: Result<(), NetManagerError>) -> Result<(), UdpSocketError> {
    match r {
        Ok(()) => Ok(()),
        Err(NetManagerError::SendError) => Err(UdpSocketError::SendError),
        Err(NetManagerError::MulticastInvalidIpv4Address) => Err(UdpSocketError::MulticastInvalidIPv4Address),
        Err(_) => Err(UdpSocketError::MulitcastError),
    }
}

/// Maps the manager's answer to a multicast join or leave.
pub fn map_multicast_result(r: Result<(), NetManagerError>) -> (m: Result<(), UdpSocketError>)
    ensures
        m == multicast_result(r),
{
    match r {
        Ok(()) => Ok(()),
        Err(NetManagerError::SendError) => Err(UdpSocketError::SendError),
        Err(NetManagerError::MulticastInvalidIpv4Address) => Err(UdpSocketError::MulticastInvalidIPv4Address),
        Err(_) => Err(UdpSocketError::MulitcastError),
    }
}

impl<S: SockUdp> UdpSocket<S> {
    /// Creates a socket bound to `config` on interface `interface_id` (one
    /// bind asked of the manager); any failure of the manager is a creation
    /// error.
    pub fn bind_on_interface(interface_id: u64, config: &UdpConfig) -> (r: Result<UdpSocket<S>, UdpSocketError>)
        ensures
            r is Err ==> r == Err::<UdpSocket<S>, UdpSocketError>(UdpSocketError::SocketCreationError),
            r matches Ok(sock) ==> sock.socket_handle.binding()
                == (interface_id, config.addr, config.port, config.rx_buffer_size, config.tx_buffer_size),
    {
        let inner = S::bind_on_interface(interface_id, &config.addr, config.port, config.rx_buffer_size, config.tx_buffer_size);
        Self::from_bind(inner)
    }

    /// The socket a bind of the manager gives: the bound socket, or a
    /// creation error whatever the manager's error.
    pub fn from_bind(inner: Result<S, NetManagerError>) -> (r: Result<UdpSocket<S>, UdpSocketError>)
        ensures
            match inner {
                Ok(s) => r == Ok::<UdpSocket<S>, UdpSocketError>((UdpSocket { socket_handle: s })),
                Err(_) => r == Err::<UdpSocket<S>, UdpSocketError>(UdpSocketError::SocketCreationError),
            },
    {
        match inner {
            Ok(socket_handle) => Ok(UdpSocket { socket_handle }),
            Err(_) => Err(UdpSocketError::SocketCreationError),
        }
    }

    /// Joins a multicast group (one join asked of the socket).
    pub fn join_multicast_v4(&mut self, multicast_addr: u32, interface_addr: u32) -> (r: Result<(), UdpSocketError>)
        ensures
            exists|inner: Result<(), NetManagerError>| {
                &&& final(self).socket_handle.calls() == old(self).socket_handle.calls().push(
                    SockCall::JoinMulticast { multicast_addr, interface_addr, r: inner })
                &&& r == multicast_result(inner)
            },
    {
        let inner = self.socket_handle.join_multicast_v4(multicast_addr, interface_addr);
        map_multicast_result(inner)
    }

    /// Leaves a multicast group (one leave asked of the socket).
    pub fn leave_multicast_v4(&mut self, multicast_addr: u32, interface_addr: u32) -> (r: Result<(), UdpSocketError>)
        ensures
            exists|inner: Result<(), NetManagerError>| {
                &&& final(self).socket_handle.calls() == old(self).socket_handle.calls().push(
                    SockCall::LeaveMulticast { multicast_addr, interface_addr, r: inner })
                &&& r == multicast_result(inner)
            },
    {
        let inner = self.socket_handle.leave_multicast_v4(multicast_addr, interface_addr);
        map_multicast_result(inner)
    }
}

/// The state of a future: done with a value, or still waiting.
#[derive(Debug, Clone, Copy, PartialEq, Eq, Structural)]
pub enum Poll<T> {
    Ready(T),
    Pending,
}

/// What one poll of a pending send yields from the manager's answer: sent,
/// waiting, or an error (an interface that is not ready keeps its kind; any
/// other error is a send error).
pub open spec fn send_poll(r: Result<bool, NetManagerError>) -> Poll<Result<(), UdpSocketError>> {
    match r {
        Ok(true) => Poll::Ready(Ok(())),
        Ok(false) => Poll::Pending,
        Err(NetManagerError::InterfaceIsNotReady) => Poll::Ready(Err(UdpSocketError::InterfaceIsNotReady)),
        Err(_) => Poll::Ready(Err(UdpSocketError::SendError)),
    }
}

/// What one poll of a pending receive yields from the manager's answer.
pub open spec fn recv_poll(r: Result<Option<(usize, IpAddr, u16)>, NetManagerError>) -> Poll<Result<(usize, IpAddr, u16), UdpSocketError>> {
    match r {
        Ok(Some(res)) => Poll::Ready(Ok(res)),
        Ok(None) => Poll::Pending,
        Err(_) => Poll::Ready(Err(UdpSocketError::SendError)),
    }
}

/// A send waiting to complete.
pub struct UdpSender {
    pub data: Vec<u8>,
    pub dst_addr: IpAddr,
    pub dst_port: u16,
    pub blocked_task_id: Option<u32>,
}

impl UdpSender {
    pub fn new(data: Vec<u8>, dst_addr: IpAddr, dst_port: u16) -> (s: UdpSender)
        ensures
            s.data@ == data@,
            s.dst_addr == dst_addr,
            s.dst_port == dst_port,
            s.blocked_task_id is None,
    {
        UdpSender { data, dst_addr, dst_port, blocked_task_id: None }
    }

    /// Maps the manager's answer to a send.
    pub fn outcome(r: Result<bool, NetManagerError>) -> (p: Poll<Result<(), UdpSocketError>>)
        ensures
            p == send_poll(r),
    {
        match r {
            Ok(true) => Poll::Ready(Ok(())),
            Ok(false) => Poll::Pending,
            Err(NetManagerError::InterfaceIsNotReady) => Poll::Ready(Err(UdpSocketError::InterfaceIsNotReady)),
            Err(_) => Poll::Ready(Err(UdpSocketError::SendError)),
        }
    }

    /// Tries the send once: the datagram is handed to the socket.
    pub fn poll<S: SockUdp, W>(&mut self, socket: &mut UdpSocket<S>, waker: &W) -> (p: Poll<Result<(), UdpSocketError>>)
        ensures
            *final(self) == *old(self),
            exists|r: Result<bool, NetManagerError>| {
                &&& final(socket).socket_handle.calls() == old(socket).socket_handle.calls().push(
                    SockCall::SendTo { data: old(self).data@, dst_addr: old(self).dst_addr, dst_port: old(self).dst_port, r })
                &&& p == send_poll(r)
            },
    {
        let r = socket.socket_handle.send_to(self.data.as_slice(), &self.dst_addr, self.dst_port, waker);
        UdpSender::outcome(r)
    }
}

/// A receive waiting for a datagram.
pub struct UdpReceiver {
    pub blocked_task_id: Option<u32>,
}

impl UdpReceiver {
    pub fn new() -> (r: UdpReceiver)
        ensures
            r.blocked_task_id is None,
    {
        UdpReceiver { blocked_task_id: None }
    }

    /// Maps the manager's answer to a receive.
    pub fn outcome(r: Result<Option<(usize, IpAddr, u16)>, NetManagerError>) -> (p: Poll<Result<(usize, IpAddr, u16), UdpSocketError>>)
        ensures
            p == recv_poll(r),
    {
        match r {
            Ok(Some(res)) => Poll::Ready(Ok(res)),
            Ok(None) => Poll::Pending,
            Err(_) => Poll::Ready(Err(UdpSocketError::SendError)),
        }
    }

    /// Tries to receive once into `buf`.
    pub fn poll<S: SockUdp, W>(&mut self, socket: &mut UdpSocket<S>, buf: &mut [u8], waker: &W) -> (p: Poll<Result<(usize, IpAddr, u16), UdpSocketError>>)
        ensures
            *final(self) == *old(self),
            exists|r: Result<Option<(usize, IpAddr, u16)>, NetManagerError>| {
                &&& final(socket).socket_handle.calls() == old(socket).socket_handle.calls().push(SockCall::Recv { r })
                &&& p == recv_poll(r)
            },
    {
        let r = socket.socket_handle.recv(buf, waker);
        UdpReceiver::outcome(r)
    }
}

} // verus!
