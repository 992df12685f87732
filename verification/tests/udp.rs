use awkernel::net::NetManagerError;
use awkernel::udp::{
    map_multicast_result, IpAddr, Poll, SockUdp, UdpConfig, UdpReceiver, UdpSender, UdpSocket, UdpSocketError,
};

struct Sock {
    sends_before_ready: u32,
    sent: Vec<Vec<u8>>,
    inbox: Option<(Vec<u8>, IpAddr, u16)>,
    multicast: Result<(), NetManagerError>,
}

impl SockUdp for Sock {
    fn bind_on_interface(
        interface_id: u64,
        _addr: &IpAddr,
        _port: Option<u16>,
        _rx: usize,
        _tx: usize,
    ) -> Result<Self, NetManagerError> {
        if interface_id == 0 {
            Ok(Sock { sends_before_ready: 1, sent: Vec::new(), inbox: None, multicast: Ok(()) })
        } else {
            Err(NetManagerError::InvalidInterfaceID)
        }
    }

    fn send_to<W>(&mut self, data: &[u8], _dst: &IpAddr, _port: u16, _waker: &W) -> Result<bool, NetManagerError> {
        if self.sends_before_ready > 0 {
            self.sends_before_ready -= 1;
            Ok(false)
        } else {
            self.sent.push(data.to_vec());
            Ok(true)
        }
    }

    fn recv<W>(&mut self, buf: &mut [u8], _waker: &W) -> Result<Option<(usize, IpAddr, u16)>, NetManagerError> {
        match self.inbox.take() {
            Some((data, addr, port)) => {
                buf[..data.len()].copy_from_slice(&data);
                Ok(Some((data.len(), addr, port)))
            }
            None => Ok(None),
        }
    }

    fn join_multicast_v4(&mut self, _m: u32, _i: u32) -> Result<(), NetManagerError> {
        self.multicast
    }

    fn leave_multicast_v4(&mut self, _m: u32, _i: u32) -> Result<(), NetManagerError> {
        self.multicast
    }
}

#[test]
fn default_config_binds_anywhere_with_64k_buffers() {
    let c = UdpConfig::default();
    assert_eq!(c.addr, IpAddr::V4 { addr: 0 });
    assert_eq!(c.port, None);
    assert_eq!(c.rx_buffer_size, 65536);
    assert_eq!(c.tx_buffer_size, 65536);
    assert_eq!(IpAddr::new_v4(192, 168, 0, 1), IpAddr::V4 { addr: 0xC0A8_0001 });
}

#[test]
fn binding_failure_is_a_creation_error() {
    let r: Result<UdpSocket<Sock>, UdpSocketError> = UdpSocket::bind_on_interface(3, &UdpConfig::default());
    assert_eq!(r.err(), Some(UdpSocketError::SocketCreationError));
}

#[test]
fn send_waits_until_the_stack_accepts() {
    let mut s: UdpSocket<Sock> = UdpSocket::bind_on_interface(0, &UdpConfig::default()).ok().unwrap();
    let mut sender = UdpSender::new(vec![1, 2, 3], IpAddr::new_v4(10, 0, 0, 1), 9000);
    assert_eq!(sender.poll(&mut s, &()), Poll::Pending);
    assert_eq!(sender.poll(&mut s, &()), Poll::Ready(Ok(())));
    assert_eq!(s.socket_handle.sent, vec![vec![1, 2, 3]]);
}

#[test]
fn receive_yields_datagram_when_it_arrives() {
    let mut s: UdpSocket<Sock> = UdpSocket::bind_on_interface(0, &UdpConfig::default()).ok().unwrap();
    let mut r = UdpReceiver::new();
    let mut buf = [0u8; 8];
    assert_eq!(r.poll(&mut s, &mut buf, &()), Poll::Pending);
    s.socket_handle.inbox = Some((vec![7, 8], IpAddr::new_v4(1, 2, 3, 4), 53));
    assert_eq!(r.poll(&mut s, &mut buf, &()), Poll::Ready(Ok((2, IpAddr::new_v4(1, 2, 3, 4), 53))));
    assert_eq!(&buf[..2], &[7, 8]);
}

#[test]
fn send_and_receive_errors_map_to_socket_errors() {
    assert_eq!(UdpSender::outcome(Err(NetManagerError::InterfaceIsNotReady)), Poll::Ready(Err(UdpSocketError::InterfaceIsNotReady)));
    assert_eq!(UdpSender::outcome(Err(NetManagerError::PortInUse)), Poll::Ready(Err(UdpSocketError::SendError)));
    assert_eq!(UdpReceiver::outcome(Err(NetManagerError::RecvError)), Poll::Ready(Err(UdpSocketError::SendError)));
}

#[test]
fn multicast_errors() {
    assert_eq!(map_multicast_result(Ok(())), Ok(()));
    assert_eq!(map_multicast_result(Err(NetManagerError::SendError)), Err(UdpSocketError::SendError));
    assert_eq!(
        map_multicast_result(Err(NetManagerError::MulticastInvalidIpv4Address)),
        Err(UdpSocketError::MulticastInvalidIPv4Address)
    );
    assert_eq!(map_multicast_result(Err(NetManagerError::MulticastNotJoined)), Err(UdpSocketError::MulitcastError));
    let mut s: UdpSocket<Sock> = UdpSocket::bind_on_interface(0, &UdpConfig::default()).ok().unwrap();
    s.socket_handle.multicast = Err(NetManagerError::MulticastError);
    assert_eq!(s.join_multicast_v4(0xE000_00FB, 0), Err(UdpSocketError::MulitcastError));
    assert_eq!(s.leave_multicast_v4(0xE000_00FB, 0), Err(UdpSocketError::MulitcastError));
}

#[test]
fn bind_result_gives_the_socket_or_a_creation_error() {
    let ok: Result<Sock, NetManagerError> =
        Ok(Sock { sends_before_ready: 7, sent: Vec::new(), inbox: None, multicast: Ok(()) });
    let s = UdpSocket::from_bind(ok).ok().unwrap();
    assert_eq!(s.socket_handle.sends_before_ready, 7);
    let e: Result<Sock, NetManagerError> = Err(NetManagerError::PortInUse);
    assert!(matches!(UdpSocket::from_bind(e), Err(UdpSocketError::SocketCreationError)));
}
