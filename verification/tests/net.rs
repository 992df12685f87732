use awkernel::net::{
    add_interface, interface_queue_plan, debug_dump_interface, down, get_default_gateway_ipv4, set_default_gateway_ipv4, handle_interrupt, net_interrupt, poll, poll_interface,
    raw_send, register_waker_for_network_interrupt, register_waker_for_poll, signal_polled, tick_interface, up,
    NRxToken, NetDevError, NetDevice, NetManager, NetManagerError, TcpPort, WakerTable, EPHEMERAL_RANGE,
};

struct Dev {
    poll_mode: bool,
    has_events: bool,
    send_error: Option<u32>,
    ups: u32,
    ticks: u32,
    polls: u32,
    sent: Vec<(Vec<u8>, usize)>,
}

impl Dev {
    fn new(poll_mode: bool, has_events: bool) -> Dev {
        Dev { poll_mode, has_events, send_error: None, ups: 0, ticks: 0, polls: 0, sent: Vec::new() }
    }
}

impl NetDevice for Dev {
    fn up(&mut self) -> Result<(), NetDevError> {
        self.ups += 1;
        Err(NetDevError { code: 9 })
    }
    fn down(&mut self) -> Result<(), NetDevError> {
        Ok(())
    }
    fn tick(&mut self) -> Result<(), NetDevError> {
        self.ticks += 1;
        Ok(())
    }
    fn poll(&mut self) -> bool {
        self.polls += 1;
        self.has_events
    }
    fn poll_in_service(&mut self) -> Result<(), NetDevError> {
        Ok(())
    }
    fn interrupt(&mut self, _irq: u16) -> Result<(), NetDevError> {
        Ok(())
    }
    fn send(&mut self, data: &[u8], que_id: usize) -> Result<(), NetDevError> {
        self.sent.push((data.to_vec(), que_id));
        match self.send_error {
            Some(code) => Err(NetDevError { code }),
            None => Ok(()),
        }
    }
    fn debug_dump(&mut self) {}
    fn poll_mode(&mut self) -> bool {
        self.poll_mode
    }
    fn tick_rx_poll_mode(&mut self) {}
    fn poll_rx_poll_mode(&mut self) -> bool {
        true
    }
    fn poll_rx_irq(&mut self, irq: u16) -> bool {
        irq == 3
    }
}

#[test]
fn udp_ephemeral_ports_advance_and_skip_used() {
    let mut m: NetManager<Dev> = NetManager::new();
    assert_eq!(m.get_ephemeral_port_udp_ipv4(), Some(EPHEMERAL_RANGE));
    assert!(m.is_port_in_use_udp_ipv4(16383));
    m.set_port_in_use_udp_ipv4(16384);
    assert_eq!(m.get_ephemeral_port_udp_ipv4(), Some(16385));
    m.free_port_udp_ipv4(16383);
    assert!(!m.is_port_in_use_udp_ipv4(16383));
    assert_eq!(m.get_ephemeral_port_udp_ipv6(), Some(16383));
    assert!(m.is_port_in_use_udp_ipv6(16383));
}

#[test]
fn udp_ephemeral_search_wraps_past_zero() {
    let mut m: NetManager<Dev> = NetManager::new();
    m.udp_port_ipv4_ephemeral = u16::MAX;
    m.set_port_in_use_udp_ipv4(u16::MAX);
    // Candidate 0 is replaced by the first ephemeral port.
    assert_eq!(m.get_ephemeral_port_udp_ipv4(), Some(EPHEMERAL_RANGE));
}

#[test]
fn tcp_ephemeral_ports_follow_step_numbers() {
    let mut m: NetManager<Dev> = NetManager::new();
    assert_eq!(m.get_ephemeral_port_tcp_ipv4(), Some(TcpPort { port: 16383, is_ipv4: true }));
    // The table entry taken is the step number, not the port.
    assert!(m.is_port_in_use_tcp_ipv4(0));
    assert!(!m.is_port_in_use_tcp_ipv4(16383));
    assert_eq!(m.get_ephemeral_port_tcp_ipv4(), Some(TcpPort { port: 16384, is_ipv4: true }));
    assert_eq!(m.get_ephemeral_port_tcp_ipv4(), Some(TcpPort { port: 16386, is_ipv4: true }));
    assert_eq!(m.get_ephemeral_port_tcp_ipv6(), Some(TcpPort { port: 16383, is_ipv4: false }));
}

#[test]
fn tcp_port_use_counts() {
    let mut m: NetManager<Dev> = NetManager::new();
    assert_eq!(m.port_in_use_tcp_ipv4(80), TcpPort { port: 80, is_ipv4: true });
    assert_eq!(m.port_in_use_tcp_ipv4(80), TcpPort::new(80, true));
    m.decrement_port_in_use_tcp_ipv4(80);
    assert!(m.is_port_in_use_tcp_ipv4(80));
    m.decrement_port_in_use_tcp_ipv4(80);
    assert!(!m.is_port_in_use_tcp_ipv4(80));
    m.decrement_port_in_use_tcp_ipv4(80);
    assert!(!m.is_port_in_use_tcp_ipv4(80));
    assert_eq!(m.port_in_use_tcp_ipv6(443), TcpPort { port: 443, is_ipv4: true });
    assert!(m.is_port_in_use_tcp_ipv6(443));
    m.decrement_port_in_use_tcp_ipv6(443);
    assert!(!m.is_port_in_use_tcp_ipv6(443));
}

#[test]
fn interfaces_get_consecutive_ids() {
    let mut m: NetManager<Dev> = NetManager::new();
    add_interface(&mut m, Dev::new(false, false), None);
    add_interface(&mut m, Dev::new(true, true), None);
    assert_eq!(m.find(0), Some(0));
    assert_eq!(m.find(1), Some(1));
    assert_eq!(m.find(2), None);
    assert_eq!(up(&mut m, 1), Ok(()));
    assert_eq!(m.interfaces[1].1.ups, 1);
    assert_eq!(up(&mut m, 5), Err(NetManagerError::InvalidInterfaceID));
    assert_eq!(down(&mut m, 0), Ok(()));
    assert_eq!(debug_dump_interface(&mut m, 9), Err(NetManagerError::InvalidInterfaceID));
    tick_interface(&mut m, 0);
    tick_interface(&mut m, 7);
    assert_eq!(m.interfaces[0].1.ticks, 1);
    assert!(poll_interface(&mut m, 1));
    assert!(!poll_interface(&mut m, 3));
    assert!(handle_interrupt(&mut m, 0, 3));
    assert!(!handle_interrupt(&mut m, 0, 4));
    assert!(!handle_interrupt(&mut m, 8, 3));
}

#[test]
fn raw_send_wraps_device_errors() {
    let mut m: NetManager<Dev> = NetManager::new();
    let mut d = Dev::new(false, false);
    d.send_error = Some(5);
    add_interface(&mut m, d, None);
    add_interface(&mut m, Dev::new(false, false), None);
    assert_eq!(raw_send(&mut m, 0, 0, &[1, 2]), Err(NetManagerError::DeviceError(NetDevError { code: 5 })));
    assert_eq!(raw_send(&mut m, 1, 0, &[1, 2]), Ok(()));
    assert_eq!(raw_send(&mut m, 2, 0, &[]), Err(NetManagerError::InvalidInterfaceID));
    assert_eq!(raw_send(&mut m, 1, 3, &[7]), Ok(()));
    assert_eq!(m.interfaces[0].1.sent, vec![(vec![1, 2], 0)]);
    assert_eq!(m.interfaces[1].1.sent, vec![(vec![1, 2], 0), (vec![7], 3)]);
}

#[test]
fn waker_registered_before_interrupt_is_woken() {
    let mut t: WakerTable<u32> = WakerTable::new();
    assert!(register_waker_for_network_interrupt(&mut t, 5, 100));
    assert!(register_waker_for_network_interrupt(&mut t, 5, 101));
    assert_eq!(net_interrupt(&mut t, 5), Some(101));
    assert!(t.map.get(&5).is_none());
}

#[test]
fn interrupt_before_registration_is_remembered() {
    let mut t: WakerTable<u32> = WakerTable::new();
    assert_eq!(net_interrupt(&mut t, 7), None);
    assert_eq!(net_interrupt(&mut t, 7), None);
    assert!(!register_waker_for_network_interrupt(&mut t, 7, 1));
    assert!(t.map.is_empty());
    assert!(register_waker_for_network_interrupt(&mut t, 7, 2));
    assert_eq!(net_interrupt(&mut t, 7), Some(2));
}

#[test]
fn poll_signals_interfaces_with_events() {
    let mut m: NetManager<Dev> = NetManager::new();
    add_interface(&mut m, Dev::new(true, true), None);
    add_interface(&mut m, Dev::new(false, true), None);
    add_interface(&mut m, Dev::new(true, true), None);
    add_interface(&mut m, Dev::new(true, false), None);
    let mut wakers: WakerTable<&str> = WakerTable::new();
    assert!(register_waker_for_poll(&mut wakers, 2, "w2"));
    assert!(register_waker_for_poll(&mut wakers, 3, "w3"));
    let (n, woken) = poll(&mut m, &mut wakers);
    assert_eq!(n, 2);
    assert_eq!(woken, vec!["w2"]);
    // Interface 0 had nobody waiting: its event is remembered.
    assert!(!register_waker_for_poll(&mut wakers, 0, "late"));
    // Interface 3 had no events: its waker still waits.
    assert!(wakers.map.get(&3).is_some());
    // Only the interfaces in poll mode were asked, once each.
    assert_eq!(m.interfaces[0].1.polls, 1);
    assert_eq!(m.interfaces[1].1.polls, 0);
    assert_eq!(m.interfaces[2].1.polls, 1);
    assert_eq!(m.interfaces[3].1.polls, 1);
}

#[test]
fn signal_polled_in_order() {
    let mut wakers: WakerTable<u8> = WakerTable::new();
    register_waker_for_poll(&mut wakers, 1, 10);
    register_waker_for_poll(&mut wakers, 4, 40);
    let (n, woken) = signal_polled(&mut wakers, &vec![4, 2, 1]);
    assert_eq!(n, 3);
    assert_eq!(woken, vec![40, 10]);
}

#[test]
fn rx_token_hands_over_frame() {
    let t = NRxToken::new(vec![0xde, 0xad]);
    assert_eq!(t.consume(), vec![0xde, 0xad]);
}

#[test]
fn default_gateway_is_read_back_per_interface() {
    let mut m: NetManager<Dev> = NetManager::new();
    add_interface(&mut m, Dev::new(false, false), None);
    add_interface(&mut m, Dev::new(false, false), None);
    assert_eq!(get_default_gateway_ipv4(&m, 0), Ok(None));
    assert_eq!(set_default_gateway_ipv4(&mut m, 1, [10, 0, 2, 2]), Ok(()));
    assert_eq!(set_default_gateway_ipv4(&mut m, 1, [192, 168, 1, 1]), Ok(()));
    assert_eq!(get_default_gateway_ipv4(&m, 1), Ok(Some([192, 168, 1, 1])));
    assert_eq!(get_default_gateway_ipv4(&m, 0), Ok(None));
    assert_eq!(set_default_gateway_ipv4(&mut m, 4, [1, 2, 3, 4]), Err(NetManagerError::InvalidInterfaceID));
    assert_eq!(get_default_gateway_ipv4(&m, 4), Err(NetManagerError::InvalidInterfaceID));
}

#[test]
fn interfaces_keep_their_vlan_and_poll_mode() {
    let mut m: NetManager<Dev> = NetManager::new();
    add_interface(&mut m, Dev::new(true, false), Some(100));
    add_interface(&mut m, Dev::new(false, false), None);
    assert_eq!(m.vlans, vec![Some(100), None]);
    assert_eq!(m.poll_modes, vec![true, false]);
    assert_eq!(m.interface_id, 2);
}

#[test]
fn queue_plan_gives_receive_drivers_and_transmit_queues() {
    let p = interface_queue_plan(&vec![40, 41, 42, 40], &vec![Some(0), None, Some(2), Some(3)], true, false);
    assert_eq!(p.rx_irq_to_que, vec![(40, 3), (42, 2)]);
    assert_eq!(p.tx_queues, 5);
    assert!(p.poll_driver);
    assert!(!p.tick_driver);
    let q = interface_queue_plan(&vec![], &vec![], false, true);
    assert!(q.rx_irq_to_que.is_empty());
    assert_eq!(q.tx_queues, 1);
}
