use awkernel::pcie::{
    init, read_bar, scan_tree, AddressType, AttachedDevice, BaseAddress, ChildDevice, ConfigSpace, DriverKind, PCIeBus,
    PCIeClass, PCIeDeviceErr, PCIeInfo, PageMapping, StatusCommand, UnknownDevice,
};
use awkernel::pcie_registers::{BUS_MASTER, CAPABILITIES_LIST, INTERRUPT_DISABLE, IO_SPACE, MEMORY_SPACE, STATUS_COMMAND};

/// Header of an I225 network function: one 128 KiB memory BAR, pin A, line 11.
fn nic_image() -> (Vec<u32>, Vec<u32>) {
    let mut words = vec![0u32; 16];
    let mut probe = vec![0u32; 16];
    words[0] = 0x15F2_8086;
    words[1] = 0x0010_0006;
    words[2] = 0x0200_0003;
    words[3] = 0x0000_0000;
    words[4] = 0xFE00_0000;
    probe[4] = 0xFFFE_0000;
    words[15] = 0x0000_010B;
    (words, probe)
}

fn nic_info(bus: u8, device: u8) -> PCIeInfo {
    let (w, p) = nic_image();
    PCIeInfo::new(ConfigSpace::from_image(w, p).unwrap(), 0, bus, device, 0).unwrap()
}

#[test]
fn config_space_needs_a_full_header() {
    assert!(ConfigSpace::from_image(vec![0; 15], vec![0; 16]).is_none());
    assert!(ConfigSpace::from_image(vec![0; 16], vec![0; 17]).is_none());
    let mut cs = ConfigSpace::from_image(vec![0x1234_5678; 16], vec![0; 16]).unwrap();
    assert_eq!(cs.read_u32(8), 0x1234_5678);
    assert_eq!(cs.read_u16(0), 0x5678);
    assert_eq!(cs.read_u16(2), 0x1234);
    cs.write_u32(0xAABB_CCDD, 4);
    assert_eq!(cs.words()[1], 0xAABB_CCDD);
}

#[test]
fn reads_a_network_function() {
    let info = nic_info(3, 0);
    assert_eq!(info.vendor, 0x8086);
    assert_eq!(info.get_id(), 0x15F2);
    assert_eq!(info.get_revision_id(), 3);
    assert_eq!(info.get_class(), PCIeClass { class_code: 2, subclass: 0, interface: 0 });
    assert_eq!(info.get_bdf(), "0000:03:00.0");
    assert_eq!(info.get_interrupt_pin(), 1);
    assert_eq!(info.get_interrupt_line(), 11);
    assert_eq!(info.get_secondary_bus(), None);
    assert_eq!(
        info.get_bar(0),
        Some(BaseAddress::Mmio {
            reg_offset: 0x10,
            addr: 0xFE00_0000,
            size: 0x2_0000,
            address_type: AddressType::T32B,
            prefetchable: false,
            mapped: false,
        })
    );
    assert_eq!(info.get_bar(1), Some(BaseAddress::Empty));
    assert_eq!(info.get_bar(6), None);
}

#[test]
fn missing_function_fails_to_initialize() {
    let mut words = vec![0u32; 16];
    words[0] = 0xFFFF_FFFF;
    let cs = ConfigSpace::from_image(words, vec![0; 16]).unwrap();
    assert_eq!(PCIeInfo::new(cs, 0, 0, 0, 0).err(), Some(PCIeDeviceErr::InitFailure));
}

#[test]
fn unknown_header_type_fails_to_read() {
    let (mut words, probe) = nic_image();
    words[3] = 0x0003_0000;
    let cs = ConfigSpace::from_image(words, probe).unwrap();
    assert_eq!(PCIeInfo::new(cs, 0, 0, 0, 0).err(), Some(PCIeDeviceErr::ReadFailure));
}

#[test]
fn decodes_io_and_64bit_bars() {
    let mut words = vec![0u32; 16];
    let mut probe = vec![0u32; 16];
    words[4] = 0x0000_E001;
    probe[4] = 0xFFFF_FFE1;
    words[5] = 0x8000_000C;
    words[6] = 0x0000_0001;
    probe[5] = 0xFFF0_000C;
    probe[6] = 0xFFFF_FFFF;
    let cs = ConfigSpace::from_image(words, probe).unwrap();
    assert_eq!(read_bar(&cs, 0x10), BaseAddress::IO { reg_offset: 0x10, addr: 0xE000, size: 0x20 });
    match read_bar(&cs, 0x14) {
        BaseAddress::Mmio { addr, size, address_type, prefetchable, .. } => {
            assert_eq!(addr, 0x1_8000_0000);
            assert_eq!(size, 0x10_0000);
            assert_eq!(address_type, AddressType::T64B);
            assert!(prefetchable);
        }
        other => panic!("unexpected {other:?}"),
    }
}

#[test]
fn status_command_text_lists_flags() {
    let info = nic_info(3, 0);
    let csr = info.read_status_command();
    assert!(csr.contains(CAPABILITIES_LIST));
    assert_eq!(csr.to_text(), "status = [Capabilities List], command = [Bus Master, Memory Space]");
    assert_eq!(StatusCommand::from_bits_truncate(0).to_text(), "status = [], command = []");
    assert_eq!(StatusCommand::from_bits_truncate(0x0040_F800).bits(), 0);
}

#[test]
fn legacy_interrupt_toggles_disable_bit() {
    let mut info = nic_info(3, 0);
    info.disable_legacy_interrupt();
    assert!(info.read_status_command().contains(INTERRUPT_DISABLE));
    info.enable_legacy_interrupt();
    assert!(!info.read_status_command().contains(INTERRUPT_DISABLE));
    info.set_interrupt_line(5);
    assert_eq!(info.get_interrupt_line(), 5);
    assert_eq!(info.get_interrupt_pin(), 1);
}

#[test]
fn map_bar_enables_decoding_and_lists_pages() {
    let mut info = nic_info(3, 0);
    let pages = info.map_bar();
    assert_eq!(pages.len(), 32);
    assert_eq!(pages[0], PageMapping { addr: 0xFE00_0000, prefetchable: false });
    assert_eq!(pages[31], PageMapping { addr: 0xFE01_F000, prefetchable: false });
    let csr = info.read_status_command();
    assert!(csr.contains(MEMORY_SPACE) && csr.contains(IO_SPACE) && csr.contains(BUS_MASTER));
    assert_eq!(info.config_space.words()[STATUS_COMMAND / 4] & 0xFFFF, 0x0007);
}

#[test]
fn device_error_messages() {
    assert_eq!(PCIeDeviceErr::InitFailure.to_text(), "Failed to initialize the device driver.");
    assert_eq!(
        PCIeDeviceErr::UnRecognizedDevice { bus: 2, device: 5, vendor: 0x8086 }.to_text(),
        "Unregistered PCIe device: bus = 2, device = 5, vendor = 32902"
    );
    assert_eq!(PCIeDeviceErr::RevisionIDMismatch.to_text(), "Revision ID mismatch.");
}

#[test]
fn bus_names() {
    assert_eq!(PCIeBus::new(0, 0x1a, None, None).name(), "Bus #1a");
    let bridge = nic_info(0, 2);
    assert_eq!(PCIeBus::new(0, 4, None, Some(bridge)).name(), "0000:00:02.0: Bridge, Bus #04");
}

#[test]
fn classes_of_bridges() {
    assert!(PCIeClass::from_u8(6, 4, 0).is_pci_to_pci());
    assert!(PCIeClass::from_u8(6, 0, 0).is_host_bridge());
    assert!(PCIeClass::from_u8(6, 0, 0).is_bridge());
    assert!(!PCIeClass::from_u8(2, 0, 0).is_bridge());
}

fn host_bridge_info(bus: u8) -> PCIeInfo {
    let (mut w, p) = nic_image();
    w[2] = 0x0600_0000;
    PCIeInfo::new(ConfigSpace::from_image(w, p).unwrap(), 0, bus, 0, 0).unwrap()
}

#[test]
fn scan_finds_functions_on_root_bus() {
    let probe = |_seg: u16, bus: u8, dev: u8, func: u8, _addr: usize| -> Result<PCIeInfo, PCIeDeviceErr> {
        if bus == 0 && dev == 0 && func == 0 {
            Ok(host_bridge_info(bus))
        } else if bus == 0 && (dev == 1 || dev == 4) && func == 0 {
            Ok(nic_info(bus, dev))
        } else {
            Err(PCIeDeviceErr::InitFailure)
        }
    };
    let tree = scan_tree(0, Some(0xE000_0000), probe, 3, 32);
    assert_eq!(tree.tree.len(), 1);
    assert_eq!(tree.tree[0].bus_number, 0);
    let found: Vec<(u8, u8, Option<u8>)> = tree.tree[0]
        .devices
        .iter()
        .filter_map(|d| match d {
            ChildDevice::Unattached(info) => Some((info.bus_number, info.device_number, info.bridge_bus_number)),
            _ => None,
        })
        .collect();
    assert_eq!(found, vec![(0, 0, Some(0)), (0, 1, Some(0)), (0, 4, Some(0))]);
}

#[test]
fn scan_skips_buses_without_function_zero() {
    let probe = |_seg: u16, bus: u8, dev: u8, _func: u8, _addr: usize| -> Result<PCIeInfo, PCIeDeviceErr> {
        if bus == 2 && dev == 3 {
            Ok(nic_info(bus, dev))
        } else {
            Err(PCIeDeviceErr::InitFailure)
        }
    };
    let tree = scan_tree(0, None, probe, 5, 32);
    assert!(tree.tree.is_empty());
}

#[test]
fn drivers_are_chosen_by_vendor_then_class() {
    assert_eq!(nic_info(1, 0).driver_kind(), DriverKind::Intel);
    let (mut w, p) = nic_image();
    w[0] = 0x1001_1AF4;
    let virtio = PCIeInfo::new(ConfigSpace::from_image(w.clone(), p.clone()).unwrap(), 0, 1, 2, 0).unwrap();
    assert_eq!(virtio.driver_kind(), DriverKind::Virtio);
    w[0] = 0xA808_144D;
    w[2] = 0x0108_0200;
    let nvme = PCIeInfo::new(ConfigSpace::from_image(w.clone(), p.clone()).unwrap(), 0, 1, 3, 0).unwrap();
    assert_eq!(nvme.driver_kind(), DriverKind::Nvme);
    w[2] = 0x0300_0000;
    let other = PCIeInfo::new(ConfigSpace::from_image(w, p).unwrap(), 0, 1, 4, 0).unwrap();
    assert_eq!(other.driver_kind(), DriverKind::Unknown);
    let driver = |_k: DriverKind, _i: PCIeInfo| -> Result<String, PCIeDeviceErr> { Ok("never".to_string()) };
    match other.attach(&driver) {
        Ok(AttachedDevice::Unknown(u)) => assert_eq!(
            u,
            UnknownDevice {
                segment_group: 0,
                bus_number: 1,
                device_number: 4,
                function_number: 0,
                vendor: 0x144D,
                id: 0xA808,
                pcie_class: PCIeClass { class_code: 3, subclass: 0, interface: 0 },
            }
        ),
        _ => panic!("an unknown device is expected"),
    }
}

#[test]
fn init_attaches_what_it_finds() {
    let probe = |_seg: u16, bus: u8, dev: u8, func: u8, _addr: usize| -> Result<PCIeInfo, PCIeDeviceErr> {
        if bus == 0 && dev == 0 && func == 0 {
            Ok(host_bridge_info(bus))
        } else if bus == 0 && dev == 2 && func == 0 {
            Ok(nic_info(bus, dev))
        } else {
            Err(PCIeDeviceErr::InitFailure)
        }
    };
    let driver = |kind: DriverKind, info: PCIeInfo| -> Result<String, PCIeDeviceErr> {
        if info.pcie_class.class_code == 6 {
            Err(PCIeDeviceErr::NotImplemented)
        } else {
            Ok(format!("{kind:?} {}", info.get_bdf()))
        }
    };
    let tree = init(0, Some(0xE000_0000), probe, &driver, 0, 32);
    assert_eq!(tree.tree.len(), 1);
    let devices = &tree.tree[0].devices;
    assert_eq!(devices.len(), 2);
    assert!(matches!(devices[0], ChildDevice::Attaching));
    match &devices[1] {
        ChildDevice::Attached(AttachedDevice::Driver(name)) => assert_eq!(name, "Intel 0000:00:02.0"),
        _ => panic!("the network function should be attached"),
    }
}

#[test]
fn attaching_twice_leaves_attaching() {
    let driver = |_k: DriverKind, _i: PCIeInfo| -> Result<String, PCIeDeviceErr> { Ok("igc".to_string()) };
    let mut child = ChildDevice::Unattached(Box::new(nic_info(0, 1)));
    child.attach(&driver);
    assert!(matches!(child, ChildDevice::Attached(AttachedDevice::Driver(_))));
    child.attach(&driver);
    assert!(matches!(child, ChildDevice::Attaching));
}
