use std::collections::HashMap;

use awkernel::igc::{
    igc_acquire_swfw_sync_i225, igc_get_hw_semaphore_i225, igc_set_eee_i225, igc_set_ltr_i225, igc_init_phy_params_i225, igc_check_for_link_i225, igc_sync_mdic_phy_addr,
    compute_mdic_phy_addr, compute_swfw_take, igc_get_flash_presence_i225, ltr_buffer_size, ltr_thresholds,
    nvm_burst_list, nvm_params_from_eecd, release_swfw_sync_held, speed_as_mbps, tw_system, IgcDevice, IgcDriverErr,
    IgcDevSpec, IgcDuplex, IgcFcInfo, IgcFcMode, IgcHw, IgcMacInfo, IgcMacType, IgcMediaType, IgcNvmInfo, IgcNvmType,
    IgcPhyInfo, IgcPhyType, IgcSpeed,
};
use awkernel::igc_defines::{IGC_I225_PHPM, IGC_DMACR, IGC_LTRMINV, IGC_RXPBS, IGC_EECD, IGC_IPCNFG, IGC_IPCNFG_EEE_1G_AN, IGC_MANC, IGC_MDIC, IGC_MDICNFG, IGC_SWSM, IGC_SW_FW_SYNC};
use awkernel::igc_device::{I225Device, IgcRegisters};

#[derive(Default)]
struct Regs {
    regs: HashMap<usize, u32>,
    semaphore_puts: u32,
}

impl IgcDevice for Regs {
    fn read_reg(&mut self, offset: usize) -> Result<u32, IgcDriverErr> {
        Ok(*self.regs.get(&offset).unwrap_or(&0))
    }
    fn write_reg(&mut self, offset: usize, value: u32) -> Result<(), IgcDriverErr> {
        self.regs.insert(offset, value);
        Ok(())
    }
    fn write_flush(&mut self) -> Result<(), IgcDriverErr> {
        Ok(())
    }
    fn wait_microsec(&mut self, _usec: u64) {}
    fn wait_millisec(&mut self, _msec: u64) {}
    fn phy_read_reg(&mut self, _hw: &IgcHw, _offset: u32) -> Result<u16, IgcDriverErr> {
        Err(IgcDriverErr::Phy)
    }
    fn phy_write_reg(&mut self, _hw: &IgcHw, _offset: u32, _data: u16) -> Result<(), IgcDriverErr> {
        Err(IgcDriverErr::Phy)
    }
    fn phy_acquire(&mut self, _hw: &IgcHw) -> Result<(), IgcDriverErr> {
        Ok(())
    }
    fn phy_release(&mut self, _hw: &IgcHw) -> Result<(), IgcDriverErr> {
        Ok(())
    }
    fn check_reset_block(&mut self) -> Result<(), IgcDriverErr> {
        Ok(())
    }
    fn get_link_up_info(&mut self, _hw: &IgcHw) -> Result<(IgcSpeed, IgcDuplex), IgcDriverErr> {
        Ok((IgcSpeed::Speed1000, IgcDuplex::Full))
    }
    fn config_collision_dist(&mut self, _hw: &IgcHw) -> Result<(), IgcDriverErr> {
        Ok(())
    }
    fn force_speed_duplex(&mut self, _hw: &IgcHw) -> Result<(), IgcDriverErr> {
        Ok(())
    }
    fn config_fc_after_link_up(&mut self, _hw: &IgcHw) -> Result<(), IgcDriverErr> {
        Ok(())
    }
    fn put_hw_semaphore(&mut self) -> Result<(), IgcDriverErr> {
        self.semaphore_puts += 1;
        Ok(())
    }
    fn nvm_acquire(&mut self, _hw: &mut IgcHw) -> Result<(), IgcDriverErr> {
        Ok(())
    }
    fn nvm_release(&mut self, _hw: &mut IgcHw) -> Result<(), IgcDriverErr> {
        Ok(())
    }
    fn read_nvm_eerd(&mut self, _hw: &IgcHw, _offset: u16, _count: u16, _data: &mut Vec<u16>, _start: usize) -> Result<(), IgcDriverErr> {
        Ok(())
    }
    fn disable_pcie_master(&mut self) -> Result<(), IgcDriverErr> {
        Ok(())
    }
    fn get_auto_rd_done(&mut self) -> Result<(), IgcDriverErr> {
        Ok(())
    }
    fn check_alt_mac_addr(&mut self, _hw: &mut IgcHw) -> Result<(), IgcDriverErr> {
        Ok(())
    }
}

#[test]
fn nvm_parameters_from_eecd() {
    assert_eq!(
        nvm_params_from_eecd(0x2800 | 0x400),
        IgcNvmInfo { nvm_type: IgcNvmType::EepromSpi, word_size: 2048, delay_usec: 1, address_bits: 16, opcode_bits: 8, page_size: 32 }
    );
    assert_eq!(
        nvm_params_from_eecd(0x7800),
        IgcNvmInfo { nvm_type: IgcNvmType::EepromSpi, word_size: 0x8000, delay_usec: 1, address_bits: 8, opcode_bits: 8, page_size: 128 }
    );
    assert_eq!(nvm_params_from_eecd(0).word_size, 64);
}

#[test]
fn link_speeds_in_mbps() {
    assert_eq!(speed_as_mbps(IgcSpeed::Speed10), 10);
    assert_eq!(speed_as_mbps(IgcSpeed::Speed2500), 2500);
}

#[test]
fn eee_wake_time_by_speed() {
    assert_eq!(tw_system(IgcSpeed::Speed100, 0x1234), 9000);
    assert_eq!(tw_system(IgcSpeed::Speed1000, 0x1234), 26000);
}

#[test]
fn ltr_buffer_accounts_for_mtu_or_coalescing() {
    assert_eq!(ltr_buffer_size(34, 0, 1500), Ok(266528));
    assert_eq!(ltr_buffer_size(34, 0x8002_0000, 1500), Ok(262144));
    assert_eq!(ltr_buffer_size(34, 0x8040_0000, 1500), Err(IgcDriverErr::Config));
    assert_eq!(ltr_buffer_size(1, 0, 2000), Err(IgcDriverErr::Config));
}

#[test]
fn ltr_thresholds_pick_scales() {
    assert_eq!(ltr_thresholds(266528, IgcSpeed::Speed1000, 26000), (260, 2, 285, 2));
    assert_eq!(ltr_thresholds(266528, IgcSpeed::Speed10, 26000), (813, 3, 814, 3));
}

#[test]
fn phy_address_from_mdicnfg() {
    assert_eq!(compute_mdic_phy_addr(0, 1), (1, 0x0020_0000));
    assert_eq!(compute_mdic_phy_addr(0x0060_0001, 1), (3, 0x0060_0001));
}

#[test]
fn swfw_lock_only_when_free() {
    assert_eq!(compute_swfw_take(0, 0x2), Some(0x2));
    assert_eq!(compute_swfw_take(0x1, 0x2), Some(0x3));
    assert_eq!(compute_swfw_take(0x2_0000, 0x2), None);
    assert_eq!(compute_swfw_take(0x2, 0x2), None);
}

#[test]
fn nvm_accesses_in_bursts_of_512() {
    assert_eq!(nvm_burst_list(1100), vec![(0, 512), (512, 512), (1024, 76)]);
    assert_eq!(nvm_burst_list(512), vec![(0, 512)]);
    assert!(nvm_burst_list(0).is_empty());
}

#[test]
fn releasing_swfw_clears_only_software_bits_of_mask() {
    let mut dev = Regs::default();
    dev.regs.insert(IGC_SW_FW_SYNC, 0x0003_0007);
    assert_eq!(release_swfw_sync_held(&mut dev, 0x2), Ok(()));
    assert_eq!(dev.regs[&IGC_SW_FW_SYNC], 0x0003_0005);
    assert_eq!(dev.semaphore_puts, 1);
}

#[test]
fn flash_presence_from_eec() {
    let mut dev = Regs::default();
    assert_eq!(igc_get_flash_presence_i225(&mut dev), Ok(false));
    dev.regs.insert(IGC_EECD, 0x0008_0100);
    assert_eq!(igc_get_flash_presence_i225(&mut dev), Ok(true));
}

struct Mmio {
    regs: HashMap<usize, u32>,
}

impl IgcRegisters for Mmio {
    fn read_reg(&mut self, offset: usize) -> Result<u32, IgcDriverErr> {
        Ok(*self.regs.get(&offset).unwrap_or(&0))
    }
    fn write_reg(&mut self, offset: usize, value: u32) -> Result<(), IgcDriverErr> {
        // MDIC answers at once: ready, with the register's data 0x1234.
        let stored = if offset == IGC_MDIC { (value & 0xffff_0000) | 0x1000_0000 | 0x1234 } else { value };
        self.regs.insert(offset, stored);
        Ok(())
    }
    fn write_flush(&mut self) -> Result<(), IgcDriverErr> {
        Ok(())
    }
    fn wait_microsec(&mut self, _usec: u64) {}
    fn wait_millisec(&mut self, _msec: u64) {}
}

fn copper_hw() -> IgcHw {
    IgcHw {
        mac: IgcMacInfo {
            mac_type: IgcMacType::I225,
            mta_reg_count: 128,
            rar_entry_count: 16,
            asf_firmware_present: true,
            autoneg: true,
            get_link_status: false,
        },
        phy: IgcPhyInfo {
            media_type: IgcMediaType::Copper,
            phy_type: IgcPhyType::I225,
            addr: 1,
            id: 0,
            revision: 0,
            reset_delay_us: 100,
            autoneg_advertised: 0,
            autoneg_mask: 0,
            autoneg_wait_to_complete: false,
            speed_downgraded: false,
        },
        nvm: nvm_params_from_eecd(0),
        dev_spec: IgcDevSpec { clear_semaphore_once: false, eee_disable: false, mtu: 1500 },
        fc: IgcFcInfo { current_mode: IgcFcMode::Full },
    }
}

#[test]
fn device_reads_mdi_registers_under_the_phy_lock() {
    let mut dev = I225Device::new(Mmio { regs: HashMap::new() });
    let hw = copper_hw();
    assert_eq!(dev.phy_read_reg(&hw, 2), Ok(0x1234));
    // The PHY lock was given back and the semaphore released.
    assert_eq!(dev.mac.inner.regs.regs[&IGC_SW_FW_SYNC] & 0x2, 0);
    // A blocked reset is reported from MANC.
    dev.mac.inner.regs.regs.insert(IGC_MANC, 0x0004_0000);
    assert_eq!(dev.check_reset_block(), Err(IgcDriverErr::BlkPhyReset));
    assert_eq!(dev.force_speed_duplex(&hw), Err(IgcDriverErr::NotImplemented));
}

#[test]
fn hw_semaphore_is_latched_and_swfw_bits_taken() {
    let mut dev = Regs::default();
    let mut hw = copper_hw();
    assert_eq!(igc_get_hw_semaphore_i225(&mut dev, &mut hw), Ok(()));
    assert_eq!(dev.regs[&IGC_SWSM] & 0x2, 0x2);
    let mut dev = Regs::default();
    assert_eq!(igc_acquire_swfw_sync_i225(&mut dev, &mut hw, 0x2), Ok(()));
    assert_eq!(dev.regs[&IGC_SW_FW_SYNC], 0x2);
    assert_eq!(dev.semaphore_puts, 1);
}

#[test]
fn mdicnfg_names_the_default_phy_address_when_unset() {
    let mut dev = Regs::default();
    let mut hw = copper_hw();
    let (addr, reg) = compute_mdic_phy_addr(0, 1);
    assert_eq!(igc_sync_mdic_phy_addr(&mut dev, &mut hw, 1), Ok(addr));
    assert_eq!(hw.phy.addr, addr);
    assert_eq!(dev.regs[&IGC_MDICNFG], reg);
}

#[test]
fn eee_setting_is_written_on_copper_i225() {
    let mut dev = Regs::default();
    let hw = copper_hw();
    assert_eq!(igc_set_eee_i225(&mut dev, &hw, true, true, true), Ok(()));
    assert_eq!(dev.regs[&IGC_IPCNFG] & IGC_IPCNFG_EEE_1G_AN, IGC_IPCNFG_EEE_1G_AN);
    let mut other = copper_hw();
    other.phy.media_type = IgcMediaType::Unknown;
    let mut dev = Regs::default();
    assert_eq!(igc_set_eee_i225(&mut dev, &other, true, true, true), Ok(()));
    assert!(dev.regs.is_empty());
}

#[test]
fn ltr_takes_the_coalescing_threshold_from_dmacr() {
    let mut dev = Regs::default();
    let hw = copper_hw();
    dev.regs.insert(IGC_RXPBS, 0x20);
    dev.regs.insert(IGC_DMACR, 0x8000_0000 | (0x21 << 16));
    assert_eq!(igc_set_ltr_i225(&mut dev, &hw, true), Err(IgcDriverErr::Config));
    dev.regs.insert(IGC_DMACR, 0x8000_0000 | (0x10 << 16));
    assert_eq!(igc_set_ltr_i225(&mut dev, &hw, true), Ok(()));
    assert_ne!(dev.regs[&IGC_LTRMINV], 0);
    assert_eq!(igc_set_ltr_i225(&mut Regs::default(), &hw, false), Ok(()));
}

#[test]
fn phy_setup_stops_at_the_first_failing_stage() {
    let mut dev = Regs::default();
    let mut hw = copper_hw();
    dev.regs.insert(IGC_I225_PHPM, 0x0420);
    // The mock's PHY registers fail, so powering the PHY up fails.
    assert_eq!(igc_init_phy_params_i225(&mut dev, &mut hw), Err(IgcDriverErr::Phy));
    assert_eq!(dev.regs[&IGC_I225_PHPM], 0);
    assert!(dev.regs.contains_key(&IGC_MDICNFG));
    let mut fiber = copper_hw();
    fiber.phy.media_type = IgcMediaType::Unknown;
    assert_eq!(igc_init_phy_params_i225(&mut Regs::default(), &mut fiber), Ok(()));
    assert_eq!(fiber.phy.phy_type, IgcPhyType::Absent);
}

#[test]
fn link_check_reports_a_failing_poll() {
    let mut hw = copper_hw();
    hw.mac.get_link_status = true;
    assert_eq!(igc_check_for_link_i225(&mut Regs::default(), &mut hw), Err(IgcDriverErr::Phy));
    hw.mac.get_link_status = false;
    assert_eq!(igc_check_for_link_i225(&mut Regs::default(), &mut hw), Ok(()));
}
