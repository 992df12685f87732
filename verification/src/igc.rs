//! Intel I225 (igc) controller: NVM and PHY parameters, semaphores, MDI
//! access, auto-negotiation advertisement, EEE and latency tolerance
//! reporting.
//!
//! Register values are computed by the functions with exact contracts; the
//! functions that talk to the hardware do so through `IgcDevice`, read what
//! they need, and write what those functions compute.
use vstd::prelude::*;
use crate::igc_defines::{
    IGC_CTRL, IGC_EECD, IGC_MDIC, IGC_RCTL, IGC_TCTL, IGC_ICR, IGC_IMC, IGC_LTRC, IGC_RXPBS,
    IGC_DMACR, IGC_MDICNFG, IGC_I225_PHPM, IGC_EEER, IGC_EEE_SU, IGC_IPCNFG, IGC_SWSM,
    IGC_SW_FW_SYNC, IGC_LTRMINV, IGC_LTRMAXV, IGC_SRWR, PHY_CONTROL, PHY_STATUS, PHY_ID1, PHY_ID2,
    PHY_AUTONEG_ADV, PHY_1000T_CTRL, IGC_MMDAC, IGC_MMDAAD, IGC_MMDAC_FUNC_DATA,
    MULTIGBT_AN_CTRL_REG, IGC_CTRL_SLU, IGC_CTRL_FRCSPD, IGC_CTRL_FRCDPX, IGC_CTRL_DEV_RST,
    IGC_CTRL_PHY_RST, IGC_TCTL_PSP, IGC_EECD_FLASH_DETECTED_I225, IGC_EECD_SIZE_EX_MASK,
    IGC_EECD_SIZE_EX_SHIFT, NVM_WORD_SIZE_BASE_SHIFT, IGC_EECD_ADDR_BITS, IGC_SWSM_SMBI,
    IGC_SWSM_SWESMBI, IGC_LTRC_EEEMS_EN, IGC_TW_SYSTEM_100_MASK, IGC_TW_SYSTEM_100_SHIFT,
    IGC_TW_SYSTEM_1000_MASK, IGC_RXPBS_SIZE_I225_MASK, IGC_DMACR_DMAC_EN, IGC_DMACR_DMACTHR_MASK,
    IGC_DMACR_DMACTHR_SHIFT, IGC_LTRMINV_SCALE_1024, IGC_LTRMINV_SCALE_32768,
    IGC_LTRMAXV_SCALE_1024, IGC_LTRMAXV_SCALE_32768, IGC_LTRMINV_LTRV_MASK, IGC_LTRMINV_LSNP_REQ,
    IGC_LTRMINV_SCALE_SHIFT, IGC_LTRMAXV_LTRV_MASK, IGC_LTRMAXV_LSNP_REQ, IGC_LTRMAXV_SCALE_SHIFT,
    IGC_EERD_EEWR_MAX_COUNT, IGC_NVM_RW_ADDR_SHIFT, IGC_NVM_RW_REG_DATA, IGC_NVM_RW_REG_START,
    IGC_NVM_RW_REG_DONE, IGC_IPCNFG_EEE_100M_AN, IGC_IPCNFG_EEE_1G_AN, IGC_IPCNFG_EEE_2_5G_AN,
    IGC_EEER_TX_LPI_EN, IGC_EEER_RX_LPI_EN, IGC_EEER_LPI_FC, MAX_PHY_REG_ADDRESS,
    IGC_MDIC_REG_SHIFT, IGC_MDIC_PHY_SHIFT, IGC_MDIC_OP_READ, IGC_MDIC_OP_WRITE, IGC_MDIC_READY,
    IGC_MDIC_ERROR, IGC_MDIC_REG_MASK, IGC_GEN_POLL_TIMEOUT, IGC_MDICNFG_PHY_MASK,
    IGC_MDICNFG_PHY_SHIFT, GPY_MMD_MASK, GPY_MMD_SHIFT, GPY_REG_MASK, PHY_REVISION_MASK,
    IGC_I225_PHPM_GO_LINKD, IGC_I225_PHPM_RST_COMPL, IGC_I225_PHPM_ULP, MII_CR_POWER_DOWN,
    MII_CR_AUTO_NEG_EN, MII_CR_RESTART_AUTO_NEG, MII_SR_LINK_STATUS, MII_SR_AUTONEG_COMPLETE,
    PHY_AUTO_NEG_LIMIT, COPPER_LINK_UP_LIMIT, ADVERTISE_10_HALF, ADVERTISE_10_FULL,
    ADVERTISE_100_HALF, ADVERTISE_100_FULL, ADVERTISE_1000_FULL, ADVERTISE_2500_FULL,
    AUTONEG_ADVERTISE_SPEED_DEFAULT_2500, NWAY_AR_10T_HD_CAPS, NWAY_AR_10T_FD_CAPS,
    NWAY_AR_100TX_HD_CAPS, NWAY_AR_100TX_FD_CAPS, NWAY_AR_PAUSE, NWAY_AR_ASM_DIR,
    CR_1000T_HD_CAPS, CR_1000T_FD_CAPS, CR_2500T_FD_CAPS,
};

verus! {

#[derive(Debug, Clone, Copy, PartialEq, Eq, Structural)]
pub enum IgcDriverErr {
    NVM,
    Phy,
    Config,
    Param,
    MacInit,
    Reset,
    Master,
    Host,
    BlkPhyReset,
    SwfwSync,
    NotImplemented,
    ReadReg,
    WriteReg,
}

#[derive(Debug, Clone, Copy, PartialEq, Eq, Structural)]
pub enum IgcMediaType {
    Unknown,
    Copper,
}

#[derive(Debug, Clone, Copy, PartialEq, Eq, Structural)]
pub enum IgcPhyType {
    Unknown,
    /// No PHY (non-copper media).
    Absent,
    I225,
}

#[derive(Debug, Clone, Copy, PartialEq, Eq, Structural)]
pub enum IgcNvmType {
    Unknown,
    EepromSpi,
    FlashHw,
    Invm,
}

#[derive(Debug, Clone, Copy, PartialEq, Eq, Structural)]
pub enum IgcMacType {
    Undefined,
    I225,
}

/// Flow control modes.
#[derive(Debug, Clone, Copy, PartialEq, Eq, Structural)]
pub enum IgcFcMode {
    /// Flow control disabled.
    Disabled,
    RxPause,
    TxPause,
    Full,
    Default,
}

#[derive(Debug, Clone, Copy, PartialEq, Eq, Structural)]
pub enum IgcSpeed {
    Speed10,
    Speed100,
    Speed1000,
    Speed2500,
}

#[derive(Debug, Clone, Copy, PartialEq, Eq, Structural)]
pub enum IgcDuplex {
    Half,
    Full,
}

/// Link speed in Mbps.
pub open spec fn speed_mbps(s: IgcSpeed) -> u32 {
    match s {
        IgcSpeed::Speed10 => 10,
        IgcSpeed::Speed100 => 100,
        IgcSpeed::Speed1000 => 1000,
        IgcSpeed::Speed2500 => 2500,
    }
}

pub fn speed_as_mbps(s: IgcSpeed) -> (m: u32)
    ensures
        m == speed_mbps(s),
{
    match s {
        IgcSpeed::Speed10 => 10,
        IgcSpeed::Speed100 => 100,
        IgcSpeed::Speed1000 => 1000,
        IgcSpeed::Speed2500 => 2500,
    }
}

#[derive(Debug, Clone, Copy, PartialEq, Eq, Structural)]
pub struct IgcNvmInfo {
    pub nvm_type: IgcNvmType,
    pub word_size: u16,
    pub delay_usec: u16,
    pub address_bits: u16,
    pub opcode_bits: u16,
    pub page_size: u16,
}

#[derive(Debug, Clone, Copy, PartialEq, Eq, Structural)]
pub struct IgcPhyInfo {
    pub media_type: IgcMediaType,
    pub phy_type: IgcPhyType,
    pub addr: u32,
    pub id: u32,
    pub revision: u32,
    pub reset_delay_us: u32,
    pub autoneg_advertised: u16,
    pub autoneg_mask: u16,
    pub autoneg_wait_to_complete: bool,
    pub speed_downgraded: bool,
}

#[derive(Debug, Clone, Copy, PartialEq, Eq, Structural)]
pub struct IgcMacInfo {
    pub mac_type: IgcMacType,
    pub mta_reg_count: u16,
    pub rar_entry_count: u16,
    pub asf_firmware_present: bool,
    pub autoneg: bool,
    pub get_link_status: bool,
}

#[derive(Debug, Clone, Copy, PartialEq, Eq, Structural)]
pub struct IgcDevSpec {
    pub clear_semaphore_once: bool,
    pub eee_disable: bool,
    pub mtu: u32,
}

#[derive(Debug, Clone, Copy, PartialEq, Eq, Structural)]
pub struct IgcFcInfo {
    pub current_mode: IgcFcMode,
}

/// Driver-side state of a controller.
#[derive(Debug, Clone, Copy, PartialEq, Eq, Structural)]
pub struct IgcHw {
    pub mac: IgcMacInfo,
    pub phy: IgcPhyInfo,
    pub nvm: IgcNvmInfo,
    pub dev_spec: IgcDevSpec,
    pub fc: IgcFcInfo,
}

/// Receive address register entries of the base MAC.
pub const IGC_RAR_ENTRIES_BASE: u16 = 16;

/// One call made to a controller, with its arguments and its answer.
#[derive(Debug, Clone, Copy)]
pub enum IgcAccess {
    Read { offset: usize, r: Result<u32, IgcDriverErr> },
    Write { offset: usize, value: u32, r: Result<(), IgcDriverErr> },
    Flush { r: Result<(), IgcDriverErr> },
    WaitUs { usec: u64 },
    WaitMs { msec: u64 },
    PhyRead { offset: u32, r: Result<u16, IgcDriverErr> },
    PhyWrite { offset: u32, data: u16, r: Result<(), IgcDriverErr> },
    PhyAcquire { r: Result<(), IgcDriverErr> },
    PhyRelease { r: Result<(), IgcDriverErr> },
    CheckResetBlock { r: Result<(), IgcDriverErr> },
    LinkUpInfo { r: Result<(IgcSpeed, IgcDuplex), IgcDriverErr> },
    ConfigCollisionDist { r: Result<(), IgcDriverErr> },
    ForceSpeedDuplex { r: Result<(), IgcDriverErr> },
    ConfigFcAfterLinkUp { r: Result<(), IgcDriverErr> },
    PutHwSemaphore { r: Result<(), IgcDriverErr> },
    NvmAcquire { r: Result<(), IgcDriverErr> },
    NvmRelease { r: Result<(), IgcDriverErr> },
    ReadNvmEerd { offset: u16, count: u16, start: usize, r: Result<(), IgcDriverErr> },
    DisablePcieMaster { r: Result<(), IgcDriverErr> },
    GetAutoRdDone { r: Result<(), IgcDriverErr> },
    CheckAltMacAddr { r: Result<(), IgcDriverErr> },
}

/// Access to a controller: its MAC registers, delays, its PHY and its NVM.
/// What the device answers is not assumed; each call is recorded, with its
/// arguments and answer, in `accesses`, so that contracts can say which calls
/// a function makes and what it does with the answers.
pub trait IgcDevice {
    /// The calls made to the device so far, oldest first. An
    /// implementation verified against the contracts below defines it: with
    /// the default empty log they cannot be met.
    closed spec fn accesses(&self) -> Seq<IgcAccess> {
        Seq::empty()
    }

    fn read_reg(&mut self, offset: usize) -> (r: Result<u32, IgcDriverErr>)
        ensures
            final(self).accesses() == old(self).accesses().push(IgcAccess::Read { offset, r });
    fn write_reg(&mut self, offset: usize, value: u32) -> (r: Result<(), IgcDriverErr>)
        ensures
            final(self).accesses() == old(self).accesses().push(IgcAccess::Write { offset, value, r });
    fn write_flush(&mut self) -> (r: Result<(), IgcDriverErr>)
        ensures
            final(self).accesses() == old(self).accesses().push(IgcAccess::Flush { r });
    fn wait_microsec(&mut self, usec: u64)
        ensures
            final(self).accesses() == old(self).accesses().push(IgcAccess::WaitUs { usec });
    fn wait_millisec(&mut self, msec: u64)
        ensures
            final(self).accesses() == old(self).accesses().push(IgcAccess::WaitMs { msec });
    /// Reads a PHY register (through MDI or the GPY access path).
    fn phy_read_reg(&mut self, hw: &IgcHw, offset: u32) -> (r: Result<u16, IgcDriverErr>)
        ensures
            final(self).accesses() == old(self).accesses().push(IgcAccess::PhyRead { offset, r });
    /// Writes a PHY register.
    fn phy_write_reg(&mut self, hw: &IgcHw, offset: u32, data: u16) -> (r: Result<(), IgcDriverErr>)
        ensures
            final(self).accesses() == old(self).accesses().push(IgcAccess::PhyWrite { offset, data, r });
    fn phy_acquire(&mut self, hw: &IgcHw) -> (r: Result<(), IgcDriverErr>)
        ensures
            final(self).accesses() == old(self).accesses().push(IgcAccess::PhyAcquire { r });
    fn phy_release(&mut self, hw: &IgcHw) -> (r: Result<(), IgcDriverErr>)
        ensures
            final(self).accesses() == old(self).accesses().push(IgcAccess::PhyRelease { r });
    fn check_reset_block(&mut self) -> (r: Result<(), IgcDriverErr>)
        ensures
            final(self).accesses() == old(self).accesses().push(IgcAccess::CheckResetBlock { r });
    fn get_link_up_info(&mut self, hw: &IgcHw) -> (r: Result<(IgcSpeed, IgcDuplex), IgcDriverErr>)
        ensures
            final(self).accesses() == old(self).accesses().push(IgcAccess::LinkUpInfo { r });
    fn config_collision_dist(&mut self, hw: &IgcHw) -> (r: Result<(), IgcDriverErr>)
        ensures
            final(self).accesses() == old(self).accesses().push(IgcAccess::ConfigCollisionDist { r });
    fn force_speed_duplex(&mut self, hw: &IgcHw) -> (r: Result<(), IgcDriverErr>)
        ensures
            final(self).accesses() == old(self).accesses().push(IgcAccess::ForceSpeedDuplex { r });
    fn config_fc_after_link_up(&mut self, hw: &IgcHw) -> (r: Result<(), IgcDriverErr>)
        ensures
            final(self).accesses() == old(self).accesses().push(IgcAccess::ConfigFcAfterLinkUp { r });
    /// Releases the software and firmware semaphore bits.
    fn put_hw_semaphore(&mut self) -> (r: Result<(), IgcDriverErr>)
        ensures
            final(self).accesses() == old(self).accesses().push(IgcAccess::PutHwSemaphore { r });
    /// Takes the NVM for the driver.
    fn nvm_acquire(&mut self, hw: &mut IgcHw) -> (r: Result<(), IgcDriverErr>)
        ensures
            final(self).accesses() == old(self).accesses().push(IgcAccess::NvmAcquire { r });
    /// Gives the NVM back.
    fn nvm_release(&mut self, hw: &mut IgcHw) -> (r: Result<(), IgcDriverErr>)
        ensures
            final(self).accesses() == old(self).accesses().push(IgcAccess::NvmRelease { r });
    /// Reads `count` words at `offset` through EERD into `data` from index
    /// `start` on.
    fn read_nvm_eerd(&mut self, hw: &IgcHw, offset: u16, count: u16, data: &mut Vec<u16>, start: usize) -> (r: Result<(), IgcDriverErr>)
        ensures
            final(self).accesses() == old(self).accesses().push(IgcAccess::ReadNvmEerd { offset, count, start, r });
    /// Stops the device from mastering PCIe.
    fn disable_pcie_master(&mut self) -> (r: Result<(), IgcDriverErr>)
        ensures
            final(self).accesses() == old(self).accesses().push(IgcAccess::DisablePcieMaster { r });
    /// Waits for the NVM auto-read after reset.
    fn get_auto_rd_done(&mut self) -> (r: Result<(), IgcDriverErr>)
        ensures
            final(self).accesses() == old(self).accesses().push(IgcAccess::GetAutoRdDone { r });
    /// Installs an alternate MAC address, if the NVM holds one.
    fn check_alt_mac_addr(&mut self, hw: &mut IgcHw) -> (r: Result<(), IgcDriverErr>)
        ensures
            final(self).accesses() == old(self).accesses().push(IgcAccess::CheckAltMacAddr { r });
}

/// Extending a log is transitive.
pub proof fn lemma_extends_log_trans(a: Seq<IgcAccess>, b: Seq<IgcAccess>, c: Seq<IgcAccess>)
    requires
        extends_log(a, b),
        extends_log(b, c),
    ensures
        extends_log(a, c),
{
    assert(c.take(a.len() as int) =~= b.take(a.len() as int));
}

/// The calls made after `before`, when `after` extends it.
pub open spec fn new_accesses(before: Seq<IgcAccess>, after: Seq<IgcAccess>) -> Seq<IgcAccess> {
    after.skip(before.len() as int)
}

/// `after` is `before` followed by more calls.
pub open spec fn extends_log(before: Seq<IgcAccess>, after: Seq<IgcAccess>) -> bool {
    before.len() <= after.len() && after.take(before.len() as int) == before
}

// ---------------------------------------------------------------------------
// NVM parameters.

/// Exponent of the NVM word size encoded in EECD, capped at 15.
pub open spec fn nvm_size_shift(eecd: u32) -> u32 {
    let size = ((eecd & IGC_EECD_SIZE_EX_MASK) >> IGC_EECD_SIZE_EX_SHIFT) + NVM_WORD_SIZE_BASE_SHIFT;
    if size > 15 { 15 } else { size as u32 }
}

/// NVM parameters of an I225 from its EECD register: an SPI EEPROM of
/// `2^size` words; 16 address bits and 32-word pages when EECD says so (8 and
/// 8 otherwise); 128-word pages for the largest size.
pub open spec fn nvm_params(eecd: u32) -> IgcNvmInfo {
    let word_size = (1u32 << nvm_size_shift(eecd)) as u16;
    let wide = eecd & IGC_EECD_ADDR_BITS != 0;
    IgcNvmInfo {
        nvm_type: IgcNvmType::EepromSpi,
        word_size,
        delay_usec: 1,
        address_bits: if wide { 16 } else { 8 },
        opcode_bits: 8,
        page_size: if word_size == 0x8000 { 128 } else if wide { 32 } else { 8 },
    }
}

/// Computes the NVM parameters from EECD.
pub fn nvm_params_from_eecd(eecd: u32) -> (p: IgcNvmInfo)
    ensures
        p == nvm_params(eecd),
{
    let field = (eecd & IGC_EECD_SIZE_EX_MASK) >> IGC_EECD_SIZE_EX_SHIFT;
    assert(field <= 15) by (bit_vector)
        requires field == (eecd & 0x7800u32) >> 11u32;
    let size = field + NVM_WORD_SIZE_BASE_SHIFT;
    let size: u32 = if size > 15 { 15 } else { size };
    assert(size <= 15);
    assert((1u32 << size) <= 0x8000) by (bit_vector)
        requires size <= 15;
    let word_size = (1u32 << size) as u16;
    let wide = eecd & IGC_EECD_ADDR_BITS != 0;
    let mut page_size: u16 = if wide { 32 } else { 8 };
    let address_bits: u16 = if wide { 16 } else { 8 };
    if word_size == 0x8000 {
        page_size = 128;
    }
    IgcNvmInfo { nvm_type: IgcNvmType::EepromSpi, word_size, delay_usec: 1, address_bits, opcode_bits: 8, page_size }
}

/// Reads EECD and sets the NVM parameters from it.
pub fn igc_init_nvm_params_i225<D: IgcDevice>(dev: &mut D, hw: &mut IgcHw) -> (r: Result<(), IgcDriverErr>)
    ensures
        final(dev).accesses().drop_last() == old(dev).accesses(),
        final(dev).accesses().last() matches IgcAccess::Read { offset, r: a } && offset == IGC_EECD && match a {
            Ok(eecd) => r is Ok && final(hw).nvm == nvm_params(eecd),
            Err(e) => r == Err::<(), IgcDriverErr>(e) && *final(hw) == *old(hw),
        },
        final(hw).mac == old(hw).mac && final(hw).phy == old(hw).phy && final(hw).dev_spec == old(hw).dev_spec,
{
    let eecd = match dev.read_reg(IGC_EECD) {
        Ok(v) => v,
        Err(e) => return Err(e),
    };
    hw.nvm = nvm_params_from_eecd(eecd);
    Ok(())
}

/// Whether EECD reports flash.
pub fn flash_present(eecd: u32) -> (b: bool)
    ensures
        b == (eecd & IGC_EECD_FLASH_DETECTED_I225 != 0),
{
    eecd & IGC_EECD_FLASH_DETECTED_I225 != 0
}

/// Reads whether flash is present.
pub fn igc_get_flash_presence_i225<D: IgcDevice>(dev: &mut D) -> (r: Result<bool, IgcDriverErr>)
    ensures
        final(dev).accesses().len() == old(dev).accesses().len() + 1,
        final(dev).accesses().drop_last() == old(dev).accesses(),
        final(dev).accesses().last() matches IgcAccess::Read { offset, r: a } && offset == IGC_EECD
            && r == (match a { Ok(v) => Ok(v & IGC_EECD_FLASH_DETECTED_I225 != 0), Err(e) => Err(e) }),
{
    match dev.read_reg(IGC_EECD) {
        Ok(eec) => Ok(flash_present(eec)),
        Err(e) => Err(e),
    }
}

/// MAC parameters of an I225: copper media, 128 multicast table registers,
/// the base number of receive address entries, one permitted clear of the
/// software semaphore, and manageability firmware present.
pub fn igc_init_mac_params_i225(hw: &mut IgcHw)
    ensures
        *final(hw) == (IgcHw {
            phy: IgcPhyInfo { media_type: IgcMediaType::Copper, ..old(hw).phy },
            mac: IgcMacInfo { mta_reg_count: 128, rar_entry_count: IGC_RAR_ENTRIES_BASE, asf_firmware_present: true, ..old(hw).mac },
            dev_spec: IgcDevSpec { clear_semaphore_once: true, ..old(hw).dev_spec },
            ..*old(hw)
        }),
{
    hw.phy.media_type = IgcMediaType::Copper;
    hw.mac.mta_reg_count = 128;
    hw.mac.rar_entry_count = IGC_RAR_ENTRIES_BASE;
    hw.dev_spec.clear_semaphore_once = true;
    hw.mac.asf_firmware_present = true;
}


// ---------------------------------------------------------------------------
// Latency tolerance reporting.

/// EEE wake time of the system in nanoseconds for `speed`, from EEE_SU.
pub open spec fn tw_system_ns(speed: IgcSpeed, eee_su: u32) -> u32 {
    if speed == IgcSpeed::Speed100 {
        (((eee_su & IGC_TW_SYSTEM_100_MASK) >> IGC_TW_SYSTEM_100_SHIFT) * 500) as u32
    } else {
        ((eee_su & IGC_TW_SYSTEM_1000_MASK) * 500) as u32
    }
}

pub fn tw_system(speed: IgcSpeed, eee_su: u32) -> (t: u32)
    ensures
        t == tw_system_ns(speed, eee_su),
        t <= 255 * 500,
{
    if speed == IgcSpeed::Speed100 {
        let f = (eee_su & IGC_TW_SYSTEM_100_MASK) >> IGC_TW_SYSTEM_100_SHIFT;
        assert(f <= 255) by (bit_vector)
            requires f == (eee_su & 0xFF00u32) >> 8u32;
        f * 500
    } else {
        let f = eee_su & IGC_TW_SYSTEM_1000_MASK;
        assert(f <= 255) by (bit_vector)
            requires f == eee_su & 0xFFu32;
        f * 500
    }
}

/// Receive buffer space in bits that LTR accounts for: the packet buffer less
/// the DMA coalescing threshold when coalescing is on, or less the MTU
/// otherwise; a configuration error when that would be negative.
pub open spec fn ltr_buffer_bits(rxpbs: u32, dmacr: u32, mtu: u32) -> Result<u32, IgcDriverErr> {
    dmac_buffer_bits(rxpbs, dmacr & IGC_DMACR_DMAC_EN != 0, dmacr, mtu)
}

/// The LTR buffer size, in bits, from RXPBS: with DMA coalescing on, the
/// buffer less the coalescing threshold that `dmacr` holds; otherwise the
/// buffer less the MTU. A configuration error when that is negative.
pub open spec fn dmac_buffer_bits(rxpbs: u32, dmac_enabled: bool, dmacr: u32, mtu: u32) -> Result<u32, IgcDriverErr> {
    let size = rxpbs & IGC_RXPBS_SIZE_I225_MASK;
    if dmac_enabled {
        let thr = (dmacr & IGC_DMACR_DMACTHR_MASK) >> IGC_DMACR_DMACTHR_SHIFT;
        if thr > size { Err(IgcDriverErr::Config) } else { Ok(((size - thr) * 1024 * 8) as u32) }
    } else {
        if mtu > size * 1024 { Err(IgcDriverErr::Config) } else { Ok(((size * 1024 - mtu) * 8) as u32) }
    }
}

pub fn ltr_buffer_size(rxpbs: u32, dmacr: u32, mtu: u32) -> (r: Result<u32, IgcDriverErr>)
    ensures
        r == ltr_buffer_bits(rxpbs, dmacr, mtu),
        r matches Ok(b) ==> b <= 63 * 1024 * 8,
{
    dmac_buffer_size(rxpbs, dmacr & IGC_DMACR_DMAC_EN != 0, dmacr, mtu)
}

/// See `dmac_buffer_bits`.
fn dmac_buffer_size(rxpbs: u32, dmac_enabled: bool, dmacr: u32, mtu: u32) -> (r: Result<u32, IgcDriverErr>)
    ensures
        r == dmac_buffer_bits(rxpbs, dmac_enabled, dmacr, mtu),
        r matches Ok(b) ==> b <= 63 * 1024 * 8,
{
    let size = rxpbs & IGC_RXPBS_SIZE_I225_MASK;
    assert(size <= 63) by (bit_vector)
        requires size == rxpbs & 0x3Fu32;
    if dmac_enabled {
        let thr = (dmacr & IGC_DMACR_DMACTHR_MASK) >> IGC_DMACR_DMACTHR_SHIFT;
        match size.checked_sub(thr) {
            Some(d) => Ok(d * 1024 * 8),
            None => Err(IgcDriverErr::Config),
        }
    } else {
        match (size * 1024).checked_sub(mtu) {
            Some(d) => Ok(d * 8),
            None => Err(IgcDriverErr::Config),
        }
    }
}

/// LTR thresholds for a buffer of `bits` at `speed` with EEE wake time
/// `tw`: the minimum is the time to fill the buffer (ns), the maximum adds
/// `tw`; each is expressed in units of 1024 ns, or 32768 ns when it does not
/// fit in 10 bits. Returns (min value, min scale, max value, max scale).
pub open spec fn ltr_values(bits: u32, speed: IgcSpeed, tw: u32) -> (u32, u32, u32, u32) {
    let ltr_min = ((1000 * bits) / (speed_mbps(speed) as int)) as u32;
    let ltr_max = (ltr_min + tw) as u32;
    let scale_min = if ltr_min / 1024 < 1024 { IGC_LTRMINV_SCALE_1024 } else { IGC_LTRMINV_SCALE_32768 };
    let scale_max = if ltr_max / 1024 < 1024 { IGC_LTRMAXV_SCALE_1024 } else { IGC_LTRMAXV_SCALE_32768 };
    let min_v = ltr_min / (if scale_min == IGC_LTRMINV_SCALE_1024 { 1024u32 } else { 32768u32 });
    let max_v = ltr_max / (if scale_max == IGC_LTRMAXV_SCALE_1024 { 1024u32 } else { 32768u32 });
    (min_v, scale_min, max_v, scale_max)
}

pub fn ltr_thresholds(bits: u32, speed: IgcSpeed, tw: u32) -> (r: (u32, u32, u32, u32))
    requires
        bits <= 63 * 1024 * 8,
        tw <= 255 * 500,
    ensures
        r == ltr_values(bits, speed, tw),
{
    let mbps = speed_as_mbps(speed);
    let ltr_min = (1000 * bits) / mbps;
    assert(ltr_min <= 1000 * bits) by (nonlinear_arith)
        requires ltr_min == (1000 * bits) / (mbps as int), mbps >= 10;
    let ltr_max = ltr_min + tw;
    let scale_min = if ltr_min / 1024 < 1024 { IGC_LTRMINV_SCALE_1024 } else { IGC_LTRMINV_SCALE_32768 };
    let scale_max = if ltr_max / 1024 < 1024 { IGC_LTRMAXV_SCALE_1024 } else { IGC_LTRMAXV_SCALE_32768 };
    let min_v = ltr_min / (if scale_min == IGC_LTRMINV_SCALE_1024 { 1024u32 } else { 32768u32 });
    let max_v = ltr_max / (if scale_max == IGC_LTRMAXV_SCALE_1024 { 1024u32 } else { 32768u32 });
    (min_v, scale_min, max_v, scale_max)
}

/// An unit-result call at position `i` of `ext` with answer `Err(e)` ends
/// the calls there with that error.
pub open spec fn ends_with_err(ext: Seq<IgcAccess>, i: int, a: Result<(), IgcDriverErr>, r: Result<(), IgcDriverErr>) -> bool {
    a is Err ==> ext.len() == i + 1 && r == Err::<(), IgcDriverErr>(a->Err_0)
}

/// The threshold calls of an LTR set-up from position `i` of `ext`, with the
/// values `vals` of `ltr_values`: LTRMINV is read and, when its low 10 bits
/// differ from the minimum, written `LSNP_REQ | min | scale << 10`; then the
/// same for LTRMAXV and the maximum. The first failing call's error ends it.
pub open spec fn ltr_threshold_calls(ext: Seq<IgcAccess>, i: int, vals: (u32, u32, u32, u32), r: Result<(), IgcDriverErr>) -> bool {
    let (min_v, scale_min, max_v, scale_max) = vals;
    &&& ext.len() > i
    &&& ext[i] == IgcAccess::Read { offset: IGC_LTRMINV, r: ext[i]->Read_r }
    &&& ext[i]->Read_r is Err ==> ext.len() == i + 1 && r == Err::<(), IgcDriverErr>(ext[i]->Read_r->Err_0)
    &&& ext[i]->Read_r is Ok ==> {
        let w1 = min_v != (ext[i]->Read_r->Ok_0 & IGC_LTRMINV_LTRV_MASK);
        let j = if w1 { i + 2 } else { i + 1 };
        &&& w1 ==> ext.len() > i + 1 && ext[i + 1] == IgcAccess::Write {
                offset: IGC_LTRMINV, value: IGC_LTRMINV_LSNP_REQ | min_v | (scale_min << IGC_LTRMINV_SCALE_SHIFT), r: ext[i + 1]->Write_r }
            && ends_with_err(ext, i + 1, ext[i + 1]->Write_r, r)
        &&& (!w1 || ext[i + 1]->Write_r is Ok) ==> {
            &&& ext.len() > j
            &&& ext[j] == IgcAccess::Read { offset: IGC_LTRMAXV, r: ext[j]->Read_r }
            &&& ext[j]->Read_r is Err ==> ext.len() == j + 1 && r == Err::<(), IgcDriverErr>(ext[j]->Read_r->Err_0)
            &&& ext[j]->Read_r is Ok ==> {
                let w2 = max_v != (ext[j]->Read_r->Ok_0 & IGC_LTRMAXV_LTRV_MASK);
                &&& w2 ==> ext.len() == j + 2 && ext[j + 1] == IgcAccess::Write {
                        offset: IGC_LTRMAXV, value: IGC_LTRMAXV_LSNP_REQ | max_v | (scale_max << IGC_LTRMAXV_SCALE_SHIFT), r: ext[j + 1]->Write_r }
                    && (match ext[j + 1]->Write_r { Ok(_) => r is Ok, Err(e) => r == Err::<(), IgcDriverErr>(e) })
                &&& !w2 ==> ext.len() == j + 1 && r is Ok
            }
        }
    }
}

/// The calls of an LTR set-up from position `i` of `ext` once the EEE wake
/// time `tw` is known: RXPBS and DMACR are read, and DMACR once more for the
/// coalescing threshold when coalescing is on; when `dmac_buffer_bits`
/// rejects them the set-up ends with its configuration error; otherwise
/// `ltr_threshold_calls` with `ltr_values` of the buffer, speed and wake time.
pub open spec fn ltr_buffer_calls(ext: Seq<IgcAccess>, i: int, mtu: u32, speed: IgcSpeed, tw: u32, r: Result<(), IgcDriverErr>) -> bool {
    &&& ext.len() > i
    &&& ext[i] == IgcAccess::Read { offset: IGC_RXPBS, r: ext[i]->Read_r }
    &&& ext[i]->Read_r is Err ==> ext.len() == i + 1 && r == Err::<(), IgcDriverErr>(ext[i]->Read_r->Err_0)
    &&& ext[i]->Read_r is Ok ==> {
        &&& ext.len() > i + 1
        &&& ext[i + 1] == IgcAccess::Read { offset: IGC_DMACR, r: ext[i + 1]->Read_r }
        &&& ext[i + 1]->Read_r is Err ==> ext.len() == i + 2 && r == Err::<(), IgcDriverErr>(ext[i + 1]->Read_r->Err_0)
        &&& ext[i + 1]->Read_r is Ok ==> {
            let en = ext[i + 1]->Read_r->Ok_0 & IGC_DMACR_DMAC_EN != 0;
            let j = if en { i + 3 } else { i + 2 };
            &&& en ==> ext.len() > i + 2 && ext[i + 2] == IgcAccess::Read { offset: IGC_DMACR, r: ext[i + 2]->Read_r }
            &&& (en && ext[i + 2]->Read_r is Err) ==> ext.len() == i + 3 && r == Err::<(), IgcDriverErr>(ext[i + 2]->Read_r->Err_0)
            &&& (!en || ext[i + 2]->Read_r is Ok) ==> {
                let thr_reg = if en { ext[i + 2]->Read_r->Ok_0 } else { ext[i + 1]->Read_r->Ok_0 };
                match dmac_buffer_bits(ext[i]->Read_r->Ok_0, en, thr_reg, mtu) {
                    Err(e) => ext.len() == j && r == Err::<(), IgcDriverErr>(e),
                    Ok(bits) => ltr_threshold_calls(ext, j, ltr_values(bits, speed, tw), r),
                }
            }
        }
    }
}

/// Whether an LTR set-up at `speed` accounts for the EEE wake time.
pub open spec fn ltr_uses_eee(hw: IgcHw, speed: IgcSpeed) -> bool {
    hw.phy.media_type == IgcMediaType::Copper && !hw.dev_spec.eee_disable && speed != IgcSpeed::Speed10
}

/// The calls of `igc_set_ltr_i225`: none without link; otherwise the link
/// speed is asked for; with EEE (`ltr_uses_eee`) LTRC is read and written back
/// with EEEMS_EN set and EEE_SU is read for the wake time; then
/// `ltr_buffer_calls`. The first failing call's error ends it.
pub open spec fn ltr_calls(ext: Seq<IgcAccess>, hw: IgcHw, link: bool, r: Result<(), IgcDriverErr>) -> bool {
    if !link {
        ext.len() == 0 && r is Ok
    } else {
        &&& ext.len() > 0
        &&& ext[0] matches IgcAccess::LinkUpInfo { r: li } && match li {
            Err(e) => ext.len() == 1 && r == Err::<(), IgcDriverErr>(e),
            Ok((speed, _)) => if ltr_uses_eee(hw, speed) {
                &&& ext.len() > 1
                &&& ext[1] == IgcAccess::Read { offset: IGC_LTRC, r: ext[1]->Read_r }
                &&& ext[1]->Read_r is Err ==> ext.len() == 2 && r == Err::<(), IgcDriverErr>(ext[1]->Read_r->Err_0)
                &&& ext[1]->Read_r is Ok ==> {
                    &&& ext.len() > 2
                    &&& ext[2] == IgcAccess::Write { offset: IGC_LTRC, value: ext[1]->Read_r->Ok_0 | IGC_LTRC_EEEMS_EN, r: ext[2]->Write_r }
                    &&& ends_with_err(ext, 2, ext[2]->Write_r, r)
                    &&& ext[2]->Write_r is Ok ==> {
                        &&& ext.len() > 3
                        &&& ext[3] == IgcAccess::Read { offset: IGC_EEE_SU, r: ext[3]->Read_r }
                        &&& ext[3]->Read_r is Err ==> ext.len() == 4 && r == Err::<(), IgcDriverErr>(ext[3]->Read_r->Err_0)
                        &&& ext[3]->Read_r is Ok ==> ltr_buffer_calls(ext, 4, hw.dev_spec.mtu, speed, tw_system_ns(speed, ext[3]->Read_r->Ok_0), r)
                    }
                }
            } else {
                ltr_buffer_calls(ext, 1, hw.dev_spec.mtu, speed, 0, r)
            },
        }
    }
}

/// Sets the LTR thresholds for the current link (nothing without link). With
/// EEE on a copper link faster than 10 Mbps, the maximum also allows for the
/// EEE wake time and LTRC is told to send it. A receive buffer too small for
/// the DMA coalescing threshold or the MTU is a configuration error. A
/// threshold register is written only when its value changes.
#[verifier::rlimit(100)]
#[verifier::spinoff_prover]
pub fn igc_set_ltr_i225<D: IgcDevice>(dev: &mut D, hw: &IgcHw, link: bool) -> (r: Result<(), IgcDriverErr>)
    ensures
        !link ==> r is Ok,
        extends_log(old(dev).accesses(), final(dev).accesses()),
        ltr_calls(new_accesses(old(dev).accesses(), final(dev).accesses()), *hw, link, r),
{
    let ghost l0 = dev.accesses();
    let ghost mut calls: Seq<IgcAccess> = Seq::empty();
    if !link {
        assert(new_accesses(l0, dev.accesses()) =~= calls);
        assert(dev.accesses().take(l0.len() as int) =~= l0);
        return Ok(());
    }
    let li = dev.get_link_up_info(hw);
    proof { calls = calls.push(dev.accesses().last()); }
    let (speed, _duplex) = match li {
        Ok(v) => v,
        Err(e) => {
            assert(new_accesses(l0, dev.accesses()) =~= calls);
            assert(dev.accesses().take(l0.len() as int) =~= l0);
            return Err(e);
        },
    };
    let tw: u32 = if hw.phy.media_type == IgcMediaType::Copper && !hw.dev_spec.eee_disable
        && speed != IgcSpeed::Speed10 {
        let a = dev.read_reg(IGC_LTRC);
        proof { calls = calls.push(dev.accesses().last()); }
        let ltrc = match a {
            Ok(v) => v | IGC_LTRC_EEEMS_EN,
            Err(e) => {
                assert(new_accesses(l0, dev.accesses()) =~= calls);
                assert(dev.accesses().take(l0.len() as int) =~= l0);
                return Err(e);
            },
        };
        let w = dev.write_reg(IGC_LTRC, ltrc);
        proof { calls = calls.push(dev.accesses().last()); }
        match w {
            Ok(()) => {},
            Err(e) => {
                assert(new_accesses(l0, dev.accesses()) =~= calls);
                assert(dev.accesses().take(l0.len() as int) =~= l0);
                return Err(e);
            },
        }
        let b = dev.read_reg(IGC_EEE_SU);
        proof { calls = calls.push(dev.accesses().last()); }
        let eee_su = match b {
            Ok(v) => v,
            Err(e) => {
                assert(new_accesses(l0, dev.accesses()) =~= calls);
                assert(dev.accesses().take(l0.len() as int) =~= l0);
                return Err(e);
            },
        };
        tw_system(speed, eee_su)
    } else {
        0
    };
    let ghost k = calls.len() as int;
    let ghost pre = calls;
    proof {
        assert(new_accesses(l0, dev.accesses()) =~= calls);
        assert(dev.accesses().take(l0.len() as int) =~= l0);
    }
    let r = ltr_set_thresholds(dev, hw.dev_spec.mtu, speed, tw, Ghost(l0));
    proof {
        let ext = new_accesses(l0, dev.accesses());
        assert forall|x: int| 0 <= x < k implies ext[x] == pre[x] by {
            assert(ext.take(k)[x] == ext[x]);
        }
    }
    r
}

/// The buffer and threshold part of an LTR set-up (`ltr_buffer_calls`), the
/// calls since `l0` before it being the first ones.
#[verifier::rlimit(80)]
#[verifier::spinoff_prover]
fn ltr_set_thresholds<D: IgcDevice>(dev: &mut D, mtu: u32, speed: IgcSpeed, tw: u32, Ghost(l0): Ghost<Seq<IgcAccess>>) -> (r: Result<(), IgcDriverErr>)
    requires
        extends_log(l0, old(dev).accesses()),
        tw <= 255 * 500,
    ensures
        extends_log(l0, final(dev).accesses()),
        new_accesses(l0, final(dev).accesses()).take(old(dev).accesses().len() - l0.len()) == new_accesses(l0, old(dev).accesses()),
        ltr_buffer_calls(new_accesses(l0, final(dev).accesses()), old(dev).accesses().len() - l0.len(), mtu, speed, tw, r),
{
    let ghost mut calls: Seq<IgcAccess> = new_accesses(l0, dev.accesses());
    let ghost pre = calls;
    let ghost k = calls.len() as int;
    proof {
        assert(dev.accesses().take(l0.len() as int) =~= l0);
    }
    let c = dev.read_reg(IGC_RXPBS);
    proof { calls = calls.push(dev.accesses().last()); }
    let rxpbs = match c {
        Ok(v) => v,
        Err(e) => {
            assert(new_accesses(l0, dev.accesses()) =~= calls);
            assert(calls.take(k) =~= pre);
            assert(dev.accesses().take(l0.len() as int) =~= l0);
            return Err(e);
        },
    };
    let d = dev.read_reg(IGC_DMACR);
    proof { calls = calls.push(dev.accesses().last()); }
    let dmacr = match d {
        Ok(v) => v,
        Err(e) => {
            assert(new_accesses(l0, dev.accesses()) =~= calls);
            assert(calls.take(k) =~= pre);
            assert(dev.accesses().take(l0.len() as int) =~= l0);
            return Err(e);
        },
    };
    let dmac_enabled = dmacr & IGC_DMACR_DMAC_EN != 0;
    let thr_reg = if dmac_enabled {
        let d2 = dev.read_reg(IGC_DMACR);
        proof { calls = calls.push(dev.accesses().last()); }
        match d2 {
            Ok(v) => v,
            Err(e) => {
                assert(new_accesses(l0, dev.accesses()) =~= calls);
            assert(calls.take(k) =~= pre);
                assert(dev.accesses().take(l0.len() as int) =~= l0);
                return Err(e);
            },
        }
    } else {
        dmacr
    };
    let bits = match dmac_buffer_size(rxpbs, dmac_enabled, thr_reg, mtu) {
        Ok(b) => b,
        Err(e) => {
            assert(new_accesses(l0, dev.accesses()) =~= calls);
            assert(calls.take(k) =~= pre);
            assert(dev.accesses().take(l0.len() as int) =~= l0);
            return Err(e);
        },
    };
    let (min_v, scale_min, max_v, scale_max) = ltr_thresholds(bits, speed, tw);
    let ghost k2 = calls.len() as int;
    let ghost pre2 = calls;
    proof {
        assert(new_accesses(l0, dev.accesses()) =~= calls);
        assert(calls.take(k) =~= pre);
        assert(dev.accesses().take(l0.len() as int) =~= l0);
    }
    let r = ltr_write_thresholds(dev, min_v, scale_min, max_v, scale_max, Ghost(l0));
    proof {
        let ext = new_accesses(l0, dev.accesses());
        assert forall|x: int| 0 <= x < k2 implies ext[x] == pre2[x] by {
            assert(ext.take(k2)[x] == ext[x]);
        }
        assert(ext.take(k) =~= pre);
    }
    r
}

/// The threshold part of an LTR set-up (`ltr_threshold_calls` with the
/// values given), the calls since `l0` before it being the first ones.
#[verifier::rlimit(60)]
#[verifier::spinoff_prover]
fn ltr_write_thresholds<D: IgcDevice>(dev: &mut D, min_v: u32, scale_min: u32, max_v: u32, scale_max: u32, Ghost(l0): Ghost<Seq<IgcAccess>>) -> (r: Result<(), IgcDriverErr>)
    requires
        extends_log(l0, old(dev).accesses()),
    ensures
        extends_log(l0, final(dev).accesses()),
        new_accesses(l0, final(dev).accesses()).take(old(dev).accesses().len() - l0.len()) == new_accesses(l0, old(dev).accesses()),
        ltr_threshold_calls(new_accesses(l0, final(dev).accesses()), old(dev).accesses().len() - l0.len(),
            (min_v, scale_min, max_v, scale_max), r),
{
    let ghost mut calls: Seq<IgcAccess> = new_accesses(l0, dev.accesses());
    let ghost pre = calls;
    let ghost k = calls.len() as int;
    proof {
        assert(dev.accesses().take(l0.len() as int) =~= l0);
    }
    let e1 = dev.read_reg(IGC_LTRMINV);
    proof { calls = calls.push(dev.accesses().last()); }
    let ltrv = match e1 {
        Ok(v) => v,
        Err(e) => {
            assert(new_accesses(l0, dev.accesses()) =~= calls);
            assert(calls.take(k) =~= pre);
            assert(dev.accesses().take(l0.len() as int) =~= l0);
            return Err(e);
        },
    };
    if min_v != (ltrv & IGC_LTRMINV_LTRV_MASK) {
        let w1 = dev.write_reg(IGC_LTRMINV, IGC_LTRMINV_LSNP_REQ | min_v | (scale_min << IGC_LTRMINV_SCALE_SHIFT));
        proof { calls = calls.push(dev.accesses().last()); }
        match w1 {
            Ok(()) => {},
            Err(e) => {
                assert(new_accesses(l0, dev.accesses()) =~= calls);
            assert(calls.take(k) =~= pre);
                assert(dev.accesses().take(l0.len() as int) =~= l0);
                return Err(e);
            },
        }
    }
    let e2 = dev.read_reg(IGC_LTRMAXV);
    proof { calls = calls.push(dev.accesses().last()); }
    let ltrv = match e2 {
        Ok(v) => v,
        Err(e) => {
            assert(new_accesses(l0, dev.accesses()) =~= calls);
            assert(calls.take(k) =~= pre);
            assert(dev.accesses().take(l0.len() as int) =~= l0);
            return Err(e);
        },
    };
    if max_v != (ltrv & IGC_LTRMAXV_LTRV_MASK) {
        let w2 = dev.write_reg(IGC_LTRMAXV, IGC_LTRMAXV_LSNP_REQ | max_v | (scale_max << IGC_LTRMAXV_SCALE_SHIFT));
        proof { calls = calls.push(dev.accesses().last()); }
        match w2 {
            Ok(()) => {},
            Err(e) => {
                assert(new_accesses(l0, dev.accesses()) =~= calls);
            assert(calls.take(k) =~= pre);
                assert(dev.accesses().take(l0.len() as int) =~= l0);
                return Err(e);
            },
        }
    }
    assert(new_accesses(l0, dev.accesses()) =~= calls);
            assert(calls.take(k) =~= pre);
    assert(dev.accesses().take(l0.len() as int) =~= l0);
    Ok(())
}


// ---------------------------------------------------------------------------
// Auto-negotiation advertisement.

/// The advertisement registers for the wanted speeds `adv` (already masked)
/// and flow control mode `fc`, from their current values: the 10/100 bits of
/// the advertisement register and the 1000BASE-T bits follow `adv` (half
/// duplex at 1000 and 2500 is never advertised), the 2500 bit follows `adv`,
/// and the pause bits follow `fc`. A mode without a software override is a
/// configuration error. Returns (advertisement, 1000BASE-T control, multi-gig
/// control).
pub open spec fn autoneg_registers(adv: u16, fc: IgcFcMode, adv_reg: u16, ctrl_1000t: u16, multigbt: u16)
    -> Result<(u16, u16, u16), IgcDriverErr>
{
    let a0 = adv_reg & !(NWAY_AR_100TX_FD_CAPS | NWAY_AR_100TX_HD_CAPS | NWAY_AR_10T_FD_CAPS | NWAY_AR_10T_HD_CAPS);
    let a1 = if adv & ADVERTISE_10_HALF != 0 { a0 | NWAY_AR_10T_HD_CAPS } else { a0 };
    let a2 = if adv & ADVERTISE_10_FULL != 0 { a1 | NWAY_AR_10T_FD_CAPS } else { a1 };
    let a3 = if adv & ADVERTISE_100_HALF != 0 { a2 | NWAY_AR_100TX_HD_CAPS } else { a2 };
    let a4 = if adv & ADVERTISE_100_FULL != 0 { a3 | NWAY_AR_100TX_FD_CAPS } else { a3 };
    let c0 = ctrl_1000t & !(CR_1000T_HD_CAPS | CR_1000T_FD_CAPS);
    let c1 = if adv & ADVERTISE_1000_FULL != 0 { c0 | CR_1000T_FD_CAPS } else { c0 };
    let m1 = if adv & ADVERTISE_2500_FULL != 0 { multigbt | CR_2500T_FD_CAPS } else { multigbt & !CR_2500T_FD_CAPS };
    match fc {
        IgcFcMode::Disabled => Ok((a4 & !(NWAY_AR_ASM_DIR | NWAY_AR_PAUSE), c1, m1)),
        IgcFcMode::RxPause => Ok((a4 | NWAY_AR_ASM_DIR | NWAY_AR_PAUSE, c1, m1)),
        IgcFcMode::TxPause => Ok(((a4 | NWAY_AR_ASM_DIR) & !NWAY_AR_PAUSE, c1, m1)),
        IgcFcMode::Full => Ok((a4 | NWAY_AR_ASM_DIR | NWAY_AR_PAUSE, c1, m1)),
        IgcFcMode::Default => Err(IgcDriverErr::Config),
    }
}

pub fn compute_autoneg_registers(adv: u16, fc: IgcFcMode, adv_reg: u16, ctrl_1000t: u16, multigbt: u16)
    -> (r: Result<(u16, u16, u16), IgcDriverErr>)
    ensures
        r == autoneg_registers(adv, fc, adv_reg, ctrl_1000t, multigbt),
{
    let mut a = adv_reg & !(NWAY_AR_100TX_FD_CAPS | NWAY_AR_100TX_HD_CAPS | NWAY_AR_10T_FD_CAPS | NWAY_AR_10T_HD_CAPS);
    let mut c = ctrl_1000t & !(CR_1000T_HD_CAPS | CR_1000T_FD_CAPS);
    if adv & ADVERTISE_10_HALF != 0 {
        a = a | NWAY_AR_10T_HD_CAPS;
    }
    if adv & ADVERTISE_10_FULL != 0 {
        a = a | NWAY_AR_10T_FD_CAPS;
    }
    if adv & ADVERTISE_100_HALF != 0 {
        a = a | NWAY_AR_100TX_HD_CAPS;
    }
    if adv & ADVERTISE_100_FULL != 0 {
        a = a | NWAY_AR_100TX_FD_CAPS;
    }
    if adv & ADVERTISE_1000_FULL != 0 {
        c = c | CR_1000T_FD_CAPS;
    }
    let m = if adv & ADVERTISE_2500_FULL != 0 { multigbt | CR_2500T_FD_CAPS } else { multigbt & !CR_2500T_FD_CAPS };
    match fc {
        IgcFcMode::Disabled => Ok((a & !(NWAY_AR_ASM_DIR | NWAY_AR_PAUSE), c, m)),
        IgcFcMode::RxPause => Ok((a | NWAY_AR_ASM_DIR | NWAY_AR_PAUSE, c, m)),
        IgcFcMode::TxPause => Ok(((a | NWAY_AR_ASM_DIR) & !NWAY_AR_PAUSE, c, m)),
        IgcFcMode::Full => Ok((a | NWAY_AR_ASM_DIR | NWAY_AR_PAUSE, c, m)),
        IgcFcMode::Default => Err(IgcDriverErr::Config),
    }
}

/// The writes that end an advertisement set-up from position `j` of `ext`,
/// once the registers were read: the advertisement register gets the first
/// value of `autoneg_registers`, PHY_1000T_CTRL the second when the mask
/// covers 1000 full duplex, MULTIGBT_AN_CTRL_REG the third when it covers
/// 2500 full duplex; a configuration error writes nothing; the first
/// failing write's error ends it.
pub open spec fn autoneg_write_calls(ext: Seq<IgcAccess>, j: int, adv: u16, mask: u16, fc: IgcFcMode,
    adv_reg: u16, ctrl_1000t: u16, multigbt: u16, r: Result<(), IgcDriverErr>) -> bool
{
    let h1 = mask & ADVERTISE_1000_FULL != 0;
    let h2 = mask & ADVERTISE_2500_FULL != 0;
    match autoneg_registers(adv, fc, adv_reg, ctrl_1000t, multigbt) {
        Err(e) => ext.len() == j && r == Err::<(), IgcDriverErr>(e),
        Ok((a, c, m)) => {
            &&& ext.len() > j
            &&& ext[j] == IgcAccess::PhyWrite { offset: PHY_AUTONEG_ADV, data: a, r: ext[j]->PhyWrite_r }
            &&& match ext[j]->PhyWrite_r {
                Err(e) => ext.len() == j + 1 && r == Err::<(), IgcDriverErr>(e),
                Ok(_) => {
                    let k = if h1 { j + 2 } else { j + 1 };
                    &&& h1 ==> ext.len() > j + 1
                        && ext[j + 1] == IgcAccess::PhyWrite { offset: PHY_1000T_CTRL, data: c, r: ext[j + 1]->PhyWrite_r }
                    &&& (h1 && ext[j + 1]->PhyWrite_r is Err) ==> ext.len() == j + 2 && r == Err::<(), IgcDriverErr>(ext[j + 1]->PhyWrite_r->Err_0)
                    &&& (!h1 || ext[j + 1]->PhyWrite_r is Ok) ==> {
                        &&& h2 ==> ext.len() > k
                            && ext[k] == IgcAccess::PhyWrite { offset: MULTIGBT_AN_CTRL_REG, data: m, r: ext[k]->PhyWrite_r }
                            && ext.len() == k + 1
                            && (match ext[k]->PhyWrite_r { Ok(_) => r is Ok, Err(e) => r == Err::<(), IgcDriverErr>(e) })
                        &&& !h2 ==> ext.len() == k && r is Ok
                    }
                },
            }
        },
    }
}

/// The calls of an advertisement set-up (see `igc_phy_setup_autoneg`):
/// PHY_AUTONEG_ADV is read, then PHY_1000T_CTRL when the mask covers 1000
/// full duplex and MULTIGBT_AN_CTRL_REG when it covers 2500 full duplex (a
/// register not read counts as 0), then `autoneg_write_calls`. The first
/// failing read's error ends it.
pub open spec fn autoneg_setup_calls(ext: Seq<IgcAccess>, adv: u16, mask: u16, fc: IgcFcMode, r: Result<(), IgcDriverErr>) -> bool {
    let h1 = mask & ADVERTISE_1000_FULL != 0;
    let h2 = mask & ADVERTISE_2500_FULL != 0;
    let i1 = if h1 { 2int } else { 1int };
    &&& ext.len() >= 1
    &&& ext[0] matches IgcAccess::PhyRead { offset, r: a0 } && offset == PHY_AUTONEG_ADV && match a0 {
        Err(e) => ext.len() == 1 && r == Err::<(), IgcDriverErr>(e),
        Ok(adv_reg) => {
            &&& h1 ==> ext.len() > 1 && ext[1] == IgcAccess::PhyRead { offset: PHY_1000T_CTRL, r: ext[1]->PhyRead_r }
            &&& (h1 && ext[1]->PhyRead_r is Err) ==> ext.len() == 2 && r == Err::<(), IgcDriverErr>(ext[1]->PhyRead_r->Err_0)
            &&& (!h1 || ext[1]->PhyRead_r is Ok) ==> {
                let c = if h1 { ext[1]->PhyRead_r->Ok_0 } else { 0u16 };
                &&& h2 ==> ext.len() > i1 && ext[i1] == IgcAccess::PhyRead { offset: MULTIGBT_AN_CTRL_REG, r: ext[i1]->PhyRead_r }
                &&& (h2 && ext[i1]->PhyRead_r is Err) ==> ext.len() == i1 + 1 && r == Err::<(), IgcDriverErr>(ext[i1]->PhyRead_r->Err_0)
                &&& (!h2 || ext[i1]->PhyRead_r is Ok) ==> {
                    let m = if h2 { ext[i1]->PhyRead_r->Ok_0 } else { 0u16 };
                    let j = if h2 { i1 + 1 } else { i1 };
                    autoneg_write_calls(ext, j, adv, mask, fc, adv_reg, c, m, r)
                }
            }
        },
    }
}

/// Sets up the PHY advertisement for the wanted speeds (restricted to the
/// PHY's mask) and the flow control mode: reads the advertisement registers
/// the mask covers, and writes back what `autoneg_registers` computes.
pub fn igc_phy_setup_autoneg<D: IgcDevice>(dev: &mut D, hw: &mut IgcHw) -> (r: Result<(), IgcDriverErr>)
    ensures
        final(hw).phy.autoneg_advertised == old(hw).phy.autoneg_advertised & old(hw).phy.autoneg_mask,
        final(hw).phy.autoneg_mask == old(hw).phy.autoneg_mask,
        final(hw).mac == old(hw).mac && final(hw).nvm == old(hw).nvm && final(hw).fc == old(hw).fc
            && final(hw).dev_spec == old(hw).dev_spec,
        *final(hw) == (IgcHw { phy: IgcPhyInfo { autoneg_advertised: final(hw).phy.autoneg_advertised, ..old(hw).phy }, ..*old(hw) }),
        old(hw).fc.current_mode == IgcFcMode::Default ==> r is Err,
        extends_log(old(dev).accesses(), final(dev).accesses()),
        autoneg_setup_calls(new_accesses(old(dev).accesses(), final(dev).accesses()),
            final(hw).phy.autoneg_advertised, old(hw).phy.autoneg_mask, old(hw).fc.current_mode, r),
{
    let ghost l0 = dev.accesses();
    hw.phy.autoneg_advertised = hw.phy.autoneg_advertised & hw.phy.autoneg_mask;
    let h1 = hw.phy.autoneg_mask & ADVERTISE_1000_FULL != 0;
    let h2 = hw.phy.autoneg_mask & ADVERTISE_2500_FULL != 0;
    let ghost mut calls: Seq<IgcAccess> = Seq::empty();
    let read0 = dev.phy_read_reg(hw, PHY_AUTONEG_ADV);
    proof { calls = calls.push(dev.accesses().last()); }
    let adv_reg = match read0 {
        Ok(v) => v,
        Err(e) => {
            assert(new_accesses(l0, dev.accesses()) =~= calls);
            assert(dev.accesses().take(l0.len() as int) =~= l0);
            return Err(e);
        },
    };
    let ctrl_1000t: u16 = if h1 {
        let read1 = dev.phy_read_reg(hw, PHY_1000T_CTRL);
        proof { calls = calls.push(dev.accesses().last()); }
        match read1 {
            Ok(v) => v,
            Err(e) => {
                assert(new_accesses(l0, dev.accesses()) =~= calls);
                assert(dev.accesses().take(l0.len() as int) =~= l0);
                return Err(e);
            },
        }
    } else {
        0
    };
    let multigbt: u16 = if h2 {
        let read2 = dev.phy_read_reg(hw, MULTIGBT_AN_CTRL_REG);
        proof { calls = calls.push(dev.accesses().last()); }
        match read2 {
            Ok(v) => v,
            Err(e) => {
                assert(new_accesses(l0, dev.accesses()) =~= calls);
                assert(dev.accesses().take(l0.len() as int) =~= l0);
                return Err(e);
            },
        }
    } else {
        0
    };
    let ghost j = calls.len() as int;
    let (a, c, m) = match compute_autoneg_registers(hw.phy.autoneg_advertised, hw.fc.current_mode, adv_reg, ctrl_1000t, multigbt) {
        Ok(v) => v,
        Err(e) => {
            assert(new_accesses(l0, dev.accesses()) =~= calls);
            assert(dev.accesses().take(l0.len() as int) =~= l0);
            return Err(e);
        },
    };
    let w0 = dev.phy_write_reg(hw, PHY_AUTONEG_ADV, a);
    proof { calls = calls.push(dev.accesses().last()); }
    match w0 {
        Ok(()) => {},
        Err(e) => {
            assert(new_accesses(l0, dev.accesses()) =~= calls);
            assert(dev.accesses().take(l0.len() as int) =~= l0);
            return Err(e);
        },
    }
    if h1 {
        let w1 = dev.phy_write_reg(hw, PHY_1000T_CTRL, c);
        proof { calls = calls.push(dev.accesses().last()); }
        match w1 {
            Ok(()) => {},
            Err(e) => {
                assert(new_accesses(l0, dev.accesses()) =~= calls);
                assert(dev.accesses().take(l0.len() as int) =~= l0);
                return Err(e);
            },
        }
    }
    if h2 {
        let w2 = dev.phy_write_reg(hw, MULTIGBT_AN_CTRL_REG, m);
        proof { calls = calls.push(dev.accesses().last()); }
        match w2 {
            Ok(()) => {},
            Err(e) => {
                assert(new_accesses(l0, dev.accesses()) =~= calls);
                assert(dev.accesses().take(l0.len() as int) =~= l0);
                return Err(e);
            },
        }
    }
    assert(new_accesses(l0, dev.accesses()) =~= calls);
    assert(dev.accesses().take(l0.len() as int) =~= l0);
    Ok(())
}

/// The calls of a link poll from position `p` of `ext` with `k` rounds
/// left: each round reads PHY_STATUS (waiting `usec` when that read fails)
/// and reads it again; a failing second read ends the poll with its error,
/// a link bit ends it with `Ok(true)`, otherwise `usec` pass and the next
/// round follows. After the last round the answer is `Ok(false)`.
pub open spec fn link_poll_from(ext: Seq<IgcAccess>, p: int, k: nat, usec: u64, r: Result<bool, IgcDriverErr>) -> bool
    decreases k,
{
    if k == 0 {
        ext.len() == p && r == Ok::<bool, IgcDriverErr>(false)
    } else {
        let n = if ext[p]->PhyRead_r is Err { p + 2 } else { p + 1 };
        &&& ext.len() > p
        &&& ext[p] == IgcAccess::PhyRead { offset: PHY_STATUS, r: ext[p]->PhyRead_r }
        &&& ext[p]->PhyRead_r is Err ==> ext.len() > p + 1 && ext[p + 1] == IgcAccess::WaitUs { usec }
        &&& ext.len() > n
        &&& ext[n] == IgcAccess::PhyRead { offset: PHY_STATUS, r: ext[n]->PhyRead_r }
        &&& match ext[n]->PhyRead_r {
            Err(e) => ext.len() == n + 1 && r == Err::<bool, IgcDriverErr>(e),
            Ok(v) => if v & MII_SR_LINK_STATUS != 0 {
                ext.len() == n + 1 && r == Ok::<bool, IgcDriverErr>(true)
            } else {
                ext.len() > n + 1 && ext[n + 1] == IgcAccess::WaitUs { usec } && link_poll_from(ext, n + 2, (k - 1) as nat, usec, r)
            },
        }
    }
}

/// A PHY_STATUS answer that holds the link bit.
pub open spec fn link_seen(a: IgcAccess) -> bool {
    a matches IgcAccess::PhyRead { offset, r: Ok(v) } && offset == PHY_STATUS && v & MII_SR_LINK_STATUS != 0
}

/// A poll that found link ends with a PHY_STATUS answer holding the link
/// bit.
pub proof fn lemma_link_poll_found(ext: Seq<IgcAccess>, p: int, k: nat, usec: u64)
    requires
        0 <= p,
        link_poll_from(ext, p, k, usec, Ok(true)),
    ensures
        ext.len() > 0,
        link_seen(ext.last()),
    decreases k,
{
    let n = if ext[p]->PhyRead_r is Err { p + 2 } else { p + 1 };
    if let Ok(v) = ext[n]->PhyRead_r {
        if v & MII_SR_LINK_STATUS == 0 {
            lemma_link_poll_found(ext, n + 2, (k - 1) as nat, usec);
        }
    }
}

/// Polls the PHY status up to `iterations` times, `usec_interval` apart,
/// for link; whether link came up within the iterations.
pub fn igc_phy_has_link_generic<D: IgcDevice>(dev: &mut D, hw: &IgcHw, iterations: u32, usec_interval: u32) -> (r: Result<bool, IgcDriverErr>)
    ensures
        iterations == 0 ==> r == Ok::<bool, IgcDriverErr>(false),
        extends_log(old(dev).accesses(), final(dev).accesses()),
        link_poll_from(new_accesses(old(dev).accesses(), final(dev).accesses()), 0, iterations as nat, usec_interval as u64, r),
{
    let ghost l0 = dev.accesses();
    let ghost usec = usec_interval as u64;
    let mut i: u32 = 0;
    assert(l0.take(l0.len() as int) =~= l0);
    while i < iterations
        invariant
            i <= iterations,
            usec == usec_interval as u64,
            l0 == old(dev).accesses(),
            extends_log(l0, dev.accesses()),
            forall|e: Seq<IgcAccess>, rr: Result<bool, IgcDriverErr>|
                e.take(new_accesses(l0, dev.accesses()).len() as int) == new_accesses(l0, dev.accesses())
                && #[trigger] link_poll_from(e, new_accesses(l0, dev.accesses()).len() as int, (iterations - i) as nat, usec, rr)
                ==> link_poll_from(e, 0, iterations as nat, usec, rr),
        decreases iterations - i,
    {
        let ghost c0 = new_accesses(l0, dev.accesses());
        let first = dev.phy_read_reg(hw, PHY_STATUS);
        match first {
            Ok(_) => {},
            Err(_) => dev.wait_microsec(usec_interval as u64),
        }
        let second = dev.phy_read_reg(hw, PHY_STATUS);
        let ghost c1 = new_accesses(l0, dev.accesses());
        let phy_status = match second {
            Ok(v) => v,
            Err(e) => {
                proof {
                    assert(dev.accesses().take(l0.len() as int) =~= l0);
                    assert(c1.take(c0.len() as int) =~= c0);
                    assert(link_poll_from(c1, c0.len() as int, (iterations - i) as nat, usec, Err(e)));
                }
                return Err(e);
            },
        };
        if phy_status & MII_SR_LINK_STATUS != 0 {
            proof {
                assert(dev.accesses().take(l0.len() as int) =~= l0);
                assert(c1.take(c0.len() as int) =~= c0);
                assert(link_poll_from(c1, c0.len() as int, (iterations - i) as nat, usec, Ok(true)));
            }
            return Ok(true);
        }
        dev.wait_microsec(usec_interval as u64);
        proof {
            let c2 = new_accesses(l0, dev.accesses());
            assert(dev.accesses().take(l0.len() as int) =~= l0);
            assert forall|e: Seq<IgcAccess>, rr: Result<bool, IgcDriverErr>|
                e.take(c2.len() as int) == c2
                && #[trigger] link_poll_from(e, c2.len() as int, (iterations - (i + 1)) as nat, usec, rr)
                implies link_poll_from(e, 0, iterations as nat, usec, rr) by {
                assert(e.take(c0.len() as int) =~= c2.take(c0.len() as int));
                assert(c2.take(c0.len() as int) =~= c0);
                assert(e[c0.len() as int] == c2[c0.len() as int]);
                if first is Err {
                    assert(e[c0.len() as int + 1] == c2[c0.len() as int + 1]);
                }
                assert(e[c1.len() as int - 1] == c2[c1.len() as int - 1]);
                assert(e[c1.len() as int] == c2[c1.len() as int]);
                assert(link_poll_from(e, c0.len() as int, (iterations - i) as nat, usec, rr));
            }
        }
        i += 1;
    }
    proof {
        let c = new_accesses(l0, dev.accesses());
        assert(c.take(c.len() as int) =~= c);
        assert(link_poll_from(c, c.len() as int, (iterations - i) as nat, usec, Ok(false)));
    }
    Ok(false)
}

/// The calls of an auto-negotiation wait from position `p` of `ext` with `k`
/// rounds left: each round reads PHY_STATUS twice (a failing read ends the
/// wait with its error); the completion bit in the second answer ends it
/// with `Ok`; otherwise 100 ms pass and the next round follows. Running out
/// of rounds is `Ok` too.
pub open spec fn autoneg_wait_from(ext: Seq<IgcAccess>, p: int, k: nat, r: Result<(), IgcDriverErr>) -> bool
    decreases k,
{
    if k == 0 {
        ext.len() == p && r is Ok
    } else {
        &&& ext.len() > p
        &&& ext[p] == IgcAccess::PhyRead { offset: PHY_STATUS, r: ext[p]->PhyRead_r }
        &&& ext[p]->PhyRead_r is Err ==> ext.len() == p + 1 && r == Err::<(), IgcDriverErr>(ext[p]->PhyRead_r->Err_0)
        &&& ext[p]->PhyRead_r is Ok ==> {
            &&& ext.len() > p + 1
            &&& ext[p + 1] == IgcAccess::PhyRead { offset: PHY_STATUS, r: ext[p + 1]->PhyRead_r }
            &&& match ext[p + 1]->PhyRead_r {
                Err(e) => ext.len() == p + 2 && r == Err::<(), IgcDriverErr>(e),
                Ok(v) => if v & MII_SR_AUTONEG_COMPLETE != 0 {
                    ext.len() == p + 2 && r is Ok
                } else {
                    ext.len() > p + 2 && ext[p + 2] == IgcAccess::WaitMs { msec: 100 } && autoneg_wait_from(ext, p + 3, (k - 1) as nat, r)
                },
            }
        }
    }
}

/// Waits, up to the auto-negotiation time limit, for auto-negotiation to
/// complete. Running out of time is not an error.
pub fn igc_wait_autoneg<D: IgcDevice>(dev: &mut D, hw: &IgcHw) -> (r: Result<(), IgcDriverErr>)
    ensures
        extends_log(old(dev).accesses(), final(dev).accesses()),
        autoneg_wait_from(new_accesses(old(dev).accesses(), final(dev).accesses()), 0, PHY_AUTO_NEG_LIMIT as nat, r),
{
    let ghost l0 = dev.accesses();
    let mut i: u32 = 0;
    assert(l0.take(l0.len() as int) =~= l0);
    while i < PHY_AUTO_NEG_LIMIT
        invariant
            i <= PHY_AUTO_NEG_LIMIT,
            l0 == old(dev).accesses(),
            extends_log(l0, dev.accesses()),
            forall|e: Seq<IgcAccess>, rr: Result<(), IgcDriverErr>|
                e.take(new_accesses(l0, dev.accesses()).len() as int) == new_accesses(l0, dev.accesses())
                && #[trigger] autoneg_wait_from(e, new_accesses(l0, dev.accesses()).len() as int, (PHY_AUTO_NEG_LIMIT - i) as nat, rr)
                ==> autoneg_wait_from(e, 0, PHY_AUTO_NEG_LIMIT as nat, rr),
        decreases PHY_AUTO_NEG_LIMIT - i,
    {
        let ghost c0 = new_accesses(l0, dev.accesses());
        let first = dev.phy_read_reg(hw, PHY_STATUS);
        if let Err(e) = first {
            proof {
                let c1 = new_accesses(l0, dev.accesses());
                assert(dev.accesses().take(l0.len() as int) =~= l0);
                assert(c1.take(c0.len() as int) =~= c0);
                assert(autoneg_wait_from(c1, c0.len() as int, (PHY_AUTO_NEG_LIMIT - i) as nat, Err(e)));
            }
            return Err(e);
        }
        let second = dev.phy_read_reg(hw, PHY_STATUS);
        let ghost c1 = new_accesses(l0, dev.accesses());
        let phy_status = match second {
            Ok(v) => v,
            Err(e) => {
                proof {
                    assert(dev.accesses().take(l0.len() as int) =~= l0);
                    assert(c1.take(c0.len() as int) =~= c0);
                    assert(autoneg_wait_from(c1, c0.len() as int, (PHY_AUTO_NEG_LIMIT - i) as nat, Err(e)));
                }
                return Err(e);
            },
        };
        if phy_status & MII_SR_AUTONEG_COMPLETE != 0 {
            proof {
                assert(dev.accesses().take(l0.len() as int) =~= l0);
                assert(c1.take(c0.len() as int) =~= c0);
                assert(autoneg_wait_from(c1, c0.len() as int, (PHY_AUTO_NEG_LIMIT - i) as nat, Ok(())));
            }
            return Ok(());
        }
        dev.wait_millisec(100);
        proof {
            let c2 = new_accesses(l0, dev.accesses());
            assert(dev.accesses().take(l0.len() as int) =~= l0);
            assert forall|e: Seq<IgcAccess>, rr: Result<(), IgcDriverErr>|
                e.take(c2.len() as int) == c2
                && #[trigger] autoneg_wait_from(e, c2.len() as int, (PHY_AUTO_NEG_LIMIT - (i + 1)) as nat, rr)
                implies autoneg_wait_from(e, 0, PHY_AUTO_NEG_LIMIT as nat, rr) by {
                assert(e.take(c0.len() as int) =~= c2.take(c0.len() as int));
                assert(c2.take(c0.len() as int) =~= c0);
                assert(e[c0.len() as int] == c2[c0.len() as int]);
                assert(e[c0.len() as int + 1] == c2[c0.len() as int + 1]);
                assert(e[c0.len() as int + 2] == c2[c0.len() as int + 2]);
                assert(autoneg_wait_from(e, c0.len() as int, (PHY_AUTO_NEG_LIMIT - i) as nat, rr));
            }
        }
        i += 1;
    }
    proof {
        let c = new_accesses(l0, dev.accesses());
        assert(c.take(c.len() as int) =~= c);
        assert(autoneg_wait_from(c, c.len() as int, (PHY_AUTO_NEG_LIMIT - i) as nat, Ok(())));
    }
    Ok(())
}

/// The controller state after auto-negotiation was set up: the advertised
/// speeds restricted to the PHY's mask (the whole mask when nothing remains)
/// and, when it got that far, the link status marked to be read again.
pub open spec fn copper_autoneg_done(before: IgcHw, after: IgcHw, link_status_requested: bool) -> bool {
    let masked = before.phy.autoneg_advertised & before.phy.autoneg_mask;
    &&& after == (IgcHw {
        phy: IgcPhyInfo { autoneg_advertised: if masked == 0 { before.phy.autoneg_mask } else { masked }, ..before.phy },
        mac: IgcMacInfo { get_link_status: if link_status_requested { true } else { after.mac.get_link_status }, ..before.mac },
        ..before
    })
    &&& after.mac.get_link_status == before.mac.get_link_status || after.mac.get_link_status
}

/// The calls from position `i` of `ext` that restart auto-negotiation:
/// PHY_CONTROL is read and written back with auto-negotiation enabled and
/// restarted; then, when `wait` is asked, the wait for auto-negotiation
/// (`autoneg_wait_from`). The first failing call's error ends it.
pub open spec fn autoneg_restart_calls(ext: Seq<IgcAccess>, i: int, wait: bool, r: Result<(), IgcDriverErr>) -> bool {
    &&& ext.len() > i
    &&& ext[i] == IgcAccess::PhyRead { offset: PHY_CONTROL, r: ext[i]->PhyRead_r }
    &&& match ext[i]->PhyRead_r {
        Err(e) => ext.len() == i + 1 && r == Err::<(), IgcDriverErr>(e),
        Ok(v) => {
            &&& ext.len() > i + 1
            &&& ext[i + 1] == IgcAccess::PhyWrite {
                offset: PHY_CONTROL, data: v | MII_CR_AUTO_NEG_EN | MII_CR_RESTART_AUTO_NEG, r: ext[i + 1]->PhyWrite_r }
            &&& match ext[i + 1]->PhyWrite_r {
                Err(e) => ext.len() == i + 2 && r == Err::<(), IgcDriverErr>(e),
                Ok(_) => if wait {
                    autoneg_wait_from(ext.skip(i + 2), 0, PHY_AUTO_NEG_LIMIT as nat, r)
                } else {
                    ext.len() == i + 2 && r is Ok
                },
            }
        },
    }
}

/// The calls of a copper auto-negotiation set-up: the advertisement set-up
/// (`autoneg_setup_calls` for the advertised speeds `adv`), whose error ends
/// it; then `autoneg_restart_calls`.
pub open spec fn copper_autoneg_calls(ext: Seq<IgcAccess>, adv: u16, mask: u16, fc: IgcFcMode, wait: bool, r: Result<(), IgcDriverErr>) -> bool {
    exists|i: int, s: Result<(), IgcDriverErr>| {
        &&& 0 <= i <= ext.len()
        &&& #[trigger] autoneg_setup_calls(ext.take(i), adv, mask, fc, s)
        &&& match s {
            Err(e) => i == ext.len() && r == Err::<(), IgcDriverErr>(e),
            Ok(_) => autoneg_restart_calls(ext, i, wait, r),
        }
    }
}

/// Restricts the advertised speeds to the PHY's mask (all of the mask when
/// nothing remains), sets up the advertisement, restarts auto-negotiation,
/// optionally waits for it, and asks for the link status to be read again.
#[verifier::rlimit(40)]
pub fn igc_copper_link_autoneg<D: IgcDevice>(dev: &mut D, hw: &mut IgcHw) -> (r: Result<(), IgcDriverErr>)
    ensures
        ({
            let masked = old(hw).phy.autoneg_advertised & old(hw).phy.autoneg_mask;
            final(hw).phy.autoneg_advertised == (if masked == 0 { old(hw).phy.autoneg_mask } else { masked })
        }),
        r is Ok ==> final(hw).mac.get_link_status,
        old(hw).fc.current_mode == IgcFcMode::Default ==> r is Err,
        *final(hw) == (IgcHw {
            phy: IgcPhyInfo { autoneg_advertised: final(hw).phy.autoneg_advertised, ..old(hw).phy },
            mac: IgcMacInfo { get_link_status: if r is Ok { true } else { old(hw).mac.get_link_status }, ..old(hw).mac },
            ..*old(hw)
        }),
        extends_log(old(dev).accesses(), final(dev).accesses()),
        copper_autoneg_calls(new_accesses(old(dev).accesses(), final(dev).accesses()), final(hw).phy.autoneg_advertised,
            old(hw).phy.autoneg_mask, old(hw).fc.current_mode, old(hw).phy.autoneg_wait_to_complete, r),
{
    let ghost l0 = dev.accesses();
    let ghost y = hw.phy.autoneg_advertised;
    hw.phy.autoneg_advertised = hw.phy.autoneg_advertised & hw.phy.autoneg_mask;
    if hw.phy.autoneg_advertised == 0 {
        hw.phy.autoneg_advertised = hw.phy.autoneg_mask;
    }
    proof {
        let m = hw.phy.autoneg_mask;
        let a = hw.phy.autoneg_advertised;
        assert(a & m == a) by (bit_vector)
            requires a == m || a == (y & m);
    }
    let ghost adv = hw.phy.autoneg_advertised;
    let ghost mask = hw.phy.autoneg_mask;
    let ghost fc = hw.fc.current_mode;
    let ghost wait = hw.phy.autoneg_wait_to_complete;
    let s = igc_phy_setup_autoneg(dev, hw);
    let ghost l1 = dev.accesses();
    let ghost i = new_accesses(l0, l1).len() as int;
    proof {
        assert(new_accesses(l0, l1).take(i) =~= new_accesses(l0, l1));
    }
    match s {
        Ok(()) => {},
        Err(e) => {
            proof {
                assert(autoneg_setup_calls(new_accesses(l0, l1).take(i), adv, mask, fc, s));
            }
            return Err(e);
        },
    }
    let rd = dev.phy_read_reg(hw, PHY_CONTROL);
    let ghost l2 = dev.accesses();
    proof {
        lemma_new_accesses_push(l0, l1, l2.last());
        assert(l2 == l1.push(l2.last()));
        assert(new_accesses(l0, l2).take(i) =~= new_accesses(l0, l1));
    }
    let phy_ctrl = match rd {
        Ok(v) => v | MII_CR_AUTO_NEG_EN | MII_CR_RESTART_AUTO_NEG,
        Err(e) => {
            proof {
                assert(autoneg_setup_calls(new_accesses(l0, l2).take(i), adv, mask, fc, s));
            }
            return Err(e);
        },
    };
    let wr = dev.phy_write_reg(hw, PHY_CONTROL, phy_ctrl);
    let ghost l3 = dev.accesses();
    proof {
        lemma_new_accesses_push(l0, l2, l3.last());
        assert(l3 == l2.push(l3.last()));
        assert(new_accesses(l0, l3).take(i) =~= new_accesses(l0, l1));
        assert(new_accesses(l0, l3)[i] == new_accesses(l0, l2)[i]);
    }
    match wr {
        Ok(()) => {},
        Err(e) => {
            proof {
                assert(autoneg_setup_calls(new_accesses(l0, l3).take(i), adv, mask, fc, s));
            }
            return Err(e);
        },
    }
    if hw.phy.autoneg_wait_to_complete {
        let w = igc_wait_autoneg(dev, hw);
        proof {
            let l4 = dev.accesses();
            lemma_extends_log_trans(l0, l3, l4);
            let ext = new_accesses(l0, l4);
            assert(ext.take(i) =~= new_accesses(l0, l1));
            assert(ext[i] == new_accesses(l0, l3)[i]);
            assert(ext[i + 1] == new_accesses(l0, l3)[i + 1]);
            assert(ext.skip(i + 2) =~= new_accesses(l3, l4));
            assert(autoneg_setup_calls(ext.take(i), adv, mask, fc, s));
        }
        if w.is_err() {
            return w;
        }
        hw.mac.get_link_status = true;
        return w;
    } else {
        proof {
            assert(autoneg_setup_calls(new_accesses(l0, l3).take(i), adv, mask, fc, s));
        }
    }
    hw.mac.get_link_status = true;
    Ok(())
}

/// What the copper link set-up does once the link poll, ending at position
/// `j` of `ext`, answered `pr`: a poll error is the result; no link is a PHY
/// error; with link, the collision distance is configured and then the flow
/// control, the first failure giving its error. Nothing else is called.
pub open spec fn link_outcome(ext: Seq<IgcAccess>, j: int, pr: Result<bool, IgcDriverErr>, r: Result<(), IgcDriverErr>) -> bool {
    match pr {
        Err(e) => ext.len() == j && r == Err::<(), IgcDriverErr>(e),
        Ok(link) => if !link {
            ext.len() == j && r == Err::<(), IgcDriverErr>(IgcDriverErr::Phy)
        } else {
            &&& ext.len() > j
            &&& ext[j] is ConfigCollisionDist
            &&& match ext[j]->ConfigCollisionDist_r {
                Err(e) => ext.len() == j + 1 && r == Err::<(), IgcDriverErr>(e),
                Ok(_) => {
                    &&& ext.len() == j + 2
                    &&& ext[j + 1] is ConfigFcAfterLinkUp
                    &&& match ext[j + 1]->ConfigFcAfterLinkUp_r {
                        Ok(_) => r is Ok,
                        Err(e) => r == Err::<(), IgcDriverErr>(e),
                    }
                },
            }
        },
    }
}

/// The first `i` calls of `ext` are the link set-up of `hw`, which answered
/// `s`: the copper auto-negotiation set-up (`copper_autoneg_calls`, for the
/// advertised speeds `adv`) when auto-negotiation is on, else one forced
/// speed and duplex set-up.
pub open spec fn copper_setup_part(ext: Seq<IgcAccess>, hw: IgcHw, adv: u16, i: int, s: Result<(), IgcDriverErr>) -> bool {
    &&& 0 <= i <= ext.len()
    &&& if hw.mac.autoneg {
        copper_autoneg_calls(ext.take(i), adv, hw.phy.autoneg_mask, hw.fc.current_mode, hw.phy.autoneg_wait_to_complete, s)
    } else {
        i == 1 && ext[0] == IgcAccess::ForceSpeedDuplex { r: s }
    }
}

/// The calls of a copper link set-up of `hw`: the link set-up
/// (`copper_setup_part`), whose error ends it; then the link poll of
/// `COPPER_LINK_UP_LIMIT` rounds 10 us apart (`link_poll_from`), and what
/// `link_outcome` says follows its answer.
pub open spec fn copper_link_calls(ext: Seq<IgcAccess>, hw: IgcHw, adv: u16, r: Result<(), IgcDriverErr>) -> bool {
    exists|i: int, s: Result<(), IgcDriverErr>| {
        &&& #[trigger] copper_setup_part(ext, hw, adv, i, s)
        &&& match s {
            Err(e) => i == ext.len() && r == Err::<(), IgcDriverErr>(e),
            Ok(_) => exists|j: int, pr: Result<bool, IgcDriverErr>| {
                &&& i <= j <= ext.len()
                &&& #[trigger] link_poll_from(ext.subrange(i, j), 0, COPPER_LINK_UP_LIMIT as nat, 10, pr)
                &&& link_outcome(ext, j, pr, r)
            },
        }
    }
}

/// Sets up the copper link by auto-negotiation or forced speed, waits
/// briefly for link, and with link configures collision distance and flow
/// control. Without link it is a PHY error.
#[verifier::rlimit(60)]
#[verifier::spinoff_prover]
pub fn igc_setup_copper_link_generic<D: IgcDevice>(dev: &mut D, hw: &mut IgcHw) -> (r: Result<(), IgcDriverErr>)
    ensures
        old(hw).mac.autoneg && old(hw).fc.current_mode == IgcFcMode::Default ==> r is Err,
        !old(hw).mac.autoneg ==> *final(hw) == *old(hw),
        old(hw).mac.autoneg ==> copper_autoneg_done(*old(hw), *final(hw), r is Ok),
        extends_log(old(dev).accesses(), final(dev).accesses()),
        copper_link_calls(new_accesses(old(dev).accesses(), final(dev).accesses()), *old(hw), final(hw).phy.autoneg_advertised, r),
        r is Ok ==> exists|j: int| 0 <= j < new_accesses(old(dev).accesses(), final(dev).accesses()).len()
            && link_seen(#[trigger] new_accesses(old(dev).accesses(), final(dev).accesses())[j]),
{
    let ghost l0 = dev.accesses();
    let ghost h0 = *hw;
    proof { assert(l0.take(l0.len() as int) =~= l0); }
    let setup = if hw.mac.autoneg {
        igc_copper_link_autoneg(dev, hw)
    } else {
        let f = dev.force_speed_duplex(hw);
        proof { lemma_new_accesses_push(l0, l0, dev.accesses().last()); assert(new_accesses(l0, l0) =~= Seq::<IgcAccess>::empty()); }
        f
    };
    let ghost l1 = dev.accesses();
    let ghost adv = hw.phy.autoneg_advertised;
    let ghost i = new_accesses(l0, l1).len() as int;
    proof {
        assert(new_accesses(l0, l1).take(i) =~= new_accesses(l0, l1));
        assert(copper_setup_part(new_accesses(l0, l1), h0, adv, i, setup));
    }
    match setup {
        Ok(()) => {},
        Err(e) => return Err(e),
    }
    let polled = igc_phy_has_link_generic(dev, hw, COPPER_LINK_UP_LIMIT, 10);
    let ghost l2 = dev.accesses();
    let ghost j = new_accesses(l0, l2).len() as int;
    proof {
        lemma_extends_log_trans(l0, l1, l2);
        let ext = new_accesses(l0, l2);
        assert(ext.take(i) =~= new_accesses(l0, l1));
        assert(ext.subrange(i, j) =~= new_accesses(l1, l2));
        assert(copper_setup_part(ext, h0, adv, i, setup));
        assert(link_poll_from(ext.subrange(i, j), 0, COPPER_LINK_UP_LIMIT as nat, 10, polled));
    }
    let link = match polled {
        Ok(l) => l,
        Err(e) => return Err(e),
    };
    if !link {
        return Err(IgcDriverErr::Phy);
    }
    proof {
        lemma_link_poll_found(new_accesses(l1, l2), 0, COPPER_LINK_UP_LIMIT as nat, 10);
    }
    let c = dev.config_collision_dist(hw);
    let ghost l3 = dev.accesses();
    proof {
        lemma_new_accesses_push(l0, l2, l3.last());
        assert(l3 == l2.push(l3.last()));
        let ext = new_accesses(l0, l3);
        assert(ext.take(i) =~= new_accesses(l0, l1));
        assert(ext.subrange(i, j) =~= new_accesses(l1, l2));
        assert(copper_setup_part(ext, h0, adv, i, setup));
        assert(link_poll_from(ext.subrange(i, j), 0, COPPER_LINK_UP_LIMIT as nat, 10, polled));
    }
    match c {
        Ok(()) => {},
        Err(e) => return Err(e),
    }
    let fcr = dev.config_fc_after_link_up(hw);
    let ghost l4 = dev.accesses();
    proof {
        lemma_new_accesses_push(l0, l3, l4.last());
        assert(l4 == l3.push(l4.last()));
        let ext = new_accesses(l0, l4);
        assert(ext.take(i) =~= new_accesses(l0, l1));
        assert(ext.subrange(i, j) =~= new_accesses(l1, l2));
        assert(ext[j] == new_accesses(l0, l3)[j]);
        assert(copper_setup_part(ext, h0, adv, i, setup));
        assert(link_poll_from(ext.subrange(i, j), 0, COPPER_LINK_UP_LIMIT as nat, 10, polled));
        let k = l2.len() - 1 - l0.len();
        assert(ext[k] == l2.last());
        assert(new_accesses(l1, l2).last() == l2.last());
    }
    match fcr {
        Ok(()) => {},
        Err(e) => return Err(e),
    }
    Ok(())
}

/// The calls that set link up on an I225 whose CTRL and PHPM read `ctrl`
/// and `phpm`: CTRL is written with SLU set and forced speed and duplex
/// cleared, and PHPM with go-link-down cleared.
pub open spec fn link_up_plan(ctrl: u32, phpm: u32) -> Seq<IgcAccess> {
    seq![
        IgcAccess::Read { offset: IGC_CTRL, r: Ok(0) },
        IgcAccess::Write { offset: IGC_CTRL, value: (ctrl | IGC_CTRL_SLU) & !(IGC_CTRL_FRCSPD | IGC_CTRL_FRCDPX), r: Ok(()) },
        IgcAccess::Read { offset: IGC_I225_PHPM, r: Ok(0) },
        IgcAccess::Write { offset: IGC_I225_PHPM, value: phpm & !IGC_I225_PHPM_GO_LINKD, r: Ok(()) },
    ]
}

/// The calls of an I225 copper link set-up of `hw`: `link_up_plan` for the
/// values read, whose first failure ends it; then `copper_link_calls`.
pub open spec fn copper_i225_calls(ext: Seq<IgcAccess>, hw: IgcHw, adv: u16, r: Result<(), IgcDriverErr>) -> bool {
    let plan = link_up_plan(read_value(ext[0]), read_value(ext[2]));
    if ext.len() >= 4 && plan_prefix_ok(ext.take(4), plan) {
        copper_link_calls(ext.skip(4), hw, adv, r)
    } else {
        plan_until_error(ext, plan) && access_err(ext.last()) is Some && r == plan_result(ext)
    }
}

/// Sets link up without forced speed or duplex, takes the PHY out of
/// go-link-down, then sets up the copper link.
#[verifier::rlimit(60)]
#[verifier::spinoff_prover]
pub fn igc_setup_copper_link_i225<D: IgcDevice>(dev: &mut D, hw: &mut IgcHw) -> (r: Result<(), IgcDriverErr>)
    ensures
        !old(hw).mac.autoneg ==> *final(hw) == *old(hw),
        old(hw).mac.autoneg && r is Ok ==> copper_autoneg_done(*old(hw), *final(hw), true),
        old(hw).mac.autoneg && r is Err ==> *final(hw) == *old(hw) || copper_autoneg_done(*old(hw), *final(hw), false),
        extends_log(old(dev).accesses(), final(dev).accesses()),
        copper_i225_calls(new_accesses(old(dev).accesses(), final(dev).accesses()), *old(hw), final(hw).phy.autoneg_advertised, r),
{
    let ghost l0 = dev.accesses();
    proof {
        assert(l0.take(l0.len() as int) =~= l0);
        assert(new_accesses(l0, l0) =~= Seq::<IgcAccess>::empty());
    }
    let a = dev.read_reg(IGC_CTRL);
    proof { lemma_new_accesses_push(l0, l0, dev.accesses().last()); }
    let ghost e1 = new_accesses(l0, dev.accesses());
    let ctrl_read = match a {
        Ok(v) => v,
        Err(e) => {
            proof {
                lemma_plan_next(Seq::empty(), link_up_plan(read_value(e1[0]), read_value(e1[2])), e1[0]);
                assert(Seq::<IgcAccess>::empty().push(e1[0]) =~= e1);
            }
            return Err(e);
        },
    };
    let ctrl = (ctrl_read | IGC_CTRL_SLU) & !(IGC_CTRL_FRCSPD | IGC_CTRL_FRCDPX);
    let ghost l1 = dev.accesses();
    let w = dev.write_reg(IGC_CTRL, ctrl);
    proof { lemma_new_accesses_push(l0, l1, dev.accesses().last()); }
    let ghost e2 = new_accesses(l0, dev.accesses());
    match w {
        Ok(()) => {},
        Err(e) => {
            proof {
                let p = link_up_plan(read_value(e2[0]), read_value(e2[2]));
                lemma_plan_next(Seq::empty(), p, e2[0]);
                assert(Seq::<IgcAccess>::empty().push(e2[0]) =~= e2.take(1));
                lemma_plan_next(e2.take(1), p, e2[1]);
                assert(e2.take(1).push(e2[1]) =~= e2);
            }
            return Err(e);
        },
    }
    let ghost l2 = dev.accesses();
    let c = dev.read_reg(IGC_I225_PHPM);
    proof { lemma_new_accesses_push(l0, l2, dev.accesses().last()); }
    let ghost e3 = new_accesses(l0, dev.accesses());
    let phpm_read = match c {
        Ok(v) => v,
        Err(e) => {
            proof {
                let p = link_up_plan(read_value(e3[0]), read_value(e3[2]));
                lemma_plan_next(Seq::empty(), p, e3[0]);
                assert(Seq::<IgcAccess>::empty().push(e3[0]) =~= e3.take(1));
                lemma_plan_next(e3.take(1), p, e3[1]);
                assert(e3.take(1).push(e3[1]) =~= e3.take(2));
                lemma_plan_next(e3.take(2), p, e3[2]);
                assert(e3.take(2).push(e3[2]) =~= e3);
            }
            return Err(e);
        },
    };
    let phpm = phpm_read & !IGC_I225_PHPM_GO_LINKD;
    let ghost plan = link_up_plan(ctrl_read, phpm_read);
    let ghost l3 = dev.accesses();
    let d = dev.write_reg(IGC_I225_PHPM, phpm);
    proof { lemma_new_accesses_push(l0, l3, dev.accesses().last()); }
    let ghost e4 = new_accesses(l0, dev.accesses());
    proof {
        assert(read_value(e4[0]) == ctrl_read && read_value(e4[2]) == phpm_read);
        lemma_plan_next(Seq::empty(), plan, e4[0]);
        assert(Seq::<IgcAccess>::empty().push(e4[0]) =~= e4.take(1));
        lemma_plan_next(e4.take(1), plan, e4[1]);
        assert(e4.take(1).push(e4[1]) =~= e4.take(2));
        lemma_plan_next(e4.take(2), plan, e4[2]);
        assert(e4.take(2).push(e4[2]) =~= e4.take(3));
        lemma_plan_next(e4.take(3), plan, e4[3]);
        assert(e4.take(3).push(e4[3]) =~= e4);
        assert(e4.take(4) =~= e4);
    }
    match d {
        Ok(()) => {},
        Err(e) => return Err(e),
    }
    let ghost l4 = dev.accesses();
    let r = igc_setup_copper_link_generic(dev, hw);
    proof {
        lemma_extends_log_trans(l0, l4, dev.accesses());
        let ext = new_accesses(l0, dev.accesses());
        assert(ext.take(4) =~= e4);
        assert(ext.skip(4) =~= new_accesses(l4, dev.accesses()));
        assert(ext[0] == e4[0] && ext[2] == e4[2]);
    }
    r
}

/// What a link check does once the link is known to be `link` (and with
/// link under auto-negotiation, the collision distance and flow control
/// were set up first), from position `j` of `ext`: the LTR set-up for it
/// (`ltr_calls`, with the controller state `hw`).
pub open spec fn link_known_calls(ext: Seq<IgcAccess>, j: int, hw: IgcHw, autoneg: bool, link: bool, r: Result<(), IgcDriverErr>) -> bool {
    if link && autoneg {
        &&& ext.len() > j
        &&& ext[j] is ConfigCollisionDist
        &&& match ext[j]->ConfigCollisionDist_r {
            Err(e) => ext.len() == j + 1 && r == Err::<(), IgcDriverErr>(e),
            Ok(_) => {
                &&& ext.len() > j + 1
                &&& ext[j + 1] is ConfigFcAfterLinkUp
                &&& match ext[j + 1]->ConfigFcAfterLinkUp_r {
                    Err(e) => ext.len() == j + 2 && r == Err::<(), IgcDriverErr>(e),
                    Ok(_) => ltr_calls(ext.skip(j + 2), hw, true, r),
                }
            },
        }
    } else {
        0 <= j <= ext.len() && ltr_calls(ext.skip(j), hw, link, r)
    }
}

/// The calls of a link check of a controller in state `old_hw`, ending in
/// state `new_hw`: with a stale link status, one PHY_STATUS poll round, and
/// when it saw link a second one; a poll error ends it. Then
/// `link_known_calls` with the link the second round saw (none when a round
/// saw none or the status was not stale).
pub open spec fn check_link_calls(ext: Seq<IgcAccess>, old_hw: IgcHw, new_hw: IgcHw, r: Result<(), IgcDriverErr>) -> bool {
    if !old_hw.mac.get_link_status {
        link_known_calls(ext, 0, new_hw, old_hw.mac.autoneg, false, r)
    } else {
        exists|j1: int, p1: Result<bool, IgcDriverErr>| {
            &&& 0 <= j1 <= ext.len()
            &&& #[trigger] link_poll_from(ext.take(j1), 0, 1, 0, p1)
            &&& match p1 {
                Err(e) => j1 == ext.len() && r == Err::<(), IgcDriverErr>(e),
                Ok(l1) => if !l1 {
                    link_known_calls(ext, j1, new_hw, old_hw.mac.autoneg, false, r)
                } else {
                    exists|j2: int, p2: Result<bool, IgcDriverErr>| {
                        &&& j1 <= j2 <= ext.len()
                        &&& #[trigger] link_poll_from(ext.subrange(j1, j2), 0, 1, 0, p2)
                        &&& match p2 {
                            Err(e) => j2 == ext.len() && r == Err::<(), IgcDriverErr>(e),
                            Ok(l2) => link_known_calls(ext, j2, new_hw, old_hw.mac.autoneg, l2, r),
                        }
                    }
                },
            }
        }
    }
}

/// Checks for link when the link status is stale: with link, records that
/// the status is current, clears the downshift flag, and under
/// auto-negotiation configures collision distance and flow control. Then sets
/// the LTR thresholds for the link found.
#[verifier::rlimit(60)]
#[verifier::spinoff_prover]
pub fn igc_check_for_link_i225<D: IgcDevice>(dev: &mut D, hw: &mut IgcHw) -> (r: Result<(), IgcDriverErr>)
    ensures
        !old(hw).mac.get_link_status ==> *final(hw) == *old(hw) && r is Ok,
        *final(hw) == *old(hw) || *final(hw) == (IgcHw {
            mac: IgcMacInfo { get_link_status: false, ..old(hw).mac },
            phy: IgcPhyInfo { speed_downgraded: false, ..old(hw).phy },
            ..*old(hw)
        }),
        extends_log(old(dev).accesses(), final(dev).accesses()),
        check_link_calls(new_accesses(old(dev).accesses(), final(dev).accesses()), *old(hw), *final(hw), r),
{
    let ghost l0 = dev.accesses();
    let ghost h0 = *hw;
    proof { assert(l0.take(l0.len() as int) =~= l0); }
    if !hw.mac.get_link_status {
        let r = igc_set_ltr_i225(dev, hw, false);
        proof {
            let ext = new_accesses(l0, dev.accesses());
            assert(ext.skip(0) =~= ext);
        }
        return r;
    }
    let p1 = igc_phy_has_link_generic(dev, hw, 1, 0);
    let ghost la = dev.accesses();
    let ghost j1 = new_accesses(l0, la).len() as int;
    proof { assert(new_accesses(l0, la).take(j1) =~= new_accesses(l0, la)); }
    let l1 = match p1 {
        Ok(l) => l,
        Err(e) => return Err(e),
    };
    if !l1 {
        let r = igc_set_ltr_i225(dev, hw, false);
        proof {
            lemma_extends_log_trans(l0, la, dev.accesses());
            let ext = new_accesses(l0, dev.accesses());
            assert(ext.take(j1) =~= new_accesses(l0, la));
            assert(ext.skip(j1) =~= new_accesses(la, dev.accesses()));
            assert(link_poll_from(ext.take(j1), 0, 1, 0, p1));
        }
        return r;
    }
    let p2 = igc_phy_has_link_generic(dev, hw, 1, 0);
    let ghost lb = dev.accesses();
    let ghost j2 = new_accesses(l0, lb).len() as int;
    proof {
        lemma_extends_log_trans(l0, la, lb);
        let ext = new_accesses(l0, lb);
        assert(ext.take(j1) =~= new_accesses(l0, la));
        assert(ext.subrange(j1, j2) =~= new_accesses(la, lb));
        assert(link_poll_from(ext.take(j1), 0, 1, 0, p1));
        assert(link_poll_from(ext.subrange(j1, j2), 0, 1, 0, p2));
    }
    let l2 = match p2 {
        Ok(l) => l,
        Err(e) => return Err(e),
    };
    if !l2 {
        let r = igc_set_ltr_i225(dev, hw, false);
        proof {
            lemma_extends_log_trans(l0, lb, dev.accesses());
            let ext = new_accesses(l0, dev.accesses());
            assert(ext.take(j1) =~= new_accesses(l0, la));
            assert(ext.subrange(j1, j2) =~= new_accesses(la, lb));
            assert(ext.skip(j2) =~= new_accesses(lb, dev.accesses()));
            assert(link_poll_from(ext.take(j1), 0, 1, 0, p1));
            assert(link_poll_from(ext.subrange(j1, j2), 0, 1, 0, p2));
        }
        return r;
    }
    hw.mac.get_link_status = false;
    hw.phy.speed_downgraded = false;
    if !hw.mac.autoneg {
        let r = igc_set_ltr_i225(dev, hw, true);
        proof {
            lemma_extends_log_trans(l0, lb, dev.accesses());
            let ext = new_accesses(l0, dev.accesses());
            assert(ext.take(j1) =~= new_accesses(l0, la));
            assert(ext.subrange(j1, j2) =~= new_accesses(la, lb));
            assert(ext.skip(j2) =~= new_accesses(lb, dev.accesses()));
            assert(link_poll_from(ext.take(j1), 0, 1, 0, p1));
            assert(link_poll_from(ext.subrange(j1, j2), 0, 1, 0, p2));
        }
        return r;
    }
    let c = dev.config_collision_dist(hw);
    let ghost lc = dev.accesses();
    proof {
        lemma_new_accesses_push(l0, lb, lc.last());
        assert(lc == lb.push(lc.last()));
        let ext = new_accesses(l0, lc);
        assert(ext.take(j1) =~= new_accesses(l0, la));
        assert(ext.subrange(j1, j2) =~= new_accesses(la, lb));
        assert(link_poll_from(ext.take(j1), 0, 1, 0, p1));
        assert(link_poll_from(ext.subrange(j1, j2), 0, 1, 0, p2));
    }
    match c {
        Ok(()) => {},
        Err(e) => return Err(e),
    }
    let fc = dev.config_fc_after_link_up(hw);
    let ghost ld = dev.accesses();
    proof {
        lemma_new_accesses_push(l0, lc, ld.last());
        assert(ld == lc.push(ld.last()));
        let ext = new_accesses(l0, ld);
        assert(ext.take(j1) =~= new_accesses(l0, la));
        assert(ext.subrange(j1, j2) =~= new_accesses(la, lb));
        assert(ext[j2] == new_accesses(l0, lc)[j2]);
        assert(link_poll_from(ext.take(j1), 0, 1, 0, p1));
        assert(link_poll_from(ext.subrange(j1, j2), 0, 1, 0, p2));
    }
    match fc {
        Ok(()) => {},
        Err(e) => return Err(e),
    }
    let r = igc_set_ltr_i225(dev, hw, true);
    proof {
        lemma_extends_log_trans(l0, ld, dev.accesses());
        let ext = new_accesses(l0, dev.accesses());
        assert(ext.take(j1) =~= new_accesses(l0, la));
        assert(ext.subrange(j1, j2) =~= new_accesses(la, lb));
        assert(ext[j2] == new_accesses(l0, ld)[j2]);
        assert(ext[j2 + 1] == new_accesses(l0, ld)[j2 + 1]);
        assert(ext.skip(j2 + 2) =~= new_accesses(ld, dev.accesses()));
        assert(link_poll_from(ext.take(j1), 0, 1, 0, p1));
        assert(link_poll_from(ext.subrange(j1, j2), 0, 1, 0, p2));
    }
    r
}

// ---------------------------------------------------------------------------
// MDI access.

/// Whether a final MDIC value reports a good transfer of `offset`: ready,
/// no error, and the register field matching.
pub open spec fn mdic_ok(mdic: u32, offset: u32) -> bool {
    &&& mdic & IGC_MDIC_READY != 0
    &&& mdic & IGC_MDIC_ERROR == 0
    &&& (mdic & IGC_MDIC_REG_MASK) >> IGC_MDIC_REG_SHIFT == offset
}

pub fn mdic_check(mdic: u32, offset: u32) -> (r: Result<(), IgcDriverErr>)
    ensures
        r is Ok <==> mdic_ok(mdic, offset),
        r is Err ==> r == Err::<(), IgcDriverErr>(IgcDriverErr::Phy),
{
    if mdic & IGC_MDIC_READY == 0 {
        return Err(IgcDriverErr::Phy);
    }
    if mdic & IGC_MDIC_ERROR != 0 {
        return Err(IgcDriverErr::Phy);
    }
    if (mdic & IGC_MDIC_REG_MASK) >> IGC_MDIC_REG_SHIFT != offset {
        return Err(IgcDriverErr::Phy);
    }
    Ok(())
}

/// The polling calls of an MDIC transfer from position `p` of `ext` with `k`
/// rounds left, the last MDIC value seen being `last`: each round waits
/// 50 us and reads MDIC; a failing read ends it with its error, the ready
/// bit ends it with that value; out of rounds, the last value is the answer.
pub open spec fn mdic_poll_from(ext: Seq<IgcAccess>, p: int, k: nat, last: u32, r: Result<u32, IgcDriverErr>) -> bool
    decreases k,
{
    if k == 0 {
        ext.len() == p && r == Ok::<u32, IgcDriverErr>(last)
    } else {
        &&& ext.len() > p + 1
        &&& ext[p] == IgcAccess::WaitUs { usec: 50 }
        &&& ext[p + 1] == IgcAccess::Read { offset: IGC_MDIC, r: ext[p + 1]->Read_r }
        &&& match ext[p + 1]->Read_r {
            Err(e) => ext.len() == p + 2 && r == Err::<u32, IgcDriverErr>(e),
            Ok(v) => if v & IGC_MDIC_READY != 0 {
                ext.len() == p + 2 && r == Ok::<u32, IgcDriverErr>(v)
            } else {
                mdic_poll_from(ext, p + 2, (k - 1) as nat, v, r)
            },
        }
    }
}

/// The calls of an MDIC transfer of `command`: MDIC is written the command
/// (a failure ends it), then polled (see `mdic_poll_from`) up to
/// `3 * IGC_GEN_POLL_TIMEOUT` times.
pub open spec fn mdic_transfer_calls(ext: Seq<IgcAccess>, command: u32, r: Result<u32, IgcDriverErr>) -> bool {
    &&& ext.len() > 0
    &&& ext[0] == IgcAccess::Write { offset: IGC_MDIC, value: command, r: ext[0]->Write_r }
    &&& ext[0]->Write_r is Err ==> ext.len() == 1 && r == Err::<u32, IgcDriverErr>(ext[0]->Write_r->Err_0)
    &&& ext[0]->Write_r is Ok ==> mdic_poll_from(ext, 1, (IGC_GEN_POLL_TIMEOUT * 3) as nat, command, r)
}

/// Issues an MDIC command and polls until the MAC reports it ready; the last
/// MDIC value read.
fn mdic_transfer<D: IgcDevice>(dev: &mut D, command: u32) -> (r: Result<u32, IgcDriverErr>)
    ensures
        extends_log(old(dev).accesses(), final(dev).accesses()),
        mdic_transfer_calls(new_accesses(old(dev).accesses(), final(dev).accesses()), command, r),
{
    let ghost l0 = dev.accesses();
    let w = dev.write_reg(IGC_MDIC, command);
    proof {
        assert(dev.accesses().take(l0.len() as int) =~= l0);
    }
    match w {
        Ok(()) => {},
        Err(e) => {
            assert(new_accesses(l0, dev.accesses()) =~= seq![dev.accesses().last()]);
            return Err(e);
        },
    }
    let mut mdic = command;
    let mut i: u32 = 0;
    proof {
        let c = new_accesses(l0, dev.accesses());
        assert forall|e: Seq<IgcAccess>, rr: Result<u32, IgcDriverErr>|
            e.take(1 + 2 * i) == c
            && #[trigger] mdic_poll_from(e, 1 + 2 * i, (IGC_GEN_POLL_TIMEOUT * 3 - i) as nat, mdic, rr)
            implies mdic_transfer_calls(e, command, rr) by {
            assert(e[0] == e.take(1)[0]);
        }
    }
    while i < IGC_GEN_POLL_TIMEOUT * 3
        invariant
            i <= IGC_GEN_POLL_TIMEOUT * 3,
            l0 == old(dev).accesses(),
            extends_log(l0, dev.accesses()),
            new_accesses(l0, dev.accesses()).len() == 1 + 2 * i,
            forall|e: Seq<IgcAccess>, rr: Result<u32, IgcDriverErr>|
                e.take(1 + 2 * i) == new_accesses(l0, dev.accesses())
                && #[trigger] mdic_poll_from(e, 1 + 2 * i, (IGC_GEN_POLL_TIMEOUT * 3 - i) as nat, mdic, rr)
                ==> mdic_transfer_calls(e, command, rr),
        decreases IGC_GEN_POLL_TIMEOUT * 3 - i,
    {
        let ghost c0 = new_accesses(l0, dev.accesses());
        let ghost m0 = mdic;
        dev.wait_microsec(50);
        let rd = dev.read_reg(IGC_MDIC);
        let ghost c1 = new_accesses(l0, dev.accesses());
        proof {
            assert(dev.accesses().take(l0.len() as int) =~= l0);
            assert(c1.take(1 + 2 * i) =~= c0);
        }
        mdic = match rd {
            Ok(v) => v,
            Err(e) => {
                assert(mdic_poll_from(c1, 1 + 2 * i, (IGC_GEN_POLL_TIMEOUT * 3 - i) as nat, m0, Err(e)));
                return Err(e);
            },
        };
        if mdic & IGC_MDIC_READY != 0 {
            assert(mdic_poll_from(c1, 1 + 2 * i, (IGC_GEN_POLL_TIMEOUT * 3 - i) as nat, m0, Ok(mdic)));
            assert(c1.take(c1.len() as int) =~= c1);
            return Ok(mdic);
        }
        proof {
            assert forall|e: Seq<IgcAccess>, rr: Result<u32, IgcDriverErr>|
                e.take(1 + 2 * (i + 1)) == c1
                && #[trigger] mdic_poll_from(e, 1 + 2 * (i + 1), (IGC_GEN_POLL_TIMEOUT * 3 - (i + 1)) as nat, mdic, rr)
                implies mdic_transfer_calls(e, command, rr) by {
                assert(e.take(1 + 2 * i) =~= c1.take(1 + 2 * i));
                assert(e[1 + 2 * i] == c1[1 + 2 * i]);
                assert(e[2 + 2 * i] == c1[2 + 2 * i]);
                assert(mdic_poll_from(e, 1 + 2 * i, (IGC_GEN_POLL_TIMEOUT * 3 - i) as nat, m0, rr));
            }
        }
        i += 1;
    }
    proof {
        let c = new_accesses(l0, dev.accesses());
        assert(c.take(c.len() as int) =~= c);
        assert(mdic_poll_from(c, 1 + 2 * i, (IGC_GEN_POLL_TIMEOUT * 3 - i) as nat, mdic, Ok(mdic)));
    }
    Ok(mdic)
}

/// What a PHY register read makes of the MDIC transfer's answer `t` (see
/// `mdic_check`): the value when the final MDIC value is good for `offset`,
/// a PHY error otherwise; a transfer error is passed on (a parameter error
/// becoming a PHY error).
pub open spec fn mdic_read_result(t: Result<u32, IgcDriverErr>, offset: u32) -> Result<u16, IgcDriverErr> {
    match t {
        Ok(m) => if mdic_ok(m, offset) { Ok(m as u16) } else { Err(IgcDriverErr::Phy) },
        Err(IgcDriverErr::Param) => Err(IgcDriverErr::Phy),
        Err(e) => Err(e),
    }
}

/// What a PHY register write makes of the MDIC transfer's answer `t`.
pub open spec fn mdic_write_result(t: Result<u32, IgcDriverErr>, offset: u32) -> Result<(), IgcDriverErr> {
    match t {
        Ok(m) => if mdic_ok(m, offset) { Ok(()) } else { Err(IgcDriverErr::Phy) },
        Err(IgcDriverErr::Param) => Err(IgcDriverErr::Phy),
        Err(e) => Err(e),
    }
}

/// Reads PHY register `offset` through MDIC. A register beyond the 5-bit
/// address range is a parameter error; an MDIC transfer that is not ready,
/// reports an error or answers for another register is a PHY error.
pub fn igc_read_phy_reg_mdic<D: IgcDevice>(dev: &mut D, hw: &IgcHw, offset: u32) -> (r: Result<u16, IgcDriverErr>)
    ensures
        offset > MAX_PHY_REG_ADDRESS <==> r == Err::<u16, IgcDriverErr>(IgcDriverErr::Param),
        r matches Ok(v) ==> exists|mdic: u32| mdic_ok(mdic, offset) && v == mdic as u16,
        offset > MAX_PHY_REG_ADDRESS ==> final(dev).accesses() == old(dev).accesses(),
        extends_log(old(dev).accesses(), final(dev).accesses()),
        offset <= MAX_PHY_REG_ADDRESS ==> exists|t: Result<u32, IgcDriverErr>|
            #[trigger] mdic_transfer_calls(new_accesses(old(dev).accesses(), final(dev).accesses()),
                (offset << IGC_MDIC_REG_SHIFT) | (hw.phy.addr << IGC_MDIC_PHY_SHIFT) | IGC_MDIC_OP_READ, t)
            && r == mdic_read_result(t, offset),
{
    let ghost l0 = dev.accesses();
    assert(l0.take(l0.len() as int) =~= l0);
    if offset > MAX_PHY_REG_ADDRESS {
        return Err(IgcDriverErr::Param);
    }
    let command = (offset << IGC_MDIC_REG_SHIFT) | (hw.phy.addr << IGC_MDIC_PHY_SHIFT) | IGC_MDIC_OP_READ;
    let t = mdic_transfer(dev, command);
    assert(mdic_transfer_calls(new_accesses(l0, dev.accesses()), command, t));
    let mdic = match t {
        Ok(v) => v,
        Err(IgcDriverErr::Param) => return Err(IgcDriverErr::Phy),
        Err(e) => return Err(e),
    };
    match mdic_check(mdic, offset) {
        Ok(()) => Ok(mdic as u16),
        Err(e) => Err(e),
    }
}

/// Writes `data` to PHY register `offset` through MDIC, with the errors of
/// `igc_read_phy_reg_mdic`.
pub fn igc_write_phy_reg_mdic<D: IgcDevice>(dev: &mut D, hw: &IgcHw, offset: u32, data: u16) -> (r: Result<(), IgcDriverErr>)
    ensures
        offset > MAX_PHY_REG_ADDRESS <==> r == Err::<(), IgcDriverErr>(IgcDriverErr::Param),
        offset > MAX_PHY_REG_ADDRESS ==> final(dev).accesses() == old(dev).accesses(),
        extends_log(old(dev).accesses(), final(dev).accesses()),
        offset <= MAX_PHY_REG_ADDRESS ==> exists|t: Result<u32, IgcDriverErr>|
            #[trigger] mdic_transfer_calls(new_accesses(old(dev).accesses(), final(dev).accesses()),
                (data as u32) | (offset << IGC_MDIC_REG_SHIFT) | (hw.phy.addr << IGC_MDIC_PHY_SHIFT) | IGC_MDIC_OP_WRITE, t)
            && (r is Ok <==> mdic_write_result(t, offset) is Ok)
            && (r is Err ==> r == mdic_write_result(t, offset)),
{
    let ghost l0 = dev.accesses();
    assert(l0.take(l0.len() as int) =~= l0);
    if offset > MAX_PHY_REG_ADDRESS {
        return Err(IgcDriverErr::Param);
    }
    let command = (data as u32) | (offset << IGC_MDIC_REG_SHIFT) | (hw.phy.addr << IGC_MDIC_PHY_SHIFT) | IGC_MDIC_OP_WRITE;
    let t = mdic_transfer(dev, command);
    assert(mdic_transfer_calls(new_accesses(l0, dev.accesses()), command, t));
    let mdic = match t {
        Ok(v) => v,
        Err(IgcDriverErr::Param) => return Err(IgcDriverErr::Phy),
        Err(e) => return Err(e),
    };
    mdic_check(mdic, offset)
}

/// The PHY address configured in MDICNFG, or `default_addr` when none is, and
/// MDICNFG with that address filled in.
pub open spec fn mdic_phy_addr(mdicnfg: u32, default_addr: u32) -> (u32, u32) {
    let found = (mdicnfg & IGC_MDICNFG_PHY_MASK) >> IGC_MDICNFG_PHY_SHIFT;
    let addr = if found == 0 { default_addr } else { found };
    (addr, (mdicnfg & !IGC_MDICNFG_PHY_MASK) | (addr << IGC_MDICNFG_PHY_SHIFT))
}

pub fn compute_mdic_phy_addr(mdicnfg: u32, default_addr: u32) -> (r: (u32, u32))
    ensures
        r == mdic_phy_addr(mdicnfg, default_addr),
{
    let found = (mdicnfg & IGC_MDICNFG_PHY_MASK) >> IGC_MDICNFG_PHY_SHIFT;
    let addr = if found == 0 { default_addr } else { found };
    (addr, (mdicnfg & !IGC_MDICNFG_PHY_MASK) | (addr << IGC_MDICNFG_PHY_SHIFT))
}

/// The calls of an MDICNFG update: MDICNFG is read, and written what
/// `mdic_phy_addr` computes from the value read.
pub open spec fn mdicnfg_plan(mdicnfg: u32, default_addr: u32) -> Seq<IgcAccess> {
    seq![
        IgcAccess::Read { offset: IGC_MDICNFG, r: Ok(0) },
        IgcAccess::Write { offset: IGC_MDICNFG, value: mdic_phy_addr(mdicnfg, default_addr).1, r: Ok(()) },
    ]
}

/// Makes MDICNFG name a PHY address (the configured one, or `default_addr`)
/// and records it as the PHY's address.
pub fn igc_sync_mdic_phy_addr<D: IgcDevice>(dev: &mut D, hw: &mut IgcHw, default_addr: u32) -> (r: Result<u32, IgcDriverErr>)
    ensures
        extends_log(old(dev).accesses(), final(dev).accesses()),
        ({
            let ext = new_accesses(old(dev).accesses(), final(dev).accesses());
            let addr = mdic_phy_addr(read_value(ext[0]), default_addr).0;
            &&& plan_until_error(ext, mdicnfg_plan(read_value(ext[0]), default_addr))
            &&& match plan_result(ext) {
                Ok(_) => r == Ok::<u32, IgcDriverErr>(addr)
                    && *final(hw) == (IgcHw { phy: IgcPhyInfo { addr: addr, ..old(hw).phy }, ..*old(hw) }),
                Err(e) => r == Err::<u32, IgcDriverErr>(e) && *final(hw) == *old(hw),
            }
        }),
{
    let ghost l0 = dev.accesses();
    proof {
        assert(l0.take(l0.len() as int) =~= l0);
        assert(new_accesses(l0, l0) =~= Seq::<IgcAccess>::empty());
    }
    let a = dev.read_reg(IGC_MDICNFG);
    proof {
        lemma_new_accesses_push(l0, l0, dev.accesses().last());
    }
    let ghost e1 = new_accesses(l0, dev.accesses());
    let mdicnfg = match a {
        Ok(v) => v,
        Err(e) => {
            proof {
                lemma_plan_next(Seq::empty(), mdicnfg_plan(read_value(e1[0]), default_addr), e1[0]);
                assert(Seq::<IgcAccess>::empty().push(e1[0]) =~= e1);
            }
            return Err(e);
        },
    };
    let ghost plan = mdicnfg_plan(mdicnfg, default_addr);
    proof {
        lemma_plan_next(Seq::empty(), plan, e1[0]);
        assert(Seq::<IgcAccess>::empty().push(e1[0]) =~= e1);
    }
    let (addr, reg) = compute_mdic_phy_addr(mdicnfg, default_addr);
    let ghost l1 = dev.accesses();
    let w = dev.write_reg(IGC_MDICNFG, reg);
    proof {
        lemma_new_accesses_push(l0, l1, dev.accesses().last());
        lemma_plan_next(new_accesses(l0, l1), plan, dev.accesses().last());
        assert(new_accesses(l0, dev.accesses())[0] == e1[0]);
    }
    match w {
        Ok(()) => {},
        Err(e) => return Err(e),
    }
    proof { lemma_plan_done(new_accesses(l0, dev.accesses()), plan); }
    hw.phy.addr = addr;
    Ok(addr)
}

/// Device address and register of a GPY PHY register address: the upper
/// half selects the MMD device (0 for a plain MDI register).
pub open spec fn gpy_split(offset: u32) -> (u32, u32) {
    ((offset & GPY_MMD_MASK) >> GPY_MMD_SHIFT, offset & GPY_REG_MASK)
}

/// The value a PHY register read answered (0 for anything else).
pub open spec fn phy_read_value(a: IgcAccess) -> u16 {
    match a {
        IgcAccess::PhyRead { r: Ok(v), .. } => v,
        _ => 0,
    }
}

/// The calls of an MMD access to register `address` of device `dev_addr`:
/// the device, the address and the data function are set in MMDAC/MMDAAD,
/// MMDAAD is read (or written `data`), and MMDAC is cleared.
pub open spec fn xmdio_plan(address: u16, dev_addr: u8, data: u16, read: bool) -> Seq<IgcAccess> {
    seq![
        IgcAccess::PhyWrite { offset: IGC_MMDAC, data: dev_addr as u16, r: Ok(()) },
        IgcAccess::PhyWrite { offset: IGC_MMDAAD, data: address, r: Ok(()) },
        IgcAccess::PhyWrite { offset: IGC_MMDAC, data: IGC_MMDAC_FUNC_DATA | dev_addr as u16, r: Ok(()) },
        if read {
            IgcAccess::PhyRead { offset: IGC_MMDAAD, r: Ok(0) }
        } else {
            IgcAccess::PhyWrite { offset: IGC_MMDAAD, data, r: Ok(()) }
        },
        IgcAccess::PhyWrite { offset: IGC_MMDAC, data: 0, r: Ok(()) },
    ]
}

/// Whether the MMD read in the calls `ext` answered a value.
pub open spec fn xmdio_read_done(ext: Seq<IgcAccess>) -> bool {
    ext.len() >= 4 && access_err(ext[3]) is None
}

/// Accesses MMD register `address` of device `dev_addr` through the MMD
/// access registers: reads it into `data`, or writes `data` to it; then
/// resets the access control register. The first failing call's error ends
/// it.
#[verifier::rlimit(40)]
pub fn igc_access_xmdio_reg<D: IgcDevice>(dev: &mut D, hw: &IgcHw, address: u16, dev_addr: u8, data: &mut u16, read: bool) -> (r: Result<(), IgcDriverErr>)
    ensures
        extends_log(old(dev).accesses(), final(dev).accesses()),
        plan_until_error(new_accesses(old(dev).accesses(), final(dev).accesses()), xmdio_plan(address, dev_addr, *old(data), read)),
        r == plan_result(new_accesses(old(dev).accesses(), final(dev).accesses())),
        read && xmdio_read_done(new_accesses(old(dev).accesses(), final(dev).accesses())) ==>
            *final(data) == phy_read_value(new_accesses(old(dev).accesses(), final(dev).accesses())[3]),
        !(read && xmdio_read_done(new_accesses(old(dev).accesses(), final(dev).accesses()))) ==> *final(data) == *old(data),
{
    let ghost l0 = dev.accesses();
    let ghost plan = xmdio_plan(address, dev_addr, *data, read);
    proof {
        assert(l0.take(l0.len() as int) =~= l0);
        assert(new_accesses(l0, l0) =~= Seq::<IgcAccess>::empty());
    }
    let ghost l1 = dev.accesses();
    let a1 = dev.phy_write_reg(hw, IGC_MMDAC, dev_addr as u16);
    proof {
        lemma_new_accesses_push(l0, l1, dev.accesses().last());
        lemma_plan_next(new_accesses(l0, l1), plan, dev.accesses().last());
    }
    match a1 {
        Ok(()) => {},
        Err(e) => return Err(e),
    }
    let ghost l2 = dev.accesses();
    let a2 = dev.phy_write_reg(hw, IGC_MMDAAD, address);
    proof {
        lemma_new_accesses_push(l0, l2, dev.accesses().last());
        lemma_plan_next(new_accesses(l0, l2), plan, dev.accesses().last());
    }
    match a2 {
        Ok(()) => {},
        Err(e) => return Err(e),
    }
    let ghost l3 = dev.accesses();
    let a3 = dev.phy_write_reg(hw, IGC_MMDAC, IGC_MMDAC_FUNC_DATA | dev_addr as u16);
    proof {
        lemma_new_accesses_push(l0, l3, dev.accesses().last());
        lemma_plan_next(new_accesses(l0, l3), plan, dev.accesses().last());
    }
    match a3 {
        Ok(()) => {},
        Err(e) => return Err(e),
    }
    let ghost l4 = dev.accesses();
    if read {
        let a4 = dev.phy_read_reg(hw, IGC_MMDAAD);
        proof {
            lemma_new_accesses_push(l0, l4, dev.accesses().last());
            lemma_plan_next(new_accesses(l0, l4), plan, dev.accesses().last());
        }
        match a4 {
            Ok(v) => *data = v,
            Err(e) => return Err(e),
        }
    } else {
        let a4 = dev.phy_write_reg(hw, IGC_MMDAAD, *data);
        proof {
            lemma_new_accesses_push(l0, l4, dev.accesses().last());
            lemma_plan_next(new_accesses(l0, l4), plan, dev.accesses().last());
        }
        match a4 {
            Ok(()) => {},
            Err(e) => return Err(e),
        }
    }
    let ghost l5 = dev.accesses();
    let a5 = dev.phy_write_reg(hw, IGC_MMDAC, 0);
    proof {
        lemma_new_accesses_push(l0, l5, dev.accesses().last());
        lemma_plan_next(new_accesses(l0, l5), plan, dev.accesses().last());
        if a5 is Ok {
            lemma_plan_done(new_accesses(l0, dev.accesses()), plan);
        }
        assert(new_accesses(l0, dev.accesses())[3] == new_accesses(l0, l5)[3]);
    }
    match a5 {
        Ok(()) => Ok(()),
        Err(e) => Err(e),
    }
}

/// The calls of a PHY register access under the PHY semaphore: the PHY is
/// acquired (a failure ends it with that error); then the MDIC calls of the
/// access (`mdic` tells whether the calls between are that access with
/// outcome `m`), and the PHY is released; a failed release gives its error,
/// else the outcome is `m`.
pub open spec fn locked_access<T>(ext: Seq<IgcAccess>, mdic: spec_fn(Seq<IgcAccess>, Result<T, IgcDriverErr>) -> bool, r: Result<T, IgcDriverErr>) -> bool {
    &&& ext.len() > 0
    &&& ext[0] is PhyAcquire
    &&& access_err(ext[0]) is Some ==> ext.len() == 1 && r == Err::<T, IgcDriverErr>(access_err(ext[0])->0)
    &&& access_err(ext[0]) is None ==> {
        &&& ext.len() >= 2
        &&& ext.last() is PhyRelease
        &&& exists|m: Result<T, IgcDriverErr>| #[trigger] mdic(ext.subrange(1, ext.len() - 1), m) && r == (match access_err(ext.last()) {
            Some(e) => Err::<T, IgcDriverErr>(e),
            None => m,
        })
    }
}

/// The MDIC calls of a read of PHY register `reg` at PHY address `addr`, with
/// outcome `m`: none and a parameter error past the last register, else one
/// MDIC transfer.
pub open spec fn mdic_read_calls(calls: Seq<IgcAccess>, reg: u32, addr: u32, m: Result<u16, IgcDriverErr>) -> bool {
    if reg > MAX_PHY_REG_ADDRESS {
        calls.len() == 0 && m == Err::<u16, IgcDriverErr>(IgcDriverErr::Param)
    } else {
        exists|t: Result<u32, IgcDriverErr>| #[trigger] mdic_transfer_calls(calls,
            (reg << IGC_MDIC_REG_SHIFT) | (addr << IGC_MDIC_PHY_SHIFT) | IGC_MDIC_OP_READ, t)
            && m == mdic_read_result(t, reg)
    }
}

/// The MDIC calls of a write of `data` to PHY register `reg` at PHY address
/// `addr`, with outcome `m`.
pub open spec fn mdic_write_calls(calls: Seq<IgcAccess>, reg: u32, addr: u32, data: u16, m: Result<(), IgcDriverErr>) -> bool {
    if reg > MAX_PHY_REG_ADDRESS {
        calls.len() == 0 && m == Err::<(), IgcDriverErr>(IgcDriverErr::Param)
    } else {
        exists|t: Result<u32, IgcDriverErr>| #[trigger] mdic_transfer_calls(calls,
            (data as u32) | (reg << IGC_MDIC_REG_SHIFT) | (addr << IGC_MDIC_PHY_SHIFT) | IGC_MDIC_OP_WRITE, t)
            && (match m { Ok(_) => mdic_write_result(t, reg) is Ok, Err(e) => mdic_write_result(t, reg) == Err::<(), IgcDriverErr>(e) })
    }
}

/// Reads PHY register `offset` under the PHY semaphore.
fn with_phy_read<D: IgcDevice>(dev: &mut D, hw: &IgcHw, offset: u32) -> (r: Result<u16, IgcDriverErr>)
    ensures
        extends_log(old(dev).accesses(), final(dev).accesses()),
        locked_access(new_accesses(old(dev).accesses(), final(dev).accesses()),
            |c: Seq<IgcAccess>, m: Result<u16, IgcDriverErr>| mdic_read_calls(c, offset, hw.phy.addr, m), r),
{
    let ghost l0 = dev.accesses();
    proof { assert(l0.take(l0.len() as int) =~= l0); }
    let acq = dev.phy_acquire(hw);
    proof {
        lemma_new_accesses_push(l0, l0, dev.accesses().last());
        assert(new_accesses(l0, l0) =~= Seq::<IgcAccess>::empty());
    }
    match acq {
        Ok(()) => {},
        Err(e) => return Err(e),
    }
    let ghost l1 = dev.accesses();
    let result = igc_read_phy_reg_mdic(dev, hw, offset);
    let ghost l2 = dev.accesses();
    proof { lemma_extends_log_trans(l0, l1, l2); }
    let rel = dev.phy_release(hw);
    proof {
        lemma_new_accesses_push(l0, l2, dev.accesses().last());
        let ext = new_accesses(l0, dev.accesses());
        let mid = new_accesses(l1, l2);
        assert(ext.subrange(1, ext.len() - 1) =~= mid);
        let f = |c: Seq<IgcAccess>, m: Result<u16, IgcDriverErr>| mdic_read_calls(c, offset, hw.phy.addr, m);
        if offset > MAX_PHY_REG_ADDRESS {
            assert(mid =~= Seq::<IgcAccess>::empty());
        }
        assert(f(mid, result));
    }
    match rel {
        Ok(()) => {},
        Err(e) => return Err(e),
    }
    result
}

/// Reads a GPY PHY register: a plain MDI register under the PHY semaphore,
/// or an MMD register through the MMD access registers.
pub fn igc_read_phy_reg_gpy<D: IgcDevice>(dev: &mut D, hw: &IgcHw, offset: u32) -> (r: Result<u16, IgcDriverErr>)
    ensures
        extends_log(old(dev).accesses(), final(dev).accesses()),
        gpy_split(offset).0 == 0 ==> locked_access(new_accesses(old(dev).accesses(), final(dev).accesses()),
            |c: Seq<IgcAccess>, m: Result<u16, IgcDriverErr>| mdic_read_calls(c, gpy_split(offset).1, hw.phy.addr, m), r),
        gpy_split(offset).0 != 0 ==> ({
            let ext = new_accesses(old(dev).accesses(), final(dev).accesses());
            &&& plan_until_error(ext, xmdio_plan(gpy_split(offset).1 as u16, gpy_split(offset).0 as u8, 0, true))
            &&& r == (match plan_result(ext) {
                Ok(_) => Ok::<u16, IgcDriverErr>(phy_read_value(ext[3])),
                Err(e) => Err::<u16, IgcDriverErr>(e),
            })
        }),
{
    let dev_addr = (offset & GPY_MMD_MASK) >> GPY_MMD_SHIFT;
    let reg = offset & GPY_REG_MASK;
    if dev_addr == 0 {
        with_phy_read(dev, hw, reg)
    } else {
        let mut data: u16 = 0;
        assert(reg <= 0xffff) by (bit_vector)
            requires reg == offset & 0xFFFFu32;
        assert(dev_addr <= 0xffff) by (bit_vector)
            requires dev_addr == (offset & 0xFFFF0000u32) >> 16u32;
        match igc_access_xmdio_reg(dev, hw, reg as u16, dev_addr as u8, &mut data, true) {
            Ok(()) => Ok(data),
            Err(e) => Err(e),
        }
    }
}

/// Writes a GPY PHY register (see `igc_read_phy_reg_gpy`).
pub fn igc_write_phy_reg_gpy<D: IgcDevice>(dev: &mut D, hw: &IgcHw, offset: u32, data: u16) -> (r: Result<(), IgcDriverErr>)
    ensures
        extends_log(old(dev).accesses(), final(dev).accesses()),
        gpy_split(offset).0 == 0 ==> locked_access(new_accesses(old(dev).accesses(), final(dev).accesses()),
            |c: Seq<IgcAccess>, m: Result<(), IgcDriverErr>| mdic_write_calls(c, gpy_split(offset).1, hw.phy.addr, data, m), r),
        gpy_split(offset).0 != 0 ==> ({
            let ext = new_accesses(old(dev).accesses(), final(dev).accesses());
            &&& plan_until_error(ext, xmdio_plan(gpy_split(offset).1 as u16, gpy_split(offset).0 as u8, data, false))
            &&& r == plan_result(ext)
        }),
{
    let ghost l0 = dev.accesses();
    proof { assert(l0.take(l0.len() as int) =~= l0); }
    let dev_addr = (offset & GPY_MMD_MASK) >> GPY_MMD_SHIFT;
    let reg = offset & GPY_REG_MASK;
    if dev_addr == 0 {
        let acq = dev.phy_acquire(hw);
        proof {
            lemma_new_accesses_push(l0, l0, dev.accesses().last());
            assert(new_accesses(l0, l0) =~= Seq::<IgcAccess>::empty());
        }
        match acq {
            Ok(()) => {},
            Err(e) => return Err(e),
        }
        let ghost l1 = dev.accesses();
        let result = igc_write_phy_reg_mdic(dev, hw, reg, data);
        let ghost l2 = dev.accesses();
        proof { lemma_extends_log_trans(l0, l1, l2); }
        let rel = dev.phy_release(hw);
        proof {
            lemma_new_accesses_push(l0, l2, dev.accesses().last());
            let ext = new_accesses(l0, dev.accesses());
            let mid = new_accesses(l1, l2);
            assert(ext.subrange(1, ext.len() - 1) =~= mid);
            let f = |c: Seq<IgcAccess>, m: Result<(), IgcDriverErr>| mdic_write_calls(c, reg, hw.phy.addr, data, m);
            if reg > MAX_PHY_REG_ADDRESS {
                assert(mid =~= Seq::<IgcAccess>::empty());
            }
            assert(f(mid, result));
        }
        match rel {
            Ok(()) => {},
            Err(e) => return Err(e),
        }
        result
    } else {
        let mut d = data;
        assert(reg <= 0xffff) by (bit_vector)
            requires reg == offset & 0xFFFFu32;
        igc_access_xmdio_reg(dev, hw, reg as u16, dev_addr as u8, &mut d, false)
    }
}

// ---------------------------------------------------------------------------
// PHY identity and power.

/// PHY ID and revision from the two ID registers.
pub open spec fn phy_identity(id1: u16, id2: u16) -> (u32, u32) {
    (((id1 as u32) << 16u32) | ((id2 as u32) & PHY_REVISION_MASK), (id2 as u32) & !PHY_REVISION_MASK)
}

/// The calls of a PHY identification: PHY_ID1 is read, 200 us pass, and
/// PHY_ID2 is read.
pub open spec fn phy_id_plan() -> Seq<IgcAccess> {
    seq![
        IgcAccess::PhyRead { offset: PHY_ID1, r: Ok(0) },
        IgcAccess::WaitUs { usec: 200 },
        IgcAccess::PhyRead { offset: PHY_ID2, r: Ok(0) },
    ]
}

/// Reads the PHY ID registers and records the PHY's ID and revision.
pub fn igc_get_phy_id<D: IgcDevice>(dev: &mut D, hw: &mut IgcHw) -> (r: Result<(), IgcDriverErr>)
    ensures
        extends_log(old(dev).accesses(), final(dev).accesses()),
        plan_until_error(new_accesses(old(dev).accesses(), final(dev).accesses()), phy_id_plan()),
        r == plan_result(new_accesses(old(dev).accesses(), final(dev).accesses())),
        r is Ok ==> (final(hw).phy.id, final(hw).phy.revision) == phy_identity(
            phy_read_value(new_accesses(old(dev).accesses(), final(dev).accesses())[0]),
            phy_read_value(new_accesses(old(dev).accesses(), final(dev).accesses())[2])),
        *final(hw) == (IgcHw { phy: IgcPhyInfo { id: final(hw).phy.id, revision: final(hw).phy.revision, ..old(hw).phy }, ..*old(hw) }),
{
    let ghost l0 = dev.accesses();
    let ghost plan = phy_id_plan();
    proof {
        assert(l0.take(l0.len() as int) =~= l0);
        assert(new_accesses(l0, l0) =~= Seq::<IgcAccess>::empty());
    }
    let a = dev.phy_read_reg(hw, PHY_ID1);
    proof {
        lemma_new_accesses_push(l0, l0, dev.accesses().last());
        lemma_plan_next(new_accesses(l0, l0), plan, dev.accesses().last());
    }
    let id1 = match a {
        Ok(v) => v,
        Err(e) => return Err(e),
    };
    hw.phy.id = (id1 as u32) << 16u32;
    let ghost l1 = dev.accesses();
    dev.wait_microsec(200);
    proof {
        lemma_new_accesses_push(l0, l1, dev.accesses().last());
        lemma_plan_next(new_accesses(l0, l1), plan, dev.accesses().last());
    }
    let ghost l2 = dev.accesses();
    let b = dev.phy_read_reg(hw, PHY_ID2);
    proof {
        lemma_new_accesses_push(l0, l2, dev.accesses().last());
        lemma_plan_next(new_accesses(l0, l2), plan, dev.accesses().last());
    }
    let id2 = match b {
        Ok(v) => v,
        Err(e) => return Err(e),
    };
    hw.phy.id = hw.phy.id | ((id2 as u32) & PHY_REVISION_MASK);
    hw.phy.revision = (id2 as u32) & !PHY_REVISION_MASK;
    proof {
        lemma_plan_done(new_accesses(l0, dev.accesses()), plan);
        let ext = new_accesses(l0, dev.accesses());
        assert(ext[0] == new_accesses(l0, l1)[0]);
        assert(phy_read_value(ext[0]) == id1 && phy_read_value(ext[2]) == id2);
    }
    assert((hw.phy.id, hw.phy.revision) == phy_identity(id1, id2));
    Ok(())
}

/// The calls of a power change of the PHY: read PHY_CONTROL, write it back
/// with the power-down bit cleared (`down` false) or set, then wait (300 us
/// after powering up, 1 ms after powering down); the first failing call's
/// error ends it.
pub open spec fn phy_power_calls(ext: Seq<IgcAccess>, down: bool, r: Result<(), IgcDriverErr>) -> bool {
    &&& ext.len() >= 1
    &&& match ext[0] {
        IgcAccess::PhyRead { offset, r: a } => offset == PHY_CONTROL && match a {
            Err(e) => ext.len() == 1 && r == Err::<(), IgcDriverErr>(e),
            Ok(v) => ext.len() >= 2 && match ext[1] {
                IgcAccess::PhyWrite { offset: o, data, r: b } => {
                    &&& o == PHY_CONTROL
                    &&& data == (if down { v | MII_CR_POWER_DOWN } else { v & !MII_CR_POWER_DOWN })
                    &&& match b {
                        Err(e) => ext.len() == 2 && r == Err::<(), IgcDriverErr>(e),
                        Ok(_) => ext.len() == 3 && r is Ok
                            && ext[2] == (if down { IgcAccess::WaitMs { msec: 1 } } else { IgcAccess::WaitUs { usec: 300 } }),
                    }
                },
                _ => false,
            },
        },
        _ => false,
    }
}

/// Clears the power-down bit of the PHY control register.
pub fn igc_power_up_phy_copper<D: IgcDevice>(dev: &mut D, hw: &IgcHw) -> (r: Result<(), IgcDriverErr>)
    ensures
        extends_log(old(dev).accesses(), final(dev).accesses()),
        phy_power_calls(new_accesses(old(dev).accesses(), final(dev).accesses()), false, r),
{
    phy_power(dev, hw, false)
}

/// Sets the power-down bit of the PHY control register.
pub fn igc_power_down_phy_copper<D: IgcDevice>(dev: &mut D, hw: &IgcHw) -> (r: Result<(), IgcDriverErr>)
    ensures
        extends_log(old(dev).accesses(), final(dev).accesses()),
        phy_power_calls(new_accesses(old(dev).accesses(), final(dev).accesses()), true, r),
{
    phy_power(dev, hw, true)
}

fn phy_power<D: IgcDevice>(dev: &mut D, hw: &IgcHw, down: bool) -> (r: Result<(), IgcDriverErr>)
    ensures
        extends_log(old(dev).accesses(), final(dev).accesses()),
        phy_power_calls(new_accesses(old(dev).accesses(), final(dev).accesses()), down, r),
{
    let ghost l0 = dev.accesses();
    let read = dev.phy_read_reg(hw, PHY_CONTROL);
    let ghost l1 = dev.accesses();
    let v = match read {
        Ok(v) => v,
        Err(e) => {
            assert(new_accesses(l0, l1) =~= seq![l1.last()]);
            assert(l1.take(l0.len() as int) =~= l0);
            return Err(e);
        },
    };
    let mii = if down { v | MII_CR_POWER_DOWN } else { v & !MII_CR_POWER_DOWN };
    let written = dev.phy_write_reg(hw, PHY_CONTROL, mii);
    let ghost l2 = dev.accesses();
    match written {
        Ok(()) => {},
        Err(e) => {
            assert(new_accesses(l0, l2) =~= seq![l1.last(), l2.last()]);
            assert(l2.take(l0.len() as int) =~= l0);
            return Err(e);
        },
    }
    if down {
        dev.wait_millisec(1);
    } else {
        dev.wait_microsec(300);
    }
    let ghost l3 = dev.accesses();
    assert(new_accesses(l0, l3) =~= seq![l1.last(), l2.last(), l3.last()]);
    assert(l3.take(l0.len() as int) =~= l0);
    Ok(())
}


// ---------------------------------------------------------------------------
// Energy efficient Ethernet.

/// IPCNFG and EEER for the EEE setting: with EEE on, the auto-negotiation
/// enables follow the three `adv` flags and low-power idle is enabled in both
/// directions and on flow control; with EEE off all of them are cleared.
pub open spec fn eee_registers(ipcnfg: u32, eeer: u32, eee_disable: bool, adv2p5g: bool, adv1g: bool, adv100m: bool) -> (u32, u32) {
    if !eee_disable {
        let i1 = if adv100m { ipcnfg | IGC_IPCNFG_EEE_100M_AN } else { ipcnfg & !IGC_IPCNFG_EEE_100M_AN };
        let i2 = if adv1g { i1 | IGC_IPCNFG_EEE_1G_AN } else { i1 & !IGC_IPCNFG_EEE_1G_AN };
        let i3 = if adv2p5g { i2 | IGC_IPCNFG_EEE_2_5G_AN } else { i2 & !IGC_IPCNFG_EEE_2_5G_AN };
        (i3, eeer | IGC_EEER_TX_LPI_EN | IGC_EEER_RX_LPI_EN | IGC_EEER_LPI_FC)
    } else {
        (ipcnfg & !(IGC_IPCNFG_EEE_2_5G_AN | IGC_IPCNFG_EEE_1G_AN | IGC_IPCNFG_EEE_100M_AN),
         eeer & !(IGC_EEER_TX_LPI_EN | IGC_EEER_RX_LPI_EN | IGC_EEER_LPI_FC))
    }
}

pub fn compute_eee_registers(ipcnfg: u32, eeer: u32, eee_disable: bool, adv2p5g: bool, adv1g: bool, adv100m: bool) -> (r: (u32, u32))
    ensures
        r == eee_registers(ipcnfg, eeer, eee_disable, adv2p5g, adv1g, adv100m),
{
    if !eee_disable {
        let mut i = ipcnfg;
        if adv100m {
            i = i | IGC_IPCNFG_EEE_100M_AN;
        } else {
            i = i & !IGC_IPCNFG_EEE_100M_AN;
        }
        if adv1g {
            i = i | IGC_IPCNFG_EEE_1G_AN;
        } else {
            i = i & !IGC_IPCNFG_EEE_1G_AN;
        }
        if adv2p5g {
            i = i | IGC_IPCNFG_EEE_2_5G_AN;
        } else {
            i = i & !IGC_IPCNFG_EEE_2_5G_AN;
        }
        (i, eeer | IGC_EEER_TX_LPI_EN | IGC_EEER_RX_LPI_EN | IGC_EEER_LPI_FC)
    } else {
        (ipcnfg & !(IGC_IPCNFG_EEE_2_5G_AN | IGC_IPCNFG_EEE_1G_AN | IGC_IPCNFG_EEE_100M_AN),
         eeer & !(IGC_EEER_TX_LPI_EN | IGC_EEER_RX_LPI_EN | IGC_EEER_LPI_FC))
    }
}

/// The value a register read answered (0 for anything else).
pub open spec fn read_value(a: IgcAccess) -> u32 {
    match a {
        IgcAccess::Read { r: Ok(v), .. } => v,
        _ => 0,
    }
}

/// The calls of an EEE set-up of an I225 copper port whose IPCNFG and EEER
/// read `ipcnfg` and `eeer`: both are read, EEE_SU too when EEE is enabled,
/// IPCNFG and EEER are written what `eee_registers` computes, and both are
/// read back.
pub open spec fn eee_plan(ipcnfg: u32, eeer: u32, eee_disable: bool, adv2p5g: bool, adv1g: bool, adv100m: bool) -> Seq<IgcAccess> {
    let regs = eee_registers(ipcnfg, eeer, eee_disable, adv2p5g, adv1g, adv100m);
    seq![IgcAccess::Read { offset: IGC_IPCNFG, r: Ok(0) }, IgcAccess::Read { offset: IGC_EEER, r: Ok(0) }]
        + (if eee_disable { Seq::empty() } else { seq![IgcAccess::Read { offset: IGC_EEE_SU, r: Ok(0) }] })
        + seq![
            IgcAccess::Write { offset: IGC_IPCNFG, value: regs.0, r: Ok(()) },
            IgcAccess::Write { offset: IGC_EEER, value: regs.1, r: Ok(()) },
            IgcAccess::Read { offset: IGC_IPCNFG, r: Ok(0) },
            IgcAccess::Read { offset: IGC_EEER, r: Ok(0) },
        ]
}

/// The first calls of an EEE plan do not depend on what was read.
proof fn lemma_eee_plan_shape(ipcnfg: u32, eeer: u32, eee_disable: bool, adv2p5g: bool, adv1g: bool, adv100m: bool)
    ensures
        ({
            let p = eee_plan(ipcnfg, eeer, eee_disable, adv2p5g, adv1g, adv100m);
            let regs = eee_registers(ipcnfg, eeer, eee_disable, adv2p5g, adv1g, adv100m);
            let j: int = if eee_disable { 2 } else { 3 };
            &&& p.len() == j + 4
            &&& p[0] == IgcAccess::Read { offset: IGC_IPCNFG, r: Ok(0) }
            &&& p[1] == IgcAccess::Read { offset: IGC_EEER, r: Ok(0) }
            &&& !eee_disable ==> p[2] == IgcAccess::Read { offset: IGC_EEE_SU, r: Ok(0) }
            &&& p[j] == IgcAccess::Write { offset: IGC_IPCNFG, value: regs.0, r: Ok(()) }
            &&& p[j + 1] == IgcAccess::Write { offset: IGC_EEER, value: regs.1, r: Ok(()) }
            &&& p[j + 2] == IgcAccess::Read { offset: IGC_IPCNFG, r: Ok(0) }
            &&& p[j + 3] == IgcAccess::Read { offset: IGC_EEER, r: Ok(0) }
        }),
{
}

/// Applies the EEE setting of an I225 copper port (nothing for other
/// controllers or media): writes what `eee_registers` computes from the
/// current IPCNFG and EEER, then reads both back. The first failing call's
/// error ends it.
#[verifier::rlimit(80)]
#[verifier::spinoff_prover]
pub fn igc_set_eee_i225<D: IgcDevice>(dev: &mut D, hw: &IgcHw, adv2p5g: bool, adv1g: bool, adv100m: bool) -> (r: Result<(), IgcDriverErr>)
    ensures
        extends_log(old(dev).accesses(), final(dev).accesses()),
        (hw.mac.mac_type != IgcMacType::I225 || hw.phy.media_type != IgcMediaType::Copper) ==>
            r is Ok && final(dev).accesses() == old(dev).accesses(),
        (hw.mac.mac_type == IgcMacType::I225 && hw.phy.media_type == IgcMediaType::Copper) ==> ({
            let ext = new_accesses(old(dev).accesses(), final(dev).accesses());
            &&& plan_until_error(ext, eee_plan(read_value(ext[0]), read_value(ext[1]), hw.dev_spec.eee_disable, adv2p5g, adv1g, adv100m))
            &&& r == plan_result(ext)
        }),
{
    let ghost l0 = dev.accesses();
    assert(l0.take(l0.len() as int) =~= l0);
    if hw.mac.mac_type != IgcMacType::I225 || hw.phy.media_type != IgcMediaType::Copper {
        return Ok(());
    }
    let ghost dis = hw.dev_spec.eee_disable;
    assert(new_accesses(l0, l0) =~= Seq::<IgcAccess>::empty());
    let a = dev.read_reg(IGC_IPCNFG);
    proof {
        lemma_new_accesses_push(l0, l0, dev.accesses().last());
        assert(dev.accesses() =~= l0.push(dev.accesses().last()));
    }
    let ghost e1 = new_accesses(l0, dev.accesses());
    let ipcnfg = match a {
        Ok(v) => v,
        Err(e) => {
            proof {
                let p = eee_plan(read_value(e1[0]), read_value(e1[1]), dis, adv2p5g, adv1g, adv100m);
                lemma_eee_plan_shape(read_value(e1[0]), read_value(e1[1]), dis, adv2p5g, adv1g, adv100m);
                lemma_plan_next(Seq::empty(), p, e1[0]);
                assert(Seq::<IgcAccess>::empty().push(e1[0]) =~= e1);
            }
            return Err(e);
        },
    };
    let ghost lb = dev.accesses();
    let b = dev.read_reg(IGC_EEER);
    proof {
        lemma_new_accesses_push(l0, lb, dev.accesses().last());
        assert(dev.accesses() =~= lb.push(dev.accesses().last()));
    }
    let ghost e2 = new_accesses(l0, dev.accesses());
    let eeer = match b {
        Ok(v) => v,
        Err(e) => {
            proof {
                let p = eee_plan(read_value(e2[0]), read_value(e2[1]), dis, adv2p5g, adv1g, adv100m);
                lemma_eee_plan_shape(read_value(e2[0]), read_value(e2[1]), dis, adv2p5g, adv1g, adv100m);
                lemma_plan_next(Seq::empty(), p, e2[0]);
                assert(Seq::<IgcAccess>::empty().push(e2[0]) =~= e2.take(1));
                lemma_plan_next(e2.take(1), p, e2[1]);
                assert(e2.take(1).push(e2[1]) =~= e2);
            }
            return Err(e);
        },
    };
    let ghost plan = eee_plan(ipcnfg, eeer, dis, adv2p5g, adv1g, adv100m);
    proof {
        lemma_eee_plan_shape(ipcnfg, eeer, dis, adv2p5g, adv1g, adv100m);
        assert(read_value(e2[0]) == ipcnfg && read_value(e2[1]) == eeer);
        lemma_plan_next(Seq::empty(), plan, e2[0]);
        assert(Seq::<IgcAccess>::empty().push(e2[0]) =~= e2.take(1));
        lemma_plan_next(e2.take(1), plan, e2[1]);
        assert(e2.take(1).push(e2[1]) =~= e2);
    }
    if !hw.dev_spec.eee_disable {
        let ghost lc = dev.accesses();
        let c = dev.read_reg(IGC_EEE_SU);
        proof {
            lemma_new_accesses_push(l0, lc, dev.accesses().last());
            lemma_plan_next(new_accesses(l0, lc), plan, dev.accesses().last());
        }
        match c {
            Ok(_) => {},
            Err(e) => return Err(e),
        }
    }
    let (i, e) = compute_eee_registers(ipcnfg, eeer, hw.dev_spec.eee_disable, adv2p5g, adv1g, adv100m);
    let ghost ld = dev.accesses();
    let w1 = dev.write_reg(IGC_IPCNFG, i);
    proof {
        lemma_new_accesses_push(l0, ld, dev.accesses().last());
        lemma_plan_next(new_accesses(l0, ld), plan, dev.accesses().last());
    }
    match w1 {
        Ok(()) => {},
        Err(err) => return Err(err),
    }
    let ghost le = dev.accesses();
    let w2 = dev.write_reg(IGC_EEER, e);
    proof {
        lemma_new_accesses_push(l0, le, dev.accesses().last());
        lemma_plan_next(new_accesses(l0, le), plan, dev.accesses().last());
    }
    match w2 {
        Ok(()) => {},
        Err(err) => return Err(err),
    }
    let ghost lf = dev.accesses();
    let r1 = dev.read_reg(IGC_IPCNFG);
    proof {
        lemma_new_accesses_push(l0, lf, dev.accesses().last());
        lemma_plan_next(new_accesses(l0, lf), plan, dev.accesses().last());
    }
    match r1 {
        Ok(_) => {},
        Err(err) => return Err(err),
    }
    let ghost lg = dev.accesses();
    let r2 = dev.read_reg(IGC_EEER);
    proof {
        lemma_new_accesses_push(l0, lg, dev.accesses().last());
        lemma_plan_next(new_accesses(l0, lg), plan, dev.accesses().last());
    }
    match r2 {
        Ok(_) => {},
        Err(err) => return Err(err),
    }
    proof {
        lemma_plan_done(new_accesses(l0, dev.accesses()), plan);
    }
    Ok(())
}

// ---------------------------------------------------------------------------
// Shadow RAM writes.

/// Whether a write of `words` words at `offset` fits an NVM of `word_size`
/// words and writes something.
pub open spec fn srwr_in_range(offset: u16, words: u16, word_size: u16) -> bool {
    offset < word_size && words <= word_size - offset && words != 0
}

/// The SRWR command writing `word` at NVM address `addr`.
pub open spec fn srwr_command(addr: int, word: u16) -> u32 {
    (((addr as u32) << IGC_NVM_RW_ADDR_SHIFT) | ((word as u32) << IGC_NVM_RW_REG_DATA) | IGC_NVM_RW_REG_START) as u32
}

/// A call of a shadow RAM write of `words` words of `data` from index
/// `start` at `offset`: the SRWR command for one of those words, a read of
/// SRWR (polling for the write to be done), or a 5 us wait.
pub open spec fn srwr_call(a: IgcAccess, offset: u16, data: Seq<u16>, start: int, words: u16) -> bool {
    ||| (a matches IgcAccess::Write { offset: o, value, .. } && o == IGC_SRWR
            && exists|k: int| 0 <= k < words && value == srwr_command(offset + k, #[trigger] data[start + k]))
    ||| (a matches IgcAccess::Read { offset: o, .. } && o == IGC_SRWR)
    ||| a == IgcAccess::WaitUs { usec: 5 }
}

/// Writes `words` words of `data`, from index `start`, to the shadow RAM at
/// `offset` through SRWR, waiting for each write to be done.
fn write_srwr_words<D: IgcDevice>(dev: &mut D, hw: &IgcHw, offset: u16, words: u16, data: &Vec<u16>, start: usize) -> (r: Result<(), IgcDriverErr>)
    requires
        srwr_in_range(offset, words, hw.nvm.word_size) ==> start + words <= data@.len(),
    ensures
        !srwr_in_range(offset, words, hw.nvm.word_size) ==> r == Err::<(), IgcDriverErr>(IgcDriverErr::NVM)
            && final(dev).accesses() == old(dev).accesses(),
        extends_log(old(dev).accesses(), final(dev).accesses()),
        forall|k: int| 0 <= k < new_accesses(old(dev).accesses(), final(dev).accesses()).len() ==>
            srwr_call(#[trigger] new_accesses(old(dev).accesses(), final(dev).accesses())[k], offset, data@, start as int, words),
{
    let ghost l0 = dev.accesses();
    assert(l0.take(l0.len() as int) =~= l0);
    if offset >= hw.nvm.word_size || words > hw.nvm.word_size - offset || words == 0 {
        return Err(IgcDriverErr::NVM);
    }
    let mut i: u16 = 0;
    while i < words
        invariant
            i <= words,
            srwr_in_range(offset, words, hw.nvm.word_size),
            start + words <= data@.len(),
            l0 == old(dev).accesses(),
            extends_log(l0, dev.accesses()),
            forall|k: int| 0 <= k < new_accesses(l0, dev.accesses()).len() ==>
                srwr_call(#[trigger] new_accesses(l0, dev.accesses())[k], offset, data@, start as int, words),
        decreases words - i,
    {
        let n = data.len();
        assert(start + (i as usize) < n);
        let idx: usize = start + i as usize;
        let eewr = (((offset + i) as u32) << IGC_NVM_RW_ADDR_SHIFT)
            | ((data[idx] as u32) << IGC_NVM_RW_REG_DATA) | IGC_NVM_RW_REG_START;
        let ghost b0 = dev.accesses();
        let w = dev.write_reg(IGC_SRWR, eewr);
        proof {
            let c = new_accesses(l0, dev.accesses());
            assert(dev.accesses().take(l0.len() as int) =~= l0);
            assert(eewr == srwr_command(offset + i, data@[start + i]));
            assert(srwr_call(c[c.len() - 1], offset, data@, start as int, words));
            assert forall|k: int| 0 <= k < c.len() implies srwr_call(#[trigger] c[k], offset, data@, start as int, words) by {
                if k < c.len() - 1 {
                    assert(c[k] == new_accesses(l0, b0)[k]);
                }
            }
        }
        match w {
            Ok(()) => {},
            Err(e) => return Err(e),
        }
        let mut done = false;
        let mut attempt: u32 = 0;
        while attempt < 100000
            invariant
                attempt <= 100000,
                srwr_in_range(offset, words, hw.nvm.word_size),
                l0 == old(dev).accesses(),
                extends_log(l0, dev.accesses()),
                forall|k: int| 0 <= k < new_accesses(l0, dev.accesses()).len() ==>
                    srwr_call(#[trigger] new_accesses(l0, dev.accesses())[k], offset, data@, start as int, words),
            decreases 100000 - attempt,
        {
            let ghost b1 = dev.accesses();
            let rd = dev.read_reg(IGC_SRWR);
            proof {
                let c = new_accesses(l0, dev.accesses());
                assert(dev.accesses().take(l0.len() as int) =~= l0);
                assert forall|k: int| 0 <= k < c.len() implies srwr_call(#[trigger] c[k], offset, data@, start as int, words) by {
                    if k < c.len() - 1 {
                        assert(c[k] == new_accesses(l0, b1)[k]);
                    }
                }
            }
            let v = match rd {
                Ok(v) => v,
                Err(e) => return Err(e),
            };
            if IGC_NVM_RW_REG_DONE & v != 0 {
                done = true;
                break;
            }
            let ghost b2 = dev.accesses();
            dev.wait_microsec(5);
            proof {
                let c = new_accesses(l0, dev.accesses());
                assert(dev.accesses().take(l0.len() as int) =~= l0);
                assert forall|k: int| 0 <= k < c.len() implies srwr_call(#[trigger] c[k], offset, data@, start as int, words) by {
                    if k < c.len() - 1 {
                        assert(c[k] == new_accesses(l0, b2)[k]);
                    }
                }
            }
            attempt += 1;
        }
        if !done {
            return Err(IgcDriverErr::NVM);
        }
        i += 1;
    }
    Ok(())
}

/// Writes `words` words of `data` to the shadow RAM at `offset`; an NVM
/// error when the range does not fit the NVM or is empty, or when a write is
/// not done in time.
pub fn igc_write_nvm_srwr<D: IgcDevice>(dev: &mut D, hw: &IgcHw, offset: u16, words: u16, data: &Vec<u16>) -> (r: Result<(), IgcDriverErr>)
    requires
        srwr_in_range(offset, words, hw.nvm.word_size) ==> words <= data@.len(),
    ensures
        !srwr_in_range(offset, words, hw.nvm.word_size) ==> r == Err::<(), IgcDriverErr>(IgcDriverErr::NVM),
{
    write_srwr_words(dev, hw, offset, words, data, 0)
}

/// Burst sizes for an NVM access of `words` words: bursts of 512 words, the
/// last one holding the rest. Pairs of (first word index, word count).
pub open spec fn nvm_bursts(words: u16) -> Seq<(u16, u16)> {
    let n = (words as int + 511) / 512;
    Seq::new(n as nat, |k: int| {
        let i = k * 512;
        ((i as u16), (if (words - i) / 512 > 0 { 512u16 } else { (words - i) as u16 }))
    })
}

/// The bursts of an NVM access of `words` words.
pub fn nvm_burst_list(words: u16) -> (b: Vec<(u16, u16)>)
    ensures
        b@ == nvm_bursts(words),
{
    let mut b: Vec<(u16, u16)> = Vec::new();
    let mut i: u32 = 0;
    let mut k: u32 = 0;
    let ghost n = (words as int + 511) / 512;
    while i < words as u32
        invariant
            i == k * 512,
            k <= n,
            i < words ==> k < n,
            i >= words ==> k == n,
            n == (words as int + 511) / 512,
            b@ == nvm_bursts(words).take(k as int),
        decreases words as u32 + 512 - i,
    {
        let count: u16 = if (words as u32 - i) / (IGC_EERD_EEWR_MAX_COUNT as u32) > 0 { IGC_EERD_EEWR_MAX_COUNT } else { (words as u32 - i) as u16 };
        b.push((i as u16, count));
        proof {
            assert(b@ =~= nvm_bursts(words).take(k + 1));
        }
        i += 512;
        k += 1;
    }
    assert(b@ =~= nvm_bursts(words));
    b
}

/// A write at `offset` of the word at position `kk` of burst `j` (see
/// `nvm_bursts`) of a `words`-word NVM write from `data`.
pub open spec fn burst_word_write(a: IgcAccess, offset: u16, data: Seq<u16>, words: u16, j: int, kk: int) -> bool {
    let b = nvm_bursts(words)[j];
    &&& 0 <= j < nvm_bursts(words).len()
    &&& 0 <= kk < b.1
    &&& a->Write_value == srwr_command(offset + kk, data[b.0 + kk])
}

/// A call of an NVM write of `words` words of `data` at `offset` (see
/// `igc_write_nvm_srwr_i225`): taking or giving back the NVM, the SRWR
/// command for a word of a burst (written at `offset`, from the burst's own
/// position in `data`), a read of SRWR, or a 5 us wait.
pub open spec fn nvm_write_call(a: IgcAccess, offset: u16, data: Seq<u16>, words: u16) -> bool {
    ||| a is NvmAcquire
    ||| a is NvmRelease
    ||| (a matches IgcAccess::Write { offset: o, .. } && o == IGC_SRWR
            && exists|j: int, kk: int| #[trigger] burst_word_write(a, offset, data, words, j, kk))
    ||| (a matches IgcAccess::Read { offset: o, .. } && o == IGC_SRWR)
    ||| a == IgcAccess::WaitUs { usec: 5 }
}

/// Writes `words` words of `data` to the shadow RAM in bursts, taking the
/// NVM around each burst. Every burst is written at `offset`, from its own
/// position in `data`.
pub fn igc_write_nvm_srwr_i225<D: IgcDevice>(dev: &mut D, hw: &mut IgcHw, offset: u16, words: u16, data: &Vec<u16>) -> (r: Result<(), IgcDriverErr>)
    requires
        words <= data@.len(),
    ensures
        extends_log(old(dev).accesses(), final(dev).accesses()),
        words == 0 ==> r is Ok && final(dev).accesses() == old(dev).accesses(),
        words > 0 ==> new_accesses(old(dev).accesses(), final(dev).accesses()).len() > 0
            && new_accesses(old(dev).accesses(), final(dev).accesses())[0] is NvmAcquire,
        forall|k: int| 0 <= k < new_accesses(old(dev).accesses(), final(dev).accesses()).len() ==>
            nvm_write_call(#[trigger] new_accesses(old(dev).accesses(), final(dev).accesses())[k], offset, data@, words),
{
    let ghost l0 = dev.accesses();
    assert(l0.take(l0.len() as int) =~= l0);
    let bursts = nvm_burst_list(words);
    let mut j: usize = 0;
    while j < bursts.len()
        invariant
            j <= bursts@.len(),
            bursts@ == nvm_bursts(words),
            words <= data@.len(),
            l0 == old(dev).accesses(),
            extends_log(l0, dev.accesses()),
            j == 0 ==> dev.accesses() == l0,
            j > 0 ==> new_accesses(l0, dev.accesses()).len() > 0 && new_accesses(l0, dev.accesses())[0] is NvmAcquire,
            forall|k: int| 0 <= k < new_accesses(l0, dev.accesses()).len() ==>
                nvm_write_call(#[trigger] new_accesses(l0, dev.accesses())[k], offset, data@, words),
        decreases bursts@.len() - j,
    {
        let (start, count) = bursts[j];
        proof {
            assert(start as int + count as int <= words);
        }
        let ghost b0 = dev.accesses();
        let acq = dev.nvm_acquire(hw);
        let ghost b1 = dev.accesses();
        proof {
            let c = new_accesses(l0, b1);
            assert(b1.take(l0.len() as int) =~= l0);
            assert forall|k: int| 0 <= k < c.len() implies nvm_write_call(#[trigger] c[k], offset, data@, words) by {
                if k < c.len() - 1 {
                    assert(c[k] == new_accesses(l0, b0)[k]);
                }
            }
            if j > 0 {
                assert(c[0] == new_accesses(l0, b0)[0]);
            }
        }
        match acq {
            Ok(()) => {},
            Err(e) => return Err(e),
        }
        let result = write_srwr_words(dev, hw, offset, count, data, start as usize);
        let ghost b2 = dev.accesses();
        proof {
            lemma_extends_log_trans(l0, b1, b2);
            let c = new_accesses(l0, b2);
            let m = new_accesses(b1, b2);
            assert forall|k: int| 0 <= k < c.len() implies nvm_write_call(#[trigger] c[k], offset, data@, words) by {
                if k < new_accesses(l0, b1).len() {
                    assert(c[k] == new_accesses(l0, b1)[k]);
                } else {
                    let k2 = k - new_accesses(l0, b1).len();
                    assert(c[k] == m[k2]);
                    assert(srwr_call(m[k2], offset, data@, start as int, count));
                    assert(nvm_bursts(words)[j as int] == (start, count));
                    if m[k2] is Write {
                        let kk = choose|kk: int| 0 <= kk < count && m[k2]->Write_value == srwr_command(offset + kk, #[trigger] data@[start + kk]);
                        assert(burst_word_write(m[k2], offset, data@, words, j as int, kk));
                    }
                }
            }
            assert(c[0] == new_accesses(l0, b1)[0]);
        }
        let ghost b3 = dev.accesses();
        let rel = dev.nvm_release(hw);
        proof {
            let c = new_accesses(l0, dev.accesses());
            assert(dev.accesses().take(l0.len() as int) =~= l0);
            assert forall|k: int| 0 <= k < c.len() implies nvm_write_call(#[trigger] c[k], offset, data@, words) by {
                if k < c.len() - 1 {
                    assert(c[k] == new_accesses(l0, b3)[k]);
                }
            }
            assert(c[0] == new_accesses(l0, b3)[0]);
        }
        match rel {
            Ok(()) => {},
            Err(e) => return Err(e),
        }
        match result {
            Ok(()) => {},
            Err(e) => return Err(e),
        }
        j += 1;
    }
    Ok(())
}

/// The calls of an NVM read from burst `j` on (see `nvm_bursts`), burst `j`
/// starting at position `3 * j` of `ext`: the NVM is taken, the burst's
/// words are read through EERD at `offset` into their own place in the
/// buffer, and the NVM is given back. A failure to take the NVM, to give it
/// back, or of the read (checked after giving it back) ends the read with
/// its error; after the last burst the read succeeds.
pub open spec fn srrd_from(ext: Seq<IgcAccess>, j: int, offset: u16, words: u16, r: Result<(), IgcDriverErr>) -> bool
    decreases nvm_bursts(words).len() - j,
{
    let b = nvm_bursts(words);
    let p = 3 * j;
    if j < 0 || j >= b.len() {
        ext.len() == p && r is Ok
    } else {
        &&& ext.len() > p
        &&& ext[p] == IgcAccess::NvmAcquire { r: ext[p]->NvmAcquire_r }
        &&& ends_with_err(ext, p, ext[p]->NvmAcquire_r, r)
        &&& ext[p]->NvmAcquire_r is Ok ==> {
            &&& ext.len() > p + 2
            &&& ext[p + 1] == IgcAccess::ReadNvmEerd { offset, count: b[j].1, start: b[j].0 as usize, r: ext[p + 1]->ReadNvmEerd_r }
            &&& ext[p + 2] == IgcAccess::NvmRelease { r: ext[p + 2]->NvmRelease_r }
            &&& ext[p + 2]->NvmRelease_r is Err ==> ext.len() == p + 3 && r == Err::<(), IgcDriverErr>(ext[p + 2]->NvmRelease_r->Err_0)
            &&& (ext[p + 2]->NvmRelease_r is Ok && ext[p + 1]->ReadNvmEerd_r is Err)
                ==> ext.len() == p + 3 && r == Err::<(), IgcDriverErr>(ext[p + 1]->ReadNvmEerd_r->Err_0)
            &&& (ext[p + 2]->NvmRelease_r is Ok && ext[p + 1]->ReadNvmEerd_r is Ok) ==> srrd_from(ext, j + 1, offset, words, r)
        }
    }
}

/// Reads `words` words of the shadow RAM at `offset` into `data` in bursts
/// through EERD, taking the NVM around each burst. Every burst reads at
/// `offset` into its own position in `data`.
pub fn igc_read_nvm_srrd_i225<D: IgcDevice>(dev: &mut D, hw: &mut IgcHw, offset: u16, words: u16, data: &mut Vec<u16>) -> (r: Result<(), IgcDriverErr>)
    requires
        words <= old(data)@.len(),
    ensures
        extends_log(old(dev).accesses(), final(dev).accesses()),
        srrd_from(new_accesses(old(dev).accesses(), final(dev).accesses()), 0, offset, words, r),
{
    let ghost l0 = dev.accesses();
    let bursts = nvm_burst_list(words);
    let mut j: usize = 0;
    assert(l0.take(l0.len() as int) =~= l0);
    while j < bursts.len()
        invariant
            j <= bursts@.len(),
            bursts@ == nvm_bursts(words),
            l0 == old(dev).accesses(),
            extends_log(l0, dev.accesses()),
            new_accesses(l0, dev.accesses()).len() == 3 * j,
            forall|e: Seq<IgcAccess>, rr: Result<(), IgcDriverErr>|
                e.take(3 * j) == new_accesses(l0, dev.accesses())
                && #[trigger] srrd_from(e, j as int, offset, words, rr)
                ==> srrd_from(e, 0, offset, words, rr),
        decreases bursts@.len() - j,
    {
        let ghost c0 = new_accesses(l0, dev.accesses());
        let (start, count) = bursts[j];
        let a = dev.nvm_acquire(hw);
        if let Err(e) = a {
            proof {
                let c1 = new_accesses(l0, dev.accesses());
                assert(dev.accesses().take(l0.len() as int) =~= l0);
                assert(c1.take(3 * j) =~= c0);
                assert(srrd_from(c1, j as int, offset, words, Err(e)));
            }
            return Err(e);
        }
        let result = dev.read_nvm_eerd(hw, offset, count, data, start as usize);
        let rel = dev.nvm_release(hw);
        let ghost c1 = new_accesses(l0, dev.accesses());
        proof {
            assert(dev.accesses().take(l0.len() as int) =~= l0);
            assert(c1.take(3 * j) =~= c0);
        }
        if let Err(e) = rel {
            assert(srrd_from(c1, j as int, offset, words, Err(e)));
            return Err(e);
        }
        if let Err(e) = result {
            assert(srrd_from(c1, j as int, offset, words, Err(e)));
            return Err(e);
        }
        proof {
            assert forall|e: Seq<IgcAccess>, rr: Result<(), IgcDriverErr>|
                e.take(3 * (j + 1)) == c1
                && #[trigger] srrd_from(e, j + 1, offset, words, rr)
                implies srrd_from(e, 0, offset, words, rr) by {
                assert(e.take(3 * j) =~= c1.take(3 * j));
                assert(e[3 * j] == c1[3 * j]);
                assert(e[3 * j + 1] == c1[3 * j + 1]);
                assert(e[3 * j + 2] == c1[3 * j + 2]);
                assert(srrd_from(e, j as int, offset, words, rr));
            }
        }
        j += 1;
    }
    proof {
        let c = new_accesses(l0, dev.accesses());
        assert(c.take(3 * j) =~= c);
        assert(srrd_from(c, j as int, offset, words, Ok(())));
    }
    Ok(())
}

// ---------------------------------------------------------------------------
// Semaphores.

/// Every call of `ext` satisfies `p`.
pub open spec fn all_calls(ext: Seq<IgcAccess>, p: spec_fn(IgcAccess) -> bool) -> bool {
    forall|i: int| 0 <= i < ext.len() ==> p(#[trigger] ext[i])
}

/// One more call that satisfies `p`.
proof fn lemma_all_calls_push(l0: Seq<IgcAccess>, l: Seq<IgcAccess>, a: IgcAccess, p: spec_fn(IgcAccess) -> bool)
    requires
        extends_log(l0, l),
        all_calls(new_accesses(l0, l), p),
        p(a),
    ensures
        extends_log(l0, l.push(a)),
        all_calls(new_accesses(l0, l.push(a)), p),
{
    lemma_new_accesses_push(l0, l, a);
    let e = new_accesses(l0, l.push(a));
    assert forall|i: int| 0 <= i < e.len() implies p(#[trigger] e[i]) by {
        if i < e.len() - 1 {
            assert(e[i] == new_accesses(l0, l)[i]);
        }
    }
}

/// Calls that satisfy `q`, which implies `p`, after calls that satisfy `p`.
proof fn lemma_all_calls_append(l0: Seq<IgcAccess>, l1: Seq<IgcAccess>, l2: Seq<IgcAccess>, p: spec_fn(IgcAccess) -> bool, q: spec_fn(IgcAccess) -> bool)
    requires
        extends_log(l0, l1),
        extends_log(l1, l2),
        all_calls(new_accesses(l0, l1), p),
        all_calls(new_accesses(l1, l2), q),
        forall|a: IgcAccess| #[trigger] q(a) ==> p(a),
    ensures
        extends_log(l0, l2),
        all_calls(new_accesses(l0, l2), p),
        new_accesses(l1, l2).len() > 0 ==> new_accesses(l0, l2).last() == new_accesses(l1, l2).last(),
{
    lemma_extends_log_trans(l0, l1, l2);
    let e = new_accesses(l0, l2);
    assert forall|i: int| 0 <= i < e.len() implies p(#[trigger] e[i]) by {
        if i < l1.len() - l0.len() {
            assert(e[i] == l1[l0.len() + i]);
            assert(e[i] == new_accesses(l0, l1)[i]);
        } else {
            assert(e[i] == new_accesses(l1, l2)[i - (l1.len() - l0.len())]);
            assert(q(new_accesses(l1, l2)[i - (l1.len() - l0.len())]));
        }
    }
}

/// A call of a hardware semaphore attempt: a read of SWSM, a write of SWSM
/// that sets SWESMBI, a release of the semaphore, or a 50 us wait.
pub open spec fn hw_semaphore_call(a: IgcAccess) -> bool {
    ||| a matches IgcAccess::Read { offset, .. } && offset == IGC_SWSM
    ||| a matches IgcAccess::Write { offset, value, .. } && offset == IGC_SWSM && value & IGC_SWSM_SWESMBI != 0
    ||| a is PutHwSemaphore
    ||| a == IgcAccess::WaitUs { usec: 50 }
}

/// The calls `ext` end with the semaphore latched: SWSM written with
/// SWESMBI set, then read back with it set.
pub open spec fn semaphore_latched(ext: Seq<IgcAccess>) -> bool {
    &&& ext.len() >= 2
    &&& ext[ext.len() - 2] matches IgcAccess::Write { offset, r: Ok(_), .. } && offset == IGC_SWSM
    &&& ext.last() matches IgcAccess::Read { offset, r: Ok(v) } && offset == IGC_SWSM && v & IGC_SWSM_SWESMBI != 0
}

/// An error of calls that stop at the first failure, or `other`.
pub open spec fn failed_with(ext: Seq<IgcAccess>, e: IgcDriverErr, other: IgcDriverErr) -> bool {
    e == other || (ext.len() > 0 && access_err(ext.last()) == Some(e))
}

/// Polls SWSM up to `timeout` times for the driver semaphore bit to be clear;
/// whether it was.
fn wait_smbi_clear<D: IgcDevice>(dev: &mut D, timeout: u32) -> (r: Result<bool, IgcDriverErr>)
    ensures
        extends_log(old(dev).accesses(), final(dev).accesses()),
        all_calls(new_accesses(old(dev).accesses(), final(dev).accesses()), |a: IgcAccess| hw_semaphore_call(a)),
        r matches Err(e) ==> new_accesses(old(dev).accesses(), final(dev).accesses()).len() > 0
            && access_err(new_accesses(old(dev).accesses(), final(dev).accesses()).last()) == Some(e),
{
    let ghost l0 = dev.accesses();
    let ghost p = |a: IgcAccess| hw_semaphore_call(a);
    proof {
        assert(l0.take(l0.len() as int) =~= l0);
        assert(new_accesses(l0, l0) =~= Seq::<IgcAccess>::empty());
    }
    let mut i: u32 = 0;
    while i < timeout
        invariant
            i <= timeout,
            p == (|a: IgcAccess| hw_semaphore_call(a)),
            l0 == old(dev).accesses(),
            extends_log(l0, dev.accesses()),
            all_calls(new_accesses(l0, dev.accesses()), p),
        decreases timeout - i,
    {
        let ghost la = dev.accesses();
        let a = dev.read_reg(IGC_SWSM);
        proof {
            lemma_all_calls_push(l0, la, dev.accesses().last(), p);
            lemma_new_accesses_push(l0, la, dev.accesses().last());
        }
        let swsm = match a {
            Ok(v) => v,
            Err(e) => return Err(e),
        };
        if swsm & IGC_SWSM_SMBI == 0 {
            return Ok(true);
        }
        let ghost lb = dev.accesses();
        dev.wait_microsec(50);
        proof { lemma_all_calls_push(l0, lb, dev.accesses().last(), p); }
        i += 1;
    }
    Ok(false)
}

/// Takes the hardware semaphore: waits (as long as the NVM has words, plus
/// one poll) for the software semaphore, clearing it once when the device
/// allows a single clear, then latches the firmware semaphore. An NVM error
/// when either cannot be had; the single clear is used up when it is spent.
/// Succeeds only once SWSM read back with SWESMBI set after setting it.
#[verifier::rlimit(40)]
pub fn igc_get_hw_semaphore_i225<D: IgcDevice>(dev: &mut D, hw: &mut IgcHw) -> (r: Result<(), IgcDriverErr>)
    ensures
        final(hw).dev_spec.clear_semaphore_once ==> old(hw).dev_spec.clear_semaphore_once,
        final(hw).nvm == old(hw).nvm && final(hw).phy == old(hw).phy && final(hw).mac == old(hw).mac,
        extends_log(old(dev).accesses(), final(dev).accesses()),
        all_calls(new_accesses(old(dev).accesses(), final(dev).accesses()), |a: IgcAccess| hw_semaphore_call(a)),
        r is Ok ==> semaphore_latched(new_accesses(old(dev).accesses(), final(dev).accesses())),
        r matches Err(e) ==> failed_with(new_accesses(old(dev).accesses(), final(dev).accesses()), e, IgcDriverErr::NVM),
{
    let ghost l0 = dev.accesses();
    let ghost p = |a: IgcAccess| hw_semaphore_call(a);
    proof {
        assert(l0.take(l0.len() as int) =~= l0);
        assert(new_accesses(l0, l0) =~= Seq::<IgcAccess>::empty());
    }
    let timeout: u32 = hw.nvm.word_size as u32 + 1;
    let got = match wait_smbi_clear(dev, timeout) {
        Ok(g) => g,
        Err(e) => {
            proof { lemma_all_calls_append(l0, l0, dev.accesses(), p, p); }
            return Err(e);
        },
    };
    let ghost l1 = dev.accesses();
    proof { lemma_all_calls_append(l0, l0, l1, p, p); }
    if !got {
        let mut retried = false;
        if hw.dev_spec.clear_semaphore_once {
            hw.dev_spec.clear_semaphore_once = false;
            let ghost lp = dev.accesses();
            let put = dev.put_hw_semaphore();
            proof {
                lemma_all_calls_push(l0, lp, dev.accesses().last(), p);
                lemma_new_accesses_push(l0, lp, dev.accesses().last());
            }
            match put {
                Ok(()) => {},
                Err(e) => return Err(e),
            }
            let ghost lq = dev.accesses();
            retried = match wait_smbi_clear(dev, timeout) {
                Ok(g) => g,
                Err(e) => {
                    proof { lemma_all_calls_append(l0, lq, dev.accesses(), p, p); }
                    return Err(e);
                },
            };
            proof { lemma_all_calls_append(l0, lq, dev.accesses(), p, p); }
        }
        if !retried {
            return Err(IgcDriverErr::NVM);
        }
    }
    let mut i: u32 = 0;
    while i < timeout
        invariant
            i <= timeout,
            hw.dev_spec.clear_semaphore_once ==> old(hw).dev_spec.clear_semaphore_once,
            hw.nvm == old(hw).nvm && hw.phy == old(hw).phy && hw.mac == old(hw).mac,
            p == (|a: IgcAccess| hw_semaphore_call(a)),
            l0 == old(dev).accesses(),
            extends_log(l0, dev.accesses()),
            all_calls(new_accesses(l0, dev.accesses()), p),
        decreases timeout - i,
    {
        let ghost la = dev.accesses();
        let a = dev.read_reg(IGC_SWSM);
        proof {
            lemma_all_calls_push(l0, la, dev.accesses().last(), p);
            lemma_new_accesses_push(l0, la, dev.accesses().last());
        }
        let swsm = match a {
            Ok(v) => v,
            Err(e) => return Err(e),
        };
        let ghost lb = dev.accesses();
        let value = swsm | IGC_SWSM_SWESMBI;
        assert(value & IGC_SWSM_SWESMBI != 0) by (bit_vector)
            requires value == swsm | 2u32;
        let w = dev.write_reg(IGC_SWSM, value);
        proof {
            lemma_all_calls_push(l0, lb, dev.accesses().last(), p);
            lemma_new_accesses_push(l0, lb, dev.accesses().last());
        }
        match w {
            Ok(()) => {},
            Err(e) => return Err(e),
        }
        let ghost lc = dev.accesses();
        let c = dev.read_reg(IGC_SWSM);
        proof {
            lemma_all_calls_push(l0, lc, dev.accesses().last(), p);
            lemma_new_accesses_push(l0, lc, dev.accesses().last());
            lemma_new_accesses_push(l0, lb, lc.last());
            assert(lc == lb.push(lc.last()));
        }
        let latched = match c {
            Ok(v) => v & IGC_SWSM_SWESMBI != 0,
            Err(e) => return Err(e),
        };
        if latched {
            proof {
                let ext = new_accesses(l0, dev.accesses());
                assert(ext[ext.len() - 2] == lc.last());
            }
            return Ok(());
        }
        let ghost ld = dev.accesses();
        dev.wait_microsec(50);
        proof { lemma_all_calls_push(l0, ld, dev.accesses().last(), p); }
        i += 1;
    }
    let ghost le = dev.accesses();
    let put = dev.put_hw_semaphore();
    proof {
        lemma_all_calls_push(l0, le, dev.accesses().last(), p);
        lemma_new_accesses_push(l0, le, dev.accesses().last());
    }
    match put {
        Ok(()) => {},
        Err(e) => return Err(e),
    }
    Err(IgcDriverErr::NVM)
}

/// SW_FW_SYNC with the software bits of `mask` taken, when neither software
/// nor firmware holds them; `None` when one does.
pub open spec fn swfw_take(sync: u32, mask: u16) -> Option<u32> {
    let swmask = mask as u32;
    let fwmask = (mask as u32) << 16u32;
    if sync & (fwmask | swmask) == 0 { Some(sync | swmask) } else { None }
}

pub fn compute_swfw_take(sync: u32, mask: u16) -> (r: Option<u32>)
    ensures
        r == swfw_take(sync, mask),
{
    let swmask = mask as u32;
    let fwmask = (mask as u32) << 16u32;
    if sync & (fwmask | swmask) == 0 { Some(sync | swmask) } else { None }
}

/// A call of an SW/FW semaphore acquisition: a call of a hardware semaphore
/// attempt, a read or write of SW_FW_SYNC, or a 5 ms wait.
pub open spec fn swfw_call(a: IgcAccess) -> bool {
    ||| hw_semaphore_call(a)
    ||| a matches IgcAccess::Read { offset, .. } && offset == IGC_SW_FW_SYNC
    ||| a matches IgcAccess::Write { offset, .. } && offset == IGC_SW_FW_SYNC
    ||| a == IgcAccess::WaitMs { msec: 5 }
}

/// The calls `ext` end with the bits of `mask` taken: SW_FW_SYNC read with
/// them free (`swfw_take`), written with them taken, and the hardware
/// semaphore put back.
pub open spec fn swfw_taken(ext: Seq<IgcAccess>, mask: u16) -> bool {
    &&& ext.len() >= 3
    &&& ext[ext.len() - 3] matches IgcAccess::Read { offset, r: Ok(v) } && offset == IGC_SW_FW_SYNC && swfw_take(v, mask) is Some
    &&& ext[ext.len() - 2] matches IgcAccess::Write { offset, value, r: Ok(_) } && offset == IGC_SW_FW_SYNC
        && Some(value) == swfw_take(read_value(ext[ext.len() - 3]), mask)
    &&& ext.last() matches IgcAccess::PutHwSemaphore { r: Ok(_) }
}

/// Takes the software/firmware lock on the resources of `mask`: up to 200
/// times, takes the hardware semaphore and, when the resources are free,
/// marks them taken; otherwise releases the semaphore and waits 5 ms. A
/// synchronisation error after the last try.
#[verifier::rlimit(40)]
pub fn igc_acquire_swfw_sync_i225<D: IgcDevice>(dev: &mut D, hw: &mut IgcHw, mask: u16) -> (r: Result<(), IgcDriverErr>)
    ensures
        final(hw).nvm == old(hw).nvm && final(hw).phy == old(hw).phy && final(hw).mac == old(hw).mac,
        extends_log(old(dev).accesses(), final(dev).accesses()),
        all_calls(new_accesses(old(dev).accesses(), final(dev).accesses()), |a: IgcAccess| swfw_call(a)),
        r is Ok ==> swfw_taken(new_accesses(old(dev).accesses(), final(dev).accesses()), mask),
        r matches Err(e) ==> e == IgcDriverErr::SwfwSync || e == IgcDriverErr::NVM
            || exists|i: int| 0 <= i < new_accesses(old(dev).accesses(), final(dev).accesses()).len()
                && access_err(#[trigger] new_accesses(old(dev).accesses(), final(dev).accesses())[i]) == Some(e),
{
    let ghost l0 = dev.accesses();
    let ghost p = |a: IgcAccess| swfw_call(a);
    let ghost q = |a: IgcAccess| hw_semaphore_call(a);
    proof {
        assert(l0.take(l0.len() as int) =~= l0);
        assert(new_accesses(l0, l0) =~= Seq::<IgcAccess>::empty());
    }
    let mut t: u32 = 0;
    while t < 200
        invariant
            t <= 200,
            hw.nvm == old(hw).nvm && hw.phy == old(hw).phy && hw.mac == old(hw).mac,
            p == (|a: IgcAccess| swfw_call(a)),
            q == (|a: IgcAccess| hw_semaphore_call(a)),
            l0 == old(dev).accesses(),
            extends_log(l0, dev.accesses()),
            all_calls(new_accesses(l0, dev.accesses()), p),
        decreases 200 - t,
    {
        let ghost la = dev.accesses();
        let sem = igc_get_hw_semaphore_i225(dev, hw);
        proof {
            lemma_all_calls_append(l0, la, dev.accesses(), p, q);
        }
        match sem {
            Ok(()) => {},
            Err(e) => {
                proof {
                    lemma_extends_log_trans(l0, la, dev.accesses());
                    if e != IgcDriverErr::NVM {
                        let ext = new_accesses(l0, dev.accesses());
                        assert(access_err(ext[ext.len() - 1]) == Some(e));
                    }
                }
                return Err(e);
            },
        }
        let ghost lb = dev.accesses();
        let a = dev.read_reg(IGC_SW_FW_SYNC);
        proof {
            lemma_all_calls_push(l0, lb, dev.accesses().last(), p);
            lemma_new_accesses_push(l0, lb, dev.accesses().last());
        }
        let sync = match a {
            Ok(v) => v,
            Err(e) => {
                proof {
                    let ext = new_accesses(l0, dev.accesses());
                    assert(access_err(ext[ext.len() - 1]) == Some(e));
                }
                return Err(e);
            },
        };
        match compute_swfw_take(sync, mask) {
            Some(taken) => {
                let ghost lc = dev.accesses();
                let result = dev.write_reg(IGC_SW_FW_SYNC, taken);
                proof {
                    lemma_all_calls_push(l0, lc, dev.accesses().last(), p);
                    lemma_new_accesses_push(l0, lc, dev.accesses().last());
                }
                let ghost ld = dev.accesses();
                let put = dev.put_hw_semaphore();
                proof {
                    lemma_all_calls_push(l0, ld, dev.accesses().last(), p);
                    lemma_new_accesses_push(l0, ld, dev.accesses().last());
                    let ext = new_accesses(l0, dev.accesses());
                    assert(ext[ext.len() - 2] == ld.last());
                    assert(ext[ext.len() - 3] == lc.last());
                }
                match put {
                    Ok(()) => {},
                    Err(e) => {
                        proof {
                            let ext = new_accesses(l0, dev.accesses());
                            assert(access_err(ext[ext.len() - 1]) == Some(e));
                        }
                        return Err(e);
                    },
                }
                match result {
                    Ok(()) => return Ok(()),
                    Err(e) => {
                        proof {
                            let ext = new_accesses(l0, dev.accesses());
                            assert(access_err(ext[ext.len() - 2]) == Some(e));
                        }
                        return Err(e);
                    },
                }
            },
            None => {
                let ghost lc = dev.accesses();
                let put = dev.put_hw_semaphore();
                proof {
                    lemma_all_calls_push(l0, lc, dev.accesses().last(), p);
                    lemma_new_accesses_push(l0, lc, dev.accesses().last());
                }
                match put {
                    Ok(()) => {},
                    Err(e) => {
                        proof {
                            let ext = new_accesses(l0, dev.accesses());
                            assert(access_err(ext[ext.len() - 1]) == Some(e));
                        }
                        return Err(e);
                    },
                }
                let ghost ld = dev.accesses();
                dev.wait_millisec(5);
                proof { lemma_all_calls_push(l0, ld, dev.accesses().last(), p); }
            },
        }
        t += 1;
    }
    Err(IgcDriverErr::SwfwSync)
}

/// The calls of `release_swfw_sync_held`: SW_FW_SYNC is read and written
/// back without the bits of `mask`, then the semaphore is put back, whose
/// answer is the result. The first failing call's error ends it.
pub open spec fn release_calls(ext: Seq<IgcAccess>, mask: u16, r: Result<(), IgcDriverErr>) -> bool {
    &&& ext.len() > 0
    &&& ext[0] == IgcAccess::Read { offset: IGC_SW_FW_SYNC, r: ext[0]->Read_r }
    &&& ext[0]->Read_r is Err ==> ext.len() == 1 && r == Err::<(), IgcDriverErr>(ext[0]->Read_r->Err_0)
    &&& ext[0]->Read_r is Ok ==> {
        &&& ext.len() > 1
        &&& ext[1] == IgcAccess::Write { offset: IGC_SW_FW_SYNC, value: ext[0]->Read_r->Ok_0 & !(mask as u32), r: ext[1]->Write_r }
        &&& ends_with_err(ext, 1, ext[1]->Write_r, r)
        &&& ext[1]->Write_r is Ok ==> ext.len() == 3 && ext[2] == IgcAccess::PutHwSemaphore { r: ext[2]->PutHwSemaphore_r }
            && (match ext[2]->PutHwSemaphore_r { Ok(_) => r is Ok, Err(e) => r == Err::<(), IgcDriverErr>(e) })
    }
}

/// With the hardware semaphore held, clears the software bits of `mask` in
/// SW_FW_SYNC and releases the semaphore. (The caller retries the semaphore
/// until it has it.)
pub fn release_swfw_sync_held<D: IgcDevice>(dev: &mut D, mask: u16) -> (r: Result<(), IgcDriverErr>)
    ensures
        extends_log(old(dev).accesses(), final(dev).accesses()),
        release_calls(new_accesses(old(dev).accesses(), final(dev).accesses()), mask, r),
{
    let ghost l0 = dev.accesses();
    let ghost mut calls: Seq<IgcAccess> = Seq::empty();
    let a = dev.read_reg(IGC_SW_FW_SYNC);
    proof { calls = calls.push(dev.accesses().last()); }
    let sync = match a {
        Ok(v) => v & !(mask as u32),
        Err(e) => {
            assert(new_accesses(l0, dev.accesses()) =~= calls);
            assert(dev.accesses().take(l0.len() as int) =~= l0);
            return Err(e);
        },
    };
    let w = dev.write_reg(IGC_SW_FW_SYNC, sync);
    proof { calls = calls.push(dev.accesses().last()); }
    match w {
        Ok(()) => {},
        Err(e) => {
            assert(new_accesses(l0, dev.accesses()) =~= calls);
            assert(dev.accesses().take(l0.len() as int) =~= l0);
            return Err(e);
        },
    }
    let p = dev.put_hw_semaphore();
    proof { calls = calls.push(dev.accesses().last()); }
    assert(new_accesses(l0, dev.accesses()) =~= calls);
    assert(dev.accesses().take(l0.len() as int) =~= l0);
    p
}


// ---------------------------------------------------------------------------
// Resets and PHY parameters.

/// A call of the PHY reset sequence: a read or write of PHPM, CTRL, MDIC or
/// STATUS, a flush, or a wait.
pub open spec fn phy_reset_call(a: IgcAccess) -> bool {
    ||| (a matches IgcAccess::Read { offset, .. } && (offset == IGC_I225_PHPM || offset == IGC_CTRL || offset == IGC_MDIC
            || offset == crate::igc_defines::IGC_STATUS))
    ||| (a matches IgcAccess::Write { offset, .. } && (offset == IGC_I225_PHPM || offset == IGC_CTRL || offset == IGC_MDIC))
    ||| a is Flush
    ||| a is WaitUs
    ||| a is WaitMs
}

/// One more call of the PHY reset sequence keeps every new call one.
proof fn lemma_pushed_reset_call(l0: Seq<IgcAccess>, b: Seq<IgcAccess>, x: IgcAccess)
    requires
        extends_log(l0, b),
        forall|j: int| 0 <= j < new_accesses(l0, b).len() ==> phy_reset_call(#[trigger] new_accesses(l0, b)[j]),
        phy_reset_call(x),
    ensures
        extends_log(l0, b.push(x)),
        forall|j: int| 0 <= j < new_accesses(l0, b.push(x)).len() ==> phy_reset_call(#[trigger] new_accesses(l0, b.push(x))[j]),
{
    let c = b.push(x);
    assert(c.take(l0.len() as int) =~= b.take(l0.len() as int));
    assert forall|j: int| 0 <= j < new_accesses(l0, c).len() implies phy_reset_call(#[trigger] new_accesses(l0, c)[j]) by {
        if j < new_accesses(l0, b).len() {
            assert(new_accesses(l0, c)[j] == new_accesses(l0, b)[j]);
        }
    }
}

/// The calls of an MDIC poll are calls of the PHY reset sequence.
proof fn lemma_mdic_poll_reset_calls(ext: Seq<IgcAccess>, p: int, k: nat, last: u32, r: Result<u32, IgcDriverErr>)
    requires
        0 <= p,
        mdic_poll_from(ext, p, k, last, r),
    ensures
        forall|j: int| p <= j < ext.len() ==> phy_reset_call(#[trigger] ext[j]),
    decreases k,
{
    if k > 0 {
        if let Ok(v) = ext[p + 1]->Read_r {
            if v & IGC_MDIC_READY == 0 {
                lemma_mdic_poll_reset_calls(ext, p + 2, (k - 1) as nat, v, r);
            }
        }
        assert forall|j: int| p <= j < ext.len() implies phy_reset_call(#[trigger] ext[j]) by {
            if j >= p + 2 {
            }
        }
    }
}

/// The calls of an MDIC transfer are calls of the PHY reset sequence.
proof fn lemma_mdic_transfer_reset_calls(ext: Seq<IgcAccess>, command: u32, r: Result<u32, IgcDriverErr>)
    requires
        mdic_transfer_calls(ext, command, r),
    ensures
        forall|j: int| 0 <= j < ext.len() ==> phy_reset_call(#[trigger] ext[j]),
{
    if ext[0]->Write_r is Ok {
        lemma_mdic_poll_reset_calls(ext, 1, (IGC_GEN_POLL_TIMEOUT * 3) as nat, command, r);
    }
}

/// Appending calls of the PHY reset sequence keeps every new call one.
proof fn lemma_appended_reset_calls(l0: Seq<IgcAccess>, b: Seq<IgcAccess>, c: Seq<IgcAccess>)
    requires
        extends_log(l0, b),
        forall|j: int| 0 <= j < new_accesses(l0, b).len() ==> phy_reset_call(#[trigger] new_accesses(l0, b)[j]),
        extends_log(b, c),
        forall|j: int| 0 <= j < new_accesses(b, c).len() ==> phy_reset_call(#[trigger] new_accesses(b, c)[j]),
    ensures
        extends_log(l0, c),
        forall|j: int| 0 <= j < new_accesses(l0, c).len() ==> phy_reset_call(#[trigger] new_accesses(l0, c)[j]),
{
    lemma_extends_log_trans(l0, b, c);
    assert forall|j: int| 0 <= j < new_accesses(l0, c).len() implies phy_reset_call(#[trigger] new_accesses(l0, c)[j]) by {
        if j < new_accesses(l0, b).len() {
            assert(new_accesses(l0, c)[j] == new_accesses(l0, b)[j]);
        } else {
            assert(new_accesses(l0, c)[j] == new_accesses(b, c)[j - new_accesses(l0, b).len()]);
        }
    }
}

/// Polls PHPM up to 100000 times for the reset-complete bit; the last PHPM
/// read and whether the bit was set.
fn wait_phy_reset_complete<D: IgcDevice>(dev: &mut D, phpm: u32) -> (r: Result<(u32, bool), IgcDriverErr>)
    ensures
        extends_log(old(dev).accesses(), final(dev).accesses()),
        forall|k: int| 0 <= k < new_accesses(old(dev).accesses(), final(dev).accesses()).len() ==>
            phy_reset_call(#[trigger] new_accesses(old(dev).accesses(), final(dev).accesses())[k]),
{
    let ghost l0 = dev.accesses();
    assert(l0.take(l0.len() as int) =~= l0);
    let mut phpm = phpm;
    let mut k: u32 = 0;
    while k < 100000
        invariant
            k <= 100000,
            l0 == old(dev).accesses(),
            extends_log(l0, dev.accesses()),
            forall|j: int| 0 <= j < new_accesses(l0, dev.accesses()).len() ==>
                phy_reset_call(#[trigger] new_accesses(l0, dev.accesses())[j]),
        decreases 100000 - k,
    {
        let ghost b0 = dev.accesses();
        let rd = dev.read_reg(IGC_I225_PHPM);
        proof { lemma_pushed_reset_call(l0, b0, dev.accesses().last()); }
        phpm = match rd {
            Ok(v) => v,
            Err(e) => return Err(e),
        };
        let ghost b1 = dev.accesses();
        dev.wait_microsec(1);
        proof { lemma_pushed_reset_call(l0, b1, dev.accesses().last()); }
        if phpm & IGC_I225_PHPM_RST_COMPL != 0 {
            return Ok((phpm, true));
        }
        k += 1;
    }
    Ok((phpm, false))
}

/// The reset sequence with the PHY held: up to two attempts, each taking the
/// PHY out of go-link-down and low-power mode, pulsing the PHY reset bit and
/// waiting for the reset to complete. A PHY that does not report completion
/// is accepted all the same.
fn phy_reset_held<D: IgcDevice>(dev: &mut D, hw: &IgcHw) -> (r: Result<(), IgcDriverErr>)
    ensures
        extends_log(old(dev).accesses(), final(dev).accesses()),
        forall|k: int| 0 <= k < new_accesses(old(dev).accesses(), final(dev).accesses()).len() ==>
            phy_reset_call(#[trigger] new_accesses(old(dev).accesses(), final(dev).accesses())[k]),
{
    let ghost l0 = dev.accesses();
    assert(l0.take(l0.len() as int) =~= l0);
    let ghost b = dev.accesses();
    let c = dev.read_reg(IGC_CTRL);
    proof { lemma_pushed_reset_call(l0, b, dev.accesses().last()); }
    let ctrl = match c {
        Ok(v) => v,
        Err(e) => return Err(e),
    };
    let ghost b = dev.accesses();
    let p = dev.read_reg(IGC_I225_PHPM);
    proof { lemma_pushed_reset_call(l0, b, dev.accesses().last()); }
    let mut phpm = match p {
        Ok(v) => v,
        Err(e) => return Err(e),
    };
    let mut attempt: u32 = 0;
    while attempt < 2
        invariant
            attempt <= 2,
            l0 == old(dev).accesses(),
            extends_log(l0, dev.accesses()),
            forall|j: int| 0 <= j < new_accesses(l0, dev.accesses()).len() ==>
                phy_reset_call(#[trigger] new_accesses(l0, dev.accesses())[j]),
        decreases 2 - attempt,
    {
        phpm = phpm & !(IGC_I225_PHPM_GO_LINKD | IGC_I225_PHPM_ULP);
        let ghost b = dev.accesses();
        let a = dev.write_reg(IGC_I225_PHPM, phpm);
        proof { lemma_pushed_reset_call(l0, b, dev.accesses().last()); }
        if let Err(e) = a { return Err(e); }
        let ghost b = dev.accesses();
        let a = dev.write_flush();
        proof { lemma_pushed_reset_call(l0, b, dev.accesses().last()); }
        if let Err(e) = a { return Err(e); }
        let ghost b = dev.accesses();
        let a = dev.write_reg(IGC_CTRL, ctrl | IGC_CTRL_PHY_RST);
        proof { lemma_pushed_reset_call(l0, b, dev.accesses().last()); }
        if let Err(e) = a { return Err(e); }
        let ghost b = dev.accesses();
        let a = dev.write_flush();
        proof { lemma_pushed_reset_call(l0, b, dev.accesses().last()); }
        if let Err(e) = a { return Err(e); }
        let ghost b = dev.accesses();
        dev.wait_microsec(hw.phy.reset_delay_us as u64);
        proof { lemma_pushed_reset_call(l0, b, dev.accesses().last()); }
        let ghost b = dev.accesses();
        let a = dev.write_reg(IGC_CTRL, ctrl);
        proof { lemma_pushed_reset_call(l0, b, dev.accesses().last()); }
        if let Err(e) = a { return Err(e); }
        let ghost b = dev.accesses();
        let a = dev.write_flush();
        proof { lemma_pushed_reset_call(l0, b, dev.accesses().last()); }
        if let Err(e) = a { return Err(e); }
        let ghost b = dev.accesses();
        dev.wait_microsec(150);
        proof { lemma_pushed_reset_call(l0, b, dev.accesses().last()); }
        let ghost b = dev.accesses();
        let w = wait_phy_reset_complete(dev, phpm);
        proof { lemma_appended_reset_calls(l0, b, dev.accesses()); }
        let (last, complete) = match w {
            Ok(v) => v,
            Err(e) => return Err(e),
        };
        phpm = last;
        if complete {
            return Ok(());
        }
        if attempt == 0 {
            let ghost b = dev.accesses();
            dev.wait_millisec(1);
            proof { lemma_pushed_reset_call(l0, b, dev.accesses().last()); }
        }
        attempt += 1;
    }
    let ghost b = dev.accesses();
    let id1 = igc_read_phy_reg_mdic(dev, hw, PHY_ID1);
    proof {
        if PHY_ID1 <= MAX_PHY_REG_ADDRESS {
            let t = choose|t: Result<u32, IgcDriverErr>| #[trigger] mdic_transfer_calls(new_accesses(b, dev.accesses()),
                (PHY_ID1 << IGC_MDIC_REG_SHIFT) | (hw.phy.addr << IGC_MDIC_PHY_SHIFT) | IGC_MDIC_OP_READ, t)
                && id1 == mdic_read_result(t, PHY_ID1);
            lemma_mdic_transfer_reset_calls(new_accesses(b, dev.accesses()),
                (PHY_ID1 << IGC_MDIC_REG_SHIFT) | (hw.phy.addr << IGC_MDIC_PHY_SHIFT) | IGC_MDIC_OP_READ, t);
        }
        lemma_appended_reset_calls(l0, b, dev.accesses());
    }
    if id1.is_ok() {
        let ghost b = dev.accesses();
        let id2 = igc_read_phy_reg_mdic(dev, hw, PHY_ID2);
        proof {
            if PHY_ID2 <= MAX_PHY_REG_ADDRESS {
                let t = choose|t: Result<u32, IgcDriverErr>| #[trigger] mdic_transfer_calls(new_accesses(b, dev.accesses()),
                    (PHY_ID2 << IGC_MDIC_REG_SHIFT) | (hw.phy.addr << IGC_MDIC_PHY_SHIFT) | IGC_MDIC_OP_READ, t)
                    && id2 == mdic_read_result(t, PHY_ID2);
                lemma_mdic_transfer_reset_calls(new_accesses(b, dev.accesses()),
                    (PHY_ID2 << IGC_MDIC_REG_SHIFT) | (hw.phy.addr << IGC_MDIC_PHY_SHIFT) | IGC_MDIC_OP_READ, t);
            }
            lemma_appended_reset_calls(l0, b, dev.accesses());
        }
        if id2.is_ok() {
            return Ok(());
        }
    }
    let ghost b = dev.accesses();
    let _status = dev.read_reg(crate::igc_defines::IGC_STATUS);
    proof { lemma_pushed_reset_call(l0, b, dev.accesses().last()); }
    Ok(())
}

/// The calls of a PHY reset (see `igc_phy_hw_reset_generic`): the reset
/// block is checked first (a blocked reset ends it with success, another
/// failure with its error); then the PHY is taken (a failure ends it); then
/// come calls of the reset sequence (`phy_reset_call`), and last the PHY is
/// given back, a failure there being the result.
pub open spec fn phy_hw_reset_calls(ext: Seq<IgcAccess>, r: Result<(), IgcDriverErr>) -> bool {
    &&& ext.len() > 0
    &&& ext[0] == IgcAccess::CheckResetBlock { r: ext[0]->CheckResetBlock_r }
    &&& ext[0]->CheckResetBlock_r == Err::<(), IgcDriverErr>(IgcDriverErr::BlkPhyReset) ==> ext.len() == 1 && r is Ok
    &&& (ext[0]->CheckResetBlock_r is Err && ext[0]->CheckResetBlock_r != Err::<(), IgcDriverErr>(IgcDriverErr::BlkPhyReset))
        ==> ext.len() == 1 && r == ext[0]->CheckResetBlock_r
    &&& ext[0]->CheckResetBlock_r is Ok ==> {
        &&& ext.len() > 1
        &&& ext[1] == IgcAccess::PhyAcquire { r: ext[1]->PhyAcquire_r }
        &&& ends_with_err(ext, 1, ext[1]->PhyAcquire_r, r)
        &&& ext[1]->PhyAcquire_r is Ok ==> {
            &&& ext.len() > 2
            &&& ext.last() == IgcAccess::PhyRelease { r: ext.last()->PhyRelease_r }
            &&& ext.last()->PhyRelease_r is Err ==> r == ext.last()->PhyRelease_r
            &&& forall|j: int| 2 <= j < ext.len() - 1 ==> phy_reset_call(#[trigger] ext[j])
        }
    }
}

/// Resets the PHY unless the reset is blocked (then nothing happens), with the
/// PHY held around the reset sequence.
pub fn igc_phy_hw_reset_generic<D: IgcDevice>(dev: &mut D, hw: &IgcHw) -> (r: Result<(), IgcDriverErr>)
    ensures
        extends_log(old(dev).accesses(), final(dev).accesses()),
        phy_hw_reset_calls(new_accesses(old(dev).accesses(), final(dev).accesses()), r),
{
    let ghost l0 = dev.accesses();
    let c = dev.check_reset_block();
    assert(dev.accesses().take(l0.len() as int) =~= l0);
    match c {
        Err(IgcDriverErr::BlkPhyReset) => {
            assert(new_accesses(l0, dev.accesses()) =~= seq![dev.accesses().last()]);
            return Ok(());
        },
        Err(e) => {
            assert(new_accesses(l0, dev.accesses()) =~= seq![dev.accesses().last()]);
            return Err(e);
        },
        Ok(()) => {},
    }
    let ghost l1 = dev.accesses();
    let a = dev.phy_acquire(hw);
    let ghost l2 = dev.accesses();
    assert(l2.take(l0.len() as int) =~= l0);
    assert(new_accesses(l0, l2) =~= seq![l1.last(), l2.last()]);
    if let Err(e) = a {
        return Err(e);
    }
    let result = phy_reset_held(dev, hw);
    let ghost l3 = dev.accesses();
    let rel = dev.phy_release(hw);
    proof {
        let l4 = dev.accesses();
        lemma_extends_log_trans(l0, l2, l3);
        assert(l4.take(l0.len() as int) =~= l3.take(l0.len() as int));
        let ext = new_accesses(l0, l4);
        assert(ext[0] == new_accesses(l0, l2)[0]);
        assert(ext[1] == new_accesses(l0, l2)[1]);
        assert forall|j: int| 2 <= j < ext.len() - 1 implies phy_reset_call(#[trigger] ext[j]) by {
            assert(ext[j] == new_accesses(l2, l3)[j - 2]);
        }
    }
    match rel {
        Ok(()) => {},
        Err(e) => return Err(e),
    }
    result
}

/// The calls that take the PHY out of go-link-down and D0a low-power mode
/// once PHPM read `phpm`.
pub open spec fn phpm_plan(phpm: u32) -> Seq<IgcAccess> {
    seq![
        IgcAccess::Read { offset: IGC_I225_PHPM, r: Ok(0) },
        IgcAccess::Write { offset: IGC_I225_PHPM, value: phpm & !(IGC_I225_PHPM_GO_LINKD | 0x0400u32), r: Ok(()) },
    ]
}

/// Stage `k` of a PHY set-up made the calls `seg` and answered `res`: the
/// MDICNFG update (default PHY address 1), the PHPM update, powering the PHY
/// up, its hardware reset, and reading its identity.
pub open spec fn phy_init_stage(k: int, seg: Seq<IgcAccess>, res: Result<(), IgcDriverErr>) -> bool {
    if k == 0 {
        plan_until_error(seg, mdicnfg_plan(read_value(seg[0]), 1)) && res == plan_result(seg)
    } else if k == 1 {
        plan_until_error(seg, phpm_plan(read_value(seg[0]))) && res == plan_result(seg)
    } else if k == 2 {
        phy_power_calls(seg, false, res)
    } else if k == 3 {
        phy_hw_reset_calls(seg, res)
    } else {
        plan_until_error(seg, phy_id_plan()) && res == plan_result(seg)
    }
}

/// The calls of `ext` from position `start` are the PHY set-up stages from
/// `k` on, in order; a failing stage ends it with its error.
pub open spec fn phy_init_from(ext: Seq<IgcAccess>, k: int, start: int, r: Result<(), IgcDriverErr>) -> bool
    decreases 5 - k,
{
    if k >= 5 {
        start == ext.len() && r is Ok
    } else {
        exists|end: int, res: Result<(), IgcDriverErr>| {
            &&& start <= end <= ext.len()
            &&& #[trigger] phy_init_stage(k, ext.subrange(start, end), res)
            &&& match res {
                Err(e) => end == ext.len() && r == Err::<(), IgcDriverErr>(e),
                Ok(_) => phy_init_from(ext, k + 1, end, r),
            }
        }
    }
}

/// Stages ending at the given boundaries, each with its answer, give the
/// set-up from stage `k` on.
proof fn lemma_phy_init_from(ext: Seq<IgcAccess>, bs: Seq<int>, rs: Seq<Result<(), IgcDriverErr>>, k: int, r: Result<(), IgcDriverErr>)
    requires
        0 <= k <= 5,
        k < bs.len() == rs.len() + 1,
        rs.len() <= 5,
        bs[k] <= ext.len(),
        forall|x: int| #![trigger bs[x]] k <= x < rs.len() ==> bs[x] <= bs[x + 1],
        forall|x: int| k <= x < rs.len() ==> phy_init_stage(x, #[trigger] ext.subrange(bs[x], bs[x + 1]), rs[x]),
        forall|x: int| k <= x < rs.len() - 1 ==> (#[trigger] rs[x]) is Ok,
        bs[rs.len() as int] == ext.len(),
        rs.len() == 5 ==> rs[4] is Ok ==> r is Ok,
        rs[rs.len() - 1] is Err ==> r == rs[rs.len() - 1],
        0 < rs.len(),
        rs.len() < 5 ==> rs[rs.len() - 1] is Err,
        k <= rs.len(),
        k == rs.len() ==> k == 5 && r is Ok,
    ensures
        phy_init_from(ext, k, bs[k], r),
    decreases 5 - k,
{
    if k < 5 && k < rs.len() {
        assert(phy_init_stage(k, ext.subrange(bs[k], bs[k + 1]), rs[k]));
        if rs[k] is Ok {
            lemma_phy_init_from(ext, bs, rs, k + 1, r);
        }
    }
}

/// PHY parameters of an I225: none for non-copper media; otherwise all
/// speeds advertised, a 100 us reset delay, the PHY address synchronised
/// with MDICNFG, the PHY out of go-link-down and low-power mode, powered up,
/// reset, and identified as an I225 PHY.
#[verifier::rlimit(60)]
#[verifier::spinoff_prover]
pub fn igc_init_phy_params_i225<D: IgcDevice>(dev: &mut D, hw: &mut IgcHw) -> (r: Result<(), IgcDriverErr>)
    ensures
        old(hw).phy.media_type != IgcMediaType::Copper ==> r is Ok
            && *final(hw) == (IgcHw { phy: IgcPhyInfo { phy_type: IgcPhyType::Absent, ..old(hw).phy }, ..*old(hw) })
            && final(dev).accesses() == old(dev).accesses(),
        old(hw).phy.media_type == IgcMediaType::Copper ==> final(hw).phy.autoneg_mask == AUTONEG_ADVERTISE_SPEED_DEFAULT_2500
            && final(hw).phy.reset_delay_us == 100,
        old(hw).phy.media_type == IgcMediaType::Copper && r is Ok ==> final(hw).phy.phy_type == IgcPhyType::I225,
        extends_log(old(dev).accesses(), final(dev).accesses()),
        old(hw).phy.media_type == IgcMediaType::Copper ==>
            phy_init_from(new_accesses(old(dev).accesses(), final(dev).accesses()), 0, 0, r),
{
    let ghost l0 = dev.accesses();
    proof { assert(l0.take(l0.len() as int) =~= l0); }
    if hw.phy.media_type != IgcMediaType::Copper {
        hw.phy.phy_type = IgcPhyType::Absent;
        return Ok(());
    }
    hw.phy.autoneg_mask = AUTONEG_ADVERTISE_SPEED_DEFAULT_2500;
    hw.phy.reset_delay_us = 100;
    let ghost mut bs: Seq<int> = seq![0int];
    let ghost mut rs: Seq<Result<(), IgcDriverErr>> = Seq::empty();
    // Stage 0: MDICNFG.
    let s0 = igc_sync_mdic_phy_addr(dev, hw, 1);
    let ghost l1 = dev.accesses();
    let ghost r0 = match s0 { Ok(_) => Ok::<(), IgcDriverErr>(()), Err(e) => Err::<(), IgcDriverErr>(e) };
    proof {
        let ext = new_accesses(l0, l1);
        assert(ext.subrange(0, ext.len() as int) =~= ext);
        assert(phy_init_stage(0, ext.subrange(0, ext.len() as int), r0));
        bs = bs.push(ext.len() as int);
        rs = rs.push(r0);
    }
    match s0 {
        Ok(_) => {},
        Err(e) => {
            proof { lemma_phy_init_from(new_accesses(l0, dev.accesses()), bs, rs, 0, Err(e)); }
            return Err(e);
        },
    }
    // Stage 1: PHPM.
    let a = dev.read_reg(IGC_I225_PHPM);
    proof { assert(l1.take(l1.len() as int) =~= l1); lemma_new_accesses_push(l1, l1, dev.accesses().last()); }
    let ghost la = dev.accesses();
    proof {
        assert(l1.take(l1.len() as int) =~= l1);
    }
    let phpm = match a {
        Ok(v) => v & !(IGC_I225_PHPM_GO_LINKD | 0x0400u32),
        Err(e) => {
            proof {
                lemma_extends_log_trans(l0, l1, la);
                let ext = new_accesses(l0, la);
                let seg = new_accesses(l1, la);
                assert(new_accesses(l1, l1) =~= Seq::<IgcAccess>::empty());
                lemma_plan_next(Seq::empty(), phpm_plan(read_value(seg[0])), seg[0]);
                assert(Seq::<IgcAccess>::empty().push(seg[0]) =~= seg);
                assert(ext.subrange(bs[1], ext.len() as int) =~= seg);
                assert(ext.subrange(0, bs[1]) =~= new_accesses(l0, l1));
                let r1 = Err::<(), IgcDriverErr>(e);
                assert(phy_init_stage(1, ext.subrange(bs[1], ext.len() as int), r1));
                let bs2 = bs.push(ext.len() as int);
                let rs2 = rs.push(r1);
                assert(ext.subrange(bs2[0], bs2[1]) =~= new_accesses(l0, l1));
                lemma_phy_init_from(ext, bs2, rs2, 0, r1);
            }
            return Err(e);
        },
    };
    let w = dev.write_reg(IGC_I225_PHPM, phpm);
    let ghost lw = dev.accesses();
    let ghost r1 = match w { Ok(_) => Ok::<(), IgcDriverErr>(()), Err(e) => Err::<(), IgcDriverErr>(e) };
    proof {
        lemma_extends_log_trans(l0, l1, la);
        lemma_new_accesses_push(l1, la, lw.last());
        lemma_new_accesses_push(l0, la, lw.last());
        assert(lw == la.push(lw.last()));
        let seg = new_accesses(l1, lw);
        assert(new_accesses(l1, l1) =~= Seq::<IgcAccess>::empty());
        lemma_plan_next(Seq::empty(), phpm_plan(read_value(seg[0])), seg[0]);
        assert(Seq::<IgcAccess>::empty().push(seg[0]) =~= seg.take(1));
        lemma_plan_next(seg.take(1), phpm_plan(read_value(seg[0])), seg[1]);
        assert(seg.take(1).push(seg[1]) =~= seg);
        if w is Ok {
            lemma_plan_done(seg, phpm_plan(read_value(seg[0])));
        }
        let ext = new_accesses(l0, lw);
        assert(ext.subrange(bs[1], ext.len() as int) =~= seg);
        assert(phy_init_stage(1, ext.subrange(bs[1], ext.len() as int), r1));
        bs = bs.push(ext.len() as int);
        rs = rs.push(r1);
    }
    match w {
        Ok(()) => {},
        Err(e) => {
            proof {
                let ext = new_accesses(l0, lw);
                assert(ext.subrange(bs[0], bs[1]) =~= new_accesses(l0, l1));
                lemma_phy_init_from(ext, bs, rs, 0, Err(e));
            }
            return Err(e);
        },
    }
    // Stage 2: power up.
    let p = igc_power_up_phy_copper(dev, hw);
    let ghost lp = dev.accesses();
    proof {
        lemma_extends_log_trans(l0, lw, lp);
        let ext = new_accesses(l0, lp);
        assert(ext.subrange(bs[2], ext.len() as int) =~= new_accesses(lw, lp));
        assert(phy_init_stage(2, ext.subrange(bs[2], ext.len() as int), p));
        bs = bs.push(ext.len() as int);
        rs = rs.push(p);
    }
    match p {
        Ok(()) => {},
        Err(e) => {
            proof {
                let ext = new_accesses(l0, lp);
                assert(ext.subrange(bs[0], bs[1]) =~= new_accesses(l0, l1));
                assert(ext.subrange(bs[1], bs[2]) =~= new_accesses(l0, lw).subrange(bs[1], bs[2]));
                lemma_phy_init_from(ext, bs, rs, 0, Err(e));
            }
            return Err(e);
        },
    }
    // Stage 3: hardware reset.
    let h = igc_phy_hw_reset_generic(dev, hw);
    let ghost lh = dev.accesses();
    proof {
        lemma_extends_log_trans(l0, lp, lh);
        let ext = new_accesses(l0, lh);
        assert(ext.subrange(bs[3], ext.len() as int) =~= new_accesses(lp, lh));
        assert(phy_init_stage(3, ext.subrange(bs[3], ext.len() as int), h));
        bs = bs.push(ext.len() as int);
        rs = rs.push(h);
    }
    match h {
        Ok(()) => {},
        Err(e) => {
            proof {
                let ext = new_accesses(l0, lh);
                assert(ext.subrange(bs[0], bs[1]) =~= new_accesses(l0, l1));
                assert(ext.subrange(bs[1], bs[2]) =~= new_accesses(l0, lw).subrange(bs[1], bs[2]));
                assert(ext.subrange(bs[2], bs[3]) =~= new_accesses(l0, lp).subrange(bs[2], bs[3]));
                lemma_phy_init_from(ext, bs, rs, 0, Err(e));
            }
            return Err(e);
        },
    }
    // Stage 4: identity.
    let i = igc_get_phy_id(dev, hw);
    let ghost li = dev.accesses();
    proof {
        lemma_extends_log_trans(l0, lh, li);
        let ext = new_accesses(l0, li);
        assert(ext.subrange(bs[4], ext.len() as int) =~= new_accesses(lh, li));
        assert(phy_init_stage(4, ext.subrange(bs[4], ext.len() as int), i));
        bs = bs.push(ext.len() as int);
        rs = rs.push(i);
        assert(ext.subrange(bs[0], bs[1]) =~= new_accesses(l0, l1));
        assert(ext.subrange(bs[1], bs[2]) =~= new_accesses(l0, lw).subrange(bs[1], bs[2]));
        assert(ext.subrange(bs[2], bs[3]) =~= new_accesses(l0, lp).subrange(bs[2], bs[3]));
        assert(ext.subrange(bs[3], bs[4]) =~= new_accesses(l0, lh).subrange(bs[3], bs[4]));
    }
    match i {
        Ok(()) => {},
        Err(e) => {
            proof { lemma_phy_init_from(new_accesses(l0, li), bs, rs, 0, Err(e)); }
            return Err(e);
        },
    }
    hw.phy.phy_type = IgcPhyType::I225;
    proof { lemma_phy_init_from(new_accesses(l0, li), bs, rs, 0, Ok(())); }
    Ok(())
}

/// The error a call answered, if it failed.
pub open spec fn access_err(a: IgcAccess) -> Option<IgcDriverErr> {
    match a {
        IgcAccess::Read { r, .. } => match r { Ok(_) => None, Err(e) => Some(e) },
        IgcAccess::Write { r, .. } => match r { Ok(_) => None, Err(e) => Some(e) },
        IgcAccess::Flush { r } => match r { Ok(_) => None, Err(e) => Some(e) },
        IgcAccess::WaitUs { .. } => None,
        IgcAccess::WaitMs { .. } => None,
        IgcAccess::PhyRead { r, .. } => match r { Ok(_) => None, Err(e) => Some(e) },
        IgcAccess::PhyWrite { r, .. } => match r { Ok(_) => None, Err(e) => Some(e) },
        IgcAccess::PhyAcquire { r } => match r { Ok(_) => None, Err(e) => Some(e) },
        IgcAccess::PhyRelease { r } => match r { Ok(_) => None, Err(e) => Some(e) },
        IgcAccess::CheckResetBlock { r } => match r { Ok(_) => None, Err(e) => Some(e) },
        IgcAccess::LinkUpInfo { r } => match r { Ok(_) => None, Err(e) => Some(e) },
        IgcAccess::ConfigCollisionDist { r } => match r { Ok(_) => None, Err(e) => Some(e) },
        IgcAccess::ForceSpeedDuplex { r } => match r { Ok(_) => None, Err(e) => Some(e) },
        IgcAccess::ConfigFcAfterLinkUp { r } => match r { Ok(_) => None, Err(e) => Some(e) },
        IgcAccess::PutHwSemaphore { r } => match r { Ok(_) => None, Err(e) => Some(e) },
        IgcAccess::NvmAcquire { r } => match r { Ok(_) => None, Err(e) => Some(e) },
        IgcAccess::NvmRelease { r } => match r { Ok(_) => None, Err(e) => Some(e) },
        IgcAccess::ReadNvmEerd { r, .. } => match r { Ok(_) => None, Err(e) => Some(e) },
        IgcAccess::DisablePcieMaster { r } => match r { Ok(_) => None, Err(e) => Some(e) },
        IgcAccess::GetAutoRdDone { r } => match r { Ok(_) => None, Err(e) => Some(e) },
        IgcAccess::CheckAltMacAddr { r } => match r { Ok(_) => None, Err(e) => Some(e) },
    }
}

/// A call with its answer set aside (replaced by a fixed one), to compare
/// what was asked.
pub open spec fn without_answer(a: IgcAccess) -> IgcAccess {
    match a {
        IgcAccess::Read { offset, .. } => IgcAccess::Read { offset, r: Ok(0) },
        IgcAccess::Write { offset, value, .. } => IgcAccess::Write { offset, value, r: Ok(()) },
        IgcAccess::PhyRead { offset, .. } => IgcAccess::PhyRead { offset, r: Ok(0) },
        IgcAccess::PhyWrite { offset, data, .. } => IgcAccess::PhyWrite { offset, data, r: Ok(()) },
        IgcAccess::PhyAcquire { .. } => IgcAccess::PhyAcquire { r: Ok(()) },
        IgcAccess::PhyRelease { .. } => IgcAccess::PhyRelease { r: Ok(()) },
        _ => a,
    }
}

/// The calls `ext` are the first calls of `plan` (answers aside), and each
/// succeeded.
pub open spec fn plan_prefix_ok(ext: Seq<IgcAccess>, plan: Seq<IgcAccess>) -> bool {
    &&& ext.len() <= plan.len()
    &&& forall|i: int| 0 <= i < ext.len() ==> without_answer(#[trigger] ext[i]) == without_answer(plan[i])
    &&& forall|i: int| 0 <= i < ext.len() ==> access_err(#[trigger] ext[i]) is None
}

/// The calls `ext` are the calls of `plan` (answers aside), in order, up to
/// and including the first one that failed: all of them when none failed.
pub open spec fn plan_until_error(ext: Seq<IgcAccess>, plan: Seq<IgcAccess>) -> bool {
    &&& 0 < ext.len() <= plan.len()
    &&& forall|i: int| 0 <= i < ext.len() ==> without_answer(#[trigger] ext[i]) == without_answer(plan[i])
    &&& forall|i: int| 0 <= i < ext.len() - 1 ==> access_err(#[trigger] ext[i]) is None
    &&& ext.len() < plan.len() ==> access_err(ext.last()) is Some
}

/// The outcome of calls that stop at the first failure: that failure, else
/// success.
pub open spec fn plan_result(ext: Seq<IgcAccess>) -> Result<(), IgcDriverErr> {
    match access_err(ext.last()) {
        Some(e) => Err(e),
        None => Ok(()),
    }
}

/// One more planned call: the plan goes on when it succeeded and ends with
/// its failure otherwise.
proof fn lemma_plan_next(ext: Seq<IgcAccess>, plan: Seq<IgcAccess>, a: IgcAccess)
    requires
        plan_prefix_ok(ext, plan),
        ext.len() < plan.len(),
        without_answer(a) == without_answer(plan[ext.len() as int]),
    ensures
        access_err(a) is None ==> plan_prefix_ok(ext.push(a), plan),
        access_err(a) is Some ==> plan_until_error(ext.push(a), plan)
            && plan_result(ext.push(a)) == Err::<(), IgcDriverErr>(access_err(a)->0),
{
    let e2 = ext.push(a);
    assert forall|i: int| 0 <= i < e2.len() implies without_answer(#[trigger] e2[i]) == without_answer(plan[i]) by {
        if i < ext.len() {
            assert(e2[i] == ext[i]);
        }
    }
    assert forall|i: int| 0 <= i < e2.len() - 1 implies access_err(#[trigger] e2[i]) is None by {
        assert(e2[i] == ext[i]);
    }
}

/// All planned calls succeeded.
proof fn lemma_plan_done(ext: Seq<IgcAccess>, plan: Seq<IgcAccess>)
    requires
        plan_prefix_ok(ext, plan),
        ext.len() == plan.len(),
        ext.len() > 0,
    ensures
        plan_until_error(ext, plan),
        plan_result(ext) == Ok::<(), IgcDriverErr>(()),
{
    assert(access_err(ext[ext.len() - 1]) is None);
}

/// The calls made after `l0` once one more call `a` is made.
proof fn lemma_new_accesses_push(l0: Seq<IgcAccess>, l: Seq<IgcAccess>, a: IgcAccess)
    requires
        extends_log(l0, l),
    ensures
        extends_log(l0, l.push(a)),
        new_accesses(l0, l.push(a)) == new_accesses(l0, l).push(a),
{
    assert(l.push(a).take(l0.len() as int) =~= l.take(l0.len() as int));
    assert(new_accesses(l0, l.push(a)) =~= new_accesses(l0, l).push(a));
}

/// Call `i` of a MAC reset, as `reset_calls` lists them.
pub open spec fn reset_step(ext: Seq<IgcAccess>, i: int) -> bool {
    if i == 0 {
        ext[i] is DisablePcieMaster
    } else if i == 1 || i == 9 {
        ext[i] matches IgcAccess::Write { offset, value, .. } && offset == IGC_IMC && value == 0xffffffffu32
    } else if i == 2 {
        ext[i] matches IgcAccess::Write { offset, value, .. } && offset == IGC_RCTL && value == 0u32
    } else if i == 3 {
        ext[i] matches IgcAccess::Write { offset, value, .. } && offset == IGC_TCTL && value == IGC_TCTL_PSP
    } else if i == 4 {
        ext[i] is Flush
    } else if i == 5 {
        ext[i] == IgcAccess::WaitMs { msec: 10 }
    } else if i == 6 {
        ext[i] matches IgcAccess::Read { offset, .. } && offset == IGC_CTRL
    } else if i == 7 {
        ext[i] matches IgcAccess::Write { offset, value, .. } && offset == IGC_CTRL
            && value == ext[6]->Read_r->Ok_0 | IGC_CTRL_DEV_RST
    } else if i == 8 {
        ext[i] is GetAutoRdDone
    } else if i == 10 {
        ext[i] matches IgcAccess::Read { offset, .. } && offset == IGC_ICR
    } else {
        ext[i] is CheckAltMacAddr
    }
}

/// The calls of `igc_reset_hw_i225`, in order: PCIe mastering is stopped;
/// IMC is written all ones, RCTL 0 and TCTL PSP; the writes are flushed;
/// 10 ms pass; CTRL is read and written back with DEV_RST set; the NVM
/// auto-read is waited for (its answer ignored); IMC is written all ones
/// again; ICR is read (clearing it); and the alternate MAC address is
/// installed, whose answer is the result. The first failing call (but the
/// ignored one) ends it with its error.
pub open spec fn reset_calls(ext: Seq<IgcAccess>, r: Result<(), IgcDriverErr>) -> bool {
    &&& 0 < ext.len() <= 12
    &&& forall|i: int| 0 <= i < ext.len() ==> #[trigger] reset_step(ext, i)
    &&& forall|i: int| 0 <= i < ext.len() - 1 && i != 8 ==> access_err(#[trigger] ext[i]) is None
    &&& ext.len() < 12 ==> (access_err(ext.last()) matches Some(e) && r == Err::<(), IgcDriverErr>(e))
    &&& ext.len() == 12 ==> (match access_err(ext[11]) { None => r is Ok, Some(e) => r == Err::<(), IgcDriverErr>(e) })
}

/// Resets the MAC into a known state: stops PCIe mastering, masks and clears
/// interrupts, stops receive and transmit, sets the device reset bit, waits
/// for the NVM auto-read (a failure there is tolerated), and installs an
/// alternate MAC address.
#[verifier::rlimit(60)]
#[verifier::spinoff_prover]
pub fn igc_reset_hw_i225<D: IgcDevice>(dev: &mut D, hw: &mut IgcHw) -> (r: Result<(), IgcDriverErr>)
    ensures
        extends_log(old(dev).accesses(), final(dev).accesses()),
        reset_calls(new_accesses(old(dev).accesses(), final(dev).accesses()), r),
{
    let ghost l0 = dev.accesses();
    let ghost mut calls: Seq<IgcAccess> = Seq::empty();
    let a = dev.disable_pcie_master();
    proof { calls = calls.push(dev.accesses().last()); }
    if let Err(e) = a {
        assert(new_accesses(l0, dev.accesses()) =~= calls);
        assert(dev.accesses().take(l0.len() as int) =~= l0);
        return Err(e);
    }
    let a = dev.write_reg(IGC_IMC, 0xffffffff);
    proof { calls = calls.push(dev.accesses().last()); }
    if let Err(e) = a {
        assert(new_accesses(l0, dev.accesses()) =~= calls);
        assert(dev.accesses().take(l0.len() as int) =~= l0);
        return Err(e);
    }
    let a = dev.write_reg(IGC_RCTL, 0);
    proof { calls = calls.push(dev.accesses().last()); }
    if let Err(e) = a {
        assert(new_accesses(l0, dev.accesses()) =~= calls);
        assert(dev.accesses().take(l0.len() as int) =~= l0);
        return Err(e);
    }
    let a = dev.write_reg(IGC_TCTL, IGC_TCTL_PSP);
    proof { calls = calls.push(dev.accesses().last()); }
    if let Err(e) = a {
        assert(new_accesses(l0, dev.accesses()) =~= calls);
        assert(dev.accesses().take(l0.len() as int) =~= l0);
        return Err(e);
    }
    let a = dev.write_flush();
    proof { calls = calls.push(dev.accesses().last()); }
    if let Err(e) = a {
        assert(new_accesses(l0, dev.accesses()) =~= calls);
        assert(dev.accesses().take(l0.len() as int) =~= l0);
        return Err(e);
    }
    dev.wait_millisec(10);
    proof { calls = calls.push(dev.accesses().last()); }
    let c = dev.read_reg(IGC_CTRL);
    proof { calls = calls.push(dev.accesses().last()); }
    let ctrl = match c {
        Ok(v) => v,
        Err(e) => {
            assert(new_accesses(l0, dev.accesses()) =~= calls);
            assert(dev.accesses().take(l0.len() as int) =~= l0);
            return Err(e);
        },
    };
    let a = dev.write_reg(IGC_CTRL, ctrl | IGC_CTRL_DEV_RST);
    proof { calls = calls.push(dev.accesses().last()); }
    if let Err(e) = a {
        assert(new_accesses(l0, dev.accesses()) =~= calls);
        assert(dev.accesses().take(l0.len() as int) =~= l0);
        return Err(e);
    }
    let _ = dev.get_auto_rd_done();
    proof { calls = calls.push(dev.accesses().last()); }
    let a = dev.write_reg(IGC_IMC, 0xffffffff);
    proof { calls = calls.push(dev.accesses().last()); }
    if let Err(e) = a {
        assert(new_accesses(l0, dev.accesses()) =~= calls);
        assert(dev.accesses().take(l0.len() as int) =~= l0);
        return Err(e);
    }
    let icr = dev.read_reg(IGC_ICR);
    proof { calls = calls.push(dev.accesses().last()); }
    if let Err(e) = icr {
        assert(new_accesses(l0, dev.accesses()) =~= calls);
        assert(dev.accesses().take(l0.len() as int) =~= l0);
        return Err(e);
    }
    let res = dev.check_alt_mac_addr(hw);
    proof { calls = calls.push(dev.accesses().last()); }
    assert(new_accesses(l0, dev.accesses()) =~= calls);
    assert(dev.accesses().take(l0.len() as int) =~= l0);
    res
}

} // verus!
