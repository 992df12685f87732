//! The I225 operations over a plain register interface, in three levels:
//! the registers with the SWSM semaphore and the MANC reset block; the MAC
//! level, which reaches the PHY's MDI registers through MDIC and takes the
//! PHY and the NVM through the software/firmware lock; and the device, which
//! reaches PHY registers through the GPY access path. Each operation is
//! recorded as one call in `accesses`.
use vstd::prelude::*;
use crate::igc::{
    IgcDevice, IgcAccess, IgcHw, IgcDriverErr, IgcSpeed, IgcDuplex, igc_read_phy_reg_mdic,
    igc_write_phy_reg_mdic, igc_read_phy_reg_gpy, igc_write_phy_reg_gpy, igc_acquire_swfw_sync_i225,
    igc_get_hw_semaphore_i225, release_swfw_sync_held,
};
use crate::igc_defines::{
    IGC_SWSM, IGC_SWSM_SMBI, IGC_SWSM_SWESMBI, IGC_SWFW_EEP_SM, IGC_SWFW_PHY0_SM, IGC_MANC,
    IGC_MANC_BLK_PHY_RST_ON_IDE,
};

verus! {

/// Memory-mapped registers of a controller, write flushes and delays.
/// Nothing is assumed of what the hardware answers.
pub trait IgcRegisters {
    fn read_reg(&mut self, offset: usize) -> Result<u32, IgcDriverErr>;
    fn write_reg(&mut self, offset: usize, value: u32) -> Result<(), IgcDriverErr>;
    fn write_flush(&mut self) -> Result<(), IgcDriverErr>;
    fn wait_microsec(&mut self, usec: u64);
    fn wait_millisec(&mut self, msec: u64);
}

/// The register level: registers, the SWSM semaphore and the MANC reset
/// block.
pub struct I225Regs<R: IgcRegisters> {
    pub regs: R,
    pub log: Ghost<Seq<IgcAccess>>,
}

/// The MAC level over `I225Regs`.
pub struct I225Mac<R: IgcRegisters> {
    pub inner: I225Regs<R>,
    pub log: Ghost<Seq<IgcAccess>>,
}

/// An I225 over the registers `R`.
pub struct I225Device<R: IgcRegisters> {
    pub mac: I225Mac<R>,
    pub log: Ghost<Seq<IgcAccess>>,
}

impl<R: IgcRegisters> I225Device<R> {
    pub fn new(regs: R) -> (d: I225Device<R>)
        ensures
            d.mac.inner.regs == regs,
            d.accesses() == Seq::<IgcAccess>::empty(),
    {
        I225Device {
            mac: I225Mac { inner: I225Regs { regs, log: Ghost(Seq::empty()) }, log: Ghost(Seq::empty()) },
            log: Ghost(Seq::empty()),
        }
    }
}

/// Takes the software/firmware lock on `mask` (see
/// `igc_acquire_swfw_sync_i225`).
fn acquire_lock<R: IgcRegisters>(dev: &mut I225Regs<R>, hw: &IgcHw, mask: u16) -> (r: Result<(), IgcDriverErr>) {
    let mut h = *hw;
    igc_acquire_swfw_sync_i225(dev, &mut h, mask)
}

/// Gives back the software/firmware lock on `mask`: one attempt at the
/// hardware semaphore, then `release_swfw_sync_held`. (Waiting for the
/// semaphore as long as it takes is left to the caller.)
fn release_lock<R: IgcRegisters>(dev: &mut I225Regs<R>, hw: &IgcHw, mask: u16) -> (r: Result<(), IgcDriverErr>) {
    let mut h = *hw;
    match igc_get_hw_semaphore_i225(dev, &mut h) {
        Ok(()) => {},
        Err(e) => return Err(e),
    }
    release_swfw_sync_held(dev, mask)
}

impl<R: IgcRegisters> IgcDevice for I225Regs<R> {
    closed spec fn accesses(&self) -> Seq<IgcAccess> {
        self.log@
    }

    fn wait_microsec(&mut self, usec: u64) {
        self.regs.wait_microsec(usec);
        self.log = Ghost(self.log@.push(IgcAccess::WaitUs { usec }));
    }

    fn wait_millisec(&mut self, msec: u64) {
        self.regs.wait_millisec(msec);
        self.log = Ghost(self.log@.push(IgcAccess::WaitMs { msec }));
    }

    fn read_reg(&mut self, offset: usize) -> (r: Result<u32, IgcDriverErr>) {
        let ghost l = self.log@;
        let r = self.regs.read_reg(offset);
        self.log = Ghost(l.push(IgcAccess::Read { offset, r }));
        r
    }

    fn write_reg(&mut self, offset: usize, value: u32) -> (r: Result<(), IgcDriverErr>) {
        let ghost l = self.log@;
        let r = self.regs.write_reg(offset, value);
        self.log = Ghost(l.push(IgcAccess::Write { offset, value, r }));
        r
    }

    fn write_flush(&mut self) -> (r: Result<(), IgcDriverErr>) {
        let ghost l = self.log@;
        let r = self.regs.write_flush();
        self.log = Ghost(l.push(IgcAccess::Flush { r }));
        r
    }

    /// The code of this operation (MAC, link and NVM helpers of the base driver) is not part of this library; it answers `NotImplemented`.
    fn phy_read_reg(&mut self, hw: &IgcHw, offset: u32) -> (r: Result<u16, IgcDriverErr>) {
        let ghost l = self.log@;
        let r = Err(IgcDriverErr::NotImplemented);
        self.log = Ghost(l.push(IgcAccess::PhyRead { offset, r }));
        r
    }

    /// The code of this operation (MAC, link and NVM helpers of the base driver) is not part of this library; it answers `NotImplemented`.
    fn phy_write_reg(&mut self, hw: &IgcHw, offset: u32, data: u16) -> (r: Result<(), IgcDriverErr>) {
        let ghost l = self.log@;
        let r = Err(IgcDriverErr::NotImplemented);
        self.log = Ghost(l.push(IgcAccess::PhyWrite { offset, data, r }));
        r
    }

    /// The code of this operation (MAC, link and NVM helpers of the base driver) is not part of this library; it answers `NotImplemented`.
    fn phy_acquire(&mut self, hw: &IgcHw) -> (r: Result<(), IgcDriverErr>) {
        let ghost l = self.log@;
        let r = Err(IgcDriverErr::NotImplemented);
        self.log = Ghost(l.push(IgcAccess::PhyAcquire { r }));
        r
    }

    /// The code of this operation (MAC, link and NVM helpers of the base driver) is not part of this library; it answers `NotImplemented`.
    fn phy_release(&mut self, hw: &IgcHw) -> (r: Result<(), IgcDriverErr>) {
        let ghost l = self.log@;
        let r = Err(IgcDriverErr::NotImplemented);
        self.log = Ghost(l.push(IgcAccess::PhyRelease { r }));
        r
    }

    /// A PHY reset is blocked when MANC says so.
    fn check_reset_block(&mut self) -> (r: Result<(), IgcDriverErr>) {
        let ghost l = self.log@;
        let r = match self.regs.read_reg(IGC_MANC) {
            Ok(manc) => if manc & IGC_MANC_BLK_PHY_RST_ON_IDE != 0 { Err(IgcDriverErr::BlkPhyReset) } else { Ok(()) },
            Err(e) => Err(e),
        };
        self.log = Ghost(l.push(IgcAccess::CheckResetBlock { r }));
        r
    }

    /// The code of this operation (MAC, link and NVM helpers of the base driver) is not part of this library; it answers `NotImplemented`.
    fn get_link_up_info(&mut self, hw: &IgcHw) -> (r: Result<(IgcSpeed, IgcDuplex), IgcDriverErr>) {
        let ghost l = self.log@;
        let r = Err(IgcDriverErr::NotImplemented);
        self.log = Ghost(l.push(IgcAccess::LinkUpInfo { r }));
        r
    }

    /// The code of this operation (MAC, link and NVM helpers of the base driver) is not part of this library; it answers `NotImplemented`.
    fn config_collision_dist(&mut self, hw: &IgcHw) -> (r: Result<(), IgcDriverErr>) {
        let ghost l = self.log@;
        let r = Err(IgcDriverErr::NotImplemented);
        self.log = Ghost(l.push(IgcAccess::ConfigCollisionDist { r }));
        r
    }

    /// The code of this operation (MAC, link and NVM helpers of the base driver) is not part of this library; it answers `NotImplemented`.
    fn force_speed_duplex(&mut self, hw: &IgcHw) -> (r: Result<(), IgcDriverErr>) {
        let ghost l = self.log@;
        let r = Err(IgcDriverErr::NotImplemented);
        self.log = Ghost(l.push(IgcAccess::ForceSpeedDuplex { r }));
        r
    }

    /// The code of this operation (MAC, link and NVM helpers of the base driver) is not part of this library; it answers `NotImplemented`.
    fn config_fc_after_link_up(&mut self, hw: &IgcHw) -> (r: Result<(), IgcDriverErr>) {
        let ghost l = self.log@;
        let r = Err(IgcDriverErr::NotImplemented);
        self.log = Ghost(l.push(IgcAccess::ConfigFcAfterLinkUp { r }));
        r
    }

    /// Clears both semaphore bits of SWSM.
    fn put_hw_semaphore(&mut self) -> (r: Result<(), IgcDriverErr>) {
        let ghost l = self.log@;
        let r = match self.regs.read_reg(IGC_SWSM) {
            Ok(swsm) => self.regs.write_reg(IGC_SWSM, swsm & !(IGC_SWSM_SMBI | IGC_SWSM_SWESMBI)),
            Err(e) => Err(e),
        };
        self.log = Ghost(l.push(IgcAccess::PutHwSemaphore { r }));
        r
    }

    /// The code of this operation (MAC, link and NVM helpers of the base driver) is not part of this library; it answers `NotImplemented`.
    fn nvm_acquire(&mut self, hw: &mut IgcHw) -> (r: Result<(), IgcDriverErr>) {
        let ghost l = self.log@;
        let r = Err(IgcDriverErr::NotImplemented);
        self.log = Ghost(l.push(IgcAccess::NvmAcquire { r }));
        r
    }

    /// The code of this operation (MAC, link and NVM helpers of the base driver) is not part of this library; it answers `NotImplemented`.
    fn nvm_release(&mut self, hw: &mut IgcHw) -> (r: Result<(), IgcDriverErr>) {
        let ghost l = self.log@;
        let r = Err(IgcDriverErr::NotImplemented);
        self.log = Ghost(l.push(IgcAccess::NvmRelease { r }));
        r
    }

    /// The code of this operation (MAC, link and NVM helpers of the base driver) is not part of this library; it answers `NotImplemented`.
    fn read_nvm_eerd(&mut self, hw: &IgcHw, offset: u16, count: u16, data: &mut Vec<u16>, start: usize) -> (r: Result<(), IgcDriverErr>) {
        let ghost l = self.log@;
        let r = Err(IgcDriverErr::NotImplemented);
        self.log = Ghost(l.push(IgcAccess::ReadNvmEerd { offset, count, start, r }));
        r
    }

    /// The code of this operation (MAC, link and NVM helpers of the base driver) is not part of this library; it answers `NotImplemented`.
    fn disable_pcie_master(&mut self) -> (r: Result<(), IgcDriverErr>) {
        let ghost l = self.log@;
        let r = Err(IgcDriverErr::NotImplemented);
        self.log = Ghost(l.push(IgcAccess::DisablePcieMaster { r }));
        r
    }

    /// The code of this operation (MAC, link and NVM helpers of the base driver) is not part of this library; it answers `NotImplemented`.
    fn get_auto_rd_done(&mut self) -> (r: Result<(), IgcDriverErr>) {
        let ghost l = self.log@;
        let r = Err(IgcDriverErr::NotImplemented);
        self.log = Ghost(l.push(IgcAccess::GetAutoRdDone { r }));
        r
    }

    /// The code of this operation (MAC, link and NVM helpers of the base driver) is not part of this library; it answers `NotImplemented`.
    fn check_alt_mac_addr(&mut self, hw: &mut IgcHw) -> (r: Result<(), IgcDriverErr>) {
        let ghost l = self.log@;
        let r = Err(IgcDriverErr::NotImplemented);
        self.log = Ghost(l.push(IgcAccess::CheckAltMacAddr { r }));
        r
    }

}

impl<R: IgcRegisters> IgcDevice for I225Mac<R> {
    closed spec fn accesses(&self) -> Seq<IgcAccess> {
        self.log@
    }

    fn wait_microsec(&mut self, usec: u64) {
        self.inner.wait_microsec(usec);
        self.log = Ghost(self.log@.push(IgcAccess::WaitUs { usec }));
    }

    fn wait_millisec(&mut self, msec: u64) {
        self.inner.wait_millisec(msec);
        self.log = Ghost(self.log@.push(IgcAccess::WaitMs { msec }));
    }

    fn read_reg(&mut self, offset: usize) -> (r: Result<u32, IgcDriverErr>) {
        let ghost l = self.log@;
        let r = self.inner.read_reg(offset);
        self.log = Ghost(l.push(IgcAccess::Read { offset, r }));
        r
    }

    fn write_reg(&mut self, offset: usize, value: u32) -> (r: Result<(), IgcDriverErr>) {
        let ghost l = self.log@;
        let r = self.inner.write_reg(offset, value);
        self.log = Ghost(l.push(IgcAccess::Write { offset, value, r }));
        r
    }

    fn write_flush(&mut self) -> (r: Result<(), IgcDriverErr>) {
        let ghost l = self.log@;
        let r = self.inner.write_flush();
        self.log = Ghost(l.push(IgcAccess::Flush { r }));
        r
    }

    /// Reads MDI register `offset` through MDIC under the PHY lock.
    fn phy_read_reg(&mut self, hw: &IgcHw, offset: u32) -> (r: Result<u16, IgcDriverErr>) {
        let ghost l = self.log@;
        let r = match acquire_lock(&mut self.inner, hw, IGC_SWFW_PHY0_SM) {
            Ok(()) => {
                let v = igc_read_phy_reg_mdic(&mut self.inner, hw, offset);
                match release_lock(&mut self.inner, hw, IGC_SWFW_PHY0_SM) {
                    Ok(()) => v,
                    Err(e) => Err(e),
                }
            },
            Err(e) => Err(e),
        };
        self.log = Ghost(l.push(IgcAccess::PhyRead { offset, r }));
        r
    }

    /// Writes MDI register `offset` through MDIC under the PHY lock.
    fn phy_write_reg(&mut self, hw: &IgcHw, offset: u32, data: u16) -> (r: Result<(), IgcDriverErr>) {
        let ghost l = self.log@;
        let r = match acquire_lock(&mut self.inner, hw, IGC_SWFW_PHY0_SM) {
            Ok(()) => {
                let v = igc_write_phy_reg_mdic(&mut self.inner, hw, offset, data);
                match release_lock(&mut self.inner, hw, IGC_SWFW_PHY0_SM) {
                    Ok(()) => v,
                    Err(e) => Err(e),
                }
            },
            Err(e) => Err(e),
        };
        self.log = Ghost(l.push(IgcAccess::PhyWrite { offset, data, r }));
        r
    }

    /// Takes the software/firmware lock of PHY 0.
    fn phy_acquire(&mut self, hw: &IgcHw) -> (r: Result<(), IgcDriverErr>) {
        let ghost l = self.log@;
        let r = acquire_lock(&mut self.inner, hw, IGC_SWFW_PHY0_SM);
        self.log = Ghost(l.push(IgcAccess::PhyAcquire { r }));
        r
    }

    /// Gives back the software/firmware lock of PHY 0.
    fn phy_release(&mut self, hw: &IgcHw) -> (r: Result<(), IgcDriverErr>) {
        let ghost l = self.log@;
        let r = release_lock(&mut self.inner, hw, IGC_SWFW_PHY0_SM);
        self.log = Ghost(l.push(IgcAccess::PhyRelease { r }));
        r
    }

    fn check_reset_block(&mut self) -> (r: Result<(), IgcDriverErr>) {
        let ghost l = self.log@;
        let r = self.inner.check_reset_block();
        self.log = Ghost(l.push(IgcAccess::CheckResetBlock { r }));
        r
    }

    fn get_link_up_info(&mut self, hw: &IgcHw) -> (r: Result<(IgcSpeed, IgcDuplex), IgcDriverErr>) {
        let ghost l = self.log@;
        let r = self.inner.get_link_up_info(hw);
        self.log = Ghost(l.push(IgcAccess::LinkUpInfo { r }));
        r
    }

    fn config_collision_dist(&mut self, hw: &IgcHw) -> (r: Result<(), IgcDriverErr>) {
        let ghost l = self.log@;
        let r = self.inner.config_collision_dist(hw);
        self.log = Ghost(l.push(IgcAccess::ConfigCollisionDist { r }));
        r
    }

    fn force_speed_duplex(&mut self, hw: &IgcHw) -> (r: Result<(), IgcDriverErr>) {
        let ghost l = self.log@;
        let r = self.inner.force_speed_duplex(hw);
        self.log = Ghost(l.push(IgcAccess::ForceSpeedDuplex { r }));
        r
    }

    fn config_fc_after_link_up(&mut self, hw: &IgcHw) -> (r: Result<(), IgcDriverErr>) {
        let ghost l = self.log@;
        let r = self.inner.config_fc_after_link_up(hw);
        self.log = Ghost(l.push(IgcAccess::ConfigFcAfterLinkUp { r }));
        r
    }

    fn put_hw_semaphore(&mut self) -> (r: Result<(), IgcDriverErr>) {
        let ghost l = self.log@;
        let r = self.inner.put_hw_semaphore();
        self.log = Ghost(l.push(IgcAccess::PutHwSemaphore { r }));
        r
    }

    /// Takes the software/firmware lock of the NVM.
    fn nvm_acquire(&mut self, hw: &mut IgcHw) -> (r: Result<(), IgcDriverErr>) {
        let ghost l = self.log@;
        let r = acquire_lock(&mut self.inner, hw, IGC_SWFW_EEP_SM);
        self.log = Ghost(l.push(IgcAccess::NvmAcquire { r }));
        r
    }

    /// Gives back the software/firmware lock of the NVM.
    fn nvm_release(&mut self, hw: &mut IgcHw) -> (r: Result<(), IgcDriverErr>) {
        let ghost l = self.log@;
        let r = release_lock(&mut self.inner, hw, IGC_SWFW_EEP_SM);
        self.log = Ghost(l.push(IgcAccess::NvmRelease { r }));
        r
    }

    fn read_nvm_eerd(&mut self, hw: &IgcHw, offset: u16, count: u16, data: &mut Vec<u16>, start: usize) -> (r: Result<(), IgcDriverErr>) {
        let ghost l = self.log@;
        let r = self.inner.read_nvm_eerd(hw, offset, count, data, start);
        self.log = Ghost(l.push(IgcAccess::ReadNvmEerd { offset, count, start, r }));
        r
    }

    fn disable_pcie_master(&mut self) -> (r: Result<(), IgcDriverErr>) {
        let ghost l = self.log@;
        let r = self.inner.disable_pcie_master();
        self.log = Ghost(l.push(IgcAccess::DisablePcieMaster { r }));
        r
    }

    fn get_auto_rd_done(&mut self) -> (r: Result<(), IgcDriverErr>) {
        let ghost l = self.log@;
        let r = self.inner.get_auto_rd_done();
        self.log = Ghost(l.push(IgcAccess::GetAutoRdDone { r }));
        r
    }

    fn check_alt_mac_addr(&mut self, hw: &mut IgcHw) -> (r: Result<(), IgcDriverErr>) {
        let ghost l = self.log@;
        let r = self.inner.check_alt_mac_addr(hw);
        self.log = Ghost(l.push(IgcAccess::CheckAltMacAddr { r }));
        r
    }

}

impl<R: IgcRegisters> IgcDevice for I225Device<R> {
    closed spec fn accesses(&self) -> Seq<IgcAccess> {
        self.log@
    }

    fn wait_microsec(&mut self, usec: u64) {
        self.mac.wait_microsec(usec);
        self.log = Ghost(self.log@.push(IgcAccess::WaitUs { usec }));
    }

    fn wait_millisec(&mut self, msec: u64) {
        self.mac.wait_millisec(msec);
        self.log = Ghost(self.log@.push(IgcAccess::WaitMs { msec }));
    }

    fn read_reg(&mut self, offset: usize) -> (r: Result<u32, IgcDriverErr>) {
        let ghost l = self.log@;
        let r = self.mac.read_reg(offset);
        self.log = Ghost(l.push(IgcAccess::Read { offset, r }));
        r
    }

    fn write_reg(&mut self, offset: usize, value: u32) -> (r: Result<(), IgcDriverErr>) {
        let ghost l = self.log@;
        let r = self.mac.write_reg(offset, value);
        self.log = Ghost(l.push(IgcAccess::Write { offset, value, r }));
        r
    }

    fn write_flush(&mut self) -> (r: Result<(), IgcDriverErr>) {
        let ghost l = self.log@;
        let r = self.mac.write_flush();
        self.log = Ghost(l.push(IgcAccess::Flush { r }));
        r
    }

    /// Reads a PHY register through the GPY access path (see `igc_read_phy_reg_gpy`).
    fn phy_read_reg(&mut self, hw: &IgcHw, offset: u32) -> (r: Result<u16, IgcDriverErr>) {
        let ghost l = self.log@;
        let r = igc_read_phy_reg_gpy(&mut self.mac, hw, offset);
        self.log = Ghost(l.push(IgcAccess::PhyRead { offset, r }));
        r
    }

    /// Writes a PHY register through the GPY access path.
    fn phy_write_reg(&mut self, hw: &IgcHw, offset: u32, data: u16) -> (r: Result<(), IgcDriverErr>) {
        let ghost l = self.log@;
        let r = igc_write_phy_reg_gpy(&mut self.mac, hw, offset, data);
        self.log = Ghost(l.push(IgcAccess::PhyWrite { offset, data, r }));
        r
    }

    fn phy_acquire(&mut self, hw: &IgcHw) -> (r: Result<(), IgcDriverErr>) {
        let ghost l = self.log@;
        let r = self.mac.phy_acquire(hw);
        self.log = Ghost(l.push(IgcAccess::PhyAcquire { r }));
        r
    }

    fn phy_release(&mut self, hw: &IgcHw) -> (r: Result<(), IgcDriverErr>) {
        let ghost l = self.log@;
        let r = self.mac.phy_release(hw);
        self.log = Ghost(l.push(IgcAccess::PhyRelease { r }));
        r
    }

    fn check_reset_block(&mut self) -> (r: Result<(), IgcDriverErr>) {
        let ghost l = self.log@;
        let r = self.mac.check_reset_block();
        self.log = Ghost(l.push(IgcAccess::CheckResetBlock { r }));
        r
    }

    fn get_link_up_info(&mut self, hw: &IgcHw) -> (r: Result<(IgcSpeed, IgcDuplex), IgcDriverErr>) {
        let ghost l = self.log@;
        let r = self.mac.get_link_up_info(hw);
        self.log = Ghost(l.push(IgcAccess::LinkUpInfo { r }));
        r
    }

    fn config_collision_dist(&mut self, hw: &IgcHw) -> (r: Result<(), IgcDriverErr>) {
        let ghost l = self.log@;
        let r = self.mac.config_collision_dist(hw);
        self.log = Ghost(l.push(IgcAccess::ConfigCollisionDist { r }));
        r
    }

    fn force_speed_duplex(&mut self, hw: &IgcHw) -> (r: Result<(), IgcDriverErr>) {
        let ghost l = self.log@;
        let r = self.mac.force_speed_duplex(hw);
        self.log = Ghost(l.push(IgcAccess::ForceSpeedDuplex { r }));
        r
    }

    fn config_fc_after_link_up(&mut self, hw: &IgcHw) -> (r: Result<(), IgcDriverErr>) {
        let ghost l = self.log@;
        let r = self.mac.config_fc_after_link_up(hw);
        self.log = Ghost(l.push(IgcAccess::ConfigFcAfterLinkUp { r }));
        r
    }

    fn put_hw_semaphore(&mut self) -> (r: Result<(), IgcDriverErr>) {
        let ghost l = self.log@;
        let r = self.mac.put_hw_semaphore();
        self.log = Ghost(l.push(IgcAccess::PutHwSemaphore { r }));
        r
    }

    fn nvm_acquire(&mut self, hw: &mut IgcHw) -> (r: Result<(), IgcDriverErr>) {
        let ghost l = self.log@;
        let r = self.mac.nvm_acquire(hw);
        self.log = Ghost(l.push(IgcAccess::NvmAcquire { r }));
        r
    }

    fn nvm_release(&mut self, hw: &mut IgcHw) -> (r: Result<(), IgcDriverErr>) {
        let ghost l = self.log@;
        let r = self.mac.nvm_release(hw);
        self.log = Ghost(l.push(IgcAccess::NvmRelease { r }));
        r
    }

    fn read_nvm_eerd(&mut self, hw: &IgcHw, offset: u16, count: u16, data: &mut Vec<u16>, start: usize) -> (r: Result<(), IgcDriverErr>) {
        let ghost l = self.log@;
        let r = self.mac.read_nvm_eerd(hw, offset, count, data, start);
        self.log = Ghost(l.push(IgcAccess::ReadNvmEerd { offset, count, start, r }));
        r
    }

    fn disable_pcie_master(&mut self) -> (r: Result<(), IgcDriverErr>) {
        let ghost l = self.log@;
        let r = self.mac.disable_pcie_master();
        self.log = Ghost(l.push(IgcAccess::DisablePcieMaster { r }));
        r
    }

    fn get_auto_rd_done(&mut self) -> (r: Result<(), IgcDriverErr>) {
        let ghost l = self.log@;
        let r = self.mac.get_auto_rd_done();
        self.log = Ghost(l.push(IgcAccess::GetAutoRdDone { r }));
        r
    }

    fn check_alt_mac_addr(&mut self, hw: &mut IgcHw) -> (r: Result<(), IgcDriverErr>) {
        let ghost l = self.log@;
        let r = self.mac.check_alt_mac_addr(hw);
        self.log = Ghost(l.push(IgcAccess::CheckAltMacAddr { r }));
        r
    }

}

} // verus!
