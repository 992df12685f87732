//! Register offsets and bit definitions of the Intel I225 (igc) controller.
use vstd::prelude::*;

verus! {

// MAC registers.
pub const IGC_CTRL: usize = 0x00000;
pub const IGC_STATUS: usize = 0x00008;
pub const IGC_EECD: usize = 0x00010;
pub const IGC_MDIC: usize = 0x00020;
pub const IGC_RCTL: usize = 0x00100;
pub const IGC_TCTL: usize = 0x00400;
pub const IGC_ICR: usize = 0x01500;
pub const IGC_IMC: usize = 0x0150C;
pub const IGC_LTRC: usize = 0x01A0;
pub const IGC_RXPBS: usize = 0x02404;
pub const IGC_DMACR: usize = 0x02508;
pub const IGC_MDICNFG: usize = 0x00E04;
pub const IGC_I225_PHPM: usize = 0x0E14;
pub const IGC_EEER: usize = 0x0E30;
pub const IGC_EEE_SU: usize = 0x0E34;
pub const IGC_IPCNFG: usize = 0x0E38;
pub const IGC_SWSM: usize = 0x05B50;
pub const IGC_SW_FW_SYNC: usize = 0x05B5C;
pub const IGC_LTRMINV: usize = 0x5BB0;
pub const IGC_LTRMAXV: usize = 0x5BB4;
pub const IGC_SRWR: usize = 0x12018;

// PHY registers.
pub const PHY_CONTROL: u32 = 0x00;
pub const PHY_STATUS: u32 = 0x01;
pub const PHY_ID1: u32 = 0x02;
pub const PHY_ID2: u32 = 0x03;
pub const PHY_AUTONEG_ADV: u32 = 0x04;
pub const PHY_1000T_CTRL: u32 = 0x09;
pub const IGC_MMDAC: u32 = 13;
pub const IGC_MMDAAD: u32 = 14;
pub const IGC_MMDAC_FUNC_DATA: u16 = 0x4000;
pub const STANDARD_AN_REG_MASK: u32 = 0x0007;
pub const MMD_DEVADDR_SHIFT: u32 = 16;
pub const ANEG_MULTIGBT_AN_CTRL: u32 = 0x0020;
/// The MULTI GBT AN control register (7.32) as a GPY register address.
pub const MULTIGBT_AN_CTRL_REG: u32 = 0x0007_0020;

pub const IGC_CTRL_SLU: u32 = 0x00000040;
pub const IGC_CTRL_FRCSPD: u32 = 0x00000800;
pub const IGC_CTRL_FRCDPX: u32 = 0x00001000;
pub const IGC_CTRL_DEV_RST: u32 = 0x20000000;
pub const IGC_CTRL_PHY_RST: u32 = 0x80000000;
pub const IGC_TCTL_PSP: u32 = 0x00000008;

pub const IGC_EECD_FLASH_DETECTED_I225: u32 = 0x00080000;
pub const IGC_EECD_SIZE_EX_MASK: u32 = 0x00007800;
pub const IGC_EECD_SIZE_EX_SHIFT: u32 = 11;
pub const NVM_WORD_SIZE_BASE_SHIFT: u32 = 6;
pub const IGC_EECD_ADDR_BITS: u32 = 0x00000400;

pub const IGC_SWSM_SMBI: u32 = 0x00000001;
pub const IGC_SWSM_SWESMBI: u32 = 0x00000002;

pub const IGC_LTRC_EEEMS_EN: u32 = 0x00000020;
pub const IGC_TW_SYSTEM_100_MASK: u32 = 0x0000FF00;
pub const IGC_TW_SYSTEM_100_SHIFT: u32 = 8;
pub const IGC_TW_SYSTEM_1000_MASK: u32 = 0x000000FF;
pub const IGC_RXPBS_SIZE_I225_MASK: u32 = 0x0000003F;
pub const IGC_DMACR_DMAC_EN: u32 = 0x80000000;
pub const IGC_DMACR_DMACTHR_MASK: u32 = 0x00FF0000;
pub const IGC_DMACR_DMACTHR_SHIFT: u32 = 16;
pub const IGC_LTRMINV_SCALE_1024: u32 = 2;
pub const IGC_LTRMINV_SCALE_32768: u32 = 3;
pub const IGC_LTRMAXV_SCALE_1024: u32 = 2;
pub const IGC_LTRMAXV_SCALE_32768: u32 = 3;
pub const IGC_LTRMINV_LTRV_MASK: u32 = 0x000003FF;
pub const IGC_LTRMINV_LSNP_REQ: u32 = 0x00008000;
pub const IGC_LTRMINV_SCALE_SHIFT: u32 = 10;
pub const IGC_LTRMAXV_LTRV_MASK: u32 = 0x000003FF;
pub const IGC_LTRMAXV_LSNP_REQ: u32 = 0x00008000;
pub const IGC_LTRMAXV_SCALE_SHIFT: u32 = 10;

pub const IGC_EERD_EEWR_MAX_COUNT: u16 = 512;
pub const IGC_NVM_RW_ADDR_SHIFT: u32 = 2;
pub const IGC_NVM_RW_REG_DATA: u32 = 16;
pub const IGC_NVM_RW_REG_START: u32 = 1;
pub const IGC_NVM_RW_REG_DONE: u32 = 2;

pub const IGC_IPCNFG_EEE_100M_AN: u32 = 0x00000004;
pub const IGC_IPCNFG_EEE_1G_AN: u32 = 0x00000008;
pub const IGC_IPCNFG_EEE_2_5G_AN: u32 = 0x00000010;
pub const IGC_EEER_TX_LPI_EN: u32 = 0x00010000;
pub const IGC_EEER_RX_LPI_EN: u32 = 0x00020000;
pub const IGC_EEER_LPI_FC: u32 = 0x00040000;
pub const IGC_EEE_SU_LPI_CLK_STP: u32 = 0x00800000;

pub const MAX_PHY_REG_ADDRESS: u32 = 0x1F;
pub const IGC_MDIC_REG_SHIFT: u32 = 16;
pub const IGC_MDIC_PHY_SHIFT: u32 = 21;
pub const IGC_MDIC_OP_READ: u32 = 0x08000000;
pub const IGC_MDIC_OP_WRITE: u32 = 0x04000000;
pub const IGC_MDIC_READY: u32 = 0x10000000;
pub const IGC_MDIC_ERROR: u32 = 0x40000000;
pub const IGC_MDIC_REG_MASK: u32 = 0x001F0000;
pub const IGC_GEN_POLL_TIMEOUT: u32 = 640;
pub const IGC_MDICNFG_PHY_MASK: u32 = 0x03E00000;
pub const IGC_MDICNFG_PHY_SHIFT: u32 = 21;

pub const GPY_MMD_MASK: u32 = 0xFFFF0000;
pub const GPY_MMD_SHIFT: u32 = 16;
pub const GPY_REG_MASK: u32 = 0x0000FFFF;
pub const PHY_REVISION_MASK: u32 = 0xFFFFFFF0;

pub const IGC_I225_PHPM_GO_LINKD: u32 = 0x0020;
pub const IGC_I225_PHPM_RST_COMPL: u32 = 0x0100;
pub const IGC_I225_PHPM_ULP: u32 = 0x0400;

pub const MII_CR_POWER_DOWN: u16 = 0x0800;
pub const MII_CR_AUTO_NEG_EN: u16 = 0x1000;
pub const MII_CR_RESTART_AUTO_NEG: u16 = 0x0200;
pub const MII_SR_LINK_STATUS: u16 = 0x0004;
pub const MII_SR_AUTONEG_COMPLETE: u16 = 0x0020;
pub const PHY_AUTO_NEG_LIMIT: u32 = 45;
pub const COPPER_LINK_UP_LIMIT: u32 = 10;

pub const ADVERTISE_10_HALF: u16 = 0x0001;
pub const ADVERTISE_10_FULL: u16 = 0x0002;
pub const ADVERTISE_100_HALF: u16 = 0x0004;
pub const ADVERTISE_100_FULL: u16 = 0x0008;
pub const ADVERTISE_1000_HALF: u16 = 0x0010;
pub const ADVERTISE_1000_FULL: u16 = 0x0020;
pub const ADVERTISE_2500_HALF: u16 = 0x0040;
pub const ADVERTISE_2500_FULL: u16 = 0x0080;
/// Every speed and duplex the I225 advertises.
pub const AUTONEG_ADVERTISE_SPEED_DEFAULT_2500: u16 = 0x00AF;

pub const NWAY_AR_10T_HD_CAPS: u16 = 0x0020;
pub const NWAY_AR_10T_FD_CAPS: u16 = 0x0040;
pub const NWAY_AR_100TX_HD_CAPS: u16 = 0x0080;
pub const NWAY_AR_100TX_FD_CAPS: u16 = 0x0100;
pub const NWAY_AR_PAUSE: u16 = 0x0400;
pub const NWAY_AR_ASM_DIR: u16 = 0x0800;
pub const CR_1000T_HD_CAPS: u16 = 0x0100;
pub const CR_1000T_FD_CAPS: u16 = 0x0200;
pub const CR_2500T_FD_CAPS: u16 = 0x0080;

} // verus!
verus! {

/// Software/firmware lock bit of the NVM.
pub const IGC_SWFW_EEP_SM: u16 = 0x01;
/// Software/firmware lock bit of PHY 0.
pub const IGC_SWFW_PHY0_SM: u16 = 0x02;
/// Management control register.
pub const IGC_MANC: usize = 0x05820;
/// MANC: PHY resets are blocked.
pub const IGC_MANC_BLK_PHY_RST_ON_IDE: u32 = 0x00040000;

} // verus!
