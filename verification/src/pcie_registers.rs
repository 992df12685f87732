//! Offsets and bits of the PCI configuration header.
use vstd::prelude::*;

verus! {

// Status register bits (upper half of the status/command dword).
pub const DETECTED_PARITY_ERROR: u32 = 0x8000_0000;
pub const SIGNALED_SYSTEM_ERROR: u32 = 0x4000_0000;
pub const RECEIVED_MASTER_ABORT: u32 = 0x2000_0000;
pub const RECEIVED_TARGET_ABORT: u32 = 0x1000_0000;
pub const SIGNALED_TARGET_ABORT: u32 = 0x0800_0000;
pub const DEVSEL_TIMING_SLOW: u32 = 0x0400_0000;
pub const DEVSEL_TIMING_MEDIUM: u32 = 0x0200_0000;
pub const DEVSEL_TIMING_FAST: u32 = 0;
pub const MASTER_DATA_PARITY_ERROR: u32 = 0x0100_0000;
pub const FAST_BACK_TO_BACK_CAPABLE: u32 = 0x0080_0000;
pub const CAPABLE_66MHZ: u32 = 0x0020_0000;
pub const CAPABILITIES_LIST: u32 = 0x0010_0000;
pub const INTERRUPT_STATUS: u32 = 0x0008_0000;

// Command register bits (lower half).
pub const INTERRUPT_DISABLE: u32 = 0x400;
pub const FAST_BACK_TO_BACK_ENABLE: u32 = 0x200;
pub const SERR_ENABLE: u32 = 0x100;
pub const PARITY_ERROR_RESPONSE: u32 = 0x40;
pub const VGA_PALETTE_SNOOP: u32 = 0x20;
pub const MEMORY_WRITE_AND_INVALIDATE_ENABLE: u32 = 0x10;
pub const SPECIAL_CYCLES: u32 = 0x8;
/// Lets the device master the bus (DMA).
pub const BUS_MASTER: u32 = 0x4;
pub const MEMORY_SPACE: u32 = 0x2;
pub const IO_SPACE: u32 = 0x1;

/// Every bit that the status/command flags name.
pub const STATUS_COMMAND_ALL: u32 = 0xFFB8_077F;

pub const HEADER_TYPE_GENERAL_DEVICE: u8 = 0;
pub const HEADER_TYPE_PCI_TO_PCI_BRIDGE: u8 = 1;
pub const HEADER_TYPE_PCI_TO_CARDBUS_BRIDGE: u8 = 2;

pub const DEVICE_VENDOR_ID: usize = 0x00;
pub const STATUS_COMMAND: usize = 0x04;
pub const CLASS_CODE_REVISION_ID: usize = 0x08;
pub const BIST_HEAD_LAT_CACH: usize = 0x0c;
pub const CAPABILITY_POINTER: usize = 0x34;
pub const INTERRUPT_LINE: usize = 0x3c;
pub const SECONDARY_LATENCY_TIMER_BUS_NUMBER: usize = 0x18;
pub const MESSAGE_CONTROL_NEXT_PTR_CAP_ID: usize = 0x00;
pub const BAR0: usize = 0x10;
pub const BAR1: usize = 0x14;

/// Base address register: I/O space indicator.
pub const BAR_IO: u32 = 0b1;
/// Base address register: memory type field.
pub const BAR_TYPE_MASK: u32 = 0b110;
pub const BAR_TYPE_32: u32 = 0b000;
pub const BAR_TYPE_64: u32 = 0b100;
pub const BAR_PREFETCHABLE: u32 = 0b1000;
pub const BAR_IO_ADDR_MASK: u32 = 0xFFFF_FFFC;
pub const BAR_MEM_ADDR_MASK: u32 = 0xFFFF_FFF0;

} // verus!
