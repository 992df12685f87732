//! PCIe device discovery: the configuration header of each function, its
//! base address registers, and the scan that builds the bus tree.
//!
//! Configuration space is held as an image of the 16 header dwords, with, for
//! each dword, the value that reads back after all ones were written to it
//! (the sizing probe of the base address registers). Writes go to the image;
//! the caller that owns the hardware copies them out.
use vstd::prelude::*;
use crate::pcie_registers::{DETECTED_PARITY_ERROR, SIGNALED_SYSTEM_ERROR, RECEIVED_MASTER_ABORT, RECEIVED_TARGET_ABORT, SIGNALED_TARGET_ABORT, MASTER_DATA_PARITY_ERROR, FAST_BACK_TO_BACK_CAPABLE, CAPABLE_66MHZ, CAPABILITIES_LIST, INTERRUPT_STATUS, INTERRUPT_DISABLE, FAST_BACK_TO_BACK_ENABLE, SERR_ENABLE, PARITY_ERROR_RESPONSE, VGA_PALETTE_SNOOP, MEMORY_WRITE_AND_INVALIDATE_ENABLE, SPECIAL_CYCLES, BUS_MASTER, MEMORY_SPACE, IO_SPACE, STATUS_COMMAND_ALL, HEADER_TYPE_GENERAL_DEVICE, HEADER_TYPE_PCI_TO_PCI_BRIDGE, HEADER_TYPE_PCI_TO_CARDBUS_BRIDGE, DEVICE_VENDOR_ID, STATUS_COMMAND, CLASS_CODE_REVISION_ID, BIST_HEAD_LAT_CACH, INTERRUPT_LINE, SECONDARY_LATENCY_TIMER_BUS_NUMBER, BAR0, BAR_IO, BAR_TYPE_MASK, BAR_TYPE_32, BAR_TYPE_64, BAR_PREFETCHABLE, BAR_IO_ADDR_MASK, BAR_MEM_ADDR_MASK};
use crate::text::{hex_padded, push_hex_padded, join, dec, push_dec};
use vstd::string::*;
use vstd::array::ArrayAdditionalExecFns;

verus! {

/// Number of dwords in the configuration header image.
pub const CONFIG_HEADER_WORDS: usize = 16;

#[derive(Debug, Clone, Copy, PartialEq, Eq, Structural)]
pub enum PCIeDeviceErr {
    InitFailure,
    ReadFailure,
    PageTableFailure,
    CommandFailure,
    UnRecognizedDevice { bus: u8, device: u16, vendor: u16 },
    InvalidClass,
    Interrupt,
    NotImplemented,
    BARFailure,
    RevisionIDMismatch,
}

/// The message of a device error.
pub open spec fn device_err_text(e: PCIeDeviceErr) -> Seq<char> {
    match e {
        PCIeDeviceErr::InitFailure => "Failed to initialize the device driver."@,
        PCIeDeviceErr::PageTableFailure => "Failed to map memory regions of MMIO."@,
        PCIeDeviceErr::UnRecognizedDevice { bus, device, vendor } =>
            "Unregistered PCIe device: bus = "@ + dec(bus as nat) + ", device = "@ + dec(device as nat)
                + ", vendor = "@ + dec(vendor as nat),
        PCIeDeviceErr::InvalidClass => "Invalid PCIe class."@,
        PCIeDeviceErr::NotImplemented => "Not implemented."@,
        PCIeDeviceErr::ReadFailure => "Failed to read the device register."@,
        PCIeDeviceErr::Interrupt => "Failed to initialize interrupt."@,
        PCIeDeviceErr::CommandFailure => "Failed to execute the command."@,
        PCIeDeviceErr::BARFailure => "Failed to read the base address register."@,
        PCIeDeviceErr::RevisionIDMismatch => "Revision ID mismatch."@,
    }
}

impl PCIeDeviceErr {
    /// The error's message.
    pub fn to_text(&self) -> (s: String)
        ensures
            s@ == device_err_text(*self),
    {
        let mut s = String::new();
        match self {
            PCIeDeviceErr::InitFailure => s.append("Failed to initialize the device driver."),
            PCIeDeviceErr::PageTableFailure => s.append("Failed to map memory regions of MMIO."),
            PCIeDeviceErr::UnRecognizedDevice { bus, device, vendor } => {
                s.append("Unregistered PCIe device: bus = ");
                push_dec(&mut s, *bus as u64);
                s.append(", device = ");
                push_dec(&mut s, *device as u64);
                s.append(", vendor = ");
                push_dec(&mut s, *vendor as u64);
            },
            PCIeDeviceErr::InvalidClass => s.append("Invalid PCIe class."),
            PCIeDeviceErr::NotImplemented => s.append("Not implemented."),
            PCIeDeviceErr::ReadFailure => s.append("Failed to read the device register."),
            PCIeDeviceErr::Interrupt => s.append("Failed to initialize interrupt."),
            PCIeDeviceErr::CommandFailure => s.append("Failed to execute the command."),
            PCIeDeviceErr::BARFailure => s.append("Failed to read the base address register."),
            PCIeDeviceErr::RevisionIDMismatch => s.append("Revision ID mismatch."),
        }
        assert(s@ =~= device_err_text(*self));
        s
    }
}

/// The status/command dword, restricted to the bits it names.
#[derive(Debug, Clone, Copy, PartialEq, Eq, Structural)]
pub struct StatusCommand {
    pub bits: u32,
}

/// `bits` has every bit of `flag` set.
pub open spec fn has_flag(bits: u32, flag: u32) -> bool {
    bits & flag == flag
}

/// Status flags and their names, in the order the text lists them.
pub open spec fn status_flag_table() -> Seq<(u32, &'static str)> {
    seq![
        (DETECTED_PARITY_ERROR, "Detected Parity Error"),
        (SIGNALED_SYSTEM_ERROR, "Signaled System Error"),
        (RECEIVED_MASTER_ABORT, "Received Master Abort"),
        (RECEIVED_TARGET_ABORT, "Received Target Abort"),
        (SIGNALED_TARGET_ABORT, "Signaled Target Abort"),
        (MASTER_DATA_PARITY_ERROR, "Master Data Parity Error"),
        (FAST_BACK_TO_BACK_CAPABLE, "Fast Back-to-Back Capable"),
        (CAPABLE_66MHZ, "66MHz Capable"),
        (CAPABILITIES_LIST, "Capabilities List"),
        (INTERRUPT_STATUS, "Interrupt Status"),
    ]
}

/// Command flags and their names, in the order the text lists them.
pub open spec fn command_flag_table() -> Seq<(u32, &'static str)> {
    seq![
        (INTERRUPT_DISABLE, "Interrupt Disable"),
        (FAST_BACK_TO_BACK_ENABLE, "Fast Back-to-Back Enable"),
        (SERR_ENABLE, "SERR Enable"),
        (PARITY_ERROR_RESPONSE, "Parity Error Response"),
        (VGA_PALETTE_SNOOP, "VGA Palette Snoop"),
        (MEMORY_WRITE_AND_INVALIDATE_ENABLE, "Memory Write and Invalidate Enable"),
        (SPECIAL_CYCLES, "Special Cycles"),
        (BUS_MASTER, "Bus Master"),
        (MEMORY_SPACE, "Memory Space"),
        (IO_SPACE, "IO Space"),
    ]
}

/// Names of the flags of `table` that `bits` has, in table order.
pub open spec fn flag_names(bits: u32, table: Seq<(u32, &'static str)>) -> Seq<Seq<char>>
    decreases table.len(),
{
    if table.len() == 0 {
        Seq::empty()
    } else {
        let rest = flag_names(bits, table.drop_last());
        if has_flag(bits, table.last().0) {
            rest.push(table.last().1@)
        } else {
            rest
        }
    }
}

/// Text of a status/command dword: the names of its status flags and of its
/// command flags, each list joined with commas.
pub open spec fn status_command_text(bits: u32) -> Seq<char> {
    "status = ["@ + join(flag_names(bits, status_flag_table()), ", "@) + "], command = ["@
        + join(flag_names(bits, command_flag_table()), ", "@) + "]"@
}

/// Names of the flags of `table` that `bits` has.
fn collect_flag_names(bits: u32, table: &Vec<(u32, &'static str)>) -> (names: Vec<&'static str>)
    ensures
        names@.len() == flag_names(bits, table@).len(),
        forall|i: int| 0 <= i < names@.len() ==> names@[i]@ == flag_names(bits, table@)[i],
{
    let mut names: Vec<&'static str> = Vec::new();
    let mut i: usize = 0;
    while i < table.len()
        invariant
            i <= table@.len(),
            names@.len() == flag_names(bits, table@.take(i as int)).len(),
            forall|k: int| 0 <= k < names@.len() ==> names@[k]@ == flag_names(bits, table@.take(i as int))[k],
        decreases table@.len() - i,
    {
        let (flag, name) = table[i];
        proof {
            assert(table@.take(i + 1).drop_last() =~= table@.take(i as int));
            assert(table@.take(i + 1).last() == table@[i as int]);
        }
        if bits & flag == flag {
            names.push(name);
        }
        i += 1;
    }
    proof {
        assert(table@.take(table@.len() as int) =~= table@);
    }
    names
}

/// Appends `names` joined with `, `.
fn push_names(out: &mut String, names: &Vec<&'static str>, Ghost(parts): Ghost<Seq<Seq<char>>>)
    requires
        names@.len() == parts.len(),
        forall|i: int| 0 <= i < names@.len() ==> names@[i]@ == parts[i],
    ensures
        final(out)@ == old(out)@ + join(parts, ", "@),
{
    let ghost start = out@;
    let mut i: usize = 0;
    assert(parts.take(0) =~= Seq::<Seq<char>>::empty());
    assert(out@ =~= start + join(parts.take(0), ", "@));
    while i < names.len()
        invariant
            i <= names@.len(),
            names@.len() == parts.len(),
            forall|k: int| 0 <= k < names@.len() ==> names@[k]@ == parts[k],
            out@ == start + join(parts.take(i as int), ", "@),
        decreases names@.len() - i,
    {
        if i > 0 {
            out.append(", ");
        }
        out.append(names[i]);
        proof {
            crate::text::lemma_join_push(parts.take(i as int), parts[i as int], ", "@);
            assert(parts.take(i + 1) =~= parts.take(i as int).push(parts[i as int]));
            assert(out@ =~= start + join(parts.take(i + 1), ", "@));
        }
        i += 1;
    }
    assert(parts.take(parts.len() as int) =~= parts);
}

impl StatusCommand {
    /// The flags of `bits`, dropping bits that no flag names.
    pub fn from_bits_truncate(bits: u32) -> (s: StatusCommand)
        ensures
            s.bits == bits & STATUS_COMMAND_ALL,
    {
        StatusCommand { bits: bits & STATUS_COMMAND_ALL }
    }

    pub fn bits(&self) -> (b: u32)
        ensures
            b == self.bits,
    {
        self.bits
    }

    /// Whether every bit of `flag` is set.
    pub fn contains(&self, flag: u32) -> (b: bool)
        ensures
            b == has_flag(self.bits, flag),
    {
        self.bits & flag == flag
    }

    /// Sets or clears the bits of `flag`.
    pub fn set(&mut self, flag: u32, value: bool)
        ensures
            final(self).bits == (if value { old(self).bits | flag } else { old(self).bits & !flag }),
    {
        if value {
            self.bits = self.bits | flag;
        } else {
            self.bits = self.bits & !flag;
        }
    }

    /// The flags with the bits of `flag` added.
    pub fn union(&self, flag: u32) -> (s: StatusCommand)
        ensures
            s.bits == self.bits | flag,
    {
        StatusCommand { bits: self.bits | flag }
    }

    /// The flags with the bits of `flag` removed.
    pub fn difference(&self, flag: u32) -> (s: StatusCommand)
        ensures
            s.bits == self.bits & !flag,
    {
        StatusCommand { bits: self.bits & !flag }
    }

    /// Text listing the set status flags and command flags.
    pub fn to_text(&self) -> (s: String)
        ensures
            s@ == status_command_text(self.bits),
    {
        let status_table: Vec<(u32, &'static str)> = vec![
            (DETECTED_PARITY_ERROR, "Detected Parity Error"),
            (SIGNALED_SYSTEM_ERROR, "Signaled System Error"),
            (RECEIVED_MASTER_ABORT, "Received Master Abort"),
            (RECEIVED_TARGET_ABORT, "Received Target Abort"),
            (SIGNALED_TARGET_ABORT, "Signaled Target Abort"),
            (MASTER_DATA_PARITY_ERROR, "Master Data Parity Error"),
            (FAST_BACK_TO_BACK_CAPABLE, "Fast Back-to-Back Capable"),
            (CAPABLE_66MHZ, "66MHz Capable"),
            (CAPABILITIES_LIST, "Capabilities List"),
            (INTERRUPT_STATUS, "Interrupt Status"),
        ];
        let command_table: Vec<(u32, &'static str)> = vec![
            (INTERRUPT_DISABLE, "Interrupt Disable"),
            (FAST_BACK_TO_BACK_ENABLE, "Fast Back-to-Back Enable"),
            (SERR_ENABLE, "SERR Enable"),
            (PARITY_ERROR_RESPONSE, "Parity Error Response"),
            (VGA_PALETTE_SNOOP, "VGA Palette Snoop"),
            (MEMORY_WRITE_AND_INVALIDATE_ENABLE, "Memory Write and Invalidate Enable"),
            (SPECIAL_CYCLES, "Special Cycles"),
            (BUS_MASTER, "Bus Master"),
            (MEMORY_SPACE, "Memory Space"),
            (IO_SPACE, "IO Space"),
        ];
        assert(status_table@ == status_flag_table());
        assert(command_table@ == command_flag_table());
        let status_names = collect_flag_names(self.bits, &status_table);
        let command_names = collect_flag_names(self.bits, &command_table);
        let mut s = String::new();
        s.append("status = [");
        push_names(&mut s, &status_names, Ghost(flag_names(self.bits, status_flag_table())));
        s.append("], command = [");
        push_names(&mut s, &command_names, Ghost(flag_names(self.bits, command_flag_table())));
        s.append("]");
        assert(s@ =~= status_command_text(self.bits));
        s
    }
}


/// Width of a memory base address register.
#[derive(Debug, Clone, Copy, PartialEq, Eq, Structural)]
pub enum AddressType {
    T32B,
    T64B,
}

/// A decoded base address register. `reg_offset` is the offset of the
/// register in configuration space.
#[derive(Debug, Clone, Copy, PartialEq, Eq, Structural)]
pub enum BaseAddress {
    /// No register, or a register of size zero.
    Empty,
    IO { reg_offset: usize, addr: u32, size: usize },
    Mmio {
        reg_offset: usize,
        addr: usize,
        size: usize,
        address_type: AddressType,
        prefetchable: bool,
        mapped: bool,
    },
}

impl BaseAddress {
    /// Whether this is a 64-bit memory register (which also uses the next
    /// register).
    pub open spec fn spec_is_64bit_memory(self) -> bool {
        self matches BaseAddress::Mmio { address_type: AddressType::T64B, .. }
    }

    pub fn is_64bit_memory(&self) -> (b: bool)
        ensures
            b == self.spec_is_64bit_memory(),
    {
        match self {
            BaseAddress::Mmio { address_type: AddressType::T64B, .. } => true,
            _ => false,
        }
    }
}

/// The 16-bit half at byte `offset` of the dwords `words` (little endian).
pub open spec fn spec_read_u16(words: Seq<u32>, offset: int) -> u16 {
    let w = words[offset / 4];
    if offset % 4 == 0 { (w & 0xffff) as u16 } else { (w >> 16) as u16 }
}

/// Image of a function's configuration header.
pub struct ConfigSpace {
    /// The header dwords.
    words: Vec<u32>,
    /// For each dword, what reads back after writing all ones to it.
    all_ones_readback: Vec<u32>,
}

impl ConfigSpace {
    #[verifier::type_invariant]
    spec fn well_formed(self) -> bool {
        self.words.len() == CONFIG_HEADER_WORDS && self.all_ones_readback.len() == CONFIG_HEADER_WORDS
    }

    /// The header dwords.
    pub closed spec fn words_view(self) -> Seq<u32> {
        self.words@
    }

    /// The all-ones readback of each dword.
    pub closed spec fn readback_view(self) -> Seq<u32> {
        self.all_ones_readback@
    }

    /// An image from the header dwords and their all-ones readbacks; `None`
    /// unless both hold one value per header dword.
    pub fn from_image(words: Vec<u32>, all_ones_readback: Vec<u32>) -> (c: Option<ConfigSpace>)
        ensures
            (words@.len() == CONFIG_HEADER_WORDS && all_ones_readback@.len() == CONFIG_HEADER_WORDS) <==> c is Some,
            c matches Some(cs) ==> cs.words_view() == words@ && cs.readback_view() == all_ones_readback@,
    {
        if words.len() == CONFIG_HEADER_WORDS && all_ones_readback.len() == CONFIG_HEADER_WORDS {
            Some(ConfigSpace { words, all_ones_readback })
        } else {
            None
        }
    }

    /// The header dwords, with every write applied.
    pub fn words(&self) -> (w: &Vec<u32>)
        ensures
            w@ == self.words_view(),
    {
        &self.words
    }

    /// The dword at byte `offset`.
    pub fn read_u32(&self, offset: usize) -> (v: u32)
        requires
            offset % 4 == 0,
            offset < CONFIG_HEADER_WORDS * 4,
        ensures
            v == self.words_view()[offset as int / 4],
    {
        proof { use_type_invariant(self); }
        self.words[offset / 4]
    }

    /// What reads back from the dword at byte `offset` after writing all
    /// ones to it.
    pub fn read_all_ones(&self, offset: usize) -> (v: u32)
        requires
            offset % 4 == 0,
            offset < CONFIG_HEADER_WORDS * 4,
        ensures
            v == self.readback_view()[offset as int / 4],
    {
        proof { use_type_invariant(self); }
        self.all_ones_readback[offset / 4]
    }

    /// The 16-bit half at byte `offset` (little endian).
    pub fn read_u16(&self, offset: usize) -> (v: u16)
        requires
            offset % 2 == 0,
            offset < CONFIG_HEADER_WORDS * 4,
        ensures
            v == spec_read_u16(self.words_view(), offset as int),
    {
        proof { use_type_invariant(self); }
        let w = self.words[offset / 4];
        if offset % 4 == 0 {
            (w & 0xffff) as u16
        } else {
            (w >> 16) as u16
        }
    }

    /// Writes `value` to the dword at byte `offset`.
    pub fn write_u32(&mut self, value: u32, offset: usize)
        requires
            offset % 4 == 0,
            offset < CONFIG_HEADER_WORDS * 4,
        ensures
            final(self).words_view() == old(self).words_view().update(offset as int / 4, value),
            old(self).words_view().len() == CONFIG_HEADER_WORDS,
            final(self).readback_view() == old(self).readback_view(),
    {
        proof { use_type_invariant(&*self); }
        let ghost target = self.words@.update(offset as int / 4, value);
        let mut words: Vec<u32> = Vec::new();
        let mut i: usize = 0;
        while i < self.words.len()
            invariant
                i <= self.words@.len(),
                target == self.words@.update(offset as int / 4, value),
                offset < CONFIG_HEADER_WORDS * 4,
                self.words@.len() == CONFIG_HEADER_WORDS,
                words@ == target.take(i as int),
            decreases self.words@.len() - i,
        {
            if i == offset / 4 {
                words.push(value);
            } else {
                words.push(self.words[i]);
            }
            assert(words@ =~= target.take(i + 1));
            i += 1;
        }
        assert(words@ =~= target);
        self.words = words;
    }
}


/// The decoded base address register at byte `offset`, from the header
/// dwords and their all-ones readbacks. A 64-bit memory register takes its
/// upper half from the next dword.
pub open spec fn decode_bar(words: Seq<u32>, readback: Seq<u32>, offset: int) -> BaseAddress {
    let bar = words[offset / 4];
    let probe = readback[offset / 4];
    if bar & BAR_IO == 1 {
        BaseAddress::IO {
            reg_offset: offset as usize,
            addr: bar & BAR_IO_ADDR_MASK,
            size: (!(probe & BAR_IO_ADDR_MASK)).wrapping_add(1) as usize,
        }
    } else if bar & BAR_TYPE_MASK == BAR_TYPE_32 {
        let size = (!(probe & BAR_MEM_ADDR_MASK)).wrapping_add(1) as usize;
        if size == 0 {
            BaseAddress::Empty
        } else {
            BaseAddress::Mmio {
                reg_offset: offset as usize,
                addr: (bar & BAR_MEM_ADDR_MASK) as usize,
                size,
                address_type: AddressType::T32B,
                prefetchable: (bar & BAR_PREFETCHABLE) > 1,
                mapped: false,
            }
        }
    } else if bar & BAR_TYPE_MASK == BAR_TYPE_64 {
        let high_bar = words[offset / 4 + 1];
        let high_size = readback[offset / 4 + 1];
        let size = (!(((high_size as u64) << 32u64) | ((probe & BAR_MEM_ADDR_MASK) as u64))).wrapping_add(1) as usize;
        let addr = (((high_bar as u64) << 32u64) | ((bar & BAR_MEM_ADDR_MASK) as u64)) as usize;
        if size == 0 {
            BaseAddress::Empty
        } else {
            BaseAddress::Mmio {
                reg_offset: offset as usize,
                addr,
                size,
                address_type: AddressType::T64B,
                prefetchable: (bar & BAR_PREFETCHABLE) > 1,
                mapped: false,
            }
        }
    } else {
        BaseAddress::Empty
    }
}

/// What a decoded base address register holds, in terms of the register
/// dword `w`, its all-ones readback `p` and (for a 64-bit register) the next
/// dword: bit 0 set makes it an I/O register whose address is `w` with its two
/// low bits cleared and whose size is the two's complement of `p` so masked;
/// otherwise bits 1..2 give the memory type, the address is `w` with its four
/// low flag bits cleared (so aligned to 16), bit 3 is the prefetchable flag,
/// and the size is the two's complement of the masked readback, a register of
/// size zero being empty; the reserved type values give an empty register.
pub proof fn lemma_decode_bar(words: Seq<u32>, readback: Seq<u32>, offset: int)
    requires
        0 <= offset <= usize::MAX,
    ensures
        ({
            let w = words[offset / 4];
            let p = readback[offset / 4];
            let b = decode_bar(words, readback, offset);
            &&& w % 2 == 1 ==> b == BaseAddress::IO {
                    reg_offset: offset as usize,
                    addr: (w - w % 4) as u32,
                    size: (if p - p % 4 == 0 { 0 } else { 0x1_0000_0000 - (p - p % 4) }) as usize,
                }
            &&& w % 2 == 0 && (w / 2) % 4 == 0 ==> (if p - p % 16 == 0 {
                    b == BaseAddress::Empty
                } else {
                    b == BaseAddress::Mmio {
                        reg_offset: offset as usize,
                        addr: (w - w % 16) as usize,
                        size: (0x1_0000_0000 - (p - p % 16)) as usize,
                        address_type: AddressType::T32B,
                        prefetchable: (w / 8) % 2 == 1,
                        mapped: false,
                    }
                })
            &&& w % 2 == 0 && (w / 2) % 4 == 2 ==> ({
                    let h = words[offset / 4 + 1];
                    let x: int = readback[offset / 4 + 1] * 0x1_0000_0000 + (p - p % 16);
                    let size = (if x == 0 { 0 } else { 0x1_0000_0000_0000_0000 - x }) as usize;
                    if size == 0 {
                        b == BaseAddress::Empty
                    } else {
                        b == BaseAddress::Mmio {
                            reg_offset: offset as usize,
                            addr: (h * 0x1_0000_0000 + (w - w % 16)) as usize,
                            size,
                            address_type: AddressType::T64B,
                            prefetchable: (w / 8) % 2 == 1,
                            mapped: false,
                        }
                    }
                })
            &&& w % 2 == 0 && (w / 2) % 4 == 2 ==> (b is Empty || {
                    &&& b is Mmio
                    &&& b->Mmio_reg_offset == offset
                    &&& b->Mmio_address_type == AddressType::T64B
                    &&& b->Mmio_prefetchable == ((w / 8) % 2 == 1)
                    &&& !b->Mmio_mapped
                    &&& b->Mmio_addr % 16 == 0
                    &&& (b->Mmio_addr as u64) % 0x1_0000_0000 == w - w % 16
                })
            &&& w % 2 == 0 && (w / 2) % 4 != 0 && (w / 2) % 4 != 2 ==> b is Empty
            &&& b is Mmio ==> b->Mmio_addr % 16 == 0
        }),
{
    let w = words[offset / 4];
    let p = readback[offset / 4];
    let h = words[offset / 4 + 1];
    assert((w & 1u32 == 1u32) == (w % 2 == 1)) by (bit_vector);
    assert(w & 0xFFFF_FFFCu32 == w - w % 4) by (bit_vector);
    assert(p & 0xFFFF_FFFCu32 == p - p % 4) by (bit_vector);
    assert(w & 0xFFFF_FFF0u32 == w - w % 16) by (bit_vector);
    assert(p & 0xFFFF_FFF0u32 == p - p % 16) by (bit_vector);
    assert(w % 2 == 0 ==> ((w & 0b110u32 == 0u32) == ((w / 2) % 4 == 0)
        && (w & 0b110u32 == 0b100u32) == ((w / 2) % 4 == 2))) by (bit_vector);
    assert(((w & 0b1000u32) > 1) == ((w / 8) % 2 == 1)) by (bit_vector);
    assert(forall|x: u32| #[trigger] !x == 0xFFFF_FFFF - x) by (bit_vector);
    let hs = readback[offset / 4 + 1];
    assert((((h as u64) << 32u64) | ((w & 0xFFFF_FFF0u32) as u64)) == h * 0x1_0000_0000 + (w & 0xFFFF_FFF0u32))
        by (bit_vector);
    assert((((hs as u64) << 32u64) | ((p & 0xFFFF_FFF0u32) as u64)) == hs * 0x1_0000_0000 + (p & 0xFFFF_FFF0u32))
        by (bit_vector);
    assert(forall|y: u64| #[trigger] !y == 0xFFFF_FFFF_FFFF_FFFF - y) by (bit_vector);
    let a64 = ((((h as u64) << 32u64) | ((w & 0xFFFF_FFF0u32) as u64)) as usize);
    assert(a64 % 16 == 0 && (a64 as u64) % 0x1_0000_0000 == (w & 0xFFFF_FFF0u32)) by (bit_vector)
        requires a64 == ((((h as u64) << 32u64) | ((w & 0xFFFF_FFF0u32) as u64)) as usize);
}

/// Decodes the base address register at byte `offset`.
pub fn read_bar(config_space: &ConfigSpace, offset: usize) -> (b: BaseAddress)
    requires
        offset % 4 == 0,
        offset + 8 <= CONFIG_HEADER_WORDS * 4,
    ensures
        b == decode_bar(config_space.words_view(), config_space.readback_view(), offset as int),
        b is IO ==> b->IO_addr == config_space.words_view()[offset as int / 4]
            - config_space.words_view()[offset as int / 4] % 4,
        b is Mmio ==> b->Mmio_addr % 16 == 0 && b->Mmio_reg_offset == offset,
        b is Mmio && b->Mmio_address_type == AddressType::T32B
            ==> b->Mmio_addr == config_space.words_view()[offset as int / 4]
                - config_space.words_view()[offset as int / 4] % 16,
{
    proof {
        lemma_decode_bar(config_space.words_view(), config_space.readback_view(), offset as int);
    }
    let bar = config_space.read_u32(offset);
    if (bar & BAR_IO) == 1 {
        let probe = config_space.read_all_ones(offset);
        let size = (!(probe & BAR_IO_ADDR_MASK)).wrapping_add(1) as usize;
        BaseAddress::IO { reg_offset: offset, addr: bar & BAR_IO_ADDR_MASK, size }
    } else {
        let bar_type = bar & BAR_TYPE_MASK;
        if bar_type == BAR_TYPE_32 {
            let probe = config_space.read_all_ones(offset);
            let size = (!(probe & BAR_MEM_ADDR_MASK)).wrapping_add(1) as usize;
            if size == 0 {
                BaseAddress::Empty
            } else {
                BaseAddress::Mmio {
                    reg_offset: offset,
                    addr: (bar & BAR_MEM_ADDR_MASK) as usize,
                    size,
                    address_type: AddressType::T32B,
                    prefetchable: (bar & BAR_PREFETCHABLE) > 1,
                    mapped: false,
                }
            }
        } else if bar_type == BAR_TYPE_64 {
            let high_offset = offset + 4;
            let high_bar = config_space.read_u32(high_offset);
            let low_size = config_space.read_all_ones(offset);
            let high_size = config_space.read_all_ones(high_offset);
            let size = (!(((high_size as u64) << 32u64) | ((low_size & BAR_MEM_ADDR_MASK) as u64))).wrapping_add(1) as usize;
            let addr = (((high_bar as u64) << 32u64) | ((bar & BAR_MEM_ADDR_MASK) as u64)) as usize;
            if size == 0 {
                BaseAddress::Empty
            } else {
                BaseAddress::Mmio {
                    reg_offset: offset,
                    addr,
                    size,
                    address_type: AddressType::T64B,
                    prefetchable: (bar & BAR_PREFETCHABLE) > 1,
                    mapped: false,
                }
            }
        } else {
            BaseAddress::Empty
        }
    }
}

/// Base address registers decoded from register `i` on, below register `n`,
/// starting from `bars`; a 64-bit register also covers the register after it.
pub open spec fn scan_bars(words: Seq<u32>, readback: Seq<u32>, i: nat, n: nat, bars: Seq<BaseAddress>) -> Seq<BaseAddress>
    decreases n - i,
{
    if i >= n {
        bars
    } else {
        let b = decode_bar(words, readback, BAR0 + 4 * i);
        let step: nat = if b.spec_is_64bit_memory() { 2 } else { 1 };
        let next: nat = if i + step > n { n } else { i + step };
        scan_bars(words, readback, next, n, bars.update(i as int, b))
    }
}

/// Six empty base address registers.
pub open spec fn no_bars() -> Seq<BaseAddress> {
    Seq::new(6, |i: int| BaseAddress::Empty)
}

/// Number of base address registers of a header type; `None` for an
/// unknown type.
pub open spec fn bar_count(header_type: u8) -> Option<nat> {
    if header_type == HEADER_TYPE_GENERAL_DEVICE {
        Some(6)
    } else if header_type == HEADER_TYPE_PCI_TO_PCI_BRIDGE || header_type == HEADER_TYPE_PCI_TO_CARDBUS_BRIDGE {
        Some(2)
    } else {
        None
    }
}

/// The base address registers of a function with the given header type: none
/// are read for a CardBus bridge.
pub open spec fn spec_bars(words: Seq<u32>, readback: Seq<u32>, header_type: u8) -> Seq<BaseAddress> {
    if header_type == HEADER_TYPE_PCI_TO_CARDBUS_BRIDGE {
        no_bars()
    } else {
        scan_bars(words, readback, 0, bar_count(header_type).unwrap(), no_bars())
    }
}

/// Class, subclass and programming interface codes of a function.
#[derive(Debug, Clone, Copy, PartialEq, Eq, Structural)]
pub struct PCIeClass {
    pub class_code: u8,
    pub subclass: u8,
    pub interface: u8,
}

impl PCIeClass {
    pub fn from_u8(class_code: u8, subclass: u8, interface: u8) -> (c: PCIeClass)
        ensures
            c == (PCIeClass { class_code, subclass, interface }),
    {
        PCIeClass { class_code, subclass, interface }
    }

    /// Any bridge device.
    pub open spec fn spec_is_bridge(self) -> bool {
        self.class_code == 0x06
    }

    /// A PCI-to-PCI bridge.
    pub open spec fn spec_is_pci_to_pci(self) -> bool {
        self.class_code == 0x06 && self.subclass == 0x04
    }

    /// A host bridge.
    pub open spec fn spec_is_host_bridge(self) -> bool {
        self.class_code == 0x06 && self.subclass == 0x00
    }

    pub fn is_bridge(&self) -> (b: bool)
        ensures
            b == self.spec_is_bridge(),
    {
        self.class_code == 0x06
    }

    pub fn is_pci_to_pci(&self) -> (b: bool)
        ensures
            b == self.spec_is_pci_to_pci(),
    {
        self.class_code == 0x06 && self.subclass == 0x04
    }

    pub fn is_host_bridge(&self) -> (b: bool)
        ensures
            b == self.spec_is_host_bridge(),
    {
        self.class_code == 0x06 && self.subclass == 0x00
    }
}

/// A known device, by vendor and device ID.
#[derive(Debug, Clone, Copy, PartialEq, Eq, Structural)]
pub struct PCIeID {
    pub vendor: u16,
    pub device: u16,
}

/// MSI capability, by its offset in configuration space.
#[derive(Debug, Clone, Copy, PartialEq, Eq, Structural)]
pub struct Msi {
    pub cap_offset: usize,
}

/// MSI-X capability, by its offset in configuration space.
#[derive(Debug, Clone, Copy, PartialEq, Eq, Structural)]
pub struct Msix {
    pub cap_offset: usize,
}

/// PCI Express capability, by its offset in configuration space.
#[derive(Debug, Clone, Copy, PartialEq, Eq, Structural)]
pub struct PCIeCap {
    pub cap_offset: usize,
}

/// What is known of a function before a driver attaches to it.
pub struct PCIeInfo {
    pub config_space: ConfigSpace,
    pub segment_group: u16,
    pub bus_number: u8,
    pub device_number: u8,
    pub function_number: u8,
    pub id: u16,
    pub vendor: u16,
    pub revision_id: u8,
    pub interrupt_pin: u8,
    pub pcie_class: PCIeClass,
    pub device_name: Option<PCIeID>,
    pub header_type: u8,
    pub base_addresses: [BaseAddress; 6],
    pub msi: Option<Msi>,
    pub msix: Option<Msix>,
    pub pcie_cap: Option<PCIeCap>,
    /// The bridge having this device.
    pub bridge_bus_number: Option<u8>,
    pub bridge_device_number: Option<u8>,
    pub bridge_function_number: Option<u8>,
}

/// Vendor ID in the first header dword.
pub open spec fn spec_vendor(words: Seq<u32>) -> u16 {
    (words[0] & 0xffff) as u16
}

/// Device ID in the first header dword.
pub open spec fn spec_device_id(words: Seq<u32>) -> u16 {
    (words[0] >> 16) as u16
}

/// Header type (without the multi-function bit).
pub open spec fn spec_header_type(words: Seq<u32>) -> u8 {
    (((words[3] >> 16) & 0xff) as u8) & 0x7f
}

impl PCIeInfo {
    /// Reads the identity, class, interrupt pin and base address registers of
    /// a function. `InitFailure` when no function answers (an ID of all
    /// ones); `ReadFailure` for an unknown header type.
    pub fn new(
        config_space: ConfigSpace,
        segment_group: u16,
        bus_number: u8,
        device_number: u8,
        function_number: u8,
    ) -> (r: Result<PCIeInfo, PCIeDeviceErr>)
        ensures
            (spec_device_id(config_space.words_view()) == 0xffff || spec_vendor(config_space.words_view()) == 0xffff)
                <==> r == Err::<PCIeInfo, PCIeDeviceErr>(PCIeDeviceErr::InitFailure),
            r is Ok <==> (spec_device_id(config_space.words_view()) != 0xffff
                && spec_vendor(config_space.words_view()) != 0xffff
                && bar_count(spec_header_type(config_space.words_view())) is Some),
            r is Err && r != Err::<PCIeInfo, PCIeDeviceErr>(PCIeDeviceErr::InitFailure) ==> r == Err::<PCIeInfo, PCIeDeviceErr>(PCIeDeviceErr::ReadFailure),
            r matches Ok(info) ==> {
                let w = config_space.words_view();
                &&& info.config_space.words_view() == w
                &&& info.config_space.readback_view() == config_space.readback_view()
                &&& info.segment_group == segment_group
                &&& info.bus_number == bus_number
                &&& info.device_number == device_number
                &&& info.function_number == function_number
                &&& info.vendor == spec_vendor(w)
                &&& info.id == spec_device_id(w)
                &&& info.revision_id == (w[2] & 0xff) as u8
                &&& info.pcie_class == (PCIeClass { class_code: (w[2] >> 24) as u8, subclass: ((w[2] >> 16) & 0xff) as u8, interface: ((w[2] >> 8) & 0xff) as u8 })
                &&& info.interrupt_pin == (spec_read_u16(w, INTERRUPT_LINE as int) >> 8) as u8
                &&& info.header_type == spec_header_type(w)
                &&& info.base_addresses@ == spec_bars(w, config_space.readback_view(), spec_header_type(w))
                &&& info.device_name is None && info.msi is None && info.msix is None && info.pcie_cap is None
                &&& info.bridge_bus_number is None && info.bridge_device_number is None && info.bridge_function_number is None
            },
    {
        let ids = config_space.read_u32(DEVICE_VENDOR_ID);
        let vendor = (ids & 0xffff) as u16;
        let id = (ids >> 16) as u16;
        if id == 0xffff || vendor == 0xffff {
            return Err(PCIeDeviceErr::InitFailure);
        }
        let header_type = ((config_space.read_u32(BIST_HEAD_LAT_CACH) >> 16 & 0xff) as u8) & 0x7f;
        let cls_rev_id = config_space.read_u32(CLASS_CODE_REVISION_ID);
        let revision_id = (cls_rev_id & 0xff) as u8;
        let pcie_class = PCIeClass::from_u8(
            (cls_rev_id >> 24) as u8,
            ((cls_rev_id >> 16) & 0xff) as u8,
            ((cls_rev_id >> 8) & 0xff) as u8,
        );
        let interrupt_pin_line = config_space.read_u16(INTERRUPT_LINE);
        let mut result = PCIeInfo {
            config_space,
            segment_group,
            bus_number,
            device_number,
            function_number,
            id,
            vendor,
            revision_id,
            interrupt_pin: (interrupt_pin_line >> 8) as u8,
            pcie_class,
            device_name: None,
            header_type,
            base_addresses: [BaseAddress::Empty, BaseAddress::Empty, BaseAddress::Empty,
                BaseAddress::Empty, BaseAddress::Empty, BaseAddress::Empty],
            msi: None,
            msix: None,
            pcie_cap: None,
            bridge_bus_number: None,
            bridge_device_number: None,
            bridge_function_number: None,
        };
        assert(result.base_addresses@ =~= no_bars());
        match result.read_bars() {
            Ok(()) => Ok(result),
            Err(e) => Err(e),
        }
    }

    /// Decodes the base address registers for the header type.
    fn read_bars(&mut self) -> (r: Result<(), PCIeDeviceErr>)
        requires
            old(self).base_addresses@ == no_bars(),
        ensures
            r is Ok <==> bar_count(old(self).header_type) is Some,
            r is Err ==> r == Err::<(), PCIeDeviceErr>(PCIeDeviceErr::ReadFailure),
            r is Ok ==> final(self).base_addresses@ == spec_bars(old(self).config_space.words_view(),
                old(self).config_space.readback_view(), old(self).header_type),
            final(self).config_space.words_view() == old(self).config_space.words_view(),
            final(self).config_space.readback_view() == old(self).config_space.readback_view(),
            final(self).header_type == old(self).header_type,
            final(self).segment_group == old(self).segment_group,
            final(self).bus_number == old(self).bus_number,
            final(self).device_number == old(self).device_number,
            final(self).function_number == old(self).function_number,
            final(self).id == old(self).id,
            final(self).vendor == old(self).vendor,
            final(self).revision_id == old(self).revision_id,
            final(self).interrupt_pin == old(self).interrupt_pin,
            final(self).pcie_class == old(self).pcie_class,
            final(self).device_name == old(self).device_name,
            final(self).msi == old(self).msi,
            final(self).msix == old(self).msix,
            final(self).pcie_cap == old(self).pcie_cap,
            final(self).bridge_bus_number == old(self).bridge_bus_number,
            final(self).bridge_device_number == old(self).bridge_device_number,
            final(self).bridge_function_number == old(self).bridge_function_number,
    {
        let num_reg: usize = if self.header_type == HEADER_TYPE_GENERAL_DEVICE {
            6
        } else if self.header_type == HEADER_TYPE_PCI_TO_PCI_BRIDGE
            || self.header_type == HEADER_TYPE_PCI_TO_CARDBUS_BRIDGE {
            2
        } else {
            return Err(PCIeDeviceErr::ReadFailure);
        };
        if self.header_type != HEADER_TYPE_PCI_TO_CARDBUS_BRIDGE {
            let ghost words = self.config_space.words_view();
            let ghost rb = self.config_space.readback_view();
            let mut bars = self.base_addresses;
            let mut i: usize = 0;
            while i < num_reg
                invariant
                    num_reg <= 6,
                    i <= num_reg + 1,
                    words == self.config_space.words_view(),
                    rb == self.config_space.readback_view(),
                    scan_bars(words, rb, i as nat, num_reg as nat, bars@)
                        == scan_bars(words, rb, 0, num_reg as nat, no_bars()),
                decreases num_reg + 1 - i,
            {
                let bar = read_bar(&self.config_space, BAR0 + i * 4);
                let is_64bit = bar.is_64bit_memory();
                let ghost before = bars@;
                bars.set(i, bar);
                proof {
                    assert(bars@ == before.update(i as int, bar));
                    let step: nat = if is_64bit { 2 } else { 1 };
                    let next: nat = if i + step > num_reg { num_reg as nat } else { (i + step) as nat };
                    assert(scan_bars(words, rb, i as nat, num_reg as nat, before)
                        == scan_bars(words, rb, next, num_reg as nat, bars@));
                    assert(scan_bars(words, rb, (i + step) as nat, num_reg as nat, bars@)
                        == scan_bars(words, rb, next, num_reg as nat, bars@));
                }
                if is_64bit {
                    i += 2;
                } else {
                    i += 1;
                }
            }
            self.base_addresses = bars;
        }
        Ok(())
    }
}


/// Bus, device and function of a function as `ssss:bb:dd.f` in lowercase
/// hexadecimal.
pub open spec fn bdf_text(segment_group: u16, bus: u8, device: u8, function: u8) -> Seq<char> {
    hex_padded(segment_group as nat, 4) + seq![':'] + hex_padded(bus as nat, 2) + seq![':']
        + hex_padded(device as nat, 2) + seq!['.'] + hex_padded(function as nat, 1)
}

impl PCIeInfo {
    /// The function's address as `segment:bus:device.function`.
    pub fn get_bdf(&self) -> (s: String)
        ensures
            s@ == bdf_text(self.segment_group, self.bus_number, self.device_number, self.function_number),
    {
        let mut s = String::new();
        push_hex_padded(&mut s, self.segment_group as u64, 4);
        s.append(":");
        push_hex_padded(&mut s, self.bus_number as u64, 2);
        s.append(":");
        push_hex_padded(&mut s, self.device_number as u64, 2);
        s.append(".");
        push_hex_padded(&mut s, self.function_number as u64, 1);
        proof {
            reveal_strlit(":");
            reveal_strlit(".");
        }
        assert(s@ =~= bdf_text(self.segment_group, self.bus_number, self.device_number, self.function_number));
        s
    }

    /// The secondary bus number of a bridge; `None` for other devices.
    pub fn get_secondary_bus(&self) -> (r: Option<u8>)
        ensures
            r == (if self.pcie_class.spec_is_bridge() {
                Some((self.config_space.words_view()[SECONDARY_LATENCY_TIMER_BUS_NUMBER as int / 4] >> 8) as u8)
            } else {
                None
            }),
    {
        if self.pcie_class.is_bridge() {
            let val = self.config_space.read_u32(SECONDARY_LATENCY_TIMER_BUS_NUMBER);
            Some((val >> 8) as u8)
        } else {
            None
        }
    }

    pub fn get_device_name(&self) -> (r: Option<PCIeID>)
        ensures
            r == self.device_name,
    {
        self.device_name
    }

    pub fn get_class(&self) -> (r: PCIeClass)
        ensures
            r == self.pcie_class,
    {
        self.pcie_class
    }

    pub fn get_id(&self) -> (r: u16)
        ensures
            r == self.id,
    {
        self.id
    }

    pub fn get_revision_id(&self) -> (r: u8)
        ensures
            r == self.revision_id,
    {
        self.revision_id
    }

    pub fn set_revision_id(&mut self, revision_id: u8)
        ensures
            *final(self) == (PCIeInfo { revision_id, ..*old(self) }),
    {
        self.revision_id = revision_id;
    }

    pub fn get_msi_mut(&mut self) -> (r: Option<&mut Msi>)
        ensures
            r is Some <==> old(self).msi is Some,
            r matches Some(m) ==> *m == old(self).msi.unwrap(),
    {
        self.msi.as_mut()
    }

    pub fn get_msix(&self) -> (r: Option<&Msix>)
        ensures
            r is Some <==> self.msix is Some,
            r matches Some(m) ==> *m == self.msix.unwrap(),
    {
        self.msix.as_ref()
    }

    pub fn get_msix_mut(&mut self) -> (r: Option<&mut Msix>)
        ensures
            r is Some <==> old(self).msix is Some,
            r matches Some(m) ==> *m == old(self).msix.unwrap(),
    {
        self.msix.as_mut()
    }

    pub fn get_pcie_cap_mut(&mut self) -> (r: Option<&mut PCIeCap>)
        ensures
            r is Some <==> old(self).pcie_cap is Some,
            r matches Some(m) ==> *m == old(self).pcie_cap.unwrap(),
    {
        self.pcie_cap.as_mut()
    }

    /// The status/command register.
    pub fn read_status_command(&self) -> (r: StatusCommand)
        ensures
            r.bits == self.config_space.words_view()[STATUS_COMMAND as int / 4] & STATUS_COMMAND_ALL,
    {
        let val = self.config_space.read_u32(STATUS_COMMAND);
        StatusCommand::from_bits_truncate(val)
    }

    /// Writes the status/command register.
    pub fn write_status_command(&mut self, csr: StatusCommand)
        ensures
            *final(self) == (PCIeInfo { config_space: final(self).config_space, ..*old(self) }),
            final(self).config_space.words_view()
                == old(self).config_space.words_view().update(STATUS_COMMAND as int / 4, csr.bits),
            final(self).config_space.readback_view() == old(self).config_space.readback_view(),
    {
        self.config_space.write_u32(csr.bits(), STATUS_COMMAND);
    }

    pub fn get_segment_group(&self) -> (r: u16)
        ensures
            r == self.segment_group,
    {
        self.segment_group
    }

    /// The interrupt line: the low byte of the interrupt register.
    pub fn get_interrupt_line(&self) -> (r: u8)
        ensures
            r == (spec_read_u16(self.config_space.words_view(), INTERRUPT_LINE as int) & 0xff) as u8,
    {
        (self.config_space.read_u16(INTERRUPT_LINE) & 0xff) as u8
    }

    /// Sets the interrupt line, keeping the rest of the interrupt register.
    pub fn set_interrupt_line(&mut self, irq: u8)
        ensures
            old(self).config_space.words_view().len() == CONFIG_HEADER_WORDS,
            final(self).config_space.words_view() == old(self).config_space.words_view().update(
                INTERRUPT_LINE as int / 4,
                (old(self).config_space.words_view()[INTERRUPT_LINE as int / 4] & !0xffu32) | irq as u32,
            ),
            final(self).config_space.readback_view() == old(self).config_space.readback_view(),
    {
        let reg = self.config_space.read_u32(INTERRUPT_LINE);
        self.config_space.write_u32((reg & !0xffu32) | irq as u32, INTERRUPT_LINE);
    }

    pub fn get_interrupt_pin(&self) -> (r: u8)
        ensures
            r == self.interrupt_pin,
    {
        self.interrupt_pin
    }

    /// Base address register `i`; `None` past the sixth.
    pub fn get_bar(&self, i: usize) -> (r: Option<BaseAddress>)
        ensures
            r == (if i < 6 { Some(self.base_addresses@[i as int]) } else { None::<BaseAddress> }),
    {
        if i < 6 {
            Some(self.base_addresses[i])
        } else {
            None
        }
    }

    /// Sets the interrupt-disable bit of the command register.
    pub fn disable_legacy_interrupt(&mut self)
        ensures
            old(self).config_space.words_view().len() == CONFIG_HEADER_WORDS,
            final(self).config_space.words_view() == old(self).config_space.words_view().update(
                STATUS_COMMAND as int / 4,
                (old(self).config_space.words_view()[STATUS_COMMAND as int / 4] & STATUS_COMMAND_ALL) | INTERRUPT_DISABLE,
            ),
            final(self).config_space.readback_view() == old(self).config_space.readback_view(),
    {
        proof { use_type_invariant(&self.config_space); }
        let reg = self.read_status_command();
        self.write_status_command(reg.union(INTERRUPT_DISABLE));
    }

    /// Clears the interrupt-disable bit of the command register.
    pub fn enable_legacy_interrupt(&mut self)
        ensures
            old(self).config_space.words_view().len() == CONFIG_HEADER_WORDS,
            final(self).config_space.words_view() == old(self).config_space.words_view().update(
                STATUS_COMMAND as int / 4,
                (old(self).config_space.words_view()[STATUS_COMMAND as int / 4] & STATUS_COMMAND_ALL) & !INTERRUPT_DISABLE,
            ),
            final(self).config_space.readback_view() == old(self).config_space.readback_view(),
    {
        proof { use_type_invariant(&self.config_space); }
        let reg = self.read_status_command();
        self.write_status_command(reg.difference(INTERRUPT_DISABLE));
    }
}


/// A device below a bus.
pub enum ChildDevice {
    /// A bridge and the bus behind it.
    Bus(Box<PCIeBus>),
    /// A function a driver has taken.
    Attached(AttachedDevice),
    Attaching,
    /// A function no driver has taken yet.
    Unattached(Box<PCIeInfo>),
}

/// A bus: its number, the configuration base address of its segment, the
/// bridge leading to it (none for a root bus) and the devices on it.
pub struct PCIeBus {
    pub segment_group: u16,
    pub bus_number: u8,
    pub base_address: Option<usize>,
    pub info: Option<PCIeInfo>,
    pub devices: Vec<ChildDevice>,
}

/// Something on the PCIe tree that can describe itself.
pub trait PCIeDevice {
    fn device_name(&self) -> String;
}

/// Bus number as `#bb` in lowercase hexadecimal.
pub open spec fn bus_name(bus_number: u8) -> Seq<char> {
    "Bus #"@ + hex_padded(bus_number as nat, 2)
}

impl PCIeBus {
    pub fn new(segment_group: u16, bus_number: u8, base_address: Option<usize>, info: Option<PCIeInfo>) -> (b: PCIeBus)
        ensures
            b.segment_group == segment_group,
            b.bus_number == bus_number,
            b.base_address == base_address,
            b.info == info,
            b.devices@.len() == 0,
    {
        PCIeBus { segment_group, bus_number, base_address, info, devices: Vec::new() }
    }

    /// The name of the bus: the bridge's address and the bus number, or the
    /// bus number alone for a root bus.
    pub fn name(&self) -> (s: String)
        ensures
            s@ == (match self.info {
                Some(info) => bdf_text(info.segment_group, info.bus_number, info.device_number, info.function_number)
                    + ": Bridge, "@ + bus_name(self.bus_number),
                None => bus_name(self.bus_number),
            }),
    {
        let mut s = match &self.info {
            Some(info) => {
                let mut s = info.get_bdf();
                s.append(": Bridge, ");
                s
            },
            None => String::new(),
        };
        let ghost head = s@;
        s.append("Bus #");
        push_hex_padded(&mut s, self.bus_number as u64, 2);
        assert(s@ =~= head + bus_name(self.bus_number));
        s
    }

    /// Turns on bus mastering, memory space and I/O space in the bridge's
    /// command register, writing it only when a bit changes.
    pub fn enable_bridge_forwarding(&mut self)
        ensures
            final(self).segment_group == old(self).segment_group,
            final(self).bus_number == old(self).bus_number,
            final(self).base_address == old(self).base_address,
            final(self).devices@ == old(self).devices@,
            forwarding_enabled(old(self).info, final(self).info),
    {
        match self.info.as_mut() {
            None => {},
            Some(info) => {
                let mut csr = info.read_status_command();
                let before = csr;
                csr.set(BUS_MASTER, true);
                csr.set(MEMORY_SPACE, true);
                csr.set(IO_SPACE, true);
                if csr.bits() != before.bits() {
                    info.write_status_command(csr);
                }
            },
        }
    }
}

impl PCIeDevice for PCIeBus {
    fn device_name(&self) -> String {
        self.name()
    }
}

/// Buses of one segment, in increasing bus number; a bus number appears
/// at most once.
pub struct PCIeTree {
    pub tree: Vec<PCIeBus>,
}

/// Bus numbers of `buses`, in order.
pub open spec fn bus_numbers(buses: Seq<PCIeBus>) -> Seq<u8> {
    Seq::new(buses.len(), |i: int| buses[i].bus_number)
}

/// Strictly increasing.
pub open spec fn strictly_increasing(s: Seq<u8>) -> bool {
    forall|i: int, j: int| 0 <= i < j < s.len() ==> s[i] < s[j]
}

impl PCIeTree {
    pub open spec fn wf(&self) -> bool {
        strictly_increasing(bus_numbers(self.tree@))
    }

    pub fn new() -> (t: PCIeTree)
        ensures
            t.wf(),
            t.tree@.len() == 0,
    {
        PCIeTree { tree: Vec::new() }
    }

    /// Takes the bus numbered `bus_number` out of the tree.
    pub fn remove(&mut self, bus_number: u8) -> (r: Option<PCIeBus>)
        requires
            old(self).wf(),
        ensures
            final(self).wf(),
            !bus_numbers(old(self).tree@).contains(bus_number) ==> r is None && final(self).tree@ == old(self).tree@,
            bus_numbers(old(self).tree@).contains(bus_number) ==> (r matches Some(b) && b.bus_number == bus_number
                && bus_numbers(final(self).tree@) == bus_numbers(old(self).tree@).remove(bus_numbers(old(self).tree@).index_of(bus_number))),
            forall|i: int| 0 <= i < final(self).tree@.len() ==> bus_numbers(old(self).tree@).contains(#[trigger] final(self).tree@[i].bus_number),
            forall|i: int| 0 <= i < final(self).tree@.len() ==> old(self).tree@.contains(#[trigger] final(self).tree@[i]),
            r matches Some(b) ==> old(self).tree@.contains(b),
    {
        let mut i: usize = 0;
        while i < self.tree.len()
            invariant
                i <= self.tree@.len(),
                self.tree@ == old(self).tree@,
                self.wf(),
                forall|k: int| 0 <= k < i ==> self.tree@[k].bus_number != bus_number,
            decreases self.tree@.len() - i,
        {
            if self.tree[i].bus_number == bus_number {
                let ghost keys = bus_numbers(self.tree@);
                let ghost old_tree = self.tree@;
                proof {
                    assert(keys[i as int] == bus_number);
                    assert forall|k: int| 0 <= k < keys.len() && keys[k] == bus_number implies k == i by {
                        if k < i { assert(self.tree@[k].bus_number != bus_number); }
                        if k > i { assert(keys[i as int] < keys[k]); assert(false); }
                    }
                    assert(keys.contains(bus_number));
                    let idx = keys.index_of(bus_number);
                    assert(keys[idx] == bus_number);
                    assert(idx == i);
                }
                let b = self.tree.remove(i);
                proof {
                    assert(old_tree[i as int] == b);
                    assert forall|k: int| 0 <= k < self.tree@.len() implies old_tree.contains(#[trigger] self.tree@[k]) by {
                        let ko = if k < i { k } else { k + 1 };
                        assert(old_tree[ko] == self.tree@[k]);
                    }
                    assert(bus_numbers(self.tree@) =~= keys.remove(i as int));
                    assert forall|x: int, y: int| 0 <= x < y < self.tree@.len() implies
                        bus_numbers(self.tree@)[x] < bus_numbers(self.tree@)[y] by {
                        let xo = if x < i { x } else { x + 1 };
                        let yo = if y < i { y } else { y + 1 };
                        assert(keys[xo] < keys[yo]);
                    }
                    assert forall|k: int| 0 <= k < self.tree@.len() implies bus_numbers(old_tree).contains(#[trigger] self.tree@[k].bus_number) by {
                        let j = if k < i { k } else { k + 1 };
                        assert(keys[j] == self.tree@[k].bus_number);
                    }
                }
                return Some(b);
            }
            i += 1;
        }
        proof {
            assert forall|k: int| 0 <= k < bus_numbers(self.tree@).len() implies bus_numbers(self.tree@)[k] != bus_number by {
                assert(self.tree@[k].bus_number != bus_number);
            }
            assert(!bus_numbers(self.tree@).contains(bus_number));
            assert forall|k: int| 0 <= k < self.tree@.len() implies bus_numbers(self.tree@).contains(#[trigger] self.tree@[k].bus_number) by {
                assert(bus_numbers(self.tree@)[k] == self.tree@[k].bus_number);
            }
        }
        None
    }
}


/// A probe that reads a function's configuration header: given segment, bus,
/// device, function and configuration address, it returns what is known of the
/// function, or an error when none answers.
pub open spec fn probe_total<F: Fn(u16, u8, u8, u8, usize) -> Result<PCIeInfo, PCIeDeviceErr>>(f: F) -> bool {
    forall|s: u16, b: u8, d: u8, fu: u8, a: usize| #[trigger] f.requires((s, b, d, fu, a))
}

/// `i` is the function `j` with possibly other bridge information.
pub open spec fn same_function(i: PCIeInfo, j: PCIeInfo) -> bool {
    i == PCIeInfo {
        bridge_bus_number: i.bridge_bus_number,
        bridge_device_number: i.bridge_device_number,
        bridge_function_number: i.bridge_function_number,
        ..j
    }
}

/// `info` is what the probe `f` answered for some device and function of bus
/// `bus_no` in segment `seg` (up to the bridge information).
pub open spec fn answered<F: Fn(u16, u8, u8, u8, usize) -> Result<PCIeInfo, PCIeDeviceErr>>(f: F, seg: u16, bus_no: u8, info: PCIeInfo) -> bool {
    exists|d: u8, fu: u8, a: usize, i0: PCIeInfo|
        #[trigger] f.ensures((seg, bus_no, d, fu, a), Ok::<PCIeInfo, PCIeDeviceErr>(i0)) && same_function(info, i0)
}

/// Every function found below child `c` of bus `bus_no` answered the probe
/// on its own bus.
pub open spec fn child_answered<F: Fn(u16, u8, u8, u8, usize) -> Result<PCIeInfo, PCIeDeviceErr>>(f: F, seg: u16, bus_no: u8, c: ChildDevice) -> bool
    decreases c,
{
    match c {
        ChildDevice::Unattached(i) => answered(f, seg, bus_no, *i),
        ChildDevice::Bus(b) => bus_answered(f, *b) && match b.info {
            Some(i) => answered(f, seg, bus_no, i),
            None => true,
        },
        _ => true,
    }
}

/// Every function found on bus `b` or below it answered the probe on its
/// own bus.
pub open spec fn bus_answered<F: Fn(u16, u8, u8, u8, usize) -> Result<PCIeInfo, PCIeDeviceErr>>(f: F, b: PCIeBus) -> bool
    decreases b,
{
    forall|k: int| 0 <= k < b.devices@.len() ==> {
        proof {
            assert(decreases_to!(b => b.devices));
            assert(decreases_to!(b.devices => b.devices@));
            assert(decreases_to!(b.devices@ => b.devices@[k]));
        }
        child_answered(f, b.segment_group, b.bus_number, #[trigger] b.devices@[k])
    }
}

/// A root bus of segment `seg` whose device 0, function 0 answered the probe
/// and below which every function found answered it.
pub open spec fn root_answered<F: Fn(u16, u8, u8, u8, usize) -> Result<PCIeInfo, PCIeDeviceErr>>(f: F, seg: u16, b: PCIeBus) -> bool {
    &&& b.info is None
    &&& b.segment_group == seg
    &&& bus_answered(f, b)
    &&& exists|a: usize, i0: PCIeInfo| #[trigger] f.ensures((seg, b.bus_number, 0u8, 0u8, a), Ok::<PCIeInfo, PCIeDeviceErr>(i0))
}

/// Every bus of tree `t` is such a root bus.
pub open spec fn tree_answered<F: Fn(u16, u8, u8, u8, usize) -> Result<PCIeInfo, PCIeDeviceErr>>(f: F, seg: u16, t: PCIeTree) -> bool {
    forall|i: int| 0 <= i < t.tree@.len() ==> root_answered(f, seg, #[trigger] t.tree@[i])
}

/// What a scan adds: devices that answered the probe, and a tree holding
/// only buses it held before.
pub open spec fn scan_answers<F: Fn(u16, u8, u8, u8, usize) -> Result<PCIeInfo, PCIeDeviceErr>>(
    f: F, old_bus: PCIeBus, new_bus: PCIeBus, old_tree: PCIeTree, new_tree: PCIeTree,
) -> bool {
    &&& forall|k: int| old_bus.devices@.len() <= k < new_bus.devices@.len()
        ==> child_answered(f, new_bus.segment_group, new_bus.bus_number, #[trigger] new_bus.devices@[k])
    &&& forall|i: int| 0 <= i < new_tree.tree@.len() ==> old_tree.tree@.contains(#[trigger] new_tree.tree@[i])
}

proof fn lemma_scan_answers_refl<F: Fn(u16, u8, u8, u8, usize) -> Result<PCIeInfo, PCIeDeviceErr>>(f: F, b: PCIeBus, t: PCIeTree)
    ensures
        scan_answers(f, b, b, t, t),
{
    assert forall|i: int| 0 <= i < t.tree@.len() implies t.tree@.contains(#[trigger] t.tree@[i]) by {}
}

proof fn lemma_scan_answers_trans<F: Fn(u16, u8, u8, u8, usize) -> Result<PCIeInfo, PCIeDeviceErr>>(
    f: F, b0: PCIeBus, b1: PCIeBus, b2: PCIeBus, t0: PCIeTree, t1: PCIeTree, t2: PCIeTree,
    v0: Seq<bool>, v1: Seq<bool>, v2: Seq<bool>,
)
    requires
        scan_keeps(b1, b2, t1, t2, v1, v2),
        scan_keeps(b0, b1, t0, t1, v0, v1),
        scan_answers(f, b0, b1, t0, t1),
        scan_answers(f, b1, b2, t1, t2),
    ensures
        scan_answers(f, b0, b2, t0, t2),
{
    assert forall|k: int| b0.devices@.len() <= k < b2.devices@.len()
        implies child_answered(f, b2.segment_group, b2.bus_number, #[trigger] b2.devices@[k]) by {
        if k < b1.devices@.len() {
            assert(b2.devices@.subrange(0, b1.devices@.len() as int)[k] == b2.devices@[k]);
            assert(child_answered(f, b1.segment_group, b1.bus_number, b1.devices@[k]));
        }
    }
    assert forall|i: int| 0 <= i < t2.tree@.len() implies t0.tree@.contains(#[trigger] t2.tree@[i]) by {
        assert(t1.tree@.contains(t2.tree@[i]));
        let j = choose|j: int| 0 <= j < t1.tree@.len() && t1.tree@[j] == t2.tree@[i];
        assert(t0.tree@.contains(t1.tree@[j]));
    }
}

proof fn lemma_tree_answered_sub<F: Fn(u16, u8, u8, u8, usize) -> Result<PCIeInfo, PCIeDeviceErr>>(f: F, seg: u16, t0: PCIeTree, t1: PCIeTree)
    requires
        tree_answered(f, seg, t0),
        forall|i: int| 0 <= i < t1.tree@.len() ==> t0.tree@.contains(#[trigger] t1.tree@[i]),
    ensures
        tree_answered(f, seg, t1),
{
    assert forall|i: int| 0 <= i < t1.tree@.len() implies root_answered(f, seg, #[trigger] t1.tree@[i]) by {
        assert(t0.tree@.contains(t1.tree@[i]));
        let j = choose|j: int| 0 <= j < t0.tree@.len() && t0.tree@[j] == t1.tree@[i];
        assert(root_answered(f, seg, t0.tree@[j]));
    }
}

proof fn lemma_push_answered<F: Fn(u16, u8, u8, u8, usize) -> Result<PCIeInfo, PCIeDeviceErr>>(
    f: F, b0: PCIeBus, b1: PCIeBus, t0: PCIeTree, t1: PCIeTree, x: ChildDevice,
)
    requires
        b1.devices@ == b0.devices@.push(x),
        child_answered(f, b1.segment_group, b1.bus_number, x),
        forall|i: int| 0 <= i < t1.tree@.len() ==> t0.tree@.contains(#[trigger] t1.tree@[i]),
    ensures
        scan_answers(f, b0, b1, t0, t1),
{
    assert forall|k: int| b0.devices@.len() <= k < b1.devices@.len()
        implies child_answered(f, b1.segment_group, b1.bus_number, #[trigger] b1.devices@[k]) by {
        assert(k == b0.devices@.len());
    }
}

proof fn lemma_same_answered<F: Fn(u16, u8, u8, u8, usize) -> Result<PCIeInfo, PCIeDeviceErr>>(
    f: F, b0: PCIeBus, b1: PCIeBus, t0: PCIeTree, t1: PCIeTree,
)
    requires
        b1.devices@ == b0.devices@,
        forall|i: int| 0 <= i < t1.tree@.len() ==> t0.tree@.contains(#[trigger] t1.tree@[i]),
    ensures
        scan_answers(f, b0, b1, t0, t1),
{
}

/// Recording bridge information keeps every function answering.
proof fn lemma_bridged_answered<F: Fn(u16, u8, u8, u8, usize) -> Result<PCIeInfo, PCIeDeviceErr>>(
    f: F, o: PCIeBus, n: PCIeBus, b: u8, d: u8, fu: u8,
)
    requires
        bridged_bus(o, n, b, d, fu),
        bus_answered(f, o),
    ensures
        bus_answered(f, n),
    decreases o,
{
    let nb = next_bridge(o, b, d, fu);
    assert forall|k: int| 0 <= k < n.devices@.len() implies
        child_answered(f, n.segment_group, n.bus_number, #[trigger] n.devices@[k]) by {
        let oc = o.devices@[k];
        let nc = n.devices@[k];
        assert(bridged_child(oc, nc, nb));
        assert(child_answered(f, o.segment_group, o.bus_number, oc));
        match (oc, nc) {
            (ChildDevice::Unattached(oi), ChildDevice::Unattached(ni)) => {
                let (d0, f0, a0, i0) = choose|d0: u8, f0: u8, a0: usize, i0: PCIeInfo|
                    #[trigger] f.ensures((o.segment_group, o.bus_number, d0, f0, a0), Ok::<PCIeInfo, PCIeDeviceErr>(i0)) && same_function(*oi, i0);
                assert(same_function(*ni, i0));
            },
            (ChildDevice::Bus(ob), ChildDevice::Bus(nbus)) => {
                assert(decreases_to!(o => o.devices));
                assert(decreases_to!(o.devices => o.devices@));
                assert(decreases_to!(o.devices@ => o.devices@[k]));
                assert(decreases_to!(o.devices@[k] => *ob));
                lemma_bridged_answered(f, *ob, *nbus, nb.0, nb.1, nb.2);
                match ob.info {
                    Some(oi) => {
                        let (d0, f0, a0, i0) = choose|d0: u8, f0: u8, a0: usize, i0: PCIeInfo|
                            #[trigger] f.ensures((o.segment_group, o.bus_number, d0, f0, a0), Ok::<PCIeInfo, PCIeDeviceErr>(i0)) && same_function(oi, i0);
                        assert(same_function(nbus.info.unwrap(), i0));
                    },
                    None => {},
                }
            },
            _ => {},
        }
    }
}

/// A scan that found only answering devices, starting from none, leaves a
/// bus below which every function answered.
proof fn lemma_fresh_bus_answered<F: Fn(u16, u8, u8, u8, usize) -> Result<PCIeInfo, PCIeDeviceErr>>(
    f: F, b0: PCIeBus, b1: PCIeBus, t0: PCIeTree, t1: PCIeTree, v0: Seq<bool>, v1: Seq<bool>,
)
    requires
        b0.devices@.len() == 0,
        scan_keeps(b0, b1, t0, t1, v0, v1),
        scan_answers(f, b0, b1, t0, t1),
    ensures
        bus_answered(f, b1),
{
    assert forall|k: int| 0 <= k < b1.devices@.len() implies
        child_answered(f, b1.segment_group, b1.bus_number, #[trigger] b1.devices@[k]) by {}
}

/// Configuration address of function `fu` of device `d` on bus `bus` in a
/// segment mapped at `base` (0 when accessed by I/O port).
pub open spec fn slot_address(base: Option<usize>, bus: u8, d: u8, fu: u8) -> usize {
    match base {
        Some(b) => b.wrapping_add(((bus as usize) << 20usize) | ((d as usize) << 15usize) | ((fu as usize) << 12usize)),
        None => 0,
    }
}

/// Child `c` holds what the probe answered at device `d`, function `fu` of
/// bus `bus_no` (up to the bridge information).
pub open spec fn from_slot<F: Fn(u16, u8, u8, u8, usize) -> Result<PCIeInfo, PCIeDeviceErr>>(
    f: F, seg: u16, bus_no: u8, base: Option<usize>, d: u8, fu: u8, c: ChildDevice,
) -> bool {
    match c {
        ChildDevice::Unattached(i) => exists|i0: PCIeInfo|
            #[trigger] f.ensures((seg, bus_no, d, fu, slot_address(base, bus_no, d, fu)), Ok::<PCIeInfo, PCIeDeviceErr>(i0))
            && same_function(*i, i0),
        ChildDevice::Bus(b) => match b.info {
            Some(i) => exists|i0: PCIeInfo|
                #[trigger] f.ensures((seg, bus_no, d, fu, slot_address(base, bus_no, d, fu)), Ok::<PCIeInfo, PCIeDeviceErr>(i0))
                && same_function(i, i0),
            None => false,
        },
        _ => false,
    }
}

/// Device `d`, function `fu` of bus `bus_no` was probed by a scan that added
/// `devices` from position `from` on: the probe may answer there with an
/// error, or with a PCI-to-PCI bridge (its secondary bus is scanned on its
/// own), or what it answered there was added.
pub open spec fn slot_probed<F: Fn(u16, u8, u8, u8, usize) -> Result<PCIeInfo, PCIeDeviceErr>>(
    f: F, seg: u16, bus_no: u8, base: Option<usize>, d: u8, fu: u8, devices: Seq<ChildDevice>, from: int,
) -> bool {
    ||| exists|e: PCIeDeviceErr|
        #[trigger] f.ensures((seg, bus_no, d, fu, slot_address(base, bus_no, d, fu)), Err::<PCIeInfo, PCIeDeviceErr>(e))
    ||| exists|i0: PCIeInfo|
        #[trigger] f.ensures((seg, bus_no, d, fu, slot_address(base, bus_no, d, fu)), Ok::<PCIeInfo, PCIeDeviceErr>(i0))
        && i0.pcie_class.spec_is_pci_to_pci()
    ||| exists|k: int| from <= k < devices.len() && #[trigger] from_slot(f, seg, bus_no, base, d, fu, devices[k])
}

/// The number of devices probed on each bus when at most `max_device` are
/// asked for.
pub open spec fn scan_width(max_device: u8) -> u8 {
    if max_device > 32 { 32 } else { max_device }
}

/// Every function of the first `width` devices of bus `b` was probed, and
/// what answered is among its devices.
pub open spec fn bus_scanned<F: Fn(u16, u8, u8, u8, usize) -> Result<PCIeInfo, PCIeDeviceErr>>(f: F, b: PCIeBus, width: u8) -> bool {
    forall|d: u8, fu: u8| d < width && fu < 8 ==>
        #[trigger] slot_probed(f, b.segment_group, b.bus_number, b.base_address, d, fu, b.devices@, 0)
}

/// Every bus below child `c` was scanned: a bus reached through a bridge
/// had all its device slots probed (`deep_scanned`), and a bus that only
/// re-hangs a bus scanned earlier holds that bus.
pub open spec fn child_scanned<F: Fn(u16, u8, u8, u8, usize) -> Result<PCIeInfo, PCIeDeviceErr>>(f: F, c: ChildDevice, width: u8) -> bool
    decreases c,
{
    match c {
        ChildDevice::Bus(b) => {
            ||| deep_scanned(f, *b, width)
            ||| b.devices@.len() == 1 && match b.devices@[0] {
                ChildDevice::Bus(g) => {
                    proof {
                        assert(decreases_to!(c => b));
                        assert(decreases_to!(*b => b.devices));
                        assert(decreases_to!(b.devices => b.devices@));
                        assert(decreases_to!(b.devices@ => b.devices@[0]));
                    }
                    deep_scanned(f, *g, width)
                },
                _ => false,
            }
        },
        _ => true,
    }
}

/// Bus `b` had all its device slots probed (`bus_scanned`), and so was
/// every bus below it (`child_scanned`).
pub open spec fn deep_scanned<F: Fn(u16, u8, u8, u8, usize) -> Result<PCIeInfo, PCIeDeviceErr>>(f: F, b: PCIeBus, width: u8) -> bool
    decreases b,
{
    &&& bus_scanned(f, b, width)
    &&& forall|k: int| 0 <= k < b.devices@.len() ==> {
        proof {
            assert(decreases_to!(b => b.devices));
            assert(decreases_to!(b.devices => b.devices@));
            assert(decreases_to!(b.devices@ => b.devices@[k]));
        }
        child_scanned(f, #[trigger] b.devices@[k], width)
    }
}

/// Every bus of tree `t`, and every bus below them, was scanned so.
pub open spec fn tree_scanned<F: Fn(u16, u8, u8, u8, usize) -> Result<PCIeInfo, PCIeDeviceErr>>(f: F, t: PCIeTree, width: u8) -> bool {
    forall|i: int| 0 <= i < t.tree@.len() ==> deep_scanned(f, #[trigger] t.tree@[i], width)
}

/// The children a scan added from position `from` on: each was scanned.
pub open spec fn scan_scans<F: Fn(u16, u8, u8, u8, usize) -> Result<PCIeInfo, PCIeDeviceErr>>(f: F, devices: Seq<ChildDevice>, from: int, width: u8) -> bool {
    forall|k: int| from <= k < devices.len() ==> child_scanned(f, #[trigger] devices[k], width)
}

/// Added children stay where they are when more are added.
proof fn lemma_scan_scans_trans<F: Fn(u16, u8, u8, u8, usize) -> Result<PCIeInfo, PCIeDeviceErr>>(
    f: F, d1: Seq<ChildDevice>, d2: Seq<ChildDevice>, from: int, mid: int, width: u8,
)
    requires
        scan_scans(f, d1, from, width),
        extends(d1, d2),
        mid == d1.len(),
        0 <= from <= mid,
        scan_scans(f, d2, mid, width),
    ensures
        scan_scans(f, d2, from, width),
{
    assert forall|k: int| from <= k < d2.len() implies child_scanned(f, #[trigger] d2[k], width) by {
        if k < mid {
            assert(d1[k] == d2.subrange(0, d1.len() as int)[k]);
        }
    }
}

/// Recording bridge information keeps every bus below scanned.
proof fn lemma_bridged_deep<F: Fn(u16, u8, u8, u8, usize) -> Result<PCIeInfo, PCIeDeviceErr>>(
    f: F, o: PCIeBus, n: PCIeBus, b: u8, d: u8, fu: u8, width: u8,
)
    requires
        bridged_bus(o, n, b, d, fu),
        deep_scanned(f, o, width),
    ensures
        deep_scanned(f, n, width),
    decreases o,
{
    lemma_bridged_scanned(f, o, n, b, d, fu, width);
    let nb = next_bridge(o, b, d, fu);
    assert forall|k: int| 0 <= k < n.devices@.len() implies child_scanned(f, #[trigger] n.devices@[k], width) by {
        let oc = o.devices@[k];
        let nc = n.devices@[k];
        assert(bridged_child(oc, nc, nb));
        assert(child_scanned(f, oc, width));
        match (oc, nc) {
            (ChildDevice::Bus(ob), ChildDevice::Bus(nbus)) => {
                assert(decreases_to!(o => o.devices));
                assert(decreases_to!(o.devices => o.devices@));
                assert(decreases_to!(o.devices@ => o.devices@[k]));
                assert(decreases_to!(o.devices@[k] => *ob));
                assert(bridged_bus(*ob, *nbus, nb.0, nb.1, nb.2));
                if deep_scanned(f, *ob, width) {
                    lemma_bridged_deep(f, *ob, *nbus, nb.0, nb.1, nb.2, width);
                } else {
                    let nb2 = next_bridge(*ob, nb.0, nb.1, nb.2);
                    match (ob.devices@[0], nbus.devices@[0]) {
                        (ChildDevice::Bus(og), ChildDevice::Bus(ng)) => {
                            assert(bridged_child(ob.devices@[0], nbus.devices@[0], nb2));
                            assert(decreases_to!(*ob => ob.devices));
                            assert(decreases_to!(ob.devices => ob.devices@));
                            assert(decreases_to!(ob.devices@ => ob.devices@[0]));
                            assert(decreases_to!(ob.devices@[0] => *og));
                            lemma_bridged_deep(f, *og, *ng, nb2.0, nb2.1, nb2.2, width);
                        },
                        _ => {
                            assert(bridged_child(ob.devices@[0], nbus.devices@[0], nb2));
                        },
                    }
                }
            },
            _ => {},
        }
    }
}



/// Devices added after position `from` stay where they are when more are
/// added.
proof fn lemma_slot_probed_extends<F: Fn(u16, u8, u8, u8, usize) -> Result<PCIeInfo, PCIeDeviceErr>>(
    f: F, seg: u16, bus_no: u8, base: Option<usize>, d: u8, fu: u8, d1: Seq<ChildDevice>, d2: Seq<ChildDevice>, from: int, from2: int,
)
    requires
        slot_probed(f, seg, bus_no, base, d, fu, d1, from),
        extends(d1, d2),
        0 <= from2 <= from,
    ensures
        slot_probed(f, seg, bus_no, base, d, fu, d2, from2),
{
    if exists|k: int| from <= k < d1.len() && #[trigger] from_slot(f, seg, bus_no, base, d, fu, d1[k]) {
        let k = choose|k: int| from <= k < d1.len() && #[trigger] from_slot(f, seg, bus_no, base, d, fu, d1[k]);
        assert(d1[k] == d2.subrange(0, d1.len() as int)[k]);
        assert(from_slot(f, seg, bus_no, base, d, fu, d2[k]));
    }
}

/// Trees that only lose buses stay scanned.
proof fn lemma_tree_scanned_sub<F: Fn(u16, u8, u8, u8, usize) -> Result<PCIeInfo, PCIeDeviceErr>>(f: F, t0: PCIeTree, t1: PCIeTree, width: u8)
    requires
        tree_scanned(f, t0, width),
        forall|i: int| 0 <= i < t1.tree@.len() ==> t0.tree@.contains(#[trigger] t1.tree@[i]),
    ensures
        tree_scanned(f, t1, width),
{
    assert forall|i: int| 0 <= i < t1.tree@.len() implies deep_scanned(f, #[trigger] t1.tree@[i], width) by {
        assert(t0.tree@.contains(t1.tree@[i]));
        let j = choose|j: int| 0 <= j < t0.tree@.len() && t0.tree@[j] == t1.tree@[i];
        assert(deep_scanned(f, t0.tree@[j], width));
    }
}

/// Recording bridge information keeps a bus scanned.
proof fn lemma_bridged_scanned<F: Fn(u16, u8, u8, u8, usize) -> Result<PCIeInfo, PCIeDeviceErr>>(
    f: F, o: PCIeBus, n: PCIeBus, b: u8, dv: u8, fn_: u8, width: u8,
)
    requires
        bridged_bus(o, n, b, dv, fn_),
        bus_scanned(f, o, width),
    ensures
        bus_scanned(f, n, width),
{
    let nb = next_bridge(o, b, dv, fn_);
    assert forall|d: u8, fu: u8| d < width && fu < 8 implies
        #[trigger] slot_probed(f, n.segment_group, n.bus_number, n.base_address, d, fu, n.devices@, 0) by {
        assert(slot_probed(f, o.segment_group, o.bus_number, o.base_address, d, fu, o.devices@, 0));
        if exists|k: int| 0 <= k < o.devices@.len() && #[trigger] from_slot(f, o.segment_group, o.bus_number, o.base_address, d, fu, o.devices@[k]) {
            let k = choose|k: int| 0 <= k < o.devices@.len() && #[trigger] from_slot(f, o.segment_group, o.bus_number, o.base_address, d, fu, o.devices@[k]);
            let oc = o.devices@[k];
            let nc = n.devices@[k];
            assert(bridged_child(oc, nc, nb));
            match (oc, nc) {
                (ChildDevice::Unattached(oi), ChildDevice::Unattached(ni)) => {
                    let i0 = choose|i0: PCIeInfo|
                        #[trigger] f.ensures((o.segment_group, o.bus_number, d, fu, slot_address(o.base_address, o.bus_number, d, fu)), Ok::<PCIeInfo, PCIeDeviceErr>(i0))
                        && same_function(*oi, i0);
                    assert(same_function(*ni, i0));
                },
                (ChildDevice::Bus(ob), ChildDevice::Bus(nbus)) => {
                    let oi = ob.info.unwrap();
                    let i0 = choose|i0: PCIeInfo|
                        #[trigger] f.ensures((o.segment_group, o.bus_number, d, fu, slot_address(o.base_address, o.bus_number, d, fu)), Ok::<PCIeInfo, PCIeDeviceErr>(i0))
                        && same_function(oi, i0);
                    assert(same_function(nbus.info.unwrap(), i0));
                },
                _ => {},
            }
            assert(from_slot(f, n.segment_group, n.bus_number, n.base_address, d, fu, n.devices@[k]));
        }
    }
}

/// `post` extends `pre`.
pub open spec fn extends<T>(pre: Seq<T>, post: Seq<T>) -> bool {
    pre.len() <= post.len() && post.subrange(0, pre.len() as int) == pre
}

/// What a scan of a bus keeps: the bus's identity and the devices already
/// found; the tree stays ordered and only loses buses; visited buses stay
/// visited.
pub open spec fn scan_keeps(
    old_bus: PCIeBus, new_bus: PCIeBus,
    old_tree: PCIeTree, new_tree: PCIeTree,
    old_visited: Seq<bool>, new_visited: Seq<bool>,
) -> bool {
    &&& new_bus.segment_group == old_bus.segment_group
    &&& new_bus.bus_number == old_bus.bus_number
    &&& new_bus.base_address == old_bus.base_address
    &&& new_bus.info == old_bus.info
    &&& extends(old_bus.devices@, new_bus.devices@)
    &&& new_tree.wf()
    &&& forall|i: int| 0 <= i < new_tree.tree@.len() ==> bus_numbers(old_tree.tree@).contains(#[trigger] new_tree.tree@[i].bus_number)
    &&& new_visited.len() == old_visited.len()
    &&& forall|b: int| 0 <= b < old_visited.len() && #[trigger] old_visited[b] ==> new_visited[b]
}

proof fn lemma_scan_keeps_refl(b: PCIeBus, t: PCIeTree, v: Seq<bool>)
    requires
        t.wf(),
    ensures
        scan_keeps(b, b, t, t, v, v),
{
    assert(b.devices@.subrange(0, b.devices@.len() as int) =~= b.devices@);
    assert forall|i: int| 0 <= i < t.tree@.len() implies bus_numbers(t.tree@).contains(#[trigger] t.tree@[i].bus_number) by {
        assert(bus_numbers(t.tree@)[i] == t.tree@[i].bus_number);
    }
}

proof fn lemma_scan_keeps_trans(
    b0: PCIeBus, b1: PCIeBus, b2: PCIeBus,
    t0: PCIeTree, t1: PCIeTree, t2: PCIeTree,
    v0: Seq<bool>, v1: Seq<bool>, v2: Seq<bool>,
)
    requires
        scan_keeps(b0, b1, t0, t1, v0, v1),
        scan_keeps(b1, b2, t1, t2, v1, v2),
    ensures
        scan_keeps(b0, b2, t0, t2, v0, v2),
{
    assert(b2.devices@.subrange(0, b0.devices@.len() as int) =~= b1.devices@.subrange(0, b0.devices@.len() as int));
    assert forall|i: int| 0 <= i < t2.tree@.len() implies bus_numbers(t0.tree@).contains(#[trigger] t2.tree@[i].bus_number) by {
        let x = t2.tree@[i].bus_number;
        assert(bus_numbers(t1.tree@).contains(x));
        let j = choose|j: int| 0 <= j < bus_numbers(t1.tree@).len() && bus_numbers(t1.tree@)[j] == x;
        assert(bus_numbers(t0.tree@).contains(t1.tree@[j].bus_number));
    }
}

/// Scans every device of `bus`.
fn check_bus<F: Fn(u16, u8, u8, u8, usize) -> Result<PCIeInfo, PCIeDeviceErr>>(
    bus: &mut PCIeBus,
    bus_tree: &mut PCIeTree,
    visited: &mut Vec<bool>,
    f: &F,
    max_device: u8,
)
    requires
        probe_total(*f),
        old(bus_tree).wf(),
        old(visited)@.len() == 256,
        max_device <= 32,
        tree_answered(*f, old(bus).segment_group, *old(bus_tree)),
        tree_scanned(*f, *old(bus_tree), max_device),
    ensures
        scan_scans(*f, final(bus).devices@, old(bus).devices@.len() as int, max_device),
        scan_keeps(*old(bus), *final(bus), *old(bus_tree), *final(bus_tree), old(visited)@, final(visited)@),
        scan_answers(*f, *old(bus), *final(bus), *old(bus_tree), *final(bus_tree)),
        forall|d: u8, fu: u8| d < max_device && fu < 8 ==> #[trigger] slot_probed(*f, old(bus).segment_group,
            old(bus).bus_number, old(bus).base_address, d, fu, final(bus).devices@, old(bus).devices@.len() as int),
    decreases 256 - old(bus).bus_number, 2int,
{
    proof {
        lemma_scan_keeps_refl(*bus, *bus_tree, visited@);
        lemma_scan_answers_refl(*f, *bus, *bus_tree);
        assert(scan_scans(*f, bus.devices@, bus.devices@.len() as int, max_device));
    }
    let mut device: u8 = 0;
    while device < max_device
        invariant
            device <= max_device <= 32,
            old(visited)@.len() == 256,
            old(bus_tree).wf(),
            probe_total(*f),
            scan_keeps(*old(bus), *bus, *old(bus_tree), *bus_tree, old(visited)@, visited@),
            scan_answers(*f, *old(bus), *bus, *old(bus_tree), *bus_tree),
            tree_answered(*f, old(bus).segment_group, *bus_tree),
            tree_scanned(*f, *bus_tree, max_device),
            scan_scans(*f, bus.devices@, old(bus).devices@.len() as int, max_device),
            bus.bus_number == old(bus).bus_number,
            forall|d: u8, fu: u8| d < device && fu < 8 ==> #[trigger] slot_probed(*f, old(bus).segment_group,
                old(bus).bus_number, old(bus).base_address, d, fu, bus.devices@, old(bus).devices@.len() as int),
        decreases max_device - device,
    {
        let ghost (b1, t1, v1) = (*bus, *bus_tree, visited@);
        check_device(bus, device, bus_tree, visited, f, max_device);
        proof {
            assert forall|d: u8, fu: u8| d < device + 1 && fu < 8 implies #[trigger] slot_probed(*f, old(bus).segment_group,
                old(bus).bus_number, old(bus).base_address, d, fu, bus.devices@, old(bus).devices@.len() as int) by {
                if d < device {
                    lemma_slot_probed_extends(*f, old(bus).segment_group, old(bus).bus_number, old(bus).base_address, d, fu,
                        b1.devices@, bus.devices@, old(bus).devices@.len() as int, old(bus).devices@.len() as int);
                } else {
                    assert(bus.devices@.subrange(0, bus.devices@.len() as int) =~= bus.devices@);
                    lemma_slot_probed_extends(*f, old(bus).segment_group, old(bus).bus_number, old(bus).base_address, d, fu,
                        bus.devices@, bus.devices@, b1.devices@.len() as int, old(bus).devices@.len() as int);
                }
            }
            lemma_scan_answers_trans(*f, *old(bus), b1, *bus, *old(bus_tree), t1, *bus_tree, old(visited)@, v1, visited@);
            lemma_scan_keeps_trans(*old(bus), b1, *bus, *old(bus_tree), t1, *bus_tree, old(visited)@, v1, visited@);
            lemma_tree_answered_sub(*f, old(bus).segment_group, t1, *bus_tree);
            lemma_tree_scanned_sub(*f, t1, *bus_tree, max_device);
            lemma_scan_scans_trans(*f, b1.devices@, bus.devices@, old(bus).devices@.len() as int, b1.devices@.len() as int, max_device);
        }
        device += 1;
    }
}

/// Scans the eight functions of `device` on `bus`.
fn check_device<F: Fn(u16, u8, u8, u8, usize) -> Result<PCIeInfo, PCIeDeviceErr>>(
    bus: &mut PCIeBus,
    device: u8,
    bus_tree: &mut PCIeTree,
    visited: &mut Vec<bool>,
    f: &F,
    max_device: u8,
)
    requires
        probe_total(*f),
        old(bus_tree).wf(),
        old(visited)@.len() == 256,
        device < max_device <= 32,
        tree_answered(*f, old(bus).segment_group, *old(bus_tree)),
        tree_scanned(*f, *old(bus_tree), max_device),
    ensures
        scan_scans(*f, final(bus).devices@, old(bus).devices@.len() as int, max_device),
        scan_keeps(*old(bus), *final(bus), *old(bus_tree), *final(bus_tree), old(visited)@, final(visited)@),
        scan_answers(*f, *old(bus), *final(bus), *old(bus_tree), *final(bus_tree)),
        forall|fu: u8| fu < 8 ==> #[trigger] slot_probed(*f, old(bus).segment_group, old(bus).bus_number,
            old(bus).base_address, device, fu, final(bus).devices@, old(bus).devices@.len() as int),
    decreases 256 - old(bus).bus_number, 1int,
{
    proof {
        lemma_scan_keeps_refl(*bus, *bus_tree, visited@);
        lemma_scan_answers_refl(*f, *bus, *bus_tree);
        assert(scan_scans(*f, bus.devices@, bus.devices@.len() as int, max_device));
    }
    let mut function: u8 = 0;
    while function < 8
        invariant
            function <= 8,
            old(visited)@.len() == 256,
            old(bus_tree).wf(),
            device < max_device <= 32,
            probe_total(*f),
            scan_keeps(*old(bus), *bus, *old(bus_tree), *bus_tree, old(visited)@, visited@),
            scan_answers(*f, *old(bus), *bus, *old(bus_tree), *bus_tree),
            tree_answered(*f, old(bus).segment_group, *bus_tree),
            tree_scanned(*f, *bus_tree, max_device),
            scan_scans(*f, bus.devices@, old(bus).devices@.len() as int, max_device),
            bus.bus_number == old(bus).bus_number,
            forall|fu: u8| fu < function ==> #[trigger] slot_probed(*f, old(bus).segment_group, old(bus).bus_number,
                old(bus).base_address, device, fu, bus.devices@, old(bus).devices@.len() as int),
        decreases 8 - function,
    {
        let ghost (b1, t1, v1) = (*bus, *bus_tree, visited@);
        check_function(bus, device, function, bus_tree, visited, f, max_device);
        proof {
            assert forall|fu: u8| fu < function + 1 implies #[trigger] slot_probed(*f, old(bus).segment_group, old(bus).bus_number,
                old(bus).base_address, device, fu, bus.devices@, old(bus).devices@.len() as int) by {
                if fu < function {
                    lemma_slot_probed_extends(*f, old(bus).segment_group, old(bus).bus_number, old(bus).base_address, device, fu,
                        b1.devices@, bus.devices@, old(bus).devices@.len() as int, old(bus).devices@.len() as int);
                } else {
                    assert(bus.devices@.subrange(0, bus.devices@.len() as int) =~= bus.devices@);
                    lemma_slot_probed_extends(*f, old(bus).segment_group, old(bus).bus_number, old(bus).base_address, device, fu,
                        bus.devices@, bus.devices@, b1.devices@.len() as int, old(bus).devices@.len() as int);
                }
            }
            lemma_scan_answers_trans(*f, *old(bus), b1, *bus, *old(bus_tree), t1, *bus_tree, old(visited)@, v1, visited@);
            lemma_scan_keeps_trans(*old(bus), b1, *bus, *old(bus_tree), t1, *bus_tree, old(visited)@, v1, visited@);
            lemma_tree_answered_sub(*f, old(bus).segment_group, t1, *bus_tree);
            lemma_tree_scanned_sub(*f, t1, *bus_tree, max_device);
            lemma_scan_scans_trans(*f, b1.devices@, bus.devices@, old(bus).devices@.len() as int, b1.devices@.len() as int, max_device);
        }
        function += 1;
    }
}

/// Probes one function of `bus`. A PCI-to-PCI bridge leads to its secondary
/// bus: one numbered below this bus was scanned already and is moved from the
/// tree under the bridge; one numbered above this bus and not yet visited is
/// scanned now. Any other function is added to the bus unattached. Returns
/// whether the function answered.
fn check_function<F: Fn(u16, u8, u8, u8, usize) -> Result<PCIeInfo, PCIeDeviceErr>>(
    bus: &mut PCIeBus,
    device: u8,
    function: u8,
    bus_tree: &mut PCIeTree,
    visited: &mut Vec<bool>,
    f: &F,
    max_device: u8,
) -> (answered: bool)
    requires
        probe_total(*f),
        old(bus_tree).wf(),
        old(visited)@.len() == 256,
        device < max_device <= 32,
        function < 8,
        tree_answered(*f, old(bus).segment_group, *old(bus_tree)),
        tree_scanned(*f, *old(bus_tree), max_device),
    ensures
        scan_scans(*f, final(bus).devices@, old(bus).devices@.len() as int, max_device),
        scan_keeps(*old(bus), *final(bus), *old(bus_tree), *final(bus_tree), old(visited)@, final(visited)@),
        scan_answers(*f, *old(bus), *final(bus), *old(bus_tree), *final(bus_tree)),
        !answered ==> final(bus).devices@ == old(bus).devices@,
        slot_probed(*f, old(bus).segment_group, old(bus).bus_number, old(bus).base_address, device, function,
            final(bus).devices@, old(bus).devices@.len() as int),
    decreases 256 - old(bus).bus_number, 0int,
{
    proof {
        lemma_scan_keeps_refl(*bus, *bus_tree, visited@);
        lemma_scan_answers_refl(*f, *bus, *bus_tree);
        assert(scan_scans(*f, bus.devices@, bus.devices@.len() as int, max_device));
    }
    let offset: usize = ((bus.bus_number as usize) << 20usize) | ((device as usize) << 15usize)
        | ((function as usize) << 12usize);
    let addr: usize = match bus.base_address {
        Some(base) => base.wrapping_add(offset),
        None => 0,
    };
    proof {
        assert(f.requires((bus.segment_group, bus.bus_number, device, function, addr)));
        assert(addr == slot_address(bus.base_address, bus.bus_number, device, function));
    }
    let ghost args = (bus.segment_group, bus.bus_number, device, function, addr);
    let ghost b_start = *bus;
    let ghost t_start = *bus_tree;
    let probed = f(bus.segment_group, bus.bus_number, device, function, addr);
    match probed {
        Ok(info) => {
            proof {
                assert(f.ensures(args, Ok::<PCIeInfo, PCIeDeviceErr>(info)));
                assert(same_function(info, info));
                assert(answered(*f, bus.segment_group, bus.bus_number, info));
            }
            if info.pcie_class.is_pci_to_pci() {
                proof {
                    assert(f.ensures(args, Ok::<PCIeInfo, PCIeDeviceErr>(info)) && info.pcie_class.spec_is_pci_to_pci());
                }
                let secondary_bus: u8 = match info.get_secondary_bus() {
                    Some(s) => s,
                    None => 0,
                };
                if secondary_bus < bus.bus_number {
                    match bus_tree.remove(secondary_bus) {
                        Some(grandchild) => {
                            proof {
                                let j = choose|j: int| 0 <= j < old(bus_tree).tree@.len() && old(bus_tree).tree@[j] == grandchild;
                                assert(root_answered(*f, old(bus).segment_group, old(bus_tree).tree@[j]));
                                assert(deep_scanned(*f, old(bus_tree).tree@[j], max_device));
                            }
                            let mut bus_child = PCIeBus::new(bus.segment_group, secondary_bus, bus.base_address, Some(info));
                            bus_child.devices.push(ChildDevice::Bus(Box::new(grandchild)));
                            proof {
                                assert(child_answered(*f, bus_child.segment_group, bus_child.bus_number, bus_child.devices@[0]));
                                assert(bus_answered(*f, bus_child));
                            }
                            let ghost before = bus.devices@;
                            let ghost x = ChildDevice::Bus(Box::new(bus_child));
                            bus.devices.push(ChildDevice::Bus(Box::new(bus_child)));
                            assert(bus.devices@.subrange(0, before.len() as int) =~= before);
                            proof {
                                lemma_push_answered(*f, b_start, *bus, t_start, *bus_tree, x);
                                assert(child_scanned(*f, x, max_device));
                                assert(bus.devices@[before.len() as int] == x);
                            }
                        },
                        None => {
                            proof { lemma_same_answered(*f, b_start, *bus, t_start, *bus_tree); }
                        },
                    }
                } else if secondary_bus == bus.bus_number {
                    proof { lemma_same_answered(*f, b_start, *bus, t_start, *bus_tree); }
                } else if !visited[secondary_bus as usize] {
                    let mut bus_child = PCIeBus::new(bus.segment_group, secondary_bus, bus.base_address, Some(info));
                    let ghost v0 = visited@;
                    visited.set(secondary_bus as usize, true);
                    let ghost (c1, t1, v1) = (bus_child, *bus_tree, visited@);
                    check_bus(&mut bus_child, bus_tree, visited, f, max_device);
                    proof {
                        assert(bus_scanned(*f, bus_child, max_device));
                        assert(deep_scanned(*f, bus_child, max_device));
                        lemma_fresh_bus_answered(*f, c1, bus_child, t1, *bus_tree, v1, visited@);
                        assert forall|b: int| 0 <= b < v0.len() && #[trigger] v0[b] implies visited@[b] by {
                            assert(v1[b]);
                        }
                        assert forall|i: int| 0 <= i < bus_tree.tree@.len() implies
                            bus_numbers(old(bus_tree).tree@).contains(#[trigger] bus_tree.tree@[i].bus_number) by {}
                    }
                    let ghost before = bus.devices@;
                    let ghost x = ChildDevice::Bus(Box::new(bus_child));
                    bus.devices.push(ChildDevice::Bus(Box::new(bus_child)));
                    assert(bus.devices@.subrange(0, before.len() as int) =~= before);
                    proof {
                        lemma_push_answered(*f, b_start, *bus, t_start, *bus_tree, x);
                        assert(child_scanned(*f, x, max_device));
                        assert(bus.devices@[before.len() as int] == x);
                    }
                } else {
                    proof { lemma_same_answered(*f, b_start, *bus, t_start, *bus_tree); }
                }
            } else {
                let ghost before = bus.devices@;
                let ghost x = ChildDevice::Unattached(Box::new(info));
                bus.devices.push(ChildDevice::Unattached(Box::new(info)));
                assert(bus.devices@.subrange(0, before.len() as int) =~= before);
                proof {
                    lemma_push_answered(*f, b_start, *bus, t_start, *bus_tree, x);
                    assert(bus.devices@[before.len() as int] == x);
                    assert(from_slot(*f, bus.segment_group, bus.bus_number, bus.base_address, device, function, bus.devices@[before.len() as int]));
                }
            }
            assert(bus.devices@.subrange(0, old(bus).devices@.len() as int) =~= old(bus).devices@);
            true
        },
        Err(e) => {
            proof {
                lemma_same_answered(*f, b_start, *bus, t_start, *bus_tree);
                assert(f.ensures(args, Err::<PCIeInfo, PCIeDeviceErr>(e)));
            }
            assert(bus.devices@.subrange(0, old(bus).devices@.len() as int) =~= old(bus).devices@);
            false
        },
    }
}


/// `info` with the given bridge as the bridge having it.
pub open spec fn with_bridge(info: PCIeInfo, b: u8, d: u8, f: u8) -> PCIeInfo {
    PCIeInfo { bridge_bus_number: Some(b), bridge_device_number: Some(d), bridge_function_number: Some(f), ..info }
}

/// Records the bridge having `info`.
fn set_bridge(info: &mut PCIeInfo, b: u8, d: u8, f: u8)
    ensures
        *final(info) == with_bridge(*old(info), b, d, f),
{
    info.bridge_bus_number = Some(b);
    info.bridge_device_number = Some(d);
    info.bridge_function_number = Some(f);
}

/// The bridge that devices on `bus` hang from: the bus's own bridge, or the
/// given one for a root bus.
pub open spec fn next_bridge(bus: PCIeBus, b: u8, d: u8, f: u8) -> (u8, u8, u8) {
    match bus.info {
        Some(info) => (info.bus_number, info.device_number, info.function_number),
        None => (b, d, f),
    }
}

/// `n` is child `o` of a bus whose devices hang from bridge `nb`, after the
/// bridge information is recorded down the tree.
pub open spec fn bridged_child(o: ChildDevice, n: ChildDevice, nb: (u8, u8, u8)) -> bool
    decreases o,
{
    match (o, n) {
        (ChildDevice::Unattached(oi), ChildDevice::Unattached(ni)) => *ni == with_bridge(*oi, nb.0, nb.1, nb.2),
        (ChildDevice::Bus(ob), ChildDevice::Bus(nbus)) => bridged_bus(*ob, *nbus, nb.0, nb.1, nb.2),
        (ChildDevice::Attached(a), ChildDevice::Attached(c)) => a == c,
        (ChildDevice::Attaching, ChildDevice::Attaching) => true,
        _ => false,
    }
}

/// `n` is bus `o` hanging from bridge `b:d.f` after the bridge information
/// is recorded down the tree.
pub open spec fn bridged_bus(o: PCIeBus, n: PCIeBus, b: u8, d: u8, f: u8) -> bool
    decreases o,
{
    let nb = next_bridge(o, b, d, f);
    &&& n.segment_group == o.segment_group
    &&& n.bus_number == o.bus_number
    &&& n.base_address == o.base_address
    &&& n.info == (match o.info { Some(info) => Some(with_bridge(info, b, d, f)), None => None })
    &&& n.devices@.len() == o.devices@.len()
    &&& forall|k: int| 0 <= k < o.devices@.len() ==> {
        proof {
            assert(decreases_to!(o => o.devices));
            assert(decreases_to!(o.devices => o.devices@));
            assert(decreases_to!(o.devices@ => o.devices@[k]));
        }
        bridged_child(#[trigger] o.devices@[k], n.devices@[k], nb)
    }
}

impl PCIeBus {
    /// Records, for the bus's bridge, that it hangs from bridge `b:d.f`, and
    /// for each unattached function and child bus on it, the bridge it hangs
    /// from, down the whole tree.
    pub fn with_bridge_info(self, b: u8, d: u8, f: u8) -> (r: PCIeBus)
        ensures
            bridged_bus(self, r, b, d, f),
        decreases self,
    {
        let ghost whole = self;
        let nb = match &self.info {
            Some(info) => (info.bus_number, info.device_number, info.function_number),
            None => (b, d, f),
        };
        let PCIeBus { segment_group, bus_number, base_address, info, devices } = self;
        let info = match info {
            Some(i) => {
                let mut i = i;
                set_bridge(&mut i, b, d, f);
                Some(i)
            },
            None => None,
        };
        let ghost all = devices@;
        let mut rest = devices;
        let mut out: Vec<ChildDevice> = Vec::new();
        let n = rest.len();
        let mut i: usize = 0;
        while i < n
            invariant
                n == all.len(),
                all == whole.devices@,
                whole == self,
                nb == next_bridge(whole, b, d, f),
                i <= n,
                rest@ == all.skip(i as int),
                out@.len() == i,
                forall|k: int| 0 <= k < i ==> bridged_child(#[trigger] all[k], out@[k], nb),
            decreases n - i,
        {
            let child = rest.remove(0);
            proof {
                assert(child == all[i as int]);
                assert(rest@ =~= all.skip(i + 1));
            }
            let updated = match child {
                ChildDevice::Bus(c) => {
                    proof {
                        assert(decreases_to!(whole => whole.devices));
                        assert(decreases_to!(whole.devices => whole.devices@));
                        assert(decreases_to!(whole.devices@ => whole.devices@[i as int]));
                        assert(decreases_to!(whole.devices@[i as int] => c));
                        assert(decreases_to!(whole => *c));
                    }
                    ChildDevice::Bus(Box::new((*c).with_bridge_info(nb.0, nb.1, nb.2)))
                },
                ChildDevice::Unattached(info) => {
                    let mut info = *info;
                    set_bridge(&mut info, nb.0, nb.1, nb.2);
                    ChildDevice::Unattached(Box::new(info))
                },
                ChildDevice::Attached(name) => ChildDevice::Attached(name),
                ChildDevice::Attaching => ChildDevice::Attaching,
            };
            out.push(updated);
            i += 1;
        }
        let r = PCIeBus { segment_group, bus_number, base_address, info, devices: out };
        proof {
            assert forall|k: int| 0 <= k < whole.devices@.len() implies bridged_child(#[trigger] whole.devices@[k], r.devices@[k], nb) by {
                assert(all[k] == whole.devices@[k]);
            }
        }
        r
    }
}

impl PCIeTree {
    /// Records the bridge information down every bus of the tree, the root
    /// buses hanging from bridge `b:d.f`.
    pub fn update_bridge_info(&mut self, b: u8, d: u8, f: u8)
        requires
            old(self).wf(),
        ensures
            final(self).wf(),
            bus_numbers(final(self).tree@) == bus_numbers(old(self).tree@),
            final(self).tree@.len() == old(self).tree@.len(),
            forall|i: int| 0 <= i < old(self).tree@.len() ==> bridged_bus(#[trigger] old(self).tree@[i], final(self).tree@[i], b, d, f),
    {
        let ghost keys = bus_numbers(self.tree@);
        let mut rest: Vec<PCIeBus> = Vec::new();
        std::mem::swap(&mut rest, &mut self.tree);
        let ghost all = rest@;
        let n = rest.len();
        let mut out: Vec<PCIeBus> = Vec::new();
        let mut i: usize = 0;
        while i < n
            invariant
                n == all.len(),
                keys == bus_numbers(all),
                i <= n,
                rest@ == all.skip(i as int),
                all == old(self).tree@,
                bus_numbers(out@) == keys.take(i as int),
                out@.len() == i,
                forall|k: int| 0 <= k < i ==> bridged_bus(#[trigger] all[k], out@[k], b, d, f),
            decreases n - i,
        {
            let bus = rest.remove(0);
            proof {
                assert(bus == all[i as int]);
                assert(rest@ =~= all.skip(i + 1));
            }
            let updated = bus.with_bridge_info(b, d, f);
            let ghost before = out@;
            out.push(updated);
            proof {
                assert(out@ == before.push(updated));
                assert(keys[i as int] == all[i as int].bus_number);
                assert(bus_numbers(out@) =~= bus_numbers(before).push(updated.bus_number));
            }
            assert(bus_numbers(out@) =~= keys.take(i + 1));
            i += 1;
        }
        assert(keys.take(n as int) =~= keys);
        self.tree = out;
    }
}

/// Address of the configuration space of bus `bus` in a segment mapped at
/// `base_address` (0 when accessed by I/O port).
pub open spec fn probe_address(base_address: Option<usize>, bus: u8) -> usize {
    match base_address {
        Some(base) => base.wrapping_add(((bus as usize) << 20usize) as usize),
        None => 0,
    }
}

/// Every bus up to `max_bus` may answer the probe of device 0, function 0
/// with an error.
pub open spec fn no_bus_answered<F: Fn(u16, u8, u8, u8, usize) -> Result<PCIeInfo, PCIeDeviceErr>>(
    f: F, segment_group: u16, base_address: Option<usize>, max_bus: u8,
) -> bool {
    forall|b: u8| #![trigger probe_address(base_address, b)] b <= max_bus ==> exists|e: PCIeDeviceErr|
        #[trigger] f.ensures((segment_group, b, 0u8, 0u8, probe_address(base_address, b)), Err::<PCIeInfo, PCIeDeviceErr>(e))
}

/// Scans a segment: each bus up to `max_bus` that answers at device 0,
/// function 0 and was not reached through a bridge becomes a root of the
/// tree, with everything found below it. The bus of the host bridge is
/// recorded as the bridge of the root buses. At most 32 devices per bus are
/// probed. Every function in the tree is one the probe answered on its bus,
/// and on every bus of the tree, and every bus reached below it through a
/// bridge, each function of each device probed either is among the bus's
/// devices, or the probe may answer there with an error or with a PCI-to-PCI
/// bridge.
pub fn scan_tree<F: Fn(u16, u8, u8, u8, usize) -> Result<PCIeInfo, PCIeDeviceErr>>(
    segment_group: u16,
    base_address: Option<usize>,
    f: F,
    max_bus: u8,
    max_device: u8,
) -> (t: PCIeTree)
    requires
        probe_total(f),
    ensures
        t.wf(),
        forall|i: int| 0 <= i < t.tree@.len() ==> (#[trigger] t.tree@[i]).bus_number <= max_bus,
        tree_answered(f, segment_group, t),
        tree_scanned(f, t, scan_width(max_device)),
        t.tree@.len() == 0 ==> no_bus_answered(f, segment_group, base_address, max_bus),
{
    let ghost width = scan_width(max_device);
    let max_device: u8 = if max_device > 32 { 32 } else { max_device };
    let mut visited: Vec<bool> = Vec::new();
    let mut k: usize = 0;
    while k < 256
        invariant
            k <= 256,
            visited@.len() == k,
            forall|j: int| 0 <= j < k ==> !visited@[j],
        decreases 256 - k,
    {
        visited.push(false);
        k += 1;
    }
    let mut bus_tree = PCIeTree::new();
    let mut host_bridge_bus: u8 = 0;
    let mut bus_number: u16 = 0;
    while bus_number <= max_bus as u16
        invariant
            bus_number <= max_bus as u16 + 1,
            max_device <= 32,
            probe_total(f),
            bus_tree.wf(),
            visited@.len() == 256,
            forall|i: int| 0 <= i < bus_tree.tree@.len() ==> (#[trigger] bus_tree.tree@[i]).bus_number < bus_number,
            tree_answered(f, segment_group, bus_tree),
            max_device == width,
            tree_scanned(f, bus_tree, width),
            bus_tree.tree@.len() == 0 ==> forall|k: int| 0 <= k < 256 ==> !visited@[k],
            bus_tree.tree@.len() == 0 ==> forall|b: u8| #![trigger probe_address(base_address, b)] b < bus_number ==> exists|e: PCIeDeviceErr|
                #[trigger] f.ensures((segment_group, b, 0u8, 0u8, probe_address(base_address, b)), Err::<PCIeInfo, PCIeDeviceErr>(e)),
        decreases max_bus as u16 + 1 - bus_number,
    {
        let bn = bus_number as u8;
        if !visited[bn as usize] {
            let offset: usize = (bn as usize) << 20usize;
            let addr: usize = match base_address {
                Some(base) => base.wrapping_add(offset),
                None => 0,
            };
            assert(addr == probe_address(base_address, bn));
            proof { assert(f.requires((segment_group, bn, 0u8, 0u8, addr))); }
            let ghost args = (segment_group, bn, 0u8, 0u8, addr);
            let probed = f(segment_group, bn, 0, 0, addr);
            match probed {
                Ok(info) => {
                    proof { assert(f.ensures(args, Ok::<PCIeInfo, PCIeDeviceErr>(info))); }
                    if info.pcie_class.is_host_bridge() {
                        host_bridge_bus = bn;
                    }
                    let mut bus = PCIeBus::new(segment_group, bn, base_address, None);
                    visited.set(bn as usize, true);
                    let ghost t0 = bus_tree;
                    let ghost (b0, v0) = (bus, visited@);
                    check_bus(&mut bus, &mut bus_tree, &mut visited, &f, max_device);
                    proof {
                        lemma_fresh_bus_answered(f, b0, bus, t0, bus_tree, v0, visited@);
                        lemma_tree_answered_sub(f, segment_group, t0, bus_tree);
                        lemma_tree_scanned_sub(f, t0, bus_tree, width);
                        assert(bus_scanned(f, bus, width));
                        assert(deep_scanned(f, bus, width));
                        assert(root_answered(f, segment_group, bus));
                        assert forall|i: int| 0 <= i < bus_tree.tree@.len() implies (#[trigger] bus_tree.tree@[i]).bus_number < bus_number by {
                            let x = bus_tree.tree@[i].bus_number;
                            assert(bus_numbers(t0.tree@).contains(x));
                            let j = choose|j: int| 0 <= j < bus_numbers(t0.tree@).len() && bus_numbers(t0.tree@)[j] == x;
                            assert(t0.tree@[j].bus_number < bus_number);
                        }
                    }
                    let ghost before = bus_tree.tree@;
                    bus_tree.tree.push(bus);
                    proof {
                        assert forall|i: int| 0 <= i < bus_tree.tree@.len() implies root_answered(f, segment_group, #[trigger] bus_tree.tree@[i]) by {
                            if i < before.len() {
                                assert(bus_tree.tree@[i] == before[i]);
                            }
                        }
                        assert forall|i: int| 0 <= i < bus_tree.tree@.len() implies deep_scanned(f, #[trigger] bus_tree.tree@[i], width) by {
                            if i < before.len() {
                                assert(bus_tree.tree@[i] == before[i]);
                            }
                        }
                        assert forall|x: int, y: int| 0 <= x < y < bus_tree.tree@.len() implies
                            bus_numbers(bus_tree.tree@)[x] < bus_numbers(bus_tree.tree@)[y] by {
                            if y < before.len() {
                                assert(bus_numbers(before)[x] < bus_numbers(before)[y]);
                            } else {
                                assert(before[x].bus_number < bus_number);
                            }
                        }
                    }
                },
                Err(e) => {
                    proof {
                        assert(f.ensures(args, Err::<PCIeInfo, PCIeDeviceErr>(e)));
                        assert forall|b: u8| #![trigger probe_address(base_address, b)] b < bus_number + 1 && bus_tree.tree@.len() == 0
                            implies exists|e: PCIeDeviceErr|
                            #[trigger] f.ensures((segment_group, b, 0u8, 0u8, probe_address(base_address, b)), Err::<PCIeInfo, PCIeDeviceErr>(e)) by {
                            if b == bn {
                                assert(f.ensures((segment_group, b, 0u8, 0u8, probe_address(base_address, b)), Err::<PCIeInfo, PCIeDeviceErr>(e)));
                            } else {
                                assert(b < bus_number);
                            }
                        }
                    }
                },
            }
        }
        bus_number += 1;
    }
    assert(bus_number == max_bus as u16 + 1);
    let ghost keys = bus_numbers(bus_tree.tree@);
    assert forall|i: int| 0 <= i < keys.len() implies #[trigger] keys[i] <= max_bus by {
        assert(bus_tree.tree@[i].bus_number < bus_number);
    }
    let ghost t_roots = bus_tree;
    bus_tree.update_bridge_info(host_bridge_bus, 0, 0);
    proof {
        assert forall|i: int| 0 <= i < bus_tree.tree@.len() implies root_answered(f, segment_group, #[trigger] bus_tree.tree@[i]) by {
            assert(bridged_bus(t_roots.tree@[i], bus_tree.tree@[i], host_bridge_bus, 0, 0));
            assert(root_answered(f, segment_group, t_roots.tree@[i]));
            lemma_bridged_answered(f, t_roots.tree@[i], bus_tree.tree@[i], host_bridge_bus, 0, 0);
        }
        assert forall|i: int| 0 <= i < bus_tree.tree@.len() implies deep_scanned(f, #[trigger] bus_tree.tree@[i], width) by {
            assert(bridged_bus(t_roots.tree@[i], bus_tree.tree@[i], host_bridge_bus, 0, 0));
            assert(deep_scanned(f, t_roots.tree@[i], width));
            lemma_bridged_deep(f, t_roots.tree@[i], bus_tree.tree@[i], host_bridge_bus, 0, 0, width);
        }
        assert forall|i: int| 0 <= i < bus_tree.tree@.len() implies (#[trigger] bus_tree.tree@[i]).bus_number <= max_bus by {
            assert(bus_numbers(bus_tree.tree@)[i] == keys[i]);
        }
    }
    bus_tree
}

/// Scans the segment (see `scan_tree`) and attaches every function found to
/// its driver through `driver_attach`.
pub fn init<F: Fn(u16, u8, u8, u8, usize) -> Result<PCIeInfo, PCIeDeviceErr>, G: Fn(DriverKind, PCIeInfo) -> Result<String, PCIeDeviceErr>>(
    segment_group: u16,
    base_address: Option<usize>,
    f: F,
    driver_attach: &G,
    max_bus: u8,
    max_device: u8,
) -> (t: PCIeTree)
    requires
        probe_total(f),
        driver_total(*driver_attach),
    ensures
        t.wf(),
        forall|i: int| 0 <= i < t.tree@.len() ==> (#[trigger] t.tree@[i]).bus_number <= max_bus,
        exists|scanned: PCIeTree| {
            &&& scanned.wf()
            &&& tree_answered(f, segment_group, scanned)
            &&& tree_scanned(f, scanned, scan_width(max_device))
            &&& scanned.tree@.len() == t.tree@.len()
            &&& forall|i: int| 0 <= i < t.tree@.len() ==> bus_attached(#[trigger] scanned.tree@[i], t.tree@[i], *driver_attach)
        },
        t.tree@.len() == 0 ==> no_bus_answered(f, segment_group, base_address, max_bus),
{
    let mut tree = scan_tree(segment_group, base_address, f, max_bus, max_device);
    let ghost scanned = tree;
    tree.attach(driver_attach);
    proof {
        assert forall|i: int| 0 <= i < tree.tree@.len() implies (#[trigger] tree.tree@[i]).bus_number <= max_bus by {
            assert(bus_attached(scanned.tree@[i], tree.tree@[i], *driver_attach));
        }
    }
    tree
}

/// Scans segment 0 through a probe that reads configuration space by I/O
/// port.
pub fn init_with_io<F: Fn(u16, u8, u8, u8, usize) -> Result<PCIeInfo, PCIeDeviceErr>, G: Fn(DriverKind, PCIeInfo) -> Result<String, PCIeDeviceErr>>(
    probe: F,
    driver_attach: &G,
    max_bus: u8,
    max_device: u8,
) -> (t: PCIeTree)
    requires
        probe_total(probe),
        driver_total(*driver_attach),
    ensures
        t.wf(),
        forall|i: int| 0 <= i < t.tree@.len() ==> (#[trigger] t.tree@[i]).bus_number <= max_bus,
        exists|scanned: PCIeTree| {
            &&& scanned.wf()
            &&& tree_answered(probe, 0u16, scanned)
            &&& tree_scanned(probe, scanned, scan_width(max_device))
            &&& scanned.tree@.len() == t.tree@.len()
            &&& forall|i: int| 0 <= i < t.tree@.len() ==> bus_attached(#[trigger] scanned.tree@[i], t.tree@[i], *driver_attach)
        },
        t.tree@.len() == 0 ==> no_bus_answered(probe, 0u16, None, max_bus),
{
    init(0, None, probe, driver_attach, max_bus, max_device)
}

/// Scans a segment whose configuration space is mapped at `base_address`.
pub fn init_with_addr<F: Fn(u16, u8, u8, u8, usize) -> Result<PCIeInfo, PCIeDeviceErr>, G: Fn(DriverKind, PCIeInfo) -> Result<String, PCIeDeviceErr>>(
    segment_group: u16,
    base_address: usize,
    probe: F,
    driver_attach: &G,
    max_bus: u8,
    max_device: u8,
) -> (t: PCIeTree)
    requires
        probe_total(probe),
        driver_total(*driver_attach),
    ensures
        t.wf(),
        forall|i: int| 0 <= i < t.tree@.len() ==> (#[trigger] t.tree@[i]).bus_number <= max_bus,
        exists|scanned: PCIeTree| {
            &&& scanned.wf()
            &&& tree_answered(probe, segment_group, scanned)
            &&& tree_scanned(probe, scanned, scan_width(max_device))
            &&& scanned.tree@.len() == t.tree@.len()
            &&& forall|i: int| 0 <= i < t.tree@.len() ==> bus_attached(#[trigger] scanned.tree@[i], t.tree@[i], *driver_attach)
        },
        t.tree@.len() == 0 ==> no_bus_answered(probe, segment_group, Some(base_address), max_bus),
{
    init(segment_group, Some(base_address), probe, driver_attach, max_bus, max_device)
}


/// Size of a page of the kernel's page tables.
pub const PAGESIZE: usize = 4096;

/// One page of a memory-mapped register region to map: the page's address
/// (identity-mapped, writable, not executable, device memory) and whether
/// it is cached and written through (as prefetchable regions are).
#[derive(Debug, Clone, Copy, PartialEq, Eq, Structural)]
pub struct PageMapping {
    pub addr: usize,
    pub prefetchable: bool,
}

/// Number of pages from `addr` up to `addr + size`, stepping one page at a
/// time from `addr`.
pub open spec fn page_count(size: int) -> int {
    (size + PAGESIZE - 1) / (PAGESIZE as int)
}

/// Start of the page that holds `x`.
pub open spec fn page_base(x: int) -> usize {
    (x - x % (PAGESIZE as int)) as usize
}

/// The pages to map for one base address register: none for I/O registers,
/// empty ones and ones already mapped; otherwise the page of every step of
/// one page from the region's address while below its end.
pub open spec fn bar_pages(b: BaseAddress) -> Seq<PageMapping> {
    match b {
        BaseAddress::Mmio { addr, size, prefetchable, mapped, .. } =>
            if size == 0 || mapped {
                Seq::empty()
            } else {
                Seq::new(page_count(size as int) as nat, |k: int| PageMapping {
                    addr: page_base(addr + k * PAGESIZE),
                    prefetchable,
                })
            },
        _ => Seq::empty(),
    }
}

/// The pages of all registers, register by register.
pub open spec fn map_plan(bars: Seq<BaseAddress>) -> Seq<PageMapping>
    decreases bars.len(),
{
    if bars.len() == 0 {
        Seq::empty()
    } else {
        map_plan(bars.drop_last()) + bar_pages(bars.last())
    }
}

/// The stepping from the region's address stays within the machine's
/// addresses.
pub open spec fn bar_fits(b: BaseAddress) -> bool {
    match b {
        BaseAddress::Mmio { addr, size, mapped, .. } =>
            size != 0 && !mapped ==> addr + page_count(size as int) * PAGESIZE <= usize::MAX,
        _ => true,
    }
}

proof fn lemma_page_steps(size: int, n: int)
    requires
        size > 0,
        n >= 0,
        (n - 1) * PAGESIZE < size <= n * PAGESIZE,
    ensures
        n == page_count(size),
{
}

/// The pages of one register.
fn plan_bar(b: &BaseAddress) -> (r: Vec<PageMapping>)
    requires
        bar_fits(*b),
    ensures
        r@ == bar_pages(*b),
{
    let mut out: Vec<PageMapping> = Vec::new();
    match b {
        BaseAddress::Mmio { addr, size, prefetchable, mapped, .. } => {
            if *size == 0 || *mapped {
                return out;
            }
            let ghost want = bar_pages(*b);
            let ghost pc = page_count(*size as int);
            let base = *addr;
            let end = base + *size;
            let mut a = base;
            while a < end
                invariant
                    end == base + *size,
                    *size > 0,
                    pc == page_count(*size as int),
                    base + pc * PAGESIZE <= usize::MAX,
                    want == bar_pages(*b),
                    want.len() == pc,
                    want == Seq::new(pc as nat, |k: int| PageMapping { addr: page_base(base + k * PAGESIZE), prefetchable: *prefetchable }),
                    a == base + out@.len() * PAGESIZE,
                    out@.len() <= pc,
                    out@ == want.take(out@.len() as int),
                decreases pc - out@.len(),
            {
                proof {
                    assert(out@.len() < pc);
                }
                let page = a & !(4095usize);
                proof {
                    assert(a & !(4095usize) == a - a % 4096) by (bit_vector);
                    assert(page == page_base(a as int));
                }
                out.push(PageMapping { addr: page, prefetchable: *prefetchable });
                a = a + PAGESIZE;
                proof {
                    assert(out@ =~= want.take(out@.len() as int));
                }
            }
            proof {
                lemma_page_steps(*size as int, out@.len() as int);
                assert(want.take(pc) =~= want);
            }
            out
        },
        _ => out,
    }
}

impl PCIeInfo {
    /// Disables and re-enables memory and I/O decoding with bus mastering on,
    /// and gives the pages of the memory-mapped registers that still need
    /// mapping, register by register; mapping them is up to the caller,
    /// which stops at the first failure.
    pub fn map_bar(&mut self) -> (pages: Vec<PageMapping>)
        requires
            forall|i: int| 0 <= i < 6 ==> bar_fits(#[trigger] old(self).base_addresses@[i]),
        ensures
            ({
                let w = old(self).config_space.words_view();
                let csr = w[STATUS_COMMAND as int / 4] & STATUS_COMMAND_ALL;
                final(self).config_space.words_view()
                    == w.update(STATUS_COMMAND as int / 4, (csr & !MEMORY_SPACE & !IO_SPACE) | MEMORY_SPACE | IO_SPACE | BUS_MASTER)
            }),
            final(self).config_space.readback_view() == old(self).config_space.readback_view(),
            final(self).base_addresses == old(self).base_addresses,
            pages@ == map_plan(old(self).base_addresses@),
    {
        proof { use_type_invariant(&self.config_space); }
        let ghost w0 = self.config_space.words_view();
        let mut csr = self.read_status_command();
        csr.set(MEMORY_SPACE, false);
        csr.set(IO_SPACE, false);
        self.write_status_command(csr);
        csr.set(MEMORY_SPACE, true);
        csr.set(IO_SPACE, true);
        csr.set(BUS_MASTER, true);
        self.write_status_command(csr);
        assert(self.config_space.words_view() =~= w0.update(STATUS_COMMAND as int / 4, csr.bits));

        let ghost bars = self.base_addresses@;
        let mut pages: Vec<PageMapping> = Vec::new();
        let mut i: usize = 0;
        while i < 6
            invariant
                i <= 6,
                bars == self.base_addresses@,
                bars.len() == 6,
                forall|j: int| 0 <= j < 6 ==> bar_fits(#[trigger] bars[j]),
                pages@ == map_plan(bars.take(i as int)),
            decreases 6 - i,
        {
            let part = plan_bar(&self.base_addresses[i]);
            proof {
                assert(bars.take(i + 1).drop_last() =~= bars.take(i as int));
            }
            let mut k: usize = 0;
            let ghost start = pages@;
            while k < part.len()
                invariant
                    k <= part@.len(),
                    pages@ == start + part@.take(k as int),
                decreases part@.len() - k,
            {
                pages.push(part[k]);
                k += 1;
                assert(pages@ =~= start + part@.take(k as int));
            }
            assert(part@.take(part@.len() as int) =~= part@);
            i += 1;
        }
        assert(bars.take(6) =~= bars);
        pages
    }
}


/// Vendor IDs the drivers are chosen by.
pub const INTEL_VENDOR_ID: u16 = 0x8086;
pub const VIRTIO_VENDOR_ID: u16 = 0x1AF4;

/// The driver that takes a function.
#[derive(Debug, Clone, Copy, PartialEq, Eq, Structural)]
pub enum DriverKind {
    Intel,
    Virtio,
    Nvme,
    /// No driver: the function is recorded as an unknown device.
    Unknown,
}

/// Whether `class` is an NVM Express I/O controller (mass storage,
/// non-volatile memory, NVMe interface).
pub open spec fn is_nvme_class(class: PCIeClass) -> bool {
    class.class_code == 0x01 && class.subclass == 0x08 && class.interface == 0x02
}

/// The driver for a function of `vendor` and `class`: by vendor for Intel
/// and virtio; an NVMe controller of another vendor gets the NVMe driver;
/// everything else none.
pub open spec fn spec_driver_kind(vendor: u16, class: PCIeClass) -> DriverKind {
    if vendor == INTEL_VENDOR_ID {
        DriverKind::Intel
    } else if vendor == VIRTIO_VENDOR_ID {
        DriverKind::Virtio
    } else if is_nvme_class(class) {
        DriverKind::Nvme
    } else {
        DriverKind::Unknown
    }
}

/// A function no driver takes, by its address and identity.
#[derive(Debug, Clone, Copy, PartialEq, Eq, Structural)]
pub struct UnknownDevice {
    pub segment_group: u16,
    pub bus_number: u8,
    pub device_number: u8,
    pub function_number: u8,
    pub vendor: u16,
    pub id: u16,
    pub pcie_class: PCIeClass,
}

/// What took a function: a driver, by the name it gives the device, or
/// nothing (an unknown device).
pub enum AttachedDevice {
    Driver(String),
    Unknown(UnknownDevice),
}

/// The unknown device recorded for `info`.
pub open spec fn unknown_of(info: PCIeInfo) -> UnknownDevice {
    UnknownDevice {
        segment_group: info.segment_group,
        bus_number: info.bus_number,
        device_number: info.device_number,
        function_number: info.function_number,
        vendor: info.vendor,
        id: info.id,
        pcie_class: info.pcie_class,
    }
}

/// A driver attach routine accepts every function.
pub open spec fn driver_total<F: Fn(DriverKind, PCIeInfo) -> Result<String, PCIeDeviceErr>>(f: F) -> bool {
    forall|k: DriverKind, i: PCIeInfo| #[trigger] f.requires((k, i))
}

/// The outcome of attaching `info` with the driver routine `f`.
pub open spec fn attach_outcome<F: Fn(DriverKind, PCIeInfo) -> Result<String, PCIeDeviceErr>>(
    info: PCIeInfo, f: F, r: Result<AttachedDevice, PCIeDeviceErr>,
) -> bool {
    let kind = spec_driver_kind(info.vendor, info.pcie_class);
    if kind == DriverKind::Unknown {
        r matches Ok(AttachedDevice::Unknown(u)) && u == unknown_of(info)
    } else {
        match r {
            Ok(AttachedDevice::Driver(name)) => f.ensures((kind, info), Ok(name)),
            Ok(AttachedDevice::Unknown(_)) => false,
            Err(e) => f.ensures((kind, info), Err(e)),
        }
    }
}

impl PCIeInfo {
    /// The driver for this function.
    pub fn driver_kind(&self) -> (k: DriverKind)
        ensures
            k == spec_driver_kind(self.vendor, self.pcie_class),
    {
        if self.vendor == INTEL_VENDOR_ID {
            DriverKind::Intel
        } else if self.vendor == VIRTIO_VENDOR_ID {
            DriverKind::Virtio
        } else if self.pcie_class.class_code == 0x01 && self.pcie_class.subclass == 0x08 && self.pcie_class.interface == 0x02 {
            DriverKind::Nvme
        } else {
            DriverKind::Unknown
        }
    }

    /// The unknown device recorded for this function.
    pub fn unknown_device(self) -> (u: UnknownDevice)
        ensures
            u == unknown_of(self),
    {
        UnknownDevice {
            segment_group: self.segment_group,
            bus_number: self.bus_number,
            device_number: self.device_number,
            function_number: self.function_number,
            vendor: self.vendor,
            id: self.id,
            pcie_class: self.pcie_class,
        }
    }

    /// Hands the function to its driver through `driver_attach`, or records
    /// it as an unknown device when no driver takes it.
    pub fn attach<F: Fn(DriverKind, PCIeInfo) -> Result<String, PCIeDeviceErr>>(self, driver_attach: &F) -> (r: Result<AttachedDevice, PCIeDeviceErr>)
        requires
            driver_total(*driver_attach),
        ensures
            attach_outcome(self, *driver_attach, r),
    {
        let kind = self.driver_kind();
        match kind {
            DriverKind::Unknown => Ok(AttachedDevice::Unknown(self.unknown_device())),
            _ => {
                let ghost info = self;
                assert(driver_attach.requires((kind, self)));
                match driver_attach(kind, self) {
                    Ok(name) => Ok(AttachedDevice::Driver(name)),
                    Err(e) => Err(e),
                }
            },
        }
    }
}

/// `n` is child `o` after attaching: an unattached function is attached, or
/// left attaching when its driver failed; a bus keeps its number and its
/// devices are attached in turn; any other child is left attaching.
pub open spec fn child_attached<F: Fn(DriverKind, PCIeInfo) -> Result<String, PCIeDeviceErr>>(o: ChildDevice, n: ChildDevice, f: F) -> bool
    decreases o,
{
    match (o, n) {
        (ChildDevice::Unattached(i), ChildDevice::Attached(a)) => attach_outcome(*i, f, Ok(a)),
        (ChildDevice::Unattached(i), ChildDevice::Attaching) =>
            exists|e: PCIeDeviceErr| attach_outcome(*i, f, Err(e)),
        (ChildDevice::Bus(ob), ChildDevice::Bus(nb)) => bus_attached(*ob, *nb, f),
        (ChildDevice::Attached(_), ChildDevice::Attaching) => true,
        (ChildDevice::Attaching, ChildDevice::Attaching) => true,
        _ => false,
    }
}

/// `n` is bus `o` after attaching: bridge forwarding enabled (see
/// `enable_bridge_forwarding`) and every device attached in order.
pub open spec fn bus_attached<F: Fn(DriverKind, PCIeInfo) -> Result<String, PCIeDeviceErr>>(o: PCIeBus, n: PCIeBus, f: F) -> bool
    decreases o,
{
    &&& n.segment_group == o.segment_group
    &&& n.bus_number == o.bus_number
    &&& n.base_address == o.base_address
    &&& forwarding_enabled(o.info, n.info)
    &&& n.devices@.len() == o.devices@.len()
    &&& forall|k: int| 0 <= k < o.devices@.len() ==> {
        proof {
            assert(decreases_to!(o => o.devices));
            assert(decreases_to!(o.devices => o.devices@));
            assert(decreases_to!(o.devices@ => o.devices@[k]));
        }
        child_attached(#[trigger] o.devices@[k], n.devices@[k], f)
    }
}

/// `n` is bridge information `o` after `enable_bridge_forwarding`.
pub open spec fn forwarding_enabled(o: Option<PCIeInfo>, n: Option<PCIeInfo>) -> bool {
    match o {
        None => n is None,
        Some(info) => {
            let w = info.config_space.words_view();
            let csr = w[STATUS_COMMAND as int / 4] & STATUS_COMMAND_ALL;
            let on = csr | BUS_MASTER | MEMORY_SPACE | IO_SPACE;
            &&& n is Some
            &&& n.unwrap().config_space.words_view() == (if on != csr { w.update(STATUS_COMMAND as int / 4, on) } else { w })
        },
    }
}


/// Attaches a child (see `child_attached`).
fn attached_child<F: Fn(DriverKind, PCIeInfo) -> Result<String, PCIeDeviceErr>>(c: ChildDevice, f: &F) -> (r: ChildDevice)
    requires
        driver_total(*f),
    ensures
        child_attached(c, r, *f),
    decreases c, 0int,
{
    let ghost whole = c;
    match c {
        ChildDevice::Bus(b) => {
            proof { assert(decreases_to!(whole => *b)); }
            ChildDevice::Bus(Box::new(attached_bus(*b, f)))
        },
        ChildDevice::Unattached(info) => {
            match (*info).attach(f) {
                Ok(a) => ChildDevice::Attached(a),
                Err(e) => ChildDevice::Attaching,
            }
        },
        _ => ChildDevice::Attaching,
    }
}

/// Attaches a bus (see `bus_attached`).
fn attached_bus<F: Fn(DriverKind, PCIeInfo) -> Result<String, PCIeDeviceErr>>(b: PCIeBus, f: &F) -> (r: PCIeBus)
    requires
        driver_total(*f),
    ensures
        bus_attached(b, r, *f),
    decreases b, 1int,
{
    let ghost whole = b;
    let mut fwd = b;
    fwd.enable_bridge_forwarding();
    let PCIeBus { segment_group, bus_number, base_address, info, devices } = fwd;
    let ghost all = devices@;
    proof { assert(all == whole.devices@); }
    let mut rest = devices;
    let mut out: Vec<ChildDevice> = Vec::new();
    let n = rest.len();
    let mut i: usize = 0;
    while i < n
        invariant
            driver_total(*f),
            whole == b,
            n == all.len(),
            all == whole.devices@,
            i <= n,
            rest@ == all.skip(i as int),
            out@.len() == i,
            forall|k: int| 0 <= k < i ==> child_attached(#[trigger] all[k], out@[k], *f),
        decreases n - i,
    {
        let child = rest.remove(0);
        proof {
            assert(child == all[i as int]);
            assert(rest@ =~= all.skip(i + 1));
            assert(decreases_to!(whole => whole.devices));
            assert(decreases_to!(whole.devices => whole.devices@));
            assert(decreases_to!(whole.devices@ => whole.devices@[i as int]));
        }
        let updated = attached_child(child, f);
        out.push(updated);
        i += 1;
    }
    let r = PCIeBus { segment_group, bus_number, base_address, info, devices: out };
    proof {
        assert forall|k: int| 0 <= k < whole.devices@.len() implies child_attached(#[trigger] whole.devices@[k], r.devices@[k], *f) by {
            assert(all[k] == whole.devices@[k]);
        }
    }
    r
}

impl ChildDevice {
    /// Attaches the child: a bus attaches its devices; an unattached function
    /// is handed to its driver and is attached, or left attaching when the
    /// driver fails; any other child is left attaching.
    pub fn attach<F: Fn(DriverKind, PCIeInfo) -> Result<String, PCIeDeviceErr>>(&mut self, f: &F)
        requires
            driver_total(*f),
        ensures
            child_attached(*old(self), *final(self), *f),
    {
        let mut c = ChildDevice::Attaching;
        std::mem::swap(&mut c, self);
        *self = attached_child(c, f);
    }
}

impl PCIeBus {
    /// Enables bridge forwarding, then attaches every device of the bus.
    pub fn attach<F: Fn(DriverKind, PCIeInfo) -> Result<String, PCIeDeviceErr>>(&mut self, f: &F)
        requires
            driver_total(*f),
        ensures
            bus_attached(*old(self), *final(self), *f),
    {
        let mut b = PCIeBus::new(0, 0, None, None);
        std::mem::swap(&mut b, self);
        *self = attached_bus(b, f);
    }
}

impl PCIeTree {
    /// Attaches every bus of the tree, in bus order.
    pub fn attach<F: Fn(DriverKind, PCIeInfo) -> Result<String, PCIeDeviceErr>>(&mut self, f: &F)
        requires
            old(self).wf(),
            driver_total(*f),
        ensures
            final(self).wf(),
            final(self).tree@.len() == old(self).tree@.len(),
            forall|i: int| 0 <= i < old(self).tree@.len() ==> bus_attached(#[trigger] old(self).tree@[i], final(self).tree@[i], *f),
    {
        let mut rest: Vec<PCIeBus> = Vec::new();
        std::mem::swap(&mut rest, &mut self.tree);
        let ghost all = rest@;
        let n = rest.len();
        let mut out: Vec<PCIeBus> = Vec::new();
        let mut i: usize = 0;
        while i < n
            invariant
                driver_total(*f),
                n == all.len(),
                all == old(self).tree@,
                strictly_increasing(bus_numbers(all)),
                i <= n,
                rest@ == all.skip(i as int),
                out@.len() == i,
                forall|k: int| 0 <= k < i ==> bus_attached(#[trigger] all[k], out@[k], *f),
            decreases n - i,
        {
            let bus = rest.remove(0);
            proof {
                assert(bus == all[i as int]);
                assert(rest@ =~= all.skip(i + 1));
            }
            out.push(attached_bus(bus, f));
            i += 1;
        }
        assert(bus_numbers(out@) =~= bus_numbers(all));
        self.tree = out;
    }
}

} // verus!
