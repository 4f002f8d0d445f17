use vstd::prelude::*;

verus! {

/// Depth of the receive FIFO when FIFOs are enabled.
pub const PL011_FIFO_DEPTH: usize = 16;
/// A received break: the break error bit of the data register.
pub const DATA_BREAK: u32 = 0x400;
/// Receive interrupt bit of the interrupt status registers.
pub const INT_RX: u32 = 0x10;
/// The character backend event that signals a break.
pub const CHR_EVENT_BREAK: u32 = 0;

/// Offset of each register from the base address of the device.
#[derive(Debug, Clone, Copy, PartialEq, Eq, Structural)]
#[allow(non_camel_case_types)]
pub enum RegisterOffset {
    DR,
    RSR,
    FR,
    FBRD,
    ILPR,
    IBRD,
    LCR_H,
    CR,
    FLS,
    IMSC,
    RIS,
    MIS,
    ICR,
    DMACR,
}

/// The address offset of a register.
pub open spec fn register_offset(r: RegisterOffset) -> u64 {
    match r {
        RegisterOffset::DR => 0x000,
        RegisterOffset::RSR => 0x004,
        RegisterOffset::FR => 0x018,
        RegisterOffset::FBRD => 0x028,
        RegisterOffset::ILPR => 0x020,
        RegisterOffset::IBRD => 0x024,
        RegisterOffset::LCR_H => 0x02C,
        RegisterOffset::CR => 0x030,
        RegisterOffset::FLS => 0x034,
        RegisterOffset::IMSC => 0x038,
        RegisterOffset::RIS => 0x03C,
        RegisterOffset::MIS => 0x040,
        RegisterOffset::ICR => 0x044,
        RegisterOffset::DMACR => 0x048,
    }
}

impl RegisterOffset {
    /// The address offset of the register.
    pub fn offset(&self) -> (r: u64)
        ensures
            r == register_offset(*self),
    {
        match self {
            RegisterOffset::DR => 0x000,
            RegisterOffset::RSR => 0x004,
            RegisterOffset::FR => 0x018,
            RegisterOffset::FBRD => 0x028,
            RegisterOffset::ILPR => 0x020,
            RegisterOffset::IBRD => 0x024,
            RegisterOffset::LCR_H => 0x02C,
            RegisterOffset::CR => 0x030,
            RegisterOffset::FLS => 0x034,
            RegisterOffset::IMSC => 0x038,
            RegisterOffset::RIS => 0x03C,
            RegisterOffset::MIS => 0x040,
            RegisterOffset::ICR => 0x044,
            RegisterOffset::DMACR => 0x048,
        }
    }

    /// The register at an address offset, if there is one.
    pub fn from_offset(offset: u64) -> (r: Option<RegisterOffset>)
        ensures
            r matches Some(reg) ==> register_offset(reg) == offset,
            r.is_none() ==> forall|reg: RegisterOffset| register_offset(reg) != offset,
    {
        let r = match offset {
            0x000 => Some(RegisterOffset::DR),
            0x004 => Some(RegisterOffset::RSR),
            0x018 => Some(RegisterOffset::FR),
            0x028 => Some(RegisterOffset::FBRD),
            0x020 => Some(RegisterOffset::ILPR),
            0x024 => Some(RegisterOffset::IBRD),
            0x02C => Some(RegisterOffset::LCR_H),
            0x030 => Some(RegisterOffset::CR),
            0x034 => Some(RegisterOffset::FLS),
            0x038 => Some(RegisterOffset::IMSC),
            0x03C => Some(RegisterOffset::RIS),
            0x040 => Some(RegisterOffset::MIS),
            0x044 => Some(RegisterOffset::ICR),
            0x048 => Some(RegisterOffset::DMACR),
            _ => None,
        };
        proof {
            if r.is_none() {
                assert forall|reg: RegisterOffset| register_offset(reg) != offset by {
                    match reg {
                        _ => {},
                    }
                }
            }
        }
        r
    }
}

/// The receive error bits shared by the data and receive status registers: framing (bit 0),
/// parity (bit 1), break (bit 2) and overrun (bit 3).
#[derive(Debug, Clone, Copy, PartialEq, Eq, Structural)]
pub struct Errors {
    pub bits: u8,
}

/// The data register: the character in bits 0-7, the receive errors in bits 8-15.
#[derive(Debug, Clone, Copy, PartialEq, Eq, Structural)]
pub struct Data {
    pub bits: u32,
}

impl Data {
    /// The receive errors recorded with the character.
    pub fn errors(&self) -> (r: Errors)
        ensures
            r.bits == ((self.bits >> 8u32) & 0xff) as u8,
    {
        Errors { bits: ((self.bits >> 8u32) & 0xff) as u8 }
    }
}

/// The receive status register: the receive errors of the last character read, in bits 0-7.
#[derive(Debug, Clone, Copy, PartialEq, Eq, Structural)]
pub struct ReceiveStatusErrorClear {
    pub bits: u32,
}

impl ReceiveStatusErrorClear {
    /// Records the errors that came with `data`, leaving the other bits as they are.
    pub fn set_from_data(&mut self, data: Data)
        ensures
            final(self).bits == (old(self).bits & 0xffffff00u32) | ((data.bits >> 8u32) & 0xff),
    {
        let e = data.errors();
        let d = data.bits;
        let eb = e.bits;
        assert(eb as u32 == (d >> 8u32) & 0xff) by (bit_vector)
            requires
                eb == ((d >> 8u32) & 0xff) as u8,
        ;
        self.bits = (self.bits & 0xffffff00u32) | (e.bits as u32);
    }

    /// Sets or clears the break error bit.
    pub fn set_break_error(&mut self, on: bool)
        ensures
            final(self).bits == if on { old(self).bits | 4 } else { old(self).bits & !4u32 },
    {
        if on {
            self.bits = self.bits | 4;
        } else {
            self.bits = self.bits & !4u32;
        }
    }

    /// Clears every bit, as on reset.
    pub fn reset(&mut self)
        ensures
            final(self).bits == 0,
    {
        self.bits = 0;
    }
}

/// The flag register: FIFO fill levels and modem signals. Receive FIFO empty is bit 4,
/// transmit FIFO full bit 5, receive FIFO full bit 6, transmit FIFO empty bit 7.
#[derive(Debug, Clone, Copy, PartialEq, Eq, Structural)]
pub struct Flags {
    pub bits: u32,
}

/// The flag register after reset: both FIFOs empty, nothing else set.
pub open spec fn flags_reset_bits() -> u32 {
    0x90
}

impl Flags {
    /// The flags after reset.
    pub fn new() -> (r: Flags)
        ensures
            r.bits == flags_reset_bits(),
    {
        Flags { bits: 0x90 }
    }

    /// Returns the flags to their state after reset.
    pub fn reset(&mut self)
        ensures
            final(self).bits == flags_reset_bits(),
    {
        self.bits = 0x90;
    }

    /// Sets or clears the receive FIFO empty flag.
    pub fn set_receive_fifo_empty(&mut self, on: bool)
        ensures
            final(self).bits == if on { old(self).bits | 0x10 } else { old(self).bits & !0x10u32 },
    {
        if on {
            self.bits = self.bits | 0x10;
        } else {
            self.bits = self.bits & !0x10u32;
        }
    }

    /// Sets or clears the receive FIFO full flag.
    pub fn set_receive_fifo_full(&mut self, on: bool)
        ensures
            final(self).bits == if on { old(self).bits | 0x40 } else { old(self).bits & !0x40u32 },
    {
        if on {
            self.bits = self.bits | 0x40;
        } else {
            self.bits = self.bits & !0x40u32;
        }
    }
}

/// Parity select of the line control register.
#[derive(Debug, Clone, Copy, PartialEq, Eq, Structural)]
pub enum Parity {
    Odd,
    Even,
}

/// FIFO mode of the line control register.
#[derive(Debug, Clone, Copy, PartialEq, Eq, Structural)]
pub enum Mode {
    /// FIFOs disabled: one-character holding registers.
    Character,
    /// FIFOs enabled.
    FIFO,
}

/// Word length of the line control register.
#[derive(Debug, Clone, Copy, PartialEq, Eq, Structural)]
pub enum WordLength {
    _8Bits,
    _7Bits,
    _6Bits,
    _5Bits,
}

/// The line control register: FIFO enable is bit 4, word length bits 5-6.
#[derive(Debug, Clone, Copy, PartialEq, Eq, Structural)]
pub struct LineControl {
    pub bits: u32,
}

impl LineControl {
    /// Clears every bit, as on reset.
    pub fn reset(&mut self)
        ensures
            final(self).bits == 0,
    {
        self.bits = 0;
    }

    /// Whether the FIFOs are enabled.
    pub fn fifos_enabled(&self) -> (r: Mode)
        ensures
            r == (if self.bits & 0x10 != 0 { Mode::FIFO } else { Mode::Character }),
    {
        if self.bits & 0x10 != 0 {
            Mode::FIFO
        } else {
            Mode::Character
        }
    }

    /// The word length, from bits 5-6.
    pub fn word_length(&self) -> (r: WordLength)
        ensures
            r == match (self.bits >> 5u32) & 3 {
                3 => WordLength::_8Bits,
                2 => WordLength::_7Bits,
                1 => WordLength::_6Bits,
                _ => WordLength::_5Bits,
            },
    {
        match (self.bits >> 5u32) & 3 {
            3 => WordLength::_8Bits,
            2 => WordLength::_7Bits,
            1 => WordLength::_6Bits,
            _ => WordLength::_5Bits,
        }
    }

    /// The parity select, from bit 2.
    pub fn parity(&self) -> (r: Parity)
        ensures
            r == (if self.bits & 4 != 0 { Parity::Even } else { Parity::Odd }),
    {
        if self.bits & 4 != 0 {
            Parity::Even
        } else {
            Parity::Odd
        }
    }
}

/// The control register: loopback is bit 7, transmit enable bit 8, receive enable bit 9.
#[derive(Debug, Clone, Copy, PartialEq, Eq, Structural)]
pub struct Control {
    pub bits: u32,
}

/// The control register after reset: transmit and receive enabled, nothing else.
pub open spec fn control_reset_bits() -> u32 {
    0x300
}

impl Control {
    /// Returns the register to its state after reset.
    pub fn reset(&mut self)
        ensures
            final(self).bits == control_reset_bits(),
    {
        self.bits = 0x300;
    }

    /// Whether loopback is enabled.
    pub fn enable_loopback(&self) -> (r: bool)
        ensures
            r == (self.bits & 0x80 != 0),
    {
        self.bits & 0x80 != 0
    }
}

/// The register state of a PL011 UART.
pub struct PL011State {
    pub readbuff: u32,
    pub flags: Flags,
    pub line_control: LineControl,
    pub receive_status_error_clear: ReceiveStatusErrorClear,
    pub control: Control,
    pub dmacr: u32,
    pub int_enabled: u32,
    pub int_level: u32,
    pub read_fifo: Vec<u32>,
    pub ilpr: u32,
    pub ibrd: u32,
    pub fbrd: u32,
    pub ifl: u32,
    pub read_pos: usize,
    pub read_count: usize,
    pub read_trigger: usize,
}

impl PL011State {
    /// The receive FIFO has its full depth and the read position lies inside it.
    pub open spec fn wf(&self) -> bool {
        &&& self.read_fifo@.len() == PL011_FIFO_DEPTH
        &&& self.read_pos < PL011_FIFO_DEPTH
        &&& self.read_count <= self.fifo_depth_spec()
    }

    /// The FIFO depth: 16 with FIFOs enabled, 1 in character mode.
    pub open spec fn fifo_depth_spec(&self) -> usize {
        if self.line_control.bits & 0x10 != 0 { PL011_FIFO_DEPTH } else { 1 }
    }

    /// Whether the FIFOs are enabled.
    pub fn fifo_enabled(&self) -> (r: bool)
        ensures
            r == (self.line_control.bits & 0x10 != 0),
    {
        match self.line_control.fifos_enabled() {
            Mode::FIFO => true,
            Mode::Character => false,
        }
    }

    /// Whether loopback is enabled.
    pub fn loopback_enabled(&self) -> (r: bool)
        ensures
            r == (self.control.bits & 0x80 != 0),
    {
        self.control.enable_loopback()
    }

    /// The FIFO depth: 16 with FIFOs enabled, 1 in character mode.
    pub fn fifo_depth(&self) -> (r: usize)
        ensures
            r == self.fifo_depth_spec(),
    {
        if self.fifo_enabled() {
            return PL011_FIFO_DEPTH;
        }
        1
    }

    /// Whether the receive FIFO has room for a character.
    pub fn can_receive(&self) -> (r: bool)
        ensures
            r == (self.read_count < self.fifo_depth_spec()),
    {
        self.read_count < self.fifo_depth()
    }

    /// Empties the receive FIFO and returns its flags to their state after reset.
    pub fn reset_fifo(&mut self)
        ensures
            *final(self) == (PL011State {
                read_count: 0,
                read_pos: 0,
                flags: Flags { bits: flags_reset_bits() },
                ..*old(self)
            }),
    {
        self.read_count = 0;
        self.read_pos = 0;
        self.flags.reset();
    }

    /// Returns every register to its state after reset and empties the receive FIFO.
    pub fn reset(&mut self)
        ensures
            final(self).line_control.bits == 0,
            final(self).receive_status_error_clear.bits == 0,
            final(self).dmacr == 0,
            final(self).int_enabled == 0,
            final(self).int_level == 0,
            final(self).ilpr == 0,
            final(self).ibrd == 0,
            final(self).fbrd == 0,
            final(self).read_trigger == 1,
            final(self).ifl == 0x12,
            final(self).control.bits == control_reset_bits(),
            final(self).flags.bits == flags_reset_bits(),
            final(self).read_count == 0,
            final(self).read_pos == 0,
            final(self).read_fifo == old(self).read_fifo,
    {
        self.line_control.reset();
        self.receive_status_error_clear.reset();
        self.dmacr = 0;
        self.int_enabled = 0;
        self.int_level = 0;
        self.ilpr = 0;
        self.ibrd = 0;
        self.fbrd = 0;
        self.read_trigger = 1;
        self.ifl = 0x12;
        self.control.reset();
        self.flags = Flags { bits: 0 };
        self.reset_fifo();
    }

    /// Puts a received value into the receive FIFO and updates the FIFO flags and the
    /// receive interrupt level.
    pub fn put_fifo(&mut self, value: u32)
        requires
            old(self).wf(),
            old(self).read_count < old(self).fifo_depth_spec(),
        ensures
            final(self).wf(),
            ({
                let depth = old(self).fifo_depth_spec();
                let slot = (old(self).read_pos + old(self).read_count) % (depth as int);
                &&& final(self).read_fifo@ == old(self).read_fifo@.update(slot, value)
                &&& final(self).read_count == old(self).read_count + 1
                &&& final(self).read_pos == old(self).read_pos
                &&& final(self).flags.bits == (if final(self).read_count == depth {
                    (old(self).flags.bits & !0x10u32) | 0x40
                } else {
                    old(self).flags.bits & !0x10u32
                })
                &&& final(self).int_level == (if final(self).read_count == old(self).read_trigger {
                    old(self).int_level | INT_RX
                } else {
                    old(self).int_level
                })
                &&& final(self).line_control == old(self).line_control
                &&& final(self).receive_status_error_clear == old(self).receive_status_error_clear
                &&& final(self).control == old(self).control
            }),
    {
        let depth = self.fifo_depth();
        let slot = (self.read_pos + self.read_count) % depth;
        self.read_fifo.set(slot, value);
        self.read_count = self.read_count + 1;
        self.flags.set_receive_fifo_empty(false);
        if self.read_count == depth {
            self.flags.set_receive_fifo_full(true);
        }
        if self.read_count == self.read_trigger {
            self.int_level = self.int_level | INT_RX;
        }
    }

    /// Handles a character backend event: a break in character mode is received as a break
    /// character and recorded in the receive status register.
    pub fn event(&mut self, event: u32)
        requires
            old(self).wf(),
            old(self).read_count < old(self).fifo_depth_spec(),
        ensures
            final(self).wf(),
            (event != CHR_EVENT_BREAK || old(self).line_control.bits & 0x10 != 0) ==> *final(self) == *old(self),
            (event == CHR_EVENT_BREAK && old(self).line_control.bits & 0x10 == 0) ==> {
                &&& final(self).read_count == old(self).read_count + 1
                &&& final(self).read_fifo@ == old(self).read_fifo@.update(
                    (old(self).read_pos + old(self).read_count) % 1,
                    DATA_BREAK,
                )
                &&& final(self).receive_status_error_clear.bits == old(self).receive_status_error_clear.bits | 4
            },
    {
        if event == CHR_EVENT_BREAK && !self.fifo_enabled() {
            self.put_fifo(DATA_BREAK);
            self.receive_status_error_clear.set_break_error(true);
        }
    }
}

} // verus!
