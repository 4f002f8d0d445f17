use vstd::prelude::*;

verus! {

/// The port state of a PCF8574 8-bit I/O expander: the last line state reported to the bus
/// master, the levels driven from outside, and the output latch.
#[derive(Debug, Clone, Copy, PartialEq, Eq, Structural)]
pub struct PCF8574Inner {
    pub lastrq: u8,
    pub input: u8,
    pub output: u8,
}

/// `value` with bit `start` replaced by the low bit of `field`.
pub open spec fn deposit_bit(value: u8, start: u32, field: u8) -> u8 {
    (value & !((1u8 << (start as u8)) as u8)) | (((field << (start as u8)) as u8) & ((1u8 << (start as u8)) as u8))
}

impl PCF8574Inner {
    /// The state of the port lines: a line is high only where neither side pulls it low.
    pub fn line_state(&self) -> (r: u8)
        ensures
            r == self.input & self.output,
    {
        self.input & self.output
    }

    /// Latches new output levels; returns the line state before and after.
    pub fn set_output(&mut self, data: u8) -> (r: (u8, u8))
        ensures
            *final(self) == (PCF8574Inner { output: data, ..*old(self) }),
            r == (old(self).input & old(self).output, old(self).input & data),
    {
        let prev = self.line_state();
        self.output = data;
        let actual = self.line_state();
        (prev, actual)
    }

    /// Sets input line `start` to the low bit of `value`; returns whether the line state now
    /// differs from the one last reported.
    pub fn set_input(&mut self, start: u32, value: u8) -> (r: bool)
        requires
            start < 8,
        ensures
            *final(self) == (PCF8574Inner { input: deposit_bit(old(self).input, start, value), ..*old(self) }),
            r == (final(self).input & final(self).output != final(self).lastrq),
    {
        let mask: u8 = 1u8 << (start as u8);
        self.input = (self.input & !mask) | ((value << (start as u8)) & mask);
        self.has_state_changed()
    }

    /// Reports the line state to the bus master: records it when it changed since the last
    /// report, and returns whether it changed and the state reported.
    pub fn receive(&mut self) -> (r: (bool, u8))
        ensures
            r.0 == (old(self).input & old(self).output != old(self).lastrq),
            *final(self) == (PCF8574Inner { lastrq: r.1, ..*old(self) }),
            r.1 == (if r.0 { old(self).input & old(self).output } else { old(self).lastrq }),
    {
        let state_changed = self.has_state_changed();
        if state_changed {
            self.lastrq = self.line_state();
        }
        (state_changed, self.lastrq)
    }

    /// Whether the line state differs from the one last reported.
    pub fn has_state_changed(&self) -> (r: bool)
        ensures
            r == (self.input & self.output != self.lastrq),
    {
        self.line_state() != self.lastrq
    }
}

} // verus!
