use qcow2_engine::interface::{BDSBacklink, BDSCommon, BDSOpaque, BDSOpaqueLink};
use qcow2_engine::memory::{DeviceEndian, MemoryRegionOpsBuilder};
use qcow2_engine::pcf8574::PCF8574Inner;
use qcow2_engine::pl011::{
    Control, Data, Flags, LineControl, Mode, PL011State, ReceiveStatusErrorClear, RegisterOffset, CHR_EVENT_BREAK,
    DATA_BREAK,
};

fn uart() -> PL011State {
    PL011State {
        readbuff: 0,
        flags: Flags { bits: 0 },
        line_control: LineControl { bits: 0 },
        receive_status_error_clear: ReceiveStatusErrorClear { bits: 0 },
        control: Control { bits: 0 },
        dmacr: 0,
        int_enabled: 0,
        int_level: 0,
        read_fifo: vec![0; 16],
        ilpr: 0,
        ibrd: 0,
        fbrd: 0,
        ifl: 0,
        read_pos: 0,
        read_count: 0,
        read_trigger: 1,
    }
}

#[test]
fn pl011_reset_values() {
    let mut s = uart();
    s.dmacr = 3;
    s.read_count = 1;
    s.reset();
    assert_eq!(s.flags.bits, 0x90);
    assert_eq!(s.control.bits, 0x300);
    assert_eq!(s.ifl, 0x12);
    assert_eq!(s.read_trigger, 1);
    assert_eq!(s.read_count, 0);
    assert_eq!(s.dmacr, 0);
}

#[test]
fn pl011_fifo_depth_and_break() {
    let mut s = uart();
    s.reset();
    assert!(!s.fifo_enabled());
    assert_eq!(s.fifo_depth(), 1);
    assert!(s.can_receive());
    s.event(CHR_EVENT_BREAK);
    assert_eq!(s.read_fifo[0], DATA_BREAK);
    assert_eq!(s.read_count, 1);
    assert_eq!(s.receive_status_error_clear.bits, 4);
    assert_eq!(s.flags.bits & 0x10, 0);
    assert_eq!(s.flags.bits & 0x40, 0x40);
    assert!(!s.can_receive());
    s.line_control = LineControl { bits: 0x10 };
    assert_eq!(s.line_control.fifos_enabled(), Mode::FIFO);
    assert_eq!(s.fifo_depth(), 16);
    assert!(s.can_receive());
    s.control = Control { bits: 0x80 };
    assert!(s.loopback_enabled());
}

#[test]
fn pl011_registers() {
    assert_eq!(RegisterOffset::LCR_H.offset(), 0x2c);
    assert_eq!(RegisterOffset::from_offset(0x48), Some(RegisterOffset::DMACR));
    assert_eq!(RegisterOffset::from_offset(0x4c), None);
    let mut rsr = ReceiveStatusErrorClear { bits: 0x100 };
    rsr.set_from_data(Data { bits: 0x0541 });
    assert_eq!(rsr.bits, 0x105);
    rsr.reset();
    assert_eq!(rsr.bits, 0);
    let mut f = Flags { bits: 0xff };
    f.reset();
    assert_eq!(f.bits, 0x90);
    let mut lc = LineControl { bits: 0x70 };
    lc.reset();
    assert_eq!(lc.bits, 0);
    let mut c = Control { bits: 1 };
    c.reset();
    assert_eq!(c.bits, 0x300);
}

#[test]
fn pcf8574_lines() {
    let mut p = PCF8574Inner { lastrq: 0xff, input: 0xff, output: 0xff };
    assert_eq!(p.line_state(), 0xff);
    assert!(!p.has_state_changed());
    assert_eq!(p.set_output(0x0f), (0xff, 0x0f));
    assert!(p.has_state_changed());
    assert_eq!(p.receive(), (true, 0x0f));
    assert_eq!(p.receive(), (false, 0x0f));
    assert!(p.set_input(0, 0));
    assert_eq!(p.input, 0xfe);
    assert!(!p.set_input(0, 1));
}

#[test]
fn memory_ops_builder() {
    let ops = MemoryRegionOpsBuilder::new().little_endian().valid_sizes(1, 4).impl_sizes(4, 4).valid_unaligned().build();
    assert_eq!(ops.endianness, DeviceEndian::Little);
    assert_eq!(ops.valid.min_access_size, 1);
    assert_eq!(ops.valid.max_access_size, 4);
    assert!(ops.valid.unaligned);
    assert_eq!(ops.impl_.min_access_size, 4);
    assert!(!ops.impl_.unaligned);
    let ops = MemoryRegionOpsBuilder::new().big_endian().impl_unaligned().native_endian().build();
    assert_eq!(ops.endianness, DeviceEndian::Native);
    assert!(ops.impl_.unaligned);
}

#[test]
fn driver_links() {
    let mut c = BDSCommon::new();
    assert!(!c.has_file());
    assert!(!c.has_backing());
    c.set_backlink(BDSBacklink { handle: 7 });
    c.set_file(true);
    assert!(c.has_file());
    assert_eq!(c.backlink(), Some(BDSBacklink { handle: 7 }));
    let link = BDSOpaqueLink { opaque: Some(BDSOpaque { driver_obj: 5u32 }) };
    assert_eq!(link.unwrap().driver_obj, 5);
}
