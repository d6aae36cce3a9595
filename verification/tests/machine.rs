use chip::chip::{Chip, Error};
use chip::display::Display;
use chip::ram::Addr;
use chip::stack::Addr as SAddr;

#[test]
fn load_and_add() {
    let mut c = Chip::new(&vec![0x60, 0x05, 0x70, 0x03]);
    assert_eq!(c.pc(), 0x200);
    c.step().unwrap();
    c.step().unwrap();
    assert_eq!(c.reg(0), 8);
    assert_eq!(c.pc(), 0x204);
}

#[test]
fn constant_add_wraps_without_flag() {
    let mut c = Chip::new(&vec![0x60, 0xFF, 0x6F, 0x05, 0x70, 0x03]);
    c.step().unwrap();
    c.step().unwrap();
    c.step().unwrap();
    assert_eq!(c.reg(0), 0x02);
    assert_eq!(c.reg(0xF), 0x05);
}

#[test]
fn font_and_program_layout() {
    let c = Chip::new(&vec![0xAA, 0xBB]);
    assert_eq!(c.mem(0x000), 0xF0);
    assert_eq!(c.mem(0x004), 0xF0);
    assert_eq!(c.mem(0x005), 0x20);
    assert_eq!(c.mem(0x04F), 0x80);
    assert_eq!(c.mem(0x050), 0x00);
    assert_eq!(c.mem(0x1FF), 0x00);
    assert_eq!(c.mem(0x200), 0xAA);
    assert_eq!(c.mem(0x201), 0xBB);
    assert_eq!(c.mem(0x202), 0x00);
}

#[test]
fn system_call_is_ignored() {
    let mut c = Chip::new(&vec![0x02, 0x22]);
    c.step().unwrap();
    assert_eq!(c.pc(), 0x202);
}

#[test]
fn call_then_ret() {
    let mut c = Chip::new(&vec![0x22, 0x04, 0x00, 0x00, 0x00, 0xEE]);
    assert_eq!(c.sp(), 0);
    c.step().unwrap();
    assert_eq!(c.pc(), 0x204);
    assert_eq!(c.sp(), 1);
    c.step().unwrap();
    assert_eq!(c.pc(), 0x202);
    assert_eq!(c.sp(), 0);
}

#[test]
fn stack_overflow_on_seventeenth_call() {
    let mut prog: Vec<u8> = Vec::new();
    for i in 0..17u16 {
        let target = 0x200 + 2 * (i + 1);
        prog.push(0x20 | (target >> 8) as u8);
        prog.push((target & 0xFF) as u8);
    }
    let mut c = Chip::new(&prog);
    for i in 0..16u8 {
        assert_eq!(c.step(), Ok(()));
        assert_eq!(c.sp(), i + 1);
    }
    let pc_before = c.pc();
    assert_eq!(c.step(), Err(Error::StackOverflow));
    assert_eq!(c.sp(), 16);
    assert_eq!(c.pc(), pc_before);
}

#[test]
fn stack_underflow_on_ret() {
    let mut c = Chip::new(&vec![0x00, 0xEE]);
    assert_eq!(c.step(), Err(Error::StackUnderflow));
    assert_eq!(c.pc(), 0x200);
}

#[test]
fn add_register_carry() {
    let mut c = Chip::new(&vec![0x60, 0xFF, 0x61, 0x01, 0x80, 0x14]);
    c.step().unwrap();
    c.step().unwrap();
    c.step().unwrap();
    assert_eq!(c.reg(0), 0x00);
    assert_eq!(c.reg(0xF), 1);

    let mut c = Chip::new(&vec![0x60, 0x01, 0x61, 0x01, 0x80, 0x14]);
    c.step().unwrap();
    c.step().unwrap();
    c.step().unwrap();
    assert_eq!(c.reg(0), 0x02);
    assert_eq!(c.reg(0xF), 0);
}

#[test]
fn sub_and_subn_flags() {
    let mut c = Chip::new(&vec![0x60, 0x05, 0x61, 0x0A, 0x80, 0x15]);
    c.step().unwrap();
    c.step().unwrap();
    c.step().unwrap();
    assert_eq!(c.reg(0), 0xFB);
    assert_eq!(c.reg(0xF), 0);

    let mut c = Chip::new(&vec![0x60, 0x05, 0x61, 0x0A, 0x80, 0x17]);
    c.step().unwrap();
    c.step().unwrap();
    c.step().unwrap();
    assert_eq!(c.reg(0), 0x05);
    assert_eq!(c.reg(0xF), 1);
}

#[test]
fn shifts_record_the_outgoing_bit() {
    let mut c = Chip::new(&vec![0x60, 0x05, 0x80, 0x06]);
    c.step().unwrap();
    c.step().unwrap();
    assert_eq!(c.reg(0), 0x02);
    assert_eq!(c.reg(0xF), 1);

    let mut c = Chip::new(&vec![0x60, 0x81, 0x80, 0x0E]);
    c.step().unwrap();
    c.step().unwrap();
    assert_eq!(c.reg(0), 0x02);
    assert_eq!(c.reg(0xF), 1);
}

#[test]
fn bitwise_ops() {
    let mut c = Chip::new(&vec![0x60, 0x0C, 0x61, 0x0A, 0x80, 0x11]);
    c.step().unwrap();
    c.step().unwrap();
    c.step().unwrap();
    assert_eq!(c.reg(0), 0x0E);

    let mut c = Chip::new(&vec![0x60, 0x0C, 0x61, 0x0A, 0x80, 0x12]);
    c.step().unwrap();
    c.step().unwrap();
    c.step().unwrap();
    assert_eq!(c.reg(0), 0x08);

    let mut c = Chip::new(&vec![0x60, 0x0C, 0x61, 0x0A, 0x80, 0x13]);
    c.step().unwrap();
    c.step().unwrap();
    c.step().unwrap();
    assert_eq!(c.reg(0), 0x06);

    let mut c = Chip::new(&vec![0x61, 0x0A, 0x80, 0x10]);
    c.step().unwrap();
    c.step().unwrap();
    assert_eq!(c.reg(0), 0x0A);
}

#[test]
fn skips_on_constants_and_registers() {
    let mut c = Chip::new(&vec![0x60, 0x05, 0x30, 0x05]);
    c.step().unwrap();
    c.step().unwrap();
    assert_eq!(c.pc(), 0x206);

    let mut c = Chip::new(&vec![0x60, 0x05, 0x40, 0x05]);
    c.step().unwrap();
    c.step().unwrap();
    assert_eq!(c.pc(), 0x204);

    let mut c = Chip::new(&vec![0x60, 0x05, 0x61, 0x05, 0x50, 0x10]);
    c.step().unwrap();
    c.step().unwrap();
    c.step().unwrap();
    assert_eq!(c.pc(), 0x208);

    let mut c = Chip::new(&vec![0x60, 0x05, 0x61, 0x05, 0x90, 0x10]);
    c.step().unwrap();
    c.step().unwrap();
    c.step().unwrap();
    assert_eq!(c.pc(), 0x206);
}

#[test]
fn jumps() {
    let mut c = Chip::new(&vec![0x12, 0x08]);
    c.step().unwrap();
    assert_eq!(c.pc(), 0x208);

    let mut c = Chip::new(&vec![0x60, 0x04, 0xB3, 0x00]);
    c.step().unwrap();
    c.step().unwrap();
    assert_eq!(c.pc(), 0x304);
}

#[test]
fn draw_twice_restores_and_collides() {
    let mut c = Chip::new(&vec![0xA0, 0x00, 0x60, 0x03, 0x61, 0x05, 0xD0, 0x15, 0xD0, 0x15]);
    c.step().unwrap();
    c.step().unwrap();
    c.step().unwrap();
    c.step().unwrap();
    assert_eq!(c.reg(0xF), 0);
    let fb = c.render();
    // glyph 0 is 0xF0 0x90 0x90 0x90 0xF0: 14 set bits, all toggled on
    assert_eq!(fb.len(), 14);
    assert!(fb.iter().all(|&(_, _, set)| set));
    assert!(fb.iter().any(|&(x, y, _)| x == 3 && y == 5));
    c.step().unwrap();
    assert_eq!(c.reg(0xF), 1);
    let fb2 = c.render();
    assert_eq!(fb2.len(), 14);
    assert!(fb2.iter().all(|&(_, _, set)| !set));
}

#[test]
fn draw_wraps_around_the_edges() {
    // one-row sprite 0xF0 drawn at (62, 31): wraps to columns 62,63,0,1
    let mut c = Chip::new(&vec![0xA2, 0x08, 0x60, 0x3E, 0x61, 0x1F, 0xD0, 0x11, 0xF0, 0x00]);
    c.step().unwrap();
    c.step().unwrap();
    c.step().unwrap();
    c.step().unwrap();
    let fb = c.render();
    assert_eq!(fb.len(), 4);
    let mut cols: Vec<u8> = fb.iter().map(|&(x, _, _)| x).collect();
    cols.sort();
    assert_eq!(cols, vec![0, 1, 62, 63]);
    assert!(fb.iter().all(|&(_, y, set)| y == 31 && set));
}

#[test]
fn clear_screen_marks_dirty() {
    let mut c = Chip::new(&vec![0xA0, 0x00, 0xD0, 0x05, 0x00, 0xE0]);
    c.step().unwrap();
    c.step().unwrap();
    let _ = c.render();
    c.step().unwrap();
    let fb = c.render();
    assert_eq!(fb.len(), 14);
    assert!(fb.iter().all(|&(_, _, set)| !set));
}

#[test]
fn timers_saturate_at_zero() {
    let p: Vec<u8> = Vec::new();
    let mut c = Chip::new(&p);
    assert_eq!(c.dt(), 0);
    assert_eq!(c.st(), 0);
    c.tick();
    assert_eq!(c.dt(), 0);
    assert_eq!(c.st(), 0);

    let mut c = Chip::new(&vec![0x60, 0x02, 0xF0, 0x15, 0xF0, 0x18]);
    c.step().unwrap();
    c.step().unwrap();
    c.step().unwrap();
    assert_eq!(c.dt(), 2);
    assert_eq!(c.st(), 2);
    c.tick();
    assert_eq!(c.dt(), 1);
    c.tick();
    assert_eq!(c.dt(), 0);
    c.tick();
    assert_eq!(c.dt(), 0);
    assert_eq!(c.st(), 0);
}

#[test]
fn delay_timer_round_trip() {
    let mut c = Chip::new(&vec![0x60, 0x07, 0xF0, 0x15, 0xF1, 0x07]);
    c.step().unwrap();
    c.step().unwrap();
    c.step().unwrap();
    assert_eq!(c.reg(1), 7);
}

#[test]
fn key_wait_retries_until_key() {
    let mut c = Chip::new(&vec![0xF3, 0x0A]);
    c.step().unwrap();
    assert_eq!(c.pc(), 0x200);
    c.step().unwrap();
    assert_eq!(c.pc(), 0x200);
    c.set_key(0x07);
    c.step().unwrap();
    assert_eq!(c.pc(), 0x202);
    assert_eq!(c.reg(3), 0x07);
}

#[test]
fn key_skips_consume_the_latch() {
    let mut c = Chip::new(&vec![0x60, 0x04, 0xE0, 0x9E, 0x00, 0x00, 0xE0, 0xA1]);
    c.step().unwrap();
    c.set_key(4);
    c.step().unwrap();
    assert_eq!(c.pc(), 0x206);
    // the latch was consumed by the skip, so skip-if-not-pressed skips
    c.step().unwrap();
    assert_eq!(c.pc(), 0x20A);
}

#[test]
fn clear_key_empties_the_latch() {
    let mut c = Chip::new(&vec![0xE0, 0x9E]);
    c.set_key(0);
    c.clear_key();
    c.step().unwrap();
    assert_eq!(c.pc(), 0x202);
}

#[test]
fn random_is_masked() {
    let mut c = Chip::new(&vec![0xC0, 0x00]);
    c.step().unwrap();
    assert_eq!(c.reg(0), 0);

    let mut c = Chip::new(&vec![0xC5, 0x0F]);
    c.step_with(0xAB).unwrap();
    assert_eq!(c.reg(5), 0x0B);
}

#[test]
fn bcd_store() {
    let mut c = Chip::new(&vec![0x60, 0xEA, 0xA3, 0x00, 0xF0, 0x33]);
    c.step().unwrap();
    c.step().unwrap();
    c.step().unwrap();
    assert_eq!(c.mem(0x300), 2);
    assert_eq!(c.mem(0x301), 3);
    assert_eq!(c.mem(0x302), 4);
}

#[test]
fn block_store_and_load_advance_index() {
    let mut c = Chip::new(&vec![
        0x60, 0x01, 0x61, 0x02, 0x62, 0x03, 0xA3, 0x00, 0xF2, 0x55, 0xA3, 0x00, 0x60, 0x00, 0x61,
        0x00, 0xF1, 0x65,
    ]);
    for _ in 0..5 {
        c.step().unwrap();
    }
    assert_eq!(c.mem(0x300), 1);
    assert_eq!(c.mem(0x301), 2);
    assert_eq!(c.mem(0x302), 3);
    assert_eq!(c.idx(), 0x303);
    for _ in 0..4 {
        c.step().unwrap();
    }
    assert_eq!(c.reg(0), 1);
    assert_eq!(c.reg(1), 2);
    assert_eq!(c.reg(2), 3);
    assert_eq!(c.idx(), 0x302);
}

#[test]
fn font_glyph_address() {
    let mut c = Chip::new(&vec![0x60, 0x0A, 0xF0, 0x29]);
    c.step().unwrap();
    c.step().unwrap();
    assert_eq!(c.idx(), 50);
}

#[test]
fn index_register_add() {
    let mut c = Chip::new(&vec![0xA1, 0x00, 0x60, 0x23, 0xF0, 0x1E]);
    c.step().unwrap();
    c.step().unwrap();
    c.step().unwrap();
    assert_eq!(c.idx(), 0x123);
}

#[test]
fn address_range_errors_leave_state_alone() {
    let mut c = Chip::new(&vec![0xAF, 0xFF, 0x60, 0xFF, 0xF0, 0x1E]);
    c.step().unwrap();
    c.step().unwrap();
    assert_eq!(c.step(), Err(Error::AddressRange));
    assert_eq!(c.idx(), 0xFFF);
    assert_eq!(c.pc(), 0x204);

    let mut c = Chip::new(&vec![0x60, 0xFF, 0xBF, 0xFF]);
    c.step().unwrap();
    assert_eq!(c.step(), Err(Error::AddressRange));
    assert_eq!(c.pc(), 0x202);
}

#[test]
fn decode_error_carries_the_opcode() {
    let mut c = Chip::new(&vec![0xFF, 0xFF]);
    assert_eq!(c.step(), Err(Error::Decode(0xFFFF)));
    assert_eq!(c.pc(), 0x200);

    let mut c = Chip::new(&vec![0x5A, 0xB1]);
    assert_eq!(c.step(), Err(Error::Decode(0x5AB1)));
}

#[test]
fn addr_offset_is_range_checked() {
    let a = Addr(0x200);
    assert_eq!(a.offset(1), Some(Addr(0x201)));
    assert_eq!(a.offset(-0x200), Some(Addr(0)));
    assert_eq!(a.offset(-0x201), None);
    assert_eq!(a.offset(0xE00), None);
    assert_eq!(a.offset(0xDFF), Some(Addr(0xFFF)));
}

#[test]
fn stack_pointer_steps() {
    let mut sp = SAddr(0);
    sp.inc();
    assert_eq!(sp, SAddr(1));
    sp.dec();
    assert_eq!(sp, SAddr(0));
}

#[test]
fn display_toggle_reports_prior_state() {
    let mut d = Display::new();
    assert_eq!(d.toggle(3, 4), 0);
    assert_eq!(d.toggle(3, 4), 1);
    // coordinates wrap: (67, 36) is (3, 4) again
    assert_eq!(d.toggle(67, 36), 0);
    let out = d.drain();
    assert_eq!(out.len(), 3);
    assert_eq!((out[2].0, out[2].1), (3, 4));
    assert!(out[2].2);
    assert!(d.drain().is_empty());
}

#[test]
fn display_clear_reports_lit_pixels() {
    let mut d = Display::new();
    d.toggle(1, 2);
    d.toggle(5, 6);
    d.toggle(5, 6);
    let _ = d.drain();
    d.clear();
    let out = d.drain();
    assert_eq!(out.len(), 1);
    assert_eq!((out[0].0, out[0].1), (1, 2));
    assert!(!out[0].2);
}

#[test]
fn fetch_at_the_memory_edge() {
    // jumping to 0xFFE fetches 0x0000 (a system call), but the counter
    // cannot advance past the end of memory
    let mut c = Chip::new(&vec![0x1F, 0xFE]);
    c.step().unwrap();
    assert_eq!(c.pc(), 0xFFE);
    assert_eq!(c.step(), Err(Error::AddressRange));
    assert_eq!(c.pc(), 0xFFE);

    // jumping to 0xFFF leaves no room for the opcode's second byte
    let mut c = Chip::new(&vec![0x1F, 0xFF]);
    c.step().unwrap();
    assert_eq!(c.step(), Err(Error::AddressRange));
}

#[test]
fn memory_writes_are_range_checked() {
    // a two-row sprite read at I = 0xFFF would run past memory
    let mut c = Chip::new(&vec![0xAF, 0xFF, 0xD0, 0x02]);
    c.step().unwrap();
    assert_eq!(c.step(), Err(Error::AddressRange));
    assert_eq!(c.pc(), 0x202);

    // the three decimal digits at I = 0xFFE would run past memory
    let mut c = Chip::new(&vec![0xAF, 0xFE, 0xF0, 0x33]);
    c.step().unwrap();
    assert_eq!(c.step(), Err(Error::AddressRange));

    // a block of two registers at I = 0xFFE would leave the index
    // register out of range
    let mut c = Chip::new(&vec![0xAF, 0xFE, 0xF1, 0x55]);
    c.step().unwrap();
    assert_eq!(c.step(), Err(Error::AddressRange));
}
