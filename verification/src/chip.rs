//! The execution engine and its specification.
//!
//! Where historical variants of the instruction set disagree, this
//! machine behaves as follows: the shift instructions read and write a
//! single register; the block store and load advance the index register
//! past the transferred block; and the key-skip instructions consume the
//! key latch whenever they execute, whether or not they skip.

use vstd::prelude::*;

use crate::cpu;
use crate::display;
use crate::isa;
use crate::ram;
use crate::stack;

verus! {

/// A fatal condition surfaced by the execution engine. Nothing is retried
/// internally; the caller decides how to react.
#[derive(Copy, Clone, Debug, PartialEq, Eq, Structural)]
pub enum Error {
    /// The opcode's nibble pattern matches no known instruction; carries
    /// the raw opcode.
    Decode(u16),
    /// A call was executed with the stack already at its maximum depth.
    StackOverflow,
    /// A return was executed with the stack pointer already at zero.
    StackUnderflow,
    /// A computed address would fall outside the 12-bit addressable range.
    AddressRange,
}

/// The whole machine as a mathematical value: every contract of the
/// execution engine is stated over this.
pub ghost struct State {
    /// Program counter
    pub pc: int,
    /// Stack pointer: how many return addresses are on the stack
    pub sp: int,
    /// Index register
    pub idx: int,
    /// Delay timer
    pub dt: u8,
    /// Sound timer
    pub st: u8,
    /// The 16 general-purpose registers
    pub regs: Seq<u8>,
    /// The 4096 bytes of memory
    pub ram: Seq<u8>,
    /// The 16 call-stack slots
    pub stack: Seq<u16>,
    /// The latched key, if any
    pub key: Option<u8>,
    /// The framebuffer rows
    pub grid: Seq<u64>,
    /// The dirty pixels not yet drained by a renderer
    pub dirt: Seq<(u8, u8)>,
}

/// The machine invariant: every component within its range.
pub open spec fn state_wf(s: State) -> bool {
    &&& 0 <= s.pc < 0x1000
    &&& 0 <= s.sp <= 16
    &&& 0 <= s.idx < 0x1000
    &&& s.regs.len() == 16
    &&& s.ram.len() == 4096
    &&& s.stack.len() == 16
    &&& (forall|i: int| 0 <= i < 16 ==> s.stack[i] < 0x1000)
    &&& (s.key matches Some(k) ==> k < 16)
    &&& s.grid.len() == 32
    &&& (forall|i: int|
        0 <= i < s.dirt.len() ==> (#[trigger] s.dirt[i]).0 < 64 && s.dirt[i].1 < 32)
}


/// Addition on a register value, wrapping modulo 256.
pub open spec fn wrap_add(a: u8, b: u8) -> u8 {
    ((a + b) % 256) as u8
}

/// Subtraction on a register value, wrapping modulo 256.
pub open spec fn wrap_sub(a: u8, b: u8) -> u8 {
    if a >= b {
        (a - b) as u8
    } else {
        (a - b + 256) as u8
    }
}

/// Whether bit `dx` of a sprite row byte is set; bit 0 is the most
/// significant, drawn leftmost.
pub open spec fn sprite_bit(line: u8, dx: u8) -> bool {
    line & (0x80u8 >> dx) != 0
}

/// The framebuffer row `row` after drawing the sprite bits `dx .. 8` of
/// `line`, whose leftmost bit lands in column `vx` (modulo the width):
/// each set sprite bit toggles its pixel.
pub open spec fn row_draw(row: u64, line: u8, vx: int, dx: u8) -> u64
    decreases 8 - dx,
{
    if dx >= 8 {
        row
    } else if sprite_bit(line, dx) {
        row_draw(row ^ display::msb_mask((vx + dx) % 64), line, vx, (dx + 1) as u8)
    } else {
        row_draw(row, line, vx, (dx + 1) as u8)
    }
}

/// Whether drawing the sprite bits `dx .. 8` of `line` onto `row` clears
/// some previously-set pixel (the per-row collision signal).
pub open spec fn row_hit(row: u64, line: u8, vx: int, dx: u8) -> bool
    decreases 8 - dx,
{
    if dx >= 8 {
        false
    } else if sprite_bit(line, dx) {
        let bit = display::msb_mask((vx + dx) % 64);
        (row & bit != 0) || row_hit(row ^ bit, line, vx, (dx + 1) as u8)
    } else {
        row_hit(row, line, vx, (dx + 1) as u8)
    }
}

/// The coordinates toggled while drawing the sprite bits `dx .. 8` of
/// `line` into row `ym`, in drawing order.
pub open spec fn row_coords(line: u8, vx: int, ym: int, dx: u8) -> Seq<(u8, u8)>
    decreases 8 - dx,
{
    if dx >= 8 {
        Seq::empty()
    } else if sprite_bit(line, dx) {
        seq![((((vx + dx) % 64) as u8), (ym as u8))] + row_coords(line, vx, ym, (dx + 1) as u8)
    } else {
        row_coords(line, vx, ym, (dx + 1) as u8)
    }
}

/// The framebuffer after drawing sprite rows `dy .. n` read from memory
/// at `idx + dy`, at column `vx` and row `vy + dy` (modulo the size).
pub open spec fn draw_grid(
    grid: Seq<u64>,
    ram: Seq<u8>,
    idx: int,
    vx: int,
    vy: int,
    dy: u8,
    n: u8,
) -> Seq<u64>
    decreases n - dy,
{
    if dy >= n {
        grid
    } else {
        let ym = (vy + dy) % 32;
        draw_grid(
            grid.update(ym, row_draw(grid[ym], ram[idx + dy], vx, 0)),
            ram,
            idx,
            vx,
            vy,
            (dy + 1) as u8,
            n,
        )
    }
}

/// Whether drawing sprite rows `dy .. n` clears some previously-set pixel.
pub open spec fn draw_hit(
    grid: Seq<u64>,
    ram: Seq<u8>,
    idx: int,
    vx: int,
    vy: int,
    dy: u8,
    n: u8,
) -> bool
    decreases n - dy,
{
    if dy >= n {
        false
    } else {
        let ym = (vy + dy) % 32;
        row_hit(grid[ym], ram[idx + dy], vx, 0) || draw_hit(
            grid.update(ym, row_draw(grid[ym], ram[idx + dy], vx, 0)),
            ram,
            idx,
            vx,
            vy,
            (dy + 1) as u8,
            n,
        )
    }
}

/// The coordinates toggled while drawing sprite rows `dy .. n`, in
/// drawing order.
pub open spec fn draw_coords(ram: Seq<u8>, idx: int, vx: int, vy: int, dy: u8, n: u8) -> Seq<
    (u8, u8),
>
    decreases n - dy,
{
    if dy >= n {
        Seq::empty()
    } else {
        row_coords(ram[idx + dy], vx, (vy + dy) % 32, 0) + draw_coords(
            ram,
            idx,
            vx,
            vy,
            (dy + 1) as u8,
            n,
        )
    }
}

/// Whether a skip instruction's condition holds in state `s`: the kind of
/// comparison is the instruction's own.
pub open spec fn skip_cond(s: State, op: isa::Asm) -> bool {
    match op {
        isa::Asm::SEC(x, kk) => s.regs[x.0 as int] == kk,
        isa::Asm::SNEC(x, kk) => s.regs[x.0 as int] != kk,
        isa::Asm::SER(x, y) => s.regs[x.0 as int] == s.regs[y.0 as int],
        isa::Asm::SNER(x, y) => s.regs[x.0 as int] != s.regs[y.0 as int],
        isa::Asm::SKP(x) => (s.key matches Some(k) && k == s.regs[x.0 as int]),
        isa::Asm::SKNP(x) => match s.key {
            None => true,
            Some(k) => k != s.regs[x.0 as int],
        },
        _ => false,
    }
}

/// The error, if any, that executing instruction `op` raises from state
/// `s`; `s` has the program counter already advanced past the opcode.
pub open spec fn op_error(s: State, op: isa::Asm) -> Option<Error> {
    match op {
        isa::Asm::RET => if s.sp == 0 {
            Some(Error::StackUnderflow)
        } else {
            None
        },
        isa::Asm::CALL(_) => if s.sp == 16 {
            Some(Error::StackOverflow)
        } else {
            None
        },
        isa::Asm::SEC(_, _) | isa::Asm::SNEC(_, _) | isa::Asm::SER(_, _) | isa::Asm::SNER(_, _)
            | isa::Asm::SKP(_) | isa::Asm::SKNP(_) => if skip_cond(s, op) && s.pc + 2 >= 0x1000 {
            Some(Error::AddressRange)
        } else {
            None
        },
        isa::Asm::JO(a) => if a.0 + s.regs[0] >= 0x1000 {
            Some(Error::AddressRange)
        } else {
            None
        },
        isa::Asm::ADDI(x) => if s.idx + s.regs[x.0 as int] >= 0x1000 {
            Some(Error::AddressRange)
        } else {
            None
        },
        isa::Asm::DRW(_, _, n) => if n > 0 && s.idx + n > 0x1000 {
            Some(Error::AddressRange)
        } else {
            None
        },
        isa::Asm::LDB(_) => if s.idx + 2 >= 0x1000 {
            Some(Error::AddressRange)
        } else {
            None
        },
        isa::Asm::WR(x) => if s.idx + x + 1 >= 0x1000 {
            Some(Error::AddressRange)
        } else {
            None
        },
        isa::Asm::RD(x) => if s.idx + x + 1 >= 0x1000 {
            Some(Error::AddressRange)
        } else {
            None
        },
        _ => None,
    }
}

/// The state after executing instruction `op` from state `s` (program
/// counter already advanced past the opcode), when `op_error(s, op)` is
/// `None`; `rnd` is the random byte the cycle consumed, read only by the
/// random-number instruction.
pub open spec fn op_next(s: State, op: isa::Asm, rnd: u8) -> State {
    match op {
        isa::Asm::SYS(_) => s,
        isa::Asm::CLS => State {
            grid: Seq::new(32, |y: int| 0u64),
            dirt: display::grid_set_coords(s.grid, 0),
            ..s
        },
        isa::Asm::RET => State { pc: s.stack[s.sp - 1] as int, sp: s.sp - 1, ..s },
        isa::Asm::JP(a) => State { pc: a.0 as int, ..s },
        isa::Asm::CALL(a) => State {
            pc: a.0 as int,
            sp: s.sp + 1,
            stack: s.stack.update(s.sp, s.pc as u16),
            ..s
        },
        isa::Asm::SEC(_, _) | isa::Asm::SNEC(_, _) | isa::Asm::SER(_, _) | isa::Asm::SNER(
            _,
            _,
        ) => State { pc: if skip_cond(s, op) { s.pc + 2 } else { s.pc }, ..s },
        isa::Asm::SKP(_) | isa::Asm::SKNP(_) => State {
            pc: if skip_cond(s, op) { s.pc + 2 } else { s.pc },
            key: None,
            ..s
        },
        isa::Asm::LDC(x, kk) => State { regs: s.regs.update(x.0 as int, kk), ..s },
        isa::Asm::ADDC(x, kk) => State {
            regs: s.regs.update(x.0 as int, wrap_add(s.regs[x.0 as int], kk)),
            ..s
        },
        isa::Asm::LDR(x, y) => State { regs: s.regs.update(x.0 as int, s.regs[y.0 as int]), ..s },
        isa::Asm::OR(x, y) => State {
            regs: s.regs.update(x.0 as int, s.regs[x.0 as int] | s.regs[y.0 as int]),
            ..s
        },
        isa::Asm::AND(x, y) => State {
            regs: s.regs.update(x.0 as int, s.regs[x.0 as int] & s.regs[y.0 as int]),
            ..s
        },
        isa::Asm::XOR(x, y) => State {
            regs: s.regs.update(x.0 as int, s.regs[x.0 as int] ^ s.regs[y.0 as int]),
            ..s
        },
        isa::Asm::ADDR(x, y) => {
            let sum = s.regs[x.0 as int] + s.regs[y.0 as int];
            State {
                regs: s.regs.update(15, if sum > 255 { 1u8 } else { 0u8 }).update(
                    x.0 as int,
                    (sum % 256) as u8,
                ),
                ..s
            }
        },
        isa::Asm::SUB(x, y) => {
            let vx = s.regs[x.0 as int];
            let vy = s.regs[y.0 as int];
            State {
                regs: s.regs.update(15, if vx > vy { 1u8 } else { 0u8 }).update(
                    x.0 as int,
                    wrap_sub(vx, vy),
                ),
                ..s
            }
        },
        isa::Asm::SHR(x, _) => {
            let vx = s.regs[x.0 as int];
            State { regs: s.regs.update(15, vx & 1).update(x.0 as int, vx >> 1u8), ..s }
        },
        isa::Asm::SUBN(x, y) => {
            let vx = s.regs[x.0 as int];
            let vy = s.regs[y.0 as int];
            State {
                regs: s.regs.update(15, if vy > vx { 1u8 } else { 0u8 }).update(
                    x.0 as int,
                    wrap_sub(vy, vx),
                ),
                ..s
            }
        },
        isa::Asm::SHL(x, _) => {
            let vx = s.regs[x.0 as int];
            State {
                regs: s.regs.update(15, if vx & 0x80 != 0 { 1u8 } else { 0u8 }).update(
                    x.0 as int,
                    vx << 1u8,
                ),
                ..s
            }
        },
        isa::Asm::LDI(a) => State { idx: a.0 as int, ..s },
        isa::Asm::JO(a) => State { pc: a.0 + s.regs[0], ..s },
        isa::Asm::RND(x, kk) => State { regs: s.regs.update(x.0 as int, rnd & kk), ..s },
        isa::Asm::DRW(x, y, n) => {
            let regs0 = s.regs.update(15, 0u8);
            let vx = regs0[x.0 as int] as int;
            let vy = regs0[y.0 as int] as int;
            State {
                regs: s.regs.update(
                    15,
                    if draw_hit(s.grid, s.ram, s.idx, vx, vy, 0, n) {
                        1u8
                    } else {
                        0u8
                    },
                ),
                grid: draw_grid(s.grid, s.ram, s.idx, vx, vy, 0, n),
                dirt: s.dirt + draw_coords(s.ram, s.idx, vx, vy, 0, n),
                ..s
            }
        },
        isa::Asm::LDTR(x) => State { regs: s.regs.update(x.0 as int, s.dt), ..s },
        isa::Asm::LDK(x) => match s.key {
            None => State { pc: s.pc - 2, ..s },
            Some(k) => State { regs: s.regs.update(x.0 as int, k), key: None, ..s },
        },
        isa::Asm::LDRT(x) => State { dt: s.regs[x.0 as int], ..s },
        isa::Asm::LDRS(x) => State { st: s.regs[x.0 as int], ..s },
        isa::Asm::ADDI(x) => State { idx: s.idx + s.regs[x.0 as int], ..s },
        isa::Asm::LDS(x) => State { idx: ram::FONT_OFFSET + 5 * s.regs[x.0 as int], ..s },
        isa::Asm::LDB(x) => {
            let vx = s.regs[x.0 as int];
            State {
                ram: s.ram.update(s.idx, (vx / 100) as u8).update(
                    s.idx + 1,
                    ((vx / 10) % 10) as u8,
                ).update(s.idx + 2, (vx % 10) as u8),
                ..s
            }
        },
        isa::Asm::WR(x) => State {
            ram: Seq::new(
                4096,
                |i: int|
                    if s.idx <= i <= s.idx + x {
                        s.regs[i - s.idx]
                    } else {
                        s.ram[i]
                    },
            ),
            idx: s.idx + x + 1,
            ..s
        },
        isa::Asm::RD(x) => State {
            regs: Seq::new(
                16,
                |i: int|
                    if i <= x {
                        s.ram[s.idx + i]
                    } else {
                        s.regs[i]
                    },
            ),
            idx: s.idx + x + 1,
            ..s
        },
    }
}

/// The error, if any, that one whole cycle raises from state `s`: a fetch
/// past the end of memory, an undecodable opcode, an advance of the
/// program counter out of range, or the instruction's own error. When the
/// cycle errors, the machine is left unchanged.
pub open spec fn step_error(s: State) -> Option<Error> {
    if s.pc + 1 >= 0x1000 {
        Some(Error::AddressRange)
    } else {
        let hi = s.ram[s.pc];
        let lo = s.ram[s.pc + 1];
        match isa::spec_decode(hi, lo) {
            None => Some(Error::Decode(((hi as int) * 256 + lo) as u16)),
            Some(op) => if s.pc + 2 >= 0x1000 {
                Some(Error::AddressRange)
            } else {
                op_error(State { pc: s.pc + 2, ..s }, op)
            },
        }
    }
}

/// The state after one whole cycle from state `s`, when `step_error(s)`
/// is `None`: fetch the opcode at the program counter, advance the
/// counter past it, then execute; `rnd` is the random byte the cycle
/// consumed.
pub open spec fn step_next(s: State, rnd: u8) -> State {
    let hi = s.ram[s.pc];
    let lo = s.ram[s.pc + 1];
    match isa::spec_decode(hi, lo) {
        None => s,
        Some(op) => op_next(State { pc: s.pc + 2, ..s }, op, rnd),
    }
}


/// Law: a call followed immediately by a return, with no intervening
/// stack operation, leaves the program counter at the address just past
/// the call and restores the stack pointer to its pre-call value.
pub proof fn lemma_call_ret(s: State, a: ram::Addr, r1: u8, r2: u8)
    requires
        state_wf(s),
        step_error(s) is None,
        isa::spec_decode(s.ram[s.pc], s.ram[s.pc + 1]) == Some(isa::Asm::CALL(a)),
        step_error(step_next(s, r1)) is None,
        ({
            let s1 = step_next(s, r1);
            isa::spec_decode(s1.ram[s1.pc], s1.ram[s1.pc + 1]) == Some(isa::Asm::RET)
        }),
    ensures
        step_next(step_next(s, r1), r2).pc == s.pc + 2,
        step_next(step_next(s, r1), r2).sp == s.sp,
{
    let s1 = step_next(s, r1);
    assert(s1.pc == a.0 as int);
    assert(s1.sp == s.sp + 1);
    assert(s1.stack == s.stack.update(s.sp, (s.pc + 2) as u16));
    let s2 = step_next(s1, r2);
    assert(s2.pc == s1.stack[s.sp] as int);
    assert(s1.stack[s.sp] == (s.pc + 2) as u16);
}

/// Law: a call executed with the stack already at its maximum depth
/// fails with a stack overflow and with room on the stack does not fail;
/// a return executed with the stack pointer at zero fails with a stack
/// underflow and otherwise does not fail.
pub proof fn lemma_stack_limits(s: State)
    requires
        state_wf(s),
        s.pc + 2 < 0x1000,
    ensures
        (isa::spec_decode(s.ram[s.pc], s.ram[s.pc + 1]) matches Some(op) && op matches
            isa::Asm::CALL(_)) ==> step_error(s) == (if s.sp == 16 {
            Some(Error::StackOverflow)
        } else {
            None::<Error>
        }),
        isa::spec_decode(s.ram[s.pc], s.ram[s.pc + 1]) == Some(isa::Asm::RET) ==> step_error(s)
            == (if s.sp == 0 {
            Some(Error::StackUnderflow)
        } else {
            None::<Error>
        }),
{
}

/// Law: the blocking key read with an empty key latch leaves the whole
/// machine exactly as it was, so the same instruction is fetched and
/// retried on the next cycle; with a key latched it stores the key,
/// consumes it, and execution proceeds past the instruction.
pub proof fn lemma_key_wait(s: State, x: cpu::Reg, rnd: u8)
    requires
        state_wf(s),
        step_error(s) is None,
        isa::spec_decode(s.ram[s.pc], s.ram[s.pc + 1]) == Some(isa::Asm::LDK(x)),
    ensures
        s.key is None ==> step_next(s, rnd) == s,
        s.key matches Some(k) ==> step_next(s, rnd) == (State {
            pc: s.pc + 2,
            regs: s.regs.update(x.0 as int, k),
            key: None,
            ..s
        }),
{
}


/// The cumulative toggle mask of the sprite bits `dx .. 8` of `line`: one
/// grid bit per set sprite bit, at its landing column.
pub open spec fn row_mask(line: u8, vx: int, dx: u8) -> u64
    decreases 8 - dx,
{
    if dx >= 8 {
        0u64
    } else {
        (if sprite_bit(line, dx) {
            display::msb_mask((vx + dx) % 64)
        } else {
            0u64
        }) ^ row_mask(line, vx, (dx + 1) as u8)
    }
}

/// Whether the sprite row read from memory at `idx + d` has a set bit
/// over a pixel of `g` that is clear: exactly when drawing that row turns
/// some pixel on.
pub open spec fn sprite_new_pixel(
    g: Seq<u64>,
    ram: Seq<u8>,
    idx: int,
    vx: int,
    vy: int,
    d: int,
) -> bool {
    row_mask(ram[idx + d], vx, 0) & !g[(vy + d) % 32] != 0
}

/// The framebuffer row that sprite row `d` lands on.
pub open spec fn sprite_row(vy: int, d: int) -> int {
    (vy + d) % 32
}

/// Two distinct offsets within one modulus period land on distinct rows
/// or columns.
proof fn lemma_mod_shift_distinct(base: int, a: int, b: int, m: int)
    requires
        m > 0,
        0 <= a < b,
        b - a < m,
    ensures
        (base + a) % m != (base + b) % m,
{
    let x = base + a;
    let y = base + b;
    vstd::arithmetic::div_mod::lemma_fundamental_div_mod(x, m);
    vstd::arithmetic::div_mod::lemma_fundamental_div_mod(y, m);
    if x % m == y % m {
        let k = y / m - x / m;
        assert(y - x == m * k) by (nonlinear_arith)
            requires
                x == m * (x / m) + x % m,
                y == m * (y / m) + y % m,
                x % m == y % m,
                k == y / m - x / m,
        ;
        assert(0 < m * k < m);
        assert(false) by (nonlinear_arith)
            requires
                m > 0,
                0 < m * k,
                m * k < m,
        ;
    }
}

/// Pixel masks of distinct columns share no bit.
proof fn lemma_msb_disjoint(i: int, j: int)
    requires
        0 <= i < 64,
        0 <= j < 64,
        i != j,
    ensures
        display::msb_mask(i) & display::msb_mask(j) == 0,
{
    let iu = i as u64;
    let ju = j as u64;
    assert((0x8000_0000_0000_0000u64 >> iu) & (0x8000_0000_0000_0000u64 >> ju) == 0)
        by (bit_vector)
        requires
            iu < 64,
            ju < 64,
            iu != ju,
    ;
}

/// The mask of the sprite bits from `dx` on shares no bit with the pixel
/// mask of an earlier sprite bit `dx0`.
proof fn lemma_row_mask_disjoint(line: u8, vx: int, dx0: u8, dx: u8)
    requires
        dx0 < dx,
        dx <= 8,
        dx0 < 8,
    ensures
        row_mask(line, vx, dx) & display::msb_mask((vx + dx0) % 64) == 0,
    decreases 8 - dx,
{
    let c = display::msb_mask((vx + dx0) % 64);
    if dx >= 8 {
        assert(0u64 & c == 0) by (bit_vector);
    } else {
        lemma_row_mask_disjoint(line, vx, dx0, (dx + 1) as u8);
        let m2 = row_mask(line, vx, (dx + 1) as u8);
        if sprite_bit(line, dx) {
            lemma_mod_shift_distinct(vx, dx0 as int, dx as int, 64);
            lemma_msb_disjoint((vx + dx) % 64, (vx + dx0) % 64);
            let b = display::msb_mask((vx + dx) % 64);
            assert((b ^ m2) & c == 0) by (bit_vector)
                requires
                    b & c == 0,
                    m2 & c == 0,
            ;
        } else {
            assert((0u64 ^ m2) & c == 0) by (bit_vector)
                requires
                    m2 & c == 0,
            ;
        }
    }
}

/// Drawing one sprite row is one exclusive-or with its toggle mask.
proof fn lemma_row_draw_mask(row: u64, line: u8, vx: int, dx: u8)
    requires
        dx <= 8,
    ensures
        row_draw(row, line, vx, dx) == row ^ row_mask(line, vx, dx),
    decreases 8 - dx,
{
    if dx >= 8 {
        assert(row ^ 0u64 == row) by (bit_vector);
    } else {
        let m2 = row_mask(line, vx, (dx + 1) as u8);
        if sprite_bit(line, dx) {
            let b = display::msb_mask((vx + dx) % 64);
            lemma_row_draw_mask(row ^ b, line, vx, (dx + 1) as u8);
            assert((row ^ b) ^ m2 == row ^ (b ^ m2)) by (bit_vector);
        } else {
            lemma_row_draw_mask(row, line, vx, (dx + 1) as u8);
            assert(0u64 ^ m2 == m2) by (bit_vector);
        }
    }
}

/// A sprite row collides exactly when its toggle mask overlaps the set
/// pixels of the row it is drawn onto.
proof fn lemma_row_hit_mask(row: u64, line: u8, vx: int, dx: u8)
    requires
        dx <= 8,
    ensures
        row_hit(row, line, vx, dx) == (row & row_mask(line, vx, dx) != 0),
    decreases 8 - dx,
{
    if dx >= 8 {
        assert(row & 0u64 == 0) by (bit_vector);
    } else {
        let m2 = row_mask(line, vx, (dx + 1) as u8);
        if sprite_bit(line, dx) {
            let b = display::msb_mask((vx + dx) % 64);
            lemma_row_hit_mask(row ^ b, line, vx, (dx + 1) as u8);
            lemma_row_mask_disjoint(line, vx, dx, (dx + 1) as u8);
            assert(((row & b != 0) || ((row ^ b) & m2 != 0)) == (row & (b ^ m2) != 0))
                by (bit_vector)
                requires
                    m2 & b == 0,
            ;
        } else {
            lemma_row_hit_mask(row, line, vx, (dx + 1) as u8);
            assert(0u64 ^ m2 == m2) by (bit_vector);
        }
    }
}

/// Drawing sprite rows keeps the number of rows.
proof fn lemma_draw_grid_len(
    grid: Seq<u64>,
    ram: Seq<u8>,
    idx: int,
    vx: int,
    vy: int,
    dy: u8,
    n: u8,
)
    requires
        grid.len() == 32,
    ensures
        draw_grid(grid, ram, idx, vx, vy, dy, n).len() == 32,
    decreases n - dy,
{
    if dy < n {
        let ym = (vy + dy) % 32;
        let g1 = grid.update(ym, row_draw(grid[ym], ram[idx + dy], vx, 0));
        lemma_draw_grid_len(g1, ram, idx, vx, vy, (dy + 1) as u8, n);
    }
}

/// Drawing sprite rows leaves every row they do not land on unchanged.
proof fn lemma_draw_grid_frame(
    grid: Seq<u64>,
    ram: Seq<u8>,
    idx: int,
    vx: int,
    vy: int,
    dy: u8,
    n: u8,
    r: int,
)
    requires
        grid.len() == 32,
        0 <= r < 32,
        forall|d: int| dy <= d < n ==> #[trigger] sprite_row(vy, d) != r,
    ensures
        draw_grid(grid, ram, idx, vx, vy, dy, n).len() == 32,
        draw_grid(grid, ram, idx, vx, vy, dy, n)[r] == grid[r],
    decreases n - dy,
{
    if dy < n {
        assert(sprite_row(vy, dy as int) != r);
        let ym = (vy + dy) % 32;
        let g1 = grid.update(ym, row_draw(grid[ym], ram[idx + dy], vx, 0));
        lemma_draw_grid_frame(g1, ram, idx, vx, vy, (dy + 1) as u8, n, r);
    }
}

/// Drawing sprite rows commutes with overwriting a row they do not land
/// on.
proof fn lemma_draw_grid_update(
    grid: Seq<u64>,
    ram: Seq<u8>,
    idx: int,
    vx: int,
    vy: int,
    dy: u8,
    n: u8,
    r: int,
    v: u64,
)
    requires
        grid.len() == 32,
        0 <= r < 32,
        forall|d: int| dy <= d < n ==> #[trigger] sprite_row(vy, d) != r,
    ensures
        draw_grid(grid.update(r, v), ram, idx, vx, vy, dy, n) == draw_grid(
            grid,
            ram,
            idx,
            vx,
            vy,
            dy,
            n,
        ).update(r, v),
    decreases n - dy,
{
    if dy >= n {
    } else {
        assert(sprite_row(vy, dy as int) != r);
        let ym = (vy + dy) % 32;
        let line = ram[idx + dy];
        let g1 = grid.update(ym, row_draw(grid[ym], line, vx, 0));
        let gu = grid.update(r, v);
        assert(gu[ym] == grid[ym]);
        assert(gu.update(ym, row_draw(gu[ym], line, vx, 0)) =~= g1.update(r, v));
        lemma_draw_grid_update(g1, ram, idx, vx, vy, (dy + 1) as u8, n, r, v);
    }
}

/// The row a sprite row lands on holds, after the draw, its old pixels
/// toggled by the row's mask.
proof fn lemma_draw_grid_row_at(
    grid: Seq<u64>,
    ram: Seq<u8>,
    idx: int,
    vx: int,
    vy: int,
    dy: u8,
    n: u8,
    d: int,
)
    requires
        grid.len() == 32,
        n <= 15,
        dy <= d < n,
    ensures
        draw_grid(grid, ram, idx, vx, vy, dy, n)[(vy + d) % 32] == grid[(vy + d) % 32] ^ row_mask(
            ram[idx + d],
            vx,
            0,
        ),
    decreases n - dy,
{
    let ym = (vy + dy) % 32;
    let line = ram[idx + dy];
    let g1 = grid.update(ym, row_draw(grid[ym], line, vx, 0));
    if d == dy {
        assert forall|d2: int| dy + 1 <= d2 < n implies #[trigger] sprite_row(vy, d2) != ym by {
            lemma_mod_shift_distinct(vy, dy as int, d2, 32);
        }
        lemma_draw_grid_frame(g1, ram, idx, vx, vy, (dy + 1) as u8, n, ym);
        lemma_row_draw_mask(grid[ym], line, vx, 0);
    } else {
        lemma_mod_shift_distinct(vy, dy as int, d, 32);
        assert(g1[(vy + d) % 32] == grid[(vy + d) % 32]);
        lemma_draw_grid_row_at(g1, ram, idx, vx, vy, (dy + 1) as u8, n, d);
    }
}

/// Drawing the same sprite rows a second time undoes the first draw.
proof fn lemma_draw_grid_twice(
    grid: Seq<u64>,
    ram: Seq<u8>,
    idx: int,
    vx: int,
    vy: int,
    dy: u8,
    n: u8,
)
    requires
        grid.len() == 32,
        n <= 15,
        dy <= n,
    ensures
        draw_grid(draw_grid(grid, ram, idx, vx, vy, dy, n), ram, idx, vx, vy, dy, n) == grid,
    decreases n - dy,
{
    if dy >= n {
    } else {
        let ym = (vy + dy) % 32;
        let line = ram[idx + dy];
        let mask = row_mask(line, vx, 0);
        let m = row_draw(grid[ym], line, vx, 0);
        let g1 = grid.update(ym, m);
        assert forall|d2: int| dy + 1 <= d2 < n implies #[trigger] sprite_row(vy, d2) != ym by {
            lemma_mod_shift_distinct(vy, dy as int, d2, 32);
        }
        let big1 = draw_grid(g1, ram, idx, vx, vy, (dy + 1) as u8, n);
        lemma_draw_grid_frame(g1, ram, idx, vx, vy, (dy + 1) as u8, n, ym);
        assert(big1[ym] == m);
        lemma_row_draw_mask(grid[ym], line, vx, 0);
        lemma_row_draw_mask(m, line, vx, 0);
        let gy = grid[ym];
        assert((gy ^ mask) ^ mask == gy) by (bit_vector);
        assert(row_draw(big1[ym], line, vx, 0) == grid[ym]);
        lemma_draw_grid_update(g1, ram, idx, vx, vy, (dy + 1) as u8, n, ym, grid[ym]);
        assert(g1.update(ym, grid[ym]) =~= grid);
        assert(big1.update(ym, grid[ym]) == draw_grid(grid, ram, idx, vx, vy, (dy + 1) as u8, n));
        lemma_draw_grid_twice(grid, ram, idx, vx, vy, (dy + 1) as u8, n);
        assert(draw_grid(big1, ram, idx, vx, vy, dy, n) == draw_grid(
            big1.update(ym, row_draw(big1[ym], line, vx, 0)),
            ram,
            idx,
            vx,
            vy,
            (dy + 1) as u8,
            n,
        ));
    }
}

/// On a grid whose affected rows already carry the first draw, a second
/// draw collides exactly where the first draw turned a pixel on.
proof fn lemma_draw_hit_second(
    g0: Seq<u64>,
    h: Seq<u64>,
    ram: Seq<u8>,
    idx: int,
    vx: int,
    vy: int,
    dy: u8,
    n: u8,
)
    requires
        g0.len() == 32,
        h.len() == 32,
        n <= 15,
        dy <= n,
        forall|d: int|
            dy <= d < n ==> h[#[trigger] sprite_row(vy, d)] == g0[sprite_row(vy, d)] ^ row_mask(
                ram[idx + d],
                vx,
                0,
            ),
    ensures
        draw_hit(h, ram, idx, vx, vy, dy, n) == (exists|d: int|
            dy <= d < n && #[trigger] sprite_new_pixel(g0, ram, idx, vx, vy, d)),
    decreases n - dy,
{
    if dy >= n {
        assert(!(exists|d: int| dy <= d < n && #[trigger] sprite_new_pixel(g0, ram, idx, vx, vy, d)));
    } else {
        let ym = (vy + dy) % 32;
        let line = ram[idx + dy];
        let mask = row_mask(line, vx, 0);
        let g = g0[ym];
        assert(sprite_row(vy, dy as int) == ym);
        assert(h[ym] == g ^ mask);
        lemma_row_hit_mask(h[ym], line, vx, 0);
        assert(((g ^ mask) & mask != 0) == (mask & !g != 0)) by (bit_vector);
        assert(row_hit(h[ym], line, vx, 0) == sprite_new_pixel(g0, ram, idx, vx, vy, dy as int));
        let h2 = h.update(ym, row_draw(h[ym], line, vx, 0));
        assert forall|d2: int| dy + 1 <= d2 < n implies #[trigger] sprite_row(vy, d2) != ym by {
            lemma_mod_shift_distinct(vy, dy as int, d2, 32);
        }
        lemma_draw_hit_second(g0, h2, ram, idx, vx, vy, (dy + 1) as u8, n);
        if sprite_new_pixel(g0, ram, idx, vx, vy, dy as int) {
            assert(exists|d: int| dy <= d < n && #[trigger] sprite_new_pixel(g0, ram, idx, vx, vy, d));
        } else {
            assert((exists|d: int| dy + 1 <= d < n && #[trigger] sprite_new_pixel(g0, ram, idx, vx, vy, d))
                == (exists|d: int| dy <= d < n && #[trigger] sprite_new_pixel(g0, ram, idx, vx, vy, d)));
        }
    }
}

/// Law: drawing the same sprite twice at the same coordinates restores
/// every affected pixel to its pre-draw state, and the second draw
/// reports a collision exactly when the first draw turned some pixel on —
/// in particular whenever some set sprite bit lands on an initially clear
/// pixel.
pub proof fn lemma_sprite_redraw(
    grid: Seq<u64>,
    ram: Seq<u8>,
    idx: int,
    vx: int,
    vy: int,
    n: u8,
)
    requires
        grid.len() == 32,
        n <= 15,
    ensures
        draw_grid(draw_grid(grid, ram, idx, vx, vy, 0, n), ram, idx, vx, vy, 0, n) == grid,
        draw_hit(draw_grid(grid, ram, idx, vx, vy, 0, n), ram, idx, vx, vy, 0, n) == (exists|
            d: int,
        |
            0 <= d < n && #[trigger] sprite_new_pixel(grid, ram, idx, vx, vy, d)),
{
    lemma_draw_grid_twice(grid, ram, idx, vx, vy, 0, n);
    let h = draw_grid(grid, ram, idx, vx, vy, 0, n);
    lemma_draw_grid_len(grid, ram, idx, vx, vy, 0, n);
    assert(h.len() == 32);
    assert forall|d: int| 0 <= d < n implies h[#[trigger] sprite_row(vy, d)] == grid[sprite_row(
        vy,
        d,
    )] ^ row_mask(ram[idx + d], vx, 0) by {
        lemma_draw_grid_row_at(grid, ram, idx, vx, vy, 0, n, d);
    }
    lemma_draw_hit_second(grid, h, ram, idx, vx, vy, 0, n);
}

/// The execution engine: owns the CPU, memory, call stack, framebuffer and
/// key latch, and is driven one cycle at a time by an external caller.
pub struct Chip {
    /// Processor state
    cpu: cpu::CPU,
    /// Random access memory
    ram: ram::Mem,
    /// Last-pressed key
    key: Option<u8>,
    /// Stack memory
    stack: stack::Mem,
    /// Framebuffer
    display: display::Display,
}

impl View for Chip {
    type V = State;

    closed spec fn view(&self) -> State {
        State {
            pc: self.cpu.pc.0 as int,
            sp: self.cpu.sp.0 as int,
            idx: self.cpu.idx.0 as int,
            dt: self.cpu.dt,
            st: self.cpu.st,
            regs: self.cpu.reg@,
            ram: self.ram@,
            stack: self.stack@,
            key: self.key,
            grid: self.display@.grid,
            dirt: self.display@.dirt,
        }
    }
}

impl Chip {
    /// The machine invariant, carried by every public operation.
    pub closed spec fn wf(self) -> bool {
        &&& self.cpu.wf()
        &&& self.ram.wf()
        &&& self.stack.wf()
        &&& self.display.wf()
        &&& (self.key matches Some(k) ==> k < 16)
    }

    /// The invariant seen through the view.
    pub proof fn lemma_wf_state(self)
        requires
            self.wf(),
        ensures
            state_wf(self@),
    {
    }

    /// A machine ready to run `program`: font and program loaded, program
    /// counter at the program start, all else zeroed, screen blank.
    pub fn new(program: &Vec<u8>) -> (r: Self)
        ensures
            r.wf(),
            r@.pc == ram::PROGRAM_START,
            r@.sp == 0,
            r@.idx == 0,
            r@.dt == 0,
            r@.st == 0,
            r@.regs == Seq::new(16, |i: int| 0u8),
            r@.ram == ram::mem_init(program@),
            r@.stack == Seq::new(16, |i: int| 0u16),
            r@.key is None,
            r@.grid == Seq::new(32, |y: int| 0u64),
            r@.dirt == Seq::<(u8, u8)>::empty(),
    {
        Chip {
            cpu: Default::default(),
            ram: ram::Mem::new(program),
            key: None,
            stack: stack::Mem::new(),
            display: display::Display::new(),
        }
    }

    /// Advance one timer tick: both timers go down by one, saturating at
    /// zero — a timer already at zero stays there.
    pub fn tick(&mut self)
        requires
            old(self).wf(),
        ensures
            final(self).wf(),
            final(self)@ == (State {
                dt: if old(self)@.dt > 0 {
                    (old(self)@.dt - 1) as u8
                } else {
                    0u8
                },
                st: if old(self)@.st > 0 {
                    (old(self)@.st - 1) as u8
                } else {
                    0u8
                },
                ..old(self)@
            }),
    {
        self.cpu.st = if self.cpu.st > 0 {
            self.cpu.st - 1
        } else {
            0
        };
        self.cpu.dt = if self.cpu.dt > 0 {
            self.cpu.dt - 1
        } else {
            0
        };
    }

    /// Latch a key code for the key-sensitive instructions to observe.
    pub fn set_key(&mut self, code: u8)
        requires
            old(self).wf(),
            code < 16,
        ensures
            final(self).wf(),
            final(self)@ == (State { key: Some(code), ..old(self)@ }),
    {
        self.key = Some(code);
    }

    /// Empty the key latch.
    pub fn clear_key(&mut self)
        requires
            old(self).wf(),
        ensures
            final(self).wf(),
            final(self)@ == (State { key: None, ..old(self)@ }),
    {
        self.key = None;
    }

    /// Drain the dirty-pixel set for painting: each dirtied coordinate
    /// with its current set/clear state, in the order it was dirtied.
    pub fn render(&mut self) -> (out: Vec<(u8, u8, bool)>)
        requires
            old(self).wf(),
        ensures
            final(self).wf(),
            final(self)@ == (State { dirt: Seq::empty(), ..old(self)@ }),
            out@.len() == old(self)@.dirt.len(),
            forall|i: int|
                0 <= i < out@.len() ==> ((#[trigger] out@[i]).0 == old(self)@.dirt[i].0 && out@[i].1
                    == old(self)@.dirt[i].1 && out@[i].2 == display::pixel(
                    old(self)@.grid,
                    old(self)@.dirt[i].0 as int,
                    old(self)@.dirt[i].1 as int,
                )),
    {
        self.display.drain()
    }

    /// The program counter.
    pub fn pc(&self) -> (r: u16)
        requires
            self.wf(),
        ensures
            r == self@.pc,
    {
        self.cpu.pc.0
    }

    /// The stack pointer.
    pub fn sp(&self) -> (r: u8)
        requires
            self.wf(),
        ensures
            r == self@.sp,
    {
        self.cpu.sp.0
    }

    /// The index register.
    pub fn idx(&self) -> (r: u16)
        requires
            self.wf(),
        ensures
            r == self@.idx,
    {
        self.cpu.idx.0
    }

    /// The delay timer.
    pub fn dt(&self) -> (r: u8)
        requires
            self.wf(),
        ensures
            r == self@.dt,
    {
        self.cpu.dt
    }

    /// The sound timer.
    pub fn st(&self) -> (r: u8)
        requires
            self.wf(),
        ensures
            r == self@.st,
    {
        self.cpu.st
    }

    /// The contents of register `i`.
    pub fn reg(&self, i: u8) -> (r: u8)
        requires
            self.wf(),
            i < 16,
        ensures
            r == self@.regs[i as int],
    {
        self.cpu.get(cpu::Reg(i))
    }

    /// The byte at memory address `a`.
    pub fn mem(&self, a: u16) -> (r: u8)
        requires
            self.wf(),
            a < 0x1000,
        ensures
            r == self@.ram[a as int],
    {
        self.ram.read(ram::Addr(a))
    }
}


/// Relies on rand::random: draws one byte from the thread-local random
/// number generator. Nothing is assumed of its value; callers state what
/// holds of every outcome.
#[verifier::external_body]
fn random_byte() -> u8 {
    rand::random::<u8>()
}

impl Chip {
    /// Draw one 8-pixel sprite row into framebuffer row `ym`: each set
    /// bit of `line` toggles the pixel at column `vx + bit` (modulo the
    /// width). Returns 1 when some previously-set pixel was toggled.
    fn draw_row(&mut self, line: u8, vx: u8, ym: u8) -> (rowhit: u8)
        requires
            old(self).wf(),
            ym < 32,
        ensures
            final(self).wf(),
            final(self)@ == (State {
                grid: old(self)@.grid.update(
                    ym as int,
                    row_draw(old(self)@.grid[ym as int], line, vx as int, 0),
                ),
                dirt: old(self)@.dirt + row_coords(line, vx as int, ym as int, 0),
                ..old(self)@
            }),
            rowhit == (if row_hit(old(self)@.grid[ym as int], line, vx as int, 0) {
                1u8
            } else {
                0u8
            }),
    {
        let ghost g0 = self@.grid;
        let ghost d0 = self@.dirt;
        let mut hit: u8 = 0;
        let mut dx: u8 = 0;
        while dx < 8
            invariant
                self.wf(),
                old(self).wf(),
                ym < 32,
                dx <= 8,
                hit == 0 || hit == 1,
                self@.grid.len() == 32,
                g0.len() == 32,
                forall|r: int| 0 <= r < 32 && r != ym ==> self@.grid[r] == g0[r],
                self@.pc == old(self)@.pc,
                self@.sp == old(self)@.sp,
                self@.idx == old(self)@.idx,
                self@.dt == old(self)@.dt,
                self@.st == old(self)@.st,
                self@.regs == old(self)@.regs,
                self@.ram == old(self)@.ram,
                self@.stack == old(self)@.stack,
                self@.key == old(self)@.key,
                row_draw(self@.grid[ym as int], line, vx as int, dx) == row_draw(
                    g0[ym as int],
                    line,
                    vx as int,
                    0,
                ),
                ((hit == 1) || row_hit(self@.grid[ym as int], line, vx as int, dx)) == row_hit(
                    g0[ym as int],
                    line,
                    vx as int,
                    0,
                ),
                self@.dirt + row_coords(line, vx as int, ym as int, dx) == d0 + row_coords(
                    line,
                    vx as int,
                    ym as int,
                    0,
                ),
            decreases 8 - dx,
        {
            let ghost gprev = self@.grid;
            let ghost dprev = self@.dirt;
            if line & (0x80u8 >> dx) != 0 {
                let px = ((vx as u16 + dx as u16) % 64) as u8;
                let t = self.display.toggle(px, ym);
                proof {
                    assert(px as int == (vx as int + dx) % 64);
                    assert(px as int % 64 == px as int);
                    assert(ym as int % 32 == ym as int);
                    assert(self@.grid == gprev.update(
                        ym as int,
                        gprev[ym as int] ^ display::msb_mask((vx as int + dx) % 64),
                    ));
                    assert(self@.dirt =~= dprev + seq![
                        ((((vx as int + dx) % 64) as u8), (ym as u8)),
                    ]);
                    assert(row_coords(line, vx as int, ym as int, dx as u8) == seq![
                        ((((vx as int + dx) % 64) as u8), (ym as u8)),
                    ] + row_coords(line, vx as int, ym as int, (dx + 1) as u8));
                    assert(self@.dirt + row_coords(line, vx as int, ym as int, (dx + 1) as u8)
                        =~= dprev + row_coords(line, vx as int, ym as int, dx as u8));
                }
                if t == 1 {
                    hit = 1;
                }
            } else {
                proof {
                    assert(row_coords(line, vx as int, ym as int, dx as u8) =~= row_coords(
                        line,
                        vx as int,
                        ym as int,
                        (dx + 1) as u8,
                    ));
                }
            }
            dx = dx + 1;
        }
        proof {
            assert(self@.grid =~= g0.update(
                ym as int,
                row_draw(g0[ym as int], line, vx as int, 0),
            ));
            assert(row_coords(line, vx as int, ym as int, 8) =~= Seq::<(u8, u8)>::empty());
            assert(self@.dirt =~= self@.dirt + row_coords(line, vx as int, ym as int, 8));
            assert(self@.dirt =~= d0 + row_coords(line, vx as int, ym as int, 0));
        }
        hit
    }

    /// Draw the `n`-row sprite held in memory at the index register, at
    /// the coordinates held in registers `x` and `y`, and record the
    /// collision flag in the flag register.
    fn draw_sprite(&mut self, x: cpu::Reg, y: cpu::Reg, n: u8)
        requires
            old(self).wf(),
            x.wf(),
            y.wf(),
            n < 16,
            n > 0 ==> old(self)@.idx + n <= 0x1000,
        ensures
            final(self).wf(),
            ({
                let pre = old(self)@;
                let regs0 = pre.regs.update(15, 0u8);
                let vx = regs0[x.0 as int] as int;
                let vy = regs0[y.0 as int] as int;
                final(self)@ == (State {
                    regs: pre.regs.update(
                        15,
                        if draw_hit(pre.grid, pre.ram, pre.idx, vx, vy, 0, n) {
                            1u8
                        } else {
                            0u8
                        },
                    ),
                    grid: draw_grid(pre.grid, pre.ram, pre.idx, vx, vy, 0, n),
                    dirt: pre.dirt + draw_coords(pre.ram, pre.idx, vx, vy, 0, n),
                    ..pre
                })
            }),
    {
        self.cpu.set(cpu::Reg(cpu::FLAG_REG), 0);
        let vx = self.cpu.get(x);
        let vy = self.cpu.get(y);
        let idx = self.cpu.idx.0;
        let ghost g0 = self@.grid;
        let ghost d0 = self@.dirt;
        let ghost ram0 = self@.ram;
        let ghost vxi = vx as int;
        let ghost vyi = vy as int;
        let ghost idxi = idx as int;
        let mut hit: u8 = 0;
        let mut dy: u8 = 0;
        while dy < n
            invariant
                self.wf(),
                old(self).wf(),
                n < 16,
                dy <= n,
                vxi == vx as int,
                vyi == vy as int,
                hit == 0 || hit == 1,
                n > 0 ==> idxi + n <= 0x1000,
                idx == old(self)@.idx,
                idxi == idx as int,
                self@.grid.len() == 32,
                g0.len() == 32,
                self@.pc == old(self)@.pc,
                self@.sp == old(self)@.sp,
                self@.idx == old(self)@.idx,
                self@.dt == old(self)@.dt,
                self@.st == old(self)@.st,
                self@.regs == old(self)@.regs.update(15, 0u8),
                self@.ram == ram0,
                self@.stack == old(self)@.stack,
                self@.key == old(self)@.key,
                draw_grid(self@.grid, ram0, idxi, vxi, vyi, dy, n) == draw_grid(
                    g0,
                    ram0,
                    idxi,
                    vxi,
                    vyi,
                    0,
                    n,
                ),
                ((hit == 1) || draw_hit(self@.grid, ram0, idxi, vxi, vyi, dy, n)) == draw_hit(
                    g0,
                    ram0,
                    idxi,
                    vxi,
                    vyi,
                    0,
                    n,
                ),
                self@.dirt + draw_coords(ram0, idxi, vxi, vyi, dy, n) == d0 + draw_coords(
                    ram0,
                    idxi,
                    vxi,
                    vyi,
                    0,
                    n,
                ),
            decreases n - dy,
        {
            let line = self.ram.read(ram::Addr(idx + dy as u16));
            let ym = ((vy as u16 + dy as u16) % 32) as u8;
            let ghost gprev = self@.grid;
            let ghost dprev = self@.dirt;
            proof {
                assert(ym as int == (vyi + dy) % 32);
                assert(line == ram0[idxi + dy]);
            }
            let rh = self.draw_row(line, vx, ym);
            proof {
                assert(self@.grid == gprev.update(
                    (vyi + dy) % 32,
                    row_draw(gprev[(vyi + dy) % 32], ram0[idxi + dy], vxi, 0),
                ));
                assert(self@.dirt =~= (dprev + row_coords(ram0[idxi + dy], vxi, (vyi + dy) % 32, 0)));
                assert(draw_coords(ram0, idxi, vxi, vyi, dy as u8, n) == row_coords(
                    ram0[idxi + dy],
                    vxi,
                    (vyi + dy) % 32,
                    0,
                ) + draw_coords(ram0, idxi, vxi, vyi, (dy + 1) as u8, n));
                assert(self@.dirt + draw_coords(ram0, idxi, vxi, vyi, (dy + 1) as u8, n)
                    =~= dprev + draw_coords(ram0, idxi, vxi, vyi, dy as u8, n));
            }
            if rh == 1 {
                hit = 1;
            }
            dy = dy + 1;
        }
        proof {
            assert(draw_coords(ram0, idxi, vxi, vyi, n, n) =~= Seq::<(u8, u8)>::empty());
            assert(self@.dirt =~= self@.dirt + draw_coords(ram0, idxi, vxi, vyi, n, n));
            assert(self@.dirt =~= d0 + draw_coords(ram0, idxi, vxi, vyi, 0, n));
        }
        if hit == 1 {
            self.cpu.set(cpu::Reg(cpu::FLAG_REG), 1);
            proof {
                assert(self@.regs =~= old(self)@.regs.update(15, 1u8));
            }
        }
    }

    /// Store the three decimal digits of register `x` at the index
    /// register: hundreds, tens, ones.
    fn bcd(&mut self, x: cpu::Reg)
        requires
            old(self).wf(),
            x.wf(),
            old(self)@.idx + 2 < 0x1000,
        ensures
            final(self).wf(),
            ({
                let pre = old(self)@;
                let vx = pre.regs[x.0 as int];
                final(self)@ == (State {
                    ram: pre.ram.update(pre.idx, (vx / 100) as u8).update(
                        pre.idx + 1,
                        ((vx / 10) % 10) as u8,
                    ).update(pre.idx + 2, (vx % 10) as u8),
                    ..pre
                })
            }),
    {
        let vx = self.cpu.get(x);
        let i = self.cpu.idx.0;
        self.ram.write(ram::Addr(i), vx / 100);
        self.ram.write(ram::Addr(i + 1), (vx / 10) % 10);
        self.ram.write(ram::Addr(i + 2), vx % 10);
    }

    /// Write registers 0 through `x` to memory starting at the index
    /// register, then advance the index register past the block.
    fn store_block(&mut self, x: u8)
        requires
            old(self).wf(),
            x < 16,
            old(self)@.idx + x + 1 < 0x1000,
        ensures
            final(self).wf(),
            ({
                let pre = old(self)@;
                final(self)@ == (State {
                    ram: Seq::new(
                        4096,
                        |i: int|
                            if pre.idx <= i <= pre.idx + x {
                                pre.regs[i - pre.idx]
                            } else {
                                pre.ram[i]
                            },
                    ),
                    idx: pre.idx + x + 1,
                    ..pre
                })
            }),
    {
        let idx = self.cpu.idx.0;
        let mut off: u8 = 0;
        while off <= x
            invariant
                self.wf(),
                old(self).wf(),
                x < 16,
                off <= x + 1,
                idx == old(self)@.idx,
                idx as int + x + 1 < 0x1000,
                self@.pc == old(self)@.pc,
                self@.sp == old(self)@.sp,
                self@.idx == old(self)@.idx,
                self@.dt == old(self)@.dt,
                self@.st == old(self)@.st,
                self@.regs == old(self)@.regs,
                self@.stack == old(self)@.stack,
                self@.key == old(self)@.key,
                self@.grid == old(self)@.grid,
                self@.dirt == old(self)@.dirt,
                self@.ram.len() == 4096,
                forall|k: int|
                    idx <= k < idx + off ==> self@.ram[k] == old(self)@.regs[k - idx],
                forall|k: int|
                    0 <= k < 4096 && !(idx <= k < idx + off) ==> self@.ram[k] == old(self)@.ram[k],
            decreases x + 1 - off,
        {
            let v = self.cpu.get(cpu::Reg(off));
            self.ram.write(ram::Addr(idx + off as u16), v);
            off = off + 1;
        }
        self.cpu.idx = ram::Addr(idx + x as u16 + 1);
        proof {
            let pre = old(self)@;
            assert(self@.ram =~= Seq::new(
                4096,
                |i: int|
                    if pre.idx <= i <= pre.idx + x {
                        pre.regs[i - pre.idx]
                    } else {
                        pre.ram[i]
                    },
            ));
        }
    }

    /// Load registers 0 through `x` from memory starting at the index
    /// register, then advance the index register past the block.
    fn load_block(&mut self, x: u8)
        requires
            old(self).wf(),
            x < 16,
            old(self)@.idx + x + 1 < 0x1000,
        ensures
            final(self).wf(),
            ({
                let pre = old(self)@;
                final(self)@ == (State {
                    regs: Seq::new(
                        16,
                        |i: int|
                            if i <= x {
                                pre.ram[pre.idx + i]
                            } else {
                                pre.regs[i]
                            },
                    ),
                    idx: pre.idx + x + 1,
                    ..pre
                })
            }),
    {
        let idx = self.cpu.idx.0;
        let mut off: u8 = 0;
        while off <= x
            invariant
                self.wf(),
                old(self).wf(),
                x < 16,
                off <= x + 1,
                idx == old(self)@.idx,
                idx as int + x + 1 < 0x1000,
                self@.pc == old(self)@.pc,
                self@.sp == old(self)@.sp,
                self@.idx == old(self)@.idx,
                self@.dt == old(self)@.dt,
                self@.st == old(self)@.st,
                self@.ram == old(self)@.ram,
                self@.stack == old(self)@.stack,
                self@.key == old(self)@.key,
                self@.grid == old(self)@.grid,
                self@.dirt == old(self)@.dirt,
                self@.regs.len() == 16,
                forall|k: int| 0 <= k < off ==> self@.regs[k] == old(self)@.ram[idx + k],
                forall|k: int| off <= k < 16 ==> self@.regs[k] == old(self)@.regs[k],
            decreases x + 1 - off,
        {
            let v = self.ram.read(ram::Addr(idx + off as u16));
            self.cpu.set(cpu::Reg(off), v);
            off = off + 1;
        }
        self.cpu.idx = ram::Addr(idx + x as u16 + 1);
        proof {
            let pre = old(self)@;
            assert(self@.regs =~= Seq::new(
                16,
                |i: int|
                    if i <= x {
                        pre.ram[pre.idx + i]
                    } else {
                        pre.regs[i]
                    },
            ));
        }
    }
}


impl Chip {
    /// Execute one full cycle, deterministically: fetch the opcode at the
    /// program counter (high byte first), decode it, advance the counter
    /// past it, then execute, with `rnd` as the byte the random-number
    /// instruction consumes. On an error the machine is left exactly as
    /// it was.
    pub fn step_with(&mut self, rnd: u8) -> (r: Result<(), Error>)
        requires
            old(self).wf(),
        ensures
            final(self).wf(),
            ({
                let pre = old(self)@;
                match step_error(pre) {
                    Some(e) => r == Err::<(), Error>(e) && final(self)@ == pre,
                    None => r == Ok::<(), Error>(()) && final(self)@ == step_next(pre, rnd),
                }
            }),
    {
        let ghost pre = self@;
        let pc = self.cpu.pc.0;
        if pc + 1 >= 0x1000 {
            return Err(Error::AddressRange);
        }
        let hi = self.ram.read(ram::Addr(pc));
        let lo = self.ram.read(ram::Addr(pc + 1));
        let op = match isa::Asm::parse(hi, lo) {
            Some(op) => op,
            None => {
                return Err(Error::Decode(hi as u16 * 256 + lo as u16));
            },
        };
        if pc + 2 >= 0x1000 {
            return Err(Error::AddressRange);
        }
        let pc2 = pc + 2;
        let ghost s2 = State { pc: pre.pc + 2, ..pre };
        match op {
            isa::Asm::SYS(_) => {
                self.cpu.pc = ram::Addr(pc2);
            },
            isa::Asm::CLS => {
                self.cpu.pc = ram::Addr(pc2);
                self.display.clear();
            },
            isa::Asm::RET => {
                if self.cpu.sp.0 == 0 {
                    return Err(Error::StackUnderflow);
                }
                self.cpu.sp.dec();
                let target = self.stack.get(self.cpu.sp);
                self.cpu.pc = ram::Addr(target);
            },
            isa::Asm::JP(a) => {
                self.cpu.pc = a;
            },
            isa::Asm::CALL(a) => {
                if self.cpu.sp.0 == 16 {
                    return Err(Error::StackOverflow);
                }
                self.stack.set(self.cpu.sp, pc2);
                self.cpu.sp.inc();
                self.cpu.pc = a;
            },
            isa::Asm::SEC(x, kk) => {
                if self.cpu.get(x) == kk {
                    if pc2 + 2 >= 0x1000 {
                        return Err(Error::AddressRange);
                    }
                    self.cpu.pc = ram::Addr(pc2 + 2);
                } else {
                    self.cpu.pc = ram::Addr(pc2);
                }
            },
            isa::Asm::SNEC(x, kk) => {
                if self.cpu.get(x) != kk {
                    if pc2 + 2 >= 0x1000 {
                        return Err(Error::AddressRange);
                    }
                    self.cpu.pc = ram::Addr(pc2 + 2);
                } else {
                    self.cpu.pc = ram::Addr(pc2);
                }
            },
            isa::Asm::SER(x, y) => {
                if self.cpu.get(x) == self.cpu.get(y) {
                    if pc2 + 2 >= 0x1000 {
                        return Err(Error::AddressRange);
                    }
                    self.cpu.pc = ram::Addr(pc2 + 2);
                } else {
                    self.cpu.pc = ram::Addr(pc2);
                }
            },
            isa::Asm::SNER(x, y) => {
                if self.cpu.get(x) != self.cpu.get(y) {
                    if pc2 + 2 >= 0x1000 {
                        return Err(Error::AddressRange);
                    }
                    self.cpu.pc = ram::Addr(pc2 + 2);
                } else {
                    self.cpu.pc = ram::Addr(pc2);
                }
            },
            isa::Asm::LDC(x, kk) => {
                self.cpu.pc = ram::Addr(pc2);
                self.cpu.set(x, kk);
            },
            isa::Asm::ADDC(x, kk) => {
                self.cpu.pc = ram::Addr(pc2);
                let vx = self.cpu.get(x);
                let sum = vx as u16 + kk as u16;
                self.cpu.set(x, (sum % 256) as u8);
            },
            isa::Asm::LDR(x, y) => {
                self.cpu.pc = ram::Addr(pc2);
                let vy = self.cpu.get(y);
                self.cpu.set(x, vy);
            },
            isa::Asm::OR(x, y) => {
                self.cpu.pc = ram::Addr(pc2);
                let v = self.cpu.get(x) | self.cpu.get(y);
                self.cpu.set(x, v);
            },
            isa::Asm::AND(x, y) => {
                self.cpu.pc = ram::Addr(pc2);
                let v = self.cpu.get(x) & self.cpu.get(y);
                self.cpu.set(x, v);
            },
            isa::Asm::XOR(x, y) => {
                self.cpu.pc = ram::Addr(pc2);
                let v = self.cpu.get(x) ^ self.cpu.get(y);
                self.cpu.set(x, v);
            },
            isa::Asm::ADDR(x, y) => {
                self.cpu.pc = ram::Addr(pc2);
                let vx = self.cpu.get(x);
                let vy = self.cpu.get(y);
                let z = vx as u16 + vy as u16;
                self.cpu.set(cpu::Reg(cpu::FLAG_REG), if z > 0xFF { 1 } else { 0 });
                self.cpu.set(x, (z % 256) as u8);
            },
            isa::Asm::SUB(x, y) => {
                self.cpu.pc = ram::Addr(pc2);
                let vx = self.cpu.get(x);
                let vy = self.cpu.get(y);
                self.cpu.set(cpu::Reg(cpu::FLAG_REG), if vx > vy { 1 } else { 0 });
                let d = if vx >= vy {
                    vx - vy
                } else {
                    (vx as u16 + 256 - vy as u16) as u8
                };
                self.cpu.set(x, d);
            },
            isa::Asm::SHR(x, _) => {
                self.cpu.pc = ram::Addr(pc2);
                let vx = self.cpu.get(x);
                self.cpu.set(cpu::Reg(cpu::FLAG_REG), vx & 1);
                self.cpu.set(x, vx >> 1u8);
            },
            isa::Asm::SUBN(x, y) => {
                self.cpu.pc = ram::Addr(pc2);
                let vx = self.cpu.get(x);
                let vy = self.cpu.get(y);
                self.cpu.set(cpu::Reg(cpu::FLAG_REG), if vy > vx { 1 } else { 0 });
                let d = if vy >= vx {
                    vy - vx
                } else {
                    (vy as u16 + 256 - vx as u16) as u8
                };
                self.cpu.set(x, d);
            },
            isa::Asm::SHL(x, _) => {
                self.cpu.pc = ram::Addr(pc2);
                let vx = self.cpu.get(x);
                self.cpu.set(
                    cpu::Reg(cpu::FLAG_REG),
                    if vx & 0x80 != 0 {
                        1
                    } else {
                        0
                    },
                );
                self.cpu.set(x, vx << 1u8);
            },
            isa::Asm::LDI(a) => {
                self.cpu.pc = ram::Addr(pc2);
                self.cpu.idx = a;
            },
            isa::Asm::JO(a) => {
                let t = a.0 + self.cpu.get(cpu::Reg(0)) as u16;
                if t >= 0x1000 {
                    return Err(Error::AddressRange);
                }
                self.cpu.pc = ram::Addr(t);
            },
            isa::Asm::RND(x, kk) => {
                self.cpu.pc = ram::Addr(pc2);
                self.cpu.set(x, rnd & kk);
            },
            isa::Asm::DRW(x, y, n) => {
                if n > 0 && self.cpu.idx.0 + n as u16 > 0x1000 {
                    return Err(Error::AddressRange);
                }
                self.cpu.pc = ram::Addr(pc2);
                self.draw_sprite(x, y, n);
            },
            isa::Asm::SKP(x) => {
                let cond = match self.key {
                    Some(kv) => kv == self.cpu.get(x),
                    None => false,
                };
                if cond && pc2 + 2 >= 0x1000 {
                    return Err(Error::AddressRange);
                }
                self.key = None;
                self.cpu.pc = if cond {
                    ram::Addr(pc2 + 2)
                } else {
                    ram::Addr(pc2)
                };
            },
            isa::Asm::SKNP(x) => {
                let cond = match self.key {
                    Some(kv) => kv != self.cpu.get(x),
                    None => true,
                };
                if cond && pc2 + 2 >= 0x1000 {
                    return Err(Error::AddressRange);
                }
                self.key = None;
                self.cpu.pc = if cond {
                    ram::Addr(pc2 + 2)
                } else {
                    ram::Addr(pc2)
                };
            },
            isa::Asm::LDTR(x) => {
                self.cpu.pc = ram::Addr(pc2);
                let dt = self.cpu.dt;
                self.cpu.set(x, dt);
            },
            isa::Asm::LDK(x) => {
                match self.key {
                    None => {
                        // leave the program counter where it was: the same
                        // instruction is fetched and retried next cycle
                    },
                    Some(k) => {
                        self.key = None;
                        self.cpu.pc = ram::Addr(pc2);
                        self.cpu.set(x, k);
                    },
                }
            },
            isa::Asm::LDRT(x) => {
                self.cpu.pc = ram::Addr(pc2);
                self.cpu.dt = self.cpu.get(x);
            },
            isa::Asm::LDRS(x) => {
                self.cpu.pc = ram::Addr(pc2);
                self.cpu.st = self.cpu.get(x);
            },
            isa::Asm::ADDI(x) => {
                let t = self.cpu.idx.0 + self.cpu.get(x) as u16;
                if t >= 0x1000 {
                    return Err(Error::AddressRange);
                }
                self.cpu.pc = ram::Addr(pc2);
                self.cpu.idx = ram::Addr(t);
            },
            isa::Asm::LDS(x) => {
                self.cpu.pc = ram::Addr(pc2);
                let vx = self.cpu.get(x);
                self.cpu.idx = ram::Addr(ram::FONT_OFFSET + vx as u16 * 5);
            },
            isa::Asm::LDB(x) => {
                if self.cpu.idx.0 + 2 >= 0x1000 {
                    return Err(Error::AddressRange);
                }
                self.cpu.pc = ram::Addr(pc2);
                self.bcd(x);
            },
            isa::Asm::WR(x) => {
                if self.cpu.idx.0 + x as u16 + 1 >= 0x1000 {
                    return Err(Error::AddressRange);
                }
                self.cpu.pc = ram::Addr(pc2);
                self.store_block(x);
            },
            isa::Asm::RD(x) => {
                if self.cpu.idx.0 + x as u16 + 1 >= 0x1000 {
                    return Err(Error::AddressRange);
                }
                self.cpu.pc = ram::Addr(pc2);
                self.load_block(x);
            },
        }
        Ok(())
    }

    /// Execute one full cycle. The random-number instruction draws its
    /// byte from the system generator, so the outcome of a cycle is fixed
    /// up to that byte; every other instruction is deterministic.
    pub fn step(&mut self) -> (r: Result<(), Error>)
        requires
            old(self).wf(),
        ensures
            final(self).wf(),
            ({
                let pre = old(self)@;
                match step_error(pre) {
                    Some(e) => r == Err::<(), Error>(e) && final(self)@ == pre,
                    None => r == Ok::<(), Error>(()) && (exists|rnd: u8|
                        final(self)@ == step_next(pre, rnd)),
                }
            }),
    {
        let rnd = random_byte();
        let r = self.step_with(rnd);
        proof {
            if step_error(old(self)@) is None {
                assert(self@ == step_next(old(self)@, rnd));
            }
        }
        r
    }
}

} // verus!
