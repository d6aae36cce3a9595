use vstd::prelude::*;
use vstd::string::StringExecFns;

use crate::cpu;
use crate::ram;

verus! {

/// A decoded instruction: a tagged variant over the 35 operation kinds,
/// carrying every operand nibble its opcode assigns, so that decoding
/// and re-encoding reproduce the opcode.
///
/// An opcode is 16 bits, written as four nibbles `n3 n2 n1 n0`; `n3`
/// selects the family and, for families 0x0, 0x5, 0x8, 0x9, 0xE and 0xF,
/// the remaining nibbles disambiguate among sub-operations.
#[derive(Copy, Clone, Debug, PartialEq, Eq, Structural)]
pub enum Asm {
    /// Jump to machine code routine at address (ignored by the engine)
    SYS(ram::Addr),
    /// Clear screen
    CLS,
    /// Return from subroutine
    RET,
    /// Jump to address
    JP(ram::Addr),
    /// Call subroutine at address
    CALL(ram::Addr),
    /// Skip next instruction if register contents equal constant
    SEC(cpu::Reg, u8),
    /// Skip next instruction if register contents do not equal constant
    SNEC(cpu::Reg, u8),
    /// Skip next instruction if register contents are equal
    SER(cpu::Reg, cpu::Reg),
    /// Load constant into register
    LDC(cpu::Reg, u8),
    /// Destructive constant addition (wrapping, no flag)
    ADDC(cpu::Reg, u8),
    /// Load register contents into register
    LDR(cpu::Reg, cpu::Reg),
    /// Destructive register bitwise OR
    OR(cpu::Reg, cpu::Reg),
    /// Destructive register bitwise AND
    AND(cpu::Reg, cpu::Reg),
    /// Destructive register bitwise XOR
    XOR(cpu::Reg, cpu::Reg),
    /// Destructive register addition; the flag register records the carry
    ADDR(cpu::Reg, cpu::Reg),
    /// Destructive left-to-right register subtraction; flag records no-borrow
    SUB(cpu::Reg, cpu::Reg),
    /// Shift right by one; flag records the bit shifted out. The second
    /// register is carried from the opcode but not read: this machine
    /// shifts a single register.
    SHR(cpu::Reg, cpu::Reg),
    /// Destructive right-to-left register subtraction; flag records no-borrow
    SUBN(cpu::Reg, cpu::Reg),
    /// Shift left by one; flag records the bit shifted out. The second
    /// register is carried from the opcode but not read.
    SHL(cpu::Reg, cpu::Reg),
    /// Skip next instruction if register contents are not equal
    SNER(cpu::Reg, cpu::Reg),
    /// Load address into register I
    LDI(ram::Addr),
    /// Jump to address plus offset V0
    JO(ram::Addr),
    /// Generate random number and bitwise AND with constant
    RND(cpu::Reg, u8),
    /// Display n-byte sprite at the coordinates held in two registers
    DRW(cpu::Reg, cpu::Reg, u8),
    /// Skip if key with value is pressed
    SKP(cpu::Reg),
    /// Skip if key with value is not pressed
    SKNP(cpu::Reg),
    /// Load value of delay timer into register
    LDTR(cpu::Reg),
    /// Load value of key press (retries until a key is latched)
    LDK(cpu::Reg),
    /// Load value of register into delay timer
    LDRT(cpu::Reg),
    /// Load value of register into sound timer
    LDRS(cpu::Reg),
    /// Destructive register addition into I
    ADDI(cpu::Reg),
    /// Set I to location of the built-in glyph for a digit
    LDS(cpu::Reg),
    /// Store BCD representation of register at I, I + 1, I + 2
    LDB(cpu::Reg),
    /// Write registers V0 through Vx to memory starting at I
    WR(u8),
    /// Read registers V0 through Vx from memory starting at I
    RD(u8),
}

/// The address operand of an opcode: its low 12 bits.
pub open spec fn spec_addr(hi: u8, lo: u8) -> ram::Addr {
    ram::Addr(((hi % 16) as int * 256 + lo as int) as u16)
}


/// The single hexadecimal digit naming the value `n` (0-15), uppercase.
pub open spec fn hex_chars(n: int) -> Seq<char> {
    if n == 0 {
        "0"@
    } else if n == 1 {
        "1"@
    } else if n == 2 {
        "2"@
    } else if n == 3 {
        "3"@
    } else if n == 4 {
        "4"@
    } else if n == 5 {
        "5"@
    } else if n == 6 {
        "6"@
    } else if n == 7 {
        "7"@
    } else if n == 8 {
        "8"@
    } else if n == 9 {
        "9"@
    } else if n == 10 {
        "A"@
    } else if n == 11 {
        "B"@
    } else if n == 12 {
        "C"@
    } else if n == 13 {
        "D"@
    } else if n == 14 {
        "E"@
    } else {
        "F"@
    }
}

/// A register's name: `V` followed by its hexadecimal index.
pub open spec fn reg_chars(r: cpu::Reg) -> Seq<char> {
    "V"@ + hex_chars(r.0 as int)
}

/// A byte operand, written as `0x` and two hexadecimal digits.
pub open spec fn byte_chars(kk: u8) -> Seq<char> {
    "0x"@ + hex_chars(kk as int / 16) + hex_chars(kk as int % 16)
}

/// An address operand, written as `0x` and three hexadecimal digits.
pub open spec fn addr_chars(a: ram::Addr) -> Seq<char> {
    "0x"@ + hex_chars(a.0 as int / 256) + hex_chars((a.0 as int / 16) % 16) + hex_chars(
        a.0 as int % 16,
    )
}

/// A byte operand, written in decimal without leading zeros.
pub open spec fn dec_chars(kk: u8) -> Seq<char> {
    if kk < 10 {
        hex_chars(kk as int)
    } else if kk < 100 {
        hex_chars(kk as int / 10) + hex_chars(kk as int % 10)
    } else {
        hex_chars(kk as int / 100) + hex_chars((kk as int / 10) % 10) + hex_chars(kk as int % 10)
    }
}

/// The assembler mnemonic that `Asm::mnemonic` renders an instruction as.
pub open spec fn spec_mnemonic(a: Asm) -> Seq<char> {
    match a {
        Asm::SYS(ad) => "SYS "@ + addr_chars(ad),
        Asm::CLS => "CLS"@,
        Asm::RET => "RET"@,
        Asm::JP(ad) => "JP "@ + addr_chars(ad),
        Asm::CALL(ad) => "CALL "@ + addr_chars(ad),
        Asm::SEC(x, kk) => "SE "@ + reg_chars(x) + ", "@ + byte_chars(kk),
        Asm::SNEC(x, kk) => "SNE "@ + reg_chars(x) + ", "@ + byte_chars(kk),
        Asm::SER(x, y) => "SE "@ + reg_chars(x) + ", "@ + reg_chars(y),
        Asm::LDC(x, kk) => "LD "@ + reg_chars(x) + ", "@ + byte_chars(kk),
        Asm::ADDC(x, kk) => "ADD "@ + reg_chars(x) + ", "@ + byte_chars(kk),
        Asm::LDR(x, y) => "LD "@ + reg_chars(x) + ", "@ + reg_chars(y),
        Asm::OR(x, y) => "OR "@ + reg_chars(x) + ", "@ + reg_chars(y),
        Asm::AND(x, y) => "AND "@ + reg_chars(x) + ", "@ + reg_chars(y),
        Asm::XOR(x, y) => "XOR "@ + reg_chars(x) + ", "@ + reg_chars(y),
        Asm::ADDR(x, y) => "ADD "@ + reg_chars(x) + ", "@ + reg_chars(y),
        Asm::SUB(x, y) => "SUB "@ + reg_chars(x) + ", "@ + reg_chars(y),
        Asm::SHR(x, _) => "SHR "@ + reg_chars(x),
        Asm::SUBN(x, y) => "SUBN "@ + reg_chars(x) + ", "@ + reg_chars(y),
        Asm::SHL(x, _) => "SHL "@ + reg_chars(x),
        Asm::SNER(x, y) => "SNE "@ + reg_chars(x) + ", "@ + reg_chars(y),
        Asm::LDI(ad) => "LD I, "@ + addr_chars(ad),
        Asm::JO(ad) => "JP V0, "@ + addr_chars(ad),
        Asm::RND(x, kk) => "RND "@ + reg_chars(x) + ", "@ + dec_chars(kk),
        Asm::DRW(x, y, n) => "DRW "@ + reg_chars(x) + ", "@ + reg_chars(y) + ", "@ + dec_chars(n),
        Asm::SKP(x) => "SKP "@ + reg_chars(x),
        Asm::SKNP(x) => "SKNP "@ + reg_chars(x),
        Asm::LDTR(x) => "LD "@ + reg_chars(x) + ", DT"@,
        Asm::LDK(x) => "LD "@ + reg_chars(x) + ", K"@,
        Asm::LDRT(x) => "LD DT, "@ + reg_chars(x),
        Asm::LDRS(x) => "LD ST, "@ + reg_chars(x),
        Asm::ADDI(x) => "ADD I, "@ + reg_chars(x),
        Asm::LDS(x) => "LD F, "@ + reg_chars(x),
        Asm::LDB(x) => "LD B, "@ + reg_chars(x),
        Asm::WR(x) => "LD [I], V"@ + hex_chars(x as int),
        Asm::RD(x) => "LD V"@ + hex_chars(x as int) + ", [I]"@,
    }
}

/// The single hexadecimal digit naming `n` (0-15), uppercase.
fn hex_str(n: u8) -> (r: &'static str)
    requires
        n < 16,
    ensures
        r@ == hex_chars(n as int),
{
    match n {
        0 => "0",
        1 => "1",
        2 => "2",
        3 => "3",
        4 => "4",
        5 => "5",
        6 => "6",
        7 => "7",
        8 => "8",
        9 => "9",
        10 => "A",
        11 => "B",
        12 => "C",
        13 => "D",
        14 => "E",
        _ => "F",
    }
}

/// Append a register's name.
fn push_reg(s: &mut String, r: cpu::Reg)
    requires
        r.wf(),
    ensures
        final(s)@ == old(s)@ + reg_chars(r),
{
    s.append("V");
    s.append(hex_str(r.0));
    proof {
        assert(s@ =~= old(s)@ + reg_chars(r));
    }
}

/// Append a byte operand in hexadecimal.
fn push_byte(s: &mut String, kk: u8)
    ensures
        final(s)@ == old(s)@ + byte_chars(kk),
{
    s.append("0x");
    s.append(hex_str(kk / 16));
    s.append(hex_str(kk % 16));
    proof {
        assert(s@ =~= old(s)@ + byte_chars(kk));
    }
}

/// Append an address operand in hexadecimal.
fn push_addr(s: &mut String, a: ram::Addr)
    requires
        a.wf(),
    ensures
        final(s)@ == old(s)@ + addr_chars(a),
{
    s.append("0x");
    s.append(hex_str((a.0 / 256) as u8));
    s.append(hex_str(((a.0 / 16) % 16) as u8));
    s.append(hex_str((a.0 % 16) as u8));
    proof {
        assert(s@ =~= old(s)@ + addr_chars(a));
    }
}

/// Append a byte operand in decimal, without leading zeros.
fn push_dec(s: &mut String, kk: u8)
    ensures
        final(s)@ == old(s)@ + dec_chars(kk),
{
    if kk < 10 {
        s.append(hex_str(kk));
    } else if kk < 100 {
        s.append(hex_str(kk / 10));
        s.append(hex_str(kk % 10));
        proof {
            assert(s@ =~= old(s)@ + dec_chars(kk));
        }
    } else {
        s.append(hex_str(kk / 100));
        s.append(hex_str((kk / 10) % 10));
        s.append(hex_str(kk % 10));
        proof {
            assert(s@ =~= old(s)@ + dec_chars(kk));
        }
    }
}

impl Asm {
    /// Every operand carried by a decoded instruction is in range.
    pub open spec fn wf(self) -> bool {
        match self {
            Asm::SYS(a) => a.wf(),
            Asm::CLS => true,
            Asm::RET => true,
            Asm::JP(a) => a.wf(),
            Asm::CALL(a) => a.wf(),
            Asm::SEC(x, _) => x.wf(),
            Asm::SNEC(x, _) => x.wf(),
            Asm::SER(x, y) => x.wf() && y.wf(),
            Asm::LDC(x, _) => x.wf(),
            Asm::ADDC(x, _) => x.wf(),
            Asm::LDR(x, y) => x.wf() && y.wf(),
            Asm::OR(x, y) => x.wf() && y.wf(),
            Asm::AND(x, y) => x.wf() && y.wf(),
            Asm::XOR(x, y) => x.wf() && y.wf(),
            Asm::ADDR(x, y) => x.wf() && y.wf(),
            Asm::SUB(x, y) => x.wf() && y.wf(),
            Asm::SHR(x, y) => x.wf() && y.wf(),
            Asm::SUBN(x, y) => x.wf() && y.wf(),
            Asm::SHL(x, y) => x.wf() && y.wf(),
            Asm::SNER(x, y) => x.wf() && y.wf(),
            Asm::LDI(a) => a.wf(),
            Asm::JO(a) => a.wf(),
            Asm::RND(x, _) => x.wf(),
            Asm::DRW(x, y, n) => x.wf() && y.wf() && n < 16,
            Asm::SKP(x) => x.wf(),
            Asm::SKNP(x) => x.wf(),
            Asm::LDTR(x) => x.wf(),
            Asm::LDK(x) => x.wf(),
            Asm::LDRT(x) => x.wf(),
            Asm::LDRS(x) => x.wf(),
            Asm::ADDI(x) => x.wf(),
            Asm::LDS(x) => x.wf(),
            Asm::LDB(x) => x.wf(),
            Asm::WR(x) => x < 16,
            Asm::RD(x) => x < 16,
        }
    }
}

/// What `Asm::parse` returns on the opcode with bytes `hi`, `lo`: the
/// decoded instruction, or `None` when the nibble pattern matches no
/// known instruction.
pub open spec fn spec_decode(hi: u8, lo: u8) -> Option<Asm> {
    let n3 = hi / 16;
    let x = cpu::Reg(hi % 16);
    let y = cpu::Reg(lo / 16);
    let n0 = lo % 16;
    let a = spec_addr(hi, lo);
    if hi == 0x00 && lo == 0xE0 {
        Some(Asm::CLS)
    } else if hi == 0x00 && lo == 0xEE {
        Some(Asm::RET)
    } else if n3 == 0x0 {
        Some(Asm::SYS(a))
    } else if n3 == 0x1 {
        Some(Asm::JP(a))
    } else if n3 == 0x2 {
        Some(Asm::CALL(a))
    } else if n3 == 0x3 {
        Some(Asm::SEC(x, lo))
    } else if n3 == 0x4 {
        Some(Asm::SNEC(x, lo))
    } else if n3 == 0x5 && n0 == 0x0 {
        Some(Asm::SER(x, y))
    } else if n3 == 0x6 {
        Some(Asm::LDC(x, lo))
    } else if n3 == 0x7 {
        Some(Asm::ADDC(x, lo))
    } else if n3 == 0x8 && n0 == 0x0 {
        Some(Asm::LDR(x, y))
    } else if n3 == 0x8 && n0 == 0x1 {
        Some(Asm::OR(x, y))
    } else if n3 == 0x8 && n0 == 0x2 {
        Some(Asm::AND(x, y))
    } else if n3 == 0x8 && n0 == 0x3 {
        Some(Asm::XOR(x, y))
    } else if n3 == 0x8 && n0 == 0x4 {
        Some(Asm::ADDR(x, y))
    } else if n3 == 0x8 && n0 == 0x5 {
        Some(Asm::SUB(x, y))
    } else if n3 == 0x8 && n0 == 0x6 {
        Some(Asm::SHR(x, y))
    } else if n3 == 0x8 && n0 == 0x7 {
        Some(Asm::SUBN(x, y))
    } else if n3 == 0x8 && n0 == 0xE {
        Some(Asm::SHL(x, y))
    } else if n3 == 0x9 && n0 == 0x0 {
        Some(Asm::SNER(x, y))
    } else if n3 == 0xA {
        Some(Asm::LDI(a))
    } else if n3 == 0xB {
        Some(Asm::JO(a))
    } else if n3 == 0xC {
        Some(Asm::RND(x, lo))
    } else if n3 == 0xD {
        Some(Asm::DRW(x, y, n0))
    } else if n3 == 0xE && lo == 0x9E {
        Some(Asm::SKP(x))
    } else if n3 == 0xE && lo == 0xA1 {
        Some(Asm::SKNP(x))
    } else if n3 == 0xF && lo == 0x07 {
        Some(Asm::LDTR(x))
    } else if n3 == 0xF && lo == 0x0A {
        Some(Asm::LDK(x))
    } else if n3 == 0xF && lo == 0x15 {
        Some(Asm::LDRT(x))
    } else if n3 == 0xF && lo == 0x18 {
        Some(Asm::LDRS(x))
    } else if n3 == 0xF && lo == 0x1E {
        Some(Asm::ADDI(x))
    } else if n3 == 0xF && lo == 0x29 {
        Some(Asm::LDS(x))
    } else if n3 == 0xF && lo == 0x33 {
        Some(Asm::LDB(x))
    } else if n3 == 0xF && lo == 0x55 {
        Some(Asm::WR(hi % 16))
    } else if n3 == 0xF && lo == 0x65 {
        Some(Asm::RD(hi % 16))
    } else {
        None
    }
}

/// The opcode that an instruction encodes to, as a 16-bit value.
pub open spec fn spec_encode(a: Asm) -> int {
    match a {
        Asm::SYS(ad) => ad.0 as int,
        Asm::CLS => 0x00E0,
        Asm::RET => 0x00EE,
        Asm::JP(ad) => 0x1000 + ad.0,
        Asm::CALL(ad) => 0x2000 + ad.0,
        Asm::SEC(x, kk) => 0x3000 + x.0 * 256 + kk,
        Asm::SNEC(x, kk) => 0x4000 + x.0 * 256 + kk,
        Asm::SER(x, y) => 0x5000 + x.0 * 256 + y.0 * 16,
        Asm::LDC(x, kk) => 0x6000 + x.0 * 256 + kk,
        Asm::ADDC(x, kk) => 0x7000 + x.0 * 256 + kk,
        Asm::LDR(x, y) => 0x8000 + x.0 * 256 + y.0 * 16,
        Asm::OR(x, y) => 0x8001 + x.0 * 256 + y.0 * 16,
        Asm::AND(x, y) => 0x8002 + x.0 * 256 + y.0 * 16,
        Asm::XOR(x, y) => 0x8003 + x.0 * 256 + y.0 * 16,
        Asm::ADDR(x, y) => 0x8004 + x.0 * 256 + y.0 * 16,
        Asm::SUB(x, y) => 0x8005 + x.0 * 256 + y.0 * 16,
        Asm::SHR(x, y) => 0x8006 + x.0 * 256 + y.0 * 16,
        Asm::SUBN(x, y) => 0x8007 + x.0 * 256 + y.0 * 16,
        Asm::SHL(x, y) => 0x800E + x.0 * 256 + y.0 * 16,
        Asm::SNER(x, y) => 0x9000 + x.0 * 256 + y.0 * 16,
        Asm::LDI(ad) => 0xA000 + ad.0,
        Asm::JO(ad) => 0xB000 + ad.0,
        Asm::RND(x, kk) => 0xC000 + x.0 * 256 + kk,
        Asm::DRW(x, y, n) => 0xD000 + x.0 * 256 + y.0 * 16 + n,
        Asm::SKP(x) => 0xE09E + x.0 * 256,
        Asm::SKNP(x) => 0xE0A1 + x.0 * 256,
        Asm::LDTR(x) => 0xF007 + x.0 * 256,
        Asm::LDK(x) => 0xF00A + x.0 * 256,
        Asm::LDRT(x) => 0xF015 + x.0 * 256,
        Asm::LDRS(x) => 0xF018 + x.0 * 256,
        Asm::ADDI(x) => 0xF01E + x.0 * 256,
        Asm::LDS(x) => 0xF029 + x.0 * 256,
        Asm::LDB(x) => 0xF033 + x.0 * 256,
        Asm::WR(x) => 0xF055 + x * 256,
        Asm::RD(x) => 0xF065 + x * 256,
    }
}

impl Asm {
    /// Decode the two bytes of an opcode, high byte first. Returns `None`
    /// exactly when the nibble pattern matches no known instruction.
    pub fn parse(hi: u8, lo: u8) -> (r: Option<Self>)
        ensures
            r == spec_decode(hi, lo),
            r matches Some(a) ==> a.wf(),
    {
        let n3 = hi / 16;
        let x = cpu::Reg(hi % 16);
        let y = cpu::Reg(lo / 16);
        let n0 = lo % 16;
        let a = ram::Addr((hi % 16) as u16 * 256 + lo as u16);
        assert(a == spec_addr(hi, lo));
        if hi == 0x00 && lo == 0xE0 {
            Some(Asm::CLS)
        } else if hi == 0x00 && lo == 0xEE {
            Some(Asm::RET)
        } else if n3 == 0x0 {
            Some(Asm::SYS(a))
        } else if n3 == 0x1 {
            Some(Asm::JP(a))
        } else if n3 == 0x2 {
            Some(Asm::CALL(a))
        } else if n3 == 0x3 {
            Some(Asm::SEC(x, lo))
        } else if n3 == 0x4 {
            Some(Asm::SNEC(x, lo))
        } else if n3 == 0x5 && n0 == 0x0 {
            Some(Asm::SER(x, y))
        } else if n3 == 0x6 {
            Some(Asm::LDC(x, lo))
        } else if n3 == 0x7 {
            Some(Asm::ADDC(x, lo))
        } else if n3 == 0x8 && n0 == 0x0 {
            Some(Asm::LDR(x, y))
        } else if n3 == 0x8 && n0 == 0x1 {
            Some(Asm::OR(x, y))
        } else if n3 == 0x8 && n0 == 0x2 {
            Some(Asm::AND(x, y))
        } else if n3 == 0x8 && n0 == 0x3 {
            Some(Asm::XOR(x, y))
        } else if n3 == 0x8 && n0 == 0x4 {
            Some(Asm::ADDR(x, y))
        } else if n3 == 0x8 && n0 == 0x5 {
            Some(Asm::SUB(x, y))
        } else if n3 == 0x8 && n0 == 0x6 {
            Some(Asm::SHR(x, y))
        } else if n3 == 0x8 && n0 == 0x7 {
            Some(Asm::SUBN(x, y))
        } else if n3 == 0x8 && n0 == 0xE {
            Some(Asm::SHL(x, y))
        } else if n3 == 0x9 && n0 == 0x0 {
            Some(Asm::SNER(x, y))
        } else if n3 == 0xA {
            Some(Asm::LDI(a))
        } else if n3 == 0xB {
            Some(Asm::JO(a))
        } else if n3 == 0xC {
            Some(Asm::RND(x, lo))
        } else if n3 == 0xD {
            Some(Asm::DRW(x, y, n0))
        } else if n3 == 0xE && lo == 0x9E {
            Some(Asm::SKP(x))
        } else if n3 == 0xE && lo == 0xA1 {
            Some(Asm::SKNP(x))
        } else if n3 == 0xF && lo == 0x07 {
            Some(Asm::LDTR(x))
        } else if n3 == 0xF && lo == 0x0A {
            Some(Asm::LDK(x))
        } else if n3 == 0xF && lo == 0x15 {
            Some(Asm::LDRT(x))
        } else if n3 == 0xF && lo == 0x18 {
            Some(Asm::LDRS(x))
        } else if n3 == 0xF && lo == 0x1E {
            Some(Asm::ADDI(x))
        } else if n3 == 0xF && lo == 0x29 {
            Some(Asm::LDS(x))
        } else if n3 == 0xF && lo == 0x33 {
            Some(Asm::LDB(x))
        } else if n3 == 0xF && lo == 0x55 {
            Some(Asm::WR(hi % 16))
        } else if n3 == 0xF && lo == 0x65 {
            Some(Asm::RD(hi % 16))
        } else {
            None
        }
    }

    /// Re-encode an instruction as its 16-bit opcode.
    pub fn encode(&self) -> (r: u16)
        requires
            self.wf(),
        ensures
            r as int == spec_encode(*self),
    {
        match *self {
            Asm::SYS(ad) => ad.0,
            Asm::CLS => 0x00E0,
            Asm::RET => 0x00EE,
            Asm::JP(ad) => 0x1000 + ad.0,
            Asm::CALL(ad) => 0x2000 + ad.0,
            Asm::SEC(x, kk) => 0x3000 + x.0 as u16 * 256 + kk as u16,
            Asm::SNEC(x, kk) => 0x4000 + x.0 as u16 * 256 + kk as u16,
            Asm::SER(x, y) => 0x5000 + x.0 as u16 * 256 + y.0 as u16 * 16,
            Asm::LDC(x, kk) => 0x6000 + x.0 as u16 * 256 + kk as u16,
            Asm::ADDC(x, kk) => 0x7000 + x.0 as u16 * 256 + kk as u16,
            Asm::LDR(x, y) => 0x8000 + x.0 as u16 * 256 + y.0 as u16 * 16,
            Asm::OR(x, y) => 0x8001 + x.0 as u16 * 256 + y.0 as u16 * 16,
            Asm::AND(x, y) => 0x8002 + x.0 as u16 * 256 + y.0 as u16 * 16,
            Asm::XOR(x, y) => 0x8003 + x.0 as u16 * 256 + y.0 as u16 * 16,
            Asm::ADDR(x, y) => 0x8004 + x.0 as u16 * 256 + y.0 as u16 * 16,
            Asm::SUB(x, y) => 0x8005 + x.0 as u16 * 256 + y.0 as u16 * 16,
            Asm::SHR(x, y) => 0x8006 + x.0 as u16 * 256 + y.0 as u16 * 16,
            Asm::SUBN(x, y) => 0x8007 + x.0 as u16 * 256 + y.0 as u16 * 16,
            Asm::SHL(x, y) => 0x800E + x.0 as u16 * 256 + y.0 as u16 * 16,
            Asm::SNER(x, y) => 0x9000 + x.0 as u16 * 256 + y.0 as u16 * 16,
            Asm::LDI(ad) => 0xA000 + ad.0,
            Asm::JO(ad) => 0xB000 + ad.0,
            Asm::RND(x, kk) => 0xC000 + x.0 as u16 * 256 + kk as u16,
            Asm::DRW(x, y, n) => 0xD000 + x.0 as u16 * 256 + y.0 as u16 * 16 + n as u16,
            Asm::SKP(x) => 0xE09E + x.0 as u16 * 256,
            Asm::SKNP(x) => 0xE0A1 + x.0 as u16 * 256,
            Asm::LDTR(x) => 0xF007 + x.0 as u16 * 256,
            Asm::LDK(x) => 0xF00A + x.0 as u16 * 256,
            Asm::LDRT(x) => 0xF015 + x.0 as u16 * 256,
            Asm::LDRS(x) => 0xF018 + x.0 as u16 * 256,
            Asm::ADDI(x) => 0xF01E + x.0 as u16 * 256,
            Asm::LDS(x) => 0xF029 + x.0 as u16 * 256,
            Asm::LDB(x) => 0xF033 + x.0 as u16 * 256,
            Asm::WR(x) => 0xF055 + x as u16 * 256,
            Asm::RD(x) => 0xF065 + x as u16 * 256,
        }
    }

    /// Render the instruction as its assembler mnemonic: the operation
    /// name, then its operands — registers as `V` and a hex digit,
    /// addresses and byte constants in hexadecimal, sprite heights and
    /// random masks in decimal.
    pub fn mnemonic(&self) -> (r: String)
        requires
            self.wf(),
        ensures
            r@ == spec_mnemonic(*self),
    {
        let mut s = String::new();
        match *self {
            Asm::SYS(ad) => {
                s.append("SYS ");
                push_addr(&mut s, ad);
            },
            Asm::CLS => {
                s.append("CLS");
            },
            Asm::RET => {
                s.append("RET");
            },
            Asm::JP(ad) => {
                s.append("JP ");
                push_addr(&mut s, ad);
            },
            Asm::CALL(ad) => {
                s.append("CALL ");
                push_addr(&mut s, ad);
            },
            Asm::SEC(x, kk) => {
                s.append("SE ");
                push_reg(&mut s, x);
                s.append(", ");
                push_byte(&mut s, kk);
            },
            Asm::SNEC(x, kk) => {
                s.append("SNE ");
                push_reg(&mut s, x);
                s.append(", ");
                push_byte(&mut s, kk);
            },
            Asm::SER(x, y) => {
                s.append("SE ");
                push_reg(&mut s, x);
                s.append(", ");
                push_reg(&mut s, y);
            },
            Asm::LDC(x, kk) => {
                s.append("LD ");
                push_reg(&mut s, x);
                s.append(", ");
                push_byte(&mut s, kk);
            },
            Asm::ADDC(x, kk) => {
                s.append("ADD ");
                push_reg(&mut s, x);
                s.append(", ");
                push_byte(&mut s, kk);
            },
            Asm::LDR(x, y) => {
                s.append("LD ");
                push_reg(&mut s, x);
                s.append(", ");
                push_reg(&mut s, y);
            },
            Asm::OR(x, y) => {
                s.append("OR ");
                push_reg(&mut s, x);
                s.append(", ");
                push_reg(&mut s, y);
            },
            Asm::AND(x, y) => {
                s.append("AND ");
                push_reg(&mut s, x);
                s.append(", ");
                push_reg(&mut s, y);
            },
            Asm::XOR(x, y) => {
                s.append("XOR ");
                push_reg(&mut s, x);
                s.append(", ");
                push_reg(&mut s, y);
            },
            Asm::ADDR(x, y) => {
                s.append("ADD ");
                push_reg(&mut s, x);
                s.append(", ");
                push_reg(&mut s, y);
            },
            Asm::SUB(x, y) => {
                s.append("SUB ");
                push_reg(&mut s, x);
                s.append(", ");
                push_reg(&mut s, y);
            },
            Asm::SHR(x, _) => {
                s.append("SHR ");
                push_reg(&mut s, x);
            },
            Asm::SUBN(x, y) => {
                s.append("SUBN ");
                push_reg(&mut s, x);
                s.append(", ");
                push_reg(&mut s, y);
            },
            Asm::SHL(x, _) => {
                s.append("SHL ");
                push_reg(&mut s, x);
            },
            Asm::SNER(x, y) => {
                s.append("SNE ");
                push_reg(&mut s, x);
                s.append(", ");
                push_reg(&mut s, y);
            },
            Asm::LDI(ad) => {
                s.append("LD I, ");
                push_addr(&mut s, ad);
            },
            Asm::JO(ad) => {
                s.append("JP V0, ");
                push_addr(&mut s, ad);
            },
            Asm::RND(x, kk) => {
                s.append("RND ");
                push_reg(&mut s, x);
                s.append(", ");
                push_dec(&mut s, kk);
            },
            Asm::DRW(x, y, n) => {
                s.append("DRW ");
                push_reg(&mut s, x);
                s.append(", ");
                push_reg(&mut s, y);
                s.append(", ");
                push_dec(&mut s, n);
            },
            Asm::SKP(x) => {
                s.append("SKP ");
                push_reg(&mut s, x);
            },
            Asm::SKNP(x) => {
                s.append("SKNP ");
                push_reg(&mut s, x);
            },
            Asm::LDTR(x) => {
                s.append("LD ");
                push_reg(&mut s, x);
                s.append(", DT");
            },
            Asm::LDK(x) => {
                s.append("LD ");
                push_reg(&mut s, x);
                s.append(", K");
            },
            Asm::LDRT(x) => {
                s.append("LD DT, ");
                push_reg(&mut s, x);
            },
            Asm::LDRS(x) => {
                s.append("LD ST, ");
                push_reg(&mut s, x);
            },
            Asm::ADDI(x) => {
                s.append("ADD I, ");
                push_reg(&mut s, x);
            },
            Asm::LDS(x) => {
                s.append("LD F, ");
                push_reg(&mut s, x);
            },
            Asm::LDB(x) => {
                s.append("LD B, ");
                push_reg(&mut s, x);
            },
            Asm::WR(x) => {
                s.append("LD [I], V");
                s.append(hex_str(x));
            },
            Asm::RD(x) => {
                s.append("LD V");
                s.append(hex_str(x));
                s.append(", [I]");
            },
        }
        proof {
            assert(s@ =~= spec_mnemonic(*self));
        }
        s
    }
}

/// Law: decoding a syntactically valid opcode and re-encoding the result
/// reproduces the original opcode; an opcode whose nibble pattern has no
/// assigned instruction fails to decode.
pub proof fn lemma_decode_encode(hi: u8, lo: u8)
    ensures
        spec_decode(hi, lo) matches Some(a) ==> spec_encode(a) == hi as int * 256 + lo as int,
{
    assert(hi == (hi / 16) * 16 + hi % 16);
    assert(lo == (lo / 16) * 16 + lo % 16);
}

} // verus!
