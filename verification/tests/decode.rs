use chip::cpu::Reg;
use chip::isa::Asm;
use chip::ram::Addr;

#[test]
fn decode_examples() {
    assert_eq!(Asm::parse(0x00, 0xE0), Some(Asm::CLS));
    assert_eq!(Asm::parse(0x00, 0xEE), Some(Asm::RET));
    assert_eq!(Asm::parse(0x02, 0x34), Some(Asm::SYS(Addr(0x234))));
    assert_eq!(Asm::parse(0x12, 0x34), Some(Asm::JP(Addr(0x234))));
    assert_eq!(Asm::parse(0x23, 0x45), Some(Asm::CALL(Addr(0x345))));
    assert_eq!(Asm::parse(0x31, 0x23), Some(Asm::SEC(Reg(1), 0x23)));
    assert_eq!(Asm::parse(0x42, 0x34), Some(Asm::SNEC(Reg(2), 0x34)));
    assert_eq!(Asm::parse(0x51, 0x20), Some(Asm::SER(Reg(1), Reg(2))));
    assert_eq!(Asm::parse(0x6A, 0x42), Some(Asm::LDC(Reg(0xA), 0x42)));
    assert_eq!(Asm::parse(0x7B, 0x01), Some(Asm::ADDC(Reg(0xB), 0x01)));
    assert_eq!(Asm::parse(0x81, 0x20), Some(Asm::LDR(Reg(1), Reg(2))));
    assert_eq!(Asm::parse(0x81, 0x21), Some(Asm::OR(Reg(1), Reg(2))));
    assert_eq!(Asm::parse(0x81, 0x22), Some(Asm::AND(Reg(1), Reg(2))));
    assert_eq!(Asm::parse(0x81, 0x23), Some(Asm::XOR(Reg(1), Reg(2))));
    assert_eq!(Asm::parse(0x81, 0x24), Some(Asm::ADDR(Reg(1), Reg(2))));
    assert_eq!(Asm::parse(0x81, 0x25), Some(Asm::SUB(Reg(1), Reg(2))));
    assert_eq!(Asm::parse(0x81, 0x26), Some(Asm::SHR(Reg(1), Reg(2))));
    assert_eq!(Asm::parse(0x81, 0x27), Some(Asm::SUBN(Reg(1), Reg(2))));
    assert_eq!(Asm::parse(0x81, 0x2E), Some(Asm::SHL(Reg(1), Reg(2))));
    assert_eq!(Asm::parse(0x91, 0x20), Some(Asm::SNER(Reg(1), Reg(2))));
    assert_eq!(Asm::parse(0xA1, 0x23), Some(Asm::LDI(Addr(0x123))));
    assert_eq!(Asm::parse(0xB1, 0x23), Some(Asm::JO(Addr(0x123))));
    assert_eq!(Asm::parse(0xC7, 0x3F), Some(Asm::RND(Reg(7), 0x3F)));
    assert_eq!(Asm::parse(0xD1, 0x25), Some(Asm::DRW(Reg(1), Reg(2), 5)));
    assert_eq!(Asm::parse(0xE3, 0x9E), Some(Asm::SKP(Reg(3))));
    assert_eq!(Asm::parse(0xE3, 0xA1), Some(Asm::SKNP(Reg(3))));
    assert_eq!(Asm::parse(0xF4, 0x07), Some(Asm::LDTR(Reg(4))));
    assert_eq!(Asm::parse(0xF4, 0x0A), Some(Asm::LDK(Reg(4))));
    assert_eq!(Asm::parse(0xF4, 0x15), Some(Asm::LDRT(Reg(4))));
    assert_eq!(Asm::parse(0xF4, 0x18), Some(Asm::LDRS(Reg(4))));
    assert_eq!(Asm::parse(0xF4, 0x1E), Some(Asm::ADDI(Reg(4))));
    assert_eq!(Asm::parse(0xF4, 0x29), Some(Asm::LDS(Reg(4))));
    assert_eq!(Asm::parse(0xF4, 0x33), Some(Asm::LDB(Reg(4))));
    assert_eq!(Asm::parse(0xF4, 0x55), Some(Asm::WR(4)));
    assert_eq!(Asm::parse(0xF4, 0x65), Some(Asm::RD(4)));
}

#[test]
fn decode_rejects_unassigned() {
    assert_eq!(Asm::parse(0x5A, 0xB1), None);
    assert_eq!(Asm::parse(0x8A, 0xB8), None);
    assert_eq!(Asm::parse(0x8A, 0xBF), None);
    assert_eq!(Asm::parse(0x9A, 0xB5), None);
    assert_eq!(Asm::parse(0xE1, 0x00), None);
    assert_eq!(Asm::parse(0xE1, 0x9F), None);
    assert_eq!(Asm::parse(0xF1, 0x00), None);
    assert_eq!(Asm::parse(0xF1, 0x66), None);
    assert_eq!(Asm::parse(0xFF, 0xFF), None);
}

#[test]
fn encode_examples() {
    assert_eq!(Asm::CLS.encode(), 0x00E0);
    assert_eq!(Asm::RET.encode(), 0x00EE);
    assert_eq!(Asm::JP(Addr(0x234)).encode(), 0x1234);
    assert_eq!(Asm::DRW(Reg(1), Reg(2), 5).encode(), 0xD125);
    assert_eq!(Asm::SHR(Reg(1), Reg(0xA)).encode(), 0x81A6);
    assert_eq!(Asm::WR(4).encode(), 0xF455);
}

#[test]
fn decode_then_encode_round_trips() {
    let mut decoded: u32 = 0;
    for op in 0..=0xFFFFu32 {
        let hi = (op >> 8) as u8;
        let lo = (op & 0xFF) as u8;
        if let Some(a) = Asm::parse(hi, lo) {
            assert_eq!(a.encode() as u32, op);
            decoded += 1;
        }
    }
    assert!(decoded > 30000);
}

#[test]
fn mnemonics() {
    assert_eq!(Asm::CLS.mnemonic(), "CLS");
    assert_eq!(Asm::RET.mnemonic(), "RET");
    assert_eq!(Asm::SYS(Addr(0x034)).mnemonic(), "SYS 0x034");
    assert_eq!(Asm::JP(Addr(0x234)).mnemonic(), "JP 0x234");
    assert_eq!(Asm::CALL(Addr(0xABC)).mnemonic(), "CALL 0xABC");
    assert_eq!(Asm::SEC(Reg(1), 0x23).mnemonic(), "SE V1, 0x23");
    assert_eq!(Asm::SNEC(Reg(2), 0x05).mnemonic(), "SNE V2, 0x05");
    assert_eq!(Asm::SER(Reg(1), Reg(2)).mnemonic(), "SE V1, V2");
    assert_eq!(Asm::LDC(Reg(0xA), 0xFF).mnemonic(), "LD VA, 0xFF");
    assert_eq!(Asm::ADDC(Reg(0), 0x10).mnemonic(), "ADD V0, 0x10");
    assert_eq!(Asm::LDR(Reg(3), Reg(4)).mnemonic(), "LD V3, V4");
    assert_eq!(Asm::OR(Reg(3), Reg(4)).mnemonic(), "OR V3, V4");
    assert_eq!(Asm::AND(Reg(3), Reg(4)).mnemonic(), "AND V3, V4");
    assert_eq!(Asm::XOR(Reg(3), Reg(4)).mnemonic(), "XOR V3, V4");
    assert_eq!(Asm::ADDR(Reg(3), Reg(4)).mnemonic(), "ADD V3, V4");
    assert_eq!(Asm::SUB(Reg(3), Reg(4)).mnemonic(), "SUB V3, V4");
    assert_eq!(Asm::SHR(Reg(5), Reg(0)).mnemonic(), "SHR V5");
    assert_eq!(Asm::SUBN(Reg(3), Reg(4)).mnemonic(), "SUBN V3, V4");
    assert_eq!(Asm::SHL(Reg(5), Reg(0)).mnemonic(), "SHL V5");
    assert_eq!(Asm::SNER(Reg(3), Reg(4)).mnemonic(), "SNE V3, V4");
    assert_eq!(Asm::LDI(Addr(0x123)).mnemonic(), "LD I, 0x123");
    assert_eq!(Asm::JO(Addr(0x123)).mnemonic(), "JP V0, 0x123");
    assert_eq!(Asm::RND(Reg(7), 0).mnemonic(), "RND V7, 0");
    assert_eq!(Asm::RND(Reg(7), 63).mnemonic(), "RND V7, 63");
    assert_eq!(Asm::RND(Reg(7), 255).mnemonic(), "RND V7, 255");
    assert_eq!(Asm::DRW(Reg(1), Reg(2), 15).mnemonic(), "DRW V1, V2, 15");
    assert_eq!(Asm::SKP(Reg(6)).mnemonic(), "SKP V6");
    assert_eq!(Asm::SKNP(Reg(6)).mnemonic(), "SKNP V6");
    assert_eq!(Asm::LDTR(Reg(8)).mnemonic(), "LD V8, DT");
    assert_eq!(Asm::LDK(Reg(8)).mnemonic(), "LD V8, K");
    assert_eq!(Asm::LDRT(Reg(8)).mnemonic(), "LD DT, V8");
    assert_eq!(Asm::LDRS(Reg(8)).mnemonic(), "LD ST, V8");
    assert_eq!(Asm::ADDI(Reg(9)).mnemonic(), "ADD I, V9");
    assert_eq!(Asm::LDS(Reg(9)).mnemonic(), "LD F, V9");
    assert_eq!(Asm::LDB(Reg(9)).mnemonic(), "LD B, V9");
    assert_eq!(Asm::WR(0xC).mnemonic(), "LD [I], VC");
    assert_eq!(Asm::RD(0xC).mnemonic(), "LD VC, [I]");
}
