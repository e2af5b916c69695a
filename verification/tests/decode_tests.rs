use lc3_vm::instruction::{sign_extend, get_opcode, OpCode};

#[test]
fn sign_extend_negative_small_widths() {
    assert_eq!(sign_extend(0x1F, 5), 0xFFFF); // -1 in 5 bits
    assert_eq!(sign_extend(0x10, 5), 0xFFF0); // -16 in 5 bits
    assert_eq!(sign_extend(0x3F, 6), 0xFFFF); // -1 in 6 bits
    assert_eq!(sign_extend(0x1FF, 9), 0xFFFF); // -1 in 9 bits
    assert_eq!(sign_extend(0x100, 9), 0xFF00); // -256 in 9 bits
    assert_eq!(sign_extend(0x7FF, 11), 0xFFFF); // -1 in 11 bits
    assert_eq!(sign_extend(1, 1), 0xFFFF); // -1 in 1 bit
}

#[test]
fn sign_extend_positive_values_unchanged() {
    assert_eq!(sign_extend(0x0F, 5), 0x000F);
    assert_eq!(sign_extend(0, 5), 0);
    assert_eq!(sign_extend(0x0FF, 9), 0x00FF);
    assert_eq!(sign_extend(0, 1), 0);
    assert_eq!(sign_extend(0x3FF, 11), 0x03FF);
}

#[test]
fn sign_extend_full_width_is_identity() {
    assert_eq!(sign_extend(0x0000, 16), 0x0000);
    assert_eq!(sign_extend(0x7FFF, 16), 0x7FFF);
    assert_eq!(sign_extend(0x8000, 16), 0x8000);
    assert_eq!(sign_extend(0xFFFF, 16), 0xFFFF);
}

#[test]
fn opcode_of_top_four_bits() {
    assert_eq!(get_opcode(0x0E02), OpCode::BR);
    assert_eq!(get_opcode(0x1021), OpCode::ADD);
    assert_eq!(get_opcode(0x2001), OpCode::LD);
    assert_eq!(get_opcode(0x3A03), OpCode::ST);
    assert_eq!(get_opcode(0x4810), OpCode::JSR);
    assert_eq!(get_opcode(0x5060), OpCode::AND);
    assert_eq!(get_opcode(0x6882), OpCode::LDR);
    assert_eq!(get_opcode(0x7882), OpCode::STR);
    assert_eq!(get_opcode(0x8000), OpCode::RTI);
    assert_eq!(get_opcode(0x94FF), OpCode::NOT);
    assert_eq!(get_opcode(0xA205), OpCode::LDI);
    assert_eq!(get_opcode(0xBA04), OpCode::STI);
    assert_eq!(get_opcode(0xC0C0), OpCode::JMP);
    assert_eq!(get_opcode(0xD000), OpCode::RES);
    assert_eq!(get_opcode(0xE1FE), OpCode::LEA);
    assert_eq!(get_opcode(0xF025), OpCode::TRAP);
}
