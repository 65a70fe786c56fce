use nupu8::{DecodeError, Instruction, Opcode};

#[test]
fn opcode_values_round_trip() {
    let all = [
        Opcode::SET,
        Opcode::LOAD,
        Opcode::STORE,
        Opcode::ADD,
        Opcode::SUB,
        Opcode::AND,
        Opcode::OR,
        Opcode::NOT,
        Opcode::CMP,
        Opcode::BRANCH,
        Opcode::SHIFT,
        Opcode::OUT,
        Opcode::HALT,
    ];
    for op in all {
        assert_eq!(Opcode::from_u8(op.code()), Some(op));
    }
    assert_eq!(Opcode::from_u8(0xA), Some(Opcode::SHIFT));
    assert_eq!(Opcode::HALT.code(), 0xF);
}

#[test]
fn unknown_opcode_values() {
    assert_eq!(Opcode::from_u8(0xC), None);
    assert_eq!(Opcode::from_u8(0xD), None);
    assert_eq!(Opcode::from_u8(0xE), None);
    assert_eq!(Opcode::from_u8(0x10), None);
}

#[test]
fn encode_examples() {
    assert_eq!(Instruction::LoadI { dst: 1, imm: 5 }.encode(), 0x0105);
    assert_eq!(Instruction::Mov { dst: 2, src: 3 }.encode(), 0x0A03);
    assert_eq!(Instruction::StoreIndirect { src: 7, ptr: 1 }.encode(), 0x2F01);
    assert_eq!(Instruction::Brc { addr: 0x10 }.encode(), 0x9310);
    assert_eq!(Instruction::Shr { src: 1, amt: 2 }.encode(), 0xA902);
    assert_eq!(Instruction::NotI { imm: 0x55 }.encode(), 0x7855);
    assert_eq!(Instruction::Out { reg: 4, port: 0x12 }.encode(), 0xB412);
    assert_eq!(Instruction::Halt.encode(), 0xF000);
}

#[test]
fn encode_masks_register_field() {
    // r9 does not fit in three bits; only its low bits are kept.
    assert_eq!(Instruction::LoadI { dst: 9, imm: 0 }.encode(), 0x0100);
}

#[test]
fn decode_examples() {
    assert_eq!(Instruction::decode(0x0105), Ok(Instruction::LoadI { dst: 1, imm: 5 }));
    assert_eq!(Instruction::decode(0x7805), Ok(Instruction::NotI { imm: 5 }));
    assert_eq!(Instruction::decode(0x73FF), Ok(Instruction::Not { src: 3 }));
    assert_eq!(Instruction::decode(0x9020), Ok(Instruction::Jmp { addr: 0x20 }));
    assert_eq!(Instruction::decode(0xF123), Ok(Instruction::Halt));
}

#[test]
fn decode_errors() {
    assert_eq!(Instruction::decode(0xC000), Err(DecodeError::InvalidOpcode(0xC)));
    assert_eq!(Instruction::decode(0xE7FF), Err(DecodeError::InvalidOpcode(0xE)));
    assert_eq!(Instruction::decode(0x9400), Err(DecodeError::InvalidBranchType(4)));
    assert_eq!(Instruction::decode(0x9712), Err(DecodeError::InvalidBranchType(7)));
}

#[test]
fn decodable_words() {
    assert!(Instruction::is_decodable(0x0000));
    assert!(Instruction::is_decodable(0x9000));
    assert!(!Instruction::is_decodable(0x9800));
    assert!(!Instruction::is_decodable(0xB800));
    assert!(!Instruction::is_decodable(0xF800));
    assert!(Instruction::is_decodable(0xC800));
}

#[test]
fn decode_undoes_encode() {
    for r in 0u8..8 {
        for v in [0u8, 1, 0x7F, 0x80, 0xFF] {
            let all = [
                Instruction::LoadI { dst: r, imm: v },
                Instruction::Mov { dst: r, src: v },
                Instruction::Load { dst: r, addr: v },
                Instruction::LoadIndirect { dst: r, ptr: v },
                Instruction::Store { src: r, addr: v },
                Instruction::StoreIndirect { src: r, ptr: v },
                Instruction::Add { dst: r, src: v },
                Instruction::AddI { dst: r, imm: v },
                Instruction::Sub { dst: r, src: v },
                Instruction::SubI { dst: r, imm: v },
                Instruction::And { dst: r, src: v },
                Instruction::AndI { dst: r, imm: v },
                Instruction::Or { dst: r, src: v },
                Instruction::OrI { dst: r, imm: v },
                Instruction::Not { src: r },
                Instruction::NotI { imm: v },
                Instruction::Cmp { reg1: r, reg2: v },
                Instruction::CmpI { reg: r, imm: v },
                Instruction::Brz { addr: v },
                Instruction::Brn { addr: v },
                Instruction::Brc { addr: v },
                Instruction::Jmp { addr: v },
                Instruction::Shl { src: r, amt: v },
                Instruction::Shr { src: r, amt: v },
                Instruction::Out { reg: r, port: v },
                Instruction::Halt,
            ];
            for i in all {
                assert_eq!(Instruction::decode(i.encode()), Ok(i));
            }
        }
    }
}

#[test]
fn redecoding_a_decoded_word_is_stable() {
    for raw in [0x0105u16, 0x7FFF, 0x73AB, 0xF0FF, 0x9312, 0xA9FF] {
        let i = Instruction::decode(raw).unwrap();
        assert_eq!(Instruction::decode(i.encode()), Ok(i));
    }
}
