//! The instruction set shared by the assembler and the CPU: opcodes, the
//! structured form of an instruction, and its 16-bit binary encoding.
//!
//! Format of an encoded instruction (most significant bit first):
//! `[4 bits opcode][1 bit mode][3 bits register][8 bits operand]`.
use vstd::prelude::*;

verus! {

/// Address of the mode byte in memory.
pub const MODE: u8 = 0xFF;

/// Value of the mode byte that selects text mode.
pub const TXT_MODE: u8 = 0;

/// First address of the video memory.
pub const VRAM_START: u8 = 0x7F;

/// Address that holds the text cursor.
pub const CURSOR_PTR_ADDR: u8 = 0xFE;

/// Why a 16-bit word is not an instruction.
#[derive(Debug, Clone, Copy, PartialEq, Eq, Structural)]
pub enum DecodeError {
    /// The top four bits name no opcode; the field holds them.
    InvalidOpcode(u8),
    /// A branch whose type field is not 0 (jmp), 1 (brz), 2 (brn) or 3 (brc).
    InvalidBranchType(u8),
}

/// The operations of the CPU; `code` gives each one's 4-bit value.
#[allow(non_camel_case_types)]
#[derive(Debug, PartialEq, Eq, Structural, Copy, Clone)]
pub enum Opcode {
    SET,
    LOAD,
    STORE,
    ADD,
    SUB,
    AND,
    OR,
    NOT,
    CMP,
    BRANCH,
    SHIFT,
    OUT,
    HALT,
}

impl Opcode {
    /// The 4-bit value of each opcode.
    pub open spec fn value(self) -> u8 {
        match self {
            Opcode::SET => 0x0,
            Opcode::LOAD => 0x1,
            Opcode::STORE => 0x2,
            Opcode::ADD => 0x3,
            Opcode::SUB => 0x4,
            Opcode::AND => 0x5,
            Opcode::OR => 0x6,
            Opcode::NOT => 0x7,
            Opcode::CMP => 0x8,
            Opcode::BRANCH => 0x9,
            Opcode::SHIFT => 0xA,
            Opcode::OUT => 0xB,
            Opcode::HALT => 0xF,
        }
    }

    /// The opcode whose value is `v`, if any.
    pub open spec fn of_value(v: u8) -> Option<Opcode> {
        if v == 0x0 {
            Some(Opcode::SET)
        } else if v == 0x1 {
            Some(Opcode::LOAD)
        } else if v == 0x2 {
            Some(Opcode::STORE)
        } else if v == 0x3 {
            Some(Opcode::ADD)
        } else if v == 0x4 {
            Some(Opcode::SUB)
        } else if v == 0x5 {
            Some(Opcode::AND)
        } else if v == 0x6 {
            Some(Opcode::OR)
        } else if v == 0x7 {
            Some(Opcode::NOT)
        } else if v == 0x8 {
            Some(Opcode::CMP)
        } else if v == 0x9 {
            Some(Opcode::BRANCH)
        } else if v == 0xA {
            Some(Opcode::SHIFT)
        } else if v == 0xB {
            Some(Opcode::OUT)
        } else if v == 0xF {
            Some(Opcode::HALT)
        } else {
            None
        }
    }

    /// The 4-bit value of this opcode.
    pub fn code(self) -> (v: u8)
        ensures
            v == self.value(),
            v < 16,
    {
        match self {
            Opcode::SET => 0x0,
            Opcode::LOAD => 0x1,
            Opcode::STORE => 0x2,
            Opcode::ADD => 0x3,
            Opcode::SUB => 0x4,
            Opcode::AND => 0x5,
            Opcode::OR => 0x6,
            Opcode::NOT => 0x7,
            Opcode::CMP => 0x8,
            Opcode::BRANCH => 0x9,
            Opcode::SHIFT => 0xA,
            Opcode::OUT => 0xB,
            Opcode::HALT => 0xF,
        }
    }

    /// The opcode whose 4-bit value is `value`; `None` for the values
    /// 0xC, 0xD, 0xE and anything above 0xF.
    pub fn from_u8(value: u8) -> (r: Option<Self>)
        ensures
            r == Opcode::of_value(value),
            r matches Some(op) ==> op.value() == value,
    {
        match value {
            0x0 => Some(Opcode::SET),
            0x1 => Some(Opcode::LOAD),
            0x2 => Some(Opcode::STORE),
            0x3 => Some(Opcode::ADD),
            0x4 => Some(Opcode::SUB),
            0x5 => Some(Opcode::AND),
            0x6 => Some(Opcode::OR),
            0x7 => Some(Opcode::NOT),
            0x8 => Some(Opcode::CMP),
            0x9 => Some(Opcode::BRANCH),
            0xA => Some(Opcode::SHIFT),
            0xB => Some(Opcode::OUT),
            0xF => Some(Opcode::HALT),
            _ => None,
        }
    }
}

/// The structured representation of an instruction, the form on which the
/// assembler and the CPU agree.
#[derive(Debug, PartialEq, Eq, Structural, Clone, Copy)]
pub enum Instruction {
    LoadI { dst: u8, imm: u8 },
    Mov { dst: u8, src: u8 },
    Load { dst: u8, addr: u8 },
    LoadIndirect { dst: u8, ptr: u8 },
    Store { src: u8, addr: u8 },
    StoreIndirect { src: u8, ptr: u8 },
    Add { dst: u8, src: u8 },
    AddI { dst: u8, imm: u8 },
    Sub { dst: u8, src: u8 },
    SubI { dst: u8, imm: u8 },
    And { dst: u8, src: u8 },
    AndI { dst: u8, imm: u8 },
    Or { dst: u8, src: u8 },
    OrI { dst: u8, imm: u8 },
    Not { src: u8 },
    NotI { imm: u8 },
    Cmp { reg1: u8, reg2: u8 },
    CmpI { reg: u8, imm: u8 },
    Brz { addr: u8 },
    Brn { addr: u8 },
    Brc { addr: u8 },
    Jmp { addr: u8 },
    Shl { src: u8, amt: u8 },
    Shr { src: u8, amt: u8 },
    Out { reg: u8, port: u8 },
    Halt,
}

/// The four fields of an encoded word, as numbers:
/// `opcode * 4096 + mode * 2048 + (reg % 8) * 256 + operand`.
pub open spec fn packed(opcode: u8, mode: u8, reg: u8, operand: u8) -> int {
    opcode as int * 4096 + mode as int * 2048 + (reg % 8) as int * 256 + operand as int
}

/// The opcode field (top four bits) of a word.
pub open spec fn opcode_field(raw: u16) -> u8 {
    (raw / 4096) as u8
}

/// The mode bit of a word.
pub open spec fn mode_field(raw: u16) -> u8 {
    ((raw / 2048) % 2) as u8
}

/// The 3-bit register field of a word.
pub open spec fn reg_field(raw: u16) -> u8 {
    ((raw / 256) % 8) as u8
}

/// The 8-bit operand field (low byte) of a word.
pub open spec fn operand_field(raw: u16) -> u8 {
    (raw % 256) as u8
}

impl Instruction {
    /// The opcode under which an instruction is encoded.
    pub open spec fn opcode(self) -> Opcode {
        match self {
            Instruction::LoadI { .. } | Instruction::Mov { .. } => Opcode::SET,
            Instruction::Load { .. } | Instruction::LoadIndirect { .. } => Opcode::LOAD,
            Instruction::Store { .. } | Instruction::StoreIndirect { .. } => Opcode::STORE,
            Instruction::Add { .. } | Instruction::AddI { .. } => Opcode::ADD,
            Instruction::Sub { .. } | Instruction::SubI { .. } => Opcode::SUB,
            Instruction::And { .. } | Instruction::AndI { .. } => Opcode::AND,
            Instruction::Or { .. } | Instruction::OrI { .. } => Opcode::OR,
            Instruction::Not { .. } | Instruction::NotI { .. } => Opcode::NOT,
            Instruction::Cmp { .. } | Instruction::CmpI { .. } => Opcode::CMP,
            Instruction::Brz { .. } | Instruction::Brn { .. } | Instruction::Brc { .. }
            | Instruction::Jmp { .. } => Opcode::BRANCH,
            Instruction::Shl { .. } | Instruction::Shr { .. } => Opcode::SHIFT,
            Instruction::Out { .. } => Opcode::OUT,
            Instruction::Halt => Opcode::HALT,
        }
    }

    /// The mode bit under which an instruction is encoded.
    pub open spec fn mode(self) -> u8 {
        match self {
            Instruction::Mov { .. } | Instruction::LoadIndirect { .. }
            | Instruction::StoreIndirect { .. } | Instruction::AddI { .. }
            | Instruction::SubI { .. } | Instruction::AndI { .. } | Instruction::OrI { .. }
            | Instruction::NotI { .. } | Instruction::CmpI { .. } | Instruction::Shr { .. } => 1,
            _ => 0,
        }
    }

    /// What an instruction puts in the register field (before masking to
    /// three bits): a register, or for a branch its type.
    pub open spec fn reg(self) -> u8 {
        match self {
            Instruction::LoadI { dst, .. } => dst,
            Instruction::Mov { dst, .. } => dst,
            Instruction::Load { dst, .. } => dst,
            Instruction::LoadIndirect { dst, .. } => dst,
            Instruction::Store { src, .. } => src,
            Instruction::StoreIndirect { src, .. } => src,
            Instruction::Add { dst, .. } => dst,
            Instruction::AddI { dst, .. } => dst,
            Instruction::Sub { dst, .. } => dst,
            Instruction::SubI { dst, .. } => dst,
            Instruction::And { dst, .. } => dst,
            Instruction::AndI { dst, .. } => dst,
            Instruction::Or { dst, .. } => dst,
            Instruction::OrI { dst, .. } => dst,
            Instruction::Not { src } => src,
            Instruction::NotI { .. } => 0,
            Instruction::Cmp { reg1, .. } => reg1,
            Instruction::CmpI { reg, .. } => reg,
            Instruction::Jmp { .. } => 0,
            Instruction::Brz { .. } => 1,
            Instruction::Brn { .. } => 2,
            Instruction::Brc { .. } => 3,
            Instruction::Shl { src, .. } => src,
            Instruction::Shr { src, .. } => src,
            Instruction::Out { reg, .. } => reg,
            Instruction::Halt => 0,
        }
    }

    /// What an instruction puts in the operand byte.
    pub open spec fn operand(self) -> u8 {
        match self {
            Instruction::LoadI { imm, .. } => imm,
            Instruction::Mov { src, .. } => src,
            Instruction::Load { addr, .. } => addr,
            Instruction::LoadIndirect { ptr, .. } => ptr,
            Instruction::Store { addr, .. } => addr,
            Instruction::StoreIndirect { ptr, .. } => ptr,
            Instruction::Add { src, .. } => src,
            Instruction::AddI { imm, .. } => imm,
            Instruction::Sub { src, .. } => src,
            Instruction::SubI { imm, .. } => imm,
            Instruction::And { src, .. } => src,
            Instruction::AndI { imm, .. } => imm,
            Instruction::Or { src, .. } => src,
            Instruction::OrI { imm, .. } => imm,
            Instruction::Not { .. } => 0,
            Instruction::NotI { imm } => imm,
            Instruction::Cmp { reg2, .. } => reg2,
            Instruction::CmpI { imm, .. } => imm,
            Instruction::Jmp { addr } => addr,
            Instruction::Brz { addr } => addr,
            Instruction::Brn { addr } => addr,
            Instruction::Brc { addr } => addr,
            Instruction::Shl { amt, .. } => amt,
            Instruction::Shr { amt, .. } => amt,
            Instruction::Out { port, .. } => port,
            Instruction::Halt => 0,
        }
    }

    /// The 16-bit word of an instruction.
    pub open spec fn encoded(self) -> u16 {
        packed(self.opcode().value(), self.mode(), self.reg(), self.operand()) as u16
    }

    /// Whether the register field survives encoding (it is masked to 3 bits).
    pub open spec fn fits_encoding(self) -> bool {
        self.reg() < 8
    }

    /// Whether decoding `raw` runs to a result: the opcodes BRANCH, OUT and
    /// HALT have no mode-1 form, and such a word has no decoding at all.
    pub open spec fn decodable(raw: u16) -> bool {
        !(mode_field(raw) == 1 && (opcode_field(raw) == 0x9 || opcode_field(raw) == 0xB
            || opcode_field(raw) == 0xF))
    }

    /// The decoding of a word, for the opcode and mode given.
    pub open spec fn decode_fields(op: Opcode, mode: u8, reg: u8, operand: u8) -> Result<
        Instruction,
        DecodeError,
    > {
        match (op, mode) {
            (Opcode::SET, 0) => Ok(Instruction::LoadI { dst: reg, imm: operand }),
            (Opcode::SET, _) => Ok(Instruction::Mov { dst: reg, src: operand }),
            (Opcode::LOAD, 0) => Ok(Instruction::Load { dst: reg, addr: operand }),
            (Opcode::LOAD, _) => Ok(Instruction::LoadIndirect { dst: reg, ptr: operand }),
            (Opcode::STORE, 0) => Ok(Instruction::Store { src: reg, addr: operand }),
            (Opcode::STORE, _) => Ok(Instruction::StoreIndirect { src: reg, ptr: operand }),
            (Opcode::ADD, 0) => Ok(Instruction::Add { dst: reg, src: operand }),
            (Opcode::ADD, _) => Ok(Instruction::AddI { dst: reg, imm: operand }),
            (Opcode::SUB, 0) => Ok(Instruction::Sub { dst: reg, src: operand }),
            (Opcode::SUB, _) => Ok(Instruction::SubI { dst: reg, imm: operand }),
            (Opcode::AND, 0) => Ok(Instruction::And { dst: reg, src: operand }),
            (Opcode::AND, _) => Ok(Instruction::AndI { dst: reg, imm: operand }),
            (Opcode::OR, 0) => Ok(Instruction::Or { dst: reg, src: operand }),
            (Opcode::OR, _) => Ok(Instruction::OrI { dst: reg, imm: operand }),
            (Opcode::NOT, 0) => Ok(Instruction::Not { src: reg }),
            (Opcode::NOT, _) => Ok(Instruction::NotI { imm: operand }),
            (Opcode::CMP, 0) => Ok(Instruction::Cmp { reg1: reg, reg2: operand }),
            (Opcode::CMP, _) => Ok(Instruction::CmpI { reg, imm: operand }),
            (Opcode::BRANCH, _) => if reg == 0 {
                Ok(Instruction::Jmp { addr: operand })
            } else if reg == 1 {
                Ok(Instruction::Brz { addr: operand })
            } else if reg == 2 {
                Ok(Instruction::Brn { addr: operand })
            } else if reg == 3 {
                Ok(Instruction::Brc { addr: operand })
            } else {
                Err(DecodeError::InvalidBranchType(reg))
            },
            (Opcode::SHIFT, 0) => Ok(Instruction::Shl { src: reg, amt: operand }),
            (Opcode::SHIFT, _) => Ok(Instruction::Shr { src: reg, amt: operand }),
            (Opcode::OUT, _) => Ok(Instruction::Out { reg, port: operand }),
            (Opcode::HALT, _) => Ok(Instruction::Halt),
        }
    }

    /// The decoding of a word: its opcode field selects the opcode, its mode
    /// bit the form, and the register and operand fields the arguments.
    /// (Meaningful where `decodable(raw)`.)
    pub open spec fn decoded(raw: u16) -> Result<Instruction, DecodeError> {
        match Opcode::of_value(opcode_field(raw)) {
            None => Err(DecodeError::InvalidOpcode(opcode_field(raw))),
            Some(op) => Instruction::decode_fields(
                op,
                mode_field(raw),
                reg_field(raw),
                operand_field(raw),
            ),
        }
    }

    /// Packs the four fields into a word.
    fn pack(opcode: Opcode, mode: u8, reg: u8, operand: u8) -> (w: u16)
        requires
            mode < 2,
        ensures
            w == packed(opcode.value(), mode, reg, operand),
    {
        let op: u8 = opcode.code();
        let op_shifted: u16 = (op as u16) << 12u16;
        let mode_shifted: u16 = (mode as u16) << 11u16;
        let reg_shifted: u16 = ((reg & 0x07) as u16) << 8u16;
        let operand_cast: u16 = operand as u16;
        let w: u16 = op_shifted | mode_shifted | reg_shifted | operand_cast;
        assert(w == op as int * 4096 + mode as int * 2048 + (reg % 8) as int * 256
            + operand as int) by (bit_vector)
            requires
                op < 16,
                mode < 2,
                op_shifted == (op as u16) << 12u16,
                mode_shifted == (mode as u16) << 11u16,
                reg_shifted == ((reg & 0x07) as u16) << 8u16,
                operand_cast == operand as u16,
                w == op_shifted | mode_shifted | reg_shifted | operand_cast,
        ;
        w
    }

    /// Converts the instruction into its 16-bit word.
    pub fn encode(&self) -> (w: u16)
        ensures
            w == self.encoded(),
    {
        match *self {
            Instruction::LoadI { dst, imm } => Self::pack(Opcode::SET, 0, dst, imm),
            Instruction::Mov { dst, src } => Self::pack(Opcode::SET, 1, dst, src),
            Instruction::Load { dst, addr } => Self::pack(Opcode::LOAD, 0, dst, addr),
            Instruction::LoadIndirect { dst, ptr } => Self::pack(Opcode::LOAD, 1, dst, ptr),
            Instruction::Store { src, addr } => Self::pack(Opcode::STORE, 0, src, addr),
            Instruction::StoreIndirect { src, ptr } => Self::pack(Opcode::STORE, 1, src, ptr),
            Instruction::Add { dst, src } => Self::pack(Opcode::ADD, 0, dst, src),
            Instruction::AddI { dst, imm } => Self::pack(Opcode::ADD, 1, dst, imm),
            Instruction::Sub { dst, src } => Self::pack(Opcode::SUB, 0, dst, src),
            Instruction::SubI { dst, imm } => Self::pack(Opcode::SUB, 1, dst, imm),
            Instruction::And { dst, src } => Self::pack(Opcode::AND, 0, dst, src),
            Instruction::AndI { dst, imm } => Self::pack(Opcode::AND, 1, dst, imm),
            Instruction::Or { dst, src } => Self::pack(Opcode::OR, 0, dst, src),
            Instruction::OrI { dst, imm } => Self::pack(Opcode::OR, 1, dst, imm),
            Instruction::Not { src } => Self::pack(Opcode::NOT, 0, src, 0),
            Instruction::NotI { imm } => Self::pack(Opcode::NOT, 1, 0, imm),
            Instruction::Cmp { reg1, reg2 } => Self::pack(Opcode::CMP, 0, reg1, reg2),
            Instruction::CmpI { reg, imm } => Self::pack(Opcode::CMP, 1, reg, imm),
            Instruction::Jmp { addr } => Self::pack(Opcode::BRANCH, 0, 0, addr),
            Instruction::Brz { addr } => Self::pack(Opcode::BRANCH, 0, 1, addr),
            Instruction::Brn { addr } => Self::pack(Opcode::BRANCH, 0, 2, addr),
            Instruction::Brc { addr } => Self::pack(Opcode::BRANCH, 0, 3, addr),
            Instruction::Shl { src, amt } => Self::pack(Opcode::SHIFT, 0, src, amt),
            Instruction::Shr { src, amt } => Self::pack(Opcode::SHIFT, 1, src, amt),
            Instruction::Out { reg, port } => Self::pack(Opcode::OUT, 0, reg, port),
            Instruction::Halt => Self::pack(Opcode::HALT, 0, 0, 0),
        }
    }

    /// Converts a 16-bit word back into the structured instruction.
    pub fn decode(raw: u16) -> (r: Result<Self, DecodeError>)
        requires
            Instruction::decodable(raw),
        ensures
            r == Instruction::decoded(raw),
    {
        let opcode_raw: u8 = ((raw >> 12u16) & 0x0F) as u8;
        let mode: u8 = ((raw >> 11u16) & 0x01) as u8;
        let reg: u8 = ((raw >> 8u16) & 0x07) as u8;
        let operand: u8 = (raw & 0xFF) as u8;
        assert(opcode_raw == raw / 4096 && mode == (raw / 2048) % 2 && reg == (raw / 256) % 8
            && operand == raw % 256) by (bit_vector)
            requires
                opcode_raw == ((raw >> 12u16) & 0x0F) as u8,
                mode == ((raw >> 11u16) & 0x01) as u8,
                reg == ((raw >> 8u16) & 0x07) as u8,
                operand == (raw & 0xFF) as u8,
        ;
        let opcode = match Opcode::from_u8(opcode_raw) {
            Some(op) => op,
            None => {
                return Err(DecodeError::InvalidOpcode(opcode_raw));
            },
        };
        match (opcode, mode) {
            (Opcode::SET, 0) => Ok(Instruction::LoadI { dst: reg, imm: operand }),
            (Opcode::SET, 1) => Ok(Instruction::Mov { dst: reg, src: operand }),
            (Opcode::LOAD, 0) => Ok(Instruction::Load { dst: reg, addr: operand }),
            (Opcode::LOAD, 1) => Ok(Instruction::LoadIndirect { dst: reg, ptr: operand }),
            (Opcode::STORE, 0) => Ok(Instruction::Store { src: reg, addr: operand }),
            (Opcode::STORE, 1) => Ok(Instruction::StoreIndirect { src: reg, ptr: operand }),
            (Opcode::ADD, 0) => Ok(Instruction::Add { dst: reg, src: operand }),
            (Opcode::ADD, 1) => Ok(Instruction::AddI { dst: reg, imm: operand }),
            (Opcode::SUB, 0) => Ok(Instruction::Sub { dst: reg, src: operand }),
            (Opcode::SUB, 1) => Ok(Instruction::SubI { dst: reg, imm: operand }),
            (Opcode::AND, 0) => Ok(Instruction::And { dst: reg, src: operand }),
            (Opcode::AND, 1) => Ok(Instruction::AndI { dst: reg, imm: operand }),
            (Opcode::OR, 0) => Ok(Instruction::Or { dst: reg, src: operand }),
            (Opcode::OR, 1) => Ok(Instruction::OrI { dst: reg, imm: operand }),
            (Opcode::NOT, 0) => Ok(Instruction::Not { src: reg }),
            (Opcode::NOT, 1) => Ok(Instruction::NotI { imm: operand }),
            (Opcode::CMP, 0) => Ok(Instruction::Cmp { reg1: reg, reg2: operand }),
            (Opcode::CMP, 1) => Ok(Instruction::CmpI { reg, imm: operand }),
            (Opcode::BRANCH, 0) => match reg {
                0 => Ok(Instruction::Jmp { addr: operand }),
                1 => Ok(Instruction::Brz { addr: operand }),
                2 => Ok(Instruction::Brn { addr: operand }),
                3 => Ok(Instruction::Brc { addr: operand }),
                _ => Err(DecodeError::InvalidBranchType(reg)),
            },
            (Opcode::SHIFT, 0) => Ok(Instruction::Shl { src: reg, amt: operand }),
            (Opcode::SHIFT, 1) => Ok(Instruction::Shr { src: reg, amt: operand }),
            (Opcode::OUT, 0) => Ok(Instruction::Out { reg, port: operand }),
            (Opcode::HALT, 0) => Ok(Instruction::Halt),
            _ => {
                // BRANCH, OUT and HALT with mode 1: excluded by `decodable`.
                // Every other (opcode, mode) pair has an arm above.
                assert(false);
                Ok(Instruction::Halt)
            },
        }
    }

    /// Whether `raw` decodes (see `decodable`): the test to make before
    /// handing a word of unknown origin to `decode`.
    pub fn is_decodable(raw: u16) -> (b: bool)
        ensures
            b == Instruction::decodable(raw),
    {
        let opcode_raw: u8 = ((raw >> 12u16) & 0x0F) as u8;
        let mode: u8 = ((raw >> 11u16) & 0x01) as u8;
        assert(opcode_raw == raw / 4096 && mode == (raw / 2048) % 2) by (bit_vector)
            requires
                opcode_raw == ((raw >> 12u16) & 0x0F) as u8,
                mode == ((raw >> 11u16) & 0x01) as u8,
        ;
        !(mode == 1 && (opcode_raw == 0x9 || opcode_raw == 0xB || opcode_raw == 0xF))
    }
}

/// Decoding undoes encoding: every instruction whose register field fits in
/// three bits decodes back to itself from its word.
pub proof fn lemma_decode_encode(i: Instruction)
    requires
        i.fits_encoding(),
    ensures
        Instruction::decodable(i.encoded()),
        Instruction::decoded(i.encoded()) == Ok::<Instruction, DecodeError>(i),
{
    let w = i.encoded();
    let op = i.opcode().value();
    let mode = i.mode();
    let reg = i.reg();
    let operand = i.operand();
    assert(op < 16 && mode < 2);
    assert(w == packed(op, mode, reg, operand) as u16);
    lemma_fields_of_packed(op, mode, reg, operand);
}

/// The fields of a packed word are the ones packed in.
pub proof fn lemma_fields_of_packed(op: u8, mode: u8, reg: u8, operand: u8)
    requires
        op < 16,
        mode < 2,
        reg < 8,
    ensures
        0 <= packed(op, mode, reg, operand) < 65536,
        opcode_field(packed(op, mode, reg, operand) as u16) == op,
        mode_field(packed(op, mode, reg, operand) as u16) == mode,
        reg_field(packed(op, mode, reg, operand) as u16) == reg,
        operand_field(packed(op, mode, reg, operand) as u16) == operand,
{
    let p = packed(op, mode, reg, operand);
    assert(reg % 8 == reg);
    assert(p == op as int * 4096 + mode as int * 2048 + reg as int * 256 + operand as int);
    assert(0 <= p < 65536);
    let w = p as u16;
    assert(w as int == p);
    let (o, m, r, x) = (op as int, mode as int, reg as int, operand as int);
    assert((o * 4096 + m * 2048 + r * 256 + x) / 4096 == o) by (nonlinear_arith)
        requires
            0 <= o < 16,
            0 <= m < 2,
            0 <= r < 8,
            0 <= x < 256,
    ;
    assert(((o * 4096 + m * 2048 + r * 256 + x) / 2048) % 2 == m) by (nonlinear_arith)
        requires
            0 <= o < 16,
            0 <= m < 2,
            0 <= r < 8,
            0 <= x < 256,
    ;
    assert(((o * 4096 + m * 2048 + r * 256 + x) / 256) % 8 == r) by (nonlinear_arith)
        requires
            0 <= o < 16,
            0 <= m < 2,
            0 <= r < 8,
            0 <= x < 256,
    ;
    assert((o * 4096 + m * 2048 + r * 256 + x) % 256 == x) by (nonlinear_arith)
        requires
            0 <= o < 16,
            0 <= m < 2,
            0 <= r < 8,
            0 <= x < 256,
    ;
}

/// Encoding undoes decoding up to the fields an instruction does not use:
/// re-decoding the word of a decoded instruction gives the same instruction.
pub proof fn lemma_decode_idempotent(raw: u16)
    requires
        Instruction::decodable(raw),
        Instruction::decoded(raw) is Ok,
    ensures
        Instruction::decoded(Instruction::decoded(raw)->Ok_0.encoded())
            == Instruction::decoded(raw),
{
    let i = Instruction::decoded(raw)->Ok_0;
    assert(reg_field(raw) < 8);
    assert(i.fits_encoding());
    lemma_decode_encode(i);
}

} // verus!
