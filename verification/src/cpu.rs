//! The CPU: registers, flags, memory, output ports, and the
//! fetch / fetch / execute cycle.
use vstd::prelude::*;
use crate::isa::{DecodeError, Instruction};
use vstd::arithmetic::power2::{lemma2_to64, pow2};
use vstd::bits::lemma_u8_shr_is_div;

verus! {

/// The condition flags, set by the arithmetic and logic instructions.
#[derive(Debug, Clone, Copy, PartialEq, Eq, Structural)]
pub struct Flags {
    /// The last result was 0.
    pub zero: bool,
    /// The last operation carried (for a subtraction or a compare: no borrow).
    pub carry: bool,
    /// The high bit of the last result is set.
    pub negative: bool,
}

/// An output port: the last byte written to it, and whether a device has yet
/// to take that byte.
#[derive(Debug, Clone, Copy, PartialEq, Eq, Structural)]
pub struct Port {
    pub data: u8,
    pub dirty: bool,
}

/// What can go wrong while loading or running a program.
#[derive(Debug, Clone, Copy, PartialEq, Eq, Structural)]
pub enum CpuError {
    /// The binary does not fit in memory.
    MemoryOverflow { actual: usize, limit: usize },
    /// A jump leaves memory (a byte address always lies in memory, so
    /// `execute` never reports this).
    InvalidJump { addr: usize, limit: usize },
    /// An instruction that is not an ALU operation reached the ALU.
    InvalidAluOperation(Instruction),
    /// The instruction register holds no instruction.
    Decode(DecodeError),
}

impl From<DecodeError> for CpuError {
    fn from(e: DecodeError) -> (r: CpuError) {
        CpuError::Decode(e)
    }
}

impl vstd::std_specs::convert::FromSpecImpl<DecodeError> for CpuError {
    open spec fn obeys_from_spec() -> bool {
        true
    }

    open spec fn from_spec(e: DecodeError) -> CpuError {
        CpuError::Decode(e)
    }
}

/// The CPU.
pub struct Cpu {
    /// Program counter: the address of the next instruction.
    pub pc: u8,
    /// Instruction register.
    pub ir: u16,
    /// The eight general purpose registers r0-r7.
    pub registers: [u8; 8],
    pub flags: Flags,
    pub memory: [u8; 256],
    /// Where the CPU stands in the cycle: 0 fetches the high byte, 1 the low
    /// byte, 2 executes.
    pub step: u8,
    /// The program counter at which the CPU halted, if it did.
    pub halted: Option<u8>,
    /// The 256 output ports.
    pub ports: [Port; 256],
}

/// The mathematical state of a CPU.
pub struct Machine {
    pub pc: u8,
    pub ir: u16,
    pub registers: Seq<u8>,
    pub flags: Flags,
    pub memory: Seq<u8>,
    pub step: u8,
    pub halted: Option<u8>,
    pub ports: Seq<Port>,
}

impl View for Cpu {
    type V = Machine;

    open spec fn view(&self) -> Machine {
        Machine {
            pc: self.pc,
            ir: self.ir,
            registers: self.registers@,
            flags: self.flags,
            memory: self.memory@,
            step: self.step,
            halted: self.halted,
            ports: self.ports@,
        }
    }
}

/// Whether every register index that an instruction names lies in r0-r7.
pub open spec fn registers_in_range(i: Instruction) -> bool {
    match i {
        Instruction::LoadI { dst, .. } => dst < 8,
        Instruction::Mov { dst, src } => dst < 8 && src < 8,
        Instruction::Load { dst, .. } => dst < 8,
        Instruction::LoadIndirect { dst, ptr } => dst < 8 && ptr < 8,
        Instruction::Store { src, .. } => src < 8,
        Instruction::StoreIndirect { src, ptr } => src < 8 && ptr < 8,
        Instruction::Add { dst, src } => dst < 8 && src < 8,
        Instruction::AddI { dst, .. } => dst < 8,
        Instruction::Sub { dst, src } => dst < 8 && src < 8,
        Instruction::SubI { dst, .. } => dst < 8,
        Instruction::And { dst, src } => dst < 8 && src < 8,
        Instruction::AndI { dst, .. } => dst < 8,
        Instruction::Or { dst, src } => dst < 8 && src < 8,
        Instruction::OrI { dst, .. } => dst < 8,
        Instruction::Not { src } => src < 8,
        Instruction::NotI { .. } => true,
        Instruction::Cmp { reg1, reg2 } => reg1 < 8 && reg2 < 8,
        Instruction::CmpI { reg, .. } => reg < 8,
        Instruction::Brz { .. } | Instruction::Brn { .. } | Instruction::Brc { .. }
        | Instruction::Jmp { .. } => true,
        Instruction::Shl { src, .. } => src < 8,
        Instruction::Shr { src, .. } => src < 8,
        Instruction::Out { reg, .. } => reg < 8,
        Instruction::Halt => true,
    }
}

/// Whether executing the word `raw` runs to an end: the word decodes, and an
/// instruction it decodes to names registers r0-r7 only (a register operand
/// is a whole byte, and r8 and above do not exist).
pub open spec fn executable(raw: u16) -> bool {
    &&& Instruction::decodable(raw)
    &&& Instruction::decoded(raw) matches Ok(i) ==> registers_in_range(i)
}

/// Whether every register an instruction names is r0-r7 (see
/// `registers_in_range`).
pub fn names_valid_registers(i: Instruction) -> (b: bool)
    ensures
        b == registers_in_range(i),
{
    match i {
        Instruction::LoadI { dst, .. } => dst < 8,
        Instruction::Mov { dst, src } => dst < 8 && src < 8,
        Instruction::Load { dst, .. } => dst < 8,
        Instruction::LoadIndirect { dst, ptr } => dst < 8 && ptr < 8,
        Instruction::Store { src, .. } => src < 8,
        Instruction::StoreIndirect { src, ptr } => src < 8 && ptr < 8,
        Instruction::Add { dst, src } => dst < 8 && src < 8,
        Instruction::AddI { dst, .. } => dst < 8,
        Instruction::Sub { dst, src } => dst < 8 && src < 8,
        Instruction::SubI { dst, .. } => dst < 8,
        Instruction::And { dst, src } => dst < 8 && src < 8,
        Instruction::AndI { dst, .. } => dst < 8,
        Instruction::Or { dst, src } => dst < 8 && src < 8,
        Instruction::OrI { dst, .. } => dst < 8,
        Instruction::Not { src } => src < 8,
        Instruction::NotI { .. } => true,
        Instruction::Cmp { reg1, reg2 } => reg1 < 8 && reg2 < 8,
        Instruction::CmpI { reg, .. } => reg < 8,
        Instruction::Brz { .. } | Instruction::Brn { .. } | Instruction::Brc { .. }
        | Instruction::Jmp { .. } => true,
        Instruction::Shl { src, .. } => src < 8,
        Instruction::Shr { src, .. } => src < 8,
        Instruction::Out { reg, .. } => reg < 8,
        Instruction::Halt => true,
    }
}

/// Whether executing the word `raw` runs to an end (see `executable`): the
/// test to make before the execute step of a word of unknown origin.
pub fn is_executable(raw: u16) -> (b: bool)
    ensures
        b == executable(raw),
{
    if !Instruction::is_decodable(raw) {
        return false;
    }
    match Instruction::decode(raw) {
        Err(_) => true,
        Ok(i) => names_valid_registers(i),
    }
}

/// Whether an instruction goes through the ALU.
pub open spec fn is_alu(i: Instruction) -> bool {
    match i {
        Instruction::Add { .. } | Instruction::AddI { .. } | Instruction::Sub { .. }
        | Instruction::SubI { .. } | Instruction::And { .. } | Instruction::AndI { .. }
        | Instruction::Or { .. } | Instruction::OrI { .. } | Instruction::Not { .. }
        | Instruction::NotI { .. } | Instruction::Cmp { .. } | Instruction::CmpI { .. }
        | Instruction::Shl { .. } | Instruction::Shr { .. } => true,
        _ => false,
    }
}

/// `a` shifted left by `amt` bits in an 8-bit register: bits shifted out are
/// lost, so an amount of 8 or more gives 0.
pub open spec fn shifted_left(a: u8, amt: u8) -> u8 {
    if amt >= 8 {
        0
    } else {
        a << amt
    }
}

/// `a` shifted right by `amt` bits: an amount of 8 or more gives 0.
pub open spec fn shifted_right(a: u8, amt: u8) -> u8 {
    if amt >= 8 {
        0
    } else {
        a >> amt
    }
}

/// Shifts `a` left by `amt` bits (see `shifted_left`).
fn shift_left(a: u8, amt: u8) -> (r: u8)
    ensures
        r == shifted_left(a, amt),
{
    if amt >= 8 {
        0
    } else {
        a << amt
    }
}

/// Shifts `a` right by `amt` bits (see `shifted_right`).
fn shift_right(a: u8, amt: u8) -> (r: u8)
    ensures
        r == shifted_right(a, amt),
{
    if amt >= 8 {
        0
    } else {
        a >> amt
    }
}

/// The flags after a result: zero and negative from the result, carry as given.
pub open spec fn flags_for(result: u8, carry: bool) -> Flags {
    Flags { zero: result == 0, negative: result >= 128, carry }
}

impl Machine {
    /// The value of register `r`.
    pub open spec fn reg(self, r: u8) -> u8 {
        self.registers[r as int]
    }

    /// This state with register `r` set to `v`.
    pub open spec fn set_reg(self, r: u8, v: u8) -> Machine {
        Machine { registers: self.registers.update(r as int, v), ..self }
    }

    /// This state with memory byte `addr` set to `v`.
    pub open spec fn set_mem(self, addr: u8, v: u8) -> Machine {
        Machine { memory: self.memory.update(addr as int, v), ..self }
    }

    /// This state with the given flags.
    pub open spec fn set_flags(self, f: Flags) -> Machine {
        Machine { flags: f, ..self }
    }

    /// The state after an ALU instruction.
    pub open spec fn alu_executed(self, i: Instruction) -> Machine {
        match i {
            Instruction::Add { dst, src } => self.added(dst, self.reg(dst), self.reg(src)),
            Instruction::AddI { dst, imm } => self.added(dst, self.reg(dst), imm),
            Instruction::Sub { dst, src } => self.subtracted(dst, self.reg(dst), self.reg(src)),
            Instruction::SubI { dst, imm } => self.subtracted(dst, self.reg(dst), imm),
            Instruction::And { dst, src } => {
                let r = self.reg(dst) & self.reg(src);
                self.set_reg(dst, r).set_flags(flags_for(r, false))
            },
            Instruction::AndI { dst, imm } => {
                let r = self.reg(dst) & imm;
                self.set_reg(dst, r).set_flags(flags_for(r, false))
            },
            Instruction::Or { dst, src } => {
                let r = self.reg(dst) | self.reg(src);
                self.set_reg(dst, r).set_flags(flags_for(r, false))
            },
            Instruction::OrI { dst, imm } => {
                let r = self.reg(dst) | imm;
                self.set_reg(dst, r).set_flags(flags_for(r, false))
            },
            Instruction::Cmp { reg1, reg2 } => self.compared(self.reg(reg1), self.reg(reg2)),
            Instruction::CmpI { reg, imm } => self.compared(self.reg(reg), imm),
            Instruction::Not { src } => {
                let r = (255 - self.reg(src)) as u8;
                self.set_reg(src, r).set_flags(flags_for(r, self.flags.carry))
            },
            Instruction::NotI { imm } => {
                let r = (255 - imm) as u8;
                self.set_flags(flags_for(r, self.flags.carry))
            },
            Instruction::Shl { src, amt } => {
                let r = shifted_left(self.reg(src), amt);
                self.set_reg(src, r).set_flags(flags_for(r, self.flags.carry))
            },
            Instruction::Shr { src, amt } => {
                let r = shifted_right(self.reg(src), amt);
                self.set_reg(src, r).set_flags(flags_for(r, self.flags.carry))
            },
            _ => self,
        }
    }

    /// `dst = a + b` modulo 256; carry when the sum exceeds 255.
    pub open spec fn added(self, dst: u8, a: u8, b: u8) -> Machine {
        let r = ((a + b) % 256) as u8;
        self.set_reg(dst, r).set_flags(flags_for(r, a + b > 255))
    }

    /// `dst = a - b` modulo 256; carry when there is no borrow (`a >= b`).
    pub open spec fn subtracted(self, dst: u8, a: u8, b: u8) -> Machine {
        let r = ((a - b + 256) % 256) as u8;
        self.set_reg(dst, r).set_flags(flags_for(r, a >= b))
    }

    /// The flags of `a - b`, registers unchanged.
    pub open spec fn compared(self, a: u8, b: u8) -> Machine {
        let r = ((a - b + 256) % 256) as u8;
        self.set_flags(flags_for(r, a >= b))
    }

    /// Whether a branch instruction is taken in this state.
    pub open spec fn branch_taken(self, i: Instruction) -> bool {
        match i {
            Instruction::Brz { .. } => self.flags.zero,
            Instruction::Brn { .. } => self.flags.negative,
            Instruction::Brc { .. } => self.flags.carry,
            _ => true,
        }
    }

    /// The state after executing an instruction.
    pub open spec fn executed(self, i: Instruction) -> Machine {
        match i {
            Instruction::LoadI { dst, imm } => self.set_reg(dst, imm),
            Instruction::Mov { dst, src } => self.set_reg(dst, self.reg(src)),
            Instruction::Load { dst, addr } => self.set_reg(dst, self.memory[addr as int]),
            Instruction::LoadIndirect { dst, ptr } => self.set_reg(
                dst,
                self.memory[self.reg(ptr) as int],
            ),
            Instruction::Store { src, addr } => self.set_mem(addr, self.reg(src)),
            Instruction::StoreIndirect { src, ptr } => self.set_mem(self.reg(ptr), self.reg(src)),
            Instruction::Brz { addr } | Instruction::Brn { addr } | Instruction::Brc { addr }
            | Instruction::Jmp { addr } => if self.branch_taken(i) {
                Machine { pc: addr, ..self }
            } else {
                self
            },
            Instruction::Out { reg, port } => Machine {
                ports: self.ports.update(port as int, Port { data: self.reg(reg), dirty: true }),
                ..self
            },
            Instruction::Halt => Machine { halted: Some(self.pc), ..self },
            _ => self.alu_executed(i),
        }
    }

    /// The state after executing the instruction register, and the outcome.
    pub open spec fn executed_ir(self) -> (Machine, Result<(), CpuError>) {
        match Instruction::decoded(self.ir) {
            Err(e) => (self, Err(CpuError::Decode(e))),
            Ok(i) => (self.executed(i), Ok(())),
        }
    }

    /// The state after one tick, and the outcome. Step 0 loads the high byte
    /// of the instruction at `pc`, step 1 the low byte, step 2 advances `pc` by
    /// two and executes; any other step value returns to step 0.
    pub open spec fn ticked(self) -> (Machine, Result<(), CpuError>) {
        if self.step == 0 {
            (Machine { ir: (self.memory[self.pc as int] as int * 256) as u16, ..self }, Ok(()))
        } else if self.step == 1 {
            (
                Machine {
                    ir: (self.ir | (self.memory[((self.pc + 1) % 256) as int] as u16)),
                    ..self
                },
                Ok(()),
            )
        } else if self.step == 2 {
            Machine { pc: ((self.pc + 2) % 256) as u8, ..self }.executed_ir()
        } else {
            (Machine { step: 0, ..self }, Ok(()))
        }
    }

    /// The state of a new CPU: everything zero, no port dirty, not halted.
    pub open spec fn initial() -> Machine {
        Machine {
            pc: 0,
            ir: 0,
            registers: Seq::new(8, |i: int| 0u8),
            flags: Flags { zero: false, carry: false, negative: false },
            memory: Seq::new(256, |i: int| 0u8),
            step: 0,
            halted: None,
            ports: Seq::new(256, |i: int| Port { data: 0, dirty: false }),
        }
    }

    /// This state with `data` copied to the start of memory.
    pub open spec fn loaded(self, data: Seq<u8>) -> Machine {
        Machine { memory: data + self.memory.skip(data.len() as int), ..self }
    }
}

impl Default for Cpu {
    fn default() -> (c: Self)
        ensures
            c@ == Machine::initial(),
    {
        let c = Cpu {
            registers: [0u8; 8],
            pc: 0,
            ir: 0,
            flags: Flags { zero: false, carry: false, negative: false },
            memory: [0u8; 256],
            step: 0,
            halted: None,
            ports: [Port { data: 0, dirty: false }; 256],
        };
        assert(c@.registers =~= Machine::initial().registers);
        assert(c@.memory =~= Machine::initial().memory);
        assert(c@.ports =~= Machine::initial().ports);
        c
    }
}


/// Whether the high bit of `result` is set.
fn high_bit(result: u8) -> (b: bool)
    ensures
        b == (result >= 128),
{
    let b = (result & 0x80) != 0;
    assert(b == (result >= 128)) by (bit_vector)
        requires
            b == ((result & 0x80) != 0),
    ;
    b
}

/// The bitwise complement of `a`.
fn complement(a: u8) -> (r: u8)
    ensures
        r == 255 - a,
{
    let r = !a;
    assert(r == 255 - a) by (bit_vector)
        requires
            r == !a,
    ;
    r
}

impl Cpu {
    /// Writes an ALU result to register `dst` and sets the flags from it.
    fn write_result(&mut self, dst: u8, result: u8, carry: bool)
        requires
            dst < 8,
        ensures
            final(self)@ == old(self)@.set_reg(dst, result).set_flags(flags_for(result, carry)),
    {
        self.registers[dst as usize] = result;
        self.flags = Flags { zero: result == 0, negative: high_bit(result), carry };
    }

    /// Sets the flags from an ALU result that is not kept.
    fn write_flags(&mut self, result: u8, carry: bool)
        ensures
            final(self)@ == old(self)@.set_flags(flags_for(result, carry)),
    {
        self.flags = Flags { zero: result == 0, negative: high_bit(result), carry };
    }

    /// Executes the instruction in the instruction register.
    pub fn execute(&mut self) -> (r: Result<(), CpuError>)
        requires
            executable(old(self).ir),
        ensures
            (final(self)@, r) == old(self)@.executed_ir(),
    {
        let instr = match Instruction::decode(self.ir) {
            Ok(i) => i,
            Err(e) => {
                return Err(CpuError::Decode(e));
            },
        };
        match instr {
            Instruction::LoadI { dst, imm } => self.registers[dst as usize] = imm,
            Instruction::Mov { dst, src } => self.registers[dst as usize] =
                self.registers[src as usize],
            Instruction::Load { dst, addr } => self.registers[dst as usize] =
                self.memory[addr as usize],
            Instruction::LoadIndirect { dst, ptr } => {
                let addr = self.registers[ptr as usize] as usize;
                self.registers[dst as usize] = self.memory[addr];
            },
            Instruction::Store { src, addr } => self.memory[addr as usize] =
                self.registers[src as usize],
            Instruction::StoreIndirect { src, ptr } => {
                let addr = self.registers[ptr as usize] as usize;
                self.memory[addr] = self.registers[src as usize];
            },
            Instruction::Brz { addr } | Instruction::Brn { addr } | Instruction::Brc { addr }
            | Instruction::Jmp { addr } => {
                let should_jump = match instr {
                    Instruction::Brz { .. } => self.flags.zero,
                    Instruction::Brn { .. } => self.flags.negative,
                    Instruction::Brc { .. } => self.flags.carry,
                    _ => true,
                };
                if should_jump {
                    let target = addr as usize;
                    if target >= 256 {
                        return Err(CpuError::InvalidJump { addr: target, limit: 255 });
                    }
                    self.pc = target as u8;
                }
            },
            Instruction::Out { reg, port } => {
                self.ports[port as usize] = Port { data: self.registers[reg as usize], dirty: true };
            },
            Instruction::Halt => self.halted = Some(self.pc),
            _ => {
                self.alu(instr)?;
            },
        }
        proof {
            assert(self@.registers =~= old(self)@.executed_ir().0.registers);
            assert(self@.memory =~= old(self)@.executed_ir().0.memory);
            assert(self@.ports =~= old(self)@.executed_ir().0.ports);
        }
        Ok(())
    }

    /// Runs an arithmetic or logic instruction; any other instruction is
    /// refused and changes nothing.
    fn alu(&mut self, instr: Instruction) -> (r: Result<(), CpuError>)
        requires
            is_alu(instr) ==> registers_in_range(instr),
        ensures
            is_alu(instr) ==> r is Ok && final(self)@ == old(self)@.alu_executed(instr),
            !is_alu(instr) ==> r == Err::<(), CpuError>(CpuError::InvalidAluOperation(instr))
                && final(self)@ == old(self)@,
    {
        match instr {
            Instruction::Add { dst, src } => {
                let (a, b) = (self.registers[dst as usize], self.registers[src as usize]);
                self.add(dst, a, b);
            },
            Instruction::AddI { dst, imm } => {
                let a = self.registers[dst as usize];
                self.add(dst, a, imm);
            },
            Instruction::Sub { dst, src } => {
                let (a, b) = (self.registers[dst as usize], self.registers[src as usize]);
                self.sub(dst, a, b);
            },
            Instruction::SubI { dst, imm } => {
                let a = self.registers[dst as usize];
                self.sub(dst, a, imm);
            },
            Instruction::And { dst, src } => {
                let result = self.registers[dst as usize] & self.registers[src as usize];
                self.write_result(dst, result, false);
            },
            Instruction::AndI { dst, imm } => {
                let result = self.registers[dst as usize] & imm;
                self.write_result(dst, result, false);
            },
            Instruction::Or { dst, src } => {
                let result = self.registers[dst as usize] | self.registers[src as usize];
                self.write_result(dst, result, false);
            },
            Instruction::OrI { dst, imm } => {
                let result = self.registers[dst as usize] | imm;
                self.write_result(dst, result, false);
            },
            Instruction::Cmp { reg1, reg2 } => {
                let (a, b) = (self.registers[reg1 as usize], self.registers[reg2 as usize]);
                self.compare(a, b);
            },
            Instruction::CmpI { reg, imm } => {
                let a = self.registers[reg as usize];
                self.compare(a, imm);
            },
            Instruction::Not { src } => {
                let result = complement(self.registers[src as usize]);
                let carry = self.flags.carry;
                self.write_result(src, result, carry);
            },
            Instruction::NotI { imm } => {
                let carry = self.flags.carry;
                self.write_flags(complement(imm), carry);
            },
            Instruction::Shl { src, amt } => {
                let result = shift_left(self.registers[src as usize], amt);
                let carry = self.flags.carry;
                self.write_result(src, result, carry);
            },
            Instruction::Shr { src, amt } => {
                let result = shift_right(self.registers[src as usize], amt);
                let carry = self.flags.carry;
                self.write_result(src, result, carry);
            },
            _ => {
                return Err(CpuError::InvalidAluOperation(instr));
            },
        }
        Ok(())
    }

    /// `dst = a + b` with carry out.
    fn add(&mut self, dst: u8, a: u8, b: u8)
        requires
            dst < 8,
        ensures
            final(self)@ == old(self)@.added(dst, a, b),
    {
        let sum: u16 = a as u16 + b as u16;
        let result = a.wrapping_add(b);
        self.write_result(dst, result, sum > 255);
    }

    /// `dst = a - b`; carry when nothing is borrowed.
    fn sub(&mut self, dst: u8, a: u8, b: u8)
        requires
            dst < 8,
        ensures
            final(self)@ == old(self)@.subtracted(dst, a, b),
    {
        let result = a.wrapping_sub(b);
        let borrow = a < b;
        self.write_result(dst, result, !borrow);
    }

    /// The flags of `a - b`.
    fn compare(&mut self, a: u8, b: u8)
        ensures
            final(self)@ == old(self)@.compared(a, b),
    {
        let result = a.wrapping_sub(b);
        self.write_flags(result, a >= b);
    }

    /// Copies `data` to the start of memory. Fails, and changes nothing, when
    /// `data` is longer than the 256 bytes of memory.
    pub fn load_memory(&mut self, data: &Vec<u8>) -> (r: Result<(), CpuError>)
        ensures
            data@.len() > 256 ==> r == Err::<(), CpuError>(
                CpuError::MemoryOverflow { actual: data@.len() as usize, limit: 256 },
            ) && final(self)@ == old(self)@,
            data@.len() <= 256 ==> r is Ok && final(self)@ == old(self)@.loaded(data@),
    {
        if data.len() > 256 {
            return Err(CpuError::MemoryOverflow { actual: data.len(), limit: 256 });
        }
        let mut mem = self.memory;
        let n = data.len();
        for i in 0..n
            invariant
                n == data@.len(),
                n <= 256,
                mem@ == data@.take(i as int) + old(self)@.memory.skip(i as int),
        {
            mem[i] = data[i];
            assert(mem@ =~= data@.take(i + 1) + old(self)@.memory.skip(i + 1));
        }
        assert(data@.take(n as int) =~= data@);
        self.memory = mem;
        Ok(())
    }

    /// Loads the byte at `pc` into the high half of the instruction register
    /// (the low half becomes 0).
    fn fetch_high(&mut self)
        ensures
            final(self)@ == (Machine {
                ir: (old(self).memory@[old(self).pc as int] as int * 256) as u16,
                ..old(self)@
            }),
    {
        let hi: u16 = self.memory[self.pc as usize] as u16;
        let word: u16 = hi << 8u16;
        assert(word == hi * 256) by (bit_vector)
            requires
                hi < 256,
                word == hi << 8u16,
        ;
        self.ir = word;
    }

    /// Loads the byte after `pc` into the low half of the instruction register.
    fn fetch_low(&mut self)
        ensures
            final(self)@ == (Machine {
                ir: old(self).ir | (old(self).memory@[((old(self).pc + 1) % 256) as int] as u16),
                ..old(self)@
            }),
    {
        self.ir = self.ir | self.memory[self.pc.wrapping_add(1) as usize] as u16;
    }

    /// Advances `pc` past the instruction and executes it.
    fn advance_and_execute(&mut self) -> (r: Result<(), CpuError>)
        requires
            executable(old(self).ir),
        ensures
            (final(self)@, r) == (Machine {
                pc: ((old(self).pc + 2) % 256) as u8,
                ..old(self)@
            }).executed_ir(),
    {
        self.pc = self.pc.wrapping_add(2);
        self.execute()
    }

    /// One clock tick (see `Machine::ticked`); on success, the CPU itself.
    pub fn tick(&mut self) -> (r: Result<&mut Self, CpuError>)
        requires
            old(self).step == 2 ==> executable(old(self).ir),
        ensures
            r is Ok <==> old(self)@.ticked().1 is Ok,
            r matches Ok(c) ==> (*c)@ == old(self)@.ticked().0 && *final(c) == *final(self),
            r matches Err(e) ==> Err::<(), CpuError>(e) == old(self)@.ticked().1
                && final(self)@ == old(self)@.ticked().0,
    {
        match self.step {
            0 => self.fetch_high(),
            1 => self.fetch_low(),
            2 => self.advance_and_execute()?,
            _ => self.step = 0,
        }
        Ok(self)
    }

    /// Advances the cycle: 0, 1, 2, 0, ...
    pub fn next_step(&mut self)
        requires
            old(self).step < 255,
        ensures
            final(self)@ == (Machine { step: ((old(self).step + 1) % 3) as u8, ..old(self)@ }),
    {
        self.step = (self.step + 1) % 3;
    }

    /// Puts the CPU back in its initial state and loads `binary`. When the
    /// binary does not fit, the CPU stays in its initial state.
    pub fn reset(&mut self, binary: &Vec<u8>) -> (r: Result<(), CpuError>)
        ensures
            binary@.len() > 256 ==> r == Err::<(), CpuError>(
                CpuError::MemoryOverflow { actual: binary@.len() as usize, limit: 256 },
            ) && final(self)@ == Machine::initial(),
            binary@.len() <= 256 ==> r is Ok && final(self)@ == Machine::initial().loaded(
                binary@,
            ),
    {
        *self = Cpu::default();
        self.load_memory(binary)?;
        Ok(())
    }
}

// ---------------------------------------------------------------------------
// Laws

/// The word formed by the two bytes at `pc` and `pc + 1` (wrapping).
pub open spec fn word_at_pc(m: Machine) -> u16 {
    (m.memory[m.pc as int] as int * 256 + m.memory[((m.pc + 1) % 256) as int] as int) as u16
}

/// An instruction takes three steps: the first two load the word at `pc`
/// (high byte, then low byte) into the instruction register and cannot fail;
/// the third advances `pc` by two and executes that word.
pub proof fn lemma_instruction_cycle(m: Machine)
    requires
        m.step == 0,
        m.memory.len() == 256,
    ensures
        m.ticked().1 is Ok,
        (Machine { step: 1, ..m.ticked().0 }).ticked().1 is Ok,
        (Machine { step: 1, ..m.ticked().0 }).ticked().0.ir == word_at_pc(m),
        (Machine { step: 2, ..(Machine { step: 1, ..m.ticked().0 }).ticked().0 }).ticked() == (
        Machine { pc: ((m.pc + 2) % 256) as u8, ir: word_at_pc(m), step: 2, ..m }).executed_ir(),
{
    let hi = m.memory[m.pc as int];
    let lo = m.memory[((m.pc + 1) % 256) as int];
    let w1 = (hi as int * 256) as u16;
    assert((w1 | (lo as u16)) == (hi as int * 256 + lo as int) as u16) by (bit_vector)
        requires
            w1 == (hi as int * 256) as u16,
    ;
}

/// Memory gives back what was stored: storing register `src` at `addr` and
/// then loading `addr` into `dst` leaves the stored value in `dst`.
pub proof fn lemma_store_then_load(m: Machine, src: u8, dst: u8, addr: u8)
    requires
        src < 8,
        dst < 8,
        m.registers.len() == 8,
        m.memory.len() == 256,
    ensures
        m.executed(Instruction::Store { src, addr }).executed(
            Instruction::Load { dst, addr },
        ).reg(dst) == m.reg(src),
{
}

/// A compare sets the flags exactly as the subtraction of the same operands
/// does, and leaves the registers as they were.
pub proof fn lemma_compare_is_subtraction_without_result(m: Machine, reg1: u8, reg2: u8)
    requires
        reg1 < 8,
        m.registers.len() == 8,
    ensures
        m.executed(Instruction::Cmp { reg1, reg2 }).flags == m.executed(
            Instruction::Sub { dst: reg1, src: reg2 },
        ).flags,
        m.executed(Instruction::Cmp { reg1, reg2 }).registers == m.registers,
{
}

/// Whether an ALU instruction writes its result to a register (all but the
/// compares and `not` of an immediate).
pub open spec fn writes_result(i: Instruction) -> bool {
    is_alu(i) && !(i is Cmp) && !(i is CmpI) && !(i is NotI)
}

/// The register an instruction writes (for those that write one).
pub open spec fn destination(i: Instruction) -> u8 {
    i.reg()
}

/// The zero flag is set exactly when the result written is 0, and the
/// negative flag exactly when its high bit is set.
pub proof fn lemma_flags_follow_result(m: Machine, i: Instruction)
    requires
        writes_result(i),
        registers_in_range(i),
        m.registers.len() == 8,
    ensures
        m.executed(i).flags.zero == (m.executed(i).reg(destination(i)) == 0),
        m.executed(i).flags.negative == (m.executed(i).reg(destination(i)) >= 128),
{
}

/// Executing an instruction fails only when the instruction register holds
/// no instruction: a jump cannot leave memory, and only ALU instructions
/// reach the ALU.
pub proof fn lemma_execute_fails_only_to_decode(m: Machine)
    ensures
        m.executed_ir().1 matches Err(e) ==> e is Decode,
        m.executed_ir().1 is Err <==> Instruction::decoded(m.ir) is Err,
{
}

/// The difference of two bytes modulo 256, as the CPU's wrapping subtraction
/// computes it.
proof fn lemma_wrapping_difference(a: u8, b: u8)
    ensures
        ((a - b + 256) % 256) as u8 as int == (a - b) % 256,
        (a - b) % 256 == 0 <==> a == b,
        0 <= (a - b) % 256 < 256,
{
    if a >= b {
        assert((a - b + 256) % 256 == a - b);
        assert((a - b) % 256 == a - b);
    } else {
        assert((a - b + 256) % 256 == a - b + 256);
        assert((a - b) % 256 == a - b + 256);
    }
}

/// The sum of two bytes modulo 256, as the CPU's wrapping addition computes
/// it.
proof fn lemma_wrapping_sum(a: u8, b: u8)
    ensures
        ((a + b) % 256) as u8 as int == (a + b) % 256,
        0 <= (a + b) % 256 < 256,
{
    if a + b >= 256 {
        assert((a + b) % 256 == a + b - 256);
    } else {
        assert((a + b) % 256 == a + b);
    }
}

/// Addition: `add dst, src` and `add dst, imm` leave the sum of the two
/// operands modulo 256 in `dst` and set carry exactly when the sum exceeds
/// 255; zero and negative follow the result. Other registers, memory and
/// `pc` are left as they were.
pub proof fn lemma_add_arithmetic(m: Machine, dst: u8, src: u8, imm: u8)
    requires
        m.registers.len() == 8,
        dst < 8,
        src < 8,
    ensures
        ({
            let a = m.registers[dst as int];
            let b = m.registers[src as int];
            let after = m.executed(Instruction::Add { dst, src });
            &&& after.registers.len() == 8
            &&& after.registers[dst as int] as int == (a + b) % 256
            &&& after.flags.carry == (a + b >= 256)
            &&& after.flags.zero == ((a + b) % 256 == 0)
            &&& after.flags.negative == ((a + b) % 256 >= 128)
            &&& forall|r: int| 0 <= r < 8 && r != dst ==> after.registers[r] == m.registers[r]
            &&& after.memory == m.memory && after.pc == m.pc
        }),
        ({
            let a = m.registers[dst as int];
            let after = m.executed(Instruction::AddI { dst, imm });
            &&& after.registers.len() == 8
            &&& after.registers[dst as int] as int == (a + imm) % 256
            &&& after.flags.carry == (a + imm >= 256)
            &&& after.flags.zero == ((a + imm) % 256 == 0)
            &&& after.flags.negative == ((a + imm) % 256 >= 128)
            &&& forall|r: int| 0 <= r < 8 && r != dst ==> after.registers[r] == m.registers[r]
            &&& after.memory == m.memory && after.pc == m.pc
        }),
{
    lemma_wrapping_sum(m.registers[dst as int], m.registers[src as int]);
    lemma_wrapping_sum(m.registers[dst as int], imm);
}

/// Subtraction: `sub dst, src` and `sub dst, imm` leave the first operand
/// minus the second, modulo 256, in `dst`; carry is set exactly when nothing
/// is borrowed (the first operand is at least the second), zero exactly when
/// the operands are equal, negative exactly when the difference modulo 256
/// has its high bit set. Other registers, memory and `pc` are left as they
/// were.
pub proof fn lemma_sub_arithmetic(m: Machine, dst: u8, src: u8, imm: u8)
    requires
        m.registers.len() == 8,
        dst < 8,
        src < 8,
    ensures
        ({
            let a = m.registers[dst as int];
            let b = m.registers[src as int];
            let after = m.executed(Instruction::Sub { dst, src });
            &&& after.registers.len() == 8
            &&& after.registers[dst as int] as int == (a - b) % 256
            &&& after.flags.carry == (a >= b)
            &&& after.flags.zero == (a == b)
            &&& after.flags.negative == ((a - b) % 256 >= 128)
            &&& forall|r: int| 0 <= r < 8 && r != dst ==> after.registers[r] == m.registers[r]
            &&& after.memory == m.memory && after.pc == m.pc
        }),
        ({
            let a = m.registers[dst as int];
            let after = m.executed(Instruction::SubI { dst, imm });
            &&& after.registers.len() == 8
            &&& after.registers[dst as int] as int == (a - imm) % 256
            &&& after.flags.carry == (a >= imm)
            &&& after.flags.zero == (a == imm)
            &&& after.flags.negative == ((a - imm) % 256 >= 128)
            &&& forall|r: int| 0 <= r < 8 && r != dst ==> after.registers[r] == m.registers[r]
            &&& after.memory == m.memory && after.pc == m.pc
        }),
{
    lemma_wrapping_difference(m.registers[dst as int], m.registers[src as int]);
    lemma_wrapping_difference(m.registers[dst as int], imm);
}

/// Comparison: `cmp reg1, reg2` and `cmp reg, imm` change no register and
/// set the flags of the first operand minus the second: carry exactly when
/// the first is at least the second, zero exactly when they are equal,
/// negative exactly when the difference modulo 256 has its high bit set.
pub proof fn lemma_compare_arithmetic(m: Machine, reg1: u8, reg2: u8, imm: u8)
    requires
        m.registers.len() == 8,
        reg1 < 8,
        reg2 < 8,
    ensures
        ({
            let a = m.registers[reg1 as int];
            let b = m.registers[reg2 as int];
            let after = m.executed(Instruction::Cmp { reg1, reg2 });
            &&& after.registers == m.registers
            &&& after.flags.carry == (a >= b)
            &&& after.flags.zero == (a == b)
            &&& after.flags.negative == ((a - b) % 256 >= 128)
            &&& after.memory == m.memory && after.pc == m.pc
        }),
        ({
            let a = m.registers[reg1 as int];
            let after = m.executed(Instruction::CmpI { reg: reg1, imm });
            &&& after.registers == m.registers
            &&& after.flags.carry == (a >= imm)
            &&& after.flags.zero == (a == imm)
            &&& after.flags.negative == ((a - imm) % 256 >= 128)
            &&& after.memory == m.memory && after.pc == m.pc
        }),
{
    lemma_wrapping_difference(m.registers[reg1 as int], m.registers[reg2 as int]);
    lemma_wrapping_difference(m.registers[reg1 as int], imm);
}

/// The logic instructions: `and` and `or` (with a register or an immediate)
/// leave the bitwise and / or of the operands in `dst` and clear carry;
/// `not src` leaves 255 minus the register in it and keeps carry; `not imm`
/// changes no register. Zero and negative follow the result.
pub proof fn lemma_logic_results(m: Machine, dst: u8, src: u8, imm: u8)
    requires
        m.registers.len() == 8,
        dst < 8,
        src < 8,
    ensures
        ({
            let r = m.registers[dst as int] & m.registers[src as int];
            let after = m.executed(Instruction::And { dst, src });
            &&& after.registers == m.registers.update(dst as int, r)
            &&& after.flags == Flags { zero: r == 0, carry: false, negative: r >= 128 }
        }),
        ({
            let r = m.registers[dst as int] & imm;
            let after = m.executed(Instruction::AndI { dst, imm });
            &&& after.registers == m.registers.update(dst as int, r)
            &&& after.flags == Flags { zero: r == 0, carry: false, negative: r >= 128 }
        }),
        ({
            let r = m.registers[dst as int] | m.registers[src as int];
            let after = m.executed(Instruction::Or { dst, src });
            &&& after.registers == m.registers.update(dst as int, r)
            &&& after.flags == Flags { zero: r == 0, carry: false, negative: r >= 128 }
        }),
        ({
            let r = m.registers[dst as int] | imm;
            let after = m.executed(Instruction::OrI { dst, imm });
            &&& after.registers == m.registers.update(dst as int, r)
            &&& after.flags == Flags { zero: r == 0, carry: false, negative: r >= 128 }
        }),
        ({
            let r = 255 - m.registers[src as int];
            let after = m.executed(Instruction::Not { src });
            &&& after.registers.len() == 8
            &&& after.registers[src as int] as int == r
            &&& forall|k: int| 0 <= k < 8 && k != src ==> after.registers[k] == m.registers[k]
            &&& after.flags.carry == m.flags.carry
            &&& after.flags.zero == (r == 0)
            &&& after.flags.negative == (r >= 128)
        }),
        ({
            let after = m.executed(Instruction::NotI { imm });
            &&& after.registers == m.registers
            &&& after.flags.carry == m.flags.carry
            &&& after.flags.zero == (imm == 255)
            &&& after.flags.negative == (imm < 128)
        }),
{
}

/// Shifts: `shl src, amt` multiplies the register by 2 to the power `amt`
/// modulo 256, `shr src, amt` divides it by that power (rounding down); an
/// amount of 8 or more leaves 0. Carry is kept; zero and negative follow the
/// result; other registers stay.
pub proof fn lemma_shift_arithmetic(m: Machine, src: u8, amt: u8)
    requires
        m.registers.len() == 8,
        src < 8,
    ensures
        ({
            let a = m.registers[src as int];
            let after = m.executed(Instruction::Shl { src, amt });
            let r: int = if amt >= 8 { 0 } else { (a * pow2(amt as nat)) % 256 };
            &&& after.registers.len() == 8
            &&& after.registers[src as int] as int == r
            &&& forall|k: int| 0 <= k < 8 && k != src ==> after.registers[k] == m.registers[k]
            &&& after.flags.carry == m.flags.carry
            &&& after.flags.zero == (r == 0)
            &&& after.flags.negative == (r >= 128)
        }),
        ({
            let a = m.registers[src as int];
            let after = m.executed(Instruction::Shr { src, amt });
            let r: int = if amt >= 8 { 0 } else { a as int / pow2(amt as nat) as int };
            &&& after.registers.len() == 8
            &&& after.registers[src as int] as int == r
            &&& forall|k: int| 0 <= k < 8 && k != src ==> after.registers[k] == m.registers[k]
            &&& after.flags.carry == m.flags.carry
            &&& after.flags.zero == (r == 0)
            &&& after.flags.negative == (r >= 128)
        }),
{
    let a = m.registers[src as int];
    lemma2_to64();
    if amt < 8 {
        lemma_u8_shr_is_div(a, amt);
        lemma_shl_byte(a, amt);
    }
}

/// A byte shifted left by `k < 8` bits is the byte times 2 to the power `k`,
/// modulo 256.
proof fn lemma_shl_byte(a: u8, k: u8)
    requires
        k < 8,
    ensures
        (a << k) as int == (a * pow2(k as nat)) % 256,
{
    lemma2_to64();
    if k == 0 {
        assert(a << k == a << 0u8);
        assert((a << 0u8) as int == (a * 1) % 256) by (bit_vector);
    } else if k == 1 {
        assert(a << k == a << 1u8);
        assert((a << 1u8) as int == (a * 2) % 256) by (bit_vector);
    } else if k == 2 {
        assert(a << k == a << 2u8);
        assert((a << 2u8) as int == (a * 4) % 256) by (bit_vector);
    } else if k == 3 {
        assert(a << k == a << 3u8);
        assert((a << 3u8) as int == (a * 8) % 256) by (bit_vector);
    } else if k == 4 {
        assert(a << k == a << 4u8);
        assert((a << 4u8) as int == (a * 16) % 256) by (bit_vector);
    } else if k == 5 {
        assert(a << k == a << 5u8);
        assert((a << 5u8) as int == (a * 32) % 256) by (bit_vector);
    } else if k == 6 {
        assert(a << k == a << 6u8);
        assert((a << 6u8) as int == (a * 64) % 256) by (bit_vector);
    } else {
        assert(a << k == a << 7u8);
        assert((a << 7u8) as int == (a * 128) % 256) by (bit_vector);
    }
}

/// Branches: `brz`, `brn` and `brc` set `pc` to their address exactly when
/// the zero, negative or carry flag is set, and otherwise leave it; `jmp`
/// always sets it. None of them changes a register, a flag or memory.
pub proof fn lemma_branch_conditions(m: Machine, addr: u8)
    ensures
        m.executed(Instruction::Brz { addr }).pc == (if m.flags.zero { addr } else { m.pc }),
        m.executed(Instruction::Brn { addr }).pc == (if m.flags.negative { addr } else { m.pc }),
        m.executed(Instruction::Brc { addr }).pc == (if m.flags.carry { addr } else { m.pc }),
        m.executed(Instruction::Jmp { addr }).pc == addr,
        m.executed(Instruction::Brz { addr }) == (Machine { pc: m.executed(Instruction::Brz { addr }).pc, ..m }),
        m.executed(Instruction::Brn { addr }) == (Machine { pc: m.executed(Instruction::Brn { addr }).pc, ..m }),
        m.executed(Instruction::Brc { addr }) == (Machine { pc: m.executed(Instruction::Brc { addr }).pc, ..m }),
        m.executed(Instruction::Jmp { addr }) == (Machine { pc: addr, ..m }),
{
}

/// Compare, then branch: after `cmp reg, imm`, `brz` jumps exactly when the
/// register equals the immediate, `brc` exactly when it is at least the
/// immediate, and `brn` exactly when the register minus the immediate,
/// modulo 256, has its high bit set; otherwise `pc` stays.
pub proof fn lemma_compare_then_branch(m: Machine, reg: u8, imm: u8, addr: u8)
    requires
        m.registers.len() == 8,
        reg < 8,
    ensures
        ({
            let a = m.registers[reg as int];
            let c = m.executed(Instruction::CmpI { reg, imm });
            &&& c.executed(Instruction::Brz { addr }).pc == (if a == imm { addr } else { m.pc })
            &&& c.executed(Instruction::Brc { addr }).pc == (if a >= imm { addr } else { m.pc })
            &&& c.executed(Instruction::Brn { addr }).pc == (if (a - imm) % 256 >= 128 {
                addr
            } else {
                m.pc
            })
        }),
{
    lemma_compare_arithmetic(m, reg, reg, imm);
    lemma_branch_conditions(m.executed(Instruction::CmpI { reg, imm }), addr);
}

/// Data moves: `loadi` puts its immediate in `dst`, `mov` copies `src` to
/// `dst`, `load` and `load [ptr]` copy the memory byte at the address (given,
/// or held in `ptr`) to `dst`, `store` and `store [ptr]` copy `src` to that
/// memory byte, `out` puts `src` on the port and marks it dirty, `halt`
/// records the address it halted after. None of them changes a flag.
pub proof fn lemma_data_moves(m: Machine, dst: u8, src: u8, addr: u8, imm: u8)
    requires
        m.registers.len() == 8,
        m.memory.len() == 256,
        dst < 8,
        src < 8,
    ensures
        m.executed(Instruction::LoadI { dst, imm }).registers == m.registers.update(dst as int, imm),
        m.executed(Instruction::Mov { dst, src }).registers == m.registers.update(
            dst as int,
            m.registers[src as int],
        ),
        m.executed(Instruction::Load { dst, addr }).registers == m.registers.update(
            dst as int,
            m.memory[addr as int],
        ),
        m.executed(Instruction::LoadIndirect { dst, ptr: src }).registers == m.registers.update(
            dst as int,
            m.memory[m.registers[src as int] as int],
        ),
        m.executed(Instruction::Store { src, addr }).memory == m.memory.update(
            addr as int,
            m.registers[src as int],
        ),
        m.executed(Instruction::StoreIndirect { src, ptr: dst }).memory == m.memory.update(
            m.registers[dst as int] as int,
            m.registers[src as int],
        ),
        m.executed(Instruction::Out { reg: src, port: addr }).ports == m.ports.update(
            addr as int,
            Port { data: m.registers[src as int], dirty: true },
        ),
        m.executed(Instruction::Halt).halted == Some(m.pc),
        m.executed(Instruction::LoadI { dst, imm }).flags == m.flags,
        m.executed(Instruction::Mov { dst, src }).flags == m.flags,
        m.executed(Instruction::Load { dst, addr }).flags == m.flags,
        m.executed(Instruction::Store { src, addr }).flags == m.flags,
        m.executed(Instruction::Store { src, addr }).registers == m.registers,
        m.executed(Instruction::Out { reg: src, port: addr }).registers == m.registers,
{
}

} // verus!
