use nupu8::{Cpu, CpuError, DecodeError, Instruction, Port};

/// Runs one whole instruction (three ticks) from step 0.
fn run_instruction(cpu: &mut Cpu) -> Result<(), CpuError> {
    for _ in 0..3 {
        cpu.tick()?;
        cpu.next_step();
    }
    Ok(())
}

fn program(instrs: &[Instruction]) -> Vec<u8> {
    let mut bytes = Vec::new();
    for i in instrs {
        let w = i.encode();
        bytes.push((w >> 8) as u8);
        bytes.push(w as u8);
    }
    bytes
}

fn cpu_with(instrs: &[Instruction]) -> Cpu {
    let mut cpu = Cpu::default();
    cpu.load_memory(&program(instrs)).unwrap();
    cpu
}

#[test]
fn default_cpu_is_blank() {
    let cpu = Cpu::default();
    assert_eq!(cpu.pc, 0);
    assert_eq!(cpu.ir, 0);
    assert_eq!(cpu.step, 0);
    assert_eq!(cpu.registers, [0; 8]);
    assert!(cpu.memory.iter().all(|&b| b == 0));
    assert!(cpu.ports.iter().all(|p| *p == Port { data: 0, dirty: false }));
    assert_eq!(cpu.halted, None);
    assert!(!cpu.flags.zero && !cpu.flags.carry && !cpu.flags.negative);
}

#[test]
fn load_memory_copies_prefix() {
    let mut cpu = Cpu::default();
    cpu.memory[5] = 9;
    cpu.load_memory(&vec![1, 2, 3]).unwrap();
    assert_eq!(&cpu.memory[..4], &[1, 2, 3, 0]);
    assert_eq!(cpu.memory[5], 9);
}

#[test]
fn load_memory_fills_all_of_memory() {
    let mut cpu = Cpu::default();
    let data: Vec<u8> = (0..=255).collect();
    cpu.load_memory(&data).unwrap();
    assert_eq!(cpu.memory[255], 255);
}

#[test]
fn load_memory_overflow() {
    let mut cpu = Cpu::default();
    let r = cpu.load_memory(&vec![7; 257]);
    assert_eq!(r, Err(CpuError::MemoryOverflow { actual: 257, limit: 256 }));
    assert!(cpu.memory.iter().all(|&b| b == 0));
}

#[test]
fn reset_restores_initial_state() {
    let mut cpu = cpu_with(&[Instruction::LoadI { dst: 1, imm: 5 }]);
    run_instruction(&mut cpu).unwrap();
    assert_eq!(cpu.registers[1], 5);
    cpu.reset(&vec![0xF0, 0x00]).unwrap();
    assert_eq!(cpu.registers[1], 0);
    assert_eq!(cpu.pc, 0);
    assert_eq!(&cpu.memory[..2], &[0xF0, 0x00]);
    let r = cpu.reset(&vec![1; 300]);
    assert_eq!(r, Err(CpuError::MemoryOverflow { actual: 300, limit: 256 }));
    assert_eq!(cpu.memory[0], 0);
}

#[test]
fn fetch_steps_fill_instruction_register() {
    let mut cpu = Cpu::default();
    cpu.load_memory(&vec![0x01, 0x05]).unwrap();
    cpu.tick().unwrap();
    assert_eq!(cpu.ir, 0x0100);
    cpu.next_step();
    cpu.tick().unwrap();
    assert_eq!(cpu.ir, 0x0105);
    assert_eq!(cpu.pc, 0);
    cpu.next_step();
    cpu.tick().unwrap();
    assert_eq!(cpu.pc, 2);
    assert_eq!(cpu.registers[1], 5);
}

#[test]
fn fetch_wraps_around_memory() {
    let mut cpu = Cpu::default();
    cpu.memory[255] = 0x02;
    cpu.memory[0] = 0x07;
    cpu.pc = 255;
    run_instruction(&mut cpu).unwrap();
    assert_eq!(cpu.ir, 0x0207);
    assert_eq!(cpu.pc, 1);
}

#[test]
fn step_cycles_and_out_of_range_step_resets() {
    let mut cpu = Cpu::default();
    cpu.next_step();
    assert_eq!(cpu.step, 1);
    cpu.next_step();
    assert_eq!(cpu.step, 2);
    cpu.next_step();
    assert_eq!(cpu.step, 0);
    cpu.step = 7;
    cpu.tick().unwrap();
    assert_eq!(cpu.step, 0);
}

#[test]
fn add_sets_carry_and_wraps() {
    let mut cpu = cpu_with(&[
        Instruction::LoadI { dst: 0, imm: 200 },
        Instruction::LoadI { dst: 1, imm: 100 },
        Instruction::Add { dst: 0, src: 1 },
    ]);
    for _ in 0..3 {
        run_instruction(&mut cpu).unwrap();
    }
    assert_eq!(cpu.registers[0], 44);
    assert!(cpu.flags.carry);
    assert!(!cpu.flags.zero);
    assert!(!cpu.flags.negative);
}

#[test]
fn add_immediate_to_zero() {
    let mut cpu = cpu_with(&[Instruction::LoadI { dst: 2, imm: 0xFF }, Instruction::AddI { dst: 2, imm: 1 }]);
    run_instruction(&mut cpu).unwrap();
    run_instruction(&mut cpu).unwrap();
    assert_eq!(cpu.registers[2], 0);
    assert!(cpu.flags.zero && cpu.flags.carry && !cpu.flags.negative);
}

#[test]
fn sub_borrow_clears_carry() {
    let mut cpu = cpu_with(&[Instruction::LoadI { dst: 3, imm: 5 }, Instruction::SubI { dst: 3, imm: 10 }]);
    run_instruction(&mut cpu).unwrap();
    run_instruction(&mut cpu).unwrap();
    assert_eq!(cpu.registers[3], 251);
    assert!(!cpu.flags.carry);
    assert!(cpu.flags.negative);
    assert!(!cpu.flags.zero);
}

#[test]
fn sub_without_borrow_sets_carry() {
    let mut cpu = cpu_with(&[
        Instruction::LoadI { dst: 3, imm: 10 },
        Instruction::LoadI { dst: 4, imm: 10 },
        Instruction::Sub { dst: 3, src: 4 },
    ]);
    for _ in 0..3 {
        run_instruction(&mut cpu).unwrap();
    }
    assert_eq!(cpu.registers[3], 0);
    assert!(cpu.flags.carry && cpu.flags.zero);
}

#[test]
fn and_or_clear_carry() {
    let mut cpu = cpu_with(&[
        Instruction::LoadI { dst: 0, imm: 0xF0 },
        Instruction::AndI { dst: 0, imm: 0x3C },
        Instruction::OrI { dst: 0, imm: 0x81 },
    ]);
    cpu.flags.carry = true;
    run_instruction(&mut cpu).unwrap();
    run_instruction(&mut cpu).unwrap();
    assert_eq!(cpu.registers[0], 0x30);
    assert!(!cpu.flags.carry);
    run_instruction(&mut cpu).unwrap();
    assert_eq!(cpu.registers[0], 0xB1);
    assert!(cpu.flags.negative);
}

#[test]
fn compare_sets_flags_only() {
    let mut cpu = cpu_with(&[
        Instruction::LoadI { dst: 0, imm: 7 },
        Instruction::CmpI { reg: 0, imm: 7 },
        Instruction::CmpI { reg: 0, imm: 9 },
    ]);
    run_instruction(&mut cpu).unwrap();
    run_instruction(&mut cpu).unwrap();
    assert_eq!(cpu.registers[0], 7);
    assert!(cpu.flags.zero && cpu.flags.carry && !cpu.flags.negative);
    run_instruction(&mut cpu).unwrap();
    assert_eq!(cpu.registers[0], 7);
    assert!(!cpu.flags.zero && !cpu.flags.carry && cpu.flags.negative);
}

#[test]
fn compare_flags_match_subtraction() {
    for (a, b) in [(0u8, 0u8), (3, 9), (9, 3), (200, 100), (100, 228)] {
        let mut c1 = cpu_with(&[
            Instruction::LoadI { dst: 0, imm: a },
            Instruction::LoadI { dst: 1, imm: b },
            Instruction::Cmp { reg1: 0, reg2: 1 },
        ]);
        let mut c2 = cpu_with(&[
            Instruction::LoadI { dst: 0, imm: a },
            Instruction::LoadI { dst: 1, imm: b },
            Instruction::Sub { dst: 0, src: 1 },
        ]);
        for _ in 0..3 {
            run_instruction(&mut c1).unwrap();
            run_instruction(&mut c2).unwrap();
        }
        assert_eq!(c1.flags, c2.flags);
        assert_eq!(c1.registers[0], a);
        assert_eq!(c1.registers[1], b);
    }
}

#[test]
fn not_complements_and_keeps_carry() {
    let mut cpu = cpu_with(&[
        Instruction::LoadI { dst: 5, imm: 0x0F },
        Instruction::Not { src: 5 },
        Instruction::NotI { imm: 0xFF },
    ]);
    cpu.flags.carry = true;
    run_instruction(&mut cpu).unwrap();
    run_instruction(&mut cpu).unwrap();
    assert_eq!(cpu.registers[5], 0xF0);
    assert!(cpu.flags.negative && cpu.flags.carry && !cpu.flags.zero);
    run_instruction(&mut cpu).unwrap();
    assert_eq!(cpu.registers[5], 0xF0);
    assert_eq!(cpu.registers[0], 0);
    assert!(cpu.flags.zero && !cpu.flags.negative && cpu.flags.carry);
}

#[test]
fn shifts_left_and_right() {
    let mut cpu = cpu_with(&[
        Instruction::LoadI { dst: 1, imm: 0x81 },
        Instruction::Shl { src: 1, amt: 1 },
        Instruction::LoadI { dst: 2, imm: 0x80 },
        Instruction::Shr { src: 2, amt: 3 },
        Instruction::LoadI { dst: 3, imm: 0x01 },
        Instruction::Shl { src: 3, amt: 9 },
    ]);
    cpu.flags.carry = true;
    run_instruction(&mut cpu).unwrap();
    run_instruction(&mut cpu).unwrap();
    assert_eq!(cpu.registers[1], 0x02);
    run_instruction(&mut cpu).unwrap();
    run_instruction(&mut cpu).unwrap();
    assert_eq!(cpu.registers[2], 0x10);
    run_instruction(&mut cpu).unwrap();
    run_instruction(&mut cpu).unwrap();
    // Every bit is shifted out.
    assert_eq!(cpu.registers[3], 0);
    assert!(cpu.flags.zero && cpu.flags.carry);
}

#[test]
fn shifting_by_eight_or_more_clears_the_register() {
    let mut cpu = cpu_with(&[
        Instruction::LoadI { dst: 0, imm: 1 },
        Instruction::Shl { src: 0, amt: 8 },
        Instruction::LoadI { dst: 1, imm: 0x80 },
        Instruction::Shr { src: 1, amt: 8 },
        Instruction::LoadI { dst: 2, imm: 0xFF },
        Instruction::Shr { src: 2, amt: 7 },
        Instruction::LoadI { dst: 3, imm: 0xFF },
        Instruction::Shl { src: 3, amt: 255 },
    ]);
    for _ in 0..8 {
        run_instruction(&mut cpu).unwrap();
    }
    assert_eq!(cpu.registers[0], 0);
    assert_eq!(cpu.registers[1], 0);
    assert_eq!(cpu.registers[2], 1);
    assert_eq!(cpu.registers[3], 0);
}

#[test]
fn shift_word_from_memory() {
    let mut cpu = Cpu::default();
    cpu.registers[0] = 1;
    cpu.ir = 0xA008;
    cpu.execute().unwrap();
    assert_eq!(cpu.registers[0], 0);
    assert!(cpu.flags.zero);
}

#[test]
fn store_then_load_gives_back_the_value() {
    let mut cpu = cpu_with(&[
        Instruction::LoadI { dst: 1, imm: 42 },
        Instruction::Store { src: 1, addr: 0x80 },
        Instruction::Load { dst: 2, addr: 0x80 },
        Instruction::LoadI { dst: 3, imm: 0x90 },
        Instruction::StoreIndirect { src: 1, ptr: 3 },
        Instruction::LoadIndirect { dst: 4, ptr: 3 },
        Instruction::Mov { dst: 5, src: 4 },
    ]);
    for _ in 0..7 {
        run_instruction(&mut cpu).unwrap();
    }
    assert_eq!(cpu.memory[0x80], 42);
    assert_eq!(cpu.registers[2], 42);
    assert_eq!(cpu.memory[0x90], 42);
    assert_eq!(cpu.registers[4], 42);
    assert_eq!(cpu.registers[5], 42);
}

#[test]
fn branches_follow_flags() {
    let mut cpu = cpu_with(&[
        Instruction::CmpI { reg: 0, imm: 0 },
        Instruction::Brz { addr: 0x10 },
    ]);
    run_instruction(&mut cpu).unwrap();
    run_instruction(&mut cpu).unwrap();
    assert_eq!(cpu.pc, 0x10);

    let mut cpu = cpu_with(&[
        Instruction::CmpI { reg: 0, imm: 1 },
        Instruction::Brz { addr: 0x10 },
        Instruction::Brn { addr: 0x20 },
    ]);
    run_instruction(&mut cpu).unwrap();
    run_instruction(&mut cpu).unwrap();
    assert_eq!(cpu.pc, 4);
    run_instruction(&mut cpu).unwrap();
    assert_eq!(cpu.pc, 0x20);

    let mut cpu = cpu_with(&[Instruction::Brc { addr: 0x30 }, Instruction::Jmp { addr: 0x40 }]);
    run_instruction(&mut cpu).unwrap();
    assert_eq!(cpu.pc, 2);
    run_instruction(&mut cpu).unwrap();
    assert_eq!(cpu.pc, 0x40);
}

#[test]
fn out_writes_a_dirty_port() {
    let mut cpu = cpu_with(&[Instruction::LoadI { dst: 6, imm: 0xAB }, Instruction::Out { reg: 6, port: 0x12 }]);
    run_instruction(&mut cpu).unwrap();
    run_instruction(&mut cpu).unwrap();
    assert_eq!(cpu.ports[0x12], Port { data: 0xAB, dirty: true });
    assert_eq!(cpu.ports[0x11], Port { data: 0, dirty: false });
}

#[test]
fn halt_records_pc() {
    let mut cpu = cpu_with(&[Instruction::LoadI { dst: 0, imm: 1 }, Instruction::Halt]);
    run_instruction(&mut cpu).unwrap();
    assert_eq!(cpu.halted, None);
    run_instruction(&mut cpu).unwrap();
    assert_eq!(cpu.halted, Some(4));
}

#[test]
fn invalid_opcode_is_an_error() {
    let mut cpu = Cpu::default();
    cpu.load_memory(&vec![0xC0, 0x00]).unwrap();
    let r = run_instruction(&mut cpu);
    assert_eq!(r, Err(CpuError::Decode(DecodeError::InvalidOpcode(0xC))));
    // The program counter has already moved past the word.
    assert_eq!(cpu.pc, 2);
}

#[test]
fn invalid_branch_type_is_an_error() {
    let mut cpu = Cpu::default();
    cpu.ir = 0x9500;
    assert_eq!(cpu.execute(), Err(CpuError::Decode(DecodeError::InvalidBranchType(5))));
}

#[test]
fn execute_uses_instruction_register() {
    let mut cpu = Cpu::default();
    cpu.ir = Instruction::LoadI { dst: 7, imm: 99 }.encode();
    cpu.execute().unwrap();
    assert_eq!(cpu.registers[7], 99);
    assert_eq!(cpu.pc, 0);
}

#[test]
fn decode_errors_convert_to_cpu_errors() {
    let e: CpuError = DecodeError::InvalidBranchType(6).into();
    assert_eq!(e, CpuError::Decode(DecodeError::InvalidBranchType(6)));
}
