use nupu8::{Assembler, AssemblerError, Instruction};

fn assemble(src: &str) -> Result<Vec<u8>, AssemblerError> {
    assert!(Assembler::can_assemble(src));
    Assembler::default().assemble(src)
}

fn words(bytes: &[u8]) -> Vec<u16> {
    bytes.chunks(2).map(|c| ((c[0] as u16) << 8) | c[1] as u16).collect()
}

#[test]
fn assembles_every_form() {
    let src = "\
loadi r1, 5
mov r2, r1
load r3, 0x10
load r3, [r2]
store r3, 200
store r3, [r4]
add r1, r2
add r1, 3
sub r1, r2
sub r1, 3
and r1, r2
and r1, 0xF
or r1, r2
or r1, 1
not r1
not 0x55
cmp r1, r2
cmp r1, 9
shl r1, 2
shr r1, 3
out r1, 0x12
jmp 4
brz 6
brn 8
brc 10
halt
";
    let expected = [
        Instruction::LoadI { dst: 1, imm: 5 },
        Instruction::Mov { dst: 2, src: 1 },
        Instruction::Load { dst: 3, addr: 0x10 },
        Instruction::LoadIndirect { dst: 3, ptr: 2 },
        Instruction::Store { src: 3, addr: 200 },
        Instruction::StoreIndirect { src: 3, ptr: 4 },
        Instruction::Add { dst: 1, src: 2 },
        Instruction::AddI { dst: 1, imm: 3 },
        Instruction::Sub { dst: 1, src: 2 },
        Instruction::SubI { dst: 1, imm: 3 },
        Instruction::And { dst: 1, src: 2 },
        Instruction::AndI { dst: 1, imm: 0xF },
        Instruction::Or { dst: 1, src: 2 },
        Instruction::OrI { dst: 1, imm: 1 },
        Instruction::Not { src: 1 },
        Instruction::NotI { imm: 0x55 },
        Instruction::Cmp { reg1: 1, reg2: 2 },
        Instruction::CmpI { reg: 1, imm: 9 },
        Instruction::Shl { src: 1, amt: 2 },
        Instruction::Shr { src: 1, amt: 3 },
        Instruction::Out { reg: 1, port: 0x12 },
        Instruction::Jmp { addr: 4 },
        Instruction::Brz { addr: 6 },
        Instruction::Brn { addr: 8 },
        Instruction::Brc { addr: 10 },
        Instruction::Halt,
    ];
    let bytes = assemble(src).unwrap();
    assert_eq!(bytes.len(), 2 * expected.len());
    let ws = words(&bytes);
    for (w, i) in ws.iter().zip(expected.iter()) {
        assert_eq!(*w, i.encode());
        assert_eq!(Instruction::decode(*w), Ok(*i));
    }
}

#[test]
fn high_byte_comes_first() {
    assert_eq!(assemble("loadi r1, 5").unwrap(), vec![0x01, 0x05]);
    assert_eq!(assemble("halt").unwrap(), vec![0xF0, 0x00]);
}

#[test]
fn comments_blank_lines_and_spacing() {
    let src = "; a program\n\n   \t\n  loadi   r0 ,\t7   ; set r0\r\n;halt\nhalt;stop\n";
    assert_eq!(assemble(src).unwrap(), vec![0x00, 0x07, 0xF0, 0x00]);
}

#[test]
fn empty_source_gives_empty_program() {
    assert_eq!(assemble("").unwrap(), Vec::<u8>::new());
    assert_eq!(assemble("\n; only a comment\n").unwrap(), Vec::<u8>::new());
}

#[test]
fn labels_resolve_forward_and_backward() {
    let src = "start:\n  loadi r0, 1\n  jmp end\nloop:\n  brz loop\nend:\n  jmp start\n  halt\n";
    let bytes = assemble(src).unwrap();
    let ws = words(&bytes);
    assert_eq!(ws[1], Instruction::Jmp { addr: 6 }.encode());
    assert_eq!(ws[2], Instruction::Brz { addr: 4 }.encode());
    assert_eq!(ws[3], Instruction::Jmp { addr: 0 }.encode());
}

#[test]
fn label_with_trailing_comment() {
    let src = "here: ; the top\njmp here\n";
    assert_eq!(words(&assemble(src).unwrap()), vec![Instruction::Jmp { addr: 0 }.encode()]);
}

#[test]
fn labels_persist_between_runs() {
    let mut assembler = Assembler::default();
    assembler.assemble("halt\nhalt\nfar:\nhalt\n").unwrap();
    let bytes = assembler.assemble("jmp far\n").unwrap();
    assert_eq!(bytes, vec![0x90, 0x04]);
}

#[test]
fn label_shadows_a_number() {
    let src = "halt\n10:\njmp 10\n";
    assert_eq!(words(&assemble(src).unwrap())[1], Instruction::Jmp { addr: 2 }.encode());
}

#[test]
fn mnemonics_are_case_insensitive() {
    assert_eq!(assemble("LoadI r1, 5\nHALT").unwrap(), vec![0x01, 0x05, 0xF0, 0x00]);
}

#[test]
fn register_or_number_by_first_letter() {
    // `R1` is read as a register (its lowercase starts with r) but is no
    // register name.
    let e = assemble("add r0, R1").unwrap_err();
    assert!(matches!(e, AssemblerError::InvalidRegister { line: 1, ref reg } if reg == "R1"));
    assert_eq!(
        words(&assemble("add r0, 12").unwrap())[0],
        Instruction::AddI { dst: 0, imm: 12 }.encode()
    );
}

#[test]
fn number_forms() {
    let bytes = assemble("loadi r0, 0xff\nloadi r1, +7\nloadi r2, 0x+1A\nloadi r3, 007\nloadi r4, 0xAb").unwrap();
    assert_eq!(bytes, vec![0x00, 0xFF, 0x01, 0x07, 0x02, 0x1A, 0x03, 0x07, 0x04, 0xAB]);
}

#[test]
fn register_forms() {
    assert_eq!(assemble("mov r+7, r07").unwrap(), vec![0x0F, 0x07]);
}

#[test]
fn unknown_opcode_is_lowercased() {
    let e = assemble("loadi r0, 1\nFOO r1").unwrap_err();
    assert!(matches!(e, AssemblerError::UnknownOpcode { line: 2, ref opcode } if opcode == "foo"));
}

#[test]
fn invalid_registers() {
    let e = assemble("loadi r8, 1").unwrap_err();
    assert!(matches!(e, AssemblerError::InvalidRegister { line: 1, ref reg } if reg == "r8"));
    let e = assemble("\n\nmov x1, r2").unwrap_err();
    assert!(matches!(e, AssemblerError::InvalidRegister { line: 3, ref reg } if reg == "x1"));
    let e = assemble("load r1, [q2]").unwrap_err();
    assert!(matches!(e, AssemblerError::InvalidRegister { line: 1, ref reg } if reg == "q2"));
    let e = assemble("mov r1, r300").unwrap_err();
    assert!(matches!(e, AssemblerError::InvalidRegister { line: 1, ref reg } if reg == "r300"));
}

#[test]
fn value_overflow() {
    let e = assemble("loadi r0, 256").unwrap_err();
    assert!(matches!(e, AssemblerError::ValueOverflow { line: 1, val: 256 }));
    let e = assemble("out r0, 0xFFFF").unwrap_err();
    assert!(matches!(e, AssemblerError::ValueOverflow { line: 1, val: 0xFFFF }));
}

#[test]
fn invalid_numbers() {
    let e = assemble("loadi r0, 65536").unwrap_err();
    assert!(matches!(e, AssemblerError::InvalidNumber { line: 1, ref val } if val == "65536"));
    let e = assemble("loadi r0, 0xZZ").unwrap_err();
    assert!(matches!(e, AssemblerError::InvalidNumber { line: 1, ref val } if val == "0xZZ"));
    let e = assemble("loadi r0, 0X10").unwrap_err();
    assert!(matches!(e, AssemblerError::InvalidNumber { line: 1, ref val } if val == "0X10"));
    let e = assemble("jmp nowhere").unwrap_err();
    assert!(matches!(e, AssemblerError::InvalidNumber { line: 1, ref val } if val == "nowhere"));
    let e = assemble("loadi r0, -1").unwrap_err();
    assert!(matches!(e, AssemblerError::InvalidNumber { line: 1, ref val } if val == "-1"));
}

#[test]
fn missing_arguments() {
    let e = assemble("loadi r0").unwrap_err();
    assert!(matches!(e, AssemblerError::MissingArgument { line: 1 }));
    let e = assemble("halt\njmp").unwrap_err();
    assert!(matches!(e, AssemblerError::MissingArgument { line: 2 }));
    let e = assemble("not").unwrap_err();
    assert!(matches!(e, AssemblerError::MissingArgument { line: 1 }));
}

#[test]
fn first_error_wins() {
    let e = assemble("foo\nloadi r9, 1").unwrap_err();
    assert!(matches!(e, AssemblerError::UnknownOpcode { line: 1, .. }));
    // Within a line, the first operand is checked before the second is looked for.
    let e = assemble("loadi r9").unwrap_err();
    assert!(matches!(e, AssemblerError::InvalidRegister { line: 1, .. }));
}

#[test]
fn labels_survive_a_failed_run() {
    let mut assembler = Assembler::default();
    assert!(assembler.assemble("spot:\nfoo").is_err());
    assert_eq!(assembler.assemble("jmp spot").unwrap(), vec![0x90, 0x00]);
}

#[test]
fn sources_that_cannot_be_read_to_the_end() {
    assert!(!Assembler::can_assemble(","));
    assert!(!Assembler::can_assemble("halt\n , ,\n"));
    assert!(Assembler::can_assemble("halt\n; ,\n"));
    let big = "halt\n".repeat(32768);
    assert!(!Assembler::can_assemble(&big));
    let fits = "halt\n".repeat(32767);
    assert!(Assembler::can_assemble(&fits));
}

#[test]
fn assembled_program_runs_on_the_cpu() {
    let src = "loadi r0, 3\nloop:\nsub r0, 1\nbrz done\njmp loop\ndone:\nhalt\n";
    let bytes = assemble(src).unwrap();
    let mut cpu = nupu8::Cpu::default();
    cpu.load_memory(&bytes).unwrap();
    let mut guard = 0;
    while cpu.halted.is_none() && guard < 1000 {
        cpu.tick().unwrap();
        cpu.next_step();
        guard += 1;
    }
    assert_eq!(cpu.registers[0], 0);
    assert_eq!(cpu.halted, Some(10));
}
