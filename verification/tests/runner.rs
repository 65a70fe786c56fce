use nupu8::runner::{clock_cycle, handle_key, memory_highlight, should_run};
use nupu8::{Assembler, Control, Cpu, CpuState, NupuDisplay};

#[test]
fn keys() {
    assert_eq!(handle_key(CpuState::Running, 'q'), (CpuState::Running, Control::Quit));
    assert_eq!(handle_key(CpuState::Paused, 'r'), (CpuState::Paused, Control::Reset));
    assert_eq!(handle_key(CpuState::Running, ' '), (CpuState::Paused, Control::Continue));
    assert_eq!(handle_key(CpuState::Paused, ' '), (CpuState::Running, Control::Continue));
    assert_eq!(handle_key(CpuState::Running, 'x'), (CpuState::Running, Control::Continue));
}

#[test]
fn runs_only_when_running_and_not_halted() {
    let mut cpu = Cpu::default();
    assert!(should_run(&cpu, CpuState::Running));
    assert!(!should_run(&cpu, CpuState::Paused));
    cpu.halted = Some(2);
    assert!(!should_run(&cpu, CpuState::Running));
}

#[test]
fn program_draws_on_the_display() {
    let src = "\
loadi r0, 10
out r0, 0x10
loadi r0, 3
out r0, 0x11
loadi r0, 0xFF
out r0, 0x12
out r0, 0x12
halt
";
    let bytes = Assembler::default().assemble(src).unwrap();
    let mut cpu = Cpu::default();
    cpu.load_memory(&bytes).unwrap();
    let mut display = NupuDisplay::new();
    let mut cycles = 0;
    while should_run(&cpu, CpuState::Running) && cycles < 100 {
        clock_cycle(&mut cpu, &mut display).unwrap();
        cycles += 1;
    }
    assert_eq!(cycles, 24);
    assert_eq!(display.vram[3][10], 0xFF);
    assert_eq!(display.vram[3][11], 0xFF);
    assert_eq!(display.x_ptr, 12);
    assert_eq!(cpu.step, 0);
}

#[test]
fn memory_view_marks() {
    assert_eq!(memory_highlight(4, 0, 4), (true, false));
    assert_eq!(memory_highlight(4, 0, 5), (false, false));
    assert_eq!(memory_highlight(4, 1, 5), (true, true));
    assert_eq!(memory_highlight(4, 2, 5), (true, true));
    assert_eq!(memory_highlight(4, 2, 6), (false, false));
    assert_eq!(memory_highlight(255, 2, 0), (false, false));
}
