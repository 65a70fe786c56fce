//! The decisions of the interactive run loop: what a key press does, whether
//! the CPU runs, and one clock cycle of CPU and display together. The loop
//! itself (terminal, timing, drawing) lives with the program.
use vstd::prelude::*;
use crate::cpu::{executable, Cpu, CpuError, Machine};
use crate::display::NupuDisplay;

verus! {

/// Whether the clock runs.
#[derive(Debug, Clone, Copy, PartialEq, Eq, Structural)]
pub enum CpuState {
    Running,
    Paused,
}

/// What the run loop does after a key press.
#[derive(Debug, Clone, Copy, PartialEq, Eq, Structural)]
pub enum Control {
    /// Leave the loop (`q`).
    Quit,
    /// Blank the display and reload the program (`r`).
    Reset,
    /// Go on.
    Continue,
}

/// The clock state after a key and what the loop does: `q` quits, `r`
/// resets, space pauses or resumes, any other key does nothing.
pub open spec fn key_effect(state: CpuState, key: char) -> (CpuState, Control) {
    if key == 'q' {
        (state, Control::Quit)
    } else if key == 'r' {
        (state, Control::Reset)
    } else if key == ' ' {
        (
            match state {
                CpuState::Running => CpuState::Paused,
                CpuState::Paused => CpuState::Running,
            },
            Control::Continue,
        )
    } else {
        (state, Control::Continue)
    }
}

/// What a key press does (see `key_effect`).
pub fn handle_key(state: CpuState, key: char) -> (r: (CpuState, Control))
    ensures
        r == key_effect(state, key),
{
    if key == 'q' {
        (state, Control::Quit)
    } else if key == 'r' {
        (state, Control::Reset)
    } else if key == ' ' {
        let next = match state {
            CpuState::Running => CpuState::Paused,
            CpuState::Paused => CpuState::Running,
        };
        (next, Control::Continue)
    } else {
        (state, Control::Continue)
    }
}

/// The clock runs while the CPU has not halted and is not paused.
pub fn should_run(cpu: &Cpu, state: CpuState) -> (b: bool)
    ensures
        b == (cpu.halted is None && state == CpuState::Running),
{
    cpu.halted.is_none() && state == CpuState::Running
}

/// One clock cycle: the CPU ticks, the display takes what the CPU wrote to
/// its ports, and the CPU moves to its next step. A failed tick stops the
/// cycle there.
pub fn clock_cycle(cpu: &mut Cpu, display: &mut NupuDisplay) -> (r: Result<(), CpuError>)
    requires
        old(cpu).step == 2 ==> executable(old(cpu).ir),
        old(cpu)@.ticked().1 is Ok ==> old(display)@.draws_on_screen(
            old(cpu)@.ticked().0.ports,
        ),
    ensures
        old(cpu)@.ticked().1 is Err ==> r == old(cpu)@.ticked().1 && final(cpu)@ == old(
            cpu,
        )@.ticked().0 && final(display)@ == old(display)@,
        old(cpu)@.ticked().1 is Ok ==> r is Ok && final(display)@ == old(display)@.updated(
            old(cpu)@.ticked().0.ports,
        ).0 && final(cpu)@ == (Machine {
            ports: old(display)@.updated(old(cpu)@.ticked().0.ports).1,
            step: ((old(cpu)@.ticked().0.step + 1) % 3) as u8,
            ..old(cpu)@.ticked().0
        }),
        old(display)@.wf() ==> final(display)@.wf(),
{
    match cpu.tick() {
        Ok(_) => {},
        Err(e) => {
            return Err(e);
        },
    }
    display.update(&mut cpu.ports);
    cpu.next_step();
    Ok(())
}

/// How the memory view marks the byte at `addr`: the byte at `pc` is marked,
/// and while the instruction is being fetched or executed (steps 1 and 2) so
/// is the byte after it, together with the space before that byte. Gives
/// (byte marked, space before it marked).
pub open spec fn memory_marks(pc: u8, step: u8, addr: int) -> (bool, bool) {
    let next = (step == 1 || step == 2) && addr == pc + 1;
    (addr == pc || next, next)
}

/// How the memory view marks the byte at `addr` (see `memory_marks`).
pub fn memory_highlight(pc: u8, step: u8, addr: usize) -> (r: (bool, bool))
    ensures
        r == memory_marks(pc, step, addr as int),
{
    let is_pc = addr == pc as usize;
    let is_next_byte = addr == pc as usize + 1;
    let fetching = step == 1 || step == 2;
    (is_pc || (fetching && is_next_byte), fetching && is_next_byte)
}

} // verus!
