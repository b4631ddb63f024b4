use chip8::driver::{Driver, HaltReason, Status};
use chip8::machine::ExecFault;

const LOAD_BASE: u16 = 0x200;

#[test]
fn new_driver_starts_running_at_the_load_address() {
    let d = Driver::new(&vec![0x00, 0xE0], LOAD_BASE).unwrap();
    assert_eq!(d.status(), Status::Running);
    assert_eq!(d.machine().pc(), LOAD_BASE);
}

#[test]
fn new_driver_rejects_images_that_do_not_fit() {
    assert!(Driver::new(&vec![0u8; 4097], 0).is_none());
    assert!(Driver::new(&vec![0u8; 2], 4095).is_none());
}

#[test]
fn a_cycle_advances_the_program_counter_before_executing() {
    let mut d = Driver::new(&vec![0x00, 0xE0, 0x00, 0xE0], LOAD_BASE).unwrap();
    d.step();
    assert_eq!(d.status(), Status::Running);
    assert_eq!(d.machine().pc(), LOAD_BASE + 2);
}

#[test]
fn a_jump_is_not_overwritten_by_the_advance() {
    let mut d = Driver::new(&vec![0x12, 0x00], LOAD_BASE).unwrap();
    d.step();
    assert_eq!(d.status(), Status::Running);
    assert_eq!(d.machine().pc(), 0x200);
}

#[test]
fn fetching_past_the_end_halts_and_stays_halted() {
    let mut d = Driver::new(&vec![0x00, 0xE0], LOAD_BASE).unwrap();
    d.step();
    assert_eq!(d.status(), Status::Running);
    d.step();
    assert_eq!(d.status(), Status::Halted(HaltReason::EndOfProgram));
    let pc = d.machine().pc();
    // No further state mutation once halted.
    d.step();
    d.step();
    assert_eq!(d.status(), Status::Halted(HaltReason::EndOfProgram));
    assert_eq!(d.machine().pc(), pc);
}

#[test]
fn an_empty_program_halts_on_the_first_cycle() {
    let mut d = Driver::new(&vec![], LOAD_BASE).unwrap();
    d.step();
    assert_eq!(d.status(), Status::Halted(HaltReason::EndOfProgram));
}

#[test]
fn an_unrecognized_word_halts_with_the_raw_word() {
    let mut d = Driver::new(&vec![0x81, 0x23], LOAD_BASE).unwrap();
    d.step();
    assert_eq!(d.status(), Status::Halted(HaltReason::InvalidInstruction(0x8123)));
}

#[test]
fn an_execution_fault_halts_with_the_fault() {
    let mut d = Driver::new(&vec![0x00, 0xEE], LOAD_BASE).unwrap();
    d.step();
    assert_eq!(
        d.status(),
        Status::Halted(HaltReason::Fault(ExecFault::StackUnderflow))
    );
}

#[test]
fn call_then_return_resumes_after_the_call() {
    // 0x200: call 0x204; 0x202: clear screen; 0x204: return.
    let mut d = Driver::new(&vec![0x22, 0x04, 0x00, 0xE0, 0x00, 0xEE], LOAD_BASE).unwrap();
    d.step();
    assert_eq!(d.machine().pc(), 0x204);
    assert_eq!(d.machine().stack_depth(), 1);
    d.step();
    // Returned to the instruction immediately after the call.
    assert_eq!(d.machine().pc(), LOAD_BASE + 2);
    assert_eq!(d.machine().stack_depth(), 0);
    assert_eq!(d.status(), Status::Running);
}

#[test]
fn run_executes_cycles_until_halted() {
    // Set r0 = 0xFF, add 2 (wrapping), then run off the end.
    let mut d = Driver::new(&vec![0x60, 0xFF, 0x70, 0x02], LOAD_BASE).unwrap();
    d.run(10);
    assert_eq!(d.status(), Status::Halted(HaltReason::EndOfProgram));
    assert_eq!(d.machine().register(0), 0x01);
}

#[test]
fn run_stops_after_the_given_number_of_cycles() {
    // An infinite loop: jump to the jump itself.
    let mut d = Driver::new(&vec![0x12, 0x00], LOAD_BASE).unwrap();
    d.run(1000);
    assert_eq!(d.status(), Status::Running);
    assert_eq!(d.machine().pc(), LOAD_BASE);
}

#[test]
fn a_full_program_draws_through_the_driver() {
    // Set index to the sprite at 0x208, set r0 = 3, r1 = 4, draw one row,
    // then jump in place; the sprite byte is 0xA0 (bits 0 and 2).
    let program = vec![0xA2, 0x08, 0x60, 0x03, 0x61, 0x04, 0xD0, 0x11, 0xA0, 0x00];
    let mut d = Driver::new(&program, LOAD_BASE).unwrap();
    d.run(4);
    assert_eq!(d.status(), Status::Running);
    assert!(d.machine().pixel(3, 4));
    assert!(!d.machine().pixel(4, 4));
    assert!(d.machine().pixel(5, 4));
    assert_eq!(d.machine().register(15), 0);
}
