use chip8::isa::Instruction;
use chip8::machine::{ExecFault, Machine};

const LOAD_BASE: u16 = 0x200;

fn fresh(program: Vec<u8>) -> Machine {
    Machine::new(&program, LOAD_BASE).unwrap()
}

#[test]
fn new_rejects_images_that_do_not_fit() {
    assert!(Machine::new(&vec![0u8; 4097], 0).is_none());
    assert!(Machine::new(&vec![0u8; 1], 4096).is_none());
    assert!(Machine::new(&vec![0u8; 100], 3997).is_none());
    assert!(Machine::new(&vec![0u8; 100], 3996).is_some());
    assert!(Machine::new(&vec![0u8; 4096], 0).is_some());
}

#[test]
fn new_zeroes_state_and_loads_the_image() {
    let m = fresh(vec![0xAB, 0xCD]);
    assert_eq!(m.pc(), LOAD_BASE);
    assert_eq!(m.index(), 0);
    assert_eq!(m.stack_depth(), 0);
    for i in 0..16 {
        assert_eq!(m.register(i), 0);
    }
    for x in 0..64 {
        for y in 0..32 {
            assert!(!m.pixel(x, y));
        }
    }
    assert_eq!(m.fetch(), Some(0xABCD));
}

#[test]
fn fetch_stops_at_the_loaded_extent() {
    let m = fresh(vec![0x00, 0xE0, 0x12, 0x00]);
    assert_eq!(m.fetch(), Some(0x00E0));
    let mut past = fresh(vec![0x00, 0xE0]);
    past.execute(Instruction::Jump { address: LOAD_BASE + 2 }).unwrap();
    assert_eq!(past.fetch(), None);
}

#[test]
fn set_immediate_overwrites_the_register() {
    let mut m = fresh(vec![]);
    m.execute(Instruction::SetImmediate { register: 3, value: 0x7F }).unwrap();
    assert_eq!(m.register(3), 0x7F);
    m.execute(Instruction::SetImmediate { register: 3, value: 0x01 }).unwrap();
    assert_eq!(m.register(3), 0x01);
}

#[test]
fn add_immediate_wraps_on_overflow() {
    let mut m = fresh(vec![]);
    m.execute(Instruction::SetImmediate { register: 0, value: 0xFF }).unwrap();
    m.execute(Instruction::AddImmediate { register: 0, value: 0x02 }).unwrap();
    assert_eq!(m.register(0), 0x01);
}

#[test]
fn add_immediate_plain_sum() {
    let mut m = fresh(vec![]);
    m.execute(Instruction::SetImmediate { register: 7, value: 40 }).unwrap();
    m.execute(Instruction::AddImmediate { register: 7, value: 2 }).unwrap();
    assert_eq!(m.register(7), 42);
}

#[test]
fn set_index_overwrites_the_index_register() {
    let mut m = fresh(vec![]);
    m.execute(Instruction::SetIndex { value: 0x123 }).unwrap();
    assert_eq!(m.index(), 0x123);
}

#[test]
fn jump_sets_the_program_counter() {
    let mut m = fresh(vec![]);
    m.execute(Instruction::Jump { address: 0x345 }).unwrap();
    assert_eq!(m.pc(), 0x345);
}

#[test]
fn compare_immediate_skips_exactly_on_a_match() {
    let mut m = fresh(vec![]);
    m.execute(Instruction::SetImmediate { register: 2, value: 5 }).unwrap();
    let pc = m.pc();
    m.execute(Instruction::CompareImmediate { x: 2, immediate: 5, want_equal: true }).unwrap();
    assert_eq!(m.pc(), pc + 2);
    m.execute(Instruction::CompareImmediate { x: 2, immediate: 6, want_equal: true }).unwrap();
    assert_eq!(m.pc(), pc + 2);
    m.execute(Instruction::CompareImmediate { x: 2, immediate: 6, want_equal: false }).unwrap();
    assert_eq!(m.pc(), pc + 4);
}

#[test]
fn compare_registers_skips_exactly_on_a_match() {
    let mut m = fresh(vec![]);
    m.execute(Instruction::SetImmediate { register: 0, value: 9 }).unwrap();
    m.execute(Instruction::SetImmediate { register: 1, value: 9 }).unwrap();
    let pc = m.pc();
    m.execute(Instruction::CompareRegisters { x: 0, y: 1, want_equal: true }).unwrap();
    assert_eq!(m.pc(), pc + 2);
    m.execute(Instruction::SetImmediate { register: 1, value: 8 }).unwrap();
    m.execute(Instruction::CompareRegisters { x: 0, y: 1, want_equal: true }).unwrap();
    assert_eq!(m.pc(), pc + 2);
}

#[test]
fn call_then_return_restores_the_program_counter() {
    let mut m = fresh(vec![]);
    let pc = m.pc();
    m.execute(Instruction::CallSubroutine { address: 0x300 }).unwrap();
    assert_eq!(m.pc(), 0x300);
    assert_eq!(m.stack_depth(), 1);
    m.execute(Instruction::Return).unwrap();
    assert_eq!(m.pc(), pc);
    assert_eq!(m.stack_depth(), 0);
}

#[test]
fn call_faults_when_the_stack_is_full() {
    let mut m = fresh(vec![]);
    for _ in 0..16 {
        m.execute(Instruction::CallSubroutine { address: 0x300 }).unwrap();
    }
    assert_eq!(m.stack_depth(), 16);
    assert_eq!(
        m.execute(Instruction::CallSubroutine { address: 0x300 }),
        Err(ExecFault::StackOverflow)
    );
    assert_eq!(m.stack_depth(), 16);
}

#[test]
fn return_faults_when_the_stack_is_empty() {
    let mut m = fresh(vec![]);
    assert_eq!(m.execute(Instruction::Return), Err(ExecFault::StackUnderflow));
}

#[test]
fn draw_turns_sprite_bits_on_and_reports_no_collision() {
    // Sprite: two rows, 0xF0 over 0x90.
    let mut m = fresh(vec![0xF0, 0x90]);
    m.execute(Instruction::SetIndex { value: LOAD_BASE }).unwrap();
    m.execute(Instruction::SetImmediate { register: 0, value: 10 }).unwrap();
    m.execute(Instruction::SetImmediate { register: 1, value: 5 }).unwrap();
    m.execute(Instruction::Draw { x_register: 0, y_register: 1, sprite_height: 2 }).unwrap();
    // Row 0: 1111 0000 at y = 5.
    for c in 0..4 {
        assert!(m.pixel(10 + c, 5));
    }
    for c in 4..8 {
        assert!(!m.pixel(10 + c, 5));
    }
    // Row 1: 1001 0000 at y = 6.
    assert!(m.pixel(10, 6));
    assert!(!m.pixel(11, 6));
    assert!(!m.pixel(12, 6));
    assert!(m.pixel(13, 6));
    assert_eq!(m.register(15), 0);
}

#[test]
fn drawing_the_same_sprite_twice_clears_it_and_collides() {
    let mut m = fresh(vec![0xF0, 0x90]);
    m.execute(Instruction::SetIndex { value: LOAD_BASE }).unwrap();
    m.execute(Instruction::SetImmediate { register: 0, value: 10 }).unwrap();
    m.execute(Instruction::SetImmediate { register: 1, value: 5 }).unwrap();
    m.execute(Instruction::Draw { x_register: 0, y_register: 1, sprite_height: 2 }).unwrap();
    assert_eq!(m.register(15), 0);
    m.execute(Instruction::Draw { x_register: 0, y_register: 1, sprite_height: 2 }).unwrap();
    assert_eq!(m.register(15), 1);
    for x in 0..64 {
        for y in 0..32 {
            assert!(!m.pixel(x, y));
        }
    }
}

#[test]
fn draw_partial_overlap_collides_and_toggles() {
    let mut m = fresh(vec![0xF0]);
    m.execute(Instruction::SetIndex { value: LOAD_BASE }).unwrap();
    m.execute(Instruction::SetImmediate { register: 0, value: 0 }).unwrap();
    m.execute(Instruction::SetImmediate { register: 1, value: 0 }).unwrap();
    m.execute(Instruction::Draw { x_register: 0, y_register: 1, sprite_height: 1 }).unwrap();
    // Second draw two columns to the right: columns 2,3 collide and toggle
    // off; 4,5 turn on; 0,1 keep their state.
    m.execute(Instruction::SetImmediate { register: 0, value: 2 }).unwrap();
    m.execute(Instruction::Draw { x_register: 0, y_register: 1, sprite_height: 1 }).unwrap();
    assert_eq!(m.register(15), 1);
    assert!(m.pixel(0, 0));
    assert!(m.pixel(1, 0));
    assert!(!m.pixel(2, 0));
    assert!(!m.pixel(3, 0));
    assert!(m.pixel(4, 0));
    assert!(m.pixel(5, 0));
    assert!(!m.pixel(6, 0));
}

#[test]
fn draw_clips_at_the_right_edge_without_wrapping() {
    let mut m = fresh(vec![0xFF]);
    m.execute(Instruction::SetIndex { value: LOAD_BASE }).unwrap();
    m.execute(Instruction::SetImmediate { register: 0, value: 60 }).unwrap();
    m.execute(Instruction::SetImmediate { register: 1, value: 0 }).unwrap();
    m.execute(Instruction::Draw { x_register: 0, y_register: 1, sprite_height: 1 }).unwrap();
    for x in 60..64 {
        assert!(m.pixel(x, 0));
    }
    // The clipped columns are dropped, not wrapped to columns 0..4.
    for x in 0..4 {
        assert!(!m.pixel(x, 0));
    }
    for x in 4..60 {
        assert!(!m.pixel(x, 0));
    }
}

#[test]
fn draw_clips_at_the_bottom_edge() {
    let mut m = fresh(vec![0x80, 0x80, 0x80, 0x80]);
    m.execute(Instruction::SetIndex { value: LOAD_BASE }).unwrap();
    m.execute(Instruction::SetImmediate { register: 0, value: 0 }).unwrap();
    m.execute(Instruction::SetImmediate { register: 1, value: 30 }).unwrap();
    m.execute(Instruction::Draw { x_register: 0, y_register: 1, sprite_height: 4 }).unwrap();
    assert!(m.pixel(0, 30));
    assert!(m.pixel(0, 31));
    // Rows 32 and 33 are clipped, not wrapped to rows 0 and 1.
    assert!(!m.pixel(0, 0));
    assert!(!m.pixel(0, 1));
}

#[test]
fn draw_wraps_the_anchor_coordinates_on_entry() {
    let mut m = fresh(vec![0x80]);
    m.execute(Instruction::SetIndex { value: LOAD_BASE }).unwrap();
    m.execute(Instruction::SetImmediate { register: 0, value: 68 }).unwrap();
    m.execute(Instruction::SetImmediate { register: 1, value: 33 }).unwrap();
    m.execute(Instruction::Draw { x_register: 0, y_register: 1, sprite_height: 1 }).unwrap();
    assert!(m.pixel(4, 1));
}

#[test]
fn draw_faults_on_an_out_of_bounds_sprite_read() {
    let mut m = fresh(vec![]);
    m.execute(Instruction::SetIndex { value: 0xFFF }).unwrap();
    m.execute(Instruction::SetImmediate { register: 0, value: 0 }).unwrap();
    assert_eq!(
        m.execute(Instruction::Draw { x_register: 0, y_register: 0, sprite_height: 2 }),
        Err(ExecFault::OutOfBoundsRead)
    );
    // The state is untouched by the faulting draw.
    assert_eq!(m.register(15), 0);
    for x in 0..64 {
        for y in 0..32 {
            assert!(!m.pixel(x, y));
        }
    }
    // Height 1 still fits: the single row is the last memory byte.
    m.execute(Instruction::Draw { x_register: 0, y_register: 0, sprite_height: 1 }).unwrap();
}

#[test]
fn draw_of_height_zero_only_clears_the_flag() {
    let mut m = fresh(vec![]);
    m.execute(Instruction::SetImmediate { register: 15, value: 1 }).unwrap();
    m.execute(Instruction::Draw { x_register: 0, y_register: 0, sprite_height: 0 }).unwrap();
    assert_eq!(m.register(15), 0);
    for x in 0..64 {
        for y in 0..32 {
            assert!(!m.pixel(x, y));
        }
    }
}

#[test]
fn clear_screen_turns_every_pixel_off() {
    let mut m = fresh(vec![0xFF, 0xFF]);
    m.execute(Instruction::SetIndex { value: LOAD_BASE }).unwrap();
    m.execute(Instruction::Draw { x_register: 0, y_register: 0, sprite_height: 2 }).unwrap();
    assert!(m.pixel(0, 0));
    m.execute(Instruction::ClearScreen).unwrap();
    for x in 0..64 {
        for y in 0..32 {
            assert!(!m.pixel(x, y));
        }
    }
}
