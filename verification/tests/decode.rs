use chip8::isa::{decode, DecodeError, Instruction};

#[test]
fn decode_clear_screen() {
    assert_eq!(decode(0x00E0), Ok(Instruction::ClearScreen));
}

#[test]
fn decode_return() {
    assert_eq!(decode(0x00EE), Ok(Instruction::Return));
}

#[test]
fn decode_jump() {
    assert_eq!(decode(0x1ABC), Ok(Instruction::Jump { address: 0xABC }));
}

#[test]
fn decode_call_subroutine() {
    assert_eq!(decode(0x2ABC), Ok(Instruction::CallSubroutine { address: 0xABC }));
}

#[test]
fn decode_compare_immediate_equal() {
    assert_eq!(
        decode(0x3A42),
        Ok(Instruction::CompareImmediate { x: 0xA, immediate: 0x42, want_equal: true })
    );
}

#[test]
fn decode_compare_immediate_not_equal() {
    assert_eq!(
        decode(0x4A42),
        Ok(Instruction::CompareImmediate { x: 0xA, immediate: 0x42, want_equal: false })
    );
}

#[test]
fn decode_compare_registers() {
    assert_eq!(
        decode(0x5AB0),
        Ok(Instruction::CompareRegisters { x: 0xA, y: 0xB, want_equal: true })
    );
}

#[test]
fn decode_set_immediate() {
    assert_eq!(
        decode(0x6A07),
        Ok(Instruction::SetImmediate { register: 0xA, value: 0x07 })
    );
}

#[test]
fn decode_add_immediate() {
    assert_eq!(
        decode(0x7102),
        Ok(Instruction::AddImmediate { register: 0x1, value: 0x02 })
    );
}

#[test]
fn decode_set_index() {
    assert_eq!(decode(0xA123), Ok(Instruction::SetIndex { value: 0x123 }));
}

#[test]
fn decode_draw() {
    assert_eq!(
        decode(0xD125),
        Ok(Instruction::Draw { x_register: 0x1, y_register: 0x2, sprite_height: 0x5 })
    );
}

#[test]
fn decode_unrecognized_classes() {
    for word in [0x8000u16, 0x8123, 0x9ABC, 0xB000, 0xC0FF, 0xE123, 0xF065, 0xFFFF] {
        assert_eq!(decode(word), Err(DecodeError { word }));
    }
}

#[test]
fn decode_unrecognized_class_zero_sub_nibbles() {
    for word in [0x0101u16, 0x0002, 0x00ED, 0x000F] {
        assert_eq!(decode(word), Err(DecodeError { word }));
    }
}
