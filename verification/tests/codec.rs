use vm::number::Real;
use vm::operation::{assemble, disassemble, fetch, Fetched, Operation};

fn every_operation_but_jumps() -> Vec<Operation> {
    vec![
        Operation::Nop,
        Operation::Add,
        Operation::Sub,
        Operation::Mul,
        Operation::Div,
        Operation::Rem,
        Operation::Neg,
        Operation::Shl,
        Operation::Shr,
        Operation::And,
        Operation::Or,
        Operation::Xor,
        Operation::Not,
        Operation::IntToReal,
        Operation::RealToInt,
        Operation::Cmp,
        Operation::Call(3),
        Operation::Return,
        Operation::LiteralNone,
        Operation::LiteralTrue,
        Operation::LiteralFalse,
        Operation::LiteralInteger(-2),
        Operation::LiteralReal(Real::from_bits(1.5f64.to_bits())),
        Operation::FrameLocalLoad(1),
        Operation::FrameLocalStore(2),
        Operation::FrameLocalSwap(255),
        Operation::FrameStackCopy,
        Operation::FrameStackPop,
        Operation::ListCreate,
        Operation::ListPush,
        Operation::ListPop,
        Operation::ListDowngrade,
        Operation::ListUpgrade,
        Operation::BytesBufferCreate,
        Operation::StringBufferCreate,
        Operation::StringGetCharAt,
        Operation::StringGetChars,
        Operation::SeqGet,
        Operation::SeqSet,
        Operation::SeqGetSlice,
        Operation::SeqSetSlice,
        Operation::SeqAppend,
        Operation::SeqLen,
        Operation::SeqResize,
    ]
}

#[test]
fn opcodes_are_those_of_the_wire_format() {
    let codes: Vec<u8> = every_operation_but_jumps().iter().map(|op| op.code()).collect();
    assert_eq!(
        codes,
        vec![
            1, 2, 3, 4, 5, 6, 7, 8, 9, 10, 11, 12, 13, 14, 15, 19, 20, 21, 30, 31, 32, 33, 34, 40,
            41, 42, 43, 44, 50, 51, 52, 53, 54, 55, 60, 61, 62, 70, 71, 72, 73, 74, 75, 76
        ]
    );
    assert_eq!(Operation::Jump(0).code(), 22);
    assert_eq!(Operation::JumpZero(0).code(), 23);
    assert_eq!(Operation::JumpNeg(0).code(), 24);
    assert_eq!(Operation::from_plain_code(19), Some(Operation::Cmp));
    assert_eq!(Operation::from_plain_code(20), None);
    assert_eq!(Operation::from_plain_code(16), None);
    assert_eq!(Operation::from_plain_code(0), None);
}

#[test]
fn assembles_operands_most_significant_byte_first() {
    let program = [
        Operation::LiteralInteger(2),
        Operation::LiteralInteger(-2),
        Operation::LiteralReal(Real::from_bits(0x3ff8_0000_0000_0001)),
        Operation::Call(7),
        Operation::Add,
    ];
    assert_eq!(
        assemble(&program),
        Some(vec![
            33, 0, 0, 0, 0, 0, 0, 0, 2, 33, 255, 255, 255, 255, 255, 255, 255, 254, 34, 0x3f,
            0xf8, 0, 0, 0, 0, 0, 1, 20, 7, 2
        ])
    );
    assert_eq!(assemble(&[]), Some(vec![]));
}

#[test]
fn a_jump_is_written_with_the_distance_from_its_target_to_the_byte_before_its_operand() {
    // The jump stands at offset 1, its operand at 2; the target starts at 15.
    let program = [
        Operation::Nop,
        Operation::JumpZero(3),
        Operation::LiteralInteger(1),
        Operation::Return,
    ];
    let mut expected = vec![1, 23];
    expected.extend_from_slice(&(2i32 - 15 - 1).to_be_bytes());
    expected.extend_from_slice(&[33, 0, 0, 0, 0, 0, 0, 0, 1, 21]);
    assert_eq!(assemble(&program), Some(expected));
    // backwards: the operand at 11, the target at 0
    let program = [Operation::LiteralInteger(1), Operation::Nop, Operation::Jump(0)];
    let mut expected = vec![33, 0, 0, 0, 0, 0, 0, 0, 1, 1, 22];
    expected.extend_from_slice(&(11i32 - 0 - 1).to_be_bytes());
    assert_eq!(assemble(&program), Some(expected));
    let program = [Operation::JumpNeg(0)];
    assert_eq!(assemble(&program), Some(vec![24, 0, 0, 0, 0]));
}

#[test]
fn a_jump_out_of_the_program_does_not_assemble() {
    assert_eq!(assemble(&[Operation::Jump(1)]), None);
    assert_eq!(assemble(&[Operation::Nop, Operation::JumpZero(2)]), None);
    assert_eq!(assemble(&[Operation::Nop, Operation::JumpNeg(usize::MAX)]), None);
    assert!(assemble(&[Operation::Nop, Operation::JumpNeg(1)]).is_some());
}

#[test]
fn disassembles_what_was_assembled_without_jumps() {
    let program = every_operation_but_jumps();
    let code = assemble(&program).unwrap();
    assert_eq!(disassemble(&code), Some(program));
    assert_eq!(disassemble(&[]), Some(vec![]));
}

#[test]
fn assembles_what_was_disassembled_without_jumps() {
    let code = vec![
        33, 1, 2, 3, 4, 5, 6, 7, 8, 34, 8, 7, 6, 5, 4, 3, 2, 1, 20, 9, 40, 0, 41, 1, 42, 2, 1, 76,
    ];
    let program = disassemble(&code).unwrap();
    assert_eq!(
        program,
        vec![
            Operation::LiteralInteger(0x0102030405060708),
            Operation::LiteralReal(Real::from_bits(0x0807060504030201)),
            Operation::Call(9),
            Operation::FrameLocalLoad(0),
            Operation::FrameLocalStore(1),
            Operation::FrameLocalSwap(2),
            Operation::Nop,
            Operation::SeqResize,
        ]
    );
    assert_eq!(assemble(&program), Some(code));
}

#[test]
fn a_jump_is_read_as_leading_from_the_byte_after_its_operand() {
    // JUMP +1 at offset 0 leads to offset 6, the third instruction.
    let code = vec![22, 0, 0, 0, 1, 1, 21];
    assert_eq!(
        disassemble(&code),
        Some(vec![Operation::Jump(2), Operation::Nop, Operation::Return])
    );
    // JUMP_ZERO -5 leads to itself, JUMP_NEG -10 to the first instruction.
    let mut code = vec![23];
    code.extend_from_slice(&(-5i32).to_be_bytes());
    code.push(24);
    code.extend_from_slice(&(-10i32).to_be_bytes());
    assert_eq!(disassemble(&code), Some(vec![Operation::JumpZero(0), Operation::JumpNeg(0)]));
}

#[test]
fn a_jump_does_not_come_back_as_it_went_in() {
    let program = vec![Operation::Jump(1), Operation::Nop];
    let code = assemble(&program).unwrap();
    assert_eq!(code, vec![22, 255, 255, 255, 251, 1]);
    assert_eq!(disassemble(&code), Some(vec![Operation::Jump(0), Operation::Nop]));
    let program = vec![Operation::Nop, Operation::Jump(0)];
    let code = assemble(&program).unwrap();
    assert_eq!(disassemble(&code), None);
}

#[test]
fn bytes_that_are_no_program_do_not_disassemble() {
    assert_eq!(disassemble(&[0]), None);
    assert_eq!(disassemble(&[1, 16]), None);
    assert_eq!(disassemble(&[1, 77]), None);
    assert_eq!(disassemble(&[33, 0, 0, 0]), None);
    assert_eq!(disassemble(&[20]), None);
    assert_eq!(disassemble(&[22, 0, 0, 0]), None);
    // a jump to the end of the code, past every instruction
    assert_eq!(disassemble(&[22, 0, 0, 0, 0]), None);
    // a jump into the middle of an instruction
    assert_eq!(disassemble(&[22, 0, 0, 0, 1, 33, 0, 0, 0, 0, 0, 0, 0, 0]), None);
    // a jump before the start of the code
    assert_eq!(disassemble(&[22, 255, 255, 255, 0]), None);
    // a jump far beyond the code
    assert_eq!(disassemble(&[22, 127, 255, 255, 255]), None);
    assert_eq!(disassemble(&[22, 128, 0, 0, 0]), None);
}

#[test]
fn fetch_reads_one_instruction() {
    let code = vec![1, 33, 255, 255, 255, 255, 255, 255, 255, 255, 24, 255, 255, 255, 254, 40];
    assert_eq!(fetch(&code, 0), Some(Fetched { op: Operation::Nop, delta: 0, next: 1 }));
    assert_eq!(
        fetch(&code, 1),
        Some(Fetched { op: Operation::LiteralInteger(-1), delta: 0, next: 10 })
    );
    assert_eq!(fetch(&code, 10), Some(Fetched { op: Operation::JumpNeg(0), delta: -2, next: 15 }));
    assert_eq!(fetch(&code, 15), None);
    assert_eq!(fetch(&code, 16), None);
    assert_eq!(fetch(&code, 12), None);
}
