//! The instruction set and its encoding.
//!
//! An instruction is one byte of opcode and, for some opcodes, operand bytes
//! after it, the most significant byte first. [`Operation`] is the
//! structured form of an instruction, in which a jump names its target by
//! the index of an operation; in bytes a jump carries a signed distance.
use vstd::prelude::*;
use crate::number::Real;

verus! {

pub const NONE: u8 = 1;

pub const ADD: u8 = 2;

pub const SUB: u8 = 3;

pub const MUL: u8 = 4;

pub const DIV: u8 = 5;

pub const REM: u8 = 6;

pub const NEG: u8 = 7;

pub const SHL: u8 = 8;

pub const SHR: u8 = 9;

pub const AND: u8 = 10;

pub const OR: u8 = 11;

pub const XOR: u8 = 12;

pub const NOT: u8 = 13;

pub const INT_TO_REAL: u8 = 14;

pub const REAL_TO_INT: u8 = 15;

pub const CMP: u8 = 19;

pub const CALL: u8 = 20;

pub const RETURN: u8 = 21;

pub const JUMP: u8 = 22;

pub const JUMP_ZERO: u8 = 23;

pub const JUMP_NEG: u8 = 24;

pub const LIT_NONE: u8 = 30;

pub const LIT_TRUE: u8 = 31;

pub const LIT_FALSE: u8 = 32;

pub const LIT_INT: u8 = 33;

pub const LIT_REAL: u8 = 34;

pub const FRM_LOAD: u8 = 40;

pub const FRM_STORE: u8 = 41;

pub const FRM_SWAP: u8 = 42;

pub const FRM_COPY: u8 = 43;

pub const FRM_POP: u8 = 44;

pub const LIST_CREATE: u8 = 50;

pub const LIST_PUSH: u8 = 51;

pub const LIST_POP: u8 = 52;

pub const LIST_DOWNGRADE: u8 = 53;

pub const LIST_UPGRADE: u8 = 54;

pub const BYTES_CREATE: u8 = 55;

pub const STR_CREATE: u8 = 60;

pub const STR_CHAR_AT: u8 = 61;

pub const STR_CHARS: u8 = 62;

pub const SEQ_GET: u8 = 70;

pub const SEQ_SET: u8 = 71;

pub const SEQ_GET_SLICE: u8 = 72;

pub const SEQ_SET_SLICE: u8 = 73;

pub const SEQ_APPEND: u8 = 74;

pub const SEQ_LEN: u8 = 75;

pub const SEQ_RESIZE: u8 = 76;

/// An instruction in structured form.
#[derive(Clone, Copy, Debug, PartialEq, Eq, Structural)]
pub enum Operation {
    /// Does nothing.
    Nop,
    Add,
    Sub,
    Mul,
    Div,
    Rem,
    Neg,
    Shl,
    Shr,
    And,
    Or,
    Xor,
    Not,
    IntToReal,
    RealToInt,
    Cmp,
    /// Calls with this many arguments.
    Call(u8),
    Return,
    /// Jumps to the operation of this index.
    Jump(usize),
    /// Jumps to the operation of this index if the top of the stack is zero.
    JumpZero(usize),
    /// Jumps to the operation of this index if the top of the stack is negative.
    JumpNeg(usize),
    LiteralNone,
    LiteralTrue,
    LiteralFalse,
    LiteralInteger(i64),
    LiteralReal(Real),
    FrameLocalLoad(u8),
    FrameLocalStore(u8),
    FrameLocalSwap(u8),
    FrameStackCopy,
    FrameStackPop,
    ListCreate,
    ListPush,
    ListPop,
    ListDowngrade,
    ListUpgrade,
    BytesBufferCreate,
    StringBufferCreate,
    StringGetCharAt,
    StringGetChars,
    SeqGet,
    SeqSet,
    SeqGetSlice,
    SeqSetSlice,
    SeqAppend,
    SeqLen,
    SeqResize,
}

impl Operation {
    /// The opcode of the operation.
    pub open spec fn opcode(self) -> u8 {
        match self {
            Operation::Nop => NONE,
            Operation::Add => ADD,
            Operation::Sub => SUB,
            Operation::Mul => MUL,
            Operation::Div => DIV,
            Operation::Rem => REM,
            Operation::Neg => NEG,
            Operation::Shl => SHL,
            Operation::Shr => SHR,
            Operation::And => AND,
            Operation::Or => OR,
            Operation::Xor => XOR,
            Operation::Not => NOT,
            Operation::IntToReal => INT_TO_REAL,
            Operation::RealToInt => REAL_TO_INT,
            Operation::Cmp => CMP,
            Operation::Call(_) => CALL,
            Operation::Return => RETURN,
            Operation::Jump(_) => JUMP,
            Operation::JumpZero(_) => JUMP_ZERO,
            Operation::JumpNeg(_) => JUMP_NEG,
            Operation::LiteralNone => LIT_NONE,
            Operation::LiteralTrue => LIT_TRUE,
            Operation::LiteralFalse => LIT_FALSE,
            Operation::LiteralInteger(_) => LIT_INT,
            Operation::LiteralReal(_) => LIT_REAL,
            Operation::FrameLocalLoad(_) => FRM_LOAD,
            Operation::FrameLocalStore(_) => FRM_STORE,
            Operation::FrameLocalSwap(_) => FRM_SWAP,
            Operation::FrameStackCopy => FRM_COPY,
            Operation::FrameStackPop => FRM_POP,
            Operation::ListCreate => LIST_CREATE,
            Operation::ListPush => LIST_PUSH,
            Operation::ListPop => LIST_POP,
            Operation::ListDowngrade => LIST_DOWNGRADE,
            Operation::ListUpgrade => LIST_UPGRADE,
            Operation::BytesBufferCreate => BYTES_CREATE,
            Operation::StringBufferCreate => STR_CREATE,
            Operation::StringGetCharAt => STR_CHAR_AT,
            Operation::StringGetChars => STR_CHARS,
            Operation::SeqGet => SEQ_GET,
            Operation::SeqSet => SEQ_SET,
            Operation::SeqGetSlice => SEQ_GET_SLICE,
            Operation::SeqSetSlice => SEQ_SET_SLICE,
            Operation::SeqAppend => SEQ_APPEND,
            Operation::SeqLen => SEQ_LEN,
            Operation::SeqResize => SEQ_RESIZE,
        }
    }

    /// The operation that a jump names as its target; none for any other
    /// operation.
    pub open spec fn target(self) -> Option<usize> {
        match self {
            Operation::Jump(t) => Some(t),
            Operation::JumpZero(t) => Some(t),
            Operation::JumpNeg(t) => Some(t),
            _ => None,
        }
    }

    /// The same jump with another target; any other operation as it is.
    pub open spec fn aimed_at(self, t: usize) -> Operation {
        match self {
            Operation::Jump(_) => Operation::Jump(t),
            Operation::JumpZero(_) => Operation::JumpZero(t),
            Operation::JumpNeg(_) => Operation::JumpNeg(t),
            _ => self,
        }
    }

    /// The number of bytes that the instruction takes: its opcode and its
    /// operand.
    pub open spec fn width(self) -> int {
        match self {
            Operation::Call(_) => 2,
            Operation::FrameLocalLoad(_) => 2,
            Operation::FrameLocalStore(_) => 2,
            Operation::FrameLocalSwap(_) => 2,
            Operation::Jump(_) => 5,
            Operation::JumpZero(_) => 5,
            Operation::JumpNeg(_) => 5,
            Operation::LiteralInteger(_) => 9,
            Operation::LiteralReal(_) => 9,
            _ => 1,
        }
    }

    /// The operand bytes of an operation that is no jump.
    pub open spec fn operand(self) -> Seq<u8> {
        match self {
            Operation::Call(n) => seq![n],
            Operation::FrameLocalLoad(n) => seq![n],
            Operation::FrameLocalStore(n) => seq![n],
            Operation::FrameLocalSwap(n) => seq![n],
            Operation::LiteralInteger(x) => u64_be(x as u64),
            Operation::LiteralReal(x) => u64_be(x.bits),
            _ => Seq::empty(),
        }
    }

    /// The operation of the opcode `code`, if it is one without an operand.
    pub open spec fn plain(code: u8) -> Option<Operation> {
        if code == NONE {
            Some(Operation::Nop)
        } else if code == ADD {
            Some(Operation::Add)
        } else if code == SUB {
            Some(Operation::Sub)
        } else if code == MUL {
            Some(Operation::Mul)
        } else if code == DIV {
            Some(Operation::Div)
        } else if code == REM {
            Some(Operation::Rem)
        } else if code == NEG {
            Some(Operation::Neg)
        } else if code == SHL {
            Some(Operation::Shl)
        } else if code == SHR {
            Some(Operation::Shr)
        } else if code == AND {
            Some(Operation::And)
        } else if code == OR {
            Some(Operation::Or)
        } else if code == XOR {
            Some(Operation::Xor)
        } else if code == NOT {
            Some(Operation::Not)
        } else if code == INT_TO_REAL {
            Some(Operation::IntToReal)
        } else if code == REAL_TO_INT {
            Some(Operation::RealToInt)
        } else if code == CMP {
            Some(Operation::Cmp)
        } else if code == RETURN {
            Some(Operation::Return)
        } else if code == LIT_NONE {
            Some(Operation::LiteralNone)
        } else if code == LIT_TRUE {
            Some(Operation::LiteralTrue)
        } else if code == LIT_FALSE {
            Some(Operation::LiteralFalse)
        } else if code == FRM_COPY {
            Some(Operation::FrameStackCopy)
        } else if code == FRM_POP {
            Some(Operation::FrameStackPop)
        } else if code == LIST_CREATE {
            Some(Operation::ListCreate)
        } else if code == LIST_PUSH {
            Some(Operation::ListPush)
        } else if code == LIST_POP {
            Some(Operation::ListPop)
        } else if code == LIST_DOWNGRADE {
            Some(Operation::ListDowngrade)
        } else if code == LIST_UPGRADE {
            Some(Operation::ListUpgrade)
        } else if code == BYTES_CREATE {
            Some(Operation::BytesBufferCreate)
        } else if code == STR_CREATE {
            Some(Operation::StringBufferCreate)
        } else if code == STR_CHAR_AT {
            Some(Operation::StringGetCharAt)
        } else if code == STR_CHARS {
            Some(Operation::StringGetChars)
        } else if code == SEQ_GET {
            Some(Operation::SeqGet)
        } else if code == SEQ_SET {
            Some(Operation::SeqSet)
        } else if code == SEQ_GET_SLICE {
            Some(Operation::SeqGetSlice)
        } else if code == SEQ_SET_SLICE {
            Some(Operation::SeqSetSlice)
        } else if code == SEQ_APPEND {
            Some(Operation::SeqAppend)
        } else if code == SEQ_LEN {
            Some(Operation::SeqLen)
        } else if code == SEQ_RESIZE {
            Some(Operation::SeqResize)
        } else {
            None
        }
    }

    /// The opcode of the operation.
    pub fn code(&self) -> (r: u8)
        ensures
            r == self.opcode(),
    {
        match self {
            Operation::Nop => NONE,
            Operation::Add => ADD,
            Operation::Sub => SUB,
            Operation::Mul => MUL,
            Operation::Div => DIV,
            Operation::Rem => REM,
            Operation::Neg => NEG,
            Operation::Shl => SHL,
            Operation::Shr => SHR,
            Operation::And => AND,
            Operation::Or => OR,
            Operation::Xor => XOR,
            Operation::Not => NOT,
            Operation::IntToReal => INT_TO_REAL,
            Operation::RealToInt => REAL_TO_INT,
            Operation::Cmp => CMP,
            Operation::Call(_) => CALL,
            Operation::Return => RETURN,
            Operation::Jump(_) => JUMP,
            Operation::JumpZero(_) => JUMP_ZERO,
            Operation::JumpNeg(_) => JUMP_NEG,
            Operation::LiteralNone => LIT_NONE,
            Operation::LiteralTrue => LIT_TRUE,
            Operation::LiteralFalse => LIT_FALSE,
            Operation::LiteralInteger(_) => LIT_INT,
            Operation::LiteralReal(_) => LIT_REAL,
            Operation::FrameLocalLoad(_) => FRM_LOAD,
            Operation::FrameLocalStore(_) => FRM_STORE,
            Operation::FrameLocalSwap(_) => FRM_SWAP,
            Operation::FrameStackCopy => FRM_COPY,
            Operation::FrameStackPop => FRM_POP,
            Operation::ListCreate => LIST_CREATE,
            Operation::ListPush => LIST_PUSH,
            Operation::ListPop => LIST_POP,
            Operation::ListDowngrade => LIST_DOWNGRADE,
            Operation::ListUpgrade => LIST_UPGRADE,
            Operation::BytesBufferCreate => BYTES_CREATE,
            Operation::StringBufferCreate => STR_CREATE,
            Operation::StringGetCharAt => STR_CHAR_AT,
            Operation::StringGetChars => STR_CHARS,
            Operation::SeqGet => SEQ_GET,
            Operation::SeqSet => SEQ_SET,
            Operation::SeqGetSlice => SEQ_GET_SLICE,
            Operation::SeqSetSlice => SEQ_SET_SLICE,
            Operation::SeqAppend => SEQ_APPEND,
            Operation::SeqLen => SEQ_LEN,
            Operation::SeqResize => SEQ_RESIZE,
        }
    }

    /// The operation of the opcode `code`, if it is one without an operand.
    pub fn from_plain_code(code: u8) -> (r: Option<Operation>)
        ensures
            r == Operation::plain(code),
    {
        match code {
            NONE => Some(Operation::Nop),
            ADD => Some(Operation::Add),
            SUB => Some(Operation::Sub),
            MUL => Some(Operation::Mul),
            DIV => Some(Operation::Div),
            REM => Some(Operation::Rem),
            NEG => Some(Operation::Neg),
            SHL => Some(Operation::Shl),
            SHR => Some(Operation::Shr),
            AND => Some(Operation::And),
            OR => Some(Operation::Or),
            XOR => Some(Operation::Xor),
            NOT => Some(Operation::Not),
            INT_TO_REAL => Some(Operation::IntToReal),
            REAL_TO_INT => Some(Operation::RealToInt),
            CMP => Some(Operation::Cmp),
            RETURN => Some(Operation::Return),
            LIT_NONE => Some(Operation::LiteralNone),
            LIT_TRUE => Some(Operation::LiteralTrue),
            LIT_FALSE => Some(Operation::LiteralFalse),
            FRM_COPY => Some(Operation::FrameStackCopy),
            FRM_POP => Some(Operation::FrameStackPop),
            LIST_CREATE => Some(Operation::ListCreate),
            LIST_PUSH => Some(Operation::ListPush),
            LIST_POP => Some(Operation::ListPop),
            LIST_DOWNGRADE => Some(Operation::ListDowngrade),
            LIST_UPGRADE => Some(Operation::ListUpgrade),
            BYTES_CREATE => Some(Operation::BytesBufferCreate),
            STR_CREATE => Some(Operation::StringBufferCreate),
            STR_CHAR_AT => Some(Operation::StringGetCharAt),
            STR_CHARS => Some(Operation::StringGetChars),
            SEQ_GET => Some(Operation::SeqGet),
            SEQ_SET => Some(Operation::SeqSet),
            SEQ_GET_SLICE => Some(Operation::SeqGetSlice),
            SEQ_SET_SLICE => Some(Operation::SeqSetSlice),
            SEQ_APPEND => Some(Operation::SeqAppend),
            SEQ_LEN => Some(Operation::SeqLen),
            SEQ_RESIZE => Some(Operation::SeqResize),
            _ => None,
        }
    }
}

/// The four bytes of a number, the most significant first.
pub open spec fn u32_be(x: u32) -> Seq<u8> {
    seq![(x >> 24) as u8, (x >> 16) as u8, (x >> 8) as u8, x as u8]
}

/// The eight bytes of a number, the most significant first.
pub open spec fn u64_be(x: u64) -> Seq<u8> {
    seq![
        (x >> 56) as u8,
        (x >> 48) as u8,
        (x >> 40) as u8,
        (x >> 32) as u8,
        (x >> 24) as u8,
        (x >> 16) as u8,
        (x >> 8) as u8,
        x as u8,
    ]
}

/// The number that four bytes stand for, the most significant first.
pub open spec fn be_u32(b: Seq<u8>) -> u32 {
    ((b[0] as u32) << 24) | ((b[1] as u32) << 16) | ((b[2] as u32) << 8) | (b[3] as u32)
}

/// The number that eight bytes stand for, the most significant first.
pub open spec fn be_u64(b: Seq<u8>) -> u64 {
    ((b[0] as u64) << 56) | ((b[1] as u64) << 48) | ((b[2] as u64) << 40) | ((b[3] as u64) << 32)
        | ((b[4] as u64) << 24) | ((b[5] as u64) << 16) | ((b[6] as u64) << 8) | (b[7] as u64)
}

/// Reading back the bytes of a number gives the number.
pub proof fn lemma_be_u32_of_bytes(x: u32)
    ensures
        be_u32(u32_be(x)) == x,
{
    assert((((x >> 24) as u8 as u32) << 24) | (((x >> 16) as u8 as u32) << 16) | (((x >> 8) as u8
        as u32) << 8) | (x as u8 as u32) == x) by (bit_vector);
}

/// Reading back the bytes of a number gives the number.
pub proof fn lemma_be_u64_of_bytes(x: u64)
    ensures
        be_u64(u64_be(x)) == x,
{
    assert((((x >> 56) as u8 as u64) << 56) | (((x >> 48) as u8 as u64) << 48) | (((x >> 40) as u8
        as u64) << 40) | (((x >> 32) as u8 as u64) << 32) | (((x >> 24) as u8 as u64) << 24) | (((x
        >> 16) as u8 as u64) << 16) | (((x >> 8) as u8 as u64) << 8) | (x as u8 as u64) == x)
        by (bit_vector);
}

/// Writing out the number that eight bytes stand for gives the bytes.
pub proof fn lemma_bytes_of_be_u64(b: Seq<u8>)
    requires
        b.len() == 8,
    ensures
        u64_be(be_u64(b)) == b,
{
    let (b0, b1, b2, b3, b4, b5, b6, b7) = (b[0], b[1], b[2], b[3], b[4], b[5], b[6], b[7]);
    let x = be_u64(b);
    assert((x >> 56) as u8 == b0 && (x >> 48) as u8 == b1 && (x >> 40) as u8 == b2 && (x >> 32) as u8
        == b3 && (x >> 24) as u8 == b4 && (x >> 16) as u8 == b5 && (x >> 8) as u8 == b6 && x as u8
        == b7) by (bit_vector)
        requires
            x == ((b0 as u64) << 56) | ((b1 as u64) << 48) | ((b2 as u64) << 40) | ((b3 as u64)
                << 32) | ((b4 as u64) << 24) | ((b5 as u64) << 16) | ((b6 as u64) << 8) | (b7
                as u64),
    ;
    assert(u64_be(x) =~= b);
}

/// Reads four bytes as a number, the most significant first.
pub fn read_u32(code: &[u8], at: usize) -> (r: u32)
    requires
        at + 4 <= code@.len(),
    ensures
        r == be_u32(code@.subrange(at as int, at + 4)),
{
    ((code[at] as u32) << 24) | ((code[at + 1] as u32) << 16) | ((code[at + 2] as u32) << 8) | (
    code[at + 3] as u32)
}

/// Reads eight bytes as a number, the most significant first.
pub fn read_u64(code: &[u8], at: usize) -> (r: u64)
    requires
        at + 8 <= code@.len(),
    ensures
        r == be_u64(code@.subrange(at as int, at + 8)),
{
    ((code[at] as u64) << 56) | ((code[at + 1] as u64) << 48) | ((code[at + 2] as u64) << 40) | ((
    code[at + 3] as u64) << 32) | ((code[at + 4] as u64) << 24) | ((code[at + 5] as u64) << 16) | ((
    code[at + 6] as u64) << 8) | (code[at + 7] as u64)
}

/// Writes the four bytes of a number, the most significant first.
pub fn write_u32(out: &mut Vec<u8>, x: u32)
    ensures
        final(out)@ == old(out)@ + u32_be(x),
{
    out.push(#[verifier::truncate] ((x >> 24) as u8));
    out.push(#[verifier::truncate] ((x >> 16) as u8));
    out.push(#[verifier::truncate] ((x >> 8) as u8));
    out.push(#[verifier::truncate] (x as u8));
    assert(out@ =~= old(out)@ + u32_be(x));
}

/// Writes the eight bytes of a number, the most significant first.
pub fn write_u64(out: &mut Vec<u8>, x: u64)
    ensures
        final(out)@ == old(out)@ + u64_be(x),
{
    out.push(#[verifier::truncate] ((x >> 56) as u8));
    out.push(#[verifier::truncate] ((x >> 48) as u8));
    out.push(#[verifier::truncate] ((x >> 40) as u8));
    out.push(#[verifier::truncate] ((x >> 32) as u8));
    out.push(#[verifier::truncate] ((x >> 24) as u8));
    out.push(#[verifier::truncate] ((x >> 16) as u8));
    out.push(#[verifier::truncate] ((x >> 8) as u8));
    out.push(#[verifier::truncate] (x as u8));
    assert(out@ =~= old(out)@ + u64_be(x));
}

/// One instruction as it stands in bytes.
pub struct Decoded {
    /// The operation; a jump has the target 0.
    pub op: Operation,
    /// The signed distance that a jump carries; 0 for any other operation.
    pub delta: int,
    /// The offset of the byte after the instruction.
    pub next: int,
}

/// One instruction as it was read from bytes.
#[derive(Clone, Copy, Debug, PartialEq, Eq, Structural)]
pub struct Fetched {
    /// The operation; a jump has the target 0.
    pub op: Operation,
    /// The signed distance that a jump carries; 0 for any other operation.
    pub delta: i32,
    /// The offset of the byte after the instruction.
    pub next: usize,
}

impl View for Fetched {
    type V = Decoded;

    open spec fn view(&self) -> Decoded {
        Decoded { op: self.op, delta: self.delta as int, next: self.next as int }
    }
}

/// The instruction that stands at the offset `at` of `code`; none where the
/// opcode is unknown or the code ends before the instruction does.
pub open spec fn decode_at(code: Seq<u8>, at: int) -> Option<Decoded> {
    if at < 0 || at >= code.len() {
        None
    } else {
        let c = code[at];
        if c == CALL || c == FRM_LOAD || c == FRM_STORE || c == FRM_SWAP {
            if at + 2 <= code.len() {
                let n = code[at + 1];
                let op = if c == CALL {
                    Operation::Call(n)
                } else if c == FRM_LOAD {
                    Operation::FrameLocalLoad(n)
                } else if c == FRM_STORE {
                    Operation::FrameLocalStore(n)
                } else {
                    Operation::FrameLocalSwap(n)
                };
                Some(Decoded { op, delta: 0, next: at + 2 })
            } else {
                None
            }
        } else if c == JUMP || c == JUMP_ZERO || c == JUMP_NEG {
            if at + 5 <= code.len() {
                let op = if c == JUMP {
                    Operation::Jump(0)
                } else if c == JUMP_ZERO {
                    Operation::JumpZero(0)
                } else {
                    Operation::JumpNeg(0)
                };
                Some(
                    Decoded {
                        op,
                        delta: (be_u32(code.subrange(at + 1, at + 5)) as i32) as int,
                        next: at + 5,
                    },
                )
            } else {
                None
            }
        } else if c == LIT_INT || c == LIT_REAL {
            if at + 9 <= code.len() {
                let x = be_u64(code.subrange(at + 1, at + 9));
                let op = if c == LIT_INT {
                    Operation::LiteralInteger(x as i64)
                } else {
                    Operation::LiteralReal(Real { bits: x })
                };
                Some(Decoded { op, delta: 0, next: at + 9 })
            } else {
                None
            }
        } else {
            match Operation::plain(c) {
                Some(op) => Some(Decoded { op, delta: 0, next: at + 1 }),
                None => None,
            }
        }
    }
}

/// Reads the instruction that stands at the offset `at` of `code`.
pub fn fetch(code: &[u8], at: usize) -> (r: Option<Fetched>)
    ensures
        r is Some <==> decode_at(code@, at as int) is Some,
        r is Some ==> r.unwrap()@ == decode_at(code@, at as int).unwrap(),
{
    let len: usize = code.len();
    if at >= len {
        return None;
    }
    let c: u8 = code[at];
    let room: usize = len - at;
    if c == CALL || c == FRM_LOAD || c == FRM_STORE || c == FRM_SWAP {
        if room < 2 {
            return None;
        }
        let n: u8 = code[at + 1];
        let op = if c == CALL {
            Operation::Call(n)
        } else if c == FRM_LOAD {
            Operation::FrameLocalLoad(n)
        } else if c == FRM_STORE {
            Operation::FrameLocalStore(n)
        } else {
            Operation::FrameLocalSwap(n)
        };
        Some(Fetched { op, delta: 0, next: at + 2 })
    } else if c == JUMP || c == JUMP_ZERO || c == JUMP_NEG {
        if room < 5 {
            return None;
        }
        let op = if c == JUMP {
            Operation::Jump(0)
        } else if c == JUMP_ZERO {
            Operation::JumpZero(0)
        } else {
            Operation::JumpNeg(0)
        };
        let bits: u32 = read_u32(code, at + 1);
        Some(Fetched { op, delta: #[verifier::truncate] (bits as i32), next: at + 5 })
    } else if c == LIT_INT || c == LIT_REAL {
        if room < 9 {
            return None;
        }
        let x: u64 = read_u64(code, at + 1);
        let op = if c == LIT_INT {
            Operation::LiteralInteger(#[verifier::truncate] (x as i64))
        } else {
            Operation::LiteralReal(Real { bits: x })
        };
        Some(Fetched { op, delta: 0, next: at + 9 })
    } else {
        match Operation::from_plain_code(c) {
            Some(op) => Some(Fetched { op, delta: 0, next: at + 1 }),
            None => None,
        }
    }
}

/// The offset at which the instruction of the operation `i` starts.
pub open spec fn start_of(ops: Seq<Operation>, i: int) -> int
    decreases i,
{
    if i <= 0 {
        0
    } else {
        start_of(ops, i - 1) + ops[i - 1].width()
    }
}

/// The signed distance that the jump `i` carries in bytes: from the start of
/// its target to the byte before its operand.
pub open spec fn distance(ops: Seq<Operation>, i: int) -> int {
    match ops[i].target() {
        Some(t) => (start_of(ops, i) + 1) - start_of(ops, t as int) - 1,
        None => 0,
    }
}

/// The bytes of the instruction of the operation `i`.
pub open spec fn encoded_op(ops: Seq<Operation>, i: int) -> Seq<u8> {
    if ops[i].target() is Some {
        seq![ops[i].opcode()] + u32_be(distance(ops, i) as i32 as u32)
    } else {
        seq![ops[i].opcode()] + ops[i].operand()
    }
}

/// The bytes of the instructions of the first `n` operations.
pub open spec fn encoded_upto(ops: Seq<Operation>, n: int) -> Seq<u8>
    decreases n,
{
    if n <= 0 {
        Seq::empty()
    } else {
        encoded_upto(ops, n - 1) + encoded_op(ops, n - 1)
    }
}

/// Whether the jump `i`, if it is one, has a target among the operations and
/// a distance that four bytes can hold.
pub open spec fn jump_fits(ops: Seq<Operation>, i: int) -> bool {
    match ops[i].target() {
        Some(t) => t < ops.len() && i32::MIN <= distance(ops, i) <= i32::MAX,
        None => true,
    }
}

/// Whether the operations can be put into bytes: every jump fits, and the
/// code is no longer than memory can hold.
pub open spec fn can_assemble(ops: Seq<Operation>) -> bool {
    &&& start_of(ops, ops.len() as int) <= usize::MAX
    &&& forall|i: int| 0 <= i < ops.len() ==> jump_fits(ops, i)
}

/// The bytecode of the operations.
pub open spec fn assembled(ops: Seq<Operation>) -> Option<Seq<u8>> {
    if can_assemble(ops) {
        Some(encoded_upto(ops, ops.len() as int))
    } else {
        None
    }
}

/// Instructions start later and later.
pub proof fn lemma_start_of_grows(ops: Seq<Operation>, i: int, j: int)
    requires
        0 <= i <= j,
    ensures
        start_of(ops, i) <= start_of(ops, j),
        i < j ==> start_of(ops, i) < start_of(ops, j),
        0 <= start_of(ops, i),
    decreases j,
{
    if i < j {
        lemma_start_of_grows(ops, i, j - 1);
    } else if i > 0 {
        lemma_start_of_grows(ops, i - 1, i - 1);
    }
}

/// The code of the first `n` operations ends where the next instruction
/// starts.
pub proof fn lemma_encoded_len(ops: Seq<Operation>, n: int)
    requires
        0 <= n <= ops.len(),
    ensures
        encoded_upto(ops, n).len() == start_of(ops, n),
    decreases n,
{
    if n > 0 {
        lemma_encoded_len(ops, n - 1);
    }
}

/// The number of bytes that the instruction takes.
fn width_of(op: &Operation) -> (r: usize)
    ensures
        r == op.width(),
{
    match op {
        Operation::Call(_) => 2,
        Operation::FrameLocalLoad(_) => 2,
        Operation::FrameLocalStore(_) => 2,
        Operation::FrameLocalSwap(_) => 2,
        Operation::Jump(_) => 5,
        Operation::JumpZero(_) => 5,
        Operation::JumpNeg(_) => 5,
        Operation::LiteralInteger(_) => 9,
        Operation::LiteralReal(_) => 9,
        _ => 1,
    }
}

/// The target of a jump.
fn target_of(op: &Operation) -> (r: Option<usize>)
    ensures
        r == op.target(),
{
    match op {
        Operation::Jump(t) => Some(*t),
        Operation::JumpZero(t) => Some(*t),
        Operation::JumpNeg(t) => Some(*t),
        _ => None,
    }
}

/// The difference `from - to`, if four bytes can hold it.
fn signed_distance(from: usize, to: usize) -> (r: Option<i32>)
    ensures
        r is Some <==> i32::MIN <= from - to <= i32::MAX,
        r is Some ==> r.unwrap() == from - to,
{
    if from >= to {
        let d: usize = from - to;
        if d <= 0x7fff_ffff {
            Some(d as i32)
        } else {
            None
        }
    } else {
        let d: usize = to - from;
        if d <= 0x8000_0000 {
            let wide: i64 = 0 - (d as i64);
            Some(wide as i32)
        } else {
            None
        }
    }
}

/// The offsets at which the instructions of the operations start, if the
/// code is no longer than memory can hold.
fn starts_of(ops: &[Operation]) -> (r: Option<Vec<usize>>)
    ensures
        r is Some <==> start_of(ops@, ops@.len() as int) <= usize::MAX,
        r is Some ==> r.unwrap()@.len() == ops@.len() && forall|k: int|
            0 <= k < ops@.len() ==> r.unwrap()@[k] == start_of(ops@, k),
{
    let n: usize = ops.len();
    let mut offsets: Vec<usize> = Vec::new();
    let mut total: usize = 0;
    let mut i: usize = 0;
    while i < n
        invariant
            n == ops@.len(),
            i <= n,
            total == start_of(ops@, i as int),
            offsets@.len() == i,
            forall|k: int| 0 <= k < i ==> offsets@[k] == start_of(ops@, k),
        decreases n - i,
    {
        let w: usize = width_of(&ops[i]);
        if total > usize::MAX - w {
            proof {
                lemma_start_of_grows(ops@, i + 1, n as int);
            }
            return None;
        }
        offsets.push(total);
        total = total + w;
        i += 1;
    }
    Some(offsets)
}

/// Puts a sequence of operations into bytes. Each jump is written with the
/// distance from the start of its target to the byte before its own operand.
/// Nothing comes out where a jump names no operation of the sequence or has
/// a distance that four bytes cannot hold.
pub fn assemble(ops: &[Operation]) -> (r: Option<Vec<u8>>)
    ensures
        r is Some <==> can_assemble(ops@),
        r is Some ==> Some(r.unwrap()@) == assembled(ops@),
{
    let n: usize = ops.len();
    let offsets: Vec<usize> = match starts_of(ops) {
        Some(offsets) => offsets,
        None => {
            return None;
        },
    };
    let mut out: Vec<u8> = Vec::new();
    let mut i: usize = 0;
    while i < n
        invariant
            n == ops@.len(),
            i <= n,
            offsets@.len() == n,
            forall|k: int| 0 <= k < n ==> offsets@[k] == start_of(ops@, k),
            start_of(ops@, n as int) <= usize::MAX,
            out@ == encoded_upto(ops@, i as int),
            forall|k: int| 0 <= k < i ==> jump_fits(ops@, k),
        decreases n - i,
    {
        let op: Operation = ops[i];
        out.push(op.code());
        match target_of(&op) {
            Some(t) => {
                if t >= n {
                    assert(!jump_fits(ops@, i as int));
                    return None;
                }
                match signed_distance(offsets[i], offsets[t]) {
                    Some(d) => {
                        write_u32(&mut out, #[verifier::truncate] (d as u32));
                    },
                    None => {
                        assert(!jump_fits(ops@, i as int));
                        return None;
                    },
                }
            },
            None => {
                match op {
                    Operation::Call(x) => {
                        out.push(x);
                    },
                    Operation::FrameLocalLoad(x) => {
                        out.push(x);
                    },
                    Operation::FrameLocalStore(x) => {
                        out.push(x);
                    },
                    Operation::FrameLocalSwap(x) => {
                        out.push(x);
                    },
                    Operation::LiteralInteger(x) => {
                        write_u64(&mut out, #[verifier::truncate] (x as u64));
                    },
                    Operation::LiteralReal(x) => {
                        write_u64(&mut out, x.bits);
                    },
                    _ => {},
                }
            },
        }
        assert(out@ =~= encoded_upto(ops@, i as int) + encoded_op(ops@, i as int));
        i += 1;
    }
    Some(out)
}

/// The instructions that stand in `code` from the offset `at` to its end,
/// one after the other; none where one of them cannot be read.
pub open spec fn scan(code: Seq<u8>, at: int) -> Option<Seq<Decoded>>
    decreases code.len() - at,
{
    if at >= code.len() {
        Some(Seq::empty())
    } else {
        match decode_at(code, at) {
            None => None,
            Some(d) => match scan(code, d.next) {
                None => None,
                Some(rest) => Some(seq![d] + rest),
            },
        }
    }
}

/// The offset at which the instruction `i` of `ds` starts, where `ds` was
/// read from the offset 0 on.
pub open spec fn start_in(ds: Seq<Decoded>, i: int) -> int {
    if i <= 0 {
        0
    } else {
        ds[i - 1].next
    }
}

/// The greatest index below `k` of an instruction of `ds` that starts at the
/// offset `t`.
pub open spec fn position_below(ds: Seq<Decoded>, t: int, k: int) -> Option<int>
    decreases k,
{
    if k <= 0 {
        None
    } else if start_in(ds, k - 1) == t {
        Some(k - 1)
    } else {
        position_below(ds, t, k - 1)
    }
}

/// The index of the instruction of `ds` that starts at the offset `t`.
pub open spec fn position(ds: Seq<Decoded>, t: int) -> Option<int> {
    position_below(ds, t, ds.len() as int)
}

/// The offset that the jump `i` of `ds` leads to: its distance, counted from
/// the byte after the instruction.
pub open spec fn landing(ds: Seq<Decoded>, i: int) -> int {
    ds[i].next + ds[i].delta
}

/// The operation `i` of `ds`, a jump with the index of the instruction that
/// it leads to as its target.
pub open spec fn resolved_op(ds: Seq<Decoded>, i: int) -> Operation {
    match position(ds, landing(ds, i)) {
        Some(m) => ds[i].op.aimed_at(m as usize),
        None => ds[i].op,
    }
}

/// Whether the jump `i` of `ds`, if it is one, leads to the start of an
/// instruction.
pub open spec fn jump_lands(ds: Seq<Decoded>, i: int) -> bool {
    ds[i].op.target() is Some ==> position(ds, landing(ds, i)) is Some
}

/// The operations of the instructions `ds`; none where a jump leads
/// elsewhere than to the start of an instruction.
pub open spec fn resolved(ds: Seq<Decoded>) -> Option<Seq<Operation>> {
    if forall|i: int| 0 <= i < ds.len() ==> jump_lands(ds, i) {
        Some(Seq::new(ds.len(), |i: int| resolved_op(ds, i)))
    } else {
        None
    }
}

/// The operations that the bytecode holds.
pub open spec fn disassembled(code: Seq<u8>) -> Option<Seq<Operation>> {
    match scan(code, 0) {
        None => None,
        Some(ds) => resolved(ds),
    }
}

/// What `position_below` finds is the start that was looked for, and where
/// it finds nothing there is none.
pub proof fn lemma_position_below(ds: Seq<Decoded>, t: int, k: int)
    ensures
        match position_below(ds, t, k) {
            Some(m) => 0 <= m < k && start_in(ds, m) == t,
            None => forall|m: int| 0 <= m < k ==> start_in(ds, m) != t,
        },
    decreases k,
{
    if k > 0 && start_in(ds, k - 1) != t {
        lemma_position_below(ds, t, k - 1);
    }
}

/// Where the starts grow, the one instruction that starts at `t` is what
/// `position` finds.
pub proof fn lemma_position_unique(ds: Seq<Decoded>, t: int, m: int)
    requires
        0 <= m < ds.len(),
        start_in(ds, m) == t,
        forall|a: int, b: int| 0 <= a < b < ds.len() ==> start_in(ds, a) < start_in(ds, b),
    ensures
        position(ds, t) == Some(m),
{
    lemma_position_below(ds, t, ds.len() as int);
}

/// Looks for `t` among offsets that grow.
fn find_offset(offsets: &Vec<usize>, t: usize) -> (r: Option<usize>)
    requires
        forall|a: int, b: int| 0 <= a < b < offsets@.len() ==> offsets@[a] < offsets@[b],
    ensures
        match r {
            Some(m) => m < offsets@.len() && offsets@[m as int] == t,
            None => forall|m: int| 0 <= m < offsets@.len() ==> offsets@[m] != t,
        },
{
    let mut low: usize = 0;
    let mut high: usize = offsets.len();
    while low < high
        invariant
            low <= high <= offsets@.len(),
            forall|a: int, b: int| 0 <= a < b < offsets@.len() ==> offsets@[a] < offsets@[b],
            forall|m: int| 0 <= m < low ==> offsets@[m] < t,
            forall|m: int| high <= m < offsets@.len() ==> offsets@[m] > t,
        decreases high - low,
    {
        let mid: usize = low + (high - low) / 2;
        let at: usize = offsets[mid];
        if at == t {
            return Some(mid);
        } else if at < t {
            low = mid + 1;
        } else {
            high = mid;
        }
    }
    None
}

/// The offset that a jump leads to, if it lies in memory.
fn landing_of(f: &Fetched) -> (r: Option<usize>)
    ensures
        r is Some <==> 0 <= f.next + f.delta <= usize::MAX,
        r is Some ==> r.unwrap() == f.next + f.delta,
{
    if f.delta >= 0 {
        let d: usize = f.delta as usize;
        if f.next > usize::MAX - d {
            None
        } else {
            Some(f.next + d)
        }
    } else {
        let wide: i64 = 0 - (f.delta as i64);
        let d: u64 = wide as u64;
        if (f.next as u64) < d {
            None
        } else {
            Some(f.next - (d as usize))
        }
    }
}

/// The instructions as they stand in the bytes.
pub open spec fn views(fetched: Seq<Fetched>) -> Seq<Decoded> {
    fetched.map_values(|f: Fetched| f@)
}

/// Reads the instructions of the bytecode one after the other.
fn scan_all(bytecode: &[u8]) -> (r: Option<(Vec<Fetched>, Vec<usize>)>)
    ensures
        r is Some <==> scan(bytecode@, 0) is Some,
        r is Some ==> ({
            let ds = views(r.unwrap().0@);
            let offsets = r.unwrap().1@;
            &&& scan(bytecode@, 0) == Some(ds)
            &&& offsets.len() == ds.len()
            &&& forall|k: int| 0 <= k < ds.len() ==> offsets[k] == start_in(ds, k)
            &&& forall|a: int, b: int| 0 <= a < b < ds.len() ==> start_in(ds, a) < start_in(ds, b)
        }),
{
    let len: usize = bytecode.len();
    let mut fetched: Vec<Fetched> = Vec::new();
    let mut offsets: Vec<usize> = Vec::new();
    let mut cursor: usize = 0;
    assert(views(fetched@) + Seq::<Decoded>::empty() =~= views(fetched@));
    while cursor < len
        invariant
            len == bytecode@.len(),
            cursor <= len,
            offsets@.len() == fetched@.len(),
            start_in(views(fetched@), fetched@.len() as int) == cursor,
            forall|k: int| 0 <= k < fetched@.len() ==> offsets@[k] == start_in(views(fetched@), k),
            forall|a: int, b: int|
                0 <= a < b <= fetched@.len() ==> start_in(views(fetched@), a) < start_in(
                    views(fetched@),
                    b,
                ),
            scan(bytecode@, 0) == match scan(bytecode@, cursor as int) {
                None => None::<Seq<Decoded>>,
                Some(rest) => Some(views(fetched@) + rest),
            },
        decreases len - cursor,
    {
        let ghost before = views(fetched@);
        match fetch(bytecode, cursor) {
            None => {
                return None;
            },
            Some(f) => {
                offsets.push(cursor);
                fetched.push(f);
                proof {
                    let after = views(fetched@);
                    assert(after =~= before.push(f@));
                    assert forall|k: int| 0 <= k < fetched@.len() implies offsets@[k] == start_in(
                        after,
                        k,
                    ) by {
                        if k < before.len() {
                            assert(start_in(after, k) == start_in(before, k));
                        }
                    }
                    assert forall|a: int, b: int| 0 <= a < b <= fetched@.len() implies start_in(
                        after,
                        a,
                    ) < start_in(after, b) by {
                        assert(start_in(after, a) == start_in(before, a));
                        if b < fetched@.len() {
                            assert(start_in(after, b) == start_in(before, b));
                        }
                    }
                    match scan(bytecode@, f.next as int) {
                        None => {},
                        Some(rest) => {
                            assert(before + (seq![f@] + rest) =~= after + rest);
                        },
                    }
                }
                cursor = f.next;
            },
        }
    }
    assert(views(fetched@) + Seq::<Decoded>::empty() =~= views(fetched@));
    Some((fetched, offsets))
}

/// Reads bytecode back into operations. Each jump gets as its target the
/// index of the instruction that starts where the jump leads: at its
/// distance from the byte after its operand. Nothing comes out where an
/// opcode is unknown, the code ends inside an instruction, or a jump leads
/// elsewhere than to the start of an instruction.
pub fn disassemble(bytecode: &[u8]) -> (r: Option<Vec<Operation>>)
    ensures
        r is Some <==> disassembled(bytecode@) is Some,
        r is Some ==> Some(r.unwrap()@) == disassembled(bytecode@),
{
    let (fetched, offsets) = match scan_all(bytecode) {
        Some(pair) => pair,
        None => {
            return None;
        },
    };
    let ghost ds = views(fetched@);
    let n: usize = fetched.len();
    let mut ops: Vec<Operation> = Vec::new();
    let mut i: usize = 0;
    assert forall|a: int, b: int| 0 <= a < b < n implies offsets@[a] < offsets@[b] by {
        assert(start_in(ds, a) < start_in(ds, b));
    }
    while i < n
        invariant
            n == fetched@.len(),
            i <= n,
            ds == views(fetched@),
            scan(bytecode@, 0) == Some(ds),
            offsets@.len() == n,
            forall|k: int| 0 <= k < n ==> offsets@[k] == start_in(ds, k),
            forall|a: int, b: int| 0 <= a < b < n ==> start_in(ds, a) < start_in(ds, b),
            forall|a: int, b: int| 0 <= a < b < n ==> offsets@[a] < offsets@[b],
            ops@.len() == i,
            forall|k: int| 0 <= k < i ==> jump_lands(ds, k) && ops@[k] == resolved_op(ds, k),
        decreases n - i,
    {
        let f: Fetched = fetched[i];
        assert(ds[i as int] == f@);
        let found: Option<usize> = match landing_of(&f) {
            Some(t) => find_offset(&offsets, t),
            None => None,
        };
        proof {
            lemma_position_below(ds, landing(ds, i as int), n as int);
            match found {
                Some(m) => {
                    lemma_position_unique(ds, landing(ds, i as int), m as int);
                },
                None => {
                    assert(position(ds, landing(ds, i as int)) is None) by {
                        if position(ds, landing(ds, i as int)) is Some {
                            let m = position(ds, landing(ds, i as int)).unwrap();
                            assert(offsets@[m] == start_in(ds, m));
                        }
                    }
                },
            }
        }
        let op: Operation = match f.op {
            Operation::Jump(_) => match found {
                Some(m) => Operation::Jump(m),
                None => {
                    assert(!jump_lands(ds, i as int));
                    return None;
                },
            },
            Operation::JumpZero(_) => match found {
                Some(m) => Operation::JumpZero(m),
                None => {
                    assert(!jump_lands(ds, i as int));
                    return None;
                },
            },
            Operation::JumpNeg(_) => match found {
                Some(m) => Operation::JumpNeg(m),
                None => {
                    assert(!jump_lands(ds, i as int));
                    return None;
                },
            },
            other => other,
        };
        ops.push(op);
        i += 1;
    }
    assert(ops@ =~= Seq::new(ds.len(), |i: int| resolved_op(ds, i)));
    Some(ops)
}

} // verus!
