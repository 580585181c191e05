//! What assembling and disassembling undo of each other.
//!
//! A jump is written with the distance from the start of its target to the
//! byte before its operand, and read as leading to the byte after its
//! operand plus its distance. The two do not meet: no jump comes back from
//! bytes with the target that it went in with. Operations other than jumps
//! come back as they went in, and bytes without jumps are written again as
//! they were read.
use vstd::prelude::*;
use crate::operation::{
    assembled, be_u64, can_assemble, decode_at, disassembled, distance, encoded_op, encoded_upto,
    jump_fits, jump_lands, landing, lemma_be_u32_of_bytes, lemma_be_u64_of_bytes,
    lemma_bytes_of_be_u64, lemma_encoded_len, lemma_position_below, lemma_start_of_grows,
    position, resolved, resolved_op, scan, start_in, start_of, u32_be, u64_be, Decoded,
    Operation,
};

verus! {

/// Whether none of the operations is a jump.
pub open spec fn jump_free(ops: Seq<Operation>) -> bool {
    forall|i: int| 0 <= i < ops.len() ==> (#[trigger] ops[i]).target() is None
}

/// The operation `i` as it stands in the bytes of `ops`.
pub open spec fn raw(ops: Seq<Operation>, i: int) -> Decoded {
    Decoded { op: ops[i].aimed_at(0), delta: distance(ops, i), next: start_of(ops, i + 1) }
}

/// The operations from `i` on as they stand in the bytes of `ops`.
pub open spec fn raw_from(ops: Seq<Operation>, i: int) -> Seq<Decoded> {
    Seq::new((ops.len() - i) as nat, |k: int| raw(ops, i + k))
}

/// The bytes of the operation `i` stand at its start in the bytes of the
/// first `n` operations.
pub proof fn lemma_encoded_at(ops: Seq<Operation>, i: int, n: int, k: int)
    requires
        0 <= i < n <= ops.len(),
        0 <= k < ops[i].width(),
    ensures
        encoded_op(ops, i).len() == ops[i].width(),
        0 <= start_of(ops, i),
        start_of(ops, i) + k < encoded_upto(ops, n).len(),
        encoded_upto(ops, n)[start_of(ops, i) + k] == encoded_op(ops, i)[k],
    decreases n,
{
    lemma_encoded_len(ops, n);
    lemma_encoded_len(ops, n - 1);
    lemma_start_of_grows(ops, i, n - 1);
    lemma_start_of_grows(ops, i + 1, n);
    if i < n - 1 {
        lemma_encoded_at(ops, i, n - 1, k);
    }
}

/// Every instruction takes a byte at least.
pub proof fn lemma_start_of_at_least(ops: Seq<Operation>, i: int)
    requires
        0 <= i,
    ensures
        start_of(ops, i) >= i,
    decreases i,
{
    if i > 0 {
        lemma_start_of_at_least(ops, i - 1);
    }
}

/// A 32-bit number survives being read as unsigned and back, and so does a
/// 64-bit one.
proof fn lemma_sign_casts(x: i32, y: i64, z: u64)
    ensures
        (x as u32) as i32 == x,
        (y as u64) as i64 == y,
        (z as i64) as u64 == z,
{
    assert((x as u32) as i32 == x) by (bit_vector);
    assert((y as u64) as i64 == y) by (bit_vector);
    assert((z as i64) as u64 == z) by (bit_vector);
}

/// Reading the bytes of `ops` at the start of the operation `i` gives the
/// operation as it stands there.
pub proof fn lemma_decode_encoded(ops: Seq<Operation>, i: int)
    requires
        can_assemble(ops),
        0 <= i < ops.len(),
    ensures
        decode_at(encoded_upto(ops, ops.len() as int), start_of(ops, i)) == Some(raw(ops, i)),
{
    let n = ops.len() as int;
    let code = encoded_upto(ops, n);
    let at = start_of(ops, i);
    let op = ops[i];
    lemma_encoded_len(ops, n);
    lemma_start_of_grows(ops, i + 1, n);
    lemma_start_of_grows(ops, i, i);
    assert(jump_fits(ops, i));
    assert forall|k: int| 0 <= k < op.width() implies at + k < code.len() && code[at + k]
        == encoded_op(ops, i)[k] by {
        lemma_encoded_at(ops, i, n, k);
    }
    let bytes = encoded_op(ops, i);
    assert(code[at + 0] == bytes[0]);
    if op.target() is Some {
        let d = distance(ops, i);
        let word = u32_be(#[verifier::truncate] (#[verifier::truncate] (d as i32) as u32));
        assert(bytes == seq![op.opcode()] + word);
        assert forall|k: int| 0 <= k < 4 implies code[at + 1 + k] == word[k] by {
            assert(code[at + (k + 1)] == bytes[k + 1]);
        }
        assert(code.subrange(at + 1, at + 5) =~= word);
        lemma_be_u32_of_bytes(#[verifier::truncate] (#[verifier::truncate] (d as i32) as u32));
        lemma_sign_casts(#[verifier::truncate] (d as i32), 0, 0);
    } else {
        match op {
            Operation::LiteralInteger(x) => {
                let word = u64_be(#[verifier::truncate] (x as u64));
                assert(bytes == seq![op.opcode()] + word);
                assert forall|k: int| 0 <= k < 8 implies code[at + 1 + k] == word[k] by {
                    assert(code[at + (k + 1)] == bytes[k + 1]);
                }
                assert(code.subrange(at + 1, at + 9) =~= word);
                lemma_be_u64_of_bytes(#[verifier::truncate] (x as u64));
                lemma_sign_casts(0, x, 0);
            },
            Operation::LiteralReal(x) => {
                let word = u64_be(x.bits);
                assert(bytes == seq![op.opcode()] + word);
                assert forall|k: int| 0 <= k < 8 implies code[at + 1 + k] == word[k] by {
                    assert(code[at + (k + 1)] == bytes[k + 1]);
                }
                assert(code.subrange(at + 1, at + 9) =~= word);
                lemma_be_u64_of_bytes(x.bits);
            },
            Operation::Call(x) => {
                assert(code[at + 1] == encoded_op(ops, i)[1]);
            },
            Operation::FrameLocalLoad(x) => {
                assert(code[at + 1] == encoded_op(ops, i)[1]);
            },
            Operation::FrameLocalStore(x) => {
                assert(code[at + 1] == encoded_op(ops, i)[1]);
            },
            Operation::FrameLocalSwap(x) => {
                assert(code[at + 1] == encoded_op(ops, i)[1]);
            },
            _ => {},
        }
    }
}

/// Reading the bytes of `ops` from the start of the operation `i` on gives
/// the operations from `i` on as they stand there.
pub proof fn lemma_scan_encoded(ops: Seq<Operation>, i: int)
    requires
        can_assemble(ops),
        0 <= i <= ops.len(),
    ensures
        scan(encoded_upto(ops, ops.len() as int), start_of(ops, i)) == Some(raw_from(ops, i)),
    decreases ops.len() - i,
{
    let n = ops.len() as int;
    let code = encoded_upto(ops, n);
    lemma_encoded_len(ops, n);
    if i == n {
        assert(raw_from(ops, i) =~= Seq::<Decoded>::empty());
    } else {
        lemma_start_of_grows(ops, i, n);
        lemma_decode_encoded(ops, i);
        lemma_scan_encoded(ops, i + 1);
        assert(seq![raw(ops, i)] + raw_from(ops, i + 1) =~= raw_from(ops, i));
    }
}

/// Operations without jumps come back from their bytecode as they went in.
pub proof fn law_disassemble_assemble(ops: Seq<Operation>)
    requires
        can_assemble(ops),
        jump_free(ops),
    ensures
        assembled(ops) is Some,
        disassembled(assembled(ops).unwrap()) == Some(ops),
{
    lemma_scan_encoded(ops, 0);
    let ds = raw_from(ops, 0);
    assert forall|i: int| 0 <= i < ds.len() implies jump_lands(ds, i) && resolved_op(ds, i)
        == ops[i] by {
        assert(ops[i].target() is None);
    }
    assert(resolved(ds).unwrap() =~= ops);
}

/// No sequence of operations with a jump comes back from its bytecode as it
/// went in: where the jump leads cannot be the start of its target.
pub proof fn law_jump_does_not_return(ops: Seq<Operation>, i: int)
    requires
        can_assemble(ops),
        0 <= i < ops.len(),
        ops[i].target() is Some,
    ensures
        disassembled(assembled(ops).unwrap()) != Some(ops),
{
    lemma_scan_encoded(ops, 0);
    let ds = raw_from(ops, 0);
    if resolved(ds) == Some(ops) {
        assert(jump_lands(ds, i));
        assert(jump_fits(ops, i));
        let t = ops[i].target().unwrap();
        let m = position(ds, landing(ds, i)).unwrap();
        lemma_position_below(ds, landing(ds, i), ds.len() as int);
        assert(resolved(ds).unwrap()[i] == resolved_op(ds, i));
        lemma_start_of_at_least(ops, ops.len() as int);
        assert(0 <= m < ops.len() <= usize::MAX);
        assert(ops[i] == ds[i].op.aimed_at(m as usize));
        assert(ops[i].target() == Some(m as usize));
        assert(m == t);
        assert(start_in(ds, m) == start_of(ops, m));
        assert(landing(ds, i) == start_of(ops, i + 1) + distance(ops, i));
        assert(false);
    }
}

/// The offset at which the instruction `k` of `ds` starts, where `ds` was
/// read from the offset `at` on.
pub open spec fn begin(ds: Seq<Decoded>, at: int, k: int) -> int {
    if k <= 0 {
        at
    } else {
        ds[k - 1].next
    }
}

/// What was read from `at` on was read instruction by instruction, each
/// where the one before it ended, up to the end of the code.
pub proof fn lemma_scan_steps(code: Seq<u8>, at: int, k: int)
    requires
        0 <= at <= code.len(),
        scan(code, at) is Some,
        0 <= k <= scan(code, at).unwrap().len(),
    ensures
        at <= begin(scan(code, at).unwrap(), at, k) <= code.len(),
        k < scan(code, at).unwrap().len() ==> decode_at(
            code,
            begin(scan(code, at).unwrap(), at, k),
        ) == Some(scan(code, at).unwrap()[k]),
        k == scan(code, at).unwrap().len() ==> begin(scan(code, at).unwrap(), at, k)
            == code.len(),
    decreases code.len() - at,
{
    let ds = scan(code, at).unwrap();
    if at < code.len() {
        let d = decode_at(code, at).unwrap();
        let rest = scan(code, d.next).unwrap();
        assert(ds == seq![d] + rest);
        if k > 0 {
            lemma_scan_steps(code, d.next, k - 1);
            if k - 1 > 0 {
                assert(ds[k - 1] == rest[k - 2]);
            }
            if k < ds.len() {
                assert(ds[k] == rest[k - 1]);
            }
        }
    }
}

/// The bytes of an instruction that is no jump are its opcode and its
/// operand.
pub proof fn lemma_encode_decoded(code: Seq<u8>, at: int)
    requires
        decode_at(code, at) is Some,
        decode_at(code, at).unwrap().op.target() is None,
    ensures
        ({
            let d = decode_at(code, at).unwrap();
            &&& d.next == at + d.op.width()
            &&& d.next <= code.len()
            &&& code.subrange(at, d.next) == seq![d.op.opcode()] + d.op.operand()
        }),
{
    let d = decode_at(code, at).unwrap();
    match d.op {
        Operation::LiteralInteger(x) => {
            let word = code.subrange(at + 1, at + 9);
            lemma_bytes_of_be_u64(word);
            lemma_sign_casts(0, 0, be_u64(word));
            assert(code.subrange(at, d.next) =~= seq![d.op.opcode()] + word);
        },
        Operation::LiteralReal(x) => {
            let word = code.subrange(at + 1, at + 9);
            lemma_bytes_of_be_u64(word);
            assert(code.subrange(at, d.next) =~= seq![d.op.opcode()] + word);
        },
        _ => {
            assert(code.subrange(at, d.next) =~= seq![d.op.opcode()] + d.op.operand());
        },
    }
}

/// The bytes of the first `k` operations read from `code` are the first
/// bytes of `code`.
proof fn lemma_encoded_read(code: Seq<u8>, ops: Seq<Operation>, k: int)
    requires
        disassembled(code) == Some(ops),
        jump_free(ops),
        0 <= k <= ops.len(),
    ensures
        start_of(ops, k) == begin(scan(code, 0).unwrap(), 0, k),
        0 <= start_of(ops, k) <= code.len(),
        encoded_upto(ops, k) == code.subrange(0, start_of(ops, k)),
    decreases k,
{
    let ds = scan(code, 0).unwrap();
    assert(ops.len() == ds.len());
    lemma_scan_steps(code, 0, k);
    if k == 0 {
        assert(encoded_upto(ops, 0) =~= code.subrange(0, 0));
    } else {
        lemma_encoded_read(code, ops, k - 1);
        lemma_scan_steps(code, 0, k - 1);
        let at = begin(ds, 0, k - 1);
        assert(jump_lands(ds, k - 1));
        assert(ops[k - 1] == resolved_op(ds, k - 1));
        assert(ops[k - 1].target() is None);
        assert(ds[k - 1].op.target() is None);
        assert(ops[k - 1] == ds[k - 1].op);
        lemma_encode_decoded(code, at);
        assert(encoded_op(ops, k - 1) == code.subrange(at, ds[k - 1].next));
        assert(encoded_upto(ops, k) =~= code.subrange(0, start_of(ops, k)));
    }
}

/// Bytecode without jumps is written again as it was read.
pub proof fn law_assemble_disassemble(code: Seq<u8>)
    requires
        code.len() <= usize::MAX,
        disassembled(code) is Some,
        jump_free(disassembled(code).unwrap()),
    ensures
        assembled(disassembled(code).unwrap()) == Some(code),
{
    let ops = disassembled(code).unwrap();
    let n = ops.len() as int;
    lemma_encoded_read(code, ops, n);
    lemma_scan_steps(code, 0, n);
    assert(code.subrange(0, code.len() as int) =~= code);
    assert forall|i: int| 0 <= i < ops.len() implies jump_fits(ops, i) by {
        assert(ops[i].target() is None);
    }
}

/// No bytecode with a jump is written again as it was read.
pub proof fn law_jump_is_not_rewritten(code: Seq<u8>, i: int)
    requires
        disassembled(code) is Some,
        0 <= i < disassembled(code).unwrap().len(),
        disassembled(code).unwrap()[i].target() is Some,
    ensures
        assembled(disassembled(code).unwrap()) != Some(code),
{
    let ops = disassembled(code).unwrap();
    if assembled(ops) == Some(code) {
        law_jump_does_not_return(ops, i);
    }
}

} // verus!
