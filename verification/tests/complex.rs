use revm_fusion::bytecode::opcode_optimizer::do_code_fusion;
use revm_fusion::handler::opcode_optimizer::{do_basic_block_opcode_fusion, do_code_fusion as handler_fusion};
use revm_fusion::interpreter::complex::{
    and_dup2_add_swap1_dup2_lt, and_swap1_pop_swap2_swap1, dup11_mul_dup3_sub_mul_dup1, dup1_push4_eq_push2,
    dup2_lt, dup2_mstore_push1_add, dup3_and, iszero_push2, jump_if_zero, pop2, pop_jump, pop_swap2_swap1_pop, push1_add,
    push1_calldataload_push1_shr_dup1_push4_gt_push2, push1_dup1, push1_push1, push1_push1_push1_shl_sub,
    push1_shl, push2_jump, push2_jumpi, shr_shr_dup1_mul_dup1, snop, sub_slt_iszero_push2, swap1_dup2,
    swap1_pop, swap1_pop_swap2_swap1, swap1_push1_dup1_not_swap2_add_and_dup2_add_swap1_dup2_lt, swap2_pop,
    swap2_swap1, swap2_swap1_dup3_sub_swap2_dup3_gt_push2, swap2_swap1_pop_jump, swap3_pop_pop_pop,
};
use revm_fusion::interpreter::machine::{InstructionResult, Interpreter};
use revm_fusion::interpreter::word::Word;

fn w(x: u64) -> Word {
    Word::from_u64(x)
}

/// 2^256 - x.
fn neg(x: u64) -> Word {
    let (l0, borrow) = 0u64.overflowing_sub(x);
    let fill = if borrow { u64::MAX } else { 0 };
    Word { l0, l1: fill, l2: fill, l3: fill }
}

fn words(xs: &[u64]) -> Vec<Word> {
    xs.iter().map(|x| w(*x)).collect()
}

fn interp_with_code(code: Vec<u8>) -> Interpreter {
    let len = code.len();
    Interpreter {
        stack: Vec::new(),
        pc: 0,
        code,
        jump_table: vec![false; len],
        input: Vec::new(),
        memory: Vec::new(),
        gas: u64::MAX,
        halted: None,
    }
}

/// Zero code of length `len`.
fn make_interp(len: usize) -> Interpreter {
    interp_with_code(vec![0u8; len])
}

/// Code `0, 1, 2, ..` of length `len` (last byte 0) with one valid jump
/// destination.
fn make_interp_with_jump(len: usize, jump_loc: usize) -> Interpreter {
    let mut v = vec![0u8; len];
    for i in 0..len - 1 {
        v[i] = i as u8;
    }
    let mut ip = interp_with_code(v);
    ip.jump_table[jump_loc] = true;
    ip
}

fn push_all(ip: &mut Interpreter, xs: &[u64]) {
    for x in xs {
        ip.stack.push(w(*x));
    }
}

#[test]
fn test_and_swap1_pop_swap2_swap1() {
    let mut ip = make_interp(10);
    push_all(&mut ip, &[0, 1, 2, 7, 5]);
    and_swap1_pop_swap2_swap1(&mut ip);
    assert_eq!(ip.pc, 4);
    // AND, SWAP1, POP, SWAP2, SWAP1 on [0, 1, 2, 7, 5] leave [5, 0, 1].
    assert_eq!(ip.stack, words(&[5, 0, 1]));
}

#[test]
fn test_swap1_pop_swap2_swap1() {
    let mut ip = make_interp(10);
    push_all(&mut ip, &[0, 1, 2, 7, 5]);
    swap1_pop_swap2_swap1(&mut ip);
    assert_eq!(ip.pc, 3);
    assert_eq!(ip.stack, words(&[0, 5, 1, 2]));
}

#[test]
fn test_swap2_swap1_pop_jump() {
    let mut ip = make_interp_with_jump(10, 7);
    push_all(&mut ip, &[7, 0xaa, 0xbb]);
    swap2_swap1_pop_jump(&mut ip);
    assert_eq!(ip.pc, 7);
    assert_eq!(ip.halted, None);
    assert_eq!(ip.stack, words(&[0xbb]));
}

#[test]
fn test_pop_swap2_swap1_pop() {
    let mut ip = make_interp(10);
    push_all(&mut ip, &[0, 1, 2, 3]);
    pop_swap2_swap1_pop(&mut ip);
    assert_eq!(ip.pc, 3);
    assert_eq!(ip.stack, words(&[2, 0]));
}

#[test]
fn test_swap2_pop() {
    let mut ip = make_interp(5);
    push_all(&mut ip, &[0, 1, 2]);
    swap2_pop(&mut ip);
    assert_eq!(ip.pc, 1);
    assert_eq!(ip.stack, words(&[2, 1]));
}

#[test]
fn test_push2_jump() {
    let mut ip = make_interp_with_jump(10, 1);
    push2_jump(&mut ip);
    assert_eq!(ip.pc, 1);
    assert_eq!(ip.halted, None);
    assert!(ip.stack.is_empty());
}

#[test]
fn test_push2_jumpi() {
    let mut ip = make_interp_with_jump(10, 1);
    push_all(&mut ip, &[5]);
    push2_jumpi(&mut ip);
    assert_eq!(ip.pc, 1);
    assert!(ip.stack.is_empty());

    let mut ip = make_interp_with_jump(10, 1);
    push_all(&mut ip, &[0]);
    push2_jumpi(&mut ip);
    assert_eq!(ip.pc, 3);
    assert!(ip.stack.is_empty());
}

#[test]
fn test_push1_add() {
    let mut ip = make_interp(4);
    ip.stack.push(w(1));
    ip.code = vec![5, 0, 0, 0];
    push1_add(&mut ip);
    assert_eq!(ip.stack.last(), Some(&w(6)));
    assert_eq!(ip.pc, 2);
}

#[test]
fn test_pop2() {
    let mut ip = make_interp(2);
    push_all(&mut ip, &[1, 2]);
    pop2(&mut ip);
    assert!(ip.stack.is_empty());
    assert_eq!(ip.pc, 1);
}

#[test]
fn test_dup2_lt() {
    let mut ip = make_interp(2);
    push_all(&mut ip, &[3, 4]);
    dup2_lt(&mut ip);
    assert_eq!(ip.stack.last(), Some(&w(1)));
    assert_eq!(ip.pc, 1);
}

#[test]
fn test_push1_shl() {
    let mut ip = make_interp_with_jump(3, 0);
    ip.pc += 1;
    push_all(&mut ip, &[4]);
    push1_shl(&mut ip);
    assert_eq!(ip.stack.last(), Some(&w(8)));
    assert_eq!(ip.pc, 3);
}

#[test]
fn test_push1_dup1() {
    let mut ip = make_interp_with_jump(3, 0);
    ip.pc += 1;
    push1_dup1(&mut ip);
    assert_eq!(ip.stack.last(), Some(&w(1)));
    assert_eq!(ip.stack, words(&[1, 1]));
    assert_eq!(ip.pc, 3);
}

#[test]
fn test_swap1_pop() {
    let mut ip = make_interp_with_jump(3, 0);
    ip.pc += 1;
    push_all(&mut ip, &[3, 4]);
    swap1_pop(&mut ip);
    assert_eq!(ip.stack.last(), Some(&w(4)));
    assert_eq!(ip.pc, 2);
}

#[test]
fn test_pop_jump() {
    let mut ip = make_interp_with_jump(10, 3);
    ip.pc += 1;
    push_all(&mut ip, &[2, 3, 4]);
    pop_jump(&mut ip);
    assert_eq!(ip.stack.last(), Some(&w(2)));
    assert_eq!(ip.pc, 3);
}

#[test]
fn test_jump_if_zero() {
    // Zero condition: jump to the destination in bytes 1 and 2 (0x0102).
    let mut ip = make_interp_with_jump(260, 258);
    ip.stack.push(w(0));
    jump_if_zero(&mut ip);
    assert_eq!(ip.pc, 258);

    // Non-zero condition: step over NOP, imm16, NOP.
    let mut ip = make_interp_with_jump(10, 0);
    ip.code = vec![0; 10];
    ip.jump_table = vec![false; 10];
    ip.stack.push(w(1));
    jump_if_zero(&mut ip);
    assert_eq!(ip.pc, 4);
}

#[test]
fn test_push1_push1() {
    let mut ip = make_interp(5);
    ip.code = vec![0x05, 0x00, 0x07, 0, 0];
    push1_push1(&mut ip);
    let mut stack_vals = ip.stack.clone();
    assert_eq!(stack_vals.pop(), Some(w(7)));
    assert_eq!(stack_vals.pop(), Some(w(5)));
    assert_eq!(ip.pc, 3);
}

#[test]
fn test_iszero_push2() {
    let mut ip = make_interp(5);
    ip.code = vec![0, 0x12, 0x34, 0, 0];
    ip.stack.push(w(0));
    iszero_push2(&mut ip);
    assert_eq!(ip.stack.last(), Some(&w(0x1234)));
    assert_eq!(ip.stack[ip.stack.len() - 2], w(1));
    assert_eq!(ip.pc, 3);
}

#[test]
fn test_push1_push1_push1_shl_sub() {
    // immediates 2, 3, 1: (3 << 1) - 2 = 4
    let mut ip = make_interp(10);
    ip.code = vec![2, 0, 3, 0, 1, 0, 0, 0, 0, 0];
    push1_push1_push1_shl_sub(&mut ip);
    assert_eq!(ip.stack.last(), Some(&w(4)));
    assert_eq!(ip.pc, 7);
}

/// The plain instructions `ADD`, `DUP2`, `SWAP1` and `LT` run one after
/// another on a stack of small numbers, top last.
fn plain_run(stack: &mut Vec<u64>, ops: &[&str]) {
    for o in ops {
        let n = stack.len();
        match *o {
            "ADD" => {
                let a = stack.pop().unwrap();
                let b = stack.pop().unwrap();
                stack.push(a + b);
            }
            "DUP2" => stack.push(stack[n - 2]),
            "SWAP1" => stack.swap(n - 1, n - 2),
            "LT" => {
                let a = stack.pop().unwrap();
                let b = stack.pop().unwrap();
                stack.push(if a < b { 1 } else { 0 });
            }
            _ => unreachable!(),
        }
    }
}

#[test]
fn test_and_dup2_add_swap1_dup2_lt() {
    let mut ip = make_interp(10);
    push_all(&mut ip, &[3, 2, 1]);
    and_dup2_add_swap1_dup2_lt(&mut ip);
    // ADD, DUP2, ADD, SWAP1, DUP2, LT: top 0, next 3 + 2 + 1 = 6.
    assert_eq!(ip.stack.last(), Some(&w(0)));
    assert_eq!(ip.stack[ip.stack.len() - 2], w(6));
    assert_eq!(ip.pc, 5);

    let mut plain = vec![3, 2, 1];
    plain_run(&mut plain, &["ADD", "DUP2", "ADD", "SWAP1", "DUP2", "LT"]);
    assert_eq!(ip.stack, words(&plain));
    assert_eq!(ip.stack, words(&[6, 0]));
}

#[test]
fn test_dup1_push4_eq_push2() {
    // const 0x01020304, dest 0x0300
    let mut ip = make_interp(10);
    ip.code = vec![0, 0x01, 0x02, 0x03, 0x04, 0, 0x00, 0x03, 0];
    ip.stack.push(w(0x01020304));
    dup1_push4_eq_push2(&mut ip);
    assert_eq!(ip.stack.last(), Some(&w(768)));
    assert_eq!(ip.stack[ip.stack.len() - 2], w(1));
    assert_eq!(ip.pc, 9);
    assert_eq!(ip.stack, words(&[0x01020304, 1, 768]));
}

#[test]
fn test_swap1_push1_dup1_not_swap2_add_and_dup2_add_swap1_dup2_lt() {
    let mut bytes = vec![0u8; 13];
    bytes[1] = 1;
    let mut ip = make_interp(20);
    ip.code = bytes;
    push_all(&mut ip, &[2, 1]);
    swap1_push1_dup1_not_swap2_add_and_dup2_add_swap1_dup2_lt(&mut ip);
    // tmp = 1 + ((2 + 1) & !1) = 3; 3 < 1 is false.
    assert_eq!(ip.pc, 12);
    assert_eq!(ip.stack, words(&[3, 0]));
}

fn decode_hex(s: &str) -> Vec<u8> {
    (0..s.len()).step_by(2).map(|i| u8::from_str_radix(&s[i..i + 2], 16).unwrap()).collect()
}

#[test]
fn test_push1_calldataload_push1_shr_dup1_push4_gt_push2() {
    let mut bytes = vec![0u8; 16];
    let input = decode_hex("70a082310000000000000000000000001000000000000000000000000000000000000001");
    bytes[0] = 0;
    bytes[3] = 0xe0;
    bytes[7] = 0x89;
    bytes[8] = 0x3d;
    bytes[9] = 0x20;
    bytes[10] = 0xe8;
    bytes[13] = 0;
    bytes[14] = 0xad;
    let mut ip = make_interp(20);
    ip.code = bytes;
    ip.input = input;
    push1_calldataload_push1_shr_dup1_push4_gt_push2(&mut ip);
    assert_eq!(ip.stack.last(), Some(&w(173)));
    assert_eq!(ip.stack[ip.stack.len() - 2], w(1));
    assert_eq!(ip.pc, 15);
    assert_eq!(ip.stack, words(&[0x70a08231, 1, 173]));
}

#[test]
fn test_swap2_swap1() {
    let mut ip = make_interp(5);
    push_all(&mut ip, &[0, 1, 2]);
    swap2_swap1(&mut ip);
    assert_eq!(ip.pc, 1);
    assert_eq!(ip.stack, words(&[2, 0, 1]));
}

#[test]
fn test_snop() {
    let mut ip = make_interp(1);
    ip.stack.push(w(123));
    snop(&mut ip);
    assert_eq!(ip.pc, 0);
    assert_eq!(ip.stack.last(), Some(&w(123)));
}

#[test]
fn test_dup3_and() {
    let mut ip = make_interp(2);
    push_all(&mut ip, &[0x0F, 0xF0, 0x33]);
    dup3_and(&mut ip);
    assert_eq!(ip.pc, 1);
    assert_eq!(ip.stack.last(), Some(&w(0x03)));
}

#[test]
fn test_swap1_dup2() {
    let mut ip = make_interp(2);
    push_all(&mut ip, &[1, 2]);
    swap1_dup2(&mut ip);
    assert_eq!(ip.pc, 1);
    assert_eq!(ip.stack.len(), 3);
    assert_eq!(ip.stack.last(), Some(&w(2)));
    assert_eq!(ip.stack[ip.stack.len() - 2], w(1));
    assert_eq!(ip.stack[ip.stack.len() - 3], w(2));
}

#[test]
fn swap1_dup2_at_the_stack_limit() {
    let mut ip = make_interp(2);
    for i in 0..1024u64 {
        ip.stack.push(w(i));
    }
    swap1_dup2(&mut ip);
    assert_eq!(ip.halted, Some(InstructionResult::StackUnderflow));
    // SWAP1 ran before DUP2 found no room.
    assert_eq!(ip.stack.len(), 1024);
    assert_eq!(ip.stack[1023], w(1022));
    assert_eq!(ip.stack[1022], w(1023));
}

#[test]
fn dup1_push4_eq_push2_at_the_stack_limit() {
    let mut ip = make_interp(10);
    ip.code = vec![0, 0x01, 0x02, 0x03, 0x04, 0, 0x00, 0x03, 0];
    for i in 0..1024u64 {
        ip.stack.push(w(i));
    }
    dup1_push4_eq_push2(&mut ip);
    assert_eq!(ip.halted, Some(InstructionResult::StackUnderflow));
    assert_eq!(ip.stack.len(), 1024);
}

#[test]
fn test_shr_shr_dup1_mul_dup1_0() {
    let mut ip = make_interp(5);
    for _ in 0..4 {
        push_all(&mut ip, &[1, 2, 3, 3]);
    }
    shr_shr_dup1_mul_dup1(&mut ip);
    // SHR SHR DUP1 MUL DUP1: 3 >> 3 = 0, 2 >> 0 = 2, 2 * 2 = 4, twice.
    let mut expected = Vec::new();
    for _ in 0..3 {
        expected.extend(words(&[1, 2, 3, 3]));
    }
    expected.extend(words(&[1, 4, 4]));
    assert_eq!(ip.stack.len(), expected.len());
    assert_eq!(ip.stack, expected);
}

#[test]
fn test_shr_shr_dup1_mul_dup1() {
    let mut ip = make_interp(5);
    push_all(&mut ip, &[0x10, 0x02, 0x08, 0x01]);
    shr_shr_dup1_mul_dup1(&mut ip);
    // 8 >> 1 = 4, 2 >> 4 = 0, 0 * 0 = 0 twice.
    assert_eq!(ip.stack, words(&[0x10, 0, 0]));
    assert_eq!(ip.pc, 4);
}

#[test]
fn test_swap3_pop_pop_pop() {
    let mut ip = make_interp(4);
    push_all(&mut ip, &[1, 2, 3, 4]);
    swap3_pop_pop_pop(&mut ip);
    assert_eq!(ip.pc, 3);
    assert_eq!(ip.stack.len(), 1);
    // SWAP3 gives [4, 2, 3, 1]; three POPs leave [4].
    assert_eq!(ip.stack, words(&[4]));
}

#[test]
fn test_sub_slt_iszero_push2_matches_reference() {
    let mut ip = make_interp(7);
    ip.code = vec![0x00, 0x00, 0x00, 0x12, 0x34];
    push_all(&mut ip, &[2, 5, 3]);
    sub_slt_iszero_push2(&mut ip);
    assert_eq!(ip.pc, 5);
    // 3 - 5 = -2 < 2, so ISZERO gives 0.
    assert_eq!(ip.stack.len(), 2);
    assert_eq!(ip.stack[0], w(0));
    assert_eq!(ip.stack[1], w(0x1234));
}

#[test]
fn test_dup11_mul_dup3_sub_mul_dup1_matches_reference() {
    let mut ip = make_interp(6);
    for i in 0..12u64 {
        ip.stack.push(w(i + 1));
    }
    dup11_mul_dup3_sub_mul_dup1(&mut ip);
    assert_eq!(ip.pc, 5);
    // DUP11 MUL: 2 * 12 = 24; DUP3 SUB: 10 - 24 = -14; MUL: -14 * 11 = -154; DUP1.
    let mut expected = words(&[1, 2, 3, 4, 5, 6, 7, 8, 9, 10]);
    expected.push(neg(154));
    expected.push(neg(154));
    assert_eq!(ip.stack, expected);
    let data = &ip.stack;
    assert_eq!(data[data.len() - 1], data[data.len() - 2]);
}

#[test]
fn test_dup11_mul_dup3_sub_mul_dup1_matches_reference2() {
    let mut ip = make_interp(6);
    for i in 1..=12u64 {
        ip.stack.push(w(i));
    }
    dup11_mul_dup3_sub_mul_dup1(&mut ip);
    assert_eq!(ip.pc, 5);
    let mut expected = words(&[1, 2, 3, 4, 5, 6, 7, 8, 9, 10]);
    expected.push(neg(154));
    expected.push(neg(154));
    assert_eq!(ip.stack, expected);
    let data = &ip.stack;
    assert_eq!(data[data.len() - 1], data[data.len() - 2]);
}

#[test]
fn test_swap2_swap1_dup3_sub_swap2_dup3_gt_push2() {
    let mut ip = make_interp(11);
    ip.code = vec![0x91, 0x90, 0x82, 0x3, 0x91, 0x82, 0x11, 0x61, 0x1, 0x2];
    for _ in 0..4 {
        push_all(&mut ip, &[1, 2, 3, 3]);
    }
    swap2_swap1_dup3_sub_swap2_dup3_gt_push2(&mut ip);
    assert_eq!(ip.pc, 9);
    // 3 - 3 = 0; 0 > 3 is false; PUSH2 reads 0x61, 0x01.
    let mut expected = Vec::new();
    for _ in 0..3 {
        expected.extend(words(&[1, 2, 3, 3]));
    }
    expected.extend(words(&[1, 0, 2, 0, 0x6101]));
    assert_eq!(ip.stack.len(), expected.len());
    assert_eq!(ip.stack, expected);
}

// ---------------------------------------------------------------------------
// Failure paths and edge cases
// ---------------------------------------------------------------------------

#[test]
fn fused_ops_charge_gas_first() {
    let mut ip = make_interp(4);
    push_all(&mut ip, &[1, 2, 3, 4, 5]);
    ip.gas = 13;
    and_swap1_pop_swap2_swap1(&mut ip);
    assert_eq!(ip.halted, Some(InstructionResult::OutOfGas));
    assert_eq!(ip.stack, words(&[1, 2, 3, 4, 5]));
    assert_eq!(ip.gas, 13);

    let mut ip = make_interp(4);
    push_all(&mut ip, &[1, 2, 3, 4, 5]);
    ip.gas = 14;
    and_swap1_pop_swap2_swap1(&mut ip);
    assert_eq!(ip.halted, None);
    assert_eq!(ip.gas, 0);
}

#[test]
fn fused_ops_underflow_after_partial_pops() {
    let mut ip = make_interp(4);
    push_all(&mut ip, &[1, 2, 3]);
    and_swap1_pop_swap2_swap1(&mut ip);
    assert_eq!(ip.halted, Some(InstructionResult::StackUnderflow));
    assert_eq!(ip.stack, words(&[1]));

    let mut ip = make_interp(4);
    push_all(&mut ip, &[1]);
    pop2(&mut ip);
    assert_eq!(ip.halted, Some(InstructionResult::StackUnderflow));
    assert_eq!(ip.stack, words(&[1]));

    let mut ip = make_interp(4);
    push_all(&mut ip, &[1, 2, 3, 4, 5, 6, 7, 8, 9, 10]);
    dup11_mul_dup3_sub_mul_dup1(&mut ip);
    assert_eq!(ip.halted, Some(InstructionResult::StackUnderflow));
    assert_eq!(ip.stack.len(), 10);
}

#[test]
fn jumps_to_invalid_destinations_halt() {
    let mut ip = make_interp_with_jump(10, 7);
    push_all(&mut ip, &[2, 3, 5]);
    pop_jump(&mut ip);
    assert_eq!(ip.halted, Some(InstructionResult::InvalidJump));
    assert_eq!(ip.stack, words(&[2]));

    let mut ip = make_interp_with_jump(10, 7);
    ip.stack.push(Word { l0: 7, l1: 1, l2: 0, l3: 0 });
    ip.stack.push(w(0));
    pop_jump(&mut ip);
    assert_eq!(ip.halted, Some(InstructionResult::InvalidJump));
}

#[test]
fn pushes_stop_at_the_stack_limit() {
    let mut ip = make_interp(5);
    ip.code = vec![0x05, 0x00, 0x07, 0, 0];
    for i in 0..1023u64 {
        ip.stack.push(w(i));
    }
    push1_push1(&mut ip);
    assert_eq!(ip.halted, Some(InstructionResult::StackOverflow));
    assert_eq!(ip.stack.len(), 1024);
    assert_eq!(ip.stack.last(), Some(&w(5)));
}

#[test]
fn shifts_wrap_and_saturate() {
    // 1 << 255 stays, 1 << 256 is gone: PUSH1 imm SHL with imm = 0xff.
    let mut ip = make_interp(2);
    ip.code = vec![0xff, 0];
    ip.stack.push(w(1));
    push1_shl(&mut ip);
    assert_eq!(ip.stack, vec![Word { l0: 0, l1: 0, l2: 0, l3: 1 << 63 }]);

    // SHR by 256 or more gives zero.
    let mut ip = make_interp(2);
    ip.stack.push(w(0));
    ip.stack.push(w(u64::MAX));
    ip.stack.push(w(300));
    shr_shr_dup1_mul_dup1(&mut ip);
    assert_eq!(ip.stack, words(&[0, 0]));
}

/// The super-instruction a fusion pass writes does what the replaced run
/// did: `PUSH1 5 ADD SWAP1 POP` on `[9, 1]` leaves `[6]` (1 + 5 after the
/// swap drops 9) and ends past the window.
#[test]
fn fused_code_runs_like_the_plain_run() {
    let plain = vec![0x60, 0x05, 0x01, 0x90, 0x50, 0x00];
    let fused = do_code_fusion(&plain).unwrap();
    assert_eq!(fused, vec![0xB8, 0x05, 0xD0, 0xBB, 0xD0, 0x00]);

    let mut ip = interp_with_code(fused);
    push_all(&mut ip, &[9, 1]);
    ip.pc = 1;
    push1_add(&mut ip);
    assert_eq!(ip.stack, words(&[9, 6]));
    assert_eq!(ip.pc, 3);
    ip.pc += 1;
    swap1_pop(&mut ip);
    assert_eq!(ip.stack, words(&[6]));
    assert_eq!(ip.pc, 5);
    assert_eq!(ip.gas, u64::MAX - (3 + 3) - (3 + 2));
    assert_eq!(ip.halted, None);
}

#[test]
fn test_dup2_mstore_push1_add() {
    // initial stack: offset(0x20), val(0x0a)
    let mut ip = make_interp(10);
    ip.code = vec![0, 0, 7, 0, 0, 0, 0, 0, 0, 0];
    push_all(&mut ip, &[0x20, 0x0a]);
    dup2_mstore_push1_add(&mut ip);
    // offset should be 0x20+7=0x27 at top
    assert_eq!(ip.stack.last(), Some(&w(0x27)));
    assert_eq!(ip.pc, 4);
    assert_eq!(ip.stack, words(&[0x27]));
}

#[test]
fn dup2_mstore_push1_add_writes_and_charges_memory() {
    let mut ip = make_interp(10);
    ip.gas = 100;
    push_all(&mut ip, &[0x20, 0x0102]);
    dup2_mstore_push1_add(&mut ip);
    assert_eq!(ip.halted, None);
    assert_eq!(ip.memory.len(), 64);
    assert!(ip.memory[..62].iter().all(|b| *b == 0));
    assert_eq!(&ip.memory[62..], &[0x01, 0x02]);
    // 4 * VERYLOW, then two words of memory: 3 * 2 + 2 * 2 / 512.
    assert_eq!(ip.gas, 100 - 12 - 6);
}

#[test]
fn dup2_mstore_push1_add_failures() {
    let mut ip = make_interp(10);
    push_all(&mut ip, &[5]);
    dup2_mstore_push1_add(&mut ip);
    assert_eq!(ip.halted, Some(InstructionResult::StackUnderflow));
    assert!(ip.stack.is_empty());

    let mut ip = make_interp(10);
    ip.stack.push(Word { l0: 0, l1: 1, l2: 0, l3: 0 });
    ip.stack.push(w(1));
    dup2_mstore_push1_add(&mut ip);
    assert_eq!(ip.halted, Some(InstructionResult::InvalidOperandOOG));

    let mut ip = make_interp(10);
    ip.gas = 20;
    push_all(&mut ip, &[0x1000, 1]);
    dup2_mstore_push1_add(&mut ip);
    assert_eq!(ip.halted, Some(InstructionResult::MemoryOOG));
    assert!(ip.memory.is_empty());
}

/// The same run through block-wise fusion, which writes `SNOP` and skips
/// whole windows.
#[test]
fn block_fused_code_runs_like_the_plain_run() {
    let plain = vec![0x60, 0x05, 0x01, 0x90, 0x50, 0x00];
    let fused = do_basic_block_opcode_fusion(&plain).unwrap();
    assert_eq!(fused, vec![0xB8, 0x05, 0xB0, 0xBB, 0xB0, 0x00]);
    assert_eq!(handler_fusion(&plain).unwrap(), fused);

    let mut ip = interp_with_code(fused);
    push_all(&mut ip, &[9, 1]);
    ip.pc = 1;
    push1_add(&mut ip);
    assert_eq!(ip.stack, words(&[9, 6]));
    assert_eq!(ip.pc, 3);
    ip.pc += 1;
    swap1_pop(&mut ip);
    assert_eq!(ip.stack, words(&[6]));
    assert_eq!(ip.pc, 5);
    assert_eq!(ip.halted, None);
}
