use revm_fusion::bytecode::opcode as op;
use revm_fusion::bytecode::opcode_optimizer::{self as bytecode_pass, FusionError};
use revm_fusion::handler::opcode_optimizer::{
    self as handler_pass, BasicBlock, BlockType, do_basic_block_opcode_fusion, fuse_block, get_block_type,
    is_block_terminator,
};

#[test]
fn test_is_block_terminator() {
    assert_eq!(is_block_terminator(op::STOP), true);
    assert_eq!(is_block_terminator(op::RETURN), true);
    assert_eq!(is_block_terminator(op::REVERT), true);
    assert_eq!(is_block_terminator(op::SELFDESTRUCT), true);
    assert_eq!(is_block_terminator(op::JUMP), true);
    assert_eq!(is_block_terminator(op::JUMPI), true);

    assert_ne!(is_block_terminator(op::ADD), true);
    assert_ne!(is_block_terminator(op::GT), true);
    assert_ne!(is_block_terminator(op::ADDMOD), true);
    assert_ne!(is_block_terminator(op::LT), true);
    assert_ne!(is_block_terminator(op::PUSH1), true);
}

// ---------------------------------------------------------------------------
// Whole-code pass of the bytecode crate
// ---------------------------------------------------------------------------

#[test]
fn bytecode_pass_fuses_push1_add() {
    let code = [op::PUSH1, 0x05, op::ADD];
    let fused = bytecode_pass::do_code_fusion(&code).unwrap();
    assert_eq!(fused, vec![op::PUSH1ADD, 0x05, op::NOP]);
    // The input is left as it was.
    assert_eq!(code, [op::PUSH1, 0x05, op::ADD]);
}

#[test]
fn bytecode_pass_fuses_two_byte_runs() {
    let fused = bytecode_pass::do_code_fusion(&[op::SWAP1, op::POP]).unwrap();
    assert_eq!(fused, vec![op::SWAP1POP, op::NOP]);
    let fused = bytecode_pass::do_code_fusion(&[op::POP, op::POP, op::DUP2, op::LT]).unwrap();
    assert_eq!(fused, vec![op::POP2, op::NOP, op::DUP2LT, op::NOP]);
}

#[test]
fn bytecode_pass_resumes_after_window() {
    let code = [op::PUSH2, 0x00, 0x10, op::JUMP, op::SWAP1, op::POP];
    let fused = bytecode_pass::do_code_fusion(&code).unwrap();
    assert_eq!(fused, vec![op::PUSH2JUMP, 0x00, 0x10, op::NOP, op::SWAP1POP, op::NOP]);
    // The immediate 0xB0 of the second PUSH1 is never read as an opcode.
    let code = [op::PUSH1, 0x01, op::PUSH1, 0xB0];
    let fused = bytecode_pass::do_code_fusion(&code).unwrap();
    assert_eq!(fused, vec![op::PUSH1PUSH1, 0x01, op::NOP, 0xB0]);
}

#[test]
fn bytecode_pass_longest_rule_wins() {
    // PUSH1 _ PUSH1 _ PUSH1 _ SHL SUB: the eight-byte rule is tried before PUSH1 _ PUSH1.
    let code = [op::PUSH1, 1, op::PUSH1, 2, op::PUSH1, 3, op::SHL, op::SUB, op::STOP];
    let fused = bytecode_pass::do_code_fusion(&code).unwrap();
    assert_eq!(fused, vec![op::PUSH1PUSH1PUSH1SHLSUB, 1, op::NOP, 2, op::NOP, 3, op::NOP, op::NOP, op::STOP]);
}

#[test]
fn bytecode_pass_stops_at_invalid() {
    let code = [op::INVALID, op::SWAP1, op::POP];
    assert_eq!(bytecode_pass::do_code_fusion(&code).unwrap(), code.to_vec());
    let code = [op::SWAP1, op::POP, op::INVALID, op::SWAP1, op::POP];
    assert_eq!(
        bytecode_pass::do_code_fusion(&code).unwrap(),
        vec![op::SWAP1POP, op::NOP, op::INVALID, op::SWAP1, op::POP]
    );
}

#[test]
fn bytecode_pass_rejects_super_instructions() {
    let code = [op::STOP, op::PUSH2JUMP];
    assert_eq!(bytecode_pass::do_code_fusion(&code).unwrap_err(), FusionError::FailPreprocessing);
    // Inside push data the byte is not visited.
    let code = [op::PUSH1, op::PUSH2JUMP];
    assert_eq!(bytecode_pass::do_code_fusion(&code).unwrap(), code.to_vec());
    // Every super-instruction of this pass lies in 0xB0..=0xC8 and is rejected.
    let code = [op::PUSH1CALLDATALOADPUSH1SHRDUP1PUSH4GTPUSH2];
    assert_eq!(bytecode_pass::do_code_fusion(&code).unwrap_err(), FusionError::FailPreprocessing);
    let code = [op::SWAP1PUSH1DUP1NOTSWAP2ADDANDDUP2ADDSWAP1DUP2LT];
    assert_eq!(bytecode_pass::do_code_fusion(&code).unwrap_err(), FusionError::FailPreprocessing);
    // Above 0xC8 the bytecode pass does not look.
    let code = [op::SUBSLTISZEROPUSH2];
    assert_eq!(bytecode_pass::do_code_fusion(&code).unwrap(), code.to_vec());
}

#[test]
fn bytecode_pass_empty_code() {
    assert_eq!(bytecode_pass::do_code_fusion(&[]).unwrap(), Vec::<u8>::new());
}

#[test]
fn skip_steps_of_both_passes() {
    let code = [op::PUSH1, op::PUSH32, op::PUSH2JUMP, op::PUSH1ADD, op::JUMPIFZERO, op::SUBSLTISZEROPUSH2, op::ADD];
    assert_eq!(bytecode_pass::calculate_skip_steps(&code, 0), Some(1));
    assert_eq!(bytecode_pass::calculate_skip_steps(&code, 1), Some(32));
    assert_eq!(bytecode_pass::calculate_skip_steps(&code, 2), Some(3));
    assert_eq!(bytecode_pass::calculate_skip_steps(&code, 3), Some(2));
    assert_eq!(bytecode_pass::calculate_skip_steps(&code, 4), Some(4));
    assert_eq!(bytecode_pass::calculate_skip_steps(&code, 5), None);
    assert_eq!(bytecode_pass::calculate_skip_steps(&code, 6), None);
    assert_eq!(handler_pass::calculate_skip_steps(&code, 5), Some(5));
    let code = [op::SWAP2SWAP1DUP3SUBSWAP2DUP3GTPUSH2];
    assert_eq!(handler_pass::calculate_skip_steps(&code, 0), Some(9));
    assert_eq!(bytecode_pass::calculate_skip_steps(&code, 0), None);
    // Every fused opcode that carries immediates skips all of them.
    let code = [op::ISZEROPUSH2, op::DUP2MSTOREPUSH1ADD, op::DUP1PUSH4EQPUSH2, op::PUSH1PUSH1];
    assert_eq!(handler_pass::calculate_skip_steps(&code, 0), Some(3));
    assert_eq!(handler_pass::calculate_skip_steps(&code, 1), Some(4));
    assert_eq!(handler_pass::calculate_skip_steps(&code, 2), Some(9));
    assert_eq!(handler_pass::calculate_skip_steps(&code, 3), Some(3));
    let code = [op::SUBSLTISZEROPUSH2, op::SNOP, op::SNOP, op::SNOP, 0x12, 0x34];
    assert_eq!(handler_pass::calculate_skip_steps(&code, 0), Some(5));
}

// ---------------------------------------------------------------------------
// Whole-code pass of the handler
// ---------------------------------------------------------------------------

#[test]
fn handler_pass_uses_snop_and_skips_whole_window() {
    let code = [op::PUSH2, 0x00, 0x10, op::JUMP, op::SWAP1, op::POP];
    let fused = handler_pass::do_code_fusion(&code).unwrap();
    assert_eq!(fused, vec![op::PUSH2JUMP, 0x00, 0x10, op::SNOP, op::SWAP1POP, op::SNOP]);
}

#[test]
fn handler_pass_knows_more_rules() {
    let code = [op::DUP3, op::AND];
    assert_eq!(handler_pass::do_code_fusion(&code).unwrap(), vec![op::DUP3AND, op::SNOP]);
    assert_eq!(bytecode_pass::do_code_fusion(&code).unwrap(), code.to_vec());
    let code = [op::SWAP3, op::POP, op::POP, op::POP];
    assert_eq!(
        handler_pass::do_code_fusion(&code).unwrap(),
        vec![op::SWAP3POPPOPPOP, op::SNOP, op::SNOP, op::SNOP]
    );
}

#[test]
fn handler_pass_resumes_after_long_window() {
    // SUB SLT ISZERO PUSH2 spans six bytes; the PUSH1 after it keeps its immediate.
    let code = [op::SUB, op::SLT, op::ISZERO, op::PUSH2, 0x00, 0x10, op::PUSH1, 0x90, op::POP];
    let fused = handler_pass::do_code_fusion(&code).unwrap();
    assert_eq!(fused, vec![op::SUBSLTISZEROPUSH2, op::SNOP, op::SNOP, op::SNOP, 0x00, 0x10, op::PUSH1, 0x90, op::POP]);
}

#[test]
fn handler_long_rules_need_a_byte_after_the_window() {
    // SUB SLT ISZERO PUSH2 _ _ at the very end is not fused; ISZERO PUSH2 is.
    let code = [op::SUB, op::SLT, op::ISZERO, op::PUSH2, 0x00, 0x10];
    let fused = handler_pass::do_code_fusion(&code).unwrap();
    assert_eq!(fused, vec![op::SUB, op::SLT, op::ISZEROPUSH2, op::SNOP, 0x00, 0x10]);
    let code = [op::SUB, op::SLT, op::ISZERO, op::PUSH2, 0x00, 0x10, op::STOP];
    let fused = handler_pass::do_code_fusion(&code).unwrap();
    assert_eq!(fused[0], op::SUBSLTISZEROPUSH2);
}

#[test]
fn handler_pass_rejects_up_to_0xd0() {
    let code = [op::PUSH1CALLDATALOADPUSH1SHRDUP1PUSH4GTPUSH2];
    assert_eq!(handler_pass::do_code_fusion(&code).unwrap_err(), FusionError::FailPreprocessing);
    let code = [0xD0];
    assert_eq!(handler_pass::do_code_fusion(&code).unwrap_err(), FusionError::FailPreprocessing);
    let code = [0xD1];
    assert_eq!(handler_pass::do_code_fusion(&code).unwrap(), code.to_vec());
}

// ---------------------------------------------------------------------------
// Basic blocks
// ---------------------------------------------------------------------------

#[test]
fn blocks_of_small_program() {
    let code = [op::PUSH1, 0x01, op::JUMPI, op::JUMPDEST, op::STOP, op::INVALID, op::ADD];
    let blocks = BasicBlock::generate(&code);
    assert_eq!(blocks.len(), 3);
    assert_eq!((blocks[0].start_pc, blocks[0].end_pc, blocks[0].is_jump_dest), (0, 3, false));
    assert_eq!(blocks[0].opcodes, vec![op::PUSH1, 0x01, op::JUMPI]);
    assert_eq!((blocks[1].start_pc, blocks[1].end_pc, blocks[1].is_jump_dest), (3, 5, true));
    assert_eq!(blocks[1].opcodes, vec![op::JUMPDEST, op::STOP]);
    assert_eq!((blocks[2].start_pc, blocks[2].end_pc, blocks[2].is_jump_dest), (5, 7, false));
    assert_eq!(blocks[2].opcodes, vec![op::INVALID, op::ADD]);

    assert_eq!(get_block_type(&blocks[0], &blocks, 0), BlockType::EntryBB);
    assert_eq!(get_block_type(&blocks[1], &blocks, 1), BlockType::JumpDest);
    assert_eq!(get_block_type(&blocks[2], &blocks, 2), BlockType::Others);
}

#[test]
fn blocks_of_empty_code() {
    assert!(BasicBlock::generate(&[]).is_empty());
}

#[test]
fn jumpdest_inside_push_data_does_not_start_a_block() {
    let code = [op::PUSH1, op::JUMPDEST, op::ADD];
    let blocks = BasicBlock::generate(&code);
    assert_eq!(blocks.len(), 1);
    assert_eq!((blocks[0].start_pc, blocks[0].end_pc), (0, 3));
}

#[test]
fn truncated_push_ends_the_last_block() {
    let code = [op::ADD, op::PUSH4, 0x01];
    let blocks = BasicBlock::generate(&code);
    assert_eq!(blocks.len(), 1);
    assert_eq!(blocks[0].end_pc, 3);
    assert_eq!(blocks[0].opcodes, code.to_vec());
}

#[test]
fn block_types() {
    let empty = BasicBlock { start_pc: 4, end_pc: 4, opcodes: vec![], is_jump_dest: false };
    assert_eq!(get_block_type(&empty, &[], 0), BlockType::Empty);
    let blocks = vec![
        BasicBlock { start_pc: 0, end_pc: 1, opcodes: vec![op::JUMPI], is_jump_dest: false },
        BasicBlock { start_pc: 1, end_pc: 2, opcodes: vec![op::ADD], is_jump_dest: false },
    ];
    assert_eq!(get_block_type(&blocks[1], &blocks, 1), BlockType::ConditionalFallthrough);
}

#[test]
fn fuse_block_rewrites_only_the_block() {
    let mut code = vec![op::SWAP1, op::POP, op::SWAP1, op::POP];
    let block = BasicBlock { start_pc: 2, end_pc: 4, opcodes: vec![op::SWAP1, op::POP], is_jump_dest: false };
    fuse_block(&mut code, &block).unwrap();
    assert_eq!(code, vec![op::SWAP1, op::POP, op::SWAP1POP, op::SNOP]);

    let mut code = vec![op::SWAP1, 0xB8];
    let block = BasicBlock { start_pc: 0, end_pc: 2, opcodes: vec![op::SWAP1, 0xB8], is_jump_dest: false };
    assert_eq!(fuse_block(&mut code, &block), Err(FusionError::FailPreprocessing));
    assert_eq!(code, vec![op::SWAP1, 0xB8]);
}

// ---------------------------------------------------------------------------
// Block-wise fusion
// ---------------------------------------------------------------------------

#[test]
fn block_fusion_skips_other_blocks() {
    let code = [op::SWAP1, op::POP, op::JUMPDEST, op::SWAP1, op::POP, op::STOP, op::SWAP1, op::POP];
    let fused = do_basic_block_opcode_fusion(&code).unwrap();
    assert_eq!(
        fused,
        vec![op::SWAP1POP, op::SNOP, op::JUMPDEST, op::SWAP1POP, op::SNOP, op::STOP, op::SWAP1, op::POP]
    );
}

#[test]
fn block_fusion_enters_fallthrough_of_jumpi() {
    let code = [op::SWAP1, op::POP, op::JUMPDEST, op::SWAP1, op::POP, op::JUMPI, op::SWAP1, op::POP];
    let fused = do_basic_block_opcode_fusion(&code).unwrap();
    assert_eq!(
        fused,
        vec![op::SWAP1POP, op::SNOP, op::JUMPDEST, op::SWAP1POP, op::SNOP, op::JUMPI, op::SWAP1POP, op::SNOP]
    );
}

#[test]
fn block_fusion_leaves_blocks_with_invalid() {
    let code = [op::JUMPI, op::INVALID, op::SWAP1, op::POP];
    assert_eq!(do_basic_block_opcode_fusion(&code).unwrap(), code.to_vec());
    let code = [op::INVALID, op::SWAP1, op::POP];
    assert_eq!(do_basic_block_opcode_fusion(&code).unwrap(), code.to_vec());
}

#[test]
fn block_fusion_errors() {
    assert_eq!(do_basic_block_opcode_fusion(&[]), Err(FusionError::FailPreprocessing));
    let code = [op::SWAP1, op::POP, op::SWAP1POP];
    assert_eq!(do_basic_block_opcode_fusion(&code), Err(FusionError::FailPreprocessing));
    // A super-instruction in a block that is never fused aborts the fusion too.
    let code = [op::STOP, op::SWAP1, op::SWAP1POP];
    assert_eq!(do_basic_block_opcode_fusion(&code), Err(FusionError::FailPreprocessing));
    let code = [op::STOP, 0xB0];
    assert_eq!(do_basic_block_opcode_fusion(&code), Err(FusionError::FailPreprocessing));
}

#[test]
fn bytecode_pass_keeps_immediates() {
    // The walk resumes after the PUSH1 _ PUSH1 _ window, so the immediate
    // 0x90 is not read as SWAP1 and fused with the POP after it.
    let code = [op::PUSH1, 0x01, op::PUSH1, 0x90, op::POP];
    let fused = bytecode_pass::do_code_fusion(&code).unwrap();
    assert_eq!(fused, vec![op::PUSH1PUSH1, 0x01, op::NOP, 0x90, op::POP]);
    let code = [
        op::PUSH1, 0x00, op::CALLDATALOAD, op::PUSH1, 0xE0, op::SHR, op::DUP1, op::PUSH4, 1, 2, 3, 4, op::GT,
        op::PUSH2, 0x00, 0x60, 0x05, op::ADD, op::STOP,
    ];
    let fused = bytecode_pass::do_code_fusion(&code).unwrap();
    assert_eq!(
        fused,
        vec![
            op::PUSH1CALLDATALOADPUSH1SHRDUP1PUSH4GTPUSH2, 0x00, op::NOP, op::NOP, 0xE0, op::NOP, op::NOP,
            op::NOP, 1, 2, 3, 4, op::NOP, op::NOP, 0x00, 0x60, 0x05, op::ADD, op::STOP,
        ]
    );
}

#[test]
fn fused_output_is_rejected_when_fed_back() {
    let fused = bytecode_pass::do_code_fusion(&[op::POP, op::JUMP]).unwrap();
    assert_eq!(fused, vec![op::POPJUMP, op::NOP]);
    assert_eq!(bytecode_pass::do_code_fusion(&fused), Err(FusionError::FailPreprocessing));
    let fused = handler_pass::do_code_fusion(&[op::DUP3, op::AND]).unwrap();
    assert_eq!(handler_pass::do_code_fusion(&fused), Err(FusionError::FailPreprocessing));
}

#[test]
fn passes_fail_exactly_where_decoding_meets_a_super_instruction() {
    // Decoding reads PUSH1 0xB5, then 0xB5 as an opcode.
    let code = [op::PUSH1, op::PUSH2JUMP, op::PUSH2JUMP];
    assert_eq!(bytecode_pass::do_code_fusion(&code), Err(FusionError::FailPreprocessing));
    assert_eq!(handler_pass::do_code_fusion(&code), Err(FusionError::FailPreprocessing));
    // After INVALID nothing is read.
    let code = [op::PUSH1, op::PUSH2JUMP, op::INVALID, op::PUSH2JUMP];
    assert_eq!(bytecode_pass::do_code_fusion(&code).unwrap(), code.to_vec());
    assert_eq!(handler_pass::do_code_fusion(&code).unwrap(), code.to_vec());
}

#[test]
fn block_starts_follow_terminators_and_jumpdests() {
    // JUMP ends a block; PUSH2's immediates hide a JUMPDEST byte.
    let code = [op::JUMP, op::PUSH2, op::JUMPDEST, op::INVALID, op::ADD, op::JUMPDEST, op::STOP];
    let blocks = BasicBlock::generate(&code);
    let starts: Vec<usize> = blocks.iter().map(|b| b.start_pc).collect();
    assert_eq!(starts, vec![0, 1, 5]);
    assert_eq!(blocks[2].is_jump_dest, true);
}

#[test]
fn single_block_fusion_is_whole_code_fusion() {
    let code = [op::SWAP1, op::POP, op::PUSH1, 0x05, op::ADD];
    assert_eq!(BasicBlock::generate(&code).len(), 1);
    let fused = do_basic_block_opcode_fusion(&code).unwrap();
    assert_eq!(fused, vec![op::SWAP1POP, op::SNOP, op::PUSH1ADD, 0x05, op::SNOP]);
    assert_eq!(handler_pass::do_code_fusion(&code).unwrap(), fused);
    let code = [op::INVALID, op::SWAP1, op::POP];
    assert_eq!(BasicBlock::generate(&code).len(), 1);
    assert_eq!(do_basic_block_opcode_fusion(&code).unwrap(), code.to_vec());
    assert_eq!(handler_pass::do_code_fusion(&code).unwrap(), code.to_vec());
}
