use revm_fusion::benchmark::{get_500k_scale_config_conservative, median};

#[test]
fn scale_config() {
    assert_eq!(get_500k_scale_config_conservative(), (10_000, 100_000_000_000, 1_000_000_000_000));
}

#[test]
fn median_of_odd_count() {
    assert_eq!(median(&[3, 1, 2]), 2);
    assert_eq!(median(&[5]), 5);
}

#[test]
fn median_of_even_count() {
    assert_eq!(median(&[4, 1, 3, 2]), 2);
    assert_eq!(median(&[10, 20]), 15);
}

#[test]
fn median_of_even_count_is_cut_to_64_bits() {
    let big: u128 = 1 << 65;
    assert_eq!(median(&[big, big]), 0);
    assert_eq!(median(&[big]), big);
}

use revm_fusion::benchmark::analysis::{
    count_push1_add_patterns, count_super_instructions, super_instruction_breakdown,
};
use revm_fusion::benchmark::bytecode_text::parse_bytecode_hex;
use revm_fusion::benchmark::calldata::{
    balance_of_calldata, decode_balance, gas_per_transfer, mint_address_uint256_calldata,
    mint_uint256_calldata, total_mint_amount, transfer_calldata, transfer_recipient,
};
use revm_fusion::interpreter::word::Word;

#[test]
fn parse_plain_hex() {
    assert_eq!(parse_bytecode_hex("6001600201"), Some(vec![0x60, 0x01, 0x60, 0x02, 0x01]));
}

#[test]
fn parse_hex_with_prefix_and_white_space() {
    assert_eq!(parse_bytecode_hex("  0x60aB\n"), Some(vec![0x60, 0xab]));
    assert_eq!(parse_bytecode_hex("\t0X60ff \r\n"), Some(vec![0x60, 0xff]));
    assert_eq!(parse_bytecode_hex("\u{3000}6001\u{a0}"), Some(vec![0x60, 0x01]));
}

#[test]
fn parse_hex_prefix_twice() {
    // The loader drops `0x`, and the decoder drops a second one.
    assert_eq!(parse_bytecode_hex("0x0x6001"), Some(vec![0x60, 0x01]));
}

#[test]
fn parse_empty_text() {
    assert_eq!(parse_bytecode_hex(""), Some(vec![]));
    assert_eq!(parse_bytecode_hex("   "), Some(vec![]));
    assert_eq!(parse_bytecode_hex("0x"), Some(vec![]));
}

#[test]
fn parse_rejects_bad_hex() {
    assert_eq!(parse_bytecode_hex("600"), None);
    assert_eq!(parse_bytecode_hex("60zz"), None);
    assert_eq!(parse_bytecode_hex("60 01"), None);
}

#[test]
fn counts_super_instruction_range() {
    let code = [0xB0, 0x60, 0xCF, 0xD0, 0xAF, 0xB5, 0xB5];
    assert_eq!(count_super_instructions(&code), 4);
    assert_eq!(count_super_instructions(&[]), 0);
}

#[test]
fn breakdown_orders_by_count_then_opcode() {
    let code = [0xBC, 0xB1, 0xBC, 0xB1, 0xB0, 0xCD, 0xCD, 0xCD, 0x60, 0xBC];
    assert_eq!(super_instruction_breakdown(&code), vec![(0xBC, 3), (0xB1, 2), (0xB0, 1)]);
    assert_eq!(super_instruction_breakdown(&[0x01, 0x02]), vec![]);
}

#[test]
fn push1_add_patterns() {
    assert_eq!(count_push1_add_patterns(&[0x60, 0x05, 0x01, 0x60, 0x07, 0x01, 0x00]), 2);
    assert_eq!(count_push1_add_patterns(&[0x60, 0x05, 0x02]), 0);
    assert_eq!(count_push1_add_patterns(&[]), 0);
    assert_eq!(count_push1_add_patterns(&[0x60]), 0);
}

#[test]
fn mint_calldata_layout() {
    let d = mint_uint256_calldata(Word::from_u64(0x0102));
    assert_eq!(d.len(), 36);
    assert_eq!(&d[..4], &[0xa0, 0x71, 0x2d, 0x68]);
    assert!(d[4..34].iter().all(|b| *b == 0));
    assert_eq!(&d[34..], &[0x01, 0x02]);
}

#[test]
fn mint_to_address_calldata_layout() {
    let to = [0x11u8; 20];
    let d = mint_address_uint256_calldata(&to, Word::from_u64(7));
    assert_eq!(d.len(), 68);
    assert_eq!(&d[..4], &[0x40, 0xc1, 0x0f, 0x19]);
    assert_eq!(&d[4..16], &[0u8; 12]);
    assert_eq!(&d[16..36], &to);
    assert_eq!(d[67], 7);
    assert!(d[36..67].iter().all(|b| *b == 0));
}

#[test]
fn balance_of_calldata_layout() {
    let account = [0x10, 0, 0, 0, 0, 0, 0, 0, 0, 0, 0, 0, 0, 0, 0, 0, 0, 0, 0, 1];
    let d = balance_of_calldata(&account);
    let mut expected = vec![0x70, 0xa0, 0x82, 0x31];
    expected.extend_from_slice(&[0u8; 12]);
    expected.extend_from_slice(&account);
    assert_eq!(d, expected);
}

#[test]
fn transfer_calldata_layout() {
    let to = [0x22u8; 20];
    let amount = Word { l0: 0, l1: 0, l2: 0, l3: 0x0100_0000_0000_0000 };
    let d = transfer_calldata(&to, amount);
    assert_eq!(d.len(), 68);
    assert_eq!(&d[..4], &[0xa9, 0x05, 0x9c, 0xbb]);
    assert_eq!(&d[16..36], &to);
    assert_eq!(d[36], 0x01);
    assert!(d[37..].iter().all(|b| *b == 0));
}

#[test]
fn balance_from_output() {
    let mut out = vec![0u8; 32];
    out[31] = 0x2a;
    out[30] = 0x01;
    out.push(0xff);
    assert_eq!(decode_balance(&out), Word::from_u64(0x012a));
    assert_eq!(decode_balance(&[1, 2, 3]), Word::zero());
}

#[test]
fn mint_amount_is_ten_million_tokens() {
    // 10^25 = 0x84595_161401484a000000
    assert_eq!(total_mint_amount(), Word { l0: 0x1614_0148_4a00_0000, l1: 0x8_4595, l2: 0, l3: 0 });
}

#[test]
fn recipients_count_up_from_the_first() {
    let mut first = vec![0u8; 20];
    first[0] = 0x30;
    first[19] = 0x01;
    assert_eq!(transfer_recipient(0), first);
    let mut later = first.clone();
    later[19] = 0x00;
    later[18] = 0x01;
    assert_eq!(transfer_recipient(255), later);
    let last = transfer_recipient(u64::MAX);
    assert_eq!(&last[..12], &[0x30, 0, 0, 0, 0, 0, 0, 0, 0, 0, 0, 0x01]);
    assert_eq!(&last[12..], &[0, 0, 0, 0, 0, 0, 0, 0]);
}

#[test]
fn gas_is_split_evenly() {
    assert_eq!(gas_per_transfer(100_000_000_000, 10_000), 10_000_000);
    assert_eq!(gas_per_transfer(10, 3), 3);
}
