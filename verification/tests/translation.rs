use paytube::transaction::PayTubeTransaction;
use paytube::{Bytes32, PayTubeError};

fn b32(x: u8) -> Bytes32 {
    Bytes32::new(vec![x; 32]).unwrap()
}

#[test]
fn test_bytes32_rejects_wrong_length() {
    assert_eq!(Bytes32::new(vec![1, 2, 3]), Err(PayTubeError::Construction));
    assert!(Bytes32::new(vec![0; 32]).is_ok());
}

#[test]
fn test_native_instruction_shape() {
    let alice = b32(1);
    let bob = b32(2);
    let tx = PayTubeTransaction { mint: None, from: alice, to: bob, amount: 2_000_000 };
    let ix = tx.to_instruction().unwrap();

    assert_eq!(ix.program_id.bytes, vec![0u8; 32]);
    assert_eq!(ix.accounts.len(), 2);
    assert_eq!(ix.accounts[0].pubkey.bytes, vec![1u8; 32]);
    assert!(ix.accounts[0].is_signer);
    assert!(ix.accounts[0].is_writable);
    assert_eq!(ix.accounts[1].pubkey.bytes, vec![2u8; 32]);
    assert!(!ix.accounts[1].is_signer);
    assert!(ix.accounts[1].is_writable);
    // variant 2 (little-endian u32), then 2_000_000 = 0x1E8480 (little-endian u64)
    assert_eq!(ix.data, vec![2, 0, 0, 0, 0x80, 0x84, 0x1E, 0, 0, 0, 0, 0]);
}

#[test]
fn test_native_instruction_matches_sdk() {
    let from = solana_sdk::pubkey::Pubkey::new_from_array([7u8; 32]);
    let to = solana_sdk::pubkey::Pubkey::new_from_array([8u8; 32]);
    let sdk_ix = solana_sdk::system_instruction::transfer(&from, &to, 123_456);

    let tx = PayTubeTransaction { mint: None, from: b32(7), to: b32(8), amount: 123_456 };
    let ix = tx.to_instruction().unwrap();

    assert_eq!(ix.program_id.bytes, sdk_ix.program_id.to_bytes().to_vec());
    assert_eq!(ix.data, sdk_ix.data);
    assert_eq!(ix.accounts.len(), sdk_ix.accounts.len());
    for (ours, theirs) in ix.accounts.iter().zip(sdk_ix.accounts.iter()) {
        assert_eq!(ours.pubkey.bytes, theirs.pubkey.to_bytes().to_vec());
        assert_eq!(ours.is_signer, theirs.is_signer);
        assert_eq!(ours.is_writable, theirs.is_writable);
    }
}

#[test]
fn test_token_instruction_matches_sdk() {
    let owner = solana_sdk::pubkey::Pubkey::new_from_array([3u8; 32]);
    let dest_owner = solana_sdk::pubkey::Pubkey::new_from_array([4u8; 32]);
    let mint = solana_sdk::pubkey::Pubkey::new_from_array([5u8; 32]);
    let source = spl_associated_token_account::get_associated_token_address(&owner, &mint);
    let destination = spl_associated_token_account::get_associated_token_address(&dest_owner, &mint);
    let sdk_ix = spl_token::instruction::transfer(
        &spl_token::id(),
        &source,
        &destination,
        &owner,
        &[],
        42,
    )
    .unwrap();

    let tx = PayTubeTransaction { mint: Some(b32(5)), from: b32(3), to: b32(4), amount: 42 };
    let ix = tx.to_instruction().unwrap();

    assert_eq!(ix.program_id.bytes, spl_token::id().to_bytes().to_vec());
    assert_eq!(ix.data, sdk_ix.data);
    assert_eq!(ix.data, vec![3, 42, 0, 0, 0, 0, 0, 0, 0]);
    assert_eq!(ix.accounts.len(), 3);
    assert_eq!(ix.accounts[0].pubkey.bytes, source.to_bytes().to_vec());
    assert_eq!(ix.accounts[1].pubkey.bytes, destination.to_bytes().to_vec());
    assert_eq!(ix.accounts[2].pubkey.bytes, vec![3u8; 32]);
    assert!(ix.accounts[2].is_signer);
    assert!(!ix.accounts[2].is_writable);
}

#[test]
fn test_token_derivation_deterministic() {
    let tx = PayTubeTransaction { mint: Some(b32(9)), from: b32(1), to: b32(2), amount: 5 };
    let once = tx.to_instruction().unwrap();
    let again = tx.to_instruction().unwrap();
    assert_eq!(once, again);
    // distinct owners derive distinct sub-accounts for the same mint
    assert_ne!(once.accounts[0].pubkey, once.accounts[1].pubkey);
}
