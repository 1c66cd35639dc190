use paytube::transaction::{create_svm_transactions, PayTubeTransaction};
use paytube::Bytes32;
use std::collections::HashMap;

fn b32(x: u8) -> Bytes32 {
    Bytes32::new(vec![x; 32]).unwrap()
}

fn native(from: u8, to: u8, amount: u64) -> PayTubeTransaction {
    PayTubeTransaction { mint: None, from: b32(from), to: b32(to), amount }
}

#[test]
fn test_empty_batch() {
    let out = create_svm_transactions(&Vec::new());
    assert!(out.is_empty());
}

#[test]
fn test_batch_order_and_payer() {
    let batch = vec![native(1, 2, 10), native(2, 3, 20), native(3, 1, 30)];
    let out = create_svm_transactions(&batch);
    assert_eq!(out.len(), 3);
    for (intent, built) in batch.iter().zip(out.iter()) {
        let tx = built.as_ref().unwrap();
        let msg = tx.message();
        // the fee payer is the intent's sender
        assert_eq!(
            msg.account_keys().get(0).unwrap().to_bytes().to_vec(),
            intent.from.bytes
        );
        // exactly one instruction, on the system program, with the intent's data
        let instructions: Vec<_> = msg.instructions().iter().collect();
        assert_eq!(instructions.len(), 1);
        let ci = instructions[0];
        let program = msg.account_keys().get(ci.program_id_index as usize).unwrap();
        assert_eq!(program.to_bytes(), [0u8; 32]);
        let mut expected = vec![2u8, 0, 0, 0];
        expected.extend_from_slice(&intent.amount.to_le_bytes());
        assert_eq!(ci.data, expected);
        // positional account order is the intent's (sender, recipient)
        let keys: Vec<Vec<u8>> = ci
            .accounts
            .iter()
            .map(|i| msg.account_keys().get(*i as usize).unwrap().to_bytes().to_vec())
            .collect();
        assert_eq!(keys, vec![intent.from.bytes.clone(), intent.to.bytes.clone()]);
    }
}

#[test]
fn test_sender_equal_to_program_rejected() {
    // a sender whose identity is the system program itself cannot fund the
    // transfer: sanitization refuses a program as its own fee payer, and the
    // failure stays confined to that element
    let degenerate = native(0, 2, 10);
    let fine = native(1, 2, 10);
    let out = create_svm_transactions(&vec![degenerate, fine]);
    assert_eq!(out.len(), 2);
    assert!(matches!(out[0], Err(paytube::PayTubeError::Validation)));
    assert!(out[1].is_ok());
}

#[test]
fn test_native_sol() {
    // Alice, Bob and Will all start with 10_000_000 and settle four transfers
    // in order; applying the built transactions sequentially nets to the
    // expected balances.
    let alice: u8 = 1;
    let bob: u8 = 2;
    let will: u8 = 3;
    let batch = vec![
        native(alice, bob, 2_000_000),
        native(bob, will, 5_000_000),
        native(alice, bob, 2_000_000),
        native(will, alice, 1_000_000),
    ];

    let out = create_svm_transactions(&batch);
    assert_eq!(out.len(), batch.len());

    let mut balances: HashMap<Vec<u8>, u64> = HashMap::new();
    balances.insert(vec![alice; 32], 10_000_000);
    balances.insert(vec![bob; 32], 10_000_000);
    balances.insert(vec![will; 32], 10_000_000);

    for built in &out {
        let tx = built.as_ref().unwrap();
        let msg = tx.message();
        let ci = &msg.instructions()[0];
        let from = msg.account_keys().get(ci.accounts[0] as usize).unwrap().to_bytes().to_vec();
        let to = msg.account_keys().get(ci.accounts[1] as usize).unwrap().to_bytes().to_vec();
        let amount = u64::from_le_bytes(ci.data[4..12].try_into().unwrap());
        *balances.get_mut(&from).unwrap() -= amount;
        *balances.get_mut(&to).unwrap() += amount;
    }

    assert_eq!(balances[&vec![alice; 32]], 7_000_000);
    assert_eq!(balances[&vec![bob; 32]], 9_000_000);
    assert_eq!(balances[&vec![will; 32]], 14_000_000);
}
