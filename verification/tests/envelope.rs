use paytube::transaction::PayTubeTransaction;
use paytube::utils::{
    settlement_id, settlement_request, settlement_request_with_gas_price, WVM_GAS_PRICE,
};
use paytube::wvm::{from_canonical_bytes, WvmData};
use paytube::{Bytes32, PayTubeError, SolAccountMeta, SvmInstruction};

fn b32(x: u8) -> Bytes32 {
    Bytes32::new(vec![x; 32]).unwrap()
}

fn sample_envelope() -> WvmData {
    let native = PayTubeTransaction { mint: None, from: b32(1), to: b32(2), amount: 2_000_000 };
    let token =
        PayTubeTransaction { mint: Some(b32(9)), from: b32(2), to: b32(1), amount: 77 };
    let instructions = vec![
        native.to_instruction().unwrap(),
        token.to_instruction().unwrap(),
    ];
    WvmData::from(instructions, b32(1), b32(42))
}

#[test]
fn test_canonical_bytes_exact() {
    let ix = SvmInstruction {
        program_id: b32(7),
        accounts: vec![SolAccountMeta { pubkey: b32(9), is_signer: true, is_writable: false }],
        data: vec![1, 2, 3],
    };
    let envelope = WvmData::from(vec![ix], b32(4), b32(5));
    let bytes = envelope.to_canonical_bytes();

    let mut expected: Vec<u8> = Vec::new();
    expected.extend_from_slice(&[1, 0, 0, 0]); // one instruction
    expected.extend_from_slice(&[7; 32]); // program identity
    expected.extend_from_slice(&[1, 0, 0, 0]); // one account reference
    expected.extend_from_slice(&[9; 32]); // its identity
    expected.extend_from_slice(&[1, 0]); // signer, not writable
    expected.extend_from_slice(&[3, 0, 0, 0]); // data length
    expected.extend_from_slice(&[1, 2, 3]); // data
    expected.extend_from_slice(&[4; 32]); // payer
    expected.extend_from_slice(&[5; 32]); // block hash
    assert_eq!(bytes, expected);
}

#[test]
fn test_canonical_round_trip() {
    let envelope = sample_envelope();
    let bytes = envelope.to_canonical_bytes();
    let decoded = from_canonical_bytes(&bytes).unwrap();
    assert_eq!(decoded, envelope);
}

#[test]
fn test_serialize_deserialize_round_trip() {
    let envelope = sample_envelope();
    let payload = WvmData::serialize(sample_envelope());
    let decoded = WvmData::deserialize(&payload).unwrap();
    assert_eq!(decoded, envelope);
}

#[test]
fn test_serialize_deterministic() {
    let once = WvmData::serialize(sample_envelope());
    let again = WvmData::serialize(sample_envelope());
    assert_eq!(once, again);
}

#[test]
fn test_serialize_really_compresses() {
    // the payload is the Brotli compression of the canonical bytes, not the
    // canonical bytes themselves
    let canonical = sample_envelope().to_canonical_bytes();
    let payload = WvmData::serialize(sample_envelope());
    assert_ne!(payload, canonical);

    let mut writer = brotlic::DecompressorWriter::new(Vec::new());
    std::io::Write::write_all(&mut writer, &payload).unwrap();
    let decompressed = writer.into_inner().unwrap();
    assert_eq!(decompressed, canonical);
}

#[test]
fn test_empty_batch_round_trips() {
    let envelope = WvmData::from(Vec::new(), b32(4), b32(5));
    let bytes = envelope.to_canonical_bytes();
    assert_eq!(bytes.len(), 68);
    let decoded = from_canonical_bytes(&bytes).unwrap();
    assert_eq!(decoded, envelope);
}

#[test]
fn test_decode_rejects_corrupt_bytes() {
    let envelope = sample_envelope();
    let mut bytes = envelope.to_canonical_bytes();

    // truncated input
    let truncated: Vec<u8> = bytes[..bytes.len() - 1].to_vec();
    assert_eq!(from_canonical_bytes(&truncated), Err(PayTubeError::Encoding));

    // a flag byte that is neither 0 nor 1 (first account flag of the first
    // instruction: count, program, account count, identity)
    bytes[4 + 32 + 4 + 32] = 7;
    assert_eq!(from_canonical_bytes(&bytes), Err(PayTubeError::Encoding));

    // trailing garbage
    let mut padded = envelope.to_canonical_bytes();
    padded.push(0);
    assert_eq!(from_canonical_bytes(&padded), Err(PayTubeError::Encoding));
}

#[test]
fn test_settlement_request_policy() {
    let request = settlement_request(vec![1, 2, 3]);
    assert_eq!(request.data, vec![1, 2, 3]);
    assert_eq!(request.value, 0);
    assert_eq!(request.gas_price, WVM_GAS_PRICE);
    assert_eq!(request.gas_price, 2_140_000_000);

    let custom = settlement_request_with_gas_price(vec![4], 7);
    assert_eq!(custom.gas_price, 7);
    assert_eq!(custom.value, 0);
}

#[test]
fn test_settlement_id_never_partial() {
    assert_eq!(settlement_id(Some(String::from("0xabc"))), Ok(String::from("0xabc")));
    assert_eq!(settlement_id(None), Err(PayTubeError::Submission));
}
