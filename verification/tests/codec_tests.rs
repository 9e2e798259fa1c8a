use cyclic_product::accumulation::accumulation_schedule;
use cyclic_product::accumulation::compress;
use cyclic_product::accumulation::final_public_inputs;
use cyclic_product::accumulation::verify_final_payload;
use cyclic_product::codec::decode_public_inputs;
use cyclic_product::codec::encode_public_inputs;
use cyclic_product::errors::VerificationError;

#[test]
fn test_encode_decode_round_trip() {
    let words = vec![0u64, 1, 0xFF, 0x1234_5678_9ABC_DEF0, u64::MAX];
    let bytes = encode_public_inputs(&words);
    assert_eq!(bytes.len(), words.len() * 8);
    assert_eq!(decode_public_inputs(&bytes).unwrap(), words);
}

#[test]
fn test_decode_rejects_truncated_buffers() {
    assert!(decode_public_inputs(&vec![1u8; 7]).is_err());
    assert!(decode_public_inputs(&vec![1u8; 9]).is_err());
    assert!(decode_public_inputs(&vec![]).is_ok());
}

#[test]
fn test_tampered_public_output_byte_changes_decoded_values() {
    let records = accumulation_schedule(10, 1, 1).unwrap();
    let final_record = compress(&records[records.len() - 1]);
    let inputs = final_public_inputs(&final_record);
    let bytes = encode_public_inputs(&inputs);
    for position in 0..bytes.len() {
        let mut tampered = bytes.clone();
        tampered[position] ^= 1;
        let decoded = decode_public_inputs(&tampered).unwrap();
        assert_ne!(decoded, inputs);
    }
}

#[test]
fn test_verify_final_payload_is_idempotent() {
    let records = accumulation_schedule(5, 1, 1).unwrap();
    let final_record = compress(&records[records.len() - 1]);
    let bytes = encode_public_inputs(&final_public_inputs(&final_record));
    let first_result = verify_final_payload(&bytes);
    let second_result = verify_final_payload(&bytes);
    assert_eq!(first_result, second_result);
    assert_eq!(first_result.unwrap(), final_record);
}

#[test]
fn test_verify_final_payload_rejects_malformed_proofs() {
    let malformed = verify_final_payload(&vec![1u8; 15]);
    assert!(matches!(malformed, Err(VerificationError::Malformed(_))));
    let wrong_count = verify_final_payload(&vec![0u8; 24]);
    assert!(matches!(wrong_count, Err(VerificationError::Malformed(_))));
    let non_canonical = encode_public_inputs(&vec![u64::MAX, 0]);
    assert!(matches!(
        verify_final_payload(&non_canonical),
        Err(VerificationError::Malformed(_))
    ));
}
