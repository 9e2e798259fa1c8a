use cyclic_product::accumulation::accumulation_schedule;
use cyclic_product::accumulation::chunk_public_inputs;
use cyclic_product::accumulation::compress;
use cyclic_product::accumulation::final_from_public_inputs;
use cyclic_product::accumulation::final_public_inputs;
use cyclic_product::accumulation::record_from_public_inputs;
use cyclic_product::accumulation::validate_chain;
use cyclic_product::chunk_record::constraints_hold;
use cyclic_product::chunk_record::try_chunk_step;
use cyclic_product::errors::GenerationError;
use cyclic_product::goldilocks::FIELD_ORDER;

fn mul_mod(a: u64, b: u64) -> u64 {
    ((a as u128 * b as u128) % FIELD_ORDER as u128) as u64
}

fn direct_product(first_factor: u64, n_factors: u32) -> u64 {
    let mut product: u64 = 1;
    let mut factor: u64 = first_factor;
    for _ in 0..n_factors {
        product = mul_mod(product, factor);
        factor = ((factor as u128 + 1) % FIELD_ORDER as u128) as u64;
    }
    product
}

#[test]
fn test_factorial_scenarios() {
    let scenarios: [(u64, u32, Option<u64>); 4] =
        [(1, 5, Some(120)), (1, 10, Some(3628800)), (42, 130, None), (42, 420, None)];
    for (first_factor, n_factors, known_product) in scenarios {
        let records = accumulation_schedule(n_factors, first_factor, 1).unwrap();
        let last = records[records.len() - 1];
        assert_eq!(last.n_factors, n_factors as u64);
        assert_eq!(last.remaining_after, 0);
        let expected = known_product.unwrap_or(direct_product(first_factor, n_factors));
        assert_eq!(last.product_after, expected);
        assert!(validate_chain(&records).is_ok());
        let final_record = compress(&last);
        assert_eq!(final_record.n_factors, n_factors as u64);
        assert_eq!(final_record.product, expected);
    }
}

#[test]
fn test_chunk_boundaries() {
    let cases: [(u32, usize); 7] = [(0, 1), (1, 1), (31, 1), (32, 1), (33, 2), (64, 2), (65, 3)];
    for (n_factors, expected_chunks) in cases {
        let records = accumulation_schedule(n_factors, 7, 1).unwrap();
        assert_eq!(records.len(), expected_chunks);
        let last = records[records.len() - 1];
        assert_eq!(last.product_after, direct_product(7, n_factors));
        assert_eq!(last.remaining_after, 0);
        assert!(validate_chain(&records).is_ok());
    }
}

#[test]
fn test_empty_run_keeps_starting_product() {
    let records = accumulation_schedule(0, 99, 1).unwrap();
    assert_eq!(records.len(), 1);
    assert_eq!(records[0].product_after, 1);
    assert_eq!(records[0].n_factors, 0);
    assert_eq!(records[0].remaining_after, 0);
}

#[test]
fn test_forged_base_case_fails() {
    assert_eq!(
        accumulation_schedule(5, 1, 7),
        Err(GenerationError::BaseCaseProductMismatch)
    );
    assert_eq!(
        try_chunk_step(5, 5, 1, 2),
        Err(GenerationError::BaseCaseProductMismatch)
    );
    let mut forged = accumulation_schedule(5, 1, 1).unwrap()[0];
    forged.product_before = 3;
    assert!(!constraints_hold(&forged));
}

#[test]
fn test_broken_linkage_is_rejected() {
    let mut records = accumulation_schedule(100, 2, 1).unwrap();
    assert!(validate_chain(&records).is_ok());
    let patched = records[1];
    records[1] = {
        let mut copy = patched;
        copy.product_before = mul_mod(patched.product_before, 2);
        copy
    };
    assert!(validate_chain(&records).is_err());
}

#[test]
fn test_chunk_public_input_order() {
    let records = accumulation_schedule(40, 3, 1).unwrap();
    let record = records[0];
    let inputs = chunk_public_inputs(&record);
    assert_eq!(
        inputs,
        vec![
            record.n_factors,
            record.remaining_before,
            record.remaining_after,
            record.first_factor_before,
            record.first_factor_after,
            record.product_before,
            record.product_after,
        ]
    );
    let decoded = record_from_public_inputs(&inputs).unwrap();
    assert_eq!(decoded, record);
    assert!(record_from_public_inputs(&vec![1, 2, 3]).is_err());
    assert!(record_from_public_inputs(&vec![FIELD_ORDER; 7]).is_err());
}

#[test]
fn test_final_public_input_order() {
    let records = accumulation_schedule(10, 1, 1).unwrap();
    let final_record = compress(&records[records.len() - 1]);
    let inputs = final_public_inputs(&final_record);
    assert_eq!(inputs, vec![10, 3628800]);
    assert_eq!(final_from_public_inputs(&inputs).unwrap(), final_record);
    assert!(final_from_public_inputs(&vec![10]).is_err());
    assert!(final_from_public_inputs(&vec![10, 20, 30]).is_err());
    assert!(final_from_public_inputs(&vec![FIELD_ORDER, 1]).is_err());
}
