use cyclic_product::fe_add;
use cyclic_product::fe_mul;
use cyclic_product::goldilocks::FIELD_ORDER;
use cyclic_product::ConsecutiveProduct;

fn mul_mod(a: u64, b: u64) -> u64 {
    ((a as u128 * b as u128) % FIELD_ORDER as u128) as u64
}

#[test]
fn test_field_arithmetic() {
    assert_eq!(fe_add(2, 3), 5);
    assert_eq!(fe_add(FIELD_ORDER - 1, 1), 0);
    assert_eq!(fe_add(FIELD_ORDER - 1, FIELD_ORDER - 1), FIELD_ORDER - 2);
    assert_eq!(fe_mul(6, 7), 42);
    assert_eq!(fe_mul(FIELD_ORDER - 1, 2), FIELD_ORDER - 2);
    assert_eq!(fe_mul(FIELD_ORDER - 1, FIELD_ORDER - 1), 1);
}

#[test]
fn test_consecutive_product_values() {
    let run = ConsecutiveProduct::new(3, 4);
    assert_eq!(run.n_factors(), 4);
    assert_eq!(run.first_factor(), 3);
    assert_eq!(run.clone_product_values(), vec![1, 3, 12, 60, 360]);
    assert_eq!(run.partial_product(0), Some(1));
    assert_eq!(run.partial_product(2), Some(12));
    assert_eq!(run.partial_product(5), None);
    assert_eq!(run.final_product(), 360);
    assert_eq!(ConsecutiveProduct::new(1, 5).final_product(), 120);
}

#[test]
fn test_prod_1000() {
    const N_FACTORS: usize = 1000;
    const N_TESTS: usize = 10;

    fn product_direct_computation(first_factor: u64) -> u64 {
        let mut product: u64 = 1;
        let mut factor: u64 = first_factor;
        for _ in 0..N_FACTORS {
            product = mul_mod(product, factor);
            factor = ((factor as u128 + 1) % FIELD_ORDER as u128) as u64;
        }
        product
    }

    for _ in 0..N_TESTS {
        let first_factor: u64 = rand::random::<u16>() as u64;
        let run = ConsecutiveProduct::new(first_factor, N_FACTORS);
        assert_eq!(run.final_product(), product_direct_computation(first_factor));
    }
}
