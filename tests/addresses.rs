use melminter::address::{fallback_sweep_address, is_null_address, new_null_dst, new_void_address, FALLBACK_SWEEP_ADDRESS};

#[test]
fn test_nva_test() {
    for i in 0..10000 {
        println!("VA-{}: {:?}", i + 1, new_void_address());
    }
}

#[test]
fn test_nnd_test() {
    for i in 0..1 {
        println!("null[{}] {:?}", i + 1, new_null_dst(1000));
    }
}

#[test]
fn main_nnd_test() {
    for i in 0..1 {
        println!("null[{}] {:?}", i + 1, new_null_dst(1000));
    }
}

#[test]
fn void_addresses_differ() {
    let a = new_void_address();
    let b = new_void_address();
    assert_ne!(a, b);
}

#[test]
fn null_destination_gives_up_after_no_tries() {
    assert_eq!(new_null_dst(0), None);
}

#[test]
fn fallback_address_parses() {
    let a = fallback_sweep_address();
    let expected = FALLBACK_SWEEP_ADDRESS.parse::<themelio_stf::melvm::Address>().unwrap();
    assert_eq!(a, Some((expected.0).0));
    assert_ne!(a.unwrap(), [0u8; 32]);
}

#[test]
fn null_address_test_reads_the_address_text() {
    for seed in 0..50u8 {
        let a = [seed; 32];
        let text = themelio_stf::melvm::Address(tmelcrypt::HashVal(a)).to_string();
        assert_eq!(is_null_address(&a), text.starts_with("t0000"));
    }
    let v = new_void_address();
    let text = themelio_stf::melvm::Address(tmelcrypt::HashVal(v)).to_string();
    assert_eq!(is_null_address(&v), text.starts_with("t0000"));
}
