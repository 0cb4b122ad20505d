use aggregator::exchange::format_biguint;
use aggregator::exchange::format_fixed_precision;

#[test]
fn test_format_biguint() {
    assert_eq!("0".as_bytes(), format_biguint(0).as_slice());
    assert_eq!(
        "1000000000".to_string(),
        String::from_utf8(format_biguint(1000000000u64 as u128).to_vec()).unwrap()
    );
    assert_eq!(
        "1234567890".to_string(),
        String::from_utf8(format_biguint(1234567890u64 as u128).to_vec()).unwrap()
    );
}

#[test]
fn test_format_fixed_precision() {
    assert_eq!(
        "0.00123".to_string(),
        String::from_utf8(format_fixed_precision(123, 5)).unwrap()
    );
    assert_eq!(
        "10000.00000".to_string(),
        String::from_utf8(format_fixed_precision(1000000000, 5)).unwrap()
    );
    assert_eq!(
        "2.0000".to_string(),
        String::from_utf8(format_fixed_precision(20000, 4)).unwrap()
    );
    assert_eq!("7.".to_string(), String::from_utf8(format_fixed_precision(7, 0)).unwrap());
}
