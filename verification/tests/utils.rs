use rpxlib::utils::{concat_number, find_zero, rev_32};

#[test]
fn test_32bit() {
    assert_eq!(
        concat_number(0x11223344 as u128, 0xaabbccdd as u128, 32),
        0x11223344aabbccdd
    );
}

#[test]
fn test_16bit() {
    assert_eq!(concat_number(0x1122 as u128, 0xaabb as u128, 16), 0x1122aabb);
}

#[test]
fn test_all() {
    for i in 1..100 {
        let mut data = vec![1; i];
        data[i - 1] = 0;
        assert_eq!(find_zero(data, 0), i - 1, "i: {}", i);
    }
}

#[test]
fn test_rev1() {
    assert_eq!(rev_32(0x12345678), 0x78563412);
}

#[test]
fn test_rev2() {
    assert_eq!(rev_32(0x78563412), 0x12345678);
}

#[test]
fn test_find_zero_mid_buffer() {
    let data = vec![5, 6, 0, 7, 0];
    assert_eq!(find_zero(data.clone(), 0), 2);
    assert_eq!(find_zero(data, 3), 4);
}

#[test]
fn test_symbol_name() {
    let s = rpxlib::symbols::SymbolName::new("f".to_string());
    assert_eq!(s.base_name, "f");
    assert_eq!(rpxlib::symbols::SymbolName::default().base_name, "");
}
