use wait::to_int;

#[test]
fn should_return_int_value() {
    let value = to_int("32".to_string(), 0);
    assert!(32 == value)
}

#[test]
fn should_return_zero_when_negative_value() {
    let value = to_int("-32".to_string(), 10);
    assert!(10 == value)
}

#[test]
#[allow(non_snake_case)]
fn should_return_zero_when_Invalid_value() {
    let value = to_int("hello".to_string(), 0);
    assert!(0 == value)
}

#[test]
fn should_return_zero_when_empty_value() {
    let value = to_int("".to_string(), 11);
    assert!(11 == value)
}

#[test]
fn should_accept_a_leading_plus_sign() {
    let value = to_int("+32".to_string(), 0);
    assert_eq!(32, value);
}

#[test]
fn should_parse_zero() {
    let value = to_int("0".to_string(), 7);
    assert_eq!(0, value);
}

#[test]
fn should_parse_the_largest_value() {
    let value = to_int("18446744073709551615".to_string(), 0);
    assert_eq!(u64::MAX, value);
}

#[test]
fn should_return_default_when_too_large() {
    let value = to_int("18446744073709551616".to_string(), 5);
    assert_eq!(5, value);
}

#[test]
fn should_return_default_when_padded_with_spaces() {
    let value = to_int(" 32".to_string(), 9);
    assert_eq!(9, value);
}

#[test]
fn should_ignore_leading_zeros() {
    let value = to_int("007".to_string(), 0);
    assert_eq!(7, value);
}

#[test]
fn should_round_trip_decimal_forms() {
    for n in [0u64, 1, 9, 10, 42, 65535, 123456789, u64::MAX] {
        let value = to_int(format!("{}", n), 123);
        assert_eq!(n, value);
    }
}

#[test]
fn should_return_default_when_sign_only() {
    let value = to_int("+".to_string(), 4);
    assert_eq!(4, value);
}
