use pep_core::pepdex::venue::aster::{Aster};


#[test]
fn parses_integer_price() {

    assert_eq!(
        Aster::parse_decimal_to_fixed(
            "65052",
            "price"
        )
        .unwrap(),
        65052_00000000
    );
}


#[test]
fn parses_decimal_price() {

    assert_eq!(
        Aster::parse_decimal_to_fixed(
            "65052.45",
            "price"
        )
        .unwrap(),
        65052_45000000
    );
}


#[test]
fn parses_quantity() {

    assert_eq!(
        Aster::parse_decimal_to_fixed(
            "0.307",
            "quantity"
        )
        .unwrap(),
        30_700_000
    );
}


#[test]
fn pads_fractional_digits() {

    assert_eq!(
        Aster::parse_decimal_to_fixed(
            "65052.4",
            "price"
        )
        .unwrap(),
        65052_40000000
    );
}


#[test]
fn zero_is_valid() {

    assert_eq!(
        Aster::parse_decimal_to_fixed(
            "0",
            "price"
        )
        .unwrap(),
        0
    );
}


#[test]
fn rejects_negative() {

    assert!(
        Aster::parse_decimal_to_fixed(
            "-1",
            "price"
        )
        .is_err()
    );
}


#[test]
fn rejects_too_many_decimals() {

    assert!(
        Aster::parse_decimal_to_fixed(
            "65052.123456789",
            "price"
        )
        .is_err()
    );
}


#[test]
fn rejects_invalid_decimal() {

    assert!(
        Aster::parse_decimal_to_fixed(
            "65052.xyz",
            "price"
        )
        .is_err()
    );
}
