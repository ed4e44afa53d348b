use pep_core::pepdex::api::{format_fixed};


#[test]
fn formats_integer_fixed_point() {

    assert_eq!(
        format_fixed(
            65190,
            0
        ),
        "65190"
    );
}


#[test]
fn formats_decimal_fixed_point() {

    assert_eq!(
        format_fixed(
            6_519_025_000_000,
            8
        ),
        "65190.25000000"
    );
}


#[test]
fn formats_small_decimal() {

    assert_eq!(
        format_fixed(
            14_200_000,
            8
        ),
        "0.14200000"
    );
}


#[test]
fn formats_zero() {

    assert_eq!(
        format_fixed(
            0,
            8
        ),
        "0.00000000"
    );
}


#[test]
fn formats_exact_integer_with_scale() {

    assert_eq!(
        format_fixed(
            65_190_000_000,
            8
        ),
        "651.90000000"
    );
}


#[test]
fn formats_large_price() {

    assert_eq!(
        format_fixed(
            6_505_245_000_000,
            8
        ),
        "65052.45000000"
    );
}
