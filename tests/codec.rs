use rbx_backend::id_converter::{CodecError, IDConverter};

const SYMBOLS: &str = "abcdefghijklmnopqrstuvwxyz0123456789";
const DIGITS: &str = "0123456789";

fn codec(symbols: &str, digits: &str) -> IDConverter {
    IDConverter::new(&symbols.to_string(), &digits.to_string()).unwrap()
}

#[test]
fn scenario_thousand_round_trips() {
    let c = codec(SYMBOLS, DIGITS);
    let short = c.to_short(1000).unwrap();
    assert_eq!(short, "bwx");
    assert_eq!(c.to_number(short).unwrap(), 1000);
}

#[test]
fn small_values_have_known_forms() {
    let c = codec(SYMBOLS, DIGITS);
    assert_eq!(c.to_short(1).unwrap(), "c");
    assert_eq!(c.to_short(9).unwrap(), "k");
    assert_eq!(c.to_short(10).unwrap(), "v");
    assert_eq!(c.to_short(123456789).unwrap(), "d5xv1a");
}

#[test]
fn zero_is_first_symbol_for_two_alphabet_pairs() {
    assert_eq!(codec(SYMBOLS, DIGITS).to_short(0).unwrap(), "a");
    assert_eq!(codec("xyz", "5432189076").to_short(0).unwrap(), "x");
    assert_eq!(codec(SYMBOLS, DIGITS).to_number("a".to_string()).unwrap(), 0);
}

#[test]
fn large_value_round_trips() {
    let c = codec(SYMBOLS, DIGITS);
    let v: u128 = 1_000_000_000_000_000_000;
    let short = c.to_short(v).unwrap();
    assert_eq!(short, "qbo4pt137yhl");
    assert_eq!(c.to_number(short).unwrap(), v);
}

#[test]
fn largest_value_round_trips() {
    let c = codec(SYMBOLS, DIGITS);
    let short = c.to_short(u128::MAX).unwrap();
    assert_eq!(short, "ud1t4he454xhpwumlm5cbgqqg");
    assert_eq!(c.to_number(short).unwrap(), u128::MAX);
}

#[test]
fn round_trips_with_permuted_digits_and_binary_symbols() {
    let c = codec("01", "5432189076");
    for v in [0u128, 1, 5, 57, 500, 99_999, 1_718_000_000_123] {
        assert_eq!(c.to_number(c.to_short(v).unwrap()).unwrap(), v);
    }
    assert_eq!(codec("01", DIGITS).to_short(5).unwrap(), "110");
}

#[test]
fn repeated_calls_agree() {
    let c1 = codec(SYMBOLS, DIGITS);
    let c2 = codec(SYMBOLS, DIGITS);
    let v: u128 = 3_436_000_000_574;
    assert_eq!(c1.to_short(v).unwrap(), c1.to_short(v).unwrap());
    assert_eq!(c1.to_short(v).unwrap(), c2.to_short(v).unwrap());
    assert_eq!(
        c1.to_number("wyd8".to_string()).unwrap(),
        c2.to_number("wyd8".to_string()).unwrap()
    );
}

#[test]
fn empty_alphabet_is_rejected() {
    assert_eq!(
        IDConverter::new(&String::new(), &DIGITS.to_string()).err(),
        Some(CodecError::Configuration)
    );
    assert_eq!(
        IDConverter::new(&SYMBOLS.to_string(), &String::new()).err(),
        Some(CodecError::Configuration)
    );
}

#[test]
fn short_or_repeating_alphabet_is_rejected() {
    assert_eq!(
        IDConverter::new(&"a".to_string(), &DIGITS.to_string()).err(),
        Some(CodecError::Configuration)
    );
    assert_eq!(
        IDConverter::new(&"abca".to_string(), &DIGITS.to_string()).err(),
        Some(CodecError::Configuration)
    );
    assert_eq!(
        IDConverter::new(&SYMBOLS.to_string(), &"01234567890".to_string()).err(),
        Some(CodecError::Configuration)
    );
}

#[test]
fn digit_missing_from_digit_alphabet_fails_encoding() {
    let c = codec(SYMBOLS, "0123456");
    assert_eq!(c.to_short(789), Err(CodecError::Encoding));
    assert!(c.to_short(6543210).is_ok());
}

#[test]
fn foreign_character_fails_decoding() {
    let c = codec(SYMBOLS, DIGITS);
    assert_eq!(c.to_number("bw!".to_string()), Err(CodecError::Decoding));
    assert_eq!(c.to_number("BWX".to_string()), Err(CodecError::Decoding));
}

#[test]
fn empty_string_fails_decoding() {
    let c = codec(SYMBOLS, DIGITS);
    assert_eq!(c.to_number(String::new()), Err(CodecError::Decoding));
}

#[test]
fn non_decimal_numeral_fails_decoding() {
    let c = codec(SYMBOLS, "0123456789x");
    assert_eq!(c.to_number("b".to_string()), Ok(0));
    assert_eq!(c.to_number("k".to_string()), Ok(9));
    assert_eq!(c.to_number("ba".to_string()), Ok(22));
    assert_eq!(c.to_number("l".to_string()), Err(CodecError::Decoding));
}

#[test]
fn value_above_u128_fails_decoding() {
    let c = codec(SYMBOLS, DIGITS);
    assert_eq!(c.to_number("9".repeat(30)), Err(CodecError::Decoding));
}

#[test]
fn zero_needs_zero_in_digit_alphabet() {
    let c = codec(SYMBOLS, "12");
    assert_eq!(c.to_short(0), Err(CodecError::Encoding));
    assert_eq!(c.to_short(12).unwrap(), c.to_short(12).unwrap());
    assert!(c.to_short(12).is_ok());
    assert_eq!(c.to_number(c.to_short(211).unwrap()).unwrap(), 211);
}
