use rbx_backend::id_converter::parse_u64;
use rbx_backend::utils::{chars_of, reverse_string};

#[test]
fn reverse_string_reverses_characters() {
    assert_eq!(reverse_string("abc"), "cba");
    assert_eq!(reverse_string(""), "");
    assert_eq!(reverse_string("héllo"), "olléh");
}

#[test]
fn chars_of_keeps_order() {
    assert_eq!(chars_of("a1é"), vec!['a', '1', 'é']);
}

#[test]
fn parse_u64_reads_literals() {
    assert_eq!(parse_u64("0"), Some(0));
    assert_eq!(parse_u64("+42"), Some(42));
    assert_eq!(parse_u64("18446744073709551615"), Some(u64::MAX));
    assert_eq!(parse_u64("18446744073709551616"), None);
    assert_eq!(parse_u64(""), None);
    assert_eq!(parse_u64("+"), None);
    assert_eq!(parse_u64("-1"), None);
    assert_eq!(parse_u64("12a"), None);
}
