use sentinel::num::i64_to_dec_string;
use sentinel::num::u64_to_dec_string;
use sentinel::platform::parse_ip_or_resolve;
use sentinel::platform::LuperiqPlatform;

#[test]
fn test_decimal_rendering() {
    assert_eq!(u64_to_dec_string(0), "0");
    assert_eq!(u64_to_dec_string(4096), "4096");
    assert_eq!(u64_to_dec_string(u64::MAX), "18446744073709551615");
    assert_eq!(i64_to_dec_string(-5), "-5");
    assert_eq!(i64_to_dec_string(i64::MIN), "-9223372036854775808");
    assert_eq!(i64_to_dec_string(7), "7");
}

#[test]
fn test_packed_ip() {
    assert_eq!(parse_ip_or_resolve("1.2.3.4").unwrap(), 0x01020304);
    assert_eq!(parse_ip_or_resolve("255.255.255.255").unwrap(), 0xFFFFFFFF);
    assert!(parse_ip_or_resolve("example.com").is_err());
    assert!(parse_ip_or_resolve("1.2.3.999").is_err());
}

#[test]
fn test_lexical_canonicalize() {
    let platform = LuperiqPlatform::new();
    assert_eq!(platform.canonicalize("/a/b/../c").unwrap(), "/a/c");
    assert!(platform.canonicalize("relative").is_err());
    assert!(platform.canonicalize("/a/../..").is_err());
}
