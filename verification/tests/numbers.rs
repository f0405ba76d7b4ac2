use suds::error::Error;
use suds::num::{
    bool_to_string, isize_to_string, parse_bool, parse_hex_u32, parse_isize, parse_u16,
    parse_usize, str_eq, u16_to_string, u64_to_string, usize_to_string,
};
use suds::types::{NamespacedName, Namespaces};

#[test]
fn decimal_formatting_is_exact() {
    assert_eq!(usize_to_string(0), "0");
    assert_eq!(usize_to_string(7), "7");
    assert_eq!(usize_to_string(105), "105");
    assert_eq!(u64_to_string(123456789), "123456789");
    assert_eq!(u16_to_string(65535), "65535");
    assert_eq!(isize_to_string(-1), "-1");
    assert_eq!(isize_to_string(isize::MIN), format!("{}", isize::MIN));
    assert_eq!(isize_to_string(isize::MAX), format!("{}", isize::MAX));
}

#[test]
fn decimal_parsing_round_trips() {
    assert_eq!(parse_usize("105"), Some(105));
    assert_eq!(parse_usize(""), None);
    assert_eq!(parse_usize("1a"), None);
    assert_eq!(parse_usize("99999999999999999999999999"), None);
    assert_eq!(parse_isize("-42"), Some(-42));
    assert_eq!(parse_isize("+42"), Some(42));
    assert_eq!(parse_isize("42"), Some(42));
    assert_eq!(parse_isize("-"), None);
    assert_eq!(parse_u16("65535"), Some(65535));
    assert_eq!(parse_u16("65536"), None);
    for n in [0usize, 1, 9, 10, 4096, 123456] {
        assert_eq!(parse_usize(&usize_to_string(n)), Some(n));
    }
    for i in [isize::MIN, -7, 0, 7, isize::MAX] {
        assert_eq!(parse_isize(&isize_to_string(i)), Some(i));
    }
}

#[test]
fn hex_parsing_is_exact() {
    assert_eq!(parse_hex_u32("41"), Some(0x41));
    assert_eq!(parse_hex_u32("ff"), Some(255));
    assert_eq!(parse_hex_u32("FF"), Some(255));
    assert_eq!(parse_hex_u32("10FFFF"), Some(0x10FFFF));
    assert_eq!(parse_hex_u32(""), None);
    assert_eq!(parse_hex_u32("g"), None);
    assert_eq!(parse_hex_u32("100000000"), None);
}

#[test]
fn booleans_are_strict() {
    assert_eq!(parse_bool("true"), Some(true));
    assert_eq!(parse_bool("false"), Some(false));
    assert_eq!(parse_bool("True"), None);
    assert_eq!(bool_to_string(true), "true");
    assert_eq!(bool_to_string(false), "false");
}

#[test]
fn string_equality_helper() {
    assert!(str_eq("abc", "abc"));
    assert!(!str_eq("abc", "abd"));
    assert!(str_eq("", ""));
}

#[test]
fn interning_is_round_trip_stable() {
    let mut names = Namespaces::new();
    let a = names.add_or_get("http://one.example/");
    let b = names.add_or_get("http://two.example/");
    assert_eq!(a, 0);
    assert_eq!(b, 1);
    // interning the same URI again returns the same index
    assert_eq!(names.add_or_get("http://one.example/"), a);
    assert_eq!(names.index_of("http://one.example/"), Some(a));
    assert_eq!(names.index_of("http://two.example/"), Some(b));
    assert_eq!(names.index_of("http://absent.example/"), None);
    // names built through the table carry the interned index
    let n = NamespacedName::new(&mut names, "http://two.example/", "Local".to_owned());
    assert_eq!(n.index(), b);
    assert_eq!(n.name, "Local");
}

#[test]
fn errors_describe_themselves() {
    assert!(!Error::StructuralError.describe().is_empty());
    assert!(!Error::UnsupportedScheme("ftp".to_owned()).describe().is_empty());
    assert!(!Error::XmlParseError.describe().is_empty());
}
