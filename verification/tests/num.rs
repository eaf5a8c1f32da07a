use rficus::num::{format_i64, format_u64, parse_i32_at, parse_u32_at};
use rficus::text::chars_of;

fn u32_of(s: &str) -> Option<u32> {
    let v = chars_of(s);
    parse_u32_at(&v, 0, v.len())
}

fn i32_of(s: &str) -> Option<i32> {
    let v = chars_of(s);
    parse_i32_at(&v, 0, v.len())
}

#[test]
fn reads_integers_like_from_str() {
    for s in ["0", "7", "+7", "4294967295", "4294967296", "", "+", "-1", "1 ", "0x10", "007"] {
        assert_eq!(u32_of(s), s.parse::<u32>().ok(), "{s:?}");
    }
    for s in ["-2147483648", "2147483647", "2147483648", "-2147483649", "-", "+-1", "-0", "12a"] {
        assert_eq!(i32_of(s), s.parse::<i32>().ok(), "{s:?}");
    }
}

#[test]
fn writes_integers_like_display() {
    for n in [0u64, 9, 10, 1234567890, u64::MAX] {
        assert_eq!(format_u64(n), n.to_string());
    }
    for n in [0i64, -1, -10, i64::MIN, i64::MAX] {
        assert_eq!(format_i64(n), n.to_string());
    }
}

#[test]
fn what_is_written_reads_back() {
    for n in [0i32, -1, 42, i32::MIN, i32::MAX] {
        assert_eq!(i32_of(&format_i64(n as i64)), Some(n));
    }
}
