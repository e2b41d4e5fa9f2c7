use ts_clientquery::decimal::{read_i32, read_i64, write_i64};

fn written(v: i64) -> String {
    let mut out = String::from("n=");
    write_i64(&mut out, v);
    out
}

#[test]
fn numbers_written_in_decimal() {
    assert_eq!(written(0), "n=0");
    assert_eq!(written(7), "n=7");
    assert_eq!(written(10), "n=10");
    assert_eq!(written(-1), "n=-1");
    assert_eq!(written(25639), "n=25639");
    assert_eq!(written(i64::MAX), "n=9223372036854775807");
    assert_eq!(written(i64::MIN), "n=-9223372036854775808");
    for v in [-1000, -999, -10, -9, 9, 99, 100, 101, 1 << 40] {
        assert_eq!(written(v), format!("n={}", v));
    }
}

#[test]
fn numbers_read_from_decimal() {
    assert_eq!(read_i64("0"), Some(0));
    assert_eq!(read_i64("42"), Some(42));
    assert_eq!(read_i64("-42"), Some(-42));
    assert_eq!(read_i64("+42"), Some(42));
    assert_eq!(read_i64("0042"), Some(42));
    assert_eq!(read_i64("9223372036854775807"), Some(i64::MAX));
    assert_eq!(read_i64("-9223372036854775808"), Some(i64::MIN));
    assert_eq!(read_i64("9223372036854775808"), None);
    assert_eq!(read_i64("-9223372036854775809"), None);
    assert_eq!(read_i64("18446744073709551616"), None);
    assert_eq!(read_i64("000000000000000000000000000000000000012"), Some(12));
}

#[test]
fn a_sign_alone_is_no_number() {
    assert_eq!(read_i64("+"), None);
    assert_eq!(read_i64("-"), None);
    assert_eq!(read_i32("-"), None);
    assert_eq!(read_i32("+"), None);
    assert_eq!(read_i64("-0"), Some(0));
    assert_eq!(read_i64("+0"), Some(0));
}

#[test]
fn what_is_no_number() {
    for text in ["", " ", "a", "1a", "a1", "1 ", " 1", "++1", "1-", "1.0", "0x10", "\u{663}"] {
        assert_eq!(read_i64(text), None, "{:?}", text);
        assert_eq!(read_i32(text), None, "{:?}", text);
    }
}

#[test]
fn narrow_numbers_have_narrow_bounds() {
    assert_eq!(read_i32("2147483647"), Some(i32::MAX));
    assert_eq!(read_i32("-2147483648"), Some(i32::MIN));
    assert_eq!(read_i32("2147483648"), None);
    assert_eq!(read_i32("-2147483649"), None);
    assert_eq!(read_i32("256"), Some(256));
}

#[test]
fn written_numbers_read_back() {
    for v in [i64::MIN, -1, 0, 1, 512, i64::MAX] {
        let mut out = String::new();
        write_i64(&mut out, v);
        assert_eq!(read_i64(&out), Some(v));
    }
}
