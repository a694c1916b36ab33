use minio_drive::logfile::{date_stamp_text, log_file_name_for, CalendarDate};
use minio_drive::text::{chars_of, contains, is_whitespace, push_decimal, push_padded, starts_with};

#[test]
fn decimal_and_padding() {
    let mut s = String::new();
    push_decimal(&mut s, 0);
    assert_eq!(s, "0");
    let mut s = String::from("x");
    push_decimal(&mut s, u64::MAX);
    assert_eq!(s, format!("x{}", u64::MAX));
    let mut p = String::new();
    push_padded(&mut p, 7, 4);
    assert_eq!(p, "0007");
    let mut q = String::new();
    push_padded(&mut q, 123456, 4);
    assert_eq!(q, "123456");
}

#[test]
fn whitespace_matches_std() {
    for u in 0u32..0x3100 {
        if let Some(c) = char::from_u32(u) {
            assert_eq!(is_whitespace(c), c.is_whitespace(), "{:?}", c);
        }
    }
}

#[test]
fn infix_and_prefix() {
    let s = chars_of("Mounting on E:");
    assert!(contains(&s, &chars_of("on E")));
    assert!(contains(&s, &chars_of("")));
    assert!(!contains(&s, &chars_of("off")));
    assert!(starts_with(&s, &chars_of("Mount")));
    assert!(!starts_with(&s, &chars_of("on")));
    assert_eq!(chars_of("añ"), vec!['a', 'ñ']);
}

#[test]
fn date_stamps() {
    assert_eq!(date_stamp_text(CalendarDate { year: 2024, month: 1, day: 5 }), "20240105");
    assert_eq!(date_stamp_text(CalendarDate { year: 987, month: 12, day: 31 }), "09871231");
    assert_eq!(date_stamp_text(CalendarDate { year: 12345, month: 2, day: 3 }), "+123450203");
    assert_eq!(date_stamp_text(CalendarDate { year: -1, month: 2, day: 3 }), "-00010203");
    assert_eq!(log_file_name_for(CalendarDate { year: 2024, month: 11, day: 18 }), "rclone-20241118.log");
}

