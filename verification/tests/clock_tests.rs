use info_keep::clock::{
    date_text, moment_after, tagged_key, time_text, timestamp_text, Moment, Time,
};
use info_keep::tag::Tag;
use info_keep::text::{decimal_text, digit_text, signed_decimal_text};

#[test]
fn decimal_text_writes_numerals() {
    assert_eq!(decimal_text(0), "0");
    assert_eq!(decimal_text(7), "7");
    assert_eq!(decimal_text(10), "10");
    assert_eq!(decimal_text(1234567890), "1234567890");
    assert_eq!(decimal_text(u64::MAX), "18446744073709551615");
}

#[test]
fn digit_text_writes_each_digit() {
    let all: Vec<&str> = (0..10).map(digit_text).collect();
    assert_eq!(all, vec!["0", "1", "2", "3", "4", "5", "6", "7", "8", "9"]);
}

#[test]
fn signed_decimal_text_writes_a_minus_sign_below_zero() {
    assert_eq!(signed_decimal_text(2024), "2024");
    assert_eq!(signed_decimal_text(0), "0");
    assert_eq!(signed_decimal_text(-44), "-44");
    assert_eq!(signed_decimal_text(i32::MIN), "-2147483648");
    assert_eq!(signed_decimal_text(i32::MAX), "2147483647");
}

#[test]
fn date_text_does_not_pad() {
    assert_eq!(date_text(2024, 6, 1), "2024-6-1");
    assert_eq!(date_text(2024, 12, 31), "2024-12-31");
    assert_eq!(date_text(-1, 1, 1), "-1-1-1");
}

#[test]
fn time_text_pads_the_seconds_only() {
    assert_eq!(time_text(9, 5, 3), "9:5:03");
    assert_eq!(time_text(0, 0, 0), "0:0:00");
    assert_eq!(time_text(23, 59, 59), "23:59:59");
    assert_eq!(time_text(12, 30, 10), "12:30:10");
}

#[test]
fn tagged_key_joins_prefix_and_time() {
    let tag = Tag::new(Some("2024"), Some("06"), Some("1"));
    assert_eq!(tagged_key(&tag, "9:5:03"), "2024-06-01+9:5:03");
}

#[test]
fn generate_time_has_three_fields() {
    let time = Time::generate_time().expect("the clock reads");
    let fields: Vec<&str> = time.split(':').collect();
    assert_eq!(fields.len(), 3);
    assert!(fields[0].parse::<u8>().unwrap() < 24);
    assert!(fields[1].parse::<u8>().unwrap() < 60);
    assert_eq!(fields[2].len(), 2);
    assert!(fields[2].parse::<u8>().unwrap() < 60);
}

#[test]
fn generate_date_has_three_fields() {
    let date = Time::generate_date().expect("the clock reads");
    let fields: Vec<&str> = date.split('-').collect();
    assert_eq!(fields.len(), 3);
    assert!(fields[0].parse::<i32>().unwrap() >= 2024);
    let month = fields[1].parse::<u8>().unwrap();
    assert!(1 <= month && month <= 12);
    let day = fields[2].parse::<u8>().unwrap();
    assert!(1 <= day && day <= 31);
}

#[test]
fn generate_timestamp_joins_date_and_time() {
    let stamp = Time::generate_timestamp().expect("the clock reads");
    let parts: Vec<&str> = stamp.split('+').collect();
    assert_eq!(parts.len(), 2);
    assert_eq!(parts[0].split('-').count(), 3);
    assert_eq!(parts[1].split(':').count(), 3);
}

#[test]
fn generate_key_of_an_empty_tag_is_a_timestamp() {
    let key = Time::generate_key(&Tag::new(None, None, None)).expect("the clock reads");
    let parts: Vec<&str> = key.split('+').collect();
    assert_eq!(parts.len(), 2);
    assert_eq!(parts[0].split('-').count(), 3);
    assert!(parts[0] != "0000-01-01");
    assert_eq!(parts[1].split(':').count(), 3);
}

#[test]
fn generate_key_of_a_tag_starts_with_its_prefix() {
    let key =
        Time::generate_key(&Tag::new(Some("1999"), None, Some("7"))).expect("the clock reads");
    let parts: Vec<&str> = key.split('+').collect();
    assert_eq!(parts.len(), 2);
    assert_eq!(parts[0], "1999-01-07");
    assert_eq!(parts[1].split(':').count(), 3);
}

#[test]
fn moment_after_counts_from_the_beginning_of_1970() {
    let start = moment_after(0).expect("the beginning of 1970 can be held");
    assert_eq!(timestamp_text(start, start), "1970-1-1+0:0:00");
    let later = moment_after(1_546_300_800).expect("2019 can be held");
    assert_eq!(timestamp_text(later, later), "2019-1-1+0:0:00");
    let odd = moment_after(1_718_454_309).expect("2024 can be held");
    assert_eq!(timestamp_text(odd, odd), "2024-6-15+12:25:09");
}

#[test]
fn moment_after_gives_nothing_for_what_cannot_be_held() {
    assert!(moment_after(u64::MAX).is_none());
    assert!(moment_after(9_223_372_036_854_775_807).is_none());
    assert!(moment_after(9_223_372_036_854_775_808).is_none());
    assert!(moment_after(1_000_000_000_000_000).is_none());
}

#[test]
fn timestamp_text_joins_the_date_of_one_and_the_time_of_the_other() {
    let date = Moment { year: 2024, month: 6, day: 1, hour: 1, minute: 2, second: 3 };
    let time = Moment { year: 1999, month: 12, day: 31, hour: 23, minute: 5, second: 9 };
    assert_eq!(timestamp_text(date, time), "2024-6-1+23:5:09");
}
