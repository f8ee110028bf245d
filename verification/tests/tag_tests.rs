use info_keep::tag::{find_char, tag_of_key, Tag};

#[test]
fn full_tag_keeps_well_formed_fields() {
    assert_eq!(Tag::new(Some("2024"), Some("06"), Some("15")).full_tag(), "2024-06-15");
}

#[test]
fn full_tag_pads_a_one_character_day() {
    assert_eq!(Tag::new(Some("2024"), Some("06"), Some("5")).full_tag(), "2024-06-05");
}

#[test]
fn full_tag_without_fields_is_the_beginning() {
    assert_eq!(Tag::new(None, None, None).full_tag(), "0000-01-01");
}

#[test]
fn full_tag_replaces_a_year_of_wrong_width() {
    assert_eq!(Tag::new(Some("24"), Some("06"), Some("15")).full_tag(), "0000-06-15");
    assert_eq!(Tag::new(Some("20245"), None, None).full_tag(), "0000-01-01");
}

#[test]
fn full_tag_replaces_a_month_of_wrong_width() {
    assert_eq!(Tag::new(Some("2024"), Some("6"), Some("15")).full_tag(), "2024-01-15");
    assert_eq!(Tag::new(Some("2024"), Some("0006"), Some("15")).full_tag(), "2024-01-15");
}

#[test]
fn full_tag_replaces_a_day_of_wrong_width() {
    assert_eq!(Tag::new(Some("2024"), Some("06"), Some("150")).full_tag(), "2024-06-01");
    assert_eq!(Tag::new(Some("2024"), Some("06"), Some("")).full_tag(), "2024-06-01");
}

#[test]
fn full_tag_counts_characters_not_bytes() {
    assert_eq!(Tag::new(Some("éé"), None, None).full_tag(), "0000-01-01");
}

#[test]
fn repairs_name_the_replaced_fields() {
    let r = Tag::new(Some("24"), Some("06"), Some("150")).repairs();
    assert!(r.year);
    assert!(!r.month);
    assert!(r.day);
    let r = Tag::new(None, Some("6"), Some("5")).repairs();
    assert!(!r.year);
    assert!(r.month);
    assert!(!r.day);
}

#[test]
fn has_fields_tells_whether_any_field_was_given() {
    assert!(!Tag::new(None, None, None).has_fields());
    assert!(Tag::new(Some("2024"), None, None).has_fields());
    assert!(Tag::new(None, Some(""), None).has_fields());
    assert!(Tag::new(None, None, Some("1")).has_fields());
}

#[test]
fn full_tag_is_always_date_shaped() {
    let fields = [None, Some(""), Some("1"), Some("12"), Some("123"), Some("1234"), Some("12345")];
    for year in fields {
        for month in fields {
            for day in fields {
                let text = Tag::new(year, month, day).full_tag();
                let chars: Vec<char> = text.chars().collect();
                assert_eq!(chars.len(), 10);
                assert_eq!(chars[4], '-');
                assert_eq!(chars[7], '-');
                for (i, c) in chars.iter().enumerate() {
                    if i != 4 && i != 7 {
                        assert!(c.is_ascii_digit());
                    }
                }
            }
        }
    }
}

#[test]
fn date_prefixes_sort_as_dates() {
    let earlier = Tag::new(Some("2023"), Some("12"), Some("31")).full_tag();
    let later = Tag::new(Some("2024"), Some("01"), Some("1")).full_tag();
    assert!(earlier.as_bytes() < later.as_bytes());
    let same_month = Tag::new(Some("2024"), Some("01"), Some("02")).full_tag();
    assert!(later.as_bytes() < same_month.as_bytes());
}

#[test]
fn find_char_counts_characters() {
    assert_eq!(find_char("2024-06", '-'), 4);
    assert_eq!(find_char("-06", '-'), 0);
    assert_eq!(find_char("2024", '-'), 4);
    assert_eq!(find_char("", '-'), 0);
    assert_eq!(find_char("éé-1", '-'), 2);
}

#[test]
fn tag_of_key_takes_year_month_and_day() {
    let tag = tag_of_key("2024-06-15+12:30:05");
    assert_eq!(tag.full_tag(), "2024-06-15");
    let r = tag.repairs();
    assert!(!r.year && !r.month && !r.day);
    assert_eq!(tag_of_key("2024-06-5").full_tag(), "2024-06-05");
    assert_eq!(tag_of_key("2024-06-15-20+1-2-3").full_tag(), "2024-06-15");
}

#[test]
fn tag_of_key_leaves_out_what_is_not_there() {
    let tag = tag_of_key("2024-06");
    assert_eq!(tag.full_tag(), "2024-06-01");
    assert!(!tag.repairs().day);
    let tag = tag_of_key("2024+06-15");
    assert_eq!(tag.full_tag(), "2024-01-01");
    let r = tag.repairs();
    assert!(!r.year && !r.month && !r.day);
}

#[test]
fn tag_of_key_always_has_a_year() {
    let tag = tag_of_key("");
    assert!(tag.has_fields());
    assert!(tag.repairs().year);
    assert_eq!(tag.full_tag(), "0000-01-01");
    let tag = tag_of_key("-06-");
    let r = tag.repairs();
    assert!(r.year && !r.month && r.day);
    assert_eq!(tag.full_tag(), "0000-06-01");
}
