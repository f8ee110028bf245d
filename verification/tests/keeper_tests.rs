use info_keep::database::{Database, StoreError};
use info_keep::keeper::{confirmation_text, removal_outcome, report_text, InfoKeep};
use info_keep::tag::Tag;

fn fresh(name: &str) -> InfoKeep {
    let path = format!("/tmp/info_keep_tests/{}", name);
    let mut keep = InfoKeep::init(&path).expect("the store opens");
    keep.clear_db().expect("the store clears");
    keep
}

fn pair(key: &str, value: &str) -> (Vec<u8>, Vec<u8>) {
    (key.as_bytes().to_vec(), value.as_bytes().to_vec())
}

#[test]
fn new_entry_confirms_key_and_value() {
    let mut keep = fresh("new_entry_confirms");
    let said = keep.new_entry("2024-01-01+10:00:00", "buy milk").unwrap();
    assert_eq!(said, "\nInfo added for 2024-01-01+10:00:00\nbuy milk\n\n");
    assert_eq!(keep.sort_db(false).unwrap(), vec![pair("2024-01-01+10:00:00", "buy milk")]);
}

#[test]
fn new_entry_replaces_the_value_of_a_key() {
    let mut keep = fresh("new_entry_replaces");
    keep.new_entry("k", "first").unwrap();
    let said = keep.new_entry("k", "second").unwrap();
    assert_eq!(said, "\nInfo added for k\nsecond\n\n");
    assert_eq!(keep.sort_db(false).unwrap(), vec![pair("k", "second")]);
}

#[test]
fn sort_db_lists_ascending_without_duplicates() {
    let mut keep = fresh("sort_db_lists");
    keep.new_entry("b", "2").unwrap();
    keep.new_entry("a", "1").unwrap();
    keep.new_entry("a", "1").unwrap();
    let listing = keep.sort_db(true).unwrap();
    assert_eq!(listing, vec![pair("a", "1"), pair("b", "2")]);
    assert_eq!(keep.sort_db(false).unwrap(), vec![pair("a", "1"), pair("b", "2")]);
    assert_eq!(keep.print_db().unwrap(), "a :: 1\nb :: 2\n");
}

#[test]
fn sort_db_without_rewrite_reports_the_same() {
    let mut keep = fresh("sort_db_report");
    keep.new_entry("2024-03-01+1:2:03", "c").unwrap();
    keep.new_entry("2024-01-01+1:2:03", "a").unwrap();
    keep.new_entry("2024-02-01+1:2:03", "b").unwrap();
    let expected = vec![
        pair("2024-01-01+1:2:03", "a"),
        pair("2024-02-01+1:2:03", "b"),
        pair("2024-03-01+1:2:03", "c"),
    ];
    assert_eq!(keep.sort_db(false).unwrap(), expected);
    assert_eq!(keep.sort_db(true).unwrap(), expected);
    assert_eq!(keep.sort_db(false).unwrap(), expected);
}

#[test]
fn search_tag_scans_from_the_prefix_on() {
    let mut keep = fresh("search_tag_scans");
    keep.new_entry("2023-12-31+23:59:59", "x").unwrap();
    keep.new_entry("2024-01-01+00:00:00", "y").unwrap();
    keep.new_entry("2024-06-01+12:00:00", "z").unwrap();
    let report = keep.search_tag(Tag::new(Some("2024"), None, None)).unwrap();
    assert_eq!(
        report,
        "Searching for entries with tag: 2024-01-01\n2024-01-01+00:00:00 :: y \n2024-06-01+12:00:00 :: z \n"
    );
}

#[test]
fn search_tag_has_no_upper_bound() {
    let mut keep = fresh("search_tag_upper");
    keep.new_entry("2024-06-01+12:00:00", "june").unwrap();
    keep.new_entry("2025-01-01+12:00:00", "next year").unwrap();
    keep.new_entry("2024-05-31+12:00:00", "may").unwrap();
    let report = keep.search_tag(Tag::new(Some("2024"), Some("06"), Some("1"))).unwrap();
    assert_eq!(
        report,
        "Searching for entries with tag: 2024-06-01\n2024-06-01+12:00:00 :: june \n2025-01-01+12:00:00 :: next year \n"
    );
}

#[test]
fn search_tag_without_fields_lists_everything() {
    let mut keep = fresh("search_tag_all");
    keep.new_entry("2023-12-31+23:59:59", "x").unwrap();
    keep.new_entry("0000-00-00+00:00:00", "w").unwrap();
    let report = keep.search_tag(Tag::new(None, None, None)).unwrap();
    assert_eq!(
        report,
        "Listing all entries\n0000-00-00+00:00:00 :: w\n2023-12-31+23:59:59 :: x\n"
    );
}

#[test]
fn search_tag_with_malformed_fields_lists_everything() {
    let mut keep = fresh("search_tag_malformed");
    keep.new_entry("a", "1").unwrap();
    let report = keep.search_tag(Tag::new(Some("24"), Some("1"), Some("123"))).unwrap();
    assert_eq!(report, "Listing all entries\na :: 1\n");
}

#[test]
fn remove_info_removes_one_entry() {
    let mut keep = fresh("remove_info_one");
    keep.new_entry("a", "1").unwrap();
    keep.new_entry("b", "2").unwrap();
    assert_eq!(keep.remove_info("a"), Ok(()));
    assert_eq!(keep.sort_db(false).unwrap(), vec![pair("b", "2")]);
}

#[test]
fn remove_info_of_an_absent_key_is_not_found() {
    let mut keep = fresh("remove_info_absent");
    keep.new_entry("a", "1").unwrap();
    assert_eq!(keep.remove_info("zz"), Err(StoreError::NotFound));
    assert_eq!(keep.sort_db(false).unwrap(), vec![pair("a", "1")]);
}

#[test]
fn clear_db_leaves_nothing() {
    let mut keep = fresh("clear_db_nothing");
    keep.new_entry("a", "1").unwrap();
    keep.new_entry("b", "2").unwrap();
    assert_eq!(keep.clear_db(), Ok(()));
    assert_eq!(keep.sort_db(false).unwrap(), Vec::<(Vec<u8>, Vec<u8>)>::new());
    assert_eq!(keep.print_db().unwrap(), "");
    assert_eq!(keep.search_tag(Tag::new(None, None, None)).unwrap(), "Listing all entries\n");
    assert_eq!(keep.clear_db(), Ok(()));
}

#[test]
fn export_db_writes_header_and_lines() {
    let mut keep = fresh("export_db_writes");
    keep.new_entry("2024-06-01+12:00:00", "z").unwrap();
    keep.new_entry("2024-01-01+00:00:00", "y").unwrap();
    assert_eq!(
        keep.export_db().unwrap(),
        "info_keep_file\n2024-01-01+00:00:00=y\n2024-06-01+12:00:00=z\n"
    );
    assert_eq!(keep.sort_db(false).unwrap().len(), 2);
}

#[test]
fn export_db_of_an_empty_store_is_the_header() {
    let mut keep = fresh("export_db_empty");
    assert_eq!(keep.export_db().unwrap(), "info_keep_file\n");
}

#[test]
fn export_then_import_gives_the_store_back() {
    let mut keep = fresh("export_import");
    keep.new_entry("2024-06-01+12:00:00", "water the plants").unwrap();
    keep.new_entry("2024-01-01+00:00:00", "new year, new notes").unwrap();
    keep.new_entry("2023-12-31+23:59:59", "é ü 猫").unwrap();
    let before = keep.sort_db(false).unwrap();
    let archive = keep.export_db().unwrap();
    keep.clear_db().unwrap();
    assert_eq!(keep.sort_db(false).unwrap().len(), 0);
    assert_eq!(keep.import_db(&archive), Ok(()));
    assert_eq!(keep.sort_db(false).unwrap(), before);
}

#[test]
fn import_db_adds_to_what_is_there() {
    let mut keep = fresh("import_adds");
    keep.new_entry("a", "old").unwrap();
    keep.new_entry("c", "kept").unwrap();
    keep.import_db("info_keep_file\na=new\nb=2\n").unwrap();
    assert_eq!(
        keep.sort_db(false).unwrap(),
        vec![pair("a", "new"), pair("b", "2"), pair("c", "kept")]
    );
}

#[test]
fn import_db_without_the_header_changes_nothing() {
    let mut keep = fresh("import_no_header");
    keep.new_entry("a", "1").unwrap();
    assert_eq!(keep.import_db("b=2\ninfo_keep_file\nc=3\n"), Ok(()));
    assert_eq!(keep.import_db(""), Ok(()));
    assert_eq!(keep.import_db("info_keep_files\nb=2\n"), Ok(()));
    assert_eq!(keep.sort_db(false).unwrap(), vec![pair("a", "1")]);
}

#[test]
fn import_db_takes_the_later_of_two_lines_with_one_key() {
    let mut keep = fresh("import_later");
    keep.import_db("info_keep_file\nk=1\nk=2").unwrap();
    assert_eq!(keep.sort_db(false).unwrap(), vec![pair("k", "2")]);
}

#[test]
fn print_db_reads_bytes_that_are_not_text_with_replacements() {
    let listing = vec![(vec![0x61u8, 0xff], vec![0x62u8])];
    assert_eq!(
        info_keep::report::render_listing(&listing, " :: ", "\n"),
        "a\u{fffd} :: b\n"
    );
}

#[test]
fn version_names_the_library() {
    assert_eq!(InfoKeep::version(), "InfoKeep Library Version: 0.1.0");
}

#[test]
fn init_on_an_unusable_path_fails() {
    assert!(matches!(InfoKeep::init("/dev/null/info_keep"), Err(StoreError::Backend)));
}

#[test]
fn removal_outcome_tells_whether_a_value_was_there() {
    assert_eq!(removal_outcome(Some(vec![1u8])), Ok(()));
    assert_eq!(removal_outcome(Some(vec![])), Ok(()));
    assert_eq!(removal_outcome(None), Err(StoreError::NotFound));
}

#[test]
fn confirmation_text_names_key_and_value() {
    assert_eq!(confirmation_text("k", "v"), "\nInfo added for k\nv\n\n");
}

#[test]
fn report_text_words_both_reports() {
    let found = vec![pair("2024-01-01+1:2:03", "a")];
    assert_eq!(
        report_text("0000-01-01", &found),
        "Listing all entries\n2024-01-01+1:2:03 :: a\n"
    );
    assert_eq!(
        report_text("2024-01-01", &found),
        "Searching for entries with tag: 2024-01-01\n2024-01-01+1:2:03 :: a \n"
    );
    assert_eq!(report_text("2024-01-01", &vec![]), "Searching for entries with tag: 2024-01-01\n");
}

#[test]
fn init_opens_the_store_under_its_path() {
    let mut here = fresh("init_path_here");
    let mut there = fresh("init_path_there");
    here.new_entry("a", "1").unwrap();
    assert_eq!(here.sort_db(false).unwrap(), vec![pair("a", "1")]);
    assert_eq!(there.sort_db(false).unwrap(), Vec::<(Vec<u8>, Vec<u8>)>::new());
    drop(here);
    let db = sled::open("/tmp/info_keep_tests/init_path_here").expect("the store opens again");
    assert_eq!(db.get(b"a").unwrap().map(|v| v.to_vec()), Some(b"1".to_vec()));
    assert_eq!(db.len(), 1);
}

#[test]
fn opened_keeps_the_store_it_is_given() {
    let db = sled::open("/tmp/info_keep_tests/opened_keeps").expect("the store opens");
    db.clear().unwrap();
    db.insert(b"k", b"v".to_vec()).unwrap();
    let mut keep = match InfoKeep::opened(Ok(db)) {
        Ok(keep) => keep,
        Err(_) => panic!("an opened store gives a keeper"),
    };
    assert_eq!(keep.sort_db(false).unwrap(), vec![pair("k", "v")]);
}

#[test]
fn opened_maps_a_failure_of_the_store() {
    let failure = sled::Error::Unsupported("no such store".to_string());
    assert!(matches!(InfoKeep::opened(Err(failure)), Err(StoreError::Backend)));
}

#[test]
fn import_db_reads_an_archive_with_carriage_returns() {
    let mut keep = fresh("import_crlf");
    assert_eq!(keep.import_db("info_keep_file\r\na=1\r\nb=2\r\n"), Ok(()));
    assert_eq!(keep.sort_db(false).unwrap(), vec![pair("a", "1"), pair("b", "2")]);
}

#[test]
fn import_db_with_the_header_on_the_second_line_changes_nothing() {
    let mut keep = fresh("import_header_second");
    assert_eq!(keep.import_db("a=1\ninfo_keep_file\nb=2\n"), Ok(()));
    assert_eq!(keep.sort_db(false).unwrap(), Vec::<(Vec<u8>, Vec<u8>)>::new());
}

#[test]
fn import_db_of_an_archive_without_records_succeeds() {
    let mut keep = fresh("import_no_records");
    keep.new_entry("a", "1").unwrap();
    assert_eq!(keep.import_db("info_keep_file"), Ok(()));
    assert_eq!(keep.import_db("info_keep_file\n"), Ok(()));
    assert_eq!(keep.import_db("info_keep_file\nno record\n\n"), Ok(()));
    assert_eq!(keep.sort_db(false).unwrap(), vec![pair("a", "1")]);
}
