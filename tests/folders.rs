use ghost_export::folder::{
    folder_name, get_content_folder, padded_decimal, publish_seconds, MAX_UTC_SECONDS, MIN_UTC_SECONDS,
};

#[test]
fn folder_from_timestamp() {
    assert_eq!(get_content_folder(1520380800123), Some("post-2018-03-07".to_string()));
    assert_eq!(get_content_folder(0), Some("post-1970-01-01".to_string()));
    assert_eq!(get_content_folder(-1000), Some("post-1969-12-31".to_string()));
    assert_eq!(get_content_folder(i64::MAX), None);
}

#[test]
fn folder_names() {
    assert_eq!(folder_name(2018, 3, 7), "post-2018-03-07");
    assert_eq!(folder_name(5, 1, 2), "post-0005-01-02");
    assert_eq!(folder_name(-1, 12, 31), "post--0001-12-31");
    assert_eq!(folder_name(10000, 10, 10), "post-+10000-10-10");
}

#[test]
fn seconds_round_toward_zero() {
    assert_eq!(publish_seconds(1999), 1);
    assert_eq!(publish_seconds(-1999), -1);
    assert_eq!(publish_seconds(-999), 0);
    assert_eq!(publish_seconds(i64::MIN), -9223372036854775);
    assert_eq!(padded_decimal(7, 3), "007");
    assert_eq!(padded_decimal(12345, 2), "12345");
}

#[test]
fn folder_at_range_edges() {
    assert_eq!(get_content_folder(MIN_UTC_SECONDS * 1000), Some("post--262143-01-01".to_string()));
    assert_eq!(get_content_folder(MIN_UTC_SECONDS * 1000 - 999), Some("post--262143-01-01".to_string()));
    assert_eq!(get_content_folder(MIN_UTC_SECONDS * 1000 - 1000), None);
    assert_eq!(get_content_folder(MAX_UTC_SECONDS * 1000 + 999), Some("post-+262142-12-31".to_string()));
    assert_eq!(get_content_folder(MAX_UTC_SECONDS * 1000 + 1000), None);
    assert_eq!(get_content_folder(i64::MIN), None);
}
