use largitdata_wifi_pool_ui::screen::{
    remove_whitespace, screenshot_from_reply, screenshot_mime, AtxError, ScreenshotCache,
};

#[test]
fn reply_base64_is_decoded_after_removing_whitespace() {
    let bytes = screenshot_from_reply("{\"jsonrpc\":\"2.0\",\"id\":1,\"result\":\"aGVs\\nbG8g\\r\\nd29y bGQ=\"}").ok().unwrap();
    assert_eq!(bytes, b"hello world".to_vec());
}

#[test]
fn reply_errors() {
    assert!(matches!(screenshot_from_reply("not json"), Err(AtxError::BadReply)));
    assert!(matches!(screenshot_from_reply("{\"error\":{}}"), Err(AtxError::NoData)));
    assert!(matches!(screenshot_from_reply("{\"result\":5}"), Err(AtxError::NoData)));
    assert!(matches!(screenshot_from_reply("{\"result\":\"a$b=\"}"), Err(AtxError::Decode(_))));
    assert!(matches!(screenshot_from_reply("{\"result\":\"aGk\"}"), Err(AtxError::Decode(_))));
}

#[test]
fn whitespace_removal_covers_unicode_spaces() {
    assert_eq!(remove_whitespace(" a\tb\u{3000}c\u{2003}d\n"), "abcd");
}

#[test]
fn mime_by_magic_bytes() {
    assert_eq!(screenshot_mime(&[0xFF, 0xD8, 0xFF, 0xE0]), "image/jpeg");
    assert_eq!(screenshot_mime(&[0xFF, 0xD8]), "image/png");
    assert_eq!(screenshot_mime(&[0x89, b'P', b'N', b'G']), "image/png");
    assert_eq!(screenshot_mime(&[]), "image/png");
}

const MS: u64 = 1_000_000;

#[test]
fn cache_read_after_record() {
    let mut cache = ScreenshotCache::new();
    assert_eq!(cache.get("A", 0), None);
    cache.record("A".to_string(), vec![1, 2, 3], 1000 * MS);
    cache.record("B".to_string(), vec![9], 1500 * MS);
    assert_eq!(cache.get("A", 1000 * MS), Some(vec![1, 2, 3]));
    assert_eq!(cache.get("A", 5999 * MS), Some(vec![1, 2, 3]));
    assert_eq!(cache.get("A", 6000 * MS), None);
    assert_eq!(cache.get("A", 10 * MS), Some(vec![1, 2, 3]));
    assert_eq!(cache.get("B", 6000 * MS), Some(vec![9]));
    cache.record("A".to_string(), vec![4], 7000 * MS);
    assert_eq!(cache.get("A", 7000 * MS + 1), Some(vec![4]));
    assert_eq!(cache.get("C", 7001 * MS), None);
}

#[test]
fn cache_freshness_counts_below_a_millisecond() {
    let mut cache = ScreenshotCache::new();
    cache.record("A".to_string(), vec![7], 0);
    assert_eq!(cache.get("A", 4_999_600_000), Some(vec![7]));
    assert_eq!(cache.get("A", 4_999_999_999), Some(vec![7]));
    assert_eq!(cache.get("A", 5_000_000_000), None);
}

#[test]
fn cache_notes_viewers_even_on_a_miss() {
    let mut cache = ScreenshotCache::new();
    assert!(!cache.take_watched());
    assert_eq!(cache.get("missing", 0), None);
    assert!(cache.take_watched());
    assert!(!cache.take_watched());
    cache.record("A".to_string(), vec![1], 0);
    assert!(!cache.take_watched());
    assert_eq!(cache.get("A", 0), Some(vec![1]));
    assert!(cache.take_watched());
}
