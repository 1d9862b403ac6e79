use hn_videos::classify::{is_video, url_is_video};

#[test]
fn classify_true_watch_page() {
    assert_eq!(is_video("{\"url\":\"https://www.youtube.com/watch?v=1\"}"), Ok(true));
}

#[test]
fn classify_true_short_link() {
    assert_eq!(is_video("{\"url\":\"https://youtu.be/abc\"}"), Ok(true));
}

#[test]
fn classify_true_video_tag() {
    assert_eq!(is_video("{\"url\":\"[VIDEO] clip\"}"), Ok(true));
}

#[test]
fn classify_true_http_forms() {
    assert_eq!(is_video("{\"url\":\"http://www.youtube.com/watch?v=2\"}"), Ok(true));
    assert_eq!(is_video("{\"url\":\"http://youtu.be/zz\"}"), Ok(true));
}

#[test]
fn classify_is_case_insensitive() {
    assert_eq!(is_video("{\"url\":\"HTTPS://WWW.YOUTUBE.COM/watch\"}"), Ok(true));
    assert_eq!(is_video("{\"url\":\"a [Video] b\"}"), Ok(true));
}

#[test]
fn classify_false_missing_field() {
    assert_eq!(is_video("{\"title\":\"no url\"}"), Ok(false));
}

#[test]
fn classify_false_other_domain() {
    assert_eq!(is_video("{\"url\":\"https://example.com/x\"}"), Ok(false));
}

#[test]
fn classify_false_non_string_field() {
    assert_eq!(is_video("{\"url\":123}"), Ok(false));
}

#[test]
fn classify_error_on_malformed_payload() {
    assert!(is_video("not json at all").is_err());
    assert!(is_video("{\"url\":").is_err());
    assert!(is_video("[1,2,3]").is_err());
}

#[test]
fn url_rule_matches_substring_only() {
    assert!(url_is_video("see https://youtu.be/abc here"));
    assert!(!url_is_video("https://youtube.example.com/"));
    assert!(!url_is_video(""));
}
