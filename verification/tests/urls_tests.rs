use hn_videos::urls::{item_url, top_stories_url};

#[test]
fn top_stories_url_is_fixed() {
    assert_eq!(top_stories_url(), "https://hacker-news.firebaseio.com/v0/topstories.json");
}

#[test]
fn item_url_small_id() {
    assert_eq!(item_url(1), "https://hacker-news.firebaseio.com/v0/item/1.json");
}

#[test]
fn item_url_zero() {
    assert_eq!(item_url(0), "https://hacker-news.firebaseio.com/v0/item/0.json");
}

#[test]
fn item_url_many_digits() {
    assert_eq!(item_url(1234567890), "https://hacker-news.firebaseio.com/v0/item/1234567890.json");
}

#[test]
fn item_url_negative() {
    assert_eq!(item_url(-7), "https://hacker-news.firebaseio.com/v0/item/-7.json");
}

#[test]
fn item_url_extremes() {
    assert_eq!(item_url(i32::MAX), "https://hacker-news.firebaseio.com/v0/item/2147483647.json");
    assert_eq!(item_url(i32::MIN), "https://hacker-news.firebaseio.com/v0/item/-2147483648.json");
}
