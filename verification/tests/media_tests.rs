use tweetview::media::resolve_media;
use tweetview::model::Media;
use tweetview::model::MediaKind;

fn photo(key: &str, url: &str, width: usize, height: usize) -> Media {
    Media {
        key: key.to_string(),
        kind: MediaKind::Photo,
        url: Some(url.to_string()),
        width: Some(width),
        height: Some(height),
    }
}

#[test]
fn photo_kept_video_dropped() {
    let pool = vec![
        photo("k1", "https://img/1.jpg", 640, 480),
        Media {
            key: "k2".to_string(),
            kind: MediaKind::Video,
            url: Some("https://vid/2.mp4".to_string()),
            width: Some(1280),
            height: Some(720),
        },
    ];
    let keys = vec!["k1".to_string(), "k2".to_string()];
    let out = resolve_media(&keys, &pool);
    assert_eq!(out.len(), 1);
    assert_eq!(out[0].key, "k1");
}

#[test]
fn photo_missing_width_excluded() {
    let mut incomplete = photo("k3", "https://img/3.jpg", 0, 480);
    incomplete.width = None;
    let pool = vec![incomplete];
    let keys = vec!["k3".to_string()];
    assert_eq!(resolve_media(&keys, &pool).len(), 0);
}

#[test]
fn photo_missing_url_or_height_excluded() {
    let mut no_url = photo("k1", "", 640, 480);
    no_url.url = None;
    let mut no_height = photo("k2", "https://img/2.jpg", 640, 480);
    no_height.height = None;
    let pool = vec![no_url, no_height];
    let keys = vec!["k1".to_string(), "k2".to_string()];
    assert_eq!(resolve_media(&keys, &pool).len(), 0);
}

#[test]
fn unreferenced_media_excluded() {
    let pool = vec![photo("k1", "https://img/1.jpg", 10, 10)];
    let keys = vec!["other".to_string()];
    assert_eq!(resolve_media(&keys, &pool).len(), 0);
}

#[test]
fn pool_order_preserved() {
    let pool = vec![
        photo("k1", "https://img/1.jpg", 1, 1),
        photo("k2", "https://img/2.jpg", 2, 2),
    ];
    let keys = vec!["k2".to_string(), "k1".to_string()];
    let out = resolve_media(&keys, &pool);
    assert_eq!(out.len(), 2);
    assert_eq!(out[0].key, "k1");
    assert_eq!(out[1].key, "k2");
}

#[test]
fn empty_keys_yield_nothing() {
    let pool = vec![photo("k1", "https://img/1.jpg", 10, 10)];
    let keys: Vec<String> = vec![];
    assert_eq!(resolve_media(&keys, &pool).len(), 0);
}
