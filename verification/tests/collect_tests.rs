use tweetview::collect::collect;
use tweetview::model::EntityKind;
use tweetview::model::MentionAnnotation;
use tweetview::model::Post;
use tweetview::model::TagAnnotation;
use tweetview::model::UrlAnnotation;

fn bare_post(text: &str) -> Post {
    Post {
        id: 1,
        text: text.to_string(),
        urls: vec![],
        hashtags: vec![],
        mentions: vec![],
        attachment_keys: vec![],
        references: vec![],
    }
}

#[test]
fn sorted_by_start() {
    let mut post = bare_post("#tag then https://t.co/x");
    post.urls.push(UrlAnnotation {
        start: 10,
        end: 24,
        url: "https://t.co/x".to_string(),
        display_url: "t.co/x".to_string(),
    });
    post.hashtags.push(TagAnnotation { start: 0, end: 4, tag: "tag".to_string() });
    let ents = collect(&post);
    assert_eq!(ents.len(), 2);
    assert_eq!(ents[0].kind, EntityKind::Hashtag);
    assert_eq!(ents[0].start, 0);
    assert_eq!(ents[1].kind, EntityKind::Link);
    assert_eq!(ents[1].start, 10);
}

#[test]
fn ties_broken_by_kind_priority() {
    // Same start for all three kinds: link before mention before hashtag.
    let mut post = bare_post("xxxx");
    post.hashtags.push(TagAnnotation { start: 0, end: 4, tag: "h".to_string() });
    post.mentions.push(MentionAnnotation { start: 0, end: 4, username: "m".to_string() });
    post.urls.push(UrlAnnotation {
        start: 0,
        end: 4,
        url: "u".to_string(),
        display_url: "d".to_string(),
    });
    let ents = collect(&post);
    assert_eq!(ents.len(), 3);
    assert_eq!(ents[0].kind, EntityKind::Link);
    assert_eq!(ents[1].kind, EntityKind::Mention);
    assert_eq!(ents[2].kind, EntityKind::Hashtag);
}

#[test]
fn hashtag_normalization() {
    let mut post = bare_post("#rust");
    post.hashtags.push(TagAnnotation { start: 0, end: 5, tag: "rust".to_string() });
    let ents = collect(&post);
    assert_eq!(ents.len(), 1);
    assert_eq!(ents[0].url, "https://twitter.com/hashtag/rust");
    assert_eq!(ents[0].label, "#rust");
}

#[test]
fn mention_normalization() {
    let mut post = bare_post("@jack");
    post.mentions.push(MentionAnnotation { start: 0, end: 5, username: "jack".to_string() });
    let ents = collect(&post);
    assert_eq!(ents.len(), 1);
    assert_eq!(ents[0].url, "https://twitter.com/jack");
    assert_eq!(ents[0].label, "@jack");
}

#[test]
fn link_keeps_its_own_target_and_display() {
    let mut post = bare_post("https://t.co/abc");
    post.urls.push(UrlAnnotation {
        start: 0,
        end: 16,
        url: "https://t.co/abc".to_string(),
        display_url: "example.com".to_string(),
    });
    let ents = collect(&post);
    assert_eq!(ents.len(), 1);
    assert_eq!(ents[0].url, "https://t.co/abc");
    assert_eq!(ents[0].label, "example.com");
}

#[test]
fn no_annotations_no_entities() {
    let post = bare_post("plain");
    assert_eq!(collect(&post).len(), 0);
}
