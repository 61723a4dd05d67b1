use tweetview::model::Line;
use tweetview::model::Media;
use tweetview::model::MediaKind;
use tweetview::model::Paragraph;
use tweetview::model::Post;
use tweetview::model::RefKind;
use tweetview::model::Reference;
use tweetview::model::Run;
use tweetview::model::UrlAnnotation;
use tweetview::render::assemble;
use tweetview::render::embed_quote;
use tweetview::render::paragraph_runs;
use tweetview::render::render_post;
use tweetview::render::render_timeline;

fn bare_post(id: u64, text: &str) -> Post {
    Post {
        id,
        text: text.to_string(),
        urls: vec![],
        hashtags: vec![],
        mentions: vec![],
        attachment_keys: vec![],
        references: vec![],
    }
}

fn photo(key: &str, url: &str, width: usize, height: usize) -> Media {
    Media {
        key: key.to_string(),
        kind: MediaKind::Photo,
        url: Some(url.to_string()),
        width: Some(width),
        height: Some(height),
    }
}

fn text_run(s: &str) -> Run {
    Run::Text(s.to_string())
}

fn one_line(runs: Vec<Run>) -> Paragraph {
    Paragraph { lines: vec![Line { runs }] }
}

#[test]
fn hello_world_link_scenario() {
    // Two paragraphs; the second holds a link entity covering the url.
    let mut post = bare_post(1, "Hello\n\nWorld https://x.co/y");
    post.urls.push(UrlAnnotation {
        start: 13,
        end: 27,
        url: "https://x.co/y".to_string(),
        display_url: "x.co/y".to_string(),
    });
    let rendered = render_post(&post, &vec![], &vec![]);
    assert_eq!(
        rendered.paragraphs,
        vec![
            one_line(vec![text_run("Hello")]),
            one_line(vec![
                text_run("World "),
                Run::Link { url: "https://x.co/y".to_string(), label: "x.co/y".to_string() },
            ]),
        ]
    );
    assert_eq!(rendered.media, vec![]);
    assert!(rendered.quoted.is_none());
}

#[test]
fn no_entity_round_trip_concrete() {
    let post = bare_post(1, "One\nTwo\n\nThree");
    let rendered = render_post(&post, &vec![], &vec![]);
    assert_eq!(
        rendered.paragraphs,
        vec![
            Paragraph {
                lines: vec![
                    Line { runs: vec![text_run("One")] },
                    Line { runs: vec![text_run("Two")] },
                ],
            },
            one_line(vec![text_run("Three")]),
        ]
    );
}

#[test]
fn malformed_entity_dropped_text_still_renders() {
    // One span runs past the text, one starts past it: both dropped, the
    // text renders plain, no failure.
    let mut post = bare_post(1, "ab");
    post.urls.push(UrlAnnotation {
        start: 1,
        end: 5,
        url: "u1".to_string(),
        display_url: "d1".to_string(),
    });
    post.urls.push(UrlAnnotation {
        start: 3,
        end: 4,
        url: "u2".to_string(),
        display_url: "d2".to_string(),
    });
    let rendered = render_post(&post, &vec![], &vec![]);
    assert_eq!(rendered.paragraphs, vec![one_line(vec![text_run("ab")])]);
}

#[test]
fn quote_cycle_renders_once_and_terminates() {
    // A quotes B and B quotes A: B is nested once under A with its own
    // quote omitted.
    let mut post_a = bare_post(1, "a side");
    let mut post_b = bare_post(2, "b side");
    post_a.references.push(Reference { kind: RefKind::Quoted, target_id: 2 });
    post_b.references.push(Reference { kind: RefKind::Quoted, target_id: 1 });
    let batch = vec![post_a.clone(), post_b.clone()];
    let rendered = render_post(&post_a, &vec![], &batch);
    let quoted = rendered.quoted.expect("quoted post embedded");
    assert_eq!(quoted.paragraphs, vec![one_line(vec![text_run("b side")])]);
    assert!(quoted.quoted.is_none());
}

#[test]
fn replied_and_retweeted_references_ignored() {
    let mut post = bare_post(1, "x");
    let other = bare_post(2, "y");
    post.references.push(Reference { kind: RefKind::Replied, target_id: 2 });
    post.references.push(Reference { kind: RefKind::Retweeted, target_id: 2 });
    let rendered = render_post(&post, &vec![], &vec![other]);
    assert!(rendered.quoted.is_none());
}

#[test]
fn quoted_target_missing_from_batch() {
    let mut post = bare_post(1, "x");
    post.references.push(Reference { kind: RefKind::Quoted, target_id: 99 });
    assert!(embed_quote(&post, &vec![], &vec![bare_post(2, "y")]).is_none());
}

#[test]
fn quoted_post_uses_the_shared_media_pool() {
    // The quoted post's key is looked up in the same pool as the parent's.
    let mut post_a = bare_post(1, "a");
    let mut post_b = bare_post(2, "b");
    post_a.references.push(Reference { kind: RefKind::Quoted, target_id: 2 });
    post_b.attachment_keys.push("kb".to_string());
    let pool = vec![photo("kb", "https://img/b.jpg", 3, 4)];
    let rendered = render_post(&post_a, &pool, &vec![post_b]);
    assert_eq!(rendered.media, vec![]);
    let quoted = rendered.quoted.expect("quoted post embedded");
    assert_eq!(quoted.media, vec![photo("kb", "https://img/b.jpg", 3, 4)]);
}

#[test]
fn first_quoted_reference_wins() {
    let mut post = bare_post(1, "x");
    post.references.push(Reference { kind: RefKind::Quoted, target_id: 2 });
    post.references.push(Reference { kind: RefKind::Quoted, target_id: 3 });
    let batch = vec![bare_post(3, "three"), bare_post(2, "two")];
    let rendered = render_post(&post, &vec![], &batch);
    let quoted = rendered.quoted.expect("quoted post embedded");
    assert_eq!(quoted.paragraphs, vec![one_line(vec![text_run("two")])]);
}

#[test]
fn post_media_filtered_from_pool() {
    let mut post = bare_post(1, "with pictures");
    post.attachment_keys.push("k1".to_string());
    post.attachment_keys.push("k2".to_string());
    let pool = vec![
        photo("k1", "https://img/1.jpg", 640, 480),
        Media {
            key: "k2".to_string(),
            kind: MediaKind::Video,
            url: Some("https://vid/2.mp4".to_string()),
            width: Some(1),
            height: Some(1),
        },
    ];
    let rendered = render_post(&post, &pool, &vec![]);
    assert_eq!(rendered.media, vec![photo("k1", "https://img/1.jpg", 640, 480)]);
}

#[test]
fn timeline_renders_each_post_in_order() {
    let posts = vec![bare_post(1, "first"), bare_post(2, "second")];
    let doc = render_timeline(&posts, &vec![], &vec![]);
    assert_eq!(doc.posts.len(), 2);
    assert_eq!(doc.posts[0].paragraphs, vec![one_line(vec![text_run("first")])]);
    assert_eq!(doc.posts[1].paragraphs, vec![one_line(vec![text_run("second")])]);
}

#[test]
fn assemble_keeps_the_sequence() {
    let a = render_post(&bare_post(1, "a"), &vec![], &vec![]);
    let b = render_post(&bare_post(2, "b"), &vec![], &vec![]);
    let doc = assemble(vec![a, b]);
    assert_eq!(doc.posts.len(), 2);
    assert_eq!(doc.posts[0].paragraphs, vec![one_line(vec![text_run("a")])]);
}

#[test]
fn paragraph_runs_joined_with_line_breaks() {
    let p = Paragraph {
        lines: vec![
            Line { runs: vec![text_run("One")] },
            Line { runs: vec![text_run("Two")] },
            Line { runs: vec![] },
        ],
    };
    assert_eq!(
        paragraph_runs(&p),
        vec![
            text_run("One"),
            Run::LineBreak,
            text_run("Two"),
            Run::LineBreak,
        ]
    );
}

#[test]
fn paragraph_runs_single_line_no_break() {
    let p = one_line(vec![text_run("only")]);
    assert_eq!(paragraph_runs(&p), vec![text_run("only")]);
}
