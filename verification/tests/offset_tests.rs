use tweetview::offsets::resolve;
use tweetview::offsets::slice_codepoints;

#[test]
fn resolve_ascii() {
    let text = "hello";
    assert_eq!(resolve(text, 0), 0);
    assert_eq!(resolve(text, 3), 3);
    assert_eq!(resolve(text, 5), 5);
}

#[test]
fn resolve_multibyte() {
    // 'a' is 1 byte, 'é' 2 bytes, '€' 3 bytes, '😀' 4 bytes.
    let text = "a\u{e9}\u{20ac}\u{1f600}x";
    assert_eq!(resolve(text, 0), 0);
    assert_eq!(resolve(text, 1), 1);
    assert_eq!(resolve(text, 2), 3);
    assert_eq!(resolve(text, 3), 6);
    assert_eq!(resolve(text, 4), 10);
    assert_eq!(resolve(text, 5), 11);
}

#[test]
fn slice_by_codepoints_multibyte() {
    let text = "a\u{e9}\u{20ac}\u{1f600}x";
    assert_eq!(slice_codepoints(text, 1, 4), "\u{e9}\u{20ac}\u{1f600}");
    assert_eq!(slice_codepoints(text, 0, 5), text);
    assert_eq!(slice_codepoints(text, 2, 2), "");
}

#[test]
fn slice_matches_rust_chars() {
    let text = "W\u{f6}rld \u{1f310} web";
    let by_chars: String = text.chars().skip(2).take(5).collect();
    assert_eq!(slice_codepoints(text, 2, 7), by_chars);
}
