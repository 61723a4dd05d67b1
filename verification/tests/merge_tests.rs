use tweetview::merge::merge;
use tweetview::model::Entity;
use tweetview::model::EntityKind;
use tweetview::model::Run;

fn link(start: usize, end: usize, url: &str, label: &str) -> Entity {
    Entity {
        kind: EntityKind::Link,
        start,
        end,
        url: url.to_string(),
        label: label.to_string(),
    }
}

#[test]
fn no_entities_single_text_run() {
    let runs = merge("ab", &vec![], 0, 2);
    assert_eq!(runs, vec![Run::Text("ab".to_string())]);
}

#[test]
fn empty_line_no_runs() {
    let runs = merge("ab", &vec![], 1, 1);
    assert_eq!(runs, vec![]);
}

#[test]
fn entity_in_the_middle() {
    // "a b": the entity covers "b".
    let ents = vec![link(2, 3, "https://x.co/b", "b")];
    let runs = merge("a b", &ents, 0, 3);
    assert_eq!(
        runs,
        vec![
            Run::Text("a ".to_string()),
            Run::Link { url: "https://x.co/b".to_string(), label: "b".to_string() },
        ]
    );
}

#[test]
fn text_after_last_entity() {
    let ents = vec![link(0, 2, "u", "l")];
    let runs = merge("ab cd", &ents, 0, 5);
    assert_eq!(
        runs,
        vec![
            Run::Link { url: "u".to_string(), label: "l".to_string() },
            Run::Text(" cd".to_string()),
        ]
    );
}

#[test]
fn same_start_emits_exactly_one_link() {
    // Two entities share start 0; only the first is consumed, the text is
    // not duplicated, and the merge terminates.
    let ents = vec![link(0, 2, "first", "f"), link(0, 4, "second", "s")];
    let runs = merge("abcdef", &ents, 0, 6);
    assert_eq!(
        runs,
        vec![
            Run::Link { url: "first".to_string(), label: "f".to_string() },
            Run::Text("cdef".to_string()),
        ]
    );
}

#[test]
fn overlapping_later_entity_skipped() {
    // The second entity starts inside the first's span and is skipped.
    let ents = vec![link(1, 4, "outer", "o"), link(2, 5, "inner", "i")];
    let runs = merge("abcdef", &ents, 0, 6);
    assert_eq!(
        runs,
        vec![
            Run::Text("a".to_string()),
            Run::Link { url: "outer".to_string(), label: "o".to_string() },
            Run::Text("ef".to_string()),
        ]
    );
}

#[test]
fn entity_running_past_line_end() {
    // The entity starts inside the line but ends past it: it is emitted
    // and nothing follows, since the cursor passed the line end.
    let ents = vec![link(1, 4, "u", "l")];
    let runs = merge("abcd", &ents, 0, 2);
    assert_eq!(
        runs,
        vec![
            Run::Text("a".to_string()),
            Run::Link { url: "u".to_string(), label: "l".to_string() },
        ]
    );
}

#[test]
fn entity_outside_line_not_selected() {
    // The entity starts before the line's range and takes no part in it.
    let ents = vec![link(0, 2, "u", "l")];
    let runs = merge("abcd", &ents, 2, 4);
    assert_eq!(runs, vec![Run::Text("cd".to_string())]);
}

#[test]
fn reconstruction_from_source_spans() {
    // Non-overlapping entities fully inside the line: text runs verbatim
    // plus each link entity's own span concatenate back to the line.
    let text = "ab cd ef";
    let ents = vec![link(0, 2, "u1", "l1"), link(3, 5, "u2", "l2")];
    let runs = merge(text, &ents, 0, 8);
    let mut rebuilt = String::new();
    let mut next_link = 0;
    for run in &runs {
        match run {
            Run::Text(t) => rebuilt.push_str(t),
            Run::Link { .. } => {
                let e = &ents[next_link];
                next_link += 1;
                let span: String = text.chars().skip(e.start).take(e.end - e.start).collect();
                rebuilt.push_str(&span);
            }
            Run::LineBreak => unreachable!(),
        }
    }
    assert_eq!(rebuilt, text);
    assert_eq!(next_link, 2);
}

#[test]
fn multibyte_text_sliced_on_codepoints() {
    // Offsets count codepoints, not bytes: the emoji weighs one.
    let text = "\u{1f600} ok";
    let ents = vec![link(2, 4, "u", "ok")];
    let runs = merge(text, &ents, 0, 4);
    assert_eq!(
        runs,
        vec![
            Run::Text("\u{1f600} ".to_string()),
            Run::Link { url: "u".to_string(), label: "ok".to_string() },
        ]
    );
}
