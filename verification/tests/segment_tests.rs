use tweetview::segment::line_ranges;
use tweetview::segment::segment;

#[test]
fn two_paragraphs() {
    let text = "Hello\n\nWorld";
    assert_eq!(segment(text), vec![(0, 5), (7, 12)]);
    assert_eq!(line_ranges(text, 0, 5), vec![(0, 5)]);
    assert_eq!(line_ranges(text, 7, 12), vec![(7, 12)]);
}

#[test]
fn single_paragraph_whole_text() {
    let text = "just one line";
    assert_eq!(segment(text), vec![(0, 13)]);
}

#[test]
fn trailing_separator_not_emitted() {
    assert_eq!(segment("a\n\n"), vec![(0, 1)]);
    assert_eq!(line_ranges("x\n", 0, 2), vec![(0, 1)]);
}

#[test]
fn empty_text_is_one_empty_paragraph() {
    assert_eq!(segment(""), vec![(0, 0)]);
    assert_eq!(line_ranges("", 0, 0), vec![(0, 0)]);
}

#[test]
fn leading_separator_keeps_empty_paragraph() {
    assert_eq!(segment("\n\na"), vec![(0, 0), (2, 3)]);
}

#[test]
fn three_newlines_leave_an_empty_line() {
    // "a" then separator then a lone newline: second paragraph is "\n",
    // whose split keeps one empty line and drops the trailing segment.
    let text = "a\n\n\n";
    assert_eq!(segment(text), vec![(0, 1), (3, 4)]);
    assert_eq!(line_ranges(text, 3, 4), vec![(3, 3)]);
}

#[test]
fn lines_split_on_single_newlines() {
    let text = "x\ny\nz";
    assert_eq!(segment(text), vec![(0, 5)]);
    assert_eq!(line_ranges(text, 0, 5), vec![(0, 1), (2, 3), (4, 5)]);
}

#[test]
fn empty_line_in_the_middle_of_a_paragraph() {
    // A paragraph handed over as a range can still hold a lone newline.
    let text = "\nb";
    assert_eq!(line_ranges(text, 0, 2), vec![(0, 0), (1, 2)]);
}
