use knus::span::{OffsetTracker, Span, Spanned};

#[test]
fn test_line_column() {
    let text = "Hello\nWorld!\nThis is a test.\n";
    let span = Span(6, 12); // "World!"
    let ((start_line, start_col), (end_line, end_col)) = span.to_line_column(text);
    assert_eq!((start_line, start_col), (1, 0));
    assert_eq!((end_line, end_col), (1, 6));
    let span2 = Span(0, 5); // "Hello"
    let ((s_line, s_col), (e_line, e_col)) = span2.to_line_column(text);
    assert_eq!((s_line, s_col), (0, 0));
    assert_eq!((e_line, e_col), (0, 5));
    let span3 = Span(17, 25); // " is a te"
    let ((s_line3, s_col3), (e_line3, e_col3)) = span3.to_line_column(text);
    assert_eq!((s_line3, s_col3), (2, 4));
    assert_eq!((e_line3, e_col3), (2, 12));
}

#[test]
fn test_line_column_carriage_return() {
    let text = "Line1\rLine2\r\nLine3\nLine4";
    let span = Span(6, 11); // "Line2"
    let ((start_line, start_col), (end_line, end_col)) = span.to_line_column(text);
    assert_eq!((start_line, start_col), (1, 0));
    assert_eq!((end_line, end_col), (1, 5));
}

#[test]
fn test_line_column_multi_byte() {
    let text = "Hellö\n, Flöße";
    let span = Span(9, 16); // "Flöße"
    println!("Span: {}", &text[9..16]);
    let ((start_line, start_col), (end_line, end_col)) = span.to_line_column(text);
    assert_eq!((start_line, start_col), (1, 2));
    assert_eq!((end_line, end_col), (1, 7));
}

#[test]
fn line_column_checked() {
    let text = "ab\ncd";
    assert_eq!(Span(3, 5).try_to_line_column(text), Some(((1, 0), (1, 2))));
    // past the end of the text
    assert_eq!(Span(3, 9).try_to_line_column(text), None);
    // start after end
    assert_eq!(Span(4, 3).try_to_line_column(text), None);
    // inside a multi-byte character
    assert_eq!(Span(1, 2).try_to_line_column("ö"), None);
}

#[test]
fn line_column_crlf_counts_once() {
    // `\r\n` ends one line; its `\n` stays at the start of the next line
    // and counts in the width of what comes before a column there
    let text = "a\r\nb";
    assert_eq!(Span(3, 4).to_line_column(text), ((1, 1), (1, 2)));
    let text = "a\n\rb";
    assert_eq!(Span(3, 4).to_line_column(text), ((2, 0), (2, 1)));
}

#[test]
fn line_column_wide_chars() {
    // an east asian wide character takes two columns
    let text = "中x";
    assert_eq!(Span(3, 4).to_line_column(text), ((0, 2), (0, 3)));
}

#[test]
fn span_helpers() {
    let s = Span::new(4, 10);
    assert_eq!(s.start(), 4);
    assert_eq!(s.end(), 10);
    assert_eq!(s.at_start(2), Span(4, 6));
    assert_eq!(s.at_end(), Span(10, 10));
    assert_eq!(s.before_start(3), Span(1, 4));
    assert_eq!(s.before_start(9), Span(0, 4));
    assert_eq!(s.length(), 6);
    assert_eq!(Span(5, 2).length(), 0);
    assert_eq!(Span(5, 2).error_span(), (5, 0));
    assert_eq!(s.at_start(0).length(), 0);
    assert_eq!(s.at_end().length(), 0);
}

#[test]
fn offset_tracker_counts_bytes() {
    let mut t = OffsetTracker::new();
    assert_eq!(t.next_span('a'), Span(0, 1));
    assert_eq!(t.next_span('ö'), Span(1, 3));
    assert_eq!(t.next_span('🚀'), Span(3, 7));
    assert_eq!(t.next_span('中'), Span(7, 10));
}

#[test]
fn stream_spans() {
    let mut st = Span::stream("aö\n");
    assert_eq!(st.next(), Some(('a', Span(0, 1))));
    assert_eq!(st.next(), Some(('ö', Span(1, 3))));
    assert_eq!(st.next(), Some(('\n', Span(3, 4))));
    assert_eq!(st.next(), None);
    assert_eq!(st.next(), None);
}

#[test]
fn spanned_map_and_span() {
    let s = Spanned { span: Span(1, 3), value: 21u32 };
    let d = s.map(|x| x * 2);
    assert_eq!(*d.span(), Span(1, 3));
    assert_eq!(*d, 42);
}

#[test]
fn span_end_is_placed_where_the_text_before_it_ends() {
    let text = "ab\ncd\r\nef g";
    for (a, b) in [(1, 7), (0, 11), (3, 5), (8, 10)] {
        let (_, end) = Span(a, b).to_line_column(text);
        let (end_alone, _) = Span(b, b).to_line_column(text);
        assert_eq!(end, end_alone, "{}..{}", a, b);
    }
    // a span that starts between `\r` and `\n` counts the `\n` as a line break
    let (start, end) = Span(6, 8).to_line_column(text);
    assert_eq!(start, (2, 0));
    assert_eq!(end, (3, 1));
    // without that split, the `\n` after `\r` starts no line of its own
    assert_eq!(Span(8, 8).to_line_column(text).0, (2, 2));
}
