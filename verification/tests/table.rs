use port_sweeper::table::{split_fields, split_rows, trim, Span};
use port_sweeper::text::chars_of;

fn pieces(text: &str, spans: &[Span]) -> Vec<String> {
    let chars: Vec<char> = text.chars().collect();
    spans.iter().map(|s| chars[s.start..s.end].iter().collect()).collect()
}

const SAMPLES: [&str; 14] = [
    "",
    "\n",
    "\n\n",
    "a",
    "a\n",
    "\na",
    "a\nb",
    "a\r\nb\r\n",
    "  TCP    0.0.0.0:135   0.0.0.0:0   LISTENING   1040  ",
    "\t tab\u{a0}and\u{3000}wide \u{2003}spaces\u{85}\n next\u{1680}row ",
    "4321\n  77 \n\n4321\n",
    " \t\r\n \u{2028} ",
    "状态 本地地址\n协议",
    "x\u{200b}y z",
];

#[test]
fn rows_are_the_pieces_between_line_feeds() {
    for text in SAMPLES {
        let spans = split_rows(&chars_of(text));
        let expected: Vec<String> = text.split('\n').map(String::from).collect();
        assert_eq!(pieces(text, &spans), expected, "text {:?}", text);
    }
}

#[test]
fn rows_of_a_small_table_have_these_positions() {
    let spans = split_rows(&chars_of("ab\n\ncde"));
    assert_eq!(
        spans,
        vec![Span { start: 0, end: 2 }, Span { start: 3, end: 3 }, Span { start: 4, end: 7 }]
    );
    assert_eq!(split_rows(&chars_of("")), vec![Span { start: 0, end: 0 }]);
    assert_eq!(
        split_rows(&chars_of("\n")),
        vec![Span { start: 0, end: 0 }, Span { start: 1, end: 1 }]
    );
}

#[test]
fn fields_are_the_pieces_between_whitespace() {
    for text in SAMPLES {
        let spans = split_fields(&chars_of(text));
        let expected: Vec<String> = text.split_whitespace().map(String::from).collect();
        assert_eq!(pieces(text, &spans), expected, "text {:?}", text);
    }
}

#[test]
fn fields_of_a_socket_row_have_these_positions() {
    let spans = split_fields(&chars_of("  TCP  [::]:80 [::]:0\tLISTENING 4 "));
    assert_eq!(
        spans,
        vec![
            Span { start: 2, end: 5 },
            Span { start: 7, end: 14 },
            Span { start: 15, end: 21 },
            Span { start: 22, end: 31 },
            Span { start: 32, end: 33 },
        ]
    );
    assert_eq!(split_fields(&chars_of("")), vec![]);
    assert_eq!(split_fields(&chars_of(" \t ")), vec![]);
}

#[test]
fn trimming_removes_whitespace_at_both_ends_only() {
    for text in SAMPLES {
        let span = trim(&chars_of(text));
        assert_eq!(pieces(text, &[span]), vec![text.trim().to_string()], "text {:?}", text);
    }
}

#[test]
fn trimming_a_row_gives_these_positions() {
    assert_eq!(trim(&chars_of("  12 34\r")), Span { start: 2, end: 7 });
    assert_eq!(trim(&chars_of("1234")), Span { start: 0, end: 4 });
    let blank = trim(&chars_of("   "));
    assert_eq!(blank.start, blank.end);
    let empty = trim(&chars_of(""));
    assert_eq!(empty, Span { start: 0, end: 0 });
}
