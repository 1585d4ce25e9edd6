use love_api::text_value::{colored_segments, extract_text, TextPart};

fn text(s: &str) -> TextPart {
    TextPart::Text(s.to_owned())
}

#[test]
fn colored_text_keeps_numeric_counts_and_colours() {
    let parts = vec![
        TextPart::Color([0, 0, 255, 255]),
        text("3"),
        text(" hands"),
        TextPart::Color([255, 0, 0, 127]),
        text("-2"),
    ];
    assert_eq!(
        colored_segments(&parts).unwrap(),
        vec![
            ([0, 0, 255, 255], "3".to_owned()),
            ([0, 0, 255, 255], " hands".to_owned()),
            ([255, 0, 0, 127], "-2".to_owned()),
        ]
    );
    assert_eq!(extract_text(&parts), "3 hands-2");
}

#[test]
fn empty_text_gives_no_segments() {
    assert!(colored_segments(&vec![TextPart::Color([255, 255, 255, 255]), text("")]).is_none());
    assert!(colored_segments(&vec![]).is_none());
    assert_eq!(extract_text(&vec![]), "");
}

#[test]
fn text_before_any_colour_is_white() {
    assert_eq!(colored_segments(&vec![text("a")]).unwrap(), vec![([255; 4], "a".to_owned())]);
}
