use repeat::{
    content_to_card, find_cloze_ranges, is_markdown, is_md_extension, strip_tag, trim_line,
    validate_file_can_be_card, CardContent, CardError,
};

#[test]
fn basic_qa() {
    let card_path = "test.md";

    let card = content_to_card(card_path, "");
    assert!(card.is_err());

    let card = content_to_card(card_path, "what am i doing here");
    assert!(card.is_err());

    let content = "Q: what?\nA: yes\n\n";
    let card = content_to_card(card_path, content);
    if let CardContent::Basic { question, answer } = &card.expect("should be basic").content {
        assert_eq!(question, "what?");
        assert_eq!(answer, "yes");
    } else {
        panic!("Expected CardContent::Basic");
    }

    let content = "Q: what?\nA: \n\n";
    let card = content_to_card(card_path, content);
    assert!(card.is_err());
}

#[test]
fn basic_cloze() {
    let card_path = "test.md";

    let content = "C: ping? [pong]";
    let card = content_to_card(card_path, content);
    if let CardContent::Cloze { text, start, end } = &card.expect("should be basic").content {
        assert_eq!(text, "ping? [pong]");
        assert_eq!(*start, 6_usize);
        assert_eq!(*end, 11_usize);
    } else {
        panic!("Expected CardContent::Cloze");
    }
}

#[test]
fn card_keeps_its_path() {
    let card = content_to_card("deck/a.md", "Q: x\nA: y").unwrap();
    assert_eq!(card.file_path, "deck/a.md");
}

#[test]
fn last_tagged_line_wins() {
    let card = content_to_card("a.md", "Q: one\nQ: two\r\n  A:   three  \n").unwrap();
    assert_eq!(
        card.content,
        CardContent::Basic { question: "two".to_string(), answer: "three".to_string() }
    );
}

#[test]
fn later_empty_question_clears_earlier_one() {
    assert_eq!(content_to_card("a.md", "Q: one\nA: x\nQ:"), Err(CardError::Unrecognized));
}

#[test]
fn basic_card_wins_over_cloze() {
    let card = content_to_card("a.md", "C: a [b]\nQ: q\nA: a").unwrap();
    assert!(matches!(card.content, CardContent::Basic { .. }));
}

#[test]
fn cloze_without_brackets_is_an_error() {
    assert_eq!(content_to_card("a.md", "C: no brackets here"), Err(CardError::MissingClozeText));
}

#[test]
fn cloze_offsets_are_bytes() {
    let card = content_to_card("a.md", "C: é [x] [y]").unwrap();
    assert_eq!(
        card.content,
        CardContent::Cloze { text: "é [x] [y]".to_string(), start: 3, end: 5 }
    );
}

#[test]
fn unrecognized_text_is_an_error() {
    assert_eq!(content_to_card("a.md", "A: only an answer"), Err(CardError::Unrecognized));
}

#[test]
fn cloze_ranges_pair_brackets() {
    assert_eq!(find_cloze_ranges("a[b]c[d"), vec![(1, 3)]);
    assert_eq!(find_cloze_ranges("]x[[y]z]"), vec![(2, 5)]);
    assert_eq!(find_cloze_ranges(""), vec![]);
}

#[test]
fn trim_line_trims_or_gives_none() {
    assert_eq!(trim_line("  hello \t"), Some("hello".to_string()));
    assert_eq!(trim_line(" \t "), None);
    assert_eq!(trim_line(""), None);
}

#[test]
fn strip_tag_takes_two_characters() {
    assert_eq!(strip_tag("Q: x", 'Q', ':'), Some(" x"));
    assert_eq!(strip_tag("A: x", 'Q', ':'), None);
    assert_eq!(strip_tag("Q", 'Q', ':'), None);
}

#[test]
fn markdown_extension_any_case() {
    assert!(is_markdown("notes/card.md"));
    assert!(is_markdown("card.MD"));
    assert!(!is_markdown("card.txt"));
    assert!(!is_markdown("md"));
    assert!(!is_markdown(".md"));
    assert!(is_md_extension("mD"));
    assert!(!is_md_extension("mdx"));
}

#[test]
fn validate_path_errors() {
    assert_eq!(validate_file_can_be_card("   ".to_string(), false), Err(CardError::EmptyPath));
    assert_eq!(validate_file_can_be_card("deck".to_string(), true), Err(CardError::Directory));
    assert_eq!(
        validate_file_can_be_card("card.txt".to_string(), false),
        Err(CardError::NotMarkdown)
    );
    assert_eq!(
        validate_file_can_be_card("  card.md \n".to_string(), false),
        Ok("card.md".to_string())
    );
}
