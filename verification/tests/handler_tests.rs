use irc_hook::message_handler::{get_content, MessageHandler};
use irc_hook::pattern::{match_groups, Pattern};

#[test]
fn test_get_content() {
    let input = ":first part:Hello this is a message".to_string();
    assert_eq!(
        get_content(&input),
        Some("Hello this is a message".to_string())
    );
}

#[test]
fn test_match_groups() {
    let content = r#"Main message 1capture match2 text 1another match2"#;

    let search_pattern = r#"\d(.+?)\d"#;
    let re = Pattern::new(&search_pattern).unwrap();

    let got = match_groups(&re, content);

    assert_eq!(
        got,
        vec![
            vec!["1capture match2".to_string(), "capture match".to_string()],
            vec!["1another match2".to_string(), "another match".to_string()]
        ]
    )
}

#[test]
fn test_get_content_no_colon() {
    assert_eq!(get_content("no colon anywhere"), None);
}

#[test]
fn test_get_content_only_leading_colon() {
    assert_eq!(get_content(":nothing more"), None);
}

#[test]
fn test_get_content_empty_line() {
    assert_eq!(get_content(""), None);
}

#[test]
fn test_get_content_trims_trailing_newline() {
    assert_eq!(get_content(":a:payload \r\n"), Some("payload".to_string()));
}

#[test]
fn test_get_content_skips_any_first_char() {
    assert_eq!(get_content("x:rest"), Some("rest".to_string()));
}

#[test]
fn test_get_content_privmsg_line() {
    assert_eq!(
        get_content(":alice!a@example PRIVMSG #chan :Hello there"),
        Some("Hello there".to_string())
    );
}

#[test]
fn test_get_content_keeps_inner_whitespace() {
    assert_eq!(get_content(":a:  b  c  "), Some("b  c".to_string()));
}

#[test]
fn test_get_content_trims_unicode_whitespace() {
    assert_eq!(
        get_content(":a:\u{a0}payload\u{2028}\u{a0}"),
        Some("payload".to_string())
    );
}

#[test]
fn test_pattern_invalid_is_construction_error() {
    assert!(Pattern::new("(").is_err());
}

#[test]
fn test_pattern_keeps_source() {
    let p = Pattern::new(r"\d+").unwrap();
    assert_eq!(p.source(), r"\d+");
}

#[test]
fn test_classify_single_line_two_matches() {
    let mut handler = MessageHandler::new(r"\d(.+?)\d").unwrap();
    let got = handler.classify("Main message 1capture match2 text 1another match2");
    assert_eq!(
        got,
        vec![
            vec!["1capture match2".to_string(), "capture match".to_string()],
            vec!["1another match2".to_string(), "another match".to_string()]
        ]
    );
}

#[test]
fn test_classify_single_line_no_match() {
    let mut handler = MessageHandler::new(r"\d(.+?)\d").unwrap();
    let got = handler.classify("no digits in here");
    assert!(got.is_empty());
}

#[test]
fn test_classify_multi_line_limit_conclusion() {
    let mut handler =
        MessageHandler::new_multi_line(r"\d(.+?)\d", r"\*\*STARTED\*\*", None, 3).unwrap();

    assert!(handler.classify("irrelevant").is_empty());
    assert_eq!(handler.buffered_lines(), 0);

    assert!(handler.classify("**STARTED** more words").is_empty());
    assert_eq!(handler.buffered_lines(), 1);

    assert!(handler.classify("Main message 1capture match2 text").is_empty());
    assert_eq!(handler.buffered_lines(), 2);

    let got = handler.classify("no match here");
    assert_eq!(
        got,
        vec![vec![
            "1capture match2".to_string(),
            "capture match".to_string()
        ]]
    );
    assert_eq!(handler.buffered_lines(), 0);
}

#[test]
fn test_classify_multi_line_conclude_pattern_conclusion() {
    let mut handler = MessageHandler::new_multi_line(
        r"\d(.+?)\d",
        r"\*\*STARTED\*\*",
        Some(r"\*\*FINISHED\*\*"),
        10,
    )
    .unwrap();

    assert!(handler.classify("**STARTED** begin").is_empty());
    assert!(handler.classify("Main message 1capture match2 text").is_empty());
    assert_eq!(handler.buffered_lines(), 2);

    let got = handler.classify("**FINISHED** done");
    assert_eq!(
        got,
        vec![vec![
            "1capture match2".to_string(),
            "capture match".to_string()
        ]]
    );
    // The idle state is restored the moment the window concludes.
    assert_eq!(handler.buffered_lines(), 0);
}

#[test]
fn test_classify_multi_line_limit_one_degenerates_to_init_line() {
    let mut handler =
        MessageHandler::new_multi_line(r"\d(.+?)\d", r"\*\*STARTED\*\*", None, 1).unwrap();

    let got = handler.classify("**STARTED** 1x2");
    assert_eq!(got, vec![vec!["1x2".to_string(), "x".to_string()]]);
    assert_eq!(handler.buffered_lines(), 0);
}

#[test]
fn test_classify_multi_line_non_matching_window_still_clears() {
    let mut handler =
        MessageHandler::new_multi_line(r"\d(.+?)\d", r"\*\*STARTED\*\*", None, 2).unwrap();

    assert!(handler.classify("**STARTED** opening").is_empty());
    // The window concludes but the candidate holds no match: nothing is
    // produced and the buffer is cleared all the same.
    assert!(handler.classify("still nothing of interest").is_empty());
    assert_eq!(handler.buffered_lines(), 0);

    // A matching payload without a fresh init trigger stays undispatched.
    assert!(handler.classify("late 1match2 is ignored").is_empty());
    assert_eq!(handler.buffered_lines(), 0);
}

#[test]
fn test_classify_multi_line_init_line_matching_conclude_concludes() {
    let mut handler = MessageHandler::new_multi_line(
        r"\d(.+?)\d",
        r"BANNER",
        Some(r"BANNER"),
        10,
    )
    .unwrap();

    // The opening line also satisfies the conclude trigger, so the window
    // closes on the spot, as it does under a line limit of one.
    let got = handler.classify("BANNER 1x2");
    assert_eq!(got, vec![vec!["1x2".to_string(), "x".to_string()]]);
    assert_eq!(handler.buffered_lines(), 0);
}
