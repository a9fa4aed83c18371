use backend::digits::u64_to_dec;
use backend::text::{chat_reply, format_slide_suggestions, greet, is_blank};

#[test]
fn decimal_rendering() {
    assert_eq!(u64_to_dec(0), "0");
    assert_eq!(u64_to_dec(7), "7");
    assert_eq!(u64_to_dec(42), "42");
    assert_eq!(u64_to_dec(1000), "1000");
    assert_eq!(u64_to_dec(u64::MAX), "18446744073709551615");
}

#[test]
fn greeting() {
    assert_eq!(greet("World".to_string()), "Hello, World!");
    assert_eq!(greet("".to_string()), "Hello, !");
}

#[test]
fn chat_reply_uses_content_when_present() {
    let r = chat_reply(Some("an answer".to_string()), "fallback".to_string());
    assert_eq!(r, "an answer");
}

#[test]
fn chat_reply_falls_back_when_absent() {
    let r = chat_reply(None, "Sorry, I couldn't generate a response. Please try again.".to_string());
    assert_eq!(r, "Sorry, I couldn't generate a response. Please try again.");
}

#[test]
fn blankness() {
    assert!(is_blank(""));
    assert!(is_blank("   "));
    assert!(is_blank(" \t\r\n"));
    assert!(is_blank("\u{A0}\u{2003}"));
    assert!(!is_blank(" a "));
    assert!(!is_blank("x"));
}

#[test]
fn suggestions_keep_marked_lines_only() {
    let text = "Here are 5 topics:\n- Intro\n1. History\n* Nothing\nJust text\n- Closing  \n";
    let got = format_slide_suggestions(text);
    assert_eq!(got, vec!["Intro", "1. History", "Closing"]);
}

#[test]
fn suggestions_strip_leading_markers() {
    let got = format_slide_suggestions("--- Dash\n...dots\n-.-mix");
    assert_eq!(got, vec!["Dash", "dots", "-mix"]);
}

#[test]
fn suggestions_handle_crlf_lines() {
    let got = format_slide_suggestions("A-line\r\nB.line\r\n");
    assert_eq!(got, vec!["A-line", "B.line"]);
}

#[test]
fn suggestions_keep_inner_spacing() {
    let got = format_slide_suggestions("-  Hello World \n");
    assert_eq!(got, vec!["Hello World"]);
}

#[test]
fn suggestions_of_empty_and_plain_text() {
    assert!(format_slide_suggestions("").is_empty());
    assert!(format_slide_suggestions("no markers here\nnone there either").is_empty());
}
