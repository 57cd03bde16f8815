use oxide_rs::ui::chat::{wrap_text, ChatWidget};

fn turns(w: &ChatWidget) -> Vec<(String, String)> {
    w.messages().iter().map(|m| (m.role.clone(), m.content.clone())).collect()
}

fn pair(role: &str, content: &str) -> (String, String) {
    (role.to_string(), content.to_string())
}

#[test]
fn a_reply_is_written_into_the_last_turn() {
    let mut w = ChatWidget::new("tiny");
    assert_eq!(w.model_name(), "tiny");
    assert!(!w.is_streaming());
    w.add_message("User", "hi");
    w.start_streaming("Assistant");
    assert!(w.is_streaming());
    assert_eq!(turns(&w), vec![pair("User", "hi"), pair("Assistant", "")]);
    w.append_token("hel");
    w.append_token("lo");
    assert_eq!(turns(&w), vec![pair("User", "hi"), pair("Assistant", "hello")]);
    w.finish_streaming();
    assert!(!w.is_streaming());
    w.append_token("!");
    assert_eq!(turns(&w), vec![pair("User", "hi"), pair("Assistant", "hello")]);
}

#[test]
fn a_complete_turn_ends_the_writing() {
    let mut w = ChatWidget::new("tiny");
    w.start_streaming("Assistant");
    w.append_token("a");
    w.add_message("System", "Generation cancelled");
    assert!(!w.is_streaming());
    w.append_token("b");
    assert_eq!(turns(&w), vec![pair("Assistant", "a"), pair("System", "Generation cancelled")]);
}

#[test]
fn tokens_without_a_turn_go_nowhere() {
    let mut w = ChatWidget::new("tiny");
    w.append_token("a");
    assert!(turns(&w).is_empty());
}

#[test]
fn text_is_broken_at_the_width() {
    assert_eq!(wrap_text("abcdefghijklmnopqrstuvwxy", 10), vec!["abcdefghij", "klmnopqrst", "uvwxy"]);
    assert_eq!(wrap_text("abcdefghij", 10), vec!["abcdefghij"]);
    assert_eq!(wrap_text("abcdefghijk", 10), vec!["abcdefghij", "k"]);
    assert_eq!(wrap_text("short", 40), vec!["short"]);
    assert_eq!(wrap_text("", 40), vec![""]);
    let accents = "\u{e9}".repeat(12);
    assert_eq!(wrap_text(&accents, 10), vec!["\u{e9}".repeat(10), "\u{e9}".repeat(2)]);
}

#[test]
fn line_feeds_end_lines() {
    assert_eq!(wrap_text("ab\ncd", 20), vec!["ab", "", "cd"]);
    assert_eq!(wrap_text("\n", 20), vec![""]);
    assert_eq!(wrap_text("ab\n", 20), vec!["ab", ""]);
    assert_eq!(wrap_text("\n\nab", 20), vec!["", "", "ab"]);
    let lines = wrap_text("abcdefghijkl\nmn", 10);
    assert_eq!(lines, vec!["abcdefghij", "kl", "", "mn"]);
    assert_eq!(lines.concat(), "abcdefghijklmn");
    assert!(lines.iter().all(|l| l.chars().count() <= 10 && !l.contains('\n')));
}

#[test]
fn a_narrow_window_shows_the_head_of_the_text() {
    assert_eq!(wrap_text("ab\ncd", 9), vec!["ab\ncd"]);
    assert_eq!(wrap_text("abc", 0), vec!["abc"]);
    let long = "x".repeat(250);
    assert_eq!(wrap_text(&long, 5), vec!["x".repeat(200)]);
    assert_eq!(wrap_text(&"y".repeat(200), 5), vec!["y".repeat(200)]);
}
