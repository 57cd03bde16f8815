use oxide_rs::cli::history::History;
use oxide_rs::inference::generator::Message;

fn turns(h: &[Message]) -> Vec<(String, String)> {
    h.iter().map(|m| (m.role.clone(), m.content.clone())).collect()
}

fn pair(role: &str, content: &str) -> (String, String) {
    (role.to_string(), content.to_string())
}

fn three() -> History {
    let mut h = History::new();
    h.add("user", "hi");
    h.add("assistant", "hello");
    h.add("user", "bye");
    h
}

#[test]
fn a_history_keeps_its_turns_in_order() {
    let h = three();
    assert_eq!(
        turns(h.messages()),
        vec![pair("user", "hi"), pair("assistant", "hello"), pair("user", "bye")]
    );
    assert!(History::new().messages().is_empty());
    assert!(History::default().messages().is_empty());
}

#[test]
fn the_last_turns_are_the_newest() {
    let h = three();
    assert_eq!(turns(h.last_n_messages(2)), vec![pair("assistant", "hello"), pair("user", "bye")]);
    assert_eq!(turns(h.last_n_messages(3)).len(), 3);
    assert_eq!(turns(h.last_n_messages(9)).len(), 3);
    assert!(h.last_n_messages(0).is_empty());
}

#[test]
fn turns_are_quoted_with_a_blank_line_between() {
    let h = three();
    assert_eq!(h.format_for_context(2), "assistant: hello\n\nuser: bye");
    assert_eq!(h.format_for_context(1), "user: bye");
    assert_eq!(h.format_for_context(0), "");
    assert_eq!(h.format_for_context(10), "user: hi\n\nassistant: hello\n\nuser: bye");
    assert_eq!(History::new().format_for_context(3), "");
}

#[test]
fn clearing_forgets_every_turn() {
    let mut h = three();
    h.clear();
    assert!(h.messages().is_empty());
    h.add("user", "again");
    assert_eq!(turns(h.messages()), vec![pair("user", "again")]);
}

#[test]
fn a_history_can_be_made_of_turns() {
    let h = History::from_messages(vec![Message {
        role: "system".to_string(),
        content: "be brief".to_string(),
    }]);
    assert_eq!(h.format_for_context(5), "system: be brief");
}
