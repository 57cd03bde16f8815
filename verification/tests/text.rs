use oxide_rs::text::{
    chars_of, dotted_key, same_text, text_contains, text_ends_with, text_from, text_trim,
};

#[test]
fn texts_are_equal_when_their_characters_are() {
    assert!(same_text("", ""));
    assert!(same_text("abc", "abc"));
    assert!(same_text("\u{e9}t\u{e9}", "\u{e9}t\u{e9}"));
    assert!(!same_text("abc", "abd"));
    assert!(!same_text("abc", "ab"));
    assert!(!same_text("", "a"));
    assert!(!same_text("e\u{301}", "\u{e9}"));
}

#[test]
fn a_text_ends_with_its_tails() {
    assert!(text_ends_with("llama.block_count", ".block_count"));
    assert!(text_ends_with("abc", ""));
    assert!(text_ends_with("abc", "abc"));
    assert!(text_ends_with("", ""));
    assert!(!text_ends_with("abc", "ab"));
    assert!(!text_ends_with("bc", "abc"));
    assert!(!text_ends_with("llama.block_count", ".block_counts"));
    assert!(text_ends_with("caf\u{e9}", "f\u{e9}"));
    assert!(!text_ends_with("caf\u{e9}", "fe"));
}

#[test]
fn a_text_contains_its_parts() {
    assert!(text_contains("my_unk_token", "unk"));
    assert!(text_contains("unk", "unk"));
    assert!(text_contains("abc", ""));
    assert!(text_contains("", ""));
    assert!(text_contains("aab", "ab"));
    assert!(text_contains("xx\u{2581}yy", "\u{2581}y"));
    assert!(!text_contains("un k", "unk"));
    assert!(!text_contains("", "a"));
    assert!(!text_contains("ab", "abc"));
    assert!(!text_contains("abab", "bb"));
}

#[test]
fn trimming_drops_white_space_at_the_ends_only() {
    assert_eq!(text_trim("  a  b  "), "a  b");
    assert_eq!(text_trim("\t\n\u{b}\u{c}\ra\u{85}\u{a0}"), "a");
    assert_eq!(text_trim("\u{1680}\u{2000}\u{200a}\u{2028}\u{2029}\u{202f}\u{205f}\u{3000}"), "");
    assert_eq!(text_trim(""), "");
    assert_eq!(text_trim("a"), "a");
    assert_eq!(text_trim("\u{200b} a \u{feff}"), "\u{200b} a \u{feff}");
    for text in ["  x ", "\u{1c}x\u{1f}", "\u{180e}x", "\u{200b}", " \u{2007}x\u{2008} "] {
        assert_eq!(text_trim(text), text.trim(), "for {:?}", text);
    }
}

#[test]
fn characters_and_text_go_back_and_forth() {
    assert_eq!(chars_of("h\u{e9}!"), vec!['h', '\u{e9}', '!']);
    assert_eq!(chars_of(""), Vec::<char>::new());
    assert_eq!(text_from(&vec!['h', '\u{e9}', '!']), "h\u{e9}!");
    assert_eq!(text_from(&Vec::new()), "");
}

#[test]
fn a_key_is_a_prefix_a_dot_and_a_suffix() {
    assert_eq!(dotted_key("llama", "block_count"), "llama.block_count");
    assert_eq!(dotted_key("", "x"), ".x");
    assert_eq!(dotted_key("a", ""), "a.");
}
