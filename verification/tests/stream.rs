use oxide_rs::cli::stream::strip_special_tokens;
use oxide_rs::text::replace_all;

#[test]
fn markers_are_taken_out() {
    assert_eq!(strip_special_tokens("<|im_start|>assistant\nhello<|im_end|>"), "hello");
    assert_eq!(strip_special_tokens("<s>a</s><pad>b<|sep|>c<|end|><|start|>"), "abc");
    assert_eq!(strip_special_tokens("<|im_start|>user hi"), "hi");
    assert_eq!(strip_special_tokens("<|im_start|>system<|im_start|>"), "");
    assert_eq!(strip_special_tokens("plain text"), "plain text");
    assert_eq!(strip_special_tokens(""), "");
}

#[test]
fn markers_go_in_their_order() {
    assert_eq!(strip_special_tokens("<|im_start|>users"), "s");
    assert_eq!(strip_special_tokens("<<s>s>"), "<s>");
    assert_eq!(strip_special_tokens("<|im_<s>end|>"), "<|im_end|>");
}

#[test]
fn breaks_become_line_feeds() {
    assert_eq!(strip_special_tokens("a<br>b"), "a\nb");
    assert_eq!(strip_special_tokens("a\\nb"), "a\nb");
    assert_eq!(strip_special_tokens("a<br><br>b"), "a\n\nb");
}

#[test]
fn blank_lines_are_cut_down_to_one() {
    assert_eq!(strip_special_tokens("a\n\n\nb"), "a\n\nb");
    assert_eq!(strip_special_tokens("a\n\n\n\n\n\n\nb"), "a\n\nb");
    assert_eq!(strip_special_tokens("a<br>\n\\n\nb\n\nc"), "a\n\nb\n\nc");
    assert_eq!(strip_special_tokens("a\n\nb"), "a\n\nb");
}

#[test]
fn white_space_at_the_ends_is_dropped() {
    assert_eq!(strip_special_tokens("  a b \n"), "a b");
    assert_eq!(strip_special_tokens("\u{a0}\u{3000}a\u{2003}b\u{2028}\t"), "a\u{2003}b");
    assert_eq!(strip_special_tokens(" \n\n\n "), "");
    assert_eq!(strip_special_tokens("<br>a<br>"), "a");
    assert_eq!(strip_special_tokens("\u{200b}a\u{200b}"), "\u{200b}a\u{200b}");
}

#[test]
fn replacing_goes_from_left_to_right() {
    assert_eq!(replace_all("aaa", "aa", "b"), "ba");
    assert_eq!(replace_all("abcabc", "bc", ""), "aa");
    assert_eq!(replace_all("abc", "", "x"), "abc");
    assert_eq!(replace_all("abc", "abcd", "x"), "abc");
    assert_eq!(replace_all("\u{e9}t\u{e9}", "t", "\u{2581}"), "\u{e9}\u{2581}\u{e9}");
}
