//! Cleaning of generated text before it is shown.

use vstd::prelude::*;
use crate::text::{
    lemma_replace_shrinks, occurs_in, replace_all, replaced, text_contains, text_trim,
    trimmed,
};

verus! {

/// The markers that a model may leave in its output, in the order in which
/// they are taken out.
pub open spec fn special_markers() -> Seq<Seq<char>> {
    seq![
        "<|im_start|>user"@,
        "<|im_start|>assistant"@,
        "<|im_start|>system"@,
        "<|im_start|>"@,
        "<|im_end|>"@,
        "<|end|>"@,
        "<|start|>"@,
        "<|sep|>"@,
        "<s>"@,
        "</s>"@,
        "<pad>"@,
    ]
}

/// `text` with the first `n` of `markers` taken out, one after the other.
pub open spec fn without_markers(text: Seq<char>, markers: Seq<Seq<char>>, n: nat) -> Seq<char>
    decreases n,
{
    if n == 0 {
        text
    } else {
        replaced(without_markers(text, markers, (n - 1) as nat), markers[n - 1], Seq::empty())
    }
}

/// `text` with every run of three line feeds or more cut down until no
/// three line feeds stand together.
pub open spec fn collapsed(text: Seq<char>) -> Seq<char>
    decreases text.len(),
{
    if occurs_in(text, "\n\n\n"@) {
        proof {
            reveal_strlit("\n\n\n");
            reveal_strlit("\n\n");
            lemma_replace_shrinks(text, "\n\n\n"@, "\n\n"@);
        }
        collapsed(replaced(text, "\n\n\n"@, "\n\n"@))
    } else {
        text
    }
}

/// Text as it is shown: the markers taken out, `<br>` and a written-out
/// `\n` turned into line feeds, blank lines cut down, and no white space
/// at either end.
pub open spec fn stripped(input: Seq<char>) -> Seq<char> {
    let bare = without_markers(input, special_markers(), special_markers().len());
    let fed = replaced(replaced(bare, "<br>"@, "\n"@), "\\n"@, "\n"@);
    trimmed(collapsed(fed))
}

fn markers() -> (list: Vec<&'static str>)
    ensures
        list@.map_values(|s: &'static str| s@) == special_markers(),
{
    let mut list: Vec<&'static str> = Vec::new();
    list.push("<|im_start|>user");
    list.push("<|im_start|>assistant");
    list.push("<|im_start|>system");
    list.push("<|im_start|>");
    list.push("<|im_end|>");
    list.push("<|end|>");
    list.push("<|start|>");
    list.push("<|sep|>");
    list.push("<s>");
    list.push("</s>");
    list.push("<pad>");
    assert(list@.map_values(|s: &'static str| s@) =~= special_markers());
    list
}

/// Cleans a piece of generated text for showing.
pub fn strip_special_tokens(input: &str) -> (out: String)
    ensures
        out@ == stripped(input@),
{
    let list = markers();
    let ghost all = list@.map_values(|s: &'static str| s@);
    let mut result = String::from_str(input);
    let mut i: usize = 0;
    while i < list.len()
        invariant
            i <= list@.len(),
            all == list@.map_values(|s: &'static str| s@),
            all == special_markers(),
            result@ == without_markers(input@, all, i as nat),
        decreases list@.len() - i,
    {
        proof {
            reveal_strlit("");
            assert(all[i as int] == list@[i as int]@);
        }
        result = replace_all(result.as_str(), list[i], "");
        assert(""@ =~= Seq::<char>::empty());
        i += 1;
    }
    result = replace_all(result.as_str(), "<br>", "\n");
    result = replace_all(result.as_str(), "\\n", "\n");
    proof {
        reveal_strlit("\n\n\n");
        reveal_strlit("\n\n");
    }
    while text_contains(result.as_str(), "\n\n\n")
        invariant
            "\n\n"@.len() == 2,
            "\n\n\n"@.len() == 3,
            collapsed(result@) == collapsed(
                replaced(
                    replaced(
                        without_markers(input@, special_markers(), special_markers().len()),
                        "<br>"@,
                        "\n"@,
                    ),
                    "\\n"@,
                    "\n"@,
                ),
            ),
        decreases result@.len(),
    {
        proof {
            lemma_replace_shrinks(result@, "\n\n\n"@, "\n\n"@);
        }
        result = replace_all(result.as_str(), "\n\n\n", "\n\n");
    }
    text_trim(result.as_str())
}

} // verus!
