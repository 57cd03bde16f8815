//! Text to token ids and back, and the decoding of a stream of ids into
//! fragments of text that can be shown as they come.
//!
//! The tokenizer proper is the `tokenizers` crate. Around it stand the rules
//! of this library: which ids begin and end a sequence, that an encoding
//! starts with the beginning-of-sequence id, and that a fragment is handed
//! out only when the decoded text has grown and is complete.

use vstd::prelude::*;
use crate::model::definition::{is_screened, screened};
use crate::model::metadata::{find_exact, get, MetadataEntry, MetadataValue};
use crate::text::{occurs_in, replace_all, replaced, same_text, text_contains};

verus! {

/// A tokenizer of the `tokenizers` crate. It is never changed once built.
#[verifier::external_type_specification]
#[verifier::external_body]
pub struct ExTokenizer(tokenizers::Tokenizer);

/// The definition that a tokenizer was built from: the bytes handed to
/// `Tokenizer::from_bytes`.
pub uninterp spec fn tokenizer_source(tokenizer: tokenizers::Tokenizer) -> Seq<u8>;

/// What `Tokenizer::decode`, keeping special tokens, makes of `ids` for a
/// tokenizer built from `source`, a screened definition; `None` where it
/// fails.
pub uninterp spec fn decoded_text(source: Seq<u8>, ids: Seq<u32>) -> Option<Seq<char>>;

/// Whether `Tokenizer::from_bytes` reads a tokenizer out of `definition`.
pub uninterp spec fn tokenizer_defined(definition: Seq<u8>) -> bool;

/// What `Tokenizer::get_vocab_size`, added tokens included, gives for a
/// tokenizer built from `source`.
pub uninterp spec fn vocabulary_count(source: Seq<u8>) -> usize;

/// Calls `Tokenizer::from_bytes`, which reads a tokenizer out of its JSON
/// definition. It gives up on a text that is no JSON, on a normalizer of
/// the kind `Precompiled` and on a merge that is longer than the longest
/// token, so the definition must be screened. Whether a tokenizer is read
/// is a function of the bytes; the tokenizer that comes back was built
/// from them, and a failure comes back as its message.
#[verifier::external_body]
fn build_tokenizer(definition: &[u8]) -> (r: Result<tokenizers::Tokenizer, String>)
    requires
        screened(definition@),
    ensures
        match r {
            Ok(t) => tokenizer_defined(definition@) && tokenizer_source(t) == definition@,
            Err(_) => !tokenizer_defined(definition@),
        },
{
    tokenizers::Tokenizer::from_bytes(definition).map_err(|e| e.to_string())
}

/// Calls `with_truncation` with `None`, which switches truncation off and
/// cannot fail. The tokenizer is otherwise the one it was.
#[verifier::external_body]
fn without_truncation(tokenizer: tokenizers::Tokenizer) -> (r: tokenizers::Tokenizer)
    ensures
        tokenizer_source(r) == tokenizer_source(tokenizer),
{
    let mut tokenizer = tokenizer;
    let _ = tokenizer.with_truncation(None);
    tokenizer
}

/// Calls `with_padding` with `None`, which switches padding off. The
/// tokenizer is otherwise the one it was.
#[verifier::external_body]
fn without_padding(tokenizer: tokenizers::Tokenizer) -> (r: tokenizers::Tokenizer)
    ensures
        tokenizer_source(r) == tokenizer_source(tokenizer),
{
    let mut tokenizer = tokenizer;
    tokenizer.with_padding(None);
    tokenizer
}

/// A tokenizer can be built from `definition`: the definition is screened,
/// and it defines a tokenizer.
pub open spec fn usable(definition: Seq<u8>) -> bool {
    screened(definition) && tokenizer_defined(definition)
}

/// A tokenizer for `definition` that encodes a text whole: what the
/// definition says of truncation and padding is switched off. There is one
/// exactly where the definition is usable.
fn whole_text_tokenizer(definition: &[u8]) -> (r: Result<tokenizers::Tokenizer, String>)
    ensures
        match r {
            Ok(t) => usable(definition@) && tokenizer_source(t) == definition@,
            Err(_) => !usable(definition@),
        },
{
    if !is_screened(definition) {
        return Err(String::from_str("The definition is not one a tokenizer can be built from"));
    }
    match build_tokenizer(definition) {
        Ok(t) => Ok(without_padding(without_truncation(t))),
        Err(why) => Err(why),
    }
}

/// Calls `Tokenizer::decode` without skipping special tokens. A decoder of
/// the kind `Strip` that cuts at the end gives up on tokens that have
/// nothing to cut, and one of the kind `BPEDecoder` where there is no
/// token, so the tokenizer's definition must be screened. In a
/// screened definition no two tokens of a vocabulary share an id, so the
/// text is a function of the tokenizer's definition and the ids; a failure
/// comes back as its message.
#[verifier::external_body]
fn decode_ids(tokenizer: &tokenizers::Tokenizer, ids: &[u32]) -> (r: Result<String, String>)
    requires
        screened(tokenizer_source(*tokenizer)),
    ensures
        match r {
            Ok(s) => decoded_text(tokenizer_source(*tokenizer), ids@) == Some(s@),
            Err(_) => decoded_text(tokenizer_source(*tokenizer), ids@) is None,
        },
{
    tokenizer.decode(ids, false).map_err(|e| e.to_string())
}

/// Calls `Tokenizer::encode` with special tokens switched on and hands
/// back the ids of the encoding. A `TemplateProcessing` gives up on a
/// template that names a special token it does not have, or a second
/// text, and a `FixedLength` on a length of zero, so the tokenizer's
/// definition must be screened. A model that
/// drops merges at random gives different ids from call to call, so
/// nothing is claimed of them.
#[verifier::external_body]
fn encode_text(tokenizer: &tokenizers::Tokenizer, text: &str) -> Result<Vec<u32>, String>
    requires
        screened(tokenizer_source(*tokenizer)),
{
    tokenizer.encode(text, true).map(|e| e.get_ids().to_vec()).map_err(|e| e.to_string())
}

/// Calls `Tokenizer::get_vocab_size`, added tokens included. The number is
/// a function of the tokenizer's definition.
#[verifier::external_body]
fn vocabulary_size(tokenizer: &tokenizers::Tokenizer) -> (n: usize)
    ensures
        n == vocabulary_count(tokenizer_source(*tokenizer)),
{
    tokenizer.get_vocab_size(true)
}

/// Calls `Tokenizer::get_vocab`, added tokens included, and hands the
/// entries back in the order in which the map was walked. Nothing is
/// claimed of them.
#[verifier::external_body]
fn vocabulary_entries(tokenizer: &tokenizers::Tokenizer) -> Vec<VocabEntry> {
    tokenizer.get_vocab(true).into_iter().map(|(token, id)| VocabEntry { token, id }).collect()
}

/// Why the tokenizer could not do what it was asked.
#[derive(Debug)]
pub enum TokenizerError {
    /// No tokenizer could be built from what was given.
    Load(String),
    /// The text could not be turned into ids.
    Encode(String),
    /// The ids could not be turned into text.
    Decode(String),
}

/// One token of the vocabulary with its id.
#[derive(Debug)]
pub struct VocabEntry {
    pub token: String,
    pub id: u32,
}

/// The id under which `token` is known: that of the last entry that holds
/// it.
pub open spec fn id_of(vocab: Seq<VocabEntry>, token: Seq<char>) -> Option<u32>
    decreases vocab.len(),
{
    if vocab.len() == 0 {
        None
    } else if vocab.last().token@ == token {
        Some(vocab.last().id)
    } else {
        id_of(vocab.drop_last(), token)
    }
}

/// The id of the first of `names` that the vocabulary knows.
pub open spec fn first_known(vocab: Seq<VocabEntry>, names: Seq<Seq<char>>) -> Option<u32>
    decreases names.len(),
{
    if names.len() == 0 {
        None
    } else if id_of(vocab, names[0]) is Some {
        id_of(vocab, names[0])
    } else {
        first_known(vocab, names.skip(1))
    }
}

/// The names under which the unknown token goes, in the order tried.
pub open spec fn unk_names() -> Seq<Seq<char>> {
    seq!["<unk>"@, "<|unk|>"@, "[UNK]"@, "[PAD]"@]
}

/// The names under which the end of a sequence goes, in the order tried.
pub open spec fn eos_names() -> Seq<Seq<char>> {
    seq![
        "</s>"@,
        "\n"@,
        "<eos>"@,
        "<|end_of_text|>"@,
        "<|im_end|>"@,
        "<end_of_turn>"@,
        "<｜end▁of▁sentence｜>"@,
    ]
}

/// The names under which the beginning of a sequence goes, in the order
/// tried.
pub open spec fn bos_names() -> Seq<Seq<char>> {
    seq!["<s>"@, "<|begin_of_text|>"@, "<bos>"@, "<|im_start|>"@, "<start_of_turn>"@]
}

/// A token reads as the unknown token.
pub open spec fn unk_like(token: Seq<char>) -> bool {
    occurs_in(token, "unk"@)
}

/// A token reads as the end of a sequence.
pub open spec fn eos_like(token: Seq<char>) -> bool {
    occurs_in(token, "endoftext"@) || occurs_in(token, "eos"@) || token == "\n"@
}

/// The position of the first token that reads as the unknown token.
pub open spec fn first_unk_like(tokens: Seq<String>) -> Option<int>
    decreases tokens.len(),
{
    if tokens.len() == 0 {
        None
    } else if first_unk_like(tokens.drop_last()) is Some {
        first_unk_like(tokens.drop_last())
    } else if unk_like(tokens.last()@) {
        Some(tokens.len() - 1)
    } else {
        None
    }
}

/// The position of the first token that reads as the end of a sequence.
pub open spec fn first_eos_like(tokens: Seq<String>) -> Option<int>
    decreases tokens.len(),
{
    if tokens.len() == 0 {
        None
    } else if first_eos_like(tokens.drop_last()) is Some {
        first_eos_like(tokens.drop_last())
    } else if eos_like(tokens.last()@) {
        Some(tokens.len() - 1)
    } else {
        None
    }
}

/// The id of the unknown token: a name the vocabulary knows, else the
/// first token that reads like it, else 0.
pub open spec fn unk_id_of(vocab: Seq<VocabEntry>, tokens: Seq<String>) -> u32 {
    match first_known(vocab, unk_names()) {
        Some(id) => id,
        None => match first_unk_like(tokens) {
            Some(i) => i as u32,
            None => 0,
        },
    }
}

/// The id that ends a sequence: a name the vocabulary knows, else the first
/// token that reads like it, else 1.
pub open spec fn eos_id_of(vocab: Seq<VocabEntry>, tokens: Seq<String>) -> u32 {
    match first_known(vocab, eos_names()) {
        Some(id) => id,
        None => match first_eos_like(tokens) {
            Some(i) => i as u32,
            None => 1,
        },
    }
}

/// The id that begins a sequence: a name the vocabulary knows, else 0.
pub open spec fn bos_id_of(vocab: Seq<VocabEntry>) -> u32 {
    match first_known(vocab, bos_names()) {
        Some(id) => id,
        None => 0,
    }
}

/// A token as the tokenizer is to see it: the byte token for a line feed
/// becomes a line feed, the word-boundary mark becomes a space.
pub open spec fn normalized(token: Seq<char>) -> Seq<char> {
    replaced(replaced(token, "<0x0A>"@, "\n"@), "▁"@, " "@)
}

/// The texts among `values`, normalized, in their order.
pub open spec fn token_texts(values: Seq<MetadataValue>) -> Seq<Seq<char>>
    decreases values.len(),
{
    if values.len() == 0 {
        Seq::empty()
    } else {
        match values.last() {
            MetadataValue::Text(s) => token_texts(values.drop_last()).push(normalized(s@)),
            _ => token_texts(values.drop_last()),
        }
    }
}

/// The texts of a list of strings.
pub open spec fn texts_of(tokens: Seq<String>) -> Seq<Seq<char>> {
    tokens.map_values(|s: String| s@)
}

/// The vocabulary in which token `i` has the id `i`.
pub open spec fn numbered(tokens: Seq<String>) -> Seq<VocabEntry>
    decreases tokens.len(),
{
    if tokens.len() == 0 {
        Seq::empty()
    } else {
        numbered(tokens.drop_last()).push(
            VocabEntry { token: tokens.last(), id: (tokens.len() - 1) as u32 },
        )
    }
}

/// An encoding begins with the beginning-of-sequence id: it is put in
/// front unless the encoding begins with it already.
pub open spec fn with_leading_bos(ids: Seq<u32>, bos: u32) -> Seq<u32> {
    if ids.len() > 0 && ids[0] == bos {
        ids
    } else {
        seq![bos] + ids
    }
}

/// The character that stands for bytes that are no text yet.
pub const REPLACEMENT: char = '\u{FFFD}';

/// A text is complete when it does not end in bytes that are no text yet.
pub open spec fn complete(text: Seq<char>) -> bool {
    text.len() == 0 || text.last() != REPLACEMENT
}

/// What `decoded` has beyond the length of `shown`, if anything.
pub open spec fn remainder(shown: Seq<char>, decoded: Seq<char>) -> Option<Seq<char>> {
    if decoded.len() > shown.len() {
        Some(decoded.skip(shown.len() as int))
    } else {
        None
    }
}

/// The fragment to hand out when the decoded text is `decoded` and
/// `shown` has been handed out before: what `decoded` has beyond the
/// length of `shown`, and nothing unless it is longer and complete.
pub open spec fn fragment(shown: Seq<char>, decoded: Seq<char>) -> Option<Seq<char>> {
    if complete(decoded) {
        remainder(shown, decoded)
    } else {
        None
    }
}

/// What counts as handed out after the decoded text `decoded` was seen and
/// `out` was handed out.
pub open spec fn shown_after(shown: Seq<char>, decoded: Seq<char>, out: Option<Seq<char>>) -> Seq<
    char,
> {
    if out is Some {
        decoded
    } else {
        shown
    }
}

/// What an optional string holds, as specifications see it.
pub open spec fn text_of(s: Option<String>) -> Option<Seq<char>> {
    match s {
        Some(s) => Some(s@),
        None => None,
    }
}

/// The id under which `token` is known.
pub fn lookup_id(vocab: &Vec<VocabEntry>, token: &str) -> (id: Option<u32>)
    ensures
        id == id_of(vocab@, token@),
{
    let mut i: usize = vocab.len();
    assert(vocab@.take(i as int) =~= vocab@);
    while i > 0
        invariant
            i <= vocab@.len(),
            id_of(vocab@, token@) == id_of(vocab@.take(i as int), token@),
        decreases i,
    {
        i -= 1;
        proof {
            assert(vocab@.take(i + 1).drop_last() =~= vocab@.take(i as int));
        }
        if same_text(vocab[i].token.as_str(), token) {
            return Some(vocab[i].id);
        }
    }
    None
}

fn known_among(vocab: &Vec<VocabEntry>, names: &Vec<&'static str>) -> (id: Option<u32>)
    ensures
        id == first_known(vocab@, names@.map_values(|s: &'static str| s@)),
{
    let ghost all = names@.map_values(|s: &'static str| s@);
    let mut i: usize = 0;
    assert(all.skip(0) =~= all);
    while i < names.len()
        invariant
            i <= names@.len(),
            all == names@.map_values(|s: &'static str| s@),
            first_known(vocab@, all) == first_known(vocab@, all.skip(i as int)),
        decreases names@.len() - i,
    {
        proof {
            assert(all.skip(i as int).skip(1) =~= all.skip(i + 1));
            assert(all.skip(i as int)[0] == names@[i as int]@);
        }
        let id = lookup_id(vocab, names[i]);
        if id.is_some() {
            return id;
        }
        i += 1;
    }
    None
}

/// The id of the unknown token.
pub fn find_unk_token(vocab: &Vec<VocabEntry>, tokens: &Vec<String>) -> (id: u32)
    requires
        tokens@.len() <= u32::MAX,
    ensures
        id == unk_id_of(vocab@, tokens@),
{
    let mut names: Vec<&'static str> = Vec::new();
    names.push("<unk>");
    names.push("<|unk|>");
    names.push("[UNK]");
    names.push("[PAD]");
    assert(names@.map_values(|s: &'static str| s@) =~= unk_names());
    match known_among(vocab, &names) {
        Some(id) => {
            return id;
        },
        None => {},
    }
    let mut i: usize = 0;
    assert(tokens@.take(0) =~= Seq::<String>::empty());
    while i < tokens.len()
        invariant
            i <= tokens@.len(),
            tokens@.len() <= u32::MAX,
            first_known(vocab@, unk_names()) is None,
            first_unk_like(tokens@.take(i as int)) is None,
        decreases tokens@.len() - i,
    {
        proof {
            assert(tokens@.take(i + 1).drop_last() =~= tokens@.take(i as int));
        }
        if text_contains(tokens[i].as_str(), "unk") {
            proof {
                lemma_unk_prefix(tokens@, i + 1);
            }
            return i as u32;
        }
        i += 1;
    }
    assert(tokens@.take(tokens@.len() as int) =~= tokens@);
    0
}

/// The id that ends a sequence.
pub fn find_eos_token(vocab: &Vec<VocabEntry>, tokens: &Vec<String>) -> (id: u32)
    requires
        tokens@.len() <= u32::MAX,
    ensures
        id == eos_id_of(vocab@, tokens@),
{
    let mut names: Vec<&'static str> = Vec::new();
    names.push("</s>");
    names.push("\n");
    names.push("<eos>");
    names.push("<|end_of_text|>");
    names.push("<|im_end|>");
    names.push("<end_of_turn>");
    names.push("<｜end▁of▁sentence｜>");
    assert(names@.map_values(|s: &'static str| s@) =~= eos_names());
    match known_among(vocab, &names) {
        Some(id) => {
            return id;
        },
        None => {},
    }
    let mut i: usize = 0;
    assert(tokens@.take(0) =~= Seq::<String>::empty());
    while i < tokens.len()
        invariant
            i <= tokens@.len(),
            tokens@.len() <= u32::MAX,
            first_known(vocab@, eos_names()) is None,
            first_eos_like(tokens@.take(i as int)) is None,
        decreases tokens@.len() - i,
    {
        proof {
            assert(tokens@.take(i + 1).drop_last() =~= tokens@.take(i as int));
        }
        let t = tokens[i].as_str();
        if text_contains(t, "endoftext") || text_contains(t, "eos") || same_text(t, "\n") {
            proof {
                lemma_eos_prefix(tokens@, i + 1);
            }
            return i as u32;
        }
        i += 1;
    }
    assert(tokens@.take(tokens@.len() as int) =~= tokens@);
    1
}

/// The id that begins a sequence.
pub fn find_bos_token(vocab: &Vec<VocabEntry>) -> (id: u32)
    ensures
        id == bos_id_of(vocab@),
{
    let mut names: Vec<&'static str> = Vec::new();
    names.push("<s>");
    names.push("<|begin_of_text|>");
    names.push("<bos>");
    names.push("<|im_start|>");
    names.push("<start_of_turn>");
    assert(names@.map_values(|s: &'static str| s@) =~= bos_names());
    match known_among(vocab, &names) {
        Some(id) => id,
        None => 0,
    }
}

/// What is found among the first `n` tokens is found among all of them.
proof fn lemma_unk_prefix(tokens: Seq<String>, n: int)
    requires
        0 <= n <= tokens.len(),
        first_unk_like(tokens.take(n)) is Some,
    ensures
        first_unk_like(tokens) == first_unk_like(tokens.take(n)),
    decreases tokens.len() - n,
{
    if n < tokens.len() {
        assert(tokens.take(n + 1).drop_last() =~= tokens.take(n));
        lemma_unk_prefix(tokens, n + 1);
    } else {
        assert(tokens.take(n) =~= tokens);
    }
}

/// What is found among the first `n` tokens is found among all of them.
proof fn lemma_eos_prefix(tokens: Seq<String>, n: int)
    requires
        0 <= n <= tokens.len(),
        first_eos_like(tokens.take(n)) is Some,
    ensures
        first_eos_like(tokens) == first_eos_like(tokens.take(n)),
    decreases tokens.len() - n,
{
    if n < tokens.len() {
        assert(tokens.take(n + 1).drop_last() =~= tokens.take(n));
        lemma_eos_prefix(tokens, n + 1);
    } else {
        assert(tokens.take(n) =~= tokens);
    }
}

/// A token as the tokenizer is to see it.
pub fn normalize_token(token: &str) -> (out: String)
    ensures
        out@ == normalized(token@),
{
    proof {
        reveal_strlit("<0x0A>");
        reveal_strlit("▁");
    }
    let first = replace_all(token, "<0x0A>", "\n");
    replace_all(first.as_str(), "▁", " ")
}

/// Puts the beginning-of-sequence id in front of `ids` unless it stands
/// there already.
pub fn ensure_leading_bos(ids: Vec<u32>, bos: u32) -> (out: Vec<u32>)
    ensures
        out@ == with_leading_bos(ids@, bos),
{
    if ids.len() > 0 && ids[0] == bos {
        ids
    } else {
        let mut out: Vec<u32> = Vec::new();
        out.push(bos);
        let mut i: usize = 0;
        while i < ids.len()
            invariant
                i <= ids@.len(),
                out@ == seq![bos] + ids@.take(i as int),
            decreases ids@.len() - i,
        {
            out.push(ids[i]);
            proof {
                assert(seq![bos] + ids@.take(i + 1) =~= (seq![bos] + ids@.take(i as int)).push(
                    ids@[i as int],
                ));
            }
            i += 1;
        }
        assert(ids@.take(ids@.len() as int) =~= ids@);
        out
    }
}

/// What `decoded` has beyond the length of `shown`, if anything.
pub fn new_remainder(shown: &str, decoded: &str) -> (out: Option<String>)
    ensures
        text_of(out) == remainder(shown@, decoded@),
{
    let shown_len = shown.unicode_len();
    let decoded_len = decoded.unicode_len();
    if decoded_len > shown_len {
        let tail = decoded.substring_char(shown_len, decoded_len);
        assert(tail@ =~= decoded@.skip(shown_len as int));
        Some(String::from_str(tail))
    } else {
        None
    }
}

/// The fragment to hand out when the decoded text is `decoded` and `shown`
/// has been handed out before.
pub fn new_fragment(shown: &str, decoded: &str) -> (out: Option<String>)
    ensures
        text_of(out) == fragment(shown@, decoded@),
{
    let decoded_len = decoded.unicode_len();
    if decoded_len > 0 && decoded.get_char(decoded_len - 1) == REPLACEMENT {
        None
    } else {
        new_remainder(shown, decoded)
    }
}

/// The vocabulary of a model file: its tokens in the order of their ids,
/// and the ids that stand for the unknown token and for the ends of a
/// sequence.
pub struct Vocabulary {
    pub tokens: Vec<String>,
    pub unk_token_id: u32,
    pub eos_token_id: u32,
    pub bos_token_id: u32,
}

impl Vocabulary {
    /// The ids were found in the tokens.
    pub open spec fn wf(&self) -> bool {
        &&& self.tokens@.len() <= u32::MAX
        &&& self.unk_token_id == unk_id_of(numbered(self.tokens@), self.tokens@)
        &&& self.eos_token_id == eos_id_of(numbered(self.tokens@), self.tokens@)
        &&& self.bos_token_id == bos_id_of(numbered(self.tokens@))
    }

    /// The vocabulary that the key/value section of a model file holds
    /// under `tokenizer.ggml.tokens`: the texts of that list, normalized.
    /// It fails where the section has no such key, where the value is no
    /// list, and where the list is too long for its ids.
    pub fn from_gguf(entries: &Vec<MetadataEntry>) -> (r: Result<Vocabulary, TokenizerError>)
        ensures
            match r {
                Ok(v) => {
                    &&& v.wf()
                    &&& find_exact(entries@, "tokenizer.ggml.tokens"@) matches Some(
                        MetadataValue::List(values),
                    )
                    &&& texts_of(v.tokens@) == token_texts(values@)
                },
                Err(e) => {
                    &&& e is Load
                    &&& !({
                        &&& find_exact(entries@, "tokenizer.ggml.tokens"@) matches Some(
                            MetadataValue::List(values),
                        )
                        &&& token_texts(values@).len() <= u32::MAX
                    })
                },
            },
    {
        let values = match get(entries, "tokenizer.ggml.tokens") {
            Some(MetadataValue::List(values)) => values,
            Some(_) => {
                return Err(TokenizerError::Load(String::from_str("Failed to parse tokenizer tokens")));
            },
            None => {
                return Err(
                    TokenizerError::Load(String::from_str("No tokenizer tokens found in GGUF")),
                );
            },
        };
        let mut tokens: Vec<String> = Vec::new();
        let mut i: usize = 0;
        assert(values@.take(0) =~= Seq::<MetadataValue>::empty());
        assert(texts_of(tokens@) =~= token_texts(values@.take(0)));
        while i < values.len()
            invariant
                i <= values@.len(),
                texts_of(tokens@) == token_texts(values@.take(i as int)),
            decreases values@.len() - i,
        {
            proof {
                assert(values@.take(i + 1).drop_last() =~= values@.take(i as int));
            }
            match &values[i] {
                MetadataValue::Text(s) => {
                    let ghost before = tokens@;
                    let t = normalize_token(s.as_str());
                    tokens.push(t);
                    assert(texts_of(tokens@) =~= texts_of(before).push(t@));
                },
                _ => {},
            }
            i += 1;
        }
        assert(values@.take(values@.len() as int) =~= values@);
        if tokens.len() > u32::MAX as usize {
            return Err(TokenizerError::Load(String::from_str("Tokenizer vocabulary is too large")));
        }
        Ok(Self::from_tokens(tokens))
    }

    /// The vocabulary with these tokens, numbered from 0.
    pub fn from_tokens(tokens: Vec<String>) -> (v: Vocabulary)
        requires
            tokens@.len() <= u32::MAX,
        ensures
            v.wf(),
            v.tokens == tokens,
    {
        let vocab = number_tokens(&tokens);
        let unk_token_id = find_unk_token(&vocab, &tokens);
        let eos_token_id = find_eos_token(&vocab, &tokens);
        let bos_token_id = find_bos_token(&vocab);
        Vocabulary { tokens, unk_token_id, eos_token_id, bos_token_id }
    }
}

/// The vocabulary in which token `i` has the id `i`.
pub fn number_tokens(tokens: &Vec<String>) -> (vocab: Vec<VocabEntry>)
    requires
        tokens@.len() <= u32::MAX,
    ensures
        vocab@ == numbered(tokens@),
{
    let mut vocab: Vec<VocabEntry> = Vec::new();
    let mut i: usize = 0;
    assert(tokens@.take(0) =~= Seq::<String>::empty());
    while i < tokens.len()
        invariant
            i <= tokens@.len(),
            tokens@.len() <= u32::MAX,
            vocab@ == numbered(tokens@.take(i as int)),
        decreases tokens@.len() - i,
    {
        proof {
            assert(tokens@.take(i + 1).drop_last() =~= tokens@.take(i as int));
        }
        vocab.push(VocabEntry { token: tokens[i].clone(), id: i as u32 });
        i += 1;
    }
    assert(tokens@.take(tokens@.len() as int) =~= tokens@);
    vocab
}

pub struct TokenizerWrapper {
    inner: tokenizers::Tokenizer,
    eos_token_id: u32,
    bos_token_id: u32,
    unk_token_id: u32,
    vocab: Vec<VocabEntry>,
    pending_tokens: Vec<u32>,
    cached_decoded: String,
}

impl TokenizerWrapper {
    /// The definition the tokenizer was built from.
    pub closed spec fn source(&self) -> Seq<u8> {
        tokenizer_source(self.inner)
    }

    pub closed spec fn spec_eos(&self) -> u32 {
        self.eos_token_id
    }

    pub closed spec fn spec_bos(&self) -> u32 {
        self.bos_token_id
    }

    pub closed spec fn spec_unk(&self) -> u32 {
        self.unk_token_id
    }

    pub closed spec fn spec_vocab(&self) -> Seq<VocabEntry> {
        self.vocab@
    }

    /// The ids taken in since the stream was last cleared.
    pub closed spec fn pending(&self) -> Seq<u32> {
        self.pending_tokens@
    }

    /// The text handed out since the stream was last cleared.
    pub closed spec fn shown(&self) -> Seq<char> {
        self.cached_decoded@
    }

    /// What holds of every tokenizer: its definition is screened.
    pub open spec fn wf(&self) -> bool {
        screened(self.source())
    }

    /// The text that `ids` decode to; `None` where decoding fails.
    pub open spec fn spec_decode(&self, ids: Seq<u32>) -> Option<Seq<char>> {
        decoded_text(self.source(), ids)
    }

    /// Two tokenizers that differ at most in the state of their streams.
    pub open spec fn same_tokenizer_as(&self, other: Self) -> bool {
        &&& self.source() == other.source()
        &&& self.spec_eos() == other.spec_eos()
        &&& self.spec_bos() == other.spec_bos()
        &&& self.spec_unk() == other.spec_unk()
        &&& self.spec_vocab() == other.spec_vocab()
    }

    /// The tokenizer for a vocabulary read from a model file, built from
    /// the definition that was made for that vocabulary. The special ids
    /// are taken as the vocabulary gives them. There is a tokenizer exactly
    /// where the vocabulary can be numbered and the definition is usable.
    pub fn from_gguf(vocabulary: Vocabulary, definition: &[u8]) -> (r: Result<Self, TokenizerError>)
        ensures
            r matches Ok(t) ==> {
                &&& t.wf()
                &&& vocabulary.tokens@.len() <= u32::MAX
                &&& t.source() == definition@
                &&& t.spec_unk() == vocabulary.unk_token_id
                &&& t.spec_eos() == vocabulary.eos_token_id
                &&& t.spec_bos() == vocabulary.bos_token_id
                &&& t.spec_vocab() == numbered(vocabulary.tokens@)
                &&& t.pending() == Seq::<u32>::empty()
                &&& t.shown() == Seq::<char>::empty()
            },
            r matches Err(e) ==> e is Load,
            r is Ok <==> vocabulary.tokens@.len() <= u32::MAX && usable(definition@),
    {
        if vocabulary.tokens.len() > u32::MAX as usize {
            return Err(TokenizerError::Load(String::from_str("Tokenizer vocabulary is too large")));
        }
        let inner = match whole_text_tokenizer(definition) {
            Ok(t) => t,
            Err(why) => {
                return Err(TokenizerError::Load(why));
            },
        };
        let vocab = number_tokens(&vocabulary.tokens);
        Ok(
            TokenizerWrapper {
                inner,
                eos_token_id: vocabulary.eos_token_id,
                bos_token_id: vocabulary.bos_token_id,
                unk_token_id: vocabulary.unk_token_id,
                vocab,
                pending_tokens: Vec::new(),
                cached_decoded: String::new(),
            },
        )
    }

    /// The tokenizer that a tokenizer file defines. Its special ids are
    /// looked up by name in its own vocabulary. Truncation and padding that
    /// the file asks for are switched off: a text is encoded whole. There
    /// is a tokenizer exactly where the definition is usable.
    pub fn from_file(definition: &[u8]) -> (r: Result<Self, TokenizerError>)
        ensures
            r matches Ok(t) ==> {
                &&& t.wf()
                &&& t.source() == definition@
                &&& t.spec_unk() == unk_id_of(t.spec_vocab(), Seq::empty())
                &&& t.spec_eos() == eos_id_of(t.spec_vocab(), Seq::empty())
                &&& t.spec_bos() == bos_id_of(t.spec_vocab())
                &&& t.pending() == Seq::<u32>::empty()
                &&& t.shown() == Seq::<char>::empty()
            },
            r matches Err(e) ==> e is Load,
            r is Ok <==> usable(definition@),
    {
        let inner = match whole_text_tokenizer(definition) {
            Ok(t) => t,
            Err(why) => {
                return Err(TokenizerError::Load(why));
            },
        };
        let vocab = vocabulary_entries(&inner);
        let none: Vec<String> = Vec::new();
        let unk_token_id = find_unk_token(&vocab, &none);
        let eos_token_id = find_eos_token(&vocab, &none);
        let bos_token_id = find_bos_token(&vocab);
        assert(none@ =~= Seq::<String>::empty());
        Ok(
            TokenizerWrapper {
                inner,
                eos_token_id,
                bos_token_id,
                unk_token_id,
                vocab,
                pending_tokens: Vec::new(),
                cached_decoded: String::new(),
            },
        )
    }

    /// The ids of `text`, beginning with the beginning-of-sequence id.
    pub fn encode(&self, text: &str) -> (r: Result<Vec<u32>, TokenizerError>)
        requires
            self.wf(),
        ensures
            r matches Ok(ids) ==> ids@.len() > 0 && ids@[0] == self.spec_bos() && with_leading_bos(
                ids@,
                self.spec_bos(),
            ) == ids@,
            r matches Err(e) ==> e is Encode,
    {
        match encode_text(&self.inner, text) {
            Ok(ids) => Ok(ensure_leading_bos(ids, self.bos_token_id)),
            Err(why) => Err(TokenizerError::Encode(why)),
        }
    }

    /// The text of `tokens`, special tokens included.
    pub fn decode(&self, tokens: &[u32]) -> (r: Result<String, TokenizerError>)
        requires
            self.wf(),
        ensures
            match r {
                Ok(s) => self.spec_decode(tokens@) == Some(s@),
                Err(e) => e is Decode && self.spec_decode(tokens@) is None,
            },
    {
        match decode_ids(&self.inner, tokens) {
            Ok(s) => Ok(s),
            Err(why) => Err(TokenizerError::Decode(why)),
        }
    }

    pub fn eos_token_id(&self) -> (id: u32)
        ensures
            id == self.spec_eos(),
    {
        self.eos_token_id
    }

    pub fn bos_token_id(&self) -> (id: u32)
        ensures
            id == self.spec_bos(),
    {
        self.bos_token_id
    }

    pub fn unk_token_id(&self) -> (id: u32)
        ensures
            id == self.spec_unk(),
    {
        self.unk_token_id
    }

    /// The number of tokens that the tokenizer knows, added ones included.
    pub open spec fn spec_vocab_size(&self) -> usize {
        vocabulary_count(self.source())
    }

    /// The number of tokens that the tokenizer knows, added ones included.
    pub fn vocab_size(&self) -> (n: usize)
        ensures
            n == self.spec_vocab_size(),
    {
        vocabulary_size(&self.inner)
    }

    pub fn get_token_id(&self, token: &str) -> (id: Option<u32>)
        ensures
            id == id_of(self.spec_vocab(), token@),
    {
        lookup_id(&self.vocab, token)
    }

    /// Forgets the stream: no id is pending, no text counts as handed out.
    pub fn clear_cache(&mut self)
        ensures
            final(self).same_tokenizer_as(*old(self)),
            final(self).pending() == Seq::<u32>::empty(),
            final(self).shown() == Seq::<char>::empty(),
    {
        self.pending_tokens = Vec::new();
        self.cached_decoded = String::new();
    }

    /// Takes `token` into the stream and hands out what the decoded text of
    /// the stream has gained by it: the text beyond the length of what was
    /// handed out before, and nothing where the text has not grown or ends
    /// in bytes that are no text yet. Where decoding fails the id stays in
    /// the stream and nothing else changes.
    pub fn decode_next(&mut self, token: u32) -> (r: Result<Option<String>, TokenizerError>)
        requires
            old(self).wf(),
        ensures
            final(self).wf(),
            final(self).same_tokenizer_as(*old(self)),
            final(self).pending() == old(self).pending().push(token),
            match old(self).spec_decode(old(self).pending().push(token)) {
                Some(decoded) => {
                    &&& r matches Ok(out)
                    &&& text_of(out) == fragment(old(self).shown(), decoded)
                    &&& final(self).shown() == shown_after(old(self).shown(), decoded, text_of(out))
                },
                None => {
                    &&& r matches Err(e)
                    &&& e is Decode
                    &&& final(self).shown() == old(self).shown()
                },
            },
    {
        self.pending_tokens.push(token);
        let decoded = match decode_ids(&self.inner, self.pending_tokens.as_slice()) {
            Ok(s) => s,
            Err(why) => {
                return Err(TokenizerError::Decode(why));
            },
        };
        let out = new_fragment(self.cached_decoded.as_str(), decoded.as_str());
        if out.is_some() {
            self.cached_decoded = decoded;
        }
        Ok(out)
    }

    /// Hands out what the decoded text of the stream has beyond what was
    /// handed out before, complete or not. An empty stream has nothing
    /// left.
    pub fn decode_rest(&mut self) -> (r: Result<Option<String>, TokenizerError>)
        requires
            old(self).wf(),
        ensures
            final(self).wf(),
            final(self).same_tokenizer_as(*old(self)),
            final(self).pending() == old(self).pending(),
            old(self).pending().len() == 0 ==> (r matches Ok(None)) && final(self).shown() == old(
                self
            ).shown(),
            old(self).pending().len() > 0 ==> match old(self).spec_decode(old(self).pending()) {
                Some(decoded) => {
                    &&& r matches Ok(out)
                    &&& text_of(out) == remainder(old(self).shown(), decoded)
                    &&& final(self).shown() == shown_after(old(self).shown(), decoded, text_of(out))
                },
                None => {
                    &&& r matches Err(e)
                    &&& e is Decode
                    &&& final(self).shown() == old(self).shown()
                },
            },
    {
        if self.pending_tokens.len() == 0 {
            return Ok(None);
        }
        let decoded = match decode_ids(&self.inner, self.pending_tokens.as_slice()) {
            Ok(s) => s,
            Err(why) => {
                return Err(TokenizerError::Decode(why));
            },
        };
        let out = new_remainder(self.cached_decoded.as_str(), decoded.as_str());
        if out.is_some() {
            self.cached_decoded = decoded;
        }
        Ok(out)
    }
}

} // verus!
