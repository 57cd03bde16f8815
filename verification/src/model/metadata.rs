//! What a model file says of itself: the key/value section of a GGUF file,
//! and the description of the model that is read out of it.

use vstd::prelude::*;
use crate::text::{
    dotted, dotted_key, ends_in, is_word_char, same_text, text_ends_with, word_char,
};

verus! {

/// The context length of a model that names none.
pub const DEFAULT_CONTEXT_LENGTH: usize = 4096;

/// One value of the key/value section. Numbers that are not integers,
/// booleans and the like are not told apart: nothing here reads them.
#[derive(Debug)]
pub enum MetadataValue {
    Unsigned(u64),
    Signed(i64),
    Text(String),
    List(Vec<MetadataValue>),
    Other,
}

/// One entry of the key/value section.
#[derive(Debug)]
pub struct MetadataEntry {
    pub key: String,
    pub value: MetadataValue,
}

/// The description of a loaded model.
#[derive(Debug)]
pub struct GgufMetadata {
    pub name: String,
    pub architecture: String,
    pub n_layer: usize,
    pub n_embd: usize,
    pub vocab_size: usize,
    pub context_length: usize,
    pub file_size: u64,
    pub chat_template: Option<String>,
    pub quantization: Option<String>,
}

/// Why a model could not be loaded.
#[derive(Debug)]
pub enum LoadError {
    /// The file could not be opened or mapped.
    Io(String),
    /// A key that every model must have is absent.
    MetadataMissing(String),
    /// A key is present, but its value is not a positive integer that fits
    /// a machine word.
    MetadataTypeError(String),
    /// The weights of this architecture could not be set up.
    ArchitectureUnsupported(String),
}

/// What went wrong with a key.
#[derive(Clone, Copy, Debug, PartialEq, Eq, Structural)]
pub enum KeyFault {
    Missing,
    WrongType,
}

impl GgufMetadata {
    /// Layers, width, vocabulary and context are all positive.
    pub open spec fn wf(&self) -> bool {
        self.n_layer > 0 && self.n_embd > 0 && self.vocab_size > 0 && self.context_length > 0
    }
}

fn copy_text(text: &Option<String>) -> (copy: Option<String>)
    ensures
        copy == *text,
{
    match text {
        Some(s) => Some(s.clone()),
        None => None,
    }
}

impl Clone for GgufMetadata {
    fn clone(&self) -> (copy: Self)
        ensures
            copy == *self,
    {
        GgufMetadata {
            name: self.name.clone(),
            architecture: self.architecture.clone(),
            n_layer: self.n_layer,
            n_embd: self.n_embd,
            vocab_size: self.vocab_size,
            context_length: self.context_length,
            file_size: self.file_size,
            chat_template: copy_text(&self.chat_template),
            quantization: copy_text(&self.quantization),
        }
    }
}

/// The value as a positive count, where it is an integer that fits a
/// machine word and is not zero.
pub open spec fn as_count(value: MetadataValue) -> Option<usize> {
    match value {
        MetadataValue::Unsigned(v) => if 0 < v && v <= usize::MAX {
            Some(v as usize)
        } else {
            None
        },
        MetadataValue::Signed(v) => if 0 < v && v <= usize::MAX {
            Some(v as usize)
        } else {
            None
        },
        _ => None,
    }
}

/// The value as text, where it is text.
pub open spec fn as_text(value: MetadataValue) -> Option<Seq<char>> {
    match value {
        MetadataValue::Text(s) => Some(s@),
        _ => None,
    }
}

/// The value of the first entry with the key `key`.
pub open spec fn find_exact(entries: Seq<MetadataEntry>, key: Seq<char>) -> Option<MetadataValue>
    decreases entries.len(),
{
    if entries.len() == 0 {
        None
    } else if entries[0].key@ == key {
        Some(entries[0].value)
    } else {
        find_exact(entries.skip(1), key)
    }
}

/// The count held by the first entry whose key ends with `tail` and whose
/// value is a count.
pub open spec fn find_count_by_tail(entries: Seq<MetadataEntry>, tail: Seq<char>) -> Option<usize>
    decreases entries.len(),
{
    if entries.len() == 0 {
        None
    } else if ends_in(entries[0].key@, tail) && as_count(entries[0].value) is Some {
        as_count(entries[0].value)
    } else {
        find_count_by_tail(entries.skip(1), tail)
    }
}

/// The architectures whose keys are tried when the model's own lead
/// nowhere, in the order in which they are tried.
pub open spec fn fallback_prefix(k: int) -> Seq<char> {
    if k == 0 {
        "llama"@
    } else if k == 1 {
        "qwen"@
    } else if k == 2 {
        "mistral"@
    } else if k == 3 {
        "phi"@
    } else {
        "gemma"@
    }
}

/// The outcome of looking under the well-known architectures from the
/// `k`-th on.
pub open spec fn fallback_count(entries: Seq<MetadataEntry>, suffix: Seq<char>, k: int) -> Result<
    usize,
    KeyFault,
>
    decreases 5 - k,
{
    if k < 0 || k >= 5 {
        Err(KeyFault::Missing)
    } else {
        match find_exact(entries, dotted(fallback_prefix(k), suffix)) {
            Some(v) => match as_count(v) {
                Some(n) => Ok(n),
                None => Err(KeyFault::WrongType),
            },
            None => fallback_count(entries, suffix, k + 1),
        }
    }
}

/// The count that a model of architecture `arch` gives for `suffix`: the
/// value of `arch.suffix`; failing that key, the first count under any key
/// that ends with `.suffix`; failing those, the value under one of the
/// well-known architectures.
pub open spec fn lookup_count(entries: Seq<MetadataEntry>, arch: Seq<char>, suffix: Seq<char>) -> Result<
    usize,
    KeyFault,
> {
    match find_exact(entries, dotted(arch, suffix)) {
        Some(v) => match as_count(v) {
            Some(n) => Ok(n),
            None => Err(KeyFault::WrongType),
        },
        None => match find_count_by_tail(entries, seq!['.'] + suffix) {
            Some(n) => Ok(n),
            None => fallback_count(entries, suffix, 0),
        },
    }
}

/// The text under `key`, where the first entry with that key holds text.
pub open spec fn lookup_text(entries: Seq<MetadataEntry>, key: Seq<char>) -> Option<Seq<char>> {
    match find_exact(entries, key) {
        Some(v) => as_text(v),
        None => None,
    }
}

/// The architecture tag: `general.architecture`, and `llama` where the file
/// names none.
pub open spec fn architecture_of(entries: Seq<MetadataEntry>) -> Seq<char> {
    match lookup_text(entries, "general.architecture"@) {
        Some(s) => s,
        None => "llama"@,
    }
}

/// The model's name: `general.name`, and the file's name where the file
/// gives none.
pub open spec fn name_of(entries: Seq<MetadataEntry>, filename: Seq<char>) -> Seq<char> {
    match lookup_text(entries, "general.name"@) {
        Some(s) => s,
        None => filename,
    }
}

/// What follows the last dot of `name`; all of it where it has no dot.
pub open spec fn last_piece(name: Seq<char>) -> Seq<char>
    decreases name.len(),
{
    if name.len() == 0 {
        name
    } else if name.last() == '.' {
        Seq::empty()
    } else {
        last_piece(name.drop_last()).push(name.last())
    }
}

/// A piece of a file name reads as a quantization tag when it has more than
/// two characters, all of them letters, digits or underscores.
pub open spec fn tag_like(piece: Seq<char>) -> bool {
    piece.len() > 2 && forall|i: int| 0 <= i < piece.len() ==> word_char(#[trigger] piece[i])
}

/// The quantization tag: `general.quantization`, or else the last piece of
/// the file name where that reads as a tag.
pub open spec fn quantization_of(entries: Seq<MetadataEntry>, filename: Seq<char>) -> Option<
    Seq<char>,
> {
    match lookup_text(entries, "general.quantization"@) {
        Some(s) => Some(s),
        None => if tag_like(last_piece(filename)) {
            Some(last_piece(filename))
        } else {
            None
        },
    }
}

/// The context length: the model's own where it names one as a positive
/// integer that fits a machine word, and the default where it does not.
pub open spec fn context_length_of(entries: Seq<MetadataEntry>) -> usize {
    match lookup_count(entries, architecture_of(entries), "context_length"@) {
        Ok(n) => n,
        Err(_) => DEFAULT_CONTEXT_LENGTH,
    }
}

/// The first key that keeps a description from being read, with what is
/// wrong with it; `None` where the description can be read.
pub open spec fn first_fault(entries: Seq<MetadataEntry>) -> Option<(Seq<char>, KeyFault)> {
    let arch = architecture_of(entries);
    if let Err(f) = lookup_count(entries, arch, "block_count"@) {
        Some(("block_count"@, f))
    } else if let Err(f) = lookup_count(entries, arch, "embedding_length"@) {
        Some(("embedding_length"@, f))
    } else if let Err(f) = lookup_count(entries, arch, "vocab_size"@) {
        Some(("vocab_size"@, f))
    } else {
        None
    }
}

/// `m` is the description that `entries` give of a model in a file of this
/// name and size.
pub open spec fn describes(
    m: GgufMetadata,
    entries: Seq<MetadataEntry>,
    filename: Seq<char>,
    file_size: u64,
) -> bool {
    let arch = architecture_of(entries);
    &&& m.wf()
    &&& m.architecture@ == arch
    &&& m.name@ == name_of(entries, filename)
    &&& Ok::<usize, KeyFault>(m.n_layer) == lookup_count(entries, arch, "block_count"@)
    &&& Ok::<usize, KeyFault>(m.n_embd) == lookup_count(entries, arch, "embedding_length"@)
    &&& Ok::<usize, KeyFault>(m.vocab_size) == lookup_count(entries, arch, "vocab_size"@)
    &&& m.context_length == context_length_of(entries)
    &&& m.file_size == file_size
    &&& match m.chat_template {
        Some(t) => lookup_text(entries, "tokenizer.chat_template"@) == Some(t@),
        None => lookup_text(entries, "tokenizer.chat_template"@) is None,
    }
    &&& match m.quantization {
        Some(q) => quantization_of(entries, filename) == Some(q@),
        None => quantization_of(entries, filename) is None,
    }
}

/// The error names `key` and says `fault` of it.
pub open spec fn reports(error: LoadError, key: Seq<char>, fault: KeyFault) -> bool {
    match fault {
        KeyFault::Missing => error matches LoadError::MetadataMissing(k) && k@ == key,
        KeyFault::WrongType => error matches LoadError::MetadataTypeError(k) && k@ == key,
    }
}

proof fn lemma_tail_count_positive(entries: Seq<MetadataEntry>, tail: Seq<char>)
    ensures
        find_count_by_tail(entries, tail) matches Some(n) ==> n > 0,
    decreases entries.len(),
{
    if entries.len() > 0 {
        lemma_tail_count_positive(entries.skip(1), tail);
    }
}

proof fn lemma_fallback_count_positive(entries: Seq<MetadataEntry>, suffix: Seq<char>, k: int)
    ensures
        fallback_count(entries, suffix, k) matches Ok(n) ==> n > 0,
    decreases 5 - k,
{
    if 0 <= k < 5 {
        lemma_fallback_count_positive(entries, suffix, k + 1);
    }
}

/// A count that is found is never zero.
pub proof fn lemma_count_positive(entries: Seq<MetadataEntry>, arch: Seq<char>, suffix: Seq<char>)
    ensures
        lookup_count(entries, arch, suffix) matches Ok(n) ==> n > 0,
{
    lemma_tail_count_positive(entries, seq!['.'] + suffix);
    lemma_fallback_count_positive(entries, suffix, 0);
}

fn count_of(value: &MetadataValue) -> (n: Option<usize>)
    ensures
        n == as_count(*value),
{
    match value {
        MetadataValue::Unsigned(v) => {
            if *v > 0 && *v <= usize::MAX as u64 {
                Some(*v as usize)
            } else {
                None
            }
        },
        MetadataValue::Signed(v) => {
            if *v > 0 && (*v as u64) <= usize::MAX as u64 {
                Some(*v as usize)
            } else {
                None
            }
        },
        _ => None,
    }
}

/// The value of the first entry with the key `key`.
pub fn get<'a>(entries: &'a Vec<MetadataEntry>, key: &str) -> (found: Option<&'a MetadataValue>)
    ensures
        match found {
            Some(v) => find_exact(entries@, key@) == Some(*v),
            None => find_exact(entries@, key@) is None,
        },
{
    let mut i: usize = 0;
    assert(entries@.skip(0) =~= entries@);
    while i < entries.len()
        invariant
            i <= entries@.len(),
            find_exact(entries@, key@) == find_exact(entries@.skip(i as int), key@),
        decreases entries@.len() - i,
    {
        proof {
            assert(entries@.skip(i as int).skip(1) =~= entries@.skip(i + 1));
        }
        if same_text(entries[i].key.as_str(), key) {
            return Some(&entries[i].value);
        }
        i += 1;
    }
    None
}

/// The text under `key`, where the first entry with that key holds text.
pub fn get_text(entries: &Vec<MetadataEntry>, key: &str) -> (found: Option<String>)
    ensures
        match found {
            Some(s) => lookup_text(entries@, key@) == Some(s@),
            None => lookup_text(entries@, key@) is None,
        },
{
    match get(entries, key) {
        Some(MetadataValue::Text(s)) => Some(s.clone()),
        _ => None,
    }
}

fn count_by_tail(entries: &Vec<MetadataEntry>, tail: &str) -> (found: Option<usize>)
    ensures
        found == find_count_by_tail(entries@, tail@),
{
    let mut i: usize = 0;
    assert(entries@.skip(0) =~= entries@);
    while i < entries.len()
        invariant
            i <= entries@.len(),
            find_count_by_tail(entries@, tail@) == find_count_by_tail(
                entries@.skip(i as int),
                tail@,
            ),
        decreases entries@.len() - i,
    {
        proof {
            assert(entries@.skip(i as int).skip(1) =~= entries@.skip(i + 1));
        }
        if text_ends_with(entries[i].key.as_str(), tail) {
            let n = count_of(&entries[i].value);
            if n.is_some() {
                return n;
            }
        }
        i += 1;
    }
    None
}

fn fallback_name(k: usize) -> (name: &'static str)
    requires
        k < 5,
    ensures
        name@ == fallback_prefix(k as int),
{
    if k == 0 {
        "llama"
    } else if k == 1 {
        "qwen"
    } else if k == 2 {
        "mistral"
    } else if k == 3 {
        "phi"
    } else {
        "gemma"
    }
}

/// The count that a model of architecture `arch` gives for `suffix`.
pub fn find_key(entries: &Vec<MetadataEntry>, arch: &str, suffix: &str) -> (found: Result<
    usize,
    KeyFault,
>)
    ensures
        found == lookup_count(entries@, arch@, suffix@),
{
    let own = dotted_key(arch, suffix);
    match get(entries, own.as_str()) {
        Some(v) => {
            return match count_of(v) {
                Some(n) => Ok(n),
                None => Err(KeyFault::WrongType),
            };
        },
        None => {},
    }
    let tail = dotted_key("", suffix);
    proof {
        reveal_strlit("");
        assert(tail@ =~= seq!['.'] + suffix@);
    }
    match count_by_tail(entries, tail.as_str()) {
        Some(n) => {
            return Ok(n);
        },
        None => {},
    }
    let mut k: usize = 0;
    while k < 5
        invariant
            k <= 5,
            find_exact(entries@, dotted(arch@, suffix@)) is None,
            find_count_by_tail(entries@, seq!['.'] + suffix@) is None,
            fallback_count(entries@, suffix@, 0) == fallback_count(entries@, suffix@, k as int),
        decreases 5 - k,
    {
        let key = dotted_key(fallback_name(k), suffix);
        match get(entries, key.as_str()) {
            Some(v) => {
                return match count_of(v) {
                    Some(n) => Ok(n),
                    None => Err(KeyFault::WrongType),
                };
            },
            None => {},
        }
        k += 1;
    }
    Err(KeyFault::Missing)
}

fn report(key: &str, what: KeyFault) -> (error: LoadError)
    ensures
        reports(error, key@, what),
{
    match what {
        KeyFault::Missing => LoadError::MetadataMissing(String::from_str(key)),
        KeyFault::WrongType => LoadError::MetadataTypeError(String::from_str(key)),
    }
}

/// What follows the last dot of `name`.
pub fn extension(name: &str) -> (piece: String)
    ensures
        piece@ == last_piece(name@),
{
    let len = name.unicode_len();
    let mut start: usize = 0;
    let mut i: usize = 0;
    while i < len
        invariant
            len == name@.len(),
            start <= i <= len,
            name@.subrange(start as int, i as int) == last_piece(name@.take(i as int)),
        decreases len - i,
    {
        let c = name.get_char(i);
        proof {
            assert(name@.take(i + 1).drop_last() =~= name@.take(i as int));
            assert(name@.take(i + 1).last() == c);
        }
        if c == '.' {
            start = i + 1;
            assert(name@.subrange(start as int, start as int) =~= Seq::<char>::empty());
        } else {
            assert(name@.subrange(start as int, i + 1) =~= name@.subrange(
                start as int,
                i as int,
            ).push(c));
        }
        i += 1;
    }
    proof {
        assert(name@.take(len as int) =~= name@);
    }
    String::from_str(name.substring_char(start, len))
}

fn is_tag_like(piece: &str) -> (r: bool)
    ensures
        r == tag_like(piece@),
{
    let len = piece.unicode_len();
    if len <= 2 {
        return false;
    }
    let mut i: usize = 0;
    while i < len
        invariant
            len == piece@.len(),
            i <= len,
            forall|j: int| 0 <= j < i ==> word_char(#[trigger] piece@[j]),
        decreases len - i,
    {
        if !is_word_char(piece.get_char(i)) {
            return false;
        }
        i += 1;
    }
    true
}

/// Reads the description of a model out of the key/value section of its
/// file. `filename` stands in for a missing name, `file_size` is recorded as
/// given.
pub fn extract_metadata(entries: &Vec<MetadataEntry>, filename: &str, file_size: u64) -> (r: Result<
    GgufMetadata,
    LoadError,
>)
    ensures
        match r {
            Ok(m) => first_fault(entries@) is None && describes(m, entries@, filename@, file_size),
            Err(e) => first_fault(entries@) matches Some((key, f)) && reports(e, key, f),
        },
{
    let architecture = match get_text(entries, "general.architecture") {
        Some(s) => s,
        None => String::from_str("llama"),
    };
    let name = match get_text(entries, "general.name") {
        Some(s) => s,
        None => String::from_str(filename),
    };
    let arch = architecture.as_str();
    let n_layer = match find_key(entries, arch, "block_count") {
        Ok(n) => n,
        Err(f) => {
            return Err(report("block_count", f));
        },
    };
    let n_embd = match find_key(entries, arch, "embedding_length") {
        Ok(n) => n,
        Err(f) => {
            return Err(report("embedding_length", f));
        },
    };
    let vocab_size = match find_key(entries, arch, "vocab_size") {
        Ok(n) => n,
        Err(f) => {
            return Err(report("vocab_size", f));
        },
    };
    let context_length = match find_key(entries, arch, "context_length") {
        Ok(n) => n,
        Err(_) => DEFAULT_CONTEXT_LENGTH,
    };
    proof {
        lemma_count_positive(entries@, arch@, "block_count"@);
        lemma_count_positive(entries@, arch@, "embedding_length"@);
        lemma_count_positive(entries@, arch@, "vocab_size"@);
        lemma_count_positive(entries@, arch@, "context_length"@);
    }
    let chat_template = get_text(entries, "tokenizer.chat_template");
    let quantization = match get_text(entries, "general.quantization") {
        Some(q) => Some(q),
        None => {
            let piece = extension(filename);
            if is_tag_like(piece.as_str()) {
                Some(piece)
            } else {
                None
            }
        },
    };
    Ok(
        GgufMetadata {
            name,
            architecture,
            n_layer,
            n_embd,
            vocab_size,
            context_length,
            file_size,
            chat_template,
            quantization,
        },
    )
}

} // verus!
