use oxide_rs::model::metadata::{
    extension, extract_metadata, find_key, get, get_text, KeyFault, LoadError, MetadataEntry,
    MetadataValue,
};

fn entry(key: &str, value: MetadataValue) -> MetadataEntry {
    MetadataEntry { key: key.to_string(), value }
}

fn text(s: &str) -> MetadataValue {
    MetadataValue::Text(s.to_string())
}

fn llama() -> Vec<MetadataEntry> {
    vec![
        entry("general.architecture", text("llama")),
        entry("general.name", text("Tiny Llama")),
        entry("llama.block_count", MetadataValue::Unsigned(22)),
        entry("llama.embedding_length", MetadataValue::Unsigned(2048)),
        entry("llama.vocab_size", MetadataValue::Unsigned(32000)),
        entry("llama.context_length", MetadataValue::Unsigned(2048)),
        entry("tokenizer.chat_template", text("{{ messages }}")),
        entry("general.quantization", text("Q4_K_M")),
    ]
}

fn without(entries: Vec<MetadataEntry>, key: &str) -> Vec<MetadataEntry> {
    entries.into_iter().filter(|e| e.key != key).collect()
}

#[test]
fn a_description_is_read_from_the_entries() {
    let m = extract_metadata(&llama(), "tiny.gguf", 1234).unwrap();
    assert_eq!(m.name, "Tiny Llama");
    assert_eq!(m.architecture, "llama");
    assert_eq!(m.n_layer, 22);
    assert_eq!(m.n_embd, 2048);
    assert_eq!(m.vocab_size, 32000);
    assert_eq!(m.context_length, 2048);
    assert_eq!(m.file_size, 1234);
    assert_eq!(m.chat_template.as_deref(), Some("{{ messages }}"));
    assert_eq!(m.quantization.as_deref(), Some("Q4_K_M"));
    let copy = m.clone();
    assert_eq!(copy.name, m.name);
    assert_eq!(copy.context_length, 2048);
}

#[test]
fn what_is_absent_is_defaulted() {
    let entries = vec![
        entry("phi.block_count", MetadataValue::Unsigned(4)),
        entry("phi.embedding_length", MetadataValue::Signed(64)),
        entry("phi.vocab_size", MetadataValue::Unsigned(100)),
    ];
    let m = extract_metadata(&entries, "model.q8_0", 9).unwrap();
    assert_eq!(m.architecture, "llama");
    assert_eq!(m.name, "model.q8_0");
    assert_eq!(m.n_layer, 4);
    assert_eq!(m.n_embd, 64);
    assert_eq!(m.context_length, 4096);
    assert_eq!(m.chat_template, None);
    assert_eq!(m.quantization.as_deref(), Some("q8_0"));
}

#[test]
fn the_quantization_falls_back_to_the_file_name() {
    let entries = without(llama(), "general.quantization");
    let q = |name: &str| extract_metadata(&entries, name, 0).unwrap().quantization;
    assert_eq!(q("tiny.Q4_K_M"), Some("Q4_K_M".to_string()));
    assert_eq!(q("tiny.gguf"), Some("gguf".to_string()));
    assert_eq!(q("tiny.q4"), None);
    assert_eq!(q("tiny.q4-k"), None);
    assert_eq!(q("tiny."), None);
    assert_eq!(q("tiny"), Some("tiny".to_string()));
    assert_eq!(q(""), None);
}

#[test]
fn the_last_piece_of_a_name_follows_the_last_dot() {
    assert_eq!(extension("a.b.c"), "c");
    assert_eq!(extension("abc"), "abc");
    assert_eq!(extension("abc."), "");
    assert_eq!(extension(".abc"), "abc");
    assert_eq!(extension(""), "");
    assert_eq!(extension("mod\u{e8}le.\u{e9}t\u{e9}"), "\u{e9}t\u{e9}");
}

#[test]
fn a_missing_key_is_named() {
    for key in ["block_count", "embedding_length", "vocab_size"] {
        let entries = without(llama(), &format!("llama.{}", key));
        match extract_metadata(&entries, "tiny.gguf", 0) {
            Err(LoadError::MetadataMissing(k)) => assert_eq!(k, key),
            other => panic!("expected a missing key, got {:?}", other),
        }
    }
}

#[test]
fn a_key_of_the_wrong_type_is_named() {
    let cases = vec![
        ("block_count", text("22")),
        ("embedding_length", MetadataValue::Signed(-1)),
        ("vocab_size", MetadataValue::Unsigned(0)),
        ("block_count", MetadataValue::List(vec![MetadataValue::Unsigned(1)])),
    ];
    for (key, value) in cases {
        let full = format!("llama.{}", key);
        let mut entries = without(llama(), &full);
        entries.push(entry(&full, value));
        match extract_metadata(&entries, "tiny.gguf", 0) {
            Err(LoadError::MetadataTypeError(k)) => assert_eq!(k, key),
            other => panic!("expected a type error, got {:?}", other),
        }
    }
}

#[test]
fn the_first_fault_is_the_one_reported() {
    let entries = vec![entry("llama.embedding_length", text("wide"))];
    match extract_metadata(&entries, "tiny.gguf", 0) {
        Err(LoadError::MetadataMissing(k)) => assert_eq!(k, "block_count"),
        other => panic!("expected a missing key, got {:?}", other),
    }
}

#[test]
fn a_count_is_looked_up_in_three_places() {
    let entries = vec![
        entry("other.width", MetadataValue::Unsigned(7)),
        entry("mine.width", MetadataValue::Unsigned(3)),
        entry("gemma.depth", MetadataValue::Unsigned(5)),
        entry("x.depth", text("deep")),
        entry("qwen.height", text("tall")),
        entry("height", MetadataValue::Unsigned(1)),
    ];
    assert_eq!(find_key(&entries, "mine", "width"), Ok(3));
    assert_eq!(find_key(&entries, "yours", "width"), Ok(7));
    assert_eq!(find_key(&entries, "yours", "depth"), Ok(5));
    assert_eq!(find_key(&entries, "x", "depth"), Err(KeyFault::WrongType));
    assert_eq!(find_key(&entries, "yours", "height"), Err(KeyFault::WrongType));
    assert_eq!(find_key(&entries, "yours", "length"), Err(KeyFault::Missing));
    assert_eq!(find_key(&Vec::new(), "llama", "block_count"), Err(KeyFault::Missing));
}

#[test]
fn the_first_entry_of_a_key_counts() {
    let entries = vec![
        entry("a", text("first")),
        entry("b", MetadataValue::Unsigned(2)),
        entry("a", text("second")),
    ];
    assert_eq!(get_text(&entries, "a"), Some("first".to_string()));
    assert_eq!(get_text(&entries, "b"), None);
    assert_eq!(get_text(&entries, "c"), None);
    assert!(matches!(get(&entries, "b"), Some(MetadataValue::Unsigned(2))));
    assert!(get(&entries, "").is_none());
}

#[test]
fn a_context_length_that_is_no_count_gives_way_to_the_default() {
    for value in [
        MetadataValue::Other,
        MetadataValue::Unsigned(0),
        MetadataValue::Signed(-1),
        text("long"),
        MetadataValue::List(vec![MetadataValue::Unsigned(8192)]),
    ] {
        let mut entries = without(llama(), "llama.context_length");
        entries.push(entry("llama.context_length", value));
        assert_eq!(extract_metadata(&entries, "tiny.gguf", 0).unwrap().context_length, 4096);
    }
}
