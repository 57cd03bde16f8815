use oxide_rs::model::alignment::gives_zero_alignment;
use oxide_rs::model::loader::{extent_fits, warmup_strides, Model};
use candle_core::quantized::gguf_file::Content;
use oxide_rs::model::metadata::{LoadError, MetadataEntry, MetadataValue};

fn gguf_string(out: &mut Vec<u8>, text: &str) {
    out.extend_from_slice(&(text.len() as u64).to_le_bytes());
    out.extend_from_slice(text.as_bytes());
}

fn gguf_u32(out: &mut Vec<u8>, key: &str, value: u32) {
    gguf_string(out, key);
    out.extend_from_slice(&4u32.to_le_bytes());
    out.extend_from_slice(&value.to_le_bytes());
}

fn gguf_text(out: &mut Vec<u8>, key: &str, value: &str) {
    gguf_string(out, key);
    out.extend_from_slice(&8u32.to_le_bytes());
    gguf_string(out, value);
}

fn gguf_header(entries: u64) -> Vec<u8> {
    let mut out: Vec<u8> = Vec::new();
    out.extend_from_slice(b"GGUF");
    out.extend_from_slice(&3u32.to_le_bytes());
    out.extend_from_slice(&0u64.to_le_bytes());
    out.extend_from_slice(&entries.to_le_bytes());
    out
}

fn outcome(r: Result<Model, LoadError>) -> String {
    match r {
        Ok(_) => "loaded".to_string(),
        Err(e) => format!("{:?}", e),
    }
}

#[test]
fn bytes_that_are_no_model_do_not_load() {
    assert!(matches!(Model::load(b"this is no model", "x.gguf", 16), Err(LoadError::Io(_))));
    assert!(matches!(Model::load(b"", "x.gguf", 0), Err(LoadError::Io(_))));
}

#[test]
fn a_file_without_its_keys_does_not_load() {
    let mut bytes = gguf_header(2);
    gguf_text(&mut bytes, "general.architecture", "llama");
    gguf_u32(&mut bytes, "llama.embedding_length", 64);
    assert_eq!(
        outcome(Model::load(&bytes, "x.gguf", bytes.len() as u64)),
        "MetadataMissing(\"block_count\")"
    );
}

#[test]
fn a_key_of_the_wrong_type_does_not_load() {
    let mut bytes = gguf_header(2);
    gguf_text(&mut bytes, "llama.block_count", "many");
    gguf_u32(&mut bytes, "llama.embedding_length", 64);
    assert_eq!(
        outcome(Model::load(&bytes, "x.gguf", bytes.len() as u64)),
        "MetadataTypeError(\"block_count\")"
    );
}

#[test]
fn a_file_without_weights_is_of_no_architecture() {
    for arch in ["llama", "lfm2", "mystery"] {
        let mut bytes = gguf_header(4);
        gguf_text(&mut bytes, "general.architecture", arch);
        gguf_u32(&mut bytes, &format!("{}.block_count", arch), 2);
        gguf_u32(&mut bytes, &format!("{}.embedding_length", arch), 64);
        gguf_u32(&mut bytes, &format!("{}.vocab_size", arch), 100);
        assert_eq!(
            outcome(Model::load(&bytes, "x.gguf", bytes.len() as u64)),
            format!("ArchitectureUnsupported(\"{}\")", arch)
        );
    }
}

#[test]
fn the_head_of_a_mapping_is_asked_for_ahead_of_time() {
    assert_eq!(Model::prefetch_len(0), 0);
    assert_eq!(Model::prefetch_len(1000), 1000);
    assert_eq!(Model::prefetch_len(128 * 1024 * 1024), 128 * 1024 * 1024);
    assert_eq!(Model::prefetch_len(128 * 1024 * 1024 + 1), 128 * 1024 * 1024);
    assert_eq!(Model::prefetch_len(usize::MAX), 134_217_728);
}

#[test]
fn a_model_without_heads_is_of_no_architecture() {
    for (arch, key) in [
        ("llama", "llama.attention.head_count"),
        ("llama", "llama.attention.head_count_kv"),
        ("lfm2", "lfm2.attention.head_count"),
    ] {
        let mut bytes = gguf_header(5);
        gguf_text(&mut bytes, "general.architecture", arch);
        gguf_u32(&mut bytes, &format!("{}.block_count", arch), 2);
        gguf_u32(&mut bytes, &format!("{}.embedding_length", arch), 64);
        gguf_u32(&mut bytes, &format!("{}.vocab_size", arch), 100);
        gguf_u32(&mut bytes, key, 0);
        assert_eq!(
            outcome(Model::load(&bytes, "x.gguf", bytes.len() as u64)),
            format!("ArchitectureUnsupported(\"{}\")", arch)
        );
    }
}

fn aligned(kind: u32, value: &[u8]) -> Vec<u8> {
    let mut bytes = gguf_header(1);
    gguf_string(&mut bytes, "general.alignment");
    bytes.extend_from_slice(&kind.to_le_bytes());
    bytes.extend_from_slice(value);
    bytes
}

#[test]
fn an_alignment_of_zero_is_found_in_the_bytes() {
    assert!(gives_zero_alignment(&aligned(4, &[0, 0, 0, 0])));
    assert!(gives_zero_alignment(&aligned(0, &[0])));
    assert!(gives_zero_alignment(&aligned(1, &[0])));
    assert!(gives_zero_alignment(&aligned(2, &[0, 0])));
    assert!(gives_zero_alignment(&aligned(3, &[0, 0])));
    assert!(gives_zero_alignment(&aligned(5, &[0, 0, 0, 0])));
}

#[test]
fn an_alignment_that_is_not_zero_is_let_through() {
    assert!(!gives_zero_alignment(&aligned(4, &[32, 0, 0, 0])));
    assert!(!gives_zero_alignment(&aligned(4, &[0, 1, 0, 0])));
    assert!(!gives_zero_alignment(&aligned(0, &[8])));
    assert!(!gives_zero_alignment(&aligned(2, &[0, 2])));
    assert!(!gives_zero_alignment(&aligned(10, &[0, 0, 0, 0, 0, 0, 0, 0])));
    assert!(!gives_zero_alignment(b""));
    assert!(!gives_zero_alignment(b"general.alignment"));
    assert!(!gives_zero_alignment(&gguf_header(0)));
}

#[test]
fn a_padded_key_is_found_too() {
    let mut bytes = gguf_header(1);
    gguf_string(&mut bytes, "general.alignment\0\0");
    bytes.extend_from_slice(&4u32.to_le_bytes());
    bytes.extend_from_slice(&0u32.to_le_bytes());
    assert!(gives_zero_alignment(&bytes));
    let mut bytes = gguf_header(1);
    gguf_string(&mut bytes, "general.alignment\0\0");
    bytes.extend_from_slice(&4u32.to_le_bytes());
    bytes.extend_from_slice(&64u32.to_le_bytes());
    assert!(!gives_zero_alignment(&bytes));
}

#[test]
fn a_file_that_gives_an_alignment_of_zero_does_not_load() {
    let mut bytes = gguf_header(2);
    gguf_text(&mut bytes, "general.architecture", "llama");
    gguf_u32(&mut bytes, "general.alignment", 0);
    match Model::load(&bytes, "x.gguf", bytes.len() as u64) {
        Err(LoadError::Io(why)) => assert_eq!(why, "The file could give an alignment of zero"),
        other => panic!("unexpected: {}", outcome(other)),
    }
}

#[test]
fn a_file_with_an_alignment_is_read_as_before() {
    let mut bytes = gguf_header(2);
    gguf_text(&mut bytes, "general.architecture", "llama");
    gguf_u32(&mut bytes, "general.alignment", 64);
    assert_eq!(
        outcome(Model::load(&bytes, "x.gguf", bytes.len() as u64)),
        "MetadataMissing(\"block_count\")"
    );
}

fn stride(position: usize, len: usize) -> (usize, usize) {
    (position, len)
}

fn strides(n: usize) -> Vec<(usize, usize)> {
    warmup_strides(n).iter().map(|s| (s.position, s.len)).collect()
}

#[test]
fn a_warm_up_goes_in_strides_of_sixty_four() {
    assert_eq!(strides(0), vec![]);
    assert_eq!(strides(1), vec![stride(0, 1)]);
    assert_eq!(strides(64), vec![stride(0, 64)]);
    assert_eq!(strides(65), vec![stride(0, 64), stride(64, 1)]);
    assert_eq!(strides(130), vec![stride(0, 64), stride(64, 64), stride(128, 2)]);
}

#[test]
fn a_warm_up_feeds_no_more_than_five_hundred_and_twelve_tokens() {
    let all = strides(100_000);
    assert_eq!(all.len(), 8);
    assert_eq!(all[7], stride(448, 64));
    assert_eq!(strides(512), all);
    assert_eq!(strides(usize::MAX), all);
}

fn entry(key: &str, value: MetadataValue) -> MetadataEntry {
    MetadataEntry { key: key.to_string(), value }
}

fn header_of(bytes: &[u8]) -> Content {
    Content::read(&mut std::io::Cursor::new(bytes)).unwrap()
}

#[test]
fn a_header_is_made_into_a_model_by_its_entries() {
    let mut bytes = gguf_header(1);
    gguf_u32(&mut bytes, "llama.attention.head_count", 0);
    let entries = vec![entry("llama.embedding_length", MetadataValue::Unsigned(64))];
    assert_eq!(
        outcome(Model::from_content(header_of(&bytes), entries, &bytes, "x.gguf", 0)),
        "MetadataMissing(\"block_count\")"
    );
    let described = || {
        vec![
            entry("general.architecture", MetadataValue::Text("llama".to_string())),
            entry("llama.block_count", MetadataValue::Unsigned(2)),
            entry("llama.embedding_length", MetadataValue::Unsigned(64)),
            entry("llama.vocab_size", MetadataValue::Unsigned(100)),
            entry("llama.context_length", MetadataValue::Unsigned(128)),
        ]
    };
    assert_eq!(
        outcome(Model::from_content(header_of(&bytes), described(), &bytes, "x.gguf", 0)),
        "ArchitectureUnsupported(\"llama\")"
    );
    let empty = gguf_header(0);
    assert_eq!(
        outcome(Model::from_content(header_of(&empty), described(), &empty, "x.gguf", 0)),
        "ArchitectureUnsupported(\"llama\")"
    );
}

#[test]
fn the_elements_of_a_tensor_must_be_countable() {
    assert!(extent_fits(&vec![]));
    assert!(extent_fits(&vec![0]));
    assert!(extent_fits(&vec![4096, 32000]));
    assert!(extent_fits(&vec![usize::MAX / 16]));
    assert!(extent_fits(&vec![usize::MAX / 32, 2, 1, 1]));
    assert!(!extent_fits(&vec![usize::MAX / 16 + 1]));
    assert!(!extent_fits(&vec![1 << 40, 1 << 40]));
    assert!(!extent_fits(&vec![1 << 40, 1 << 40, 0]));
    assert!(extent_fits(&vec![0, 1 << 40, 1 << 40]));
    assert!(!extent_fits(&vec![usize::MAX, 2]));
}

fn gguf_tensor(out: &mut Vec<u8>, name: &str, dims: &[u64]) {
    gguf_string(out, name);
    out.extend_from_slice(&(dims.len() as u32).to_le_bytes());
    for d in dims {
        out.extend_from_slice(&d.to_le_bytes());
    }
    out.extend_from_slice(&0u32.to_le_bytes());
    out.extend_from_slice(&0u64.to_le_bytes());
}

#[test]
fn a_tensor_too_large_to_count_is_of_no_architecture() {
    for arch in ["llama", "lfm2"] {
        let mut bytes: Vec<u8> = Vec::new();
        bytes.extend_from_slice(b"GGUF");
        bytes.extend_from_slice(&3u32.to_le_bytes());
        bytes.extend_from_slice(&1u64.to_le_bytes());
        bytes.extend_from_slice(&9u64.to_le_bytes());
        gguf_text(&mut bytes, "general.architecture", arch);
        for (key, value) in [
            ("block_count", 1),
            ("embedding_length", 64),
            ("vocab_size", 100),
            ("attention.head_count", 4),
            ("attention.head_count_kv", 4),
            ("rope.dimension_count", 16),
            ("context_length", 128),
            ("shortconv.l_cache", 3),
        ] {
            gguf_u32(&mut bytes, &format!("{}.{}", arch, key), value);
        }
        gguf_tensor(&mut bytes, "token_embd.weight", &[1 << 40, 1 << 40]);
        assert_eq!(
            outcome(Model::load(&bytes, "x.gguf", bytes.len() as u64)),
            format!("ArchitectureUnsupported(\"{}\")", arch)
        );
    }
}
