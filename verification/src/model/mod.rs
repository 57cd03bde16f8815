pub mod alignment;
pub mod definition;
pub mod fingerprint;
pub mod loader;
pub mod metadata;
pub mod tokenizer;

pub use loader::{Model, ModelInner};
pub use metadata::{GgufMetadata, LoadError, MetadataEntry, MetadataValue};
pub use tokenizer::{TokenizerError, TokenizerWrapper, VocabEntry, Vocabulary};
