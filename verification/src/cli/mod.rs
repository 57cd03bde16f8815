pub mod history;
pub mod stream;

pub use history::History;
pub use stream::strip_special_tokens;
