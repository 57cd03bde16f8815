pub mod chat;
pub mod input;

pub use chat::{wrap_text, ChatWidget};
pub use input::{InputWidget, Key};
