//! A conversation with a model: the input line, the reply as it arrives, and
//! what is shown of both.

pub mod chat_laws;
pub mod dashboard;
pub mod dashboard_laws;
pub mod editor_laws;
pub mod engine;
pub mod input_editor;
pub mod markdown;
pub mod markdown_laws;
pub mod reply;
pub mod reply_laws;
pub mod screen_laws;
pub mod slash;
pub mod span;
pub mod stops;
pub mod sysmon;
pub mod tui;
pub mod turn;

pub use engine::{ChatEngine, ChatMessage, Role};
