//! Console log formatting: severity tokens, colours and line layout.

pub mod layout;
pub mod setup;
pub mod severity;
pub mod style;
pub mod text;

pub use crate::layout::{format_timestamped, prefix_token};
pub use crate::setup::{init_logger, LoggerSetup, Stream, FILTER_VARIABLE};
pub use crate::severity::{level_color, level_text_color, level_token};
pub use crate::style::Hue;
