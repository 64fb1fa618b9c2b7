//! Copy text, pick a mode, get a result.

pub mod api;
pub mod base64_text;
pub mod clipboard;
pub mod clock;
pub mod config;
pub mod coordinator;
pub mod debug;
pub mod diagnostics;
pub mod error;
pub mod files;
pub mod hotkey;
pub mod images;
pub mod json;
pub mod lang;
pub mod mode;
pub mod numbers;
pub mod platform;
pub mod prompt;
pub mod settings;
pub mod starter;
pub mod telemetry;
pub mod text;
pub mod toml_doc;
pub mod utf8;

pub use clipboard::ClipboardContent;
pub use clock::format_utc;
pub use debug::DebugCapture;
pub use error::ApiError;
pub use error::ClipboardError;
pub use error::HotkeyError;
pub use error::PlatformError;
pub use mode::ProcessMode;
pub use mode::RephraseLength;
pub use mode::RephraseParams;
pub use mode::RephraseStyle;
pub use mode::ThinkingMode;
