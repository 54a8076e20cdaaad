//! SecureNote core: the verified logic behind an encrypted notepad with a
//! Vim editing mode and a Markdown preview.

pub mod vim;
pub mod text;
pub mod markdown;
pub mod crypto;
pub mod storage;
pub mod session;
pub mod search;
pub mod editor;
pub mod editing;
pub mod vim_keys;
pub mod ex;
pub mod cmdline;
