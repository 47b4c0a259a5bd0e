//! A command line clipboard with a searchable history: the rules that decide
//! what it does, apart from the terminal, the clipboard and the files it talks to.

pub mod args;
pub mod completions;
pub mod copy;
pub mod encoding;
pub mod history;
pub mod peek;
pub mod platform;
pub mod text;
pub mod watch;
