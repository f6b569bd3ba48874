pub mod settings;
pub mod keybinding;
pub mod punctuation;
pub mod schema;
pub mod grammar;
pub mod style;
pub mod dict;
pub mod backup;
pub mod sync;
