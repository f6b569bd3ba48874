pub mod color;
pub mod yaml;
pub mod text;
pub mod patch;
pub mod reach;
pub mod config;
pub mod edit;
pub mod order;
pub mod schema;
pub mod grammar;
pub mod color_scheme;
pub mod style;
pub mod backup;
pub mod utils;
pub mod error;
pub mod plain_merge;
