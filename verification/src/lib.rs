pub mod text;
pub mod ids;
pub mod lore;
pub mod content_cleaner;
pub mod rel_path;
pub mod html;
pub mod config;
pub mod seqs;
pub mod numfmt;
pub mod agent;
pub mod week;
pub mod email_index;
pub mod summarize;
pub mod outputs;
pub mod tools;
pub mod tool_cli;
pub mod threads;
pub mod models;
