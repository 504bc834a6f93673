pub mod dedup;
pub mod mail;
pub mod paths;
pub mod related;
pub mod submit;
pub mod output_files;
