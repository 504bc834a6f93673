pub mod links;
pub mod markdown;
pub mod page;
pub mod unfurl;
pub mod render;
