pub mod messages;
pub mod order;
pub mod session;
pub mod tool_build;
pub mod prior;
pub mod llm;
