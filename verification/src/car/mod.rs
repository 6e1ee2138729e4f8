pub mod node;
pub mod reader;
pub mod util;
