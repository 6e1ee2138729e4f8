pub mod car;
pub mod tx;
pub mod error;
pub mod meta;
pub mod filters;
pub mod source;
