pub mod env;
pub mod runtime;
pub mod time;
