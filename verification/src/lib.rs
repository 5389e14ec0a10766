pub mod ast;
pub mod compiler;
pub mod imports;
pub mod lang;
pub mod parser;
pub mod stdlib;
pub mod text;
