//! The GScript value model and the behaviour of its built-in types, as the
//! virtual machine asks them to act.
pub mod exception_handler;
pub mod native_object;
pub mod types;
pub mod value;
pub mod value_converter;
