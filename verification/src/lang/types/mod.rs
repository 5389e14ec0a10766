//! The built-in GScript types.
pub mod array_object;
pub mod array_type;
pub mod native_object_type;
pub mod number;
pub mod object_type;
pub mod string_type;
