pub mod server_socket;
pub mod socket;
pub mod stream;
