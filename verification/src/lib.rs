pub mod api;
pub mod client;
pub mod executable;
pub mod text;
pub mod workspace;
