pub mod codec;
pub mod comment;
pub mod model;
pub mod pending;
pub mod request;
pub mod session;
pub mod text;
pub mod version;
