pub mod error;
pub mod jwt;
pub mod model;
pub mod password;
pub mod store;
pub mod utils;
