pub mod scanner;
pub mod sessions;
