pub mod common;
pub mod renconstruct;
pub mod renotize;
pub mod renutil;
pub mod text;
pub mod version;
