pub mod config;
pub mod error;
pub mod outputs;
pub mod select;
pub mod slate;
pub mod wallet;
pub mod scan;
pub mod keychain;
pub mod greedy;
