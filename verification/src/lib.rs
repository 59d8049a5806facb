//! A gate for secrets: rules decide which commands need approval, and leases
//! remember an approval for a while.
pub mod bytes;
pub mod clock;
pub mod config;
pub mod daemon;
pub mod encoding;
pub mod factor;
pub mod instance;
pub mod keystore;
pub mod keystore_macos;
pub mod keystore_seal;
pub mod lease;
pub mod lists;
pub mod path;
pub mod policy;
pub mod private_file;
pub mod secrets;
pub mod shelf;
pub mod text;
