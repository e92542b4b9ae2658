//! Reading, changing and writing the shared AWS credentials file.
//!
//! The file is a list of named profiles, each holding an access key id, a
//! secret access key and, optionally, a session token. This crate holds the
//! profiles in memory, parses and produces the text of the file, and proves
//! that both agree with a small mathematical description of the format.

pub mod codec;
pub mod credentials;
pub mod error;
pub mod laws;
pub mod manager;
pub mod paths;
pub mod setter;
pub mod store;
pub mod text;

pub use credentials::{Credentials, CredentialsView};
pub use error::Error;
pub use manager::{AWSCredentials, FileView};
pub use setter::CredentialsSetter;
pub use store::{ProfileStore, ProfileView};
