//! Positioned diagnostics.
pub mod error;

pub use error::Error;
pub use error::ErrorType;
pub use error::ErrorView;
