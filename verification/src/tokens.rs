pub mod error;
pub mod token;

pub use error::TokenizationError;
pub use token::Token;
