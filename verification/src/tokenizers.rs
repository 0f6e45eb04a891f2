pub mod tokenizer;

pub use tokenizer::Tokenizer;
pub use tokenizer::TokenizerConfig;
