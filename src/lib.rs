pub mod error;
pub mod lexicon;
pub mod scanner;
pub mod token;
pub mod token_type;
pub mod laws;
