pub mod ast;
pub mod decimal;
pub mod error;
pub mod input_stream;
pub mod lexer_spec;

pub mod token;
pub mod tokenizer;
pub mod unicode;

pub use error::{Error, ErrorKind};
pub use input_stream::InputStream;
