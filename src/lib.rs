pub mod error;
pub mod laws;
pub mod lists;
pub mod scanner;
pub mod statement;

pub use error::{Keyword, ParseError};
pub use statement::{parse, SqlInsert};
