pub mod source_to_ast;
pub mod tokens;
pub mod types;
pub mod utils;

pub use self::source_to_ast::to_ast;
