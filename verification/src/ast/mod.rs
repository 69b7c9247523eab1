pub mod parser;
pub mod syntax;
pub mod visitor;
