//! codeai: code blocks, not files, as the unit of exploration. The library
//! reads source files into blocks with stable symbol ids, resolves imports
//! to project files, plans incremental indexing from what git reports, and
//! reads blocks back within a byte budget.
pub mod autoreindex;
pub mod models;
pub mod num;
pub mod text;
pub mod lang;
pub mod commands;
pub mod order;
pub mod store;
pub mod syntax;
pub mod parser;
pub mod scanner;
