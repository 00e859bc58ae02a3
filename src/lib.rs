//! A planning-document engine: finds convention-defined sections in a
//! blueprint, reads its task queue, validates it and edits it in place.
pub mod text;
pub mod blueprint;
pub mod parser;
pub mod validator;
pub mod prompt;
pub mod tasks;
