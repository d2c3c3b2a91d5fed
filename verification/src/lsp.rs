//! The language server.
pub mod complete;
pub mod definition;
pub mod find_in_ast;
pub mod hover;
pub mod index;
pub mod offers;
pub mod places;
pub mod server;
