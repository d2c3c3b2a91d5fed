//! The intermediate representation and the passes over it.
pub mod block_arg;
pub mod builder;
pub mod dialect;
pub mod edit;
pub mod env;
pub mod finish;
pub mod function;
pub mod ids;
pub mod inst;
pub mod layout;
pub mod mc;
pub mod modify;
pub mod optimize;
pub mod order;
pub mod slots;
pub mod types;
pub mod visit;
