//! Parsing of interface-definition sources and linking of their type references
//! into a symbol model with dependency and reference queries.

pub mod lexer;
pub mod error;
pub mod ast;
pub mod parse;
pub mod tokens;
pub mod primitive;
pub mod model;
pub mod aidl;
pub mod link;
pub mod graph;
pub mod order;
pub mod ui_state;
pub mod ui_controller;
