//! Turns a typed tag name and a list of key/value rows into a single XML
//! element, and drives the keyboard-only editing session around it.
pub mod document;
pub mod ident;
pub mod session;
