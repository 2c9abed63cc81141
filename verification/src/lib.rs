//! Decoding and classification of credential-record field data stored as
//! untrusted JSON inside a password-vault item.
//!
//! The schema decoder turns a decrypted detail blob into a strongly typed
//! record after exhaustive structural validation; the field classifier then
//! decides, for each decoded field, whether its value is a secret that must
//! stay masked or plain data that may be displayed.
pub mod classify;
pub mod error;
pub mod item;
pub mod json;
pub mod section;
pub mod text;
