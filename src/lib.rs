//! A store of labelled tool sessions: the label/session model, its JSON
//! document form, and the operations that the command line applies to it.

pub mod timestamp;
pub mod data;
pub mod json;
pub mod codec;
pub mod storage;
pub mod commands;
