//! Analysis of recorded Source-engine game captures: send-table flattening,
//! entity decoding against a flattened schema, and a single-pass analyser that
//! folds decoded messages into a match summary.
pub mod analyser;
pub mod entity;
pub mod flatten_laws;
pub mod handler;
pub mod message;
pub mod records;
pub mod sendprop;
pub mod userinfo;
pub mod usermessage;
