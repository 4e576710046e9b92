//! The codec surface through which readers decode payloads and keys.
pub mod no_key;
pub mod with_key;
