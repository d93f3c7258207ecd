//! Core of a selection-capture and translation-relay tool.
//!
//! Two independent components form the core:
//!
//! - the selection capture engine (`capture`, `sentinel`): a state machine
//!   that owns one clipboard-mediated capture attempt — it records the
//!   previous clipboard text, marks the clipboard with a fresh sentinel,
//!   classifies every polled sample, retries a copy gesture once, and always
//!   directs the caller to restore the previous clipboard content;
//! - the stream relay parser (`relay`, `payload`): an incremental parser that
//!   reassembles newline-delimited protocol frames from arbitrarily chunked
//!   input and emits at most one terminal event.
//!
//! Around them stand the smaller verified pieces the same application
//! decides with: URL normalization (`url`), screen-region values and pixel
//! conversion (`screen`), and the choices around the external OCR tooling
//! (`tools`), all on the character-level text utilities of `text`.
//!
//! The surrounding process — clipboard access, key synthesis, HTTP transport —
//! drives these components and is kept outside the library.

pub mod text;
pub mod payload;
pub mod relay;
pub mod sentinel;
pub mod capture;
pub mod url;
pub mod screen;
pub mod tools;
