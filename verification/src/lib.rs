//! A chat client core: a wire codec for the chat envelope format and the
//! session state machine that folds inbound envelopes and local user intents
//! into roster, transcript and typing-presence state.

pub mod codec;
pub mod session;
pub mod wire;
