//! Conversation-window management and response-stream decoding for an
//! interactive chat client.
pub mod conversation;
pub mod tokens;
pub mod window;
pub mod stream;
pub mod text;
pub mod request;
pub mod session;
