//! The verified core of a push-to-talk voice input addon: it turns captured
//! audio into the frames of a streaming recognizer, and the frames that come
//! back into transcripts.
//!
//! The library decides, and leaves the microphone, the sockets and the clock to
//! the program around it: [`connect`] says which gateway is asked next, and
//! [`session`] what is to be done about what happens. [`frame`] holds the
//! protocol, [`payload`] the settings that open a session, [`notice`] what the
//! addon is told. [`trace`] proves what holds of a session as a whole.
pub mod audio;
pub mod bytes;
pub mod config;
pub mod connect;
pub mod error;
pub mod frame;
pub mod gz;
pub mod json;
pub mod notice;
pub mod payload;
pub mod session;
pub mod text;
pub mod trace;
